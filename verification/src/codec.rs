//! The formats that other crates read and write, as functions on bytes and text.

use vstd::prelude::*;

verus! {

/// What `serde_json` reads as the unsigned number under a top-level name of a JSON document:
/// `None` where the bytes are no JSON, `Some(None)` where the document has no such number.
pub uninterp spec fn json_u64(body: Seq<u8>, name: Seq<char>) -> Option<Option<u64>>;

/// `serde_json::from_slice` into a `Value`, the member under `name`, and `Value::as_u64` of it.
/// The result depends on the bytes and the name alone.
#[verifier::external_body]
pub(crate) fn json_u64_member(body: &[u8], name: &str) -> (r: Option<Option<u64>>)
    ensures
        r == json_u64(body@, name@),
{
    match serde_json::from_slice::<serde_json::Value>(body) {
        Ok(v) => Some(v[name].as_u64()),
        Err(_) => None,
    }
}

/// The texts that `serde_json` reads from a JSON array of strings, or the text of the error where the
/// bytes are none.
pub uninterp spec fn json_texts(body: Seq<u8>) -> Result<Seq<Seq<char>>, Seq<char>>;

/// The texts that a list holds, or the error.
pub open spec fn texts_or_error(r: Result<Vec<String>, String>) -> Result<
    Seq<Seq<char>>,
    Seq<char>,
> {
    match r {
        Ok(v) => Ok(crate::text::views(v@)),
        Err(e) => Err(e@),
    }
}

/// `serde_json::from_slice` into a list of strings, and the error's text where that fails. The result
/// depends on the bytes alone.
#[verifier::external_body]
pub(crate) fn json_text_list(body: &[u8]) -> (r: Result<Vec<String>, String>)
    ensures
        texts_or_error(r) == json_texts(body@),
{
    match serde_json::from_slice::<Vec<String>>(body) {
        Ok(v) => Ok(v),
        Err(e) => Err(e.to_string()),
    }
}

/// The text of the error with which `hyper::Uri` refuses a URL, or `None` where it accepts it.
pub uninterp spec fn uri_refusal(url: Seq<char>) -> Option<Seq<char>>;

/// `str::parse` into a `hyper::Uri`, and the error's text where that fails. The result depends on
/// the URL alone.
#[verifier::external_body]
pub(crate) fn uri_error(url: &str) -> (r: Option<String>)
    ensures
        crate::text::opt_view(r) == uri_refusal(url@),
{
    match url.parse::<hyper::Uri>() {
        Ok(_) => None,
        Err(e) => Some(e.to_string()),
    }
}

/// The bytes that `bs58` reads from base58 text, or `None` where it refuses the text.
pub uninterp spec fn base58(s: Seq<char>) -> Option<Seq<u8>>;

/// The bytes that an optional vector holds.
pub open spec fn opt_bytes(v: Option<Vec<u8>>) -> Option<Seq<u8>> {
    match v {
        Some(b) => Some(b@),
        None => None,
    }
}

/// `bs58::decode` with the default alphabet, into a vector. The result depends on the text alone.
#[verifier::external_body]
pub(crate) fn decode_b58(s: &str) -> (r: Option<Vec<u8>>)
    ensures
        opt_bytes(r) == base58(s@),
{
    bs58::decode(s).into_vec().ok()
}

/// The text of the error with which `tonic` refuses a URL for a channel, or `None` where it
/// accepts it.
pub uninterp spec fn endpoint_refusal(url: Seq<char>) -> Option<Seq<char>>;

/// `tonic::transport::Channel::from_shared`, and the error's text where that fails. The result
/// depends on the URL alone.
#[verifier::external_body]
pub(crate) fn endpoint_error(url: &str) -> (r: Option<String>)
    ensures
        crate::text::opt_view(r) == endpoint_refusal(url@),
{
    match tonic::transport::Channel::from_shared(url.to_string()) {
        Ok(_) => None,
        Err(e) => Some(e.to_string()),
    }
}

/// Whether a character may stand in a metadata value: anything but control characters, of which
/// only the tab may.
pub open spec fn is_metadata_char(c: char) -> bool {
    c >= ' ' && c != '\u{7f}' || c == '\t'
}

/// `str::parse` into `tonic`'s metadata value, which succeeds exactly where every character of the
/// text may stand in one.
#[verifier::external_body]
pub(crate) fn is_metadata_value(s: &str) -> (r: bool)
    ensures
        r == forall|i: int| 0 <= i < s@.len() ==> is_metadata_char(#[trigger] s@[i]),
{
    s.parse::<tonic::metadata::MetadataValue<tonic::metadata::Ascii>>().is_ok()
}

/// The JSON string that `serde_json` writes for a text, quotes and escapes and all.
pub uninterp spec fn json_string(s: Seq<char>) -> Seq<char>;

/// `serde_json::Value::String`, printed. The result depends on the text alone.
#[verifier::external_body]
pub(crate) fn json_quote(s: &str) -> (r: String)
    ensures
        r@ == json_string(s@),
{
    serde_json::Value::String(s.to_string()).to_string()
}

} // verus!
