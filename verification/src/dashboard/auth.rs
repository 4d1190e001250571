//! The dashboard's credentials: HTTP basic authentication.

use crate::text;
use vstd::prelude::*;
use vstd::string::StringExecFns;

verus! {

pub const STATUS_UNAUTHORIZED: u16 = 401;

/// The answer to a client without the right credentials, which makes a browser ask for them.
#[derive(Debug, Clone, Copy)]
pub struct Challenge {
    pub status: u16,
    pub body: &'static str,
    pub www_authenticate: &'static str,
}

/// The value of a base64 symbol.
pub open spec fn symbol_value(b: u8) -> Option<int> {
    if 65 <= b <= 90 {
        Some(b - 65)
    } else if 97 <= b <= 122 {
        Some(b - 71)
    } else if 48 <= b <= 57 {
        Some(b + 4)
    } else if b == 43 {
        Some(62)
    } else if b == 47 {
        Some(63)
    } else {
        None
    }
}

/// The base64 symbol for a value below sixty-four.
pub open spec fn symbol(v: int) -> u8 {
    if v < 26 {
        (v + 65) as u8
    } else if v < 52 {
        (v + 71) as u8
    } else if v < 62 {
        (v - 4) as u8
    } else if v == 62 {
        43
    } else {
        47
    }
}

/// The part of a base64 text before the padding.
pub open spec fn before_padding(s: Seq<u8>) -> Seq<u8>
    decreases s.len(),
{
    if s.len() == 0 || s[0] == 61 {
        Seq::empty()
    } else {
        seq![s[0]] + before_padding(s.drop_first())
    }
}

/// All bytes are base64 symbols.
pub open spec fn all_symbols(s: Seq<u8>) -> bool {
    forall|i: int| 0 <= i < s.len() ==> symbol_value(#[trigger] s[i]) is Some
}

/// The values of base64 symbols.
pub open spec fn values(s: Seq<u8>) -> Seq<int> {
    s.map_values(|b: u8| symbol_value(b)->0)
}

/// The byte at a position of what values of six bits spell: four values make three bytes.
pub open spec fn byte_at(v: Seq<int>, j: int) -> u8 {
    let q = j / 3 * 4;
    if j % 3 == 0 {
        (v[q] * 4 + v[q + 1] / 16) as u8
    } else if j % 3 == 1 {
        (v[q + 1] % 16 * 16 + v[q + 2] / 4) as u8
    } else {
        (v[q + 2] % 4 * 64 + v[q + 3]) as u8
    }
}

/// The whole bytes that values of six bits spell.
pub open spec fn bytes_spelled(v: Seq<int>) -> Seq<u8> {
    Seq::new((v.len() * 3 / 4) as nat, |j: int| byte_at(v, j))
}

/// What a base64 text stands for: everything from the padding on is ignored, and a byte before it
/// that is no symbol spoils it all.
pub open spec fn decoded(input: Seq<u8>) -> Option<Seq<u8>> {
    let data = before_padding(input);
    if all_symbols(data) {
        Some(bytes_spelled(values(data)))
    } else {
        None
    }
}

/// The value of six bits at a position of what bytes spell: three bytes make four values, and
/// missing bits are zero.
pub open spec fn value_at(b: Seq<u8>, k: int) -> int {
    let q = k / 4 * 3;
    let next = if q + 1 < b.len() {
        b[q + 1] as int
    } else {
        0
    };
    let last = if q + 2 < b.len() {
        b[q + 2] as int
    } else {
        0
    };
    if k % 4 == 0 {
        b[q] as int / 4
    } else if k % 4 == 1 {
        b[q] as int % 4 * 16 + next / 16
    } else if k % 4 == 2 {
        next % 16 * 4 + last / 64
    } else {
        last % 64
    }
}

/// How many symbols bytes take, padding not counted.
pub open spec fn symbols_for(n: int) -> int {
    (n * 4 + 2) / 3
}

/// Bytes in base64, with padding to a multiple of four.
pub open spec fn encoded(b: Seq<u8>) -> Seq<u8> {
    let m = symbols_for(b.len() as int);
    Seq::new(
        ((b.len() + 2) / 3 * 4) as nat,
        |k: int|
            if k < m {
                symbol(value_at(b, k))
            } else {
                61
            },
    )
}

/// The text is a user and a password with a colon between them, split at its first colon.
pub open spec fn splits_into(t: Seq<char>, user: Seq<char>, pass: Seq<char>) -> bool {
    t == user + ":"@ + pass && !user.contains(':')
}

/// The value of the header carries these credentials.
pub open spec fn carries(header: Seq<char>, user: Seq<char>, pass: Seq<char>) -> bool {
    let h = vstd::utf8::encode_utf8(header);
    let prefix = vstd::utf8::encode_utf8("Basic "@);
    &&& prefix.is_prefix_of(h)
    &&& match decoded(h.skip(prefix.len() as int)) {
        Some(d) => vstd::utf8::valid_utf8(d) && splits_into(
            vstd::utf8::decode_utf8(d),
            user,
            pass,
        ),
        None => false,
    }
}

/// The value of a header, where there is one.
pub open spec fn header_view(header: Option<&str>) -> Option<Seq<char>> {
    match header {
        Some(h) => Some(h@),
        None => None,
    }
}

/// What comes of a header, where there is one: it carries the credentials, or is answered by a challenge.
pub open spec fn is_verdict(
    header: Option<Seq<char>>,
    user: Seq<char>,
    pass: Seq<char>,
    r: Result<(), Challenge>,
) -> bool {
    match r {
        Ok(_) => header is Some && carries(header->0, user, pass),
        Err(c) => {
            &&& header is Some ==> !carries(header->0, user, pass)
            &&& c.status == STATUS_UNAUTHORIZED
            &&& c.body@ == "Unauthorized"@
            &&& c.www_authenticate@ == "Basic realm=\"solana-rpc-cluster\""@
        },
    }
}

fn value_of(b: u8) -> (r: Option<u32>)
    ensures
        match r {
            Some(v) => v < 64 && symbol_value(b) == Some(v as int),
            None => symbol_value(b) is None,
        },
{
    if 65 <= b && b <= 90 {
        Some((b - 65) as u32)
    } else if 97 <= b && b <= 122 {
        Some((b - 71) as u32)
    } else if 48 <= b && b <= 57 {
        Some((b + 4) as u32)
    } else if b == 43 {
        Some(62)
    } else if b == 47 {
        Some(63)
    } else {
        None
    }
}

/// The data before the padding is what stands before the first padding byte.
proof fn lemma_before_padding(s: Seq<u8>, n: int)
    requires
        0 <= n <= s.len(),
        forall|i: int| 0 <= i < n ==> #[trigger] s[i] != 61,
        n < s.len() ==> s[n] == 61,
    ensures
        before_padding(s) == s.take(n),
    decreases n,
{
    if n > 0 {
        assert forall|i: int| 0 <= i < n - 1 implies #[trigger] s.drop_first()[i] != 61 by {
            assert(s[i + 1] != 61);
        }
        lemma_before_padding(s.drop_first(), n - 1);
        assert(s.take(n) =~= seq![s[0]] + s.drop_first().take(n - 1));
    } else {
        assert(s.take(0) =~= Seq::<u8>::empty());
    }
}

/// A prefix with a byte that is no symbol before any padding is part of the data.
proof fn lemma_bad_symbol(s: Seq<u8>, n: int)
    requires
        0 <= n < s.len(),
        forall|i: int| 0 <= i <= n ==> #[trigger] s[i] != 61,
        symbol_value(s[n]) is None,
    ensures
        !all_symbols(before_padding(s)),
    decreases n,
{
    let data = before_padding(s);
    if n > 0 {
        assert forall|i: int| 0 <= i <= n - 1 implies #[trigger] s.drop_first()[i] != 61 by {
            assert(s[i + 1] != 61);
        }
        lemma_bad_symbol(s.drop_first(), n - 1);
        let rest = before_padding(s.drop_first());
        let i = choose|i: int| 0 <= i < rest.len() && symbol_value(#[trigger] rest[i]) is None;
        assert(data[i + 1] == rest[i]);
    } else {
        assert(data[0] == s[0]);
    }
}

/// What a base64 text stands for.
pub fn base64_decode(input: &[u8]) -> (r: Option<Vec<u8>>)
    ensures
        match r {
            Some(v) => decoded(input@) == Some(v@),
            None => decoded(input@) is None,
        },
{
    let mut out: Vec<u8> = Vec::new();
    let mut buf: u32 = 0;
    let mut bits: u32 = 0;
    let mut i: usize = 0;
    while i < input.len() && input[i] != 61
        invariant
            i <= input@.len(),
            forall|k: int| 0 <= k < i ==> #[trigger] input@[k] != 61,
            forall|k: int| 0 <= k < i ==> symbol_value(#[trigger] input@[k]) is Some,
            i as int % 4 == 0 ==> bits == 0 && buf == 0,
            i as int % 4 == 1 ==> bits == 6 && buf == symbol_value(input@[i - 1])->0,
            i as int % 4 == 2 ==> bits == 4 && buf == symbol_value(input@[i - 1])->0 % 16,
            i as int % 4 == 3 ==> bits == 2 && buf == symbol_value(input@[i - 1])->0 % 4,
            out@.len() == i as int * 3 / 4,
            forall|j: int|
                0 <= j < out@.len() ==> #[trigger] out@[j] == byte_at(
                    values(input@.take(i as int)),
                    j,
                ),
        decreases input@.len() - i,
    {
        let val: u32 = match value_of(input[i]) {
            Some(v) => v,
            None => {
                proof {
                    lemma_bad_symbol(input@, i as int);
                }
                return None;
            },
        };
        let ghost before = values(input@.take(i as int));
        let ghost after = values(input@.take(i + 1));
        proof {
            assert(after =~= before.push(val as int));
            assert forall|j: int| 0 <= j < out@.len() implies #[trigger] out@[j] == byte_at(
                after,
                j,
            ) by {
                assert(byte_at(before, j) == byte_at(after, j));
            }
            if i > 0 {
                assert(after[i - 1] == symbol_value(input@[i - 1])->0);
            }
        }
        let acc: u32 = buf * 64 + val;
        if bits == 0 {
            bits = 6;
            buf = acc;
        } else {
            let ghost j = out@.len() as int;
            if bits == 6 {
                bits = 4;
                assert(j == (i as int - 1) / 4 * 3);
                assert(acc / 16 == after[i - 1] * 4 + after[i as int] / 16);
                out.push((acc / 16) as u8);
                buf = acc % 16;
            } else if bits == 4 {
                bits = 2;
                assert(j == (i as int - 2) / 4 * 3 + 1);
                assert(acc / 4 == after[i - 1] % 16 * 16 + after[i as int] / 4);
                out.push((acc / 4) as u8);
                buf = acc % 4;
            } else {
                bits = 0;
                assert(j == (i as int - 3) / 4 * 3 + 2);
                out.push(acc as u8);
                buf = 0;
            }
        }
        i = i + 1;
    }
    proof {
        lemma_before_padding(input@, i as int);
        let data = input@.take(i as int);
        assert(all_symbols(data));
        assert(out@ =~= bytes_spelled(values(data)));
    }
    Some(out)
}

fn has_colon(s: &str) -> (r: bool)
    ensures
        r == s@.contains(':'),
{
    let chars = text::chars_of(s);
    let mut i: usize = 0;
    while i < chars.len()
        invariant
            i <= chars@.len(),
            chars@ == s@,
            forall|j: int| 0 <= j < i ==> chars@[j] != ':',
        decreases chars@.len() - i,
    {
        if chars[i] == ':' {
            assert(s@[i as int] == ':');
            return true;
        }
        i = i + 1;
    }
    false
}

/// Whether the authorization header, where there is one, carries the expected credentials.
pub fn check_basic_auth(header: Option<&str>, expected_user: &str, expected_pass: &str) -> (r: Result<
    (),
    Challenge,
>)
    ensures
        is_verdict(header_view(header), expected_user@, expected_pass@, r),
{
    let refused = Challenge {
        status: STATUS_UNAUTHORIZED,
        body: "Unauthorized",
        www_authenticate: "Basic realm=\"solana-rpc-cluster\"",
    };
    let h = match header {
        Some(h) => h.as_bytes(),
        None => {
            return Err(refused);
        },
    };
    let prefix = "Basic ".as_bytes();
    let n: usize = prefix.len();
    if h.len() < n || !text::bytes_eq(vstd::slice::slice_subrange(h, 0, n), prefix) {
        assert(!prefix@.is_prefix_of(h@));
        return Err(refused);
    }
    assert(prefix@.is_prefix_of(h@)) by {
        assert(h@.subrange(0, n as int) == prefix@);
    }
    let payload = vstd::slice::slice_subrange(h, n, h.len());
    assert(payload@ =~= h@.skip(n as int));
    match base64_decode(payload) {
        None => Err(refused),
        Some(d) => {
            let mut expected = text::concat(expected_user, ":");
            expected.append(expected_pass);
            proof {
                let t = expected@;
                vstd::utf8::encode_utf8_valid_utf8(t);
                vstd::utf8::encode_utf8_decode_utf8(t);
                if vstd::utf8::valid_utf8(d@) {
                    vstd::utf8::decode_utf8_encode_utf8(d@);
                }
            }
            if text::bytes_eq(d.as_slice(), expected.as_str().as_bytes()) && !has_colon(
                expected_user,
            ) {
                Ok(())
            } else {
                Err(refused)
            }
        },
    }
}

/// Decoding what was encoded gives the bytes back.
pub proof fn law_base64_round_trip(b: Seq<u8>)
    ensures
        decoded(encoded(b)) == Some(b),
{
    let e = encoded(b);
    let n = b.len() as int;
    let m = symbols_for(n);
    assert forall|k: int| 0 <= k < m implies 0 <= #[trigger] value_at(b, k) < 64 by {
        assert(k / 4 * 3 < n);
    }
    assert forall|k: int| 0 <= k < m implies #[trigger] e[k] != 61 && symbol_value(e[k]) == Some(
        value_at(b, k),
    ) by {
        assert(0 <= value_at(b, k) < 64);
    }
    lemma_before_padding(e, m);
    let data = e.take(m);
    let v = values(data);
    assert(all_symbols(data)) by {
        assert forall|i: int| 0 <= i < data.len() implies symbol_value(#[trigger] data[i]) is Some by {
            assert(data[i] == e[i]);
        }
    }
    assert forall|k: int| 0 <= k < m implies #[trigger] v[k] == value_at(b, k) by {
        assert(data[k] == e[k]);
    }
    assert(m * 3 / 4 == n);
    assert forall|j: int| 0 <= j < n implies #[trigger] bytes_spelled(v)[j] == b[j] by {
        lemma_byte_of_values(b, v, j);
    }
    assert(bytes_spelled(v) =~= b);
}

proof fn lemma_byte_of_values(b: Seq<u8>, v: Seq<int>, j: int)
    requires
        0 <= j < b.len(),
        v.len() == symbols_for(b.len() as int),
        forall|k: int| 0 <= k < v.len() ==> #[trigger] v[k] == value_at(b, k),
    ensures
        byte_at(v, j) == b[j],
{
    let t = j / 3;
    let q = t * 4;
    assert((q + 1) / 4 == t && (q + 1) % 4 == 1);
    assert(q / 4 == t && q % 4 == 0);
    assert((q + 2) / 4 == t && (q + 2) % 4 == 2);
    assert((q + 3) / 4 == t && (q + 3) % 4 == 3);
    if j % 3 == 0 {
        assert(j == t * 3);
        assert(v[q] == value_at(b, q));
        assert(v[q + 1] == value_at(b, q + 1));
    } else if j % 3 == 1 {
        assert(j == t * 3 + 1);
        assert(v[q + 1] == value_at(b, q + 1));
        assert(v[q + 2] == value_at(b, q + 2));
    } else {
        assert(j == t * 3 + 2);
        assert(v[q + 2] == value_at(b, q + 2));
        assert(v[q + 3] == value_at(b, q + 3));
    }
}

/// The right credentials, encoded as clients do, are accepted: for any user without a colon and any
/// password.
pub proof fn law_right_credentials_pass(header: Seq<char>, user: Seq<char>, pass: Seq<char>)
    requires
        !user.contains(':'),
        vstd::utf8::encode_utf8(header) == vstd::utf8::encode_utf8("Basic "@) + encoded(
            vstd::utf8::encode_utf8(user + ":"@ + pass),
        ),
    ensures
        carries(header, user, pass),
{
    let t = user + ":"@ + pass;
    let h = vstd::utf8::encode_utf8(header);
    let prefix = vstd::utf8::encode_utf8("Basic "@);
    let payload = encoded(vstd::utf8::encode_utf8(t));
    assert(h.skip(prefix.len() as int) =~= payload);
    law_base64_round_trip(vstd::utf8::encode_utf8(t));
    vstd::utf8::encode_utf8_valid_utf8(t);
    vstd::utf8::encode_utf8_decode_utf8(t);
}

/// A header carries at most one pair of credentials.
pub proof fn law_one_pair_of_credentials(
    header: Seq<char>,
    user: Seq<char>,
    pass: Seq<char>,
    other_user: Seq<char>,
    other_pass: Seq<char>,
)
    requires
        carries(header, user, pass),
        carries(header, other_user, other_pass),
    ensures
        user == other_user,
        pass == other_pass,
{
    reveal_strlit(":");
    let t = user + ":"@ + pass;
    let n = user.len() as int;
    let m = other_user.len() as int;
    assert(t == other_user + ":"@ + other_pass);
    assert(t[n] == ':');
    assert(t[m] == ':');
    if n < m {
        assert(other_user[n] == ':');
    }
    if m < n {
        assert(user[m] == ':');
    }
    assert(user =~= t.take(n));
    assert(other_user =~= t.take(n));
    assert(pass =~= t.skip(n + 1));
    assert(other_pass =~= t.skip(n + 1));
}

/// The right credentials, encoded as clients do, let one in; any others, encoded so, and no header at all
/// are answered by a challenge.
pub proof fn law_only_the_right_credentials_let_in(
    header: Seq<char>,
    user: Seq<char>,
    pass: Seq<char>,
    expected_user: Seq<char>,
    expected_pass: Seq<char>,
    r: Result<(), Challenge>,
    without: Result<(), Challenge>,
)
    requires
        !user.contains(':'),
        vstd::utf8::encode_utf8(header) == vstd::utf8::encode_utf8("Basic "@) + encoded(
            vstd::utf8::encode_utf8(user + ":"@ + pass),
        ),
        is_verdict(Some(header), expected_user, expected_pass, r),
        is_verdict(None, expected_user, expected_pass, without),
    ensures
        r is Ok <==> user == expected_user && pass == expected_pass,
        r is Err ==> r->Err_0.status == 401,
        without is Err,
        without->Err_0.status == 401,
{
    law_right_credentials_pass(header, user, pass);
    if r is Ok {
        law_one_pair_of_credentials(header, user, pass, expected_user, expected_pass);
    }
}

/// A header of another scheme carries no credentials, whatever follows; and one carries those that its text
/// spells, split at the first colon, so that a user has none and a password may.
pub proof fn law_only_basic_credentials_count(header: Seq<char>, user: Seq<char>, pass: Seq<char>)
    ensures
        !vstd::utf8::encode_utf8("Basic "@).is_prefix_of(vstd::utf8::encode_utf8(header))
            ==> !carries(header, user, pass),
        user.contains(':') ==> !carries(header, user, pass),
{
}

/// The symbols are the letters, capitals first, the digits, plus and slash, in this order, and no other
/// byte is one.
pub proof fn law_symbols_in_order(b: u8, v: int)
    requires
        0 <= v < 64,
    ensures
        symbol_value(b) == Some(v) <==> b == symbol(v),
        v < 26 ==> symbol(v) == 'A' as int + v,
        26 <= v < 52 ==> symbol(v) == 'a' as int + (v - 26),
        52 <= v < 62 ==> symbol(v) == '0' as int + (v - 52),
        v == 62 ==> symbol(v) == '+' as int,
        v == 63 ==> symbol(v) == '/' as int,
        symbol_value(b) is Some ==> 0 <= symbol_value(b)->0 < 64,
{
}

/// Four symbols spell three bytes: what the values say as digits to the base of sixty-four, the bytes say
/// to the base of two hundred and fifty-six.
pub proof fn law_four_symbols_spell_three_bytes(v: Seq<int>, g: int)
    requires
        0 <= g,
        4 * g + 3 < v.len(),
        forall|k: int| 0 <= k < v.len() ==> 0 <= #[trigger] v[k] < 64,
    ensures
        bytes_spelled(v).len() == v.len() * 3 / 4,
        bytes_spelled(v)[3 * g] * 65536 + bytes_spelled(v)[3 * g + 1] * 256 + bytes_spelled(v)[3 * g
            + 2] == v[4 * g] * 262144 + v[4 * g + 1] * 4096 + v[4 * g + 2] * 64 + v[4 * g + 3],
{
    let b = bytes_spelled(v);
    assert((3 * g) / 3 == g && (3 * g) % 3 == 0);
    assert((3 * g + 1) / 3 == g && (3 * g + 1) % 3 == 1);
    assert((3 * g + 2) / 3 == g && (3 * g + 2) % 3 == 2);
    assert(0 <= v[4 * g] < 64 && 0 <= v[4 * g + 1] < 64 && 0 <= v[4 * g + 2] < 64 && 0 <= v[4 * g
        + 3] < 64);
    assert(b[3 * g] == byte_at(v, 3 * g));
    assert(b[3 * g + 1] == byte_at(v, 3 * g + 1));
    assert(b[3 * g + 2] == byte_at(v, 3 * g + 2));
}

/// What stands from the padding on does not count, and a byte before it that is no symbol spoils the
/// whole.
pub proof fn law_padding_ends_the_data(data: Seq<u8>, rest: Seq<u8>, i: int)
    requires
        forall|k: int| 0 <= k < data.len() ==> #[trigger] data[k] != 61,
        0 <= i < data.len(),
    ensures
        decoded(data + seq![61u8] + rest) == decoded(data),
        symbol_value(data[i]) is None ==> decoded(data) is None,
        (forall|k: int| 0 <= k < data.len() ==> symbol_value(#[trigger] data[k]) is Some)
            ==> decoded(data) is Some && decoded(data)->0 == bytes_spelled(values(data)),
{
    let n = data.len() as int;
    let all = data + seq![61u8] + rest;
    assert forall|k: int| 0 <= k < n implies #[trigger] all[k] != 61 by {
        assert(all[k] == data[k]);
    }
    assert(all[n] == 61);
    lemma_before_padding(all, n);
    lemma_before_padding(data, n);
    assert(all.take(n) =~= data);
    assert(data.take(n) =~= data);
}

} // verus!
