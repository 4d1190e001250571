//! The keys that clients may use in place of a whitelisted address.

use crate::chance;
use crate::chance::RandomBytes;
use crate::config::ApiKeyEntry;
use crate::names;
use crate::names::NameMap;
use vstd::prelude::*;

verus! {

/// What is known of a key that is in use.
#[derive(Debug)]
pub struct ApiKeyData {
    pub label: String,
    pub rps: Option<u32>,
    pub tps: Option<u32>,
    pub burst_rps: Option<u32>,
    pub burst_tps: Option<u32>,
    pub created_at: String,
}

impl Clone for ApiKeyData {
    fn clone(&self) -> (r: Self)
        ensures
            r == *self,
    {
        ApiKeyData {
            label: self.label.clone(),
            rps: self.rps,
            tps: self.tps,
            burst_rps: self.burst_rps,
            burst_tps: self.burst_tps,
            created_at: self.created_at.clone(),
        }
    }
}

/// The keys in use.
pub struct ApiKeyStore {
    pub keys: NameMap<ApiKeyData>,
}

/// What is kept of an entry of the configuration.
pub open spec fn data_of(e: ApiKeyEntry) -> ApiKeyData {
    ApiKeyData {
        label: e.label,
        rps: e.rps,
        tps: e.tps,
        burst_rps: e.burst_rps,
        burst_tps: e.burst_tps,
        created_at: e.created_at,
    }
}

/// The keys that the entries put in use: those that are not revoked; of two entries for one key
/// the later counts.
pub open spec fn keys_of(entries: Seq<ApiKeyEntry>) -> Map<Seq<char>, ApiKeyData>
    decreases entries.len(),
{
    if entries.len() == 0 {
        Map::empty()
    } else {
        let before = keys_of(entries.drop_last());
        let e = entries.last();
        if e.revoked {
            before
        } else {
            before.insert(e.key@, data_of(e))
        }
    }
}

impl View for ApiKeyStore {
    type V = Map<Seq<char>, ApiKeyData>;

    open spec fn view(&self) -> Map<Seq<char>, ApiKeyData> {
        self.keys@
    }
}

fn read_keys(entries: &Vec<ApiKeyEntry>) -> (keys: NameMap<ApiKeyData>)
    ensures
        keys.wf(),
        keys@ == keys_of(entries@),
{
    let mut keys: NameMap<ApiKeyData> = NameMap::new();
    let mut i: usize = 0;
    while i < entries.len()
        invariant
            i <= entries@.len(),
            keys.wf(),
            keys@ == keys_of(entries@.take(i as int)),
        decreases entries@.len() - i,
    {
        assert(entries@.take(i + 1).drop_last() =~= entries@.take(i as int));
        let e = &entries[i];
        if !e.revoked {
            keys.insert(
                e.key.clone(),
                ApiKeyData {
                    label: e.label.clone(),
                    rps: e.rps,
                    tps: e.tps,
                    burst_rps: e.burst_rps,
                    burst_tps: e.burst_tps,
                    created_at: e.created_at.clone(),
                },
            );
        }
        i = i + 1;
    }
    assert(entries@.take(i as int) =~= entries@);
    keys
}

impl ApiKeyStore {
    /// No key occurs twice.
    pub open spec fn wf(self) -> bool {
        self.keys.wf()
    }

    /// The keys of the configuration that are not revoked.
    pub fn new(entries: &Vec<ApiKeyEntry>) -> (s: ApiKeyStore)
        ensures
            s.wf(),
            s@ == keys_of(entries@),
    {
        ApiKeyStore { keys: read_keys(entries) }
    }

    /// What is known of a key, where it is in use.
    pub fn validate(&self, key: &str) -> (r: Option<ApiKeyData>)
        requires
            self.wf(),
        ensures
            r == if self@.contains_key(key@) {
                Some(self@[key@])
            } else {
                None
            },
    {
        match self.keys.get(key) {
            Some(d) => Some(d.clone()),
            None => None,
        }
    }

    /// Puts a key in use.
    pub fn add_key(&mut self, key: String, data: ApiKeyData)
        requires
            old(self).wf(),
        ensures
            final(self).wf(),
            final(self)@ == old(self)@.insert(key@, data),
    {
        self.keys.insert(key, data);
    }

    /// Takes a key out of use, and says whether it was in use.
    pub fn revoke_key(&mut self, key: &str) -> (r: bool)
        requires
            old(self).wf(),
        ensures
            final(self).wf(),
            r == old(self)@.contains_key(key@),
            final(self)@ == old(self)@.remove(key@),
    {
        self.keys.remove(key)
    }

    /// The keys in use, each once.
    pub fn list_keys(&self) -> (r: Vec<(String, ApiKeyData)>)
        requires
            self.wf(),
        ensures
            names::entry_names(r@).no_duplicates(),
            names::entry_map(r@) == self@,
    {
        let mut out: Vec<(String, ApiKeyData)> = Vec::new();
        let mut i: usize = 0;
        while i < self.keys.entries.len()
            invariant
                i <= self.keys.entries@.len(),
                out@ == self.keys.entries@.take(i as int),
            decreases self.keys.entries@.len() - i,
        {
            out.push((self.keys.entries[i].0.clone(), self.keys.entries[i].1.clone()));
            i = i + 1;
            assert(out@ =~= self.keys.entries@.take(i as int));
        }
        assert(out@ =~= self.keys.entries@);
        out
    }

    /// Starts over with the keys of a configuration.
    pub fn reload(&mut self, entries: &Vec<ApiKeyEntry>)
        ensures
            final(self).wf(),
            final(self)@ == keys_of(entries@),
    {
        self.keys = read_keys(entries);
    }
}

/// Only keys that some entry names without revoking it are in use.
pub proof fn law_keys_come_from_entries(entries: Seq<ApiKeyEntry>, key: Seq<char>)
    ensures
        keys_of(entries).contains_key(key) <==> exists|i: int|
            0 <= i < entries.len() && (#[trigger] entries[i]).key@ == key && !entries[i].revoked,
    decreases entries.len(),
{
    if entries.len() > 0 {
        let rest = entries.drop_last();
        law_keys_come_from_entries(rest, key);
        if keys_of(rest).contains_key(key) {
            let i = choose|i: int|
                0 <= i < rest.len() && (#[trigger] rest[i]).key@ == key && !rest[i].revoked;
            assert(entries[i] == rest[i]);
        }
        if exists|i: int|
            0 <= i < entries.len() && (#[trigger] entries[i]).key@ == key && !entries[i].revoked {
            let i = choose|i: int|
                0 <= i < entries.len() && (#[trigger] entries[i]).key@ == key
                    && !entries[i].revoked;
            if i < rest.len() {
                assert(rest[i] == entries[i]);
            }
        }
        if !entries.last().revoked && entries.last().key@ == key {
            assert(entries[entries.len() - 1].key@ == key);
        }
    }
}

/// What is known of a key is what its last entry says that is not revoked, each thing in its place.
pub proof fn law_last_entry_says_what_is_known(entries: Seq<ApiKeyEntry>, i: int)
    requires
        0 <= i < entries.len(),
        !entries[i].revoked,
        forall|j: int|
            i < j < entries.len() && (#[trigger] entries[j]).key@ == entries[i].key@ ==>
                entries[j].revoked,
    ensures
        ({
            let e = entries[i];
            let d = keys_of(entries)[e.key@];
            &&& keys_of(entries).contains_key(e.key@)
            &&& d.label@ == e.label@
            &&& d.rps == e.rps
            &&& d.tps == e.tps
            &&& d.burst_rps == e.burst_rps
            &&& d.burst_tps == e.burst_tps
            &&& d.created_at@ == e.created_at@
        }),
    decreases entries.len(),
{
    let rest = entries.drop_last();
    if i < rest.len() {
        assert(rest[i] == entries[i]);
        assert forall|j: int|
            i < j < rest.len() && (#[trigger] rest[j]).key@ == rest[i].key@ implies rest[j].revoked by {
            assert(rest[j] == entries[j]);
        }
        law_last_entry_says_what_is_known(rest, i);
        assert(entries[rest.len() as int] == entries.last());
    }
}

/// A key that was put in use and then revoked is not in use, whatever was known of it before, and
/// no other key is affected.
pub proof fn law_revoked_key_is_gone(
    before: Map<Seq<char>, ApiKeyData>,
    key: Seq<char>,
    data: ApiKeyData,
    other: Seq<char>,
)
    ensures
        !before.insert(key, data).remove(key).contains_key(key),
        other != key ==> before.insert(key, data).remove(key).contains_key(other)
            == before.contains_key(other),
        other != key && before.contains_key(other) ==> before.insert(key, data).remove(key)[other]
            == before[other],
{
}

/// The hexadecimal digit for a number below sixteen.
pub open spec fn hex_digit(d: int) -> char {
    if d < 10 {
        crate::text::digit(d)
    } else if d == 10 {
        'a'
    } else if d == 11 {
        'b'
    } else if d == 12 {
        'c'
    } else if d == 13 {
        'd'
    } else if d == 14 {
        'e'
    } else {
        'f'
    }
}

/// Bytes in hexadecimal, two digits each.
pub open spec fn hex(bytes: Seq<u8>) -> Seq<char>
    decreases bytes.len(),
{
    if bytes.len() == 0 {
        Seq::empty()
    } else {
        hex(bytes.drop_last()).push(hex_digit(bytes.last() as int / 16)).push(
            hex_digit(bytes.last() as int % 16),
        )
    }
}

fn hex_char(d: u8) -> (c: char)
    requires
        d < 16,
    ensures
        c == hex_digit(d as int),
{
    match d {
        0 => '0',
        1 => '1',
        2 => '2',
        3 => '3',
        4 => '4',
        5 => '5',
        6 => '6',
        7 => '7',
        8 => '8',
        9 => '9',
        10 => 'a',
        11 => 'b',
        12 => 'c',
        13 => 'd',
        14 => 'e',
        _ => 'f',
    }
}

/// The key that bytes make: a prefix, and the bytes in hexadecimal.
pub open spec fn key_text(bytes: Seq<u8>) -> Seq<char> {
    "sk_"@ + hex(bytes)
}

/// The key that random bytes make: a prefix, and the bytes in hexadecimal.
pub fn format_api_key(bytes: &[u8]) -> (r: String)
    ensures
        r@ == key_text(bytes@),
{
    let mut out = "sk_".to_string();
    let ghost prefix = out@;
    let mut i: usize = 0;
    assert(bytes@.take(0) =~= Seq::<u8>::empty());
    assert(prefix + hex(bytes@.take(0)) =~= prefix);
    while i < bytes.len()
        invariant
            i <= bytes@.len(),
            out@ == prefix + hex(bytes@.take(i as int)),
        decreases bytes@.len() - i,
    {
        let b: u8 = bytes[i];
        assert(bytes@.take(i + 1).drop_last() =~= bytes@.take(i as int));
        let ghost before = hex(bytes@.take(i as int));
        out.push(hex_char(b / 16));
        out.push(hex_char(b % 16));
        assert(out@ =~= prefix + before.push(hex_digit(b as int / 16)).push(
            hex_digit(b as int % 16),
        ));
        i = i + 1;
    }
    assert(bytes@.take(i as int) =~= bytes@);
    out
}

/// A key that is made of bytes that were drawn.
pub open spec fn is_drawn(key: Seq<char>) -> bool {
    exists|drawn: RandomBytes| (#[trigger] drawn@).len() == 16 && key == key_text(drawn@)
}

/// A new key, made of bytes that were drawn; two calls give the same one only by chance.
pub fn generate_api_key() -> (r: String)
    ensures
        is_drawn(r@),
{
    let drawn = chance::random_bytes();
    let bytes = drawn.get();
    let r = format_api_key(&bytes);
    assert(drawn@ == bytes@);
    r
}

/// A key that was drawn is the prefix and thirty-two digits.
pub proof fn law_drawn_key_has_sixteen_bytes(key: Seq<char>)
    requires
        is_drawn(key),
    ensures
        key.len() == 35,
        key.take(3) == "sk_"@,
        exists|bytes: Seq<u8>| bytes.len() == 16 && key == #[trigger] key_text(bytes),
{
    let drawn = choose|drawn: RandomBytes|
        (#[trigger] drawn@).len() == 16 && key == key_text(drawn@);
    reveal_strlit("sk_");
    lemma_hex_len(drawn@);
    assert(key == key_text(drawn@));
    assert(key.take(3) =~= "sk_"@);
}

/// A key is the prefix and two hexadecimal digits for each byte, the higher half first, in lower case.
pub proof fn law_key_spells_its_bytes(bytes: Seq<u8>, i: int)
    requires
        0 <= i < bytes.len(),
    ensures
        key_text(bytes).len() == 3 + 2 * bytes.len(),
        key_text(bytes)[0] == 's' && key_text(bytes)[1] == 'k' && key_text(bytes)[2] == '_',
        hex_value(key_text(bytes)[3 + 2 * i]) * 16 + hex_value(key_text(bytes)[4 + 2 * i])
            == bytes[i],
        0 <= hex_value(key_text(bytes)[3 + 2 * i]) < 16,
        0 <= hex_value(key_text(bytes)[4 + 2 * i]) < 16,
{
    reveal_strlit("sk_");
    lemma_hex_len(bytes);
    lemma_hex_at(bytes, i);
    assert(key_text(bytes)[3 + 2 * i] == hex(bytes)[2 * i]);
    assert(key_text(bytes)[4 + 2 * i] == hex(bytes)[2 * i + 1]);
}

/// The number that a hexadecimal digit stands for, in lower case.
pub open spec fn hex_value(c: char) -> int {
    if '0' <= c <= '9' {
        c as int - '0' as int
    } else {
        c as int - 'a' as int + 10
    }
}

proof fn lemma_hex_at(bytes: Seq<u8>, i: int)
    requires
        0 <= i < bytes.len(),
    ensures
        hex(bytes).len() == 2 * bytes.len(),
        hex(bytes)[2 * i] == hex_digit(bytes[i] as int / 16),
        hex(bytes)[2 * i + 1] == hex_digit(bytes[i] as int % 16),
        hex_value(hex(bytes)[2 * i]) == bytes[i] as int / 16,
        hex_value(hex(bytes)[2 * i + 1]) == bytes[i] as int % 16,
    decreases bytes.len(),
{
    lemma_hex_len(bytes);
    let rest = bytes.drop_last();
    lemma_hex_len(rest);
    if i < rest.len() {
        lemma_hex_at(rest, i);
        assert(rest[i] == bytes[i]);
    }
}

/// Different bytes make different keys.
pub proof fn law_keys_tell_bytes_apart(a: Seq<u8>, b: Seq<u8>)
    requires
        hex(a) == hex(b),
    ensures
        a == b,
    decreases a.len(),
{
    lemma_hex_len(a);
    lemma_hex_len(b);
    if a.len() > 0 {
        let x = a.last();
        let y = b.last();
        assert(hex(a).last() == hex_digit(x as int % 16));
        assert(hex(b).last() == hex_digit(y as int % 16));
        assert(hex(a)[hex(a).len() - 2] == hex_digit(x as int / 16));
        assert(hex(b)[hex(b).len() - 2] == hex_digit(y as int / 16));
        assert(x as int / 16 == y as int / 16 && x as int % 16 == y as int % 16);
        assert(x == y);
        assert(hex(a.drop_last()) =~= hex(a).drop_last().drop_last());
        assert(hex(b.drop_last()) =~= hex(b).drop_last().drop_last());
        law_keys_tell_bytes_apart(a.drop_last(), b.drop_last());
        assert(a =~= a.drop_last().push(x));
        assert(b =~= b.drop_last().push(y));
    } else {
        assert(a =~= b);
    }
}

proof fn lemma_hex_len(bytes: Seq<u8>)
    ensures
        hex(bytes).len() == 2 * bytes.len(),
    decreases bytes.len(),
{
    if bytes.len() > 0 {
        lemma_hex_len(bytes.drop_last());
    }
}

} // verus!
