//! Text as sequences of characters: comparing, trimming, splitting and printing numbers.

use vstd::prelude::*;
use vstd::string::StringExecFns;

verus! {

/// `String::push` appends one character.
pub assume_specification[ String::push ](s: &mut String, c: char)
    ensures
        final(s)@ == old(s)@.push(c),
;

/// The character sequences that a list of strings holds.
pub open spec fn views(v: Seq<String>) -> Seq<Seq<char>> {
    v.map_values(|s: String| s@)
}

/// The characters that hold an optional string.
pub open spec fn opt_view(s: Option<String>) -> Option<Seq<char>> {
    match s {
        Some(t) => Some(t@),
        None => None,
    }
}

/// Whether a character has the Unicode `White_Space` property.
pub open spec fn is_space(c: char) -> bool {
    ||| '\u{9}' <= c <= '\u{d}'
    ||| c == ' '
    ||| c == '\u{85}'
    ||| c == '\u{a0}'
    ||| c == '\u{1680}'
    ||| '\u{2000}' <= c <= '\u{200a}'
    ||| c == '\u{2028}'
    ||| c == '\u{2029}'
    ||| c == '\u{202f}'
    ||| c == '\u{205f}'
    ||| c == '\u{3000}'
}

/// `s` without its leading white space.
pub open spec fn trim_start(s: Seq<char>) -> Seq<char>
    decreases s.len(),
{
    if s.len() > 0 && is_space(s[0]) {
        trim_start(s.drop_first())
    } else {
        s
    }
}

/// `s` without its trailing white space.
pub open spec fn trim_end(s: Seq<char>) -> Seq<char>
    decreases s.len(),
{
    if s.len() > 0 && is_space(s.last()) {
        trim_end(s.drop_last())
    } else {
        s
    }
}

/// `s` without white space at either end.
pub open spec fn trimmed(s: Seq<char>) -> Seq<char> {
    trim_end(trim_start(s))
}

/// The pieces of `s` between the occurrences of `sep`; there is always at least one piece.
pub open spec fn split(s: Seq<char>, sep: char) -> Seq<Seq<char>>
    decreases s.len(),
{
    if s.len() == 0 {
        seq![Seq::<char>::empty()]
    } else {
        let before = split(s.drop_last(), sep);
        if s.last() == sep {
            before.push(Seq::<char>::empty())
        } else {
            before.drop_last().push(before.last().push(s.last()))
        }
    }
}

/// The decimal digit for a number below ten.
pub open spec fn digit(d: int) -> char {
    if d == 0 {
        '0'
    } else if d == 1 {
        '1'
    } else if d == 2 {
        '2'
    } else if d == 3 {
        '3'
    } else if d == 4 {
        '4'
    } else if d == 5 {
        '5'
    } else if d == 6 {
        '6'
    } else if d == 7 {
        '7'
    } else if d == 8 {
        '8'
    } else {
        '9'
    }
}

/// `n` in decimal, without leading zeros.
pub open spec fn decimal(n: nat) -> Seq<char>
    decreases n,
{
    if n < 10 {
        seq![digit(n as int)]
    } else {
        decimal(n / 10).push(digit((n % 10) as int))
    }
}

/// `items` joined by `sep`.
pub open spec fn joined(items: Seq<Seq<char>>, sep: Seq<char>) -> Seq<char>
    decreases items.len(),
{
    if items.len() == 0 {
        Seq::<char>::empty()
    } else if items.len() == 1 {
        items[0]
    } else {
        joined(items.drop_last(), sep) + sep + items.last()
    }
}

/// Of what is joined, each piece stands in its place, and between two of them what separates them:
/// nothing makes nothing, one piece is itself, and one more goes behind the rest.
pub proof fn law_joined_pieces_stand_in_order(
    items: Seq<Seq<char>>,
    last: Seq<char>,
    sep: Seq<char>,
)
    ensures
        joined(Seq::empty(), sep) == Seq::<char>::empty(),
        joined(seq![last], sep) == last,
        items.len() > 0 ==> joined(items.push(last), sep) == joined(items, sep) + sep + last,
{
    assert(items.push(last).drop_last() =~= items);
}

/// Whether `needle` occurs in `hay` as a run of adjacent bytes.
pub open spec fn occurs(hay: Seq<u8>, needle: Seq<u8>) -> bool {
    exists|i: int|
        0 <= i <= hay.len() - needle.len() && #[trigger] hay.subrange(i, i + needle.len())
            == needle
}

/// What is searched for is found wherever it stands, and only where it stands: exactly in bytes that
/// are some bytes, it, and some more.
pub proof fn law_found_wherever_it_stands(before: Seq<u8>, needle: Seq<u8>, after: Seq<u8>, hay: Seq<u8>)
    ensures
        occurs(before + needle + after, needle),
        occurs(hay, needle) ==> exists|pre: Seq<u8>, post: Seq<u8>|
            hay == #[trigger] (pre + needle + post),
{
    let all = before + needle + after;
    let n = before.len() as int;
    assert(all.subrange(n, n + needle.len()) =~= needle);
    if occurs(hay, needle) {
        let i = choose|i: int|
            0 <= i <= hay.len() - needle.len() && #[trigger] hay.subrange(i, i + needle.len())
                == needle;
        let pre = hay.subrange(0, i);
        let post = hay.subrange(i + needle.len(), hay.len() as int);
        assert forall|j: int| 0 <= j < needle.len() implies hay[i + j] == needle[j] by {
            assert(hay.subrange(i, i + needle.len())[j] == hay[i + j]);
        }
        assert(hay =~= pre + needle + post);
    }
}

/// Two texts are equal exactly when their encodings are.
pub proof fn lemma_bytes_determine_text(a: Seq<char>, b: Seq<char>)
    ensures
        (vstd::utf8::encode_utf8(a) == vstd::utf8::encode_utf8(b)) == (a == b),
{
    vstd::utf8::encode_utf8_decode_utf8(a);
    vstd::utf8::encode_utf8_decode_utf8(b);
}

/// The encoding of one text after another.
pub proof fn lemma_encode_concat(a: Seq<char>, b: Seq<char>)
    ensures
        vstd::utf8::encode_utf8(a + b) == vstd::utf8::encode_utf8(a) + vstd::utf8::encode_utf8(b),
    decreases a.len(),
{
    if a.len() == 0 {
        assert(a + b =~= b);
        assert(vstd::utf8::encode_utf8(a) + vstd::utf8::encode_utf8(b) =~= vstd::utf8::encode_utf8(
            b,
        ));
    } else {
        assert((a + b).drop_first() =~= a.drop_first() + b);
        lemma_encode_concat(a.drop_first(), b);
        assert(vstd::utf8::encode_utf8(a + b) =~= vstd::utf8::encode_utf8(a)
            + vstd::utf8::encode_utf8(b));
    }
}

/// Only the empty text has an empty encoding.
pub proof fn lemma_encode_empty(s: Seq<char>)
    ensures
        vstd::utf8::encode_utf8(s).len() == 0 <==> s.len() == 0,
{
    lemma_bytes_determine_text(s, Seq::empty());
    assert(vstd::utf8::encode_utf8(Seq::<char>::empty()) =~= Seq::<u8>::empty());
    if vstd::utf8::encode_utf8(s).len() == 0 {
        assert(vstd::utf8::encode_utf8(s) =~= Seq::<u8>::empty());
    }
    if s.len() == 0 {
        assert(s =~= Seq::<char>::empty());
    }
}

/// Whether the bytes hold a word.
pub open spec fn mentions(hay: Seq<u8>, word: Seq<char>) -> bool {
    occurs(hay, vstd::utf8::encode_utf8(word))
}

/// What holds a word holds every beginning of it.
pub proof fn lemma_mentions_beginning(hay: Seq<u8>, word: Seq<char>, rest: Seq<char>)
    requires
        mentions(hay, word + rest),
    ensures
        mentions(hay, word),
{
    let a = vstd::utf8::encode_utf8(word);
    let b = vstd::utf8::encode_utf8(rest);
    lemma_encode_concat(word, rest);
    let i = choose|i: int|
        0 <= i <= hay.len() - (a + b).len() && #[trigger] hay.subrange(i, i + (a + b).len()) == a
            + b;
    assert(hay.subrange(i, i + a.len()) =~= (a + b).subrange(0, a.len() as int)) by {
        assert(hay.subrange(i, i + (a + b).len()).subrange(0, a.len() as int) =~= hay.subrange(
            i,
            i + a.len(),
        ));
    }
    assert((a + b).subrange(0, a.len() as int) =~= a);
}

/// The pieces of a text, put together again with the separator between them, are the text, and no
/// piece holds the separator.
pub proof fn law_pieces_make_up_the_text(s: Seq<char>, sep: char)
    ensures
        split(s, sep).len() > 0,
        joined(split(s, sep), seq![sep]) == s,
        forall|i: int, j: int|
            0 <= i < split(s, sep).len() && 0 <= j < split(s, sep)[i].len() ==> (
            #[trigger] split(s, sep)[i][j]) != sep,
    decreases s.len(),
{
    let all = split(s, sep);
    if s.len() == 0 {
        assert(joined(all, seq![sep]) =~= s);
    } else {
        let before = split(s.drop_last(), sep);
        law_pieces_make_up_the_text(s.drop_last(), sep);
        assert(s =~= s.drop_last().push(s.last()));
        if s.last() == sep {
            assert(all.drop_last() =~= before);
            assert(joined(all, seq![sep]) =~= s);
        } else {
            let grown = before.last().push(s.last());
            assert(all.drop_last() =~= before.drop_last());
            if before.len() == 1 {
                assert(joined(all, seq![sep]) =~= s);
            } else {
                assert(joined(before, seq![sep]) == joined(before.drop_last(), seq![sep])
                    + seq![sep] + before.last());
                assert(joined(all, seq![sep]) =~= s);
            }
            assert forall|i: int, j: int|
                0 <= i < all.len() && 0 <= j < all[i].len() implies (#[trigger] all[i][j]) != sep by {
                if i < before.len() - 1 {
                    assert(before[i][j] == all[i][j]);
                } else if j < before.last().len() {
                    assert(before[before.len() - 1][j] == all[i][j]);
                }
            }
        }
    }
}

/// Trimming takes off white space at both ends, all of it, and nothing else: what is left begins
/// `a` characters into the text and ends `b` characters before its end.
pub proof fn law_trimming_takes_off_white_space_only(s: Seq<char>) -> (ends: (int, int))
    ensures
        0 <= ends.0,
        0 <= ends.1,
        ends.0 + ends.1 <= s.len(),
        trimmed(s) == s.subrange(ends.0, s.len() - ends.1),
        forall|i: int| 0 <= i < ends.0 ==> is_space(#[trigger] s[i]),
        forall|i: int| s.len() - ends.1 <= i < s.len() ==> is_space(#[trigger] s[i]),
        trimmed(s).len() > 0 ==> !is_space(trimmed(s)[0]) && !is_space(trimmed(s).last()),
{
    let a = lemma_trim_start(s);
    let rest = trim_start(s);
    let b = lemma_trim_end(rest);
    assert(trimmed(s) =~= s.subrange(a, s.len() - b));
    assert forall|i: int| s.len() - b <= i < s.len() implies is_space(#[trigger] s[i]) by {
        assert(rest[i - a] == s[i]);
    }
    if trimmed(s).len() > 0 {
        assert(trimmed(s)[0] == rest[0]);
    }
    (a, b)
}

proof fn lemma_trim_start(s: Seq<char>) -> (a: int)
    ensures
        0 <= a <= s.len(),
        trim_start(s) == s.skip(a),
        forall|i: int| 0 <= i < a ==> is_space(#[trigger] s[i]),
        trim_start(s).len() > 0 ==> !is_space(trim_start(s)[0]),
    decreases s.len(),
{
    if s.len() > 0 && is_space(s[0]) {
        let rest = s.drop_first();
        let a = lemma_trim_start(rest);
        assert(rest.skip(a) =~= s.skip(a + 1));
        assert forall|i: int| 0 <= i < a + 1 implies is_space(#[trigger] s[i]) by {
            if i > 0 {
                assert(rest[i - 1] == s[i]);
            }
        }
        a + 1
    } else {
        assert(s.skip(0) =~= s);
        0
    }
}

proof fn lemma_trim_end(s: Seq<char>) -> (b: int)
    ensures
        0 <= b <= s.len(),
        trim_end(s) == s.take(s.len() - b),
        forall|i: int| s.len() - b <= i < s.len() ==> is_space(#[trigger] s[i]),
        trim_end(s).len() > 0 ==> !is_space(trim_end(s).last()),
    decreases s.len(),
{
    if s.len() > 0 && is_space(s.last()) {
        let rest = s.drop_last();
        let b = lemma_trim_end(rest);
        assert(rest.take(rest.len() - b) =~= s.take(s.len() - b - 1));
        assert forall|i: int| s.len() - (b + 1) <= i < s.len() implies is_space(
            #[trigger] s[i],
        ) by {
            if i < rest.len() {
                assert(rest[i] == s[i]);
            }
        }
        b + 1
    } else {
        assert(s.take(s.len() as int) =~= s);
        0
    }
}

/// The number that decimal digits spell.
pub open spec fn number(digits: Seq<char>) -> int
    decreases digits.len(),
{
    if digits.len() == 0 {
        0
    } else {
        10 * number(digits.drop_last()) + (digits.last() as int - '0' as int)
    }
}

/// A number in decimal reads back as the number, with digits only, and does not begin with a zero,
/// unless it is zero.
pub proof fn law_decimal_reads_back(n: nat)
    ensures
        number(decimal(n)) == n,
        decimal(n).len() > 0,
        forall|i: int| 0 <= i < decimal(n).len() ==> '0' <= #[trigger] decimal(n)[i] <= '9',
        n > 0 ==> decimal(n)[0] != '0',
    decreases n,
{
    let s = decimal(n);
    if n < 10 {
        assert(s.drop_last() =~= Seq::<char>::empty());
        assert(number(s.drop_last()) == 0);
    } else {
        law_decimal_reads_back(n / 10);
        assert(s.drop_last() =~= decimal(n / 10));
        assert(s[0] == decimal(n / 10)[0]);
    }
}

/// Among the plain characters it is the blank, and those from the tab to the carriage return, that are
/// white space; letters, digits and signs are not.
pub proof fn law_plain_white_space(c: char)
    requires
        c < '\u{80}',
    ensures
        is_space(c) <==> c == ' ' || '\t' <= c <= '\r',
{
}

/// Beyond the plain characters nineteen more are white space: the next line and the fixed blank, those of
/// the general punctuation that are blanks or separators, and those of two scripts.
pub proof fn law_other_white_space(c: char)
    requires
        c >= '\u{80}',
    ensures
        is_space(c) <==> {
            let n = c as int;
            ||| n == 133 || n == 160
            ||| 8192 <= n <= 8202
            ||| n == 8232 || n == 8233 || n == 8239 || n == 8287
            ||| n == 5760 || n == 12288
        },
{
}

/// Whether two byte strings are equal.
pub fn bytes_eq(a: &[u8], b: &[u8]) -> (r: bool)
    ensures
        r == (a@ == b@),
{
    if a.len() != b.len() {
        return false;
    }
    let mut i: usize = 0;
    while i < a.len()
        invariant
            a@.len() == b@.len(),
            i <= a@.len(),
            forall|j: int| 0 <= j < i ==> a@[j] == b@[j],
        decreases a@.len() - i,
    {
        if a[i] != b[i] {
            return false;
        }
        i = i + 1;
    }
    assert(a@ =~= b@);
    true
}

/// Whether two texts are equal.
pub fn str_eq(a: &str, b: &str) -> (r: bool)
    ensures
        r == (a@ == b@),
{
    proof {
        lemma_bytes_determine_text(a@, b@);
    }
    bytes_eq(a.as_bytes(), b.as_bytes())
}

/// Whether `list` holds `item`.
pub fn contains_str(list: &Vec<String>, item: &str) -> (r: bool)
    ensures
        r == views(list@).contains(item@),
{
    let mut i: usize = 0;
    while i < list.len()
        invariant
            i <= list@.len(),
            forall|j: int| 0 <= j < i ==> views(list@)[j] != item@,
        decreases list@.len() - i,
    {
        if str_eq(list[i].as_str(), item) {
            assert(views(list@)[i as int] == item@);
            return true;
        }
        i = i + 1;
    }
    false
}

/// One text after the other.
pub fn concat(a: &str, b: &str) -> (r: String)
    ensures
        r@ == a@ + b@,
{
    let mut out = a.to_string();
    out.append(b);
    out
}

/// The encoding of a text.
pub fn bytes_of(s: &str) -> (r: Vec<u8>)
    ensures
        r@ == vstd::utf8::encode_utf8(s@),
{
    let bytes = s.as_bytes();
    let mut out: Vec<u8> = Vec::new();
    let mut i: usize = 0;
    while i < bytes.len()
        invariant
            i <= bytes@.len(),
            out@ == bytes@.take(i as int),
        decreases bytes@.len() - i,
    {
        out.push(bytes[i]);
        i = i + 1;
        assert(out@ =~= bytes@.take(i as int));
    }
    assert(out@ =~= bytes@);
    out
}

/// Whether the bytes hold a word.
pub fn holds_word(hay: &[u8], word: &str) -> (r: bool)
    requires
        word@.len() > 0,
    ensures
        r == mentions(hay@, word@),
{
    proof {
        lemma_encode_empty(word@);
    }
    memchr_find(hay, word.as_bytes())
}

/// Whether a text begins with another.
pub fn begins_with(s: &str, prefix: &str) -> (r: bool)
    ensures
        r == prefix@.is_prefix_of(s@),
{
    let a = chars_of(s);
    let b = chars_of(prefix);
    if a.len() < b.len() {
        return false;
    }
    let mut i: usize = 0;
    while i < b.len()
        invariant
            i <= b@.len() <= a@.len(),
            a@ == s@,
            b@ == prefix@,
            forall|j: int| 0 <= j < i ==> a@[j] == b@[j],
        decreases b@.len() - i,
    {
        if a[i] != b[i] {
            assert(s@.subrange(0, prefix@.len() as int)[i as int] != prefix@[i as int]);
            return false;
        }
        i = i + 1;
    }
    assert(prefix@ =~= s@.subrange(0, prefix@.len() as int));
    true
}

/// A copy of a list of strings.
pub fn clone_strings(list: &Vec<String>) -> (r: Vec<String>)
    ensures
        r@ == list@,
{
    let mut out: Vec<String> = Vec::new();
    let mut i: usize = 0;
    while i < list.len()
        invariant
            i <= list@.len(),
            out@ == list@.take(i as int),
        decreases list@.len() - i,
    {
        out.push(list[i].clone());
        assert(list@.take(i + 1) =~= list@.take(i as int).push(list@[i as int]));
        i = i + 1;
    }
    assert(list@.take(list@.len() as int) =~= list@);
    out
}

/// The characters of a text.
pub fn chars_of(s: &str) -> (r: Vec<char>)
    ensures
        r@ == s@,
{
    let mut out: Vec<char> = Vec::new();
    for c in it: s.chars()
        invariant
            it.seq() == s@,
            out@ == s@.take(it.index() as int),
    {
        out.push(c);
        assert(s@.take(it.index() + 1) =~= s@.take(it.index() as int).push(s@[it.index() as int]));
    }
    assert(s@.take(s@.len() as int) =~= s@);
    out
}

/// The text of the characters from `from` up to `to`.
pub fn text_of(chars: &Vec<char>, from: usize, to: usize) -> (r: String)
    requires
        from <= to <= chars@.len(),
    ensures
        r@ == chars@.subrange(from as int, to as int),
{
    let mut out = String::new();
    let mut i: usize = from;
    while i < to
        invariant
            from <= i <= to <= chars@.len(),
            out@ == chars@.subrange(from as int, i as int),
        decreases to - i,
    {
        out.push(chars[i]);
        assert(chars@.subrange(from as int, i + 1) =~= chars@.subrange(from as int, i as int).push(
            chars@[i as int],
        ));
        i = i + 1;
    }
    out
}

/// Whether a character is white space.
pub fn is_white(c: char) -> (r: bool)
    ensures
        r == is_space(c),
{
    ('\u{9}' <= c && c <= '\u{d}') || c == ' ' || c == '\u{85}' || c == '\u{a0}' || c == '\u{1680}'
        || ('\u{2000}' <= c && c <= '\u{200a}') || c == '\u{2028}' || c == '\u{2029}' || c
        == '\u{202f}' || c == '\u{205f}' || c == '\u{3000}'
}

/// The text without white space at either end.
pub fn trim(s: &str) -> (r: String)
    ensures
        r@ == trimmed(s@),
{
    let chars = chars_of(s);
    let mut lo: usize = 0;
    assert(chars@.skip(0) =~= chars@);
    while lo < chars.len() && is_white(chars[lo])
        invariant
            lo <= chars@.len(),
            trim_start(chars@) == trim_start(chars@.skip(lo as int)),
        decreases chars@.len() - lo,
    {
        assert(chars@.skip(lo as int).drop_first() =~= chars@.skip(lo + 1));
        lo = lo + 1;
    }
    let ghost rest = chars@.skip(lo as int);
    assert(trim_start(chars@) == rest);
    let mut hi: usize = chars.len();
    assert(chars@.subrange(lo as int, hi as int) =~= rest);
    while lo < hi && is_white(chars[hi - 1])
        invariant
            lo <= hi <= chars@.len(),
            trim_end(rest) == trim_end(chars@.subrange(lo as int, hi as int)),
        decreases hi,
    {
        assert(chars@.subrange(lo as int, hi as int).drop_last() =~= chars@.subrange(
            lo as int,
            hi - 1,
        ));
        hi = hi - 1;
    }
    text_of(&chars, lo, hi)
}

/// The pieces of a text between the occurrences of `sep`.
pub fn split_on(s: &str, sep: char) -> (r: Vec<String>)
    ensures
        views(r@) == split(s@, sep),
{
    let chars = chars_of(s);
    let mut out: Vec<String> = Vec::new();
    let mut piece = String::new();
    let mut i: usize = 0;
    assert(chars@.take(0) =~= Seq::<char>::empty());
    assert(views(out@).push(piece@) =~= split(chars@.take(0), sep));
    while i < chars.len()
        invariant
            i <= chars@.len(),
            chars@ == s@,
            views(out@).push(piece@) == split(chars@.take(i as int), sep),
        decreases chars@.len() - i,
    {
        let ghost done = views(out@);
        let ghost open = piece@;
        let ghost next = chars@.take(i + 1);
        assert(next.drop_last() =~= chars@.take(i as int));
        assert(done.push(open).drop_last() =~= done);
        if chars[i] == sep {
            out.push(piece);
            assert(views(out@) =~= done.push(open));
            piece = String::new();
        } else {
            piece.push(chars[i]);
        }
        i = i + 1;
    }
    assert(chars@.take(chars@.len() as int) =~= s@);
    let ghost done = views(out@);
    let ghost open = piece@;
    out.push(piece);
    assert(views(out@) =~= done.push(open));
    out
}

/// The decimal digit for a number below ten.
fn digit_char(d: u64) -> (c: char)
    requires
        d < 10,
    ensures
        c == digit(d as int),
{
    match d {
        0 => '0',
        1 => '1',
        2 => '2',
        3 => '3',
        4 => '4',
        5 => '5',
        6 => '6',
        7 => '7',
        8 => '8',
        _ => '9',
    }
}

/// Appends a number in decimal.
pub fn push_decimal(s: &mut String, n: u64)
    ensures
        final(s)@ == old(s)@ + decimal(n as nat),
    decreases n,
{
    let ghost start = s@;
    if n < 10 {
        s.push(digit_char(n));
        assert(start.push(digit(n as int)) =~= start + decimal(n as nat));
    } else {
        push_decimal(s, n / 10);
        s.push(digit_char(n % 10));
        assert((start + decimal((n / 10) as nat)).push(digit((n % 10) as int)) =~= start + decimal(
            n as nat,
        ));
    }
}

/// A number in decimal.
pub fn to_decimal(n: u64) -> (r: String)
    ensures
        r@ == decimal(n as nat),
{
    let mut s = String::new();
    push_decimal(&mut s, n);
    assert(Seq::<char>::empty() + decimal(n as nat) =~= decimal(n as nat));
    s
}

/// Joins texts with `sep` between them.
pub fn join(items: &Vec<String>, sep: &str) -> (r: String)
    ensures
        r@ == joined(views(items@), sep@),
{
    let mut out = String::new();
    let mut i: usize = 0;
    let ghost all = views(items@);
    assert(all.take(0) =~= Seq::<Seq<char>>::empty());
    while i < items.len()
        invariant
            i <= items@.len(),
            all == views(items@),
            out@ == joined(all.take(i as int), sep@),
        decreases items@.len() - i,
    {
        assert(all.take(i + 1).drop_last() =~= all.take(i as int));
        let ghost start = out@;
        if i > 0 {
            out.append(sep);
        }
        out.append(items[i].as_str());
        if i == 0 {
            assert(start + all[0] =~= all[0]);
        }
        i = i + 1;
    }
    assert(all.take(items@.len() as int) =~= all);
    out
}

/// Whether `needle` occurs in `hay`; an empty needle is never found.
pub fn memchr_find(hay: &[u8], needle: &[u8]) -> (r: bool)
    ensures
        r == (needle@.len() > 0 && occurs(hay@, needle@)),
{
    if needle.len() == 0 || hay.len() < needle.len() {
        return false;
    }
    let n: usize = hay.len();
    let last: usize = n - needle.len();
    let mut i: usize = 0;
    loop
        invariant
            i <= last,
            n == hay@.len(),
            last == hay@.len() - needle@.len(),
            0 < needle@.len() <= hay@.len(),
            forall|j: int|
                0 <= j < i ==> #[trigger] hay@.subrange(j, j + needle@.len()) != needle@,
        decreases last - i,
    {
        if bytes_eq(vstd::slice::slice_subrange(hay, i, i + needle.len()), needle) {
            return true;
        }
        if i == last {
            return false;
        }
        i = i + 1;
    }
}

} // verus!
