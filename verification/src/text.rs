//! Text: searching, splitting, trimming and writing numbers.
//!
//! A string is viewed as the sequence of its characters. The functions here say
//! what they return over that view.
use vstd::prelude::*;
use vstd::string::*;
use vstd::utf8::*;

verus! {

// ---------------------------------------------------------------------------
// What the words mean
// ---------------------------------------------------------------------------

/// The characters with the Unicode property White_Space.
pub open spec fn white_space(c: char) -> bool {
    ||| '\u{9}' <= c <= '\u{d}'
    ||| c == ' '
    ||| c == '\u{85}'
    ||| c == '\u{a0}'
    ||| c == '\u{1680}'
    ||| '\u{2000}' <= c <= '\u{200a}'
    ||| c == '\u{2028}'
    ||| c == '\u{2029}'
    ||| c == '\u{202f}'
    ||| c == '\u{205f}'
    ||| c == '\u{3000}'
}

/// The decimal digits `0` to `9`.
pub open spec fn digit(c: char) -> bool {
    '0' <= c <= '9'
}

/// The hexadecimal digits, in either case.
pub open spec fn hex_digit(c: char) -> bool {
    digit(c) || 'a' <= c <= 'f' || 'A' <= c <= 'F'
}

/// `needle` stands in `hay` at position `i`.
pub open spec fn occurs_at(hay: Seq<char>, needle: Seq<char>, i: int) -> bool {
    0 <= i && i + needle.len() <= hay.len() && hay.subrange(i, i + needle.len()) == needle
}

/// `needle` stands somewhere in `hay`.
pub open spec fn occurs(hay: Seq<char>, needle: Seq<char>) -> bool {
    exists|i: int| occurs_at(hay, needle, i)
}

/// `s` begins with `p`.
pub open spec fn begins(s: Seq<char>, p: Seq<char>) -> bool {
    p.len() <= s.len() && s.take(p.len() as int) == p
}

/// `s` ends with `p`.
pub open spec fn ends(s: Seq<char>, p: Seq<char>) -> bool {
    p.len() <= s.len() && s.skip(s.len() - p.len()) == p
}

/// The words of `s`: its longest runs without white space, in order.
pub open spec fn words(s: Seq<char>) -> Seq<Seq<char>>
    decreases s.len(),
{
    if s.len() == 0 {
        seq![]
    } else {
        let rest = s.drop_last();
        if white_space(s.last()) {
            words(rest)
        } else if rest.len() == 0 || white_space(rest.last()) {
            words(rest).push(seq![s.last()])
        } else {
            grow_last(words(rest), s.last())
        }
    }
}

/// The pieces of `s` between occurrences of `sep`: one more than there are
/// separators, empty ones included.
pub open spec fn pieces(s: Seq<char>, sep: char) -> Seq<Seq<char>>
    decreases s.len(),
{
    if s.len() == 0 {
        seq![seq![]]
    } else if s.last() == sep {
        pieces(s.drop_last(), sep).push(seq![])
    } else {
        grow_last(pieces(s.drop_last(), sep), s.last())
    }
}

/// `parts` with `c` put at the end of the last part.
pub open spec fn grow_last(parts: Seq<Seq<char>>, c: char) -> Seq<Seq<char>> {
    parts.drop_last().push(parts.last().push(c))
}

/// The piece of `s` with index `n`, if there are that many.
pub open spec fn piece(s: Seq<char>, sep: char, n: int) -> Option<Seq<char>> {
    let parts = pieces(s, sep);
    if 0 <= n < parts.len() {
        Some(parts[n])
    } else {
        None
    }
}

/// The longest beginning of `s` that is all digits.
pub open spec fn leading_digits(s: Seq<char>) -> Seq<char>
    decreases s.len(),
{
    if s.len() == 0 || !digit(s[0]) {
        seq![]
    } else {
        seq![s[0]] + leading_digits(s.drop_first())
    }
}

/// `s` without the white space that it begins with.
pub open spec fn trimmed_start(s: Seq<char>) -> Seq<char>
    decreases s.len(),
{
    if s.len() > 0 && white_space(s[0]) {
        trimmed_start(s.drop_first())
    } else {
        s
    }
}

/// `s` without the white space that it ends with.
pub open spec fn trimmed_end(s: Seq<char>) -> Seq<char>
    decreases s.len(),
{
    if s.len() > 0 && white_space(s.last()) {
        trimmed_end(s.drop_last())
    } else {
        s
    }
}

/// `s` without white space at either end.
pub open spec fn trimmed(s: Seq<char>) -> Seq<char> {
    trimmed_end(trimmed_start(s))
}

/// `s` with `p` taken off the front as often as it stands there.
pub open spec fn without_prefix(s: Seq<char>, p: Seq<char>) -> Seq<char>
    decreases s.len(),
{
    if p.len() > 0 && begins(s, p) {
        without_prefix(s.skip(p.len() as int), p)
    } else {
        s
    }
}

/// `s` with `p` taken off the end as often as it stands there.
pub open spec fn without_suffix(s: Seq<char>, p: Seq<char>) -> Seq<char>
    decreases s.len(),
{
    if p.len() > 0 && ends(s, p) {
        without_suffix(s.take(s.len() - p.len()), p)
    } else {
        s
    }
}

/// The digit that writes `d`, for `d` below ten.
pub open spec fn digit_char(d: nat) -> char {
    ('0' as u32 + d) as char
}

/// A natural number in decimal, without leading zeros.
pub open spec fn decimal_nat(n: nat) -> Seq<char>
    decreases n,
{
    if n < 10 {
        seq![digit_char(n)]
    } else {
        decimal_nat(n / 10).push(digit_char(n % 10))
    }
}

/// An integer in decimal, with a minus sign where it is negative.
pub open spec fn decimal(n: int) -> Seq<char> {
    if n < 0 {
        seq!['-'] + decimal_nat((-n) as nat)
    } else {
        decimal_nat(n as nat)
    }
}

/// The first line of `s`, without its line ending (a line feed, or a carriage
/// return and a line feed).
pub open spec fn first_line(s: Seq<char>) -> Seq<char> {
    if s.contains('\n') {
        let line = s.take(s.index_of_first('\n')->0);
        if line.len() > 0 && line.last() == '\r' {
            line.drop_last()
        } else {
            line
        }
    } else {
        s
    }
}

/// The part of `s` between two byte offsets of its UTF-8 encoding: none where an
/// offset is past the end or inside a character.
pub open spec fn byte_range(s: Seq<char>, from: int, to: int) -> Option<Seq<char>> {
    let bytes = encode_utf8(s);
    if 0 <= from <= to <= bytes.len() && is_char_boundary(bytes, from) && is_char_boundary(
        bytes,
        to,
    ) {
        Some(decode_utf8(bytes.subrange(from, to)))
    } else {
        None
    }
}

/// `a` comes before `b` where they first differ, or is a proper beginning of it.
/// This is the order of strings: UTF-8 keeps the order of the characters.
pub open spec fn precedes(a: Seq<char>, b: Seq<char>) -> bool
    decreases a.len(),
{
    if b.len() == 0 {
        false
    } else if a.len() == 0 {
        true
    } else if a[0] == b[0] {
        precedes(a.drop_first(), b.drop_first())
    } else {
        a[0] < b[0]
    }
}

/// The lower case of an ASCII character.
pub open spec fn ascii_lower(c: char) -> char {
    if 'A' <= c <= 'Z' {
        (c as u32 + 32) as char
    } else {
        c
    }
}

/// `n` spaces.
pub open spec fn spaces(n: nat) -> Seq<char> {
    Seq::new(n, |i: int| ' ')
}

/// The texts that a vector of strings holds.
pub open spec fn texts(v: Seq<String>) -> Seq<Seq<char>> {
    v.map_values(|s: String| s@)
}

/// The text that an optional string holds.
pub open spec fn opt_text(o: Option<String>) -> Option<Seq<char>> {
    match o {
        Some(s) => Some(s@),
        None => None,
    }
}

// ---------------------------------------------------------------------------
// Functions of std
// ---------------------------------------------------------------------------

/// What `str::to_lowercase` makes of a string.
pub uninterp spec fn lower(s: Seq<char>) -> Seq<char>;

/// The part of `s` from `i` up to `j` has the same lower case alone as where it
/// stands: it is all ASCII, or there is white space or an end of `s` on either side.
pub open spec fn stands_alone(s: Seq<char>, i: int, j: int) -> bool {
    ||| is_ascii_chars(s.subrange(i, j))
    ||| (i == 0 || white_space(s[i - 1])) && (j == s.len() || white_space(s[j]))
}

/// `str::to_lowercase`: the lower case by the Unicode tables, which are not
/// written out here. Stated beside the name: of a text that is all ASCII it
/// changes the letters `A` to `Z` alone, each to its lower case. And the lower case
/// of a part stands in that of the whole, for a part that is all ASCII or one
/// between white space. Each character has its own lower case, with one exception:
/// that of the capital sigma hangs on whether it ends a word.
pub assume_specification[ str::to_lowercase ](string: &str) -> (r: String)
    ensures
        r@ == lower(string@),
        is_ascii_chars(string@) ==> r@ == string@.map_values(|c: char| ascii_lower(c)),
        forall|i: int, j: int|
            0 <= i <= j <= string@.len() && stands_alone(string@, i, j) ==> occurs(
                r@,
                #[trigger] lower(string@.subrange(i, j)),
            ),
;

/// What `String::from_utf8_lossy` makes of bytes.
pub uninterp spec fn lossy(bytes: Seq<u8>) -> Seq<char>;

/// `String::from_utf8_lossy`: the text of the bytes, with what is not valid UTF-8
/// replaced. Which bytes one replacement character stands for is not written out
/// here. Stated beside the name: valid UTF-8 is decoded as it is.
#[verifier::external_body]
pub(crate) fn from_utf8_lossy(bytes: &[u8]) -> (r: String)
    ensures
        r@ == lossy(bytes@),
        valid_utf8(bytes@) ==> r@ == decode_utf8(bytes@),
{
    String::from_utf8_lossy(bytes).into_owned()
}

/// `String::push`: the character is put at the end.
pub assume_specification[ String::push ](string: &mut String, c: char)
    ensures
        final(string)@ == old(string)@.push(c),
;

/// `String::pop`: the last character is taken off and returned, if there is one.
pub assume_specification[ String::pop ](string: &mut String) -> (r: Option<char>)
    ensures
        old(string)@.len() == 0 ==> r is None && final(string)@ == old(string)@,
        old(string)@.len() > 0 ==> r == Some(old(string)@.last()) && final(string)@ == old(string)@.drop_last(),
;

// ---------------------------------------------------------------------------
// Characters and strings
// ---------------------------------------------------------------------------

/// Whether a character is white space.
pub fn is_white_space(c: char) -> (r: bool)
    ensures
        r == white_space(c),
{
    ('\u{9}' <= c && c <= '\u{d}') || c == ' ' || c == '\u{85}' || c == '\u{a0}' || c == '\u{1680}'
        || ('\u{2000}' <= c && c <= '\u{200a}') || c == '\u{2028}' || c == '\u{2029}' || c
        == '\u{202f}' || c == '\u{205f}' || c == '\u{3000}'
}

/// The characters of a string.
pub fn chars_of(s: &str) -> (r: Vec<char>)
    ensures
        r@ == s@,
{
    let mut out: Vec<char> = Vec::new();
    for c in it: s.chars()
        invariant
            out@ == s@.take(it.index() as int),
            it.seq() == s@,
    {
        out.push(c);
    }
    out
}

/// The string of the characters from `from` up to `to`.
pub fn string_of(chars: &Vec<char>, from: usize, to: usize) -> (r: String)
    requires
        from <= to <= chars@.len(),
    ensures
        r@ == chars@.subrange(from as int, to as int),
{
    let mut out = String::new();
    let mut i: usize = from;
    while i < to
        invariant
            from <= i <= to <= chars@.len(),
            out@ == chars@.subrange(from as int, i as int),
        decreases to - i,
    {
        out.push(chars[i]);
        i += 1;
    }
    out
}

/// Whether two strings hold the same text.
pub fn same(a: &str, b: &str) -> (r: bool)
    ensures
        r == (a@ == b@),
{
    let mut x = a.chars();
    let mut y = b.chars();
    let ghost mut n: int = 0;
    assert(a@.skip(0) =~= a@ && b@.skip(0) =~= b@);
    loop
        invariant
            0 <= n <= a@.len(),
            n <= b@.len(),
            vstd::std_specs::iter::IteratorSpec::remaining(&x) == a@.skip(n),
            vstd::std_specs::iter::IteratorSpec::remaining(&y) == b@.skip(n),
            a@.take(n) == b@.take(n),
        decreases a@.len() - n,
    {
        match (x.next(), y.next()) {
            (Some(c), Some(d)) => {
                if c != d {
                    assert(a@[n] != b@[n]);
                    return false;
                }
                proof {
                    assert(a@.skip(n).drop_first() =~= a@.skip(n + 1));
                    assert(b@.skip(n).drop_first() =~= b@.skip(n + 1));
                    assert(a@.take(n + 1) =~= a@.take(n).push(a@[n]));
                    assert(b@.take(n + 1) =~= b@.take(n).push(b@[n]));
                    n = n + 1;
                }
            },
            (None, None) => {
                assert(a@ =~= a@.take(n) && b@ =~= b@.take(n));
                return true;
            },
            _ => {
                return false;
            },
        }
    }
}

/// Whether `needle` stands in `hay` at position `i`.
fn matches_at(hay: &Vec<char>, needle: &Vec<char>, i: usize) -> (r: bool)
    requires
        i + needle@.len() <= hay@.len(),
    ensures
        r == occurs_at(hay@, needle@, i as int),
{
    let mut j: usize = 0;
    assert(hay@.len() == hay.len());
    while j < needle.len()
        invariant
            i + needle@.len() <= hay@.len() <= usize::MAX,
            j <= needle@.len(),
            forall|k: int| 0 <= k < j ==> hay@[i + k] == needle@[k],
        decreases needle@.len() - j,
    {
        if hay[i + j] != needle[j] {
            assert(hay@.subrange(i as int, i + needle@.len())[j as int] != needle@[j as int]);
            return false;
        }
        j += 1;
    }
    assert(hay@.subrange(i as int, i + needle@.len()) =~= needle@);
    true
}

/// Whether `needle` stands somewhere in `hay`.
pub fn contains(hay: &str, needle: &str) -> (r: bool)
    ensures
        r == occurs(hay@, needle@),
{
    let h = chars_of(hay);
    let n = chars_of(needle);
    if n.len() > h.len() {
        return false;
    }
    let last: usize = h.len() - n.len();
    let mut i: usize = 0;
    loop
        invariant
            h@ == hay@,
            n@ == needle@,
            last + n@.len() == h@.len(),
            i <= last,
            forall|k: int| 0 <= k < i ==> !occurs_at(h@, n@, k),
        decreases last - i,
    {
        if matches_at(&h, &n, i) {
            return true;
        }
        if i == last {
            assert forall|k: int| !occurs_at(hay@, needle@, k) by {}
            return false;
        }
        i += 1;
    }
}

/// Whether `s` begins with `p`.
pub fn starts_with(s: &str, p: &str) -> (r: bool)
    ensures
        r == begins(s@, p@),
{
    let h = chars_of(s);
    let n = chars_of(p);
    if n.len() > h.len() {
        return false;
    }
    assert(h@.subrange(0, n@.len() as int) =~= h@.take(n@.len() as int));
    matches_at(&h, &n, 0)
}

/// The words of `s`, in order.
pub fn split_words(s: &str) -> (r: Vec<String>)
    ensures
        texts(r@) == words(s@),
{
    let c = chars_of(s);
    let mut out: Vec<String> = Vec::new();
    let mut start: usize = 0;
    let mut i: usize = 0;
    assert(texts(out@) =~= words(c@.take(0)));
    while i < c.len()
        invariant
            c@ == s@,
            start <= i <= c@.len(),
            forall|k: int| start <= k < i ==> !white_space(c@[k]),
            start == 0 || white_space(c@[start - 1]),
            texts(out@) == words(c@.take(start as int)),
            start < i ==> words(c@.take(i as int)) == words(c@.take(start as int)).push(
                c@.subrange(start as int, i as int),
            ),
            start == i ==> words(c@.take(i as int)) == texts(out@),
        decreases c@.len() - i,
    {
        let ghost before = c@.take(i as int);
        let ghost after = c@.take(i + 1);
        assert(after.drop_last() =~= before);
        assert(after.last() == c@[i as int]);
        if is_white_space(c[i]) {
            if start < i {
                let ghost done = out@;
                out.push(string_of(&c, start, i));
                assert(texts(out@) =~= texts(done).push(c@.subrange(start as int, i as int)));
            }
            start = i + 1;
        } else {
            if start == i {
                if i > 0 {
                    assert(before.last() == c@[i - 1]);
                }
                assert(c@.subrange(start as int, i + 1) =~= seq![c@[i as int]]);
            } else {
                assert(before.last() == c@[i - 1]);
                let ghost w = words(c@.take(start as int));
                let ghost p = c@.subrange(start as int, i as int);
                assert(w.push(p).drop_last() =~= w);
                assert(p.push(c@[i as int]) =~= c@.subrange(start as int, i + 1));
            }
        }
        i += 1;
    }
    assert(c@.take(i as int) =~= s@);
    if start < i {
        let ghost done = out@;
        out.push(string_of(&c, start, i));
        assert(texts(out@) =~= texts(done).push(c@.subrange(start as int, i as int)));
    }
    out
}

/// The piece of `s` with index `n` between the occurrences of `sep`, if there are
/// that many.
pub fn nth_piece(s: &str, sep: char, n: usize) -> (r: Option<String>)
    ensures
        opt_text(r) == piece(s@, sep, n as int),
{
    let c = chars_of(s);
    let mut out: Vec<String> = Vec::new();
    let mut start: usize = 0;
    let mut i: usize = 0;
    assert(c@.subrange(0, 0) =~= Seq::<char>::empty());
    assert(pieces(c@.take(0), sep) =~= texts(out@).push(c@.subrange(0, 0)));
    while i < c.len()
        invariant
            c@ == s@,
            start <= i <= c@.len(),
            pieces(c@.take(i as int), sep) == texts(out@).push(c@.subrange(start as int, i as int)),
        decreases c@.len() - i,
    {
        let ghost before = c@.take(i as int);
        let ghost after = c@.take(i + 1);
        assert(after.drop_last() =~= before);
        assert(after.last() == c@[i as int]);
        if c[i] == sep {
            let ghost done = out@;
            out.push(string_of(&c, start, i));
            start = i + 1;
            assert(texts(out@) =~= pieces(before, sep));
            assert(c@.subrange(start as int, i + 1) =~= Seq::<char>::empty());
        } else {
            let ghost p = c@.subrange(start as int, i as int);
            assert(texts(out@).push(p).drop_last() =~= texts(out@));
            assert(p.push(c@[i as int]) =~= c@.subrange(start as int, i + 1));
        }
        i += 1;
    }
    assert(c@.take(i as int) =~= s@);
    let ghost done = out@;
    let last = string_of(&c, start, i);
    out.push(last);
    assert(texts(out@) =~= pieces(s@, sep));
    if n < out.len() {
        let r = out[n].clone();
        assert(texts(out@)[n as int] == r@);
        Some(r)
    } else {
        None
    }
}

/// The longest beginning of `s` that is all digits.
pub fn digits_of(s: &str) -> (r: String)
    ensures
        r@ == leading_digits(s@),
{
    let c = chars_of(s);
    let mut i: usize = 0;
    assert(c@.subrange(0, c@.len() as int) =~= c@);
    assert(c@.subrange(0, 0) + leading_digits(c@) =~= leading_digits(c@));
    while i < c.len() && '0' <= c[i] && c[i] <= '9'
        invariant
            c@ == s@,
            i <= c@.len(),
            c@.subrange(0, i as int) + leading_digits(c@.subrange(i as int, c@.len() as int))
                == leading_digits(s@),
        decreases c@.len() - i,
    {
        let ghost rest = c@.subrange(i as int, c@.len() as int);
        assert(rest.drop_first() =~= c@.subrange(i + 1, c@.len() as int));
        assert(c@.subrange(0, i as int) + (seq![rest[0]] + leading_digits(rest.drop_first()))
            =~= c@.subrange(0, i + 1) + leading_digits(rest.drop_first()));
        i += 1;
    }
    let ghost rest = c@.subrange(i as int, c@.len() as int);
    assert(leading_digits(rest) =~= Seq::<char>::empty());
    assert(c@.subrange(0, i as int) + leading_digits(rest) =~= c@.subrange(0, i as int));
    string_of(&c, 0, i)
}

/// `s` without white space at either end.
pub fn trim(s: &str) -> (r: String)
    ensures
        r@ == trimmed(s@),
{
    let c = chars_of(s);
    let mut i: usize = 0;
    assert(c@.subrange(0, c@.len() as int) =~= c@);
    while i < c.len() && is_white_space(c[i])
        invariant
            c@ == s@,
            i <= c@.len(),
            trimmed_start(c@.subrange(i as int, c@.len() as int)) == trimmed_start(s@),
        decreases c@.len() - i,
    {
        assert(c@.subrange(i as int, c@.len() as int).drop_first() =~= c@.subrange(
            i + 1,
            c@.len() as int,
        ));
        i += 1;
    }
    let mut j: usize = c.len();
    assert(trimmed_start(s@) == c@.subrange(i as int, j as int));
    while i < j && is_white_space(c[j - 1])
        invariant
            c@ == s@,
            i <= j <= c@.len(),
            trimmed_end(c@.subrange(i as int, j as int)) == trimmed(s@),
        decreases j,
    {
        assert(c@.subrange(i as int, j as int).drop_last() =~= c@.subrange(i as int, j - 1));
        j -= 1;
    }
    string_of(&c, i, j)
}

/// `s` with `p` taken off the front as often as it stands there.
pub fn trim_start_matches(s: &str, p: &str) -> (r: String)
    ensures
        r@ == without_prefix(s@, p@),
{
    let c = chars_of(s);
    let q = chars_of(p);
    let mut i: usize = 0;
    assert(c@.subrange(0, c@.len() as int) =~= c@);
    while q.len() > 0 && q.len() <= c.len() - i && matches_at(&c, &q, i)
        invariant
            c@ == s@,
            q@ == p@,
            i <= c@.len(),
            without_prefix(c@.subrange(i as int, c@.len() as int), q@) == without_prefix(s@, p@),
        decreases c@.len() - i,
    {
        let ghost rest = c@.subrange(i as int, c@.len() as int);
        assert(rest.take(q@.len() as int) =~= c@.subrange(i as int, i + q@.len()));
        assert(rest.skip(q@.len() as int) =~= c@.subrange(i + q@.len(), c@.len() as int));
        i += q.len();
    }
    let ghost rest = c@.subrange(i as int, c@.len() as int);
    assert(q@.len() <= rest.len() ==> rest.take(q@.len() as int) =~= c@.subrange(
        i as int,
        i + q@.len(),
    ));
    string_of(&c, i, c.len())
}

/// `s` with `p` taken off the end as often as it stands there.
pub fn trim_end_matches(s: &str, p: &str) -> (r: String)
    ensures
        r@ == without_suffix(s@, p@),
{
    let c = chars_of(s);
    let q = chars_of(p);
    let mut j: usize = c.len();
    assert(c@.subrange(0, c@.len() as int) =~= c@);
    while q.len() > 0 && q.len() <= j && matches_at(&c, &q, j - q.len())
        invariant
            c@ == s@,
            q@ == p@,
            j <= c@.len(),
            without_suffix(c@.subrange(0, j as int), q@) == without_suffix(s@, p@),
        decreases j,
    {
        let ghost rest = c@.subrange(0, j as int);
        assert(rest.skip(j - q@.len()) =~= c@.subrange(j - q@.len(), j as int));
        assert(rest.take(j - q@.len()) =~= c@.subrange(0, j - q@.len()));
        j -= q.len();
    }
    let ghost rest = c@.subrange(0, j as int);
    assert(q@.len() <= rest.len() ==> rest.skip(j - q@.len()) =~= c@.subrange(
        j - q@.len(),
        j as int,
    ));
    string_of(&c, 0, j)
}

/// The first line of `s`, without its line ending.
pub fn line_of(s: &str) -> (r: String)
    ensures
        r@ == first_line(s@),
{
    let c = chars_of(s);
    let mut i: usize = 0;
    while i < c.len()
        invariant
            c@ == s@,
            i <= c@.len(),
            forall|k: int| 0 <= k < i ==> c@[k] != '\n',
        decreases c@.len() - i,
    {
        if c[i] == '\n' {
            proof {
                s@.index_of_first_ensures('\n');
                let first = s@.index_of_first('\n')->0;
                assert(first == i);
                assert(s@.take(first) =~= c@.subrange(0, i as int));
            }
            if i > 0 && c[i - 1] == '\r' {
                assert(c@.subrange(0, i as int).drop_last() =~= c@.subrange(0, i - 1));
                return string_of(&c, 0, i - 1);
            }
            return string_of(&c, 0, i);
        }
        i += 1;
    }
    assert(c@.subrange(0, i as int) =~= s@);
    string_of(&c, 0, i)
}

/// The part of `s` between two byte offsets, where both lie between characters.
pub fn get_bytes<'a>(s: &'a str, from: usize, to: usize) -> (r: Option<&'a str>)
    ensures
        match r {
            Some(t) => byte_range(s@, from as int, to as int) == Some(t@),
            None => byte_range(s@, from as int, to as int) is None,
        },
{
    let len: usize = s.as_bytes().len();
    proof {
        encode_utf8_valid_utf8(s@);
    }
    if from <= to && to <= len && s.is_char_boundary(from) && s.is_char_boundary(to) {
        let ghost all = encode_utf8(s@);
        let (head, _) = s.split_at(to);
        proof {
            encode_utf8_valid_utf8(head@);
            if from < to {
                is_char_boundary_iff_not_is_continuation_byte(all, from as int);
                is_char_boundary_iff_not_is_continuation_byte(all.subrange(0, to as int), from as int);
            } else {
                is_char_boundary_start_end_of_seq(all.subrange(0, to as int));
            }
        }
        let (_, part) = head.split_at(from);
        proof {
            assert(all.subrange(0, to as int).subrange(from as int, to as int) =~= all.subrange(
                from as int,
                to as int,
            ));
            encode_utf8_decode_utf8(part@);
        }
        Some(part)
    } else {
        None
    }
}

/// Whether `a` comes before `b`.
pub fn is_before(a: &str, b: &str) -> (r: bool)
    ensures
        r == precedes(a@, b@),
{
    let mut x = a.chars();
    let mut y = b.chars();
    let ghost mut n: int = 0;
    assert(a@.skip(0) =~= a@ && b@.skip(0) =~= b@);
    loop
        invariant
            0 <= n <= a@.len(),
            n <= b@.len(),
            vstd::std_specs::iter::IteratorSpec::remaining(&x) == a@.skip(n),
            vstd::std_specs::iter::IteratorSpec::remaining(&y) == b@.skip(n),
            precedes(a@.skip(n), b@.skip(n)) == precedes(a@, b@),
        decreases a@.len() - n,
    {
        match (x.next(), y.next()) {
            (Some(c), Some(d)) => {
                if c != d {
                    return c < d;
                }
                proof {
                    assert(a@.skip(n).drop_first() =~= a@.skip(n + 1));
                    assert(b@.skip(n).drop_first() =~= b@.skip(n + 1));
                    n = n + 1;
                }
            },
            (None, Some(_)) => {
                return true;
            },
            (_, None) => {
                return false;
            },
        }
    }
}

/// Puts a natural number in decimal at the end of a string.
pub fn push_u64(out: &mut String, n: u64)
    ensures
        final(out)@ == old(out)@ + decimal_nat(n as nat),
    decreases n,
{
    let ghost start = out@;
    let d: u8 = (n % 10) as u8;
    if n >= 10 {
        push_u64(out, n / 10);
    }
    let c: char = (48u8 + d) as char;
    out.push(c);
    assert(out@ =~= start + decimal_nat(n as nat));
}

/// An unsigned number in decimal.
pub fn show_u64(n: u64) -> (r: String)
    ensures
        r@ == decimal(n as int),
{
    let mut out = String::new();
    push_u64(&mut out, n);
    assert(out@ =~= decimal(n as int));
    out
}

/// A signed number in decimal.
pub fn show_i64(n: i64) -> (r: String)
    ensures
        r@ == decimal(n as int),
{
    let mut out = String::new();
    if n < 0 {
        out.push('-');
        assert(out@ =~= seq!['-']);
        let m: u64 = (-(n as i128)) as u64;
        push_u64(&mut out, m);
    } else {
        push_u64(&mut out, n as u64);
        assert(out@ =~= decimal(n as int));
    }
    out
}

/// A string of `n` spaces.
pub fn blank(n: usize) -> (r: String)
    ensures
        r@ == spaces(n as nat),
{
    let mut out = String::new();
    let mut i: usize = 0;
    while i < n
        invariant
            i <= n,
            out@ == spaces(i as nat),
        decreases n - i,
    {
        out.push(' ');
        i += 1;
    }
    out
}

// ---------------------------------------------------------------------------
// The order of strings
// ---------------------------------------------------------------------------

/// No string comes before itself.
pub proof fn lemma_precedes_irreflexive(a: Seq<char>)
    ensures
        !precedes(a, a),
    decreases a.len(),
{
    if a.len() > 0 {
        lemma_precedes_irreflexive(a.drop_first());
    }
}

/// Of two strings, one comes before the other, or they are the same.
pub proof fn lemma_precedes_total(a: Seq<char>, b: Seq<char>)
    ensures
        precedes(a, b) || precedes(b, a) || a == b,
    decreases a.len(),
{
    if a.len() > 0 && b.len() > 0 {
        lemma_precedes_total(a.drop_first(), b.drop_first());
        if a[0] == b[0] && a.drop_first() == b.drop_first() {
            assert(a =~= seq![a[0]] + a.drop_first());
            assert(b =~= seq![b[0]] + b.drop_first());
        }
    } else if a.len() == 0 && b.len() == 0 {
        assert(a =~= b);
    }
}

/// What comes before a string comes before all that the string comes before.
pub proof fn lemma_precedes_transitive(a: Seq<char>, b: Seq<char>, c: Seq<char>)
    requires
        precedes(a, b),
        precedes(b, c),
    ensures
        precedes(a, c),
    decreases a.len(),
{
    if a.len() > 0 && a[0] == b[0] && b[0] == c[0] {
        lemma_precedes_transitive(a.drop_first(), b.drop_first(), c.drop_first());
    }
}

// ---------------------------------------------------------------------------
// Parts of a text
// ---------------------------------------------------------------------------

/// A part of a part is a part.
pub proof fn lemma_occurs_within(whole: Seq<char>, part: Seq<char>, i: int, needle: Seq<char>)
    requires
        occurs_at(whole, part, i),
        occurs(part, needle),
    ensures
        occurs(whole, needle),
{
    let k = choose|k: int| occurs_at(part, needle, k);
    assert(whole.subrange(i + k, i + k + needle.len()) =~= part.subrange(k, k + needle.len()));
    assert(occurs_at(whole, needle, i + k));
}

/// `w` stands in `s` at `i`, between white space or the ends of `s`.
pub open spec fn word_at(s: Seq<char>, i: int, w: Seq<char>) -> bool {
    &&& occurs_at(s, w, i)
    &&& i == 0 || white_space(s[i - 1])
    &&& i + w.len() == s.len() || white_space(s[(i + w.len()) as int])
}

/// `w` stands somewhere in `s` between white space or the ends of `s`.
pub open spec fn word_in(s: Seq<char>, w: Seq<char>) -> bool {
    exists|i: int| word_at(s, i, w)
}

/// A text without white space at its end ends in a word; before that word it has
/// the other words.
proof fn lemma_last_word(s: Seq<char>) -> (st: int)
    requires
        s.len() > 0,
        !white_space(s.last()),
    ensures
        0 <= st < s.len(),
        st == 0 || white_space(s[st - 1]),
        words(s) == words(s.take(st)).push(s.subrange(st, s.len() as int)),
        forall|k: int| st <= k < s.len() ==> !white_space(#[trigger] s[k]),
    decreases s.len(),
{
    let rest = s.drop_last();
    let n = s.len() as int;
    if rest.len() == 0 || white_space(rest.last()) {
        assert(s.take(n - 1) =~= rest);
        assert(s.subrange(n - 1, n) =~= seq![s.last()]);
        n - 1
    } else {
        let st = lemma_last_word(rest);
        let front = words(s.take(st));
        let word = rest.subrange(st, n - 1);
        assert(rest.take(st) =~= s.take(st));
        assert(front.push(word).drop_last() =~= front);
        assert(word.push(s.last()) =~= s.subrange(st, n));
        assert forall|k: int| st <= k < n implies !white_space(#[trigger] s[k]) by {
            if k < n - 1 {
                assert(rest[k] == s[k]);
            }
        }
        st
    }
}

/// Each word of a text stands in it between white space or its ends, and holds no
/// white space itself.
pub proof fn lemma_words_at(s: Seq<char>)
    ensures
        forall|k: int| 0 <= k < words(s).len() ==> word_in(s, #[trigger] words(s)[k]),
        forall|k: int, l: int|
            0 <= k < words(s).len() && 0 <= l < words(s)[k].len() ==> !white_space(
                #[trigger] words(s)[k][l],
            ),
        forall|k: int| 0 <= k < words(s).len() ==> (#[trigger] words(s)[k]).len() > 0,
    decreases s.len(),
{
    let w = words(s);
    if s.len() > 0 {
        let cut = if white_space(s.last()) {
            s.len() - 1
        } else {
            lemma_last_word(s)
        };
        let front = s.take(cut);
        if white_space(s.last()) {
            assert(front =~= s.drop_last());
        }
        lemma_words_at(front);
        let v = words(front);
        assert forall|k: int| 0 <= k < w.len() implies word_in(s, #[trigger] w[k]) by {
            if k < v.len() {
                assert(w[k] == v[k]);
                assert(word_in(front, v[k]));
                let i = choose|i: int| word_at(front, i, v[k]);
                let end = i + v[k].len();
                assert(s.subrange(i, end) =~= front.subrange(i, end));
                if end == front.len() && front.len() < s.len() && !white_space(s.last()) {
                    let last = v[k].len() - 1;
                    assert(front.subrange(i, end)[last] == front[cut - 1]);
                    assert(!white_space(v[k][last]));
                }
                assert(word_at(s, i, w[k]));
            } else {
                assert(w[k] == s.subrange(cut, s.len() as int));
                assert(word_at(s, cut, w[k]));
            }
        }
        assert forall|k: int, l: int|
            0 <= k < w.len() && 0 <= l < w[k].len() implies !white_space(
            #[trigger] w[k][l],
        ) by {
            if k < v.len() {
                assert(w[k] == v[k]);
            } else {
                assert(w[k][l] == s[cut + l]);
            }
        }
        assert forall|k: int| 0 <= k < w.len() implies (#[trigger] w[k]).len() > 0 by {
            if k < v.len() {
                assert(w[k] == v[k]);
            }
        }
    }
}

pub proof fn lemma_leading_digits_prefix(s: Seq<char>)
    ensures
        begins(s, leading_digits(s)),
        forall|k: int| 0 <= k < leading_digits(s).len() ==> digit(
            #[trigger] leading_digits(s)[k],
        ),
    decreases s.len(),
{
    if s.len() > 0 && digit(s[0]) {
        let rest = s.drop_first();
        lemma_leading_digits_prefix(rest);
        let n = leading_digits(rest);
        let all = seq![s[0]] + n;
        let front = s.take(all.len() as int);
        assert forall|k: int| 0 <= k < all.len() implies front[k] == #[trigger] all[k] by {
            if k > 0 {
                assert(rest.take(n.len() as int)[k - 1] == n[k - 1]);
            }
        }
        assert(front =~= all);
    } else {
        assert(s.take(0) =~= Seq::<char>::empty());
    }
}

/// Each piece of a text stands in it.
pub proof fn lemma_pieces_occur(s: Seq<char>, sep: char)
    ensures
        pieces(s, sep).len() > 0,
        ends(s, pieces(s, sep).last()),
        forall|k: int|
            0 <= k < pieces(s, sep).len() ==> occurs(
                s,
                #[trigger] pieces(s, sep)[k],
            ),
    decreases s.len(),
{
    let w = pieces(s, sep);
    if s.len() == 0 {
        assert(s.skip(0) =~= Seq::<char>::empty());
        assert(s.subrange(0, 0) =~= Seq::<char>::empty());
        assert(occurs_at(s, w[0], 0));
    } else {
        let rest = s.drop_last();
        let c = s.last();
        lemma_pieces_occur(rest, sep);
        let v = pieces(rest, sep);
        assert(occurs_at(s, rest, 0)) by {
            assert(s.subrange(0, rest.len() as int) =~= rest);
        }
        if c == sep {
            assert(s.skip(s.len() as int) =~= Seq::<char>::empty());
        } else {
            let old = v.last();
            let grown = old.push(c);
            assert(s.skip(s.len() - grown.len()) =~= grown) by {
                assert forall|k: int| 0 <= k < grown.len() implies s.skip(
                    s.len() - grown.len(),
                )[k] == #[trigger] grown[k] by {
                    if k < old.len() {
                        assert(rest.skip(rest.len() - old.len())[k] == old[k]);
                    }
                }
            }
        }
        assert(ends(s, w.last()));
        assert forall|k: int| 0 <= k < w.len() implies occurs(s, #[trigger] w[k]) by {
            if k < w.len() - 1 {
                assert(w[k] == v[k]);
                lemma_occurs_within(s, rest, 0, v[k]);
            } else {
                let last = w[k];
                let at = s.len() - last.len();
                assert(s.subrange(at, at + last.len()) =~= s.skip(at));
                assert(occurs_at(s, last, at));
            }
        }
    }
}

}
