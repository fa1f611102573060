//! What the functions on text are for: how their results are put together from
//! parts, and taken apart again.
use crate::laws;
use crate::text;
use vstd::prelude::*;
use vstd::string::*;
use vstd::utf8::*;

verus! {

/// `hay` is something, then `part`, then something.
pub open spec fn has_part(hay: Seq<char>, part: Seq<char>) -> bool {
    exists|a: Seq<char>, b: Seq<char>| hay == #[trigger] (a + part + b)
}

/// A text holds another exactly when it is that text with something before and
/// behind it.
pub proof fn law_occurs_is_a_part(hay: Seq<char>, part: Seq<char>)
    ensures
        text::occurs(hay, part) <==> has_part(hay, part),
{
    if text::occurs(hay, part) {
        let i = choose|i: int| text::occurs_at(hay, part, i);
        let a = hay.take(i);
        let b = hay.skip(i + part.len());
        assert(hay.subrange(i, i + part.len()) == part);
        assert(hay =~= a + part + b);
    }
    if has_part(hay, part) {
        let (a, b) = choose|a: Seq<char>, b: Seq<char>| hay == #[trigger] (a + part + b);
        assert(hay.subrange(a.len() as int, (a.len() + part.len()) as int) =~= part);
        assert(text::occurs_at(hay, part, a.len() as int));
    }
}

/// A text begins with another exactly when it is that text and something behind it.
pub proof fn law_begins_is_a_front(s: Seq<char>, p: Seq<char>)
    ensures
        text::begins(s, p) <==> exists|b: Seq<char>| s == #[trigger] (p + b),
{
    if text::begins(s, p) {
        assert(s =~= p + s.skip(p.len() as int));
    }
    if exists|b: Seq<char>| s == #[trigger] (p + b) {
        let b = choose|b: Seq<char>| s == #[trigger] (p + b);
        assert(s.take(p.len() as int) =~= p);
    }
}

/// A text ends with another exactly when it is something and that text behind it.
pub proof fn law_ends_is_a_back(s: Seq<char>, p: Seq<char>)
    ensures
        text::ends(s, p) <==> exists|a: Seq<char>| s == #[trigger] (a + p),
{
    if text::ends(s, p) {
        assert(s =~= s.take(s.len() - p.len()) + p);
    }
    if exists|a: Seq<char>| s == #[trigger] (a + p) {
        let a = choose|a: Seq<char>| s == #[trigger] (a + p);
        assert(s.skip(s.len() - p.len()) =~= p);
    }
}

/// The numbers of the characters of white space.
pub open spec fn white_codes() -> Seq<int> {
    seq![
        0x9int,
        0xa,
        0xb,
        0xc,
        0xd,
        0x20,
        0x85,
        0xa0,
        0x1680,
        0x2000,
        0x2001,
        0x2002,
        0x2003,
        0x2004,
        0x2005,
        0x2006,
        0x2007,
        0x2008,
        0x2009,
        0x200a,
        0x2028,
        0x2029,
        0x202f,
        0x205f,
        0x3000,
    ]
}

/// There are twenty-five characters of white space: six controls, the space and those
/// of other widths, the two that do not break, and the two that part lines and
/// paragraphs.
pub proof fn law_white_space_has_these_characters(c: char)
    ensures
        text::white_space(c) <==> white_codes().contains(c as int),
{
    let n = c as int;
    if text::white_space(c) {
        let k: int = if n <= 0xd {
            n - 0x9
        } else if n == 0x20 {
            5
        } else if n == 0x85 {
            6
        } else if n == 0xa0 {
            7
        } else if n == 0x1680 {
            8
        } else if n <= 0x200a {
            n - 0x2000 + 9
        } else if n == 0x2028 {
            20
        } else if n == 0x2029 {
            21
        } else if n == 0x202f {
            22
        } else if n == 0x205f {
            23
        } else {
            24
        };
        assert(white_codes()[k] == n);
    }
}

/// No character is white space.
pub open spec fn unbroken(s: Seq<char>) -> bool {
    forall|k: int| 0 <= k < s.len() ==> !text::white_space(#[trigger] s[k])
}

/// A text without white space is one word, nothing has no words, and white space
/// anywhere parts the words before it from those behind it.
pub proof fn law_words_are_parted_by_white_space(s: Seq<char>, a: Seq<char>, c: char, b: Seq<char>)
    requires
        text::white_space(c),
    ensures
        text::words(seq![]) == Seq::<Seq<char>>::empty(),
        s.len() > 0 && unbroken(s) ==> text::words(s) == seq![s],
        text::words(a + seq![c] + b) == text::words(a) + text::words(b),
{
    if s.len() > 0 && unbroken(s) {
        lemma_one_word(s);
    }
    let front = a + seq![c];
    assert(front.last() == c);
    assert(front.drop_last() =~= a);
    laws::lemma_words_concat(front, b);
}

proof fn lemma_one_word(s: Seq<char>)
    requires
        s.len() > 0,
        unbroken(s),
    ensures
        text::words(s) == seq![s],
    decreases s.len(),
{
    let rest = s.drop_last();
    assert(s.last() == s[s.len() - 1]);
    if rest.len() == 0 {
        assert(text::words(rest) =~= Seq::<Seq<char>>::empty());
        assert(seq![s.last()] =~= s);
        assert(text::words(s) =~= seq![s]);
    } else {
        assert forall|k: int| 0 <= k < rest.len() implies !text::white_space(#[trigger] rest[k]) by {
            assert(rest[k] == s[k]);
        }
        lemma_one_word(rest);
        assert(rest.push(s.last()) =~= s);
        assert(text::words(s) =~= seq![s]);
    }
}

/// A text without the separator is one piece, and a separator anywhere parts the
/// pieces before it from those behind it.
pub proof fn law_pieces_are_parted(s: Seq<char>, a: Seq<char>, b: Seq<char>, sep: char)
    ensures
        !s.contains(sep) ==> text::pieces(s, sep) == seq![s],
        text::pieces(a + seq![sep] + b, sep) == text::pieces(a, sep) + text::pieces(b, sep),
        text::pieces(a, sep).len() > 0,
{
    if !s.contains(sep) {
        lemma_one_piece(s, sep);
    }
    text::lemma_pieces_occur(a, sep);
    lemma_pieces_concat(a, b, sep);
}

proof fn lemma_one_piece(s: Seq<char>, sep: char)
    requires
        !s.contains(sep),
    ensures
        text::pieces(s, sep) == seq![s],
    decreases s.len(),
{
    if s.len() == 0 {
        assert(s =~= seq![]);
        assert(text::pieces(s, sep) =~= seq![s]);
    } else {
        let rest = s.drop_last();
        assert(!rest.contains(sep)) by {
            if rest.contains(sep) {
                let k = choose|k: int| 0 <= k < rest.len() && rest[k] == sep;
                assert(s[k] == sep);
            }
        }
        assert(s[s.len() - 1] == s.last());
        lemma_one_piece(rest, sep);
        assert(rest.push(s.last()) =~= s);
        assert(text::pieces(s, sep) =~= seq![s]);
    }
}

proof fn lemma_pieces_concat(a: Seq<char>, b: Seq<char>, sep: char)
    ensures
        text::pieces(a + seq![sep] + b, sep) == text::pieces(a, sep) + text::pieces(b, sep),
    decreases b.len(),
{
    let front = a + seq![sep];
    if b.len() == 0 {
        assert(front + b =~= front);
        assert(front.drop_last() =~= a);
        assert(text::pieces(b, sep) =~= seq![seq![]]);
        assert(text::pieces(a, sep) + seq![Seq::<char>::empty()] =~= text::pieces(a, sep).push(
            seq![],
        ));
    } else {
        let rest = b.drop_last();
        lemma_pieces_concat(a, rest, sep);
        text::lemma_pieces_occur(rest, sep);
        assert((front + b).drop_last() =~= front + rest);
        assert((front + b).last() == b.last());
        let (pa, pr) = (text::pieces(a, sep), text::pieces(rest, sep));
        if b.last() == sep {
            assert((pa + pr).push(seq![]) =~= pa + pr.push(seq![]));
        } else {
            assert(text::grow_last(pa + pr, b.last()) =~= pa + text::grow_last(pr, b.last()));
        }
    }
}

/// The piece with a given index is the one in the list of pieces.
pub proof fn law_piece_is_one_of_the_pieces(s: Seq<char>, sep: char, n: int)
    ensures
        0 <= n < text::pieces(s, sep).len() ==> text::piece(s, sep, n) == Some(
            text::pieces(s, sep)[n],
        ),
        n >= text::pieces(s, sep).len() ==> text::piece(s, sep, n) is None,
{
}

/// All characters are digits, from `0` to `9`.
pub open spec fn all_digits(s: Seq<char>) -> bool {
    forall|k: int| 0 <= k < s.len() ==> '0' <= #[trigger] s[k] <= '9'
}

/// Digits at the front are the leading digits, whatever comes behind the first
/// character that is none.
pub proof fn law_leading_digits_end_at_the_first_other(d: Seq<char>, rest: Seq<char>)
    requires
        all_digits(d),
        rest.len() > 0 ==> !('0' <= rest[0] <= '9'),
    ensures
        text::leading_digits(d + rest) == d,
    decreases d.len(),
{
    let s = d + rest;
    if d.len() == 0 {
        assert(s =~= rest);
        assert(text::leading_digits(s) =~= d);
    } else {
        let tail = d.drop_first();
        assert forall|k: int| 0 <= k < tail.len() implies '0' <= #[trigger] tail[k] <= '9' by {
            assert(tail[k] == d[k + 1]);
        }
        assert(s[0] == d[0]);
        assert(s.drop_first() =~= tail + rest);
        law_leading_digits_end_at_the_first_other(tail, rest);
        assert(seq![s[0]] + tail =~= d);
    }
}

/// All characters are white space.
pub open spec fn blank(s: Seq<char>) -> bool {
    forall|k: int| 0 <= k < s.len() ==> text::white_space(#[trigger] s[k])
}

/// Trimming takes off the white space at both ends, all of it and no more.
pub proof fn law_trimming_keeps_the_middle(a: Seq<char>, m: Seq<char>, b: Seq<char>)
    requires
        blank(a),
        blank(b),
        m.len() > 0 ==> !text::white_space(m[0]) && !text::white_space(m.last()),
    ensures
        text::trimmed(a + m + b) == m,
{
    if m.len() == 0 {
        let s = a + m + b;
        assert(blank(s)) by {
            assert forall|k: int| 0 <= k < s.len() implies text::white_space(#[trigger] s[k]) by {
                if k < a.len() {
                    assert(s[k] == a[k]);
                } else {
                    assert(s[k] == b[k - a.len()]);
                }
            }
        }
        lemma_trim_front(s, seq![]);
        assert(s + Seq::<char>::empty() =~= s);
        assert(text::trimmed(s) =~= m);
    } else {
        assert(a + m + b =~= a + (m + b));
        assert((m + b)[0] == m[0]);
        lemma_trim_front(a, m + b);
        lemma_trim_back(m, b);
    }
}

proof fn lemma_trim_front(a: Seq<char>, rest: Seq<char>)
    requires
        blank(a),
        rest.len() > 0 ==> !text::white_space(rest[0]),
    ensures
        text::trimmed_start(a + rest) == rest,
    decreases a.len(),
{
    if a.len() == 0 {
        assert(a + rest =~= rest);
    } else {
        let tail = a.drop_first();
        assert forall|k: int| 0 <= k < tail.len() implies text::white_space(#[trigger] tail[k]) by {
            assert(tail[k] == a[k + 1]);
        }
        assert((a + rest)[0] == a[0]);
        assert((a + rest).drop_first() =~= tail + rest);
        lemma_trim_front(tail, rest);
    }
}

proof fn lemma_trim_back(m: Seq<char>, b: Seq<char>)
    requires
        blank(b),
        m.len() > 0,
        !text::white_space(m.last()),
    ensures
        text::trimmed_end(m + b) == m,
    decreases b.len(),
{
    if b.len() == 0 {
        assert(m + b =~= m);
    } else {
        let rest = b.drop_last();
        assert forall|k: int| 0 <= k < rest.len() implies text::white_space(#[trigger] rest[k]) by {
            assert(rest[k] == b[k]);
        }
        assert((m + b).last() == b[b.len() - 1]);
        assert((m + b).drop_last() =~= m + rest);
        lemma_trim_back(m, rest);
    }
}

/// A prefix is taken off as often as it stands there: putting one more in front
/// changes nothing, and what does not begin with it stays as it is.
pub proof fn law_prefix_comes_off(s: Seq<char>, p: Seq<char>)
    requires
        p.len() > 0,
    ensures
        text::without_prefix(p + s, p) == text::without_prefix(s, p),
        !(exists|b: Seq<char>| s == #[trigger] (p + b)) ==> text::without_prefix(s, p) == s,
{
    assert((p + s).take(p.len() as int) =~= p);
    assert((p + s).skip(p.len() as int) =~= s);
    law_begins_is_a_front(s, p);
}

/// An ending is taken off as often as it stands there: putting one more behind
/// changes nothing, and what does not end with it stays as it is.
pub proof fn law_suffix_comes_off(s: Seq<char>, p: Seq<char>)
    requires
        p.len() > 0,
    ensures
        text::without_suffix(s + p, p) == text::without_suffix(s, p),
        !(exists|a: Seq<char>| s == #[trigger] (a + p)) ==> text::without_suffix(s, p) == s,
{
    let t = s + p;
    assert(t.skip(t.len() - p.len()) =~= p);
    assert(t.take(t.len() - p.len()) =~= s);
    law_ends_is_a_back(s, p);
}

/// The number that digits write.
pub open spec fn value(s: Seq<char>) -> int
    decreases s.len(),
{
    if s.len() == 0 {
        0
    } else {
        10 * value(s.drop_last()) + (s.last() as int - '0' as int)
    }
}

/// A text that writes a natural number as people do: digits, the first one zero for
/// zero alone.
pub open spec fn writes(s: Seq<char>, n: int) -> bool {
    &&& s.len() > 0
    &&& all_digits(s)
    &&& s[0] == '0' ==> s.len() == 1
    &&& value(s) == n
}

/// A number that has been written reads back as that number.
pub proof fn law_decimal_reads_back(n: int)
    ensures
        n >= 0 ==> writes(text::decimal(n), n),
        n < 0 ==> text::decimal(n).len() > 1 && text::decimal(n)[0] == '-' && writes(
            text::decimal(n).drop_first(),
            -n,
        ),
{
    if n >= 0 {
        lemma_decimal_nat(n as nat);
    } else {
        lemma_decimal_nat((-n) as nat);
        assert(text::decimal(n).drop_first() =~= text::decimal_nat((-n) as nat));
    }
}

proof fn lemma_decimal_nat(n: nat)
    ensures
        writes(text::decimal_nat(n), n as int),
        n > 0 ==> text::decimal_nat(n)[0] != '0',
    decreases n,
{
    let s = text::decimal_nat(n);
    let c = text::digit_char(n % 10);
    assert('0' <= c <= '9');
    assert(c as int - '0' as int == n % 10);
    if n < 10 {
        assert(s =~= seq![c]);
        assert(s.drop_last() =~= Seq::<char>::empty());
        assert(value(s.drop_last()) == 0);
        assert(s.last() == c);
    } else {
        lemma_decimal_nat(n / 10);
        let front = text::decimal_nat(n / 10);
        assert(s.drop_last() =~= front);
        assert forall|k: int| 0 <= k < s.len() implies '0' <= #[trigger] s[k] <= '9' by {
            if k < front.len() {
                assert(s[k] == front[k]);
            }
        }
        assert(s[0] == front[0]);
    }
}

/// The first line ends at the first line feed, and a carriage return before that
/// belongs to the line's ending.
pub proof fn law_first_line_ends_at_the_line_feed(l: Seq<char>, rest: Seq<char>)
    requires
        !l.contains('\n'),
    ensures
        text::first_line(l) == l,
        l.len() == 0 || l.last() != '\r' ==> text::first_line(l + seq!['\n'] + rest) == l,
        text::first_line(l + seq!['\r', '\n'] + rest) == l,
{
    let a = l + seq!['\n'] + rest;
    assert(a[l.len() as int] == '\n');
    assert(a.contains('\n'));
    a.index_of_first_ensures('\n');
    let i = a.index_of_first('\n')->0;
    if i < l.len() {
        assert(l[i] == a[i]);
        assert(l.contains('\n'));
    }
    assert(a.take(l.len() as int) =~= l);
    let b = l + seq!['\r', '\n'] + rest;
    assert(b[l.len() as int + 1] == '\n');
    assert(b.contains('\n'));
    b.index_of_first_ensures('\n');
    let j = b.index_of_first('\n')->0;
    if j < l.len() {
        assert(l[j] == b[j]);
        assert(l.contains('\n'));
    }
    assert(b[l.len() as int] == '\r');
    assert(j == l.len() + 1);
    assert(b.take(j).drop_last() =~= l);
}

/// How many bytes a text takes in UTF-8.
pub open spec fn bytes_of(s: Seq<char>) -> int {
    encode_utf8(s).len() as int
}

/// A part by byte offsets is the part that begins behind as many bytes as the first
/// offset says and ends at the second. There is none where no characters end there.
pub proof fn law_byte_range_is_a_part(s: Seq<char>, from: int, to: int, t: Seq<char>)
    ensures
        text::byte_range(s, from, to) == Some(t) <==> exists|a: Seq<char>, c: Seq<char>|
            s == #[trigger] (a + t + c) && bytes_of(a) == from && bytes_of(a + t) == to,
{
    if text::byte_range(s, from, to) == Some(t) {
        lemma_range_splits(s, from, to);
    }
    if exists|a: Seq<char>, c: Seq<char>|
        s == #[trigger] (a + t + c) && bytes_of(a) == from && bytes_of(a + t) == to {
        let (a, c) = choose|a: Seq<char>, c: Seq<char>|
            s == #[trigger] (a + t + c) && bytes_of(a) == from && bytes_of(a + t) == to;
        lemma_encode_concat(a, t);
        lemma_encode_concat(a + t, c);
        assert(a + t + c =~= a + (t + c));
        lemma_boundary(a, t + c);
        lemma_boundary(a + t, c);
        assert(encode_utf8(s).subrange(from, to) =~= encode_utf8(t));
        encode_utf8_decode_utf8(t);
    }
}

proof fn lemma_encode_concat(a: Seq<char>, b: Seq<char>)
    ensures
        encode_utf8(a + b) == encode_utf8(a) + encode_utf8(b),
    decreases a.len(),
{
    if a.len() == 0 {
        assert(a + b =~= b);
        assert(encode_utf8(a) + encode_utf8(b) =~= encode_utf8(b));
    } else {
        lemma_encode_concat(a.drop_first(), b);
        assert((a + b).drop_first() =~= a.drop_first() + b);
        assert((a + b)[0] == a[0]);
        assert(encode_utf8(a + b) =~= encode_utf8(a) + encode_utf8(b));
    }
}

proof fn lemma_boundary(a: Seq<char>, b: Seq<char>)
    ensures
        is_char_boundary(encode_utf8(a + b), bytes_of(a)),
        bytes_of(a) <= bytes_of(a + b),
{
    let whole = encode_utf8(a + b);
    lemma_encode_concat(a, b);
    encode_utf8_valid_utf8(a + b);
    encode_utf8_valid_utf8(b);
    is_char_boundary_start_end_of_seq(whole);
    is_char_boundary_start_end_of_seq(encode_utf8(b));
    if bytes_of(a) < whole.len() {
        is_char_boundary_iff_not_is_continuation_byte(encode_utf8(b), 0);
        assert(whole[bytes_of(a)] == encode_utf8(b)[0]);
        is_char_boundary_iff_not_is_continuation_byte(whole, bytes_of(a));
    }
}

proof fn lemma_range_splits(s: Seq<char>, from: int, to: int)
    requires
        text::byte_range(s, from, to) is Some,
    ensures
        exists|a: Seq<char>, c: Seq<char>|
            s == #[trigger] (a + text::byte_range(s, from, to)->0 + c) && bytes_of(a) == from
                && bytes_of(a + text::byte_range(s, from, to)->0) == to,
{
    let all = encode_utf8(s);
    let n = all.len() as int;
    let t = text::byte_range(s, from, to)->0;
    encode_utf8_valid_utf8(s);
    encode_utf8_decode_utf8(s);
    let head = all.subrange(0, to);
    let tail = all.subrange(to, n);
    valid_utf8_split(all, to);
    decode_utf8_split(all, to);
    if from < to {
        is_char_boundary_iff_not_is_continuation_byte(all, from);
        is_char_boundary_iff_not_is_continuation_byte(head, from);
    } else {
        is_char_boundary_start_end_of_seq(head);
    }
    valid_utf8_split(head, from);
    decode_utf8_split(head, from);
    assert(head.subrange(0, from) =~= all.subrange(0, from));
    assert(head.subrange(from, to) =~= all.subrange(from, to));
    let a = decode_utf8(all.subrange(0, from));
    let c = decode_utf8(tail);
    decode_utf8_encode_utf8(all.subrange(0, from));
    decode_utf8_encode_utf8(head);
    assert(decode_utf8(head) == a + t);
    assert(s == a + t + c);
}

/// One text comes before another where it is a proper front of it, or has the
/// smaller character where the two first differ.
pub proof fn law_order_is_that_of_the_first_difference(a: Seq<char>, b: Seq<char>)
    ensures
        text::precedes(a, b) <==> exists|n: int| #[trigger] first_smaller(a, b, n),
    decreases a.len(),
{
    if a.len() > 0 && b.len() > 0 && a[0] == b[0] {
        let (c, d) = (a.drop_first(), b.drop_first());
        law_order_is_that_of_the_first_difference(c, d);
        if exists|n: int| #[trigger] first_smaller(c, d, n) {
            let n = choose|n: int| #[trigger] first_smaller(c, d, n);
            assert(a.take(n + 1) =~= seq![a[0]] + c.take(n));
            assert(b.take(n + 1) =~= seq![b[0]] + d.take(n));
            assert(first_smaller(a, b, n + 1));
        }
        if exists|n: int| #[trigger] first_smaller(a, b, n) {
            let n = choose|n: int| #[trigger] first_smaller(a, b, n);
            assert(n > 0);
            assert(c.take(n - 1) =~= a.take(n).drop_first());
            assert(d.take(n - 1) =~= b.take(n).drop_first());
            assert(first_smaller(c, d, n - 1));
        }
    } else {
        if text::precedes(a, b) {
            assert(a.take(0) =~= b.take(0));
            assert(first_smaller(a, b, 0));
        }
        if exists|n: int| #[trigger] first_smaller(a, b, n) {
            let n = choose|n: int| #[trigger] first_smaller(a, b, n);
            if n > 0 {
                assert(a.take(n)[0] == b.take(n)[0]);
            }
        }
    }
}

/// The texts are the same up to `n`, where the first ends or has the smaller
/// character.
pub open spec fn first_smaller(a: Seq<char>, b: Seq<char>, n: int) -> bool {
    &&& 0 <= n <= a.len()
    &&& n < b.len()
    &&& a.take(n) == b.take(n)
    &&& n == a.len() || a[n] < b[n]
}

/// A blank text is as long as asked, and holds nothing but spaces.
pub proof fn law_blanks_are_spaces(n: nat)
    ensures
        text::spaces(n).len() == n,
        forall|k: int| 0 <= k < n ==> #[trigger] text::spaces(n)[k] == ' ',
{
}

/// The texts of a list of strings are the strings, one for one.
pub proof fn law_texts_are_the_strings(v: Seq<String>, o: Option<String>)
    ensures
        text::texts(v).len() == v.len(),
        forall|k: int| 0 <= k < v.len() ==> #[trigger] text::texts(v)[k] == v[k]@,
        o matches Some(s) ==> text::opt_text(o) == Some(s@),
        o is None ==> text::opt_text(o) is None,
{
}

}
