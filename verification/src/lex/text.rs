//! Characters and character offsets.
//!
//! The lexer counts in characters, while a `str` is cut at byte offsets. This
//! module relates the two, and holds the character classes of the format.

use vstd::prelude::*;
use vstd::utf8::*;

verus! {

/// What separates tokens: the characters with the Unicode property
/// `White_Space`, the line feed among them.
pub open spec fn is_separator(c: char) -> bool {
    ||| '\u{9}' <= c <= '\u{d}'
    ||| c == ' '
    ||| c == '\u{85}'
    ||| c == '\u{a0}'
    ||| c == '\u{1680}'
    ||| '\u{2000}' <= c <= '\u{200a}'
    ||| c == '\u{2028}'
    ||| c == '\u{2029}'
    ||| c == '\u{202f}'
    ||| c == '\u{205f}'
    ||| c == '\u{3000}'
}

/// A separator that does not end the line.
pub open spec fn is_blank(c: char) -> bool {
    is_separator(c) && c != '\n'
}

/// Whether `c` separates tokens.
pub fn separator(c: char) -> (b: bool)
    ensures
        b == is_separator(c),
{
    ('\u{9}' <= c && c <= '\u{d}') || c == ' ' || c == '\u{85}' || c == '\u{a0}' || c
        == '\u{1680}' || ('\u{2000}' <= c && c <= '\u{200a}') || c == '\u{2028}' || c
        == '\u{2029}' || c == '\u{202f}' || c == '\u{205f}' || c == '\u{3000}'
}

/// The value of `c` as a base-36 digit: `0` to `9`, then the letters in
/// either case.
pub open spec fn digit36(c: char) -> Option<int> {
    if '0' <= c <= '9' {
        Some(c as int - '0' as int)
    } else if 'a' <= c <= 'z' {
        Some(c as int - 'a' as int + 10)
    } else if 'A' <= c <= 'Z' {
        Some(c as int - 'A' as int + 10)
    } else {
        None
    }
}

/// `s` is made of decimal digits, at least one.
pub open spec fn is_digits(s: Seq<char>) -> bool {
    s.len() > 0 && forall|i: int| 0 <= i < s.len() ==> '0' <= #[trigger] s[i] <= '9'
}

/// The number that the decimal digits of `s` write.
pub open spec fn decimal_value(s: Seq<char>) -> nat
    decreases s.len(),
{
    if s.len() == 0 {
        0
    } else {
        (decimal_value(s.drop_last()) * 10 + (s.last() as int - '0' as int)) as nat
    }
}

/// The number that `s` writes, if `s` is made of decimal digits.
pub open spec fn number(s: Seq<char>) -> Option<nat> {
    if is_digits(s) {
        Some(decimal_value(s))
    } else {
        None
    }
}

/// The digits that follow can only make a number larger.
pub proof fn lemma_decimal_value_grows(s: Seq<char>, i: int)
    requires
        is_digits(s),
        0 <= i <= s.len(),
    ensures
        decimal_value(s.take(i)) <= decimal_value(s),
    decreases s.len() - i,
{
    if i < s.len() {
        lemma_decimal_value_grows(s, i + 1);
        assert(s.take(i + 1).drop_last() =~= s.take(i));
    } else {
        assert(s.take(i) =~= s);
    }
}

/// The line that holds offset `i` of `s`, counted from 1.
pub open spec fn line_at(s: Seq<char>, i: int) -> int
    decreases i,
{
    if i <= 0 {
        1
    } else if s[i - 1] == '\n' {
        line_at(s, i - 1) + 1
    } else {
        line_at(s, i - 1)
    }
}

/// The column of offset `i` of `s` in its line, counted from 1 in characters.
pub open spec fn col_at(s: Seq<char>, i: int) -> int
    decreases i,
{
    if i <= 0 || s[i - 1] == '\n' {
        1
    } else {
        col_at(s, i - 1) + 1
    }
}

/// The first offset from `i` on that holds no separator, or the length of `s`.
pub open spec fn skip_separators(s: Seq<char>, i: int) -> int
    decreases s.len() - i,
{
    if 0 <= i < s.len() && is_separator(s[i]) {
        skip_separators(s, i + 1)
    } else {
        i
    }
}

/// The first offset from `i` on that holds a separator, or the length of `s`.
pub open spec fn skip_token(s: Seq<char>, i: int) -> int
    decreases s.len() - i,
{
    if 0 <= i < s.len() && !is_separator(s[i]) {
        skip_token(s, i + 1)
    } else {
        i
    }
}

/// The first offset from `i` on that holds no blank, or the length of `s`.
pub open spec fn skip_blanks(s: Seq<char>, i: int) -> int
    decreases s.len() - i,
{
    if 0 <= i < s.len() && is_blank(s[i]) {
        skip_blanks(s, i + 1)
    } else {
        i
    }
}

/// The first offset from `i` on that holds a line feed, or the length of `s`.
pub open spec fn line_end(s: Seq<char>, i: int) -> int
    decreases s.len() - i,
{
    if 0 <= i < s.len() && s[i] != '\n' {
        line_end(s, i + 1)
    } else {
        i
    }
}

/// Where the content of the line ends that starts at `i`: at the line feed,
/// or before the carriage return that precedes it.
pub open spec fn content_end(s: Seq<char>, i: int) -> int {
    let e = line_end(s, i);
    if i < e < s.len() && s[e - 1] == '\r' {
        e - 1
    } else {
        e
    }
}

/// Where what stands from `start` to `end` ends when the separators at its
/// end are left out.
pub open spec fn trimmed_end(s: Seq<char>, start: int, end: int) -> int
    decreases end - start,
{
    if start < end && is_separator(s[end - 1]) {
        trimmed_end(s, start, end - 1)
    } else {
        end
    }
}

/// What is left without the separators at its end ends between `start` and
/// `end`.
pub proof fn lemma_trimmed_end(s: Seq<char>, start: int, end: int)
    requires
        start <= end,
    ensures
        start <= trimmed_end(s, start, end) <= end,
    decreases end - start,
{
    if start < end && is_separator(s[end - 1]) {
        lemma_trimmed_end(s, start, end - 1);
    }
}

/// Up to where separators are skipped there are only separators, and none
/// stands there.
pub proof fn lemma_skip_separators(s: Seq<char>, i: int)
    requires
        0 <= i <= s.len(),
    ensures
        i <= skip_separators(s, i) <= s.len(),
        forall|k: int| i <= k < skip_separators(s, i) ==> is_separator(#[trigger] s[k]),
        skip_separators(s, i) < s.len() ==> !is_separator(s[skip_separators(s, i)]),
    decreases s.len() - i,
{
    if i < s.len() && is_separator(s[i]) {
        lemma_skip_separators(s, i + 1);
    }
}

/// Up to where a token is skipped there is no separator, and one stands
/// there.
pub proof fn lemma_skip_token(s: Seq<char>, i: int)
    requires
        0 <= i <= s.len(),
    ensures
        i <= skip_token(s, i) <= s.len(),
        forall|k: int| i <= k < skip_token(s, i) ==> !is_separator(#[trigger] s[k]),
        skip_token(s, i) < s.len() ==> is_separator(s[skip_token(s, i)]),
    decreases s.len() - i,
{
    if i < s.len() && !is_separator(s[i]) {
        lemma_skip_token(s, i + 1);
    }
}

/// The token that follows separators is not empty, unless the text ends.
pub proof fn lemma_token_not_empty(s: Seq<char>, i: int)
    requires
        0 <= i <= s.len(),
        skip_separators(s, i) < s.len(),
    ensures
        skip_separators(s, i) < skip_token(s, skip_separators(s, i)) <= s.len(),
{
    lemma_skip_separators(s, i);
    lemma_skip_token(s, skip_separators(s, i) + 1);
}

/// Up to where blanks are skipped there are only blanks, and none stands
/// there.
pub proof fn lemma_skip_blanks(s: Seq<char>, i: int)
    requires
        0 <= i <= s.len(),
    ensures
        i <= skip_blanks(s, i) <= s.len(),
        forall|k: int| i <= k < skip_blanks(s, i) ==> is_blank(#[trigger] s[k]),
        skip_blanks(s, i) < s.len() ==> !is_blank(s[skip_blanks(s, i)]),
    decreases s.len() - i,
{
    if i < s.len() && is_blank(s[i]) {
        lemma_skip_blanks(s, i + 1);
    }
}

/// Up to the end of the line there is no line feed, and one stands there.
pub proof fn lemma_line_end(s: Seq<char>, i: int)
    requires
        0 <= i <= s.len(),
    ensures
        i <= line_end(s, i) <= s.len(),
        forall|k: int| i <= k < line_end(s, i) ==> #[trigger] s[k] != '\n',
        line_end(s, i) < s.len() ==> s[line_end(s, i)] == '\n',
    decreases s.len() - i,
{
    if i < s.len() && s[i] != '\n' {
        lemma_line_end(s, i + 1);
    }
}

/// Along a stretch without a line feed the line stays and the column counts
/// the characters.
pub proof fn lemma_same_line(s: Seq<char>, i: int, j: int)
    requires
        0 <= i <= j <= s.len(),
        forall|k: int| i <= k < j ==> #[trigger] s[k] != '\n',
    ensures
        line_at(s, j) == line_at(s, i),
        col_at(s, j) == col_at(s, i) + (j - i),
    decreases j - i,
{
    if i < j {
        lemma_same_line(s, i, j - 1);
    }
}

/// Lines and columns are at least 1 and at most one more than the offset.
pub proof fn lemma_coordinates_bounded(s: Seq<char>, i: int)
    requires
        0 <= i,
    ensures
        1 <= line_at(s, i) <= i + 1,
        1 <= col_at(s, i) <= i + 1,
    decreases i,
{
    if i > 0 {
        lemma_coordinates_bounded(s, i - 1);
    }
}

/// The number of bytes that the first `i` characters of `s` take in UTF-8.
pub open spec fn byte_offset(s: Seq<char>, i: int) -> nat {
    encode_utf8(s.take(i)).len()
}

/// The bytes of two texts in a row are the bytes of the first and then those
/// of the second, and the second starts at a character boundary.
pub proof fn lemma_encode_concat(a: Seq<char>, b: Seq<char>)
    ensures
        encode_utf8(a + b) == encode_utf8(a) + encode_utf8(b),
        is_char_boundary(encode_utf8(a + b), encode_utf8(a).len() as int),
    decreases a.len(),
{
    broadcast use group_utf8_lib;

    if a.len() == 0 {
        assert(a + b =~= b);
        assert(encode_utf8(a) + encode_utf8(b) =~= encode_utf8(b));
    } else {
        let ab = a + b;
        assert(ab.drop_first() =~= a.drop_first() + b);
        lemma_encode_concat(a.drop_first(), b);
        assert(ab[0] == a[0]);
        assert(encode_utf8(ab) =~= encode_utf8(a) + encode_utf8(b));
        encode_utf8_first_scalar(ab);
        assert(pop_first_scalar(encode_utf8(ab)) =~= encode_utf8(ab.drop_first()));
    }
}

/// A character offset of `s` is a character boundary of its bytes, and cuts
/// them into the bytes of the two parts.
pub proof fn lemma_byte_offset(s: Seq<char>, i: int)
    requires
        0 <= i <= s.len(),
    ensures
        byte_offset(s, i) <= encode_utf8(s).len(),
        is_char_boundary(encode_utf8(s), byte_offset(s, i) as int),
        encode_utf8(s).subrange(0, byte_offset(s, i) as int) == encode_utf8(s.take(i)),
        encode_utf8(s).subrange(byte_offset(s, i) as int, encode_utf8(s).len() as int)
            == encode_utf8(s.skip(i)),
{
    assert(s =~= s.take(i) + s.skip(i));
    lemma_encode_concat(s.take(i), s.skip(i));
    let a = encode_utf8(s.take(i));
    let b = encode_utf8(s.skip(i));
    assert((a + b).subrange(0, a.len() as int) =~= a);
    assert((a + b).subrange(a.len() as int, (a + b).len() as int) =~= b);
}

/// A character moves the byte offset on by the bytes that it takes.
pub proof fn lemma_byte_offset_step(s: Seq<char>, i: int)
    requires
        0 <= i < s.len(),
    ensures
        byte_offset(s, i + 1) == byte_offset(s, i) + encode_scalar(s[i] as u32).len(),
        byte_offset(s, 0) == 0,
{
    let one = seq![s[i]];
    assert(s.take(i + 1) =~= s.take(i) + one);
    lemma_encode_concat(s.take(i), one);
    assert(one.drop_first() =~= Seq::<char>::empty());
    reveal_with_fuel(encode_utf8, 2);
    assert(encode_utf8(one) =~= encode_scalar(s[i] as u32));
    assert(s.take(0) =~= Seq::<char>::empty());
}

/// Two strings with the same bytes hold the same characters.
pub proof fn lemma_same_bytes(a: Seq<char>, b: Seq<char>)
    requires
        encode_utf8(a) == encode_utf8(b),
    ensures
        a == b,
{
    encode_utf8_decode_utf8(a);
    encode_utf8_decode_utf8(b);
}

/// The number of bytes that `c` takes in UTF-8.
pub fn utf8_len(c: char) -> (n: usize)
    ensures
        n == encode_scalar(c as u32).len(),
        1 <= n <= 4,
{
    proof {
        char_is_scalar(c);
    }
    if c <= '\u{7f}' {
        1
    } else if c <= '\u{7ff}' {
        2
    } else if c <= '\u{ffff}' {
        3
    } else {
        4
    }
}

/// The characters of `s` in a vector.
pub fn decode(s: &str) -> (v: Vec<char>)
    ensures
        v@ == s@,
{
    let mut v: Vec<char> = Vec::new();
    for c in it: s.chars()
        invariant
            v@ == it.seq().take(it.index() as int),
    {
        v.push(c);
    }
    v
}

/// The part of `s` between two character offsets `i <= j`, which are given by
/// the byte offsets `from` and `to` that stand for them.
pub(crate) fn substring<'a>(
    s: &'a str,
    from: usize,
    to: usize,
    Ghost(i): Ghost<int>,
    Ghost(j): Ghost<int>,
) -> (r: &'a str)
    requires
        0 <= i <= j <= s@.len(),
        from == byte_offset(s@, i),
        to == byte_offset(s@, j),
    ensures
        r@ == s@.subrange(i, j),
{
    proof {
        lemma_byte_offset(s@, j);
    }
    let (head, _) = s.split_at(to);
    proof {
        lemma_same_bytes(head@, s@.take(j));
        assert(head@.take(i) =~= s@.take(i));
        lemma_byte_offset(head@, i);
    }
    let (_, r) = head.split_at(from);
    proof {
        lemma_same_bytes(r@, head@.skip(i));
        assert(head@.skip(i) =~= s@.subrange(i, j));
    }
    r
}

} // verus!
