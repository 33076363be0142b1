//! Numbers as a chart writes them.
//!
//! The tempo and the gauge total of a chart are decimal numbers. The library
//! keeps them as they are written and decides here which texts are numbers
//! above zero. A number is written with decimal digits, at most one point
//! among them, and after them, if the chart likes, `e` or `E` and a power of
//! ten; a plus sign may stand before it. The number is above zero if one of
//! its digits before the power is not `0`.

use crate::lex::text::{decode, is_digits};
use vstd::prelude::*;

verus! {

/// What follows the plus sign of `text`, or `text` itself if it has none.
pub open spec fn unsigned(text: Seq<char>) -> Seq<char> {
    if text.len() > 0 && text[0] == '+' {
        text.skip(1)
    } else {
        text
    }
}

/// The first offset from `i` on that holds `e` or `E`, or the length of
/// `body`.
pub open spec fn power_mark(body: Seq<char>, i: int) -> int
    decreases body.len() - i,
{
    if 0 <= i < body.len() && body[i] != 'e' && body[i] != 'E' {
        power_mark(body, i + 1)
    } else {
        i
    }
}

/// `digits` writes a number above zero without a power of ten: nothing but
/// digits and at most one point, and a digit is not `0`.
pub open spec fn is_positive_mantissa(digits: Seq<char>) -> bool {
    &&& forall|i: int|
        0 <= i < digits.len() ==> '0' <= #[trigger] digits[i] <= '9' || digits[i] == '.'
    &&& forall|i: int, j: int|
        0 <= i < j < digits.len() ==> !(#[trigger] digits[i] == '.' && #[trigger] digits[j] == '.')
    &&& exists|i: int| 0 <= i < digits.len() && '1' <= #[trigger] digits[i] <= '9'
}

/// `power` writes a power of ten: decimal digits, and a sign before them if
/// the chart likes.
pub open spec fn is_power(power: Seq<char>) -> bool {
    if power.len() > 0 && (power[0] == '+' || power[0] == '-') {
        is_digits(power.skip(1))
    } else {
        is_digits(power)
    }
}

/// `text` writes a decimal number above zero.
pub open spec fn is_positive_number(text: Seq<char>) -> bool {
    let body = unsigned(text);
    let mark = power_mark(body, 0);
    is_positive_mantissa(body.take(mark)) && (mark < body.len() ==> is_power(body.skip(mark + 1)))
}

/// The power of ten is marked in `body`, at or after `i`.
pub proof fn lemma_power_mark(body: Seq<char>, i: int)
    requires
        0 <= i <= body.len(),
    ensures
        i <= power_mark(body, i) <= body.len(),
    decreases body.len() - i,
{
    if i < body.len() && body[i] != 'e' && body[i] != 'E' {
        lemma_power_mark(body, i + 1);
    }
}

/// Whether the characters of `chars` from `from` on are decimal digits, at
/// least one.
fn check_digits(chars: &Vec<char>, from: usize) -> (ok: bool)
    requires
        from <= chars.len(),
    ensures
        ok == is_digits(chars@.skip(from as int)),
{
    let ghost digits = chars@.skip(from as int);
    let mut i: usize = from;
    while i < chars.len()
        invariant
            from <= i <= chars.len(),
            digits == chars@.skip(from as int),
            forall|k: int| 0 <= k < i - from ==> '0' <= #[trigger] digits[k] <= '9',
        decreases chars.len() - i,
    {
        let c = chars[i];
        proof {
            assert(digits[i - from] == c);
        }
        if !('0' <= c && c <= '9') {
            return false;
        }
        i = i + 1;
    }
    from < chars.len()
}

/// Whether `text` writes a decimal number above zero.
pub fn check_positive_number(text: &str) -> (positive: bool)
    ensures
        positive == is_positive_number(text@),
{
    let chars = decode(text);
    let first: usize = if chars.len() > 0 && chars[0] == '+' {
        1
    } else {
        0
    };
    let ghost body = unsigned(chars@);
    let ghost mark = power_mark(body, 0);
    let mut point = false;
    let mut above_zero = false;
    let ghost mut point_at: int = 0;
    let ghost mut digit_at: int = 0;
    let mut i: usize = first;
    proof {
        lemma_power_mark(body, 0);
    }
    while i < chars.len() && chars[i] != 'e' && chars[i] != 'E'
        invariant
            first <= i <= chars.len(),
            chars@ == text@,
            body == unsigned(text@),
            body == chars@.skip(first as int),
            mark == power_mark(body, 0),
            mark == power_mark(body, i - first),
            i - first <= mark <= body.len(),
            forall|k: int| 0 <= k < i - first ==> '0' <= #[trigger] body[k] <= '9' || body[k] == '.',
            forall|k: int, l: int|
                0 <= k < l < i - first ==> !(#[trigger] body[k] == '.' && #[trigger] body[l]
                    == '.'),
            point ==> 0 <= point_at < i - first && body[point_at] == '.',
            !point ==> forall|k: int| 0 <= k < i - first ==> #[trigger] body[k] != '.',
            above_zero ==> 0 <= digit_at < i - first && '1' <= body[digit_at] <= '9',
            !above_zero ==> forall|k: int|
                0 <= k < i - first ==> !('1' <= #[trigger] body[k] <= '9'),
        decreases chars.len() - i,
    {
        let c = chars[i];
        proof {
            assert(body[i - first] == c);
            lemma_power_mark(body, i - first + 1);
            assert(body.take(mark)[i - first] == c);
            if point {
                assert(body.take(mark)[point_at] == '.');
            }
        }
        if c == '.' {
            if point {
                return false;
            }
            point = true;
            proof {
                point_at = i - first;
            }
        } else if '0' <= c && c <= '9' {
            if c != '0' {
                above_zero = true;
                proof {
                    digit_at = i - first;
                }
            }
        } else {
            return false;
        }
        i = i + 1;
    }
    proof {
        if i < chars.len() {
            assert(body[i - first] == chars@[i as int]);
        }
        assert(mark == i - first);
        let digits = body.take(mark);
        assert forall|k: int| 0 <= k < digits.len() implies '0' <= #[trigger] digits[k] <= '9'
            || digits[k] == '.' by {
            assert(digits[k] == body[k]);
        }
        assert forall|k: int, l: int| 0 <= k < l < digits.len() implies !(#[trigger] digits[k]
            == '.' && #[trigger] digits[l] == '.') by {
            assert(digits[k] == body[k] && digits[l] == body[l]);
        }
        if above_zero {
            assert('1' <= digits[digit_at] <= '9');
        } else {
            assert forall|k: int| 0 <= k < digits.len() implies !('1' <= #[trigger] digits[k]
                <= '9') by {
                assert(digits[k] == body[k]);
            }
        }
        assert(is_positive_mantissa(digits) == above_zero);
    }
    if !above_zero {
        return false;
    }
    if i == chars.len() {
        return true;
    }
    let power = i + 1;
    proof {
        assert(body.skip(mark + 1) =~= chars@.skip(power as int));
        if power < chars.len() {
            assert(chars@.skip(power as int)[0] == chars@[power as int]);
            assert(chars@.skip(power as int).skip(1) =~= chars@.skip(power + 1));
        }
    }
    if power < chars.len() && (chars[power] == '+' || chars[power] == '-') {
        check_digits(&chars, power + 1)
    } else {
        check_digits(&chars, power)
    }
}

} // verus!
