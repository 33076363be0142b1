//! The lexemes of two texts in a row.
//!
//! The lexer reads a command from its first character on and never looks
//! back, and a command ends with its line at the latest. So the lexemes of a
//! text that ends with its line, followed by another text, are the lexemes
//! of the first and then those of the second.

use super::text::{
    content_end, is_separator, lemma_line_end, lemma_skip_blanks,
    lemma_skip_separators, lemma_skip_token, lemma_trimmed_end, line_end, skip_blanks,
    skip_separators, skip_token, trimmed_end,
};
use super::token::{
    lemma_read_command, next_word, read_command, rest_of_line, trimmed_rest_of_line, Failure,
    Reading,
};
use super::{followed_by, lex, lex_from, Lexeme};
use vstd::prelude::*;

verus! {

/// The text `s` is empty or ends with a line feed.
pub open spec fn ends_line(s: Seq<char>) -> bool {
    s.len() == 0 || s.last() == '\n'
}

/// The reading `r`, found `by` characters further on in the text.
pub open spec fn shifted_reading(r: Result<Reading, Failure>, by: int) -> Result<Reading, Failure> {
    match r {
        Ok(reading) => Ok(Reading { token: reading.token, next: reading.next + by }),
        Err(failure) => Err(Failure { kind: failure.kind, at: failure.at + by }),
    }
}

/// The lexemes `r`, found `by` characters further on in the text.
pub open spec fn shifted(r: Result<Seq<Lexeme>, Failure>, by: int) -> Result<Seq<Lexeme>, Failure> {
    match r {
        Ok(lexemes) => Ok(
            Seq::new(
                lexemes.len(),
                |i: int| Lexeme { at: lexemes[i].at + by, token: lexemes[i].token },
            ),
        ),
        Err(failure) => Err(Failure { kind: failure.kind, at: failure.at + by }),
    }
}

/// What is skipped in the second of two texts is skipped alike when the
/// first text stands before it.
proof fn lemma_scan_second(x: Seq<char>, y: Seq<char>, k: int)
    requires
        0 <= k <= y.len(),
    ensures
        skip_separators(x + y, x.len() + k) == x.len() + skip_separators(y, k),
        skip_token(x + y, x.len() + k) == x.len() + skip_token(y, k),
        skip_blanks(x + y, x.len() + k) == x.len() + skip_blanks(y, k),
        line_end(x + y, x.len() + k) == x.len() + line_end(y, k),
        content_end(x + y, x.len() + k) == x.len() + content_end(y, k),
    decreases y.len() - k,
{
    let s = x + y;
    let n = x.len() as int;
    if k < y.len() {
        assert(s[n + k] == y[k]);
        lemma_scan_second(x, y, k + 1);
    }
    lemma_line_end(y, k);
    let e = line_end(y, k);
    if k < e {
        assert(s[n + e - 1] == y[e - 1]);
    }
}

/// What is trimmed in the second of two texts is trimmed alike when the
/// first text stands before it.
proof fn lemma_trim_second(x: Seq<char>, y: Seq<char>, a: int, b: int)
    requires
        0 <= a <= b <= y.len(),
    ensures
        trimmed_end(x + y, x.len() + a, x.len() + b) == x.len() + trimmed_end(y, a, b),
    decreases b - a,
{
    if a < b {
        assert((x + y)[x.len() + b - 1] == y[b - 1]);
        if is_separator(y[b - 1]) {
            lemma_trim_second(x, y, a, b - 1);
        }
    }
}

/// What is skipped in the first of two texts before its end is skipped
/// alike when the second text follows.
proof fn lemma_scan_first(x: Seq<char>, y: Seq<char>, i: int)
    requires
        0 <= i <= x.len(),
    ensures
        skip_separators(x, i) < x.len() ==> skip_separators(x + y, i) == skip_separators(x, i),
        skip_separators(x, i) >= x.len() ==> skip_separators(x + y, i) == skip_separators(
            x + y,
            x.len() as int,
        ),
        skip_token(x, i) < x.len() ==> skip_token(x + y, i) == skip_token(x, i),
        skip_blanks(x, i) < x.len() ==> skip_blanks(x + y, i) == skip_blanks(x, i),
        line_end(x, i) < x.len() ==> line_end(x + y, i) == line_end(x, i),
        line_end(x, i) < x.len() ==> content_end(x + y, i) == content_end(x, i),
    decreases x.len() - i,
{
    let s = x + y;
    if i < x.len() {
        assert(s[i] == x[i]);
        lemma_scan_first(x, y, i + 1);
        lemma_skip_separators(x, i + 1);
        lemma_skip_token(x, i + 1);
        lemma_skip_blanks(x, i + 1);
        lemma_line_end(x, i + 1);
    }
    lemma_line_end(x, i);
    let e = line_end(x, i);
    if i < e && e < x.len() {
        assert(s[e - 1] == x[e - 1]);
    }
}

/// What is trimmed in the first of two texts is trimmed alike when the
/// second text follows.
proof fn lemma_trim_first(x: Seq<char>, y: Seq<char>, a: int, b: int)
    requires
        0 <= a <= b <= x.len(),
    ensures
        trimmed_end(x + y, a, b) == trimmed_end(x, a, b),
    decreases b - a,
{
    if a < b {
        assert((x + y)[b - 1] == x[b - 1]);
        if is_separator(x[b - 1]) {
            lemma_trim_first(x, y, a, b - 1);
        }
    }
}

/// In a text that ends with a line feed, a token, the blanks before the
/// rest of a line, and a line end before the end of the text.
proof fn lemma_scan_in_line(x: Seq<char>, i: int)
    requires
        0 <= i < x.len(),
        x.last() == '\n',
    ensures
        skip_token(x, i) < x.len(),
        skip_blanks(x, i) < x.len(),
        line_end(x, i) < x.len(),
    decreases x.len() - i,
{
    if i < x.len() - 1 {
        lemma_scan_in_line(x, i + 1);
    }
}

/// The word and the rest of the line that follow an offset of the second of
/// two texts are the same when the first text stands before it.
proof fn lemma_arguments_second(x: Seq<char>, y: Seq<char>, k: int)
    requires
        0 <= k <= y.len(),
    ensures
        next_word(x + y, x.len() + k) == match next_word(y, k) {
            Some((word, end)) => Some((word, end + x.len())),
            None => None,
        },
        rest_of_line(x + y, x.len() + k) == (rest_of_line(y, k).0, rest_of_line(y, k).1 + x.len()),
        trimmed_rest_of_line(x + y, x.len() + k) == (
            trimmed_rest_of_line(y, k).0,
            trimmed_rest_of_line(y, k).1 + x.len(),
        ),
{
    let s = x + y;
    let n = x.len() as int;
    lemma_scan_second(x, y, k);
    lemma_skip_separators(y, k);
    let word = skip_separators(y, k);
    lemma_scan_second(x, y, word);
    lemma_skip_token(y, word);
    assert(s.subrange(n + word, n + skip_token(y, word)) =~= y.subrange(word, skip_token(y, word)));
    lemma_skip_blanks(y, k);
    let from = skip_blanks(y, k);
    lemma_scan_second(x, y, from);
    lemma_line_end(y, from);
    assert(s.subrange(n + from, n + content_end(y, from)) =~= y.subrange(
        from,
        content_end(y, from),
    ));
    lemma_trim_second(x, y, from, line_end(y, from));
    lemma_trimmed_end(y, from, line_end(y, from));
    let to = trimmed_end(y, from, line_end(y, from));
    assert(s.subrange(n + from, n + to) =~= y.subrange(from, to));
}

/// A command of the second of two texts reads alike when the first text
/// stands before it.
proof fn lemma_read_second(x: Seq<char>, y: Seq<char>, p: int)
    requires
        0 <= p < y.len(),
        !is_separator(y[p]),
    ensures
        read_command(x + y, x.len() + p) == shifted_reading(read_command(y, p), x.len() as int),
{
    let s = x + y;
    let n = x.len() as int;
    lemma_scan_second(x, y, p);
    lemma_skip_token(y, p);
    let end = skip_token(y, p);
    assert(s.subrange(n + p, n + end) =~= y.subrange(p, end));
    lemma_arguments_second(x, y, p);
    lemma_arguments_second(x, y, end);
    if p + 7 <= y.len() {
        lemma_arguments_second(x, y, p + 7);
    }
}

/// The word and the rest of the line that follow an offset of the first of
/// two texts, which ends with a line feed, are the same when the second
/// text follows.
proof fn lemma_arguments_first(x: Seq<char>, y: Seq<char>, i: int)
    requires
        0 <= i < x.len(),
        x.last() == '\n',
    ensures
        next_word(x, i) is Some ==> next_word(x + y, i) == next_word(x, i),
        rest_of_line(x + y, i) == rest_of_line(x, i),
        trimmed_rest_of_line(x + y, i) == trimmed_rest_of_line(x, i),
{
    let s = x + y;
    lemma_scan_first(x, y, i);
    lemma_skip_separators(x, i);
    let word = skip_separators(x, i);
    if word < x.len() {
        lemma_scan_in_line(x, word);
        lemma_scan_first(x, y, word);
        lemma_skip_token(x, word);
        assert(s.subrange(word, skip_token(x, word)) =~= x.subrange(word, skip_token(x, word)));
    }
    lemma_scan_in_line(x, i);
    lemma_skip_blanks(x, i);
    let from = skip_blanks(x, i);
    lemma_scan_in_line(x, from);
    lemma_scan_first(x, y, from);
    lemma_line_end(x, from);
    assert(s.subrange(from, content_end(x, from)) =~= x.subrange(from, content_end(x, from)));
    lemma_trim_first(x, y, from, line_end(x, from));
    lemma_trimmed_end(x, from, line_end(x, from));
    let to = trimmed_end(x, from, line_end(x, from));
    assert(s.subrange(from, to) =~= x.subrange(from, to));
}

/// A command of the first of two texts, which ends with a line feed, reads
/// alike when the second text follows, if it reads at all.
proof fn lemma_read_first(x: Seq<char>, y: Seq<char>, start: int)
    requires
        0 <= start < x.len(),
        !is_separator(x[start]),
        x.last() == '\n',
        read_command(x, start) is Ok,
    ensures
        read_command(x + y, start) == read_command(x, start),
{
    let s = x + y;
    lemma_scan_in_line(x, start);
    lemma_scan_first(x, y, start);
    lemma_skip_token(x, start);
    let end = skip_token(x, start);
    assert(s.subrange(start, end) =~= x.subrange(start, end));
    lemma_arguments_first(x, y, start);
    lemma_arguments_first(x, y, end);
    if start + 7 <= end {
        lemma_arguments_first(x, y, start + 7);
    }
}

/// The lexemes of the second of two texts are the same when the first text
/// stands before it, but for their offsets.
pub proof fn lemma_lex_second(x: Seq<char>, y: Seq<char>, k: int)
    requires
        0 <= k <= y.len(),
    ensures
        lex_from(x + y, x.len() + k) == shifted(lex_from(y, k), x.len() as int),
    decreases y.len() - k,
{
    let s = x + y;
    let n = x.len() as int;
    lemma_scan_second(x, y, k);
    lemma_skip_separators(y, k);
    let start = skip_separators(y, k);
    if start < y.len() {
        lemma_read_second(x, y, start);
        lemma_read_command(y, start);
        if let Ok(reading) = read_command(y, start) {
            lemma_lex_second(x, y, reading.next);
            if let Ok(more) = lex_from(y, reading.next) {
                let first = match reading.token {
                    Some(token) => seq![Lexeme { at: start, token }],
                    None => Seq::<Lexeme>::empty(),
                };
                let moved = match reading.token {
                    Some(token) => seq![Lexeme { at: n + start, token }],
                    None => Seq::<Lexeme>::empty(),
                };
                assert(shifted(Ok(first + more), n)->Ok_0 =~= moved + shifted(Ok(more), n)->Ok_0);
            }
        }
    } else {
        assert(shifted(Ok(Seq::<Lexeme>::empty()), n)->Ok_0 =~= Seq::<Lexeme>::empty());
    }
}

/// The lexemes of two texts in a row, from an offset of the first on, are
/// the lexemes of the first from there on and then those of the second,
/// if the first ends with a line feed and has no lexical error.
proof fn lemma_lex_first(x: Seq<char>, y: Seq<char>, from: int)
    requires
        0 <= from <= x.len(),
        ends_line(x),
        lex_from(x, from) is Ok,
    ensures
        lex_from(x + y, from) == followed_by(
            lex_from(x, from)->Ok_0,
            shifted(lex(y), x.len() as int),
        ),
    decreases x.len() - from,
{
    let s = x + y;
    let n = x.len() as int;
    lemma_lex_second(x, y, 0);
    lemma_scan_first(x, y, from);
    lemma_skip_separators(x, from);
    let start = skip_separators(x, from);
    if start < n {
        lemma_read_command(x, start);
        lemma_read_first(x, y, start);
        let reading = read_command(x, start)->Ok_0;
        lemma_lex_first(x, y, reading.next);
        let first = match reading.token {
            Some(token) => seq![Lexeme { at: start, token }],
            None => Seq::<Lexeme>::empty(),
        };
        let more = lex_from(x, reading.next)->Ok_0;
        if let Ok(rest) = shifted(lex(y), n) {
            assert(first + (more + rest) =~= (first + more) + rest);
        }
    } else {
        if let Ok(rest) = shifted(lex(y), n) {
            assert(Seq::<Lexeme>::empty() + rest =~= rest);
        }
        lemma_skip_separators(s, n);
    }
}

/// The lexemes of two texts in a row are the lexemes of the first and then
/// those of the second, if the first ends with a line feed and has no
/// lexical error.
pub proof fn lemma_lex_concat(x: Seq<char>, y: Seq<char>)
    requires
        ends_line(x),
        lex(x) is Ok,
    ensures
        lex(x + y) == followed_by(lex(x)->Ok_0, shifted(lex(y), x.len() as int)),
{
    lemma_lex_first(x, y, 0);
}

} // verus!
