//! The cursor that walks the text and hands out its tokens and lines.

use super::text::{
    byte_offset, col_at, content_end, decode, lemma_byte_offset,
    lemma_byte_offset_step, lemma_coordinates_bounded, lemma_line_end, lemma_skip_blanks,
    lemma_skip_separators, lemma_skip_token, lemma_token_not_empty, line_at, line_end, separator, skip_blanks,
    skip_separators, skip_token, substring, trimmed_end, utf8_len,
};
use super::LexError;
use vstd::prelude::*;
use vstd::utf8::encode_utf8;

verus! {

/// An offset into the text, with what stands for it: its line and column,
/// and its offset in bytes.
#[derive(Clone, Copy)]
struct Place {
    line: usize,
    col: usize,
    index: usize,
    offset: usize,
}

impl Place {
    /// `self` is a place of `text`, and its line, column and byte offset are
    /// those of its character offset.
    spec fn of(self, text: Seq<char>) -> bool {
        &&& self.offset <= text.len()
        &&& self.index == byte_offset(text, self.offset as int)
        &&& self.line == line_at(text, self.offset as int)
        &&& self.col == col_at(text, self.offset as int)
    }
}

/// A cursor over the text of a chart. It stands at a character offset of the
/// text and knows the line and the column of that offset.
pub struct Cursor<'a> {
    place: Place,
    source: &'a str,
    chars: Vec<char>,
}

impl<'a> Cursor<'a> {
    #[verifier::type_invariant]
    spec fn inv(self) -> bool {
        &&& self.chars@ == self.source@
        &&& self.chars.len() < usize::MAX
        &&& encode_utf8(self.source@).len() <= usize::MAX
        &&& self.place.of(self.source@)
    }

    /// The text that the cursor walks.
    pub closed spec fn text(&self) -> Seq<char> {
        self.source@
    }

    /// The offset in characters at which the cursor stands.
    pub closed spec fn position(&self) -> nat {
        self.place.offset as nat
    }

    /// Where the next token starts: at the length of the text if there is none.
    pub open spec fn token_start(&self) -> int {
        skip_separators(self.text(), self.position() as int)
    }

    /// Where the next token ends.
    pub open spec fn token_end(&self) -> int {
        skip_token(self.text(), self.token_start())
    }

    /// The next token: empty if there is none.
    pub open spec fn token(&self) -> Seq<char> {
        self.text().subrange(self.token_start(), self.token_end())
    }

    /// Where the rest of the line starts, its leading blanks left out.
    pub open spec fn rest_start(&self) -> int {
        skip_blanks(self.text(), self.position() as int)
    }

    /// Where the rest of the line ends.
    pub open spec fn rest_end(&self) -> int {
        content_end(self.text(), self.rest_start())
    }

    /// Where the rest of the line ends when the separators at its end are
    /// left out.
    pub open spec fn trimmed_rest_end(&self) -> int {
        trimmed_end(self.text(), self.rest_start(), line_end(self.text(), self.rest_start()))
    }

    /// A cursor at the start of `source`: line 1, column 1.
    pub fn new(source: &'a str) -> (cursor: Self)
        requires
            source@.len() < usize::MAX,
        ensures
            cursor.text() == source@,
            cursor.position() == 0,
    {
        let chars = decode(source);
        let byte_len = source.as_bytes().len();
        proof {
            assert(source@.take(0) =~= Seq::<char>::empty());
        }
        Cursor { place: Place { line: 1, col: 1, index: 0, offset: 0 }, source, chars }
    }

    /// The place of the offset `to`, found by walking there from `from`.
    fn walk(&self, from: Place, to: usize) -> (place: Place)
        requires
            from.of(self.source@),
            from.offset <= to <= self.source@.len(),
        ensures
            place.of(self.source@),
            place.offset == to,
    {
        proof {
            use_type_invariant(self);
        }
        let mut place = from;
        while place.offset < to
            invariant
                place.of(self.source@),
                place.offset <= to <= self.chars.len(),
                self.chars@ == self.source@,
                self.chars.len() < usize::MAX,
                encode_utf8(self.source@).len() <= usize::MAX,
            decreases to - place.offset,
        {
            let c = self.chars[place.offset];
            proof {
                lemma_byte_offset_step(self.source@, place.offset as int);
                lemma_byte_offset(self.source@, place.offset + 1);
                lemma_coordinates_bounded(self.source@, place.offset + 1);
            }
            let index = place.index + utf8_len(c);
            let offset = place.offset + 1;
            place = if c == '\n' {
                Place { line: place.line + 1, col: 1, index, offset }
            } else {
                Place { line: place.line, col: place.col + 1, index, offset }
            };
        }
        place
    }

    /// The offset at which the next token starts.
    fn find_token_start(&self) -> (start: usize)
        ensures
            start == self.token_start(),
            self.position() <= start <= self.text().len(),
    {
        proof {
            use_type_invariant(self);
            lemma_skip_separators(self.source@, self.place.offset as int);
        }
        let mut i = self.place.offset;
        while i < self.chars.len() && separator(self.chars[i])
            invariant
                self.place.offset <= i <= self.chars.len(),
                self.chars@ == self.source@,
                skip_separators(self.source@, i as int) == skip_separators(
                    self.source@,
                    self.place.offset as int,
                ),
            decreases self.chars.len() - i,
        {
            i = i + 1;
        }
        i
    }

    /// The offset at which the token ends that starts at `start`.
    fn find_token_end(&self, start: usize) -> (end: usize)
        requires
            start <= self.text().len(),
        ensures
            end == skip_token(self.text(), start as int),
            start <= end <= self.text().len(),
    {
        proof {
            use_type_invariant(self);
            lemma_skip_token(self.source@, start as int);
        }
        let mut i = start;
        while i < self.chars.len() && !separator(self.chars[i])
            invariant
                start <= i <= self.chars.len(),
                self.chars@ == self.source@,
                skip_token(self.source@, i as int) == skip_token(self.source@, start as int),
            decreases self.chars.len() - i,
        {
            i = i + 1;
        }
        i
    }

    /// Whether no token is left.
    pub fn is_end(&self) -> (end: bool)
        ensures
            end == (self.token_start() >= self.text().len()),
    {
        proof {
            use_type_invariant(self);
        }
        self.find_token_start() >= self.chars.len()
    }

    /// The bytes of the text that hold the next token: an empty range at the
    /// end of the text if there is none.
    pub fn get_token(&self) -> (range: std::ops::Range<usize>)
        ensures
            range.start == byte_offset(self.text(), self.token_start()),
            range.end == byte_offset(self.text(), self.token_end()),
    {
        proof {
            use_type_invariant(self);
        }
        let start = self.find_token_start();
        let end = self.find_token_end(start);
        let first = self.walk(self.place, start);
        let last = self.walk(first, end);
        first.index..last.index
    }

    /// The next token, if there is one. The cursor stays where it is.
    pub fn peek_token(&self) -> (token: Option<&'a str>)
        ensures
            token is Some <==> self.token_start() < self.text().len(),
            token matches Some(t) ==> t@ == self.token() && t@.len() > 0,
    {
        proof {
            use_type_invariant(self);
        }
        let start = self.find_token_start();
        if start >= self.chars.len() {
            return None;
        }
        let end = self.find_token_end(start);
        proof {
            lemma_token_not_empty(self.source@, self.place.offset as int);
        }
        let first = self.walk(self.place, start);
        let last = self.walk(first, end);
        Some(substring(self.source, first.index, last.index, Ghost(start as int), Ghost(end as int)))
    }

    /// The next token, if there is one. The cursor moves to its end, or stays
    /// where it is if there is none.
    pub fn next_token(&mut self) -> (token: Option<&'a str>)
        ensures
            final(self).text() == old(self).text(),
            token is Some <==> old(self).token_start() < old(self).text().len(),
            token matches Some(t) ==> t@ == old(self).token() && t@.len() > 0,
            final(self).position() == if token is Some {
                old(self).token_end()
            } else {
                old(self).position() as int
            },
    {
        proof {
            use_type_invariant(&*self);
        }
        let start = self.find_token_start();
        if start >= self.chars.len() {
            return None;
        }
        let end = self.find_token_end(start);
        proof {
            lemma_token_not_empty(self.source@, self.place.offset as int);
        }
        let first = self.walk(self.place, start);
        let last = self.walk(first, end);
        self.place = last;
        Some(substring(self.source, first.index, last.index, Ghost(start as int), Ghost(end as int)))
    }

    /// Moves to the start of the next token, or to the end of the text if
    /// there is none.
    pub fn skip_to_token(&mut self)
        ensures
            final(self).text() == old(self).text(),
            final(self).position() == old(self).token_start(),
    {
        proof {
            use_type_invariant(&*self);
        }
        let start = self.find_token_start();
        self.place = self.walk(self.place, start);
    }

    /// Moves `n` characters on, or to the end of the text if it is nearer.
    pub fn advance(&mut self, n: usize)
        ensures
            final(self).text() == old(self).text(),
            final(self).position() == if old(self).position() + n <= old(self).text().len() {
                old(self).position() + n
            } else {
                old(self).text().len() as int
            },
    {
        proof {
            use_type_invariant(&*self);
        }
        let left = self.chars.len() - self.place.offset;
        let to = if n <= left {
            self.place.offset + n
        } else {
            self.chars.len()
        };
        self.place = self.walk(self.place, to);
    }

    /// The rest of the line: what stands between the blanks that follow the
    /// cursor and the end of the line, which is the line feed, the carriage
    /// return before it, or the end of the text. The cursor moves to the end
    /// of what it returns.
    pub fn next_line_remaining(&mut self) -> (rest: &'a str)
        ensures
            final(self).text() == old(self).text(),
            rest@ == old(self).text().subrange(old(self).rest_start(), old(self).rest_end()),
            final(self).position() == old(self).rest_end(),
    {
        proof {
            use_type_invariant(&*self);
            lemma_skip_blanks(self.source@, self.place.offset as int);
        }
        let mut start = self.place.offset;
        while start < self.chars.len() && self.chars[start] != '\n' && separator(self.chars[start])
            invariant
                self.place.offset <= start <= self.chars.len(),
                self.chars@ == self.source@,
                skip_blanks(self.source@, start as int) == skip_blanks(
                    self.source@,
                    self.place.offset as int,
                ),
            decreases self.chars.len() - start,
        {
            start = start + 1;
        }
        proof {
            lemma_line_end(self.source@, start as int);
        }
        let mut end = start;
        while end < self.chars.len() && self.chars[end] != '\n'
            invariant
                start <= end <= self.chars.len(),
                self.chars@ == self.source@,
                line_end(self.source@, end as int) == line_end(self.source@, start as int),
            decreases self.chars.len() - end,
        {
            end = end + 1;
        }
        if start < end && end < self.chars.len() && self.chars[end - 1] == '\r' {
            end = end - 1;
        }
        let first = self.walk(self.place, start);
        let last = self.walk(first, end);
        self.place = last;
        substring(self.source, first.index, last.index, Ghost(start as int), Ghost(end as int))
    }

    /// The rest of the line without the separators at its end: what stands
    /// between the blanks that follow the cursor and the last character of
    /// the line that is no separator. The cursor moves to the end of what
    /// it returns.
    pub fn next_line_trimmed(&mut self) -> (rest: &'a str)
        ensures
            final(self).text() == old(self).text(),
            rest@ == old(self).text().subrange(old(self).rest_start(), old(self).trimmed_rest_end()),
            final(self).position() == old(self).trimmed_rest_end(),
    {
        proof {
            use_type_invariant(&*self);
            lemma_skip_blanks(self.source@, self.place.offset as int);
        }
        let mut start = self.place.offset;
        while start < self.chars.len() && self.chars[start] != '\n' && separator(self.chars[start])
            invariant
                self.place.offset <= start <= self.chars.len(),
                self.chars@ == self.source@,
                skip_blanks(self.source@, start as int) == skip_blanks(
                    self.source@,
                    self.place.offset as int,
                ),
            decreases self.chars.len() - start,
        {
            start = start + 1;
        }
        proof {
            lemma_line_end(self.source@, start as int);
        }
        let mut end = start;
        while end < self.chars.len() && self.chars[end] != '\n'
            invariant
                start <= end <= self.chars.len(),
                self.chars@ == self.source@,
                line_end(self.source@, end as int) == line_end(self.source@, start as int),
            decreases self.chars.len() - end,
        {
            end = end + 1;
        }
        let ghost full = end as int;
        while start < end && separator(self.chars[end - 1])
            invariant
                start <= end <= self.chars.len(),
                self.chars@ == self.source@,
                trimmed_end(self.source@, start as int, end as int) == trimmed_end(
                    self.source@,
                    start as int,
                    full,
                ),
            decreases end,
        {
            end = end - 1;
        }
        let first = self.walk(self.place, start);
        let last = self.walk(first, end);
        self.place = last;
        substring(self.source, first.index, last.index, Ghost(start as int), Ghost(end as int))
    }

    /// The line at which the cursor stands, counted from 1.
    pub fn line(&self) -> (line: usize)
        ensures
            line == line_at(self.text(), self.position() as int),
    {
        proof {
            use_type_invariant(self);
        }
        self.place.line
    }

    /// The column at which the cursor stands, counted from 1 in characters.
    pub fn col(&self) -> (col: usize)
        ensures
            col == col_at(self.text(), self.position() as int),
    {
        proof {
            use_type_invariant(self);
        }
        self.place.col
    }

    /// The error that a token was expected where the cursor stands.
    pub fn err_expected_token(&self, message: &'static str) -> (error: LexError)
        ensures
            error matches LexError::ExpectedToken { line, col, message: m } && m == message
                && line == line_at(self.text(), self.position() as int) && col == col_at(
                self.text(),
                self.position() as int,
            ),
    {
        LexError::ExpectedToken { line: self.line(), col: self.col(), message }
    }
}

} // verus!
