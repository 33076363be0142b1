//! Lexical analysis: from the text of a chart to its tokens.

use self::cursor::Cursor;
use self::text::{col_at, lemma_skip_separators, line_at, skip_separators};
use self::token::{error_is, lemma_read_command, read_command, Failure, Token, TokenView};
use vstd::prelude::*;

pub mod command;
pub mod cursor;
pub mod splice;
pub mod text;
pub mod token;

verus! {

/// An error that stops the lexer. The position is that of the cursor when
/// the error was found, in 1-based lines and columns of characters.
#[derive(Debug, Clone, Copy, PartialEq, Eq)]
pub enum LexError {
    /// The text ended, or held something else, where a token was needed.
    ExpectedToken { line: usize, col: usize, message: &'static str },
    /// An argument was not an integer of the range the command takes.
    ExpectedInt { line: usize, col: usize, message: &'static str },
    /// The two characters that name the channel of a message name none.
    ExpectedChannel { line: usize, col: usize, message: &'static str },
    /// The two characters that name an object are not base-36 digits.
    UnknownObject { line: usize, col: usize, message: &'static str },
}

/// The kinds of lexical error.
#[derive(Debug, Clone, Copy, PartialEq, Eq, Structural)]
pub enum LexErrorKind {
    /// The kind of [`LexError::ExpectedToken`].
    ExpectedToken,
    /// The kind of [`LexError::ExpectedInt`].
    ExpectedInt,
    /// The kind of [`LexError::ExpectedChannel`].
    ExpectedChannel,
    /// The kind of [`LexError::UnknownObject`].
    UnknownObject,
}

impl LexErrorKind {
    /// What an error of the kind says.
    pub open spec fn message(self) -> &'static str {
        match self {
            LexErrorKind::ExpectedToken => "the command needs an argument",
            LexErrorKind::ExpectedInt => "the argument is not a number that the command takes",
            LexErrorKind::ExpectedChannel => "the message names no channel",
            LexErrorKind::UnknownObject => "an object identifier is two base-36 digits",
        }
    }

    /// What an error of the kind says.
    pub fn to_message(&self) -> (message: &'static str)
        ensures
            message == self.message(),
    {
        match self {
            LexErrorKind::ExpectedToken => "the command needs an argument",
            LexErrorKind::ExpectedInt => "the argument is not a number that the command takes",
            LexErrorKind::ExpectedChannel => "the message names no channel",
            LexErrorKind::UnknownObject => "an object identifier is two base-36 digits",
        }
    }
}

impl LexError {
    /// What the error says.
    pub open spec fn message(self) -> &'static str {
        match self {
            LexError::ExpectedToken { message, .. } => message,
            LexError::ExpectedInt { message, .. } => message,
            LexError::ExpectedChannel { message, .. } => message,
            LexError::UnknownObject { message, .. } => message,
        }
    }

    /// The kind of the error.
    pub open spec fn kind(self) -> LexErrorKind {
        match self {
            LexError::ExpectedToken { .. } => LexErrorKind::ExpectedToken,
            LexError::ExpectedInt { .. } => LexErrorKind::ExpectedInt,
            LexError::ExpectedChannel { .. } => LexErrorKind::ExpectedChannel,
            LexError::UnknownObject { .. } => LexErrorKind::UnknownObject,
        }
    }

    /// The line of the error, counted from 1.
    pub open spec fn line(self) -> usize {
        match self {
            LexError::ExpectedToken { line, .. } => line,
            LexError::ExpectedInt { line, .. } => line,
            LexError::ExpectedChannel { line, .. } => line,
            LexError::UnknownObject { line, .. } => line,
        }
    }

    /// The column of the error, counted from 1 in characters.
    pub open spec fn col(self) -> usize {
        match self {
            LexError::ExpectedToken { col, .. } => col,
            LexError::ExpectedInt { col, .. } => col,
            LexError::ExpectedChannel { col, .. } => col,
            LexError::UnknownObject { col, .. } => col,
        }
    }
}

/// A token and the place of its first character, in 1-based lines and
/// columns of characters.
#[derive(Debug, Clone, Copy, PartialEq, Eq)]
pub struct Entry<'a> {
    pub line: usize,
    pub col: usize,
    pub token: Token<'a>,
}

/// The tokens of a chart in the order of the text, each with its place.
#[derive(Debug)]
pub struct TokenStream<'a> {
    entries: Vec<Entry<'a>>,
}

impl<'a> View for TokenStream<'a> {
    type V = Seq<TokenView>;

    closed spec fn view(&self) -> Seq<TokenView> {
        Seq::new(self.entries@.len(), |i: int| self.entries@[i].token@)
    }
}

impl<'a> TokenStream<'a> {
    /// The line and the column of each token.
    pub closed spec fn places(&self) -> Seq<(usize, usize)> {
        Seq::new(self.entries@.len(), |i: int| (self.entries@[i].line, self.entries@[i].col))
    }

    /// The number of tokens.
    pub fn len(&self) -> (n: usize)
        ensures
            n == self@.len(),
            n == self.places().len(),
    {
        self.entries.len()
    }

    /// The token of index `i` with its place.
    pub fn entry(&self, i: usize) -> (entry: &Entry<'a>)
        requires
            i < self@.len(),
        ensures
            entry.token@ == self@[i as int],
            (entry.line, entry.col) == self.places()[i as int],
    {
        &self.entries[i]
    }

    /// The token of index `i` with its place, if there are that many.
    pub fn get(&self, i: usize) -> (entry: Option<&Entry<'a>>)
        ensures
            i >= self@.len() ==> entry is None,
            i < self@.len() ==> (entry matches Some(e) && e.token@ == self@[i as int] && (
                e.line,
                e.col,
            ) == self.places()[i as int]),
    {
        if i < self.entries.len() {
            Some(&self.entries[i])
        } else {
            None
        }
    }
}

/// A token in the text: the offset of its first character, and what it says.
pub struct Lexeme {
    pub at: int,
    pub token: TokenView,
}

/// What each of the lexemes `lexemes` says.
pub open spec fn tokens_of(lexemes: Seq<Lexeme>) -> Seq<TokenView> {
    Seq::new(lexemes.len(), |i: int| lexemes[i].token)
}

/// The lexemes `done`, and after them those that are still to come, unless
/// the lexer fails there.
pub open spec fn followed_by(done: Seq<Lexeme>, rest: Result<Seq<Lexeme>, Failure>) -> Result<
    Seq<Lexeme>,
    Failure,
> {
    match rest {
        Ok(more) => Ok(done + more),
        Err(failure) => Err(failure),
    }
}

/// The lexemes of `s` from offset `from` on: the commands in the order of
/// the text, up to the first that fails.
pub open spec fn lex_from(s: Seq<char>, from: int) -> Result<Seq<Lexeme>, Failure>
    decreases s.len() - from,
    when 0 <= from
    via lex_from_decreases
{
    let start = skip_separators(s, from);
    if start >= s.len() {
        Ok(Seq::empty())
    } else {
        match read_command(s, start) {
            Err(failure) => Err(failure),
            Ok(reading) => followed_by(
                match reading.token {
                    Some(token) => seq![Lexeme { at: start, token }],
                    None => Seq::empty(),
                },
                lex_from(s, reading.next),
            ),
        }
    }
}

#[via_fn]
proof fn lex_from_decreases(s: Seq<char>, from: int) {
    if from <= s.len() {
        lemma_skip_separators(s, from);
        let start = skip_separators(s, from);
        if start < s.len() {
            lemma_read_command(s, start);
        }
    }
}

/// The lexemes of the text `s`, or why and where the lexer stops.
pub open spec fn lex(s: Seq<char>) -> Result<Seq<Lexeme>, Failure> {
    lex_from(s, 0)
}

/// Every lexeme starts at a `#` of the text, and the lexemes stand in the
/// order of the text.
pub proof fn lemma_lexemes_start_commands(s: Seq<char>, from: int)
    requires
        0 <= from <= s.len(),
    ensures
        lex_from(s, from) matches Ok(lexemes) ==> {
            &&& forall|i: int|
                0 <= i < lexemes.len() ==> from <= (#[trigger] lexemes[i]).at < s.len()
                    && s[lexemes[i].at] == '#'
            &&& forall|i: int, j: int|
                0 <= i < j < lexemes.len() ==> (#[trigger] lexemes[i]).at < (
                #[trigger] lexemes[j]).at
        },
    decreases s.len() - from,
{
    lemma_skip_separators(s, from);
    let start = skip_separators(s, from);
    if start < s.len() {
        lemma_read_command(s, start);
        self::text::lemma_skip_token(s, start);
        if let Ok(reading) = read_command(s, start) {
            lemma_lexemes_start_commands(s, reading.next);
            if let Ok(more) = lex_from(s, reading.next) {
                let word = s.subrange(start, self::text::skip_token(s, start));
                assert(word[0] == s[start]);
                let first = match reading.token {
                    Some(token) => seq![Lexeme { at: start, token }],
                    None => Seq::empty(),
                };
                let lexemes = first + more;
                assert forall|i: int| 0 <= i < lexemes.len() implies from <= (
                #[trigger] lexemes[i]).at < s.len() && s[lexemes[i].at] == '#' by {
                    if i >= first.len() {
                        assert(lexemes[i] == more[i - first.len()]);
                    }
                }
                assert forall|i: int, j: int| 0 <= i < j < lexemes.len() implies (
                #[trigger] lexemes[i]).at < (#[trigger] lexemes[j]).at by {
                    assert(lexemes[j] == more[j - first.len()]);
                    if i >= first.len() {
                        assert(lexemes[i] == more[i - first.len()]);
                    }
                }
            }
        }
    }
}

/// The tokens of the chart `source`, each with the line and the column of
/// its first character; or the first lexical error.
pub fn parse<'a>(source: &'a str) -> (result: Result<TokenStream<'a>, LexError>)
    requires
        source@.len() < usize::MAX,
    ensures
        match lex(source@) {
            Ok(lexemes) => result matches Ok(stream) && stream@ == tokens_of(lexemes)
                && stream.places().len() == lexemes.len() && forall|i: int|
                0 <= i < lexemes.len() ==> (#[trigger] stream.places()[i]).0 == line_at(
                    source@,
                    lexemes[i].at,
                ) && stream.places()[i].1 == col_at(source@, lexemes[i].at),
            Err(failure) => result matches Err(e) && error_is(e, failure, source@),
        },
{
    let mut cursor = Cursor::new(source);
    let mut entries: Vec<Entry<'a>> = Vec::new();
    let ghost mut done: Seq<Lexeme> = Seq::empty();
    loop
        invariant_except_break
            lex(source@) == followed_by(done, lex_from(source@, cursor.position() as int)),
        invariant
            cursor.text() == source@,
            cursor.position() <= source@.len(),
            entries@.len() == done.len(),
            forall|i: int|
                0 <= i < done.len() ==> (#[trigger] entries@[i]).token@ == done[i].token
                    && entries@[i].line == line_at(source@, done[i].at) && entries@[i].col
                    == col_at(source@, done[i].at),
        ensures
            lex(source@) == Ok::<Seq<Lexeme>, Failure>(done),
        decreases source@.len() - cursor.position(),
    {
        let ghost from = cursor.position() as int;
        proof {
            lemma_skip_separators(source@, from);
        }
        cursor.skip_to_token();
        if cursor.is_end() {
            proof {
                assert(done + Seq::<Lexeme>::empty() =~= done);
            }
            break ;
        }
        let line = cursor.line();
        let col = cursor.col();
        let ghost start = cursor.position() as int;
        proof {
            lemma_skip_separators(source@, start);
            lemma_read_command(source@, start);
        }
        match Token::parse(&mut cursor) {
            Err(e) => {
                return Err(e);
            },
            Ok(None) => {
                proof {
                    let rest = lex_from(source@, cursor.position() as int);
                    assert(followed_by(Seq::<Lexeme>::empty(), rest) == rest) by {
                        if let Ok(more) = rest {
                            assert(Seq::<Lexeme>::empty() + more =~= more);
                        }
                    }
                }
            },
            Ok(Some(token)) => {
                entries.push(Entry { line, col, token });
                proof {
                    let one = seq![Lexeme { at: start, token: token@ }];
                    let rest = lex_from(source@, cursor.position() as int);
                    if let Ok(more) = rest {
                        assert(done + (one + more) =~= done.push(one[0]) + more);
                    }
                    done = done.push(one[0]);
                }
            },
        }
    }
    let stream = TokenStream { entries };
    proof {
        assert(stream@ =~= tokens_of(done));
        assert(stream.places().len() == done.len());
    }
    Ok(stream)
}

} // verus!
