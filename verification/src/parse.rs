//! Assembly: from the tokens of a chart to the chart.

pub mod decimal;
pub mod draws;
pub mod elision;
pub mod header;
pub mod notes;
pub mod obj;
pub mod random;
pub mod ratio;
pub mod rng;

pub use self::header::Header;
pub use self::obj::Obj;
pub use self::rng::{Rng, RngMock};

use self::decimal::{check_positive_number, is_positive_number};
use self::header::{define, failure, table_of, HeaderView};
use self::notes::{
    conflicts, decode_slots, fits, merge, objects, slots_of, views, Line, LineView,
};
use self::obj::{lemma_sorted_unique, sort, sorted, well_formed};
use self::random::{open_chains, start, step, verdict, Flow, Frame, RandomParser, Verdict};
use crate::lex::command::{Channel, ObjId};
use crate::lex::token::{Token, TokenView};
use crate::lex::TokenStream;
use std::collections::HashMap;
use vstd::prelude::*;

verus! {

/// An error that stops the assembly of a chart.
#[derive(Debug, Clone, PartialEq, Eq)]
pub enum ParseError {
    /// The tempo of an object is no number above zero; the text is what the
    /// chart wrote.
    BpmParseError(String),
    /// The slots of a message are not whole: a character is left over.
    InvalidObjectCount,
    /// A branch goes on or ends where no chain of branches is open, or a
    /// chain is left open. The assembly does not stop for it: it tells of
    /// it by a warning of the kind [`WarningKind::UnmatchedIf`].
    UnmatchedIf,
    /// A block ends where none is open, or a block is left open. The
    /// assembly does not stop for it: it tells of it by a warning of the
    /// kind [`WarningKind::UnmatchedRandom`].
    UnmatchedRandom,
    /// The messages of a channel in a track meet at no resolution that a
    /// `u32` holds.
    OutOfBoundsChannel,
}

/// An error with the characters of its string in place of the string.
pub enum ParseErrorView {
    BpmParseError(Seq<char>),
    InvalidObjectCount,
    UnmatchedIf,
    UnmatchedRandom,
    OutOfBoundsChannel,
}

impl View for ParseError {
    type V = ParseErrorView;

    open spec fn view(&self) -> ParseErrorView {
        match *self {
            ParseError::BpmParseError(text) => ParseErrorView::BpmParseError(text@),
            ParseError::InvalidObjectCount => ParseErrorView::InvalidObjectCount,
            ParseError::UnmatchedIf => ParseErrorView::UnmatchedIf,
            ParseError::UnmatchedRandom => ParseErrorView::UnmatchedRandom,
            ParseError::OutOfBoundsChannel => ParseErrorView::OutOfBoundsChannel,
        }
    }
}

/// What is to be said of a chart that is assembled all the same.
#[derive(Debug, Clone, Copy, PartialEq, Eq, Structural)]
pub enum WarningKind {
    /// `#ELSEIF`, `#ELSE` or `#ENDIF` stands where no chain of branches is
    /// open, and does nothing; or a chain of branches is open at the end.
    UnmatchedIf,
    /// `#ENDRANDOM` stands where no block is open, and does nothing; or a
    /// block is open at the end.
    UnmatchedRandom,
    /// A definition takes the place of an earlier one of the same object.
    Duplicate,
    /// A tempo or a total is no number above zero, and is left out.
    InvalidNumber,
    /// A command that the chart does not keep.
    Unsupported,
    /// An object of a message gives way to another object that a later
    /// message puts at the same place.
    Conflict,
    /// A message holds an object that the header does not define.
    Undefined,
}

/// What is to be said of one token of a chart.
#[derive(Debug, Clone, Copy, PartialEq, Eq, Structural)]
pub struct Warning {
    pub kind: WarningKind,
    /// The index of the token in the token stream, or the number of tokens
    /// for what is found at the end of the stream.
    pub token: usize,
}

/// A chart.
#[derive(Debug, Clone, PartialEq)]
pub struct Bms {
    /// The metadata and the tables of definitions.
    pub header: Header,
    /// The objects to show and to play, in the order of objects.
    pub sorted_notes: Vec<Obj>,
    /// The objects that hold values of the timing, in the order of objects.
    /// The identifier of such an object is the value as its slot writes it.
    pub sorted_timing: Vec<Obj>,
    /// The length of each track that is not of the usual length, by the
    /// number of the track: a decimal number above zero, as written.
    pub section_lengths: HashMap<u16, String>,
}

/// What the tokens so far have made of a chart.
pub struct Content<R> {
    /// The blocks that are open, and the source of random numbers.
    pub flow: Flow<R>,
    pub header: HeaderView,
    /// The messages that hold objects.
    pub lines: Seq<LineView>,
    /// The lengths of the tracks.
    pub lengths: Map<u16, Seq<char>>,
}

/// What the tokens have made of a chart before the first of them.
pub open spec fn blank<R: Rng>(rng: R) -> Content<R> {
    Content {
        flow: start(rng),
        header: HeaderView::empty(),
        lines: Seq::empty(),
        lengths: Map::empty(),
    }
}

/// The chart after the token `token`, or the error with which the token
/// fails. A token that is not kept changes nothing but the blocks.
pub open spec fn take_token<R: Rng>(c: Content<R>, token: TokenView) -> Result<
    Content<R>,
    ParseErrorView,
> {
    let flow = step(c.flow, token);
    if verdict(c.flow.stack, token) != Verdict::Kept {
        Ok(Content { flow, ..c })
    } else {
        match token {
            TokenView::Message { track, channel, message } => if channel == Channel::SectionLen {
                if is_positive_number(message) {
                    Ok(Content { flow, lengths: c.lengths.insert(track, message), ..c })
                } else {
                    Ok(Content { flow, ..c })
                }
            } else {
                match slots_of(message) {
                    Some(slots) => Ok(
                        Content { flow, lines: c.lines.push(LineView { track, channel, slots }), ..c },
                    ),
                    None => Err(ParseErrorView::InvalidObjectCount),
                }
            },
            _ => match failure(token) {
                Some(error) => Err(error),
                None => Ok(Content { flow, header: c.header.apply(token), ..c }),
            },
        }
    }
}

/// The chart after the tokens `tokens`, or the error of the first token
/// that fails.
pub open spec fn content_from<R: Rng>(c: Content<R>, tokens: Seq<TokenView>) -> Result<
    Content<R>,
    ParseErrorView,
>
    decreases tokens.len(),
{
    if tokens.len() == 0 {
        Ok(c)
    } else {
        match content_from(c, tokens.drop_last()) {
            Ok(before) => take_token(before, tokens.last()),
            Err(error) => Err(error),
        }
    }
}

/// The chart that the tokens `tokens` make with the source `rng`.
pub open spec fn content<R: Rng>(tokens: Seq<TokenView>, rng: R) -> Result<
    Content<R>,
    ParseErrorView,
> {
    content_from(blank(rng), tokens)
}

/// Two charts are the same but for their blocks and their sources of random
/// numbers: the same header, messages and lengths, or the same error.
pub open spec fn same_chart<A: Rng, B: Rng>(
    a: Result<Content<A>, ParseErrorView>,
    b: Result<Content<B>, ParseErrorView>,
) -> bool {
    match (a, b) {
        (Ok(p), Ok(q)) => p.header == q.header && p.lines == q.lines && p.lengths == q.lengths,
        (Err(e), Err(f)) => e == f,
        _ => false,
    }
}

/// What is to be said of the token `token`, which does not fail.
pub open spec fn notice<R: Rng>(c: Content<R>, token: TokenView) -> Option<WarningKind> {
    match verdict(c.flow.stack, token) {
        Verdict::Stray => if token is EndRandom {
            Some(WarningKind::UnmatchedRandom)
        } else {
            Some(WarningKind::UnmatchedIf)
        },
        Verdict::Kept => match token {
            TokenView::Message { track, channel, message } => if channel != Channel::SectionLen {
                None
            } else if !is_positive_number(message) {
                Some(WarningKind::InvalidNumber)
            } else if c.lengths.contains_key(track) {
                Some(WarningKind::Duplicate)
            } else {
                None
            },
            _ => c.header.issue(token),
        },
        _ => None,
    }
}

/// Whether the token `token` is a message that is kept and holds objects.
pub open spec fn is_line<R: Rng>(c: Content<R>, token: TokenView) -> bool {
    verdict(c.flow.stack, token) == Verdict::Kept && (token matches TokenView::Message {
        channel,
        ..
    } && channel != Channel::SectionLen)
}

/// What is to be said of the first `upto` tokens, token by token.
pub open spec fn notices<R: Rng>(tokens: Seq<TokenView>, rng: R, upto: int) -> Seq<Warning>
    decreases upto,
{
    if upto <= 0 {
        Seq::empty()
    } else {
        let before = notices(tokens, rng, upto - 1);
        match content(tokens.take(upto - 1), rng) {
            Ok(c) => match notice(c, tokens[upto - 1]) {
                Some(kind) => before.push(Warning { kind, token: (upto - 1) as usize }),
                None => before,
            },
            Err(_) => before,
        }
    }
}

/// The indices of those of the first `upto` tokens that are messages which
/// are kept and hold objects.
pub open spec fn origins<R: Rng>(tokens: Seq<TokenView>, rng: R, upto: int) -> Seq<usize>
    decreases upto,
{
    if upto <= 0 {
        Seq::empty()
    } else {
        let before = origins(tokens, rng, upto - 1);
        match content(tokens.take(upto - 1), rng) {
            Ok(c) => if is_line(c, tokens[upto - 1]) {
                before.push((upto - 1) as usize)
            } else {
                before
            },
            Err(_) => before,
        }
    }
}

/// What is to be said at the end of a stream of `count` tokens where the
/// blocks `stack` are open: a warning for each chain of branches that is
/// open, then one for each block that is open.
pub open spec fn end_warnings(stack: Seq<Frame>, count: usize) -> Seq<Warning> {
    Seq::new(
        open_chains(stack),
        |k: int| Warning { kind: WarningKind::UnmatchedIf, token: count },
    ) + Seq::new(
        (stack.len() - 1) as nat,
        |k: int| Warning { kind: WarningKind::UnmatchedRandom, token: count },
    )
}

/// What is to be said of the objects that gave way to others: a warning for
/// each, at the token of its message.
pub open spec fn conflict_warnings(conflicts: Seq<usize>, origins: Seq<usize>) -> Seq<Warning> {
    Seq::new(
        conflicts.len(),
        |k: int| Warning { kind: WarningKind::Conflict, token: origins[conflicts[k] as int] },
    )
}

/// Whether the object `id` of the channel `channel` is one that the header
/// `header` should define and does not: a sound without its file, an image
/// without its file, or a change of tempo without its tempo.
pub open spec fn is_undefined(header: HeaderView, channel: Channel, id: ObjId) -> bool {
    id@ != 0 && (channel.holds_sounds() && !header.wav_files.contains_key(id@ as u16)
        || channel.holds_images() && !header.bmp_files.contains_key(id@ as u16) || channel
        == Channel::BpmChange && !header.bpm_changes.contains_key(id@ as u16))
}

/// What is to be said of the first `upto` slots of the message `line`: a
/// warning for each object that is not defined.
pub open spec fn undefined_in_line(header: HeaderView, line: LineView, origin: usize, upto: int) -> Seq<
    Warning,
>
    decreases upto,
{
    if upto <= 0 {
        Seq::empty()
    } else if is_undefined(header, line.channel, line.slots[upto - 1]) {
        undefined_in_line(header, line, origin, upto - 1).push(
            Warning { kind: WarningKind::Undefined, token: origin },
        )
    } else {
        undefined_in_line(header, line, origin, upto - 1)
    }
}

/// What is to be said of the first `upto` messages: a warning for each
/// object that is not defined, at the token of its message.
pub open spec fn undefined(
    header: HeaderView,
    lines: Seq<LineView>,
    origins: Seq<usize>,
    upto: int,
) -> Seq<Warning>
    decreases upto,
{
    if upto <= 0 {
        Seq::empty()
    } else {
        undefined(header, lines, origins, upto - 1) + undefined_in_line(
            header,
            lines[upto - 1],
            origins[upto - 1],
            lines[upto - 1].slots.len() as int,
        )
    }
}

/// All that is to be said of a chart that is assembled: first of its tokens
/// in their order, then of what is open at the end, then of the objects
/// that gave way to others, then of the objects that are not defined.
pub open spec fn all_warnings<R: Rng>(tokens: Seq<TokenView>, rng: R) -> Seq<Warning> {
    let n = tokens.len() as int;
    match content(tokens, rng) {
        Ok(c) => notices(tokens, rng, n) + end_warnings(c.flow.stack, tokens.len() as usize)
            + conflict_warnings(
            conflicts(c.lines, c.lines.len() as int),
            origins(tokens, rng, n),
        ) + undefined(c.header, c.lines, origins(tokens, rng, n), c.lines.len() as int),
        Err(_) => Seq::empty(),
    }
}

/// Once a token has failed, the tokens that follow change nothing.
pub proof fn lemma_error_stays<R: Rng>(c: Content<R>, tokens: Seq<TokenView>, i: int)
    requires
        0 <= i <= tokens.len(),
        content_from(c, tokens.take(i)) is Err,
    ensures
        content_from(c, tokens) == content_from(c, tokens.take(i)),
    decreases tokens.len() - i,
{
    if i < tokens.len() {
        assert(tokens.drop_last().take(i) =~= tokens.take(i));
        lemma_error_stays(c, tokens.drop_last(), i);
    } else {
        assert(tokens.take(i) =~= tokens);
    }
}

impl Bms {
    /// The chart shows the header `header`, the lengths `lengths`, and the
    /// objects of the messages `lines`: each of them once, in the order of
    /// objects, those that hold values of the timing apart from the others.
    pub open spec fn shows(
        &self,
        header: HeaderView,
        lines: Seq<LineView>,
        lengths: Map<u16, Seq<char>>,
    ) -> bool {
        let all = objects(lines, lines.len() as int);
        &&& self.header@ == header
        &&& table_of(self.section_lengths@) == lengths
        &&& sorted(self.sorted_notes@)
        &&& sorted(self.sorted_timing@)
        &&& well_formed(self.sorted_notes@)
        &&& well_formed(self.sorted_timing@)
        &&& forall|o: Obj|
            #![trigger self.sorted_notes@.contains(o)]
            #![trigger all.contains(o)]
            self.sorted_notes@.contains(o) <==> all.contains(o) && !o.channel.holds_timing()
        &&& forall|o: Obj|
            #![trigger self.sorted_timing@.contains(o)]
            #![trigger all.contains(o)]
            self.sorted_timing@.contains(o) <==> all.contains(o) && o.channel.holds_timing()
    }

    /// The chart is the one that the tokens `tokens` make with the source
    /// `rng`.
    pub open spec fn assembles<R: Rng>(
        result: Result<Bms, ParseError>,
        tokens: Seq<TokenView>,
        rng: R,
    ) -> bool {
        match content(tokens, rng) {
            Err(error) => result matches Err(e) && e@ == error,
            Ok(c) => if fits(c.lines) {
                result matches Ok(bms) && bms.shows(c.header, c.lines, c.lengths)
            } else {
                result matches Err(e) && e@ == ParseErrorView::OutOfBoundsChannel
            },
        }
    }

    /// The chart that the tokens make with the random numbers of `rng`.
    ///
    /// The tokens that the blocks of the chart do not keep are left out; the
    /// others fill the header and give the objects. The assembly fails on the
    /// tempo of an object that is no number above zero, on a message whose
    /// slots are not whole, and on messages that meet at no resolution.
    pub fn from_token_stream<R: Rng>(token_stream: &TokenStream, rng: R) -> (result: Result<
        Bms,
        ParseError,
    >)
        requires
            rng.ready(),
        ensures
            Bms::assembles(result, token_stream@, rng),
    {
        match Bms::from_token_stream_with_warnings(token_stream, rng) {
            Ok((bms, _)) => Ok(bms),
            Err(error) => Err(error),
        }
    }

    /// The chart that the tokens make with the random numbers of `rng`, and
    /// what is to be said of it.
    pub fn from_token_stream_with_warnings<R: Rng>(token_stream: &TokenStream, rng: R) -> (result:
        Result<(Bms, Vec<Warning>), ParseError>)
        requires
            rng.ready(),
        ensures
            match result {
                Ok((bms, warnings)) => Bms::assembles(
                    Ok::<Bms, ParseError>(bms),
                    token_stream@,
                    rng,
                ) && warnings@ == all_warnings(token_stream@, rng),
                Err(error) => Bms::assembles(Err::<Bms, ParseError>(error), token_stream@, rng),
            },
    {
        let ghost tokens = token_stream@;
        let mut parser = RandomParser::new(rng);
        let mut header = Header::default();
        let mut lines: Vec<Line> = Vec::new();
        let mut placed: Vec<usize> = Vec::new();
        let mut lengths: HashMap<u16, String> = HashMap::new();
        let mut warnings: Vec<Warning> = Vec::new();
        let count = token_stream.len();
        proof {
            assert(tokens.take(0) =~= Seq::<TokenView>::empty());
            assert(views(lines@) =~= Seq::<LineView>::empty());
            assert(table_of(lengths@) =~= Map::<u16, Seq<char>>::empty());
        }
        let mut i: usize = 0;
        while i < count
            invariant
                i <= count,
                count == tokens.len(),
                tokens == token_stream@,
                parser.flow().rng.ready(),
                content(tokens.take(i as int), rng) == Ok::<Content<R>, ParseErrorView>(
                    Content {
                        flow: parser.flow(),
                        header: header@,
                        lines: views(lines@),
                        lengths: table_of(lengths@),
                    },
                ),
                warnings@ == notices(tokens, rng, i as int),
                placed@ == origins(tokens, rng, i as int),
                placed@.len() == lines@.len(),
            decreases count - i,
        {
            let token = &token_stream.entry(i).token;
            let ghost before = Content {
                flow: parser.flow(),
                header: header@,
                lines: views(lines@),
                lengths: table_of(lengths@),
            };
            let ghost old_lines = lines@;
            proof {
                assert(tokens.take(i + 1).drop_last() =~= tokens.take(i as int));
                assert(tokens.take(i + 1).last() == tokens[i as int]);
            }
            let what = parser.parse(token);
            let mut kind: Option<WarningKind> = None;
            match what {
                Verdict::Stray => {
                    kind = match *token {
                        Token::EndRandom => Some(WarningKind::UnmatchedRandom),
                        _ => Some(WarningKind::UnmatchedIf),
                    };
                },
                Verdict::Kept => {
                    match *token {
                        Token::Message { track, channel, message } => {
                            if channel == Channel::SectionLen {
                                if !check_positive_number(message) {
                                    kind = Some(WarningKind::InvalidNumber);
                                } else if define(&mut lengths, track, message) {
                                    kind = Some(WarningKind::Duplicate);
                                }
                            } else {
                                match decode_slots(message) {
                                    Some(slots) => {
                                        lines.push(Line { track, channel, slots });
                                        placed.push(i);
                                        proof {
                                            assert(views(lines@) =~= views(old_lines).push(
                                                LineView { track, channel, slots: slots@ },
                                            ));
                                        }
                                    },
                                    None => {
                                        proof {
                                            lemma_error_stays(blank(rng), tokens, i + 1);
                                        }
                                        return Err(ParseError::InvalidObjectCount);
                                    },
                                }
                            }
                        },
                        _ => {
                            match header.parse(token) {
                                Ok(issue) => {
                                    kind = issue;
                                },
                                Err(error) => {
                                    proof {
                                        lemma_error_stays(blank(rng), tokens, i + 1);
                                    }
                                    return Err(error);
                                },
                            }
                        },
                    }
                },
                _ => {},
            }
            match kind {
                Some(kind) => {
                    warnings.push(Warning { kind, token: i });
                },
                None => {},
            }
            i = i + 1;
        }
        proof {
            assert(tokens.take(i as int) =~= tokens);
        }
        let (outside, inside, blocks) = parser.unclosed();
        let ghost told = warnings@;
        let ghost at_end = end_warnings(parser.flow().stack, count);
        let ghost chains = open_chains(parser.flow().stack) as int;
        if outside {
            warnings.push(Warning { kind: WarningKind::UnmatchedIf, token: count });
        }
        proof {
            assert(warnings@ =~= told + at_end.take(chains - inside));
        }
        let mut e: usize = 0;
        while e < inside
            invariant
                e <= inside <= chains,
                chains == open_chains(parser.flow().stack),
                at_end == end_warnings(parser.flow().stack, count),
                warnings@ == told + at_end.take(chains - inside + e),
            decreases inside - e,
        {
            warnings.push(Warning { kind: WarningKind::UnmatchedIf, token: count });
            proof {
                let k = chains - inside + e;
                assert(at_end.take(k + 1) =~= at_end.take(k).push(at_end[k]));
            }
            e = e + 1;
        }
        let mut e: usize = 0;
        while e < blocks
            invariant
                e <= blocks,
                chains == open_chains(parser.flow().stack),
                blocks == parser.flow().stack.len() - 1,
                at_end == end_warnings(parser.flow().stack, count),
                warnings@ == told + at_end.take(chains + e),
            decreases blocks - e,
        {
            warnings.push(Warning { kind: WarningKind::UnmatchedRandom, token: count });
            proof {
                assert(at_end.take(chains + e + 1) =~= at_end.take(chains + e).push(
                    at_end[chains + e],
                ));
            }
            e = e + 1;
        }
        proof {
            assert(at_end.take(chains + blocks) =~= at_end);
        }
        let ghost all_lines = views(lines@);
        let merged = match merge(&lines) {
            Some(merged) => merged,
            None => {
                return Err(ParseError::OutOfBoundsChannel);
            },
        };
        let all = sort(&merged.objects);
        let mut sorted_notes: Vec<Obj> = Vec::new();
        let mut sorted_timing: Vec<Obj> = Vec::new();
        let mut k: usize = 0;
        while k < all.len()
            invariant
                k <= all.len(),
                sorted(all@),
                well_formed(all@),
                sorted(sorted_notes@),
                sorted(sorted_timing@),
                well_formed(sorted_notes@),
                well_formed(sorted_timing@),
                forall|p: int, q: int|
                    0 <= p < sorted_notes@.len() && k <= q < all@.len() ==> (
                    #[trigger] sorted_notes@[p]).precedes(#[trigger] all@[q]),
                forall|p: int, q: int|
                    0 <= p < sorted_timing@.len() && k <= q < all@.len() ==> (
                    #[trigger] sorted_timing@[p]).precedes(#[trigger] all@[q]),
                forall|o: Obj|
                    sorted_notes@.contains(o) <==> all@.take(k as int).contains(o)
                        && !o.channel.holds_timing(),
                forall|o: Obj|
                    sorted_timing@.contains(o) <==> all@.take(k as int).contains(o)
                        && o.channel.holds_timing(),
            decreases all.len() - k,
        {
            let o = all[k];
            let ghost notes_before = sorted_notes@;
            let ghost timing_before = sorted_timing@;
            if o.channel.is_timing() {
                sorted_timing.push(o);
            } else {
                sorted_notes.push(o);
            }
            proof {
                let taken = all@.take(k as int);
                assert(all@.take(k + 1) =~= taken.push(o));
                assert forall|x: Obj|
                    sorted_notes@.contains(x) <==> all@.take(k + 1).contains(x)
                        && !x.channel.holds_timing() by {
                    lemma_push_contains(taken, o, x);
                    if !o.channel.holds_timing() {
                        lemma_push_contains(notes_before, o, x);
                    }
                }
                assert forall|x: Obj|
                    sorted_timing@.contains(x) <==> all@.take(k + 1).contains(x)
                        && x.channel.holds_timing() by {
                    lemma_push_contains(taken, o, x);
                    if o.channel.holds_timing() {
                        lemma_push_contains(timing_before, o, x);
                    }
                }
            }
            k = k + 1;
        }
        proof {
            assert(all@.take(k as int) =~= all@);
        }
        let mut c: usize = 0;
        let ghost first = warnings@;
        while c < merged.conflicts.len()
            invariant
                c <= merged.conflicts.len(),
                placed@.len() == lines@.len(),
                forall|k: int|
                    0 <= k < merged.conflicts@.len() ==> #[trigger] merged.conflicts@[k]
                        < lines.len(),
                warnings@ == first + conflict_warnings(merged.conflicts@, placed@).take(c as int),
            decreases merged.conflicts.len() - c,
        {
            let token = placed[merged.conflicts[c]];
            warnings.push(Warning { kind: WarningKind::Conflict, token });
            proof {
                let w = conflict_warnings(merged.conflicts@, placed@);
                assert(w.take(c + 1) =~= w.take(c as int).push(w[c as int]));
                assert(warnings@ =~= first + w.take(c + 1));
            }
            c = c + 1;
        }
        proof {
            let w = conflict_warnings(merged.conflicts@, placed@);
            assert(w.take(c as int) =~= w);
            assert(first + w + undefined(header@, all_lines, placed@, 0) =~= first + w);
        }
        let ghost second = warnings@;
        let mut j: usize = 0;
        while j < lines.len()
            invariant
                j <= lines.len(),
                placed@.len() == lines@.len(),
                all_lines == views(lines@),
                warnings@ == second + undefined(header@, all_lines, placed@, j as int),
            decreases lines.len() - j,
        {
            let line = &lines[j];
            let origin = placed[j];
            let sound = line.channel.is_sound();
            let image = line.channel.is_image();
            let tempo = line.channel == Channel::BpmChange;
            let ghost third = warnings@;
            let ghost view = all_lines[j as int];
            proof {
                assert(view == lines@[j as int]@);
            }
            let mut s: usize = 0;
            while s < line.slots.len()
                invariant
                    s <= line.slots.len(),
                    view == line@,
                    sound == line.channel.holds_sounds(),
                    image == line.channel.holds_images(),
                    tempo == (line.channel == Channel::BpmChange),
                    warnings@ == third + undefined_in_line(header@, view, origin, s as int),
                decreases line.slots.len() - s,
            {
                let id = line.slots[s];
                let missing = !id.is_null() && (sound && !defines(&header.wav_files, id.value())
                    || image && !defines(&header.bmp_files, id.value()) || tempo && !defines(
                    &header.bpm_changes,
                    id.value(),
                ));
                if missing {
                    warnings.push(Warning { kind: WarningKind::Undefined, token: origin });
                }
                proof {
                    assert(warnings@ =~= third + undefined_in_line(header@, view, origin, s + 1));
                }
                s = s + 1;
            }
            proof {
                assert(warnings@ =~= second + undefined(header@, all_lines, placed@, j + 1));
            }
            j = j + 1;
        }
        let bms = Bms { header, sorted_notes, sorted_timing, section_lengths: lengths };
        Ok((bms, warnings))
    }
}

/// Tokens make one chart: two charts that show the same header, lengths and
/// messages hold the same objects in the same order.
pub proof fn lemma_one_chart(
    a: Bms,
    b: Bms,
    header: HeaderView,
    lines: Seq<LineView>,
    lengths: Map<u16, Seq<char>>,
)
    requires
        a.shows(header, lines, lengths),
        b.shows(header, lines, lengths),
    ensures
        a.header@ == b.header@,
        table_of(a.section_lengths@) == table_of(b.section_lengths@),
        a.sorted_notes@ == b.sorted_notes@,
        a.sorted_timing@ == b.sorted_timing@,
{
    lemma_sorted_unique(a.sorted_notes@, b.sorted_notes@);
    lemma_sorted_unique(a.sorted_timing@, b.sorted_timing@);
}

/// Whether the table `table` holds a text under `key`.
fn defines(table: &HashMap<u16, String>, key: u16) -> (held: bool)
    ensures
        held == table_of(table@).contains_key(key),
{
    broadcast use vstd::std_specs::hash::group_hash_axioms;

    table.contains_key(&key)
}

/// A sequence with one more element at its end holds that element and what
/// it held.
pub proof fn lemma_push_contains<A>(s: Seq<A>, x: A, o: A)
    ensures
        s.push(x).contains(o) <==> (s.contains(o) || o == x),
{
    let t = s.push(x);
    if t.contains(o) {
        let j = choose|j: int| 0 <= j < t.len() && t[j] == o;
        if j < s.len() {
            assert(s[j] == o);
        }
    }
    if s.contains(o) {
        let j = choose|j: int| 0 <= j < s.len() && s[j] == o;
        assert(t[j] == o);
    }
    if o == x {
        assert(t[s.len() as int] == o);
    }
}

} // verus!
