//! The blocks of a chart that depend on a number drawn: which tokens they
//! keep.
//!
//! `#RANDOM` and `#SETRANDOM` open a block with a number, `#ENDRANDOM` ends
//! it. In a block, `#IF`, `#ELSEIF` and `#ELSE` start the branches of a
//! chain, of which the first that fits the number is kept, and `#ENDIF` ends
//! the chain. Outside every block the number is 1.

use super::rng::Rng;
use crate::lex::token::{Token, TokenView};
use crate::lex::TokenStream;
use vstd::prelude::*;

verus! {

/// A block that is open, and the chain of branches that is open in it.
#[derive(Debug, Clone, Copy, PartialEq, Eq, Structural)]
pub struct Frame {
    /// The number that was drawn or set for the block.
    pub value: u32,
    /// The block was opened where tokens are kept.
    pub live: bool,
    /// A chain of branches is open.
    pub open: bool,
    /// A branch of the open chain has been kept.
    pub matched: bool,
    /// The branch that is open is kept.
    pub taken: bool,
}

impl Frame {
    /// Tokens that stand here in the block are kept.
    pub open spec fn passes(self) -> bool {
        self.live && (!self.open || self.taken)
    }

    /// What stands outside every block: the number is 1.
    pub open spec fn root() -> Frame {
        Frame { value: 1, live: true, open: false, matched: false, taken: false }
    }

    /// A block that has just been opened.
    pub open spec fn block(value: u32, live: bool) -> Frame {
        Frame { value, live, open: false, matched: false, taken: false }
    }

    /// The block after `#IF` with the number `value`.
    pub open spec fn first_branch(self, value: u32) -> Frame {
        Frame { open: true, matched: value == self.value, taken: value == self.value, ..self }
    }

    /// The block, in which a chain is open, after `#ELSEIF` with the number
    /// `value`.
    pub open spec fn next_branch(self, value: u32) -> Frame {
        Frame {
            matched: self.matched || value == self.value,
            taken: !self.matched && value == self.value,
            ..self
        }
    }

    /// The block, in which a chain is open, after `#ELSE`.
    pub open spec fn last_branch(self) -> Frame {
        Frame { matched: true, taken: !self.matched, ..self }
    }

    /// The block after `#ENDIF`.
    pub open spec fn closed(self) -> Frame {
        Frame { open: false, matched: false, taken: false, ..self }
    }
}

/// What becomes of a token.
#[derive(Debug, Clone, Copy, PartialEq, Eq, Structural)]
pub enum Verdict {
    /// The token belongs to the chart.
    Kept,
    /// The token stands in a branch that is not kept.
    Skipped,
    /// The token opens or ends a block or a branch.
    Marker,
    /// The token ends or goes on with what is not open, and does nothing.
    Stray,
}

/// The blocks that are open, the innermost last, and the source of random
/// numbers.
pub struct Flow<R> {
    pub stack: Seq<Frame>,
    pub rng: R,
}

/// What becomes of `token` where the blocks `stack` are open.
pub open spec fn verdict(stack: Seq<Frame>, token: TokenView) -> Verdict {
    match token {
        TokenView::Random(_) | TokenView::SetRandom(_) | TokenView::If(_) => Verdict::Marker,
        TokenView::ElseIf(_) | TokenView::Else | TokenView::EndIf => if stack.last().open {
            Verdict::Marker
        } else {
            Verdict::Stray
        },
        TokenView::EndRandom => if stack.len() > 1 {
            Verdict::Marker
        } else {
            Verdict::Stray
        },
        _ => if stack.last().passes() {
            Verdict::Kept
        } else {
            Verdict::Skipped
        },
    }
}

/// The blocks and the source after `token`. A number is drawn only by a
/// `#RANDOM` that stands where tokens are kept.
pub open spec fn step<R: Rng>(flow: Flow<R>, token: TokenView) -> Flow<R> {
    let top = flow.stack.last();
    let below = flow.stack.drop_last();
    match token {
        TokenView::Random(max) => if top.passes() {
            Flow {
                stack: flow.stack.push(Frame::block(flow.rng.draw(max), true)),
                rng: flow.rng.after(max),
            }
        } else {
            Flow { stack: flow.stack.push(Frame::block(0, false)), rng: flow.rng }
        },
        TokenView::SetRandom(value) => Flow {
            stack: flow.stack.push(Frame::block(value, top.passes())),
            rng: flow.rng,
        },
        TokenView::If(value) => Flow { stack: below.push(top.first_branch(value)), rng: flow.rng },
        TokenView::ElseIf(value) => if top.open {
            Flow { stack: below.push(top.next_branch(value)), rng: flow.rng }
        } else {
            flow
        },
        TokenView::Else => if top.open {
            Flow { stack: below.push(top.last_branch()), rng: flow.rng }
        } else {
            flow
        },
        TokenView::EndIf => if top.open {
            Flow { stack: below.push(top.closed()), rng: flow.rng }
        } else {
            flow
        },
        TokenView::EndRandom => if flow.stack.len() > 1 {
            Flow { stack: below, rng: flow.rng }
        } else {
            flow
        },
        _ => flow,
    }
}

/// The blocks and the source before the first token.
pub open spec fn start<R: Rng>(rng: R) -> Flow<R> {
    Flow { stack: seq![Frame::root()], rng }
}

/// The blocks and the source after the tokens `tokens`.
pub open spec fn flow_after<R: Rng>(tokens: Seq<TokenView>, rng: R) -> Flow<R>
    decreases tokens.len(),
{
    if tokens.len() == 0 {
        start(rng)
    } else {
        step(flow_after(tokens.drop_last(), rng), tokens.last())
    }
}

/// Whether the token of index `i` belongs to the chart.
pub open spec fn kept<R: Rng>(tokens: Seq<TokenView>, rng: R, i: int) -> bool {
    verdict(flow_after(tokens.take(i), rng).stack, tokens[i]) == Verdict::Kept
}

/// The tokens of the chart: those of `tokens` that are kept, in their order.
pub open spec fn effective<R: Rng>(tokens: Seq<TokenView>, rng: R) -> Seq<TokenView>
    decreases tokens.len(),
{
    if tokens.len() == 0 {
        Seq::empty()
    } else if kept(tokens, rng, tokens.len() - 1) {
        effective(tokens.drop_last(), rng).push(tokens.last())
    } else {
        effective(tokens.drop_last(), rng)
    }
}

/// How many of the blocks `stack` have a chain of branches open.
pub open spec fn open_chains(stack: Seq<Frame>) -> nat
    decreases stack.len(),
{
    if stack.len() == 0 {
        0
    } else if stack.last().open {
        open_chains(stack.drop_last()) + 1
    } else {
        open_chains(stack.drop_last())
    }
}

/// The open chains of blocks are those of the outer and those of the inner
/// blocks.
pub proof fn lemma_open_chains(outer: Seq<Frame>, inner: Seq<Frame>)
    ensures
        open_chains(outer + inner) == open_chains(outer) + open_chains(inner),
    decreases inner.len(),
{
    if inner.len() == 0 {
        assert(outer + inner =~= outer);
    } else {
        assert((outer + inner).drop_last() =~= outer + inner.drop_last());
        lemma_open_chains(outer, inner.drop_last());
    }
}

/// The interpreter of the blocks: it is given the tokens one by one and says
/// what becomes of each.
pub struct RandomParser<R> {
    rng: R,
    root: Frame,
    blocks: Vec<Frame>,
}

impl<R: Rng> RandomParser<R> {
    /// The blocks that are open and the source of random numbers.
    pub closed spec fn flow(&self) -> Flow<R> {
        Flow { stack: seq![self.root] + self.blocks@, rng: self.rng }
    }

    /// An interpreter before the first token.
    pub fn new(rng: R) -> (parser: Self)
        ensures
            parser.flow() == start(rng),
    {
        let parser = RandomParser {
            rng,
            root: Frame { value: 1, live: true, open: false, matched: false, taken: false },
            blocks: Vec::new(),
        };
        proof {
            assert(parser.flow().stack =~= seq![Frame::root()]);
        }
        parser
    }

    /// The innermost block that is open.
    fn top(&self) -> (frame: Frame)
        ensures
            frame == self.flow().stack.last(),
    {
        if self.blocks.len() == 0 {
            self.root
        } else {
            self.blocks[self.blocks.len() - 1]
        }
    }

    /// Puts `frame` in the place of the innermost block.
    fn set_top(&mut self, frame: Frame)
        ensures
            final(self).flow().stack == old(self).flow().stack.drop_last().push(frame),
            final(self).flow().rng == old(self).flow().rng,
    {
        if self.blocks.len() == 0 {
            self.root = frame;
        } else {
            let last = self.blocks.len() - 1;
            self.blocks.set(last, frame);
        }
        proof {
            assert(self.flow().stack =~= old(self).flow().stack.drop_last().push(frame));
        }
    }

    /// Opens the block `frame` in the innermost block.
    fn open(&mut self, frame: Frame)
        ensures
            final(self).flow().stack == old(self).flow().stack.push(frame),
            final(self).flow().rng == old(self).flow().rng,
    {
        self.blocks.push(frame);
        proof {
            assert(self.flow().stack =~= old(self).flow().stack.push(frame));
        }
    }

    /// Whether a chain of branches is open outside every block, how many
    /// blocks have a chain of branches open, and how many blocks are open.
    pub fn unclosed(&self) -> (open: (bool, usize, usize))
        ensures
            open_chains(self.flow().stack) == open.1 + if open.0 {
                1nat
            } else {
                0nat
            },
            open.1 <= open.2,
            open.2 == self.flow().stack.len() - 1,
    {
        let mut chains: usize = 0;
        let mut i: usize = 0;
        while i < self.blocks.len()
            invariant
                i <= self.blocks.len(),
                chains == open_chains(self.blocks@.take(i as int)),
                chains <= i,
            decreases self.blocks.len() - i,
        {
            proof {
                assert(self.blocks@.take(i + 1).drop_last() =~= self.blocks@.take(i as int));
            }
            if self.blocks[i].open {
                chains = chains + 1;
            }
            i = i + 1;
        }
        proof {
            assert(self.blocks@.take(i as int) =~= self.blocks@);
            lemma_open_chains(seq![self.root], self.blocks@);
            let outer = seq![self.root];
            assert(outer.drop_last() =~= Seq::<Frame>::empty());
            assert(open_chains(outer.drop_last()) == 0);
            assert(outer.last() == self.root);
            assert(open_chains(outer) == if self.root.open {
                1nat
            } else {
                0nat
            });
        }
        (self.root.open, chains, self.blocks.len())
    }

    /// Takes the next token and says what becomes of it.
    pub fn parse(&mut self, token: &Token) -> (result: Verdict)
        requires
            old(self).flow().rng.ready(),
        ensures
            result == verdict(old(self).flow().stack, token@),
            final(self).flow() == step(old(self).flow(), token@),
            final(self).flow().rng.ready(),
    {
        let top = self.top();
        let passes = top.live && (!top.open || top.taken);
        match *token {
            Token::Random(max) => {
                if passes {
                    let value = self.rng.gen(max);
                    self.open(Frame { value, live: true, open: false, matched: false, taken: false });
                } else {
                    self.open(
                        Frame { value: 0, live: false, open: false, matched: false, taken: false },
                    );
                }
                Verdict::Marker
            },
            Token::SetRandom(value) => {
                self.open(Frame { value, live: passes, open: false, matched: false, taken: false });
                Verdict::Marker
            },
            Token::If(value) => {
                let taken = value == top.value;
                self.set_top(Frame { open: true, matched: taken, taken, ..top });
                Verdict::Marker
            },
            Token::ElseIf(value) => {
                if top.open {
                    let fits = value == top.value;
                    self.set_top(
                        Frame { matched: top.matched || fits, taken: !top.matched && fits, ..top },
                    );
                    Verdict::Marker
                } else {
                    Verdict::Stray
                }
            },
            Token::Else => {
                if top.open {
                    self.set_top(Frame { matched: true, taken: !top.matched, ..top });
                    Verdict::Marker
                } else {
                    Verdict::Stray
                }
            },
            Token::EndIf => {
                if top.open {
                    self.set_top(Frame { open: false, matched: false, taken: false, ..top });
                    Verdict::Marker
                } else {
                    Verdict::Stray
                }
            },
            Token::EndRandom => {
                if self.blocks.len() > 0 {
                    self.blocks.pop();
                    proof {
                        assert(self.flow().stack =~= old(self).flow().stack.drop_last());
                    }
                    Verdict::Marker
                } else {
                    Verdict::Stray
                }
            },
            _ => {
                if passes {
                    Verdict::Kept
                } else {
                    Verdict::Skipped
                }
            },
        }
    }
}

/// What each of the tokens `tokens` shows.
pub open spec fn token_views(tokens: Seq<Token>) -> Seq<TokenView> {
    Seq::new(tokens.len(), |i: int| tokens[i]@)
}

/// The tokens of the chart: those of the stream that are kept when the
/// numbers of the blocks are drawn from `rng`, in their order. No marker is
/// among them.
pub fn effective_tokens<'a, R: Rng>(token_stream: &TokenStream<'a>, rng: R) -> (tokens: Vec<
    Token<'a>,
>)
    requires
        rng.ready(),
    ensures
        token_views(tokens@) == effective(token_stream@, rng),
{
    let ghost all = token_stream@;
    let mut parser = RandomParser::new(rng);
    let mut tokens: Vec<Token<'a>> = Vec::new();
    let count = token_stream.len();
    proof {
        assert(token_views(tokens@) =~= effective(all.take(0), rng));
    }
    let mut i: usize = 0;
    while i < count
        invariant
            i <= count,
            count == all.len(),
            all == token_stream@,
            parser.flow().rng.ready(),
            parser.flow() == flow_after(all.take(i as int), rng),
            token_views(tokens@) == effective(all.take(i as int), rng),
        decreases count - i,
    {
        let token = token_stream.entry(i).token;
        let ghost before = tokens@;
        proof {
            assert(all.take(i + 1).drop_last() =~= all.take(i as int));
            assert(all.take(i + 1).take(i as int) =~= all.take(i as int));
        }
        match parser.parse(&token) {
            Verdict::Kept => {
                tokens.push(token);
                proof {
                    assert(token_views(tokens@) =~= token_views(before).push(token@));
                }
            },
            _ => {},
        }
        i = i + 1;
    }
    proof {
        assert(all.take(i as int) =~= all);
    }
    tokens
}

} // verus!
