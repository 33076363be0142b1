//! Branches that are not kept can be left out of a chart.

use super::random::{effective, flow_after, kept, start, step};
use super::rng::Rng;
use super::{
    blank, content, content_from, same_chart, take_token, Bms, Content, ParseError,
    ParseErrorView,
};
use crate::lex::splice::{ends_line, lemma_lex_concat, shifted};
use crate::lex::token::TokenView;
use crate::lex::{lex, tokens_of};
use vstd::prelude::*;

verus! {

/// How many blocks are open after the tokens `tokens` of those that the
/// tokens have opened; or -1 if the tokens leave the branch in which they
/// start: by a marker of its chain, or by the end of the block around it.
pub open spec fn depth_after(tokens: Seq<TokenView>) -> int
    decreases tokens.len(),
{
    if tokens.len() == 0 {
        0
    } else {
        let depth = depth_after(tokens.drop_last());
        if depth < 0 {
            -1
        } else {
            match tokens.last() {
                TokenView::Random(_) | TokenView::SetRandom(_) => depth + 1,
                TokenView::EndRandom => depth - 1,
                TokenView::If(_) | TokenView::ElseIf(_) | TokenView::Else | TokenView::EndIf => if depth
                    == 0 {
                    -1
                } else {
                    depth
                },
                _ => depth,
            }
        }
    }
}

/// The tokens `tokens` stand in one branch: every block that they open they
/// end, and they do not leave the branch in which they start.
pub open spec fn in_one_branch(tokens: Seq<TokenView>) -> bool {
    depth_after(tokens) == 0
}

/// A chart after two runs of tokens is the chart after the second run,
/// taken from the chart after the first.
pub proof fn lemma_content_from_concat<R: Rng>(
    c: Content<R>,
    first: Seq<TokenView>,
    second: Seq<TokenView>,
)
    ensures
        content_from(c, first + second) == match content_from(c, first) {
            Ok(middle) => content_from(middle, second),
            Err(error) => Err(error),
        },
    decreases second.len(),
{
    if second.len() == 0 {
        assert(first + second =~= first);
    } else {
        assert((first + second).drop_last() =~= first + second.drop_last());
        assert((first + second).last() == second.last());
        lemma_content_from_concat(c, first, second.drop_last());
    }
}

/// At least the root is open, whatever the tokens.
pub proof fn lemma_root_stays<R: Rng>(c: Content<R>, tokens: Seq<TokenView>)
    requires
        c.flow.stack.len() >= 1,
    ensures
        content_from(c, tokens) matches Ok(after) ==> after.flow.stack.len() >= 1,
    decreases tokens.len(),
{
    if tokens.len() > 0 {
        lemma_root_stays(c, tokens.drop_last());
    }
}

/// Where tokens are not kept, tokens that do not leave their branch change
/// nothing but the blocks that they open themselves, and those blocks are
/// not live.
proof fn lemma_in_branch<R: Rng>(c: Content<R>, tokens: Seq<TokenView>)
    requires
        c.flow.stack.len() >= 1,
        !c.flow.stack.last().passes(),
        depth_after(tokens) >= 0,
    ensures
        content_from(c, tokens) matches Ok(after) && {
            &&& after.header == c.header
            &&& after.lines == c.lines
            &&& after.lengths == c.lengths
            &&& after.flow.rng == c.flow.rng
            &&& after.flow.stack.len() == c.flow.stack.len() + depth_after(tokens)
            &&& after.flow.stack.take(c.flow.stack.len() as int) == c.flow.stack
            &&& forall|k: int|
                c.flow.stack.len() <= k < after.flow.stack.len() ==> !(
                #[trigger] after.flow.stack[k]).live
        },
    decreases tokens.len(),
{
    let base = c.flow.stack.len() as int;
    if tokens.len() == 0 {
        assert(c.flow.stack.take(base) =~= c.flow.stack);
    } else {
        lemma_in_branch(c, tokens.drop_last());
        let before = content_from(c, tokens.drop_last())->Ok_0;
        let token = tokens.last();
        let top = before.flow.stack.last();
        assert(!top.passes()) by {
            if before.flow.stack.len() == base {
                assert(before.flow.stack.take(base) =~= before.flow.stack);
            }
        }
        let after = take_token(before, token)->Ok_0;
        assert(after.flow == step(before.flow, token));
        assert(after.flow.stack.take(base) =~= c.flow.stack) by {
            assert forall|k: int| 0 <= k < base implies after.flow.stack[k]
                == c.flow.stack[k] by {
                assert(before.flow.stack.take(base)[k] == before.flow.stack[k]);
            }
        }
    }
}

/// The tokens of a branch that is not kept change nothing.
pub proof fn lemma_skipped_branch<R: Rng>(c: Content<R>, branch: Seq<TokenView>)
    requires
        c.flow.stack.len() >= 1,
        !c.flow.stack.last().passes(),
        in_one_branch(branch),
    ensures
        content_from(c, branch) == Ok::<Content<R>, ParseErrorView>(c),
{
    lemma_in_branch(c, branch);
    let after = content_from(c, branch)->Ok_0;
    assert(after.flow.stack.take(c.flow.stack.len() as int) =~= after.flow.stack);
}

/// Leaving out the tokens of a branch that is not kept gives the same
/// chart for the same source of random numbers.
///
/// `before` are the tokens up to the marker that starts the branch, `branch`
/// the tokens of the branch, and `after` those from the marker on that ends
/// the branch or starts the next branch.
pub proof fn lemma_elision<R: Rng>(
    before: Seq<TokenView>,
    branch: Seq<TokenView>,
    after: Seq<TokenView>,
    rng: R,
)
    requires
        content(before, rng) matches Ok(c) ==> !c.flow.stack.last().passes(),
        in_one_branch(branch),
    ensures
        content(before + branch + after, rng) == content(before + after, rng),
        forall|result: Result<Bms, ParseError>|
            Bms::assembles(result, before + branch + after, rng) <==> Bms::assembles(
                result,
                before + after,
                rng,
            ),
{
    let start = blank(rng);
    lemma_content_from_concat(start, before, branch);
    lemma_content_from_concat(start, before + branch, after);
    lemma_content_from_concat(start, before, after);
    if let Ok(c) = content(before, rng) {
        lemma_root_stays(start, before);
        lemma_skipped_branch(c, branch);
    }
}

/// The blocks of a chart are those that its tokens open and end.
pub proof fn lemma_content_flow<R: Rng>(tokens: Seq<TokenView>, rng: R)
    ensures
        content(tokens, rng) matches Ok(c) ==> c.flow == flow_after(tokens, rng),
    decreases tokens.len(),
{
    if tokens.len() > 0 {
        lemma_content_flow(tokens.drop_last(), rng);
    }
}

/// The tokens that are kept make the chart, outside every block as well as
/// in their blocks, and they draw no number.
proof fn lemma_kept_tokens<R: Rng, S: Rng>(tokens: Seq<TokenView>, rng: R, other: S)
    ensures
        same_chart(content(tokens, rng), content(effective(tokens, rng), other)),
        content(effective(tokens, rng), other) matches Ok(q) ==> q.flow == start(other),
    decreases tokens.len(),
{
    if tokens.len() > 0 {
        let rest = tokens.drop_last();
        let token = tokens.last();
        lemma_kept_tokens(rest, rng, other);
        lemma_content_flow(rest, rng);
        assert(tokens.take(tokens.len() - 1) =~= rest);
        if kept(tokens, rng, tokens.len() - 1) {
            assert(effective(tokens, rng).drop_last() =~= effective(rest, rng));
        }
    }
}

/// A chart is the chart of its tokens that are kept: leaving out all other
/// tokens and all markers gives the same chart, whatever the source of
/// random numbers is then.
pub proof fn lemma_chart_of_kept_tokens<R: Rng, S: Rng>(tokens: Seq<TokenView>, rng: R, other: S)
    ensures
        same_chart(content(tokens, rng), content(effective(tokens, rng), other)),
        forall|result: Result<Bms, ParseError>|
            Bms::assembles(result, tokens, rng) <==> Bms::assembles(
                result,
                effective(tokens, rng),
                other,
            ),
{
    lemma_kept_tokens(tokens, rng, other);
}

/// Leaving out the text of a branch that is not kept gives the same chart
/// for the same source of random numbers.
///
/// `before` is the text up to the end of the line of the marker that starts
/// the branch, `branch` the lines of the branch, and `after` the text from
/// the line on of the marker that ends the branch or starts the next branch.
/// The text before the branch and the text of the branch have no lexical
/// error.
pub proof fn lemma_text_elision<R: Rng>(
    before: Seq<char>,
    branch: Seq<char>,
    after: Seq<char>,
    rng: R,
)
    requires
        ends_line(before),
        ends_line(branch),
        lex(before) is Ok,
        lex(branch) is Ok,
        content(tokens_of(lex(before)->Ok_0), rng) matches Ok(c) ==> !c.flow.stack.last().passes(),
        in_one_branch(tokens_of(lex(branch)->Ok_0)),
    ensures
        match lex(before + branch + after) {
            Ok(full) => lex(before + after) matches Ok(cut) && content(tokens_of(full), rng)
                == content(tokens_of(cut), rng) && forall|result: Result<Bms, ParseError>|
                Bms::assembles(result, tokens_of(full), rng) <==> Bms::assembles(
                    result,
                    tokens_of(cut),
                    rng,
                ),
            Err(_) => lex(before + after) is Err,
        },
{
    assert(before + branch + after =~= before + (branch + after));
    lemma_lex_concat(before, branch + after);
    lemma_lex_concat(branch, after);
    lemma_lex_concat(before, after);
    let first = lex(before)->Ok_0;
    let second = lex(branch)->Ok_0;
    if let Ok(third) = lex(after) {
        let n = before.len() as int;
        let m = branch.len() as int;
        let moved = shifted(Ok(third), m)->Ok_0;
        let full = lex(before + branch + after)->Ok_0;
        let cut = lex(before + after)->Ok_0;
        assert(full =~= first + shifted(Ok(second + moved), n)->Ok_0);
        assert(cut =~= first + shifted(Ok(third), n)->Ok_0);
        assert(tokens_of(full) =~= tokens_of(first) + tokens_of(second) + tokens_of(third));
        assert(tokens_of(cut) =~= tokens_of(first) + tokens_of(third));
        lemma_elision(tokens_of(first), tokens_of(second), tokens_of(third), rng);
    }
}

} // verus!
