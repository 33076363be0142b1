//! A chart depends on the numbers that it draws, and on nothing else of the
//! source of random numbers.

use super::random::{step, verdict};
use super::rng::{lemma_turned_by, turned, turned_by, Rng, RngMock};
use super::{blank, content, content_from, same_chart, Bms, Content, ParseError};
use crate::lex::token::TokenView;
use vstd::prelude::*;

verus! {

/// How many numbers the tokens `tokens` draw, taken from the chart `c`: one
/// for each `#RANDOM` that stands where tokens are kept.
pub open spec fn draws_from<R: Rng>(c: Content<R>, tokens: Seq<TokenView>) -> nat
    decreases tokens.len(),
{
    if tokens.len() == 0 {
        0
    } else {
        let n = draws_from(c, tokens.drop_last());
        match content_from(c, tokens.drop_last()) {
            Ok(before) => if tokens.last() is Random && before.flow.stack.last().passes() {
                n + 1
            } else {
                n
            },
            Err(_) => n,
        }
    }
}

/// How many numbers the tokens `tokens` draw from the source `rng`.
pub open spec fn draws<R: Rng>(tokens: Seq<TokenView>, rng: R) -> nat {
    draws_from(blank(rng), tokens)
}

/// The number that the mock source `rng` gives at its draw of index `k`.
pub open spec fn number_at<const N: usize>(rng: RngMock<N>, k: int) -> u32 {
    rng.0@[k % (N as int)]
}

/// There is an array that holds the first `k` elements of `wanted`.
proof fn lemma_array_exists<const N: usize>(base: [u32; N], wanted: Seq<u32>, k: int) -> (a: [u32;
    N])
    requires
        wanted.len() == N,
        0 <= k <= N,
    ensures
        a@.len() == N,
        forall|i: int| 0 <= i < k ==> a@[i] == wanted[i],
    decreases k,
{
    broadcast use vstd::array::axiom_spec_array_update;
    broadcast use vstd::array::array_len_matches_n;

    if k == 0 {
        base
    } else {
        let before = lemma_array_exists(base, wanted, k - 1);
        vstd::array::spec_array_update(before, k - 1, wanted[k - 1])
    }
}

/// The mock source gives the first number of its list, and its list is
/// turned by one place after that.
pub proof fn lemma_mock_after<const N: usize>(rng: RngMock<N>, max: u32)
    requires
        rng.ready(),
    ensures
        rng.draw(max) == rng.0@[0],
        rng.after(max).0@ == turned(rng.0@),
        rng.after(max).ready(),
{
    broadcast use vstd::array::array_len_matches_n;

    let a = lemma_array_exists(rng.0, turned(rng.0@), N as int);
    let witness = RngMock(a);
    assert(witness.0@ =~= turned(rng.0@));
}

/// Two mock sources that agree in the numbers drawn make the same chart,
/// and their lists are turned by as many places as numbers were drawn.
proof fn lemma_mocks_agree<const N: usize, const M: usize>(
    tokens: Seq<TokenView>,
    a: RngMock<N>,
    b: RngMock<M>,
)
    requires
        a.ready(),
        b.ready(),
        forall|k: int| 0 <= k < draws(tokens, a) ==> #[trigger] number_at(a, k) == number_at(b, k),
    ensures
        draws(tokens, a) == draws(tokens, b),
        same_chart(content(tokens, a), content(tokens, b)),
        content(tokens, a) matches Ok(p) ==> p.flow.stack == content(tokens, b)->Ok_0.flow.stack,
        content(tokens, a) matches Ok(p) ==> p.flow.rng.0@ == turned_by(a.0@, draws(tokens, a)),
        content(tokens, b) matches Ok(q) ==> q.flow.rng.0@ == turned_by(b.0@, draws(tokens, a)),
    decreases tokens.len(),
{
    broadcast use vstd::array::array_len_matches_n;

    if tokens.len() > 0 {
        let rest = tokens.drop_last();
        let token = tokens.last();
        lemma_mocks_agree(rest, a, b);
        let d = draws(rest, a);
        if let Ok(p) = content(rest, a) {
            let q = content(rest, b)->Ok_0;
            if token is Random && p.flow.stack.last().passes() {
                let max = token->Random_0;
                lemma_mock_after(p.flow.rng, max);
                lemma_mock_after(q.flow.rng, max);
                lemma_turned_by(a.0@, d);
                lemma_turned_by(b.0@, d);
                assert(number_at(a, d as int) == number_at(b, d as int));
                assert(p.flow.rng.draw(max) == q.flow.rng.draw(max));
                assert(step(p.flow, token).stack == step(q.flow, token).stack);
            } else {
                assert(step(p.flow, token).stack == step(q.flow, token).stack);
                assert(step(p.flow, token).rng == p.flow.rng);
                assert(step(q.flow, token).rng == q.flow.rng);
            }
            assert(verdict(p.flow.stack, token) == verdict(q.flow.stack, token));
        }
    }
}

/// A chart depends only on the numbers that it draws: two mock sources that
/// agree in as many numbers as the tokens draw from the first make the same
/// chart.
pub proof fn lemma_depends_on_draws<const N: usize, const M: usize>(
    tokens: Seq<TokenView>,
    a: RngMock<N>,
    b: RngMock<M>,
)
    requires
        a.ready(),
        b.ready(),
        forall|k: int| 0 <= k < draws(tokens, a) ==> #[trigger] number_at(a, k) == number_at(b, k),
    ensures
        draws(tokens, a) == draws(tokens, b),
        same_chart(content(tokens, a), content(tokens, b)),
        forall|result: Result<Bms, ParseError>|
            Bms::assembles(result, tokens, a) <==> Bms::assembles(result, tokens, b),
{
    lemma_mocks_agree(tokens, a, b);
}

} // verus!
