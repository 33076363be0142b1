//! Random numbers for the `#RANDOM` blocks of a chart.

use vstd::prelude::*;

verus! {

/// A source of random numbers.
///
/// To the contracts a source is a state: `draw` is the number that the state
/// gives next, and `after` is the state that follows. What `gen` returns is
/// then a function of the state it is called on, which is true of every
/// generator whose state holds all that its numbers depend on.
///
/// A chart asks for a number from 1 to `max`. The assembler takes whatever
/// number it is given.
pub trait Rng: Sized {
    /// Whether the source can give a number.
    spec fn ready(&self) -> bool;

    /// The number that the source gives next when asked for one up to `max`.
    spec fn draw(&self, max: u32) -> u32;

    /// The source after it has given a number up to `max`.
    spec fn after(&self, max: u32) -> Self;

    /// A number from 1 to `max`.
    fn gen(&mut self, max: u32) -> (number: u32)
        requires
            old(self).ready(),
        ensures
            number == old(self).draw(max),
            *final(self) == old(self).after(max),
            final(self).ready(),
    ;
}

/// A source that gives the numbers of a list in turn, and starts again at
/// the first when the list is used up. The list holds at least one number.
#[derive(Debug, Clone, Copy, PartialEq, Eq)]
pub struct RngMock<const N: usize>(pub [u32; N]);

/// The list `list` turned by one place: what was second is first, and what
/// was first is last.
pub open spec fn turned(list: Seq<u32>) -> Seq<u32> {
    list.skip(1).push(list[0])
}

/// The list `list` turned by `k` places.
pub open spec fn turned_by(list: Seq<u32>, k: nat) -> Seq<u32>
    decreases k,
{
    if k == 0 {
        list
    } else {
        turned(turned_by(list, (k - 1) as nat))
    }
}

/// A list turned by `k` places starts with the number at place `k`, counted
/// round the list.
pub proof fn lemma_turned_by(list: Seq<u32>, k: nat)
    requires
        list.len() > 0,
    ensures
        turned_by(list, k).len() == list.len(),
        forall|i: int|
            0 <= i < list.len() ==> #[trigger] turned_by(list, k)[i] == list[(i + k) % (
            list.len() as int)],
    decreases k,
{
    let n = list.len() as int;
    if k > 0 {
        lemma_turned_by(list, (k - 1) as nat);
        let before = turned_by(list, (k - 1) as nat);
        assert forall|i: int| 0 <= i < n implies #[trigger] turned_by(list, k)[i] == list[(i + k)
            % n] by {
            if i < n - 1 {
                assert(turned_by(list, k)[i] == before[i + 1]);
                assert((i + 1 + (k - 1)) % n == (i + k) % n);
            } else {
                assert(turned_by(list, k)[i] == before[0]);
                assert((n - 1 + k) % n == (0 + (k - 1)) % n) by (nonlinear_arith)
                    requires
                        n > 0,
                        k >= 1,
                ;
            }
        }
    } else {
        assert forall|i: int| 0 <= i < n implies #[trigger] turned_by(list, k)[i] == list[(i + k)
            % n] by {
            assert((i + 0) % n == i) by (nonlinear_arith)
                requires
                    0 <= i < n,
            ;
        }
    }
}

impl<const N: usize> Rng for RngMock<N> {
    open spec fn ready(&self) -> bool {
        N > 0
    }

    open spec fn draw(&self, max: u32) -> u32 {
        self.0@[0]
    }

    open spec fn after(&self, max: u32) -> Self {
        choose|next: Self| next.0@ == turned(self.0@)
    }

    fn gen(&mut self, max: u32) -> (number: u32) {
        let first = self.0[0];
        let mut i: usize = 0;
        while i + 1 < N
            invariant
                N > 0,
                i < N,
                forall|k: int| 0 <= k < i ==> self.0@[k] == old(self).0@[k + 1],
                forall|k: int| i <= k < N ==> self.0@[k] == old(self).0@[k],
            decreases N - i,
        {
            self.0[i] = self.0[i + 1];
            i = i + 1;
        }
        self.0[N - 1] = first;
        proof {
            assert(self.0@ =~= turned(old(self).0@));
            let next = old(self).after(max);
            assert(next.0@ == turned(old(self).0@));
            assert(next.0 =~= self.0);
        }
        first
    }
}

} // verus!
