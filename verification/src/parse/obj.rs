//! The objects of a chart and their order.

use crate::lex::command::{Channel, ObjId};
use vstd::prelude::*;

verus! {

/// An object of a chart: what stands at a place of a track in a channel.
#[derive(Debug, Clone, Copy, PartialEq, Eq, Structural, Hash)]
pub struct Obj {
    /// The track, which is a measure of the music.
    pub track: u16,
    /// The place in the track is this many parts ...
    pub time_numerator_in_track: u32,
    /// ... of as many equal parts of the track as this.
    pub time_denominator_in_track: u32,
    /// The channel that holds the object.
    pub channel: Channel,
    /// The identifier of the object.
    pub obj: ObjId,
}

impl Obj {
    /// The place lies in the track: at least one part, and no more parts
    /// than the track has.
    pub open spec fn well_formed(self) -> bool {
        1 <= self.time_numerator_in_track <= self.time_denominator_in_track
    }

    /// `self` stands in the track before `other`.
    pub open spec fn earlier(self, other: Obj) -> bool {
        self.time_numerator_in_track * other.time_denominator_in_track
            < other.time_numerator_in_track * self.time_denominator_in_track
    }

    /// `self` and `other` stand at the same place of their tracks.
    pub open spec fn same_time(self, other: Obj) -> bool {
        self.time_numerator_in_track * other.time_denominator_in_track
            == other.time_numerator_in_track * self.time_denominator_in_track
    }

    /// `self` comes before `other` in the order of objects: by track, then
    /// by place in the track, then by channel, then by identifier.
    pub open spec fn precedes(self, other: Obj) -> bool {
        ||| self.track < other.track
        ||| self.track == other.track && self.earlier(other)
        ||| self.track == other.track && self.same_time(other) && self.channel.rank()
            < other.channel.rank()
        ||| self.track == other.track && self.same_time(other) && self.channel.rank()
            == other.channel.rank() && self.obj@ < other.obj@
    }

    /// Whether `self` comes before `other` in the order of objects.
    pub fn is_before(&self, other: &Obj) -> (before: bool)
        ensures
            before == self.precedes(*other),
    {
        if self.track != other.track {
            return self.track < other.track;
        }
        let a = self.time_numerator_in_track as u64;
        let b = self.time_denominator_in_track as u64;
        let c = other.time_numerator_in_track as u64;
        let d = other.time_denominator_in_track as u64;
        assert(a * d <= u64::MAX && c * b <= u64::MAX) by (nonlinear_arith)
            requires
                a <= u32::MAX,
                b <= u32::MAX,
                c <= u32::MAX,
                d <= u32::MAX,
        ;
        let left = a * d;
        let right = c * b;
        if left != right {
            return left < right;
        }
        let rank = self.channel.to_rank();
        let other_rank = other.channel.to_rank();
        if rank != other_rank {
            return rank < other_rank;
        }
        self.obj.value() < other.obj.value()
    }
}

/// The order of objects carries over a third object.
pub proof fn lemma_precedes_transitive(a: Obj, b: Obj, c: Obj)
    requires
        a.well_formed(),
        b.well_formed(),
        c.well_formed(),
        a.precedes(b),
        b.precedes(c),
    ensures
        a.precedes(c),
{
    let (an, ad) = (a.time_numerator_in_track as int, a.time_denominator_in_track as int);
    let (bn, bd) = (b.time_numerator_in_track as int, b.time_denominator_in_track as int);
    let (cn, cd) = (c.time_numerator_in_track as int, c.time_denominator_in_track as int);
    if a.track == b.track && b.track == c.track {
        assert(an * bd <= bn * ad);
        assert(bn * cd <= cn * bd);
        assert(an * cd <= cn * ad) by (nonlinear_arith)
            requires
                an * bd <= bn * ad,
                bn * cd <= cn * bd,
                ad > 0,
                bd > 0,
                cd > 0,
                an > 0,
                bn > 0,
                cn > 0,
        ;
        if a.earlier(b) || b.earlier(c) {
            assert(an * cd < cn * ad) by (nonlinear_arith)
                requires
                    an * bd <= bn * ad,
                    bn * cd <= cn * bd,
                    an * bd < bn * ad || bn * cd < cn * bd,
                    ad > 0,
                    bd > 0,
                    cd > 0,
                    an > 0,
                    bn > 0,
                    cn > 0,
            ;
        }
    }
}

/// The objects `v` stand in the order of objects, and no two compare equal.
pub open spec fn sorted(v: Seq<Obj>) -> bool {
    forall|p: int, q: int| 0 <= p < q < v.len() ==> (#[trigger] v[p]).precedes(#[trigger] v[q])
}

/// Of any two of the objects `v` one comes before the other.
pub open spec fn comparable(v: Seq<Obj>) -> bool {
    forall|p: int, q: int|
        0 <= p < q < v.len() ==> (#[trigger] v[p]).precedes(#[trigger] v[q]) || v[q].precedes(
            v[p],
        )
}

/// Every object of `v` lies in its track.
pub open spec fn well_formed(v: Seq<Obj>) -> bool {
    forall|p: int| 0 <= p < v.len() ==> (#[trigger] v[p]).well_formed()
}

/// The order of objects tells the order in which objects stand: two
/// sequences of the same objects that both stand in the order of objects are
/// one sequence.
pub proof fn lemma_sorted_unique(a: Seq<Obj>, b: Seq<Obj>)
    requires
        sorted(a),
        sorted(b),
        forall|o: Obj|
            #![trigger a.contains(o)]
            #![trigger b.contains(o)]
            a.contains(o) <==> b.contains(o),
    ensures
        a == b,
    decreases a.len(),
{
    if a.len() == 0 {
        if b.len() > 0 {
            assert(b.contains(b[0]));
        }
        assert(a =~= b);
    } else {
        assert(a.contains(a[0]));
        let j = choose|j: int| 0 <= j < b.len() && b[j] == a[0];
        assert(b.contains(b[0]));
        let i = choose|i: int| 0 <= i < a.len() && a[i] == b[0];
        if i > 0 && j > 0 {
            assert(a[0].precedes(a[i]));
            assert(b[0].precedes(b[j]));
        }
        assert(a[0] == b[0]);
        let x = a.skip(1);
        let y = b.skip(1);
        assert forall|o: Obj| x.contains(o) <==> y.contains(o) by {
            if x.contains(o) {
                let k = choose|k: int| 0 <= k < x.len() && x[k] == o;
                assert(a[k + 1] == o);
                assert(a[0].precedes(a[k + 1]));
                assert(a.contains(o));
                let l = choose|l: int| 0 <= l < b.len() && b[l] == o;
                assert(l > 0);
                assert(y[l - 1] == o);
            }
            if y.contains(o) {
                let k = choose|k: int| 0 <= k < y.len() && y[k] == o;
                assert(b[k + 1] == o);
                assert(b[0].precedes(b[k + 1]));
                assert(b.contains(o));
                let l = choose|l: int| 0 <= l < a.len() && a[l] == o;
                assert(l > 0);
                assert(x[l - 1] == o);
            }
        }
        assert(sorted(x)) by {
            assert forall|p: int, q: int| 0 <= p < q < x.len() implies (#[trigger] x[p]).precedes(
                #[trigger] x[q],
            ) by {
                assert(a[p + 1].precedes(a[q + 1]));
            }
        }
        assert(sorted(y)) by {
            assert forall|p: int, q: int| 0 <= p < q < y.len() implies (#[trigger] y[p]).precedes(
                #[trigger] y[q],
            ) by {
                assert(b[p + 1].precedes(b[q + 1]));
            }
        }
        lemma_sorted_unique(x, y);
        assert(a =~= seq![a[0]] + x);
        assert(b =~= seq![b[0]] + y);
    }
}

/// A sequence with one more element holds that element and what it held.
pub proof fn lemma_insert_contains<A>(s: Seq<A>, k: int, x: A, o: A)
    requires
        0 <= k <= s.len(),
    ensures
        s.insert(k, x).contains(o) <==> (s.contains(o) || o == x),
{
    let t = s.insert(k, x);
    if t.contains(o) {
        let j = choose|j: int| 0 <= j < t.len() && t[j] == o;
        if j < k {
            assert(s[j] == o);
        } else if j > k {
            assert(s[j - 1] == o);
        }
    }
    if s.contains(o) {
        let j = choose|j: int| 0 <= j < s.len() && s[j] == o;
        if j < k {
            assert(t[j] == o);
        } else {
            assert(t[j + 1] == o);
        }
    }
    if o == x {
        assert(t[k] == o);
    }
}

/// The objects `objs` in the order of objects.
pub fn sort(objs: &Vec<Obj>) -> (result: Vec<Obj>)
    requires
        well_formed(objs@),
        comparable(objs@),
    ensures
        sorted(result@),
        well_formed(result@),
        result@.len() == objs@.len(),
        forall|o: Obj|
            #![trigger result@.contains(o)]
            #![trigger objs@.contains(o)]
            result@.contains(o) <==> objs@.contains(o),
{
    let mut result: Vec<Obj> = Vec::new();
    let mut i: usize = 0;
    while i < objs.len()
        invariant
            i <= objs.len(),
            well_formed(objs@),
            comparable(objs@),
            sorted(result@),
            well_formed(result@),
            result@.len() == i,
            forall|o: Obj| result@.contains(o) <==> objs@.take(i as int).contains(o),
        decreases objs.len() - i,
    {
        let x = objs[i];
        let mut k = result.len();
        while k > 0 && x.is_before(&result[k - 1])
            invariant
                k <= result.len(),
                forall|q: int| k <= q < result.len() ==> x.precedes(#[trigger] result@[q]),
            decreases k,
        {
            k = k - 1;
        }
        proof {
            let before = result@;
            let after = before.insert(k as int, x);
            let taken = objs@.take(i as int);
            assert(taken.insert(i as int, x) =~= objs@.take(i + 1));
            assert forall|o: Obj| after.contains(o) <==> objs@.take(i + 1).contains(o) by {
                lemma_insert_contains(before, k as int, x, o);
                lemma_insert_contains(taken, i as int, x, o);
            }
            if k > 0 {
                let y = before[k - 1];
                assert(before.contains(y));
                let p = choose|p: int| 0 <= p < i && objs@.take(i as int)[p] == y;
                assert(objs@[p].precedes(objs@[i as int]) || objs@[i as int].precedes(objs@[p]));
                assert(y.precedes(x));
                assert forall|q: int| 0 <= q < k implies (#[trigger] before[q]).precedes(x) by {
                    if q < k - 1 {
                        lemma_precedes_transitive(before[q], y, x);
                    }
                }
            }
            assert forall|p: int, q: int| 0 <= p < q < after.len() implies (#[trigger] after[p]).precedes(
                #[trigger] after[q],
            ) by {
                if q < k {
                    assert(after[p] == before[p] && after[q] == before[q]);
                } else if q == k {
                    assert(after[p] == before[p]);
                } else if p < k {
                    assert(after[p] == before[p] && after[q] == before[q - 1]);
                } else if p == k {
                    assert(after[q] == before[q - 1]);
                } else {
                    assert(after[p] == before[p - 1] && after[q] == before[q - 1]);
                }
            }
            assert forall|p: int| 0 <= p < after.len() implies (#[trigger] after[p]).well_formed() by {
                if p < k {
                    assert(after[p] == before[p]);
                } else if p > k {
                    assert(after[p] == before[p - 1]);
                }
            }
        }
        result.insert(k, x);
        i = i + 1;
    }
    proof {
        assert(objs@.take(i as int) =~= objs@);
    }
    result
}

} // verus!
