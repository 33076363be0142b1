//! From the messages of a chart to its objects.
//!
//! A message gives the slots of one channel in one track. The slots divide
//! the track into equal parts, and a slot that is not empty puts an object at
//! the end of its part. The messages of one channel in one track are laid
//! over one another at the least resolution that holds all their slots; where
//! two of them put an object at the same place, the later message wins.

use super::obj::{comparable, well_formed, Obj};
use super::ratio::{lcm, lcm_of, lemma_lcm, lemma_lcm_least, lemma_steps};
use crate::lex::command::{object_value, Channel, ObjId};
use crate::lex::text::{decode, is_separator, separator};
use vstd::prelude::*;

verus! {

/// The characters of `text` that are no separators.
pub open spec fn stripped(text: Seq<char>) -> Seq<char>
    decreases text.len(),
{
    if text.len() == 0 {
        Seq::empty()
    } else if is_separator(text.last()) {
        stripped(text.drop_last())
    } else {
        stripped(text.drop_last()).push(text.last())
    }
}

/// The identifier that the two characters of a slot write. Characters that
/// write none leave the slot empty.
pub open spec fn slot(hi: char, lo: char) -> ObjId {
    match object_value(hi, lo) {
        Some(v) => ObjId::of(v),
        None => ObjId::of(0),
    }
}

/// The slots that `text` writes, two characters each, separators left out;
/// none if a character is left over.
pub open spec fn slots_of(text: Seq<char>) -> Option<Seq<ObjId>> {
    let t = stripped(text);
    if t.len() % 2 == 0 {
        Some(Seq::new(t.len() / 2, |i: int| slot(t[2 * i], t[2 * i + 1])))
    } else {
        None
    }
}

/// The slots that the text of a message writes.
pub fn decode_slots(message: &str) -> (slots: Option<Vec<ObjId>>)
    ensures
        match slots_of(message@) {
            Some(s) => slots matches Some(v) && v@ == s,
            None => slots is None,
        },
{
    let text = decode(message);
    let mut digits: Vec<char> = Vec::new();
    let mut i: usize = 0;
    while i < text.len()
        invariant
            i <= text.len(),
            digits@ == stripped(text@.take(i as int)),
        decreases text.len() - i,
    {
        proof {
            assert(text@.take(i + 1).drop_last() =~= text@.take(i as int));
        }
        let c = text[i];
        if !separator(c) {
            digits.push(c);
        }
        i = i + 1;
    }
    proof {
        assert(text@.take(i as int) =~= text@);
    }
    if digits.len() % 2 != 0 {
        return None;
    }
    let count = digits.len() / 2;
    let mut slots: Vec<ObjId> = Vec::new();
    let mut k: usize = 0;
    while k < count
        invariant
            k <= count,
            count == digits@.len() / 2,
            2 * count == digits@.len(),
            2 * count <= usize::MAX,
            slots@.len() == k,
            forall|n: int| 0 <= n < k ==> slots@[n] == slot(digits@[2 * n], digits@[2 * n + 1]),
        decreases count - k,
    {
        let id = match ObjId::from_chars(digits[2 * k], digits[2 * k + 1]) {
            Some(id) => id,
            None => ObjId::null(),
        };
        slots.push(id);
        k = k + 1;
    }
    proof {
        assert(slots@ =~= slots_of(message@)->0);
    }
    Some(slots)
}

/// A message that holds objects: its track, its channel and its slots.
#[derive(Debug, Clone, PartialEq, Eq)]
pub struct Line {
    pub track: u16,
    pub channel: Channel,
    pub slots: Vec<ObjId>,
}

/// A message that holds objects, its slots as a sequence.
pub struct LineView {
    pub track: u16,
    pub channel: Channel,
    pub slots: Seq<ObjId>,
}

impl View for Line {
    type V = LineView;

    open spec fn view(&self) -> LineView {
        LineView { track: self.track, channel: self.channel, slots: self.slots@ }
    }
}

/// The messages `lines`, their slots as sequences.
pub open spec fn views(lines: Seq<Line>) -> Seq<LineView> {
    Seq::new(lines.len(), |i: int| lines[i]@)
}

impl LineView {
    /// The message belongs to the channel `channel` of the track `track`.
    pub open spec fn in_group(self, track: u16, channel: Channel) -> bool {
        self.track == track && self.channel == channel
    }

    /// The object that the message puts at part `num` of `den` parts: that
    /// of the slot which ends there, if there is one and it is not empty.
    pub open spec fn written(self, den: nat, num: nat) -> Option<ObjId> {
        let n = self.slots.len();
        if n > 0 && den % n == 0 && num % (den / n) == 0 && 1 <= num / (den / n) <= n
            && self.slots[num / (den / n) - 1]@ != 0 {
            Some(self.slots[num / (den / n) - 1])
        } else {
            None
        }
    }
}

/// The resolution of a channel in a track, as far as the first `upto`
/// messages tell: the least common multiple of the numbers of their slots.
pub open spec fn resolution(lines: Seq<LineView>, track: u16, channel: Channel, upto: int) -> nat
    decreases upto,
{
    if upto <= 0 {
        1
    } else {
        let before = resolution(lines, track, channel, upto - 1);
        let line = lines[upto - 1];
        if line.in_group(track, channel) && line.slots.len() > 0 {
            lcm(before, line.slots.len())
        } else {
            before
        }
    }
}

/// The part of `den` parts at which slot `i` of `n` slots ends.
pub open spec fn place(n: nat, den: nat, i: int) -> nat {
    ((i + 1) * (den / n)) as nat
}

/// The object that the last of the messages from `from` up to `upto` of a
/// channel in a track puts at part `num` of `den` parts, if any does.
pub open spec fn overwritten(
    lines: Seq<LineView>,
    track: u16,
    channel: Channel,
    den: nat,
    num: nat,
    from: int,
    upto: int,
) -> Option<ObjId>
    decreases upto - from,
{
    if upto <= from {
        None
    } else {
        let line = lines[upto - 1];
        if line.in_group(track, channel) && line.written(den, num) is Some {
            line.written(den, num)
        } else {
            overwritten(lines, track, channel, den, num, from, upto - 1)
        }
    }
}

/// The object that a later message puts where slot `i` of message `j` puts
/// its own, if any does.
pub open spec fn replaced_by(lines: Seq<LineView>, j: int, i: int) -> Option<ObjId> {
    let line = lines[j];
    let den = resolution(lines, line.track, line.channel, lines.len() as int);
    overwritten(
        lines,
        line.track,
        line.channel,
        den,
        place(line.slots.len(), den, i),
        j + 1,
        lines.len() as int,
    )
}

/// The object of slot `i` of message `j`, if the slot is not empty and no
/// later message puts an object at the same place.
pub open spec fn object_at(lines: Seq<LineView>, j: int, i: int) -> Option<Obj> {
    let line = lines[j];
    let den = resolution(lines, line.track, line.channel, lines.len() as int);
    if line.slots[i]@ != 0 && replaced_by(lines, j, i) is None {
        Some(
            Obj {
                track: line.track,
                time_numerator_in_track: place(line.slots.len(), den, i) as u32,
                time_denominator_in_track: den as u32,
                channel: line.channel,
                obj: line.slots[i],
            },
        )
    } else {
        None
    }
}

/// Whether the object of slot `i` of message `j` gives way to another
/// object of a later message.
pub open spec fn conflict_at(lines: Seq<LineView>, j: int, i: int) -> bool {
    lines[j].slots[i]@ != 0 && (replaced_by(lines, j, i) matches Some(id) && id != lines[j].slots[i])
}

/// The objects of the first `upto` slots of message `j`.
pub open spec fn line_objects(lines: Seq<LineView>, j: int, upto: int) -> Seq<Obj>
    decreases upto,
{
    if upto <= 0 {
        Seq::empty()
    } else {
        match object_at(lines, j, upto - 1) {
            Some(o) => line_objects(lines, j, upto - 1).push(o),
            None => line_objects(lines, j, upto - 1),
        }
    }
}

/// The objects of the first `upto` messages, message by message and slot by
/// slot.
pub open spec fn objects(lines: Seq<LineView>, upto: int) -> Seq<Obj>
    decreases upto,
{
    if upto <= 0 {
        Seq::empty()
    } else {
        objects(lines, upto - 1) + line_objects(
            lines,
            upto - 1,
            lines[upto - 1].slots.len() as int,
        )
    }
}

/// The index `j`, once for each of the first `upto` slots of message `j`
/// whose object gives way to another.
pub open spec fn line_conflicts(lines: Seq<LineView>, j: int, upto: int) -> Seq<usize>
    decreases upto,
{
    if upto <= 0 {
        Seq::empty()
    } else if conflict_at(lines, j, upto - 1) {
        line_conflicts(lines, j, upto - 1).push(j as usize)
    } else {
        line_conflicts(lines, j, upto - 1)
    }
}

/// The indices of the messages among the first `upto` that hold an object
/// which gives way to another, once for each such object.
pub open spec fn conflicts(lines: Seq<LineView>, upto: int) -> Seq<usize>
    decreases upto,
{
    if upto <= 0 {
        Seq::empty()
    } else {
        conflicts(lines, upto - 1) + line_conflicts(
            lines,
            upto - 1,
            lines[upto - 1].slots.len() as int,
        )
    }
}

/// The resolution of every channel in every track is a `u32`.
pub open spec fn fits(lines: Seq<LineView>) -> bool {
    forall|j: int|
        0 <= j < lines.len() ==> resolution(
            lines,
            (#[trigger] lines[j]).track,
            lines[j].channel,
            lines.len() as int,
        ) <= u32::MAX
}

/// The resolution is at least 1.
pub proof fn lemma_resolution_positive(
    lines: Seq<LineView>,
    track: u16,
    channel: Channel,
    upto: int,
)
    ensures
        1 <= resolution(lines, track, channel, upto),
    decreases upto,
{
    if upto > 0 {
        lemma_resolution_positive(lines, track, channel, upto - 1);
        let line = lines[upto - 1];
        if line.in_group(track, channel) && line.slots.len() > 0 {
            lemma_lcm(resolution(lines, track, channel, upto - 1), line.slots.len());
        }
    }
}

/// The resolution grows with the messages.
pub proof fn lemma_resolution_grows(
    lines: Seq<LineView>,
    track: u16,
    channel: Channel,
    a: int,
    b: int,
)
    requires
        a <= b,
    ensures
        1 <= resolution(lines, track, channel, a) <= resolution(lines, track, channel, b),
    decreases b - a,
{
    lemma_resolution_positive(lines, track, channel, a);
    if a < b {
        lemma_resolution_grows(lines, track, channel, a, b - 1);
        let line = lines[b - 1];
        if b > 0 && line.in_group(track, channel) && line.slots.len() > 0 {
            lemma_lcm(resolution(lines, track, channel, b - 1), line.slots.len());
        }
    }
}

/// A multiple of a multiple of `c` is a multiple of `c`.
proof fn lemma_multiple(a: nat, b: nat, c: nat)
    requires
        b > 0,
        c > 0,
        a % b == 0,
        b % c == 0,
    ensures
        a % c == 0,
{
    vstd::arithmetic::div_mod::lemma_fundamental_div_mod(a as int, b as int);
    vstd::arithmetic::div_mod::lemma_fundamental_div_mod(b as int, c as int);
    let x = a as int / b as int;
    let y = b as int / c as int;
    assert(a == (x * y) * c) by (nonlinear_arith)
        requires
            a == b * x,
            b == c * y,
    ;
    vstd::arithmetic::div_mod::lemma_mod_multiples_basic(x * y, c as int);
}

/// The resolution is a multiple of the number of slots of each message that
/// it counts.
pub proof fn lemma_resolution_divides(
    lines: Seq<LineView>,
    track: u16,
    channel: Channel,
    upto: int,
    k: int,
)
    requires
        0 <= k < upto,
        lines[k].in_group(track, channel),
        lines[k].slots.len() > 0,
    ensures
        resolution(lines, track, channel, upto) % lines[k].slots.len() == 0,
    decreases upto,
{
    let before = resolution(lines, track, channel, upto - 1);
    let line = lines[upto - 1];
    lemma_resolution_grows(lines, track, channel, 0, upto - 1);
    if line.in_group(track, channel) && line.slots.len() > 0 {
        lemma_lcm(before, line.slots.len());
    }
    if k < upto - 1 {
        lemma_resolution_divides(lines, track, channel, upto - 1, k);
        if line.in_group(track, channel) && line.slots.len() > 0 {
            lemma_multiple(lcm(before, line.slots.len()), before, lines[k].slots.len());
        }
    }
}

/// The resolution is the least number of parts that holds the slots of
/// every message that it counts: whatever number of parts holds them is a
/// multiple of it.
pub proof fn lemma_resolution_least(
    lines: Seq<LineView>,
    track: u16,
    channel: Channel,
    upto: int,
    parts: nat,
)
    requires
        parts > 0,
        forall|k: int|
            0 <= k < upto && (#[trigger] lines[k]).in_group(track, channel) && lines[k].slots.len()
                > 0 ==> parts % lines[k].slots.len() == 0,
    ensures
        parts % resolution(lines, track, channel, upto) == 0,
        resolution(lines, track, channel, upto) <= parts,
    decreases upto,
{
    if upto > 0 {
        lemma_resolution_least(lines, track, channel, upto - 1, parts);
        lemma_resolution_positive(lines, track, channel, upto - 1);
        let line = lines[upto - 1];
        if line.in_group(track, channel) && line.slots.len() > 0 {
            lemma_lcm_least(
                resolution(lines, track, channel, upto - 1),
                line.slots.len(),
                parts,
            );
        }
    } else {
        vstd::arithmetic::div_mod::lemma_mod_multiples_basic(parts as int, 1);
        assert(parts * 1 == parts) by (nonlinear_arith);
    }
}

/// Where no later message overwrites a place, none of them writes there.
pub proof fn lemma_not_overwritten(
    lines: Seq<LineView>,
    track: u16,
    channel: Channel,
    den: nat,
    num: nat,
    from: int,
    upto: int,
    k: int,
)
    requires
        from <= k < upto,
        overwritten(lines, track, channel, den, num, from, upto) is None,
        lines[k].in_group(track, channel),
    ensures
        lines[k].written(den, num) is None,
    decreases upto - from,
{
    if k < upto - 1 {
        lemma_not_overwritten(lines, track, channel, den, num, from, upto - 1, k);
    }
}

/// Of two objects that lie in their tracks one comes before the other,
/// unless they agree in track, place, channel and identifier.
pub proof fn lemma_order_total(a: Obj, b: Obj)
    ensures
        a.precedes(b) || b.precedes(a) || (a.track == b.track && a.same_time(b) && a.channel
            == b.channel && a.obj == b.obj),
{
    if a.track == b.track && a.same_time(b) {
        if a.channel.rank() == b.channel.rank() {
            a.channel.lemma_rank(b.channel);
            if a.obj@ == b.obj@ {
                a.obj.lemma_same(b.obj);
            }
        }
    }
}

impl Line {
    /// The object that the message puts at part `num` of `den` parts.
    pub fn written(&self, den: u32, num: u32) -> (id: Option<ObjId>)
        requires
            den > 0,
        ensures
            id == self@.written(den as nat, num as nat),
    {
        let n = self.slots.len();
        if n == 0 || n > den as usize {
            proof {
                if n > 0 {
                    vstd::arithmetic::div_mod::lemma_small_mod(den as nat, n as nat);
                }
            }
            return None;
        }
        let n = n as u32;
        if den % n != 0 {
            return None;
        }
        let step = den / n;
        proof {
            lemma_steps(den as nat, n as nat, 0);
        }
        if num % step != 0 {
            return None;
        }
        let index = num / step;
        if index < 1 || index > n {
            return None;
        }
        let id = self.slots[(index - 1) as usize];
        if id.is_null() {
            None
        } else {
            Some(id)
        }
    }
}

/// The resolution of the channel and track of message `j`, if it is a `u32`.
fn resolve(lines: &Vec<Line>, j: usize) -> (den: Option<u32>)
    requires
        j < lines.len(),
    ensures
        match den {
            Some(d) => d == resolution(
                views(lines@),
                lines@[j as int].track,
                lines@[j as int].channel,
                lines.len() as int,
            ),
            None => resolution(
                views(lines@),
                lines@[j as int].track,
                lines@[j as int].channel,
                lines.len() as int,
            ) > u32::MAX,
        },
{
    let track = lines[j].track;
    let channel = lines[j].channel;
    let ghost all = views(lines@);
    let mut den: u32 = 1;
    let mut k: usize = 0;
    while k < lines.len()
        invariant
            k <= lines.len(),
            j < lines.len(),
            track == lines@[j as int].track,
            channel == lines@[j as int].channel,
            all == views(lines@),
            den == resolution(all, track, channel, k as int),
            den >= 1,
        decreases lines.len() - k,
    {
        let line = &lines[k];
        let n = line.slots.len();
        proof {
            assert(all[k as int] == lines@[k as int]@);
            lemma_resolution_grows(all, track, channel, k + 1, lines.len() as int);
        }
        if line.track == track && line.channel == channel && n > 0 {
            proof {
                lemma_lcm(den as nat, n as nat);
            }
            if n > u32::MAX as usize {
                return None;
            }
            match lcm_of(den, n as u32) {
                Some(next) => {
                    den = next;
                },
                None => {
                    return None;
                },
            }
        }
        k = k + 1;
    }
    Some(den)
}

/// The object that the last message after message `j` of its channel and
/// track puts at part `num` of `den` parts.
fn find_overwrite(lines: &Vec<Line>, j: usize, den: u32, num: u32) -> (id: Option<ObjId>)
    requires
        j < lines.len(),
        den > 0,
    ensures
        id == overwritten(
            views(lines@),
            lines@[j as int].track,
            lines@[j as int].channel,
            den as nat,
            num as nat,
            j + 1,
            lines.len() as int,
        ),
{
    let track = lines[j].track;
    let channel = lines[j].channel;
    let ghost all = views(lines@);
    let mut k: usize = lines.len();
    while k > j + 1
        invariant
            j < k <= lines.len(),
            den > 0,
            track == lines@[j as int].track,
            channel == lines@[j as int].channel,
            all == views(lines@),
            overwritten(all, track, channel, den as nat, num as nat, j + 1, lines.len() as int)
                == overwritten(all, track, channel, den as nat, num as nat, j + 1, k as int),
        decreases k,
    {
        let line = &lines[k - 1];
        proof {
            assert(all[k - 1] == lines@[k - 1]@);
        }
        if line.track == track && line.channel == channel {
            let id = line.written(den, num);
            if id.is_some() {
                proof {
                    assert(all[k - 1].in_group(track, channel));
                    assert(overwritten(
                        all,
                        track,
                        channel,
                        den as nat,
                        num as nat,
                        j + 1,
                        k as int,
                    ) == id);
                }
                return id;
            }
        }
        k = k - 1;
    }
    None
}

/// The objects of a chart, and the indices of the messages that hold an
/// object which gave way to another.
pub struct Merged {
    pub objects: Vec<Obj>,
    pub conflicts: Vec<usize>,
}

/// An object of the messages before message `from` that no message from
/// `from` on overwrites: its resolution is that of its channel and track.
pub open spec fn settled(lines: Seq<LineView>, o: Obj, from: int) -> bool {
    &&& o.time_denominator_in_track == resolution(lines, o.track, o.channel, lines.len() as int)
    &&& forall|k: int|
        from <= k < lines.len() && (#[trigger] lines[k]).in_group(o.track, o.channel)
            ==> lines[k].written(
            o.time_denominator_in_track as nat,
            o.time_numerator_in_track as nat,
        ) is None
}

/// The objects of the messages `lines`, in the order of the messages and
/// their slots, unless a resolution is too large.
pub fn merge(lines: &Vec<Line>) -> (result: Option<Merged>)
    ensures
        match result {
            Some(merged) => {
                &&& fits(views(lines@))
                &&& merged.objects@ == objects(views(lines@), lines.len() as int)
                &&& merged.conflicts@ == conflicts(views(lines@), lines.len() as int)
                &&& forall|k: int|
                    0 <= k < merged.conflicts@.len() ==> #[trigger] merged.conflicts@[k]
                        < lines.len()
                &&& well_formed(merged.objects@)
                &&& comparable(merged.objects@)
            },
            None => !fits(views(lines@)),
        },
{
    let ghost all = views(lines@);
    let ghost total = lines.len() as int;
    let mut objs: Vec<Obj> = Vec::new();
    let mut clashes: Vec<usize> = Vec::new();
    let mut j: usize = 0;
    while j < lines.len()
        invariant
            j <= lines.len(),
            all == views(lines@),
            total == lines.len(),
            objs@ == objects(all, j as int),
            clashes@ == conflicts(all, j as int),
            forall|k: int| 0 <= k < clashes@.len() ==> #[trigger] clashes@[k] < lines.len(),
            well_formed(objs@),
            comparable(objs@),
            forall|p: int| 0 <= p < objs@.len() ==> settled(all, #[trigger] objs@[p], j as int),
            forall|k: int|
                0 <= k < j ==> resolution(all, (#[trigger] all[k]).track, all[k].channel, total)
                    <= u32::MAX,
        decreases lines.len() - j,
    {
        let line = &lines[j];
        let ghost view = all[j as int];
        proof {
            assert(view == lines@[j as int]@);
        }
        let den = match resolve(lines, j) {
            Some(den) => den,
            None => {
                return None;
            },
        };
        let n = line.slots.len();
        let ghost base = objs@.len();
        let ghost clash_base = clashes@.len();
        proof {
            lemma_resolution_grows(all, view.track, view.channel, 0, total);
            if n > 0 {
                assert(view.in_group(view.track, view.channel));
                lemma_resolution_divides(all, view.track, view.channel, total, j as int);
                lemma_steps(den as nat, n as nat, 0);
                assert(n <= den) by (nonlinear_arith)
                    requires
                        (den as nat / n as nat) * n == den,
                        den as nat / n as nat >= 1,
                        n > 0,
                ;
            }
            assert(objs@ + line_objects(all, j as int, 0) =~= objs@);
            assert(clashes@ + line_conflicts(all, j as int, 0) =~= clashes@);
        }
        let step: u32 = if n > 0 {
            den / (n as u32)
        } else {
            0
        };
        let mut i: usize = 0;
        while i < n
            invariant
                i <= n,
                n == line.slots.len(),
                n == view.slots.len(),
                j < lines.len(),
                line == &lines@[j as int],
                view == lines@[j as int]@,
                all == views(lines@),
                view == all[j as int],
                total == lines.len(),
                den == resolution(all, view.track, view.channel, total),
                den >= 1,
                n > 0 ==> n <= den && (den as nat) % (n as nat) == 0 && step == (den as nat) / (
                n as nat) && step >= 1 && step * n == den,
                base == objects(all, j as int).len(),
                clash_base == conflicts(all, j as int).len(),
                objs@ == objects(all, j as int) + line_objects(all, j as int, i as int),
                clashes@ == conflicts(all, j as int) + line_conflicts(all, j as int, i as int),
                forall|k: int| 0 <= k < clashes@.len() ==> #[trigger] clashes@[k] < lines.len(),
                well_formed(objs@),
                comparable(objs@),
                forall|p: int| 0 <= p < base ==> settled(all, #[trigger] objs@[p], j as int),
                forall|p: int|
                    base <= p < objs@.len() ==> {
                        &&& (#[trigger] objs@[p]).track == view.track
                        &&& objs@[p].channel == view.channel
                        &&& objs@[p].time_denominator_in_track == den
                        &&& objs@[p].time_numerator_in_track <= i * step
                        &&& settled(all, objs@[p], j + 1)
                    },
            decreases n - i,
        {
            let id = line.slots[i];
            proof {
                lemma_steps(den as nat, n as nat, i as nat);
                assert((i + 1) * step == place(n as nat, den as nat, i as int)) by {
                    assert(den as nat / n as nat == step);
                }
                assert(i * step <= (i + 1) * step) by (nonlinear_arith)
                    requires
                        step >= 0,
                        i >= 0,
                ;
            }
            let num: u32 = ((i as u64 + 1) * (step as u64)) as u32;
            if !id.is_null() {
                let later = find_overwrite(lines, j, den, num);
                match later {
                    None => {
                        let x = Obj {
                            track: line.track,
                            time_numerator_in_track: num,
                            time_denominator_in_track: den,
                            channel: line.channel,
                            obj: id,
                        };
                        proof {
                            assert(object_at(all, j as int, i as int) == Some(x));
                            assert(view.written(den as nat, num as nat) == Some(id));
                            assert forall|k: int|
                                j + 1 <= k < total && (#[trigger] all[k]).in_group(
                                    x.track,
                                    x.channel,
                                ) implies all[k].written(den as nat, num as nat) is None by {
                                lemma_not_overwritten(
                                    all,
                                    view.track,
                                    view.channel,
                                    den as nat,
                                    num as nat,
                                    j + 1,
                                    total,
                                    k,
                                );
                            }
                            assert(settled(all, x, j + 1));
                            let old_objs = objs@;
                            assert forall|p: int| 0 <= p < old_objs.len() implies (
                            #[trigger] old_objs[p]).precedes(x) || x.precedes(old_objs[p]) by {
                                let e = old_objs[p];
                                lemma_order_total(e, x);
                                if p < base {
                                    assert(settled(all, e, j as int));
                                    if e.track == x.track && e.same_time(x) && e.channel
                                        == x.channel {
                                        assert(e.time_denominator_in_track == den);
                                        assert(e.time_numerator_in_track == num)
                                            by (nonlinear_arith)
                                            requires
                                                e.time_numerator_in_track * den == num
                                                    * e.time_denominator_in_track,
                                                e.time_denominator_in_track == den,
                                                den > 0,
                                        ;
                                        assert(all[j as int].in_group(e.track, e.channel));
                                        assert(false);
                                    }
                                } else {
                                    assert(e.time_numerator_in_track < num) by (nonlinear_arith)
                                        requires
                                            e.time_numerator_in_track <= i * step,
                                            num == (i + 1) * step,
                                            step >= 1,
                                    ;
                                    assert(e.earlier(x)) by (nonlinear_arith)
                                        requires
                                            e.time_numerator_in_track < num,
                                            e.time_denominator_in_track == den,
                                            x.time_denominator_in_track == den,
                                            x.time_numerator_in_track == num,
                                            den > 0,
                                    ;
                                }
                            }
                        }
                        objs.push(x);
                        proof {
                            assert(objs@ =~= objects(all, j as int) + line_objects(
                                all,
                                j as int,
                                i + 1,
                            ));
                        }
                    },
                    Some(other) => {
                        if other != id {
                            clashes.push(j);
                            proof {
                                assert(clashes@ =~= conflicts(all, j as int) + line_conflicts(
                                    all,
                                    j as int,
                                    i + 1,
                                ));
                            }
                        }
                    },
                }
            }
            proof {
                assert((i + 1) * step >= i * step) by (nonlinear_arith)
                    requires
                        step >= 0,
                        i >= 0,
                ;
            }
            i = i + 1;
        }
        proof {
            assert forall|p: int| 0 <= p < objs@.len() implies settled(
                all,
                #[trigger] objs@[p],
                j + 1,
            ) by {
                if p < base {
                    assert(settled(all, objs@[p], j as int));
                }
            }
        }
        j = j + 1;
    }
    Some(Merged { objects: objs, conflicts: clashes })
}

} // verus!
