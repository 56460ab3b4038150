//! Listing the modes of a camera.

use vstd::prelude::*;

use crate::number::Number;
use crate::text::same_text;

verus! {

broadcast use vstd::string::group_string_axioms;

/// A mode with its frame rate as a number.
#[derive(Debug, Clone, PartialEq, Eq)]
pub struct Mode {
    pub codec: String,
    pub width: u32,
    pub height: u32,
    pub fps: Number,
}

impl Mode {
    pub open spec fn area(self) -> int {
        self.width * self.height
    }

    /// Whether two modes are the same.
    pub open spec fn same(self, other: Mode) -> bool {
        self.codec@ == other.codec@ && self.width == other.width && self.height == other.height && self.fps.rank()
            == other.fps.rank()
    }
}

/// Whether the mode at `a` is listed before the one at `b`: the faster one
/// first, then the larger, then the one that came first.
pub open spec fn listed_before(modes: Seq<Mode>, a: int, b: int) -> bool {
    let x = modes[a];
    let y = modes[b];
    ||| x.fps.rank() > y.fps.rank()
    ||| x.fps.rank() == y.fps.rank() && x.area() > y.area()
    ||| x.fps.rank() == y.fps.rank() && x.area() == y.area() && a < b
}

/// Whether `order` lists every place of `modes` once, best first.
pub open spec fn ordered(modes: Seq<Mode>, order: Seq<int>) -> bool {
    &&& order.len() == modes.len()
    &&& forall|i: int| 0 <= i < order.len() ==> 0 <= #[trigger] order[i] < modes.len()
    &&& forall|i: int, j: int|
        0 <= i < j < order.len() ==> listed_before(modes, #[trigger] order[i], #[trigger] order[j])
}

/// A list without the entries that repeat the one kept just before them.
pub open spec fn without_repeats(modes: Seq<Mode>, order: Seq<int>) -> Seq<int>
    decreases order.len(),
{
    if order.len() == 0 {
        Seq::empty()
    } else {
        let before = without_repeats(modes, order.drop_last());
        if before.len() > 0 && modes[order.last()].same(modes[before.last()]) {
            before
        } else {
            before.push(order.last())
        }
    }
}

fn slower(a: &Mode, b: &Mode) -> (r: bool)
    requires
        !a.fps.is_nan(),
        !b.fps.is_nan(),
    ensures
        r == (a.fps.rank() < b.fps.rank() || (a.fps.rank() == b.fps.rank() && a.area() < b.area())),
{
    let x: u64 = area_of(a);
    let y: u64 = area_of(b);
    a.fps.below(b.fps) || (!b.fps.below(a.fps) && x < y)
}

fn area_of(m: &Mode) -> (r: u64)
    ensures
        r == m.area(),
{
    let w: u64 = m.width as u64;
    let h: u64 = m.height as u64;
    assert(w * h <= 0xffff_ffff * 0xffff_ffff) by (nonlinear_arith)
        requires
            w <= 0xffff_ffff,
            h <= 0xffff_ffff,
    ;
    w * h
}

fn is_same(a: &Mode, b: &Mode) -> (r: bool)
    requires
        !a.fps.is_nan(),
        !b.fps.is_nan(),
    ensures
        r == a.same(*b),
{
    same_text(a.codec.as_str(), b.codec.as_str()) && a.width == b.width && a.height == b.height && !a.fps.below(b.fps)
        && !b.fps.below(a.fps)
}

/// Put modes in the order they are listed in, without repeats. Returns their
/// places.
pub fn arrange(modes: &Vec<Mode>) -> (r: Vec<usize>)
    requires
        forall|i: int| 0 <= i < modes@.len() ==> !(#[trigger] modes@[i]).fps.is_nan(),
    ensures
        exists|order: Seq<int>|
            #[trigger] ordered(modes@, order) && crate::text::places(r@) == without_repeats(modes@, order),
{
    let n: usize = modes.len();
    let ghost all = modes@;
    let mut order: Vec<usize> = Vec::new();
    for i in 0..n
        invariant
            n == modes@.len(),
            all == modes@,
            forall|j: int| 0 <= j < n ==> !(#[trigger] all[j]).fps.is_nan(),
            order@.len() == i,
            forall|j: int| 0 <= j < i ==> 0 <= #[trigger] order@[j] < i,
            forall|a: int, b: int|
                0 <= a < b < i ==> listed_before(all, #[trigger] order@[a] as int, #[trigger] order@[b] as int),
    {
        let ghost before = order@;
        let mut at: usize = i;
        while at > 0 && slower(&modes[order[at - 1]], &modes[i])
            invariant
                at <= i,
                i < n,
                n == modes@.len(),
                all == modes@,
                forall|j: int| 0 <= j < n ==> !(#[trigger] all[j]).fps.is_nan(),
                order@ == before,
                order@.len() == i,
                forall|j: int| 0 <= j < i ==> 0 <= #[trigger] order@[j] < i,
                forall|j: int| at <= j < i ==> listed_before(all, i as int, #[trigger] order@[j] as int),
            decreases at,
        {
            at = at - 1;
        }
        order.insert(at, i);
        assert forall|a: int, b: int| 0 <= a < b < i + 1 implies listed_before(
            all,
            #[trigger] order@[a] as int,
            #[trigger] order@[b] as int,
        ) by {
            let pa = if a <= at { a } else { a - 1 };
            let pb = if b <= at { b } else { b - 1 };
            if a == at {
                assert(order@[b] == before[b - 1]);
            } else if b == at {
                assert(order@[a] == before[a]);
                let prev = before[at - 1] as int;
                assert(listed_before(all, prev, i as int));
                if a < at - 1 {
                    assert(listed_before(all, before[a] as int, prev));
                }
            } else {
                assert(order@[a] == before[pa]);
                assert(order@[b] == before[pb]);
            }
        }
        assert forall|j: int| 0 <= j < i + 1 implies 0 <= #[trigger] order@[j] < i + 1 by {
            if j < at {
                assert(order@[j] == before[j]);
            } else if j > at {
                assert(order@[j] == before[j - 1]);
            }
        }
    }
    let ghost at = crate::text::places(order@);
    assert forall|i: int, j: int| 0 <= i < j < at.len() implies listed_before(
        all,
        #[trigger] at[i],
        #[trigger] at[j],
    ) by {
        assert(at[i] == order@[i] as int && at[j] == order@[j] as int);
    }
    let mut r: Vec<usize> = Vec::new();
    assert(at.take(0) =~= Seq::empty());
    assert(crate::text::places(r@) =~= Seq::empty());
    for i in 0..n
        invariant
            n == modes@.len(),
            order@.len() == n,
            at == crate::text::places(order@),
            ordered(modes@, at),
            forall|j: int| 0 <= j < n ==> !(#[trigger] modes@[j]).fps.is_nan(),
            forall|j: int| 0 <= j < r@.len() ==> 0 <= #[trigger] r@[j] < n,
            crate::text::places(r@) == without_repeats(modes@, at.take(i as int)),
    {
        let ghost kept = crate::text::places(r@);
        assert(at.take(i + 1).drop_last() =~= at.take(i as int));
        assert(at.take(i + 1).last() == at[i as int]);
        assert(at[i as int] == order@[i as int]);
        let k: usize = order[i];
        let m: usize = r.len();
        if m > 0 && is_same(&modes[k], &modes[r[m - 1]]) {
            assert(kept.last() == r@[m - 1] as int);
        } else {
            if m > 0 {
                assert(kept.last() == r@[m - 1] as int);
            }
            r.push(k);
            assert(crate::text::places(r@) =~= kept.push(k as int));
        }
    }
    assert(at.take(n as int) =~= at);
    r
}

// -- laws -------------------------------------------------------------------

/// Faster modes come first, among equally fast ones the larger, and among those
/// the one that was named first. None is left out and none listed twice.
pub proof fn law_faster_modes_come_first(modes: Seq<Mode>, order: Seq<int>, i: int, j: int)
    requires
        ordered(modes, order),
        forall|k: int| 0 <= k < modes.len() ==> !(#[trigger] modes[k]).fps.is_nan(),
        0 <= i < j < order.len(),
    ensures
        order.len() == modes.len(),
        0 <= order[i] < modes.len(),
        0 <= order[j] < modes.len(),
        order[i] != order[j],
        Number::le(modes[order[j]].fps, modes[order[i]].fps),
        Number::le(modes[order[i]].fps, modes[order[j]].fps) ==> modes[order[i]].width * modes[order[i]].height
            >= modes[order[j]].width * modes[order[j]].height,
        Number::le(modes[order[i]].fps, modes[order[j]].fps) && modes[order[i]].width * modes[order[i]].height
            == modes[order[j]].width * modes[order[j]].height ==> order[i] < order[j],
{
    assert(listed_before(modes, order[i], order[j]));
    assert(!modes[order[i]].fps.is_nan() && !modes[order[j]].fps.is_nan());
}

/// A mode is listed once: one that is like the one listed just before it, in its
/// codec, its size and its rate, is left out, and every other one stays, in
/// order.
pub proof fn law_a_repeated_mode_is_listed_once(modes: Seq<Mode>, order: Seq<int>, next: int)
    ensures
        without_repeats(modes, Seq::empty()) == Seq::<int>::empty(),
        without_repeats(modes, seq![next]) == seq![next],
        order.len() > 0 ==> without_repeats(modes, order).len() > 0,
        ({
            let before = without_repeats(modes, order);
            let all = without_repeats(modes, order.push(next));
            let (x, y) = (modes[next], modes[before.last()]);
            let repeats = before.len() > 0 && x.codec@ == y.codec@ && x.width == y.width && x.height == y.height
                && x.fps.rank() == y.fps.rank();
            &&& repeats ==> all == before
            &&& !repeats ==> all == before.push(next)
        }),
    decreases order.len(),
{
    assert(order.push(next).drop_last() =~= order);
    assert(seq![next].drop_last() =~= Seq::<int>::empty());
    assert(without_repeats(modes, seq![next].drop_last()) =~= Seq::empty());
    assert(without_repeats(modes, seq![next]) =~= seq![next]);
    if order.len() > 0 {
        law_a_repeated_mode_is_listed_once(modes, order.drop_last(), order.last());
        assert(order.drop_last().push(order.last()) =~= order);
    }
}

} // verus!
