//! What is known about models without running one: their declared shapes, how
//! a benchmark of them is laid out, and how overlapping detections are thinned
//! out.

pub mod identity;

use vstd::prelude::*;

use crate::decimal::{decimal, decimal_of};
use crate::number::Number;
use crate::text::{owned, pad, padded};
use crate::types::BBox;

verus! {

broadcast use vstd::string::group_string_axioms;

/// Per-stage cost of one model run, in microseconds.
///
/// Three numbers rather than one, because "the model is slow" and "the resize
/// is slow" call for different fixes.
#[derive(Debug, Clone, Copy, Default, PartialEq, Eq)]
pub struct StageTimings {
    pub preprocess_us: u32,
    pub inference_us: u32,
    pub postprocess_us: u32,
}

impl StageTimings {
    /// What the stages cost together.
    pub open spec fn total(self) -> int {
        self.preprocess_us + self.inference_us + self.postprocess_us
    }

    pub fn total_us(&self) -> (r: u32)
        requires
            self.total() <= u32::MAX,
        ensures
            r == self.total(),
    {
        self.preprocess_us + self.inference_us + self.postprocess_us
    }
}

/// One tensor's declared name, type and shape. `-1` marks a dynamic axis.
#[derive(Debug, Clone, PartialEq, Eq)]
pub struct TensorSpec {
    pub name: String,
    pub dtype: String,
    pub shape: Vec<i64>,
}

/// How one axis reads.
pub open spec fn axis_text(d: i64) -> Seq<char> {
    if d < 0 {
        "?"@
    } else {
        decimal(d as nat)
    }
}

/// How the axes of a shape read, separated by commas.
pub open spec fn axes_text(shape: Seq<i64>) -> Seq<char>
    decreases shape.len(),
{
    if shape.len() == 0 {
        Seq::empty()
    } else if shape.len() == 1 {
        axis_text(shape.last())
    } else {
        axes_text(shape.drop_last()) + ", "@ + axis_text(shape.last())
    }
}

impl TensorSpec {
    /// Whether the shape is known and every axis of it is fixed.
    pub open spec fn fixed(self) -> bool {
        self.shape@.len() > 0 && forall|i: int| 0 <= i < self.shape@.len() ==> #[trigger] self.shape@[i] > 0
    }

    /// Whether every axis is fixed. An empty shape says nothing useful, and does
    /// not count as static.
    pub fn is_static(&self) -> (r: bool)
        ensures
            r == self.fixed(),
    {
        let n: usize = self.shape.len();
        if n == 0 {
            return false;
        }
        for i in 0..n
            invariant
                n == self.shape@.len(),
                forall|j: int| 0 <= j < i ==> #[trigger] self.shape@[j] > 0,
        {
            if self.shape[i] <= 0 {
                return false;
            }
        }
        true
    }

    /// The tensor on one line.
    pub fn to_string(&self) -> (r: String)
        ensures
            r@ == padded(self.name@, 24) + " "@ + padded(self.dtype@, 8) + " ["@ + axes_text(self.shape@) + "]"@,
    {
        let n: usize = self.shape.len();
        let mut dims = String::new();
        assert(dims@ =~= Seq::empty());
        for i in 0..n
            invariant
                n == self.shape@.len(),
                dims@ == axes_text(self.shape@.take(i as int)),
        {
            let d: i64 = self.shape[i];
            assert(self.shape@.take(i + 1).last() == d);
            assert(self.shape@.take(i + 1).drop_last() =~= self.shape@.take(i as int));
            let axis = if d < 0 {
                owned("?")
            } else {
                decimal_of(d as u64)
            };
            if i == 0 {
                dims = axis;
            } else {
                dims = dims.concat(", ").concat(axis.as_str());
            }
        }
        assert(self.shape@.take(n as int) =~= self.shape@);
        pad(self.name.as_str(), 24).concat(" ").concat(pad(self.dtype.as_str(), 8).as_str()).concat(" [").concat(
            dims.as_str(),
        ).concat("]")
    }
}

#[derive(Debug, Clone)]
pub struct ModelInfo {
    pub path: String,
    pub size_bytes: u64,
    pub inputs: Vec<TensorSpec>,
    pub outputs: Vec<TensorSpec>,
}

/// Whether every tensor of a list is static.
fn all_static(list: &Vec<TensorSpec>) -> (r: bool)
    ensures
        r == (forall|i: int| 0 <= i < list@.len() ==> (#[trigger] list@[i]).fixed()),
{
    let n: usize = list.len();
    for i in 0..n
        invariant
            n == list@.len(),
            forall|j: int| 0 <= j < i ==> (#[trigger] list@[j]).fixed(),
    {
        if !list[i].is_static() {
            assert(!list@[i as int].fixed());
            return false;
        }
    }
    true
}

impl ModelInfo {
    pub fn has_dynamic_axes(&self) -> (r: bool)
        ensures
            r == ((exists|i: int| 0 <= i < self.inputs@.len() && !(#[trigger] self.inputs@[i]).fixed()) || (exists|
                i: int,
            | 0 <= i < self.outputs@.len() && !(#[trigger] self.outputs@[i]).fixed())),
    {
        !(all_static(&self.inputs) && all_static(&self.outputs))
    }
}

// ---------------------------------------------------------------------------
// benchmarking
// ---------------------------------------------------------------------------

/// Size above which a graph gets the larger thread budget.
pub const LARGE_MODEL_BYTES: u64 = 8_388_608;

/// Whether a model of this size counts as large.
pub fn is_large(size_bytes: u64) -> (r: bool)
    ensures
        r == (size_bytes > LARGE_MODEL_BYTES),
{
    size_bytes > LARGE_MODEL_BYTES
}

/// A shape with every dynamic axis pinned to one.
pub open spec fn pinned(shape: Seq<i64>) -> Seq<i64> {
    shape.map_values(|d: i64| if d > 0 { d } else { 1i64 })
}

/// How many elements a shape holds.
pub open spec fn volume(shape: Seq<i64>) -> int
    decreases shape.len(),
{
    if shape.len() == 0 {
        1
    } else {
        volume(shape.drop_last()) * shape.last()
    }
}

/// Pin every dynamic axis to one.
pub fn pin_shape(shape: &Vec<i64>) -> (r: Vec<i64>)
    ensures
        r@ == pinned(shape@),
{
    let n: usize = shape.len();
    let mut r: Vec<i64> = Vec::new();
    for i in 0..n
        invariant
            n == shape@.len(),
            r@ == pinned(shape@.take(i as int)),
    {
        let d: i64 = shape[i];
        r.push(if d > 0 { d } else { 1 });
        assert(r@ =~= pinned(shape@.take(i + 1)));
    }
    assert(shape@.take(n as int) =~= shape@);
    r
}

proof fn lemma_volume_grows(shape: Seq<i64>, k: int)
    requires
        0 <= k <= shape.len(),
        forall|i: int| 0 <= i < shape.len() ==> #[trigger] shape[i] > 0,
    ensures
        0 < volume(shape.take(k)) <= volume(shape),
    decreases shape.len(),
{
    if k == shape.len() {
        assert(shape.take(k) =~= shape);
        if shape.len() > 0 {
            let rest = shape.drop_last();
            lemma_volume_grows(rest, rest.len() as int);
            assert(rest.take(rest.len() as int) =~= rest);
            assert(volume(rest) * shape.last() > 0) by (nonlinear_arith)
                requires
                    volume(rest) > 0,
                    shape.last() > 0,
            ;
        }
    } else {
        let rest = shape.drop_last();
        lemma_volume_grows(rest, k);
        assert(rest.take(k) =~= shape.take(k));
        assert(volume(rest) * shape.last() >= volume(rest)) by (nonlinear_arith)
            requires
                volume(rest) > 0,
                shape.last() > 0,
        ;
    }
}

/// Count the elements of a shape without dynamic axes.
pub fn element_count(shape: &Vec<i64>) -> (r: usize)
    requires
        forall|i: int| 0 <= i < shape@.len() ==> #[trigger] shape@[i] > 0,
        volume(shape@) <= usize::MAX,
    ensures
        r == volume(shape@),
{
    let n: usize = shape.len();
    let mut r: usize = 1;
    for i in 0..n
        invariant
            n == shape@.len(),
            forall|j: int| 0 <= j < n ==> #[trigger] shape@[j] > 0,
            volume(shape@) <= usize::MAX,
            r == volume(shape@.take(i as int)),
            r > 0,
    {
        let d: i64 = shape[i];
        proof {
            lemma_volume_grows(shape@, i + 1);
            assert(shape@.take(i + 1).drop_last() =~= shape@.take(i as int));
            assert(shape@.take(i + 1).last() == d);
            assert(d <= r * d) by (nonlinear_arith)
                requires
                    r > 0,
                    d > 0,
            ;
        }
        r = r * (d as usize);
    }
    assert(shape@.take(n as int) =~= shape@);
    r
}

/// How many runs a benchmark of `iters` recorded ones takes.
pub fn bench_runs(iters: u32, warmup_iters: u32) -> (r: u32)
    requires
        iters + warmup_iters <= u32::MAX,
    ensures
        r == iters + warmup_iters,
{
    iters + warmup_iters
}

/// Whether run `i` counts. Warm-up does not: the first inferences are much
/// slower than steady state.
pub fn run_counts(i: u32, warmup_iters: u32) -> (r: bool)
    ensures
        r == (i >= warmup_iters),
{
    i >= warmup_iters
}

// ---------------------------------------------------------------------------
// thinning out
// ---------------------------------------------------------------------------

/// How much two boxes overlap.
///
/// Nothing is required of an implementation.
pub trait Overlap: Sized {
    /// Intersection over union.
    fn iou(&self, a: BBox, b: BBox) -> Number;
}

/// What thinning out looks at.
#[derive(Debug, Clone, Copy, PartialEq, Eq)]
pub struct Candidate {
    pub class: u32,
    pub bbox: BBox,
    pub score: Number,
}

/// Whether the candidate at `a` is looked at before the one at `b`: the better
/// one first, and of equals the one that came first.
pub open spec fn looked_at_before(items: Seq<Candidate>, a: int, b: int) -> bool {
    items[a].score.rank() > items[b].score.rank() || (items[a].score.rank() == items[b].score.rank() && a < b)
}

/// Whether `order` lists every place of `items` once, best first.
pub open spec fn best_first(items: Seq<Candidate>, order: Seq<int>) -> bool {
    &&& order.len() == items.len()
    &&& forall|i: int| 0 <= i < order.len() ==> 0 <= #[trigger] order[i] < items.len()
    &&& forall|i: int, j: int|
        0 <= i < j < order.len() ==> looked_at_before(items, #[trigger] order[i], #[trigger] order[j])
}

/// Whether `a` and `b` can be found to overlap by more than `limit`.
pub open spec fn can_overlap<O: Overlap>(math: &O, a: Candidate, b: Candidate, limit: Number) -> bool {
    exists|v: Number| #[trigger] call_ensures(O::iou, (math, a.bbox, b.bbox), v) && Number::lt(limit, v)
}

/// Whether `a` and `b` can be found to overlap by no more than `limit`.
pub open spec fn can_coexist<O: Overlap>(math: &O, a: Candidate, b: Candidate, limit: Number) -> bool {
    exists|v: Number| #[trigger] call_ensures(O::iou, (math, a.bbox, b.bbox), v) && !Number::lt(limit, v)
}

/// Whether `kept` can be what is left of the candidates at `places`, looked at
/// in that order: one is dropped for overlapping a kept one of its own class,
/// and for nothing else.
pub open spec fn thins_to<O: Overlap>(
    math: &O,
    items: Seq<Candidate>,
    limit: Number,
    places: Seq<int>,
    kept: Seq<int>,
) -> bool
    decreases places.len(),
{
    if places.len() == 0 {
        kept.len() == 0
    } else {
        let c = items[places.last()];
        let before = places.drop_last();
        ||| {
            &&& thins_to(math, items, limit, before, kept)
            &&& exists|j: int|
                0 <= j < kept.len() && items[#[trigger] kept[j]].class == c.class && can_overlap(
                    math,
                    items[kept[j]],
                    c,
                    limit,
                )
        }
        ||| {
            &&& kept.len() > 0
            &&& kept.last() == places.last()
            &&& thins_to(math, items, limit, before, kept.drop_last())
            &&& forall|j: int|
                0 <= j < kept.len() - 1 && items[#[trigger] kept[j]].class == c.class ==> can_coexist(
                    math,
                    items[kept[j]],
                    c,
                    limit,
                )
        }
    }
}

/// How many candidates are looked at at all.
pub open spec fn looked_at(n: nat, top_k: usize) -> int {
    if n < top_k {
        n as int
    } else {
        top_k as int
    }
}

/// Put candidates in the order they are looked at.
fn order_best_first(items: &Vec<Candidate>) -> (r: Vec<usize>)
    requires
        forall|i: int| 0 <= i < items@.len() ==> !(#[trigger] items@[i]).score.is_nan(),
    ensures
        best_first(items@, crate::text::places(r@)),
{
    let n: usize = items.len();
    let ghost all = items@;
    let mut r: Vec<usize> = Vec::new();
    for i in 0..n
        invariant
            n == items@.len(),
            all == items@,
            forall|j: int| 0 <= j < n ==> !(#[trigger] all[j]).score.is_nan(),
            r@.len() == i,
            forall|j: int| 0 <= j < i ==> 0 <= #[trigger] r@[j] < i,
            forall|a: int, b: int|
                0 <= a < b < i ==> looked_at_before(all, #[trigger] r@[a] as int, #[trigger] r@[b] as int),
    {
        let ghost before = r@;
        let mut at: usize = i;
        while at > 0 && items[r[at - 1]].score.below(items[i].score)
            invariant
                at <= i,
                i < n,
                n == items@.len(),
                all == items@,
                forall|j: int| 0 <= j < n ==> !(#[trigger] all[j]).score.is_nan(),
                r@ == before,
                r@.len() == i,
                forall|j: int| 0 <= j < i ==> 0 <= #[trigger] r@[j] < i,
                forall|j: int| at <= j < i ==> all[#[trigger] r@[j] as int].score.rank() < all[i as int].score.rank(),
            decreases at,
        {
            at = at - 1;
        }
        r.insert(at, i);
        assert forall|a: int, b: int| 0 <= a < b < i + 1 implies looked_at_before(
            all,
            #[trigger] r@[a] as int,
            #[trigger] r@[b] as int,
        ) by {
            let pa = if a <= at { a } else { a - 1 };
            let pb = if b <= at { b } else { b - 1 };
            if a == at {
                assert(r@[b] == before[b - 1]);
            } else if b == at {
                assert(r@[a] == before[a]);
                let prev = before[at - 1] as int;
                assert(all[prev].score.rank() >= all[i as int].score.rank());
                if a < at - 1 {
                    assert(looked_at_before(all, before[a] as int, prev));
                }
            } else {
                assert(r@[a] == before[pa]);
                assert(r@[b] == before[pb]);
            }
        }
        assert forall|j: int| 0 <= j < i + 1 implies 0 <= #[trigger] r@[j] < i + 1 by {
            if j < at {
                assert(r@[j] == before[j]);
            } else if j > at {
                assert(r@[j] == before[j - 1]);
            }
        }
    }
    let ghost order = crate::text::places(r@);
    assert forall|i: int, j: int| 0 <= i < j < order.len() implies looked_at_before(
        all,
        #[trigger] order[i],
        #[trigger] order[j],
    ) by {
        assert(order[i] == r@[i] as int && order[j] == r@[j] as int);
    }
    r
}

/// Whether a kept candidate of the same class overlaps the one at `c`.
fn suppressed<O: Overlap>(items: &Vec<Candidate>, kept: &Vec<usize>, c: usize, limit: Number, math: &O) -> (r: bool)
    requires
        c < items@.len(),
        forall|j: int| 0 <= j < kept@.len() ==> 0 <= #[trigger] kept@[j] < items@.len(),
    ensures
        r ==> exists|j: int|
            0 <= j < kept@.len() && items@[#[trigger] kept@[j] as int].class == items@[c as int].class && can_overlap(
                math,
                items@[kept@[j] as int],
                items@[c as int],
                limit,
            ),
        !r ==> forall|j: int|
            0 <= j < kept@.len() && items@[#[trigger] kept@[j] as int].class == items@[c as int].class
                ==> can_coexist(math, items@[kept@[j] as int], items@[c as int], limit),
{
    let n: usize = kept.len();
    for i in 0..n
        invariant
            n == kept@.len(),
            c < items@.len(),
            forall|j: int| 0 <= j < kept@.len() ==> 0 <= #[trigger] kept@[j] < items@.len(),
            forall|j: int|
                0 <= j < i && items@[#[trigger] kept@[j] as int].class == items@[c as int].class ==> can_coexist(
                    math,
                    items@[kept@[j] as int],
                    items@[c as int],
                    limit,
                ),
    {
        let k: usize = kept[i];
        if items[k].class == items[c].class {
            let v = math.iou(items[k].bbox, items[c].bbox);
            if limit.below(v) {
                assert(can_overlap(math, items@[kept@[i as int] as int], items@[c as int], limit));
                return true;
            }
            assert(can_coexist(math, items@[kept@[i as int] as int], items@[c as int], limit));
        }
    }
    false
}

/// Greedy non-maximum suppression, highest score first, within each class.
/// Returns the places of the survivors, best first.
///
/// Suppressing across classes would let a confident phone erase a book that
/// overlaps it.
pub fn nms<O: Overlap>(items: &Vec<Candidate>, iou_threshold: Number, top_k: usize, math: &O) -> (kept: Vec<usize>)
    requires
        forall|i: int| 0 <= i < items@.len() ==> !(#[trigger] items@[i]).score.is_nan(),
    ensures
        exists|order: Seq<int>|
            #[trigger] best_first(items@, order) && thins_to(
                math,
                items@,
                iou_threshold,
                order.take(looked_at(items@.len(), top_k)),
                crate::text::places(kept@),
            ),
{
    let order = order_best_first(items);
    let ghost at = crate::text::places(order@);
    let n: usize = if order.len() < top_k {
        order.len()
    } else {
        top_k
    };
    let mut kept: Vec<usize> = Vec::new();
    assert(at.take(0) =~= Seq::empty());
    for i in 0..n
        invariant
            n <= order@.len(),
            order@.len() == items@.len(),
            at == crate::text::places(order@),
            best_first(items@, at),
            forall|j: int| 0 <= j < kept@.len() ==> 0 <= #[trigger] kept@[j] < items@.len(),
            thins_to(math, items@, iou_threshold, at.take(i as int), crate::text::places(kept@)),
    {
        assert(at[i as int] == order@[i as int]);
        let c: usize = order[i];
        let ghost before = crate::text::places(kept@);
        assert(at.take(i + 1).drop_last() =~= at.take(i as int));
        assert(at.take(i + 1).last() == c);
        if suppressed(items, &kept, c, iou_threshold, math) {
            proof {
                let j = choose|j: int|
                    0 <= j < kept@.len() && items@[#[trigger] kept@[j] as int].class == items@[c as int].class
                        && can_overlap(math, items@[kept@[j] as int], items@[c as int], iou_threshold);
                assert(before[j] == kept@[j] as int);
            }
        } else {
            let ghost was = kept@;
            kept.push(c);
            proof {
                let after = crate::text::places(kept@);
                assert(after.drop_last() =~= before);
                assert forall|j: int|
                    0 <= j < after.len() - 1 && items@[#[trigger] after[j]].class == items@[c as int].class implies can_coexist(
                    math,
                    items@[after[j]],
                    items@[c as int],
                    iou_threshold,
                ) by {
                    assert(after[j] == was[j] as int);
                }
            }
        }
    }
    kept
}

/// No two survivors of one class overlap by more than the limit, as far as the
/// overlap was measured.
pub proof fn law_survivors_keep_apart<O: Overlap>(
    math: &O,
    items: Seq<Candidate>,
    limit: Number,
    places: Seq<int>,
    kept: Seq<int>,
    i: int,
    j: int,
)
    requires
        thins_to(math, items, limit, places, kept),
        0 <= i < j < kept.len(),
        items[kept[i]].class == items[kept[j]].class,
    ensures
        can_coexist(math, items[kept[i]], items[kept[j]], limit),
    decreases places.len(),
{
    if places.len() > 0 {
        let before = places.drop_last();
        if thins_to(math, items, limit, before, kept) {
            law_survivors_keep_apart(math, items, limit, before, kept, i, j);
        } else if j < kept.len() - 1 {
            let rest = kept.drop_last();
            assert(rest[i] == kept[i] && rest[j] == kept[j]);
            law_survivors_keep_apart(math, items, limit, before, rest, i, j);
        }
    }
}

/// Thinning out invents nothing and keeps the order.
pub proof fn law_survivors_were_candidates<O: Overlap>(
    math: &O,
    items: Seq<Candidate>,
    limit: Number,
    places: Seq<int>,
    kept: Seq<int>,
    i: int,
)
    requires
        thins_to(math, items, limit, places, kept),
        0 <= i < kept.len(),
    ensures
        places.contains(kept[i]),
    decreases places.len(),
{
    if places.len() > 0 {
        let before = places.drop_last();
        if thins_to(math, items, limit, before, kept) {
            law_survivors_were_candidates(math, items, limit, before, kept, i);
            let h = choose|h: int| 0 <= h < before.len() && before[h] == kept[i];
            assert(places[h] == kept[i]);
        } else if i < kept.len() - 1 {
            let rest = kept.drop_last();
            assert(rest[i] == kept[i]);
            law_survivors_were_candidates(math, items, limit, before, rest, i);
            let h = choose|h: int| 0 <= h < before.len() && before[h] == rest[i];
            assert(places[h] == kept[i]);
        } else {
            assert(places[places.len() - 1] == kept[i]);
        }
    }
}

/// Candidates are looked at best first, and of equals the one that came first.
/// None is looked at twice.
pub proof fn law_better_candidates_come_first(items: Seq<Candidate>, order: Seq<int>, i: int, j: int)
    requires
        best_first(items, order),
        forall|k: int| 0 <= k < items.len() ==> !(#[trigger] items[k]).score.is_nan(),
        0 <= i < j < order.len(),
    ensures
        order.len() == items.len(),
        0 <= order[i] < items.len(),
        0 <= order[j] < items.len(),
        order[i] != order[j],
        Number::le(items[order[j]].score, items[order[i]].score),
        Number::le(items[order[i]].score, items[order[j]].score) ==> order[i] < order[j],
{
    assert(looked_at_before(items, order[i], order[j]));
    assert(!items[order[i]].score.is_nan() && !items[order[j]].score.is_nan());
}

/// As many candidates are looked at as are asked for, and all if there are no
/// more.
pub proof fn law_no_more_than_asked_for_are_looked_at(n: nat, top_k: usize)
    ensures
        0 <= looked_at(n, top_k) <= n,
        looked_at(n, top_k) <= top_k,
        looked_at(n, top_k) == n || looked_at(n, top_k) == top_k,
{
}

/// A candidate is dropped only for a better one: every candidate that was looked
/// at and not kept overlaps a kept one of its own class by more than the limit,
/// and the best of all is kept.
pub proof fn law_a_candidate_is_dropped_for_a_kept_one<O: Overlap>(
    math: &O,
    items: Seq<Candidate>,
    limit: Number,
    places: Seq<int>,
    kept: Seq<int>,
    k: int,
)
    requires
        thins_to(math, items, limit, places, kept),
        0 <= k < places.len(),
    ensures
        kept.contains(places[k]) || exists|j: int|
            0 <= j < kept.len() && items[#[trigger] kept[j]].class == items[places[k]].class && exists|v: Number|
                #[trigger] call_ensures(O::iou, (math, items[kept[j]].bbox, items[places[k]].bbox), v) && Number::lt(
                    limit,
                    v,
                ),
        kept.len() > 0 && kept[0] == places[0],
    decreases places.len(),
{
    let before = places.drop_last();
    let last = places.len() - 1;
    let c = items[places.last()];
    assert(places[last] == places.last());
    assert forall|i: int| 0 <= i < before.len() implies #[trigger] before[i] == places[i] by {}
    if thins_to(math, items, limit, before, kept) && (exists|j: int|
        0 <= j < kept.len() && items[#[trigger] kept[j]].class == c.class && can_overlap(
            math,
            items[kept[j]],
            c,
            limit,
        )) {
        let j = choose|j: int|
            0 <= j < kept.len() && items[#[trigger] kept[j]].class == c.class && can_overlap(
                math,
                items[kept[j]],
                c,
                limit,
            );
        if k < last {
            law_a_candidate_is_dropped_for_a_kept_one(math, items, limit, before, kept, k);
        } else {
            assert(items[kept[j]].class == items[places[k]].class);
            if before.len() > 0 {
                law_a_candidate_is_dropped_for_a_kept_one(math, items, limit, before, kept, 0);
            }
        }
    } else {
        let rest = kept.drop_last();
        assert(kept[kept.len() - 1] == places[last]);
        assert(kept.contains(places[last]));
        if before.len() > 0 {
            let m = if k < last {
                k
            } else {
                0
            };
            law_a_candidate_is_dropped_for_a_kept_one(math, items, limit, before, rest, m);
            assert(kept[0] == rest[0]);
            if k < last {
                if rest.contains(places[k]) {
                    let h = choose|h: int| 0 <= h < rest.len() && rest[h] == places[k];
                    assert(kept[h] == places[k]);
                } else {
                    let j = choose|j: int|
                        0 <= j < rest.len() && items[#[trigger] rest[j]].class == items[places[k]].class && exists|
                            v: Number,
                        |
                            #[trigger] call_ensures(
                                O::iou,
                                (math, items[rest[j]].bbox, items[places[k]].bbox),
                                v,
                            ) && Number::lt(limit, v);
                    assert(kept[j] == rest[j]);
                }
            }
        } else {
            reveal_with_fuel(thins_to, 2);
            assert(rest.len() == 0);
        }
    }
}

/// A shape is shown axis by axis, with a question mark for an axis that is left
/// open. It is fixed if it has axes and none of them is open or empty.
pub proof fn law_open_axes_are_shown_as_such(shape: Seq<i64>, axis: i64, t: TensorSpec)
    ensures
        axis < 0 ==> axis_text(axis) == "?"@,
        axis >= 0 ==> axis_text(axis) == decimal(axis as nat),
        axes_text(Seq::empty()) == Seq::<char>::empty(),
        axes_text(seq![axis]) == axis_text(axis),
        shape.len() > 0 ==> axes_text(shape.push(axis)) == axes_text(shape) + ", "@ + axis_text(axis),
        t.fixed() <==> t.shape@.len() > 0 && forall|i: int| 0 <= i < t.shape@.len() ==> #[trigger] t.shape@[i] >= 1,
{
    assert(shape.push(axis).drop_last() =~= shape);
}

/// An axis that is left open is pinned to one, and every other stays. A tensor
/// holds as many elements as its axes multiply to.
pub proof fn law_open_axes_are_pinned_to_one(shape: Seq<i64>, axis: i64, i: int)
    requires
        0 <= i < shape.len(),
    ensures
        pinned(shape).len() == shape.len(),
        shape[i] > 0 ==> pinned(shape)[i] == shape[i],
        shape[i] <= 0 ==> pinned(shape)[i] == 1,
        volume(Seq::empty()) == 1,
        volume(shape.push(axis)) == volume(shape) * axis,
{
    assert(shape.push(axis).drop_last() =~= shape);
}

/// What a model took is what its stages took together.
pub proof fn law_a_run_takes_what_its_stages_take(t: StageTimings)
    ensures
        t.total() == t.preprocess_us + t.inference_us + t.postprocess_us,
{
}

} // verus!
