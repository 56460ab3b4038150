//! What two recordings have to share to be the same to fusion.
//!
//! Recordings that differ only in what was not measured, or in detections that
//! are not the best of their kind, report the same.

use vstd::prelude::*;

use crate::config::Thresholds;
use crate::number::{Arithmetic, Number};
use crate::types::{EventView, ObjectDetection, Signals};
use super::laws::{law_a_replay_is_repeatable, repeatable};
use super::model::{
    best_of, bucket_of, gaze_of, identity_of, initial, last_time, pose_of, replays_to, runs_to, BucketState,
    FusionState, Progress, Reading,
};

verus! {

// -- frames that read alike ---------------------------------------------------

/// Whether two frames give fusion the same to go by: the same slots ran, they
/// measured the same, and the best detection of each bucket scores the same.
pub open spec fn alike(buckets: Seq<BucketState>, floor: Number, a: Signals, b: Signals) -> bool {
    &&& a.t_ms == b.t_ms
    &&& a.produced_by == b.produced_by
    &&& a.faces@.len() == b.faces@.len()
    &&& pose_of(a) == pose_of(b)
    &&& gaze_of(a) == gaze_of(b)
    &&& identity_of(a) == identity_of(b)
    &&& a.produced_by.objects is Produced ==> forall|i: int|
        0 <= i < buckets.len() ==> #[trigger] best_of(buckets, a.objects@, floor, i) == best_of(
            buckets,
            b.objects@,
            floor,
            i,
        )
}

/// Whether two lists of buckets collect the same labels.
spec fn same_classes(x: Seq<BucketState>, y: Seq<BucketState>) -> bool {
    x.len() == y.len() && forall|i: int| 0 <= i < x.len() ==> (#[trigger] x[i]).classes == y[i].classes
}

proof fn lemma_bucket_of_classes(x: Seq<BucketState>, y: Seq<BucketState>, label: Seq<char>)
    requires
        same_classes(x, y),
    ensures
        bucket_of(x, label) == bucket_of(y, label),
    decreases x.len(),
{
    if x.len() > 0 {
        assert(x[x.len() - 1].classes == y[y.len() - 1].classes);
        assert(same_classes(x.drop_last(), y.drop_last())) by {
            assert forall|i: int| 0 <= i < x.drop_last().len() implies (#[trigger] x.drop_last()[i]).classes
                == y.drop_last()[i].classes by {
                assert(x[i].classes == y[i].classes);
            }
        }
        lemma_bucket_of_classes(x.drop_last(), y.drop_last(), label);
    }
}

proof fn lemma_best_of_classes(
    x: Seq<BucketState>,
    y: Seq<BucketState>,
    objects: Seq<ObjectDetection>,
    floor: Number,
    i: int,
)
    requires
        same_classes(x, y),
    ensures
        best_of(x, objects, floor, i) == best_of(y, objects, floor, i),
    decreases objects.len(),
{
    if objects.len() > 0 {
        lemma_best_of_classes(x, y, objects.drop_last(), floor, i);
        lemma_bucket_of_classes(x, y, objects.last().label@);
    }
}

/// A step keeps what the buckets collect, and the rules.
proof fn lemma_step_keeps_classes<A: Arithmetic>(
    math: &A,
    st: FusionState,
    s: Signals,
    t_ms: u64,
    next: FusionState,
    events: Seq<EventView>,
)
    requires
        st.steps_to(math, s, t_ms, next, events),
    ensures
        same_classes(next.buckets, st.buckets),
        next.rules == st.rules,
{
    let r = choose|r: Reading|
        #[trigger] st.measures(math, s, t_ms, r) && st.stepped(s, r, t_ms) == (Progress { state: next, events });
    st.lemma_stepped_parts(s, r, t_ms);
}

proof fn lemma_alike_step<A: Arithmetic>(
    math: &A,
    buckets: Seq<BucketState>,
    st: FusionState,
    a: Signals,
    b: Signals,
    t_ms: u64,
    next: FusionState,
    events: Seq<EventView>,
)
    requires
        same_classes(st.buckets, buckets),
        alike(buckets, st.rules.min_score, a, b),
        st.steps_to(math, a, t_ms, next, events),
    ensures
        st.steps_to(math, b, t_ms, next, events),
{
    let r = choose|r: Reading|
        #[trigger] st.measures(math, a, t_ms, r) && st.stepped(a, r, t_ms) == (Progress { state: next, events });
    let floor = st.rules.min_score;
    assert forall|i: int| 0 <= i < st.buckets.len() implies st.measures_bucket(
        math,
        b,
        t_ms,
        i,
        #[trigger] r.buckets@[i],
    ) by {
        assert(st.measures_bucket(math, a, t_ms, i, r.buckets@[i]));
        lemma_best_of_classes(st.buckets, buckets, a.objects@, floor, i);
        lemma_best_of_classes(st.buckets, buckets, b.objects@, floor, i);
        if a.produced_by.objects is Produced {
            assert(best_of(buckets, a.objects@, floor, i) == best_of(buckets, b.objects@, floor, i));
        }
    }
    assert(st.measures(math, b, t_ms, r));
    let p = st.beginning().after_face(a.faces@.len(), t_ms).after_head(r.head, t_ms).after_gaze(
        r.gaze,
        t_ms,
    ).after_buckets(a.produced_by.objects is Produced, r.buckets@, st.buckets.len(), t_ms);
    assert(p.after_signal_loss(a, t_ms) == p.after_signal_loss(b, t_ms)) by {
        reveal(Progress::after_signal_loss);
    }
    assert(st.stepped(b, r, t_ms) == st.stepped(a, r, t_ms));
}

proof fn lemma_alike_run<A: Arithmetic>(
    math: &A,
    start: FusionState,
    a: Seq<Signals>,
    b: Seq<Signals>,
    end: FusionState,
    events: Seq<EventView>,
)
    requires
        a.len() == b.len(),
        forall|i: int| 0 <= i < a.len() ==> alike(start.buckets, start.rules.min_score, #[trigger] a[i], b[i]),
        runs_to(math, start, a, end, events),
    ensures
        runs_to(math, start, b, end, events),
        same_classes(end.buckets, start.buckets),
        end.rules == start.rules,
    decreases a.len(),
{
    if a.len() > 0 {
        let s = a.last();
        let (mid, before, last) = choose|mid: FusionState, before: Seq<EventView>, last: Seq<EventView>|
            #![trigger mid.steps_to(math, s, s.t_ms, end, last), before.add(last)]
            runs_to(math, start, a.drop_last(), mid, before) && mid.steps_to(math, s, s.t_ms, end, last)
                && events == before.add(last);
        assert forall|i: int| 0 <= i < a.drop_last().len() implies alike(
            start.buckets,
            start.rules.min_score,
            #[trigger] a.drop_last()[i],
            b.drop_last()[i],
        ) by {
            assert(alike(start.buckets, start.rules.min_score, a[i], b[i]));
        }
        lemma_alike_run(math, start, a.drop_last(), b.drop_last(), mid, before);
        assert(alike(start.buckets, start.rules.min_score, a[a.len() - 1], b[a.len() - 1]));
        lemma_alike_step(math, start.buckets, mid, s, b.last(), s.t_ms, end, last);
        lemma_step_keeps_classes(math, mid, s, s.t_ms, end, last);
        assert forall|i: int| 0 <= i < end.buckets.len() implies (#[trigger] end.buckets[i]).classes
            == start.buckets[i].classes by {
            assert(mid.buckets[i].classes == start.buckets[i].classes);
        }
        assert(mid.steps_to(math, b.last(), b.last().t_ms, end, last));
    }
}

proof fn lemma_alike_replay<A: Arithmetic>(
    math: &A,
    t: Thresholds,
    a: Seq<Signals>,
    b: Seq<Signals>,
    events: Seq<EventView>,
)
    requires
        a.len() == b.len(),
        forall|i: int| 0 <= i < a.len() ==> alike(initial(t).buckets, t.objects.min_score, #[trigger] a[i], b[i]),
        replays_to(math, t, a, events),
    ensures
        replays_to(math, t, b, events),
{
    let (end, before) = choose|end: FusionState, before: Seq<EventView>|
        #[trigger] runs_to(math, initial(t), a, end, before) && events == before + end.endings(last_time(a));
    lemma_alike_run(math, initial(t), a, b, end, before);
    if a.len() > 0 {
        assert(alike(initial(t).buckets, t.objects.min_score, a[a.len() - 1], b[a.len() - 1]));
    }
    assert(last_time(a) == last_time(b));
}

/// Whether two recordings can lead from `start` to the same states, and report
/// the same on the way.
pub open spec fn same_runs<A: Arithmetic>(math: &A, start: FusionState, a: Seq<Signals>, b: Seq<Signals>) -> bool {
    forall|end: FusionState, events: Seq<EventView>|
        #![trigger runs_to(math, start, a, end, events)]
        #![trigger runs_to(math, start, b, end, events)]
        runs_to(math, start, a, end, events) <==> runs_to(math, start, b, end, events)
}

/// Recordings whose frames read alike are the same to fusion: whatever a session
/// can come to and report on one, it can on the other, and so can a replay. With
/// arithmetic that repeats its answers they report the same.
pub proof fn law_alike_recordings_report_alike<A: Arithmetic>(
    math: &A,
    t: Thresholds,
    a: Seq<Signals>,
    b: Seq<Signals>,
    events_a: Seq<EventView>,
    events_b: Seq<EventView>,
)
    requires
        a.len() == b.len(),
        forall|i: int| 0 <= i < a.len() ==> alike(initial(t).buckets, t.objects.min_score, #[trigger] a[i], b[i]),
    ensures
        same_runs(math, initial(t), a, b),
        replays_to(math, t, a, events_a) <==> replays_to(math, t, b, events_a),
        repeatable(math) && replays_to(math, t, a, events_a) && replays_to(math, t, b, events_b) ==> events_a
            == events_b,
{
    assert forall|i: int| 0 <= i < b.len() implies alike(
        initial(t).buckets,
        t.objects.min_score,
        #[trigger] b[i],
        a[i],
    ) by {
        let buckets = initial(t).buckets;
        let floor = t.objects.min_score;
        assert(alike(buckets, floor, a[i], b[i]));
        if a[i].produced_by.objects is Produced {
            assert forall|k: int| 0 <= k < buckets.len() implies #[trigger] best_of(buckets, b[i].objects@, floor, k)
                == best_of(buckets, a[i].objects@, floor, k) by {
                assert(best_of(buckets, a[i].objects@, floor, k) == best_of(buckets, b[i].objects@, floor, k));
            }
        }
    }
    assert forall|end: FusionState, events: Seq<EventView>|
        #![trigger runs_to(math, initial(t), a, end, events)]
        #![trigger runs_to(math, initial(t), b, end, events)]
        runs_to(math, initial(t), a, end, events) <==> runs_to(math, initial(t), b, end, events) by {
        if runs_to(math, initial(t), a, end, events) {
            lemma_alike_run(math, initial(t), a, b, end, events);
        }
        if runs_to(math, initial(t), b, end, events) {
            lemma_alike_run(math, initial(t), b, a, end, events);
        }
    }
    if replays_to(math, t, a, events_a) {
        lemma_alike_replay(math, t, a, b, events_a);
    }
    if replays_to(math, t, b, events_a) {
        lemma_alike_replay(math, t, b, a, events_a);
    }
    if repeatable(math) && replays_to(math, t, a, events_a) && replays_to(math, t, b, events_b) {
        law_a_replay_is_repeatable(math, t, b, events_a, events_b);
    }
}

// -- what was not measured ----------------------------------------------------

/// Whether two frames differ in nothing that was measured: a slot that did not
/// run may hold any value.
pub open spec fn same_measurements(a: Signals, b: Signals) -> bool {
    &&& a.t_ms == b.t_ms
    &&& a.produced_by == b.produced_by
    &&& a.faces@.len() == b.faces@.len()
    &&& a.produced_by.pose is Produced ==> a.head_pose == b.head_pose
    &&& a.produced_by.gaze is Produced ==> a.gaze == b.gaze
    &&& a.produced_by.objects is Produced ==> a.objects@ == b.objects@
    &&& a.produced_by.identity is Produced ==> a.identity_match == b.identity_match
}

/// A value on a frame whose slot did not run never reaches a decision: neither
/// as that value nor as a zero. Recordings that differ only in such values
/// come to the same state and report the same, frame by frame.
pub proof fn law_an_unmeasured_value_never_counts<A: Arithmetic>(
    math: &A,
    t: Thresholds,
    a: Seq<Signals>,
    b: Seq<Signals>,
    events_a: Seq<EventView>,
    events_b: Seq<EventView>,
)
    requires
        a.len() == b.len(),
        forall|i: int| 0 <= i < a.len() ==> same_measurements(#[trigger] a[i], b[i]),
    ensures
        same_runs(math, initial(t), a, b),
        replays_to(math, t, a, events_a) <==> replays_to(math, t, b, events_a),
        repeatable(math) && replays_to(math, t, a, events_a) && replays_to(math, t, b, events_b) ==> events_a
            == events_b,
{
    assert forall|i: int| 0 <= i < a.len() implies alike(
        initial(t).buckets,
        t.objects.min_score,
        #[trigger] a[i],
        b[i],
    ) by {
        assert(same_measurements(a[i], b[i]));
    }
    law_alike_recordings_report_alike(math, t, a, b, events_a, events_b);
}

// -- only the best detection of a bucket counts -------------------------------

/// Whether a detection is evidence for bucket `i`.
pub open spec fn counts(buckets: Seq<BucketState>, floor: Number, det: ObjectDetection, i: int) -> bool {
    !Number::lt(det.score, floor) && bucket_of(buckets, det.label@) == Some(i)
}

/// Whether a detection adds nothing to others: it scores below the floor,
/// belongs to no bucket, or its bucket has one already that scores as high.
pub open spec fn adds_nothing(
    buckets: Seq<BucketState>,
    floor: Number,
    others: Seq<ObjectDetection>,
    det: ObjectDetection,
) -> bool {
    ||| Number::lt(det.score, floor)
    ||| bucket_of(buckets, det.label@) is None
    ||| exists|j: int|
        0 <= j < others.len() && !Number::lt((#[trigger] others[j]).score, floor) && bucket_of(
            buckets,
            others[j].label@,
        ) == bucket_of(buckets, det.label@) && Number::le(det.score, others[j].score)
}

/// Whether `more` is `some` with detections added, at any place, that add
/// nothing.
pub open spec fn only_adds(
    buckets: Seq<BucketState>,
    floor: Number,
    some: Seq<ObjectDetection>,
    more: Seq<ObjectDetection>,
) -> bool {
    keeps_all(some, more) && rest_adds_nothing(buckets, floor, some, more)
}

/// Whether every detection of `some` is among `more`.
pub open spec fn keeps_all(some: Seq<ObjectDetection>, more: Seq<ObjectDetection>) -> bool {
    forall|i: int| 0 <= i < some.len() ==> more.contains(#[trigger] some[i])
}

/// Whether each detection of `more` that is not among `some` adds nothing to it.
pub open spec fn rest_adds_nothing(
    buckets: Seq<BucketState>,
    floor: Number,
    some: Seq<ObjectDetection>,
    more: Seq<ObjectDetection>,
) -> bool {
    forall|j: int|
        0 <= j < more.len() ==> some.contains(#[trigger] more[j]) || adds_nothing(buckets, floor, some, more[j])
}

/// The best score is zero or that of a detection, and no detection beats it.
proof fn lemma_best_of(buckets: Seq<BucketState>, objects: Seq<ObjectDetection>, floor: Number, i: int)
    ensures
        match best_of(buckets, objects, floor, i) {
            Some(v) => {
                &&& Number::le(Number::zero(), v)
                &&& exists|j: int| 0 <= j < objects.len() && counts(buckets, floor, #[trigger] objects[j], i)
                &&& v == Number::zero() || exists|j: int|
                    0 <= j < objects.len() && counts(buckets, floor, #[trigger] objects[j], i) && objects[j].score == v
                        && Number::lt(Number::zero(), v)
                &&& forall|j: int|
                    0 <= j < objects.len() && counts(buckets, floor, #[trigger] objects[j], i)
                        ==> objects[j].score.is_nan() || Number::le(objects[j].score, v)
            },
            None => forall|j: int| 0 <= j < objects.len() ==> !counts(buckets, floor, #[trigger] objects[j], i),
        },
    decreases objects.len(),
{
    if objects.len() > 0 {
        let rest = objects.drop_last();
        let det = objects.last();
        let last = objects.len() - 1;
        lemma_best_of(buckets, rest, floor, i);
        assert(objects[last] == det);
        assert forall|j: int| 0 <= j < rest.len() implies #[trigger] rest[j] == objects[j] by {}
        match best_of(buckets, rest, floor, i) {
            Some(v) => {
                let j = choose|j: int| 0 <= j < rest.len() && counts(buckets, floor, #[trigger] rest[j], i);
                assert(counts(buckets, floor, objects[j], i));
                if v != Number::zero() {
                    let j = choose|j: int|
                        0 <= j < rest.len() && counts(buckets, floor, #[trigger] rest[j], i) && rest[j].score == v
                            && Number::lt(Number::zero(), v);
                    assert(counts(buckets, floor, objects[j], i) && objects[j].score == v);
                }
                assert forall|j: int|
                    0 <= j < objects.len() && counts(buckets, floor, #[trigger] objects[j], i) implies objects[j].score.is_nan()
                    || Number::le(objects[j].score, best_of(buckets, objects, floor, i)->0) by {
                    if j < rest.len() {
                        assert(rest[j] == objects[j]);
                    }
                }
            },
            None => {
                assert forall|j: int| 0 <= j < rest.len() implies !counts(buckets, floor, #[trigger] objects[j], i) by {
                    assert(rest[j] == objects[j]);
                }
            },
        }
        if counts(buckets, floor, det, i) {
            assert(counts(buckets, floor, objects[last], i));
        }
    }
}

/// Whether one of `by` is evidence for bucket `i` and scores at least `score`.
spec fn matched(buckets: Seq<BucketState>, floor: Number, score: Number, by: Seq<ObjectDetection>, i: int) -> bool {
    exists|k: int|
        0 <= k < by.len() && counts(buckets, floor, #[trigger] by[k], i) && (by[k].score == score || Number::le(
            score,
            by[k].score,
        ))
}

/// Where every detection of one list is matched in another, so is the best.
proof fn lemma_best_matched(
    buckets: Seq<BucketState>,
    floor: Number,
    x: Seq<ObjectDetection>,
    y: Seq<ObjectDetection>,
    i: int,
)
    requires
        forall|j: int|
            0 <= j < x.len() && counts(buckets, floor, #[trigger] x[j], i) ==> matched(
                buckets,
                floor,
                x[j].score,
                y,
                i,
            ),
    ensures
        match (best_of(buckets, x, floor, i), best_of(buckets, y, floor, i)) {
            (Some(v), Some(w)) => v == Number::zero() || (Number::le(v, w) && Number::lt(Number::zero(), v)),
            (Some(_), None) => false,
            _ => true,
        },
{
    lemma_best_of(buckets, x, floor, i);
    lemma_best_of(buckets, y, floor, i);
    if let Some(v) = best_of(buckets, x, floor, i) {
        let j = if v == Number::zero() {
            choose|j: int| 0 <= j < x.len() && counts(buckets, floor, #[trigger] x[j], i)
        } else {
            choose|j: int|
                0 <= j < x.len() && counts(buckets, floor, #[trigger] x[j], i) && x[j].score == v && Number::lt(
                    Number::zero(),
                    v,
                )
        };
        assert(matched(buckets, floor, x[j].score, y, i));
        let k = choose|k: int|
            0 <= k < y.len() && counts(buckets, floor, #[trigger] y[k], i) && (y[k].score == x[j].score || Number::le(
                x[j].score,
                y[k].score,
            ));
        assert(counts(buckets, floor, y[k], i));
    }
}

proof fn lemma_kept_is_matched(
    buckets: Seq<BucketState>,
    floor: Number,
    some: Seq<ObjectDetection>,
    more: Seq<ObjectDetection>,
    i: int,
    j: int,
)
    requires
        keeps_all(some, more),
        0 <= j < some.len(),
        counts(buckets, floor, some[j], i),
    ensures
        matched(buckets, floor, some[j].score, more, i),
{
    assert(more.contains(some[j]));
    let k = choose|k: int| 0 <= k < more.len() && more[k] == some[j];
    assert(counts(buckets, floor, more[k], i));
}

proof fn lemma_added_is_matched(
    buckets: Seq<BucketState>,
    floor: Number,
    some: Seq<ObjectDetection>,
    more: Seq<ObjectDetection>,
    i: int,
    k: int,
)
    requires
        rest_adds_nothing(buckets, floor, some, more),
        0 <= k < more.len(),
        counts(buckets, floor, more[k], i),
    ensures
        matched(buckets, floor, more[k].score, some, i),
{
    if some.contains(more[k]) {
        let j = choose|j: int| 0 <= j < some.len() && some[j] == more[k];
        assert(counts(buckets, floor, some[j], i));
    } else {
        assert(adds_nothing(buckets, floor, some, more[k]));
        let j = choose|j: int|
            0 <= j < some.len() && !Number::lt((#[trigger] some[j]).score, floor) && bucket_of(
                buckets,
                some[j].label@,
            ) == bucket_of(buckets, more[k].label@) && Number::le(more[k].score, some[j].score);
        assert(counts(buckets, floor, some[j], i));
    }
}

/// Two scores that are each zero or no less than the other are the same.
proof fn lemma_same_best(v: Number, w: Number)
    requires
        v == Number::zero() || (Number::le(v, w) && Number::lt(Number::zero(), v)),
        w == Number::zero() || (Number::le(w, v) && Number::lt(Number::zero(), w)),
    ensures
        v == w,
{
}

proof fn lemma_only_adds(
    buckets: Seq<BucketState>,
    floor: Number,
    some: Seq<ObjectDetection>,
    more: Seq<ObjectDetection>,
    i: int,
)
    requires
        keeps_all(some, more),
        rest_adds_nothing(buckets, floor, some, more),
    ensures
        best_of(buckets, some, floor, i) == best_of(buckets, more, floor, i),
{
    assert(match (best_of(buckets, some, floor, i), best_of(buckets, more, floor, i)) {
        (Some(v), Some(w)) => v == Number::zero() || (Number::le(v, w) && Number::lt(Number::zero(), v)),
        (Some(_), None) => false,
        _ => true,
    }) by {
        assert forall|j: int| 0 <= j < some.len() && counts(buckets, floor, #[trigger] some[j], i) implies matched(
            buckets,
            floor,
            some[j].score,
            more,
            i,
        ) by {
            lemma_kept_is_matched(buckets, floor, some, more, i, j);
        }
        lemma_best_matched(buckets, floor, some, more, i);
    }
    assert(match (best_of(buckets, more, floor, i), best_of(buckets, some, floor, i)) {
        (Some(v), Some(w)) => v == Number::zero() || (Number::le(v, w) && Number::lt(Number::zero(), v)),
        (Some(_), None) => false,
        _ => true,
    }) by {
        assert forall|k: int| 0 <= k < more.len() && counts(buckets, floor, #[trigger] more[k], i) implies matched(
            buckets,
            floor,
            more[k].score,
            some,
            i,
        ) by {
            lemma_added_is_matched(buckets, floor, some, more, i, k);
        }
        lemma_best_matched(buckets, floor, more, some, i);
    }
    if let (Some(v), Some(w)) = (best_of(buckets, some, floor, i), best_of(buckets, more, floor, i)) {
        lemma_same_best(v, w);
    }
}

/// Whether `b` is `a` with detections added that add nothing.
pub open spec fn only_detections_added(buckets: Seq<BucketState>, floor: Number, a: Signals, b: Signals) -> bool {
    &&& a.t_ms == b.t_ms
    &&& a.produced_by == b.produced_by
    &&& a.faces@.len() == b.faces@.len()
    &&& a.head_pose == b.head_pose
    &&& a.gaze == b.gaze
    &&& a.identity_match == b.identity_match
    &&& only_adds(buckets, floor, a.objects@, b.objects@)
}

/// Per frame and bucket only the best detection counts, never their number:
/// detections that are not the best of their bucket, that score below the floor
/// or that belong to no bucket change no report.
pub proof fn law_only_the_best_detection_counts<A: Arithmetic>(
    math: &A,
    t: Thresholds,
    a: Seq<Signals>,
    b: Seq<Signals>,
    events_a: Seq<EventView>,
    events_b: Seq<EventView>,
)
    requires
        a.len() == b.len(),
        forall|i: int|
            0 <= i < a.len() ==> only_detections_added(
                initial(t).buckets,
                t.objects.min_score,
                #[trigger] a[i],
                b[i],
            ),
    ensures
        same_runs(math, initial(t), a, b),
        replays_to(math, t, a, events_a) <==> replays_to(math, t, b, events_a),
        repeatable(math) && replays_to(math, t, a, events_a) && replays_to(math, t, b, events_b) ==> events_a
            == events_b,
{
    let buckets = initial(t).buckets;
    let floor = t.objects.min_score;
    assert forall|i: int| 0 <= i < a.len() implies alike(buckets, floor, #[trigger] a[i], b[i]) by {
        assert(only_detections_added(buckets, floor, a[i], b[i]));
        assert forall|k: int| 0 <= k < buckets.len() implies #[trigger] best_of(buckets, a[i].objects@, floor, k)
            == best_of(buckets, b[i].objects@, floor, k) by {
            lemma_only_adds(buckets, floor, a[i].objects@, b[i].objects@, k);
        }
    }
    law_alike_recordings_report_alike(math, t, a, b, events_a, events_b);
}

} // verus!
