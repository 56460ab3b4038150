//! What each rule of fusion is for, said of what goes in and what comes out.

use vstd::prelude::*;

use crate::config::{severity_of, Thresholds};
use crate::decimal::decimal;
use crate::number::{Arithmetic, Number};
use crate::types::{
    ContributionView, EventView, GateReason, ObjectDetection, SignalSource, Signals, SlotState, ViolationKind,
    ViolationView,
};
use super::laws::{coherent, decided, latched, law_a_step_reports_every_edge_once};
use super::ledger::{in_order, lemma_finite_lists, Key, OpenView};
use super::model::{
    best_of, bucket_of, finished, gaze_loss, initial, last_time, lost_subject, pose_loss, replays_to, reported_why,
    runs_to, slot_lost, started, AngleReading, AngleState, BucketReading, BucketState, FusionState, Presence, Progress,
    Reading, Rules, VerdictView, MIN_OBJECT_WEIGHT,
};
use super::temporal::{
    law_a_condition_that_is_gone_ends, law_a_condition_that_stays_is_reported, timer_after, Edge, HoldState,
};

verus! {

// -- objects --------------------------------------------------------------------

/// A label belongs to a bucket exactly when some bucket lists it, and where
/// several do, to the last of them.
pub proof fn law_a_label_belongs_where_it_is_listed(buckets: Seq<BucketState>, label: Seq<char>)
    ensures
        bucket_of(buckets, label) is Some <==> exists|i: int|
            0 <= i < buckets.len() && (#[trigger] buckets[i]).classes.contains(label),
        bucket_of(buckets, label) matches Some(i) ==> 0 <= i < buckets.len() && buckets[i].classes.contains(label)
            && forall|j: int| i < j < buckets.len() ==> !(#[trigger] buckets[j]).classes.contains(label),
    decreases buckets.len(),
{
    if buckets.len() > 0 {
        let rest = buckets.drop_last();
        let last = buckets.len() - 1;
        law_a_label_belongs_where_it_is_listed(rest, label);
        assert(buckets[last] == buckets.last());
        assert forall|j: int| 0 <= j < rest.len() implies #[trigger] rest[j] == buckets[j] by {}
        if !buckets.last().classes.contains(label) {
            if bucket_of(rest, label) is Some {
                assert(buckets[bucket_of(rest, label)->0].classes.contains(label));
            }
            if exists|i: int| 0 <= i < buckets.len() && (#[trigger] buckets[i]).classes.contains(label) {
                let i = choose|i: int| 0 <= i < buckets.len() && (#[trigger] buckets[i]).classes.contains(label);
                assert(rest[i].classes.contains(label));
            }
            if let Some(i) = bucket_of(rest, label) {
                assert forall|j: int| i < j < buckets.len() implies !(#[trigger] buckets[j]).classes.contains(label) by {
                    if j < last {
                        assert(!rest[j].classes.contains(label));
                    }
                }
            }
        }
    }
}

/// What a bucket gathers on a frame is the score of the best detection that
/// belongs to it and is not below the floor. It gathers nothing if there is
/// none, and never less than zero.
pub proof fn law_a_bucket_gathers_its_best_detection(
    buckets: Seq<BucketState>,
    objects: Seq<ObjectDetection>,
    floor: Number,
    i: int,
)
    ensures
        best_of(buckets, objects, floor, i) is Some <==> exists|j: int|
            0 <= j < objects.len() && bucket_of(buckets, (#[trigger] objects[j]).label@) == Some(i) && !Number::lt(
                objects[j].score,
                floor,
            ),
        best_of(buckets, objects, floor, i) matches Some(v) ==> Number::le(Number { bits: 0 }, v),
        best_of(buckets, objects, floor, i) matches Some(v) ==> v == (Number { bits: 0 }) || exists|j: int|
            0 <= j < objects.len() && bucket_of(buckets, (#[trigger] objects[j]).label@) == Some(i) && !Number::lt(
                objects[j].score,
                floor,
            ) && objects[j].score == v,
        best_of(buckets, objects, floor, i) matches Some(v) ==> forall|j: int|
            0 <= j < objects.len() && bucket_of(buckets, (#[trigger] objects[j]).label@) == Some(i) && !Number::lt(
                objects[j].score,
                floor,
            ) ==> !Number::lt(v, objects[j].score),
    decreases objects.len(),
{
    if objects.len() > 0 {
        let rest = objects.drop_last();
        let last = objects.len() - 1;
        law_a_bucket_gathers_its_best_detection(buckets, rest, floor, i);
        assert(objects[last] == objects.last());
        assert forall|j: int| 0 <= j < rest.len() implies #[trigger] rest[j] == objects[j] by {}
        let before = best_of(buckets, rest, floor, i);
        let now = best_of(buckets, objects, floor, i);
        if before is Some {
            let j = choose|j: int|
                0 <= j < rest.len() && bucket_of(buckets, (#[trigger] rest[j]).label@) == Some(i) && !Number::lt(
                    rest[j].score,
                    floor,
                );
            assert(bucket_of(buckets, objects[j].label@) == Some(i));
            if before->0 != (Number { bits: 0 }) {
                let j = choose|j: int|
                    0 <= j < rest.len() && bucket_of(buckets, (#[trigger] rest[j]).label@) == Some(i) && !Number::lt(
                        rest[j].score,
                        floor,
                    ) && rest[j].score == before->0;
                assert(objects[j].score == before->0);
            }
        }
        if exists|j: int|
            0 <= j < objects.len() && bucket_of(buckets, (#[trigger] objects[j]).label@) == Some(i) && !Number::lt(
                objects[j].score,
                floor,
            ) {
            let j = choose|j: int|
                0 <= j < objects.len() && bucket_of(buckets, (#[trigger] objects[j]).label@) == Some(i)
                    && !Number::lt(objects[j].score, floor);
            if j < last {
                assert(bucket_of(buckets, rest[j].label@) == Some(i));
            }
        }
        if now is Some {
            assert forall|j: int|
                0 <= j < objects.len() && bucket_of(buckets, (#[trigger] objects[j]).label@) == Some(i)
                    && !Number::lt(objects[j].score, floor) implies !Number::lt(now->0, objects[j].score) by {
                if j < last {
                    assert(bucket_of(buckets, rest[j].label@) == Some(i));
                    assert(before is Some);
                    assert(!Number::lt(before->0, rest[j].score));
                }
            }
        }
    }
}

/// It takes the higher bar for a bucket to appear, and falling below the lower
/// one for it to go. The evidence moves only on a frame that was looked at.
pub proof fn law_a_bucket_appears_high_and_goes_low(
    b: BucketState,
    rules: Rules,
    produced: bool,
    r: BucketReading,
    t_ms: u64,
)
    ensures
        ({
            let n = b.weighed(rules, produced, r, t_ms);
            let score = if produced {
                r.score
            } else {
                b.score.score
            };
            &&& n.name == b.name && n.classes == b.classes
            &&& n.score.score == score
            &&& n.score.half_life_ms == b.score.half_life_ms
            &&& n.score.last_t_ms == (if produced {
                Some(t_ms)
            } else {
                b.score.last_t_ms
            })
            &&& !b.active ==> (n.active <==> Number::le(rules.enter_score, score))
            &&& b.active ==> (n.active <==> Number::le(rules.clear_score, score))
        }),
{
}

/// On a frame that was looked at, a bucket that one of the detections belongs
/// to is left with the sum of what remained and the best of them, and one that
/// none belongs to with what remained. On any other frame it is left as it was.
pub proof fn law_evidence_follows_what_was_seen<A: Arithmetic>(
    math: &A,
    st: FusionState,
    s: Signals,
    t_ms: u64,
    i: int,
    r: BucketReading,
)
    requires
        0 <= i < st.buckets.len(),
        st.measures_bucket(math, s, t_ms, i, r),
    ensures
        !(s.produced_by.objects is Produced) ==> r.score == st.buckets[i].score.score,
        s.produced_by.objects is Produced && best_of(st.buckets, s.objects@, st.rules.min_score, i) is None
            ==> st.buckets[i].score.decays_to(math, t_ms, r.score),
        s.produced_by.objects is Produced ==> (best_of(st.buckets, s.objects@, st.rules.min_score, i) matches Some(v)
            ==> st.buckets[i].score.gathers(math, v, t_ms, r.score)),
        call_ensures(A::ramp, (math, r.score, st.rules.enter_score), r.confidence),
        call_ensures(A::shown, (math, r.score, 2u32), r.text),
{
}

/// A bucket whose evidence reaches the enter score is reported, under its own
/// name, and one whose evidence falls below the clear score is not any longer.
pub proof fn law_evidence_that_adds_up_is_reported(st: FusionState, s: Signals, r: Reading, t_ms: u64, i: int)
    requires
        coherent(st),
        r.buckets@.len() == st.buckets.len(),
        0 <= i < st.buckets.len(),
        s.produced_by.objects is Produced,
    ensures
        Number::le(st.rules.enter_score, r.buckets@[i].score) && Number::le(st.rules.clear_score, st.rules.enter_score)
            ==> st.stepped(s, r, t_ms).state.open.contains_key(
            (ViolationKind::ProhibitedObject, Some(st.buckets[i].name)),
        ),
        !Number::le(st.rules.clear_score, r.buckets@[i].score) && !Number::le(
            st.rules.enter_score,
            r.buckets@[i].score,
        ) ==> !st.stepped(s, r, t_ms).state.open.contains_key(
            (ViolationKind::ProhibitedObject, Some(st.buckets[i].name)),
        ),
{
    let n = st.stepped(s, r, t_ms).state;
    let name = st.buckets[i].name;
    let k: Key = (ViolationKind::ProhibitedObject, Some(name));
    st.lemma_stepped_parts(s, r, t_ms);
    law_a_step_reports_every_edge_once(st, s, r, t_ms);
    assert(n.buckets[i].name == name);
    assert(n.open.contains_key(k) <==> latched(n, k));
    if !n.buckets[i].active {
        assert forall|j: int| 0 <= j < n.buckets.len() && (#[trigger] n.buckets[j]).name == name implies j == i by {
            assert(n.buckets[j].name == n.buckets[i].name);
        }
    }
}

// -- angles ---------------------------------------------------------------------

/// Either angle is enough: with the hold over both, what is timed is that the
/// yaw is past its threshold or that the pitch is, each by its magnitude, each
/// past the exit threshold if it was past before and past the enter threshold if
/// it was not.
pub proof fn law_either_angle_counts(a: AngleState, r: AngleReading, t_ms: u64)
    ensures
        ({
            let yaw = if a.yaw_gate.active {
                !Number::lt(r.yaw.magnitude_spec(), a.yaw_gate.exit)
            } else {
                Number::le(a.yaw_gate.enter, r.yaw.magnitude_spec())
            };
            let pitch = if a.pitch_gate.active {
                !Number::lt(r.pitch.magnitude_spec(), a.pitch_gate.exit)
            } else {
                Number::le(a.pitch_gate.enter, r.pitch.magnitude_spec())
            };
            let n = a.fed(Some(r), t_ms);
            &&& n.yaw_gate.active == yaw && n.pitch_gate.active == pitch
            &&& yaw || pitch ==> n.hold == a.hold.advanced(true, t_ms) && a.edge(Some(r), t_ms) == a.hold.edge(
                true,
                t_ms,
            )
            &&& !yaw && !pitch ==> n.hold == a.hold.advanced(false, t_ms) && a.edge(Some(r), t_ms) == a.hold.edge(
                false,
                t_ms,
            )
            &&& n.yaw.value == Some(r.yaw) && n.yaw.last_t_ms == Some(t_ms)
            &&& n.pitch.value == Some(r.pitch) && n.pitch.last_t_ms == Some(t_ms)
            &&& n.yaw.alpha == a.yaw.alpha && n.yaw.reset_after_ms == a.yaw.reset_after_ms
            &&& n.pitch.alpha == a.pitch.alpha && n.pitch.reset_after_ms == a.pitch.reset_after_ms
            &&& n.yaw_gate.enter == a.yaw_gate.enter && n.yaw_gate.exit == a.yaw_gate.exit
            &&& n.pitch_gate.enter == a.pitch_gate.enter && n.pitch_gate.exit == a.pitch_gate.exit
        }),
        a.fed(None, t_ms) == (AngleState { hold: a.hold.advanced(false, t_ms), ..a }),
        a.edge(None, t_ms) == a.hold.edge(false, t_ms),
{
}

/// The angles that are past their thresholds are argued for, the yaw first, each
/// with its own weight and its own words. The larger weight is the confidence.
pub proof fn law_each_angle_past_is_argued_for(
    a: AngleState,
    r: AngleReading,
    t_ms: u64,
    signal: SignalSource,
    yaw_label: Seq<char>,
    pitch_label: Seq<char>,
    pitch_note: Seq<char>,
)
    ensures
        ({
            let n = a.fed(Some(r), t_ms);
            let args = a.arguments(Some(r), signal, yaw_label, pitch_label, pitch_note);
            let yaw = ContributionView {
                signal,
                weight: r.yaw_weight,
                detail: yaw_label + r.yaw_text@ + " deg"@,
            };
            let pitch = ContributionView {
                signal,
                weight: r.pitch_weight,
                detail: pitch_label + r.pitch_text@ + pitch_note,
            };
            &&& n.yaw_gate.active && n.pitch_gate.active ==> args == seq![yaw, pitch]
            &&& n.yaw_gate.active && !n.pitch_gate.active ==> args == seq![yaw]
            &&& !n.yaw_gate.active && n.pitch_gate.active ==> args == seq![pitch]
            &&& !n.yaw_gate.active && !n.pitch_gate.active ==> args == Seq::<ContributionView>::empty()
        }),
        a.arguments(None, signal, yaw_label, pitch_label, pitch_note) == Seq::<ContributionView>::empty(),
        Number::lt(r.yaw_weight, r.pitch_weight) ==> a.confidence(Some(r)) == r.pitch_weight,
        Number::le(r.pitch_weight, r.yaw_weight) ==> a.confidence(Some(r)) == r.yaw_weight,
        a.confidence(None) == (Number { bits: 0 }),
{
}

/// What a frame measured of the head and of the gaze is what is smoothed: the
/// head's angles as they are, the gaze's in degrees and with the configured
/// offset taken off the pitch. Each angle is weighed against its own threshold.
/// A slot that did not run, or has no value, is not read at all.
pub proof fn law_angles_are_read_as_measured<A: Arithmetic>(
    math: &A,
    st: FusionState,
    s: Signals,
    t_ms: u64,
    r: Reading,
)
    requires
        st.measures(math, s, t_ms, r),
    ensures
        r.head is Some <==> s.produced_by.pose is Produced && s.head_pose is Some,
        r.gaze is Some <==> s.produced_by.gaze is Produced && s.gaze is Some,
        r.identity is Some <==> s.produced_by.identity is Produced && s.identity_match is Some,
        r.identity matches Some(c) ==> s.identity_match == Some(c.score) && call_ensures(
            A::shown,
            (math, c.score, 2u32),
            c.score_text,
        ) && call_ensures(A::shown, (math, st.rules.cosine_enter, 2u32), c.bar_text),
        r.buckets@.len() == st.buckets.len(),
        r.head matches Some(h) ==> {
            &&& st.head.yaw.smooths_to(math, s.head_pose->0.yaw_deg, t_ms, h.yaw)
            &&& st.head.pitch.smooths_to(math, s.head_pose->0.pitch_deg, t_ms, h.pitch)
            &&& st.head.yaw_gate.has_intensity(math, h.yaw.magnitude_spec(), h.yaw_weight)
            &&& st.head.pitch_gate.has_intensity(math, h.pitch.magnitude_spec(), h.pitch_weight)
            &&& call_ensures(A::shown, (math, h.yaw.magnitude_spec(), 0u32), h.yaw_text)
            &&& call_ensures(A::shown, (math, h.pitch.magnitude_spec(), 0u32), h.pitch_text)
        },
        r.gaze matches Some(h) ==> exists|yaw: Number, raw: Number, pitch: Number|
            #![trigger call_ensures(A::degrees, (math, s.gaze->0.yaw_rad), yaw), call_ensures(A::difference, (math, raw, st.rules.pitch_offset_deg), pitch)]
            {
                &&& call_ensures(A::degrees, (math, s.gaze->0.yaw_rad), yaw)
                &&& call_ensures(A::degrees, (math, s.gaze->0.pitch_rad), raw)
                &&& call_ensures(A::difference, (math, raw, st.rules.pitch_offset_deg), pitch)
                &&& st.gaze.yaw.smooths_to(math, yaw, t_ms, h.yaw)
                &&& st.gaze.pitch.smooths_to(math, pitch, t_ms, h.pitch)
                &&& st.gaze.yaw_gate.has_intensity(math, h.yaw.magnitude_spec(), h.yaw_weight)
                &&& st.gaze.pitch_gate.has_intensity(math, h.pitch.magnitude_spec(), h.pitch_weight)
                &&& call_ensures(A::shown, (math, h.yaw.magnitude_spec(), 0u32), h.yaw_text)
                &&& call_ensures(A::shown, (math, h.pitch.magnitude_spec(), 0u32), h.pitch_text)
            },
{
    if let Some(h) = r.gaze {
        let g = s.gaze->0;
        let (yaw, raw, pitch) = choose|yaw: Number, raw: Number, pitch: Number|
            #![trigger call_ensures(A::degrees, (math, g.yaw_rad), yaw), call_ensures(A::difference, (math, raw, st.rules.pitch_offset_deg), pitch)]
            {
                &&& call_ensures(A::degrees, (math, g.yaw_rad), yaw)
                &&& call_ensures(A::degrees, (math, g.pitch_rad), raw)
                &&& call_ensures(A::difference, (math, raw, st.rules.pitch_offset_deg), pitch)
                &&& st.gaze.measures(math, yaw, pitch, t_ms, h)
            };
        assert(call_ensures(A::degrees, (math, g.yaw_rad), yaw) && call_ensures(
            A::difference,
            (math, raw, st.rules.pitch_offset_deg),
            pitch,
        ));
    }
}

/// The angles of the head, or of the gaze.
spec fn angles(st: FusionState, head: bool) -> AngleState {
    if head {
        st.head
    } else {
        st.gaze
    }
}

/// What a frame measured of the head, or of the gaze.
spec fn angle_reading(r: Reading, head: bool) -> Option<AngleReading> {
    if head {
        r.head
    } else {
        r.gaze
    }
}

/// When each frame was taken, with the same condition on every one.
spec fn timed(frames: Seq<(Signals, Reading)>, condition: bool) -> Seq<(bool, u64)> {
    Seq::new(frames.len(), |i: int| (condition, frames[i].0.t_ms))
}

spec fn stays_away(start: FusionState, frames: Seq<(Signals, Reading)>, head: bool) -> bool {
    let a = angles(start, head);
    forall|i: int|
        0 <= i < frames.len() ==> angle_reading((#[trigger] frames[i]).1, head) is Some && (Number::le(
            a.yaw_gate.enter,
            angle_reading(frames[i].1, head)->0.yaw.magnitude_spec(),
        ) || Number::le(a.pitch_gate.enter, angle_reading(frames[i].1, head)->0.pitch.magnitude_spec()))
}

spec fn stays_facing(start: FusionState, frames: Seq<(Signals, Reading)>, head: bool) -> bool {
    let a = angles(start, head);
    forall|i: int|
        0 <= i < frames.len() && angle_reading((#[trigger] frames[i]).1, head) is Some ==> Number::lt(
            angle_reading(frames[i].1, head)->0.yaw.magnitude_spec(),
            a.yaw_gate.exit,
        ) && Number::lt(angle_reading(frames[i].1, head)->0.pitch.magnitude_spec(), a.pitch_gate.exit)
}

spec fn covers_buckets(start: FusionState, frames: Seq<(Signals, Reading)>) -> bool {
    forall|i: int| 0 <= i < frames.len() ==> (#[trigger] frames[i]).1.buckets@.len() == start.buckets.len()
}

spec fn pairs_ordered(a: AngleState) -> bool {
    Number::le(a.yaw_gate.exit, a.yaw_gate.enter) && Number::le(a.pitch_gate.exit, a.pitch_gate.enter)
}

proof fn lemma_angles_timed(start: FusionState, frames: Seq<(Signals, Reading)>, head: bool, away: bool)
    requires
        coherent(start),
        pairs_ordered(angles(start, head)),
        covers_buckets(start, frames),
        away ==> stays_away(start, frames, head),
        !away ==> stays_facing(start, frames, head),
    ensures
        ({
            let end = decided(start, frames).state;
            let a = angles(start, head);
            let n = angles(end, head);
            &&& coherent(end)
            &&& end.buckets.len() == start.buckets.len()
            &&& n.hold == timer_after(a.hold, timed(frames, away))
            &&& n.yaw_gate.enter == a.yaw_gate.enter && n.yaw_gate.exit == a.yaw_gate.exit
            &&& n.pitch_gate.enter == a.pitch_gate.enter && n.pitch_gate.exit == a.pitch_gate.exit
        }),
    decreases frames.len(),
{
    if frames.len() > 0 {
        let rest = frames.drop_last();
        let last = frames.len() - 1;
        let (s, r) = frames.last();
        assert(frames[last] == frames.last());
        assert forall|i: int| 0 <= i < rest.len() implies #[trigger] rest[i] == frames[i] by {}
        lemma_angles_timed(start, rest, head, away);
        let mid = decided(start, rest).state;
        assert(r.buckets@.len() == mid.buckets.len());
        mid.lemma_stepped_parts(s, r, s.t_ms);
        law_a_step_reports_every_edge_once(mid, s, r, s.t_ms);
        assert(timed(frames, away).drop_last() =~= timed(rest, away));
        assert(timed(frames, away).last() == (away, s.t_ms));
        if let Some(h) = angle_reading(r, head) {
            law_either_angle_counts(angles(mid, head), h, s.t_ms);
        }
    } else {
        assert(timed(frames, away) =~= Seq::empty());
    }
}

/// A head that stays turned away is reported: however it is turned, sideways or
/// up and down, once the smoothed angle has been at or past its enter threshold
/// on every frame for the hold, and not before.
pub proof fn law_a_head_that_stays_away_is_reported(start: FusionState, frames: Seq<(Signals, Reading)>)
    requires
        coherent(start),
        Number::le(start.head.yaw_gate.exit, start.head.yaw_gate.enter),
        Number::le(start.head.pitch_gate.exit, start.head.pitch_gate.enter),
        !start.head.hold.fired,
        start.head.hold.true_since is None,
        frames.len() > 0,
        forall|i: int| 0 <= i < frames.len() ==> (#[trigger] frames[i]).1.buckets@.len() == start.buckets.len(),
        forall|i: int|
            0 <= i < frames.len() ==> (#[trigger] frames[i]).1.head is Some && (Number::le(
                start.head.yaw_gate.enter,
                frames[i].1.head->0.yaw.magnitude_spec(),
            ) || Number::le(start.head.pitch_gate.enter, frames[i].1.head->0.pitch.magnitude_spec())),
    ensures
        decided(start, frames).state.open.contains_key((ViolationKind::HeadTurnedAway, None)) <==> (
        start.head.hold.hold_ms == 0 || exists|i: int|
            0 <= i < frames.len() && (#[trigger] frames[i]).0.t_ms >= frames[0].0.t_ms + start.head.hold.hold_ms),
{
    assert(stays_away(start, frames, true));
    lemma_angles_timed(start, frames, true, true);
    lemma_timed_reports(start.head.hold, frames);
    let end = decided(start, frames).state;
    assert(latched(end, (ViolationKind::HeadTurnedAway, None)) == end.head.hold.fired);
}

/// A gaze that stays off the screen is reported: sideways or up and down, once
/// the smoothed angle has been at or past its enter threshold on every frame for
/// the hold, and not before.
pub proof fn law_a_gaze_that_stays_away_is_reported(start: FusionState, frames: Seq<(Signals, Reading)>)
    requires
        coherent(start),
        Number::le(start.gaze.yaw_gate.exit, start.gaze.yaw_gate.enter),
        Number::le(start.gaze.pitch_gate.exit, start.gaze.pitch_gate.enter),
        !start.gaze.hold.fired,
        start.gaze.hold.true_since is None,
        frames.len() > 0,
        forall|i: int| 0 <= i < frames.len() ==> (#[trigger] frames[i]).1.buckets@.len() == start.buckets.len(),
        forall|i: int|
            0 <= i < frames.len() ==> (#[trigger] frames[i]).1.gaze is Some && (Number::le(
                start.gaze.yaw_gate.enter,
                frames[i].1.gaze->0.yaw.magnitude_spec(),
            ) || Number::le(start.gaze.pitch_gate.enter, frames[i].1.gaze->0.pitch.magnitude_spec())),
    ensures
        decided(start, frames).state.open.contains_key((ViolationKind::GazeOffScreen, None)) <==> (
        start.gaze.hold.hold_ms == 0 || exists|i: int|
            0 <= i < frames.len() && (#[trigger] frames[i]).0.t_ms >= frames[0].0.t_ms + start.gaze.hold.hold_ms),
{
    assert(stays_away(start, frames, false));
    lemma_angles_timed(start, frames, false, true);
    lemma_timed_reports(start.gaze.hold, frames);
    let end = decided(start, frames).state;
    assert(latched(end, (ViolationKind::GazeOffScreen, None)) == end.gaze.hold.fired);
}

/// A head that faces the screen again is no longer reported once it has, with
/// both angles below their exit thresholds or not measured on every frame, for
/// the clear hold, and is until then.
pub proof fn law_a_head_that_comes_back_ends(start: FusionState, frames: Seq<(Signals, Reading)>)
    requires
        coherent(start),
        Number::le(start.head.yaw_gate.exit, start.head.yaw_gate.enter),
        Number::le(start.head.pitch_gate.exit, start.head.pitch_gate.enter),
        start.head.hold.fired,
        start.head.hold.false_since is None,
        frames.len() > 0,
        forall|i: int| 0 <= i < frames.len() ==> (#[trigger] frames[i]).1.buckets@.len() == start.buckets.len(),
        forall|i: int|
            0 <= i < frames.len() && (#[trigger] frames[i]).1.head is Some ==> Number::lt(
                frames[i].1.head->0.yaw.magnitude_spec(),
                start.head.yaw_gate.exit,
            ) && Number::lt(frames[i].1.head->0.pitch.magnitude_spec(), start.head.pitch_gate.exit),
    ensures
        !decided(start, frames).state.open.contains_key((ViolationKind::HeadTurnedAway, None)) <==> (
        start.head.hold.clear_ms == 0 || exists|i: int|
            0 <= i < frames.len() && (#[trigger] frames[i]).0.t_ms >= frames[0].0.t_ms + start.head.hold.clear_ms),
{
    assert(stays_facing(start, frames, true));
    lemma_angles_timed(start, frames, true, false);
    lemma_timed_ends(start.head.hold, frames);
    let end = decided(start, frames).state;
    assert(latched(end, (ViolationKind::HeadTurnedAway, None)) == end.head.hold.fired);
}

/// A gaze that is on the screen again is no longer reported once it has been,
/// with both angles below their exit thresholds or not measured on every frame,
/// for the clear hold, and is until then.
pub proof fn law_a_gaze_that_comes_back_ends(start: FusionState, frames: Seq<(Signals, Reading)>)
    requires
        coherent(start),
        Number::le(start.gaze.yaw_gate.exit, start.gaze.yaw_gate.enter),
        Number::le(start.gaze.pitch_gate.exit, start.gaze.pitch_gate.enter),
        start.gaze.hold.fired,
        start.gaze.hold.false_since is None,
        frames.len() > 0,
        forall|i: int| 0 <= i < frames.len() ==> (#[trigger] frames[i]).1.buckets@.len() == start.buckets.len(),
        forall|i: int|
            0 <= i < frames.len() && (#[trigger] frames[i]).1.gaze is Some ==> Number::lt(
                frames[i].1.gaze->0.yaw.magnitude_spec(),
                start.gaze.yaw_gate.exit,
            ) && Number::lt(frames[i].1.gaze->0.pitch.magnitude_spec(), start.gaze.pitch_gate.exit),
    ensures
        !decided(start, frames).state.open.contains_key((ViolationKind::GazeOffScreen, None)) <==> (
        start.gaze.hold.clear_ms == 0 || exists|i: int|
            0 <= i < frames.len() && (#[trigger] frames[i]).0.t_ms >= frames[0].0.t_ms + start.gaze.hold.clear_ms),
{
    assert(stays_facing(start, frames, false));
    lemma_angles_timed(start, frames, false, false);
    lemma_timed_ends(start.gaze.hold, frames);
    let end = decided(start, frames).state;
    assert(latched(end, (ViolationKind::GazeOffScreen, None)) == end.gaze.hold.fired);
}

proof fn lemma_timed_reports(st: HoldState, frames: Seq<(Signals, Reading)>)
    requires
        !st.fired,
        st.true_since is None,
        frames.len() > 0,
    ensures
        timer_after(st, timed(frames, true)).fired <==> (st.hold_ms == 0 || exists|i: int|
            0 <= i < frames.len() && (#[trigger] frames[i]).0.t_ms >= frames[0].0.t_ms + st.hold_ms),
{
    let steps = timed(frames, true);
    law_a_condition_that_stays_is_reported(st, steps);
    if exists|i: int| 0 <= i < frames.len() && (#[trigger] frames[i]).0.t_ms >= frames[0].0.t_ms + st.hold_ms {
        let i = choose|i: int| 0 <= i < frames.len() && (#[trigger] frames[i]).0.t_ms >= frames[0].0.t_ms + st.hold_ms;
        assert(steps[i].1 >= steps[0].1 + st.hold_ms);
    }
    if exists|i: int| 0 <= i < steps.len() && (#[trigger] steps[i]).1 >= steps[0].1 + st.hold_ms {
        let i = choose|i: int| 0 <= i < steps.len() && (#[trigger] steps[i]).1 >= steps[0].1 + st.hold_ms;
        assert(frames[i].0.t_ms >= frames[0].0.t_ms + st.hold_ms);
    }
}

proof fn lemma_timed_ends(st: HoldState, frames: Seq<(Signals, Reading)>)
    requires
        st.fired,
        st.false_since is None,
        frames.len() > 0,
    ensures
        !timer_after(st, timed(frames, false)).fired <==> (st.clear_ms == 0 || exists|i: int|
            0 <= i < frames.len() && (#[trigger] frames[i]).0.t_ms >= frames[0].0.t_ms + st.clear_ms),
{
    let steps = timed(frames, false);
    law_a_condition_that_is_gone_ends(st, steps);
    if exists|i: int| 0 <= i < frames.len() && (#[trigger] frames[i]).0.t_ms >= frames[0].0.t_ms + st.clear_ms {
        let i = choose|i: int|
            0 <= i < frames.len() && (#[trigger] frames[i]).0.t_ms >= frames[0].0.t_ms + st.clear_ms;
        assert(steps[i].1 >= steps[0].1 + st.clear_ms);
    }
    if exists|i: int| 0 <= i < steps.len() && (#[trigger] steps[i]).1 >= steps[0].1 + st.clear_ms {
        let i = choose|i: int| 0 <= i < steps.len() && (#[trigger] steps[i]).1 >= steps[0].1 + st.clear_ms;
        assert(frames[i].0.t_ms >= frames[0].0.t_ms + st.clear_ms);
    }
}

// -- faces and slots --------------------------------------------------------------

/// Someone who was never seen is unseen until a face appears. From then on they
/// are there when a face is, and gone when none is.
pub proof fn law_presence_follows_the_faces(p: Presence, face: bool)
    ensures
        face ==> p.seeing(face) == Presence::Present,
        !face && p == Presence::NeverSeen ==> p.seeing(face) == Presence::NeverSeen,
        !face && p != Presence::NeverSeen ==> p.seeing(face) == Presence::Absent,
{
}

/// A slot is dark when it could have run and did not, by declining or by
/// failing. The reason that is at hand when this is first reported is the reason
/// it goes by until it is over.
pub proof fn law_a_dark_slot_says_why(s: Signals, edge: Edge, at_hand: Seq<char>, before: Seq<char>)
    ensures
        forall|state: SlotState|
            #[trigger] slot_lost(state) <==> state == SlotState::SkippedGated || state == SlotState::Failed,
        s.produced_by.pose == SlotState::Failed ==> pose_loss(s) == "model failing"@,
        s.produced_by.pose != SlotState::Failed ==> pose_loss(s) == "gated"@,
        s.produced_by.gaze == SlotState::Failed ==> gaze_loss(s) == "model failing"@,
        s.produced_by.gaze != SlotState::Failed && s.produced_by.gaze_gate is None ==> gaze_loss(s) == "gated"@,
        s.produced_by.gaze != SlotState::Failed ==> (s.produced_by.gaze_gate matches Some(g) ==> gaze_loss(s) == (
        match g {
            GateReason::NoFace => "NoFace"@,
            GateReason::LowFaceScore => "LowFaceScore"@,
            GateReason::EyesTooClose => "EyesTooClose"@,
            GateReason::EyesTooFar => "EyesTooFar"@,
            GateReason::DegenerateBox => "DegenerateBox"@,
        })),
        edge == Edge::Rose ==> reported_why(edge, at_hand, before) == at_hand,
        edge != Edge::Rose ==> reported_why(edge, at_hand, before) == before,
        lost_subject(at_hand, before) == at_hand + ": "@ + before,
{
}

/// The timers that run on what a frame shows as it is.
ghost enum Watch {
    NeverSeen,
    NoFace,
    MultiFace,
    PoseLost,
    GazeLost,
}

spec fn watch_timer(st: FusionState, w: Watch) -> HoldState {
    match w {
        Watch::NeverSeen => st.never_seen,
        Watch::NoFace => st.no_face,
        Watch::MultiFace => st.multi_face,
        Watch::PoseLost => st.pose_lost,
        Watch::GazeLost => st.gaze_lost,
    }
}

/// Whether a frame, in a session that began like `start`, shows what is watched
/// for.
spec fn shows(start: FusionState, s: Signals, w: Watch) -> bool {
    match w {
        Watch::NeverSeen => start.presence is NeverSeen && s.faces@.len() == 0,
        Watch::NoFace => !(start.presence is NeverSeen) && s.faces@.len() == 0,
        Watch::MultiFace => s.faces@.len() >= start.rules.multi_face_count,
        Watch::PoseLost => s.produced_by.pose is SkippedGated || s.produced_by.pose is Failed,
        Watch::GazeLost => s.produced_by.gaze is SkippedGated || s.produced_by.gaze is Failed,
    }
}

proof fn lemma_watch_timed(start: FusionState, frames: Seq<(Signals, Reading)>, w: Watch, condition: bool)
    requires
        coherent(start),
        covers_buckets(start, frames),
        forall|i: int| 0 <= i < frames.len() ==> shows(start, (#[trigger] frames[i]).0, w) == condition,
    ensures
        ({
            let end = decided(start, frames).state;
            &&& coherent(end)
            &&& end.buckets.len() == start.buckets.len()
            &&& end.rules == start.rules
            &&& w is NeverSeen && start.presence is NeverSeen && condition ==> end.presence is NeverSeen
            &&& w is NoFace && !(start.presence is NeverSeen) ==> !(end.presence is NeverSeen)
            &&& (w is NeverSeen ==> condition) && (w is NoFace ==> !(start.presence is NeverSeen))
                ==> watch_timer(end, w) == timer_after(watch_timer(start, w), timed(frames, condition))
        }),
    decreases frames.len(),
{
    if frames.len() > 0 {
        let rest = frames.drop_last();
        let last = frames.len() - 1;
        let (s, r) = frames.last();
        assert(frames[last] == frames.last());
        assert forall|i: int| 0 <= i < rest.len() implies #[trigger] rest[i] == frames[i] by {}
        lemma_watch_timed(start, rest, w, condition);
        let mid = decided(start, rest).state;
        assert(r.buckets@.len() == mid.buckets.len());
        mid.lemma_stepped_parts(s, r, s.t_ms);
        law_a_step_reports_every_edge_once(mid, s, r, s.t_ms);
        assert(timed(frames, condition).drop_last() =~= timed(rest, condition));
        assert(timed(frames, condition).last() == (condition, s.t_ms));
        assert(shows(start, frames[last].0, w) == condition);
    } else {
        assert(timed(frames, condition) =~= Seq::empty());
    }
}

/// A session in which nobody shows up is reported as such once that has lasted
/// for its hold, and not before.
pub proof fn law_nobody_at_all_is_reported(start: FusionState, frames: Seq<(Signals, Reading)>)
    requires
        coherent(start),
        start.presence == Presence::NeverSeen,
        !start.never_seen.fired,
        start.never_seen.true_since is None,
        frames.len() > 0,
        forall|i: int| 0 <= i < frames.len() ==> (#[trigger] frames[i]).1.buckets@.len() == start.buckets.len(),
        forall|i: int| 0 <= i < frames.len() ==> (#[trigger] frames[i]).0.faces@.len() == 0,
    ensures
        decided(start, frames).state.open.contains_key((ViolationKind::NeverSeen, None)) <==> (
        start.never_seen.hold_ms == 0 || exists|i: int|
            0 <= i < frames.len() && (#[trigger] frames[i]).0.t_ms >= frames[0].0.t_ms + start.never_seen.hold_ms),
{
    lemma_watch_timed(start, frames, Watch::NeverSeen, true);
    lemma_timed_reports(start.never_seen, frames);
    let end = decided(start, frames).state;
    assert(latched(end, (ViolationKind::NeverSeen, None)) == end.never_seen.fired);
}

/// Someone who was there and leaves is reported once they have been gone for the
/// hold, and not before.
pub proof fn law_leaving_is_reported(start: FusionState, frames: Seq<(Signals, Reading)>)
    requires
        coherent(start),
        start.presence != Presence::NeverSeen,
        !start.no_face.fired,
        start.no_face.true_since is None,
        frames.len() > 0,
        forall|i: int| 0 <= i < frames.len() ==> (#[trigger] frames[i]).1.buckets@.len() == start.buckets.len(),
        forall|i: int| 0 <= i < frames.len() ==> (#[trigger] frames[i]).0.faces@.len() == 0,
    ensures
        decided(start, frames).state.open.contains_key((ViolationKind::NoFace, None)) <==> (start.no_face.hold_ms == 0
            || exists|i: int|
            0 <= i < frames.len() && (#[trigger] frames[i]).0.t_ms >= frames[0].0.t_ms + start.no_face.hold_ms),
{
    lemma_watch_timed(start, frames, Watch::NoFace, true);
    lemma_timed_reports(start.no_face, frames);
    let end = decided(start, frames).state;
    assert(latched(end, (ViolationKind::NoFace, None)) == end.no_face.fired);
}

/// Someone who is back is no longer reported once they have been for the clear
/// hold, and is until then.
pub proof fn law_coming_back_ends_it(start: FusionState, frames: Seq<(Signals, Reading)>)
    requires
        coherent(start),
        start.no_face.fired,
        start.no_face.false_since is None,
        frames.len() > 0,
        forall|i: int| 0 <= i < frames.len() ==> (#[trigger] frames[i]).1.buckets@.len() == start.buckets.len(),
        forall|i: int| 0 <= i < frames.len() ==> (#[trigger] frames[i]).0.faces@.len() > 0,
    ensures
        !decided(start, frames).state.open.contains_key((ViolationKind::NoFace, None)) <==> (start.no_face.clear_ms
            == 0 || exists|i: int|
            0 <= i < frames.len() && (#[trigger] frames[i]).0.t_ms >= frames[0].0.t_ms + start.no_face.clear_ms),
{
    lemma_watch_timed(start, frames, Watch::NoFace, false);
    lemma_timed_ends(start.no_face, frames);
    let end = decided(start, frames).state;
    assert(latched(end, (ViolationKind::NoFace, None)) == end.no_face.fired);
}

/// As many faces as are too many are reported once they have been there for the
/// hold, and not before.
pub proof fn law_too_many_faces_are_reported(start: FusionState, frames: Seq<(Signals, Reading)>)
    requires
        coherent(start),
        !start.multi_face.fired,
        start.multi_face.true_since is None,
        frames.len() > 0,
        forall|i: int| 0 <= i < frames.len() ==> (#[trigger] frames[i]).1.buckets@.len() == start.buckets.len(),
        forall|i: int|
            0 <= i < frames.len() ==> (#[trigger] frames[i]).0.faces@.len() >= start.rules.multi_face_count,
    ensures
        decided(start, frames).state.open.contains_key((ViolationKind::MultipleFaces, None)) <==> (
        start.multi_face.hold_ms == 0 || exists|i: int|
            0 <= i < frames.len() && (#[trigger] frames[i]).0.t_ms >= frames[0].0.t_ms + start.multi_face.hold_ms),
{
    lemma_watch_timed(start, frames, Watch::MultiFace, true);
    lemma_timed_reports(start.multi_face, frames);
    let end = decided(start, frames).state;
    assert(latched(end, (ViolationKind::MultipleFaces, None)) == end.multi_face.fired);
}

/// Fewer faces than are too many end the report once they have been that few for
/// the clear hold, and not before.
pub proof fn law_few_enough_faces_end_it(start: FusionState, frames: Seq<(Signals, Reading)>)
    requires
        coherent(start),
        start.multi_face.fired,
        start.multi_face.false_since is None,
        frames.len() > 0,
        forall|i: int| 0 <= i < frames.len() ==> (#[trigger] frames[i]).1.buckets@.len() == start.buckets.len(),
        forall|i: int| 0 <= i < frames.len() ==> (#[trigger] frames[i]).0.faces@.len() < start.rules.multi_face_count,
    ensures
        !decided(start, frames).state.open.contains_key((ViolationKind::MultipleFaces, None)) <==> (
        start.multi_face.clear_ms == 0 || exists|i: int|
            0 <= i < frames.len() && (#[trigger] frames[i]).0.t_ms >= frames[0].0.t_ms + start.multi_face.clear_ms),
{
    lemma_watch_timed(start, frames, Watch::MultiFace, false);
    lemma_timed_ends(start.multi_face, frames);
    let end = decided(start, frames).state;
    assert(latched(end, (ViolationKind::MultipleFaces, None)) == end.multi_face.fired);
}

/// A pose slot that stays dark, gated or failing or now the one and now the
/// other, is reported once it has been for the hold, and not before.
pub proof fn law_a_dark_pose_slot_is_reported(start: FusionState, frames: Seq<(Signals, Reading)>)
    requires
        coherent(start),
        !start.pose_lost.fired,
        start.pose_lost.true_since is None,
        frames.len() > 0,
        forall|i: int| 0 <= i < frames.len() ==> (#[trigger] frames[i]).1.buckets@.len() == start.buckets.len(),
        forall|i: int|
            0 <= i < frames.len() ==> (#[trigger] frames[i]).0.produced_by.pose is SkippedGated
                || frames[i].0.produced_by.pose is Failed,
    ensures
        ({
            let end = decided(start, frames).state;
            let lasted = start.pose_lost.hold_ms == 0 || exists|i: int|
                0 <= i < frames.len() && (#[trigger] frames[i]).0.t_ms >= frames[0].0.t_ms + start.pose_lost.hold_ms;
            &&& end.pose_lost.fired <==> lasted
            &&& lasted ==> end.open.contains_key(
                (ViolationKind::SignalLost, Some("pose"@ + ": "@ + end.pose_why)),
            )
        }),
{
    lemma_watch_timed(start, frames, Watch::PoseLost, true);
    lemma_timed_reports(start.pose_lost, frames);
    let end = decided(start, frames).state;
    let k: Key = (ViolationKind::SignalLost, Some(lost_subject("pose"@, end.pose_why)));
    assert(end.open.contains_key(k) <==> latched(end, k));
}

/// A gaze slot that stays dark, gated or failing or now the one and now the
/// other, is reported once it has been for the hold, and not before.
pub proof fn law_a_dark_gaze_slot_is_reported(start: FusionState, frames: Seq<(Signals, Reading)>)
    requires
        coherent(start),
        !start.gaze_lost.fired,
        start.gaze_lost.true_since is None,
        frames.len() > 0,
        forall|i: int| 0 <= i < frames.len() ==> (#[trigger] frames[i]).1.buckets@.len() == start.buckets.len(),
        forall|i: int|
            0 <= i < frames.len() ==> (#[trigger] frames[i]).0.produced_by.gaze is SkippedGated
                || frames[i].0.produced_by.gaze is Failed,
    ensures
        ({
            let end = decided(start, frames).state;
            let lasted = start.gaze_lost.hold_ms == 0 || exists|i: int|
                0 <= i < frames.len() && (#[trigger] frames[i]).0.t_ms >= frames[0].0.t_ms + start.gaze_lost.hold_ms;
            &&& end.gaze_lost.fired <==> lasted
            &&& lasted ==> end.open.contains_key(
                (ViolationKind::SignalLost, Some("gaze"@ + ": "@ + end.gaze_why)),
            )
        }),
{
    lemma_watch_timed(start, frames, Watch::GazeLost, true);
    lemma_timed_reports(start.gaze_lost, frames);
    let end = decided(start, frames).state;
    let k: Key = (ViolationKind::SignalLost, Some(lost_subject("gaze"@, end.gaze_why)));
    assert(end.open.contains_key(k) <==> latched(end, k));
}

/// A slot that is no longer dark is not lost any longer once it has been so for
/// the clear hold, and is until then.
pub proof fn law_a_slot_that_is_back_is_not_lost(start: FusionState, frames: Seq<(Signals, Reading)>)
    requires
        coherent(start),
        frames.len() > 0,
        forall|i: int| 0 <= i < frames.len() ==> (#[trigger] frames[i]).1.buckets@.len() == start.buckets.len(),
    ensures
        start.pose_lost.fired && start.pose_lost.false_since is None && (forall|i: int|
            0 <= i < frames.len() ==> !((#[trigger] frames[i]).0.produced_by.pose is SkippedGated)
                && !(frames[i].0.produced_by.pose is Failed)) ==> (!decided(start, frames).state.pose_lost.fired
            <==> start.pose_lost.clear_ms == 0 || exists|i: int|
            0 <= i < frames.len() && (#[trigger] frames[i]).0.t_ms >= frames[0].0.t_ms + start.pose_lost.clear_ms),
        start.gaze_lost.fired && start.gaze_lost.false_since is None && (forall|i: int|
            0 <= i < frames.len() ==> !((#[trigger] frames[i]).0.produced_by.gaze is SkippedGated)
                && !(frames[i].0.produced_by.gaze is Failed)) ==> (!decided(start, frames).state.gaze_lost.fired
            <==> start.gaze_lost.clear_ms == 0 || exists|i: int|
            0 <= i < frames.len() && (#[trigger] frames[i]).0.t_ms >= frames[0].0.t_ms + start.gaze_lost.clear_ms),
{
    if start.pose_lost.fired && start.pose_lost.false_since is None && (forall|i: int|
        0 <= i < frames.len() ==> !((#[trigger] frames[i]).0.produced_by.pose is SkippedGated)
            && !(frames[i].0.produced_by.pose is Failed)) {
        lemma_watch_timed(start, frames, Watch::PoseLost, false);
        lemma_timed_ends(start.pose_lost, frames);
    }
    if start.gaze_lost.fired && start.gaze_lost.false_since is None && (forall|i: int|
        0 <= i < frames.len() ==> !((#[trigger] frames[i]).0.produced_by.gaze is SkippedGated)
            && !(frames[i].0.produced_by.gaze is Failed)) {
        lemma_watch_timed(start, frames, Watch::GazeLost, false);
        lemma_timed_ends(start.gaze_lost, frames);
    }
}

/// A session begins with nothing seen, nothing held and nothing open, and every
/// rule with the thresholds that are its own.
pub proof fn law_a_session_begins_with_its_thresholds(t: Thresholds)
    ensures
        ({
            let st = initial(t);
            &&& st.presence == Presence::NeverSeen
            &&& st.open == Map::<Key, OpenView>::empty()
            &&& st.identity_failures == 0 && !st.identity_active
            &&& st.rules.multi_face_count == t.face.multi_face_count
            &&& st.rules.pitch_offset_deg == t.gaze.pitch_offset_deg
            &&& st.rules.min_score == t.objects.min_score
            &&& st.rules.enter_score == t.objects.enter_score
            &&& st.rules.clear_score == t.objects.clear_score
            &&& st.rules.cosine_enter == t.identity.cosine_enter
            &&& st.rules.cosine_exit == t.identity.cosine_exit
            &&& st.rules.consecutive_failures == t.identity.consecutive_failures
            &&& st.rules.severity.len() == t.fusion.severity@.len()
            &&& forall|i: int|
                0 <= i < t.fusion.severity@.len() ==> #[trigger] st.rules.severity[i] == (
                    t.fusion.severity@[i].kind@,
                    t.fusion.severity@[i].severity,
                )
        }),
        ({
            let st = initial(t);
            let idle = |hold: u64, clear: u64|
                HoldState { hold_ms: hold, clear_ms: clear, fired: false, true_since: None, false_since: None };
            &&& st.no_face == idle(t.face.no_face_hold_ms, t.face.no_face_clear_ms)
            &&& st.never_seen == idle(t.face.never_seen_ms, 0)
            &&& st.multi_face == idle(t.face.multi_face_hold_ms, t.face.multi_face_clear_ms)
            &&& st.head.hold == idle(t.pose.hold_ms, t.pose.clear_ms)
            &&& st.gaze.hold == idle(t.gaze.hold_ms, t.gaze.clear_ms)
            &&& st.pose_lost == idle(t.fusion.signal_lost_ms, t.fusion.signal_lost_clear_ms)
            &&& st.gaze_lost == idle(t.fusion.signal_lost_ms, t.fusion.signal_lost_clear_ms)
        }),
        ({
            let h = initial(t).head;
            &&& h.yaw_gate.enter == t.pose.yaw_enter_deg && h.yaw_gate.exit == t.pose.yaw_exit_deg
            &&& h.pitch_gate.enter == t.pose.pitch_enter_deg && h.pitch_gate.exit == t.pose.pitch_exit_deg
            &&& !h.yaw_gate.active && !h.pitch_gate.active
            &&& h.yaw.alpha == t.pose.ema_alpha && h.pitch.alpha == t.pose.ema_alpha
            &&& h.yaw.value is None && h.pitch.value is None && h.yaw.last_t_ms is None && h.pitch.last_t_ms is None
            &&& h.yaw.reset_after_ms == t.fusion.signal_lost_ms && h.pitch.reset_after_ms == t.fusion.signal_lost_ms
        }),
        ({
            let g = initial(t).gaze;
            &&& g.yaw_gate.enter == t.gaze.yaw_enter_deg && g.yaw_gate.exit == t.gaze.yaw_exit_deg
            &&& g.pitch_gate.enter == t.gaze.pitch_enter_deg && g.pitch_gate.exit == t.gaze.pitch_exit_deg
            &&& !g.yaw_gate.active && !g.pitch_gate.active
            &&& g.yaw.alpha == t.gaze.ema_alpha && g.pitch.alpha == t.gaze.ema_alpha
            &&& g.yaw.value is None && g.pitch.value is None && g.yaw.last_t_ms is None && g.pitch.last_t_ms is None
            &&& g.yaw.reset_after_ms == t.fusion.signal_lost_ms && g.pitch.reset_after_ms == t.fusion.signal_lost_ms
        }),
        initial(t).buckets.len() == t.objects.buckets@.len(),
        forall|i: int|
            0 <= i < t.objects.buckets@.len() ==> {
                let b = #[trigger] initial(t).buckets[i];
                &&& b.name == t.objects.buckets@[i].name@
                &&& b.classes.len() == t.objects.buckets@[i].classes@.len()
                &&& forall|j: int|
                    0 <= j < b.classes.len() ==> #[trigger] b.classes[j] == t.objects.buckets@[i].classes@[j]@
                &&& b.score.half_life_ms == t.objects.score_half_life_ms
                &&& b.score.score == (Number { bits: 0 }) && b.score.last_t_ms is None
                &&& !b.active
            },
{
}

// -- what is reported -------------------------------------------------------------

/// A rising edge opens a violation and reports its start, a falling one closes
/// it and reports its end, and in between only its confidence is kept up to
/// date. Nothing else is touched.
pub proof fn law_an_edge_is_reported_as_it_is(p: Progress, v: VerdictView, t_ms: u64)
    ensures
        ({
            let n = p.judged(v, t_ms);
            let k = (v.kind, v.subject);
            let entry = OpenView {
                t_start_ms: t_ms,
                severity: severity_of(p.state.rules.severity, v.kind),
                confidence: v.confidence,
                contributions: v.contributions,
            };
            &&& n.state == (FusionState { open: n.state.open, ..p.state })
            &&& v.edge == Edge::Rose ==> n.state.open == p.state.open.insert(k, entry) && n.events == p.events.push(
                EventView::ViolationStarted(
                    ViolationView {
                        kind: v.kind,
                        severity: entry.severity,
                        confidence: v.confidence,
                        t_start_ms: t_ms,
                        t_end_ms: None,
                        subject: v.subject,
                        evidence: None,
                        contributing: v.contributions,
                    },
                ),
            )
            &&& v.edge == Edge::Fell && p.state.open.contains_key(k) ==> n.state.open == p.state.open.remove(k)
                && n.events == p.events.push(
                EventView::ViolationEnded(
                    ViolationView {
                        kind: v.kind,
                        severity: p.state.open[k].severity,
                        confidence: p.state.open[k].confidence,
                        t_start_ms: p.state.open[k].t_start_ms,
                        t_end_ms: Some(t_ms),
                        subject: v.subject,
                        evidence: None,
                        contributing: p.state.open[k].contributions,
                    },
                ),
            )
            &&& v.edge == Edge::Steady && p.state.open.contains_key(k) ==> n.events == p.events && n.state.open
                == p.state.open.insert(k, OpenView { confidence: v.confidence, ..p.state.open[k] })
            &&& v.edge != Edge::Rose && !p.state.open.contains_key(k) ==> n == p
        }),
{
}

/// The end of a violation says all that is known of it: when it started and when
/// it ended, how serious it is, what it is about and what argued for it.
pub proof fn law_an_end_completes_its_start(key: Key, open: OpenView, t_ms: u64)
    ensures
        started(key, open) == (ViolationView {
            kind: key.0,
            severity: open.severity,
            confidence: open.confidence,
            t_start_ms: open.t_start_ms,
            t_end_ms: None,
            subject: key.1,
            evidence: None,
            contributing: open.contributions,
        }),
        finished(key, open, t_ms) == (ViolationView { t_end_ms: Some(t_ms), ..started(key, open) }),
{
}

/// Which turn the rule behind a kind of violation has within a frame.
pub open spec fn turn(kind: ViolationKind) -> int {
    match kind {
        ViolationKind::NeverSeen => 0,
        ViolationKind::NoFace => 1,
        ViolationKind::MultipleFaces => 2,
        ViolationKind::HeadTurnedAway => 3,
        ViolationKind::GazeOffScreen => 4,
        ViolationKind::ProhibitedObject => 5,
        ViolationKind::SignalLost => 6,
        ViolationKind::IdentityMismatch => 7,
    }
}

/// What an event about a violation is about; nothing for any other event.
pub open spec fn event_kind(e: EventView) -> Option<ViolationKind> {
    match e {
        EventView::ViolationStarted(v) => Some(v.kind),
        EventView::ViolationEnded(v) => Some(v.kind),
        _ => None,
    }
}

spec fn single(signal: SignalSource, weight: Number, detail: Seq<char>) -> Seq<ContributionView> {
    seq![ContributionView { signal, weight, detail }]
}

/// Whether a start says what the frame gives it to say.
spec fn tells(st: FusionState, s: Signals, r: Reading, t_ms: u64, v: ViolationView) -> bool {
    &&& v.severity == severity_of(st.rules.severity, v.kind)
    &&& v.t_start_ms == t_ms && v.t_end_ms is None && v.evidence is None
    &&& match v.kind {
        ViolationKind::NeverSeen => v.subject is None && v.confidence == Number::one() && v.contributing == single(
            SignalSource::Face,
            Number::one(),
            "no face has ever been detected, "@ + decimal((t_ms / 1000) as nat) + "s in"@,
        ),
        ViolationKind::NoFace => v.subject is None && v.confidence == Number::one() && v.contributing == single(
            SignalSource::Face,
            Number::one(),
            "no face in frame"@,
        ),
        ViolationKind::MultipleFaces => v.subject is None && v.confidence == Number::one() && v.contributing == single(
            SignalSource::Face,
            Number::one(),
            decimal(s.faces@.len()) + " faces in frame"@,
        ),
        ViolationKind::HeadTurnedAway => v.subject is None && v.confidence == st.head.confidence(r.head)
            && v.contributing == st.head.arguments(
            r.head,
            SignalSource::Pose,
            "head yaw "@,
            "head pitch "@,
            " deg"@,
        ),
        ViolationKind::GazeOffScreen => v.subject is None && v.confidence == st.gaze.confidence(r.gaze)
            && v.contributing == st.gaze.arguments(
            r.gaze,
            SignalSource::Gaze,
            "gaze yaw "@,
            "gaze pitch "@,
            " deg after offset"@,
        ),
        ViolationKind::ProhibitedObject => exists|i: int|
            0 <= i < st.buckets.len() && v.subject == Some((#[trigger] st.buckets[i]).name) && v.confidence
                == r.buckets@[i].confidence && v.contributing == single(
                SignalSource::Objects,
                Number::max_spec(r.buckets@[i].confidence, Number { bits: MIN_OBJECT_WEIGHT }),
                st.buckets[i].name + " accumulated evidence "@ + r.buckets@[i].text@,
            ),
        ViolationKind::SignalLost => v.confidence == Number::one() && {
            ||| v.subject == Some("pose"@ + ": "@ + pose_loss(s)) && v.contributing == single(
                SignalSource::Pose,
                Number::one(),
                "pose"@ + ": "@ + pose_loss(s),
            )
            ||| v.subject == Some("gaze"@ + ": "@ + gaze_loss(s)) && v.contributing == single(
                SignalSource::Gaze,
                Number::one(),
                "gaze"@ + ": "@ + gaze_loss(s),
            )
        },
        ViolationKind::IdentityMismatch => r.identity matches Some(c) && v.subject is None && v.confidence
            == Number::one() && v.contributing == single(
            SignalSource::Identity,
            Number::one(),
            "cosine "@ + c.score_text@ + " below "@ + c.bar_text@ + " on "@ + decimal(
                st.failures_after(c.score) as nat,
            ) + " consecutive checks"@,
        ),
    }
}

/// Whether events are about violations only, in turn and up to the one given,
/// and what starts says what it should.
spec fn told(st: FusionState, s: Signals, r: Reading, t_ms: u64, events: Seq<EventView>, limit: int) -> bool {
    &&& forall|i: int|
        0 <= i < events.len() ==> event_kind(#[trigger] events[i]) is Some && turn(event_kind(events[i])->0) <= limit
    &&& forall|i: int, j: int|
        0 <= i < j < events.len() ==> turn(event_kind(#[trigger] events[i])->0) <= turn(
            event_kind(#[trigger] events[j])->0,
        )
    &&& forall|i: int|
        0 <= i < events.len() ==> (#[trigger] events[i] matches EventView::ViolationStarted(v) ==> tells(
            st,
            s,
            r,
            t_ms,
            v,
        ))
}

proof fn lemma_told(
    st: FusionState,
    s: Signals,
    r: Reading,
    t_ms: u64,
    p: Progress,
    v: VerdictView,
    limit: int,
)
    requires
        told(st, s, r, t_ms, p.events, limit),
        limit <= turn(v.kind),
        p.state.rules == st.rules,
        v.edge is Rose ==> tells(
            st,
            s,
            r,
            t_ms,
            started(v.key(), v.opening(severity_of(st.rules.severity, v.kind), t_ms)),
        ),
    ensures
        told(st, s, r, t_ms, p.judged(v, t_ms).events, turn(v.kind)),
{
    let n = p.judged(v, t_ms).events;
    assert forall|i: int| 0 <= i < n.len() implies event_kind(#[trigger] n[i]) is Some && turn(event_kind(n[i])->0)
        <= turn(v.kind) by {
        if i < p.events.len() {
            assert(n[i] == p.events[i]);
        }
    }
    assert forall|i: int, j: int| 0 <= i < j < n.len() implies turn(event_kind(#[trigger] n[i])->0) <= turn(
        event_kind(#[trigger] n[j])->0,
    ) by {
        assert(n[i] == p.events[i]);
        if j < p.events.len() {
            assert(n[j] == p.events[j]);
        }
    }
    assert forall|i: int| 0 <= i < n.len() implies (#[trigger] n[i] matches EventView::ViolationStarted(w) ==> tells(
        st,
        s,
        r,
        t_ms,
        w,
    )) by {
        if i < p.events.len() {
            assert(n[i] == p.events[i]);
        }
    }
}

proof fn lemma_told_faces(st: FusionState, s: Signals, r: Reading, t_ms: u64)
    ensures
        told(st, s, r, t_ms, st.beginning().after_face(s.faces@.len(), t_ms).events, 2),
{
    reveal(Progress::after_face);
    let count = s.faces@.len();
    let p0 = Progress {
        state: FusionState { presence: st.presence.seeing(count > 0), ..st },
        events: Seq::empty(),
    };
    assert(told(st, s, r, t_ms, p0.events, 0));
    let q0 = Progress {
        state: FusionState { never_seen: p0.state.never_seen.advanced(p0.state.presence is NeverSeen, t_ms), ..p0.state },
        ..p0
    };
    let v0 = super::model::never_seen_verdict(p0.state.never_seen.edge(p0.state.presence is NeverSeen, t_ms), t_ms);
    assert(v0.contributions =~= single(
        SignalSource::Face,
        Number::one(),
        "no face has ever been detected, "@ + decimal((t_ms / 1000) as nat) + "s in"@,
    ));
    lemma_told(st, s, r, t_ms, q0, v0, 0);
    let p1 = p0.after_never_seen(t_ms);
    let q1 = Progress {
        state: FusionState { no_face: p1.state.no_face.advanced(p1.state.presence is Absent, t_ms), ..p1.state },
        ..p1
    };
    let v1 = super::model::no_face_verdict(p1.state.no_face.edge(p1.state.presence is Absent, t_ms));
    assert(v1.contributions =~= single(SignalSource::Face, Number::one(), "no face in frame"@));
    lemma_told(st, s, r, t_ms, q1, v1, 0);
    let p2 = p1.after_no_face(t_ms);
    let many = count >= p2.state.rules.multi_face_count;
    let q2 = Progress {
        state: FusionState { multi_face: p2.state.multi_face.advanced(many, t_ms), ..p2.state },
        ..p2
    };
    let v2 = super::model::multi_face_verdict(p2.state.multi_face.edge(many, t_ms), count);
    assert(v2.contributions =~= single(SignalSource::Face, Number::one(), decimal(count) + " faces in frame"@));
    lemma_told(st, s, r, t_ms, q2, v2, 1);
}

proof fn lemma_told_angles(st: FusionState, s: Signals, r: Reading, t_ms: u64, p: Progress)
    requires
        told(st, s, r, t_ms, p.events, 2),
        p.state.rules == st.rules,
        p.state.head == st.head,
        p.state.gaze == st.gaze,
    ensures
        told(st, s, r, t_ms, p.after_head(r.head, t_ms).after_gaze(r.gaze, t_ms).events, 4),
{
    reveal(Progress::after_head);
    reveal(Progress::after_gaze);
    let q = Progress { state: FusionState { head: st.head.fed(r.head, t_ms), ..p.state }, ..p };
    let v = VerdictView {
        kind: ViolationKind::HeadTurnedAway,
        subject: None,
        edge: st.head.edge(r.head, t_ms),
        confidence: st.head.confidence(r.head),
        contributions: st.head.arguments(r.head, SignalSource::Pose, "head yaw "@, "head pitch "@, " deg"@),
    };
    lemma_told(st, s, r, t_ms, q, v, 2);
    let p1 = p.after_head(r.head, t_ms);
    let q1 = Progress { state: FusionState { gaze: st.gaze.fed(r.gaze, t_ms), ..p1.state }, ..p1 };
    let v1 = VerdictView {
        kind: ViolationKind::GazeOffScreen,
        subject: None,
        edge: st.gaze.edge(r.gaze, t_ms),
        confidence: st.gaze.confidence(r.gaze),
        contributions: st.gaze.arguments(
            r.gaze,
            SignalSource::Gaze,
            "gaze yaw "@,
            "gaze pitch "@,
            " deg after offset"@,
        ),
    };
    lemma_told(st, s, r, t_ms, q1, v1, 3);
}

proof fn lemma_told_buckets(st: FusionState, s: Signals, r: Reading, t_ms: u64, p: Progress, produced: bool, n: nat)
    requires
        told(st, s, r, t_ms, p.events, 4),
        p.state.rules == st.rules,
        p.state.buckets == st.buckets,
        n <= st.buckets.len(),
        r.buckets@.len() == st.buckets.len(),
    ensures
        told(st, s, r, t_ms, p.after_buckets(produced, r.buckets@, n, t_ms).events, 5),
    decreases n,
{
    if n > 0 {
        let i = n - 1;
        lemma_told_buckets(st, s, r, t_ms, p, produced, i as nat);
        p.lemma_buckets_frame(produced, r.buckets@, i as nat, t_ms);
        let q = p.after_buckets(produced, r.buckets@, i as nat, t_ms);
        reveal(Progress::after_bucket);
        let was = q.state.buckets[i];
        let now = was.weighed(q.state.rules, produced, r.buckets@[i], t_ms);
        let v = super::model::object_verdict(was, now, r.buckets@[i]);
        assert(was == st.buckets[i]);
        assert(v.contributions =~= single(
            SignalSource::Objects,
            Number::max_spec(r.buckets@[i].confidence, Number { bits: MIN_OBJECT_WEIGHT }),
            st.buckets[i].name + " accumulated evidence "@ + r.buckets@[i].text@,
        ));
        let u = Progress { state: FusionState { buckets: q.state.buckets.update(i, now), ..q.state }, ..q };
        lemma_told(st, s, r, t_ms, u, v, 5);
    }
}

proof fn lemma_told_losses(st: FusionState, s: Signals, r: Reading, t_ms: u64, p: Progress)
    requires
        told(st, s, r, t_ms, p.events, 5),
        p.state.rules == st.rules,
    ensures
        told(st, s, r, t_ms, p.after_signal_loss(s, t_ms).events, 6),
{
    reveal(Progress::after_signal_loss);
    let lost = slot_lost(s.produced_by.pose);
    let edge = p.state.pose_lost.edge(lost, t_ms);
    let why = reported_why(edge, pose_loss(s), p.state.pose_why);
    let q = Progress {
        state: FusionState { pose_lost: p.state.pose_lost.advanced(lost, t_ms), pose_why: why, ..p.state },
        ..p
    };
    let v = super::model::lost_verdict("pose"@, SignalSource::Pose, edge, why);
    assert(v.contributions =~= single(SignalSource::Pose, Number::one(), "pose"@ + ": "@ + why));
    lemma_told(st, s, r, t_ms, q, v, 5);
    let p1 = p.after_pose_loss(s, t_ms);
    let lost1 = slot_lost(s.produced_by.gaze);
    let edge1 = p1.state.gaze_lost.edge(lost1, t_ms);
    let why1 = reported_why(edge1, gaze_loss(s), p1.state.gaze_why);
    let q1 = Progress {
        state: FusionState { gaze_lost: p1.state.gaze_lost.advanced(lost1, t_ms), gaze_why: why1, ..p1.state },
        ..p1
    };
    let v1 = super::model::lost_verdict("gaze"@, SignalSource::Gaze, edge1, why1);
    assert(v1.contributions =~= single(SignalSource::Gaze, Number::one(), "gaze"@ + ": "@ + why1));
    lemma_told(st, s, r, t_ms, q1, v1, 6);
}

proof fn lemma_told_step(st: FusionState, s: Signals, r: Reading, t_ms: u64)
    requires
        r.buckets@.len() == st.buckets.len(),
    ensures
        told(st, s, r, t_ms, st.stepped(s, r, t_ms).events, 7),
{
    let produced = s.produced_by.objects is Produced;
    let p0 = st.beginning();
    let p1 = p0.after_face(s.faces@.len(), t_ms);
    let p2 = p1.after_head(r.head, t_ms);
    let p3 = p2.after_gaze(r.gaze, t_ms);
    let p4 = p3.after_buckets(produced, r.buckets@, st.buckets.len(), t_ms);
    let p5 = p4.after_signal_loss(s, t_ms);
    p0.lemma_face_frame(s.faces@.len(), t_ms);
    p1.lemma_head_frame(r.head, t_ms);
    p2.lemma_gaze_frame(r.gaze, t_ms);
    p3.lemma_buckets_frame(produced, r.buckets@, st.buckets.len(), t_ms);
    p4.lemma_signal_loss_frame(s, t_ms);
    lemma_told_faces(st, s, r, t_ms);
    lemma_told_angles(st, s, r, t_ms, p1);
    lemma_told_buckets(st, s, r, t_ms, p3, produced, st.buckets.len());
    lemma_told_losses(st, s, r, t_ms, p4);
    reveal(Progress::after_identity);
    if let Some(c) = r.identity {
        let failures = p5.state.failures_after(c.score);
        let now = p5.state.mismatched_after(c.score);
        let q = Progress {
            state: FusionState { identity_failures: failures as u32, identity_active: now, ..p5.state },
            ..p5
        };
        let v = super::model::identity_verdict(
            c,
            super::temporal::edge_between(p5.state.identity_active, now),
            failures as nat,
        );
        assert(v.contributions =~= single(
            SignalSource::Identity,
            Number::one(),
            "cosine "@ + c.score_text@ + " below "@ + c.bar_text@ + " on "@ + decimal(
                st.failures_after(c.score) as nat,
            ) + " consecutive checks"@,
        ));
        lemma_told(st, s, r, t_ms, q, v, 6);
    }
}

/// A frame reports starts and ends of violations and nothing else, rule by rule
/// in the same order on every frame: faces, head, gaze, objects, slots that went
/// dark, identity.
pub proof fn law_a_frame_reports_in_turn(st: FusionState, s: Signals, r: Reading, t_ms: u64)
    requires
        r.buckets@.len() == st.buckets.len(),
    ensures
        ({
            let events = st.stepped(s, r, t_ms).events;
            &&& forall|i: int|
                0 <= i < events.len() ==> #[trigger] events[i] is ViolationStarted || events[i] is ViolationEnded
            &&& forall|i: int, j: int|
                0 <= i < j < events.len() ==> turn(event_kind(#[trigger] events[i])->0) <= turn(
                    event_kind(#[trigger] events[j])->0,
                )
        }),
{
    lemma_told_step(st, s, r, t_ms);
    let events = st.stepped(s, r, t_ms).events;
    assert forall|i: int| 0 <= i < events.len() implies #[trigger] events[i] is ViolationStarted
        || events[i] is ViolationEnded by {
        assert(event_kind(events[i]) is Some);
    }
}

/// The start of a violation is dated by the frame, as serious as the rules for
/// its kind say, and argued for by what the frame showed.
pub proof fn law_a_start_says_what_was_seen(st: FusionState, s: Signals, r: Reading, t_ms: u64, e: int)
    requires
        r.buckets@.len() == st.buckets.len(),
        0 <= e < st.stepped(s, r, t_ms).events.len(),
        st.stepped(s, r, t_ms).events[e] is ViolationStarted,
    ensures
        ({
            let v = st.stepped(s, r, t_ms).events[e]->ViolationStarted_0;
            &&& v.severity == severity_of(st.rules.severity, v.kind)
            &&& v.t_start_ms == t_ms && v.t_end_ms is None && v.evidence is None
            &&& v.kind is NeverSeen || v.kind is NoFace || v.kind is MultipleFaces || v.kind is SignalLost
                || v.kind is IdentityMismatch ==> v.confidence == Number::one() && v.contributing.len() == 1
                && v.contributing[0].weight == Number::one()
            &&& v.kind is NeverSeen ==> v.subject is None && v.contributing[0].signal is Face
                && v.contributing[0].detail == "no face has ever been detected, "@ + decimal((t_ms / 1000) as nat)
                + "s in"@
            &&& v.kind is NoFace ==> v.subject is None && v.contributing[0].signal is Face && v.contributing[0].detail
                == "no face in frame"@
            &&& v.kind is MultipleFaces ==> v.subject is None && v.contributing[0].signal is Face
                && v.contributing[0].detail == decimal(s.faces@.len()) + " faces in frame"@
            &&& v.kind is HeadTurnedAway ==> v.subject is None && v.confidence == st.head.confidence(r.head)
                && v.contributing == st.head.arguments(
                r.head,
                SignalSource::Pose,
                "head yaw "@,
                "head pitch "@,
                " deg"@,
            )
            &&& v.kind is GazeOffScreen ==> v.subject is None && v.confidence == st.gaze.confidence(r.gaze)
                && v.contributing == st.gaze.arguments(
                r.gaze,
                SignalSource::Gaze,
                "gaze yaw "@,
                "gaze pitch "@,
                " deg after offset"@,
            )
            &&& v.kind is ProhibitedObject ==> exists|i: int|
                0 <= i < st.buckets.len() && v.subject == Some((#[trigger] st.buckets[i]).name) && v.confidence
                    == r.buckets@[i].confidence && v.contributing.len() == 1 && v.contributing[0].signal is Objects
                    && v.contributing[0].weight == Number::max_spec(
                    r.buckets@[i].confidence,
                    Number { bits: 0x3f84_7ae1_4000_0000 },
                ) && v.contributing[0].detail == st.buckets[i].name + " accumulated evidence "@ + r.buckets@[i].text@
            &&& v.kind is SignalLost ==> v.subject == Some(v.contributing[0].detail) && {
                ||| v.contributing[0].signal is Pose && v.contributing[0].detail == "pose"@ + ": "@ + pose_loss(s)
                ||| v.contributing[0].signal is Gaze && v.contributing[0].detail == "gaze"@ + ": "@ + gaze_loss(s)
            }
            &&& v.kind is IdentityMismatch ==> r.identity is Some && v.subject is None
                && v.contributing[0].signal is Identity && v.contributing[0].detail == "cosine "@
                + r.identity->0.score_text@ + " below "@ + r.identity->0.bar_text@ + " on "@ + decimal(
                st.failures_after(r.identity->0.score) as nat,
            ) + " consecutive checks"@
        }),
{
    lemma_told_step(st, s, r, t_ms);
}

// -- recordings -------------------------------------------------------------------

/// A replay takes every frame in turn, at the time the frame says, and closes at
/// the time of the last one what is still open.
pub proof fn law_a_replay_takes_every_frame<A: Arithmetic>(
    math: &A,
    t: Thresholds,
    signals: Seq<Signals>,
    s: Signals,
    events: Seq<EventView>,
)
    requires
        replays_to(math, t, signals.push(s), events),
    ensures
        exists|mid: FusionState, before: Seq<EventView>, end: FusionState, last: Seq<EventView>|
            #![trigger runs_to(math, initial(t), signals, mid, before), mid.steps_to(math, s, s.t_ms, end, last)]
            runs_to(math, initial(t), signals, mid, before) && mid.steps_to(math, s, s.t_ms, end, last) && events
                == before + last + end.endings(s.t_ms),
{
    let all = signals.push(s);
    let (end, reported) = choose|end: FusionState, reported: Seq<EventView>|
        #[trigger] runs_to(math, initial(t), all, end, reported) && events == reported + end.endings(last_time(all));
    assert(all.drop_last() =~= signals);
    assert(all.last() == s);
    let (mid, before, last) = choose|mid: FusionState, before: Seq<EventView>, last: Seq<EventView>|
        #![trigger mid.steps_to(math, s, s.t_ms, end, last), before.add(last)]
        runs_to(math, initial(t), signals, mid, before) && mid.steps_to(math, s, s.t_ms, end, last) && reported
            == before.add(last);
    assert(events =~= before + last + end.endings(s.t_ms));
    assert(runs_to(math, initial(t), signals, mid, before) && mid.steps_to(math, s, s.t_ms, end, last));
}

/// Closing a session ends what is still open and nothing else, each violation as
/// it stands and at that time.
pub proof fn law_closing_a_session_ends_the_rest(st: FusionState, t_ms: u64, i: int)
    requires
        st.open.dom().finite(),
        0 <= i < st.endings(t_ms).len(),
    ensures
        st.endings(t_ms)[i] is ViolationEnded,
        ({
            let v = st.endings(t_ms)[i]->ViolationEnded_0;
            let k = (v.kind, v.subject);
            &&& st.open.contains_key(k)
            &&& v == finished(k, st.open[k], t_ms)
            &&& v.t_end_ms == Some(t_ms)
        }),
        st.closed_out() == (FusionState { open: Map::empty(), ..st }),
{
    let keys = in_order(st.open.dom());
    lemma_finite_lists(st.open.dom());
    assert(keys.contains(keys[i]));
    assert(st.open.dom().contains(keys[i]));
}

// -- evidence and checks ----------------------------------------------------------

/// A detection is evidence for the bucket that lists its label, whichever place
/// the bucket has: on a frame that was looked at, the bucket gathers at least as
/// much as the detection scores, unless that is below the floor.
pub proof fn law_a_listed_label_is_evidence<A: Arithmetic>(
    math: &A,
    st: FusionState,
    s: Signals,
    t_ms: u64,
    r: Reading,
    i: int,
    j: int,
) -> (gathered: Number)
    requires
        st.measures(math, s, t_ms, r),
        s.produced_by.objects is Produced,
        0 <= i < st.buckets.len(),
        0 <= j < s.objects@.len(),
        st.buckets[i].classes.contains(s.objects@[j].label@),
        forall|k: int| i < k < st.buckets.len() ==> !(#[trigger] st.buckets[k]).classes.contains(s.objects@[j].label@),
        !Number::lt(s.objects@[j].score, st.rules.min_score),
    ensures
        !Number::lt(gathered, s.objects@[j].score),
        gathered == (Number { bits: 0 }) || exists|k: int|
            0 <= k < s.objects@.len() && (#[trigger] s.objects@[k]).score == gathered
                && st.buckets[i].classes.contains(s.objects@[k].label@),
        st.buckets[i].score.gathers(math, gathered, t_ms, r.buckets@[i].score),
{
    let label = s.objects@[j].label@;
    let floor = st.rules.min_score;
    law_a_label_belongs_where_it_is_listed(st.buckets, label);
    assert(bucket_of(st.buckets, label) == Some(i)) by {
        let b = bucket_of(st.buckets, label)->0;
        if b < i {
            assert(!st.buckets[i].classes.contains(label));
        }
        if b > i {
            assert(!st.buckets[b].classes.contains(label));
        }
    }
    law_a_bucket_gathers_its_best_detection(st.buckets, s.objects@, floor, i);
    assert(bucket_of(st.buckets, s.objects@[j].label@) == Some(i));
    assert(st.measures_bucket(math, s, t_ms, i, r.buckets@[i]));
    let v = best_of(st.buckets, s.objects@, floor, i)->0;
    if v != (Number { bits: 0 }) {
        let k = choose|k: int|
            0 <= k < s.objects@.len() && bucket_of(st.buckets, (#[trigger] s.objects@[k]).label@) == Some(i)
                && !Number::lt(s.objects@[k].score, floor) && s.objects@[k].score == v;
        law_a_label_belongs_where_it_is_listed(st.buckets, s.objects@[k].label@);
        assert(s.objects@[k].score == v);
    }
    v
}

/// A label that no bucket lists is evidence of nothing: a bucket that lists none
/// of the labels on a frame gathers nothing on it.
pub proof fn law_an_unlisted_label_is_no_evidence<A: Arithmetic>(
    math: &A,
    st: FusionState,
    s: Signals,
    t_ms: u64,
    r: Reading,
    i: int,
)
    requires
        st.measures(math, s, t_ms, r),
        s.produced_by.objects is Produced,
        0 <= i < st.buckets.len(),
        forall|j: int| 0 <= j < s.objects@.len() ==> !st.buckets[i].classes.contains((#[trigger] s.objects@[j]).label@),
    ensures
        st.buckets[i].score.decays_to(math, t_ms, r.buckets@[i].score),
{
    let floor = st.rules.min_score;
    law_a_bucket_gathers_its_best_detection(st.buckets, s.objects@, floor, i);
    assert(st.measures_bucket(math, s, t_ms, i, r.buckets@[i]));
    if best_of(st.buckets, s.objects@, floor, i) is Some {
        let j = choose|j: int|
            0 <= j < s.objects@.len() && bucket_of(st.buckets, (#[trigger] s.objects@[j]).label@) == Some(i)
                && !Number::lt(s.objects@[j].score, floor);
        law_a_label_belongs_where_it_is_listed(st.buckets, s.objects@[j].label@);
    }
}

/// A check below the lower bar lengthens the row of failures by one, one at or
/// above the higher bar ends it, and one in between leaves it. An accusation
/// takes a row as long as is asked for, and stands while there is a row at all.
pub proof fn law_a_check_counts_by_its_bars(st: FusionState, score: Number)
    ensures
        Number::lt(score, st.rules.cosine_enter) ==> st.failures_after(score) == st.identity_failures + 1,
        !Number::lt(score, st.rules.cosine_enter) && Number::le(st.rules.cosine_exit, score) ==> st.failures_after(
            score,
        ) == 0,
        !Number::lt(score, st.rules.cosine_enter) && !Number::le(st.rules.cosine_exit, score) ==> st.failures_after(
            score,
        ) == st.identity_failures,
        st.identity_active ==> (st.mismatched_after(score) <==> st.failures_after(score) > 0),
        !st.identity_active ==> (st.mismatched_after(score) <==> st.failures_after(score)
            >= st.rules.consecutive_failures),
{
}

} // verus!
