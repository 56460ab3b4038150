//! What is reported when someone, or something, cannot be seen.

use vstd::prelude::*;

use crate::config::{buckets_view, named_in_order, Thresholds};
use crate::number::Arithmetic;
use crate::types::{EventView, Signals, ViolationKind};
use super::laws::{
    coherent, describes, latched, law_a_session_starts_coherent, law_a_step_reports_every_edge_once,
    lemma_run_accounts, lemma_slots_apart, tally, weight,
};
use super::ledger::Key;
use super::model::{finished, initial, lost_subject, runs_to, slot_lost, FusionState, Progress, Reading};
use super::temporal::{elapsed, holds_through, law_short_runs_are_absorbed, only_short_runs, timer_after};

verus! {

// -- who was seen ---------------------------------------------------------------

/// Whether any frame of a recording has a face in it.
pub open spec fn anyone_seen(signals: Seq<Signals>) -> bool {
    exists|i: int| 0 <= i < signals.len() && (#[trigger] signals[i]).faces@.len() > 0
}

proof fn lemma_presence<A: Arithmetic>(
    math: &A,
    t: Thresholds,
    signals: Seq<Signals>,
    end: FusionState,
    events: Seq<EventView>,
)
    requires
        runs_to(math, initial(t), signals, end, events),
    ensures
        end.presence is NeverSeen <==> !anyone_seen(signals),
    decreases signals.len(),
{
    if signals.len() > 0 {
        let s = signals.last();
        let rest = signals.drop_last();
        let (mid, before, last) = choose|mid: FusionState, before: Seq<EventView>, last: Seq<EventView>|
            #![trigger mid.steps_to(math, s, s.t_ms, end, last), before.add(last)]
            runs_to(math, initial(t), rest, mid, before) && mid.steps_to(math, s, s.t_ms, end, last) && events
                == before.add(last);
        lemma_presence(math, t, rest, mid, before);
        let r = choose|r: Reading|
            #[trigger] mid.measures(math, s, s.t_ms, r) && mid.stepped(s, r, s.t_ms) == (Progress {
                state: end,
                events: last,
            });
        mid.lemma_stepped_parts(s, r, s.t_ms);
        lemma_seen_push(rest, s);
        assert(rest.push(s) =~= signals);
    }
}

proof fn lemma_seen_push(signals: Seq<Signals>, s: Signals)
    ensures
        anyone_seen(signals.push(s)) <==> anyone_seen(signals) || s.faces@.len() > 0,
{
    let all = signals.push(s);
    if anyone_seen(signals) {
        let i = choose|i: int| 0 <= i < signals.len() && (#[trigger] signals[i]).faces@.len() > 0;
        assert(all[i].faces@.len() > 0);
    }
    if s.faces@.len() > 0 {
        assert(all[signals.len() as int].faces@.len() > 0);
    }
    if anyone_seen(all) && s.faces@.len() == 0 {
        let i = choose|i: int| 0 <= i < all.len() && (#[trigger] all[i]).faces@.len() > 0;
        assert(signals[i].faces@.len() > 0);
    }
}

proof fn lemma_tally_witness(events: Seq<EventView>, k: Key)
    requires
        tally(events, k) > 0,
    ensures
        exists|i: int| 0 <= i < events.len() && weight(#[trigger] events[i], k) != 0,
    decreases events.len(),
{
    if weight(events.last(), k) != 0 {
        assert(weight(events[events.len() - 1], k) != 0);
    } else {
        lemma_tally_witness(events.drop_last(), k);
        let i = choose|i: int|
            0 <= i < events.drop_last().len() && weight(#[trigger] events.drop_last()[i], k) != 0;
        assert(weight(events[i], k) != 0);
    }
}

/// Nobody having ever appeared and somebody having left are told apart. The
/// first is reported only while no frame so far, this one included, has a face
/// in it; the second only on a frame without a face after one with a face. They
/// are never open together. The first ends on the very first frame with a face,
/// and is over for good from then on.
pub proof fn law_absences_are_told_apart<A: Arithmetic>(
    math: &A,
    t: Thresholds,
    signals: Seq<Signals>,
    st: FusionState,
    before: Seq<EventView>,
    s: Signals,
    t_ms: u64,
    next: FusionState,
    events: Seq<EventView>,
)
    requires
        named_in_order(buckets_view(t.objects.buckets@)),
        runs_to(math, initial(t), signals, st, before),
        st.steps_to(math, s, t_ms, next, events),
    ensures
        forall|i: int|
            0 <= i < events.len() ==> match #[trigger] events[i] {
                EventView::ViolationStarted(v) => {
                    &&& v.kind == ViolationKind::NeverSeen ==> !anyone_seen(signals.push(s))
                    &&& v.kind == ViolationKind::NoFace ==> s.faces@.len() == 0 && anyone_seen(signals)
                },
                _ => true,
            },
        !(next.open.contains_key((ViolationKind::NeverSeen, None)) && next.open.contains_key(
            (ViolationKind::NoFace, None),
        )),
        anyone_seen(signals.push(s)) ==> !next.open.contains_key((ViolationKind::NeverSeen, None)),
        st.open.contains_key((ViolationKind::NeverSeen, None)) && s.faces@.len() > 0 ==> events.contains(
            EventView::ViolationEnded(
                finished(
                    (ViolationKind::NeverSeen, None),
                    st.open[(ViolationKind::NeverSeen, None)],
                    t_ms,
                ),
            ),
        ),
{
    let never: Key = (ViolationKind::NeverSeen, None);
    let left: Key = (ViolationKind::NoFace, None);
    law_a_session_starts_coherent(t);
    lemma_run_accounts(math, initial(t), signals, st, before);
    lemma_presence(math, t, signals, st, before);
    lemma_seen_push(signals, s);
    let r = choose|r: Reading|
        #[trigger] st.measures(math, s, t_ms, r) && st.stepped(s, r, t_ms) == (Progress { state: next, events });
    st.lemma_stepped_parts(s, r, t_ms);
    law_a_step_reports_every_edge_once(st, s, r, t_ms);
    assert(latched(next, never) == next.never_seen.fired);
    assert(latched(next, left) == next.no_face.fired);
    assert(latched(st, left) == st.no_face.fired);
    assert forall|i: int| 0 <= i < events.len() implies match #[trigger] events[i] {
        EventView::ViolationStarted(v) => {
            &&& v.kind == ViolationKind::NeverSeen ==> !anyone_seen(signals.push(s))
            &&& v.kind == ViolationKind::NoFace ==> s.faces@.len() == 0 && anyone_seen(signals)
        },
        _ => true,
    } by {
        assert(describes(st.open, events[i], next.open, t_ms));
        if let EventView::ViolationStarted(v) = events[i] {
            let k: Key = (v.kind, v.subject);
            assert(next.open.contains_key(k) && !st.open.contains_key(k));
            assert(latched(next, k) && !latched(st, k));
        }
    }
    if st.open.contains_key(never) && s.faces@.len() > 0 {
        assert(!next.open.contains_key(never));
        assert(tally(events, never) == 1);
        lemma_tally_witness(events, never);
        let i = choose|i: int| 0 <= i < events.len() && weight(#[trigger] events[i], never) != 0;
        assert(describes(st.open, events[i], next.open, t_ms));
        assert(events[i] == EventView::ViolationEnded(finished(never, st.open[never], t_ms)));
    }
}

// -- signals that are lost --------------------------------------------------------

/// Whether an event reports that a slot has gone dark.
pub open spec fn reports_loss(e: EventView, slot: Seq<char>) -> bool {
    match e {
        EventView::ViolationStarted(v) => v.kind == ViolationKind::SignalLost && exists|why: Seq<char>|
            v.subject == Some(#[trigger] lost_subject(slot, why)),
        _ => false,
    }
}

/// A slot is reported dark at most once at a time: while it is, it goes by the
/// reason it was first reported with.
pub proof fn law_a_lost_slot_is_open_once(st: FusionState, slot: Seq<char>, a: Seq<char>, b: Seq<char>)
    requires
        coherent(st),
        slot == "pose"@ || slot == "gaze"@,
        st.open.contains_key((ViolationKind::SignalLost, Some(lost_subject(slot, a)))),
        st.open.contains_key((ViolationKind::SignalLost, Some(lost_subject(slot, b)))),
    ensures
        lost_subject(slot, a) == lost_subject(slot, b),
{
    assert(latched(st, (ViolationKind::SignalLost, Some(lost_subject(slot, a)))));
    assert(latched(st, (ViolationKind::SignalLost, Some(lost_subject(slot, b)))));
    lemma_slots_apart(a, st.gaze_why);
    lemma_slots_apart(b, st.gaze_why);
    lemma_slots_apart(st.pose_why, a);
    lemma_slots_apart(st.pose_why, b);
}

/// Only a step on which a slot's timer rises reports the slot as dark.
proof fn lemma_loss_needs_a_rise<A: Arithmetic>(
    math: &A,
    st: FusionState,
    s: Signals,
    t_ms: u64,
    next: FusionState,
    events: Seq<EventView>,
    i: int,
)
    requires
        coherent(st),
        st.steps_to(math, s, t_ms, next, events),
        0 <= i < events.len(),
    ensures
        reports_loss(events[i], "pose"@) ==> slot_lost(s.produced_by.pose) && !st.pose_lost.fired
            && next.pose_lost.fired,
        reports_loss(events[i], "gaze"@) ==> slot_lost(s.produced_by.gaze) && !st.gaze_lost.fired
            && next.gaze_lost.fired,
        next.pose_lost == st.pose_lost.advanced(slot_lost(s.produced_by.pose), t_ms),
        next.gaze_lost == st.gaze_lost.advanced(slot_lost(s.produced_by.gaze), t_ms),
{
    let r = choose|r: Reading|
        #[trigger] st.measures(math, s, t_ms, r) && st.stepped(s, r, t_ms) == (Progress { state: next, events });
    st.lemma_stepped_parts(s, r, t_ms);
    law_a_step_reports_every_edge_once(st, s, r, t_ms);
    assert(describes(st.open, events[i], next.open, t_ms));
    if let EventView::ViolationStarted(v) = events[i] {
        let k: Key = (v.kind, v.subject);
        assert(next.open.contains_key(k) && !st.open.contains_key(k));
        assert(latched(next, k) && !latched(st, k));
        if reports_loss(events[i], "pose"@) {
            let why = choose|why: Seq<char>| v.subject == Some(#[trigger] lost_subject("pose"@, why));
            lemma_slots_apart(why, next.gaze_why);
        }
        if reports_loss(events[i], "gaze"@) {
            let why = choose|why: Seq<char>| v.subject == Some(#[trigger] lost_subject("gaze"@, why));
            lemma_slots_apart(next.pose_why, why);
        }
    }
}

/// Only a slot that could have run and did not counts as lost: one that runs,
/// that waits for its turn or that has no model is never reported dark, however
/// long the recording.
pub proof fn law_only_dark_slots_are_lost<A: Arithmetic>(
    math: &A,
    start: FusionState,
    signals: Seq<Signals>,
    end: FusionState,
    events: Seq<EventView>,
)
    requires
        coherent(start),
        runs_to(math, start, signals, end, events),
    ensures
        (forall|i: int| 0 <= i < signals.len() ==> !slot_lost((#[trigger] signals[i]).produced_by.pose)) ==> forall|
            j: int,
        |
            0 <= j < events.len() ==> !reports_loss(#[trigger] events[j], "pose"@),
        (forall|i: int| 0 <= i < signals.len() ==> !slot_lost((#[trigger] signals[i]).produced_by.gaze)) ==> forall|
            j: int,
        |
            0 <= j < events.len() ==> !reports_loss(#[trigger] events[j], "gaze"@),
    decreases signals.len(),
{
    if signals.len() > 0 {
        let s = signals.last();
        let rest = signals.drop_last();
        let (mid, before, last) = choose|mid: FusionState, before: Seq<EventView>, last: Seq<EventView>|
            #![trigger mid.steps_to(math, s, s.t_ms, end, last), before.add(last)]
            runs_to(math, start, rest, mid, before) && mid.steps_to(math, s, s.t_ms, end, last) && events
                == before.add(last);
        law_only_dark_slots_are_lost(math, start, rest, mid, before);
        lemma_run_accounts(math, start, rest, mid, before);
        assert(events == before + last);
        assert(signals[signals.len() - 1] == s);
        assert forall|i: int| 0 <= i < rest.len() implies #[trigger] rest[i] == signals[i] by {}
        assert forall|j: int| 0 <= j < last.len() implies (reports_loss(#[trigger] last[j], "pose"@) ==> slot_lost(
            s.produced_by.pose,
        )) && (reports_loss(last[j], "gaze"@) ==> slot_lost(s.produced_by.gaze)) by {
            lemma_loss_needs_a_rise(math, mid, s, s.t_ms, end, last, j);
        }
        if forall|i: int| 0 <= i < signals.len() ==> !slot_lost((#[trigger] signals[i]).produced_by.pose) {
            assert forall|j: int| 0 <= j < events.len() implies !reports_loss(#[trigger] events[j], "pose"@) by {
                if j >= before.len() {
                    assert(events[j] == last[j - before.len()]);
                } else {
                    assert(events[j] == before[j]);
                }
            }
        }
        if forall|i: int| 0 <= i < signals.len() ==> !slot_lost((#[trigger] signals[i]).produced_by.gaze) {
            assert forall|j: int| 0 <= j < events.len() implies !reports_loss(#[trigger] events[j], "gaze"@) by {
                if j >= before.len() {
                    assert(events[j] == last[j - before.len()]);
                } else {
                    assert(events[j] == before[j]);
                }
            }
        }
    }
}

/// When the pose slot was dark, frame by frame.
pub open spec fn pose_darkness(signals: Seq<Signals>) -> Seq<(bool, u64)> {
    signals.map_values(|s: Signals| (slot_lost(s.produced_by.pose), s.t_ms))
}

/// When the gaze slot was dark, frame by frame.
pub open spec fn gaze_darkness(signals: Seq<Signals>) -> Seq<(bool, u64)> {
    signals.map_values(|s: Signals| (slot_lost(s.produced_by.gaze), s.t_ms))
}

proof fn lemma_short_runs_before(steps: Seq<(bool, u64)>, hold_ms: u64)
    requires
        only_short_runs(steps, hold_ms),
        steps.len() > 0,
    ensures
        only_short_runs(steps.drop_last(), hold_ms),
{
    let before = steps.drop_last();
    assert forall|i: int, j: int|
        0 <= i <= j < before.len() && #[trigger] holds_through(before, i, j) implies elapsed(
        before[i].1,
        before[j].1,
    ) < hold_ms by {
        assert(holds_through(steps, i, j)) by {
            assert forall|k: int| i <= k <= j implies (#[trigger] steps[k]).0 by {
                assert(before[k].0);
            }
        }
    }
}

/// Short gaps are absorbed: a slot that never stays dark for as long as the
/// thresholds ask for, gated and failing counted together, is never reported
/// dark, however often it blinks.
pub proof fn law_short_losses_are_absorbed<A: Arithmetic>(
    math: &A,
    t: Thresholds,
    signals: Seq<Signals>,
    end: FusionState,
    events: Seq<EventView>,
)
    requires
        named_in_order(buckets_view(t.objects.buckets@)),
        runs_to(math, initial(t), signals, end, events),
    ensures
        end.pose_lost == timer_after(initial(t).pose_lost, pose_darkness(signals)),
        end.gaze_lost == timer_after(initial(t).gaze_lost, gaze_darkness(signals)),
        only_short_runs(pose_darkness(signals), t.fusion.signal_lost_ms) ==> forall|j: int|
            0 <= j < events.len() ==> !reports_loss(#[trigger] events[j], "pose"@),
        only_short_runs(gaze_darkness(signals), t.fusion.signal_lost_ms) ==> forall|j: int|
            0 <= j < events.len() ==> !reports_loss(#[trigger] events[j], "gaze"@),
    decreases signals.len(),
{
    let start = initial(t);
    let hold = t.fusion.signal_lost_ms;
    if signals.len() == 0 {
        assert(pose_darkness(signals) =~= Seq::empty());
        assert(gaze_darkness(signals) =~= Seq::empty());
    } else {
        let s = signals.last();
        let rest = signals.drop_last();
        let (mid, before, last) = choose|mid: FusionState, before: Seq<EventView>, last: Seq<EventView>|
            #![trigger mid.steps_to(math, s, s.t_ms, end, last), before.add(last)]
            runs_to(math, start, rest, mid, before) && mid.steps_to(math, s, s.t_ms, end, last) && events
                == before.add(last);
        law_short_losses_are_absorbed(math, t, rest, mid, before);
        law_a_session_starts_coherent(t);
        lemma_run_accounts(math, start, rest, mid, before);
        assert(events == before + last);
        let r = choose|r: Reading|
            #[trigger] mid.measures(math, s, s.t_ms, r) && mid.stepped(s, r, s.t_ms) == (Progress {
                state: end,
                events: last,
            });
        mid.lemma_stepped_parts(s, r, s.t_ms);
        assert(pose_darkness(signals).drop_last() =~= pose_darkness(rest));
        assert(pose_darkness(signals).last() == (slot_lost(s.produced_by.pose), s.t_ms));
        assert(gaze_darkness(signals).drop_last() =~= gaze_darkness(rest));
        assert(gaze_darkness(signals).last() == (slot_lost(s.produced_by.gaze), s.t_ms));
        assert forall|j: int| 0 <= j < last.len() implies (reports_loss(#[trigger] last[j], "pose"@)
            ==> end.pose_lost.fired) && (reports_loss(last[j], "gaze"@) ==> end.gaze_lost.fired) by {
            lemma_loss_needs_a_rise(math, mid, s, s.t_ms, end, last, j);
        }
        if only_short_runs(pose_darkness(signals), hold) {
            lemma_short_runs_before(pose_darkness(signals), hold);
            law_short_runs_are_absorbed(start.pose_lost, pose_darkness(signals));
            assert forall|j: int| 0 <= j < events.len() implies !reports_loss(#[trigger] events[j], "pose"@) by {
                if j >= before.len() {
                    assert(events[j] == last[j - before.len()]);
                } else {
                    assert(events[j] == before[j]);
                }
            }
        }
        if only_short_runs(gaze_darkness(signals), hold) {
            lemma_short_runs_before(gaze_darkness(signals), hold);
            law_short_runs_are_absorbed(start.gaze_lost, gaze_darkness(signals));
            assert forall|j: int| 0 <= j < events.len() implies !reports_loss(#[trigger] events[j], "gaze"@) by {
                if j >= before.len() {
                    assert(events[j] == last[j - before.len()]);
                } else {
                    assert(events[j] == before[j]);
                }
            }
        }
    }
}

} // verus!
