//! Who is accused of being someone else, and when.

use vstd::prelude::*;

use crate::config::{buckets_view, named_in_order, IdentityThresholds, Thresholds};
use crate::number::{Arithmetic, Number};
use crate::types::{EventView, Signals, ViolationKind};
use super::laws::{
    describes, latched, law_a_session_starts_coherent, law_a_step_reports_every_edge_once, lemma_rules_kept,
    lemma_run_accounts, lemma_tally_concat, tally,
};
use super::ledger::Key;
use super::model::{identity_of, initial, runs_to, FusionState, Progress, Reading};

verus! {

/// Whether a frame holds a check that found too little likeness.
pub open spec fn fails(s: Signals, bars: IdentityThresholds) -> bool {
    identity_of(s) matches Some(score) && Number::lt(score, bars.cosine_enter)
}

/// Whether a frame holds a check that clears the higher bar.
pub open spec fn passes(s: Signals, bars: IdentityThresholds) -> bool {
    !fails(s, bars) && (identity_of(s) matches Some(score) && Number::le(bars.cosine_exit, score))
}

/// How many checks in a row have found too little likeness by the end of a
/// recording. A check that clears the higher bar ends the row; one between the
/// bars neither ends nor lengthens it.
pub open spec fn failing_in_a_row(signals: Seq<Signals>, bars: IdentityThresholds) -> nat
    decreases signals.len(),
{
    if signals.len() == 0 {
        0
    } else if fails(signals.last(), bars) {
        failing_in_a_row(signals.drop_last(), bars) + 1
    } else if passes(signals.last(), bars) {
        0
    } else {
        failing_in_a_row(signals.drop_last(), bars)
    }
}

/// Whether an identity violation is open at the end of a recording: it opens
/// with a check after which enough have failed in a row, and closes with one
/// after which none has.
pub open spec fn accused(signals: Seq<Signals>, bars: IdentityThresholds) -> bool
    decreases signals.len(),
{
    if signals.len() == 0 {
        false
    } else if identity_of(signals.last()) is None {
        accused(signals.drop_last(), bars)
    } else if accused(signals.drop_last(), bars) {
        failing_in_a_row(signals, bars) > 0
    } else {
        failing_in_a_row(signals, bars) >= bars.consecutive_failures
    }
}

/// How many frames of a recording hold a check that found too little likeness.
pub open spec fn failures(signals: Seq<Signals>, bars: IdentityThresholds) -> nat
    decreases signals.len(),
{
    if signals.len() == 0 {
        0
    } else {
        failures(signals.drop_last(), bars) + (if fails(signals.last(), bars) { 1nat } else { 0nat })
    }
}

/// A row of failures is counted from the last check that passed: none before it
/// counts, and every one after it does.
pub proof fn law_a_row_begins_after_the_last_pass(signals: Seq<Signals>, bars: IdentityThresholds, p: int)
    requires
        0 <= p <= signals.len(),
        p > 0 ==> passes(signals[p - 1], bars),
        forall|i: int| p <= i < signals.len() ==> !passes(#[trigger] signals[i], bars),
    ensures
        failing_in_a_row(signals, bars) == failures(signals.skip(p), bars),
    decreases signals.len(),
{
    if p < signals.len() {
        let rest = signals.drop_last();
        assert(p > 0 ==> rest[p - 1] == signals[p - 1]);
        assert forall|i: int| p <= i < rest.len() implies !passes(#[trigger] rest[i], bars) by {
            assert(rest[i] == signals[i]);
        }
        law_a_row_begins_after_the_last_pass(rest, bars, p);
        assert(signals.skip(p).drop_last() =~= rest.skip(p));
        assert(signals.skip(p).last() == signals.last());
        assert(!passes(signals[signals.len() - 1], bars));
    } else {
        assert(signals.skip(p).len() == 0);
    }
}

proof fn lemma_row_bounded(signals: Seq<Signals>, bars: IdentityThresholds)
    ensures
        failing_in_a_row(signals, bars) <= signals.len(),
    decreases signals.len(),
{
    if signals.len() > 0 {
        lemma_row_bounded(signals.drop_last(), bars);
    }
}

/// With at least one failure asked for, an accusation stands on a row that is
/// not empty, and where there is none the row is too short for one.
proof fn lemma_accused_bounds(signals: Seq<Signals>, bars: IdentityThresholds)
    requires
        bars.consecutive_failures >= 1,
    ensures
        accused(signals, bars) ==> failing_in_a_row(signals, bars) > 0,
        !accused(signals, bars) ==> failing_in_a_row(signals, bars) < bars.consecutive_failures,
    decreases signals.len(),
{
    if signals.len() > 0 {
        lemma_accused_bounds(signals.drop_last(), bars);
    }
}

/// One more frame moves the count and the latch as the checks say.
proof fn lemma_identity_step<A: Arithmetic>(
    math: &A,
    bars: IdentityThresholds,
    signals: Seq<Signals>,
    mid: FusionState,
    end: FusionState,
    last: Seq<EventView>,
)
    requires
        0 < signals.len() <= u32::MAX,
        mid.rules.cosine_enter == bars.cosine_enter,
        mid.rules.cosine_exit == bars.cosine_exit,
        mid.rules.consecutive_failures == bars.consecutive_failures,
        mid.identity_failures == failing_in_a_row(signals.drop_last(), bars),
        mid.identity_active == accused(signals.drop_last(), bars),
        mid.steps_to(math, signals.last(), signals.last().t_ms, end, last),
    ensures
        end.identity_failures == failing_in_a_row(signals, bars),
        end.identity_active == accused(signals, bars),
{
    let s = signals.last();
    let r = choose|r: Reading|
        #[trigger] mid.measures(math, s, s.t_ms, r) && mid.stepped(s, r, s.t_ms) == (Progress {
            state: end,
            events: last,
        });
    mid.lemma_stepped_parts(s, r, s.t_ms);
    lemma_row_bounded(signals, bars);
}

/// Whether an identity violation is open, and how long the row of failures is,
/// follows from the checks of the recording alone.
pub proof fn law_identity_follows_the_checks<A: Arithmetic>(
    math: &A,
    t: Thresholds,
    signals: Seq<Signals>,
    end: FusionState,
    events: Seq<EventView>,
)
    requires
        named_in_order(buckets_view(t.objects.buckets@)),
        signals.len() <= u32::MAX,
        runs_to(math, initial(t), signals, end, events),
    ensures
        end.identity_failures == failing_in_a_row(signals, t.identity),
        end.identity_active == accused(signals, t.identity),
        end.open.contains_key((ViolationKind::IdentityMismatch, None)) == accused(signals, t.identity),
    decreases signals.len(),
{
    if signals.len() > 0 {
        let s = signals.last();
        let rest = signals.drop_last();
        let (mid, before, last) = choose|mid: FusionState, before: Seq<EventView>, last: Seq<EventView>|
            #![trigger mid.steps_to(math, s, s.t_ms, end, last), before.add(last)]
            runs_to(math, initial(t), rest, mid, before) && mid.steps_to(math, s, s.t_ms, end, last) && events
                == before.add(last);
        law_identity_follows_the_checks(math, t, rest, mid, before);
        lemma_rules_kept(math, initial(t), rest, mid, before);
        lemma_identity_step(math, t.identity, signals, mid, end, last);
    }
    law_a_session_starts_coherent(t);
    lemma_run_accounts(math, initial(t), signals, end, events);
    assert(latched(end, (ViolationKind::IdentityMismatch, None)) == end.identity_active);
}

/// An identity violation starts only with a check that fails and makes the row
/// long enough, and always then; it ends only with a check that passes, and
/// always then. A frame without a check reports nothing about identity.
pub proof fn law_identity_changes_only_on_a_check<A: Arithmetic>(
    math: &A,
    t: Thresholds,
    signals: Seq<Signals>,
    s: Signals,
    mid: FusionState,
    before: Seq<EventView>,
    end: FusionState,
    last: Seq<EventView>,
)
    requires
        named_in_order(buckets_view(t.objects.buckets@)),
        t.identity.consecutive_failures >= 1,
        signals.len() < u32::MAX,
        runs_to(math, initial(t), signals, mid, before),
        mid.steps_to(math, s, s.t_ms, end, last),
    ensures
        forall|i: int|
            0 <= i < last.len() ==> match #[trigger] last[i] {
                EventView::ViolationStarted(v) => v.kind is IdentityMismatch ==> fails(s, t.identity)
                    && failing_in_a_row(signals.push(s), t.identity) >= t.identity.consecutive_failures
                    && !accused(signals, t.identity),
                EventView::ViolationEnded(v) => v.kind is IdentityMismatch ==> passes(s, t.identity) && accused(
                    signals,
                    t.identity,
                ),
                _ => true,
            },
        tally(last, (ViolationKind::IdentityMismatch, None)) == (if accused(signals, t.identity) {
            if passes(s, t.identity) { 1int } else { 0int }
        } else if fails(s, t.identity) && failing_in_a_row(signals.push(s), t.identity)
            >= t.identity.consecutive_failures {
            1int
        } else {
            0int
        }),
{
    let bars = t.identity;
    let all = signals.push(s);
    let k: Key = (ViolationKind::IdentityMismatch, None);
    assert(all.drop_last() =~= signals);
    assert(all.last() == s);
    law_identity_follows_the_checks(math, t, signals, mid, before);
    lemma_rules_kept(math, initial(t), signals, mid, before);
    lemma_identity_step(math, bars, all, mid, end, last);
    lemma_accused_bounds(signals, bars);
    law_a_session_starts_coherent(t);
    lemma_run_accounts(math, initial(t), signals, mid, before);
    let r = choose|r: Reading|
        #[trigger] mid.measures(math, s, s.t_ms, r) && mid.stepped(s, r, s.t_ms) == (Progress {
            state: end,
            events: last,
        });
    law_a_step_reports_every_edge_once(mid, s, r, s.t_ms);
    assert(latched(mid, k) == mid.identity_active);
    assert(latched(end, k) == end.identity_active);
    assert(mid.open.contains_key(k) == accused(signals, bars));
    assert(end.open.contains_key(k) == accused(all, bars));
    assert forall|i: int| 0 <= i < last.len() implies match #[trigger] last[i] {
        EventView::ViolationStarted(v) => v.kind is IdentityMismatch ==> fails(s, bars) && failing_in_a_row(all, bars)
            >= bars.consecutive_failures && !accused(signals, bars),
        EventView::ViolationEnded(v) => v.kind is IdentityMismatch ==> passes(s, bars) && accused(signals, bars),
        _ => true,
    } by {
        assert(describes(mid.open, last[i], end.open, s.t_ms));
        match last[i] {
            EventView::ViolationStarted(v) => if v.kind is IdentityMismatch {
                assert(latched(end, (v.kind, v.subject)));
                assert((v.kind, v.subject) == k);
            },
            EventView::ViolationEnded(v) => if v.kind is IdentityMismatch {
                assert(latched(mid, (v.kind, v.subject)));
                assert((v.kind, v.subject) == k);
            },
            _ => {},
        }
    }
}

/// Nobody is accused of being someone else before as many checks in a row have
/// failed as the thresholds ask for: in a session that never gets that far, no
/// identity violation is ever reported.
pub proof fn law_identity_needs_enough_failures<A: Arithmetic>(
    math: &A,
    t: Thresholds,
    signals: Seq<Signals>,
    end: FusionState,
    events: Seq<EventView>,
)
    requires
        named_in_order(buckets_view(t.objects.buckets@)),
        signals.len() <= u32::MAX,
        runs_to(math, initial(t), signals, end, events),
        forall|n: int|
            0 <= n <= signals.len() ==> failing_in_a_row(#[trigger] signals.take(n), t.identity)
                < t.identity.consecutive_failures,
    ensures
        !end.identity_active,
        tally(events, (ViolationKind::IdentityMismatch, None)) == 0,
    decreases signals.len(),
{
    let k: Key = (ViolationKind::IdentityMismatch, None);
    assert(signals.take(signals.len() as int) =~= signals);
    law_identity_follows_the_checks(math, t, signals, end, events);
    if signals.len() > 0 {
        let s = signals.last();
        let rest = signals.drop_last();
        let (mid, before, last) = choose|mid: FusionState, before: Seq<EventView>, last: Seq<EventView>|
            #![trigger mid.steps_to(math, s, s.t_ms, end, last), before.add(last)]
            runs_to(math, initial(t), rest, mid, before) && mid.steps_to(math, s, s.t_ms, end, last) && events
                == before.add(last);
        assert forall|n: int| 0 <= n <= rest.len() implies failing_in_a_row(#[trigger] rest.take(n), t.identity)
            < t.identity.consecutive_failures by {
            assert(rest.take(n) =~= signals.take(n));
        }
        law_identity_needs_enough_failures(math, t, rest, mid, before);
        law_identity_follows_the_checks(math, t, rest, mid, before);
        assert(rest.push(s) =~= signals);
        law_identity_changes_only_on_a_check(math, t, rest, s, mid, before, end, last);
        lemma_tally_concat(before, last, k);
        assert(events == before + last);
    }
}

} // verus!
