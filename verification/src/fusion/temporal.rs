//! Time-domain primitives: smoothing, hysteresis, hold timers, accumulation.
//!
//! Four small pieces, each doing one thing. Every one of them takes time as a
//! parameter; nothing here reads a clock, which is what lets a recorded session
//! replay to the same events on any machine at any speed.

use vstd::prelude::*;

use crate::number::{Arithmetic, Number};

verus! {

/// How long after `since` the moment `t_ms` is, and never less than nothing: a
/// timestamp that runs backwards reads as "no time passed".
pub open spec fn elapsed(since: u64, t_ms: u64) -> int {
    if t_ms >= since {
        t_ms - since
    } else {
        0
    }
}

/// Exponential moving average over a signal that can disappear.
///
/// A gap longer than `reset_after_ms` resets the filter: the next sample is
/// adopted whole rather than blended with a stale one. Shorter gaps are blended
/// normally, because a single dropped frame really is approximately continuous.
#[derive(Debug, Clone, Copy)]
pub struct Ema {
    alpha: Number,
    reset_after_ms: u64,
    value: Option<Number>,
    last_t_ms: Option<u64>,
}

/// What an [`Ema`] remembers.
pub ghost struct EmaState {
    pub alpha: Number,
    pub reset_after_ms: u64,
    pub value: Option<Number>,
    pub last_t_ms: Option<u64>,
}

impl EmaState {
    /// The value that a sample taken at `t_ms` is blended with, if any.
    pub open spec fn blends_with(self, t_ms: u64) -> Option<Number> {
        match self.last_t_ms {
            Some(prev) => if elapsed(prev, t_ms) > self.reset_after_ms {
                None
            } else {
                self.value
            },
            None => None,
        }
    }

    pub open spec fn holding(self, value: Number, t_ms: u64) -> EmaState {
        EmaState { value: Some(value), last_t_ms: Some(t_ms), ..self }
    }

    /// Whether `next` is what feeding `sample` at `t_ms` yields.
    pub open spec fn smooths_to<A: Arithmetic>(self, math: &A, sample: Number, t_ms: u64, next: Number) -> bool {
        match self.blends_with(t_ms) {
            Some(prev) => call_ensures(A::blend, (math, self.alpha, sample, prev), next),
            None => next == sample,
        }
    }
}

impl View for Ema {
    type V = EmaState;

    closed spec fn view(&self) -> EmaState {
        EmaState {
            alpha: self.alpha,
            reset_after_ms: self.reset_after_ms,
            value: self.value,
            last_t_ms: self.last_t_ms,
        }
    }
}

impl Ema {
    pub fn new(alpha: Number, reset_after_ms: u64) -> (r: Self)
        ensures
            r@ == (EmaState { alpha, reset_after_ms, value: None, last_t_ms: None }),
    {
        Self { alpha, reset_after_ms, value: None, last_t_ms: None }
    }

    /// The smoothed value that a measurement taken at `t_ms` would give.
    pub fn preview<A: Arithmetic>(&self, sample: Number, t_ms: u64, math: &A) -> (next: Number)
        ensures
            self@.smooths_to(math, sample, t_ms, next),
    {
        let stale = match self.last_t_ms {
            Some(prev) => t_ms.saturating_sub(prev) > self.reset_after_ms,
            None => true,
        };
        match self.value {
            Some(prev) if !stale => math.blend(self.alpha, sample, prev),
            _ => sample,
        }
    }

    /// Adopt a smoothed value as the one that holds at `t_ms`.
    pub fn adopt(&mut self, value: Number, t_ms: u64)
        ensures
            final(self)@ == old(self)@.holding(value, t_ms),
    {
        self.value = Some(value);
        self.last_t_ms = Some(t_ms);
    }

    /// Feed a measurement taken at `t_ms`. Returns the smoothed value.
    pub fn update<A: Arithmetic>(&mut self, sample: Number, t_ms: u64, math: &A) -> (next: Number)
        ensures
            old(self)@.smooths_to(math, sample, t_ms, next),
            final(self)@ == old(self)@.holding(next, t_ms),
    {
        let next = self.preview(sample, t_ms, math);
        self.adopt(next, t_ms);
        next
    }

    /// Note that no measurement arrived at `t_ms`.
    ///
    /// Deliberately does not advance the clock: the gap is measured from the
    /// last real sample, however many times its absence is observed.
    pub fn miss(&mut self, _t_ms: u64)
        ensures
            final(self)@ == old(self)@,
    {
    }

    /// The current smoothed value, or `None` if nothing has been fed yet.
    pub fn get(&self) -> (r: Option<Number>)
        ensures
            r == self@.value,
    {
        self.value
    }

    /// Forget everything measured so far.
    pub fn reset(&mut self)
        ensures
            final(self)@ == (EmaState { value: None, last_t_ms: None, ..old(self)@ }),
    {
        self.value = None;
        self.last_t_ms = None;
    }
}

/// A two-threshold latch: enter high, leave low.
///
/// Deliberately has no notion of time.
#[derive(Debug, Clone, Copy)]
pub struct Hysteresis {
    enter: Number,
    exit: Number,
    active: bool,
}

/// What a [`Hysteresis`] remembers.
pub ghost struct LatchState {
    pub enter: Number,
    pub exit: Number,
    pub active: bool,
}

impl LatchState {
    /// The latch after it was fed `value`.
    pub open spec fn fed(self, value: Number) -> LatchState {
        LatchState {
            active: if self.active {
                !Number::lt(value, self.exit)
            } else {
                Number::le(self.enter, value)
            },
            ..self
        }
    }

    /// Whether `value` sits at or past a positive enter threshold.
    pub open spec fn ramps(self, value: Number) -> bool {
        !Number::lt(value, self.enter) && !Number::le(self.enter, Number::zero())
    }

    /// Whether `r` is how far past the enter threshold `value` sits.
    pub open spec fn has_intensity<A: Arithmetic>(self, math: &A, value: Number, r: Number) -> bool {
        if self.ramps(value) {
            call_ensures(A::ramp, (math, value, self.enter), r)
        } else {
            r == Number::zero()
        }
    }
}

impl View for Hysteresis {
    type V = LatchState;

    closed spec fn view(&self) -> LatchState {
        LatchState { enter: self.enter, exit: self.exit, active: self.active }
    }
}

impl Hysteresis {
    /// `exit` must be at or below `enter`.
    pub fn new(enter: Number, exit: Number) -> (r: Self)
        requires
            Number::le(exit, enter),
        ensures
            r@ == (LatchState { enter, exit, active: false }),
    {
        Self { enter, exit, active: false }
    }

    /// Feed a magnitude. Returns whether the latch is now set.
    pub fn update(&mut self, value: Number) -> (r: bool)
        ensures
            final(self)@ == old(self)@.fed(value),
            r == final(self)@.active,
    {
        if self.active {
            if value.below(self.exit) {
                self.active = false;
            }
        } else if value.at_least(self.enter) {
            self.active = true;
        }
        self.active
    }

    pub fn active(&self) -> (r: bool)
        ensures
            r == self@.active,
    {
        self.active
    }

    /// How far past the enter threshold the value sits: zero below it, ramping
    /// to one at twice it.
    pub fn intensity<A: Arithmetic>(&self, value: Number, math: &A) -> (r: Number)
        ensures
            self@.has_intensity(math, value, r),
    {
        if value.below(self.enter) || Number::zero().at_least(self.enter) {
            return Number::zero();
        }
        math.ramp(value, self.enter)
    }

    pub fn reset(&mut self)
        ensures
            final(self)@ == (LatchState { active: false, ..old(self)@ }),
    {
        self.active = false;
    }
}

/// What a [`HoldTimer`] did on one step.
#[derive(Debug, Clone, Copy, PartialEq, Eq, Structural)]
pub enum Edge {
    /// Held long enough; this is the rising edge and fires exactly once.
    Rose,
    /// Absent long enough; falling edge, fires exactly once.
    Fell,
    /// No change worth reporting.
    Steady,
}

/// The edge between two consecutive values of a latch.
pub open spec fn edge_between(was: bool, now: bool) -> Edge {
    if !was && now {
        Edge::Rose
    } else if was && !now {
        Edge::Fell
    } else {
        Edge::Steady
    }
}

/// Name the edge between two consecutive values of a latch.
pub fn edge_of(was: bool, now: bool) -> (r: Edge)
    ensures
        r == edge_between(was, now),
{
    match (was, now) {
        (false, true) => Edge::Rose,
        (true, false) => Edge::Fell,
        _ => Edge::Steady,
    }
}

/// A condition must persist before it counts, and stop persisting before it
/// stops counting.
#[derive(Debug, Clone, Copy)]
pub struct HoldTimer {
    hold_ms: u64,
    clear_ms: u64,
    fired: bool,
    /// When the condition first became true in its current run, or `None` if
    /// it is currently false.
    true_since: Option<u64>,
    /// Likewise for false.
    false_since: Option<u64>,
}

/// What a [`HoldTimer`] remembers.
pub ghost struct HoldState {
    pub hold_ms: u64,
    pub clear_ms: u64,
    pub fired: bool,
    pub true_since: Option<u64>,
    pub false_since: Option<u64>,
}

impl HoldState {
    /// When the run of `condition` that is under way at `t_ms` began.
    pub open spec fn run_start(self, condition: bool, t_ms: u64) -> u64 {
        let since = if condition {
            self.true_since
        } else {
            self.false_since
        };
        match since {
            Some(s) => s,
            None => t_ms,
        }
    }

    /// The timer after advancing to `t_ms` with the condition at `condition`.
    pub open spec fn advanced(self, condition: bool, t_ms: u64) -> HoldState {
        let since = self.run_start(condition, t_ms);
        if condition {
            HoldState {
                fired: self.fired || elapsed(since, t_ms) >= self.hold_ms,
                true_since: Some(since),
                false_since: None,
                ..self
            }
        } else {
            HoldState {
                fired: self.fired && elapsed(since, t_ms) < self.clear_ms,
                true_since: None,
                false_since: Some(since),
                ..self
            }
        }
    }

    /// What that advance reports.
    pub open spec fn edge(self, condition: bool, t_ms: u64) -> Edge {
        edge_between(self.fired, self.advanced(condition, t_ms).fired)
    }

    pub open spec fn cleared(self) -> HoldState {
        HoldState { fired: false, true_since: None, false_since: None, ..self }
    }
}

impl View for HoldTimer {
    type V = HoldState;

    closed spec fn view(&self) -> HoldState {
        HoldState {
            hold_ms: self.hold_ms,
            clear_ms: self.clear_ms,
            fired: self.fired,
            true_since: self.true_since,
            false_since: self.false_since,
        }
    }
}

impl HoldTimer {
    pub fn new(hold_ms: u64, clear_ms: u64) -> (r: Self)
        ensures
            r@ == (HoldState { hold_ms, clear_ms, fired: false, true_since: None, false_since: None }),
    {
        Self { hold_ms, clear_ms, fired: false, true_since: None, false_since: None }
    }

    /// Advance to `t_ms` with the condition currently `condition`.
    pub fn update(&mut self, condition: bool, t_ms: u64) -> (r: Edge)
        ensures
            final(self)@ == old(self)@.advanced(condition, t_ms),
            r == old(self)@.edge(condition, t_ms),
    {
        if condition {
            self.false_since = None;
            let since: u64 = match self.true_since {
                Some(s) => s,
                None => t_ms,
            };
            self.true_since = Some(since);
            if !self.fired && t_ms.saturating_sub(since) >= self.hold_ms {
                self.fired = true;
                return Edge::Rose;
            }
        } else {
            self.true_since = None;
            let since: u64 = match self.false_since {
                Some(s) => s,
                None => t_ms,
            };
            self.false_since = Some(since);
            if self.fired && t_ms.saturating_sub(since) >= self.clear_ms {
                self.fired = false;
                return Edge::Fell;
            }
        }
        Edge::Steady
    }

    /// Whether the timer is currently latched on.
    pub fn fired(&self) -> (r: bool)
        ensures
            r == self@.fired,
    {
        self.fired
    }

    /// Force the latch off, reporting whether that was a falling edge.
    pub fn force_clear(&mut self) -> (r: Edge)
        ensures
            final(self)@ == old(self)@.cleared(),
            r == edge_between(old(self)@.fired, false),
    {
        self.true_since = None;
        self.false_since = None;
        let was: bool = self.fired;
        self.fired = false;
        edge_of(was, false)
    }
}

/// A decaying sum of evidence.
///
/// Every sample adds its confidence and the total decays with a half-life:
/// peaky-but-persistent crosses a bar, one loud frame does not.
#[derive(Debug, Clone, Copy)]
pub struct DecayingScore {
    half_life_ms: u64,
    score: Number,
    last_t_ms: Option<u64>,
}

/// What a [`DecayingScore`] remembers.
pub ghost struct ScoreState {
    pub half_life_ms: u64,
    pub score: Number,
    pub last_t_ms: Option<u64>,
}

impl ScoreState {
    /// How much time has to be decayed away by `t_ms`, if any.
    pub open spec fn due(self, t_ms: u64) -> Option<u64> {
        match self.last_t_ms {
            Some(prev) => if elapsed(prev, t_ms) > 0 && self.half_life_ms > 0 {
                Some((t_ms - prev) as u64)
            } else {
                None
            },
            None => None,
        }
    }

    /// Whether decaying to `t_ms` leaves the score at `r`.
    pub open spec fn decays_to<A: Arithmetic>(self, math: &A, t_ms: u64, r: Number) -> bool {
        match self.due(t_ms) {
            Some(dt) => call_ensures(A::decay, (math, self.score, dt, self.half_life_ms), r),
            None => r == self.score,
        }
    }

    /// Whether decaying to `t_ms` and then adding `amount` leaves the score at `r`.
    pub open spec fn gathers<A: Arithmetic>(self, math: &A, amount: Number, t_ms: u64, r: Number) -> bool {
        exists|decayed: Number|
            #![trigger call_ensures(A::sum, (math, decayed, amount), r)]
            self.decays_to(math, t_ms, decayed) && call_ensures(A::sum, (math, decayed, amount), r)
    }

    pub open spec fn holding(self, score: Number, t_ms: u64) -> ScoreState {
        ScoreState { score, last_t_ms: Some(t_ms), ..self }
    }
}

impl View for DecayingScore {
    type V = ScoreState;

    closed spec fn view(&self) -> ScoreState {
        ScoreState {
            half_life_ms: self.half_life_ms,
            score: self.score,
            last_t_ms: self.last_t_ms,
        }
    }
}

impl DecayingScore {
    pub fn new(half_life_ms: u64) -> (r: Self)
        ensures
            r@ == (ScoreState { half_life_ms, score: Number::zero(), last_t_ms: None }),
    {
        Self { half_life_ms, score: Number::zero(), last_t_ms: None }
    }

    /// What decaying to `t_ms` would leave.
    pub fn preview_decay<A: Arithmetic>(&self, t_ms: u64, math: &A) -> (r: Number)
        ensures
            self@.decays_to(math, t_ms, r),
    {
        if let Some(prev) = self.last_t_ms {
            let dt: u64 = t_ms.saturating_sub(prev);
            if dt > 0 && self.half_life_ms > 0 {
                return math.decay(self.score, dt, self.half_life_ms);
            }
        }
        self.score
    }

    /// What decaying to `t_ms` and then adding `amount` would leave.
    pub fn preview_add<A: Arithmetic>(&self, amount: Number, t_ms: u64, math: &A) -> (r: Number)
        ensures
            self@.gathers(math, amount, t_ms, r),
    {
        let decayed = self.preview_decay(t_ms, math);
        math.sum(decayed, amount)
    }

    /// Adopt a score as the one that holds at `t_ms`.
    pub fn adopt(&mut self, score: Number, t_ms: u64)
        ensures
            final(self)@ == old(self)@.holding(score, t_ms),
    {
        self.score = score;
        self.last_t_ms = Some(t_ms);
    }

    /// Decay to `t_ms` without adding anything.
    pub fn decay_to<A: Arithmetic>(&mut self, t_ms: u64, math: &A) -> (r: Number)
        ensures
            old(self)@.decays_to(math, t_ms, r),
            final(self)@ == old(self)@.holding(r, t_ms),
    {
        let r = self.preview_decay(t_ms, math);
        self.adopt(r, t_ms);
        r
    }

    /// Decay to `t_ms`, then add `amount`.
    pub fn add<A: Arithmetic>(&mut self, amount: Number, t_ms: u64, math: &A) -> (r: Number)
        ensures
            old(self)@.gathers(math, amount, t_ms, r),
            final(self)@ == old(self)@.holding(r, t_ms),
    {
        let r = self.preview_add(amount, t_ms, math);
        self.adopt(r, t_ms);
        r
    }

    pub fn score(&self) -> (r: Number)
        ensures
            r == self@.score,
    {
        self.score
    }

    pub fn reset(&mut self)
        ensures
            final(self)@ == (ScoreState { score: Number::zero(), last_t_ms: None, ..old(self)@ }),
    {
        self.score = Number::zero();
        self.last_t_ms = None;
    }
}

// -- laws -------------------------------------------------------------------

/// A timer rises exactly when its condition has held for the hold and it was
/// not latched yet, and falls exactly when the condition has been gone for the
/// clear hold and it was.
pub proof fn law_edges_wait_for_their_holds(st: HoldState, condition: bool, t_ms: u64)
    ensures
        st.edge(condition, t_ms) is Rose <==> condition && !st.fired && elapsed(st.run_start(true, t_ms), t_ms)
            >= st.hold_ms,
        st.edge(condition, t_ms) is Fell <==> !condition && st.fired && elapsed(st.run_start(false, t_ms), t_ms)
            >= st.clear_ms,
{
}

/// A timer after a series of updates.
pub open spec fn timer_after(st: HoldState, steps: Seq<(bool, u64)>) -> HoldState
    decreases steps.len(),
{
    if steps.len() == 0 {
        st
    } else {
        timer_after(st, steps.drop_last()).advanced(steps.last().0, steps.last().1)
    }
}

/// How often a series of updates reports `edge`.
pub open spec fn edges_of(st: HoldState, steps: Seq<(bool, u64)>, edge: Edge) -> nat
    decreases steps.len(),
{
    if steps.len() == 0 {
        0
    } else {
        let before = edges_of(st, steps.drop_last(), edge);
        if timer_after(st, steps.drop_last()).edge(steps.last().0, steps.last().1) == edge {
            before + 1
        } else {
            before
        }
    }
}

/// One call on a timer.
pub ghost enum TimerCall {
    Update { condition: bool, t_ms: u64 },
    ForceClear,
}

impl HoldState {
    /// The timer after a call.
    pub open spec fn called(self, call: TimerCall) -> HoldState {
        match call {
            TimerCall::Update { condition, t_ms } => self.advanced(condition, t_ms),
            TimerCall::ForceClear => self.cleared(),
        }
    }

    /// What that call reports.
    pub open spec fn call_edge(self, call: TimerCall) -> Edge {
        edge_between(self.fired, self.called(call).fired)
    }
}

/// A timer after a series of calls.
pub open spec fn timer_called(st: HoldState, calls: Seq<TimerCall>) -> HoldState
    decreases calls.len(),
{
    if calls.len() == 0 {
        st
    } else {
        timer_called(st, calls.drop_last()).called(calls.last())
    }
}

/// How often a series of calls reports `edge`.
pub open spec fn edges_called(st: HoldState, calls: Seq<TimerCall>, edge: Edge) -> nat
    decreases calls.len(),
{
    if calls.len() == 0 {
        0
    } else {
        let before = edges_called(st, calls.drop_last(), edge);
        if timer_called(st, calls.drop_last()).call_edge(calls.last()) == edge {
            before + 1
        } else {
            before
        }
    }
}

/// Rises and falls alternate, beginning with a rise, forced clears among the
/// calls or not: after any number of calls there was one rise more than falls if
/// the timer is latched, and as many of either if it is not.
pub proof fn law_rises_and_falls_alternate(st: HoldState, calls: Seq<TimerCall>)
    requires
        !st.fired,
    ensures
        edges_called(st, calls, Edge::Rose) == edges_called(st, calls, Edge::Fell) + (if timer_called(
            st,
            calls,
        ).fired {
            1int
        } else {
            0int
        }),
    decreases calls.len(),
{
    if calls.len() > 0 {
        law_rises_and_falls_alternate(st, calls.drop_last());
    }
}

/// Whether a condition holds on every update from `i` to `j`.
pub open spec fn holds_through(steps: Seq<(bool, u64)>, i: int, j: int) -> bool {
    forall|k: int| i <= k <= j ==> (#[trigger] steps[k]).0
}

/// Whether no run of a condition reaches `hold_ms`.
pub open spec fn only_short_runs(steps: Seq<(bool, u64)>, hold_ms: u64) -> bool {
    forall|i: int, j: int|
        0 <= i <= j < steps.len() && #[trigger] holds_through(steps, i, j) ==> elapsed(steps[i].1, steps[j].1)
            < hold_ms
}

/// A condition that comes and goes is never reported, however often it comes, as
/// long as it never stays for the hold.
pub proof fn law_short_runs_are_absorbed(st: HoldState, steps: Seq<(bool, u64)>)
    requires
        !st.fired,
        st.true_since is None,
        only_short_runs(steps, st.hold_ms),
    ensures
        !timer_after(st, steps).fired,
        edges_of(st, steps, Edge::Rose) == 0,
        timer_after(st, steps).hold_ms == st.hold_ms,
        match timer_after(st, steps).true_since {
            Some(since) => exists|i: int|
                0 <= i < steps.len() && since == steps[i].1 && #[trigger] holds_through(
                    steps,
                    i,
                    steps.len() - 1,
                ),
            None => steps.len() == 0 || !steps.last().0,
        },
    decreases steps.len(),
{
    if steps.len() > 0 {
        let before = steps.drop_last();
        let last = steps.len() - 1;
        assert forall|i: int, j: int| 0 <= i <= j < before.len() && #[trigger] holds_through(before, i, j) implies elapsed(
            before[i].1,
            before[j].1,
        ) < st.hold_ms by {
            assert(holds_through(steps, i, j)) by {
                assert forall|k: int| i <= k <= j implies (#[trigger] steps[k]).0 by {
                    assert(before[k].0);
                }
            }
        }
        law_short_runs_are_absorbed(st, before);
        if steps.last().0 {
            match timer_after(st, before).true_since {
                Some(since) => {
                    let i = choose|i: int|
                        0 <= i < before.len() && since == before[i].1 && #[trigger] holds_through(
                            before,
                            i,
                            before.len() - 1,
                        );
                    assert forall|k: int| i <= k <= last implies (#[trigger] steps[k]).0 by {
                        if k < last {
                            assert(before[k].0);
                        }
                    }
                    assert(holds_through(steps, i, last));
                },
                None => {
                    assert(holds_through(steps, last, last));
                },
            }
        }
    }
}

/// A condition that goes away for less than the clear hold changes nothing:
/// the timer stays latched and reports no edge.
pub proof fn law_a_flicker_is_absorbed(st: HoldState, steps: Seq<(bool, u64)>)
    requires
        st.fired,
        st.false_since is None,
        forall|i: int|
            0 <= i < steps.len() ==> !(#[trigger] steps[i]).0 && elapsed(steps[0].1, steps[i].1) < st.clear_ms,
    ensures
        timer_after(st, steps).fired,
        edges_of(st, steps, Edge::Rose) == 0,
        edges_of(st, steps, Edge::Fell) == 0,
        timer_after(st, steps).hold_ms == st.hold_ms && timer_after(st, steps).clear_ms == st.clear_ms,
        steps.len() > 0 ==> timer_after(st, steps).false_since == Some(steps[0].1),
        steps.len() == 0 ==> timer_after(st, steps).false_since is None,
    decreases steps.len(),
{
    if steps.len() > 0 {
        let before = steps.drop_last();
        assert forall|i: int| 0 <= i < before.len() implies !(#[trigger] before[i]).0 && elapsed(
            before[0].1,
            before[i].1,
        ) < st.clear_ms by {
            assert(before[i] == steps[i]);
        }
        law_a_flicker_is_absorbed(st, before);
        assert(steps[steps.len() - 1] == steps.last());
    }
}

/// A condition that holds for less than the hold is never reported.
pub proof fn law_a_short_condition_is_absorbed(st: HoldState, steps: Seq<(bool, u64)>)
    requires
        !st.fired,
        st.true_since is None,
        forall|i: int|
            0 <= i < steps.len() ==> (#[trigger] steps[i]).0 && elapsed(steps[0].1, steps[i].1) < st.hold_ms,
    ensures
        !timer_after(st, steps).fired,
        edges_of(st, steps, Edge::Rose) == 0,
        edges_of(st, steps, Edge::Fell) == 0,
        timer_after(st, steps).hold_ms == st.hold_ms,
        steps.len() > 0 ==> timer_after(st, steps).true_since == Some(steps[0].1),
        steps.len() == 0 ==> timer_after(st, steps).true_since is None,
    decreases steps.len(),
{
    if steps.len() > 0 {
        let before = steps.drop_last();
        assert forall|i: int| 0 <= i < before.len() implies (#[trigger] before[i]).0 && elapsed(
            before[0].1,
            before[i].1,
        ) < st.hold_ms by {
            assert(before[i] == steps[i]);
        }
        law_a_short_condition_is_absorbed(st, before);
        assert(steps[steps.len() - 1] == steps.last());
    }
}

/// Between the two thresholds a latch keeps whatever it had.
pub proof fn law_no_flapping_between_thresholds(st: LatchState, value: Number)
    requires
        !Number::lt(value, st.exit),
        !Number::le(st.enter, value),
    ensures
        st.fed(value) == st,
{
}

/// A latch after a series of values.
pub open spec fn latch_after(st: LatchState, values: Seq<Number>) -> LatchState
    decreases values.len(),
{
    if values.len() == 0 {
        st
    } else {
        latch_after(st, values.drop_last()).fed(values.last())
    }
}

/// Values that never go down cross a latch at most once: once it is set it
/// stays set.
pub proof fn law_a_steady_rise_crosses_once(st: LatchState, values: Seq<Number>, i: int)
    requires
        Number::le(st.exit, st.enter),
        0 < i <= values.len(),
        forall|a: int, b: int| 0 <= a < b < values.len() ==> Number::le(#[trigger] values[a], #[trigger] values[b]),
        latch_after(st, values.take(i)).active,
    ensures
        latch_after(st, values).active,
    decreases values.len(),
{
    lemma_latch_keeps_thresholds(st, values);
    if i < values.len() {
        let before = values.drop_last();
        assert(before.take(i) =~= values.take(i));
        law_a_steady_rise_crosses_once(st, before, i);
        lemma_latch_keeps_thresholds(st, before);
        lemma_active_value(st, before);
        assert(before.last() == values[values.len() - 2]);
        assert(Number::le(values[values.len() - 2], values[values.len() - 1]));
    } else {
        assert(values.take(i) =~= values);
    }
}

proof fn lemma_latch_keeps_thresholds(st: LatchState, values: Seq<Number>)
    ensures
        latch_after(st, values).enter == st.enter,
        latch_after(st, values).exit == st.exit,
    decreases values.len(),
{
    if values.len() > 0 {
        lemma_latch_keeps_thresholds(st, values.drop_last());
    }
}

/// A latch that is set was last fed something that is not below its exit.
proof fn lemma_active_value(st: LatchState, values: Seq<Number>)
    requires
        Number::le(st.exit, st.enter),
        values.len() > 0,
        latch_after(st, values).active,
    ensures
        !Number::lt(values.last(), st.exit),
{
    lemma_latch_keeps_thresholds(st, values.drop_last());
}

/// After a gap longer than the filter remembers, a sample is adopted whole,
/// whatever was measured before the gap.
pub proof fn law_a_long_gap_is_forgotten<A: Arithmetic>(
    st: EmaState,
    math: &A,
    sample: Number,
    since: u64,
    t_ms: u64,
    next: Number,
)
    requires
        st.last_t_ms == Some(since),
        elapsed(since, t_ms) > st.reset_after_ms,
    ensures
        st.smooths_to(math, sample, t_ms, next) <==> next == sample,
{
}

/// Within the gap that a filter remembers across, every sample is blended with
/// what is held, on whichever side of it the sample lies and however far.
pub proof fn law_every_sample_is_blended<A: Arithmetic>(
    st: EmaState,
    math: &A,
    sample: Number,
    held: Number,
    since: u64,
    t_ms: u64,
    next: Number,
)
    requires
        st.value == Some(held),
        st.last_t_ms == Some(since),
        t_ms <= since + st.reset_after_ms,
    ensures
        st.smooths_to(math, sample, t_ms, next) <==> call_ensures(A::blend, (math, st.alpha, sample, held), next),
{
}

/// The first sample, and the first after a gap longer than the filter remembers
/// across, is taken as it is.
pub proof fn law_a_first_sample_is_taken_whole<A: Arithmetic>(
    st: EmaState,
    math: &A,
    sample: Number,
    t_ms: u64,
    next: Number,
)
    requires
        st.last_t_ms matches Some(since) ==> st.value is None || t_ms > since + st.reset_after_ms,
    ensures
        st.smooths_to(math, sample, t_ms, next) <==> next == sample,
{
}

/// A filter holds what it last came to, as of when, and nothing else of it
/// changes.
pub proof fn law_a_filter_holds_its_last_value(st: EmaState, value: Number, t_ms: u64)
    ensures
        st.holding(value, t_ms).value == Some(value),
        st.holding(value, t_ms).last_t_ms == Some(t_ms),
        st.holding(value, t_ms).alpha == st.alpha,
        st.holding(value, t_ms).reset_after_ms == st.reset_after_ms,
{
}

/// A latch is set by a value at or above the enter threshold, and from then on
/// only a value below the exit threshold releases it.
pub proof fn law_a_latch_enters_high_and_leaves_low(st: LatchState, value: Number)
    ensures
        !st.active ==> (st.fed(value).active <==> Number::le(st.enter, value)),
        st.active ==> (st.fed(value).active <==> !Number::lt(value, st.exit)),
        st.fed(value).enter == st.enter,
        st.fed(value).exit == st.exit,
{
}

/// Below the enter threshold there is no intensity; at or past a positive one it
/// is what the ramp from that threshold says.
pub proof fn law_intensity_begins_at_the_threshold<A: Arithmetic>(st: LatchState, math: &A, value: Number, r: Number)
    ensures
        Number::lt(value, st.enter) ==> (st.has_intensity(math, value, r) <==> r == Number { bits: 0 }),
        Number::le(st.enter, Number { bits: 0 }) ==> (st.has_intensity(math, value, r) <==> r == Number { bits: 0 }),
        !Number::le(st.enter, Number { bits: 0 }) && !Number::lt(value, st.enter) ==> (st.has_intensity(
            math,
            value,
            r,
        ) <==> call_ensures(A::ramp, (math, value, st.enter), r)),
{
}

/// A timer remembers when the run under way began, in which direction, and is
/// latched once a run has lasted for the hold and until one has lasted for the
/// clear hold. A clock that runs backwards lets no time pass.
pub proof fn law_a_timer_counts_from_the_start_of_a_run(st: HoldState, t_ms: u64)
    ensures
        ({
            let since = match st.true_since {
                Some(s) => s,
                None => t_ms,
            };
            let n = st.advanced(true, t_ms);
            &&& n.true_since == Some(since) && n.false_since is None
            &&& n.fired <==> st.fired || st.hold_ms == 0 || t_ms >= since + st.hold_ms
            &&& n.hold_ms == st.hold_ms && n.clear_ms == st.clear_ms
            &&& st.edge(true, t_ms) is Rose <==> n.fired && !st.fired
            &&& !(st.edge(true, t_ms) is Fell)
        }),
        ({
            let since = match st.false_since {
                Some(s) => s,
                None => t_ms,
            };
            let n = st.advanced(false, t_ms);
            &&& n.false_since == Some(since) && n.true_since is None
            &&& n.fired <==> st.fired && st.clear_ms > 0 && t_ms < since + st.clear_ms
            &&& n.hold_ms == st.hold_ms && n.clear_ms == st.clear_ms
            &&& st.edge(false, t_ms) is Fell <==> st.fired && !n.fired
            &&& !(st.edge(false, t_ms) is Rose)
        }),
{
}

/// A condition that stays is reported: a timer that has just seen it begin is
/// latched after a run of updates exactly if one of them came at least the hold
/// after the first.
pub proof fn law_a_condition_that_stays_is_reported(st: HoldState, steps: Seq<(bool, u64)>)
    requires
        !st.fired,
        st.true_since is None,
        steps.len() > 0,
        forall|i: int| 0 <= i < steps.len() ==> (#[trigger] steps[i]).0,
    ensures
        timer_after(st, steps).fired <==> st.hold_ms == 0 || exists|i: int|
            0 <= i < steps.len() && (#[trigger] steps[i]).1 >= steps[0].1 + st.hold_ms,
        timer_after(st, steps).true_since == Some(steps[0].1),
        timer_after(st, steps).hold_ms == st.hold_ms,
    decreases steps.len(),
{
    let last = steps.len() - 1;
    let before = steps.drop_last();
    assert(steps[last] == steps.last());
    if before.len() > 0 {
        assert forall|i: int| 0 <= i < before.len() implies (#[trigger] before[i]).0 by {
            assert(before[i] == steps[i]);
        }
        law_a_condition_that_stays_is_reported(st, before);
        if exists|i: int| 0 <= i < before.len() && (#[trigger] before[i]).1 >= before[0].1 + st.hold_ms {
            let i = choose|i: int| 0 <= i < before.len() && (#[trigger] before[i]).1 >= before[0].1 + st.hold_ms;
            assert(steps[i] == before[i]);
        }
        if exists|i: int| 0 <= i < steps.len() && (#[trigger] steps[i]).1 >= steps[0].1 + st.hold_ms {
            let i = choose|i: int| 0 <= i < steps.len() && (#[trigger] steps[i]).1 >= steps[0].1 + st.hold_ms;
            if i < last {
                assert(before[i] == steps[i]);
            }
        }
    } else {
        assert(timer_after(st, before) == st);
    }
}

/// A condition that is gone for good ends: a latched timer that has just seen it
/// go is released after a run of updates exactly if one of them came at least
/// the clear hold after the first.
pub proof fn law_a_condition_that_is_gone_ends(st: HoldState, steps: Seq<(bool, u64)>)
    requires
        st.fired,
        st.false_since is None,
        steps.len() > 0,
        forall|i: int| 0 <= i < steps.len() ==> !(#[trigger] steps[i]).0,
    ensures
        !timer_after(st, steps).fired <==> st.clear_ms == 0 || exists|i: int|
            0 <= i < steps.len() && (#[trigger] steps[i]).1 >= steps[0].1 + st.clear_ms,
        timer_after(st, steps).false_since == Some(steps[0].1),
        timer_after(st, steps).clear_ms == st.clear_ms,
    decreases steps.len(),
{
    let last = steps.len() - 1;
    let before = steps.drop_last();
    assert(steps[last] == steps.last());
    if before.len() > 0 {
        assert forall|i: int| 0 <= i < before.len() implies !(#[trigger] before[i]).0 by {
            assert(before[i] == steps[i]);
        }
        law_a_condition_that_is_gone_ends(st, before);
        if exists|i: int| 0 <= i < before.len() && (#[trigger] before[i]).1 >= before[0].1 + st.clear_ms {
            let i = choose|i: int| 0 <= i < before.len() && (#[trigger] before[i]).1 >= before[0].1 + st.clear_ms;
            assert(steps[i] == before[i]);
        }
        if exists|i: int| 0 <= i < steps.len() && (#[trigger] steps[i]).1 >= steps[0].1 + st.clear_ms {
            let i = choose|i: int| 0 <= i < steps.len() && (#[trigger] steps[i]).1 >= steps[0].1 + st.clear_ms;
            if i < last {
                assert(before[i] == steps[i]);
            }
        }
    } else {
        assert(timer_after(st, before) == st);
    }
}

/// A timer that was cleared by force is as good as new.
pub proof fn law_a_forced_clear_forgets(st: HoldState)
    ensures
        st.cleared() == (HoldState {
            hold_ms: st.hold_ms,
            clear_ms: st.clear_ms,
            fired: false,
            true_since: None,
            false_since: None,
        }),
{
}

/// Evidence decays by the time that passed since it was last weighed. It stays
/// as it is where none has passed, where it was never weighed, and where it has
/// no half-life.
pub proof fn law_evidence_decays_by_the_time_passed<A: Arithmetic>(st: ScoreState, math: &A, t_ms: u64, r: Number)
    ensures
        st.last_t_ms is None ==> (st.decays_to(math, t_ms, r) <==> r == st.score),
        st.half_life_ms == 0 ==> (st.decays_to(math, t_ms, r) <==> r == st.score),
        st.last_t_ms is Some && t_ms <= st.last_t_ms->0 ==> (st.decays_to(math, t_ms, r) <==> r == st.score),
        st.last_t_ms is Some && t_ms > st.last_t_ms->0 && st.half_life_ms > 0 ==> (st.decays_to(math, t_ms, r)
            <==> call_ensures(A::decay, (math, st.score, (t_ms - st.last_t_ms->0) as u64, st.half_life_ms), r)),
{
}

/// What is seen is added to what is left of the evidence, not put in its place:
/// the new score is the sum of the decayed score and the amount.
pub proof fn law_evidence_is_added_to_what_is_left<A: Arithmetic>(
    st: ScoreState,
    math: &A,
    amount: Number,
    t_ms: u64,
    left: Number,
    r: Number,
)
    ensures
        st.last_t_ms is None || st.half_life_ms == 0 || (st.last_t_ms is Some && t_ms <= st.last_t_ms->0) ==> (
        st.gathers(math, amount, t_ms, r) <==> call_ensures(A::sum, (math, st.score, amount), r)),
        st.last_t_ms is Some && t_ms > st.last_t_ms->0 && st.half_life_ms > 0 && call_ensures(
            A::decay,
            (math, st.score, (t_ms - st.last_t_ms->0) as u64, st.half_life_ms),
            left,
        ) && call_ensures(A::sum, (math, left, amount), r) ==> st.gathers(math, amount, t_ms, r),
        st.last_t_ms is Some && t_ms > st.last_t_ms->0 && st.half_life_ms > 0 && st.gathers(math, amount, t_ms, r)
            ==> exists|d: Number|
            #![trigger call_ensures(A::sum, (math, d, amount), r)]
            call_ensures(A::decay, (math, st.score, (t_ms - st.last_t_ms->0) as u64, st.half_life_ms), d) && call_ensures(
                A::sum,
                (math, d, amount),
                r,
            ),
        st.holding(r, t_ms).score == r && st.holding(r, t_ms).last_t_ms == Some(t_ms) && st.holding(
            r,
            t_ms,
        ).half_life_ms == st.half_life_ms,
{
}

} // verus!
