//! The detector's own bookkeeping: what a session remembers, what it does to
//! start, and what it tells whoever asks.
//!
//! Two output paths, deliberately different in kind. Events are edge-triggered
//! and low-rate: decisions. A snapshot is level-triggered and polled. There is
//! no way to push continuous values.

pub mod start;
pub mod workers;

use vstd::prelude::*;

use crate::config::Config;
use crate::error::DetectError;
use crate::fusion::ledger::{keys_view, Key};
use crate::number::Number;
use crate::text::{owned, same_text};
use crate::types::{
    copy_objects, copy_subject, events_view, objects_view, subject_view, DegradeReason, DegradeView,
    DetectorState, Event, EventView, ObjectDetection, ObjectView, PipelineStats, Signals, SlotState, Violation,
    ViolationKind, ViolationView,
};

verus! {

broadcast use vstd::string::group_string_axioms;

// ---------------------------------------------------------------------------
// results of the slow workers
// ---------------------------------------------------------------------------

/// One object-worker result, tagged with the frame it was computed on.
///
/// The sequence number lets the face worker tell a result it has not seen
/// before from one it already attached to an earlier frame.
#[derive(Debug, Clone, PartialEq, Eq)]
pub struct ObjectResult {
    pub detections: Vec<ObjectDetection>,
    /// Frame the detections were computed on. `0` = nothing yet.
    pub seq: u64,
    /// `Produced` once a run succeeds, `Failed` after an error,
    /// `NotConfigured` while no object model is loaded.
    pub state: SlotState,
}

/// What an [`ObjectResult`] says.
pub ghost struct ObjectResultView {
    pub detections: Seq<ObjectView>,
    pub seq: u64,
    pub state: SlotState,
}

impl View for ObjectResult {
    type V = ObjectResultView;

    open spec fn view(&self) -> ObjectResultView {
        ObjectResultView {
            detections: objects_view(self.detections@),
            seq: self.seq,
            state: self.state,
        }
    }
}

/// Whether a result computed on frame `seq` is one that a reader at `cursor`
/// has not seen.
pub open spec fn is_new(state: SlotState, seq: u64, cursor: u64) -> bool {
    !(state is NotConfigured) && seq != 0 && seq > cursor
}

/// What a slot did on a frame that gets no new result.
pub open spec fn idle(state: SlotState) -> SlotState {
    if state is NotConfigured {
        SlotState::NotConfigured
    } else {
        SlotState::SkippedCadence
    }
}

impl ObjectResult {
    /// No object model is loaded.
    pub fn absent() -> (r: Self)
        ensures
            r@ == (ObjectResultView { detections: Seq::empty(), seq: 0, state: SlotState::NotConfigured }),
    {
        let detections: Vec<ObjectDetection> = Vec::new();
        assert(objects_view(detections@) =~= Seq::empty());
        ObjectResult { detections, seq: 0, state: SlotState::NotConfigured }
    }

    /// A model is loaded and has not run yet: frames before its first result
    /// read as cadence skips rather than as "no model loaded".
    pub fn armed() -> (r: Self)
        ensures
            r@ == (ObjectResultView { detections: Seq::empty(), seq: 0, state: SlotState::SkippedCadence }),
    {
        let detections: Vec<ObjectDetection> = Vec::new();
        assert(objects_view(detections@) =~= Seq::empty());
        ObjectResult { detections, seq: 0, state: SlotState::SkippedCadence }
    }

    /// The model ran on frame `seq`.
    pub fn produced(detections: Vec<ObjectDetection>, seq: u64) -> (r: Self)
        ensures
            r@ == (ObjectResultView {
                detections: objects_view(detections@),
                seq,
                state: SlotState::Produced,
            }),
    {
        ObjectResult { detections, seq, state: SlotState::Produced }
    }

    /// The model erred on frame `seq`. A result like any other, so that the
    /// face worker reports the failure instead of silence.
    pub fn failed(seq: u64) -> (r: Self)
        ensures
            r@ == (ObjectResultView { detections: Seq::empty(), seq, state: SlotState::Failed }),
    {
        let detections: Vec<ObjectDetection> = Vec::new();
        assert(objects_view(detections@) =~= Seq::empty());
        ObjectResult { detections, seq, state: SlotState::Failed }
    }

    /// Hand out this result if the reader has not seen it, exactly once.
    ///
    /// The two workers run on independent cursors and rarely land on the same
    /// frame. Each result is attached to the first frame that follows it and is
    /// then consumed; every later frame reports a cadence skip with an empty
    /// list, which is not evidence that nothing is there.
    pub fn take_new(&self, cursor: &mut u64) -> (r: (Vec<ObjectDetection>, SlotState))
        ensures
            is_new(self.state, self.seq, *old(cursor)) ==> objects_view(r.0@) == self@.detections && r.1 == self.state
                && *final(cursor) == self.seq,
            !is_new(self.state, self.seq, *old(cursor)) ==> objects_view(r.0@) == Seq::<ObjectView>::empty() && r.1
                == idle(self.state) && *final(cursor) == *old(cursor),
    {
        let nothing: Vec<ObjectDetection> = Vec::new();
        assert(objects_view(nothing@) =~= Seq::empty());
        if self.state == SlotState::NotConfigured {
            return (nothing, SlotState::NotConfigured);
        }
        if self.seq == 0 || self.seq <= *cursor {
            return (nothing, SlotState::SkippedCadence);
        }
        *cursor = self.seq;
        (copy_objects(&self.detections), self.state)
    }
}

/// One identity check, tagged with the frame it ran on.
#[derive(Debug, Clone, Copy, PartialEq, Eq)]
pub struct IdentityResult {
    /// Cosine similarity against the enrolled embedding.
    pub score: Option<Number>,
    pub seq: u64,
    pub state: SlotState,
}

impl IdentityResult {
    /// Nothing to compare against: no model, or nobody enrolled yet. Not a
    /// failure, and not a passing check either.
    pub fn absent() -> (r: Self)
        ensures
            r == (IdentityResult { score: None, seq: 0, state: SlotState::NotConfigured }),
    {
        IdentityResult { score: None, seq: 0, state: SlotState::NotConfigured }
    }

    /// Hand out this result if the reader has not seen it, exactly once.
    pub fn take_new(&self, cursor: &mut u64) -> (r: (Option<Number>, SlotState))
        ensures
            is_new(self.state, self.seq, *old(cursor)) ==> r == (self.score, self.state) && *final(cursor) == self.seq,
            !is_new(self.state, self.seq, *old(cursor)) ==> r == (None::<Number>, idle(self.state)) && *final(cursor)
                == *old(cursor),
    {
        if self.state == SlotState::NotConfigured {
            return (None, SlotState::NotConfigured);
        }
        if self.seq == 0 || self.seq <= *cursor {
            return (None, SlotState::SkippedCadence);
        }
        *cursor = self.seq;
        (self.score, self.state)
    }
}

/// A result is reported on one frame only: once a reader has taken it, it is
/// not new to that reader any more.
pub proof fn law_a_result_is_attached_once(state: SlotState, seq: u64, cursor: u64)
    requires
        is_new(state, seq, cursor),
    ensures
        !is_new(state, seq, seq),
{
}

// ---------------------------------------------------------------------------
// lists that only grow
// ---------------------------------------------------------------------------

/// What a list of reasons says, in order.
pub open spec fn degraded_view(s: Seq<DegradeReason>) -> Seq<DegradeView> {
    s.map_values(|r: DegradeReason| r@)
}

fn same_reason(a: &DegradeReason, b: &DegradeReason) -> (r: bool)
    ensures
        r == (a@ == b@),
{
    match (a, b) {
        (DegradeReason::CameraLost(x), DegradeReason::CameraLost(y)) => same_text(x.as_str(), y.as_str()),
        (
            DegradeReason::ModelUnavailable { model: m, why: w },
            DegradeReason::ModelUnavailable { model: n, why: v },
        ) => same_text(m.as_str(), n.as_str()) && same_text(w.as_str(), v.as_str()),
        (
            DegradeReason::InferenceFailing { model: m, why: w },
            DegradeReason::InferenceFailing { model: n, why: v },
        ) => same_text(m.as_str(), n.as_str()) && same_text(w.as_str(), v.as_str()),
        (
            DegradeReason::ExecutionProviderFallback { model: m, from: f, to: t },
            DegradeReason::ExecutionProviderFallback { model: n, from: g, to: u },
        ) => same_text(m.as_str(), n.as_str()) && same_text(f.as_str(), g.as_str()) && same_text(
            t.as_str(),
            u.as_str(),
        ),
        _ => false,
    }
}

fn copy_reasons(list: &Vec<DegradeReason>) -> (r: Vec<DegradeReason>)
    ensures
        degraded_view(r@) == degraded_view(list@),
{
    let mut r: Vec<DegradeReason> = Vec::new();
    let n: usize = list.len();
    for i in 0..n
        invariant
            n == list@.len(),
            r@.len() == i,
            forall|j: int| 0 <= j < i ==> (#[trigger] r@[j])@ == list@[j]@,
    {
        r.push(list[i].duplicate());
    }
    assert(degraded_view(r@) =~= degraded_view(list@));
    r
}

/// A list with a reason in it, at the end unless it was there already.
pub open spec fn with_reason(list: Seq<DegradeView>, reason: DegradeView) -> Seq<DegradeView> {
    if list.contains(reason) {
        list
    } else {
        list.push(reason)
    }
}

/// However often something degrades for the same reason, the reason is listed
/// once, and none is lost.
pub proof fn law_a_reason_is_listed_once(list: Seq<DegradeView>, reason: DegradeView)
    requires
        list.no_duplicates(),
    ensures
        with_reason(list, reason).no_duplicates(),
        with_reason(list, reason).contains(reason),
        forall|other: DegradeView| list.contains(other) ==> #[trigger] with_reason(list, reason).contains(other),
        with_reason(with_reason(list, reason), reason) == with_reason(list, reason),
{
    let after = with_reason(list, reason);
    if !list.contains(reason) {
        assert(after[after.len() - 1] == reason);
        assert forall|other: DegradeView| list.contains(other) implies #[trigger] after.contains(other) by {
            let i = choose|i: int| 0 <= i < list.len() && list[i] == other;
            assert(after[i] == other);
        }
    }
}

/// What a list of violations says, in order.
pub open spec fn violations_view(s: Seq<Violation>) -> Seq<ViolationView> {
    s.map_values(|v: Violation| v@)
}

/// Whether two records are about the same violation.
pub open spec fn same_violation(a: ViolationView, b: ViolationView) -> bool {
    a.kind == b.kind && a.subject == b.subject && a.t_start_ms == b.t_start_ms
}

/// The first record of a violation in a log.
pub open spec fn row_of(log: Seq<ViolationView>, v: ViolationView) -> Option<int>
    decreases log.len(),
{
    if log.len() == 0 {
        None
    } else {
        match row_of(log.drop_last(), v) {
            Some(i) => Some(i),
            None => if same_violation(log.last(), v) {
                Some(log.len() - 1)
            } else {
                None
            },
        }
    }
}

/// A log with a violation in it. A start is replaced by its own end rather than
/// appended twice. Without `append` only a violation that is there already is
/// replaced.
pub open spec fn logged(log: Seq<ViolationView>, v: ViolationView, append: bool) -> Seq<ViolationView> {
    match row_of(log, v) {
        Some(i) => log.update(i, v),
        None => if append {
            log.push(v)
        } else {
            log
        },
    }
}

/// A log with every violation of a list of events in it.
pub open spec fn logged_all(log: Seq<ViolationView>, events: Seq<EventView>, append: bool) -> Seq<ViolationView>
    decreases events.len(),
{
    if events.len() == 0 {
        log
    } else {
        let before = logged_all(log, events.drop_last(), append);
        match events.last() {
            EventView::ViolationStarted(v) => logged(before, v, append),
            EventView::ViolationEnded(v) => logged(before, v, append),
            _ => before,
        }
    }
}

/// Whether no violation has two records.
pub open spec fn one_row_each(log: Seq<ViolationView>) -> bool {
    forall|i: int, j: int| 0 <= i < j < log.len() ==> !same_violation(#[trigger] log[i], #[trigger] log[j])
}

proof fn lemma_row_of(log: Seq<ViolationView>, v: ViolationView)
    ensures
        match row_of(log, v) {
            Some(i) => 0 <= i < log.len() && same_violation(log[i], v) && forall|j: int|
                0 <= j < i ==> !same_violation(#[trigger] log[j], v),
            None => forall|j: int| 0 <= j < log.len() ==> !same_violation(#[trigger] log[j], v),
        },
    decreases log.len(),
{
    if log.len() > 0 {
        let before = log.drop_last();
        lemma_row_of(before, v);
        match row_of(before, v) {
            Some(i) => {
                assert(before[i] == log[i]);
                assert forall|j: int| 0 <= j < i implies !same_violation(#[trigger] log[j], v) by {
                    assert(before[j] == log[j]);
                }
            },
            None => {
                assert forall|j: int| 0 <= j < before.len() implies !same_violation(#[trigger] log[j], v) by {
                    assert(before[j] == log[j]);
                }
            },
        }
    }
}

/// The log holds one row per violation: logging keeps it so, and a violation
/// that was logged is there afterwards as it was logged. Where only what is
/// there already is replaced, no row is added.
pub proof fn law_the_log_has_one_row_per_violation(log: Seq<ViolationView>, v: ViolationView, append: bool)
    requires
        one_row_each(log),
    ensures
        one_row_each(logged(log, v, append)),
        append || row_of(log, v) is Some ==> logged(log, v, append).contains(v),
        !append ==> logged(log, v, append).len() == log.len(),
{
    lemma_row_of(log, v);
    let next = logged(log, v, append);
    match row_of(log, v) {
        Some(i) => {
            assert(next[i] == v);
            assert forall|a: int, b: int| 0 <= a < b < next.len() implies !same_violation(
                #[trigger] next[a],
                #[trigger] next[b],
            ) by {
                assert(!same_violation(log[a], log[b]));
            }
        },
        None => if append {
            assert(next[log.len() as int] == v);
            assert forall|a: int, b: int| 0 <= a < b < next.len() implies !same_violation(
                #[trigger] next[a],
                #[trigger] next[b],
            ) by {
                if b < log.len() {
                    assert(!same_violation(log[a], log[b]));
                } else {
                    assert(!same_violation(log[a], v));
                }
            }
        },
    }
}

/// Whether an event is the start or the end of a violation, with this record.
pub open spec fn records(e: EventView, v: ViolationView) -> bool {
    e == EventView::ViolationStarted(v) || e == EventView::ViolationEnded(v)
}

/// Whether the `i`th event has this record of a violation, and no later event
/// has one of the same violation.
pub open spec fn last_word(events: Seq<EventView>, i: int, v: ViolationView) -> bool {
    &&& 0 <= i < events.len()
    &&& records(events[i], v)
    &&& forall|j: int, w: ViolationView|
        i < j < events.len() && #[trigger] records(events[j], w) ==> !same_violation(w, v)
}

proof fn lemma_other_rows_stay(log: Seq<ViolationView>, v: ViolationView, other: ViolationView, append: bool)
    requires
        log.contains(other),
        !same_violation(v, other),
    ensures
        logged(log, v, append).contains(other),
{
    lemma_row_of(log, v);
    let k = choose|k: int| 0 <= k < log.len() && log[k] == other;
    assert(logged(log, v, append)[k] == other);
}

/// A log keeps one row per violation whatever list of events is put into it.
/// What was said last about a violation is what its row says, and where rows are
/// only replaced their number stays.
pub proof fn law_logging_events_keeps_one_row_per_violation(
    log: Seq<ViolationView>,
    events: Seq<EventView>,
    append: bool,
)
    requires
        one_row_each(log),
    ensures
        one_row_each(logged_all(log, events, append)),
        append ==> forall|i: int, v: ViolationView| #[trigger]
            last_word(events, i, v) ==> logged_all(log, events, append).contains(v),
        !append ==> logged_all(log, events, append).len() == log.len(),
    decreases events.len(),
{
    if events.len() > 0 {
        let earlier = events.drop_last();
        let before = logged_all(log, earlier, append);
        law_logging_events_keeps_one_row_per_violation(log, earlier, append);
        let e = events.last();
        if let EventView::ViolationStarted(v) = e {
            law_the_log_has_one_row_per_violation(before, v, append);
        } else if let EventView::ViolationEnded(v) = e {
            law_the_log_has_one_row_per_violation(before, v, append);
        }
        if append {
            assert forall|i: int, v: ViolationView| #[trigger] last_word(events, i, v) implies logged_all(
                log,
                events,
                append,
            ).contains(v) by {
                if i < earlier.len() {
                    assert(last_word(earlier, i, v)) by {
                        assert forall|j: int, w: ViolationView|
                            i < j < earlier.len() && #[trigger] records(earlier[j], w) implies !same_violation(w, v) by {
                            assert(records(events[j], w));
                        }
                    }
                    if let EventView::ViolationStarted(w) = e {
                        assert(records(events[events.len() - 1], w));
                        lemma_other_rows_stay(before, w, v, append);
                    } else if let EventView::ViolationEnded(w) = e {
                        assert(records(events[events.len() - 1], w));
                        lemma_other_rows_stay(before, w, v, append);
                    }
                }
            }
        }
    }
}

fn is_same_violation(a: &Violation, b: &Violation) -> (r: bool)
    ensures
        r == same_violation(a@, b@),
{
    a.kind == b.kind && a.t_start_ms == b.t_start_ms && match (&a.subject, &b.subject) {
        (None, None) => true,
        (Some(x), Some(y)) => same_text(x.as_str(), y.as_str()),
        _ => false,
    }
}

/// Put a violation into a log.
pub fn log_violation(log: &mut Vec<Violation>, v: &Violation, append: bool)
    ensures
        violations_view(final(log)@) == logged(violations_view(old(log)@), v@, append),
{
    let n: usize = log.len();
    let ghost before = log@;
    let ghost all = violations_view(before);
    assert(all.take(0) =~= Seq::empty());
    let mut found: Option<usize> = None;
    let mut i: usize = 0;
    while i < n
        invariant
            i <= n,
            n == log@.len(),
            log@ == before,
            all == violations_view(before),
            match found {
                Some(k) => k < n && row_of(all.take(i as int), v@) == Some(k as int),
                None => row_of(all.take(i as int), v@) is None,
            },
        decreases n - i,
    {
        assert(all.take(i + 1).drop_last() =~= all.take(i as int));
        assert(all.take(i + 1).last() == log@[i as int]@);
        if found.is_none() && is_same_violation(&log[i], v) {
            found = Some(i);
        }
        i = i + 1;
    }
    assert(all.take(n as int) =~= all);
    match found {
        Some(k) => {
            log.set(k, v.duplicate());
            assert(violations_view(log@) =~= all.update(k as int, v@));
        },
        None => {
            if append {
                log.push(v.duplicate());
                assert(violations_view(log@) =~= all.push(v@));
            }
        },
    }
}

/// Put every violation of a list of events into a log.
pub fn log_events(log: &mut Vec<Violation>, events: &Vec<Event>, append: bool)
    ensures
        violations_view(final(log)@) == logged_all(violations_view(old(log)@), events_view(events@), append),
{
    let n: usize = events.len();
    let ghost first = violations_view(log@);
    let ghost all = events_view(events@);
    assert(all.take(0) =~= Seq::empty());
    for i in 0..n
        invariant
            n == events@.len(),
            all == events_view(events@),
            violations_view(log@) == logged_all(first, all.take(i as int), append),
    {
        assert(all.take(i + 1).drop_last() =~= all.take(i as int));
        assert(all.take(i + 1).last() == events@[i as int]@);
        match &events[i] {
            Event::ViolationStarted(v) => log_violation(log, v, append),
            Event::ViolationEnded(v) => log_violation(log, v, append),
            _ => {},
        }
    }
    assert(all.take(n as int) =~= all);
}

// ---------------------------------------------------------------------------
// builder
// ---------------------------------------------------------------------------

#[derive(Debug)]
pub struct DetectorBuilder {
    config: Config,
}

impl DetectorBuilder {
    /// The configuration that a detector will be built with.
    pub closed spec fn chosen(&self) -> Config {
        self.config
    }

    pub fn config(self, config: Config) -> (r: Self)
        ensures
            r.chosen() == config,
    {
        DetectorBuilder { config }
    }

    /// Refuses thresholds that could never clear.
    pub fn build(self) -> (r: Result<Detector, DetectError>)
        ensures
            r is Ok <==> self.chosen().thresholds.valid(),
            match r {
                Ok(d) => d@ == idle_session() && d.configured() == self.chosen() && d.built() == self.chosen(),
                Err(e) => e@ == self.chosen().thresholds.complaint(),
            },
    {
        match self.config.validate() {
            Ok(()) => {},
            Err(e) => {
                return Err(e);
            },
        }
        let d = Detector {
            built: self.config,
            tuned: None,
            source_name: String::new(),
            workers: 0,
            stopping: false,
            capture_done: false,
            source_ended: false,
            error: None,
            degraded: Vec::new(),
            violation_log: Vec::new(),
            active_violations: Vec::new(),
            objects: ObjectResult::absent(),
            identity: IdentityResult::absent(),
            enrolled: None,
            enrol_request: false,
            frames_detected: 0,
            frames_skipped: 0,
        };
        assert(d@.source =~= Seq::empty());
        assert(d@.degraded =~= Seq::empty());
        assert(d@.log =~= Seq::empty());
        assert(d@.active =~= Seq::empty());
        Ok(d)
    }
}

// ---------------------------------------------------------------------------
// detector
// ---------------------------------------------------------------------------

/// One session, apart from its threads and its pixels.
#[derive(Debug)]
pub struct Detector {
    /// What the session was built with: it says what is started.
    built: Config,
    /// What has taken its place since, for whoever looks at thresholds.
    tuned: Option<Config>,
    source_name: String,
    /// How many worker threads are running.
    workers: usize,
    stopping: bool,
    capture_done: bool,
    source_ended: bool,
    error: Option<String>,
    degraded: Vec<DegradeReason>,
    /// Every violation this session, closed ones included.
    violation_log: Vec<Violation>,
    active_violations: Vec<(ViolationKind, Option<String>)>,
    objects: ObjectResult,
    identity: IdentityResult,
    /// The enrolled reference embedding. In memory only: enrolment lasts as
    /// long as the process.
    enrolled: Option<Vec<Number>>,
    enrol_request: bool,
    frames_detected: u64,
    frames_skipped: u64,
}

/// What a [`Detector`] remembers, apart from its configuration.
pub ghost struct Session {
    pub source: Seq<char>,
    pub workers: nat,
    pub stopping: bool,
    pub capture_done: bool,
    pub source_ended: bool,
    pub error: Option<Seq<char>>,
    pub degraded: Seq<DegradeView>,
    pub log: Seq<ViolationView>,
    pub active: Seq<Key>,
    pub objects: ObjectResultView,
    pub identity: IdentityResult,
    pub enrolled: Option<Seq<Number>>,
    pub enrol_request: bool,
    pub frames_detected: u64,
    pub frames_skipped: u64,
}

/// A session that has not started.
pub open spec fn idle_session() -> Session {
    Session {
        source: Seq::empty(),
        workers: 0,
        stopping: false,
        capture_done: false,
        source_ended: false,
        error: None,
        degraded: Seq::empty(),
        log: Seq::empty(),
        active: Seq::empty(),
        objects: ObjectResultView { detections: Seq::empty(), seq: 0, state: SlotState::NotConfigured },
        identity: IdentityResult { score: None, seq: 0, state: SlotState::NotConfigured },
        enrolled: None,
        enrol_request: false,
        frames_detected: 0,
        frames_skipped: 0,
    }
}

impl View for Detector {
    type V = Session;

    closed spec fn view(&self) -> Session {
        Session {
            source: self.source_name@,
            workers: self.workers as nat,
            stopping: self.stopping,
            capture_done: self.capture_done,
            source_ended: self.source_ended,
            error: subject_view(self.error),
            degraded: degraded_view(self.degraded@),
            log: violations_view(self.violation_log@),
            active: keys_view(self.active_violations@),
            objects: self.objects@,
            identity: self.identity,
            enrolled: match self.enrolled {
                Some(v) => Some(v@),
                None => None,
            },
            enrol_request: self.enrol_request,
            frames_detected: self.frames_detected,
            frames_skipped: self.frames_skipped,
        }
    }
}

/// How reading from the source went.
#[derive(Debug, Clone, PartialEq, Eq)]
pub enum Captured {
    /// A frame arrived.
    Frame,
    /// A file or a directory ran out. A camera never does.
    Exhausted,
    /// The source failed, and why.
    Failed(String),
    /// Nothing was read: the session is being stopped.
    Stopped,
}

impl Session {
    /// What is remembered once the source has been read.
    pub open spec fn after_capture(self, outcome: Captured) -> Session {
        match outcome {
            Captured::Frame => self,
            Captured::Exhausted => Session { source_ended: true, capture_done: true, ..self },
            Captured::Failed(why) => Session {
                error: match self.error {
                    Some(e) => Some(e),
                    None => Some(why@),
                },
                capture_done: true,
                ..self
            },
            Captured::Stopped => Session { capture_done: true, ..self },
        }
    }
}

impl Detector {
    /// The active configuration.
    pub closed spec fn configured(&self) -> Config {
        match self.tuned {
            Some(config) => config,
            None => self.built,
        }
    }

    /// The configuration that the session was built with.
    pub closed spec fn built(&self) -> Config {
        self.built
    }

    pub fn builder() -> (r: DetectorBuilder)
        ensures
            r.chosen().is_default(),
    {
        DetectorBuilder { config: Config::default() }
    }

    /// Update the configuration that the running session looks at. One that is
    /// not valid changes nothing.
    pub fn update_config(&mut self, config: Config) -> (r: Result<(), DetectError>)
        ensures
            r is Ok <==> config.thresholds.valid(),
            final(self)@ == old(self)@,
            final(self).built() == old(self).built(),
            old(self).configured().thresholds.valid() ==> final(self).configured().thresholds.valid(),
            match r {
                Ok(_) => final(self).configured() == config,
                Err(e) => final(self).configured() == old(self).configured() && e@ == config.thresholds.complaint(),
            },
    {
        match config.validate() {
            Ok(()) => {
                self.tuned = Some(config);
                Ok(())
            },
            Err(e) => Err(e),
        }
    }

    /// Read the active configuration.
    pub fn current_config(&self) -> (r: &Config)
        ensures
            *r == self.configured(),
    {
        match &self.tuned {
            Some(config) => config,
            None => &self.built,
        }
    }

    /// Read the configuration that the session was built with. Models are
    /// loaded from it, whatever the thresholds have become since.
    pub fn built_config(&self) -> (r: &Config)
        ensures
            *r == self.built(),
    {
        &self.built
    }

    /// Ask every worker to stop, and count them as gone.
    pub fn stop(&mut self)
        ensures
            final(self)@ == (Session { stopping: true, workers: 0, ..old(self)@ }),
            final(self).configured() == old(self).configured(),
            final(self).built() == old(self).built(),
    {
        self.stopping = true;
        self.workers = 0;
    }

    pub fn is_stopping(&self) -> (r: bool)
        ensures
            r == self@.stopping,
    {
        self.stopping
    }

    /// Whether the pipeline still has threads doing work.
    pub fn is_running(&self) -> (r: bool)
        ensures
            r == (self@.workers > 0 && !self@.capture_done),
    {
        self.workers > 0 && !self.capture_done
    }

    /// Set when the source ran out cleanly, as opposed to failing.
    pub fn source_ended(&self) -> (r: bool)
        ensures
            r == self@.source_ended,
    {
        self.source_ended
    }

    pub fn capture_done(&self) -> (r: bool)
        ensures
            r == self@.capture_done,
    {
        self.capture_done
    }

    /// The first fatal error, if the session ended because of one.
    pub fn error(&self) -> (r: Option<String>)
        ensures
            subject_view(r) == self@.error,
    {
        copy_subject(&self.error)
    }

    /// Keep the first error.
    pub fn set_error(&mut self, message: &str)
        ensures
            final(self)@ == (Session {
                error: match old(self)@.error {
                    Some(e) => Some(e),
                    None => Some(message@),
                },
                ..old(self)@
            }),
            final(self).configured() == old(self).configured(),
            final(self).built() == old(self).built(),
    {
        if self.error.is_none() {
            self.error = Some(owned(message));
        }
    }

    /// Note what the session can no longer rely on. It is listed once and
    /// reported every time.
    pub fn note_degraded(&mut self, reason: DegradeReason) -> (r: Event)
        ensures
            final(self)@ == (Session { degraded: with_reason(old(self)@.degraded, reason@), ..old(self)@ }),
            final(self).configured() == old(self).configured(),
            final(self).built() == old(self).built(),
            r@ == EventView::Degraded(reason@),
    {
        let n: usize = self.degraded.len();
        let ghost all = degraded_view(self.degraded@);
        let mut known: bool = false;
        for i in 0..n
            invariant
                n == self.degraded@.len(),
                all == degraded_view(self.degraded@),
                self@ == old(self)@,
                self.configured() == old(self).configured(),
                self.built() == old(self).built(),
                known == (exists|j: int| 0 <= j < i && #[trigger] all[j] == reason@),
        {
            assert(all[i as int] == self.degraded@[i as int]@);
            if same_reason(&self.degraded[i], &reason) {
                known = true;
            }
        }
        assert(known == all.contains(reason@));
        if !known {
            self.degraded.push(reason.duplicate());
            assert(degraded_view(self.degraded@) =~= all.push(reason@));
        }
        Event::Degraded(reason)
    }

    /// Note how reading from the source went. Losing the source ends the
    /// session, having said why; it never ends the process.
    pub fn note_captured(&mut self, outcome: &Captured) -> (r: Option<Event>)
        ensures
            final(self)@ == old(self)@.after_capture(*outcome),
            final(self).configured() == old(self).configured(),
            final(self).built() == old(self).built(),
            match outcome {
                Captured::Failed(why) => r matches Some(e) && e@ == EventView::Degraded(
                    DegradeView::CameraLost(why@),
                ),
                _ => r is None,
            },
    {
        match outcome {
            Captured::Frame => None,
            Captured::Exhausted => {
                self.source_ended = true;
                self.capture_done = true;
                None
            },
            Captured::Failed(why) => {
                self.set_error(why.as_str());
                self.capture_done = true;
                Some(Event::Degraded(DegradeReason::CameraLost(why.clone())))
            },
            Captured::Stopped => {
                self.capture_done = true;
                None
            },
        }
    }

    /// Mark the object slot as configured but not yet run.
    pub fn arm_objects(&mut self)
        ensures
            final(self)@ == (Session {
                objects: ObjectResultView {
                    detections: Seq::empty(),
                    seq: 0,
                    state: SlotState::SkippedCadence,
                },
                ..old(self)@
            }),
            final(self).configured() == old(self).configured(),
            final(self).built() == old(self).built(),
    {
        self.objects = ObjectResult::armed();
    }

    /// Publish what the object worker found on frame `seq`.
    pub fn publish_objects(&mut self, detections: Vec<ObjectDetection>, seq: u64)
        ensures
            final(self)@ == (Session {
                objects: ObjectResultView {
                    detections: objects_view(detections@),
                    seq,
                    state: SlotState::Produced,
                },
                ..old(self)@
            }),
            final(self).configured() == old(self).configured(),
            final(self).built() == old(self).built(),
    {
        self.objects = ObjectResult::produced(detections, seq);
    }

    /// Publish that the object worker erred on frame `seq`.
    pub fn publish_object_failure(&mut self, seq: u64)
        ensures
            final(self)@ == (Session {
                objects: ObjectResultView { detections: Seq::empty(), seq, state: SlotState::Failed },
                ..old(self)@
            }),
            final(self).configured() == old(self).configured(),
            final(self).built() == old(self).built(),
    {
        self.objects = ObjectResult::failed(seq);
    }

    /// Mark identity as configured but not yet enrolled.
    pub fn arm_identity(&mut self)
        ensures
            final(self)@ == (Session {
                identity: IdentityResult { score: None, seq: 0, state: SlotState::NotConfigured },
                ..old(self)@
            }),
            final(self).configured() == old(self).configured(),
            final(self).built() == old(self).built(),
    {
        self.identity = IdentityResult::absent();
    }

    /// Publish an identity check on frame `seq`.
    pub fn publish_identity(&mut self, score: Option<Number>, seq: u64, state: SlotState)
        ensures
            final(self)@ == (Session { identity: IdentityResult { score, seq, state }, ..old(self)@ }),
            final(self).configured() == old(self).configured(),
            final(self).built() == old(self).built(),
    {
        self.identity = IdentityResult { score, seq, state };
    }

    /// Capture the next usable face as the identity reference. A request rather
    /// than an immediate capture: the caller has no frame in hand.
    pub fn enrol(&mut self)
        ensures
            final(self)@ == (Session { enrol_request: true, ..old(self)@ }),
            final(self).configured() == old(self).configured(),
            final(self).built() == old(self).built(),
    {
        self.enrol_request = true;
    }

    /// Whether a reference embedding exists.
    pub fn is_enrolled(&self) -> (r: bool)
        ensures
            r == (self@.enrolled is Some),
    {
        self.enrolled.is_some()
    }

    /// Every violation this session, closed ones included.
    pub fn violations(&self) -> (r: Vec<Violation>)
        ensures
            violations_view(r@) == self@.log,
    {
        let mut r: Vec<Violation> = Vec::new();
        let n: usize = self.violation_log.len();
        for i in 0..n
            invariant
                n == self.violation_log@.len(),
                r@.len() == i,
                forall|j: int| 0 <= j < i ==> (#[trigger] r@[j])@ == self.violation_log@[j]@,
        {
            r.push(self.violation_log[i].duplicate());
        }
        assert(violations_view(r@) =~= self@.log);
        r
    }

    /// What can be said about throughput. Rates and latencies are measured by
    /// the caller.
    pub fn stats(&self, measured: PipelineStats) -> (r: PipelineStats)
        ensures
            r == (PipelineStats {
                frames_detected: self@.frames_detected,
                frames_skipped: self@.frames_skipped,
                ..measured
            }),
    {
        PipelineStats {
            frames_captured: measured.frames_captured,
            frames_detected: self.frames_detected,
            frames_skipped: self.frames_skipped,
            capture_fps: measured.capture_fps,
            detect_fps: measured.detect_fps,
            detect_p50_us: measured.detect_p50_us,
            detect_p95_us: measured.detect_p95_us,
            total_p50_us: measured.total_p50_us,
        }
    }

    /// Current continuous values, for a live display. Valid before anything has
    /// been detected.
    pub fn snapshot(&self, latest: Option<&Signals>, measured: PipelineStats) -> (r: DetectorState)
        ensures
            degraded_view(r.degraded@) == self@.degraded,
            !r.calibrated,
            r.stats == (PipelineStats {
                frames_detected: self@.frames_detected,
                frames_skipped: self@.frames_skipped,
                ..measured
            }),
            match latest {
                Some(s) => {
                    &&& r.seq == s.seq
                    &&& r.t_ms == s.t_ms
                    &&& r.face_count == s.faces@.len()
                    &&& r.object_count == s.objects@.len()
                    &&& r.head_pose == s.head_pose
                    &&& r.gaze == s.gaze
                    &&& r.identity_match == s.identity_match
                    &&& r.active_violations@ == self@.active.map_values(|k: Key| k.0)
                },
                None => {
                    &&& r.seq == 0
                    &&& r.t_ms == 0
                    &&& r.face_count == 0
                    &&& r.object_count == 0
                    &&& r.head_pose is None
                    &&& r.gaze is None
                    &&& r.identity_match is None
                    &&& r.active_violations@ == Seq::<ViolationKind>::empty()
                },
            },
    {
        let degraded = copy_reasons(&self.degraded);
        let stats = self.stats(measured);
        match latest {
            Some(s) => {
                let mut kinds: Vec<ViolationKind> = Vec::new();
                let n: usize = self.active_violations.len();
                for i in 0..n
                    invariant
                        n == self.active_violations@.len(),
                        kinds@.len() == i,
                        forall|j: int| 0 <= j < i ==> #[trigger] kinds@[j] == self.active_violations@[j].0,
                {
                    kinds.push(self.active_violations[i].0);
                }
                assert(kinds@ =~= self@.active.map_values(|k: Key| k.0));
                DetectorState {
                    seq: s.seq,
                    t_ms: s.t_ms,
                    face_count: s.faces.len(),
                    head_pose: s.head_pose,
                    gaze: s.gaze,
                    identity_match: s.identity_match,
                    active_violations: kinds,
                    degraded,
                    calibrated: false,
                    object_count: s.objects.len(),
                    stats,
                }
            },
            None => DetectorState {
                seq: 0,
                t_ms: 0,
                face_count: 0,
                head_pose: None,
                gaze: None,
                identity_match: None,
                active_violations: Vec::new(),
                degraded,
                calibrated: false,
                object_count: 0,
                stats,
            },
        }
    }
}

// ---------------------------------------------------------------------------
// report
// ---------------------------------------------------------------------------

/// Whether a signal was alive, because "no violations" and "the detector was
/// never running" must not look alike.
#[derive(Debug, Clone, PartialEq, Eq)]
pub struct SignalStatus {
    pub slot: String,
    pub active: bool,
    pub frames_processed: u64,
    /// What `frames_processed` is a share of; zero when there is no share.
    pub of_frames: u64,
    /// Empty for a slot that is not reported on.
    pub execution_provider: String,
}

/// What a [`SignalStatus`] says.
pub ghost struct StatusView {
    pub slot: Seq<char>,
    pub active: bool,
    pub frames_processed: u64,
    pub of_frames: u64,
    pub execution_provider: Seq<char>,
}

impl View for SignalStatus {
    type V = StatusView;

    open spec fn view(&self) -> StatusView {
        StatusView {
            slot: self.slot@,
            active: self.active,
            frames_processed: self.frames_processed,
            of_frames: self.of_frames,
            execution_provider: self.execution_provider@,
        }
    }
}

/// What a list of statuses says, in order.
pub open spec fn statuses_view(s: Seq<SignalStatus>) -> Seq<StatusView> {
    s.map_values(|x: SignalStatus| x@)
}

/// A slot that processed some of the captured frames.
pub open spec fn measured_status(slot: Seq<char>, processed: u64, captured: u64) -> StatusView {
    StatusView {
        slot,
        active: processed > 0,
        frames_processed: processed,
        of_frames: captured,
        execution_provider: "CPU"@,
    }
}

/// A slot that is present and explicitly inactive. Leaving it out would read as
/// "not applicable".
pub open spec fn inactive_status(slot: Seq<char>) -> StatusView {
    StatusView { slot, active: false, frames_processed: 0, of_frames: 0, execution_provider: Seq::empty() }
}

fn measured(slot: &str, processed: u64, captured: u64) -> (r: SignalStatus)
    ensures
        r@ == measured_status(slot@, processed, captured),
{
    SignalStatus {
        slot: owned(slot),
        active: processed > 0,
        frames_processed: processed,
        of_frames: captured,
        execution_provider: owned("CPU"),
    }
}

fn inactive(slot: &str) -> (r: SignalStatus)
    ensures
        r@ == inactive_status(slot@),
{
    let r = SignalStatus {
        slot: owned(slot),
        active: false,
        frames_processed: 0,
        of_frames: 0,
        execution_provider: String::new(),
    };
    assert(r@.execution_provider =~= Seq::empty());
    r
}

/// Frame counts of a session.
#[derive(Debug, Clone, Copy, PartialEq, Eq)]
pub struct FrameStats {
    pub captured: u64,
    pub processed: u64,
    pub skipped: u64,
    pub duplicate: u64,
    pub mean_fps: Number,
}

/// What a session came to, as far as it can be said without a clock.
#[derive(Debug, Clone, PartialEq, Eq)]
pub struct SessionReport {
    pub source: String,
    pub frames: FrameStats,
    /// In ascending order of the slots' names.
    pub signals: Vec<SignalStatus>,
    /// Every violation of the session, closed ones included.
    pub violations: Vec<Violation>,
    pub degraded: Vec<DegradeReason>,
    /// The configuration that was active.
    pub config: Config,
}

impl Detector {
    /// Report on the session. `object_samples` is how often the object worker
    /// ran: a slot that ran once an hour ago and a slot running at its rate are
    /// not equally alive.
    pub fn report(&self, captured: PipelineStats, object_samples: u64) -> (r: SessionReport)
        ensures
            r.source@ == self@.source,
            r.frames == (FrameStats {
                captured: captured.frames_captured,
                processed: self@.frames_detected,
                skipped: self@.frames_skipped,
                duplicate: 0,
                mean_fps: captured.capture_fps,
            }),
            statuses_view(r.signals@) == seq![
                measured_status("face"@, self@.frames_detected, captured.frames_captured),
                inactive_status("gaze"@),
                inactive_status("identity"@),
                measured_status("objects"@, object_samples, captured.frames_captured),
                inactive_status("pose"@),
            ],
            violations_view(r.violations@) == self@.log,
            degraded_view(r.degraded@) == self@.degraded,
            r.config.reads_as(self.configured()),
    {
        let mut signals: Vec<SignalStatus> = Vec::new();
        signals.push(measured("face", self.frames_detected, captured.frames_captured));
        signals.push(inactive("gaze"));
        signals.push(inactive("identity"));
        signals.push(measured("objects", object_samples, captured.frames_captured));
        signals.push(inactive("pose"));
        assert(statuses_view(signals@) =~= seq![
            measured_status("face"@, self@.frames_detected, captured.frames_captured),
            inactive_status("gaze"@),
            inactive_status("identity"@),
            measured_status("objects"@, object_samples, captured.frames_captured),
            inactive_status("pose"@),
        ]);
        SessionReport {
            source: self.source_name.clone(),
            frames: FrameStats {
                captured: captured.frames_captured,
                processed: self.frames_detected,
                skipped: self.frames_skipped,
                duplicate: 0,
                mean_fps: captured.capture_fps,
            },
            signals,
            violations: self.violations(),
            degraded: copy_reasons(&self.degraded),
            config: self.current_config().duplicate(),
        }
    }
}

// ---------------------------------------------------------------------------
// steps that the workers take together
// ---------------------------------------------------------------------------

impl Detector {
    /// Remember what the session is looking at.
    pub(crate) fn name_source(&mut self, name: &str)
        ensures
            final(self)@ == (Session { source: name@, ..old(self)@ }),
            final(self).configured() == old(self).configured(),
            final(self).built() == old(self).built(),
    {
        self.source_name = owned(name);
    }

    pub(crate) fn worker_count(&self) -> (r: usize)
        ensures
            r == self@.workers,
    {
        self.workers
    }

    /// Count workers that were started.
    pub(crate) fn add_workers(&mut self, n: usize)
        requires
            old(self)@.workers + n <= usize::MAX,
        ensures
            final(self)@ == (Session { workers: (old(self)@.workers + n) as nat, ..old(self)@ }),
            final(self).configured() == old(self).configured(),
            final(self).built() == old(self).built(),
    {
        self.workers = self.workers + n;
    }

    /// The object result for the next frame.
    pub(crate) fn next_objects(&self, cursor: &mut u64) -> (r: (Vec<ObjectDetection>, SlotState))
        ensures
            is_new(self@.objects.state, self@.objects.seq, *old(cursor)) ==> objects_view(r.0@)
                == self@.objects.detections && r.1 == self@.objects.state && *final(cursor) == self@.objects.seq,
            !is_new(self@.objects.state, self@.objects.seq, *old(cursor)) ==> objects_view(r.0@) == Seq::<
                ObjectView,
            >::empty() && r.1 == idle(self@.objects.state) && *final(cursor) == *old(cursor),
    {
        self.objects.take_new(cursor)
    }

    /// The identity result for the next frame.
    pub(crate) fn next_identity(&self, cursor: &mut u64) -> (r: (Option<Number>, SlotState))
        ensures
            is_new(self@.identity.state, self@.identity.seq, *old(cursor)) ==> r == (
                self@.identity.score,
                self@.identity.state,
            ) && *final(cursor) == self@.identity.seq,
            !is_new(self@.identity.state, self@.identity.seq, *old(cursor)) ==> r == (
                None::<Number>,
                idle(self@.identity.state),
            ) && *final(cursor) == *old(cursor),
    {
        self.identity.take_new(cursor)
    }

    /// Take an embedding as the reference if that was asked for, and hand out
    /// the reference to compare it with.
    pub(crate) fn reference_for(&mut self, embedding: &Vec<Number>) -> (r: Option<Vec<Number>>)
        ensures
            final(self)@ == (Session {
                enrolled: if old(self)@.enrol_request {
                    Some(embedding@)
                } else {
                    old(self)@.enrolled
                },
                enrol_request: false,
                ..old(self)@
            }),
            final(self).configured() == old(self).configured(),
            final(self).built() == old(self).built(),
            match (r, final(self)@.enrolled) {
                (Some(v), Some(e)) => v@ == e,
                (None, None) => true,
                _ => false,
            },
    {
        if self.enrol_request {
            self.enrol_request = false;
            self.enrolled = Some(copy_numbers(embedding));
        }
        match &self.enrolled {
            Some(v) => Some(copy_numbers(v)),
            None => None,
        }
    }

    /// Count a frame that was detected, and those that were missed before it.
    pub(crate) fn count_detected(&mut self)
        requires
            old(self)@.frames_detected < u64::MAX,
        ensures
            final(self)@ == (Session {
                frames_detected: (old(self)@.frames_detected + 1) as u64,
                ..old(self)@
            }),
            final(self).configured() == old(self).configured(),
            final(self).built() == old(self).built(),
    {
        self.frames_detected = self.frames_detected + 1;
    }

    /// Count the frames that a worker missed.
    pub fn count_skipped(&mut self, missed: u64)
        requires
            old(self)@.frames_skipped + missed <= u64::MAX,
        ensures
            final(self)@ == (Session {
                frames_skipped: (old(self)@.frames_skipped + missed) as u64,
                ..old(self)@
            }),
            final(self).configured() == old(self).configured(),
            final(self).built() == old(self).built(),
    {
        self.frames_skipped = self.frames_skipped + missed;
    }

    /// Log what fusion reported, and note what is active now.
    pub(crate) fn record(
        &mut self,
        events: &Vec<Event>,
        active: Vec<(ViolationKind, Option<String>)>,
        append: bool,
    )
        ensures
            final(self)@ == (Session {
                log: logged_all(old(self)@.log, events_view(events@), append),
                active: keys_view(active@),
                ..old(self)@
            }),
            final(self).configured() == old(self).configured(),
            final(self).built() == old(self).built(),
    {
        log_events(&mut self.violation_log, events, append);
        self.active_violations = active;
    }
}

fn copy_numbers(list: &Vec<Number>) -> (r: Vec<Number>)
    ensures
        r@ == list@,
{
    let mut r: Vec<Number> = Vec::new();
    let n: usize = list.len();
    for i in 0..n
        invariant
            n == list@.len(),
            r@ == list@.take(i as int),
    {
        r.push(list[i]);
        assert(list@.take(i + 1) =~= list@.take(i as int).push(list@[i as int]));
    }
    assert(list@.take(n as int) =~= list@);
    r
}

// -- laws -------------------------------------------------------------------

/// A result is new to a reader if its slot is configured and it is of a later
/// frame than the reader has seen. A slot that has nothing new was skipped for
/// its cadence, unless there is no such slot.
pub proof fn law_a_result_is_new_by_its_frame(state: SlotState, seq: u64, cursor: u64)
    ensures
        is_new(state, seq, cursor) <==> state != SlotState::NotConfigured && seq > cursor,
        state == SlotState::NotConfigured ==> idle(state) == SlotState::NotConfigured,
        state != SlotState::NotConfigured ==> idle(state) == SlotState::SkippedCadence,
{
}

/// Violations are told apart by what they are, what they are about and when they
/// started. Logging one replaces the row of that same violation, wherever it
/// stands, and leaves every other row where it was.
pub proof fn law_a_violation_is_known_by_kind_subject_and_start(
    log: Seq<ViolationView>,
    v: ViolationView,
    append: bool,
    i: int,
)
    requires
        0 <= i < log.len(),
        one_row_each(log),
    ensures
        ({
            let same = log[i].kind == v.kind && log[i].subject == v.subject && log[i].t_start_ms == v.t_start_ms;
            let next = logged(log, v, append);
            &&& same ==> next[i] == v && next.len() == log.len()
            &&& !same ==> next[i] == log[i]
        }),
        log.len() <= logged(log, v, append).len() <= log.len() + 1,
        logged(log, v, append).len() == log.len() + 1 ==> append && logged(log, v, append).last() == v && forall|j: int|
            0 <= j < log.len() ==> !((#[trigger] log[j]).kind == v.kind && log[j].subject == v.subject
                && log[j].t_start_ms == v.t_start_ms),
        append && (forall|j: int|
            0 <= j < log.len() ==> !((#[trigger] log[j]).kind == v.kind && log[j].subject == v.subject
                && log[j].t_start_ms == v.t_start_ms)) ==> logged(log, v, append) == log.push(v),
{
    lemma_row_of(log, v);
    match row_of(log, v) {
        Some(k) => {
            if same_violation(log[i], v) && i != k {
                if i < k {
                    assert(!same_violation(log[i], log[k]));
                } else {
                    assert(!same_violation(log[k], log[i]));
                }
            }
            assert(same_violation(log[k], v));
        },
        None => {
            assert(!same_violation(log[i], v));
        },
    }
}

/// An empty log takes the first violation as it is, if rows may be added.
pub proof fn law_an_empty_log_takes_the_first(v: ViolationView)
    ensures
        logged(Seq::empty(), v, true) == seq![v],
        logged(Seq::empty(), v, false) == Seq::<ViolationView>::empty(),
{
    assert(logged(Seq::empty(), v, true) =~= seq![v]);
}

/// Events are logged one after the other: starts and ends as the violations they
/// are of, and no other event at all.
pub proof fn law_events_are_logged_in_order(log: Seq<ViolationView>, events: Seq<EventView>, e: EventView, append: bool)
    ensures
        logged_all(log, Seq::empty(), append) == log,
        e matches EventView::ViolationStarted(v) ==> logged_all(log, events.push(e), append) == logged(
            logged_all(log, events, append),
            v,
            append,
        ),
        e matches EventView::ViolationEnded(v) ==> logged_all(log, events.push(e), append) == logged(
            logged_all(log, events, append),
            v,
            append,
        ),
        !(e is ViolationStarted) && !(e is ViolationEnded) ==> logged_all(log, events.push(e), append) == logged_all(
            log,
            events,
            append,
        ),
{
    assert(events.push(e).drop_last() =~= events);
}

/// Capture goes on frame by frame until the source ends, fails or is stopped.
/// Only an end is an end of the source, and only a failure leaves an error, the
/// first one.
pub proof fn law_capture_ends_once(s: Session, outcome: Captured)
    ensures
        ({
            let n = s.after_capture(outcome);
            &&& outcome is Frame ==> n == s
            &&& !(outcome is Frame) ==> n.capture_done
            &&& n.source_ended <==> s.source_ended || outcome is Exhausted
            &&& outcome matches Captured::Failed(why) ==> n.error == (if s.error is Some {
                s.error
            } else {
                Some(why@)
            })
            &&& !(outcome is Failed) ==> n.error == s.error
            &&& n == (Session {
                capture_done: n.capture_done,
                source_ended: n.source_ended,
                error: n.error,
                ..s
            })
        }),
{
}

/// Reasons are listed in the order in which they first came up.
pub proof fn law_reasons_keep_their_order(list: Seq<DegradeView>, reason: DegradeView, i: int)
    requires
        0 <= i < list.len(),
    ensures
        with_reason(list, reason)[i] == list[i],
        with_reason(list, reason).len() == list.len() + (if list.contains(reason) {
            0int
        } else {
            1int
        }),
        !list.contains(reason) ==> with_reason(list, reason).last() == reason,
{
}

/// A session that was not started has seen nothing, found nothing and logged
/// nothing.
pub proof fn law_a_session_begins_with_nothing()
    ensures
        ({
            let s = idle_session();
            &&& s.workers == 0 && !s.stopping && !s.capture_done && !s.source_ended && s.error is None
            &&& s.source.len() == 0 && s.degraded.len() == 0 && s.log.len() == 0 && s.active.len() == 0
            &&& s.objects.detections.len() == 0 && s.objects.seq == 0 && s.objects.state is NotConfigured
            &&& s.identity.score is None && s.identity.seq == 0 && s.identity.state is NotConfigured
            &&& s.enrolled is None && !s.enrol_request && s.frames_detected == 0 && s.frames_skipped == 0
        }),
{
}

/// A slot that was measured says on how many frames it ran, of how many, and is
/// active if that is any; one that was not measured says nothing.
pub proof fn law_a_status_says_what_ran(slot: Seq<char>, processed: u64, captured: u64)
    ensures
        ({
            let m = measured_status(slot, processed, captured);
            &&& m.slot == slot && m.frames_processed == processed && m.of_frames == captured
            &&& m.active <==> processed > 0
            &&& m.execution_provider == "CPU"@
        }),
        ({
            let n = inactive_status(slot);
            &&& n.slot == slot && !n.active && n.frames_processed == 0 && n.of_frames == 0
            &&& n.execution_provider == Seq::<char>::empty()
        }),
{
}

/// Lists of violations, reasons and statuses say what each of them says, in
/// order, and so does a result of the object worker.
pub proof fn law_session_lists_say_what_is_in_them(
    log: Seq<Violation>,
    reasons: Seq<DegradeReason>,
    statuses: Seq<SignalStatus>,
    objects: ObjectResult,
    i: int,
)
    ensures
        violations_view(log).len() == log.len(),
        0 <= i < log.len() ==> violations_view(log)[i] == log[i]@,
        degraded_view(reasons).len() == reasons.len(),
        0 <= i < reasons.len() ==> degraded_view(reasons)[i] == reasons[i]@,
        statuses_view(statuses).len() == statuses.len(),
        0 <= i < statuses.len() ==> {
            let (v, s) = (statuses_view(statuses)[i], statuses[i]);
            &&& v.slot == s.slot@ && v.active == s.active && v.frames_processed == s.frames_processed
            &&& v.of_frames == s.of_frames && v.execution_provider == s.execution_provider@
        },
        objects@.detections == objects_view(objects.detections@) && objects@.seq == objects.seq && objects@.state
            == objects.state,
{
}

} // verus!
