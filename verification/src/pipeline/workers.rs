//! What the workers decide.
//!
//! Every worker reads the latest frame rather than a queue and never blocks
//! capture. The threads, the waiting and the models are the caller's part; what
//! follows from what a model said is worked out here.

use vstd::prelude::*;

use crate::config::Config;
use crate::fusion::ledger::{in_order, keys_view};
use crate::fusion::model::{self, FusionState};
use crate::fusion::FusionEngine;
use crate::models::StageTimings;
use crate::number::{Arithmetic, Number};
use crate::text::owned;
use crate::types::{
    events_view, objects_view, DegradeReason, DegradeView, Event, EventView, FaceDetection, GateReason, Gaze,
    HeadPose, ObjectDetection, ObjectView, SignalCoverage, Signals, SlotState,
};
use super::{
    idle, is_new, law_logging_events_keeps_one_row_per_violation, logged_all, one_row_each, Detector,
    IdentityResult, Session,
};

verus! {

broadcast use vstd::string::group_string_axioms;

/// Whether a worker is done: it was told to stop, or capture is over and it has
/// seen the last frame.
pub fn worker_done(stopping: bool, capture_done: bool, latest_seq: u64, last_seen: u64) -> (r: bool)
    ensures
        r == (stopping || (capture_done && latest_seq <= last_seen)),
{
    stopping || (capture_done && latest_seq <= last_seen)
}

/// Look at the newest frame on the bus. Returns how many frames were missed in
/// between, unless the newest one has been seen: a slow reader drops what it
/// missed rather than queueing it.
pub fn take_new(latest_seq: u64, last_seen: &mut u64) -> (r: Option<u64>)
    ensures
        match r {
            Some(missed) => latest_seq > *old(last_seen) && missed == latest_seq - *old(last_seen) - 1
                && *final(last_seen) == latest_seq,
            None => latest_seq <= *old(last_seen) && *final(last_seen) == *old(last_seen),
        },
{
    if latest_seq <= *last_seen {
        return None;
    }
    let missed: u64 = latest_seq - *last_seen - 1;
    *last_seen = latest_seq;
    Some(missed)
}

// ---------------------------------------------------------------------------
// health of the face model
// ---------------------------------------------------------------------------

/// How the face model has been doing.
#[derive(Debug, Clone, Copy, PartialEq, Eq)]
pub struct FaceHealth {
    pub failures: u32,
    pub degraded: bool,
}

/// How many failures in a row are worth saying out loud.
pub const FAILURES_TO_REPORT: u32 = 3;

impl FaceHealth {
    pub fn new() -> (r: Self)
        ensures
            r == (FaceHealth { failures: 0, degraded: false }),
    {
        FaceHealth { failures: 0, degraded: false }
    }

    /// What a success after a degraded stretch reports.
    pub open spec fn recovery(self) -> Seq<EventView> {
        if self.degraded {
            seq![EventView::Recovered]
        } else {
            Seq::empty()
        }
    }

    /// Note that the model ran.
    pub fn succeed(&mut self) -> (r: Option<Event>)
        ensures
            *final(self) == (FaceHealth { failures: 0, degraded: false }),
            old(self).degraded ==> (r matches Some(e) && e@ is Recovered),
            !old(self).degraded ==> r is None,
    {
        let was: bool = self.degraded;
        self.degraded = false;
        self.failures = 0;
        if was {
            Some(Event::Recovered)
        } else {
            None
        }
    }

    /// Note that the model erred. One bad frame is not a reason to end a
    /// session; a model that fails every frame is reported once.
    pub fn fail(&mut self, why: &str) -> (r: Option<Event>)
        requires
            old(self).failures < u32::MAX,
        ensures
            final(self).failures == old(self).failures + 1,
            final(self).degraded == (old(self).degraded || final(self).failures >= FAILURES_TO_REPORT),
            match r {
                Some(e) => !old(self).degraded && final(self).degraded && e@ == EventView::Degraded(
                    DegradeView::InferenceFailing { model: "yunet"@, why: why@ },
                ),
                None => old(self).degraded == final(self).degraded,
            },
    {
        self.failures = self.failures + 1;
        if !self.degraded && self.failures >= FAILURES_TO_REPORT {
            self.degraded = true;
            return Some(
                Event::Degraded(DegradeReason::InferenceFailing { model: owned("yunet"), why: owned(why) }),
            );
        }
        None
    }
}

// ---------------------------------------------------------------------------
// one frame
// ---------------------------------------------------------------------------

/// What the pose model said about a frame.
#[derive(Debug, Clone, Copy, PartialEq, Eq)]
pub enum PoseRun {
    Produced { pose: HeadPose, timings: StageTimings },
    Failed,
}

/// What the gaze model said about a frame.
#[derive(Debug, Clone, Copy, PartialEq, Eq)]
pub enum GazeRun {
    Produced { gaze: Gaze, timings: StageTimings },
    /// The model declined: no value and no timings, so that a skipped frame
    /// cannot read as one where gaze ran unusually fast.
    Gated(GateReason),
    Failed,
}

/// What the models said about one frame.
#[derive(Debug, Clone, PartialEq, Eq)]
pub struct Measured {
    pub seq: u64,
    pub t_ms: u64,
    /// Most confident first.
    pub faces: Vec<FaceDetection>,
    /// What the face model took.
    pub timings: StageTimings,
    pub pose_configured: bool,
    /// `None` when the pose model was not run.
    pub pose: Option<PoseRun>,
    pub gaze_configured: bool,
    /// `None` when the gaze model was not run.
    pub gaze: Option<GazeRun>,
}

/// Whether a model that needs a face has one to run on.
pub fn has_crop(configured: bool, faces: usize) -> (r: bool)
    ensures
        r == (configured && faces > 0),
{
    configured && faces > 0
}

impl Measured {
    /// What the pose slot did. Without a face there is nothing to crop from,
    /// which is a gated skip.
    pub open spec fn pose_state(self) -> SlotState {
        match self.pose {
            Some(PoseRun::Produced { .. }) => SlotState::Produced,
            Some(PoseRun::Failed) => SlotState::Failed,
            None => if self.pose_configured && self.faces@.len() == 0 {
                SlotState::SkippedGated
            } else {
                SlotState::NotConfigured
            },
        }
    }

    pub open spec fn head_pose(self) -> Option<HeadPose> {
        match self.pose {
            Some(PoseRun::Produced { pose, .. }) => Some(pose),
            _ => None,
        }
    }

    /// What the gaze slot did, and why if it declined.
    pub open spec fn gaze_state(self) -> (SlotState, Option<GateReason>) {
        let unrun = if self.gaze_configured && self.faces@.len() == 0 {
            (SlotState::SkippedGated, Some(GateReason::NoFace))
        } else {
            (SlotState::NotConfigured, None)
        };
        match self.gaze {
            Some(GazeRun::Produced { .. }) => (SlotState::Produced, unrun.1),
            Some(GazeRun::Gated(reason)) => (SlotState::SkippedGated, Some(reason)),
            Some(GazeRun::Failed) => (SlotState::Failed, unrun.1),
            None => unrun,
        }
    }

    pub open spec fn gaze_value(self) -> Option<Gaze> {
        match self.gaze {
            Some(GazeRun::Produced { gaze, .. }) => Some(gaze),
            _ => None,
        }
    }

    /// What the models that ran took together, stage by stage.
    pub open spec fn spent(self) -> (int, int, int) {
        let pose = match self.pose {
            Some(PoseRun::Produced { timings, .. }) => timings,
            _ => StageTimings { preprocess_us: 0, inference_us: 0, postprocess_us: 0 },
        };
        let gaze = match self.gaze {
            Some(GazeRun::Produced { timings, .. }) => timings,
            _ => StageTimings { preprocess_us: 0, inference_us: 0, postprocess_us: 0 },
        };
        (
            self.timings.preprocess_us + pose.preprocess_us + gaze.preprocess_us,
            self.timings.inference_us + pose.inference_us + gaze.inference_us,
            self.timings.postprocess_us + pose.postprocess_us + gaze.postprocess_us,
        )
    }

    /// Whether those sums can be counted.
    pub open spec fn countable(self) -> bool {
        self.spent().0 + self.spent().1 + self.spent().2 <= u32::MAX
    }

    /// Whether `s` is what the models said together with what the slow workers
    /// had to add.
    pub open spec fn makes(
        self,
        objects: Seq<ObjectView>,
        objects_state: SlotState,
        identity: Option<Number>,
        identity_state: SlotState,
        s: Signals,
    ) -> bool {
        &&& s.seq == self.seq
        &&& s.t_ms == self.t_ms
        &&& s.faces@ == self.faces@
        &&& s.head_pose == self.head_pose()
        &&& s.gaze == self.gaze_value()
        &&& objects_view(s.objects@) == objects
        &&& s.identity_match == identity
        &&& s.eye_aspect is None
        &&& s.produced_by == (SignalCoverage {
            face: SlotState::Produced,
            pose: self.pose_state(),
            gaze: self.gaze_state().0,
            objects: objects_state,
            identity: identity_state,
            gaze_gate: self.gaze_state().1,
        })
    }
}

fn time_of(t: &StageTimings) -> (r: u64)
    ensures
        r == t.preprocess_us + t.inference_us + t.postprocess_us,
{
    t.preprocess_us as u64 + t.inference_us as u64 + t.postprocess_us as u64
}

impl Measured {
    /// Whether what the frame took can be added up.
    pub fn can_count(&self) -> (r: bool)
        ensures
            r == self.countable(),
    {
        let pose: u64 = match &self.pose {
            Some(PoseRun::Produced { timings, .. }) => time_of(timings),
            _ => 0,
        };
        let gaze: u64 = match &self.gaze {
            Some(GazeRun::Produced { timings, .. }) => time_of(timings),
            _ => 0,
        };
        time_of(&self.timings) + pose + gaze <= u32::MAX as u64
    }
}

/// Put together what is known about one frame, and what it took.
pub fn assemble(
    m: Measured,
    objects: Vec<ObjectDetection>,
    objects_state: SlotState,
    identity: Option<Number>,
    identity_state: SlotState,
) -> (r: (Signals, StageTimings))
    requires
        m.countable(),
    ensures
        m.makes(objects_view(objects@), objects_state, identity, identity_state, r.0),
        r.0.seq == m.seq,
        r.0.t_ms == m.t_ms,
        r.0.faces@ == m.faces@,
        match m.pose {
            Some(PoseRun::Produced { pose, .. }) => r.0.head_pose == Some(pose) && r.0.produced_by.pose is Produced,
            Some(PoseRun::Failed) => r.0.head_pose is None && r.0.produced_by.pose is Failed,
            None => r.0.head_pose is None,
        },
        match m.gaze {
            Some(GazeRun::Produced { gaze, .. }) => r.0.gaze == Some(gaze) && r.0.produced_by.gaze is Produced,
            Some(GazeRun::Gated(reason)) => r.0.gaze is None && r.0.produced_by.gaze is SkippedGated
                && r.0.produced_by.gaze_gate == Some(reason),
            Some(GazeRun::Failed) => r.0.gaze is None && r.0.produced_by.gaze is Failed,
            None => r.0.gaze is None,
        },
        objects_view(r.0.objects@) == objects_view(objects@),
        r.0.produced_by.objects == objects_state,
        r.0.identity_match == identity,
        r.0.produced_by.identity == identity_state,
        r.1.preprocess_us == m.spent().0,
        r.1.inference_us == m.spent().1,
        r.1.postprocess_us == m.spent().2,
{
    let empty: bool = m.faces.len() == 0;
    let mut timings = m.timings;
    let mut head_pose: Option<HeadPose> = None;
    let mut pose_state = if m.pose_configured && empty {
        SlotState::SkippedGated
    } else {
        SlotState::NotConfigured
    };
    match m.pose {
        Some(PoseRun::Produced { pose, timings: t }) => {
            head_pose = Some(pose);
            pose_state = SlotState::Produced;
            timings.preprocess_us = timings.preprocess_us + t.preprocess_us;
            timings.inference_us = timings.inference_us + t.inference_us;
            timings.postprocess_us = timings.postprocess_us + t.postprocess_us;
        },
        Some(PoseRun::Failed) => {
            // Losing pose is a degraded capability, not a dead session.
            pose_state = SlotState::Failed;
        },
        None => {},
    }

    let mut gaze: Option<Gaze> = None;
    let mut gaze_state = SlotState::NotConfigured;
    let mut gaze_gate: Option<GateReason> = None;
    if m.gaze_configured && empty {
        gaze_state = SlotState::SkippedGated;
        gaze_gate = Some(GateReason::NoFace);
    }
    match m.gaze {
        Some(GazeRun::Produced { gaze: g, timings: t }) => {
            gaze = Some(g);
            gaze_state = SlotState::Produced;
            timings.preprocess_us = timings.preprocess_us + t.preprocess_us;
            timings.inference_us = timings.inference_us + t.inference_us;
            timings.postprocess_us = timings.postprocess_us + t.postprocess_us;
        },
        Some(GazeRun::Gated(reason)) => {
            gaze_state = SlotState::SkippedGated;
            gaze_gate = Some(reason);
        },
        Some(GazeRun::Failed) => {
            gaze_state = SlotState::Failed;
        },
        None => {},
    }

    let signals = Signals {
        seq: m.seq,
        t_ms: m.t_ms,
        faces: m.faces,
        head_pose,
        gaze,
        objects,
        identity_match: identity,
        eye_aspect: None,
        produced_by: SignalCoverage {
            face: SlotState::Produced,
            pose: pose_state,
            gaze: gaze_state,
            objects: objects_state,
            identity: identity_state,
            gaze_gate,
        },
    };
    (signals, timings)
}

// ---------------------------------------------------------------------------
// the detect worker
// ---------------------------------------------------------------------------

/// What the detect worker keeps to itself.
pub struct DetectWorker {
    objects_seen: u64,
    identity_seen: u64,
    health: FaceHealth,
    fusion: FusionEngine,
}

/// What a [`DetectWorker`] remembers.
pub ghost struct WorkerState {
    pub objects_seen: u64,
    pub identity_seen: u64,
    pub health: FaceHealth,
    pub fusion: FusionState,
}

impl View for DetectWorker {
    type V = WorkerState;

    closed spec fn view(&self) -> WorkerState {
        WorkerState {
            objects_seen: self.objects_seen,
            identity_seen: self.identity_seen,
            health: self.health,
            fusion: self.fusion@,
        }
    }
}

/// A frame's signals, what to report about it, and what it took.
#[derive(Debug, Clone, PartialEq, Eq)]
pub struct Detected {
    pub signals: Signals,
    /// To be sent, in order.
    pub events: Vec<Event>,
    /// Model time only.
    pub detect_us: u32,
    /// Including preprocessing and decode.
    pub total_us: u32,
}

/// Where a reader's cursor stands after a result was offered to it.
pub open spec fn cursor_after(state: SlotState, seq: u64, cursor: u64) -> u64 {
    if is_new(state, seq, cursor) {
        seq
    } else {
        cursor
    }
}

/// What a slot reports on a frame that a result is offered to.
pub open spec fn slot_after(state: SlotState, seq: u64, cursor: u64) -> SlotState {
    if is_new(state, seq, cursor) {
        state
    } else {
        idle(state)
    }
}

impl WorkerState {
    /// The objects that the next frame carries.
    pub open spec fn next_objects(self, session: Session) -> Seq<ObjectView> {
        if is_new(session.objects.state, session.objects.seq, self.objects_seen) {
            session.objects.detections
        } else {
            Seq::empty()
        }
    }

    /// The similarity that the next frame carries.
    pub open spec fn next_identity(self, session: Session) -> Option<Number> {
        if is_new(session.identity.state, session.identity.seq, self.identity_seen) {
            session.identity.score
        } else {
            None
        }
    }
}

impl DetectWorker {
    /// Fusion keeps its violations in order.
    pub closed spec fn inv(&self) -> bool {
        self.fusion.inv()
    }

    pub fn new(cfg: &Config) -> (r: Self)
        requires
            cfg.thresholds.pairs_hold(),
        ensures
            r.inv(),
            r@ == (WorkerState {
                objects_seen: 0,
                identity_seen: 0,
                health: FaceHealth { failures: 0, degraded: false },
                fusion: model::initial(cfg.thresholds),
            }),
    {
        DetectWorker {
            objects_seen: 0,
            identity_seen: 0,
            health: FaceHealth::new(),
            fusion: FusionEngine::new(cfg),
        }
    }

    /// Take up new thresholds. Fusion starts over with them; everything else
    /// goes on.
    pub fn reload(&mut self, cfg: &Config)
        requires
            cfg.thresholds.pairs_hold(),
        ensures
            final(self).inv(),
            final(self)@ == (WorkerState { fusion: model::initial(cfg.thresholds), ..old(self)@ }),
    {
        self.fusion = FusionEngine::new(cfg);
    }

    /// Whether fusion can take another frame.
    pub fn can_count(&self) -> (r: bool)
        ensures
            r == (self@.fusion.identity_failures < u32::MAX),
    {
        self.fusion.can_count()
    }

    /// Whether another failure of the face model can be counted.
    pub fn can_fail(&self) -> (r: bool)
        ensures
            r == (self@.health.failures < u32::MAX),
    {
        self.health.failures < u32::MAX
    }

    /// Conclude from what the models said about one frame: attach what the slow
    /// workers have to add, run fusion on it, log what it reports, and note what
    /// is active now.
    pub fn detected<A: Arithmetic>(&mut self, session: &mut Detector, m: Measured, math: &A) -> (r: Detected)
        requires
            old(self).inv(),
            old(self)@.fusion.identity_failures < u32::MAX,
            old(session)@.frames_detected < u64::MAX,
            m.countable(),
        ensures
            final(self).inv(),
            m.makes(
                old(self)@.next_objects(old(session)@),
                slot_after(old(session)@.objects.state, old(session)@.objects.seq, old(self)@.objects_seen),
                old(self)@.next_identity(old(session)@),
                slot_after(old(session)@.identity.state, old(session)@.identity.seq, old(self)@.identity_seen),
                r.signals,
            ),
            r.detect_us == m.spent().1,
            r.total_us == m.spent().0 + m.spent().1 + m.spent().2,
            exists|fused: Seq<EventView>|
                #[trigger] old(self)@.fusion.steps_to(math, r.signals, m.t_ms, final(self)@.fusion, fused)
                    && events_view(r.events@) == old(self)@.health.recovery() + fused && final(session)@ == (Session {
                    log: logged_all(old(session)@.log, fused, true),
                    active: in_order(final(self)@.fusion.open.dom()),
                    frames_detected: (old(session)@.frames_detected + 1) as u64,
                    ..old(session)@
                }),
            final(self)@ == (WorkerState {
                objects_seen: cursor_after(
                    old(session)@.objects.state,
                    old(session)@.objects.seq,
                    old(self)@.objects_seen,
                ),
                identity_seen: cursor_after(
                    old(session)@.identity.state,
                    old(session)@.identity.seq,
                    old(self)@.identity_seen,
                ),
                health: FaceHealth { failures: 0, degraded: false },
                fusion: final(self)@.fusion,
            }),
            one_row_each(old(session)@.log) ==> one_row_each(final(session)@.log),
            final(session).configured() == old(session).configured(),
            final(session).built() == old(session).built(),
    {
        let ghost before = self@;
        let ghost log = session@.log;
        let mut events: Vec<Event> = Vec::new();
        assert(events_view(events@) =~= Seq::empty());
        // A report that shows a degraded window without a recovery reads as
        // though the signal never came back.
        if let Some(e) = self.health.succeed() {
            events.push(e);
        }
        assert(events_view(events@) =~= before.health.recovery());
        let mut objects_seen: u64 = self.objects_seen;
        let mut identity_seen: u64 = self.identity_seen;
        let (objects, objects_state) = session.next_objects(&mut objects_seen);
        let (identity, identity_state) = session.next_identity(&mut identity_seen);
        self.objects_seen = objects_seen;
        self.identity_seen = identity_seen;
        let (signals, timings) = assemble(m, objects, objects_state, identity, identity_state);
        let mut fused = self.fusion.step(&signals, signals.t_ms, math);
        let active = self.fusion.active_detail();
        session.record(&fused, active, true);
        session.count_detected();
        let ghost reported = events_view(fused@);
        let ghost first = events_view(events@);
        proof {
            if one_row_each(log) {
                law_logging_events_keeps_one_row_per_violation(log, reported, true);
            }
        }
        events.append(&mut fused);
        assert(events_view(events@) =~= first + reported);
        let total_us: u32 = timings.total_us();
        Detected { signals, events, detect_us: timings.inference_us, total_us }
    }

    /// Note that the face model erred on a frame.
    pub fn face_failed(&mut self, why: &str) -> (r: Option<Event>)
        requires
            old(self).inv(),
            old(self)@.health.failures < u32::MAX,
        ensures
            final(self).inv(),
            final(self)@ == (WorkerState {
                health: FaceHealth {
                    failures: (old(self)@.health.failures + 1) as u32,
                    degraded: old(self)@.health.degraded || old(self)@.health.failures + 1 >= FAILURES_TO_REPORT,
                },
                ..old(self)@
            }),
            match r {
                Some(e) => !old(self)@.health.degraded && final(self)@.health.degraded && e@ == EventView::Degraded(
                    DegradeView::InferenceFailing { model: "yunet"@, why: why@ },
                ),
                None => old(self)@.health.degraded == final(self)@.health.degraded,
            },
    {
        self.health.fail(why)
    }

    /// Close what is still open, as the session ends. A row of the log gets its
    /// end; nothing is active any more.
    pub fn finish(&mut self, session: &mut Detector, t_ms: u64) -> (r: Vec<Event>)
        requires
            old(self).inv(),
        ensures
            final(self).inv(),
            events_view(r@) == old(self)@.fusion.endings(t_ms),
            final(self)@ == (WorkerState { fusion: old(self)@.fusion.closed_out(), ..old(self)@ }),
            final(session)@ == (Session {
                log: logged_all(old(session)@.log, old(self)@.fusion.endings(t_ms), false),
                active: Seq::empty(),
                ..old(session)@
            }),
            one_row_each(old(session)@.log) ==> one_row_each(final(session)@.log),
            final(session).configured() == old(session).configured(),
            final(session).built() == old(session).built(),
    {
        let ghost log = session@.log;
        let events = self.fusion.finish(t_ms);
        proof {
            if one_row_each(log) {
                law_logging_events_keeps_one_row_per_violation(log, events_view(events@), false);
            }
        }
        let nothing: Vec<(crate::types::ViolationKind, Option<String>)> = Vec::new();
        assert(keys_view(nothing@) =~= Seq::empty());
        session.record(&events, nothing, false);
        events
    }
}

// ---------------------------------------------------------------------------
// the identity worker
// ---------------------------------------------------------------------------

/// How an identity check went.
#[derive(Debug, Clone, Copy, PartialEq, Eq)]
pub enum Checked {
    /// There was no face, or a crop too poor to compare.
    NoUsableFace,
    /// The model erred.
    Failed,
    /// Nobody has enrolled, so there is nothing to compare against. Not a pass.
    Unenrolled,
    /// Compared with the reference.
    Compared(Number),
}

impl Checked {
    /// What a check says about frame `seq`.
    pub open spec fn result(self, seq: u64) -> IdentityResult {
        match self {
            Checked::NoUsableFace => IdentityResult { score: None, seq, state: SlotState::SkippedGated },
            Checked::Failed => IdentityResult { score: None, seq, state: SlotState::Failed },
            Checked::Unenrolled => IdentityResult { score: None, seq, state: SlotState::NotConfigured },
            Checked::Compared(score) => IdentityResult {
                score: Some(score),
                seq,
                state: SlotState::Produced,
            },
        }
    }
}

impl Detector {
    /// Whether a face is good enough to compare. A low-scoring box is a bad
    /// crop, and a bad crop is where false mismatches come from.
    pub fn is_comparable(&self, face_score: Option<Number>) -> (r: bool)
        ensures
            r == (face_score matches Some(score) && !Number::lt(
                score,
                self.configured().thresholds.face.min_score,
            )),
    {
        match face_score {
            Some(score) => !score.below(self.current_config().thresholds.face.min_score),
            None => false,
        }
    }

    /// Take in a face's embedding. It becomes the reference if enrolment was
    /// asked for. Returns the reference to compare it with, if there is one.
    pub fn note_embedding(&mut self, embedding: &Vec<Number>) -> (r: Option<Vec<Number>>)
        ensures
            final(self)@ == (Session {
                enrolled: if old(self)@.enrol_request {
                    Some(embedding@)
                } else {
                    old(self)@.enrolled
                },
                enrol_request: false,
                ..old(self)@
            }),
            final(self).configured() == old(self).configured(),
            final(self).built() == old(self).built(),
            match (r, final(self)@.enrolled) {
                (Some(v), Some(e)) => v@ == e,
                (None, None) => true,
                _ => false,
            },
    {
        self.reference_for(embedding)
    }

    /// Publish how the identity check on frame `seq` went.
    pub fn note_checked(&mut self, seq: u64, checked: Checked)
        ensures
            final(self)@ == (Session { identity: checked.result(seq), ..old(self)@ }),
            final(self).configured() == old(self).configured(),
            final(self).built() == old(self).built(),
    {
        match checked {
            Checked::NoUsableFace => self.publish_identity(None, seq, SlotState::SkippedGated),
            Checked::Failed => self.publish_identity(None, seq, SlotState::Failed),
            Checked::Unenrolled => self.publish_identity(None, seq, SlotState::NotConfigured),
            Checked::Compared(score) => self.publish_identity(Some(score), seq, SlotState::Produced),
        }
    }
}

// -- laws -------------------------------------------------------------------

/// The face model after a series of runs, each a success or a failure.
pub open spec fn health_after(h: FaceHealth, runs: Seq<bool>) -> FaceHealth
    decreases runs.len(),
{
    if runs.len() == 0 {
        h
    } else {
        let before = health_after(h, runs.drop_last());
        if runs.last() {
            FaceHealth { failures: 0, degraded: false }
        } else {
            FaceHealth {
                failures: (before.failures + 1) as u32,
                degraded: before.degraded || before.failures + 1 >= FAILURES_TO_REPORT,
            }
        }
    }
}

/// A stretch of failures is reported once, at the third in a row, and the state
/// of health says exactly whether there are that many.
pub proof fn law_failures_are_reported_once(runs: Seq<bool>)
    requires
        runs.len() < u32::MAX,
    ensures
        ({
            let h = health_after(FaceHealth { failures: 0, degraded: false }, runs);
            &&& h.degraded == (h.failures >= FAILURES_TO_REPORT)
            &&& h.failures <= runs.len()
            &&& forall|i: int|
                runs.len() - h.failures <= i < runs.len() ==> !#[trigger] runs[i]
            &&& h.failures < runs.len() ==> runs[runs.len() - h.failures - 1]
        }),
    decreases runs.len(),
{
    if runs.len() > 0 {
        let before = runs.drop_last();
        law_failures_are_reported_once(before);
        let h = health_after(FaceHealth { failures: 0, degraded: false }, before);
        let n = health_after(FaceHealth { failures: 0, degraded: false }, runs);
        if !runs.last() {
            assert forall|i: int| runs.len() - n.failures <= i < runs.len() implies !#[trigger] runs[i] by {
                if i < before.len() {
                    assert(before[i] == runs[i]);
                }
            }
            if n.failures < runs.len() {
                assert(before[before.len() - h.failures - 1] == runs[runs.len() - n.failures - 1]);
            }
        } else {
            assert(runs[runs.len() - 1]);
        }
    }
}

/// The signals of a frame carry what the models said about it, unchanged: the
/// faces, the pose and the gaze as they were produced, and none where a model
/// failed, declined or did not run.
pub proof fn law_signals_carry_what_the_models_said(
    m: Measured,
    objects: Seq<ObjectView>,
    objects_state: SlotState,
    identity: Option<Number>,
    identity_state: SlotState,
    s: Signals,
)
    requires
        m.makes(objects, objects_state, identity, identity_state, s),
    ensures
        s.seq == m.seq && s.t_ms == m.t_ms,
        s.faces@ == m.faces@ && s.produced_by.face is Produced,
        m.pose matches Some(PoseRun::Produced { pose, .. }) ==> s.head_pose == Some(pose) && s.produced_by.pose is Produced,
        m.pose matches Some(PoseRun::Failed) ==> s.head_pose is None && s.produced_by.pose is Failed,
        m.pose is None ==> s.head_pose is None,
        m.pose is None && m.pose_configured && m.faces@.len() == 0 ==> s.produced_by.pose is SkippedGated,
        m.pose is None && !(m.pose_configured && m.faces@.len() == 0) ==> s.produced_by.pose is NotConfigured,
        m.gaze matches Some(GazeRun::Produced { gaze, .. }) ==> s.gaze == Some(gaze) && s.produced_by.gaze is Produced,
        m.gaze matches Some(GazeRun::Gated(reason)) ==> s.gaze is None && s.produced_by.gaze is SkippedGated
            && s.produced_by.gaze_gate == Some(reason),
        m.gaze matches Some(GazeRun::Failed) ==> s.gaze is None && s.produced_by.gaze is Failed,
        m.gaze is None ==> s.gaze is None,
        m.gaze is None && m.gaze_configured && m.faces@.len() == 0 ==> s.produced_by.gaze is SkippedGated
            && s.produced_by.gaze_gate == Some(GateReason::NoFace),
        m.gaze is None && !(m.gaze_configured && m.faces@.len() == 0) ==> s.produced_by.gaze is NotConfigured
            && s.produced_by.gaze_gate is None,
        !(m.gaze matches Some(GazeRun::Gated(_))) && s.produced_by.gaze_gate is Some ==> s.produced_by.gaze_gate
            == Some(GateReason::NoFace) && m.faces@.len() == 0 && m.gaze_configured,
        objects_view(s.objects@) == objects && s.produced_by.objects == objects_state,
        s.identity_match == identity && s.produced_by.identity == identity_state,
        s.eye_aspect is None,
{
}

/// What a frame took is what each model that produced something took, added up
/// stage by stage. A model that failed or declined adds nothing.
pub proof fn law_a_frame_takes_what_its_models_took(m: Measured)
    ensures
        ({
            let none = StageTimings { preprocess_us: 0, inference_us: 0, postprocess_us: 0 };
            let pose = if let Some(PoseRun::Produced { timings, .. }) = m.pose {
                timings
            } else {
                none
            };
            let gaze = if let Some(GazeRun::Produced { timings, .. }) = m.gaze {
                timings
            } else {
                none
            };
            &&& m.spent().0 == m.timings.preprocess_us + pose.preprocess_us + gaze.preprocess_us
            &&& m.spent().1 == m.timings.inference_us + pose.inference_us + gaze.inference_us
            &&& m.spent().2 == m.timings.postprocess_us + pose.postprocess_us + gaze.postprocess_us
            &&& m.countable() <==> m.timings.preprocess_us + m.timings.inference_us + m.timings.postprocess_us
                + pose.preprocess_us + pose.inference_us + pose.postprocess_us + gaze.preprocess_us
                + gaze.inference_us + gaze.postprocess_us <= u32::MAX
        }),
{
}

/// A frame carries what a slow worker found, and the state it found it in, if
/// that is newer than what an earlier frame carried. Otherwise it carries
/// nothing, and the slot was skipped for its cadence unless there is none.
pub proof fn law_a_frame_carries_what_is_new(w: WorkerState, session: Session)
    ensures
        ({
            let o = session.objects;
            let new = !(o.state is NotConfigured) && o.seq > w.objects_seen;
            &&& new ==> w.next_objects(session) == o.detections && slot_after(o.state, o.seq, w.objects_seen)
                == o.state && cursor_after(o.state, o.seq, w.objects_seen) == o.seq
            &&& !new ==> w.next_objects(session) == Seq::<ObjectView>::empty() && cursor_after(
                o.state,
                o.seq,
                w.objects_seen,
            ) == w.objects_seen && slot_after(o.state, o.seq, w.objects_seen) == (if o.state is NotConfigured {
                SlotState::NotConfigured
            } else {
                SlotState::SkippedCadence
            })
        }),
        ({
            let c = session.identity;
            let new = !(c.state is NotConfigured) && c.seq > w.identity_seen;
            &&& new ==> w.next_identity(session) == c.score && slot_after(c.state, c.seq, w.identity_seen) == c.state
                && cursor_after(c.state, c.seq, w.identity_seen) == c.seq
            &&& !new ==> w.next_identity(session) is None && cursor_after(c.state, c.seq, w.identity_seen)
                == w.identity_seen && slot_after(c.state, c.seq, w.identity_seen) == (if c.state is NotConfigured {
                SlotState::NotConfigured
            } else {
                SlotState::SkippedCadence
            })
        }),
{
}

/// Only a comparison has a score to tell. A check without a usable face was
/// gated, one that erred has failed, and one with nobody enrolled is as if there
/// were none: none of them passes for a match.
pub proof fn law_only_a_comparison_has_a_score(checked: Checked, seq: u64)
    ensures
        checked.result(seq).seq == seq,
        checked matches Checked::Compared(score) ==> checked.result(seq).score == Some(score) && checked.result(
            seq,
        ).state is Produced,
        !(checked is Compared) ==> checked.result(seq).score is None && !(checked.result(seq).state is Produced),
        checked is NoUsableFace ==> checked.result(seq).state is SkippedGated,
        checked is Failed ==> checked.result(seq).state is Failed,
        checked is Unenrolled ==> checked.result(seq).state is NotConfigured,
{
}

/// A recovery is reported exactly after a stretch that was reported as degraded,
/// and three failures in a row make one.
pub proof fn law_a_recovery_answers_a_degraded_stretch(h: FaceHealth)
    ensures
        h.degraded ==> h.recovery() == seq![EventView::Recovered],
        !h.degraded ==> h.recovery() == Seq::<EventView>::empty(),
        FAILURES_TO_REPORT == 3,
{
}

} // verus!
