//! What fusion decides, stated over plain values.
//!
//! [`FusionState`] is everything the engine remembers between frames. Each rule
//! is a function from what was remembered and what one frame measured to what
//! is remembered next and which events come out. The executable engine is held
//! to these functions; the laws are proved of them.

use vstd::prelude::*;

use crate::config::{severities_view, severity_of, texts_view, Thresholds};
use crate::decimal::decimal;
use crate::number::{Arithmetic, Number};
use crate::types::{
    ContributionView, EventView, Gaze, HeadPose, ObjectDetection, Severity, SignalSource, Signals, SlotState,
    ViolationKind, ViolationView,
};
use super::ledger::{in_order, Key, OpenView};
use super::temporal::{edge_between, Edge, EmaState, HoldState, LatchState, ScoreState};

verus! {

/// Where the session is in its "has anyone shown up" lifecycle.
///
/// Three states rather than two: "nobody ever appeared" and "someone left" are
/// different events with different severities.
#[derive(Debug, Clone, Copy, PartialEq, Eq, Structural)]
pub enum Presence {
    NeverSeen,
    Present,
    Absent,
}

impl Presence {
    /// Where the session is after a frame with, or without, a face in it.
    pub open spec fn seeing(self, face: bool) -> Presence {
        match self {
            Presence::NeverSeen => if face { Presence::Present } else { Presence::NeverSeen },
            _ => if face { Presence::Present } else { Presence::Absent },
        }
    }
}

/// The parts of the configuration that decide a frame.
pub ghost struct Rules {
    pub multi_face_count: usize,
    pub pitch_offset_deg: Number,
    pub min_score: Number,
    pub enter_score: Number,
    pub clear_score: Number,
    pub cosine_enter: Number,
    pub cosine_exit: Number,
    pub consecutive_failures: u32,
    pub severity: Seq<(Seq<char>, Severity)>,
}

/// Two smoothed angles, each behind its own latch, and the hold over both.
pub ghost struct AngleState {
    pub yaw: EmaState,
    pub pitch: EmaState,
    pub yaw_gate: LatchState,
    pub pitch_gate: LatchState,
    pub hold: HoldState,
}

/// One prohibited kind of thing and the evidence for it so far.
pub ghost struct BucketState {
    pub name: Seq<char>,
    pub classes: Seq<Seq<char>>,
    pub score: ScoreState,
    pub active: bool,
}

/// Everything fusion remembers between frames.
pub ghost struct FusionState {
    pub rules: Rules,
    pub presence: Presence,
    pub no_face: HoldState,
    pub never_seen: HoldState,
    pub multi_face: HoldState,
    pub head: AngleState,
    pub gaze: AngleState,
    pub buckets: Seq<BucketState>,
    pub pose_lost: HoldState,
    /// Why the pose slot was dark when that was last reported.
    pub pose_why: Seq<char>,
    pub gaze_lost: HoldState,
    /// Why the gaze slot was dark when that was last reported.
    pub gaze_why: Seq<char>,
    pub identity_failures: u32,
    pub identity_active: bool,
    pub open: Map<Key, OpenView>,
}

/// A hold timer that has seen nothing yet.
pub open spec fn fresh_hold(hold_ms: u64, clear_ms: u64) -> HoldState {
    HoldState { hold_ms, clear_ms, fired: false, true_since: None, false_since: None }
}

/// A filter that has seen nothing yet.
pub open spec fn fresh_ema(alpha: Number, reset_after_ms: u64) -> EmaState {
    EmaState { alpha, reset_after_ms, value: None, last_t_ms: None }
}

/// A latch that is not set.
pub open spec fn fresh_latch(enter: Number, exit: Number) -> LatchState {
    LatchState { enter, exit, active: false }
}

/// The state a session starts in.
pub open spec fn initial(t: Thresholds) -> FusionState {
    let gap = t.fusion.signal_lost_ms;
    let lost = fresh_hold(gap, t.fusion.signal_lost_clear_ms);
    FusionState {
        rules: Rules {
            multi_face_count: t.face.multi_face_count,
            pitch_offset_deg: t.gaze.pitch_offset_deg,
            min_score: t.objects.min_score,
            enter_score: t.objects.enter_score,
            clear_score: t.objects.clear_score,
            cosine_enter: t.identity.cosine_enter,
            cosine_exit: t.identity.cosine_exit,
            consecutive_failures: t.identity.consecutive_failures,
            severity: severities_view(t.fusion.severity@),
        },
        presence: Presence::NeverSeen,
        no_face: fresh_hold(t.face.no_face_hold_ms, t.face.no_face_clear_ms),
        never_seen: fresh_hold(t.face.never_seen_ms, 0),
        multi_face: fresh_hold(t.face.multi_face_hold_ms, t.face.multi_face_clear_ms),
        head: AngleState {
            yaw: fresh_ema(t.pose.ema_alpha, gap),
            pitch: fresh_ema(t.pose.ema_alpha, gap),
            yaw_gate: fresh_latch(t.pose.yaw_enter_deg, t.pose.yaw_exit_deg),
            pitch_gate: fresh_latch(t.pose.pitch_enter_deg, t.pose.pitch_exit_deg),
            hold: fresh_hold(t.pose.hold_ms, t.pose.clear_ms),
        },
        gaze: AngleState {
            yaw: fresh_ema(t.gaze.ema_alpha, gap),
            pitch: fresh_ema(t.gaze.ema_alpha, gap),
            yaw_gate: fresh_latch(t.gaze.yaw_enter_deg, t.gaze.yaw_exit_deg),
            pitch_gate: fresh_latch(t.gaze.pitch_enter_deg, t.gaze.pitch_exit_deg),
            hold: fresh_hold(t.gaze.hold_ms, t.gaze.clear_ms),
        },
        buckets: Seq::new(
            t.objects.buckets@.len(),
            |i: int|
                BucketState {
                    name: t.objects.buckets@[i].name@,
                    classes: texts_view(t.objects.buckets@[i].classes@),
                    score: ScoreState {
                        half_life_ms: t.objects.score_half_life_ms,
                        score: Number::zero(),
                        last_t_ms: None,
                    },
                    active: false,
                },
        ),
        pose_lost: lost,
        pose_why: Seq::empty(),
        gaze_lost: lost,
        gaze_why: Seq::empty(),
        identity_failures: 0,
        identity_active: false,
        open: Map::empty(),
    }
}

// -- what one frame measured ------------------------------------------------

/// Two angles after smoothing, how far past their thresholds they sit, and how
/// their magnitudes read.
#[derive(Debug, Clone, PartialEq, Eq)]
pub struct AngleReading {
    pub yaw: Number,
    pub pitch: Number,
    pub yaw_weight: Number,
    pub pitch_weight: Number,
    pub yaw_text: String,
    pub pitch_text: String,
}

/// The evidence for one bucket, how convincing it is, and how it reads.
#[derive(Debug, Clone, PartialEq, Eq)]
pub struct BucketReading {
    pub score: Number,
    pub confidence: Number,
    pub text: String,
}

/// One identity check: the similarity, and how it and the bar read.
#[derive(Debug, Clone, PartialEq, Eq)]
pub struct IdentityReading {
    pub score: Number,
    pub score_text: String,
    pub bar_text: String,
}

/// All numbers that one frame adds to what the engine remembers.
#[derive(Debug, Clone, PartialEq, Eq)]
pub struct Reading {
    /// `None` when the pose slot measured nothing.
    pub head: Option<AngleReading>,
    /// `None` when the gaze slot measured nothing.
    pub gaze: Option<AngleReading>,
    /// One per bucket.
    pub buckets: Vec<BucketReading>,
    /// `None` when no check was made.
    pub identity: Option<IdentityReading>,
}

/// The pose a frame measured. A slot that did not run measured nothing, which
/// is not a pose of zero degrees.
pub open spec fn pose_of(s: Signals) -> Option<HeadPose> {
    if s.produced_by.pose is Produced {
        s.head_pose
    } else {
        None
    }
}

/// The gaze a frame measured. A blink-gated frame measured nothing.
pub open spec fn gaze_of(s: Signals) -> Option<Gaze> {
    if s.produced_by.gaze is Produced {
        s.gaze
    } else {
        None
    }
}

/// The similarity that an identity check on this frame found.
pub open spec fn identity_of(s: Signals) -> Option<Number> {
    if s.produced_by.identity is Produced {
        s.identity_match
    } else {
        None
    }
}

/// The bucket a label belongs to: the last one that lists it.
pub open spec fn bucket_of(buckets: Seq<BucketState>, label: Seq<char>) -> Option<int>
    decreases buckets.len(),
{
    if buckets.len() == 0 {
        None
    } else if buckets.last().classes.contains(label) {
        Some(buckets.len() - 1)
    } else {
        bucket_of(buckets.drop_last(), label)
    }
}

/// The best score at or above `floor` among the detections that belong to
/// bucket `i`. Best, not the sum: three boxes on one phone is still one phone.
pub open spec fn best_of(
    buckets: Seq<BucketState>,
    objects: Seq<ObjectDetection>,
    floor: Number,
    i: int,
) -> Option<Number>
    decreases objects.len(),
{
    if objects.len() == 0 {
        None
    } else {
        let before = best_of(buckets, objects.drop_last(), floor, i);
        let det = objects.last();
        if Number::lt(det.score, floor) || bucket_of(buckets, det.label@) != Some(i) {
            before
        } else {
            Some(
                Number::max_spec(
                    match before {
                        Some(v) => v,
                        None => Number::zero(),
                    },
                    det.score,
                ),
            )
        }
    }
}

impl AngleState {
    /// Whether `r` is what a yaw and a pitch sampled at `t_ms` come to.
    pub open spec fn measures<A: Arithmetic>(
        self,
        math: &A,
        yaw: Number,
        pitch: Number,
        t_ms: u64,
        r: AngleReading,
    ) -> bool {
        &&& self.yaw.smooths_to(math, yaw, t_ms, r.yaw)
        &&& self.pitch.smooths_to(math, pitch, t_ms, r.pitch)
        &&& self.yaw_gate.has_intensity(math, r.yaw.magnitude_spec(), r.yaw_weight)
        &&& self.pitch_gate.has_intensity(math, r.pitch.magnitude_spec(), r.pitch_weight)
        &&& call_ensures(A::shown, (math, r.yaw.magnitude_spec(), 0u32), r.yaw_text)
        &&& call_ensures(A::shown, (math, r.pitch.magnitude_spec(), 0u32), r.pitch_text)
    }
}

impl FusionState {
    /// Whether `r` is what a gaze in radians comes to, in degrees and with the
    /// pitch corrected by the configured offset.
    pub open spec fn measures_gaze<A: Arithmetic>(self, math: &A, g: Gaze, t_ms: u64, r: AngleReading) -> bool {
        exists|yaw: Number, raw: Number, pitch: Number|
            #![trigger call_ensures(A::degrees, (math, g.yaw_rad), yaw), call_ensures(A::difference, (math, raw, self.rules.pitch_offset_deg), pitch)]
            {
                &&& call_ensures(A::degrees, (math, g.yaw_rad), yaw)
                &&& call_ensures(A::degrees, (math, g.pitch_rad), raw)
                &&& call_ensures(A::difference, (math, raw, self.rules.pitch_offset_deg), pitch)
                &&& self.gaze.measures(math, yaw, pitch, t_ms, r)
            }
    }

    /// Whether `r` is the evidence for bucket `i` after this frame.
    ///
    /// Only a frame the object worker ran on carries information: decaying on
    /// the others would bleed the score away at the wrong rate.
    pub open spec fn measures_bucket<A: Arithmetic>(
        self,
        math: &A,
        s: Signals,
        t_ms: u64,
        i: int,
        r: BucketReading,
    ) -> bool {
        let held = self.buckets[i].score;
        &&& if s.produced_by.objects is Produced {
            match best_of(self.buckets, s.objects@, self.rules.min_score, i) {
                Some(v) => held.gathers(math, v, t_ms, r.score),
                None => held.decays_to(math, t_ms, r.score),
            }
        } else {
            r.score == held.score
        }
        &&& call_ensures(A::ramp, (math, r.score, self.rules.enter_score), r.confidence)
        &&& call_ensures(A::shown, (math, r.score, 2u32), r.text)
    }

    /// Whether `r` is what the frame `s` at `t_ms` comes to.
    pub open spec fn measures<A: Arithmetic>(self, math: &A, s: Signals, t_ms: u64, r: Reading) -> bool {
        &&& match (pose_of(s), r.head) {
            (Some(p), Some(h)) => self.head.measures(math, p.yaw_deg, p.pitch_deg, t_ms, h),
            (None, None) => true,
            _ => false,
        }
        &&& match (gaze_of(s), r.gaze) {
            (Some(g), Some(h)) => self.measures_gaze(math, g, t_ms, h),
            (None, None) => true,
            _ => false,
        }
        &&& r.buckets@.len() == self.buckets.len()
        &&& forall|i: int|
            0 <= i < self.buckets.len() ==> self.measures_bucket(math, s, t_ms, i, #[trigger] r.buckets@[i])
        &&& match (identity_of(s), r.identity) {
            (Some(score), Some(c)) => {
                &&& c.score == score
                &&& call_ensures(A::shown, (math, score, 2u32), c.score_text)
                &&& call_ensures(A::shown, (math, self.rules.cosine_enter, 2u32), c.bar_text)
            },
            (None, None) => true,
            _ => false,
        }
    }
}

// -- what follows from it ---------------------------------------------------

/// One rule's conclusion about one frame.
pub ghost struct VerdictView {
    pub kind: ViolationKind,
    pub subject: Option<Seq<char>>,
    pub edge: Edge,
    pub confidence: Number,
    pub contributions: Seq<ContributionView>,
}

impl VerdictView {
    pub open spec fn key(self) -> Key {
        (self.kind, self.subject)
    }

    /// What is open under the verdict's key once it is applied.
    pub open spec fn opening(self, severity: Severity, t_ms: u64) -> OpenView {
        OpenView {
            t_start_ms: t_ms,
            severity,
            confidence: self.confidence,
            contributions: self.contributions,
        }
    }
}

/// An open violation as it is reported when it starts.
pub open spec fn started(key: Key, open: OpenView) -> ViolationView {
    ViolationView {
        kind: key.0,
        severity: open.severity,
        confidence: open.confidence,
        t_start_ms: open.t_start_ms,
        t_end_ms: None,
        subject: key.1,
        evidence: None,
        contributing: open.contributions,
    }
}

/// An open violation as it is reported when it ends.
pub open spec fn finished(key: Key, open: OpenView, t_ms: u64) -> ViolationView {
    ViolationView { t_end_ms: Some(t_ms), ..started(key, open) }
}

/// How far a step has come: what is remembered, and what was reported.
pub ghost struct Progress {
    pub state: FusionState,
    pub events: Seq<EventView>,
}

impl Progress {
    /// Apply one rule's edge, reporting at most one event.
    pub open spec fn judged(self, v: VerdictView, t_ms: u64) -> Progress {
        let key = v.key();
        let open = self.state.open;
        match v.edge {
            Edge::Rose => {
                let entry = v.opening(severity_of(self.state.rules.severity, v.kind), t_ms);
                Progress {
                    state: FusionState { open: open.insert(key, entry), ..self.state },
                    events: self.events.push(EventView::ViolationStarted(started(key, entry))),
                }
            },
            Edge::Fell => if open.contains_key(key) {
                Progress {
                    state: FusionState { open: open.remove(key), ..self.state },
                    events: self.events.push(EventView::ViolationEnded(finished(key, open[key], t_ms))),
                }
            } else {
                self
            },
            Edge::Steady => if open.contains_key(key) {
                Progress {
                    state: FusionState {
                        open: open.insert(key, OpenView { confidence: v.confidence, ..open[key] }),
                        ..self.state
                    },
                    ..self
                }
            } else {
                self
            },
        }
    }
}

/// A single argument.
pub open spec fn argument(signal: SignalSource, weight: Number, detail: Seq<char>) -> ContributionView {
    ContributionView { signal, weight, detail }
}

pub open spec fn never_seen_verdict(edge: Edge, t_ms: u64) -> VerdictView {
    VerdictView {
        kind: ViolationKind::NeverSeen,
        subject: None,
        edge,
        confidence: Number::one(),
        contributions: seq![
            argument(
                SignalSource::Face,
                Number::one(),
                "no face has ever been detected, "@ + decimal((t_ms / 1000) as nat) + "s in"@,
            ),
        ],
    }
}

pub open spec fn no_face_verdict(edge: Edge) -> VerdictView {
    VerdictView {
        kind: ViolationKind::NoFace,
        subject: None,
        edge,
        confidence: Number::one(),
        contributions: seq![argument(SignalSource::Face, Number::one(), "no face in frame"@)],
    }
}

pub open spec fn multi_face_verdict(edge: Edge, count: nat) -> VerdictView {
    VerdictView {
        kind: ViolationKind::MultipleFaces,
        subject: None,
        edge,
        confidence: Number::one(),
        contributions: seq![
            argument(SignalSource::Face, Number::one(), decimal(count) + " faces in frame"@),
        ],
    }
}

impl Progress {
    /// Whether nobody has shown up yet. Only runs before the first face: after
    /// that an absence is an absence.
    pub open spec fn after_never_seen(self, t_ms: u64) -> Progress {
        let timer = self.state.never_seen;
        let condition = self.state.presence is NeverSeen;
        Progress {
            state: FusionState { never_seen: timer.advanced(condition, t_ms), ..self.state },
            ..self
        }.judged(never_seen_verdict(timer.edge(condition, t_ms), t_ms), t_ms)
    }

    /// Whether someone who was there has left.
    pub open spec fn after_no_face(self, t_ms: u64) -> Progress {
        let timer = self.state.no_face;
        let condition = self.state.presence is Absent;
        Progress {
            state: FusionState { no_face: timer.advanced(condition, t_ms), ..self.state },
            ..self
        }.judged(no_face_verdict(timer.edge(condition, t_ms)), t_ms)
    }

    /// Whether there are too many.
    pub open spec fn after_multi_face(self, count: nat, t_ms: u64) -> Progress {
        let timer = self.state.multi_face;
        let condition = count >= self.state.rules.multi_face_count;
        Progress {
            state: FusionState { multi_face: timer.advanced(condition, t_ms), ..self.state },
            ..self
        }.judged(multi_face_verdict(timer.edge(condition, t_ms), count), t_ms)
    }

    /// Whether anyone is there, and how many.
    #[verifier::opaque]
    pub open spec fn after_face(self, count: nat, t_ms: u64) -> Progress {
        Progress {
            state: FusionState { presence: self.state.presence.seeing(count > 0), ..self.state },
            ..self
        }.after_never_seen(t_ms).after_no_face(t_ms).after_multi_face(count, t_ms)
    }
}

impl AngleState {
    /// Whether either latch is set once the reading was fed in.
    pub open spec fn past(self, r: AngleReading) -> bool {
        self.yaw_gate.fed(r.yaw.magnitude_spec()).active || self.pitch_gate.fed(r.pitch.magnitude_spec()).active
    }

    /// The angles after a reading, or after a frame that measured nothing.
    pub open spec fn fed(self, r: Option<AngleReading>, t_ms: u64) -> AngleState {
        match r {
            Some(r) => AngleState {
                yaw: self.yaw.holding(r.yaw, t_ms),
                pitch: self.pitch.holding(r.pitch, t_ms),
                yaw_gate: self.yaw_gate.fed(r.yaw.magnitude_spec()),
                pitch_gate: self.pitch_gate.fed(r.pitch.magnitude_spec()),
                hold: self.hold.advanced(self.past(r), t_ms),
            },
            None => AngleState { hold: self.hold.advanced(false, t_ms), ..self },
        }
    }

    /// What that does to the hold.
    pub open spec fn edge(self, r: Option<AngleReading>, t_ms: u64) -> Edge {
        match r {
            Some(r) => self.hold.edge(self.past(r), t_ms),
            None => self.hold.edge(false, t_ms),
        }
    }

    /// The arguments of whichever angles are past their thresholds.
    pub open spec fn arguments(
        self,
        r: Option<AngleReading>,
        signal: SignalSource,
        yaw_label: Seq<char>,
        pitch_label: Seq<char>,
        pitch_note: Seq<char>,
    ) -> Seq<ContributionView> {
        match r {
            Some(r) => {
                let yaw = if self.yaw_gate.fed(r.yaw.magnitude_spec()).active {
                    seq![argument(signal, r.yaw_weight, yaw_label + r.yaw_text@ + " deg"@)]
                } else {
                    Seq::empty()
                };
                let pitch = if self.pitch_gate.fed(r.pitch.magnitude_spec()).active {
                    seq![argument(signal, r.pitch_weight, pitch_label + r.pitch_text@ + pitch_note)]
                } else {
                    Seq::empty()
                };
                yaw + pitch
            },
            None => Seq::empty(),
        }
    }

    /// How convincing a reading is: zero when there was none.
    pub open spec fn confidence(self, r: Option<AngleReading>) -> Number {
        match r {
            Some(r) => Number::max_spec(r.yaw_weight, r.pitch_weight),
            None => Number::zero(),
        }
    }
}

impl Progress {
    /// Whether the head is turned away.
    #[verifier::opaque]
    pub open spec fn after_head(self, r: Option<AngleReading>, t_ms: u64) -> Progress {
        let head = self.state.head;
        Progress { state: FusionState { head: head.fed(r, t_ms), ..self.state }, ..self }.judged(
            VerdictView {
                kind: ViolationKind::HeadTurnedAway,
                subject: None,
                edge: head.edge(r, t_ms),
                confidence: head.confidence(r),
                contributions: head.arguments(r, SignalSource::Pose, "head yaw "@, "head pitch "@, " deg"@),
            },
            t_ms,
        )
    }

    /// Whether the gaze is off the screen.
    #[verifier::opaque]
    pub open spec fn after_gaze(self, r: Option<AngleReading>, t_ms: u64) -> Progress {
        let gaze = self.state.gaze;
        Progress { state: FusionState { gaze: gaze.fed(r, t_ms), ..self.state }, ..self }.judged(
            VerdictView {
                kind: ViolationKind::GazeOffScreen,
                subject: None,
                edge: gaze.edge(r, t_ms),
                confidence: gaze.confidence(r),
                contributions: gaze.arguments(
                    r,
                    SignalSource::Gaze,
                    "gaze yaw "@,
                    "gaze pitch "@,
                    " deg after offset"@,
                ),
            },
            t_ms,
        )
    }
}

/// The smallest weight that an object's argument carries: the binary32 value
/// nearest to one hundredth.
pub const MIN_OBJECT_WEIGHT: u64 = 0x3f84_7ae1_4000_0000;

impl BucketState {
    /// Whether the bucket counts as present at `score`: it takes the higher bar
    /// to appear and the lower one to stay.
    pub open spec fn stays(self, rules: Rules, score: Number) -> bool {
        if self.active {
            Number::le(rules.clear_score, score)
        } else {
            Number::le(rules.enter_score, score)
        }
    }

    /// The bucket after a frame. The evidence only moves on a frame that the
    /// object worker ran on.
    pub open spec fn weighed(self, rules: Rules, produced: bool, r: BucketReading, t_ms: u64) -> BucketState {
        let score = if produced {
            self.score.holding(r.score, t_ms)
        } else {
            self.score
        };
        BucketState { score, active: self.stays(rules, score.score), ..self }
    }
}

pub open spec fn object_verdict(was: BucketState, now: BucketState, r: BucketReading) -> VerdictView {
    VerdictView {
        kind: ViolationKind::ProhibitedObject,
        subject: Some(was.name),
        edge: edge_between(was.active, now.active),
        confidence: r.confidence,
        contributions: seq![
            argument(
                SignalSource::Objects,
                Number::max_spec(r.confidence, Number { bits: MIN_OBJECT_WEIGHT }),
                was.name + " accumulated evidence "@ + r.text@,
            ),
        ],
    }
}

impl Progress {
    /// Whether bucket `i` is in shot.
    #[verifier::opaque]
    pub open spec fn after_bucket(self, produced: bool, r: BucketReading, i: int, t_ms: u64) -> Progress {
        let was = self.state.buckets[i];
        let now = was.weighed(self.state.rules, produced, r, t_ms);
        Progress {
            state: FusionState { buckets: self.state.buckets.update(i, now), ..self.state },
            ..self
        }.judged(object_verdict(was, now, r), t_ms)
    }

    /// Whether any of the first `n` buckets is in shot.
    pub open spec fn after_buckets(self, produced: bool, r: Seq<BucketReading>, n: nat, t_ms: u64) -> Progress
        decreases n,
    {
        if n == 0 {
            self
        } else {
            let before = self.after_buckets(produced, r, (n - 1) as nat, t_ms);
            before.after_bucket(produced, r[n - 1], n - 1, t_ms)
        }
    }
}

/// A slot that could have run and did not. A slot with no model is unavailable
/// for the whole session, which is not the same as having gone dark.
pub open spec fn slot_lost(state: SlotState) -> bool {
    state is SkippedGated || state is Failed
}

/// What a lost slot is reported as, such as `gaze: NoFace`.
pub open spec fn lost_subject(slot: Seq<char>, why: Seq<char>) -> Seq<char> {
    slot + ": "@ + why
}

/// Why a slot is dark, as it is reported: the reason at hand when the loss is
/// first reported, and that same reason from then on.
pub open spec fn reported_why(edge: Edge, at_hand: Seq<char>, before: Seq<char>) -> Seq<char> {
    if edge is Rose {
        at_hand
    } else {
        before
    }
}

pub open spec fn lost_verdict(
    slot: Seq<char>,
    signal: SignalSource,
    edge: Edge,
    why: Seq<char>,
) -> VerdictView {
    VerdictView {
        kind: ViolationKind::SignalLost,
        subject: Some(lost_subject(slot, why)),
        edge,
        confidence: Number::one(),
        contributions: seq![argument(signal, Number::one(), lost_subject(slot, why))],
    }
}

/// Why the pose slot has nothing to say.
pub open spec fn pose_loss(s: Signals) -> Seq<char> {
    if s.produced_by.pose is Failed {
        "model failing"@
    } else {
        "gated"@
    }
}

/// Why the gaze slot has nothing to say.
pub open spec fn gaze_loss(s: Signals) -> Seq<char> {
    if s.produced_by.gaze is Failed {
        "model failing"@
    } else {
        match s.produced_by.gaze_gate {
            Some(reason) => reason.variant(),
            None => "gated"@,
        }
    }
}

impl Progress {
    /// Whether the pose slot has gone dark.
    pub open spec fn after_pose_loss(self, s: Signals, t_ms: u64) -> Progress {
        let timer = self.state.pose_lost;
        let lost = slot_lost(s.produced_by.pose);
        let edge = timer.edge(lost, t_ms);
        let why = reported_why(edge, pose_loss(s), self.state.pose_why);
        Progress {
            state: FusionState { pose_lost: timer.advanced(lost, t_ms), pose_why: why, ..self.state },
            ..self
        }.judged(lost_verdict("pose"@, SignalSource::Pose, edge, why), t_ms)
    }

    /// Whether the gaze slot has gone dark.
    pub open spec fn after_gaze_loss(self, s: Signals, t_ms: u64) -> Progress {
        let timer = self.state.gaze_lost;
        let lost = slot_lost(s.produced_by.gaze);
        let edge = timer.edge(lost, t_ms);
        let why = reported_why(edge, gaze_loss(s), self.state.gaze_why);
        Progress {
            state: FusionState { gaze_lost: timer.advanced(lost, t_ms), gaze_why: why, ..self.state },
            ..self
        }.judged(lost_verdict("gaze"@, SignalSource::Gaze, edge, why), t_ms)
    }

    /// Whether a signal that a decision depends on has gone dark.
    #[verifier::opaque]
    pub open spec fn after_signal_loss(self, s: Signals, t_ms: u64) -> Progress {
        self.after_pose_loss(s, t_ms).after_gaze_loss(s, t_ms)
    }
}

impl FusionState {
    /// How many checks in a row have failed after one that found `score`. A
    /// check between the two bars changes nothing.
    pub open spec fn failures_after(self, score: Number) -> int {
        if Number::lt(score, self.rules.cosine_enter) {
            self.identity_failures + 1
        } else if Number::le(self.rules.cosine_exit, score) {
            0
        } else {
            self.identity_failures as int
        }
    }

    /// Whether the session counts as mismatched after that check.
    pub open spec fn mismatched_after(self, score: Number) -> bool {
        if self.identity_active {
            self.failures_after(score) > 0
        } else {
            self.failures_after(score) >= self.rules.consecutive_failures
        }
    }
}

pub open spec fn identity_verdict(r: IdentityReading, edge: Edge, failures: nat) -> VerdictView {
    VerdictView {
        kind: ViolationKind::IdentityMismatch,
        subject: None,
        edge,
        confidence: Number::one(),
        contributions: seq![
            argument(
                SignalSource::Identity,
                Number::one(),
                "cosine "@ + r.score_text@ + " below "@ + r.bar_text@ + " on "@ + decimal(failures)
                    + " consecutive checks"@,
            ),
        ],
    }
}

impl Progress {
    /// Whether the candidate is still the one who enrolled.
    #[verifier::opaque]
    pub open spec fn after_identity(self, r: Option<IdentityReading>, t_ms: u64) -> Progress {
        match r {
            Some(r) => {
                let st = self.state;
                let failures = st.failures_after(r.score);
                let now = st.mismatched_after(r.score);
                Progress {
                    state: FusionState {
                        identity_failures: failures as u32,
                        identity_active: now,
                        ..st
                    },
                    ..self
                }.judged(
                    identity_verdict(r, edge_between(st.identity_active, now), failures as nat),
                    t_ms,
                )
            },
            None => self,
        }
    }
}

impl FusionState {
    /// A step that has not reported anything yet.
    pub open spec fn beginning(self) -> Progress {
        Progress { state: self, events: Seq::empty() }
    }

    /// What one frame of signals, as measured by `r`, leads to.
    pub open spec fn stepped(self, s: Signals, r: Reading, t_ms: u64) -> Progress {
        self.beginning().after_face(s.faces@.len(), t_ms).after_head(r.head, t_ms).after_gaze(
            r.gaze,
            t_ms,
        ).after_buckets(
            s.produced_by.objects is Produced,
            r.buckets@,
            self.buckets.len(),
            t_ms,
        ).after_signal_loss(s, t_ms).after_identity(r.identity, t_ms)
    }

    /// Everything still open, closed at `t_ms`, in order.
    pub open spec fn endings(self, t_ms: u64) -> Seq<EventView> {
        in_order(self.open.dom()).map_values(
            |k: Key| EventView::ViolationEnded(finished(k, self.open[k], t_ms)),
        )
    }

    /// What is remembered once everything is closed.
    pub open spec fn closed_out(self) -> FusionState {
        FusionState { open: Map::empty(), ..self }
    }
}

impl Progress {
    /// The rules on faces change the presence, three timers and what is open.
    pub proof fn lemma_face_frame(self, count: nat, t_ms: u64)
        ensures
            ({
                let p = self.after_face(count, t_ms).state;
                let presence = self.state.presence.seeing(count > 0);
                p == FusionState {
                    presence,
                    never_seen: self.state.never_seen.advanced(presence is NeverSeen, t_ms),
                    no_face: self.state.no_face.advanced(presence is Absent, t_ms),
                    multi_face: self.state.multi_face.advanced(count >= self.state.rules.multi_face_count, t_ms),
                    open: p.open,
                    ..self.state
                }
            }),
    {
        reveal(Progress::after_face);
    }

    /// The rule on the head changes the head's angles and what is open.
    pub proof fn lemma_head_frame(self, r: Option<AngleReading>, t_ms: u64)
        ensures
            ({
                let p = self.after_head(r, t_ms).state;
                p == FusionState { head: self.state.head.fed(r, t_ms), open: p.open, ..self.state }
            }),
    {
        reveal(Progress::after_head);
    }

    /// The rule on the gaze changes the gaze's angles and what is open.
    pub proof fn lemma_gaze_frame(self, r: Option<AngleReading>, t_ms: u64)
        ensures
            ({
                let p = self.after_gaze(r, t_ms).state;
                p == FusionState { gaze: self.state.gaze.fed(r, t_ms), open: p.open, ..self.state }
            }),
    {
        reveal(Progress::after_gaze);
    }

    /// The rule on identity changes the count of failures, its latch and what is open.
    pub proof fn lemma_identity_frame(self, r: Option<IdentityReading>, t_ms: u64)
        ensures
            ({
                let p = self.after_identity(r, t_ms).state;
                match r {
                    Some(c) => p == FusionState {
                        identity_failures: self.state.failures_after(c.score) as u32,
                        identity_active: self.state.mismatched_after(c.score),
                        open: p.open,
                        ..self.state
                    },
                    None => p == self.state,
                }
            }),
    {
        reveal(Progress::after_identity);
    }

    /// Weighing buckets changes the buckets and what is open, and nothing else.
    pub proof fn lemma_buckets_frame(self, produced: bool, r: Seq<BucketReading>, n: nat, t_ms: u64)
        requires
            n <= self.state.buckets.len(),
        ensures
            ({
                let p = self.after_buckets(produced, r, n, t_ms).state;
                &&& p == FusionState { buckets: p.buckets, open: p.open, ..self.state }
                &&& p.buckets.len() == self.state.buckets.len()
                &&& forall|i: int|
                    0 <= i < p.buckets.len() ==> #[trigger] p.buckets[i] == (if i < n {
                        self.state.buckets[i].weighed(self.state.rules, produced, r[i], t_ms)
                    } else {
                        self.state.buckets[i]
                    })
            }),
        decreases n,
    {
        reveal(Progress::after_bucket);
        if n > 0 {
            self.lemma_buckets_frame(produced, r, (n - 1) as nat, t_ms);
        }
    }

    /// Losing a signal changes the two timers, their reasons and what is open, and
    /// nothing else.
    pub proof fn lemma_signal_loss_frame(self, s: Signals, t_ms: u64)
        ensures
            ({
                let p = self.after_signal_loss(s, t_ms).state;
                let pose = slot_lost(s.produced_by.pose);
                let gaze = slot_lost(s.produced_by.gaze);
                p == FusionState {
                    pose_lost: self.state.pose_lost.advanced(pose, t_ms),
                    pose_why: reported_why(
                        self.state.pose_lost.edge(pose, t_ms),
                        pose_loss(s),
                        self.state.pose_why,
                    ),
                    gaze_lost: self.state.gaze_lost.advanced(gaze, t_ms),
                    gaze_why: reported_why(
                        self.state.gaze_lost.edge(gaze, t_ms),
                        gaze_loss(s),
                        self.state.gaze_why,
                    ),
                    open: p.open,
                    ..self.state
                }
            }),
    {
        reveal(Progress::after_signal_loss);
    }
}

impl FusionState {
    /// What a step leaves in each part of the state, apart from what is open.
    pub proof fn lemma_stepped_parts(self, s: Signals, r: Reading, t_ms: u64)
        requires
            r.buckets@.len() == self.buckets.len(),
        ensures
            ({
                let n = self.stepped(s, r, t_ms).state;
                let presence = self.presence.seeing(s.faces@.len() > 0);
                &&& n.rules == self.rules
                &&& n.presence == presence
                &&& n.never_seen == self.never_seen.advanced(presence is NeverSeen, t_ms)
                &&& n.no_face == self.no_face.advanced(presence is Absent, t_ms)
                &&& n.multi_face == self.multi_face.advanced(s.faces@.len() >= self.rules.multi_face_count, t_ms)
                &&& n.head == self.head.fed(r.head, t_ms)
                &&& n.gaze == self.gaze.fed(r.gaze, t_ms)
                &&& n.buckets.len() == self.buckets.len()
                &&& forall|i: int|
                    0 <= i < self.buckets.len() ==> #[trigger] n.buckets[i] == self.buckets[i].weighed(
                        self.rules,
                        s.produced_by.objects is Produced,
                        r.buckets@[i],
                        t_ms,
                    )
                &&& n.pose_lost == self.pose_lost.advanced(slot_lost(s.produced_by.pose), t_ms)
                &&& n.pose_why == reported_why(
                    self.pose_lost.edge(slot_lost(s.produced_by.pose), t_ms),
                    pose_loss(s),
                    self.pose_why,
                )
                &&& n.gaze_lost == self.gaze_lost.advanced(slot_lost(s.produced_by.gaze), t_ms)
                &&& n.gaze_why == reported_why(
                    self.gaze_lost.edge(slot_lost(s.produced_by.gaze), t_ms),
                    gaze_loss(s),
                    self.gaze_why,
                )
                &&& match r.identity {
                    Some(c) => n.identity_failures == self.failures_after(c.score) as u32 && n.identity_active
                        == self.mismatched_after(c.score),
                    None => n.identity_failures == self.identity_failures && n.identity_active
                        == self.identity_active,
                }
            }),
    {
        let p0 = self.beginning();
        let produced = s.produced_by.objects is Produced;
        let p1 = p0.after_face(s.faces@.len(), t_ms);
        let p2 = p1.after_head(r.head, t_ms);
        let p3 = p2.after_gaze(r.gaze, t_ms);
        let p4 = p3.after_buckets(produced, r.buckets@, self.buckets.len(), t_ms);
        let p5 = p4.after_signal_loss(s, t_ms);
        p0.lemma_face_frame(s.faces@.len(), t_ms);
        p1.lemma_head_frame(r.head, t_ms);
        p2.lemma_gaze_frame(r.gaze, t_ms);
        p3.lemma_buckets_frame(produced, r.buckets@, self.buckets.len(), t_ms);
        p4.lemma_signal_loss_frame(s, t_ms);
        p5.lemma_identity_frame(r.identity, t_ms);
    }
}

impl FusionState {
    /// Whether a frame of signals can lead to `next` and report `events`.
    pub open spec fn steps_to<A: Arithmetic>(
        self,
        math: &A,
        s: Signals,
        t_ms: u64,
        next: FusionState,
        events: Seq<EventView>,
    ) -> bool {
        exists|r: Reading|
            #[trigger] self.measures(math, s, t_ms, r) && self.stepped(s, r, t_ms) == (Progress {
                state: next,
                events,
            })
    }

    /// One frame adds at most one failed check.
    pub proof fn lemma_failures_grow_by_one<A: Arithmetic>(
        self,
        math: &A,
        s: Signals,
        t_ms: u64,
        next: FusionState,
        events: Seq<EventView>,
    )
        requires
            self.identity_failures < u32::MAX,
            self.steps_to(math, s, t_ms, next, events),
        ensures
            next.identity_failures <= self.identity_failures + 1,
    {
        let r = choose|r: Reading|
            #[trigger] self.measures(math, s, t_ms, r) && self.stepped(s, r, t_ms) == (Progress {
                state: next,
                events,
            });
        self.lemma_stepped_parts(s, r, t_ms);
    }
}

/// When the last frame of a recording was taken; zero for an empty one.
pub open spec fn last_time(signals: Seq<Signals>) -> u64 {
    if signals.len() == 0 {
        0
    } else {
        signals.last().t_ms
    }
}

/// Whether a recording, fed frame by frame, can lead from `start` to `end` and
/// report `events`.
pub open spec fn runs_to<A: Arithmetic>(
    math: &A,
    start: FusionState,
    signals: Seq<Signals>,
    end: FusionState,
    events: Seq<EventView>,
) -> bool
    decreases signals.len(),
{
    if signals.len() == 0 {
        end == start && events == Seq::<EventView>::empty()
    } else {
        exists|mid: FusionState, before: Seq<EventView>, last: Seq<EventView>|
            #![trigger mid.steps_to(math, signals.last(), signals.last().t_ms, end, last), before.add(last)]
            runs_to(math, start, signals.drop_last(), mid, before) && mid.steps_to(
                math,
                signals.last(),
                signals.last().t_ms,
                end,
                last,
            ) && events == before.add(last)
    }
}

/// Whether replaying a recording can report `events`.
pub open spec fn replays_to<A: Arithmetic>(
    math: &A,
    t: Thresholds,
    signals: Seq<Signals>,
    events: Seq<EventView>,
) -> bool {
    exists|end: FusionState, before: Seq<EventView>|
        #[trigger] runs_to(math, initial(t), signals, end, before) && events == before + end.endings(
            last_time(signals),
        )
}

} // verus!
