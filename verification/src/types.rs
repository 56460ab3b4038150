//! Core types.
//!
//! The seam that matters: [`Signals`] is stateless per-frame data produced by
//! models; [`Violation`] is a temporal decision produced only by fusion.

use std::sync::Arc;
use std::time::Instant;

use vstd::prelude::*;

use crate::number::Number;
use crate::text::{owned, same_text};

verus! {

broadcast use vstd::string::group_string_axioms;

/// `std::time::Instant`, carried along with a frame and never looked into.
#[verifier::external_type_specification]
#[verifier::external_body]
pub struct ExInstant(std::time::Instant);

/// `std::time::Instant::now` reads the clock. Nothing is claimed of the moment
/// that it returns.
pub assume_specification[ std::time::Instant::now ]() -> Instant;

/// Raw camera frame. RGB8, tightly packed. Shared, never copied.
#[derive(Debug)]
pub struct Frame {
    pub data: Arc<Vec<u8>>,
    pub width: u32,
    pub height: u32,
    pub seq: u64,
    pub captured_at: Instant,
}

impl Clone for Frame {
    fn clone(&self) -> (r: Self)
        ensures
            r == *self,
    {
        Self {
            data: self.data.clone(),
            width: self.width,
            height: self.height,
            seq: self.seq,
            captured_at: self.captured_at,
        }
    }
}

impl Frame {
    /// Bytes that a tightly packed RGB8 buffer of this size occupies.
    pub open spec fn packed_len(self) -> int {
        self.width * self.height * 3
    }

    /// Sentinel for the initial state of the frame bus. `seq == 0` and empty
    /// data; workers skip it because it never matches a new sequence number.
    pub fn empty() -> (r: Self)
        ensures
            r.data@ == Seq::<u8>::empty(),
            r.width == 0,
            r.height == 0,
            r.seq == 0,
    {
        Self {
            data: Arc::new(Vec::new()),
            width: 0,
            height: 0,
            seq: 0,
            captured_at: Instant::now(),
        }
    }

    pub fn is_empty(&self) -> (r: bool)
        ensures
            r == (self.width == 0 || self.height == 0 || self.data@.len() == 0),
    {
        self.width == 0 || self.height == 0 || self.data.is_empty()
    }

    /// Bytes a tightly packed RGB8 buffer of this size should occupy.
    pub fn expected_len(&self) -> (r: usize)
        requires
            self.packed_len() <= usize::MAX,
        ensures
            r == self.packed_len(),
    {
        let w: u128 = self.width as u128;
        let h: u128 = self.height as u128;
        assert(w * h <= 0xffff_ffff * 0xffff_ffff) by (nonlinear_arith)
            requires
                w <= 0xffff_ffff,
                h <= 0xffff_ffff,
        ;
        (w * h * 3) as usize
    }
}

/// Axis-aligned box in source frame pixel coordinates.
#[derive(Debug, Clone, Copy, PartialEq, Eq, Default, Structural)]
pub struct BBox {
    pub x: Number,
    pub y: Number,
    pub w: Number,
    pub h: Number,
}

/// Five facial keypoints, in source frame pixels.
#[derive(Debug, Clone, Copy, PartialEq, Eq)]
pub struct FaceKeypoints {
    pub right_eye: (Number, Number),
    pub left_eye: (Number, Number),
    pub nose: (Number, Number),
    pub right_mouth: (Number, Number),
    pub left_mouth: (Number, Number),
}

#[derive(Debug, Clone, Copy, PartialEq, Eq)]
pub struct FaceDetection {
    pub bbox: BBox,
    pub score: Number,
    pub keypoints: Option<FaceKeypoints>,
}

/// Absolute head pose, in degrees.
#[derive(Debug, Clone, Copy, PartialEq, Eq)]
pub struct HeadPose {
    /// Positive = turned toward the subject's own right.
    pub yaw_deg: Number,
    /// Positive = looking up.
    pub pitch_deg: Number,
    pub roll_deg: Number,
}

/// Gaze direction in radians, camera coordinate frame.
#[derive(Debug, Clone, Copy, PartialEq, Eq)]
pub struct Gaze {
    /// Combined head + eye direction, which is what the model regresses.
    pub yaw_rad: Number,
    pub pitch_rad: Number,
    /// Gaze minus head pose. `None` until head pose is available for the same
    /// frame.
    pub eye_yaw_rad: Option<Number>,
    pub eye_pitch_rad: Option<Number>,
}

#[derive(Debug, Clone, PartialEq, Eq)]
pub struct ObjectDetection {
    pub class_id: u32,
    pub label: String,
    pub score: Number,
    pub bbox: BBox,
}

/// What an [`ObjectDetection`] says.
pub ghost struct ObjectView {
    pub class_id: u32,
    pub label: Seq<char>,
    pub score: Number,
    pub bbox: BBox,
}

impl View for ObjectDetection {
    type V = ObjectView;

    open spec fn view(&self) -> ObjectView {
        ObjectView {
            class_id: self.class_id,
            label: self.label@,
            score: self.score,
            bbox: self.bbox,
        }
    }
}

/// What a list of detections says, in order.
pub open spec fn objects_view(s: Seq<ObjectDetection>) -> Seq<ObjectView> {
    s.map_values(|o: ObjectDetection| o@)
}

/// A copy of a list of detections.
pub fn copy_objects(list: &Vec<ObjectDetection>) -> (r: Vec<ObjectDetection>)
    ensures
        objects_view(r@) == objects_view(list@),
{
    let mut r: Vec<ObjectDetection> = Vec::new();
    let n: usize = list.len();
    for i in 0..n
        invariant
            n == list@.len(),
            r@.len() == i,
            forall|j: int| 0 <= j < i ==> (#[trigger] r@[j])@ == list@[j]@,
    {
        let o = &list[i];
        r.push(
            ObjectDetection {
                class_id: o.class_id,
                label: o.label.clone(),
                score: o.score,
                bbox: o.bbox,
            },
        );
    }
    assert(objects_view(r@) =~= objects_view(list@));
    r
}

/// Eye aspect ratio, used to tell a blink from a gaze.
#[derive(Debug, Clone, Copy, PartialEq, Eq)]
pub struct EyeAspect {
    pub left: Number,
    pub right: Number,
}

/// Everything the models saw in one frame. Pure data, no history, no decisions.
#[derive(Debug, Clone, PartialEq, Eq, Default)]
pub struct Signals {
    pub seq: u64,
    /// Milliseconds since session start. Monotonic, not wall clock.
    pub t_ms: u64,
    pub faces: Vec<FaceDetection>,
    pub head_pose: Option<HeadPose>,
    pub gaze: Option<Gaze>,
    /// Only populated on frames where `produced_by.objects` is
    /// [`SlotState::Produced`]. Empty otherwise: an object result is never
    /// carried forward onto a later frame.
    pub objects: Vec<ObjectDetection>,
    /// Cosine similarity against the enrolled embedding.
    pub identity_match: Option<Number>,
    pub eye_aspect: Option<EyeAspect>,
    /// Which signal slots actually ran for this frame. A signal that is
    /// `None` because its model is degraded must not be read as "absent".
    pub produced_by: SignalCoverage,
}

/// What one model slot did on one frame.
#[derive(Debug, Clone, Copy, Default, PartialEq, Eq, Structural)]
pub enum SlotState {
    /// Ran on this frame. Its value in [`Signals`] is a measurement, including
    /// when that measurement is "nothing there".
    Produced,
    /// Deliberately not run: the input did not meet the model's entry
    /// conditions. Expected, and not a fault.
    SkippedGated,
    /// Runs slower than the face worker and had no new result for this frame.
    SkippedCadence,
    /// The model was loaded and erred on this frame. Degraded.
    Failed,
    /// No model in this slot. The signal is unavailable for the whole session.
    #[default]
    NotConfigured,
}

impl SlotState {
    pub open spec fn name(self) -> Seq<char> {
        match self {
            SlotState::Produced => "produced"@,
            SlotState::SkippedGated => "gated"@,
            SlotState::SkippedCadence => "cadence"@,
            SlotState::Failed => "failed"@,
            SlotState::NotConfigured => "absent"@,
        }
    }

    /// True only for [`Self::Produced`]. Anything else means the matching field
    /// in [`Signals`] carries no measurement.
    pub fn produced(self) -> (r: bool)
        ensures
            r == (self is Produced),
    {
        matches!(self, SlotState::Produced)
    }

    pub fn as_str(self) -> (r: &'static str)
        ensures
            r@ == self.name(),
    {
        match self {
            SlotState::Produced => "produced",
            SlotState::SkippedGated => "gated",
            SlotState::SkippedCadence => "cadence",
            SlotState::Failed => "failed",
            SlotState::NotConfigured => "absent",
        }
    }
}

/// Why the gaze model declined to run.
#[derive(Debug, Clone, Copy, PartialEq, Eq, PartialOrd, Ord, Hash, Structural)]
pub enum GateReason {
    /// No face detected on this frame, so there was nothing to crop.
    NoFace,
    /// The detector was barely holding the face.
    LowFaceScore,
    /// Eye keypoints collapsed together: a blink, motion blur, or a profile.
    EyesTooClose,
    /// Eye keypoints implausibly far apart for the box.
    EyesTooFar,
    /// Degenerate face box, so the ratio test could not be computed.
    DegenerateBox,
}

impl GateReason {
    pub open spec fn name(self) -> Seq<char> {
        match self {
            GateReason::NoFace => "no_face"@,
            GateReason::LowFaceScore => "low_face_score"@,
            GateReason::EyesTooClose => "eyes_too_close"@,
            GateReason::EyesTooFar => "eyes_too_far"@,
            GateReason::DegenerateBox => "degenerate_box"@,
        }
    }

    /// The variant's own name.
    pub open spec fn variant(self) -> Seq<char> {
        match self {
            GateReason::NoFace => "NoFace"@,
            GateReason::LowFaceScore => "LowFaceScore"@,
            GateReason::EyesTooClose => "EyesTooClose"@,
            GateReason::EyesTooFar => "EyesTooFar"@,
            GateReason::DegenerateBox => "DegenerateBox"@,
        }
    }

    pub fn as_str(self) -> (r: &'static str)
        ensures
            r@ == self.name(),
    {
        match self {
            GateReason::NoFace => "no_face",
            GateReason::LowFaceScore => "low_face_score",
            GateReason::EyesTooClose => "eyes_too_close",
            GateReason::EyesTooFar => "eyes_too_far",
            GateReason::DegenerateBox => "degenerate_box",
        }
    }

    /// The name a violation's detail shows.
    pub fn variant_str(self) -> (r: &'static str)
        ensures
            r@ == self.variant(),
    {
        match self {
            GateReason::NoFace => "NoFace",
            GateReason::LowFaceScore => "LowFaceScore",
            GateReason::EyesTooClose => "EyesTooClose",
            GateReason::EyesTooFar => "EyesTooFar",
            GateReason::DegenerateBox => "DegenerateBox",
        }
    }
}

/// Per-frame record of what each model slot did.
#[derive(Debug, Clone, Copy, Default, PartialEq, Eq)]
pub struct SignalCoverage {
    pub face: SlotState,
    pub pose: SlotState,
    pub gaze: SlotState,
    pub objects: SlotState,
    pub identity: SlotState,
    /// Set when `gaze` is [`SlotState::SkippedGated`], so the skip rate can be
    /// broken down by cause.
    pub gaze_gate: Option<GateReason>,
}

#[derive(Debug, Clone, Copy, PartialEq, Eq, PartialOrd, Ord, Hash, Structural)]
pub enum ViolationKind {
    /// No face in frame for longer than the hold.
    NoFace,
    /// A face was never seen at all, which is worse than `NoFace`.
    NeverSeen,
    MultipleFaces,
    HeadTurnedAway,
    GazeOffScreen,
    ProhibitedObject,
    /// Cosine similarity against the enrolled embedding fell through the floor
    /// on several consecutive checks.
    IdentityMismatch,
    /// A signal a decision depends on has been absent long enough to matter.
    SignalLost,
}

impl ViolationKind {
    pub open spec fn name(self) -> Seq<char> {
        match self {
            ViolationKind::NoFace => "no_face"@,
            ViolationKind::NeverSeen => "never_seen"@,
            ViolationKind::MultipleFaces => "multiple_faces"@,
            ViolationKind::HeadTurnedAway => "head_turned_away"@,
            ViolationKind::GazeOffScreen => "gaze_off_screen"@,
            ViolationKind::ProhibitedObject => "prohibited_object"@,
            ViolationKind::IdentityMismatch => "identity_mismatch"@,
            ViolationKind::SignalLost => "signal_lost"@,
        }
    }

    /// The kind that a name or one of its short forms stands for.
    pub open spec fn named(s: Seq<char>) -> Option<ViolationKind> {
        if s == "no_face"@ || s == "noface"@ {
            Some(ViolationKind::NoFace)
        } else if s == "never_seen"@ || s == "neverseen"@ {
            Some(ViolationKind::NeverSeen)
        } else if s == "multiple_faces"@ || s == "multiface"@ {
            Some(ViolationKind::MultipleFaces)
        } else if s == "head_turned_away"@ || s == "head"@ {
            Some(ViolationKind::HeadTurnedAway)
        } else if s == "gaze_off_screen"@ || s == "gaze"@ {
            Some(ViolationKind::GazeOffScreen)
        } else if s == "prohibited_object"@ || s == "object"@ || s == "phone"@ {
            Some(ViolationKind::ProhibitedObject)
        } else if s == "identity_mismatch"@ || s == "identity"@ {
            Some(ViolationKind::IdentityMismatch)
        } else if s == "signal_lost"@ || s == "lost"@ {
            Some(ViolationKind::SignalLost)
        } else {
            None
        }
    }

    pub fn as_str(self) -> (r: &'static str)
        ensures
            r@ == self.name(),
    {
        match self {
            ViolationKind::NoFace => "no_face",
            ViolationKind::NeverSeen => "never_seen",
            ViolationKind::MultipleFaces => "multiple_faces",
            ViolationKind::HeadTurnedAway => "head_turned_away",
            ViolationKind::GazeOffScreen => "gaze_off_screen",
            ViolationKind::ProhibitedObject => "prohibited_object",
            ViolationKind::IdentityMismatch => "identity_mismatch",
            ViolationKind::SignalLost => "signal_lost",
        }
    }

    /// Parse the [`ViolationKind::as_str`] form, or a short form of it.
    pub fn from_str(s: &str) -> (r: Result<Self, String>)
        ensures
            match r {
                Ok(kind) => ViolationKind::named(s@) == Some(kind),
                Err(why) => ViolationKind::named(s@) is None && why@ == "`"@ + s@
                    + "` is not a violation kind"@,
            },
    {
        if same_text(s, "no_face") || same_text(s, "noface") {
            Ok(ViolationKind::NoFace)
        } else if same_text(s, "never_seen") || same_text(s, "neverseen") {
            Ok(ViolationKind::NeverSeen)
        } else if same_text(s, "multiple_faces") || same_text(s, "multiface") {
            Ok(ViolationKind::MultipleFaces)
        } else if same_text(s, "head_turned_away") || same_text(s, "head") {
            Ok(ViolationKind::HeadTurnedAway)
        } else if same_text(s, "gaze_off_screen") || same_text(s, "gaze") {
            Ok(ViolationKind::GazeOffScreen)
        } else if same_text(s, "prohibited_object") || same_text(s, "object") || same_text(s, "phone") {
            Ok(ViolationKind::ProhibitedObject)
        } else if same_text(s, "identity_mismatch") || same_text(s, "identity") {
            Ok(ViolationKind::IdentityMismatch)
        } else if same_text(s, "signal_lost") || same_text(s, "lost") {
            Ok(ViolationKind::SignalLost)
        } else {
            Err(owned("`").concat(s).concat("` is not a violation kind"))
        }
    }
}

/// Every kind parses from its own name.
pub proof fn law_kind_names_parse_back(kind: ViolationKind)
    ensures
        ViolationKind::named(kind.name()) == Some(kind),
{
    reveal_strlit("no_face");
    reveal_strlit("noface");
    reveal_strlit("never_seen");
    reveal_strlit("neverseen");
    reveal_strlit("multiple_faces");
    reveal_strlit("multiface");
    reveal_strlit("head_turned_away");
    reveal_strlit("head");
    reveal_strlit("gaze_off_screen");
    reveal_strlit("gaze");
    reveal_strlit("prohibited_object");
    reveal_strlit("object");
    reveal_strlit("phone");
    reveal_strlit("identity_mismatch");
    reveal_strlit("identity");
    reveal_strlit("signal_lost");
    reveal_strlit("lost");
    assert("no_face"@.len() == 7);
    assert("noface"@.len() == 6);
    assert("never_seen"@.len() == 10);
    assert("neverseen"@.len() == 9);
    assert("multiple_faces"@.len() == 14);
    assert("multiface"@.len() == 9);
    assert("head_turned_away"@.len() == 16);
    assert("head"@.len() == 4);
    assert("gaze_off_screen"@.len() == 15);
    assert("gaze"@.len() == 4);
    assert("prohibited_object"@.len() == 17);
    assert("object"@.len() == 6);
    assert("phone"@.len() == 5);
    assert("identity_mismatch"@.len() == 17);
    assert("identity"@.len() == 8);
    assert("signal_lost"@.len() == 11);
    assert("lost"@.len() == 4);
    assert("identity_mismatch"@[0] != "prohibited_object"@[0]);
}

#[derive(Debug, Clone, Copy, PartialEq, Eq, PartialOrd, Ord, Structural)]
pub enum Severity {
    Info,
    Low,
    Medium,
    High,
    Critical,
}

/// A downscaled JPEG kept out of the hot path, stored as a path once written
/// to disk.
#[derive(Debug, Clone, PartialEq, Eq)]
pub struct EvidenceRef {
    pub path: String,
    pub seq: u64,
}

/// Which model slot an argument came from.
#[derive(Debug, Clone, Copy, PartialEq, Eq, Hash, Structural)]
pub enum SignalSource {
    Face,
    Pose,
    Gaze,
    Objects,
    Identity,
}

/// One signal's argument for a violation, and how strongly it argued.
#[derive(Debug, Clone, PartialEq, Eq)]
pub struct Contribution {
    pub signal: SignalSource,
    pub weight: Number,
    pub detail: String,
}

/// What a [`Contribution`] says.
pub ghost struct ContributionView {
    pub signal: SignalSource,
    pub weight: Number,
    pub detail: Seq<char>,
}

impl View for Contribution {
    type V = ContributionView;

    open spec fn view(&self) -> ContributionView {
        ContributionView { signal: self.signal, weight: self.weight, detail: self.detail@ }
    }
}

/// What a list of contributions says, in order.
pub open spec fn contributions_view(s: Seq<Contribution>) -> Seq<ContributionView> {
    s.map_values(|c: Contribution| c@)
}

/// A copy of a list of contributions.
pub fn copy_contributions(list: &Vec<Contribution>) -> (r: Vec<Contribution>)
    ensures
        contributions_view(r@) == contributions_view(list@),
{
    let mut r: Vec<Contribution> = Vec::new();
    let n: usize = list.len();
    for i in 0..n
        invariant
            n == list@.len(),
            r@.len() == i,
            forall|j: int| 0 <= j < i ==> (#[trigger] r@[j])@ == list@[j]@,
    {
        let c = &list[i];
        r.push(Contribution { signal: c.signal, weight: c.weight, detail: c.detail.clone() });
    }
    assert(contributions_view(r@) =~= contributions_view(list@));
    r
}

/// What an optional text says.
pub open spec fn subject_view(subject: Option<String>) -> Option<Seq<char>> {
    match subject {
        Some(s) => Some(s@),
        None => None,
    }
}

/// A copy of an optional text.
pub fn copy_subject(subject: &Option<String>) -> (r: Option<String>)
    ensures
        subject_view(r) == subject_view(*subject),
{
    match subject {
        Some(s) => Some(s.clone()),
        None => None,
    }
}

/// A decision. Produced only by the fusion layer.
#[derive(Debug, Clone, PartialEq, Eq)]
pub struct Violation {
    pub kind: ViolationKind,
    pub severity: Severity,
    pub confidence: Number,
    /// Milliseconds since session start, on the timebase of [`Signals::t_ms`].
    pub t_start_ms: u64,
    /// `None` = still ongoing.
    pub t_end_ms: Option<u64>,
    /// Which bucket, slot or class this is about, when the kind alone is not
    /// specific enough: `handheld_device` for an object, `gaze: NoFace` for a
    /// lost signal.
    pub subject: Option<String>,
    pub evidence: Option<EvidenceRef>,
    /// Which signals argued for this violation, and how strongly.
    pub contributing: Vec<Contribution>,
}

/// What a [`Violation`] says.
pub ghost struct ViolationView {
    pub kind: ViolationKind,
    pub severity: Severity,
    pub confidence: Number,
    pub t_start_ms: u64,
    pub t_end_ms: Option<u64>,
    pub subject: Option<Seq<char>>,
    pub evidence: Option<(Seq<char>, u64)>,
    pub contributing: Seq<ContributionView>,
}

/// What a reference to evidence says.
pub open spec fn evidence_view(e: Option<EvidenceRef>) -> Option<(Seq<char>, u64)> {
    match e {
        Some(e) => Some((e.path@, e.seq)),
        None => None,
    }
}

impl View for Violation {
    type V = ViolationView;

    open spec fn view(&self) -> ViolationView {
        ViolationView {
            kind: self.kind,
            severity: self.severity,
            confidence: self.confidence,
            t_start_ms: self.t_start_ms,
            t_end_ms: self.t_end_ms,
            subject: subject_view(self.subject),
            evidence: evidence_view(self.evidence),
            contributing: contributions_view(self.contributing@),
        }
    }
}

impl Violation {
    /// A copy that says the same.
    pub fn duplicate(&self) -> (r: Self)
        ensures
            r@ == self@,
    {
        Self {
            kind: self.kind,
            severity: self.severity,
            confidence: self.confidence,
            t_start_ms: self.t_start_ms,
            t_end_ms: self.t_end_ms,
            subject: copy_subject(&self.subject),
            evidence: match &self.evidence {
                Some(e) => Some(EvidenceRef { path: e.path.clone(), seq: e.seq }),
                None => None,
            },
            contributing: copy_contributions(&self.contributing),
        }
    }
}

/// Something the session can no longer rely on.
#[derive(Debug, Clone, PartialEq, Eq)]
pub enum DegradeReason {
    CameraLost(String),
    ModelUnavailable { model: String, why: String },
    InferenceFailing { model: String, why: String },
    ExecutionProviderFallback { model: String, from: String, to: String },
}

/// What a [`DegradeReason`] says.
pub ghost enum DegradeView {
    CameraLost(Seq<char>),
    ModelUnavailable { model: Seq<char>, why: Seq<char> },
    InferenceFailing { model: Seq<char>, why: Seq<char> },
    ExecutionProviderFallback { model: Seq<char>, from: Seq<char>, to: Seq<char> },
}

impl View for DegradeReason {
    type V = DegradeView;

    open spec fn view(&self) -> DegradeView {
        match self {
            DegradeReason::CameraLost(why) => DegradeView::CameraLost(why@),
            DegradeReason::ModelUnavailable { model, why } => DegradeView::ModelUnavailable {
                model: model@,
                why: why@,
            },
            DegradeReason::InferenceFailing { model, why } => DegradeView::InferenceFailing {
                model: model@,
                why: why@,
            },
            DegradeReason::ExecutionProviderFallback { model, from, to } => {
                DegradeView::ExecutionProviderFallback { model: model@, from: from@, to: to@ }
            },
        }
    }
}

impl DegradeReason {
    /// A copy that says the same.
    pub fn duplicate(&self) -> (r: Self)
        ensures
            r@ == self@,
    {
        match self {
            DegradeReason::CameraLost(why) => DegradeReason::CameraLost(why.clone()),
            DegradeReason::ModelUnavailable { model, why } => DegradeReason::ModelUnavailable {
                model: model.clone(),
                why: why.clone(),
            },
            DegradeReason::InferenceFailing { model, why } => DegradeReason::InferenceFailing {
                model: model.clone(),
                why: why.clone(),
            },
            DegradeReason::ExecutionProviderFallback { model, from, to } => {
                DegradeReason::ExecutionProviderFallback {
                    model: model.clone(),
                    from: from.clone(),
                    to: to.clone(),
                }
            },
        }
    }
}

/// What the detector tells its listener, once per edge.
#[derive(Debug, Clone, PartialEq, Eq)]
pub enum Event {
    ViolationStarted(Violation),
    ViolationEnded(Violation),
    CalibrationProgress { pct: Number },
    CalibrationComplete,
    Degraded(DegradeReason),
    Recovered,
}

/// What an [`Event`] says.
pub ghost enum EventView {
    ViolationStarted(ViolationView),
    ViolationEnded(ViolationView),
    CalibrationProgress { pct: Number },
    CalibrationComplete,
    Degraded(DegradeView),
    Recovered,
}

impl View for Event {
    type V = EventView;

    open spec fn view(&self) -> EventView {
        match self {
            Event::ViolationStarted(v) => EventView::ViolationStarted(v@),
            Event::ViolationEnded(v) => EventView::ViolationEnded(v@),
            Event::CalibrationProgress { pct } => EventView::CalibrationProgress { pct: *pct },
            Event::CalibrationComplete => EventView::CalibrationComplete,
            Event::Degraded(reason) => EventView::Degraded(reason@),
            Event::Recovered => EventView::Recovered,
        }
    }
}

/// What a list of events says, in order.
pub open spec fn events_view(s: Seq<Event>) -> Seq<EventView> {
    s.map_values(|e: Event| e@)
}

/// Level-triggered view for a display: polled at whatever rate it wants, never
/// pushed.
#[derive(Debug, Clone, Default, PartialEq, Eq)]
pub struct DetectorState {
    pub seq: u64,
    pub t_ms: u64,
    pub face_count: usize,
    pub head_pose: Option<HeadPose>,
    pub gaze: Option<Gaze>,
    pub identity_match: Option<Number>,
    pub active_violations: Vec<ViolationKind>,
    pub degraded: Vec<DegradeReason>,
    pub calibrated: bool,
    pub object_count: usize,
    pub stats: PipelineStats,
}

/// Throughput and latency of the running pipeline.
///
/// Skipped frames are expected and healthy: the detect worker runs slower than
/// capture and drops whatever it missed rather than queueing it.
#[derive(Debug, Clone, Copy, Default, PartialEq, Eq)]
pub struct PipelineStats {
    pub frames_captured: u64,
    pub frames_detected: u64,
    pub frames_skipped: u64,
    pub capture_fps: Number,
    pub detect_fps: Number,
    /// Model time only.
    pub detect_p50_us: u64,
    pub detect_p95_us: u64,
    /// Including preprocess and decode.
    pub total_p50_us: u64,
}

/// The names that a kind of violation goes by, the first of them its own. No
/// other text names one.
pub proof fn law_kinds_go_by_these_names(s: Seq<char>)
    ensures
        ViolationKind::NoFace.name() == "no_face"@,
        ViolationKind::named("no_face"@) == Some(ViolationKind::NoFace),
        ViolationKind::named("noface"@) == Some(ViolationKind::NoFace),
        ViolationKind::NeverSeen.name() == "never_seen"@,
        ViolationKind::named("never_seen"@) == Some(ViolationKind::NeverSeen),
        ViolationKind::named("neverseen"@) == Some(ViolationKind::NeverSeen),
        ViolationKind::MultipleFaces.name() == "multiple_faces"@,
        ViolationKind::named("multiple_faces"@) == Some(ViolationKind::MultipleFaces),
        ViolationKind::named("multiface"@) == Some(ViolationKind::MultipleFaces),
        ViolationKind::HeadTurnedAway.name() == "head_turned_away"@,
        ViolationKind::named("head_turned_away"@) == Some(ViolationKind::HeadTurnedAway),
        ViolationKind::named("head"@) == Some(ViolationKind::HeadTurnedAway),
        ViolationKind::GazeOffScreen.name() == "gaze_off_screen"@,
        ViolationKind::named("gaze_off_screen"@) == Some(ViolationKind::GazeOffScreen),
        ViolationKind::named("gaze"@) == Some(ViolationKind::GazeOffScreen),
        ViolationKind::ProhibitedObject.name() == "prohibited_object"@,
        ViolationKind::named("prohibited_object"@) == Some(ViolationKind::ProhibitedObject),
        ViolationKind::named("object"@) == Some(ViolationKind::ProhibitedObject),
        ViolationKind::named("phone"@) == Some(ViolationKind::ProhibitedObject),
        ViolationKind::IdentityMismatch.name() == "identity_mismatch"@,
        ViolationKind::named("identity_mismatch"@) == Some(ViolationKind::IdentityMismatch),
        ViolationKind::named("identity"@) == Some(ViolationKind::IdentityMismatch),
        ViolationKind::SignalLost.name() == "signal_lost"@,
        ViolationKind::named("signal_lost"@) == Some(ViolationKind::SignalLost),
        ViolationKind::named("lost"@) == Some(ViolationKind::SignalLost),
        ViolationKind::named(s) is Some ==> s == "no_face"@ || s == "noface"@ || s == "never_seen"@ || s == "neverseen"@ || s == "multiple_faces"@ || s == "multiface"@ || s == "head_turned_away"@ || s == "head"@ || s == "gaze_off_screen"@ || s == "gaze"@ || s == "prohibited_object"@ || s == "object"@ || s == "phone"@ || s == "identity_mismatch"@ || s == "identity"@ || s == "signal_lost"@ || s == "lost"@,
{
    reveal_strlit("no_face");
    reveal_strlit("noface");
    reveal_strlit("never_seen");
    reveal_strlit("neverseen");
    reveal_strlit("multiple_faces");
    reveal_strlit("multiface");
    reveal_strlit("head_turned_away");
    reveal_strlit("head");
    reveal_strlit("gaze_off_screen");
    reveal_strlit("gaze");
    reveal_strlit("prohibited_object");
    reveal_strlit("object");
    reveal_strlit("phone");
    reveal_strlit("identity_mismatch");
    reveal_strlit("identity");
    reveal_strlit("signal_lost");
    reveal_strlit("lost");
    assert("no_face"@.len() == 7);
    assert("noface"@.len() == 6);
    assert("never_seen"@.len() == 10);
    assert("neverseen"@.len() == 9);
    assert("multiple_faces"@.len() == 14);
    assert("multiface"@.len() == 9);
    assert("head_turned_away"@.len() == 16);
    assert("head"@.len() == 4);
    assert("gaze_off_screen"@.len() == 15);
    assert("gaze"@.len() == 4);
    assert("prohibited_object"@.len() == 17);
    assert("object"@.len() == 6);
    assert("phone"@.len() == 5);
    assert("identity_mismatch"@.len() == 17);
    assert("identity"@.len() == 8);
    assert("signal_lost"@.len() == 11);
    assert("lost"@.len() == 4);
    assert("no_face"@[0] == 'n');
    assert("noface"@[0] == 'n');
    assert("never_seen"@[0] == 'n');
    assert("neverseen"@[0] == 'n');
    assert("multiple_faces"@[0] == 'm');
    assert("multiface"@[0] == 'm');
    assert("head_turned_away"@[0] == 'h');
    assert("head"@[0] == 'h');
    assert("gaze_off_screen"@[0] == 'g');
    assert("gaze"@[0] == 'g');
    assert("prohibited_object"@[0] == 'p');
    assert("object"@[0] == 'o');
    assert("phone"@[0] == 'p');
    assert("identity_mismatch"@[0] == 'i');
    assert("identity"@[0] == 'i');
    assert("signal_lost"@[0] == 's');
    assert("lost"@[0] == 'l');
}

/// What each state of a slot is called.
pub proof fn law_slot_states_are_called()
    ensures
        SlotState::Produced.name() == "produced"@,
        SlotState::SkippedGated.name() == "gated"@,
        SlotState::SkippedCadence.name() == "cadence"@,
        SlotState::Failed.name() == "failed"@,
        SlotState::NotConfigured.name() == "absent"@,
{
}

/// What each reason to decline is called.
pub proof fn law_gate_reasons_are_called()
    ensures
        GateReason::NoFace.name() == "no_face"@,
        GateReason::LowFaceScore.name() == "low_face_score"@,
        GateReason::EyesTooClose.name() == "eyes_too_close"@,
        GateReason::EyesTooFar.name() == "eyes_too_far"@,
        GateReason::DegenerateBox.name() == "degenerate_box"@,
{
}


/// What is said of a detection, a contribution or a violation is all that it
/// holds.
pub proof fn law_views_leave_nothing_out(o: ObjectDetection, c: Contribution, v: Violation)
    ensures
        o@.class_id == o.class_id && o@.label == o.label@ && o@.score == o.score && o@.bbox == o.bbox,
        c@.signal == c.signal && c@.weight == c.weight && c@.detail == c.detail@,
        v@.kind == v.kind && v@.severity == v.severity && v@.confidence == v.confidence,
        v@.t_start_ms == v.t_start_ms && v@.t_end_ms == v.t_end_ms,
        v.subject matches Some(s) ==> v@.subject == Some(s@),
        v.subject is None ==> v@.subject is None,
        v.evidence matches Some(e) ==> v@.evidence == Some((e.path@, e.seq)),
        v.evidence is None ==> v@.evidence is None,
        v@.contributing.len() == v.contributing@.len(),
        forall|i: int| 0 <= i < v.contributing@.len() ==> #[trigger] v@.contributing[i] == v.contributing@[i]@,
{
}

/// An event says what it is, and all that it holds.
pub proof fn law_events_say_what_they_are(e: Event, events: Seq<Event>, i: int)
    ensures
        e matches Event::ViolationStarted(v) ==> e@ == EventView::ViolationStarted(v@),
        e matches Event::ViolationEnded(v) ==> e@ == EventView::ViolationEnded(v@),
        e matches Event::Degraded(r) ==> e@ == EventView::Degraded(r@),
        e is Recovered ==> e@ == EventView::Recovered,
        events_view(events).len() == events.len(),
        0 <= i < events.len() ==> events_view(events)[i] == events[i]@,
{
}

/// A frame is packed three bytes to the pixel.
pub proof fn law_a_pixel_takes_three_bytes(f: Frame)
    ensures
        f.packed_len() == 3 * (f.width * f.height),
{
    assert(f.width * f.height * 3 == 3 * (f.width * f.height)) by (nonlinear_arith);
}

/// Lists of detections and of contributions say what each of them says, in
/// order, and a subject says its text.
pub proof fn law_lists_are_viewed_one_by_one(
    objects: Seq<ObjectDetection>,
    contributions: Seq<Contribution>,
    subject: Option<String>,
    i: int,
)
    ensures
        objects_view(objects).len() == objects.len(),
        0 <= i < objects.len() ==> objects_view(objects)[i] == objects[i]@,
        contributions_view(contributions).len() == contributions.len(),
        0 <= i < contributions.len() ==> contributions_view(contributions)[i] == contributions[i]@,
        subject matches Some(s) ==> subject_view(subject) == Some(s@),
        subject is None ==> subject_view(subject) is None,
{
}

/// What degraded a session is told apart by what it is, which model it is about
/// and why.
pub proof fn law_reasons_say_what_they_are(r: DegradeReason)
    ensures
        r matches DegradeReason::CameraLost(why) ==> r@ == DegradeView::CameraLost(why@),
        r matches DegradeReason::ModelUnavailable { model, why } ==> r@ == (DegradeView::ModelUnavailable {
            model: model@,
            why: why@,
        }),
        r matches DegradeReason::InferenceFailing { model, why } ==> r@ == (DegradeView::InferenceFailing {
            model: model@,
            why: why@,
        }),
        r matches DegradeReason::ExecutionProviderFallback { model, from, to } ==> r@ == (
        DegradeView::ExecutionProviderFallback { model: model@, from: from@, to: to@ }),
{
}

} // verus!
