//! Counting which signals actually existed on which frames.
//!
//! A session where gaze was gated for nine minutes must not read like one where
//! it ran throughout.

use vstd::prelude::*;

use crate::types::{GateReason, SignalCoverage, SlotState};

verus! {

broadcast use vstd::string::group_string_axioms;

/// How often a slot was in each state.
#[derive(Debug, Clone, Copy, PartialEq, Eq)]
pub struct StateCounts {
    pub absent: u64,
    pub cadence: u64,
    pub failed: u64,
    pub gated: u64,
    pub produced: u64,
}

impl StateCounts {
    /// How often the slot was in one state.
    pub open spec fn of(self, state: SlotState) -> u64 {
        match state {
            SlotState::NotConfigured => self.absent,
            SlotState::SkippedCadence => self.cadence,
            SlotState::Failed => self.failed,
            SlotState::SkippedGated => self.gated,
            SlotState::Produced => self.produced,
        }
    }

    pub open spec fn total(self) -> int {
        self.absent + self.cadence + self.failed + self.gated + self.produced
    }

    fn zero() -> (r: Self)
        ensures
            r.total() == 0,
    {
        StateCounts { absent: 0, cadence: 0, failed: 0, gated: 0, produced: 0 }
    }

    /// Count one frame.
    fn count(&mut self, state: SlotState)
        requires
            old(self).total() < u64::MAX,
        ensures
            final(self).total() == old(self).total() + 1,
            forall|s: SlotState|
                #[trigger] final(self).of(s) == old(self).of(s) + (if s == state { 1int } else { 0int }),
    {
        match state {
            SlotState::NotConfigured => self.absent = self.absent + 1,
            SlotState::SkippedCadence => self.cadence = self.cadence + 1,
            SlotState::Failed => self.failed = self.failed + 1,
            SlotState::SkippedGated => self.gated = self.gated + 1,
            SlotState::Produced => self.produced = self.produced + 1,
        }
    }

    /// The states that occurred, in ascending order of their names.
    pub open spec fn listed(self) -> Seq<(SlotState, u64)> {
        some(SlotState::NotConfigured, self.absent) + some(SlotState::SkippedCadence, self.cadence) + some(
            SlotState::Failed,
            self.failed,
        ) + some(SlotState::SkippedGated, self.gated) + some(SlotState::Produced, self.produced)
    }

    /// List the states that occurred.
    pub fn rows(&self) -> (r: Vec<(SlotState, u64)>)
        ensures
            r@ == self.listed(),
    {
        let mut r: Vec<(SlotState, u64)> = Vec::new();
        if self.absent > 0 {
            r.push((SlotState::NotConfigured, self.absent));
        }
        if self.cadence > 0 {
            r.push((SlotState::SkippedCadence, self.cadence));
        }
        if self.failed > 0 {
            r.push((SlotState::Failed, self.failed));
        }
        if self.gated > 0 {
            r.push((SlotState::SkippedGated, self.gated));
        }
        if self.produced > 0 {
            r.push((SlotState::Produced, self.produced));
        }
        assert(r@ =~= self.listed());
        r
    }
}

/// One entry, unless it never occurred.
pub open spec fn some<T>(what: T, n: u64) -> Seq<(T, u64)> {
    if n > 0 {
        seq![(what, n)]
    } else {
        Seq::empty()
    }
}

/// How often the gaze model declined, by reason.
#[derive(Debug, Clone, Copy, PartialEq, Eq)]
pub struct GateCounts {
    pub no_face: u64,
    pub low_face_score: u64,
    pub eyes_too_close: u64,
    pub eyes_too_far: u64,
    pub degenerate_box: u64,
}

impl GateCounts {
    /// How often one reason was given.
    pub open spec fn of(self, reason: GateReason) -> u64 {
        match reason {
            GateReason::NoFace => self.no_face,
            GateReason::LowFaceScore => self.low_face_score,
            GateReason::EyesTooClose => self.eyes_too_close,
            GateReason::EyesTooFar => self.eyes_too_far,
            GateReason::DegenerateBox => self.degenerate_box,
        }
    }

    pub open spec fn total(self) -> int {
        self.no_face + self.low_face_score + self.eyes_too_close + self.eyes_too_far + self.degenerate_box
    }

    fn count(&mut self, reason: GateReason)
        requires
            old(self).total() < u64::MAX,
        ensures
            final(self).total() == old(self).total() + 1,
            forall|g: GateReason|
                #[trigger] final(self).of(g) == old(self).of(g) + (if g == reason { 1int } else { 0int }),
    {
        match reason {
            GateReason::NoFace => self.no_face = self.no_face + 1,
            GateReason::LowFaceScore => self.low_face_score = self.low_face_score + 1,
            GateReason::EyesTooClose => self.eyes_too_close = self.eyes_too_close + 1,
            GateReason::EyesTooFar => self.eyes_too_far = self.eyes_too_far + 1,
            GateReason::DegenerateBox => self.degenerate_box = self.degenerate_box + 1,
        }
    }

    /// The reasons given, in the order they are declared in.
    pub open spec fn listed(self) -> Seq<(GateReason, u64)> {
        some(GateReason::NoFace, self.no_face) + some(GateReason::LowFaceScore, self.low_face_score) + some(
            GateReason::EyesTooClose,
            self.eyes_too_close,
        ) + some(GateReason::EyesTooFar, self.eyes_too_far) + some(GateReason::DegenerateBox, self.degenerate_box)
    }

    /// The reasons given, in ascending order of their names.
    pub open spec fn listed_by_name(self) -> Seq<(GateReason, u64)> {
        some(GateReason::DegenerateBox, self.degenerate_box) + some(GateReason::EyesTooClose, self.eyes_too_close)
            + some(GateReason::EyesTooFar, self.eyes_too_far) + some(GateReason::LowFaceScore, self.low_face_score)
            + some(GateReason::NoFace, self.no_face)
    }

    /// List the reasons given, in the order they are declared in.
    pub fn rows(&self) -> (r: Vec<(GateReason, u64)>)
        ensures
            r@ == self.listed(),
    {
        let mut r: Vec<(GateReason, u64)> = Vec::new();
        if self.no_face > 0 {
            r.push((GateReason::NoFace, self.no_face));
        }
        if self.low_face_score > 0 {
            r.push((GateReason::LowFaceScore, self.low_face_score));
        }
        if self.eyes_too_close > 0 {
            r.push((GateReason::EyesTooClose, self.eyes_too_close));
        }
        if self.eyes_too_far > 0 {
            r.push((GateReason::EyesTooFar, self.eyes_too_far));
        }
        if self.degenerate_box > 0 {
            r.push((GateReason::DegenerateBox, self.degenerate_box));
        }
        assert(r@ =~= self.listed());
        r
    }

    /// List the reasons given, in ascending order of their names.
    pub fn rows_by_name(&self) -> (r: Vec<(GateReason, u64)>)
        ensures
            r@ == self.listed_by_name(),
    {
        let mut r: Vec<(GateReason, u64)> = Vec::new();
        if self.degenerate_box > 0 {
            r.push((GateReason::DegenerateBox, self.degenerate_box));
        }
        if self.eyes_too_close > 0 {
            r.push((GateReason::EyesTooClose, self.eyes_too_close));
        }
        if self.eyes_too_far > 0 {
            r.push((GateReason::EyesTooFar, self.eyes_too_far));
        }
        if self.low_face_score > 0 {
            r.push((GateReason::LowFaceScore, self.low_face_score));
        }
        if self.no_face > 0 {
            r.push((GateReason::NoFace, self.no_face));
        }
        assert(r@ =~= self.listed_by_name());
        r
    }
}

/// Per-slot state counts over a run.
#[derive(Debug, Clone, Copy, PartialEq, Eq)]
pub struct CoverageTally {
    pub frames: u64,
    pub face: StateCounts,
    pub gaze: StateCounts,
    pub identity: StateCounts,
    pub objects: StateCounts,
    pub pose: StateCounts,
    pub gates: GateCounts,
}

impl CoverageTally {
    /// Every slot is in one state on every frame.
    pub open spec fn inv(self) -> bool {
        &&& self.face.total() == self.frames
        &&& self.gaze.total() == self.frames
        &&& self.identity.total() == self.frames
        &&& self.objects.total() == self.frames
        &&& self.pose.total() == self.frames
        &&& self.gates.total() <= self.frames
    }

    pub fn new() -> (r: Self)
        ensures
            r.inv(),
            r.frames == 0,
            r.gates.total() == 0,
    {
        CoverageTally {
            frames: 0,
            face: StateCounts::zero(),
            gaze: StateCounts::zero(),
            identity: StateCounts::zero(),
            objects: StateCounts::zero(),
            pose: StateCounts::zero(),
            gates: GateCounts {
                no_face: 0,
                low_face_score: 0,
                eyes_too_close: 0,
                eyes_too_far: 0,
                degenerate_box: 0,
            },
        }
    }

    /// Count one frame.
    pub fn observe(&mut self, c: &SignalCoverage)
        requires
            old(self).inv(),
            old(self).frames < u64::MAX,
        ensures
            final(self).inv(),
            final(self).frames == old(self).frames + 1,
            forall|s: SlotState|
                #[trigger] final(self).face.of(s) == old(self).face.of(s) + (if s == c.face { 1int } else { 0int }),
            forall|s: SlotState|
                #[trigger] final(self).gaze.of(s) == old(self).gaze.of(s) + (if s == c.gaze { 1int } else { 0int }),
            forall|s: SlotState|
                #[trigger] final(self).identity.of(s) == old(self).identity.of(s) + (if s == c.identity {
                    1int
                } else {
                    0int
                }),
            forall|s: SlotState|
                #[trigger] final(self).objects.of(s) == old(self).objects.of(s) + (if s == c.objects {
                    1int
                } else {
                    0int
                }),
            forall|s: SlotState|
                #[trigger] final(self).pose.of(s) == old(self).pose.of(s) + (if s == c.pose { 1int } else { 0int }),
            forall|g: GateReason|
                #[trigger] final(self).gates.of(g) == old(self).gates.of(g) + (if c.gaze_gate == Some(g) {
                    1int
                } else {
                    0int
                }),
    {
        self.frames = self.frames + 1;
        self.face.count(c.face);
        self.gaze.count(c.gaze);
        self.identity.count(c.identity);
        self.objects.count(c.objects);
        self.pose.count(c.pose);
        if let Some(reason) = c.gaze_gate {
            self.gates.count(reason);
        }
    }
}

// -- laws -------------------------------------------------------------------

/// Each state has a count of its own, and together they are all.
pub proof fn law_states_are_counted_apart(c: StateCounts)
    ensures
        c.of(SlotState::NotConfigured) == c.absent,
        c.of(SlotState::SkippedCadence) == c.cadence,
        c.of(SlotState::Failed) == c.failed,
        c.of(SlotState::SkippedGated) == c.gated,
        c.of(SlotState::Produced) == c.produced,
        c.total() == c.absent + c.cadence + c.failed + c.gated + c.produced,
{
}

/// Each reason has a count of its own, and together they are all.
pub proof fn law_reasons_are_counted_apart(c: GateCounts)
    ensures
        c.of(GateReason::NoFace) == c.no_face,
        c.of(GateReason::LowFaceScore) == c.low_face_score,
        c.of(GateReason::EyesTooClose) == c.eyes_too_close,
        c.of(GateReason::EyesTooFar) == c.eyes_too_far,
        c.of(GateReason::DegenerateBox) == c.degenerate_box,
        c.total() == c.no_face + c.low_face_score + c.eyes_too_close + c.eyes_too_far + c.degenerate_box,
{
}

proof fn lemma_listed<T>(a: Seq<(T, u64)>, what: T, count: u64, row: (T, u64))
    ensures
        (a + some(what, count)).contains(row) <==> a.contains(row) || (row == (what, count) && count > 0),
{
    let all = a + some(what, count);
    if a.contains(row) {
        let i = choose|i: int| 0 <= i < a.len() && a[i] == row;
        assert(all[i] == row);
    }
    if row == (what, count) && count > 0 {
        assert(all[a.len() as int] == row);
    }
    if all.contains(row) {
        let i = choose|i: int| 0 <= i < all.len() && all[i] == row;
        if i < a.len() {
            assert(a[i] == row);
        }
    }
}

/// A list of states shows those that occurred, each once and with its count.
pub proof fn law_states_that_occurred_are_listed(c: StateCounts, state: SlotState, n: u64)
    ensures
        c.listed().contains((state, n)) <==> n > 0 && n == c.of(state),
{
    let none = Seq::<(SlotState, u64)>::empty();
    let a = some(SlotState::NotConfigured, c.absent);
    let b = a + some(SlotState::SkippedCadence, c.cadence);
    let d = b + some(SlotState::Failed, c.failed);
    let e = d + some(SlotState::SkippedGated, c.gated);
    let row = (state, n);
    assert(none + a =~= a);
    lemma_listed(none, SlotState::NotConfigured, c.absent, row);
    lemma_listed(a, SlotState::SkippedCadence, c.cadence, row);
    lemma_listed(b, SlotState::Failed, c.failed, row);
    lemma_listed(d, SlotState::SkippedGated, c.gated, row);
    lemma_listed(e, SlotState::Produced, c.produced, row);
}

/// States are listed in the order of their names.
pub proof fn law_states_are_listed_by_name(c: StateCounts)
    requires
        c.absent > 0 && c.cadence > 0 && c.failed > 0 && c.gated > 0 && c.produced > 0,
    ensures
        c.listed() == seq![
            (SlotState::NotConfigured, c.absent),
            (SlotState::SkippedCadence, c.cadence),
            (SlotState::Failed, c.failed),
            (SlotState::SkippedGated, c.gated),
            (SlotState::Produced, c.produced),
        ],
{
}

/// A list of reasons shows those that were given, each once and with its count.
pub proof fn law_reasons_given_are_listed(c: GateCounts, reason: GateReason, n: u64)
    ensures
        c.listed().contains((reason, n)) <==> n > 0 && n == c.of(reason),
{
    let none = Seq::<(GateReason, u64)>::empty();
    let a = some(GateReason::NoFace, c.no_face);
    let b = a + some(GateReason::LowFaceScore, c.low_face_score);
    let d = b + some(GateReason::EyesTooClose, c.eyes_too_close);
    let e = d + some(GateReason::EyesTooFar, c.eyes_too_far);
    let row = (reason, n);
    assert(none + a =~= a);
    lemma_listed(none, GateReason::NoFace, c.no_face, row);
    lemma_listed(a, GateReason::LowFaceScore, c.low_face_score, row);
    lemma_listed(b, GateReason::EyesTooClose, c.eyes_too_close, row);
    lemma_listed(d, GateReason::EyesTooFar, c.eyes_too_far, row);
    lemma_listed(e, GateReason::DegenerateBox, c.degenerate_box, row);
}

/// The list of reasons by their names shows the same ones.
pub proof fn law_reasons_given_are_listed_by_name(c: GateCounts, reason: GateReason, n: u64)
    ensures
        c.listed_by_name().contains((reason, n)) <==> n > 0 && n == c.of(reason),
{
    let none = Seq::<(GateReason, u64)>::empty();
    let a = some(GateReason::DegenerateBox, c.degenerate_box);
    let b = a + some(GateReason::EyesTooClose, c.eyes_too_close);
    let d = b + some(GateReason::EyesTooFar, c.eyes_too_far);
    let e = d + some(GateReason::LowFaceScore, c.low_face_score);
    let row = (reason, n);
    assert(none + a =~= a);
    lemma_listed(none, GateReason::DegenerateBox, c.degenerate_box, row);
    lemma_listed(a, GateReason::EyesTooClose, c.eyes_too_close, row);
    lemma_listed(b, GateReason::EyesTooFar, c.eyes_too_far, row);
    lemma_listed(d, GateReason::LowFaceScore, c.low_face_score, row);
    lemma_listed(e, GateReason::NoFace, c.no_face, row);
}

/// Reasons are listed as they are declared, or in the order of their names.
pub proof fn law_reasons_are_listed_in_either_order(c: GateCounts)
    requires
        c.no_face > 0 && c.low_face_score > 0 && c.eyes_too_close > 0 && c.eyes_too_far > 0 && c.degenerate_box > 0,
    ensures
        c.listed() == seq![
            (GateReason::NoFace, c.no_face),
            (GateReason::LowFaceScore, c.low_face_score),
            (GateReason::EyesTooClose, c.eyes_too_close),
            (GateReason::EyesTooFar, c.eyes_too_far),
            (GateReason::DegenerateBox, c.degenerate_box),
        ],
        c.listed_by_name() == seq![
            (GateReason::DegenerateBox, c.degenerate_box),
            (GateReason::EyesTooClose, c.eyes_too_close),
            (GateReason::EyesTooFar, c.eyes_too_far),
            (GateReason::LowFaceScore, c.low_face_score),
            (GateReason::NoFace, c.no_face),
        ],
{
}

} // verus!
