//! Recording signals, and reading a recording back.

use vstd::prelude::*;

use crate::cli::coverage::{CoverageTally, StateCounts};
use crate::config::ModelPaths;
use crate::decimal::{decimal, decimal_of};
use crate::error::{DetectError, ErrorView};
use crate::pipeline::workers::{assemble, Measured};
use crate::text::{chars_of, lines, lines_spec, owned, string_of, trim, trim_spec};
use crate::types::{
    objects_view, Event, GateReason, ObjectDetection, SignalCoverage, SignalSource, Signals, SlotState, Violation,
};

verus! {

broadcast use vstd::string::group_string_axioms;

/// What the object model said about a recorded frame.
#[derive(Debug, Clone, PartialEq, Eq)]
pub enum ObjectsRun {
    Absent,
    Produced(Vec<ObjectDetection>),
    Failed,
}

impl ObjectsRun {
    pub open spec fn state(self) -> SlotState {
        match self {
            ObjectsRun::Absent => SlotState::NotConfigured,
            ObjectsRun::Produced(_) => SlotState::Produced,
            ObjectsRun::Failed => SlotState::Failed,
        }
    }

    pub open spec fn found(self) -> Seq<ObjectDetection> {
        match self {
            ObjectsRun::Produced(list) => list@,
            _ => Seq::empty(),
        }
    }
}

/// Insist on a face model to record with.
pub fn require_face(paths: &ModelPaths) -> (r: Result<String, DetectError>)
    ensures
        match (r, paths.face) {
            (Ok(path), Some(p)) => path@ == p@,
            (Err(e), None) => e@ == ErrorView::Config(
                "no face model: put models in models/ or set models.face"@,
            ),
            _ => false,
        },
{
    match &paths.face {
        Some(p) => Ok(p.clone()),
        None => Err(DetectError::Config(owned("no face model: put models in models/ or set models.face"))),
    }
}

/// Put a recorded frame together. Every model runs on every frame here, so
/// objects never skip for cadence, and nobody is compared with anyone.
pub fn record_frame(m: Measured, objects: ObjectsRun) -> (r: Signals)
    requires
        m.countable(),
    ensures
        m.makes(objects_view(objects.found()), objects.state(), None, SlotState::NotConfigured, r),
{
    let (found, state) = match objects {
        ObjectsRun::Absent => (Vec::new(), SlotState::NotConfigured),
        ObjectsRun::Produced(list) => (list, SlotState::Produced),
        ObjectsRun::Failed => (Vec::new(), SlotState::Failed),
    };
    assert(objects_view(found@) =~= objects_view(objects.found()));
    let (signals, _timings) = assemble(m, found, state, None, SlotState::NotConfigured);
    signals
}

/// A line of a recording that holds something, and its number.
#[derive(Debug, Clone, PartialEq, Eq)]
pub struct RecordLine {
    /// Counted from one.
    pub number: usize,
    pub text: String,
}

/// What a list of lines says, in order.
pub open spec fn record_lines_view(s: Seq<RecordLine>) -> Seq<(int, Seq<char>)> {
    s.map_values(|l: RecordLine| (l.number as int, l.text@))
}

/// The lines among the first `n` that hold something, with their numbers.
pub open spec fn filled_lines(listing: Seq<Seq<char>>, n: nat) -> Seq<(int, Seq<char>)>
    decreases n,
{
    if n == 0 {
        Seq::empty()
    } else {
        let before = filled_lines(listing, (n - 1) as nat);
        if trim_spec(listing[n - 1]).len() == 0 {
            before
        } else {
            before.push((n as int, listing[n - 1]))
        }
    }
}

/// Split a recording into its lines, leaving blank ones out.
pub fn record_lines(text: &str) -> (r: Vec<RecordLine>)
    ensures
        record_lines_view(r@) == filled_lines(lines_spec(text@), lines_spec(text@).len()),
{
    let chars = chars_of(text);
    let listing = lines(chars.as_slice());
    let ghost all = lines_spec(text@);
    let n: usize = listing.len();
    let mut r: Vec<RecordLine> = Vec::new();
    assert(record_lines_view(r@) =~= Seq::empty());
    for i in 0..n
        invariant
            n == listing@.len(),
            n == all.len(),
            forall|j: int| 0 <= j < n ==> (#[trigger] listing@[j])@ == all[j],
            record_lines_view(r@) == filled_lines(all, i as nat),
    {
        let line = listing[i];
        let ghost before = record_lines_view(r@);
        if trim(line).len() > 0 {
            r.push(RecordLine { number: i + 1, text: string_of(line) });
            assert(record_lines_view(r@) =~= before.push((i + 1, line@)));
        }
    }
    r
}

/// What to say about a line that is no recorded frame.
pub fn bad_line(path: &str, number: usize, why: &str) -> (r: DetectError)
    ensures
        r@ == ErrorView::Config(
            path@ + ":"@ + decimal(number as nat) + ": not valid Signals JSON: "@ + why@,
        ),
{
    DetectError::Config(
        owned(path).concat(":").concat(decimal_of(number as u64).as_str()).concat(
            ": not valid Signals JSON: ",
        ).concat(why),
    )
}

/// What a recording adds up to.
#[derive(Debug, Clone, Copy, PartialEq, Eq)]
pub struct Summary {
    pub count: u64,
    pub faces: u64,
    pub objects: u64,
    pub frames_with_face: u64,
    pub first_t: Option<u64>,
    pub last_t: u64,
    pub coverage: CoverageTally,
}

/// How many faces a recording holds.
pub open spec fn faces_in(signals: Seq<Signals>) -> int
    decreases signals.len(),
{
    if signals.len() == 0 {
        0
    } else {
        faces_in(signals.drop_last()) + signals.last().faces@.len()
    }
}

/// How many objects a recording holds.
pub open spec fn objects_in(signals: Seq<Signals>) -> int
    decreases signals.len(),
{
    if signals.len() == 0 {
        0
    } else {
        objects_in(signals.drop_last()) + signals.last().objects@.len()
    }
}

/// How many frames of a recording have a face in them.
pub open spec fn faced_frames(signals: Seq<Signals>) -> int
    decreases signals.len(),
{
    if signals.len() == 0 {
        0
    } else {
        faced_frames(signals.drop_last()) + (if signals.last().faces@.len() > 0 { 1int } else { 0int })
    }
}

/// What one slot did on a frame.
pub open spec fn slot_of(c: SignalCoverage, slot: SignalSource) -> SlotState {
    match slot {
        SignalSource::Face => c.face,
        SignalSource::Pose => c.pose,
        SignalSource::Gaze => c.gaze,
        SignalSource::Objects => c.objects,
        SignalSource::Identity => c.identity,
    }
}

/// How often one slot was in each state.
pub open spec fn counts_of(t: CoverageTally, slot: SignalSource) -> StateCounts {
    match slot {
        SignalSource::Face => t.face,
        SignalSource::Pose => t.pose,
        SignalSource::Gaze => t.gaze,
        SignalSource::Objects => t.objects,
        SignalSource::Identity => t.identity,
    }
}

/// How many frames of a recording found a slot in a state.
pub open spec fn slot_frames(signals: Seq<Signals>, slot: SignalSource, state: SlotState) -> int
    decreases signals.len(),
{
    if signals.len() == 0 {
        0
    } else {
        slot_frames(signals.drop_last(), slot, state) + (if slot_of(signals.last().produced_by, slot) == state {
            1int
        } else {
            0int
        })
    }
}

/// How many frames of a recording give a reason for declining gaze.
pub open spec fn gate_frames(signals: Seq<Signals>, reason: GateReason) -> int
    decreases signals.len(),
{
    if signals.len() == 0 {
        0
    } else {
        gate_frames(signals.drop_last(), reason) + (if signals.last().produced_by.gaze_gate == Some(reason) {
            1int
        } else {
            0int
        })
    }
}

/// Whether a tally is that of a recording.
pub open spec fn tallied(t: CoverageTally, signals: Seq<Signals>) -> bool {
    &&& t.inv()
    &&& t.frames == signals.len()
    &&& forall|slot: SignalSource, s: SlotState|
        (#[trigger] counts_of(t, slot).of(s)) == slot_frames(signals, slot, s)
    &&& forall|g: GateReason| (#[trigger] t.gates.of(g)) == gate_frames(signals, g)
}

proof fn lemma_counts_grow(signals: Seq<Signals>, k: int)
    requires
        0 <= k <= signals.len(),
    ensures
        0 <= faces_in(signals.take(k)) <= faces_in(signals),
        0 <= objects_in(signals.take(k)) <= objects_in(signals),
        0 <= faced_frames(signals.take(k)) <= k,
    decreases signals.len(),
{
    if k == signals.len() {
        assert(signals.take(k) =~= signals);
        if k > 0 {
            lemma_counts_grow(signals.drop_last(), k - 1);
            assert(signals.drop_last().take(k - 1) =~= signals.drop_last());
        }
    } else {
        lemma_counts_grow(signals.drop_last(), k);
        assert(signals.drop_last().take(k) =~= signals.take(k));
    }
}

/// Add up a recording.
pub fn summarise(signals: &[Signals]) -> (r: Summary)
    requires
        faces_in(signals@) <= u64::MAX,
        objects_in(signals@) <= u64::MAX,
    ensures
        r.count == signals@.len(),
        r.faces == faces_in(signals@),
        r.objects == objects_in(signals@),
        r.frames_with_face == faced_frames(signals@),
        r.first_t == (if signals@.len() > 0 { Some(signals@[0].t_ms) } else { None }),
        r.last_t == crate::fusion::model::last_time(signals@),
        tallied(r.coverage, signals@),
{
    let n: usize = signals.len();
    let mut r = Summary {
        count: 0,
        faces: 0,
        objects: 0,
        frames_with_face: 0,
        first_t: None,
        last_t: 0,
        coverage: CoverageTally::new(),
    };
    assert(signals@.take(0) =~= Seq::empty());
    for i in 0..n
        invariant
            n == signals@.len(),
            faces_in(signals@) <= u64::MAX,
            objects_in(signals@) <= u64::MAX,
            r.count == i,
            r.faces == faces_in(signals@.take(i as int)),
            r.objects == objects_in(signals@.take(i as int)),
            r.frames_with_face == faced_frames(signals@.take(i as int)),
            r.frames_with_face <= i,
            r.first_t == (if i > 0 { Some(signals@[0].t_ms) } else { None }),
            r.last_t == crate::fusion::model::last_time(signals@.take(i as int)),
            tallied(r.coverage, signals@.take(i as int)),
    {
        let s = &signals[i];
        proof {
            lemma_counts_grow(signals@, i + 1);
            assert(signals@.take(i + 1).drop_last() =~= signals@.take(i as int));
            assert(signals@.take(i + 1).last() == *s);
        }
        r.count = r.count + 1;
        r.faces = r.faces + s.faces.len() as u64;
        r.objects = r.objects + s.objects.len() as u64;
        if r.first_t.is_none() {
            r.first_t = Some(s.t_ms);
        }
        r.last_t = s.t_ms;
        if s.faces.len() > 0 {
            r.frames_with_face = r.frames_with_face + 1;
        }
        let ghost before = r.coverage;
        r.coverage.observe(&s.produced_by);
        proof {
            let done = signals@.take(i + 1);
            assert forall|slot: SignalSource, state: SlotState|
                (#[trigger] counts_of(r.coverage, slot).of(state)) == slot_frames(done, slot, state) by {
                assert(counts_of(before, slot).of(state) == slot_frames(done.drop_last(), slot, state));
                assert(counts_of(r.coverage, slot).of(state) == counts_of(before, slot).of(state) + (if state == slot_of(
                    s.produced_by,
                    slot,
                ) {
                    1int
                } else {
                    0int
                }));
            }
            assert forall|g: GateReason| (#[trigger] r.coverage.gates.of(g)) == gate_frames(done, g) by {
                assert(before.gates.of(g) == gate_frames(done.drop_last(), g));
            }
        }
    }
    assert(signals@.take(n as int) =~= signals@);
    r
}

impl Summary {
    /// How much time a recording covers.
    pub fn span_ms(&self) -> (r: u64)
        ensures
            r == (match self.first_t {
                Some(t) => if self.last_t >= t { (self.last_t - t) as u64 } else { 0 },
                None => self.last_t,
            }),
    {
        let first: u64 = match self.first_t {
            Some(t) => t,
            None => 0,
        };
        self.last_t.saturating_sub(first)
    }
}

/// How many violations start in a list of events.
pub open spec fn starts_in(events: Seq<Event>) -> nat
    decreases events.len(),
{
    if events.len() == 0 {
        0
    } else {
        starts_in(events.drop_last()) + (if events.last() is ViolationStarted { 1nat } else { 0nat })
    }
}

/// Count the violations that start.
pub fn count_started(events: &Vec<Event>) -> (r: usize)
    ensures
        r == starts_in(events@),
{
    let n: usize = events.len();
    let mut r: usize = 0;
    assert(events@.take(0) =~= Seq::empty());
    for i in 0..n
        invariant
            n == events@.len(),
            r <= i,
            r == starts_in(events@.take(i as int)),
    {
        assert(events@.take(i + 1).drop_last() =~= events@.take(i as int));
        if let Event::ViolationStarted(_) = &events[i] {
            r = r + 1;
        }
    }
    assert(events@.take(n as int) =~= events@);
    r
}

/// When a violation ended and how long it lasted. One without an end is taken
/// to have ended as it started.
pub fn ending(v: &Violation) -> (r: (u64, u64))
    ensures
        r.0 == (match v.t_end_ms {
            Some(t) => t,
            None => v.t_start_ms,
        }),
        r.1 == (if r.0 >= v.t_start_ms { (r.0 - v.t_start_ms) as u64 } else { 0 }),
{
    let end: u64 = match v.t_end_ms {
        Some(t) => t,
        None => v.t_start_ms,
    };
    (end, end.saturating_sub(v.t_start_ms))
}

// -- laws -------------------------------------------------------------------

/// The object slot of a recorded frame says how the model did, and only a model
/// that produced something found anything.
pub proof fn law_a_recorded_frame_says_how_objects_did(run: ObjectsRun)
    ensures
        run matches ObjectsRun::Produced(list) ==> run.state() is Produced && run.found() == list@,
        run is Absent ==> run.state() is NotConfigured && run.found().len() == 0,
        run is Failed ==> run.state() is Failed && run.found().len() == 0,
{
}

/// A recording keeps every line that holds something, as it is, in order and
/// with the number it has in the file, counted from one. Blank lines are left
/// out and still counted.
pub proof fn law_lines_keep_their_numbers(listing: Seq<Seq<char>>, n: nat)
    requires
        n <= listing.len(),
    ensures
        forall|i: int|
            0 <= i < filled_lines(listing, n).len() ==> {
                let line = #[trigger] filled_lines(listing, n)[i];
                &&& 1 <= line.0 <= n
                &&& line.1 == listing[line.0 - 1]
                &&& trim_spec(line.1).len() > 0
            },
        forall|k: int|
            0 <= k < n && trim_spec(#[trigger] listing[k]).len() > 0 ==> filled_lines(listing, n).contains(
                (k + 1, listing[k]),
            ),
        forall|i: int, j: int|
            0 <= i < j < filled_lines(listing, n).len() ==> (#[trigger] filled_lines(listing, n)[i]).0 < (
            #[trigger] filled_lines(listing, n)[j]).0,
    decreases n,
{
    if n > 0 {
        let m = (n - 1) as nat;
        law_lines_keep_their_numbers(listing, m);
        let before = filled_lines(listing, m);
        let all = filled_lines(listing, n);
        assert forall|k: int| 0 <= k < n && trim_spec(#[trigger] listing[k]).len() > 0 implies all.contains(
            (k + 1, listing[k]),
        ) by {
            if k < m {
                assert(before.contains((k + 1, listing[k])));
                let i = choose|i: int| 0 <= i < before.len() && before[i] == (k + 1, listing[k]);
                assert(all[i] == before[i]);
            } else {
                assert(all[all.len() - 1] == (k + 1, listing[k]));
            }
        }
    }
}

/// A recording is summed up frame by frame: one more frame adds its faces, its
/// objects, and itself where it has a face, where it left a slot in a state, and
/// where the gaze model declined for a reason.
pub proof fn law_a_frame_is_counted_once(
    signals: Seq<Signals>,
    s: Signals,
    slot: SignalSource,
    state: SlotState,
    reason: GateReason,
)
    ensures
        faces_in(Seq::empty()) == 0 && objects_in(Seq::empty()) == 0 && faced_frames(Seq::empty()) == 0,
        slot_frames(Seq::empty(), slot, state) == 0 && gate_frames(Seq::empty(), reason) == 0,
        faces_in(signals.push(s)) == faces_in(signals) + s.faces@.len(),
        objects_in(signals.push(s)) == objects_in(signals) + s.objects@.len(),
        faced_frames(signals.push(s)) == faced_frames(signals) + (if s.faces@.len() > 0 {
            1int
        } else {
            0int
        }),
        slot_frames(signals.push(s), slot, state) == slot_frames(signals, slot, state) + (if (match slot {
            SignalSource::Face => s.produced_by.face,
            SignalSource::Pose => s.produced_by.pose,
            SignalSource::Gaze => s.produced_by.gaze,
            SignalSource::Objects => s.produced_by.objects,
            SignalSource::Identity => s.produced_by.identity,
        }) == state {
            1int
        } else {
            0int
        }),
        gate_frames(signals.push(s), reason) == gate_frames(signals, reason) + (if s.produced_by.gaze_gate == Some(
            reason,
        ) {
            1int
        } else {
            0int
        }),
{
    assert(signals.push(s).drop_last() =~= signals);
}

/// A tally of a recording has, for every slot, in how many frames it was in each
/// state, and for every reason in how many the gaze model declined for it.
pub proof fn law_a_tally_counts_every_slot(t: CoverageTally, signals: Seq<Signals>, state: SlotState, reason: GateReason)
    requires
        tallied(t, signals),
    ensures
        t.frames == signals.len(),
        t.face.of(state) == slot_frames(signals, SignalSource::Face, state),
        t.pose.of(state) == slot_frames(signals, SignalSource::Pose, state),
        t.gaze.of(state) == slot_frames(signals, SignalSource::Gaze, state),
        t.objects.of(state) == slot_frames(signals, SignalSource::Objects, state),
        t.identity.of(state) == slot_frames(signals, SignalSource::Identity, state),
        t.gates.of(reason) == gate_frames(signals, reason),
{
    assert(counts_of(t, SignalSource::Face).of(state) == slot_frames(signals, SignalSource::Face, state));
    assert(counts_of(t, SignalSource::Pose).of(state) == slot_frames(signals, SignalSource::Pose, state));
    assert(counts_of(t, SignalSource::Gaze).of(state) == slot_frames(signals, SignalSource::Gaze, state));
    assert(counts_of(t, SignalSource::Objects).of(state) == slot_frames(signals, SignalSource::Objects, state));
    assert(counts_of(t, SignalSource::Identity).of(state) == slot_frames(signals, SignalSource::Identity, state));
}

/// Violations are counted by their starts: each start once, and nothing else.
pub proof fn law_starts_are_counted(events: Seq<Event>, e: Event)
    ensures
        starts_in(Seq::empty()) == 0,
        e is ViolationStarted ==> starts_in(events.push(e)) == starts_in(events) + 1,
        !(e is ViolationStarted) ==> starts_in(events.push(e)) == starts_in(events),
{
    assert(events.push(e).drop_last() =~= events);
}

/// Lines are told by their number and their text, in order.
pub proof fn law_lines_are_told_by_number_and_text(lines: Seq<RecordLine>, i: int)
    requires
        0 <= i < lines.len(),
    ensures
        record_lines_view(lines).len() == lines.len(),
        record_lines_view(lines)[i] == (lines[i].number as int, lines[i].text@),
{
}

} // verus!
