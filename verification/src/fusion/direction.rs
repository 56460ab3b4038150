//! What it takes for a gaze to count as off the screen.

use vstd::prelude::*;

use crate::config::{buckets_view, named_in_order, Thresholds};
use crate::number::{Arithmetic, Number};
use crate::types::{EventView, Gaze, SignalSource, Signals, ViolationKind};
use super::evidence::{about, lemma_about_concat, lemma_no_tally};
use super::laws::{
    latched, law_a_session_starts_coherent, law_a_step_reports_every_edge_once, lemma_angles_repeat,
    lemma_evidence_repeats, lemma_rules_kept, lemma_run_accounts, repeatable, tally,
};
use super::ledger::Key;
use super::model::{
    gaze_loss, gaze_of, initial, last_time, lost_verdict, multi_face_verdict, never_seen_verdict, no_face_verdict,
    pose_loss, pose_of, replays_to, reported_why, runs_to, slot_lost, AngleReading, AngleState, BucketReading,
    FusionState, IdentityReading, Progress, Reading, VerdictView,
};
use super::temporal::EmaState;

verus! {

/// Whether two numbers are as far from zero, on opposite sides of it.
pub open spec fn mirrored(a: Number, b: Number) -> bool {
    a.magnitude_spec() == b.magnitude_spec() && a.rank() + b.rank() == 0
}

/// Whether an arithmetic favours no side: smoothing and converting mirrored
/// angles gives mirrored angles.
pub open spec fn even_handed<A: Arithmetic>(math: &A) -> bool {
    &&& forall|alpha: Number, s1: Number, p1: Number, x: Number, s2: Number, p2: Number, y: Number|
        mirrored(s1, s2) && mirrored(p1, p2) && #[trigger] call_ensures(A::blend, (math, alpha, s1, p1), x)
            && #[trigger] call_ensures(A::blend, (math, alpha, s2, p2), y) ==> mirrored(x, y)
    &&& forall|a: Number, x: Number, b: Number, y: Number|
        mirrored(a, b) && #[trigger] call_ensures(A::degrees, (math, a), x) && #[trigger] call_ensures(
            A::degrees,
            (math, b),
            y,
        ) ==> mirrored(x, y)
}

/// Whether two frames differ only in the side that the gaze is turned to.
pub open spec fn mirrored_frames(a: Signals, b: Signals) -> bool {
    &&& a.t_ms == b.t_ms
    &&& a.produced_by == b.produced_by
    &&& a.faces@.len() == b.faces@.len()
    &&& a.head_pose == b.head_pose
    &&& a.objects@ == b.objects@
    &&& a.identity_match == b.identity_match
    &&& match (a.gaze, b.gaze) {
        (Some(g), Some(h)) => mirrored(g.yaw_rad, h.yaw_rad) && g.pitch_rad == h.pitch_rad,
        (None, None) => true,
        _ => false,
    }
}

/// Whether two pairs of angles differ only in the side of the smoothed yaw.
spec fn mirrored_angles(a: AngleState, b: AngleState) -> bool {
    &&& b == AngleState { yaw: b.yaw, ..a }
    &&& b.yaw == EmaState { value: b.yaw.value, ..a.yaw }
    &&& match (a.yaw.value, b.yaw.value) {
        (Some(x), Some(y)) => mirrored(x, y),
        (None, None) => true,
        _ => false,
    }
}

/// Whether two states differ only in the side of the smoothed gaze.
spec fn mirrored_states(a: FusionState, b: FusionState) -> bool {
    b == FusionState { gaze: b.gaze, ..a } && mirrored_angles(a.gaze, b.gaze)
}

/// A step in progress with another gaze in it.
spec fn with_gaze(p: Progress, gaze: AngleState) -> Progress {
    Progress { state: FusionState { gaze, ..p.state }, ..p }
}

proof fn lemma_judged_beside_gaze(p: Progress, gaze: AngleState, v: VerdictView, t_ms: u64)
    ensures
        with_gaze(p, gaze).judged(v, t_ms) == with_gaze(p.judged(v, t_ms), gaze),
{
}

proof fn lemma_never_seen_beside_gaze(p: Progress, gaze: AngleState, t_ms: u64)
    ensures
        with_gaze(p, gaze).after_never_seen(t_ms) == with_gaze(p.after_never_seen(t_ms), gaze),
{
    let condition = p.state.presence is NeverSeen;
    let timer = p.state.never_seen;
    let q = Progress { state: FusionState { never_seen: timer.advanced(condition, t_ms), ..p.state }, ..p };
    lemma_judged_beside_gaze(q, gaze, never_seen_verdict(timer.edge(condition, t_ms), t_ms), t_ms);
}

proof fn lemma_no_face_beside_gaze(p: Progress, gaze: AngleState, t_ms: u64)
    ensures
        with_gaze(p, gaze).after_no_face(t_ms) == with_gaze(p.after_no_face(t_ms), gaze),
{
    let condition = p.state.presence is Absent;
    let timer = p.state.no_face;
    let q = Progress { state: FusionState { no_face: timer.advanced(condition, t_ms), ..p.state }, ..p };
    lemma_judged_beside_gaze(q, gaze, no_face_verdict(timer.edge(condition, t_ms)), t_ms);
}

proof fn lemma_multi_face_beside_gaze(p: Progress, gaze: AngleState, count: nat, t_ms: u64)
    ensures
        with_gaze(p, gaze).after_multi_face(count, t_ms) == with_gaze(p.after_multi_face(count, t_ms), gaze),
{
    let condition = count >= p.state.rules.multi_face_count;
    let timer = p.state.multi_face;
    let q = Progress { state: FusionState { multi_face: timer.advanced(condition, t_ms), ..p.state }, ..p };
    lemma_judged_beside_gaze(q, gaze, multi_face_verdict(timer.edge(condition, t_ms), count), t_ms);
}

proof fn lemma_face_beside_gaze(p: Progress, gaze: AngleState, count: nat, t_ms: u64)
    ensures
        with_gaze(p, gaze).after_face(count, t_ms) == with_gaze(p.after_face(count, t_ms), gaze),
{
    let presence = p.state.presence.seeing(count > 0);
    let p0 = Progress { state: FusionState { presence, ..p.state }, ..p };
    let p1 = p0.after_never_seen(t_ms);
    let p2 = p1.after_no_face(t_ms);
    let q = with_gaze(p, gaze);
    let q0 = Progress { state: FusionState { presence, ..q.state }, ..q };
    assert(q.after_face(count, t_ms) == q0.after_never_seen(t_ms).after_no_face(t_ms).after_multi_face(count, t_ms)
        && p.after_face(count, t_ms) == p2.after_multi_face(count, t_ms)) by {
        reveal(Progress::after_face);
    }
    assert(q0 == with_gaze(p0, gaze));
    lemma_never_seen_beside_gaze(p0, gaze, t_ms);
    lemma_no_face_beside_gaze(p1, gaze, t_ms);
    lemma_multi_face_beside_gaze(p2, gaze, count, t_ms);
}

proof fn lemma_head_beside_gaze(p: Progress, gaze: AngleState, r: Option<AngleReading>, t_ms: u64)
    ensures
        with_gaze(p, gaze).after_head(r, t_ms) == with_gaze(p.after_head(r, t_ms), gaze),
{
    reveal(Progress::after_head);
}

proof fn lemma_buckets_beside_gaze(
    p: Progress,
    gaze: AngleState,
    produced: bool,
    r: Seq<BucketReading>,
    n: nat,
    t_ms: u64,
)
    ensures
        with_gaze(p, gaze).after_buckets(produced, r, n, t_ms) == with_gaze(
            p.after_buckets(produced, r, n, t_ms),
            gaze,
        ),
    decreases n,
{
    if n > 0 {
        lemma_buckets_beside_gaze(p, gaze, produced, r, (n - 1) as nat, t_ms);
        reveal(Progress::after_bucket);
    }
}

proof fn lemma_pose_loss_beside_gaze(p: Progress, gaze: AngleState, s: Signals, t_ms: u64)
    ensures
        with_gaze(p, gaze).after_pose_loss(s, t_ms) == with_gaze(p.after_pose_loss(s, t_ms), gaze),
{
    let lost = slot_lost(s.produced_by.pose);
    let edge = p.state.pose_lost.edge(lost, t_ms);
    let why = reported_why(edge, pose_loss(s), p.state.pose_why);
    let q = Progress {
        state: FusionState { pose_lost: p.state.pose_lost.advanced(lost, t_ms), pose_why: why, ..p.state },
        ..p
    };
    lemma_judged_beside_gaze(q, gaze, lost_verdict("pose"@, SignalSource::Pose, edge, why), t_ms);
}

proof fn lemma_gaze_loss_beside_gaze(p: Progress, gaze: AngleState, s: Signals, t_ms: u64)
    ensures
        with_gaze(p, gaze).after_gaze_loss(s, t_ms) == with_gaze(p.after_gaze_loss(s, t_ms), gaze),
{
    let lost = slot_lost(s.produced_by.gaze);
    let edge = p.state.gaze_lost.edge(lost, t_ms);
    let why = reported_why(edge, gaze_loss(s), p.state.gaze_why);
    let q = Progress {
        state: FusionState { gaze_lost: p.state.gaze_lost.advanced(lost, t_ms), gaze_why: why, ..p.state },
        ..p
    };
    lemma_judged_beside_gaze(q, gaze, lost_verdict("gaze"@, SignalSource::Gaze, edge, why), t_ms);
}

proof fn lemma_identity_beside_gaze(p: Progress, gaze: AngleState, r: Option<IdentityReading>, t_ms: u64)
    ensures
        with_gaze(p, gaze).after_identity(r, t_ms) == with_gaze(p.after_identity(r, t_ms), gaze),
{
    reveal(Progress::after_identity);
}

proof fn lemma_rest_beside_gaze(p: Progress, gaze: AngleState, s: Signals, r: Option<IdentityReading>, t_ms: u64)
    ensures
        with_gaze(p, gaze).after_signal_loss(s, t_ms).after_identity(r, t_ms) == with_gaze(
            p.after_signal_loss(s, t_ms).after_identity(r, t_ms),
            gaze,
        ),
{
    let p1 = p.after_pose_loss(s, t_ms);
    let q = with_gaze(p, gaze);
    assert(q.after_signal_loss(s, t_ms) == q.after_pose_loss(s, t_ms).after_gaze_loss(s, t_ms)
        && p.after_signal_loss(s, t_ms) == p1.after_gaze_loss(s, t_ms)) by {
        reveal(Progress::after_signal_loss);
    }
    lemma_pose_loss_beside_gaze(p, gaze, s, t_ms);
    lemma_gaze_loss_beside_gaze(p1, gaze, s, t_ms);
    lemma_identity_beside_gaze(p.after_signal_loss(s, t_ms), gaze, r, t_ms);
}

/// Whether two readings differ only in the side of the yaw.
spec fn mirrored_readings(a: Option<AngleReading>, b: Option<AngleReading>) -> bool {
    match (a, b) {
        (Some(x), Some(y)) => y == AngleReading { yaw: y.yaw, ..x } && mirrored(x.yaw, y.yaw),
        (None, None) => true,
        _ => false,
    }
}

proof fn lemma_gaze_mirrored(p: Progress, gaze: AngleState, a: Option<AngleReading>, b: Option<AngleReading>, t_ms: u64)
    requires
        gaze == (AngleState { yaw: gaze.yaw, ..p.state.gaze }),
        mirrored_readings(a, b),
    ensures
        with_gaze(p, gaze).after_gaze(b, t_ms) == with_gaze(p.after_gaze(a, t_ms), gaze.fed(b, t_ms)),
{
    reveal(Progress::after_gaze);
    let was = p.state.gaze;
    assert(gaze.edge(b, t_ms) == was.edge(a, t_ms));
    assert(gaze.confidence(b) == was.confidence(a));
    assert(gaze.arguments(b, SignalSource::Gaze, "gaze yaw "@, "gaze pitch "@, " deg after offset"@)
        == was.arguments(a, SignalSource::Gaze, "gaze yaw "@, "gaze pitch "@, " deg after offset"@));
}

proof fn lemma_reading_mirrored<A: Arithmetic>(
    math: &A,
    a: FusionState,
    b: FusionState,
    g: Gaze,
    h: Gaze,
    t_ms: u64,
    x: AngleReading,
    y: AngleReading,
)
    requires
        repeatable(math),
        even_handed(math),
        mirrored_states(a, b),
        mirrored(g.yaw_rad, h.yaw_rad),
        g.pitch_rad == h.pitch_rad,
        a.measures_gaze(math, g, t_ms, x),
        b.measures_gaze(math, h, t_ms, y),
    ensures
        mirrored_readings(Some(x), Some(y)),
{
    let offset = a.rules.pitch_offset_deg;
    let (ya, ra, pa) = choose|yaw: Number, raw: Number, pitch: Number|
        #![trigger call_ensures(A::degrees, (math, g.yaw_rad), yaw), call_ensures(A::difference, (math, raw, offset), pitch)]
        {
            &&& call_ensures(A::degrees, (math, g.yaw_rad), yaw)
            &&& call_ensures(A::degrees, (math, g.pitch_rad), raw)
            &&& call_ensures(A::difference, (math, raw, offset), pitch)
            &&& a.gaze.measures(math, yaw, pitch, t_ms, x)
        };
    let (yb, rb, pb) = choose|yaw: Number, raw: Number, pitch: Number|
        #![trigger call_ensures(A::degrees, (math, h.yaw_rad), yaw), call_ensures(A::difference, (math, raw, offset), pitch)]
        {
            &&& call_ensures(A::degrees, (math, h.yaw_rad), yaw)
            &&& call_ensures(A::degrees, (math, h.pitch_rad), raw)
            &&& call_ensures(A::difference, (math, raw, offset), pitch)
            &&& b.gaze.measures(math, yaw, pitch, t_ms, y)
        };
    assert(mirrored(ya, yb));
    assert(ra == rb);
    assert(pa == pb);
    assert(x.pitch == y.pitch);
    assert(mirrored(x.yaw, y.yaw));
}

/// What mirrored frames measure differs only in the side of the gaze.
proof fn lemma_measures_mirrored<A: Arithmetic>(
    math: &A,
    a: FusionState,
    b: FusionState,
    sa: Signals,
    sb: Signals,
    ra: Reading,
    rb: Reading,
    t_ms: u64,
)
    requires
        repeatable(math),
        even_handed(math),
        mirrored_states(a, b),
        mirrored_frames(sa, sb),
        a.measures(math, sa, t_ms, ra),
        b.measures(math, sb, t_ms, rb),
    ensures
        ra.head == rb.head,
        mirrored_readings(ra.gaze, rb.gaze),
        ra.buckets@ == rb.buckets@,
        ra.identity == rb.identity,
        ra.buckets@.len() == a.buckets.len(),
{
    if let Some(p) = pose_of(sa) {
        lemma_angles_repeat(a.head, math, p.yaw_deg, p.pitch_deg, t_ms, ra.head->0, rb.head->0);
    }
    if let Some(g) = gaze_of(sa) {
        lemma_reading_mirrored(math, a, b, g, gaze_of(sb)->0, t_ms, ra.gaze->0, rb.gaze->0);
    }
    assert forall|i: int| 0 <= i < rb.buckets@.len() implies a.measures_bucket(
        math,
        sa,
        t_ms,
        i,
        #[trigger] rb.buckets@[i],
    ) by {
        assert(b.measures_bucket(math, sb, t_ms, i, rb.buckets@[i]));
    }
    lemma_evidence_repeats(a, math, sa, t_ms, ra.buckets@, rb.buckets@);
}

proof fn lemma_same_loss(p: Progress, sa: Signals, sb: Signals, t_ms: u64)
    requires
        sa.produced_by == sb.produced_by,
    ensures
        p.after_signal_loss(sa, t_ms) == p.after_signal_loss(sb, t_ms),
{
    reveal(Progress::after_signal_loss);
}

proof fn lemma_fed_mirrored(a: AngleState, b: AngleState, x: Option<AngleReading>, y: Option<AngleReading>, t_ms: u64)
    requires
        mirrored_angles(a, b),
        mirrored_readings(x, y),
    ensures
        mirrored_angles(a.fed(x, t_ms), b.fed(y, t_ms)),
{
}

proof fn lemma_step_mirrored(
    a: FusionState,
    b: FusionState,
    sa: Signals,
    sb: Signals,
    ra: Reading,
    rb: Reading,
    t_ms: u64,
)
    requires
        mirrored_states(a, b),
        sa.produced_by == sb.produced_by,
        sa.faces@.len() == sb.faces@.len(),
        ra.head == rb.head,
        mirrored_readings(ra.gaze, rb.gaze),
        ra.buckets@ == rb.buckets@,
        ra.identity == rb.identity,
        ra.buckets@.len() == a.buckets.len(),
    ensures
        mirrored_states(a.stepped(sa, ra, t_ms).state, b.stepped(sb, rb, t_ms).state),
        a.stepped(sa, ra, t_ms).events == b.stepped(sb, rb, t_ms).events,
{
    let count = sa.faces@.len();
    let produced = sa.produced_by.objects is Produced;
    let n = a.buckets.len();
    let p0 = a.beginning();
    let p1 = p0.after_face(count, t_ms);
    let p2 = p1.after_head(ra.head, t_ms);
    let p3 = p2.after_gaze(ra.gaze, t_ms);
    let p4 = p3.after_buckets(produced, ra.buckets@, n, t_ms);
    let gaze = b.gaze.fed(rb.gaze, t_ms);
    let end = a.stepped(sa, ra, t_ms);
    assert(b.stepped(sb, rb, t_ms) == with_gaze(end, gaze)) by {
        assert(b.beginning() == with_gaze(p0, b.gaze));
        lemma_face_beside_gaze(p0, b.gaze, count, t_ms);
        lemma_head_beside_gaze(p1, b.gaze, ra.head, t_ms);
        assert(p2.state.gaze == a.gaze) by {
            p0.lemma_face_frame(count, t_ms);
            p1.lemma_head_frame(ra.head, t_ms);
        }
        lemma_gaze_mirrored(p2, b.gaze, ra.gaze, rb.gaze, t_ms);
        lemma_buckets_beside_gaze(p3, gaze, produced, ra.buckets@, n, t_ms);
        lemma_same_loss(with_gaze(p4, gaze), sa, sb, t_ms);
        lemma_rest_beside_gaze(p4, gaze, sa, ra.identity, t_ms);
    }
    assert(end.state.gaze == a.gaze.fed(ra.gaze, t_ms)) by {
        a.lemma_stepped_parts(sa, ra, t_ms);
    }
    lemma_fed_mirrored(a.gaze, b.gaze, ra.gaze, rb.gaze, t_ms);
}

proof fn lemma_run_mirrored<A: Arithmetic>(
    math: &A,
    start: FusionState,
    a: Seq<Signals>,
    b: Seq<Signals>,
    end_a: FusionState,
    events_a: Seq<EventView>,
    end_b: FusionState,
    events_b: Seq<EventView>,
)
    requires
        repeatable(math),
        even_handed(math),
        start.gaze.yaw.value is None,
        a.len() == b.len(),
        forall|i: int| 0 <= i < a.len() ==> mirrored_frames(#[trigger] a[i], b[i]),
        runs_to(math, start, a, end_a, events_a),
        runs_to(math, start, b, end_b, events_b),
    ensures
        mirrored_states(end_a, end_b),
        events_a == events_b,
    decreases a.len(),
{
    if a.len() > 0 {
        let s = a.last();
        let q = b.last();
        let (ma, ba, la) = choose|mid: FusionState, before: Seq<EventView>, last: Seq<EventView>|
            #![trigger mid.steps_to(math, s, s.t_ms, end_a, last), before.add(last)]
            runs_to(math, start, a.drop_last(), mid, before) && mid.steps_to(math, s, s.t_ms, end_a, last)
                && events_a == before.add(last);
        let (mb, bb, lb) = choose|mid: FusionState, before: Seq<EventView>, last: Seq<EventView>|
            #![trigger mid.steps_to(math, q, q.t_ms, end_b, last), before.add(last)]
            runs_to(math, start, b.drop_last(), mid, before) && mid.steps_to(math, q, q.t_ms, end_b, last)
                && events_b == before.add(last);
        assert forall|i: int| 0 <= i < a.drop_last().len() implies mirrored_frames(
            #[trigger] a.drop_last()[i],
            b.drop_last()[i],
        ) by {
            assert(mirrored_frames(a[i], b[i]));
        }
        lemma_run_mirrored(math, start, a.drop_last(), b.drop_last(), ma, ba, mb, bb);
        assert(mirrored_frames(a[a.len() - 1], b[a.len() - 1]));
        let ra = choose|r: Reading|
            #[trigger] ma.measures(math, s, s.t_ms, r) && ma.stepped(s, r, s.t_ms) == (Progress {
                state: end_a,
                events: la,
            });
        let rb = choose|r: Reading|
            #[trigger] mb.measures(math, q, q.t_ms, r) && mb.stepped(q, r, q.t_ms) == (Progress {
                state: end_b,
                events: lb,
            });
        lemma_measures_mirrored(math, ma, mb, s, q, ra, rb, s.t_ms);
        lemma_step_mirrored(ma, mb, s, q, ra, rb, s.t_ms);
    }
}

/// Which side a gaze is turned to does not matter, only how far: a recording and
/// its mirror image report the same, if the arithmetic repeats its answers and
/// favours no side.
pub proof fn law_the_side_of_a_gaze_does_not_matter<A: Arithmetic>(
    math: &A,
    t: Thresholds,
    a: Seq<Signals>,
    b: Seq<Signals>,
    events_a: Seq<EventView>,
    events_b: Seq<EventView>,
)
    requires
        repeatable(math),
        even_handed(math),
        a.len() == b.len(),
        forall|i: int| 0 <= i < a.len() ==> mirrored_frames(#[trigger] a[i], b[i]),
        replays_to(math, t, a, events_a),
        replays_to(math, t, b, events_b),
    ensures
        events_a == events_b,
{
    let (ea, ba) = choose|end: FusionState, before: Seq<EventView>|
        #[trigger] runs_to(math, initial(t), a, end, before) && events_a == before + end.endings(last_time(a));
    let (eb, bb) = choose|end: FusionState, before: Seq<EventView>|
        #[trigger] runs_to(math, initial(t), b, end, before) && events_b == before + end.endings(last_time(b));
    lemma_run_mirrored(math, initial(t), a, b, ea, ba, eb, bb);
    if a.len() > 0 {
        assert(mirrored_frames(a[a.len() - 1], b[a.len() - 1]));
    }
    assert(ea.endings(last_time(a)) =~= eb.endings(last_time(b)));
}

/// Whether a number is zero, of either sign.
pub open spec fn is_zero(n: Number) -> bool {
    n.unsigned() == 0
}

/// Whether an arithmetic makes nothing out of nothing: zero degrees is zero
/// radians, zeros smooth to zero, and a number taken from itself leaves zero.
pub open spec fn true_to_zero<A: Arithmetic>(math: &A) -> bool {
    &&& forall|a: Number, x: Number| is_zero(a) && #[trigger] call_ensures(A::degrees, (math, a), x) ==> is_zero(x)
    &&& forall|alpha: Number, s: Number, p: Number, x: Number|
        is_zero(s) && is_zero(p) && #[trigger] call_ensures(A::blend, (math, alpha, s, p), x) ==> is_zero(x)
    &&& forall|a: Number, x: Number| #[trigger] call_ensures(A::difference, (math, a, a), x) ==> is_zero(x)
}

/// Whether a frame's gaze points straight ahead, `offset` degrees up.
pub open spec fn straight<A: Arithmetic>(math: &A, offset: Number, s: Signals) -> bool {
    match gaze_of(s) {
        Some(g) => is_zero(g.yaw_rad) && forall|deg: Number|
            #[trigger] call_ensures(A::degrees, (math, g.pitch_rad), deg) ==> deg == offset,
        None => true,
    }
}

/// Whether the gaze has only been straight so far.
pub open spec fn gaze_at_rest(st: FusionState) -> bool {
    &&& st.gaze.yaw.value matches Some(x) ==> is_zero(x)
    &&& st.gaze.pitch.value matches Some(x) ==> is_zero(x)
    &&& !st.gaze.yaw_gate.active && !st.gaze.pitch_gate.active && !st.gaze.hold.fired
}

proof fn lemma_straight_reading<A: Arithmetic>(
    math: &A,
    st: FusionState,
    g: Gaze,
    t_ms: u64,
    r: AngleReading,
)
    requires
        true_to_zero(math),
        gaze_at_rest(st),
        is_zero(g.yaw_rad),
        forall|deg: Number|
            #[trigger] call_ensures(A::degrees, (math, g.pitch_rad), deg) ==> deg == st.rules.pitch_offset_deg,
        st.measures_gaze(math, g, t_ms, r),
    ensures
        is_zero(r.yaw),
        is_zero(r.pitch),
{
    let offset = st.rules.pitch_offset_deg;
    let (yaw, raw, pitch) = choose|yaw: Number, raw: Number, pitch: Number|
        #![trigger call_ensures(A::degrees, (math, g.yaw_rad), yaw), call_ensures(A::difference, (math, raw, offset), pitch)]
        {
            &&& call_ensures(A::degrees, (math, g.yaw_rad), yaw)
            &&& call_ensures(A::degrees, (math, g.pitch_rad), raw)
            &&& call_ensures(A::difference, (math, raw, offset), pitch)
            &&& st.gaze.measures(math, yaw, pitch, t_ms, r)
        };
    assert(is_zero(yaw));
    assert(raw == offset);
    assert(is_zero(pitch));
}

/// The camera's place is taken off the pitch, in degrees, and off nothing else:
/// a gaze that stays at no yaw and at the configured offset is never reported as
/// off the screen.
pub proof fn law_a_gaze_at_the_offset_is_on_the_screen<A: Arithmetic>(
    math: &A,
    t: Thresholds,
    signals: Seq<Signals>,
    end: FusionState,
    events: Seq<EventView>,
)
    requires
        true_to_zero(math),
        named_in_order(buckets_view(t.objects.buckets@)),
        !Number::le(t.gaze.yaw_enter_deg, Number::zero()),
        !Number::le(t.gaze.pitch_enter_deg, Number::zero()),
        forall|i: int| 0 <= i < signals.len() ==> straight(math, t.gaze.pitch_offset_deg, #[trigger] signals[i]),
        runs_to(math, initial(t), signals, end, events),
    ensures
        about(events, ViolationKind::GazeOffScreen) == Seq::<EventView>::empty(),
        gaze_at_rest(end),
        end.gaze.yaw_gate.enter == t.gaze.yaw_enter_deg && end.gaze.pitch_gate.enter == t.gaze.pitch_enter_deg,
    decreases signals.len(),
{
    let start = initial(t);
    let kind = ViolationKind::GazeOffScreen;
    if signals.len() > 0 {
        let s = signals.last();
        let rest = signals.drop_last();
        let (mid, before, last) = choose|mid: FusionState, before: Seq<EventView>, last: Seq<EventView>|
            #![trigger mid.steps_to(math, s, s.t_ms, end, last), before.add(last)]
            runs_to(math, start, rest, mid, before) && mid.steps_to(math, s, s.t_ms, end, last) && events
                == before.add(last);
        assert forall|i: int| 0 <= i < rest.len() implies straight(math, t.gaze.pitch_offset_deg, #[trigger] rest[i]) by {
            assert(straight(math, t.gaze.pitch_offset_deg, signals[i]));
        }
        law_a_gaze_at_the_offset_is_on_the_screen(math, t, rest, mid, before);
        law_a_session_starts_coherent(t);
        lemma_run_accounts(math, start, rest, mid, before);
        lemma_rules_kept(math, start, rest, mid, before);
        let r = choose|r: Reading|
            #[trigger] mid.measures(math, s, s.t_ms, r) && mid.stepped(s, r, s.t_ms) == (Progress {
                state: end,
                events: last,
            });
        assert(straight(math, t.gaze.pitch_offset_deg, signals[signals.len() - 1]));
        if let Some(g) = gaze_of(s) {
            lemma_straight_reading(math, mid, g, s.t_ms, r.gaze->0);
        }
        mid.lemma_stepped_parts(s, r, s.t_ms);
        law_a_step_reports_every_edge_once(mid, s, r, s.t_ms);
        assert forall|k: Key| k.0 == kind implies #[trigger] tally(last, k) == 0 by {
            assert(mid.open.contains_key(k) == latched(mid, k));
            assert(end.open.contains_key(k) == latched(end, k));
        }
        lemma_no_tally(last, kind);
        lemma_about_concat(before, last, kind);
        assert(events == before + last);
    }
}

} // verus!
