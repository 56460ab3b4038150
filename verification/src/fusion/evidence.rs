//! What a frame that the object model did not run on says about objects: nothing.

use vstd::prelude::*;

use crate::config::{buckets_view, named_in_order, Thresholds};
use crate::number::{Arithmetic, Number};
use crate::types::{EventView, SignalSource, Signals, ViolationKind};
use super::laws::{
    agree, bucket_active, coherent, latched, law_a_session_starts_coherent, law_a_step_reports_every_edge_once,
    lemma_evidence_repeats, lemma_rules_kept, lemma_run_accounts, names_distinct, repeatable, tally, weight,
};
use super::ledger::Key;
use super::model::{
    gaze_loss, identity_verdict, initial, lost_verdict, multi_face_verdict, never_seen_verdict, no_face_verdict,
    pose_loss, reported_why, runs_to, slot_lost, AngleReading, BucketReading, BucketState, FusionState,
    IdentityReading, Progress, Reading, VerdictView,
};
use super::temporal::edge_between;

verus! {

/// Whether an event is about a violation of one kind.
pub open spec fn concerns(e: EventView, kind: ViolationKind) -> bool {
    match e {
        EventView::ViolationStarted(v) => v.kind == kind,
        EventView::ViolationEnded(v) => v.kind == kind,
        _ => false,
    }
}

/// The events about violations of one kind, in order.
pub open spec fn about(events: Seq<EventView>, kind: ViolationKind) -> Seq<EventView>
    decreases events.len(),
{
    if events.len() == 0 {
        Seq::empty()
    } else {
        let before = about(events.drop_last(), kind);
        if concerns(events.last(), kind) {
            before.push(events.last())
        } else {
            before
        }
    }
}

proof fn lemma_about_push(events: Seq<EventView>, e: EventView, kind: ViolationKind)
    ensures
        about(events.push(e), kind) == (if concerns(e, kind) {
            about(events, kind).push(e)
        } else {
            about(events, kind)
        }),
{
    assert(events.push(e).drop_last() =~= events);
}

pub(crate) proof fn lemma_about_concat(a: Seq<EventView>, b: Seq<EventView>, kind: ViolationKind)
    ensures
        about(a + b, kind) == about(a, kind) + about(b, kind),
    decreases b.len(),
{
    if b.len() == 0 {
        assert(a + b =~= a);
        assert(about(a, kind) + about(b, kind) =~= about(a, kind));
    } else {
        lemma_about_concat(a, b.drop_last(), kind);
        assert((a + b).drop_last() =~= a + b.drop_last());
        assert(about(a + b, kind) =~= about(a, kind) + about(b, kind));
    }
}

/// Whether two steps in progress agree in everything that concerns objects.
spec fn same_objects(p: Progress, q: Progress) -> bool {
    &&& p.state.rules == q.state.rules
    &&& p.state.buckets == q.state.buckets
    &&& forall|k: Key| k.0 == ViolationKind::ProhibitedObject ==> #[trigger] agree(p.state.open, q.state.open, k)
    &&& about(p.events, ViolationKind::ProhibitedObject) == about(q.events, ViolationKind::ProhibitedObject)
}

proof fn lemma_same_objects_transitive(p: Progress, q: Progress, r: Progress)
    requires
        same_objects(p, q),
        same_objects(q, r),
    ensures
        same_objects(p, r),
{
    assert forall|k: Key| k.0 == ViolationKind::ProhibitedObject implies #[trigger] agree(
        p.state.open,
        r.state.open,
        k,
    ) by {
        assert(agree(p.state.open, q.state.open, k));
        assert(agree(q.state.open, r.state.open, k));
    }
}

/// A verdict of another kind leaves everything about objects as it was.
proof fn lemma_other_verdict(p: Progress, v: VerdictView, t_ms: u64)
    requires
        v.kind != ViolationKind::ProhibitedObject,
    ensures
        same_objects(p, p.judged(v, t_ms)),
{
    let q = p.judged(v, t_ms);
    if q.events.len() > p.events.len() {
        lemma_about_push(p.events, q.events.last(), ViolationKind::ProhibitedObject);
        assert(q.events =~= p.events.push(q.events.last()));
    }
}

proof fn lemma_face_beside_objects(p: Progress, count: nat, t_ms: u64)
    ensures
        same_objects(p, p.after_face(count, t_ms)),
{
    reveal(Progress::after_face);
    let p0 = Progress {
        state: FusionState { presence: p.state.presence.seeing(count > 0), ..p.state },
        ..p
    };
    let c1 = p0.state.presence is NeverSeen;
    let q1 = Progress { state: FusionState { never_seen: p0.state.never_seen.advanced(c1, t_ms), ..p0.state }, ..p0 };
    lemma_other_verdict(q1, never_seen_verdict(p0.state.never_seen.edge(c1, t_ms), t_ms), t_ms);
    let p1 = p0.after_never_seen(t_ms);
    let c2 = p1.state.presence is Absent;
    let q2 = Progress { state: FusionState { no_face: p1.state.no_face.advanced(c2, t_ms), ..p1.state }, ..p1 };
    lemma_other_verdict(q2, no_face_verdict(p1.state.no_face.edge(c2, t_ms)), t_ms);
    let p2 = p1.after_no_face(t_ms);
    let c3 = count >= p2.state.rules.multi_face_count;
    let q3 = Progress { state: FusionState { multi_face: p2.state.multi_face.advanced(c3, t_ms), ..p2.state }, ..p2 };
    lemma_other_verdict(q3, multi_face_verdict(p2.state.multi_face.edge(c3, t_ms), count), t_ms);
    let p3 = p2.after_multi_face(count, t_ms);
    assert(same_objects(p, p1));
    assert(same_objects(p1, p2));
    assert(same_objects(p2, p3));
    lemma_same_objects_transitive(p, p1, p2);
    lemma_same_objects_transitive(p, p2, p3);
}

proof fn lemma_angles_beside_objects(
    p: Progress,
    head: Option<AngleReading>,
    gaze: Option<AngleReading>,
    t_ms: u64,
)
    ensures
        same_objects(p, p.after_head(head, t_ms).after_gaze(gaze, t_ms)),
{
    let p1 = p.after_head(head, t_ms);
    let p2 = p1.after_gaze(gaze, t_ms);
    assert(same_objects(p, p1)) by {
        reveal(Progress::after_head);
        let h = p.state.head;
        lemma_other_verdict(
            Progress { state: FusionState { head: h.fed(head, t_ms), ..p.state }, ..p },
            VerdictView {
                kind: ViolationKind::HeadTurnedAway,
                subject: None,
                edge: h.edge(head, t_ms),
                confidence: h.confidence(head),
                contributions: h.arguments(
                    head,
                    SignalSource::Pose,
                    "head yaw "@,
                    "head pitch "@,
                    " deg"@,
                ),
            },
            t_ms,
        );
    }
    assert(same_objects(p1, p2)) by {
        reveal(Progress::after_gaze);
        let g = p1.state.gaze;
        lemma_other_verdict(
            Progress { state: FusionState { gaze: g.fed(gaze, t_ms), ..p1.state }, ..p1 },
            VerdictView {
                kind: ViolationKind::GazeOffScreen,
                subject: None,
                edge: g.edge(gaze, t_ms),
                confidence: g.confidence(gaze),
                contributions: g.arguments(
                    gaze,
                    SignalSource::Gaze,
                    "gaze yaw "@,
                    "gaze pitch "@,
                    " deg after offset"@,
                ),
            },
            t_ms,
        );
    }
    lemma_same_objects_transitive(p, p1, p2);
}

proof fn lemma_loss_beside_objects(p: Progress, s: Signals, t_ms: u64)
    ensures
        same_objects(p, p.after_signal_loss(s, t_ms)),
{
    reveal(Progress::after_signal_loss);
    let p1 = p.after_pose_loss(s, t_ms);
    let p2 = p1.after_gaze_loss(s, t_ms);
    let pose = slot_lost(s.produced_by.pose);
    let pose_edge = p.state.pose_lost.edge(pose, t_ms);
    let pose_why = reported_why(pose_edge, pose_loss(s), p.state.pose_why);
    lemma_other_verdict(
        Progress {
            state: FusionState { pose_lost: p.state.pose_lost.advanced(pose, t_ms), pose_why, ..p.state },
            ..p
        },
        lost_verdict("pose"@, SignalSource::Pose, pose_edge, pose_why),
        t_ms,
    );
    let gaze = slot_lost(s.produced_by.gaze);
    let gaze_edge = p1.state.gaze_lost.edge(gaze, t_ms);
    let gaze_why = reported_why(gaze_edge, gaze_loss(s), p1.state.gaze_why);
    lemma_other_verdict(
        Progress {
            state: FusionState { gaze_lost: p1.state.gaze_lost.advanced(gaze, t_ms), gaze_why, ..p1.state },
            ..p1
        },
        lost_verdict("gaze"@, SignalSource::Gaze, gaze_edge, gaze_why),
        t_ms,
    );
    assert(same_objects(p, p1));
    assert(same_objects(p1, p2));
    lemma_same_objects_transitive(p, p1, p2);
}

proof fn lemma_identity_beside_objects(p: Progress, r: Option<IdentityReading>, t_ms: u64)
    ensures
        same_objects(p, p.after_identity(r, t_ms)),
{
    reveal(Progress::after_identity);
    if let Some(c) = r {
        let st = p.state;
        let failures = st.failures_after(c.score);
        let now = st.mismatched_after(c.score);
        lemma_other_verdict(
            Progress {
                state: FusionState { identity_failures: failures as u32, identity_active: now, ..st },
                ..p
            },
            identity_verdict(
                c,
                edge_between(st.identity_active, now),
                failures as nat,
            ),
            t_ms,
        );
    }
}

/// What a bucket does depends on nothing but what concerns objects.
proof fn lemma_buckets_alike(p: Progress, q: Progress, produced: bool, r: Seq<BucketReading>, n: nat, t_ms: u64)
    requires
        same_objects(p, q),
        n <= p.state.buckets.len(),
    ensures
        same_objects(p.after_buckets(produced, r, n, t_ms), q.after_buckets(produced, r, n, t_ms)),
    decreases n,
{
    if n > 0 {
        let m = (n - 1) as nat;
        lemma_buckets_alike(p, q, produced, r, m, t_ms);
        p.lemma_buckets_frame(produced, r, m, t_ms);
        lemma_bucket_alike(p.after_buckets(produced, r, m, t_ms), q.after_buckets(produced, r, m, t_ms), produced, r[n - 1], n - 1, t_ms);
    }
}

proof fn lemma_bucket_alike(p: Progress, q: Progress, produced: bool, r: BucketReading, i: int, t_ms: u64)
    requires
        same_objects(p, q),
        0 <= i < p.state.buckets.len(),
    ensures
        same_objects(p.after_bucket(produced, r, i, t_ms), q.after_bucket(produced, r, i, t_ms)),
{
    reveal(Progress::after_bucket);
    let kind = ViolationKind::ProhibitedObject;
    let was = p.state.buckets[i];
    let now = was.weighed(p.state.rules, produced, r, t_ms);
    let key: Key = (kind, Some(was.name));
    let pa = p.after_bucket(produced, r, i, t_ms);
    let qa = q.after_bucket(produced, r, i, t_ms);
    assert(agree(p.state.open, q.state.open, key));
    assert forall|k: Key| k.0 == kind implies #[trigger] agree(pa.state.open, qa.state.open, k) by {
        assert(agree(p.state.open, q.state.open, k));
    }
    if pa.events.len() > p.events.len() {
        let e = pa.events.last();
        assert(pa.events =~= p.events.push(e));
        assert(qa.events =~= q.events.push(e));
        lemma_about_push(p.events, e, kind);
        lemma_about_push(q.events, e, kind);
    }
}

/// Where two sessions agree in what concerns objects, and weigh the same
/// evidence, they go on agreeing in it, whatever else they see.
proof fn lemma_step_alike(a: FusionState, b: FusionState, sa: Signals, ra: Reading, sb: Signals, rb: Reading, t_ms: u64)
    requires
        same_objects(a.beginning(), b.beginning()),
        sa.produced_by.objects is Produced == sb.produced_by.objects is Produced,
        ra.buckets@ == rb.buckets@,
    ensures
        same_objects(a.stepped(sa, ra, t_ms), b.stepped(sb, rb, t_ms)),
{
    let produced = sa.produced_by.objects is Produced;
    let a1 = lemma_before_buckets(a, sa, ra, t_ms);
    let b1 = lemma_before_buckets(b, sb, rb, t_ms);
    lemma_same_objects_symmetric(a.beginning(), a1);
    lemma_same_objects_transitive(a1, a.beginning(), b.beginning());
    lemma_same_objects_transitive(a1, b.beginning(), b1);
    lemma_buckets_alike(a1, b1, produced, ra.buckets@, a.buckets.len(), t_ms);
    let a2 = a1.after_buckets(produced, ra.buckets@, a.buckets.len(), t_ms);
    let b2 = b1.after_buckets(produced, rb.buckets@, b.buckets.len(), t_ms);
    lemma_after_buckets(a2, sa, ra, t_ms);
    lemma_after_buckets(b2, sb, rb, t_ms);
    let a3 = a.stepped(sa, ra, t_ms);
    let b3 = b.stepped(sb, rb, t_ms);
    lemma_same_objects_symmetric(a2, a3);
    lemma_same_objects_transitive(a3, a2, b2);
    lemma_same_objects_transitive(a3, b2, b3);
}

proof fn lemma_same_objects_symmetric(p: Progress, q: Progress)
    requires
        same_objects(p, q),
    ensures
        same_objects(q, p),
{
    assert forall|k: Key| k.0 == ViolationKind::ProhibitedObject implies #[trigger] agree(
        q.state.open,
        p.state.open,
        k,
    ) by {
        assert(agree(p.state.open, q.state.open, k));
    }
}

/// The rules that come before the buckets leave everything about objects as it was.
proof fn lemma_before_buckets(st: FusionState, s: Signals, r: Reading, t_ms: u64) -> (p: Progress)
    ensures
        p == st.beginning().after_face(s.faces@.len(), t_ms).after_head(r.head, t_ms).after_gaze(r.gaze, t_ms),
        same_objects(st.beginning(), p),
{
    let p1 = st.beginning().after_face(s.faces@.len(), t_ms);
    let p2 = p1.after_head(r.head, t_ms).after_gaze(r.gaze, t_ms);
    lemma_face_beside_objects(st.beginning(), s.faces@.len(), t_ms);
    lemma_angles_beside_objects(p1, r.head, r.gaze, t_ms);
    lemma_same_objects_transitive(st.beginning(), p1, p2);
    p2
}

/// So do those that come after them.
proof fn lemma_after_buckets(p: Progress, s: Signals, r: Reading, t_ms: u64)
    ensures
        same_objects(p, p.after_signal_loss(s, t_ms).after_identity(r.identity, t_ms)),
{
    let q = p.after_signal_loss(s, t_ms);
    lemma_loss_beside_objects(p, s, t_ms);
    lemma_identity_beside_objects(q, r.identity, t_ms);
    lemma_same_objects_transitive(p, q, q.after_identity(r.identity, t_ms));
}

/// Whether every bucket counts as present exactly where its evidence says so.
pub open spec fn settled(st: FusionState) -> bool {
    forall|i: int|
        0 <= i < st.buckets.len() ==> (#[trigger] st.buckets[i]).active == st.buckets[i].stays(
            st.rules,
            st.buckets[i].score.score,
        )
}

/// A session starts settled and every step leaves it so, if it takes some
/// evidence to appear and no more of it to stay.
pub proof fn law_buckets_stay_settled(t: Thresholds, st: FusionState, s: Signals, r: Reading, t_ms: u64)
    requires
        Number::le(t.objects.clear_score, t.objects.enter_score),
        !Number::le(t.objects.enter_score, Number::zero()),
        st.rules == initial(t).rules,
        r.buckets@.len() == st.buckets.len(),
    ensures
        settled(initial(t)),
        settled(st) ==> settled(st.stepped(s, r, t_ms).state),
{
    st.lemma_stepped_parts(s, r, t_ms);
    let n = st.stepped(s, r, t_ms).state;
    if settled(st) {
        assert forall|i: int| 0 <= i < n.buckets.len() implies (#[trigger] n.buckets[i]).active == n.buckets[i].stays(
            n.rules,
            n.buckets[i].score.score,
        ) by {
            assert(n.buckets[i] == st.buckets[i].weighed(
                st.rules,
                s.produced_by.objects is Produced,
                r.buckets@[i],
                t_ms,
            ));
        }
    }
}

pub(crate) proof fn lemma_no_tally(events: Seq<EventView>, kind: ViolationKind)
    requires
        forall|k: Key| k.0 == kind ==> #[trigger] tally(events, k) == 0,
    ensures
        about(events, kind) == Seq::<EventView>::empty(),
    decreases events.len(),
{
    if events.len() > 0 {
        let e = events.last();
        assert forall|k: Key| k.0 == kind implies #[trigger] tally(events.drop_last(), k) == 0 by {
            assert(tally(events, k) == 0);
            lemma_tally_not_negative(events.drop_last(), k);
        }
        lemma_no_tally(events.drop_last(), kind);
        if concerns(e, kind) {
            let k: Key = match e {
                EventView::ViolationStarted(v) => (v.kind, v.subject),
                EventView::ViolationEnded(v) => (v.kind, v.subject),
                _ => (kind, None),
            };
            assert(weight(e, k) != 0);
            assert(tally(events, k) == 0);
            lemma_tally_not_negative(events.drop_last(), k);
        }
    }
}

proof fn lemma_tally_not_negative(events: Seq<EventView>, k: Key)
    ensures
        tally(events, k) >= 0,
    decreases events.len(),
{
    if events.len() > 0 {
        lemma_tally_not_negative(events.drop_last(), k);
    }
}

/// A frame that the object model did not run on says nothing about objects: no
/// evidence is added or decays, and no object is reported to appear or to go.
pub proof fn law_an_unmeasured_frame_says_nothing_of_objects<A: Arithmetic>(
    math: &A,
    st: FusionState,
    s: Signals,
    t_ms: u64,
    next: FusionState,
    events: Seq<EventView>,
)
    requires
        coherent(st),
        settled(st),
        !(s.produced_by.objects is Produced),
        st.steps_to(math, s, t_ms, next, events),
    ensures
        next.buckets == st.buckets,
        about(events, ViolationKind::ProhibitedObject) == Seq::<EventView>::empty(),
        forall|k: Key|
            k.0 == ViolationKind::ProhibitedObject ==> #[trigger] next.open.contains_key(k) == st.open.contains_key(k),
{
    let r = choose|r: Reading|
        #[trigger] st.measures(math, s, t_ms, r) && st.stepped(s, r, t_ms) == (Progress { state: next, events });
    st.lemma_stepped_parts(s, r, t_ms);
    assert forall|i: int| 0 <= i < st.buckets.len() implies #[trigger] next.buckets[i] == st.buckets[i] by {
        assert(st.buckets[i].active == st.buckets[i].stays(st.rules, st.buckets[i].score.score));
    }
    assert(next.buckets =~= st.buckets);
    law_a_step_reports_every_edge_once(st, s, r, t_ms);
    assert forall|k: Key| k.0 == ViolationKind::ProhibitedObject implies #[trigger] next.open.contains_key(k)
        == st.open.contains_key(k) by {
        assert(latched(next, k) == latched(st, k));
    }
    assert forall|k: Key| k.0 == ViolationKind::ProhibitedObject implies #[trigger] tally(events, k) == 0 by {
        assert(next.open.contains_key(k) == st.open.contains_key(k));
    }
    lemma_no_tally(events, ViolationKind::ProhibitedObject);
}

/// Under which key a bucket's violation is open.
spec fn bucket_key(b: BucketState) -> Key {
    (ViolationKind::ProhibitedObject, Some(b.name))
}

/// Whether a bucket is open exactly while it is present.
spec fn buckets_open(st: FusionState) -> bool {
    forall|i: int|
        0 <= i < st.buckets.len() ==> st.open.contains_key(bucket_key(#[trigger] st.buckets[i]))
            == st.buckets[i].active
}

proof fn lemma_coherent_buckets_open(st: FusionState)
    requires
        coherent(st),
    ensures
        buckets_open(st),
{
    assert forall|i: int| 0 <= i < st.buckets.len() implies st.open.contains_key(
        bucket_key(#[trigger] st.buckets[i]),
    ) == st.buckets[i].active by {
        let name = st.buckets[i].name;
        assert(st.open.contains_key(bucket_key(st.buckets[i])) == latched(st, bucket_key(st.buckets[i])));
        if bucket_active(st.buckets, name) {
            let j = choose|j: int|
                0 <= j < st.buckets.len() && (#[trigger] st.buckets[j]).name == name && st.buckets[j].active;
            assert(i == j);
        }
    }
}

/// Whether the confidence that is kept of every present bucket is the one its
/// evidence gives.
spec fn confident<A: Arithmetic>(math: &A, st: FusionState) -> bool {
    forall|i: int|
        0 <= i < st.buckets.len() && (#[trigger] st.buckets[i]).active ==> call_ensures(
            A::ramp,
            (math, st.buckets[i].score.score, st.rules.enter_score),
            st.open[bucket_key(st.buckets[i])].confidence,
        )
}

/// After the buckets were weighed, the confidence kept of each one that is
/// present is the one just read.
proof fn lemma_weighed_confidence(p: Progress, produced: bool, r: Seq<BucketReading>, n: nat, t_ms: u64)
    requires
        names_distinct(p.state.buckets),
        buckets_open(p.state),
        n <= p.state.buckets.len(),
    ensures
        ({
            let q = p.after_buckets(produced, r, n, t_ms).state;
            &&& buckets_open(q)
            &&& forall|i: int|
                0 <= i < n && (#[trigger] q.buckets[i]).active ==> q.open[bucket_key(q.buckets[i])].confidence
                    == r[i].confidence
        }),
    decreases n,
{
    if n > 0 {
        let m = (n - 1) as nat;
        lemma_weighed_confidence(p, produced, r, m, t_ms);
        p.lemma_buckets_frame(produced, r, m, t_ms);
        p.lemma_buckets_frame(produced, r, n, t_ms);
        let b = p.after_buckets(produced, r, m, t_ms).state;
        let q = p.after_buckets(produced, r, n, t_ms).state;
        let k = bucket_key(p.state.buckets[n - 1]);
        assert(b.buckets[n - 1] == p.state.buckets[n - 1]);
        assert(b.open.contains_key(bucket_key(b.buckets[n - 1])) == b.buckets[n - 1].active);
        reveal(Progress::after_bucket);
        assert(q.open.contains_key(k) == q.buckets[n - 1].active);
        assert(q.buckets[n - 1].active ==> q.open[k].confidence == r[n - 1].confidence);
        assert forall|i: int| 0 <= i < q.buckets.len() implies q.open.contains_key(
            bucket_key(#[trigger] q.buckets[i]),
        ) == q.buckets[i].active by {
            assert(q.buckets[i].name == p.state.buckets[i].name);
            if i != n - 1 {
                assert(p.state.buckets[i].name != p.state.buckets[n - 1].name);
                assert(q.buckets[i] == b.buckets[i]);
                assert(agree(q.open, b.open, bucket_key(b.buckets[i])));
            }
        }
        assert forall|i: int| 0 <= i < n && (#[trigger] q.buckets[i]).active implies q.open[bucket_key(
            q.buckets[i],
        )].confidence == r[i].confidence by {
            if i != n - 1 {
                assert(p.state.buckets[i].name != p.state.buckets[n - 1].name);
                assert(q.buckets[i] == b.buckets[i]);
                assert(agree(q.open, b.open, bucket_key(b.buckets[i])));
            }
        }
    }
}

proof fn lemma_step_stays_confident<A: Arithmetic>(math: &A, st: FusionState, s: Signals, r: Reading, t_ms: u64)
    requires
        coherent(st),
        st.measures(math, s, t_ms, r),
    ensures
        confident(math, st.stepped(s, r, t_ms).state),
{
    let produced = s.produced_by.objects is Produced;
    let p1 = lemma_before_buckets(st, s, r, t_ms);
    lemma_coherent_buckets_open(st);
    assert(buckets_open(p1.state)) by {
        assert forall|i: int| 0 <= i < p1.state.buckets.len() implies p1.state.open.contains_key(
            bucket_key(#[trigger] p1.state.buckets[i]),
        ) == p1.state.buckets[i].active by {
            assert(agree(st.beginning().state.open, p1.state.open, bucket_key(st.buckets[i])));
            assert(st.open.contains_key(bucket_key(st.buckets[i])) == st.buckets[i].active);
        }
    }
    lemma_weighed_confidence(p1, produced, r.buckets@, st.buckets.len(), t_ms);
    let p2 = p1.after_buckets(produced, r.buckets@, st.buckets.len(), t_ms);
    lemma_after_buckets(p2, s, r, t_ms);
    st.lemma_stepped_parts(s, r, t_ms);
    let n = st.stepped(s, r, t_ms).state;
    assert forall|i: int| 0 <= i < n.buckets.len() && (#[trigger] n.buckets[i]).active implies call_ensures(
        A::ramp,
        (math, n.buckets[i].score.score, n.rules.enter_score),
        n.open[bucket_key(n.buckets[i])].confidence,
    ) by {
        assert(p2.state.buckets[i] == n.buckets[i]);
        let k = bucket_key(n.buckets[i]);
        assert(agree(p2.state.open, n.open, k));
        assert(p2.state.open.contains_key(bucket_key(p2.state.buckets[i])) == p2.state.buckets[i].active);
        assert(st.measures_bucket(math, s, t_ms, i, r.buckets@[i]));
        assert(n.buckets[i] == st.buckets[i].weighed(st.rules, produced, r.buckets@[i], t_ms));
    }
}

/// Weighing settled buckets again without new evidence changes nothing.
proof fn lemma_idle_buckets(p: Progress, r: Seq<BucketReading>, n: nat, t_ms: u64)
    requires
        settled(p.state),
        buckets_open(p.state),
        n <= p.state.buckets.len(),
        forall|i: int|
            0 <= i < p.state.buckets.len() && (#[trigger] p.state.buckets[i]).active ==> p.state.open[bucket_key(
                p.state.buckets[i],
            )].confidence == r[i].confidence,
    ensures
        p.after_buckets(false, r, n, t_ms) == p,
    decreases n,
{
    if n > 0 {
        let m = (n - 1) as nat;
        lemma_idle_buckets(p, r, m, t_ms);
        reveal(Progress::after_bucket);
        let was = p.state.buckets[n - 1];
        assert(was.active == was.stays(p.state.rules, was.score.score));
        assert(p.state.open.contains_key(bucket_key(was)) == was.active);
        let q = p.after_buckets(false, r, n, t_ms);
        assert(q.state.buckets =~= p.state.buckets);
        assert(q.state.open =~= p.state.open);
    }
}

proof fn lemma_unmeasured_step<A: Arithmetic>(math: &A, st: FusionState, s: Signals, r: Reading, t_ms: u64)
    requires
        repeatable(math),
        coherent(st),
        settled(st),
        confident(math, st),
        !(s.produced_by.objects is Produced),
        st.measures(math, s, t_ms, r),
    ensures
        same_objects(st.beginning(), st.stepped(s, r, t_ms)),
{
    let p1 = lemma_before_buckets(st, s, r, t_ms);
    lemma_coherent_buckets_open(st);
    assert(buckets_open(p1.state)) by {
        assert forall|i: int| 0 <= i < p1.state.buckets.len() implies p1.state.open.contains_key(
            bucket_key(#[trigger] p1.state.buckets[i]),
        ) == p1.state.buckets[i].active by {
            assert(agree(st.beginning().state.open, p1.state.open, bucket_key(st.buckets[i])));
            assert(st.open.contains_key(bucket_key(st.buckets[i])) == st.buckets[i].active);
        }
    }
    assert forall|i: int|
        0 <= i < p1.state.buckets.len() && (#[trigger] p1.state.buckets[i]).active implies p1.state.open[bucket_key(
        p1.state.buckets[i],
    )].confidence == r.buckets@[i].confidence by {
        let k = bucket_key(st.buckets[i]);
        assert(p1.state.buckets[i] == st.buckets[i]);
        assert(st.open.contains_key(k) == st.buckets[i].active);
        assert(agree(st.beginning().state.open, p1.state.open, k));
        assert(st.measures_bucket(math, s, t_ms, i, r.buckets@[i]));
        assert(call_ensures(
            A::ramp,
            (math, st.buckets[i].score.score, st.rules.enter_score),
            st.open[k].confidence,
        ));
    }
    lemma_idle_buckets(p1, r.buckets@, st.buckets.len(), t_ms);
    lemma_after_buckets(p1, s, r, t_ms);
    lemma_same_objects_transitive(st.beginning(), p1, st.stepped(s, r, t_ms));
}

/// The frames that the object model ran on.
pub open spec fn object_frames(signals: Seq<Signals>) -> Seq<Signals>
    decreases signals.len(),
{
    if signals.len() == 0 {
        Seq::empty()
    } else {
        let before = object_frames(signals.drop_last());
        if signals.last().produced_by.objects is Produced {
            before.push(signals.last())
        } else {
            before
        }
    }
}

/// What follows a step after `before` was reported.
proof fn lemma_same_objects_appended(
    before_a: Seq<EventView>,
    pa: Progress,
    before_b: Seq<EventView>,
    pb: Progress,
)
    requires
        about(before_a, ViolationKind::ProhibitedObject) == about(before_b, ViolationKind::ProhibitedObject),
        same_objects(pa, pb),
    ensures
        same_objects(
            Progress { state: pa.state, events: before_a + pa.events },
            Progress { state: pb.state, events: before_b + pb.events },
        ),
{
    lemma_about_concat(before_a, pa.events, ViolationKind::ProhibitedObject);
    lemma_about_concat(before_b, pb.events, ViolationKind::ProhibitedObject);
}

proof fn lemma_run_without_idle_frames<A: Arithmetic>(
    math: &A,
    t: Thresholds,
    signals: Seq<Signals>,
    end_a: FusionState,
    events_a: Seq<EventView>,
    end_b: FusionState,
    events_b: Seq<EventView>,
)
    requires
        repeatable(math),
        named_in_order(buckets_view(t.objects.buckets@)),
        Number::le(t.objects.clear_score, t.objects.enter_score),
        !Number::le(t.objects.enter_score, Number::zero()),
        runs_to(math, initial(t), signals, end_a, events_a),
        runs_to(math, initial(t), object_frames(signals), end_b, events_b),
    ensures
        same_objects(Progress { state: end_a, events: events_a }, Progress { state: end_b, events: events_b }),
        settled(end_a),
        confident(math, end_a),
    decreases signals.len(),
{
    let start = initial(t);
    if signals.len() == 0 {
        law_a_session_starts_coherent(t);
        assert(events_a =~= events_b);
    } else {
        let s = signals.last();
        let rest = signals.drop_last();
        let (ma, ba, la) = choose|mid: FusionState, before: Seq<EventView>, last: Seq<EventView>|
            #![trigger mid.steps_to(math, s, s.t_ms, end_a, last), before.add(last)]
            runs_to(math, start, rest, mid, before) && mid.steps_to(math, s, s.t_ms, end_a, last) && events_a
                == before.add(last);
        let ra = choose|r: Reading|
            #[trigger] ma.measures(math, s, s.t_ms, r) && ma.stepped(s, r, s.t_ms) == (Progress {
                state: end_a,
                events: la,
            });
        law_a_session_starts_coherent(t);
        lemma_run_accounts(math, start, rest, ma, ba);
        lemma_rules_kept(math, start, rest, ma, ba);
        assert(events_a == ba + la);
        if s.produced_by.objects is Produced {
            let kept = object_frames(signals);
            assert(kept.drop_last() =~= object_frames(rest));
            assert(kept.last() == s);
            let (mb, bb, lb) = choose|mid: FusionState, before: Seq<EventView>, last: Seq<EventView>|
                #![trigger mid.steps_to(math, s, s.t_ms, end_b, last), before.add(last)]
                runs_to(math, start, kept.drop_last(), mid, before) && mid.steps_to(math, s, s.t_ms, end_b, last)
                    && events_b == before.add(last);
            let rb = choose|r: Reading|
                #[trigger] mb.measures(math, s, s.t_ms, r) && mb.stepped(s, r, s.t_ms) == (Progress {
                    state: end_b,
                    events: lb,
                });
            lemma_run_without_idle_frames(math, t, rest, ma, ba, mb, bb);
            assert(events_b == bb + lb);
            assert(same_objects(ma.beginning(), mb.beginning())) by {
                assert forall|k: Key| k.0 == ViolationKind::ProhibitedObject implies #[trigger] agree(
                    ma.beginning().state.open,
                    mb.beginning().state.open,
                    k,
                ) by {
                    assert(agree(ma.open, mb.open, k));
                }
            }
            assert forall|i: int| 0 <= i < rb.buckets@.len() implies ma.measures_bucket(
                math,
                s,
                s.t_ms,
                i,
                #[trigger] rb.buckets@[i],
            ) by {
                assert(mb.measures_bucket(math, s, s.t_ms, i, rb.buckets@[i]));
            }
            lemma_evidence_repeats(ma, math, s, s.t_ms, ra.buckets@, rb.buckets@);
            lemma_step_alike(ma, mb, s, ra, s, rb, s.t_ms);
            lemma_same_objects_appended(ba, ma.stepped(s, ra, s.t_ms), bb, mb.stepped(s, rb, s.t_ms));
        } else {
            assert(object_frames(signals) == object_frames(rest));
            lemma_run_without_idle_frames(math, t, rest, ma, ba, end_b, events_b);
            lemma_unmeasured_step(math, ma, s, ra, s.t_ms);
            let before = Progress { state: ma, events: ba };
            let b = Progress { state: end_b, events: events_b };
            lemma_same_objects_symmetric(ma.beginning(), ma.stepped(s, ra, s.t_ms));
            lemma_same_objects_appended(ba, ma.stepped(s, ra, s.t_ms), ba, ma.beginning());
            assert(ba + ma.beginning().events =~= ba);
            lemma_same_objects_transitive(Progress { state: end_a, events: events_a }, before, b);
        }
        law_buckets_stay_settled(t, ma, s, ra, s.t_ms);
        lemma_step_stays_confident(math, ma, s, ra, s.t_ms);
    }
}

/// Frames that the object model did not run on can be left out of a recording,
/// or put into it, without changing a single event about objects.
pub proof fn law_frames_without_objects_can_be_left_out<A: Arithmetic>(
    math: &A,
    t: Thresholds,
    signals: Seq<Signals>,
    end_a: FusionState,
    events_a: Seq<EventView>,
    end_b: FusionState,
    events_b: Seq<EventView>,
)
    requires
        repeatable(math),
        named_in_order(buckets_view(t.objects.buckets@)),
        Number::le(t.objects.clear_score, t.objects.enter_score),
        !Number::le(t.objects.enter_score, Number::zero()),
        runs_to(math, initial(t), signals, end_a, events_a),
        runs_to(math, initial(t), object_frames(signals), end_b, events_b),
    ensures
        about(events_a, ViolationKind::ProhibitedObject) == about(events_b, ViolationKind::ProhibitedObject),
        end_a.buckets == end_b.buckets,
{
    lemma_run_without_idle_frames(math, t, signals, end_a, events_a, end_b, events_b);
}

} // verus!
