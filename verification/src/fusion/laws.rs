//! What holds of fusion as a whole.

use vstd::prelude::*;

use crate::config::{buckets_view, named_in_order, Thresholds};
use crate::number::{Arithmetic, Number};
use crate::text::lemma_text_lt_irreflexive;
use crate::types::{EventView, Signals, ViolationKind};
use super::ledger::{
    ascending, in_order, key_lt, kind_rank, kinds_of, lemma_finite_lists, lemma_key_lt_irreflexive, Key, OpenView,
};
use super::model::{
    finished, gaze_loss, gaze_of, initial, last_time, lost_subject, lost_verdict, pose_loss, pose_of,
    replays_to, reported_why, runs_to, slot_lost, started, AngleReading, AngleState, BucketReading, BucketState, FusionState, IdentityReading, Progress, Reading,
    VerdictView,
};
use super::temporal::{edge_between, elapsed, HoldState, ScoreState};

verus! {

// -- what each event says about one key -------------------------------------

/// What an event does to the number of open violations under `k`.
pub open spec fn weight(e: EventView, k: Key) -> int {
    match e {
        EventView::ViolationStarted(v) => if (v.kind, v.subject) == k { 1 } else { 0 },
        EventView::ViolationEnded(v) => if (v.kind, v.subject) == k { -1 } else { 0 },
        _ => 0,
    }
}

/// Starts minus ends under `k`.
pub open spec fn balance(events: Seq<EventView>, k: Key) -> int
    decreases events.len(),
{
    if events.len() == 0 {
        0
    } else {
        balance(events.drop_last(), k) + weight(events.last(), k)
    }
}

/// How many violations are open under `k`.
pub open spec fn count_open(open: Map<Key, OpenView>, k: Key) -> int {
    if open.contains_key(k) {
        1
    } else {
        0
    }
}

/// Whether every violation in `events` is started before it is ended and ended
/// before it is started again, when `open` was open at the beginning.
pub open spec fn bracketed(open: Map<Key, OpenView>, events: Seq<EventView>) -> bool {
    forall|n: int, k: Key|
        0 <= n <= events.len() ==> 0 <= count_open(open, k) + #[trigger] balance(events.take(n), k) <= 1
}

/// Whether `events` lead from `before` being open to `after` being open.
pub open spec fn accounts(
    before: Map<Key, OpenView>,
    events: Seq<EventView>,
    after: Map<Key, OpenView>,
) -> bool {
    &&& bracketed(before, events)
    &&& forall|k: Key| count_open(before, k) + #[trigger] balance(events, k) == count_open(after, k)
}

/// How many events are about `k`.
pub open spec fn tally(events: Seq<EventView>, k: Key) -> int
    decreases events.len(),
{
    if events.len() == 0 {
        0
    } else {
        tally(events.drop_last(), k) + (if weight(events.last(), k) == 0 { 0int } else { 1int })
    }
}

/// Whether `events` hold one event for each key that opened or closed, and none
/// for any other.
pub open spec fn once_per_edge(
    before: Map<Key, OpenView>,
    events: Seq<EventView>,
    after: Map<Key, OpenView>,
) -> bool {
    forall|k: Key|
        #[trigger] tally(events, k) == (if before.contains_key(k) == after.contains_key(k) { 0int } else { 1int })
}

proof fn lemma_balance_concat(a: Seq<EventView>, b: Seq<EventView>, k: Key)
    ensures
        balance(a + b, k) == balance(a, k) + balance(b, k),
    decreases b.len(),
{
    if b.len() == 0 {
        assert(a + b =~= a);
    } else {
        lemma_balance_concat(a, b.drop_last(), k);
        assert((a + b).drop_last() =~= a + b.drop_last());
    }
}

proof fn lemma_accounts_concat(
    a: Map<Key, OpenView>,
    first: Seq<EventView>,
    b: Map<Key, OpenView>,
    second: Seq<EventView>,
    c: Map<Key, OpenView>,
)
    requires
        accounts(a, first, b),
        accounts(b, second, c),
    ensures
        accounts(a, first + second, c),
{
    let all = first + second;
    assert forall|n: int, k: Key| 0 <= n <= all.len() implies 0 <= count_open(a, k) + #[trigger] balance(
        all.take(n),
        k,
    ) <= 1 by {
        if n <= first.len() {
            assert(all.take(n) =~= first.take(n));
        } else {
            let m = n - first.len();
            assert(all.take(n) =~= first + second.take(m));
            lemma_balance_concat(first, second.take(m), k);
            assert(count_open(a, k) + balance(first, k) == count_open(b, k));
            assert(0 <= count_open(b, k) + balance(second.take(m), k) <= 1);
        }
    }
    assert forall|k: Key| count_open(a, k) + #[trigger] balance(all, k) == count_open(c, k) by {
        lemma_balance_concat(first, second, k);
        assert(count_open(a, k) + balance(first, k) == count_open(b, k));
        assert(count_open(b, k) + balance(second, k) == count_open(c, k));
    }
}

// -- which latch stands behind each key ---------------------------------------

/// Whether some bucket called `name` counts as present.
pub open spec fn bucket_active(buckets: Seq<BucketState>, name: Seq<char>) -> bool {
    exists|i: int| 0 <= i < buckets.len() && (#[trigger] buckets[i]).name == name && buckets[i].active
}

/// Whether the rule behind `k` currently holds its condition for true.
pub open spec fn latched(st: FusionState, k: Key) -> bool {
    match (k.0, k.1) {
        (ViolationKind::NeverSeen, None) => st.never_seen.fired,
        (ViolationKind::NoFace, None) => st.no_face.fired,
        (ViolationKind::MultipleFaces, None) => st.multi_face.fired,
        (ViolationKind::HeadTurnedAway, None) => st.head.hold.fired,
        (ViolationKind::GazeOffScreen, None) => st.gaze.hold.fired,
        (ViolationKind::ProhibitedObject, Some(name)) => bucket_active(st.buckets, name),
        (ViolationKind::IdentityMismatch, None) => st.identity_active,
        (ViolationKind::SignalLost, Some(subject)) => {
            ||| st.pose_lost.fired && subject == lost_subject("pose"@, st.pose_why)
            ||| st.gaze_lost.fired && subject == lost_subject("gaze"@, st.gaze_why)
        },
        _ => false,
    }
}

/// Whether no two buckets share a name.
pub open spec fn names_distinct(buckets: Seq<BucketState>) -> bool {
    forall|i: int, j: int|
        0 <= i < j < buckets.len() ==> (#[trigger] buckets[i]).name != (#[trigger] buckets[j]).name
}

/// What every state of a running session has in common.
pub open spec fn coherent(st: FusionState) -> bool {
    &&& forall|k: Key| #[trigger] st.open.contains_key(k) <==> latched(st, k)
    &&& st.open.dom().finite()
    &&& names_distinct(st.buckets)
    &&& st.never_seen.clear_ms == 0
    &&& st.never_seen.fired ==> st.presence is NeverSeen
    &&& st.no_face.fired ==> !(st.presence is NeverSeen)
}

/// Whether two records of what is open say the same under `k`.
pub open spec fn agree(a: Map<Key, OpenView>, b: Map<Key, OpenView>, k: Key) -> bool {
    &&& a.contains_key(k) == b.contains_key(k)
    &&& a.contains_key(k) ==> a[k] == b[k]
}

/// Whether an event at `t_ms` says what it should, when `before` was open at
/// the beginning and `after` is open now. A start describes what has opened; an
/// end describes what was open.
pub open spec fn describes(
    before: Map<Key, OpenView>,
    e: EventView,
    after: Map<Key, OpenView>,
    t_ms: u64,
) -> bool {
    match e {
        EventView::ViolationStarted(v) => {
            let k = (v.kind, v.subject);
            &&& !before.contains_key(k)
            &&& after.contains_key(k)
            &&& after[k].t_start_ms == t_ms
            &&& v == started(k, after[k])
        },
        EventView::ViolationEnded(v) => {
            let k = (v.kind, v.subject);
            &&& before.contains_key(k)
            &&& !after.contains_key(k)
            &&& v == finished(k, before[k], t_ms)
        },
        _ => true,
    }
}

/// Whether what is open both before and after is the same violation: it keeps
/// when it started, how serious it is and what argued for it. Only its
/// confidence moves.
pub open spec fn continues(before: Map<Key, OpenView>, after: Map<Key, OpenView>) -> bool {
    forall|k: Key|
        before.contains_key(k) && #[trigger] after.contains_key(k) ==> after[k] == (OpenView {
            confidence: after[k].confidence,
            ..before[k]
        })
}

/// Open violations and latches agree, and the reported events account for them.
spec fn in_step(first: Map<Key, OpenView>, p: Progress, t_ms: u64) -> bool {
    &&& forall|k: Key| #[trigger] p.state.open.contains_key(k) <==> latched(p.state, k)
    &&& p.state.open.dom().finite()
    &&& accounts(first, p.events, p.state.open)
    &&& once_per_edge(first, p.events, p.state.open)
    &&& continues(first, p.state.open)
    &&& forall|i: int|
        0 <= i < p.events.len() ==> describes(first, #[trigger] p.events[i], p.state.open, t_ms)
}

/// A rule whose latch is the only one that moved, and whose edge says how it
/// moved, keeps the open violations and the latches in step.
proof fn lemma_judged(first: Map<Key, OpenView>, was: Progress, updated: FusionState, v: VerdictView, t_ms: u64)
    requires
        in_step(first, was, t_ms),
        agree(first, was.state.open, v.key()),
        updated.open == was.state.open,
        forall|k: Key| k != v.key() ==> latched(updated, k) == latched(was.state, k),
        v.edge == edge_between(latched(was.state, v.key()), latched(updated, v.key())),
    ensures
        ({
            let p = Progress { state: updated, events: was.events }.judged(v, t_ms);
            &&& p.state == FusionState { open: p.state.open, ..updated }
            &&& in_step(first, p, t_ms)
            &&& forall|k: Key| k != v.key() ==> agree(p.state.open, was.state.open, k)
        }),
{
    let q = Progress { state: updated, events: was.events };
    let p = q.judged(v, t_ms);
    let open = was.state.open;
    assert(open.contains_key(v.key()) <==> latched(was.state, v.key()));
    assert forall|k: Key| #[trigger] p.state.open.contains_key(k) <==> latched(p.state, k) by {
        assert(open.contains_key(k) <==> latched(was.state, k));
        assert(latched(p.state, k) == latched(updated, k));
    }
    assert forall|k: Key| #[trigger] tally(p.events, k) == (if first.contains_key(k) == p.state.open.contains_key(k) {
        0int
    } else {
        1int
    }) by {
        assert(tally(was.events, k) == (if first.contains_key(k) == open.contains_key(k) { 0int } else { 1int }));
        if p.events.len() > was.events.len() {
            assert(p.events.drop_last() =~= was.events);
        } else {
            assert(p.events == was.events);
        }
    }
    if p.events.len() > was.events.len() {
        assert(p.events.drop_last() =~= was.events);
        assert forall|k: Key| count_open(first, k) + #[trigger] balance(p.events, k) == count_open(
            p.state.open,
            k,
        ) by {
            assert(count_open(first, k) + balance(was.events, k) == count_open(open, k));
        }
        assert forall|n: int, k: Key| 0 <= n <= p.events.len() implies 0 <= count_open(first, k)
            + #[trigger] balance(p.events.take(n), k) <= 1 by {
            if n <= was.events.len() {
                assert(p.events.take(n) =~= was.events.take(n));
            } else {
                assert(p.events.take(n) =~= p.events);
                assert(count_open(first, k) + balance(p.events, k) == count_open(p.state.open, k));
            }
        }
    } else {
        assert(p.events == was.events);
        assert forall|k: Key| count_open(p.state.open, k) == count_open(open, k) by {}
        assert forall|k: Key| count_open(first, k) + #[trigger] balance(p.events, k) == count_open(
            p.state.open,
            k,
        ) by {
            assert(count_open(first, k) + balance(was.events, k) == count_open(open, k));
        }
    }
}

/// A step in progress that is coherent and accounts for what it has reported.
spec fn sound(first: Map<Key, OpenView>, p: Progress, t_ms: u64) -> bool {
    coherent(p.state) && in_step(first, p, t_ms)
}

proof fn lemma_never_seen_in_step(first: Map<Key, OpenView>, p: Progress, t_ms: u64)
    requires
        in_step(first, p, t_ms),
        agree(first, p.state.open, (ViolationKind::NeverSeen, None)),
    ensures
        in_step(first, p.after_never_seen(t_ms), t_ms),
        forall|k: Key|
            k.0 != ViolationKind::NeverSeen ==> agree(p.after_never_seen(t_ms).state.open, p.state.open, k),
        ({
            let q = p.after_never_seen(t_ms).state;
            q == FusionState {
                never_seen: p.state.never_seen.advanced(p.state.presence is NeverSeen, t_ms),
                open: q.open,
                ..p.state
            }
        }),
{
    let condition = p.state.presence is NeverSeen;
    let u = FusionState { never_seen: p.state.never_seen.advanced(condition, t_ms), ..p.state };
    let v = super::model::never_seen_verdict(p.state.never_seen.edge(condition, t_ms), t_ms);
    lemma_judged(first, p, u, v, t_ms);
}

proof fn lemma_no_face_in_step(first: Map<Key, OpenView>, p: Progress, t_ms: u64)
    requires
        in_step(first, p, t_ms),
        agree(first, p.state.open, (ViolationKind::NoFace, None)),
    ensures
        in_step(first, p.after_no_face(t_ms), t_ms),
        forall|k: Key|
            k.0 != ViolationKind::NoFace ==> agree(p.after_no_face(t_ms).state.open, p.state.open, k),
        ({
            let q = p.after_no_face(t_ms).state;
            q == FusionState {
                no_face: p.state.no_face.advanced(p.state.presence is Absent, t_ms),
                open: q.open,
                ..p.state
            }
        }),
{
    let condition = p.state.presence is Absent;
    let u = FusionState { no_face: p.state.no_face.advanced(condition, t_ms), ..p.state };
    let v = super::model::no_face_verdict(p.state.no_face.edge(condition, t_ms));
    lemma_judged(first, p, u, v, t_ms);
}

proof fn lemma_multi_face_in_step(first: Map<Key, OpenView>, p: Progress, count: nat, t_ms: u64)
    requires
        in_step(first, p, t_ms),
        agree(first, p.state.open, (ViolationKind::MultipleFaces, None)),
    ensures
        in_step(first, p.after_multi_face(count, t_ms), t_ms),
        forall|k: Key|
            k.0 != ViolationKind::MultipleFaces ==> agree(p.after_multi_face(count, t_ms).state.open, p.state.open, k),
        ({
            let q = p.after_multi_face(count, t_ms).state;
            q == FusionState {
                multi_face: p.state.multi_face.advanced(count >= p.state.rules.multi_face_count, t_ms),
                open: q.open,
                ..p.state
            }
        }),
{
    let condition = count >= p.state.rules.multi_face_count;
    let u = FusionState { multi_face: p.state.multi_face.advanced(condition, t_ms), ..p.state };
    let v = super::model::multi_face_verdict(p.state.multi_face.edge(condition, t_ms), count);
    lemma_judged(first, p, u, v, t_ms);
}

proof fn lemma_face_sound(first: Map<Key, OpenView>, p: Progress, count: nat, t_ms: u64)
    requires
        sound(first, p, t_ms),
        agree(first, p.state.open, (ViolationKind::NeverSeen, None)),
        agree(first, p.state.open, (ViolationKind::NoFace, None)),
        agree(first, p.state.open, (ViolationKind::MultipleFaces, None)),
    ensures
        sound(first, p.after_face(count, t_ms), t_ms),
        forall|k: Key|
            k.0 != ViolationKind::NeverSeen && k.0 != ViolationKind::NoFace && k.0 != ViolationKind::MultipleFaces
                ==> agree(p.after_face(count, t_ms).state.open, p.state.open, k),
{
    reveal(Progress::after_face);
    let presence = p.state.presence.seeing(count > 0);
    let p0 = Progress { state: FusionState { presence, ..p.state }, ..p };
    assert forall|k: Key| #[trigger] p0.state.open.contains_key(k) <==> latched(p0.state, k) by {
        assert(p.state.open.contains_key(k) <==> latched(p.state, k));
    }
    lemma_never_seen_in_step(first, p0, t_ms);
    let p1 = p0.after_never_seen(t_ms);
    lemma_no_face_in_step(first, p1, t_ms);
    let p2 = p1.after_no_face(t_ms);
    lemma_multi_face_in_step(first, p2, count, t_ms);
}

proof fn lemma_head_sound(first: Map<Key, OpenView>, p: Progress, r: Option<AngleReading>, t_ms: u64)
    requires
        sound(first, p, t_ms),
        agree(first, p.state.open, (ViolationKind::HeadTurnedAway, None)),
    ensures
        sound(first, p.after_head(r, t_ms), t_ms),
        forall|k: Key|
            k.0 != ViolationKind::HeadTurnedAway ==> agree(p.after_head(r, t_ms).state.open, p.state.open, k),
{
    reveal(Progress::after_head);
    let u = FusionState { head: p.state.head.fed(r, t_ms), ..p.state };
    let v = VerdictView {
        kind: ViolationKind::HeadTurnedAway,
        subject: None,
        edge: p.state.head.edge(r, t_ms),
        confidence: p.state.head.confidence(r),
        contributions: p.state.head.arguments(
            r,
            crate::types::SignalSource::Pose,
            "head yaw "@,
            "head pitch "@,
            " deg"@,
        ),
    };
    lemma_judged(first, p, u, v, t_ms);
}

proof fn lemma_gaze_sound(first: Map<Key, OpenView>, p: Progress, r: Option<AngleReading>, t_ms: u64)
    requires
        sound(first, p, t_ms),
        agree(first, p.state.open, (ViolationKind::GazeOffScreen, None)),
    ensures
        sound(first, p.after_gaze(r, t_ms), t_ms),
        forall|k: Key|
            k.0 != ViolationKind::GazeOffScreen ==> agree(p.after_gaze(r, t_ms).state.open, p.state.open, k),
{
    reveal(Progress::after_gaze);
    let u = FusionState { gaze: p.state.gaze.fed(r, t_ms), ..p.state };
    let v = VerdictView {
        kind: ViolationKind::GazeOffScreen,
        subject: None,
        edge: p.state.gaze.edge(r, t_ms),
        confidence: p.state.gaze.confidence(r),
        contributions: p.state.gaze.arguments(
            r,
            crate::types::SignalSource::Gaze,
            "gaze yaw "@,
            "gaze pitch "@,
            " deg after offset"@,
        ),
    };
    lemma_judged(first, p, u, v, t_ms);
}

proof fn lemma_bucket_sound(
    first: Map<Key, OpenView>,
    p: Progress,
    produced: bool,
    r: BucketReading,
    i: int,
    t_ms: u64,
)
    requires
        sound(first, p, t_ms),
        0 <= i < p.state.buckets.len(),
        agree(first, p.state.open, (ViolationKind::ProhibitedObject, Some(p.state.buckets[i].name))),
    ensures
        sound(first, p.after_bucket(produced, r, i, t_ms), t_ms),
        forall|k: Key|
            k != (ViolationKind::ProhibitedObject, Some(p.state.buckets[i].name)) ==> agree(
                p.after_bucket(produced, r, i, t_ms).state.open,
                p.state.open,
                k,
            ),
{
    reveal(Progress::after_bucket);
    let was = p.state.buckets[i];
    let now = was.weighed(p.state.rules, produced, r, t_ms);
    let buckets = p.state.buckets.update(i, now);
    let u = FusionState { buckets, ..p.state };
    let v = super::model::object_verdict(was, now, r);
    assert forall|name: Seq<char>| name != was.name implies bucket_active(buckets, name) == bucket_active(
        p.state.buckets,
        name,
    ) by {
        if bucket_active(buckets, name) {
            let j = choose|j: int| 0 <= j < buckets.len() && (#[trigger] buckets[j]).name == name && buckets[j].active;
            assert(p.state.buckets[j].name == name);
        }
        if bucket_active(p.state.buckets, name) {
            let j = choose|j: int|
                0 <= j < buckets.len() && (#[trigger] p.state.buckets[j]).name == name && p.state.buckets[j].active;
            assert(buckets[j].name == name);
        }
    }
    assert(bucket_active(buckets, was.name) == now.active) by {
        assert(buckets[i].name == was.name);
        if bucket_active(buckets, was.name) {
            let j = choose|j: int|
                0 <= j < buckets.len() && (#[trigger] buckets[j]).name == was.name && buckets[j].active;
            assert(p.state.buckets[j].name == p.state.buckets[i].name);
        }
    }
    assert(bucket_active(p.state.buckets, was.name) == was.active) by {
        if bucket_active(p.state.buckets, was.name) {
            let j = choose|j: int|
                0 <= j < buckets.len() && (#[trigger] p.state.buckets[j]).name == was.name
                    && p.state.buckets[j].active;
            assert(p.state.buckets[j].name == p.state.buckets[i].name);
        }
    }
    assert(names_distinct(buckets)) by {
        assert forall|a: int, b: int| 0 <= a < b < buckets.len() implies (#[trigger] buckets[a]).name != (
        #[trigger] buckets[b]).name by {
            assert(p.state.buckets[a].name != p.state.buckets[b].name);
        }
    }
    lemma_judged(first, p, u, v, t_ms);
}

proof fn lemma_buckets_sound(
    first: Map<Key, OpenView>,
    p: Progress,
    produced: bool,
    r: Seq<BucketReading>,
    n: nat,
    t_ms: u64,
)
    requires
        sound(first, p, t_ms),
        n <= p.state.buckets.len(),
        forall|i: int|
            0 <= i < p.state.buckets.len() ==> agree(
                first,
                p.state.open,
                (ViolationKind::ProhibitedObject, Some((#[trigger] p.state.buckets[i]).name)),
            ),
    ensures
        sound(first, p.after_buckets(produced, r, n, t_ms), t_ms),
        forall|k: Key|
            k.0 != ViolationKind::ProhibitedObject ==> agree(
                p.after_buckets(produced, r, n, t_ms).state.open,
                p.state.open,
                k,
            ),
        forall|i: int|
            n <= i < p.state.buckets.len() ==> agree(
                p.after_buckets(produced, r, n, t_ms).state.open,
                p.state.open,
                (ViolationKind::ProhibitedObject, Some((#[trigger] p.state.buckets[i]).name)),
            ),
    decreases n,
{
    if n > 0 {
        let q = p.after_buckets(produced, r, (n - 1) as nat, t_ms);
        lemma_buckets_sound(first, p, produced, r, (n - 1) as nat, t_ms);
        p.lemma_buckets_frame(produced, r, (n - 1) as nat, t_ms);
        assert(q.state.buckets[n - 1] == p.state.buckets[n - 1]);
        assert(agree(
            q.state.open,
            p.state.open,
            (ViolationKind::ProhibitedObject, Some(p.state.buckets[n - 1].name)),
        ));
        lemma_bucket_sound(first, q, produced, r[n - 1], n - 1, t_ms);
        let next = p.after_buckets(produced, r, n, t_ms).state.open;
        assert forall|k: Key| k.0 != ViolationKind::ProhibitedObject implies agree(next, p.state.open, k) by {
            assert(agree(next, q.state.open, k));
            assert(agree(q.state.open, p.state.open, k));
        }
        assert forall|i: int| n <= i < p.state.buckets.len() implies agree(
            next,
            p.state.open,
            (ViolationKind::ProhibitedObject, Some((#[trigger] p.state.buckets[i]).name)),
        ) by {
            let k: Key = (ViolationKind::ProhibitedObject, Some(p.state.buckets[i].name));
            assert(p.state.buckets[n - 1].name != p.state.buckets[i].name);
            assert(agree(next, q.state.open, k));
            assert(agree(q.state.open, p.state.open, k));
        }
    }
}

/// No two slots are reported as the same.
pub(crate) proof fn lemma_slots_apart(a: Seq<char>, b: Seq<char>)
    ensures
        lost_subject("pose"@, a) != lost_subject("gaze"@, b),
{
    reveal_strlit("pose");
    reveal_strlit("gaze");
    assert(lost_subject("pose"@, a)[0] == 'p');
    assert(lost_subject("gaze"@, b)[0] == 'g');
}

proof fn lemma_signal_loss_sound(first: Map<Key, OpenView>, p: Progress, s: Signals, t_ms: u64)
    requires
        sound(first, p, t_ms),
        forall|k: Key| k.0 == ViolationKind::SignalLost ==> agree(first, p.state.open, k),
    ensures
        sound(first, p.after_signal_loss(s, t_ms), t_ms),
        forall|k: Key|
            k.0 != ViolationKind::SignalLost ==> agree(p.after_signal_loss(s, t_ms).state.open, p.state.open, k),
{
    reveal(Progress::after_signal_loss);
    let pose = slot_lost(s.produced_by.pose);
    let pose_edge = p.state.pose_lost.edge(pose, t_ms);
    let pose_why = reported_why(pose_edge, pose_loss(s), p.state.pose_why);
    let gaze = slot_lost(s.produced_by.gaze);
    let gaze_edge = p.state.gaze_lost.edge(gaze, t_ms);
    let gaze_why = reported_why(gaze_edge, gaze_loss(s), p.state.gaze_why);
    let u1 = FusionState { pose_lost: p.state.pose_lost.advanced(pose, t_ms), pose_why, ..p.state };
    let p1 = p.after_pose_loss(s, t_ms);
    let v1 = lost_verdict("pose"@, crate::types::SignalSource::Pose, pose_edge, pose_why);
    let v2 = lost_verdict("gaze"@, crate::types::SignalSource::Gaze, gaze_edge, gaze_why);
    lemma_slots_apart(pose_why, p.state.gaze_why);
    lemma_slots_apart(pose_why, gaze_why);
    lemma_judged(first, p, u1, v1, t_ms);
    let u2 = FusionState { gaze_lost: p1.state.gaze_lost.advanced(gaze, t_ms), gaze_why, ..p1.state };
    assert(agree(first, p.state.open, v2.key()));
    assert(agree(p1.state.open, p.state.open, v2.key()));
    lemma_judged(first, p1, u2, v2, t_ms);
}

proof fn lemma_identity_sound(first: Map<Key, OpenView>, p: Progress, r: Option<IdentityReading>, t_ms: u64)
    requires
        sound(first, p, t_ms),
        agree(first, p.state.open, (ViolationKind::IdentityMismatch, None)),
    ensures
        sound(first, p.after_identity(r, t_ms), t_ms),
{
    reveal(Progress::after_identity);
    if let Some(r) = r {
        let failures = p.state.failures_after(r.score);
        let now = p.state.mismatched_after(r.score);
        let u = FusionState { identity_failures: failures as u32, identity_active: now, ..p.state };
        lemma_judged(
            first,
            p,
            u,
            super::model::identity_verdict(r, edge_between(p.state.identity_active, now), failures as nat),
            t_ms,
        );
    }
}

/// A step keeps the open violations and the latches behind them in step: a
/// violation is open exactly while its rule holds. It reports a start exactly
/// where one opens and an end exactly where one closes, once on each edge.
pub proof fn law_a_step_reports_every_edge_once(st: FusionState, s: Signals, r: Reading, t_ms: u64)
    requires
        coherent(st),
        r.buckets@.len() == st.buckets.len(),
    ensures
        coherent(st.stepped(s, r, t_ms).state),
        accounts(st.open, st.stepped(s, r, t_ms).events, st.stepped(s, r, t_ms).state.open),
        once_per_edge(st.open, st.stepped(s, r, t_ms).events, st.stepped(s, r, t_ms).state.open),
        continues(st.open, st.stepped(s, r, t_ms).state.open),
        forall|i: int|
            0 <= i < st.stepped(s, r, t_ms).events.len() ==> describes(
                st.open,
                #[trigger] st.stepped(s, r, t_ms).events[i],
                st.stepped(s, r, t_ms).state.open,
                t_ms,
            ),
{
    let first = st.open;
    let p0 = st.beginning();
    assert forall|k: Key| balance(p0.events, k) == 0 by {}
    assert forall|n: int, k: Key| 0 <= n <= p0.events.len() implies 0 <= count_open(first, k) + #[trigger] balance(
        p0.events.take(n),
        k,
    ) <= 1 by {
        assert(p0.events.take(n) =~= Seq::<EventView>::empty());
    }
    let produced = s.produced_by.objects is Produced;
    let p1 = p0.after_face(s.faces@.len(), t_ms);
    let p2 = p1.after_head(r.head, t_ms);
    let p3 = p2.after_gaze(r.gaze, t_ms);
    let p4 = p3.after_buckets(produced, r.buckets@, st.buckets.len(), t_ms);
    let p5 = p4.after_signal_loss(s, t_ms);
    p0.lemma_face_frame(s.faces@.len(), t_ms);
    p1.lemma_head_frame(r.head, t_ms);
    p2.lemma_gaze_frame(r.gaze, t_ms);
    lemma_face_sound(first, p0, s.faces@.len(), t_ms);
    let head: Key = (ViolationKind::HeadTurnedAway, None);
    assert(agree(p1.state.open, p0.state.open, head));
    lemma_head_sound(first, p1, r.head, t_ms);
    assert forall|k: Key|
        k.0 == ViolationKind::GazeOffScreen || k.0 == ViolationKind::ProhibitedObject || k.0
            == ViolationKind::SignalLost || k.0 == ViolationKind::IdentityMismatch implies agree(
        first,
        p2.state.open,
        k,
    ) by {
        assert(agree(p2.state.open, p1.state.open, k));
        assert(agree(p1.state.open, p0.state.open, k));
    }
    lemma_gaze_sound(first, p2, r.gaze, t_ms);
    assert forall|k: Key|
        k.0 == ViolationKind::ProhibitedObject || k.0 == ViolationKind::SignalLost || k.0
            == ViolationKind::IdentityMismatch implies agree(first, p3.state.open, k) by {
        assert(agree(p3.state.open, p2.state.open, k));
        assert(agree(first, p2.state.open, k));
    }
    lemma_buckets_sound(first, p3, produced, r.buckets@, st.buckets.len(), t_ms);
    assert forall|k: Key|
        k.0 == ViolationKind::SignalLost || k.0 == ViolationKind::IdentityMismatch implies agree(
        first,
        p4.state.open,
        k,
    ) by {
        assert(agree(p4.state.open, p3.state.open, k));
        assert(agree(first, p3.state.open, k));
    }
    lemma_signal_loss_sound(first, p4, s, t_ms);
    let identity: Key = (ViolationKind::IdentityMismatch, None);
    assert(agree(p5.state.open, p4.state.open, identity));
    assert(agree(first, p4.state.open, identity));
    lemma_identity_sound(first, p5, r.identity, t_ms);
}

/// Every session starts out coherent.
pub proof fn law_a_session_starts_coherent(t: Thresholds)
    requires
        named_in_order(buckets_view(t.objects.buckets@)),
    ensures
        coherent(initial(t)),
{
    let st = initial(t);
    let names = buckets_view(t.objects.buckets@);
    assert forall|i: int, j: int| 0 <= i < j < st.buckets.len() implies (#[trigger] st.buckets[i]).name != (
    #[trigger] st.buckets[j]).name by {
        assert(names[i].name == st.buckets[i].name);
        assert(names[j].name == st.buckets[j].name);
        lemma_text_lt_irreflexive(names[i].name);
    }
    assert forall|k: Key| #[trigger] st.open.contains_key(k) <==> latched(st, k) by {}
}

/// Nobody having ever appeared and somebody having left are never both open:
/// one silence is reported once.
pub proof fn law_one_silence_is_reported_once(st: FusionState)
    requires
        coherent(st),
    ensures
        !(st.open.contains_key((ViolationKind::NeverSeen, None)) && st.open.contains_key(
            (ViolationKind::NoFace, None),
        )),
{
    assert(latched(st, (ViolationKind::NeverSeen, None)) == st.never_seen.fired);
    assert(latched(st, (ViolationKind::NoFace, None)) == st.no_face.fired);
}

/// Once a face was seen, nobody-ever-appeared is over for good.
pub proof fn law_once_seen_never_unseen(st: FusionState, s: Signals, r: Reading, t_ms: u64)
    requires
        coherent(st),
        r.buckets@.len() == st.buckets.len(),
        !(st.presence is NeverSeen) || s.faces@.len() > 0,
    ensures
        !(st.stepped(s, r, t_ms).state.presence is NeverSeen),
        !st.stepped(s, r, t_ms).state.open.contains_key((ViolationKind::NeverSeen, None)),
{
    law_a_step_reports_every_edge_once(st, s, r, t_ms);
    st.lemma_stepped_parts(s, r, t_ms);
    assert(latched(st.stepped(s, r, t_ms).state, (ViolationKind::NeverSeen, None)) == st.stepped(
        s,
        r,
        t_ms,
    ).state.never_seen.fired);
}

// -- why a violation opens and closes -------------------------------------------

/// Whether a condition has held for a timer's hold.
pub open spec fn held(timer: HoldState, condition: bool, t_ms: u64) -> bool {
    condition && elapsed(timer.run_start(true, t_ms), t_ms) >= timer.hold_ms
}

/// Whether a condition has been gone for a timer's clear hold.
pub open spec fn gone(timer: HoldState, condition: bool, t_ms: u64) -> bool {
    !condition && elapsed(timer.run_start(false, t_ms), t_ms) >= timer.clear_ms
}

/// Whether an angle is past its threshold. One that was not measured is not.
pub open spec fn past_threshold(angles: AngleState, r: Option<AngleReading>) -> bool {
    match r {
        Some(a) => angles.past(a),
        None => false,
    }
}

/// The evidence for bucket `i` after a frame.
pub open spec fn evidence(st: FusionState, s: Signals, r: Reading, i: int) -> Number {
    if s.produced_by.objects is Produced {
        r.buckets@[i].score
    } else {
        st.buckets[i].score.score
    }
}

/// Whether a frame gives reason to open the violation `k`.
pub open spec fn opens(st: FusionState, s: Signals, r: Reading, t_ms: u64, k: Key) -> bool {
    let presence = st.presence.seeing(s.faces@.len() > 0);
    match (k.0, k.1) {
        (ViolationKind::NeverSeen, None) => held(st.never_seen, presence is NeverSeen, t_ms),
        (ViolationKind::NoFace, None) => held(st.no_face, presence is Absent, t_ms),
        (ViolationKind::MultipleFaces, None) => held(
            st.multi_face,
            s.faces@.len() >= st.rules.multi_face_count,
            t_ms,
        ),
        (ViolationKind::HeadTurnedAway, None) => held(st.head.hold, past_threshold(st.head, r.head), t_ms),
        (ViolationKind::GazeOffScreen, None) => held(st.gaze.hold, past_threshold(st.gaze, r.gaze), t_ms),
        (ViolationKind::ProhibitedObject, Some(name)) => exists|i: int|
            0 <= i < st.buckets.len() && (#[trigger] st.buckets[i]).name == name && Number::le(
                st.rules.enter_score,
                evidence(st, s, r, i),
            ),
        (ViolationKind::IdentityMismatch, None) => r.identity matches Some(c) && st.failures_after(c.score)
            >= st.rules.consecutive_failures,
        (ViolationKind::SignalLost, Some(subject)) => {
            ||| !st.pose_lost.fired && subject == lost_subject("pose"@, pose_loss(s)) && held(
                st.pose_lost,
                slot_lost(s.produced_by.pose),
                t_ms,
            )
            ||| !st.gaze_lost.fired && subject == lost_subject("gaze"@, gaze_loss(s)) && held(
                st.gaze_lost,
                slot_lost(s.produced_by.gaze),
                t_ms,
            )
        },
        _ => false,
    }
}

/// Whether a frame gives reason to close the violation `k`.
pub open spec fn closes(st: FusionState, s: Signals, r: Reading, t_ms: u64, k: Key) -> bool {
    let presence = st.presence.seeing(s.faces@.len() > 0);
    match (k.0, k.1) {
        (ViolationKind::NeverSeen, None) => gone(st.never_seen, presence is NeverSeen, t_ms),
        (ViolationKind::NoFace, None) => gone(st.no_face, presence is Absent, t_ms),
        (ViolationKind::MultipleFaces, None) => gone(
            st.multi_face,
            s.faces@.len() >= st.rules.multi_face_count,
            t_ms,
        ),
        (ViolationKind::HeadTurnedAway, None) => gone(st.head.hold, past_threshold(st.head, r.head), t_ms),
        (ViolationKind::GazeOffScreen, None) => gone(st.gaze.hold, past_threshold(st.gaze, r.gaze), t_ms),
        (ViolationKind::ProhibitedObject, Some(name)) => forall|i: int|
            0 <= i < st.buckets.len() && (#[trigger] st.buckets[i]).name == name ==> !Number::le(
                st.rules.clear_score,
                evidence(st, s, r, i),
            ),
        (ViolationKind::IdentityMismatch, None) => r.identity matches Some(c) && st.failures_after(c.score) == 0,
        (ViolationKind::SignalLost, Some(subject)) => {
            ||| subject == lost_subject("pose"@, st.pose_why) && gone(
                st.pose_lost,
                slot_lost(s.produced_by.pose),
                t_ms,
            )
            ||| subject == lost_subject("gaze"@, st.gaze_why) && gone(
                st.gaze_lost,
                slot_lost(s.produced_by.gaze),
                t_ms,
            )
        },
        _ => false,
    }
}

proof fn lemma_bucket_reasons(st: FusionState, s: Signals, r: Reading, t_ms: u64, name: Seq<char>)
    requires
        names_distinct(st.buckets),
        r.buckets@.len() == st.buckets.len(),
    ensures
        ({
            let k: Key = (ViolationKind::ProhibitedObject, Some(name));
            let now = bucket_active(st.stepped(s, r, t_ms).state.buckets, name);
            &&& !bucket_active(st.buckets, name) ==> (now <==> opens(st, s, r, t_ms, k))
            &&& bucket_active(st.buckets, name) ==> (!now <==> closes(st, s, r, t_ms, k))
        }),
{
    let k: Key = (ViolationKind::ProhibitedObject, Some(name));
    let n = st.stepped(s, r, t_ms).state;
    assert(n.buckets.len() == st.buckets.len() && forall|i: int|
        0 <= i < st.buckets.len() ==> (#[trigger] n.buckets[i]).name == st.buckets[i].name && n.buckets[i].active
            == st.buckets[i].stays(st.rules, evidence(st, s, r, i))) by {
        st.lemma_stepped_parts(s, r, t_ms);
    }
    if bucket_active(st.buckets, name) {
        let j = choose|i: int|
            0 <= i < st.buckets.len() && (#[trigger] st.buckets[i]).name == name && st.buckets[i].active;
        assert(n.buckets[j].name == name);
        assert forall|i: int| 0 <= i < st.buckets.len() && (#[trigger] st.buckets[i]).name == name implies i == j by {}
        assert(bucket_active(n.buckets, name) <==> n.buckets[j].active) by {
            if bucket_active(n.buckets, name) {
                let m = choose|i: int|
                    0 <= i < n.buckets.len() && (#[trigger] n.buckets[i]).name == name && n.buckets[i].active;
                assert(st.buckets[m].name == name);
            }
        }
    } else {
        if bucket_active(n.buckets, name) {
            let m = choose|i: int|
                0 <= i < n.buckets.len() && (#[trigger] n.buckets[i]).name == name && n.buckets[i].active;
            assert(st.buckets[m].name == name && !st.buckets[m].active);
        }
        if opens(st, s, r, t_ms, k) {
            let m = choose|i: int|
                0 <= i < st.buckets.len() && (#[trigger] st.buckets[i]).name == name && Number::le(
                    st.rules.enter_score,
                    evidence(st, s, r, i),
                );
            assert(n.buckets[m].name == name && n.buckets[m].active);
        }
    }
}

proof fn lemma_timer_reasons(timer: HoldState, condition: bool, t_ms: u64)
    ensures
        !timer.fired ==> (timer.advanced(condition, t_ms).fired <==> held(timer, condition, t_ms)),
        timer.fired ==> (!timer.advanced(condition, t_ms).fired <==> gone(timer, condition, t_ms)),
{
}

proof fn lemma_other_reasons(st: FusionState, n: FusionState, s: Signals, r: Reading, t_ms: u64, k: Key)
    requires
        !(k.0 == ViolationKind::ProhibitedObject && k.1 is Some),
        n.never_seen == st.never_seen.advanced(st.presence.seeing(s.faces@.len() > 0) is NeverSeen, t_ms),
        n.no_face == st.no_face.advanced(st.presence.seeing(s.faces@.len() > 0) is Absent, t_ms),
        n.multi_face == st.multi_face.advanced(s.faces@.len() >= st.rules.multi_face_count, t_ms),
        n.head.hold == st.head.hold.advanced(past_threshold(st.head, r.head), t_ms),
        n.gaze.hold == st.gaze.hold.advanced(past_threshold(st.gaze, r.gaze), t_ms),
        n.pose_lost == st.pose_lost.advanced(slot_lost(s.produced_by.pose), t_ms),
        n.pose_why == reported_why(
            st.pose_lost.edge(slot_lost(s.produced_by.pose), t_ms),
            pose_loss(s),
            st.pose_why,
        ),
        n.gaze_lost == st.gaze_lost.advanced(slot_lost(s.produced_by.gaze), t_ms),
        n.gaze_why == reported_why(
            st.gaze_lost.edge(slot_lost(s.produced_by.gaze), t_ms),
            gaze_loss(s),
            st.gaze_why,
        ),
        n.identity_active == (match r.identity {
            Some(c) => st.mismatched_after(c.score),
            None => st.identity_active,
        }),
    ensures
        !latched(st, k) ==> (latched(n, k) <==> opens(st, s, r, t_ms, k)),
        latched(st, k) ==> (!latched(n, k) <==> closes(st, s, r, t_ms, k)),
{
    let presence = st.presence.seeing(s.faces@.len() > 0);
    lemma_timer_reasons(st.never_seen, presence is NeverSeen, t_ms);
    lemma_timer_reasons(st.no_face, presence is Absent, t_ms);
    lemma_timer_reasons(st.multi_face, s.faces@.len() >= st.rules.multi_face_count, t_ms);
    lemma_timer_reasons(st.head.hold, past_threshold(st.head, r.head), t_ms);
    lemma_timer_reasons(st.gaze.hold, past_threshold(st.gaze, r.gaze), t_ms);
    lemma_timer_reasons(st.pose_lost, slot_lost(s.produced_by.pose), t_ms);
    lemma_timer_reasons(st.gaze_lost, slot_lost(s.produced_by.gaze), t_ms);
    lemma_slots_apart(st.pose_why, st.gaze_why);
    lemma_slots_apart(pose_loss(s), st.gaze_why);
    lemma_slots_apart(st.pose_why, gaze_loss(s));
    assert(!latched(st, k) ==> (latched(n, k) <==> opens(st, s, r, t_ms, k)));
}

/// A violation opens on exactly the frame that gives reason to: a condition
/// that has lasted, evidence that has added up, checks that have failed in a
/// row. It closes on exactly the frame that gives reason to, and stays as it is
/// on every other.
pub proof fn law_violations_open_and_close_for_a_reason(
    st: FusionState,
    s: Signals,
    r: Reading,
    t_ms: u64,
    k: Key,
)
    requires
        coherent(st),
        r.buckets@.len() == st.buckets.len(),
    ensures
        !st.open.contains_key(k) ==> (st.stepped(s, r, t_ms).state.open.contains_key(k) <==> opens(
            st,
            s,
            r,
            t_ms,
            k,
        )),
        st.open.contains_key(k) ==> (!st.stepped(s, r, t_ms).state.open.contains_key(k) <==> closes(
            st,
            s,
            r,
            t_ms,
            k,
        )),
{
    let n = st.stepped(s, r, t_ms).state;
    assert(st.open.contains_key(k) <==> latched(st, k));
    assert(n.open.contains_key(k) <==> latched(n, k)) by {
        law_a_step_reports_every_edge_once(st, s, r, t_ms);
    }
    if k.0 == ViolationKind::ProhibitedObject && k.1 is Some {
        lemma_bucket_reasons(st, s, r, t_ms, k.1->0);
    } else {
        st.lemma_stepped_parts(s, r, t_ms);
        lemma_other_reasons(st, n, s, r, t_ms, k);
    }
}

// -- whole recordings -------------------------------------------------------

pub(crate) proof fn lemma_run_accounts<A: Arithmetic>(
    math: &A,
    start: FusionState,
    signals: Seq<Signals>,
    end: FusionState,
    events: Seq<EventView>,
)
    requires
        coherent(start),
        runs_to(math, start, signals, end, events),
    ensures
        coherent(end),
        accounts(start.open, events, end.open),
    decreases signals.len(),
{
    if signals.len() == 0 {
        assert forall|n: int, k: Key| 0 <= n <= events.len() implies 0 <= count_open(start.open, k)
            + #[trigger] balance(events.take(n), k) <= 1 by {
            assert(events.take(n) =~= Seq::<EventView>::empty());
        }
    } else {
        let s = signals.last();
        let (mid, before, last) = choose|mid: FusionState, before: Seq<EventView>, last: Seq<EventView>|
            #![trigger mid.steps_to(math, s, s.t_ms, end, last), before.add(last)]
            runs_to(math, start, signals.drop_last(), mid, before) && mid.steps_to(math, s, s.t_ms, end, last)
                && events == before.add(last);
        lemma_run_accounts(math, start, signals.drop_last(), mid, before);
        let r = choose|r: Reading|
            #[trigger] mid.measures(math, s, s.t_ms, r) && mid.stepped(s, r, s.t_ms) == (Progress {
                state: end,
                events: last,
            });
        law_a_step_reports_every_edge_once(mid, s, r, s.t_ms);
        lemma_accounts_concat(start.open, before, mid.open, last, end.open);
        assert(events == before + last);
    }
}

/// Ending each key of an ascending list once.
proof fn lemma_endings_balance(st: FusionState, keys: Seq<Key>, t_ms: u64, k: Key)
    requires
        ascending(keys),
    ensures
        balance(
            keys.map_values(|q: Key| EventView::ViolationEnded(finished(q, st.open[q], t_ms))),
            k,
        ) == (if keys.contains(k) { -1int } else { 0int }),
    decreases keys.len(),
{
    let f = |q: Key| EventView::ViolationEnded(finished(q, st.open[q], t_ms));
    let events = keys.map_values(f);
    if keys.len() > 0 {
        let before = keys.drop_last();
        lemma_endings_balance(st, before, t_ms, k);
        assert(events.drop_last() =~= before.map_values(f));
        assert(events.last() == f(keys.last()));
        if before.contains(k) {
            let i = choose|i: int| 0 <= i < before.len() && before[i] == k;
            assert(keys[i] == k);
            assert(key_lt(keys[i], keys[keys.len() - 1]));
            lemma_key_lt_irreflexive(k);
        }
        if keys.last() == k {
            assert(keys[keys.len() - 1] == k);
        }
        if keys.contains(k) && keys.last() != k {
            let i = choose|i: int| 0 <= i < keys.len() && keys[i] == k;
            assert(before[i] == k);
        }
    }
}

/// Closing out ends exactly what is open, each once.
pub proof fn law_finishing_ends_what_is_open(st: FusionState, t_ms: u64)
    requires
        st.open.dom().finite(),
    ensures
        accounts(st.open, st.endings(t_ms), st.closed_out().open),
        forall|k: Key| #[trigger] st.open.contains_key(k) ==> st.endings(t_ms).contains(
            EventView::ViolationEnded(finished(k, st.open[k], t_ms)),
        ),
{
    let keys = in_order(st.open.dom());
    lemma_finite_lists(st.open.dom());
    let f = |q: Key| EventView::ViolationEnded(finished(q, st.open[q], t_ms));
    let events = st.endings(t_ms);
    assert(events =~= keys.map_values(f));
    assert forall|n: int, k: Key| 0 <= n <= events.len() implies 0 <= count_open(st.open, k) + #[trigger] balance(
        events.take(n),
        k,
    ) <= 1 by {
        let some = keys.take(n);
        assert(events.take(n) =~= some.map_values(f));
        assert(ascending(some)) by {
            assert forall|i: int, j: int| 0 <= i < j < some.len() implies key_lt(#[trigger] some[i], #[trigger] some[j]) by {
                assert(key_lt(keys[i], keys[j]));
            }
        }
        lemma_endings_balance(st, some, t_ms, k);
        if some.contains(k) {
            let i = choose|i: int| 0 <= i < some.len() && some[i] == k;
            assert(keys[i] == k);
            assert(st.open.dom().contains(k));
        }
    }
    assert forall|k: Key| count_open(st.open, k) + #[trigger] balance(events, k) == count_open(
        st.closed_out().open,
        k,
    ) by {
        lemma_endings_balance(st, keys, t_ms, k);
        assert(st.open.dom().contains(k) <==> keys.contains(k));
    }
    assert forall|k: Key| #[trigger] st.open.contains_key(k) implies events.contains(f(k)) by {
        assert(st.open.dom().contains(k));
        let i = choose|i: int| 0 <= i < keys.len() && keys[i] == k;
        assert(events[i] == f(k));
    }
}

/// A replay reports every violation as a start and then an end: each one that
/// is started is ended before it starts again, nothing is ended that was not
/// started, and nothing is left open when the recording is over.
pub proof fn law_a_replay_closes_what_it_opens<A: Arithmetic>(
    math: &A,
    t: Thresholds,
    signals: Seq<Signals>,
    events: Seq<EventView>,
)
    requires
        named_in_order(buckets_view(t.objects.buckets@)),
        replays_to(math, t, signals, events),
    ensures
        bracketed(Map::empty(), events),
        forall|k: Key| #[trigger] balance(events, k) == 0,
{
    let (end, before) = choose|end: FusionState, before: Seq<EventView>|
        #[trigger] runs_to(math, initial(t), signals, end, before) && events == before + end.endings(
            last_time(signals),
        );
    law_a_session_starts_coherent(t);
    lemma_run_accounts(math, initial(t), signals, end, before);
    law_finishing_ends_what_is_open(end, last_time(signals));
    lemma_accounts_concat(
        initial(t).open,
        before,
        end.open,
        end.endings(last_time(signals)),
        end.closed_out().open,
    );
    assert forall|k: Key| #[trigger] balance(events, k) == 0 by {
        assert(count_open(initial(t).open, k) + balance(events, k) == count_open(end.closed_out().open, k));
    }
}

/// A recording without frames reports nothing.
pub proof fn law_an_empty_recording_reports_nothing<A: Arithmetic>(math: &A, t: Thresholds, events: Seq<EventView>)
    requires
        replays_to(math, t, Seq::empty(), events),
    ensures
        events == Seq::<EventView>::empty(),
{
    let signals = Seq::<Signals>::empty();
    let (end, before) = choose|end: FusionState, before: Seq<EventView>|
        #[trigger] runs_to(math, initial(t), signals, end, before) && events == before + end.endings(
            last_time(signals),
        );
    let nothing = end.open.dom();
    assert(nothing =~= Set::empty());
    lemma_finite_lists(nothing);
    let keys = in_order(nothing);
    if keys.len() > 0 {
        assert(keys.contains(keys[0]));
        assert(nothing.contains(keys[0]));
    }
    assert(events =~= Seq::empty());
}

// -- purity -----------------------------------------------------------------

/// Whether an arithmetic gives the same answer to the same question every time.
pub open spec fn repeatable<A: Arithmetic>(math: &A) -> bool {
    &&& forall|alpha: Number, sample: Number, previous: Number, x: Number, y: Number|
        #[trigger] call_ensures(A::blend, (math, alpha, sample, previous), x) && #[trigger] call_ensures(
            A::blend,
            (math, alpha, sample, previous),
            y,
        ) ==> x == y
    &&& forall|value: Number, enter: Number, x: Number, y: Number|
        #[trigger] call_ensures(A::ramp, (math, value, enter), x) && #[trigger] call_ensures(
            A::ramp,
            (math, value, enter),
            y,
        ) ==> x == y
    &&& forall|score: Number, elapsed_ms: u64, half_life_ms: u64, x: Number, y: Number|
        #[trigger] call_ensures(A::decay, (math, score, elapsed_ms, half_life_ms), x) && #[trigger] call_ensures(
            A::decay,
            (math, score, elapsed_ms, half_life_ms),
            y,
        ) ==> x == y
    &&& forall|a: Number, b: Number, x: Number, y: Number|
        #[trigger] call_ensures(A::sum, (math, a, b), x) && #[trigger] call_ensures(A::sum, (math, a, b), y) ==> x
            == y
    &&& forall|a: Number, b: Number, x: Number, y: Number|
        #[trigger] call_ensures(A::difference, (math, a, b), x) && #[trigger] call_ensures(
            A::difference,
            (math, a, b),
            y,
        ) ==> x == y
    &&& forall|radians: Number, x: Number, y: Number|
        #[trigger] call_ensures(A::degrees, (math, radians), x) && #[trigger] call_ensures(
            A::degrees,
            (math, radians),
            y,
        ) ==> x == y
    &&& forall|value: Number, places: u32, x: String, y: String|
        #[trigger] call_ensures(A::shown, (math, value, places), x) && #[trigger] call_ensures(
            A::shown,
            (math, value, places),
            y,
        ) ==> x == y
}

pub(crate) proof fn lemma_angles_repeat<A: Arithmetic>(
    st: AngleState,
    math: &A,
    yaw: Number,
    pitch: Number,
    t_ms: u64,
    a: AngleReading,
    b: AngleReading,
)
    requires
        repeatable(math),
        st.measures(math, yaw, pitch, t_ms, a),
        st.measures(math, yaw, pitch, t_ms, b),
    ensures
        a == b,
{
    assert(a.yaw == b.yaw);
    assert(a.pitch == b.pitch);
}

proof fn lemma_gaze_repeats<A: Arithmetic>(
    st: FusionState,
    math: &A,
    g: crate::types::Gaze,
    t_ms: u64,
    a: AngleReading,
    b: AngleReading,
)
    requires
        repeatable(math),
        st.measures_gaze(math, g, t_ms, a),
        st.measures_gaze(math, g, t_ms, b),
    ensures
        a == b,
{
    let offset = st.rules.pitch_offset_deg;
    let (ya, ra, pa) = choose|yaw: Number, raw: Number, pitch: Number|
        #![trigger call_ensures(A::degrees, (math, g.yaw_rad), yaw), call_ensures(A::difference, (math, raw, offset), pitch)]
        {
            &&& call_ensures(A::degrees, (math, g.yaw_rad), yaw)
            &&& call_ensures(A::degrees, (math, g.pitch_rad), raw)
            &&& call_ensures(A::difference, (math, raw, offset), pitch)
            &&& st.gaze.measures(math, yaw, pitch, t_ms, a)
        };
    let (yb, rb, pb) = choose|yaw: Number, raw: Number, pitch: Number|
        #![trigger call_ensures(A::degrees, (math, g.yaw_rad), yaw), call_ensures(A::difference, (math, raw, offset), pitch)]
        {
            &&& call_ensures(A::degrees, (math, g.yaw_rad), yaw)
            &&& call_ensures(A::degrees, (math, g.pitch_rad), raw)
            &&& call_ensures(A::difference, (math, raw, offset), pitch)
            &&& st.gaze.measures(math, yaw, pitch, t_ms, b)
        };
    assert(ya == yb);
    assert(ra == rb);
    assert(pa == pb);
    lemma_angles_repeat(st.gaze, math, ya, pa, t_ms, a, b);
}

proof fn lemma_score_repeats<A: Arithmetic>(
    st: ScoreState,
    math: &A,
    amount: Option<Number>,
    t_ms: u64,
    a: Number,
    b: Number,
)
    requires
        repeatable(math),
        match amount {
            Some(v) => st.gathers(math, v, t_ms, a) && st.gathers(math, v, t_ms, b),
            None => st.decays_to(math, t_ms, a) && st.decays_to(math, t_ms, b),
        },
    ensures
        a == b,
{
    if let Some(v) = amount {
        let da = choose|d: Number|
            #![trigger call_ensures(A::sum, (math, d, v), a)]
            st.decays_to(math, t_ms, d) && call_ensures(A::sum, (math, d, v), a);
        let db = choose|d: Number|
            #![trigger call_ensures(A::sum, (math, d, v), b)]
            st.decays_to(math, t_ms, d) && call_ensures(A::sum, (math, d, v), b);
        assert(da == db);
    }
}

/// Weighing the same frame twice gives the same evidence.
pub(crate) proof fn lemma_evidence_repeats<A: Arithmetic>(
    st: FusionState,
    math: &A,
    s: Signals,
    t_ms: u64,
    a: Seq<BucketReading>,
    b: Seq<BucketReading>,
)
    requires
        repeatable(math),
        a.len() == st.buckets.len(),
        b.len() == st.buckets.len(),
        forall|i: int| 0 <= i < a.len() ==> st.measures_bucket(math, s, t_ms, i, #[trigger] a[i]),
        forall|i: int| 0 <= i < b.len() ==> st.measures_bucket(math, s, t_ms, i, #[trigger] b[i]),
    ensures
        a == b,
{
    assert forall|i: int| 0 <= i < st.buckets.len() implies #[trigger] a[i] == b[i] by {
        assert(st.measures_bucket(math, s, t_ms, i, a[i]));
        assert(st.measures_bucket(math, s, t_ms, i, b[i]));
        if s.produced_by.objects is Produced {
            lemma_score_repeats(
                st.buckets[i].score,
                math,
                super::model::best_of(st.buckets, s.objects@, st.rules.min_score, i),
                t_ms,
                a[i].score,
                b[i].score,
            );
        }
    }
    assert(a =~= b);
}

/// Measuring the same frame twice gives the same reading.
proof fn lemma_measuring_repeats<A: Arithmetic>(
    st: FusionState,
    math: &A,
    s: Signals,
    t_ms: u64,
    a: Reading,
    b: Reading,
)
    requires
        repeatable(math),
        st.measures(math, s, t_ms, a),
        st.measures(math, s, t_ms, b),
    ensures
        a.head == b.head,
        a.gaze == b.gaze,
        a.buckets@ == b.buckets@,
        a.identity == b.identity,
{
    if let Some(p) = pose_of(s) {
        lemma_angles_repeat(st.head, math, p.yaw_deg, p.pitch_deg, t_ms, a.head->0, b.head->0);
    }
    if let Some(g) = gaze_of(s) {
        lemma_gaze_repeats(st, math, g, t_ms, a.gaze->0, b.gaze->0);
    }
    lemma_evidence_repeats(st, math, s, t_ms, a.buckets@, b.buckets@);
}

/// A step is a pure function of what is remembered and of the frame: on the
/// same state, signals and time it leaves the same state and reports the same
/// events.
pub proof fn law_a_step_is_repeatable<A: Arithmetic>(
    math: &A,
    st: FusionState,
    s: Signals,
    t_ms: u64,
    next_a: FusionState,
    events_a: Seq<EventView>,
    next_b: FusionState,
    events_b: Seq<EventView>,
)
    requires
        repeatable(math),
        st.steps_to(math, s, t_ms, next_a, events_a),
        st.steps_to(math, s, t_ms, next_b, events_b),
    ensures
        next_a == next_b,
        events_a == events_b,
{
    let a = choose|r: Reading|
        #[trigger] st.measures(math, s, t_ms, r) && st.stepped(s, r, t_ms) == (Progress {
            state: next_a,
            events: events_a,
        });
    let b = choose|r: Reading|
        #[trigger] st.measures(math, s, t_ms, r) && st.stepped(s, r, t_ms) == (Progress {
            state: next_b,
            events: events_b,
        });
    lemma_measuring_repeats(st, math, s, t_ms, a, b);
}

proof fn lemma_run_repeats<A: Arithmetic>(
    math: &A,
    start: FusionState,
    signals: Seq<Signals>,
    end_a: FusionState,
    events_a: Seq<EventView>,
    end_b: FusionState,
    events_b: Seq<EventView>,
)
    requires
        repeatable(math),
        runs_to(math, start, signals, end_a, events_a),
        runs_to(math, start, signals, end_b, events_b),
    ensures
        end_a == end_b,
        events_a == events_b,
    decreases signals.len(),
{
    if signals.len() > 0 {
        let s = signals.last();
        let (ma, ba, la) = choose|mid: FusionState, before: Seq<EventView>, last: Seq<EventView>|
            #![trigger mid.steps_to(math, s, s.t_ms, end_a, last), before.add(last)]
            runs_to(math, start, signals.drop_last(), mid, before) && mid.steps_to(math, s, s.t_ms, end_a, last)
                && events_a == before.add(last);
        let (mb, bb, lb) = choose|mid: FusionState, before: Seq<EventView>, last: Seq<EventView>|
            #![trigger mid.steps_to(math, s, s.t_ms, end_b, last), before.add(last)]
            runs_to(math, start, signals.drop_last(), mid, before) && mid.steps_to(math, s, s.t_ms, end_b, last)
                && events_b == before.add(last);
        lemma_run_repeats(math, start, signals.drop_last(), ma, ba, mb, bb);
        law_a_step_is_repeatable(math, ma, s, s.t_ms, end_a, la, end_b, lb);
    }
}

/// Replaying the same recording under the same thresholds reports the same
/// events every time.
pub proof fn law_a_replay_is_repeatable<A: Arithmetic>(
    math: &A,
    t: Thresholds,
    signals: Seq<Signals>,
    events_a: Seq<EventView>,
    events_b: Seq<EventView>,
)
    requires
        repeatable(math),
        replays_to(math, t, signals, events_a),
        replays_to(math, t, signals, events_b),
    ensures
        events_a == events_b,
{
    let at = last_time(signals);
    let (ea, ba) = choose|end: FusionState, before: Seq<EventView>|
        #[trigger] runs_to(math, initial(t), signals, end, before) && events_a == before + end.endings(at);
    let (eb, bb) = choose|end: FusionState, before: Seq<EventView>|
        #[trigger] runs_to(math, initial(t), signals, end, before) && events_b == before + end.endings(at);
    lemma_run_repeats(math, initial(t), signals, ea, ba, eb, bb);
}

// -- slots that measured nothing ------------------------------------------------

/// A slot that did not run decides nothing. The angles, the evidence and the
/// count of failed checks stay as they were, and no violation that rests on an
/// angle or on a check is opened: silence is neither guilt nor innocence. For an
/// angle's hold timer such a frame is one on which nothing was turned away.
pub proof fn law_an_unmeasured_slot_decides_nothing<A: Arithmetic>(
    math: &A,
    st: FusionState,
    s: Signals,
    t_ms: u64,
    next: FusionState,
    events: Seq<EventView>,
)
    requires
        coherent(st),
        st.steps_to(math, s, t_ms, next, events),
    ensures
        !(s.produced_by.pose is Produced) ==> {
            &&& next.head == AngleState { hold: st.head.hold.advanced(false, t_ms), ..st.head }
            &&& next.open.contains_key((ViolationKind::HeadTurnedAway, None)) ==> st.open.contains_key(
                (ViolationKind::HeadTurnedAway, None),
            )
        },
        !(s.produced_by.gaze is Produced) ==> {
            &&& next.gaze == AngleState { hold: st.gaze.hold.advanced(false, t_ms), ..st.gaze }
            &&& next.open.contains_key((ViolationKind::GazeOffScreen, None)) ==> st.open.contains_key(
                (ViolationKind::GazeOffScreen, None),
            )
        },
        !(s.produced_by.objects is Produced) ==> forall|i: int|
            0 <= i < st.buckets.len() ==> (#[trigger] next.buckets[i]).score == st.buckets[i].score,
        !(s.produced_by.identity is Produced) ==> {
            &&& next.identity_failures == st.identity_failures
            &&& next.open.contains_key((ViolationKind::IdentityMismatch, None)) == st.open.contains_key(
                (ViolationKind::IdentityMismatch, None),
            )
        },
{
    let r = choose|r: Reading|
        #[trigger] st.measures(math, s, t_ms, r) && st.stepped(s, r, t_ms) == (Progress { state: next, events });
    st.lemma_stepped_parts(s, r, t_ms);
    law_a_step_reports_every_edge_once(st, s, r, t_ms);
    let head: Key = (ViolationKind::HeadTurnedAway, None);
    let gaze: Key = (ViolationKind::GazeOffScreen, None);
    let identity: Key = (ViolationKind::IdentityMismatch, None);
    assert(latched(st, head) == st.head.hold.fired && latched(next, head) == next.head.hold.fired);
    assert(latched(st, gaze) == st.gaze.hold.fired && latched(next, gaze) == next.gaze.hold.fired);
    assert(latched(st, identity) == st.identity_active && latched(next, identity) == next.identity_active);
}

// -- what a run keeps -----------------------------------------------------------

pub(crate) proof fn lemma_rules_kept<A: Arithmetic>(
    math: &A,
    start: FusionState,
    signals: Seq<Signals>,
    end: FusionState,
    events: Seq<EventView>,
)
    requires
        runs_to(math, start, signals, end, events),
    ensures
        end.rules == start.rules,
    decreases signals.len(),
{
    if signals.len() > 0 {
        let s = signals.last();
        let (mid, before, last) = choose|mid: FusionState, before: Seq<EventView>, last: Seq<EventView>|
            #![trigger mid.steps_to(math, s, s.t_ms, end, last), before.add(last)]
            runs_to(math, start, signals.drop_last(), mid, before) && mid.steps_to(math, s, s.t_ms, end, last)
                && events == before.add(last);
        lemma_rules_kept(math, start, signals.drop_last(), mid, before);
        let r = choose|r: Reading|
            #[trigger] mid.measures(math, s, s.t_ms, r) && mid.stepped(s, r, s.t_ms) == (Progress {
                state: end,
                events: last,
            });
        mid.lemma_stepped_parts(s, r, s.t_ms);
    }
}

pub(crate) proof fn lemma_tally_concat(a: Seq<EventView>, b: Seq<EventView>, k: Key)
    ensures
        tally(a + b, k) == tally(a, k) + tally(b, k),
    decreases b.len(),
{
    if b.len() == 0 {
        assert(a + b =~= a);
    } else {
        lemma_tally_concat(a, b.drop_last(), k);
        assert((a + b).drop_last() =~= a + b.drop_last());
    }
}

// -- calm -------------------------------------------------------------------

/// Nothing is open, no latch is set, and nothing is close to setting one.
pub open spec fn calm(st: FusionState) -> bool {
    &&& st.open == Map::<Key, OpenView>::empty()
    &&& !(st.presence is Absent)
    &&& !st.never_seen.fired && !st.no_face.fired && !st.multi_face.fired
    &&& !st.head.yaw_gate.active && !st.head.pitch_gate.active && !st.head.hold.fired
    &&& !st.gaze.yaw_gate.active && !st.gaze.pitch_gate.active && !st.gaze.hold.fired
    &&& forall|i: int|
        0 <= i < st.buckets.len() ==> !(#[trigger] st.buckets[i]).active && !Number::le(
            st.rules.enter_score,
            st.buckets[i].score.score,
        )
    &&& !st.pose_lost.fired && !st.gaze_lost.fired
    &&& !st.identity_active && st.identity_failures < st.rules.consecutive_failures
}

/// Whether neither angle reaches its threshold.
pub open spec fn facing(st: AngleState, r: Option<AngleReading>) -> bool {
    match r {
        Some(r) => !Number::le(st.yaw_gate.enter, r.yaw.magnitude_spec()) && !Number::le(
            st.pitch_gate.enter,
            r.pitch.magnitude_spec(),
        ),
        None => true,
    }
}

/// A frame with a face in it, not too many, facing the screen, with no slot
/// dark, too little evidence of anything prohibited, and no failing check.
pub open spec fn calm_frame(st: FusionState, s: Signals, r: Reading) -> bool {
    &&& 0 < s.faces@.len() < st.rules.multi_face_count
    &&& facing(st.head, r.head)
    &&& facing(st.gaze, r.gaze)
    &&& r.buckets@.len() == st.buckets.len()
    &&& s.produced_by.objects is Produced ==> forall|i: int|
        0 <= i < r.buckets@.len() ==> !Number::le(st.rules.enter_score, (#[trigger] r.buckets@[i]).score)
    &&& !slot_lost(s.produced_by.pose)
    &&& !slot_lost(s.produced_by.gaze)
    &&& match r.identity {
        Some(c) => !Number::lt(c.score, st.rules.cosine_enter),
        None => true,
    }
}

proof fn lemma_calm_face(p: Progress, count: nat, t_ms: u64)
    requires
        calm(p.state),
        0 < count < p.state.rules.multi_face_count,
    ensures
        p.after_face(count, t_ms).events == p.events,
        p.after_face(count, t_ms).state.open == p.state.open,
{
    reveal(Progress::after_face);
}

proof fn lemma_calm_angles(p: Progress, head: Option<AngleReading>, gaze: Option<AngleReading>, t_ms: u64)
    requires
        p.state.open == Map::<Key, OpenView>::empty(),
        !p.state.head.yaw_gate.active && !p.state.head.pitch_gate.active && !p.state.head.hold.fired,
        !p.state.gaze.yaw_gate.active && !p.state.gaze.pitch_gate.active && !p.state.gaze.hold.fired,
        facing(p.state.head, head),
        facing(p.state.gaze, gaze),
    ensures
        p.after_head(head, t_ms).after_gaze(gaze, t_ms).events == p.events,
        p.after_head(head, t_ms).after_gaze(gaze, t_ms).state.open == p.state.open,
{
    reveal(Progress::after_head);
    reveal(Progress::after_gaze);
}

proof fn lemma_calm_buckets(p: Progress, produced: bool, r: Seq<BucketReading>, n: nat, t_ms: u64)
    requires
        p.state.open == Map::<Key, OpenView>::empty(),
        n <= p.state.buckets.len(),
        n <= r.len(),
        forall|i: int|
            0 <= i < p.state.buckets.len() ==> !(#[trigger] p.state.buckets[i]).active && !Number::le(
                p.state.rules.enter_score,
                p.state.buckets[i].score.score,
            ),
        produced ==> forall|i: int|
            0 <= i < r.len() ==> !Number::le(p.state.rules.enter_score, (#[trigger] r[i]).score),
    ensures
        p.after_buckets(produced, r, n, t_ms).events == p.events,
        p.after_buckets(produced, r, n, t_ms).state.open == p.state.open,
    decreases n,
{
    if n > 0 {
        lemma_calm_buckets(p, produced, r, (n - 1) as nat, t_ms);
        p.lemma_buckets_frame(produced, r, (n - 1) as nat, t_ms);
        let q = p.after_buckets(produced, r, (n - 1) as nat, t_ms);
        assert(q.state.buckets[n - 1] == p.state.buckets[n - 1]);
        assert(!Number::le(p.state.rules.enter_score, p.state.buckets[n - 1].score.score));
        if produced {
            assert(!Number::le(p.state.rules.enter_score, r[n - 1].score));
        }
        reveal(Progress::after_bucket);
    }
}

/// A candidate who sits still and behaves produces silence: a calm frame
/// reports nothing and leaves the session calm.
pub proof fn law_a_calm_frame_is_silent(st: FusionState, s: Signals, r: Reading, t_ms: u64)
    requires
        calm(st),
        calm_frame(st, s, r),
    ensures
        st.stepped(s, r, t_ms).events == Seq::<EventView>::empty(),
        calm(st.stepped(s, r, t_ms).state),
{
    let p0 = st.beginning();
    let produced = s.produced_by.objects is Produced;
    let p1 = p0.after_face(s.faces@.len(), t_ms);
    let p2 = p1.after_head(r.head, t_ms);
    let p3 = p2.after_gaze(r.gaze, t_ms);
    let p4 = p3.after_buckets(produced, r.buckets@, st.buckets.len(), t_ms);
    let p5 = p4.after_signal_loss(s, t_ms);
    p0.lemma_face_frame(s.faces@.len(), t_ms);
    lemma_calm_face(p0, s.faces@.len(), t_ms);
    lemma_calm_angles(p1, r.head, r.gaze, t_ms);
    p1.lemma_head_frame(r.head, t_ms);
    p2.lemma_gaze_frame(r.gaze, t_ms);
    lemma_calm_buckets(p3, produced, r.buckets@, st.buckets.len(), t_ms);
    p3.lemma_buckets_frame(produced, r.buckets@, st.buckets.len(), t_ms);
    assert(p5.events == p4.events && p5.state.open == p4.state.open) by {
        reveal(Progress::after_signal_loss);
    }
    p4.lemma_signal_loss_frame(s, t_ms);
    assert(p5.after_identity(r.identity, t_ms).events == p5.events && p5.after_identity(
        r.identity,
        t_ms,
    ).state.open == p5.state.open) by {
        reveal(Progress::after_identity);
    }
    st.lemma_stepped_parts(s, r, t_ms);
    let n = st.stepped(s, r, t_ms).state;
    assert forall|i: int| 0 <= i < n.buckets.len() implies !(#[trigger] n.buckets[i]).active && !Number::le(
        n.rules.enter_score,
        n.buckets[i].score.score,
    ) by {
        assert(!st.buckets[i].active);
        assert(!Number::le(st.rules.enter_score, st.buckets[i].score.score));
        if produced {
            assert(!Number::le(st.rules.enter_score, r.buckets@[i].score));
        }
    }
}

/// What a series of frames, each with its reading, leads to.
pub open spec fn decided(start: FusionState, frames: Seq<(Signals, Reading)>) -> Progress
    decreases frames.len(),
{
    if frames.len() == 0 {
        start.beginning()
    } else {
        let before = decided(start, frames.drop_last());
        let (s, r) = frames.last();
        let step = before.state.stepped(s, r, s.t_ms);
        Progress { state: step.state, events: before.events + step.events }
    }
}

/// A whole calm session produces no events at all.
pub proof fn law_a_calm_session_is_silent(start: FusionState, frames: Seq<(Signals, Reading)>)
    requires
        calm(start),
        forall|i: int|
            0 <= i < frames.len() ==> calm_frame(start, (#[trigger] frames[i]).0, frames[i].1),
    ensures
        decided(start, frames).events == Seq::<EventView>::empty(),
        calm(decided(start, frames).state),
        ({
            let end = decided(start, frames).state;
            &&& end.rules == start.rules
            &&& end.buckets.len() == start.buckets.len()
            &&& end.head.yaw_gate.enter == start.head.yaw_gate.enter
            &&& end.head.pitch_gate.enter == start.head.pitch_gate.enter
            &&& end.gaze.yaw_gate.enter == start.gaze.yaw_gate.enter
            &&& end.gaze.pitch_gate.enter == start.gaze.pitch_gate.enter
        }),
    decreases frames.len(),
{
    if frames.len() > 0 {
        let rest = frames.drop_last();
        assert forall|i: int| 0 <= i < rest.len() implies calm_frame(start, (#[trigger] rest[i]).0, rest[i].1) by {
            assert(rest[i] == frames[i]);
        }
        law_a_calm_session_is_silent(start, rest);
        let mid = decided(start, rest).state;
        let (s, r) = frames.last();
        assert(calm_frame(start, frames[frames.len() - 1].0, frames[frames.len() - 1].1));
        law_a_calm_frame_is_silent(mid, s, r, s.t_ms);
        mid.lemma_stepped_parts(s, r, s.t_ms);
        assert(decided(start, frames).events =~= Seq::<EventView>::empty());
    }
}

/// A session starts calm, unless the thresholds ask for no evidence or for no
/// failing check at all.
pub proof fn law_a_session_starts_calm(t: Thresholds)
    requires
        !Number::le(t.objects.enter_score, Number::zero()),
        t.identity.consecutive_failures > 0,
    ensures
        calm(initial(t)),
{
}

/// Every run is decided by what its frames measured, and by nothing else.
pub proof fn law_a_run_is_decided_by_its_readings<A: Arithmetic>(
    math: &A,
    start: FusionState,
    signals: Seq<Signals>,
    end: FusionState,
    events: Seq<EventView>,
) -> (frames: Seq<(Signals, Reading)>)
    requires
        runs_to(math, start, signals, end, events),
    ensures
        frames.len() == signals.len(),
        forall|i: int| 0 <= i < signals.len() ==> (#[trigger] frames[i]).0 == signals[i],
        decided(start, frames) == (Progress { state: end, events }),
    decreases signals.len(),
{
    if signals.len() == 0 {
        Seq::empty()
    } else {
        let s = signals.last();
        let (mid, before, last) = choose|mid: FusionState, before: Seq<EventView>, last: Seq<EventView>|
            #![trigger mid.steps_to(math, s, s.t_ms, end, last), before.add(last)]
            runs_to(math, start, signals.drop_last(), mid, before) && mid.steps_to(math, s, s.t_ms, end, last)
                && events == before.add(last);
        let rest = law_a_run_is_decided_by_its_readings(math, start, signals.drop_last(), mid, before);
        let r = choose|r: Reading|
            #[trigger] mid.measures(math, s, s.t_ms, r) && mid.stepped(s, r, s.t_ms) == (Progress {
                state: end,
                events: last,
            });
        let frames = rest.push((s, r));
        assert(frames.drop_last() =~= rest);
        assert forall|i: int| 0 <= i < signals.len() implies (#[trigger] frames[i]).0 == signals[i] by {
            if i < rest.len() {
                assert(rest[i].0 == signals.drop_last()[i]);
            }
        }
        frames
    }
}

/// The kinds reported as active are those of the open violations, each once and
/// in order.
pub proof fn law_active_kinds_are_distinct(keys: Seq<Key>)
    requires
        ascending(keys),
    ensures
        forall|i: int, j: int|
            0 <= i < j < kinds_of(keys).len() ==> kind_rank(#[trigger] kinds_of(keys)[i]) < kind_rank(
                #[trigger] kinds_of(keys)[j],
            ),
        forall|kind: ViolationKind|
            #[trigger] kinds_of(keys).contains(kind) <==> exists|i: int|
                0 <= i < keys.len() && (#[trigger] keys[i]).0 == kind,
        keys.len() > 0 ==> kinds_of(keys).len() > 0 && kinds_of(keys).last() == keys.last().0,
    decreases keys.len(),
{
    let kinds = kinds_of(keys);
    if keys.len() > 0 {
        let before = keys.drop_last();
        assert(ascending(before)) by {
            assert forall|i: int, j: int| 0 <= i < j < before.len() implies key_lt(
                #[trigger] before[i],
                #[trigger] before[j],
            ) by {
                assert(key_lt(keys[i], keys[j]));
            }
        }
        law_active_kinds_are_distinct(before);
        let some = kinds_of(before);
        let m = keys.last().0;
        if before.len() > 0 {
            assert(key_lt(keys[before.len() - 1], keys[keys.len() - 1]));
            assert(kind_rank(before.last().0) <= kind_rank(m));
        }
        assert forall|i: int, j: int| 0 <= i < j < kinds.len() implies kind_rank(#[trigger] kinds[i]) < kind_rank(
            #[trigger] kinds[j],
        ) by {
            if j == some.len() {
                assert(some.len() > 0);
                if i < some.len() - 1 {
                    assert(kind_rank(some[i]) < kind_rank(some[some.len() - 1]));
                }
                assert(before.len() > 0);
            }
        }
        assert forall|kind: ViolationKind| #[trigger] kinds.contains(kind) <==> exists|i: int|
            0 <= i < keys.len() && (#[trigger] keys[i]).0 == kind by {
            assert(some.contains(kind) <==> exists|i: int| 0 <= i < before.len() && (#[trigger] before[i]).0 == kind);
            if kinds.contains(kind) {
                let i = choose|i: int| 0 <= i < kinds.len() && kinds[i] == kind;
                if i < some.len() {
                    assert(some[i] == kind);
                    assert(some.contains(kind));
                    let h = choose|h: int| 0 <= h < before.len() && (#[trigger] before[h]).0 == kind;
                    assert(keys[h].0 == kind);
                } else {
                    assert(keys[keys.len() - 1].0 == kind);
                }
            }
            if exists|i: int| 0 <= i < keys.len() && (#[trigger] keys[i]).0 == kind {
                let h = choose|h: int| 0 <= h < keys.len() && (#[trigger] keys[h]).0 == kind;
                if h < before.len() {
                    assert(before[h].0 == kind);
                    assert(some.contains(kind));
                    let i = choose|i: int| 0 <= i < some.len() && some[i] == kind;
                    assert(kinds[i] == kind);
                } else {
                    assert(kinds[kinds.len() - 1] == kind);
                }
            }
        }
    }
}

} // verus!
