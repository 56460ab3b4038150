//! The violations that are currently open, in a fixed order.
//!
//! At most one is open per kind and subject. The subject keeps apart two object
//! buckets, or two lost slots, that are otherwise the same kind. The order is
//! what keeps the sequence of events stable between runs.

use vstd::prelude::*;

use crate::number::Number;
use crate::text::{
    lemma_text_lt_irreflexive, lemma_text_lt_total, lemma_text_lt_transitive, same_text, text_before, text_lt,
};
use crate::types::{
    contributions_view, copy_subject, subject_view, Contribution, ContributionView, Severity, ViolationKind,
};

verus! {

broadcast use vstd::string::group_string_axioms;

/// Identifies one stream of violations.
pub type Key = (ViolationKind, Option<Seq<char>>);

/// Where a kind stands in the order of kinds.
pub open spec fn kind_rank(kind: ViolationKind) -> int {
    match kind {
        ViolationKind::NoFace => 0,
        ViolationKind::NeverSeen => 1,
        ViolationKind::MultipleFaces => 2,
        ViolationKind::HeadTurnedAway => 3,
        ViolationKind::GazeOffScreen => 4,
        ViolationKind::ProhibitedObject => 5,
        ViolationKind::IdentityMismatch => 6,
        ViolationKind::SignalLost => 7,
    }
}

/// No subject comes before every subject; subjects are ordered as texts.
pub open spec fn subject_lt(a: Option<Seq<char>>, b: Option<Seq<char>>) -> bool {
    match (a, b) {
        (None, Some(_)) => true,
        (Some(x), Some(y)) => text_lt(x, y),
        _ => false,
    }
}

/// Keys are ordered by kind first, then by subject.
pub open spec fn key_lt(a: Key, b: Key) -> bool {
    kind_rank(a.0) < kind_rank(b.0) || (a.0 == b.0 && subject_lt(a.1, b.1))
}

pub proof fn lemma_key_lt_irreflexive(a: Key)
    ensures
        !key_lt(a, a),
{
    if let Some(s) = a.1 {
        lemma_text_lt_irreflexive(s);
    }
}

pub proof fn lemma_key_lt_transitive(a: Key, b: Key, c: Key)
    requires
        key_lt(a, b),
        key_lt(b, c),
    ensures
        key_lt(a, c),
{
    match (a.1, b.1, c.1) {
        (Some(x), Some(y), Some(z)) => {
            if text_lt(x, y) && text_lt(y, z) {
                lemma_text_lt_transitive(x, y, z);
            }
        },
        _ => {},
    }
}

pub proof fn lemma_key_lt_total(a: Key, b: Key)
    ensures
        key_lt(a, b) || a == b || key_lt(b, a),
{
    match (a.1, b.1) {
        (Some(x), Some(y)) => {
            if x != y {
                lemma_text_lt_total(x, y);
            }
        },
        _ => {},
    }
}

/// Keys in strictly ascending order.
pub open spec fn ascending(s: Seq<Key>) -> bool {
    forall|i: int, j: int| 0 <= i < j < s.len() ==> key_lt(#[trigger] s[i], #[trigger] s[j])
}

/// Whether `s` lists exactly the keys of `d`, in ascending order.
pub open spec fn lists(s: Seq<Key>, d: Set<Key>) -> bool {
    &&& ascending(s)
    &&& forall|k: Key| #[trigger] d.contains(k) <==> s.contains(k)
}

/// The keys of a set in ascending order.
pub open spec fn in_order(d: Set<Key>) -> Seq<Key> {
    choose|s: Seq<Key>| lists(s, d)
}

/// There is only one ascending list of a set's keys.
pub proof fn lemma_lists_unique(a: Seq<Key>, b: Seq<Key>, d: Set<Key>)
    requires
        lists(a, d),
        lists(b, d),
    ensures
        a == b,
    decreases a.len(),
{
    if a.len() == 0 {
        if b.len() > 0 {
            assert(b.contains(b[0]));
            assert(d.contains(b[0]));
            assert(a.contains(b[0]));
        }
        assert(a =~= b);
    } else {
        assert(a.contains(a.last()));
        assert(d.contains(a.last()));
        assert(b.contains(a.last()));
        assert(b.contains(b.last()));
        assert(d.contains(b.last()));
        assert(a.contains(b.last()));
        let i = choose|i: int| 0 <= i < a.len() && a[i] == b.last();
        let j = choose|j: int| 0 <= j < b.len() && b[j] == a.last();
        if a.last() != b.last() {
            assert(key_lt(a[i], a.last()));
            assert(key_lt(b[j], b.last()));
            lemma_key_lt_transitive(a.last(), b.last(), a.last());
            lemma_key_lt_irreflexive(a.last());
        }
        let m = a.last();
        lemma_drop_last_lists(a, d);
        lemma_drop_last_lists(b, d);
        lemma_lists_unique(a.drop_last(), b.drop_last(), d.remove(m));
        assert(a =~= a.drop_last().push(m));
        assert(b =~= b.drop_last().push(m));
    }
}

proof fn lemma_drop_last_lists(a: Seq<Key>, d: Set<Key>)
    requires
        lists(a, d),
        a.len() > 0,
    ensures
        lists(a.drop_last(), d.remove(a.last())),
{
    let m = a.last();
    let s = a.drop_last();
    assert forall|k: Key| #[trigger] d.remove(m).contains(k) <==> s.contains(k) by {
        if d.contains(k) && k != m {
            assert(a.contains(k));
            let i = choose|i: int| 0 <= i < a.len() && a[i] == k;
            assert(s[i] == k);
        }
        if s.contains(k) {
            let i = choose|i: int| 0 <= i < s.len() && s[i] == k;
            assert(a[i] == k);
            assert(a.contains(k));
            assert(key_lt(a[i], a[a.len() - 1]));
            lemma_key_lt_irreflexive(m);
        }
    }
}

/// An ascending list of a set's keys is the set's keys in order.
pub proof fn lemma_in_order(s: Seq<Key>, d: Set<Key>)
    requires
        lists(s, d),
    ensures
        in_order(d) == s,
        lists(in_order(d), d),
{
    lemma_lists_unique(s, in_order(d), d);
}

/// An ascending list with one more key put in its place.
spec fn placed(s: Seq<Key>, k: Key) -> Seq<Key>
    decreases s.len(),
{
    if s.len() == 0 {
        seq![k]
    } else if key_lt(s.last(), k) {
        s.push(k)
    } else {
        placed(s.drop_last(), k).push(s.last())
    }
}

proof fn lemma_placed(s: Seq<Key>, k: Key)
    requires
        ascending(s),
        !s.contains(k),
    ensures
        ascending(placed(s, k)),
        forall|q: Key| #[trigger] placed(s, k).contains(q) <==> s.contains(q) || q == k,
    decreases s.len(),
{
    let t = placed(s, k);
    if s.len() == 0 {
        assert(t[0] == k);
    } else if key_lt(s.last(), k) {
        assert forall|i: int, j: int| 0 <= i < j < t.len() implies key_lt(#[trigger] t[i], #[trigger] t[j]) by {
            if j == s.len() && i < s.len() - 1 {
                lemma_key_lt_transitive(s[i], s.last(), k);
            }
        }
        assert forall|q: Key| #[trigger] t.contains(q) <==> s.contains(q) || q == k by {
            if s.contains(q) {
                let i = choose|i: int| 0 <= i < s.len() && s[i] == q;
                assert(t[i] == q);
            }
            assert(t[s.len() as int] == k);
        }
    } else {
        let m = s.last();
        let before = s.drop_last();
        assert(s[s.len() - 1] == m);
        lemma_key_lt_total(k, m);
        assert(!before.contains(k)) by {
            if before.contains(k) {
                let i = choose|i: int| 0 <= i < before.len() && before[i] == k;
                assert(s[i] == k);
            }
        }
        lemma_placed(before, k);
        let u = placed(before, k);
        assert forall|i: int, j: int| 0 <= i < j < t.len() implies key_lt(#[trigger] t[i], #[trigger] t[j]) by {
            if j == u.len() {
                assert(u.contains(u[i]));
                if u[i] != k {
                    let h = choose|h: int| 0 <= h < before.len() && before[h] == u[i];
                    assert(key_lt(s[h], s[s.len() - 1]));
                }
            }
        }
        assert forall|q: Key| #[trigger] t.contains(q) <==> s.contains(q) || q == k by {
            if t.contains(q) && q != m {
                let i = choose|i: int| 0 <= i < t.len() && t[i] == q;
                assert(u[i] == q);
                assert(u.contains(q));
                if before.contains(q) {
                    let h = choose|h: int| 0 <= h < before.len() && before[h] == q;
                    assert(s[h] == q);
                }
            }
            if s.contains(q) && q != m {
                let i = choose|i: int| 0 <= i < s.len() && s[i] == q;
                assert(before[i] == q);
            }
            if u.contains(q) {
                let i = choose|i: int| 0 <= i < u.len() && u[i] == q;
                assert(t[i] == q);
            }
            assert(u.contains(k));
            assert(t[u.len() as int] == m);
        }
    }
}

/// Every finite set of keys can be listed in order.
pub proof fn lemma_finite_lists(d: Set<Key>)
    requires
        d.finite(),
    ensures
        lists(in_order(d), d),
    decreases d.len(),
{
    if d.len() == 0 {
        let s = Seq::<Key>::empty();
        assert(d =~= Set::empty());
        assert(lists(s, d));
    } else {
        let k = d.choose();
        let rest = d.remove(k);
        lemma_finite_lists(rest);
        let s = in_order(rest);
        assert(!s.contains(k)) by {
            assert(!rest.contains(k));
        }
        lemma_placed(s, k);
        assert forall|q: Key| #[trigger] d.contains(q) <==> placed(s, k).contains(q) by {
            assert(rest.contains(q) <==> s.contains(q));
        }
        assert(lists(placed(s, k), d));
    }
}

/// A violation currently open, and what it looked like at its worst.
#[derive(Debug, Clone)]
pub struct Open {
    pub t_start_ms: u64,
    pub severity: Severity,
    pub confidence: Number,
    pub contributions: Vec<Contribution>,
}

/// What an [`Open`] says.
pub ghost struct OpenView {
    pub t_start_ms: u64,
    pub severity: Severity,
    pub confidence: Number,
    pub contributions: Seq<ContributionView>,
}

impl View for Open {
    type V = OpenView;

    open spec fn view(&self) -> OpenView {
        OpenView {
            t_start_ms: self.t_start_ms,
            severity: self.severity,
            confidence: self.confidence,
            contributions: contributions_view(self.contributions@),
        }
    }
}

/// An open violation under its key.
#[derive(Debug, Clone)]
struct Entry {
    kind: ViolationKind,
    subject: Option<String>,
    open: Open,
}

impl Entry {
    spec fn key(self) -> Key {
        (self.kind, subject_view(self.subject))
    }
}

/// The keys of a list as they read.
pub open spec fn keys_view(s: Seq<(ViolationKind, Option<String>)>) -> Seq<Key> {
    s.map_values(|k: (ViolationKind, Option<String>)| (k.0, subject_view(k.1)))
}

/// The kinds of a list of keys, each run of equal kinds once.
pub open spec fn kinds_of(s: Seq<Key>) -> Seq<ViolationKind>
    decreases s.len(),
{
    if s.len() == 0 {
        Seq::empty()
    } else {
        let before = kinds_of(s.drop_last());
        if before.len() > 0 && before.last() == s.last().0 {
            before
        } else {
            before.push(s.last().0)
        }
    }
}

/// All open violations, by key.
#[derive(Debug, Clone)]
pub struct Ledger {
    entries: Vec<Entry>,
}

impl View for Ledger {
    type V = Map<Key, OpenView>;

    closed spec fn view(&self) -> Map<Key, OpenView> {
        entries_map(self.entries@)
    }
}

spec fn entry_keys(s: Seq<Entry>) -> Seq<Key> {
    s.map_values(|e: Entry| e.key())
}

spec fn entries_map(s: Seq<Entry>) -> Map<Key, OpenView>
    decreases s.len(),
{
    if s.len() == 0 {
        Map::empty()
    } else {
        entries_map(s.drop_last()).insert(s.last().key(), s.last().open@)
    }
}

/// In a list of entries with ascending keys, the map holds exactly them.
proof fn lemma_entries_map(s: Seq<Entry>)
    requires
        ascending(entry_keys(s)),
    ensures
        forall|i: int|
            0 <= i < s.len() ==> #[trigger] entries_map(s).contains_key(s[i].key())
                && entries_map(s)[s[i].key()] == s[i].open@,
        forall|k: Key|
            #[trigger] entries_map(s).contains_key(k) ==> exists|i: int|
                0 <= i < s.len() && (#[trigger] s[i]).key() == k,
    decreases s.len(),
{
    if s.len() > 0 {
        let before = s.drop_last();
        let m = s.last();
        assert(ascending(entry_keys(before))) by {
            assert forall|i: int, j: int| 0 <= i < j < before.len() implies key_lt(
                #[trigger] entry_keys(before)[i],
                #[trigger] entry_keys(before)[j],
            ) by {
                assert(key_lt(entry_keys(s)[i], entry_keys(s)[j]));
            }
        }
        lemma_entries_map(before);
        assert forall|i: int| 0 <= i < s.len() implies #[trigger] entries_map(s).contains_key(s[i].key())
            && entries_map(s)[s[i].key()] == s[i].open@ by {
            if i < before.len() {
                assert(before[i] == s[i]);
                assert(entries_map(before).contains_key(before[i].key()));
                assert(key_lt(entry_keys(s)[i], entry_keys(s)[s.len() - 1]));
                lemma_key_lt_irreflexive(m.key());
            }
        }
        assert forall|k: Key| #[trigger] entries_map(s).contains_key(k) implies exists|i: int|
            0 <= i < s.len() && (#[trigger] s[i]).key() == k by {
            if k == m.key() {
                assert(s[s.len() - 1].key() == k);
            } else {
                assert(entries_map(before).contains_key(k));
                let i = choose|i: int| 0 <= i < before.len() && (#[trigger] before[i]).key() == k;
                assert(s[i].key() == k);
            }
        }
    }
}

fn kind_number(kind: ViolationKind) -> (r: u8)
    ensures
        r == kind_rank(kind),
{
    match kind {
        ViolationKind::NoFace => 0,
        ViolationKind::NeverSeen => 1,
        ViolationKind::MultipleFaces => 2,
        ViolationKind::HeadTurnedAway => 3,
        ViolationKind::GazeOffScreen => 4,
        ViolationKind::ProhibitedObject => 5,
        ViolationKind::IdentityMismatch => 6,
        ViolationKind::SignalLost => 7,
    }
}

fn subject_before(a: &Option<String>, b: &Option<String>) -> (r: bool)
    ensures
        r == subject_lt(subject_view(*a), subject_view(*b)),
{
    match (a, b) {
        (None, Some(_)) => true,
        (Some(x), Some(y)) => text_before(x.as_str(), y.as_str()),
        _ => false,
    }
}

fn same_subject(a: &Option<String>, b: &Option<String>) -> (r: bool)
    ensures
        r == (subject_view(*a) == subject_view(*b)),
{
    match (a, b) {
        (None, None) => true,
        (Some(x), Some(y)) => same_text(x.as_str(), y.as_str()),
        _ => false,
    }
}

impl Ledger {
    /// Entries stand in ascending order of their keys.
    pub closed spec fn inv(&self) -> bool {
        ascending(entry_keys(self.entries@))
    }

    pub fn new() -> (r: Self)
        ensures
            r.inv(),
            r@ == Map::<Key, OpenView>::empty(),
    {
        Ledger { entries: Vec::new() }
    }

    /// Where a key stands or would have to stand.
    fn position(&self, kind: ViolationKind, subject: &Option<String>) -> (r: usize)
        requires
            self.inv(),
        ensures
            r <= self.entries@.len(),
            forall|i: int|
                0 <= i < r ==> key_lt(
                    #[trigger] entry_keys(self.entries@)[i],
                    (kind, subject_view(*subject)),
                ),
            r < self.entries@.len() ==> !key_lt(
                entry_keys(self.entries@)[r as int],
                (kind, subject_view(*subject)),
            ),
    {
        let n: usize = self.entries.len();
        for i in 0..n
            invariant
                n == self.entries@.len(),
                forall|j: int|
                    0 <= j < i ==> key_lt(
                        #[trigger] entry_keys(self.entries@)[j],
                        (kind, subject_view(*subject)),
                    ),
        {
            let e = &self.entries[i];
            assert(entry_keys(self.entries@)[i as int] == self.entries@[i as int].key());
            let before = kind_number(e.kind) < kind_number(kind) || (e.kind == kind && subject_before(
                &e.subject,
                subject,
            ));
            if !before {
                return i;
            }
        }
        n
    }

    /// The entry with a key, if there is one.
    fn find(&self, kind: ViolationKind, subject: &Option<String>) -> (r: Option<usize>)
        requires
            self.inv(),
        ensures
            match r {
                Some(i) => i < self.entries@.len() && self.entries@[i as int].key() == (
                    kind,
                    subject_view(*subject),
                ) && self@.contains_key((kind, subject_view(*subject))),
                None => !self@.contains_key((kind, subject_view(*subject))),
            },
    {
        let n: usize = self.entries.len();
        let i: usize = self.position(kind, subject);
        let ghost k: Key = (kind, subject_view(*subject));
        proof {
            lemma_entries_map(self.entries@);
        }
        if i < n && self.entries[i].kind == kind && same_subject(&self.entries[i].subject, subject) {
            return Some(i);
        }
        proof {
            if self@.contains_key(k) {
                let j = choose|j: int| 0 <= j < self.entries@.len() && (#[trigger] self.entries@[j]).key() == k;
                let keys = entry_keys(self.entries@);
                assert(keys[j] == k);
                lemma_key_lt_irreflexive(k);
                if j > i {
                    assert(key_lt(keys[i as int], keys[j]));
                }
            }
        }
        None
    }

    /// Open a violation, in place of whatever is open under its key.
    pub fn insert(&mut self, kind: ViolationKind, subject: Option<String>, open: Open)
        requires
            old(self).inv(),
        ensures
            final(self).inv(),
            final(self)@ == old(self)@.insert((kind, subject_view(subject)), open@),
    {
        let n: usize = self.entries.len();
        let i: usize = self.position(kind, &subject);
        let ghost k: Key = (kind, subject_view(subject));
        let ghost before = self.entries@;
        let found = i < n && self.entries[i].kind == kind && same_subject(&self.entries[i].subject, &subject);
        let entry = Entry { kind, subject, open };
        let ghost e = entry;
        if found {
            self.entries.set(i, entry);
            proof {
                lemma_replaced(before, i as int, e);
            }
        } else {
            self.entries.insert(i, entry);
            proof {
                if i < before.len() {
                    lemma_key_lt_total(k, before[i as int].key());
                }
                lemma_inserted(before, i as int, e);
            }
        }
    }

    /// Close the violation under a key, if one is open.
    pub fn remove(&mut self, kind: ViolationKind, subject: &Option<String>) -> (r: Option<Open>)
        requires
            old(self).inv(),
        ensures
            final(self).inv(),
            final(self)@ == old(self)@.remove((kind, subject_view(*subject))),
            match r {
                Some(open) => old(self)@.contains_key((kind, subject_view(*subject))) && open@ == old(
                    self,
                )@[(kind, subject_view(*subject))],
                None => !old(self)@.contains_key((kind, subject_view(*subject))),
            },
    {
        let ghost before = self.entries@;
        match self.find(kind, subject) {
            Some(i) => {
                let entry = self.entries.remove(i);
                proof {
                    lemma_removed(before, i as int);
                }
                Some(entry.open)
            },
            None => {
                assert(self@.remove((kind, subject_view(*subject))) =~= self@);
                None
            },
        }
    }

    /// Keep the confidence of an open violation current.
    pub fn set_confidence(&mut self, kind: ViolationKind, subject: &Option<String>, confidence: Number)
        requires
            old(self).inv(),
        ensures
            final(self).inv(),
            final(self)@ == (if old(self)@.contains_key((kind, subject_view(*subject))) {
                old(self)@.insert(
                    (kind, subject_view(*subject)),
                    OpenView { confidence, ..old(self)@[(kind, subject_view(*subject))] },
                )
            } else {
                old(self)@
            }),
    {
        let ghost before = self.entries@;
        match self.find(kind, subject) {
            Some(i) => {
                proof {
                    lemma_entries_map(before);
                }
                let mut entry = self.entries.remove(i);
                assert(before[i as int] == entry);
                entry.open.confidence = confidence;
                let ghost e = entry;
                self.entries.insert(i, entry);
                assert(self.entries@ =~= before.update(i as int, e));
                proof {
                    lemma_replaced(before, i as int, e);
                }
            },
            None => {},
        }
    }

    /// Every key with an open violation, in ascending order.
    pub fn keys(&self) -> (r: Vec<(ViolationKind, Option<String>)>)
        requires
            self.inv(),
        ensures
            keys_view(r@) == in_order(self@.dom()),
            lists(keys_view(r@), self@.dom()),
    {
        let mut r: Vec<(ViolationKind, Option<String>)> = Vec::new();
        let n: usize = self.entries.len();
        for i in 0..n
            invariant
                n == self.entries@.len(),
                r@.len() == i,
                forall|j: int|
                    0 <= j < i ==> (#[trigger] r@[j]).0 == self.entries@[j].kind && subject_view(r@[j].1)
                        == subject_view(self.entries@[j].subject),
        {
            let e = &self.entries[i];
            r.push((e.kind, copy_subject(&e.subject)));
        }
        proof {
            assert(keys_view(r@) =~= entry_keys(self.entries@));
            lemma_entry_keys_list(self.entries@);
            lemma_in_order(keys_view(r@), self@.dom());
        }
        r
    }

    /// Every kind with an open violation, in ascending order.
    pub fn kinds(&self) -> (r: Vec<ViolationKind>)
        requires
            self.inv(),
        ensures
            r@ == kinds_of(in_order(self@.dom())),
    {
        let mut r: Vec<ViolationKind> = Vec::new();
        let n: usize = self.entries.len();
        let ghost keys = entry_keys(self.entries@);
        for i in 0..n
            invariant
                n == self.entries@.len(),
                keys == entry_keys(self.entries@),
                r@ == kinds_of(keys.take(i as int)),
        {
            let kind = self.entries[i].kind;
            assert(keys.take(i + 1).drop_last() =~= keys.take(i as int));
            assert(keys.take(i + 1).last() == keys[i as int]);
            let m: usize = r.len();
            if m == 0 || r[m - 1] != kind {
                r.push(kind);
            }
        }
        proof {
            assert(keys.take(n as int) =~= keys);
            lemma_entry_keys_list(self.entries@);
            lemma_in_order(keys, self@.dom());
        }
        r
    }
}

proof fn lemma_entry_keys_list(s: Seq<Entry>)
    requires
        ascending(entry_keys(s)),
    ensures
        lists(entry_keys(s), entries_map(s).dom()),
{
    lemma_entries_map(s);
    let keys = entry_keys(s);
    assert forall|k: Key| #[trigger] entries_map(s).dom().contains(k) <==> keys.contains(k) by {
        if entries_map(s).contains_key(k) {
            let i = choose|i: int| 0 <= i < s.len() && (#[trigger] s[i]).key() == k;
            assert(keys[i] == k);
        }
        if keys.contains(k) {
            let i = choose|i: int| 0 <= i < keys.len() && keys[i] == k;
            assert(s[i].key() == k);
            assert(entries_map(s).contains_key(s[i].key()));
        }
    }
}

proof fn lemma_replaced(s: Seq<Entry>, i: int, e: Entry)
    requires
        ascending(entry_keys(s)),
        0 <= i < s.len(),
        s[i].key() == e.key(),
    ensures
        ascending(entry_keys(s.update(i, e))),
        entries_map(s.update(i, e)) == entries_map(s).insert(e.key(), e.open@),
{
    let t = s.update(i, e);
    assert(entry_keys(t) =~= entry_keys(s));
    lemma_entries_map(s);
    let m = entries_map(s).insert(e.key(), e.open@);
    assert forall|j: int| 0 <= j < t.len() implies m.contains_key((#[trigger] t[j]).key()) && m[t[j].key()]
        == t[j].open@ by {
        assert(entries_map(s).contains_key(s[j].key()));
        if j != i {
            assert(key_lt(entry_keys(s)[i], entry_keys(s)[j]) || key_lt(entry_keys(s)[j], entry_keys(s)[i]));
            lemma_key_lt_irreflexive(e.key());
        }
    }
    assert forall|k: Key| m.contains_key(k) implies exists|j: int|
        0 <= j < t.len() && (#[trigger] t[j]).key() == k by {
        if k == e.key() {
            assert(t[i].key() == k);
        } else {
            assert(entries_map(s).contains_key(k));
            let j = choose|j: int| 0 <= j < s.len() && (#[trigger] s[j]).key() == k;
            assert(t[j].key() == k);
        }
    }
    lemma_same_map(t, m);
}

proof fn lemma_inserted(s: Seq<Entry>, i: int, e: Entry)
    requires
        ascending(entry_keys(s)),
        0 <= i <= s.len(),
        forall|j: int| 0 <= j < i ==> key_lt(#[trigger] entry_keys(s)[j], e.key()),
        i < s.len() ==> key_lt(e.key(), entry_keys(s)[i]),
    ensures
        ascending(entry_keys(s.insert(i, e))),
        entries_map(s.insert(i, e)) == entries_map(s).insert(e.key(), e.open@),
{
    let t = s.insert(i, e);
    let ks = entry_keys(s);
    let kt = entry_keys(t);
    assert forall|a: int, b: int| 0 <= a < b < kt.len() implies key_lt(#[trigger] kt[a], #[trigger] kt[b]) by {
        let sa = if a < i { a } else { a - 1 };
        let sb = if b < i { b } else { b - 1 };
        if a == i {
            assert(kt[b] == ks[sb]);
            if sb > i {
                assert(key_lt(ks[i], ks[sb]));
                lemma_key_lt_transitive(e.key(), ks[i], ks[sb]);
            }
        } else if b == i {
            assert(kt[a] == ks[a]);
        } else {
            assert(kt[a] == ks[sa]);
            assert(kt[b] == ks[sb]);
        }
    }
    lemma_entries_map(s);
    lemma_entries_map(t);
    let m = entries_map(s).insert(e.key(), e.open@);
    assert forall|j: int| 0 <= j < t.len() implies m.contains_key((#[trigger] t[j]).key()) && m[t[j].key()]
        == t[j].open@ by {
        let sj = if j < i { j } else { j - 1 };
        if j != i {
            assert(t[j] == s[sj]);
            assert(entries_map(s).contains_key(s[sj].key()));
            assert(key_lt(kt[j], kt[i]) || key_lt(kt[i], kt[j]));
            lemma_key_lt_irreflexive(e.key());
        }
    }
    assert forall|k: Key| m.contains_key(k) implies exists|j: int|
        0 <= j < t.len() && (#[trigger] t[j]).key() == k by {
        if k == e.key() {
            assert(t[i].key() == k);
        } else {
            assert(entries_map(s).contains_key(k));
            let j = choose|j: int| 0 <= j < s.len() && (#[trigger] s[j]).key() == k;
            let tj = if j < i { j } else { j + 1 };
            assert(t[tj].key() == k);
        }
    }
    lemma_same_map(t, m);
}

proof fn lemma_removed(s: Seq<Entry>, i: int)
    requires
        ascending(entry_keys(s)),
        0 <= i < s.len(),
    ensures
        ascending(entry_keys(s.remove(i))),
        entries_map(s.remove(i)) == entries_map(s).remove(s[i].key()),
        entries_map(s)[s[i].key()] == s[i].open@,
{
    let t = s.remove(i);
    let ks = entry_keys(s);
    let kt = entry_keys(t);
    assert forall|a: int, b: int| 0 <= a < b < kt.len() implies key_lt(#[trigger] kt[a], #[trigger] kt[b]) by {
        let sa = if a < i { a } else { a + 1 };
        let sb = if b < i { b } else { b + 1 };
        assert(kt[a] == ks[sa]);
        assert(kt[b] == ks[sb]);
    }
    lemma_entries_map(s);
    lemma_entries_map(t);
    assert(entries_map(s).contains_key(s[i].key()));
    let m = entries_map(s).remove(s[i].key());
    assert forall|j: int| 0 <= j < t.len() implies m.contains_key((#[trigger] t[j]).key()) && m[t[j].key()]
        == t[j].open@ by {
        let sj = if j < i { j } else { j + 1 };
        assert(t[j] == s[sj]);
        assert(entries_map(s).contains_key(s[sj].key()));
        assert(key_lt(ks[i], ks[sj]) || key_lt(ks[sj], ks[i]));
        lemma_key_lt_irreflexive(s[i].key());
    }
    assert forall|k: Key| m.contains_key(k) implies exists|j: int|
        0 <= j < t.len() && (#[trigger] t[j]).key() == k by {
        assert(entries_map(s).contains_key(k));
        let j = choose|j: int| 0 <= j < s.len() && (#[trigger] s[j]).key() == k;
        let tj = if j < i { j } else { j - 1 };
        assert(t[tj].key() == k);
    }
    lemma_same_map(t, m);
}

/// A map that holds exactly the entries is the entries' map.
proof fn lemma_same_map(t: Seq<Entry>, m: Map<Key, OpenView>)
    requires
        ascending(entry_keys(t)),
        forall|j: int|
            0 <= j < t.len() ==> m.contains_key((#[trigger] t[j]).key()) && m[t[j].key()] == t[j].open@,
        forall|k: Key|
            m.contains_key(k) ==> exists|j: int| 0 <= j < t.len() && (#[trigger] t[j]).key() == k,
    ensures
        entries_map(t) == m,
{
    lemma_entries_map(t);
    let em = entries_map(t);
    assert forall|k: Key| em.contains_key(k) <==> #[trigger] m.contains_key(k) by {
        if m.contains_key(k) {
            let j = choose|j: int| 0 <= j < t.len() && (#[trigger] t[j]).key() == k;
            assert(em.contains_key(t[j].key()));
        }
    }
    assert forall|k: Key| #[trigger] em.contains_key(k) implies em[k] == m[k] by {
        let j = choose|j: int| 0 <= j < t.len() && (#[trigger] t[j]).key() == k;
        assert(em.contains_key(t[j].key()));
    }
    assert(em =~= m);
}

// -- laws -------------------------------------------------------------------

/// Open violations are listed by kind, in the order in which the kinds are
/// declared, and within a kind by what they are about, those about nothing in
/// particular first.
pub proof fn law_violations_are_listed_by_kind(a: Key, b: Key)
    ensures
        a.0 == b.0 ==> (key_lt(a, b) <==> match (a.1, b.1) {
            (None, Some(_)) => true,
            (Some(x), Some(y)) => text_lt(x, y),
            _ => false,
        }),
        a.0 != b.0 ==> (key_lt(a, b) <==> !key_lt(b, a)),
        a.0 is NoFace && !(b.0 is NoFace) ==> key_lt(a, b),
        a.0 is NeverSeen && !(b.0 is NoFace || b.0 is NeverSeen) ==> key_lt(a, b),
        a.0 is MultipleFaces && (b.0 is HeadTurnedAway || b.0 is GazeOffScreen || b.0 is ProhibitedObject
            || b.0 is IdentityMismatch || b.0 is SignalLost) ==> key_lt(a, b),
        a.0 is HeadTurnedAway && (b.0 is GazeOffScreen || b.0 is ProhibitedObject || b.0 is IdentityMismatch
            || b.0 is SignalLost) ==> key_lt(a, b),
        a.0 is GazeOffScreen && (b.0 is ProhibitedObject || b.0 is IdentityMismatch || b.0 is SignalLost) ==> key_lt(
            a,
            b,
        ),
        a.0 is ProhibitedObject && (b.0 is IdentityMismatch || b.0 is SignalLost) ==> key_lt(a, b),
        a.0 is IdentityMismatch && b.0 is SignalLost ==> key_lt(a, b),
{
}

/// A list of what is open holds all of it, each once and in order.
pub proof fn law_what_is_open_is_listed_once(s: Seq<Key>, d: Set<Key>, i: int, j: int)
    requires
        lists(s, d),
        0 <= i < j < s.len(),
    ensures
        key_lt(s[i], s[j]),
        s[i] != s[j],
        d.contains(s[i]) && d.contains(s[j]),
        forall|k: Key| #[trigger] d.contains(k) ==> s.contains(k),
{
    assert(key_lt(s[i], s[j]));
    lemma_key_lt_irreflexive(s[i]);
    assert(s.contains(s[i]) && s.contains(s[j]));
}

} // verus!
