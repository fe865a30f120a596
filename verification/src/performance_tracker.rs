//! The in-memory tracker: a map from sportsman identity to the current
//! collection of performance records, at most one record per discipline kind.
//!
//! The collection is stored positionally but behaves as a map from kind to
//! record; [`metrics_wf`] is the invariant every mutating operation enforces,
//! and [`kind_map`] is the abstraction the contracts speak of.

use vstd::prelude::*;
use vstd::hash_map::StringHashMap;
use crate::error::Error;
use crate::metrics::MetricValue;
use crate::metrics::SportKind;
use crate::sportsman::Sportsman;

verus! {

/// At most one record per discipline kind.
pub open spec fn metrics_wf(s: Seq<MetricValue>) -> bool {
    forall|i: int, j: int|
        0 <= i < j < s.len() ==> (#[trigger] s[i]).kind() != (#[trigger] s[j]).kind()
}

/// Whether the collection holds a record of the kind.
pub open spec fn has_kind(s: Seq<MetricValue>, k: SportKind) -> bool {
    exists|i: int| 0 <= i < s.len() && (#[trigger] s[i]).kind() == k
}

/// An index holding a record of the kind; under [`metrics_wf`] it is the
/// only one.
pub open spec fn kind_index(s: Seq<MetricValue>, k: SportKind) -> int {
    choose|i: int| 0 <= i < s.len() && (#[trigger] s[i]).kind() == k
}

/// The collection read as a map from discipline kind to current record.
pub open spec fn kind_map(s: Seq<MetricValue>) -> Map<SportKind, MetricValue> {
    Map::new(|k: SportKind| has_kind(s, k), |k: SportKind| s[kind_index(s, k)])
}

/// What `add` does to one collection: replace the record of the same kind in
/// place, or append a record of a kind not yet present.
pub open spec fn spec_add_metrics(s: Seq<MetricValue>, v: MetricValue) -> Seq<MetricValue> {
    if has_kind(s, v.kind()) {
        s.update(kind_index(s, v.kind()), v)
    } else {
        s.push(v)
    }
}

/// What a successful `remove` does to one collection: drop the record of the
/// kind (meaningful only when the kind is present).
pub open spec fn spec_remove_metrics(s: Seq<MetricValue>, k: SportKind) -> Seq<MetricValue> {
    s.remove(kind_index(s, k))
}

/// Under [`metrics_wf`] the kind decides the index: any index holding kind
/// `k` is `kind_index(s, k)`.
pub proof fn lemma_kind_index_unique(s: Seq<MetricValue>, k: SportKind, i: int)
    requires
        metrics_wf(s),
        0 <= i < s.len(),
        s[i].kind() == k,
    ensures
        has_kind(s, k),
        kind_index(s, k) == i,
{
    assert(has_kind(s, k));
    let ci = kind_index(s, k);
    assert(0 <= ci < s.len() && s[ci].kind() == k);
    if ci < i {
        assert(s[ci].kind() != s[i].kind());
    } else if i < ci {
        assert(s[i].kind() != s[ci].kind());
    }
}

/// Adding a record keeps the invariant and, on the abstraction, inserts the
/// record under its kind; the length grows only for a fresh kind.
pub proof fn lemma_add_metrics(s: Seq<MetricValue>, v: MetricValue)
    requires
        metrics_wf(s),
    ensures
        metrics_wf(spec_add_metrics(s, v)),
        kind_map(spec_add_metrics(s, v)) =~= kind_map(s).insert(v.kind(), v),
        spec_add_metrics(s, v).len() == s.len() + (if has_kind(s, v.kind()) {
            0int
        } else {
            1int
        }),
{
    let s2 = spec_add_metrics(s, v);
    if has_kind(s, v.kind()) {
        let i0 = kind_index(s, v.kind());
        assert(0 <= i0 < s.len() && s[i0].kind() == v.kind());
        assert(forall|p: int| 0 <= p < s2.len() ==> (#[trigger] s2[p]).kind() == s[p].kind());
        assert(metrics_wf(s2));
        assert forall|k: SportKind| #[trigger] has_kind(s2, k) implies k == v.kind() || has_kind(
            s,
            k,
        ) by {
            let j = kind_index(s2, k);
            assert(0 <= j < s2.len() && s2[j].kind() == k);
            if j != i0 {
                assert(s[j].kind() == k);
            }
        }
        assert forall|k: SportKind| k == v.kind() || has_kind(s, k) implies #[trigger] has_kind(
            s2,
            k,
        ) by {
            if k == v.kind() {
                assert(s2[i0].kind() == k);
            } else {
                let j = kind_index(s, k);
                assert(0 <= j < s.len() && s[j].kind() == k);
                assert(s2[j].kind() == k);
            }
        }
        assert forall|k: SportKind| has_kind(s2, k) implies s2[kind_index(s2, k)] == (if k
            == v.kind() {
            v
        } else {
            s[kind_index(s, k)]
        }) by {
            if k == v.kind() {
                assert(s2[i0].kind() == k);
                lemma_kind_index_unique(s2, k, i0);
            } else {
                let j = kind_index(s, k);
                assert(0 <= j < s.len() && s[j].kind() == k);
                assert(j != i0);
                assert(s2[j].kind() == k);
                lemma_kind_index_unique(s2, k, j);
            }
        }
        assert(kind_map(s2) =~= kind_map(s).insert(v.kind(), v));
    } else {
        // s2 == s.push(v)
        assert forall|i: int, j: int| 0 <= i < j < s2.len() implies (#[trigger] s2[i]).kind() != (
        #[trigger] s2[j]).kind() by {
            if j == s.len() {
                // s2[j] == v, whose kind is fresh
                assert(s2[i] == s[i]);
                assert(s[i].kind() != v.kind());
            } else {
                assert(s2[i] == s[i] && s2[j] == s[j]);
            }
        }
        assert forall|k: SportKind| #[trigger] has_kind(s2, k) implies k == v.kind() || has_kind(
            s,
            k,
        ) by {
            let j = kind_index(s2, k);
            assert(0 <= j < s2.len() && s2[j].kind() == k);
            if j < s.len() {
                assert(s[j].kind() == k);
            }
        }
        assert forall|k: SportKind| k == v.kind() || has_kind(s, k) implies #[trigger] has_kind(
            s2,
            k,
        ) by {
            if k == v.kind() {
                assert(s2[s.len() as int].kind() == k);
            } else {
                let j = kind_index(s, k);
                assert(0 <= j < s.len() && s[j].kind() == k);
                assert(s2[j].kind() == k);
            }
        }
        assert forall|k: SportKind| has_kind(s2, k) implies s2[kind_index(s2, k)] == (if k
            == v.kind() {
            v
        } else {
            s[kind_index(s, k)]
        }) by {
            if k == v.kind() {
                assert(s2[s.len() as int].kind() == k);
                lemma_kind_index_unique(s2, k, s.len() as int);
            } else {
                let j = kind_index(s, k);
                assert(0 <= j < s.len() && s[j].kind() == k);
                assert(s2[j].kind() == k);
                lemma_kind_index_unique(s2, k, j);
            }
        }
        assert(kind_map(s2) =~= kind_map(s).insert(v.kind(), v));
    }
}

/// Removing the record of a present kind keeps the invariant and, on the
/// abstraction, removes exactly that kind; the length shrinks by one.
pub proof fn lemma_remove_metrics(s: Seq<MetricValue>, k: SportKind)
    requires
        metrics_wf(s),
        has_kind(s, k),
    ensures
        metrics_wf(spec_remove_metrics(s, k)),
        kind_map(spec_remove_metrics(s, k)) =~= kind_map(s).remove(k),
        spec_remove_metrics(s, k).len() == s.len() - 1,
{
    let i0 = kind_index(s, k);
    assert(0 <= i0 < s.len() && s[i0].kind() == k);
    let s2 = spec_remove_metrics(s, k);
    // Every position of s2 holds an element of s at a known position.
    assert(forall|p: int|
        0 <= p < s2.len() ==> (#[trigger] s2[p]) == (if p < i0 {
            s[p]
        } else {
            s[p + 1]
        }));
    assert(metrics_wf(s2));
    assert forall|q: SportKind| #[trigger] has_kind(s2, q) implies has_kind(s, q) && q != k by {
        let j = kind_index(s2, q);
        assert(0 <= j < s2.len() && s2[j].kind() == q);
        if j < i0 {
            assert(s[j].kind() == q);
            lemma_kind_index_unique(s, q, j);
        } else {
            assert(s[j + 1].kind() == q);
            lemma_kind_index_unique(s, q, j + 1);
        }
    }
    assert forall|q: SportKind| has_kind(s, q) && q != k implies #[trigger] has_kind(s2, q) by {
        let j = kind_index(s, q);
        assert(0 <= j < s.len() && s[j].kind() == q);
        assert(j != i0);
        if j < i0 {
            assert(s2[j].kind() == q);
        } else {
            assert(s2[j - 1].kind() == q);
        }
    }
    assert forall|q: SportKind| has_kind(s2, q) implies s2[kind_index(s2, q)] == s[kind_index(
        s,
        q,
    )] by {
        let j = kind_index(s2, q);
        assert(0 <= j < s2.len() && s2[j].kind() == q);
        if j < i0 {
            lemma_kind_index_unique(s, q, j);
        } else {
            lemma_kind_index_unique(s, q, j + 1);
        }
    }
    assert(kind_map(s2) =~= kind_map(s).remove(k));
}

/// The collection of one sportsman, or the empty collection when absent.
pub open spec fn entity_seq(m: Map<Seq<char>, Vec<MetricValue>>, n: Seq<char>) -> Seq<
    MetricValue,
> {
    if m.contains_key(n) {
        m[n]@
    } else {
        Seq::empty()
    }
}

/// The kind-to-record abstraction of one sportsman's collection.
pub open spec fn entity_kind_map(m: Map<Seq<char>, Vec<MetricValue>>, n: Seq<char>) -> Map<
    SportKind,
    MetricValue,
> {
    kind_map(entity_seq(m, n))
}

/// Every collection held by the map satisfies [`metrics_wf`].
pub open spec fn tracker_map_wf(m: Map<Seq<char>, Vec<MetricValue>>) -> bool {
    forall|n: Seq<char>| #[trigger] m.contains_key(n) ==> metrics_wf(m[n]@)
}

/// The whole tracker state read abstractly: per sportsman, the map from
/// kind to current record.
pub open spec fn tracker_contents(m: Map<Seq<char>, Vec<MetricValue>>) -> Map<
    Seq<char>,
    Map<SportKind, MetricValue>,
> {
    Map::new(|n: Seq<char>| m.contains_key(n), |n: Seq<char>| kind_map(m[n]@))
}

/// The one abstract step every successful write of the registry makes,
/// whether it lands in the tracker or in the backing store: the named
/// sportsman's kind-to-record map gains (or replaces) the record under its
/// kind; a sportsman not seen before starts from the empty map.
pub open spec fn registry_step(
    m: Map<Seq<char>, Map<SportKind, MetricValue>>,
    n: Seq<char>,
    v: MetricValue,
) -> Map<Seq<char>, Map<SportKind, MetricValue>> {
    m.insert(
        n,
        (if m.contains_key(n) {
            m[n]
        } else {
            Map::empty()
        }).insert(v.kind(), v),
    )
}

/// Finds a position holding the kind, if any.
fn find_kind_index(v: &Vec<MetricValue>, kind: SportKind) -> (r: Option<usize>)
    ensures
        r matches Some(i) ==> i < v@.len() && v@[i as int].kind() == kind,
        r is None ==> !has_kind(v@, kind),
{
    let mut i: usize = 0;
    while i < v.len()
        invariant
            i <= v@.len(),
            forall|j: int| 0 <= j < i ==> (#[trigger] v@[j]).kind() != kind,
        decreases v@.len() - i,
    {
        if v[i].kind() == kind {
            return Some(i);
        }
        i = i + 1;
    }
    None
}

/// A copy of the collection with the record at `i` replaced.
fn copy_with_replacement(v: &Vec<MetricValue>, i: usize, metric: MetricValue) -> (r: Vec<
    MetricValue,
>)
    requires
        i < v@.len(),
    ensures
        r@ == v@.update(i as int, metric),
{
    let mut out: Vec<MetricValue> = Vec::new();
    let mut j: usize = 0;
    while j < v.len()
        invariant
            j <= v@.len(),
            i < v@.len(),
            out@.len() == j,
            forall|p: int| 0 <= p < j ==> #[trigger] out@[p] == (if p == i {
                metric
            } else {
                v@[p]
            }),
        decreases v@.len() - j,
    {
        if j == i {
            out.push(metric);
        } else {
            out.push(v[j]);
        }
        j = j + 1;
    }
    assert(out@ =~= v@.update(i as int, metric));
    out
}

/// A copy of the collection with one more record at the end.
fn copy_with_push(v: &Vec<MetricValue>, metric: MetricValue) -> (r: Vec<MetricValue>)
    ensures
        r@ == v@.push(metric),
{
    let mut out: Vec<MetricValue> = Vec::new();
    let mut j: usize = 0;
    while j < v.len()
        invariant
            j <= v@.len(),
            out@ == v@.subrange(0, j as int),
        decreases v@.len() - j,
    {
        out.push(v[j]);
        j = j + 1;
    }
    assert(out@ =~= v@);
    out.push(metric);
    assert(out@ =~= v@.push(metric));
    out
}

/// A copy of the collection without the record at `i`.
fn copy_without_index(v: &Vec<MetricValue>, i: usize) -> (r: Vec<MetricValue>)
    requires
        i < v@.len(),
    ensures
        r@ == v@.remove(i as int),
{
    let mut out: Vec<MetricValue> = Vec::new();
    let mut j: usize = 0;
    while j < i
        invariant
            j <= i,
            i < v@.len(),
            out@ == v@.subrange(0, j as int),
        decreases i - j,
    {
        out.push(v[j]);
        j = j + 1;
    }
    let n = v.len();
    let mut j2: usize = i + 1;
    while j2 < v.len()
        invariant
            i < j2 <= v@.len(),
            out@ == v@.subrange(0, i as int) + v@.subrange(i + 1, j2 as int),
        decreases v@.len() - j2,
    {
        out.push(v[j2]);
        j2 = j2 + 1;
    }
    assert(out@ =~= v@.remove(i as int));
    out
}

/// The in-memory, concurrency-guarded cache of current metrics per
/// sportsman. This is the functional core; [`SharedTracker`] adds the lock.
pub struct PerformanceTracker {
    performances: StringHashMap<Vec<MetricValue>>,
}

impl View for PerformanceTracker {
    type V = Map<Seq<char>, Vec<MetricValue>>;

    closed spec fn view(&self) -> Map<Seq<char>, Vec<MetricValue>> {
        self.performances@
    }
}

impl PerformanceTracker {
    /// The tracker's invariant: at most one record per kind, for every
    /// sportsman.
    pub open spec fn wf(&self) -> bool {
        tracker_map_wf(self@)
    }

    /// Wraps a prebuilt map from sportsman name to collection, typically
    /// the one the persistence boundary assembled at startup.
    pub fn new(sportsmen_to_metrics: StringHashMap<Vec<MetricValue>>) -> (r: Self)
        requires
            tracker_map_wf(sportsmen_to_metrics@),
        ensures
            r.wf(),
            r@ == sportsmen_to_metrics@,
    {
        Self { performances: sportsmen_to_metrics }
    }

    /// An empty tracker.
    pub fn empty() -> (r: Self)
        ensures
            r.wf(),
            r@ == Map::<Seq<char>, Vec<MetricValue>>::empty(),
    {
        Self { performances: StringHashMap::new() }
    }

    /// Records a performance. A record of the same kind is replaced in
    /// place; a sportsman not seen before gets a fresh collection. Always
    /// succeeds.
    pub fn add_performance(&mut self, sportsman: Sportsman, metric: MetricValue)
        requires
            old(self).wf(),
        ensures
            final(self).wf(),
            final(self)@.dom() == old(self)@.dom().insert(sportsman@),
            final(self)@[sportsman@]@ == spec_add_metrics(
                entity_seq(old(self)@, sportsman@),
                metric,
            ),
            kind_map(final(self)@[sportsman@]@) == entity_kind_map(old(self)@, sportsman@).insert(
                metric.kind(),
                metric,
            ),
            final(self)@[sportsman@]@.len() == entity_seq(old(self)@, sportsman@).len() + (
            if has_kind(entity_seq(old(self)@, sportsman@), metric.kind()) {
                0int
            } else {
                1int
            }),
            forall|n: Seq<char>|
                n != sportsman@ && old(self)@.contains_key(n) ==> final(self)@.contains_key(n)
                    && final(self)@[n] == old(self)@[n],
            tracker_contents(final(self)@) == registry_step(
                tracker_contents(old(self)@),
                sportsman@,
                metric,
            ),
    {
        let ghost old_seq = entity_seq(old(self)@, sportsman@);
        let name = sportsman.name();
        let updated: Vec<MetricValue>;
        match self.performances.get(name.as_str()) {
            Some(current) => {
                match find_kind_index(current, metric.kind()) {
                    Some(i) => {
                        proof {
                            lemma_kind_index_unique(current@, metric.kind(), i as int);
                        }
                        updated = copy_with_replacement(current, i, metric);
                    },
                    None => {
                        updated = copy_with_push(current, metric);
                    },
                }
            },
            None => {
                let mut fresh: Vec<MetricValue> = Vec::new();
                fresh.push(metric);
                assert(fresh@ =~= Seq::empty().push(metric));
                updated = fresh;
            },
        }
        proof {
            lemma_add_metrics(old_seq, metric);
        }
        self.performances.insert(name, updated);
        assert(final(self)@.dom() =~= old(self)@.dom().insert(sportsman@));
        proof {
            let oldm = old(self)@;
            let newm = final(self)@;
            let oldc = tracker_contents(oldm);
            let stepped = registry_step(oldc, sportsman@, metric);
            assert(kind_map(Seq::<MetricValue>::empty()) =~= Map::<SportKind, MetricValue>::empty());
            assert(entity_kind_map(oldm, sportsman@) =~= (if oldc.contains_key(sportsman@) {
                oldc[sportsman@]
            } else {
                Map::empty()
            }));
            assert forall|n: Seq<char>| #[trigger] stepped.contains_key(n) implies tracker_contents(
                newm,
            ).contains_key(n) && tracker_contents(newm)[n] == stepped[n] by {
                if n == sportsman@ {
                    assert(kind_map(newm[n]@) =~= stepped[n]);
                } else {
                    assert(newm[n] == oldm[n]);
                }
            }
            assert(tracker_contents(newm) =~= stepped);
        }
    }

    /// Looks up the current record of one kind for one sportsman. Fails with
    /// `SportsmanNotFound` for an unknown sportsman and with
    /// `SportsmanDoesntHasMetric` for a known sportsman without a record of
    /// the kind; otherwise returns a copy of the record.
    pub fn get_performance(&self, sportsman: &Sportsman, kind: SportKind) -> (r: Result<
        MetricValue,
        Error,
    >)
        requires
            self.wf(),
        ensures
            !self@.contains_key(sportsman@) ==> r == Err::<MetricValue, Error>(
                Error::SportsmanNotFound,
            ),
            self@.contains_key(sportsman@) && !has_kind(self@[sportsman@]@, kind) ==> r == Err::<
                MetricValue,
                Error,
            >(Error::SportsmanDoesntHasMetric),
            self@.contains_key(sportsman@) && has_kind(self@[sportsman@]@, kind) ==> r == Ok::<
                MetricValue,
                Error,
            >(kind_map(self@[sportsman@]@)[kind]),
    {
        let name = sportsman.name();
        match self.performances.get(name.as_str()) {
            Some(metrics) => {
                match find_kind_index(metrics, kind) {
                    Some(i) => {
                        proof {
                            lemma_kind_index_unique(metrics@, kind, i as int);
                        }
                        Ok(metrics[i])
                    },
                    None => Err(Error::SportsmanDoesntHasMetric),
                }
            },
            None => Err(Error::SportsmanNotFound),
        }
    }

    /// How many records one sportsman currently holds, or `None` for a
    /// sportsman the tracker has never seen.
    pub fn metrics_len(&self, sportsman: &Sportsman) -> (r: Option<usize>)
        ensures
            self@.contains_key(sportsman@) ==> r == Some(self@[sportsman@]@.len() as usize),
            !self@.contains_key(sportsman@) ==> r is None,
    {
        let name = sportsman.name();
        match self.performances.get(name.as_str()) {
            Some(metrics) => Some(metrics.len()),
            None => None,
        }
    }

    /// Removes the record of one kind for one sportsman. The two "not
    /// found" conditions stay distinguishable: an unknown sportsman fails
    /// with `SportsmanNotFound`, a known one without the kind with
    /// `SportsmanDoesntHasMetric`. Removal of an absent pair is an error,
    /// never a silent no-op.
    pub fn remove_performance(&mut self, sportsman: Sportsman, kind: SportKind) -> (r: Result<
        (),
        Error,
    >)
        requires
            old(self).wf(),
        ensures
            final(self).wf(),
            r == Ok::<(), Error>(()) <==> old(self)@.contains_key(sportsman@) && has_kind(
                old(self)@[sportsman@]@,
                kind,
            ),
            !old(self)@.contains_key(sportsman@) ==> r == Err::<(), Error>(
                Error::SportsmanNotFound,
            ) && final(self)@ == old(self)@,
            old(self)@.contains_key(sportsman@) && !has_kind(old(self)@[sportsman@]@, kind) ==> r
                == Err::<(), Error>(Error::SportsmanDoesntHasMetric) && final(self)@ == old(self)@,
            r is Ok ==> {
                &&& final(self)@.dom() == old(self)@.dom()
                &&& final(self)@[sportsman@]@ == spec_remove_metrics(old(self)@[sportsman@]@, kind)
                &&& kind_map(final(self)@[sportsman@]@) == kind_map(
                    old(self)@[sportsman@]@,
                ).remove(kind)
                &&& final(self)@[sportsman@]@.len() == old(self)@[sportsman@]@.len() - 1
                &&& forall|n: Seq<char>|
                    n != sportsman@ && old(self)@.contains_key(n) ==> final(self)@.contains_key(n)
                        && final(self)@[n] == old(self)@[n]
            },
    {
        let name = sportsman.name();
        let shorter: Vec<MetricValue>;
        match self.performances.get(name.as_str()) {
            None => {
                return Err(Error::SportsmanNotFound);
            },
            Some(current) => {
                match find_kind_index(current, kind) {
                    None => {
                        return Err(Error::SportsmanDoesntHasMetric);
                    },
                    Some(i) => {
                        proof {
                            lemma_kind_index_unique(current@, kind, i as int);
                            lemma_remove_metrics(current@, kind);
                        }
                        shorter = copy_without_index(current, i);
                    },
                }
            },
        }
        self.performances.insert(name, shorter);
        assert(final(self)@.dom() =~= old(self)@.dom());
        Ok(())
    }
}

/// The lock predicate: every state the lock ever stores is well formed.
pub struct TrackerInv {}

impl vstd::rwlock::RwLockPredicate<PerformanceTracker> for TrackerInv {
    open spec fn inv(self, t: PerformanceTracker) -> bool {
        t.wf()
    }
}

/// The tracker behind a verified reader-writer lock.
///
/// `add_performance` and `remove_performance` take the exclusive side, so
/// concurrent mutations of the same sportsman are linearized and the
/// at-most-one-per-kind invariant holds in every state the lock releases:
/// however many callers race, each critical section maps a well-formed state
/// to a well-formed state. `get_performance` takes the shared side and may
/// run in parallel with other readers. No I/O happens while a lock is held.
pub struct SharedTracker {
    lock: vstd::rwlock::RwLock<PerformanceTracker, TrackerInv>,
}

impl SharedTracker {
    /// Wraps a well-formed tracker, typically the one rehydrated from the
    /// store at startup.
    pub fn new(tracker: PerformanceTracker) -> (r: Self)
        requires
            tracker.wf(),
    {
        Self { lock: vstd::rwlock::RwLock::new(tracker, Ghost(TrackerInv {})) }
    }

    /// Records a performance under the exclusive lock; see
    /// [`PerformanceTracker::add_performance`] for the per-state contract.
    pub fn add_performance(&self, sportsman: Sportsman, metric: MetricValue) {
        let (mut tracker, handle) = self.lock.acquire_write();
        tracker.add_performance(sportsman, metric);
        handle.release_write(tracker);
    }

    /// Reads the current record of one kind under the shared lock. Whatever
    /// state the read observes, a returned record is of the requested kind.
    pub fn get_performance(&self, sportsman: &Sportsman, kind: SportKind) -> (r: Result<
        MetricValue,
        Error,
    >)
        ensures
            r matches Ok(v) ==> v.kind() == kind,
    {
        let handle = self.lock.acquire_read();
        let result = handle.borrow().get_performance(sportsman, kind);
        handle.release_read();
        proof {
            if result is Ok {
                let s = handle.view()@[sportsman@]@;
                assert(s[kind_index(s, kind)].kind() == kind);
            }
        }
        result
    }

    /// Removes the record of one kind under the exclusive lock; see
    /// [`PerformanceTracker::remove_performance`] for the per-state
    /// contract. Whatever state the call observes, a failure is one of the
    /// two "not found" conditions.
    pub fn remove_performance(&self, sportsman: Sportsman, kind: SportKind) -> (r: Result<
        (),
        Error,
    >)
        ensures
            r matches Err(e) ==> e == Error::SportsmanNotFound
                || e == Error::SportsmanDoesntHasMetric,
    {
        let (mut tracker, handle) = self.lock.acquire_write();
        let result = tracker.remove_performance(sportsman, kind);
        handle.release_write(tracker);
        result
    }
}

} // verus!
