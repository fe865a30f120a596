//! The registry's governing properties, each proved from the contracts the
//! executable functions carry.

use vstd::prelude::*;
use crate::metrics::MetricValue;
use crate::metrics::SportKind;
use crate::performance_tracker::has_kind;
use crate::performance_tracker::kind_map;
use crate::performance_tracker::lemma_add_metrics;
use crate::performance_tracker::lemma_remove_metrics;
use crate::performance_tracker::metrics_wf;
use crate::performance_tracker::registry_step;
use crate::performance_tracker::spec_add_metrics;
use crate::performance_tracker::spec_remove_metrics;
use crate::store::Id;
use crate::store::has_row;
use crate::store::lemma_remove_row;
use crate::store::row_index;
use crate::store::rows_no_dup;

verus! {

/// One sportsman's collection after replaying a sequence of `add` calls,
/// each of which replaces the record of its kind or appends — exactly what
/// `PerformanceTracker::add_performance` ensures for the named sportsman.
pub open spec fn replay_adds(s0: Seq<MetricValue>, adds: Seq<MetricValue>) -> Seq<MetricValue>
    decreases adds.len(),
{
    if adds.len() == 0 {
        s0
    } else {
        spec_add_metrics(replay_adds(s0, adds.drop_last()), adds.last())
    }
}

/// The most recent record of one kind in a sequence of `add` calls.
pub open spec fn last_of_kind(adds: Seq<MetricValue>, k: SportKind) -> Option<MetricValue>
    decreases adds.len(),
{
    if adds.len() == 0 {
        Option::None
    } else if adds.last().kind() == k {
        Option::Some(adds.last())
    } else {
        last_of_kind(adds.drop_last(), k)
    }
}

/// After any sequence of `add` calls the collection holds at most one
/// record per kind, and the record held for a kind is the one from the most
/// recent `add` of that kind (or the original record, when the sequence
/// never touched the kind). `add_performance` ensures each step is
/// [`spec_add_metrics`] and `get_performance` returns `kind_map`'s record,
/// so this is what a reader observes after any run of writes.
pub proof fn law_add_sequence(s0: Seq<MetricValue>, adds: Seq<MetricValue>, k: SportKind)
    requires
        metrics_wf(s0),
    ensures
        metrics_wf(replay_adds(s0, adds)),
        last_of_kind(adds, k) matches Some(v) ==> has_kind(replay_adds(s0, adds), k) && kind_map(
            replay_adds(s0, adds),
        )[k] == v,
        last_of_kind(adds, k) is None ==> has_kind(replay_adds(s0, adds), k) == has_kind(s0, k)
            && (has_kind(s0, k) ==> kind_map(replay_adds(s0, adds))[k] == kind_map(s0)[k]),
    decreases adds.len(),
{
    if adds.len() == 0 {
    } else {
        let prev = replay_adds(s0, adds.drop_last());
        let v = adds.last();
        law_add_sequence(s0, adds.drop_last(), k);
        lemma_add_metrics(prev, v);
        assert(kind_map(replay_adds(s0, adds)) == kind_map(prev).insert(v.kind(), v));
        if v.kind() == k {
            assert(kind_map(replay_adds(s0, adds))[k] == v);
            assert(kind_map(replay_adds(s0, adds)).contains_key(k));
        } else {
            assert(kind_map(replay_adds(s0, adds)).contains_key(k) == kind_map(
                prev,
            ).contains_key(k));
        }
    }
}

/// Within one sportsman's collection the kind decides the record: two
/// positions holding the same kind are the same position. The tracker's
/// lock predicate keeps every state it releases well formed, and
/// `add_performance` runs under the exclusive lock, so however many
/// concurrent `add` calls race on one (sportsman, kind) pair, the collection
/// afterwards holds exactly one record of the kind — the argument of
/// whichever call was linearized last.
pub proof fn law_at_most_one_per_kind(s: Seq<MetricValue>, k: SportKind)
    requires
        metrics_wf(s),
    ensures
        forall|i: int, j: int|
            0 <= i < s.len() && 0 <= j < s.len() && (#[trigger] s[i]).kind() == k && (
            #[trigger] s[j]).kind() == k ==> i == j,
{
}

/// Removing a record succeeds once: after a successful removal the
/// collection is still well formed, the sportsman's entry survives, and the
/// kind is gone — so `remove_performance` called again for the same pair
/// reports the missing record, never a second success.
pub proof fn law_remove_once_tracker(s: Seq<MetricValue>, k: SportKind)
    requires
        metrics_wf(s),
        has_kind(s, k),
    ensures
        metrics_wf(spec_remove_metrics(s, k)),
        !has_kind(spec_remove_metrics(s, k), k),
{
    lemma_remove_metrics(s, k);
    assert(!kind_map(spec_remove_metrics(s, k)).contains_key(k));
}

/// The store-level reading of the same property: deleting the row of one
/// (entity, kind) pair leaves that pair without a row, so
/// `remove_metric_if_exists`, which returns whether a row was present,
/// answers `true` then `false` for two deletions in sequence — the second
/// deletion is "nothing to remove", not an error.
pub proof fn law_remove_once_store(rows: Seq<(Id, MetricValue)>, id: Id, k: SportKind)
    requires
        rows_no_dup(rows),
        has_row(rows, id, k),
    ensures
        !has_row(rows.remove(row_index(rows, id, k)), id, k),
{
    lemma_remove_row(rows, id, k);
}

/// The state after writing a sequence of records through the persistence
/// boundary: an entity row is created for a name not seen before
/// (`add_sportsman`, which inserts the name with no records), then the
/// record is written (`add_performance`, one [`registry_step`] on the
/// store's logical content).
pub open spec fn boundary_writes(ws: Seq<(Seq<char>, MetricValue)>) -> Map<
    Seq<char>,
    Map<SportKind, MetricValue>,
>
    decreases ws.len(),
{
    if ws.len() == 0 {
        Map::empty()
    } else {
        let m = boundary_writes(ws.drop_last());
        let n = ws.last().0;
        let v = ws.last().1;
        if m.contains_key(n) {
            registry_step(m, n, v)
        } else {
            registry_step(m.insert(n, Map::empty()), n, v)
        }
    }
}

/// The state after replaying the same records directly against a fresh
/// tracker: each `add_performance` is one [`registry_step`].
pub open spec fn replay_writes(ws: Seq<(Seq<char>, MetricValue)>) -> Map<
    Seq<char>,
    Map<SportKind, MetricValue>,
>
    decreases ws.len(),
{
    if ws.len() == 0 {
        Map::empty()
    } else {
        registry_step(replay_writes(ws.drop_last()), ws.last().0, ws.last().1)
    }
}

/// Creating an entity with no records and then writing one is the same step
/// as the tracker's implicit creation on first `add`.
pub proof fn law_fresh_entity_write_matches_tracker(
    m: Map<Seq<char>, Map<SportKind, MetricValue>>,
    n: Seq<char>,
    v: MetricValue,
)
    requires
        !m.contains_key(n),
    ensures
        registry_step(m.insert(n, Map::empty()), n, v) == registry_step(m, n, v),
{
    assert(registry_step(m.insert(n, Map::empty()), n, v) =~= registry_step(m, n, v));
}

/// Rehydration round trip: writing any sequence of records through the
/// persistence boundary leaves the store with the same logical content a
/// fresh tracker reaches by replaying the same `add` calls. With
/// `load_performance_tracker`'s contract — the tracker it produces presents
/// the store's logical content exactly — the loaded tracker is
/// observationally equal, sportsman for sportsman and kind for kind, to the
/// directly replayed one.
pub proof fn law_rehydration_round_trip(ws: Seq<(Seq<char>, MetricValue)>)
    ensures
        boundary_writes(ws) == replay_writes(ws),
    decreases ws.len(),
{
    if ws.len() == 0 {
    } else {
        law_rehydration_round_trip(ws.drop_last());
        let m = replay_writes(ws.drop_last());
        if !m.contains_key(ws.last().0) {
            law_fresh_entity_write_matches_tracker(m, ws.last().0, ws.last().1);
        }
    }
}

} // verus!
