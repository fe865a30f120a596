//! The persistence boundary, modelled as a relational shadow: one entities
//! table (surrogate id, unique name) and one row per (entity, kind) across
//! the kind tables. Writes go delete-then-insert, never a partial update;
//! rehydration joins the kind rows onto the entities wholly in memory.
//!
//! The store owns its shadow exclusively; the tracker is only ever produced
//! by [`Store::load_performance_tracker`], never read back.

use vstd::prelude::*;
use vstd::hash_map::StringHashMap;
use crate::metrics::MetricValue;
use crate::metrics::SportKind;
use crate::performance_tracker::PerformanceTracker;
use crate::performance_tracker::has_kind;
use crate::performance_tracker::kind_map;
use crate::performance_tracker::lemma_add_metrics;
use crate::performance_tracker::metrics_wf;
use crate::performance_tracker::registry_step;
use crate::performance_tracker::spec_add_metrics;
use crate::performance_tracker::tracker_contents;
use crate::performance_tracker::tracker_map_wf;
use crate::sportsman::Sportsman;

verus! {

/// A surrogate row id.
#[derive(Debug, Clone, Copy, PartialEq, Eq, Hash, Structural)]
pub struct Id(pub i32);

/// How a store operation fails: either a row-level "not found" condition,
/// or an opaque failure (a violated constraint, an exhausted id space).
#[derive(Debug, Clone, Copy, PartialEq, Eq, Structural)]
pub enum StoreError {
    RowNotFound,
    Failure,
}

/// The mathematical state of the relational shadow.
pub struct StoreView {
    /// The next surrogate id the entities table will assign.
    pub next_id: int,
    /// The entities table: surrogate id and name, in insertion order.
    pub sportsmen: Seq<(Id, Seq<char>)>,
    /// The union of the kind tables: entity id and record; the record's kind
    /// names the table the row belongs to.
    pub rows: Seq<(Id, MetricValue)>,
}

/// Whether some entity row carries the name.
pub open spec fn has_name(s: Seq<(Id, Seq<char>)>, n: Seq<char>) -> bool {
    exists|i: int| 0 <= i < s.len() && (#[trigger] s[i]).1 == n
}

/// Whether one of the first `m` entity rows carries the name.
pub open spec fn has_name_among(s: Seq<(Id, Seq<char>)>, n: Seq<char>, m: int) -> bool {
    exists|i: int| 0 <= i < m && (#[trigger] s[i]).1 == n
}

/// The position of the name's entity row; under [`store_wf`] it is unique.
pub open spec fn name_index(s: Seq<(Id, Seq<char>)>, n: Seq<char>) -> int {
    choose|i: int| 0 <= i < s.len() && (#[trigger] s[i]).1 == n
}

/// The surrogate id of the name's entity row.
pub open spec fn id_of_name(s: Seq<(Id, Seq<char>)>, n: Seq<char>) -> Id {
    s[name_index(s, n)].0
}

/// Whether some entity row carries the id.
pub open spec fn has_id(s: Seq<(Id, Seq<char>)>, id: Id) -> bool {
    exists|i: int| 0 <= i < s.len() && (#[trigger] s[i]).0 == id
}

/// Whether the entity has a row in the kind's table.
pub open spec fn has_row(rows: Seq<(Id, MetricValue)>, id: Id, k: SportKind) -> bool {
    exists|i: int|
        0 <= i < rows.len() && (#[trigger] rows[i]).0 == id && rows[i].1.kind() == k
}

/// The position of the entity's row in the kind's table; under [`store_wf`]
/// it is unique.
pub open spec fn row_index(rows: Seq<(Id, MetricValue)>, id: Id, k: SportKind) -> int {
    choose|i: int|
        0 <= i < rows.len() && (#[trigger] rows[i]).0 == id && rows[i].1.kind() == k
}

/// The record the entity's row in the kind's table holds.
pub open spec fn row_value(rows: Seq<(Id, MetricValue)>, id: Id, k: SportKind) -> MetricValue {
    rows[row_index(rows, id, k)].1
}

/// One entity's rows read as a map from kind to record.
pub open spec fn entity_row_map(rows: Seq<(Id, MetricValue)>, id: Id) -> Map<
    SportKind,
    MetricValue,
> {
    Map::new(|k: SportKind| has_row(rows, id, k), |k: SportKind| row_value(rows, id, k))
}

/// The store's invariants: ids fresh and unique, names unique, at most one
/// row per (entity, kind), and every row's entity id resolvable (the foreign
/// key).
pub open spec fn store_wf(v: StoreView) -> bool {
    &&& 1 <= v.next_id <= i32::MAX
    &&& forall|i: int, j: int|
        0 <= i < j < v.sportsmen.len() ==> (#[trigger] v.sportsmen[i]).0 != (
        #[trigger] v.sportsmen[j]).0
    &&& forall|i: int, j: int|
        0 <= i < j < v.sportsmen.len() ==> (#[trigger] v.sportsmen[i]).1 != (
        #[trigger] v.sportsmen[j]).1
    &&& forall|i: int|
        0 <= i < v.sportsmen.len() ==> 1 <= (#[trigger] v.sportsmen[i]).0.0 < v.next_id
    &&& rows_no_dup(v.rows)
    &&& forall|i: int| 0 <= i < v.rows.len() ==> has_id(v.sportsmen, (#[trigger] v.rows[i]).0)
}

/// Under [`store_wf`] the name decides the entity row.
pub proof fn lemma_name_index_unique(s: Seq<(Id, Seq<char>)>, n: Seq<char>, i: int)
    requires
        forall|a: int, b: int| 0 <= a < b < s.len() ==> (#[trigger] s[a]).1 != (#[trigger] s[b]).1,
        0 <= i < s.len(),
        s[i].1 == n,
    ensures
        has_name(s, n),
        name_index(s, n) == i,
{
    assert(has_name(s, n));
    let ci = name_index(s, n);
    assert(0 <= ci < s.len() && s[ci].1 == n);
    if ci < i {
        assert(s[ci].1 != s[i].1);
    } else if i < ci {
        assert(s[i].1 != s[ci].1);
    }
}

/// Under [`store_wf`] the pair (entity id, kind) decides the row.
pub proof fn lemma_row_index_unique(rows: Seq<(Id, MetricValue)>, id: Id, k: SportKind, i: int)
    requires
        rows_no_dup(rows),
        0 <= i < rows.len(),
        rows[i].0 == id,
        rows[i].1.kind() == k,
    ensures
        has_row(rows, id, k),
        row_index(rows, id, k) == i,
{
    assert(has_row(rows, id, k));
    let ci = row_index(rows, id, k);
    assert(0 <= ci < rows.len() && rows[ci].0 == id && rows[ci].1.kind() == k);
    if ci < i {
        assert(!(rows[ci].0 == rows[i].0 && rows[ci].1.kind() == rows[i].1.kind()));
    } else if i < ci {
        assert(!(rows[i].0 == rows[ci].0 && rows[i].1.kind() == rows[ci].1.kind()));
    }
}

/// Whether `x` stands among the first `m` rows.
pub open spec fn row_among(rows: Seq<(Id, MetricValue)>, x: (Id, MetricValue), m: int) -> bool {
    exists|p: int| 0 <= p < m && (#[trigger] rows[p]) == x
}

/// Whether the listing holds `x`.
pub open spec fn listing_holds(out: Seq<(Id, MetricValue)>, x: (Id, MetricValue)) -> bool {
    exists|q: int| 0 <= q < out.len() && (#[trigger] out[q]) == x
}

/// At most one row per (entity id, kind) across the kind tables.
pub open spec fn rows_no_dup(rows: Seq<(Id, MetricValue)>) -> bool {
    forall|i: int, j: int|
        0 <= i < j < rows.len() ==> !((#[trigger] rows[i]).0 == (#[trigger] rows[j]).0
            && rows[i].1.kind() == rows[j].1.kind())
}

/// Both row sets present the same rows, with the same records, for every
/// (entity, kind) pair other than the named one.
pub open spec fn rows_agree_except(
    before: Seq<(Id, MetricValue)>,
    after: Seq<(Id, MetricValue)>,
    id: Id,
    k: SportKind,
) -> bool {
    forall|id2: Id, k2: SportKind|
        #![trigger has_row(after, id2, k2)]
        !(id2 == id && k2 == k) ==> has_row(after, id2, k2) == has_row(before, id2, k2) && (
        has_row(before, id2, k2) ==> row_value(after, id2, k2) == row_value(before, id2, k2))
}

/// Agreement outside one (entity, kind) pair composes.
pub proof fn lemma_agree_except_trans(
    a: Seq<(Id, MetricValue)>,
    b: Seq<(Id, MetricValue)>,
    c: Seq<(Id, MetricValue)>,
    id: Id,
    k: SportKind,
)
    requires
        rows_agree_except(a, b, id, k),
        rows_agree_except(b, c, id, k),
    ensures
        rows_agree_except(a, c, id, k),
{
    assert forall|id2: Id, k2: SportKind| !(id2 == id && k2 == k) implies (has_row(c, id2, k2)
        == has_row(a, id2, k2) && (has_row(a, id2, k2) ==> row_value(c, id2, k2) == row_value(
        a,
        id2,
        k2,
    ))) by {
        assert(has_row(b, id2, k2) == has_row(a, id2, k2));
        assert(has_row(c, id2, k2) == has_row(b, id2, k2));
    }
}

/// Deleting the (present) row of one (entity, kind) pair keeps every other
/// row's presence and value, and leaves that pair without a row.
pub proof fn lemma_remove_row(rows: Seq<(Id, MetricValue)>, id: Id, k: SportKind)
    requires
        rows_no_dup(rows),
        has_row(rows, id, k),
    ensures
        rows_no_dup(rows.remove(row_index(rows, id, k))),
        !has_row(rows.remove(row_index(rows, id, k)), id, k),
        rows_agree_except(rows, rows.remove(row_index(rows, id, k)), id, k),
        rows.remove(row_index(rows, id, k)).len() == rows.len() - 1,
        forall|p: int|
            0 <= p < rows.len() - 1 ==> exists|q: int|
                0 <= q < rows.len() && #[trigger] rows.remove(row_index(rows, id, k))[p] == rows[q],
{
    let i0 = row_index(rows, id, k);
    assert(0 <= i0 < rows.len() && rows[i0].0 == id && rows[i0].1.kind() == k);
    let rows2 = rows.remove(i0);
    assert(forall|p: int|
        0 <= p < rows2.len() ==> (#[trigger] rows2[p]) == (if p < i0 {
            rows[p]
        } else {
            rows[p + 1]
        }));
    assert forall|p: int| 0 <= p < rows2.len() implies exists|q: int|
        0 <= q < rows.len() && #[trigger] rows2[p] == rows[q] by {
        if p < i0 {
            assert(rows2[p] == rows[p]);
        } else {
            assert(rows2[p] == rows[p + 1]);
        }
    }
    assert(rows_no_dup(rows2));
    assert forall|k2: SportKind| #[trigger] has_row(rows2, id, k2) implies k2 != k by {
        let j = row_index(rows2, id, k2);
        assert(0 <= j < rows2.len() && rows2[j].0 == id && rows2[j].1.kind() == k2);
        if j < i0 {
            assert(!(rows[j].0 == rows[i0].0 && rows[j].1.kind() == rows[i0].1.kind()));
        } else {
            assert(!(rows[i0].0 == rows[j + 1].0 && rows[i0].1.kind() == rows[j + 1].1.kind()));
        }
    }
    assert forall|id2: Id, k2: SportKind|
        #![trigger has_row(rows2, id2, k2)]
        !(id2 == id && k2 == k) implies has_row(rows2, id2, k2) == has_row(rows, id2, k2) && (
    has_row(rows, id2, k2) ==> row_value(rows2, id2, k2) == row_value(rows, id2, k2)) by {
        if has_row(rows, id2, k2) {
            let j = row_index(rows, id2, k2);
            assert(0 <= j < rows.len() && rows[j].0 == id2 && rows[j].1.kind() == k2);
            assert(j != i0);
            if j < i0 {
                assert(rows2[j] == rows[j]);
                lemma_row_index_unique(rows2, id2, k2, j);
            } else {
                assert(rows2[j - 1] == rows[j]);
                lemma_row_index_unique(rows2, id2, k2, j - 1);
            }
            assert(row_value(rows2, id2, k2) == row_value(rows, id2, k2));
        } else {
            if has_row(rows2, id2, k2) {
                let j = row_index(rows2, id2, k2);
                assert(0 <= j < rows2.len() && rows2[j].0 == id2 && rows2[j].1.kind() == k2);
                if j < i0 {
                    lemma_row_index_unique(rows, id2, k2, j);
                } else {
                    lemma_row_index_unique(rows, id2, k2, j + 1);
                }
            }
        }
    }
}

/// Inserting a row for a pair that has none keeps every other row's
/// presence and value, and gives that pair exactly the inserted record.
pub proof fn lemma_push_row(rows: Seq<(Id, MetricValue)>, id: Id, metric: MetricValue)
    requires
        rows_no_dup(rows),
        !has_row(rows, id, metric.kind()),
    ensures
        rows_no_dup(rows.push((id, metric))),
        has_row(rows.push((id, metric)), id, metric.kind()),
        row_value(rows.push((id, metric)), id, metric.kind()) == metric,
        rows_agree_except(rows, rows.push((id, metric)), id, metric.kind()),
{
    let rows2 = rows.push((id, metric));
    let m = rows.len() as int;
    assert(rows2[m] == (id, metric));
    assert forall|a: int, b: int| 0 <= a < b < rows2.len() implies !((#[trigger] rows2[a]).0 == (
    #[trigger] rows2[b]).0 && rows2[a].1.kind() == rows2[b].1.kind()) by {
        if b == m {
            assert(rows2[a] == rows[a]);
            assert(!(rows[a].0 == id && rows[a].1.kind() == metric.kind()));
        } else {
            assert(rows2[a] == rows[a]);
            assert(rows2[b] == rows[b]);
        }
    }
    lemma_row_index_unique(rows2, id, metric.kind(), m);
    assert forall|id2: Id, k2: SportKind|
        #![trigger has_row(rows2, id2, k2)]
        !(id2 == id && k2 == metric.kind()) implies has_row(rows2, id2, k2) == has_row(
        rows,
        id2,
        k2,
    ) && (has_row(rows, id2, k2) ==> row_value(rows2, id2, k2) == row_value(rows, id2, k2)) by {
        if has_row(rows, id2, k2) {
            let j = row_index(rows, id2, k2);
            assert(0 <= j < rows.len() && rows[j].0 == id2 && rows[j].1.kind() == k2);
            assert(rows2[j] == rows[j]);
            lemma_row_index_unique(rows2, id2, k2, j);
        } else {
            if has_row(rows2, id2, k2) {
                let j = row_index(rows2, id2, k2);
                assert(0 <= j < rows2.len() && rows2[j].0 == id2 && rows2[j].1.kind() == k2);
                assert(j != m);
                assert(rows[j].0 == id2 && rows[j].1.kind() == k2);
            }
        }
    }
}

/// The store's whole logical content: per name, the map from kind to the
/// record its row holds. This is the same abstraction the tracker is read
/// through, so rehydration can be stated as plain equality.
pub open spec fn store_contents(v: StoreView) -> Map<Seq<char>, Map<SportKind, MetricValue>> {
    Map::new(
        |n: Seq<char>| has_name(v.sportsmen, n),
        |n: Seq<char>| entity_row_map(v.rows, id_of_name(v.sportsmen, n)),
    )
}

/// Two distinct names resolve to two distinct ids.
pub proof fn lemma_distinct_names_distinct_ids(
    s: Seq<(Id, Seq<char>)>,
    n1: Seq<char>,
    n2: Seq<char>,
)
    requires
        forall|a: int, b: int| 0 <= a < b < s.len() ==> (#[trigger] s[a]).0 != (#[trigger] s[b]).0,
        has_name(s, n1),
        has_name(s, n2),
        n1 != n2,
    ensures
        id_of_name(s, n1) != id_of_name(s, n2),
{
    let i1 = name_index(s, n1);
    let i2 = name_index(s, n2);
    assert(0 <= i1 < s.len() && s[i1].1 == n1);
    assert(0 <= i2 < s.len() && s[i2].1 == n2);
    if i1 < i2 {
        assert(s[i1].0 != s[i2].0);
    } else if i2 < i1 {
        assert(s[i2].0 != s[i1].0);
    }
}

/// A row-level update of one (name, kind) pair is, on the store's logical
/// content, exactly one [`registry_step`].
pub proof fn lemma_contents_after_row_update(
    oldv: StoreView,
    newv: StoreView,
    n: Seq<char>,
    metric: MetricValue,
)
    requires
        store_wf(oldv),
        newv.sportsmen == oldv.sportsmen,
        has_name(oldv.sportsmen, n),
        has_row(newv.rows, id_of_name(oldv.sportsmen, n), metric.kind()),
        row_value(newv.rows, id_of_name(oldv.sportsmen, n), metric.kind()) == metric,
        rows_agree_except(oldv.rows, newv.rows, id_of_name(oldv.sportsmen, n), metric.kind()),
    ensures
        store_contents(newv) =~= registry_step(store_contents(oldv), n, metric),
{
    let id = id_of_name(oldv.sportsmen, n);
    let oldc = store_contents(oldv);
    let stepped = registry_step(oldc, n, metric);
    assert(oldc.contains_key(n));
    assert(entity_row_map(newv.rows, id) =~= entity_row_map(oldv.rows, id).insert(
        metric.kind(),
        metric,
    )) by {
        assert forall|k: SportKind|
            #[trigger] has_row(newv.rows, id, k) == (k == metric.kind() || has_row(
                oldv.rows,
                id,
                k,
            )) && (has_row(newv.rows, id, k) && k != metric.kind() ==> row_value(newv.rows, id, k)
            == row_value(oldv.rows, id, k)) by {
            if k != metric.kind() {
                assert(has_row(newv.rows, id, k) == has_row(oldv.rows, id, k));
            }
        }
    }
    assert forall|n2: Seq<char>| #[trigger] stepped.contains_key(n2) implies store_contents(
        newv,
    ).contains_key(n2) && store_contents(newv)[n2] == stepped[n2] by {
        if n2 == n {
        } else {
            let id2 = id_of_name(oldv.sportsmen, n2);
            lemma_distinct_names_distinct_ids(oldv.sportsmen, n, n2);
            assert(entity_row_map(newv.rows, id2) =~= entity_row_map(oldv.rows, id2)) by {
                assert forall|k: SportKind|
                    #[trigger] has_row(newv.rows, id2, k) == has_row(oldv.rows, id2, k) && (
                has_row(oldv.rows, id2, k) ==> row_value(newv.rows, id2, k) == row_value(
                    oldv.rows,
                    id2,
                    k,
                )) by {
                    assert(!(id2 == id && k == metric.kind()));
                }
            }
        }
    }
    assert(store_contents(newv).dom() =~= stepped.dom());
    assert forall|n2: Seq<char>| #[trigger] store_contents(newv).contains_key(n2) implies
        store_contents(newv)[n2] == stepped[n2] by {
        assert(stepped.contains_key(n2));
    }
    assert(store_contents(newv) =~= stepped);
}

/// A row-level deletion of one (name, kind) pair is, on the store's logical
/// content, exactly the removal of that kind from the name's map.
pub proof fn lemma_contents_after_row_removal(
    oldv: StoreView,
    newv: StoreView,
    n: Seq<char>,
    k: SportKind,
)
    requires
        store_wf(oldv),
        newv.sportsmen == oldv.sportsmen,
        has_name(oldv.sportsmen, n),
        !has_row(newv.rows, id_of_name(oldv.sportsmen, n), k),
        rows_agree_except(oldv.rows, newv.rows, id_of_name(oldv.sportsmen, n), k),
    ensures
        store_contents(newv) =~= store_contents(oldv).insert(
            n,
            store_contents(oldv)[n].remove(k),
        ),
{
    let id = id_of_name(oldv.sportsmen, n);
    let oldc = store_contents(oldv);
    let stepped = oldc.insert(n, oldc[n].remove(k));
    assert(oldc.contains_key(n));
    assert(entity_row_map(newv.rows, id) =~= entity_row_map(oldv.rows, id).remove(k)) by {
        assert forall|k2: SportKind|
            #[trigger] has_row(newv.rows, id, k2) == (k2 != k && has_row(oldv.rows, id, k2)) && (
        has_row(newv.rows, id, k2) ==> row_value(newv.rows, id, k2) == row_value(
            oldv.rows,
            id,
            k2,
        )) by {
            if k2 != k {
                assert(has_row(newv.rows, id, k2) == has_row(oldv.rows, id, k2));
            }
        }
    }
    assert forall|n2: Seq<char>| #[trigger] stepped.contains_key(n2) implies store_contents(
        newv,
    ).contains_key(n2) && store_contents(newv)[n2] == stepped[n2] by {
        if n2 == n {
        } else {
            let id2 = id_of_name(oldv.sportsmen, n2);
            lemma_distinct_names_distinct_ids(oldv.sportsmen, n, n2);
            assert(entity_row_map(newv.rows, id2) =~= entity_row_map(oldv.rows, id2)) by {
                assert forall|k2: SportKind|
                    #[trigger] has_row(newv.rows, id2, k2) == has_row(oldv.rows, id2, k2) && (
                has_row(oldv.rows, id2, k2) ==> row_value(newv.rows, id2, k2) == row_value(
                    oldv.rows,
                    id2,
                    k2,
                )) by {
                    assert(!(id2 == id && k2 == k));
                }
            }
        }
    }
    assert(store_contents(newv).dom() =~= stepped.dom());
    assert forall|n2: Seq<char>| #[trigger] store_contents(newv).contains_key(n2) implies
        store_contents(newv)[n2] == stepped[n2] by {
        assert(stepped.contains_key(n2));
    }
}

/// The relational shadow held in memory. Any relational or document store
/// can stand behind the same contracts; this one holds its tables as plain
/// vectors.
pub struct Store {
    next_id: i32,
    sportsmen: Vec<(Id, Sportsman)>,
    rows: Vec<(Id, MetricValue)>,
}

impl View for Store {
    type V = StoreView;

    closed spec fn view(&self) -> StoreView {
        StoreView {
            next_id: self.next_id as int,
            sportsmen: self.sportsmen@.map_values(|p: (Id, Sportsman)| (p.0, p.1@)),
            rows: self.rows@,
        }
    }
}

impl Store {
    pub open spec fn wf(&self) -> bool {
        store_wf(self@)
    }

    /// An empty shadow: no entities, no rows, ids starting at one.
    pub fn new() -> (r: Self)
        ensures
            r.wf(),
            r@.sportsmen == Seq::<(Id, Seq<char>)>::empty(),
            r@.rows == Seq::<(Id, MetricValue)>::empty(),
            r@.next_id == 1,
    {
        let r = Self { next_id: 1, sportsmen: Vec::new(), rows: Vec::new() };
        assert(r@.sportsmen =~= Seq::<(Id, Seq<char>)>::empty());
        r
    }

    /// Reads the whole entities table: each surrogate id with its name.
    pub fn get_all_sportsmen(&self) -> (r: Vec<(Id, Sportsman)>)
        ensures
            r@.len() == self@.sportsmen.len(),
            forall|i: int|
                0 <= i < r@.len() ==> (#[trigger] r@[i]).0 == self@.sportsmen[i].0 && r@[i].1@
                    == self@.sportsmen[i].1,
    {
        let mut out: Vec<(Id, Sportsman)> = Vec::new();
        let mut i: usize = 0;
        while i < self.sportsmen.len()
            invariant
                i <= self.sportsmen@.len(),
                out@.len() == i,
                forall|j: int|
                    0 <= j < i ==> (#[trigger] out@[j]).0 == self@.sportsmen[j].0 && out@[j].1@
                        == self@.sportsmen[j].1,
            decreases self.sportsmen@.len() - i,
        {
            let id = self.sportsmen[i].0;
            let name = self.sportsmen[i].1.name();
            out.push((id, Sportsman::unchecked_new(name)));
            i = i + 1;
        }
        out
    }

    /// Inserts a new entity row. Fails (as the unique-name constraint would)
    /// when the name is already present, and when the id space is exhausted;
    /// callers must not call this for a name known to exist.
    pub fn add_sportsman(&mut self, sportsman: &Sportsman) -> (r: Result<(), StoreError>)
        requires
            old(self).wf(),
        ensures
            final(self).wf(),
            r is Ok <==> !has_name(old(self)@.sportsmen, sportsman@) && old(self)@.next_id
                < i32::MAX,
            r is Err ==> final(self)@ == old(self)@ && r == Err::<(), StoreError>(
                StoreError::Failure,
            ),
            r is Ok ==> final(self)@.rows == old(self)@.rows && final(self)@.next_id == old(
                self,
            )@.next_id + 1 && final(self)@.sportsmen == old(self)@.sportsmen.push(
                (Id(old(self)@.next_id as i32), sportsman@),
            ),
            r is Ok ==> store_contents(final(self)@) == store_contents(old(self)@).insert(
                sportsman@,
                Map::empty(),
            ),
    {
        match self.get_sportsman_id(sportsman) {
            Ok(_) => {
                return Err(StoreError::Failure);
            },
            Err(_) => {},
        }
        if self.next_id == i32::MAX {
            return Err(StoreError::Failure);
        }
        let id = Id(self.next_id);
        self.next_id = self.next_id + 1;
        let name = sportsman.name();
        self.sportsmen.push((id, Sportsman::unchecked_new(name)));
        assert(final(self)@.sportsmen =~= old(self)@.sportsmen.push((id, sportsman@)));
        proof {
            let oldv = old(self)@;
            let newv = final(self)@;
            let m = oldv.sportsmen.len() as int;
            assert forall|a: int, b: int| 0 <= a < b < newv.sportsmen.len() implies (
            #[trigger] newv.sportsmen[a]).0 != (#[trigger] newv.sportsmen[b]).0 by {
                if b == m {
                    assert(newv.sportsmen[a] == oldv.sportsmen[a]);
                    assert(oldv.sportsmen[a].0.0 < oldv.next_id);
                }
            }
            assert forall|a: int, b: int| 0 <= a < b < newv.sportsmen.len() implies (
            #[trigger] newv.sportsmen[a]).1 != (#[trigger] newv.sportsmen[b]).1 by {
                if b == m {
                    assert(newv.sportsmen[a] == oldv.sportsmen[a]);
                    assert(oldv.sportsmen[a].1 != sportsman@);
                }
            }
            assert forall|a: int| 0 <= a < newv.sportsmen.len() implies 1 <= (
            #[trigger] newv.sportsmen[a]).0.0 < newv.next_id by {
                if a < m {
                    assert(newv.sportsmen[a] == oldv.sportsmen[a]);
                    assert(oldv.sportsmen[a].0.0 < oldv.next_id);
                }
            }
            assert forall|a: int| 0 <= a < newv.rows.len() implies has_id(
                newv.sportsmen,
                (#[trigger] newv.rows[a]).0,
            ) by {
                assert(has_id(oldv.sportsmen, oldv.rows[a].0));
                let j = choose|j: int|
                    0 <= j < oldv.sportsmen.len() && (#[trigger] oldv.sportsmen[j]).0
                        == oldv.rows[a].0;
                assert(newv.sportsmen[j].0 == newv.rows[a].0);
            }
            assert(final(self).wf());
            // On the logical content the new entity appears with no records:
            // its id is fresh, so no row of any kind resolves to it.
            let stepped = store_contents(oldv).insert(sportsman@, Map::empty());
            lemma_name_index_unique(newv.sportsmen, sportsman@, m);
            let fresh = id_of_name(newv.sportsmen, sportsman@);
            assert(fresh == id);
            assert forall|k: SportKind| !(#[trigger] has_row(newv.rows, fresh, k)) by {
                if has_row(newv.rows, fresh, k) {
                    let p = row_index(newv.rows, fresh, k);
                    assert(0 <= p < newv.rows.len() && newv.rows[p].0 == fresh);
                    assert(has_id(oldv.sportsmen, oldv.rows[p].0));
                    let q = choose|q: int|
                        0 <= q < oldv.sportsmen.len() && (#[trigger] oldv.sportsmen[q]).0
                            == oldv.rows[p].0;
                    assert(oldv.sportsmen[q].0.0 < oldv.next_id);
                }
            }
            assert(entity_row_map(newv.rows, fresh) =~= Map::<SportKind, MetricValue>::empty());
            assert forall|n2: Seq<char>|
                n2 != sportsman@ && #[trigger] has_name(oldv.sportsmen, n2) implies has_name(
                newv.sportsmen,
                n2,
            ) && id_of_name(newv.sportsmen, n2) == id_of_name(oldv.sportsmen, n2) by {
                let j = name_index(oldv.sportsmen, n2);
                assert(0 <= j < oldv.sportsmen.len() && oldv.sportsmen[j].1 == n2);
                assert(newv.sportsmen[j] == oldv.sportsmen[j]);
                lemma_name_index_unique(newv.sportsmen, n2, j);
                lemma_name_index_unique(oldv.sportsmen, n2, j);
            }
            assert forall|n2: Seq<char>| #[trigger] has_name(newv.sportsmen, n2) implies n2
                == sportsman@ || has_name(oldv.sportsmen, n2) by {
                let j = name_index(newv.sportsmen, n2);
                assert(0 <= j < newv.sportsmen.len() && newv.sportsmen[j].1 == n2);
                if j < m {
                    assert(oldv.sportsmen[j].1 == n2);
                }
            }
            assert(store_contents(newv).dom() =~= stepped.dom());
            assert forall|n2: Seq<char>| #[trigger] store_contents(newv).contains_key(n2) implies
                store_contents(newv)[n2] == stepped[n2] by {
                assert(stepped.contains_key(n2));
            }
            assert(store_contents(newv) =~= stepped);
        }
        Ok(())
    }

    /// Resolves a name to its surrogate id; fails with the row-level "not
    /// found" condition when the name has no entity row.
    pub fn get_sportsman_id(&self, sportsman: &Sportsman) -> (r: Result<i32, StoreError>)
        requires
            self.wf(),
        ensures
            r is Ok <==> has_name(self@.sportsmen, sportsman@),
            r matches Ok(id) ==> Id(id) == id_of_name(self@.sportsmen, sportsman@),
            r is Err ==> r == Err::<i32, StoreError>(StoreError::RowNotFound),
    {
        let n = self.sportsmen.len();
        let mut i: usize = 0;
        while i < n
            invariant
                n == self.sportsmen@.len(),
                i <= n,
                self.wf(),
                forall|j: int| 0 <= j < i ==> (#[trigger] self@.sportsmen[j]).1 != sportsman@,
            decreases n - i,
        {
            if self.sportsmen[i].1 == *sportsman {
                proof {
                    lemma_name_index_unique(self@.sportsmen, sportsman@, i as int);
                }
                return Ok(self.sportsmen[i].0.0);
            }
            assert(self@.sportsmen[i as int].1 != sportsman@);
            i = i + 1;
        }
        Err(StoreError::RowNotFound)
    }

    /// Whether some entity row carries the id.
    fn contains_id(&self, id: Id) -> (r: bool)
        ensures
            r == has_id(self@.sportsmen, id),
    {
        let n = self.sportsmen.len();
        let mut i: usize = 0;
        while i < n
            invariant
                n == self.sportsmen@.len(),
                i <= n,
                forall|j: int| 0 <= j < i ==> (#[trigger] self@.sportsmen[j]).0 != id,
            decreases n - i,
        {
            if self.sportsmen[i].0 == id {
                assert(self@.sportsmen[i as int].0 == id);
                return true;
            }
            assert(self@.sportsmen[i as int].0 != id);
            i = i + 1;
        }
        false
    }

    /// The position of the entity's row in the kind's table, if any.
    fn find_row_index(&self, id: Id, kind: SportKind) -> (r: Option<usize>)
        requires
            self.wf(),
        ensures
            r matches Some(i) ==> i < self@.rows.len() && self@.rows[i as int].0 == id
                && self@.rows[i as int].1.kind() == kind && row_index(self@.rows, id, kind)
                == i as int,
            r is None ==> !has_row(self@.rows, id, kind),
    {
        let n = self.rows.len();
        let mut i: usize = 0;
        while i < n
            invariant
                n == self.rows@.len(),
                i <= n,
                self.wf(),
                forall|j: int|
                    0 <= j < i ==> !((#[trigger] self@.rows[j]).0 == id && self@.rows[j].1.kind()
                        == kind),
            decreases n - i,
        {
            if self.rows[i].0 == id && self.rows[i].1.kind() == kind {
                proof {
                    lemma_row_index_unique(self@.rows, id, kind, i as int);
                }
                return Some(i);
            }
            i = i + 1;
        }
        None
    }

    /// Whether the entity has a row in the kind's table.
    pub fn if_metric_exists(&self, sportsman_id: i32, kind: SportKind) -> (r: bool)
        requires
            self.wf(),
        ensures
            r == has_row(self@.rows, Id(sportsman_id), kind),
    {
        self.find_row_index(Id(sportsman_id), kind).is_some()
    }

    /// Inserts the entity's row into the record's kind table. The caller
    /// must have deleted any previous row of the pair first (the relational
    /// invariant is kept by delete-then-insert, not by a uniqueness
    /// constraint). Fails, as the foreign key would, when no entity has the
    /// id.
    pub fn add_metric(&mut self, sportsman_id: i32, metric: MetricValue) -> (r: Result<
        (),
        StoreError,
    >)
        requires
            old(self).wf(),
            !has_row(old(self)@.rows, Id(sportsman_id), metric.kind()),
        ensures
            final(self).wf(),
            r is Ok <==> has_id(old(self)@.sportsmen, Id(sportsman_id)),
            r is Err ==> final(self)@ == old(self)@ && r == Err::<(), StoreError>(
                StoreError::Failure,
            ),
            r is Ok ==> final(self)@.sportsmen == old(self)@.sportsmen && final(self)@.next_id
                == old(self)@.next_id && final(self)@.rows == old(self)@.rows.push(
                (Id(sportsman_id), metric),
            ),
    {
        let id = Id(sportsman_id);
        if !self.contains_id(id) {
            return Err(StoreError::Failure);
        }
        self.rows.push((id, metric));
        proof {
            let oldv = old(self)@;
            let newv = final(self)@;
            let m = oldv.rows.len() as int;
            assert(newv.rows == oldv.rows.push((id, metric)));
            assert forall|a: int, b: int| 0 <= a < b < newv.rows.len() implies !((
            #[trigger] newv.rows[a]).0 == (#[trigger] newv.rows[b]).0 && newv.rows[a].1.kind()
                == newv.rows[b].1.kind()) by {
                if b == m {
                    assert(newv.rows[a] == oldv.rows[a]);
                    assert(!(oldv.rows[a].0 == id && oldv.rows[a].1.kind() == metric.kind()));
                } else {
                    assert(newv.rows[a] == oldv.rows[a]);
                    assert(newv.rows[b] == oldv.rows[b]);
                }
            }
            assert forall|a: int| 0 <= a < newv.rows.len() implies has_id(
                newv.sportsmen,
                (#[trigger] newv.rows[a]).0,
            ) by {
                if a < m {
                    assert(newv.rows[a] == oldv.rows[a]);
                    assert(has_id(oldv.sportsmen, oldv.rows[a].0));
                }
            }
            assert(final(self).wf());
        }
        Ok(())
    }

    /// Deletes the entity's row from the kind's table, reporting whether a
    /// row was actually removed: `false` means "nothing to remove", not an
    /// error, so callers can tell "already absent" from a failure.
    pub fn remove_metric_if_exists(&mut self, sportsman_id: i32, kind: SportKind) -> (r: bool)
        requires
            old(self).wf(),
        ensures
            final(self).wf(),
            r == has_row(old(self)@.rows, Id(sportsman_id), kind),
            final(self)@.sportsmen == old(self)@.sportsmen,
            final(self)@.next_id == old(self)@.next_id,
            !r ==> final(self)@ == old(self)@,
            r ==> final(self)@.rows == old(self)@.rows.remove(
                row_index(old(self)@.rows, Id(sportsman_id), kind),
            ),
            !has_row(final(self)@.rows, Id(sportsman_id), kind),
            rows_agree_except(old(self)@.rows, final(self)@.rows, Id(sportsman_id), kind),
    {
        let id = Id(sportsman_id);
        match self.find_row_index(id, kind) {
            None => false,
            Some(i) => {
                proof {
                    lemma_remove_row(self@.rows, id, kind);
                }
                self.rows.remove(i);
                proof {
                    let oldv = old(self)@;
                    let newv = final(self)@;
                    assert forall|a: int| 0 <= a < newv.rows.len() implies has_id(
                        newv.sportsmen,
                        (#[trigger] newv.rows[a]).0,
                    ) by {
                        let q = choose|q: int|
                            0 <= q < oldv.rows.len() && #[trigger] newv.rows[a] == oldv.rows[q];
                        assert(has_id(oldv.sportsmen, oldv.rows[q].0));
                    }
                    assert(final(self).wf());
                }
                true
            },
        }
    }

    /// Reads every row of one kind's table: each entity id with its record.
    /// Each entity with a row of the kind appears exactly once, with the
    /// stored record.
    pub fn get_all_metrics(&self, kind: SportKind) -> (r: Vec<(Id, MetricValue)>)
        requires
            self.wf(),
        ensures
            forall|q: int|
                0 <= q < r@.len() ==> (#[trigger] r@[q]).1.kind() == kind && has_row(
                    self@.rows,
                    r@[q].0,
                    kind,
                ) && r@[q].1 == row_value(self@.rows, r@[q].0, kind),
            forall|id: Id|
                #[trigger] has_row(self@.rows, id, kind) ==> exists|q: int|
                    0 <= q < r@.len() && (#[trigger] r@[q]).0 == id,
            forall|a: int, b: int| 0 <= a < b < r@.len() ==> (#[trigger] r@[a]).0 != (
            #[trigger] r@[b]).0,
    {
        let mut out: Vec<(Id, MetricValue)> = Vec::new();
        let n = self.rows.len();
        let mut i: usize = 0;
        while i < n
            invariant
                n == self.rows@.len(),
                i <= n,
                self.wf(),
                forall|q: int|
                    0 <= q < out@.len() ==> row_among(self@.rows, #[trigger] out@[q], i as int),
                forall|q: int| 0 <= q < out@.len() ==> (#[trigger] out@[q]).1.kind() == kind,
                forall|p: int|
                    0 <= p < i && (#[trigger] self@.rows[p]).1.kind() == kind ==> listing_holds(
                        out@,
                        self@.rows[p],
                    ),
                forall|a: int, b: int| 0 <= a < b < out@.len() ==> (#[trigger] out@[a]).0 != (
                #[trigger] out@[b]).0,
            decreases n - i,
        {
            let ghost out_before = out@;
            let matched = self.rows[i].1.kind() == kind;
            if matched {
                let row = (self.rows[i].0, self.rows[i].1);
                assert(row == self@.rows[i as int]);
                out.push(row);
            }
            proof {
                let rows = self@.rows;
                let ii = i as int;
                assert forall|q: int| 0 <= q < out@.len() implies row_among(
                    rows,
                    #[trigger] out@[q],
                    ii + 1,
                ) by {
                    if matched && q == out@.len() - 1 {
                        assert(out@[q] == rows[ii]);
                    } else {
                        assert(out@[q] == out_before[q]);
                        assert(row_among(rows, out_before[q], ii));
                        let p = choose|p: int| 0 <= p < ii && (#[trigger] rows[p]) == out_before[q];
                        assert(rows[p] == out@[q]);
                    }
                }
                assert forall|a: int, b: int| 0 <= a < b < out@.len() implies (
                #[trigger] out@[a]).0 != (#[trigger] out@[b]).0 by {
                    if matched && b == out@.len() - 1 {
                        assert(out@[a] == out_before[a]);
                        assert(row_among(rows, out_before[a], ii));
                        let p = choose|p: int| 0 <= p < ii && (#[trigger] rows[p]) == out_before[a];
                        assert(rows[p].1.kind() == kind);
                        assert(out@[b] == rows[ii]);
                        assert(!(rows[p].0 == rows[ii].0 && rows[p].1.kind() == rows[ii].1.kind()));
                    } else {
                        assert(out@[a] == out_before[a]);
                        assert(out@[b] == out_before[b]);
                    }
                }
                assert forall|p: int|
                    0 <= p < ii + 1 && (#[trigger] rows[p]).1.kind() == kind implies listing_holds(
                    out@,
                    rows[p],
                ) by {
                    if p == ii {
                        assert(out@[out@.len() - 1] == rows[ii]);
                    } else {
                        assert(listing_holds(out_before, rows[p]));
                        let q = choose|q: int|
                            0 <= q < out_before.len() && (#[trigger] out_before[q]) == rows[p];
                        assert(out@[q] == rows[p]);
                    }
                }
            }
            i = i + 1;
        }
        proof {
            let rows = self@.rows;
            assert forall|q: int|
                0 <= q < out@.len() implies (#[trigger] out@[q]).1.kind() == kind && has_row(
                rows,
                out@[q].0,
                kind,
            ) && out@[q].1 == row_value(rows, out@[q].0, kind) by {
                assert(row_among(rows, out@[q], i as int));
                let p = choose|p: int| 0 <= p < i && (#[trigger] rows[p]) == out@[q];
                lemma_row_index_unique(rows, out@[q].0, kind, p);
            }
            assert forall|id: Id| #[trigger] has_row(rows, id, kind) implies exists|q: int|
                0 <= q < out@.len() && (#[trigger] out@[q]).0 == id by {
                let p = row_index(rows, id, kind);
                assert(0 <= p < rows.len() && rows[p].0 == id && rows[p].1.kind() == kind);
                assert(listing_holds(out@, rows[p]));
                let q = choose|q: int| 0 <= q < out@.len() && (#[trigger] out@[q]) == rows[p];
                assert(out@[q].0 == id);
            }
        }
        out
    }

    /// The record the entity's row in the kind's table holds, if any.
    fn find_row_value(&self, id: Id, kind: SportKind) -> (r: Option<MetricValue>)
        requires
            self.wf(),
        ensures
            r matches Some(v) ==> has_row(self@.rows, id, kind) && v == row_value(
                self@.rows,
                id,
                kind,
            ) && v.kind() == kind,
            r is None ==> !has_row(self@.rows, id, kind),
    {
        match self.find_row_index(id, kind) {
            Some(i) => Some(self.rows[i].1),
            None => None,
        }
    }

    /// Replaces the entity's current record of the value's kind: resolves
    /// the id, deletes any previous row of that kind, then inserts the new
    /// row — two steps, one failure domain. Fails with the row-level "not
    /// found" condition when the name has no entity row; on success the
    /// store's logical content makes exactly one [`registry_step`].
    pub fn add_performance(&mut self, sportsman: &Sportsman, metric: MetricValue) -> (r: Result<
        (),
        StoreError,
    >)
        requires
            old(self).wf(),
        ensures
            final(self).wf(),
            r is Ok <==> has_name(old(self)@.sportsmen, sportsman@),
            r is Err ==> final(self)@ == old(self)@ && r == Err::<(), StoreError>(
                StoreError::RowNotFound,
            ),
            r is Ok ==> {
                &&& final(self)@.sportsmen == old(self)@.sportsmen
                &&& final(self)@.next_id == old(self)@.next_id
                &&& has_row(
                    final(self)@.rows,
                    id_of_name(old(self)@.sportsmen, sportsman@),
                    metric.kind(),
                )
                &&& row_value(
                    final(self)@.rows,
                    id_of_name(old(self)@.sportsmen, sportsman@),
                    metric.kind(),
                ) == metric
                &&& rows_agree_except(
                    old(self)@.rows,
                    final(self)@.rows,
                    id_of_name(old(self)@.sportsmen, sportsman@),
                    metric.kind(),
                )
                &&& store_contents(final(self)@) == registry_step(
                    store_contents(old(self)@),
                    sportsman@,
                    metric,
                )
            },
    {
        let id = match self.get_sportsman_id(sportsman) {
            Ok(id) => id,
            Err(e) => {
                return Err(e);
            },
        };
        let ghost mid0 = self@;
        self.remove_metric_if_exists(id, metric.kind());
        let ghost mid = self@;
        proof {
            assert(has_id(mid.sportsmen, Id(id))) by {
                let j = name_index(mid0.sportsmen, sportsman@);
                assert(mid0.sportsmen[j].0 == Id(id));
            }
        }
        match self.add_metric(id, metric) {
            Ok(_) => {
                proof {
                    let oldv = old(self)@;
                    let newv = final(self)@;
                    // Chain "everything else untouched" across the delete
                    // and the insert.
                    lemma_push_row(mid.rows, Id(id), metric);
                    assert(newv.rows == mid.rows.push((Id(id), metric)));
                    assert(rows_agree_except(mid.rows, newv.rows, Id(id), metric.kind()));
                    lemma_agree_except_trans(
                        oldv.rows,
                        mid.rows,
                        newv.rows,
                        Id(id),
                        metric.kind(),
                    );
                    assert(rows_agree_except(oldv.rows, newv.rows, Id(id), metric.kind()));
                    lemma_contents_after_row_update(oldv, newv, sportsman@, metric);
                }
                Ok(())
            },
            Err(e) => Err(e),
        }
    }

    /// Deletes the entity's current record of one kind: resolves the id,
    /// then deletes the kind's row. `Ok(false)` means the entity had no such
    /// record — "nothing to remove", not an error; the row-level "not
    /// found" failure is reserved for an unknown name.
    pub fn remove_performance(&mut self, sportsman: &Sportsman, kind: SportKind) -> (r: Result<
        bool,
        StoreError,
    >)
        requires
            old(self).wf(),
        ensures
            final(self).wf(),
            r is Ok <==> has_name(old(self)@.sportsmen, sportsman@),
            r is Err ==> final(self)@ == old(self)@ && r == Err::<bool, StoreError>(
                StoreError::RowNotFound,
            ),
            r matches Ok(removed) ==> {
                &&& removed == has_row(
                    old(self)@.rows,
                    id_of_name(old(self)@.sportsmen, sportsman@),
                    kind,
                )
                &&& final(self)@.sportsmen == old(self)@.sportsmen
                &&& final(self)@.next_id == old(self)@.next_id
                &&& !has_row(
                    final(self)@.rows,
                    id_of_name(old(self)@.sportsmen, sportsman@),
                    kind,
                )
                &&& rows_agree_except(
                    old(self)@.rows,
                    final(self)@.rows,
                    id_of_name(old(self)@.sportsmen, sportsman@),
                    kind,
                )
                &&& !removed ==> final(self)@ == old(self)@
                &&& removed ==> store_contents(final(self)@) == store_contents(old(self)@).insert(
                    sportsman@,
                    store_contents(old(self)@)[sportsman@].remove(kind),
                )
            },
    {
        let id = match self.get_sportsman_id(sportsman) {
            Ok(id) => id,
            Err(e) => {
                return Err(e);
            },
        };
        let removed = self.remove_metric_if_exists(id, kind);
        proof {
            if removed {
                lemma_contents_after_row_removal(old(self)@, final(self)@, sportsman@, kind);
            }
        }
        Ok(removed)
    }

    /// Rehydrates the whole tracker from the store: reads all entities and
    /// all kind rows, joins the rows onto the entities by id in memory, and
    /// defaults to an empty collection for entities with no rows. The
    /// tracker produced presents, name for name and kind for kind, exactly
    /// the store's logical content.
    pub fn load_performance_tracker(&self) -> (r: PerformanceTracker)
        requires
            self.wf(),
        ensures
            r.wf(),
            forall|n: Seq<char>| #[trigger] r@.contains_key(n) == has_name(self@.sportsmen, n),
            forall|n: Seq<char>|
                #[trigger] has_name(self@.sportsmen, n) ==> kind_map(r@[n]@) == entity_row_map(
                    self@.rows,
                    id_of_name(self@.sportsmen, n),
                ),
            tracker_contents(r@) == store_contents(self@),
    {
        let mut map: StringHashMap<Vec<MetricValue>> = StringHashMap::new();
        let n = self.sportsmen.len();
        let mut i: usize = 0;
        while i < n
            invariant
                self.wf(),
                n == self.sportsmen@.len(),
                i <= n,
                forall|nm: Seq<char>| #[trigger] map@.contains_key(nm) ==> has_name_among(
                    self@.sportsmen,
                    nm,
                    i as int,
                ),
                forall|j: int|
                    0 <= j < i ==> map@.contains_key((#[trigger] self@.sportsmen[j]).1),
                forall|j: int|
                    0 <= j < i ==> metrics_wf(map@[(#[trigger] self@.sportsmen[j]).1]@)
                        && kind_map(map@[self@.sportsmen[j].1]@) == entity_row_map(
                        self@.rows,
                        self@.sportsmen[j].0,
                    ),
            decreases n - i,
        {
            let id = self.sportsmen[i].0;
            let r_opt = self.find_row_value(id, SportKind::Running);
            let b_opt = self.find_row_value(id, SportKind::Biathlon);
            let w_opt = self.find_row_value(id, SportKind::WeightLifting);
            let mut metrics: Vec<MetricValue> = Vec::new();
            if let Some(v) = r_opt {
                proof {
                    lemma_add_metrics(metrics@, v);
                    assert(metrics@.push(v) == spec_add_metrics(metrics@, v));
                }
                metrics.push(v);
            }
            if let Some(v) = b_opt {
                proof {
                    assert(!has_kind(metrics@, v.kind()));
                    lemma_add_metrics(metrics@, v);
                    assert(metrics@.push(v) == spec_add_metrics(metrics@, v));
                }
                metrics.push(v);
            }
            if let Some(v) = w_opt {
                proof {
                    assert(!has_kind(metrics@, v.kind()));
                    lemma_add_metrics(metrics@, v);
                    assert(metrics@.push(v) == spec_add_metrics(metrics@, v));
                }
                metrics.push(v);
            }
            proof {
                assert(kind_map(Seq::<MetricValue>::empty()) =~= Map::<
                    SportKind,
                    MetricValue,
                >::empty());
                assert(kind_map(metrics@) =~= entity_row_map(self@.rows, id));
            }
            let ghost map_before = map@;
            map.insert(self.sportsmen[i].1.name(), metrics);
            proof {
                let nm_i = self@.sportsmen[i as int].1;
                assert(map@ == map_before.insert(nm_i, metrics));
                assert(self@.sportsmen[i as int].1 == nm_i);
                assert forall|nm: Seq<char>| #[trigger] map@.contains_key(nm) implies
                    has_name_among(self@.sportsmen, nm, i as int + 1) by {
                    if nm != nm_i {
                        assert(map_before.contains_key(nm));
                        let j = choose|j: int|
                            0 <= j < i && (#[trigger] self@.sportsmen[j]).1 == nm;
                        assert(self@.sportsmen[j].1 == nm);
                    }
                }
                assert forall|j: int| 0 <= j < i as int + 1 implies map@.contains_key(
                    (#[trigger] self@.sportsmen[j]).1,
                ) && metrics_wf(map@[self@.sportsmen[j].1]@) && kind_map(
                    map@[self@.sportsmen[j].1]@,
                ) == entity_row_map(self@.rows, self@.sportsmen[j].0) by {
                    if j < i as int {
                        assert(self@.sportsmen[j].1 != nm_i);
                        assert(map@[self@.sportsmen[j].1] == map_before[self@.sportsmen[j].1]);
                    }
                }
            }
            i = i + 1;
        }
        proof {
            assert(tracker_map_wf(map@)) by {
                assert forall|nm: Seq<char>| #[trigger] map@.contains_key(nm) implies metrics_wf(
                    map@[nm]@,
                ) by {
                    let j = choose|j: int| 0 <= j < n && (#[trigger] self@.sportsmen[j]).1 == nm;
                    assert(map@.contains_key(self@.sportsmen[j].1));
                }
            }
        }
        let tracker = PerformanceTracker::new(map);
        proof {
            let sm = self@.sportsmen;
            let rows = self@.rows;
            assert forall|nm: Seq<char>| #[trigger] tracker@.contains_key(nm) == has_name(
                sm,
                nm,
            ) by {
                if tracker@.contains_key(nm) {
                    let j = choose|j: int| 0 <= j < n && (#[trigger] sm[j]).1 == nm;
                    assert(sm[j].1 == nm);
                }
                if has_name(sm, nm) {
                    let j = name_index(sm, nm);
                    assert(0 <= j < sm.len() && sm[j].1 == nm);
                    assert(tracker@.contains_key(sm[j].1));
                }
            }
            assert forall|nm: Seq<char>| #[trigger] has_name(sm, nm) implies kind_map(
                tracker@[nm]@,
            ) == entity_row_map(rows, id_of_name(sm, nm)) by {
                let j = name_index(sm, nm);
                assert(0 <= j < sm.len() && sm[j].1 == nm);
                assert(kind_map(tracker@[sm[j].1]@) == entity_row_map(rows, sm[j].0));
                lemma_name_index_unique(sm, nm, j);
            }
            assert(tracker_contents(tracker@).dom() =~= store_contents(self@).dom());
            assert forall|nm: Seq<char>| #[trigger] tracker_contents(tracker@).contains_key(
                nm,
            ) implies tracker_contents(tracker@)[nm] == store_contents(self@)[nm] by {
                assert(has_name(sm, nm));
            }
            assert(tracker_contents(tracker@) =~= store_contents(self@));
        }
        tracker
    }
}

} // verus!
