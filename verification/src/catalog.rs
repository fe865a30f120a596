//! The metric catalog: the closed mapping between a discipline kind, its
//! backing-table name, its ordered column layout, and the parameterized
//! statements the persistence boundary issues.
//!
//! Table names and statements are compile-time literals keyed by the closed
//! [`SportKind`] enum, so no "unknown metric" path exists for a compiled-in
//! kind.

use vstd::prelude::*;
use crate::metrics::MetricValue;
use crate::metrics::SportKind;
use crate::metrics::biathlon::Accuracy;
use crate::metrics::biathlon::Biathlon;
use crate::metrics::running::Distance;
use crate::metrics::running::Running;
use crate::metrics::running::Speed;
use crate::metrics::weight_lifting::LiftedWeight;
use crate::metrics::weight_lifting::Weight;
use crate::metrics::weight_lifting::WeightLifting;

verus! {

/// The entities table's name.
pub fn sportsmen_table_name() -> (r: &'static str)
    ensures
        r@ == "Sportsmen"@,
{
    "Sportsmen"
}

pub open spec fn spec_metric_table_name(kind: SportKind) -> Seq<char> {
    match kind {
        SportKind::Running => "Running"@,
        SportKind::Biathlon => "Biathlon"@,
        SportKind::WeightLifting => "WeightLifting"@,
    }
}

/// The backing table of one discipline kind.
pub fn metric_table_name(kind: SportKind) -> (r: &'static str)
    ensures
        r@ == spec_metric_table_name(kind),
{
    match kind {
        SportKind::Running => "Running",
        SportKind::Biathlon => "Biathlon",
        SportKind::WeightLifting => "WeightLifting",
    }
}

pub open spec fn spec_metric_columns(kind: SportKind) -> Seq<Seq<char>> {
    match kind {
        SportKind::Running => seq!["distance"@, "speed"@],
        SportKind::Biathlon => seq!["accuracy"@, "distance"@, "speed"@],
        SportKind::WeightLifting => seq!["weight"@, "lifted_weight"@],
    }
}

/// The ordered numeric columns of one kind's table, used for both insert and
/// decode.
pub fn metric_columns(kind: SportKind) -> (r: Vec<&'static str>)
    ensures
        r.deep_view() == spec_metric_columns(kind),
{
    match kind {
        SportKind::Running => {
            let mut v: Vec<&'static str> = Vec::new();
            v.push("distance");
            v.push("speed");
            assert(v.deep_view() =~= spec_metric_columns(kind));
            v
        },
        SportKind::Biathlon => {
            let mut v: Vec<&'static str> = Vec::new();
            v.push("accuracy");
            v.push("distance");
            v.push("speed");
            assert(v.deep_view() =~= spec_metric_columns(kind));
            v
        },
        SportKind::WeightLifting => {
            let mut v: Vec<&'static str> = Vec::new();
            v.push("weight");
            v.push("lifted_weight");
            assert(v.deep_view() =~= spec_metric_columns(kind));
            v
        },
    }
}

/// Reads all entity rows: surrogate id and name.
pub fn select_all_sportsmen_statement() -> (r: &'static str)
    ensures
        r@ == "SELECT id, name FROM Sportsmen"@,
{
    "SELECT id, name FROM Sportsmen"
}

/// Inserts a fresh entity row; the store rejects a duplicate name.
pub fn insert_sportsman_statement() -> (r: &'static str)
    ensures
        r@ == "INSERT INTO Sportsmen (name) VALUES($1);"@,
{
    "INSERT INTO Sportsmen (name) VALUES($1);"
}

/// Resolves a name to its surrogate id.
pub fn select_sportsman_id_statement() -> (r: &'static str)
    ensures
        r@ == "SELECT id FROM Sportsmen WHERE name=$1"@,
{
    "SELECT id FROM Sportsmen WHERE name=$1"
}

pub open spec fn spec_insert_metric_statement(kind: SportKind) -> Seq<char> {
    match kind {
        SportKind::Running => "INSERT INTO Running (sportsman_id, distance, speed) VALUES ($1, $2, $3)"@,
        SportKind::Biathlon => "INSERT INTO Biathlon (sportsman_id, accuracy, distance, speed) VALUES ($1, $2, $3, $4)"@,
        SportKind::WeightLifting => "INSERT INTO WeightLifting (sportsman_id, weight, lifted_weight) VALUES ($1, $2, $3)"@,
    }
}

/// Inserts one kind row: the entity id followed by the kind's columns, in
/// the order of [`metric_columns`].
pub fn insert_metric_statement(kind: SportKind) -> (r: &'static str)
    ensures
        r@ == spec_insert_metric_statement(kind),
{
    match kind {
        SportKind::Running => "INSERT INTO Running (sportsman_id, distance, speed) VALUES ($1, $2, $3)",
        SportKind::Biathlon => "INSERT INTO Biathlon (sportsman_id, accuracy, distance, speed) VALUES ($1, $2, $3, $4)",
        SportKind::WeightLifting => "INSERT INTO WeightLifting (sportsman_id, weight, lifted_weight) VALUES ($1, $2, $3)",
    }
}

pub open spec fn spec_select_all_metrics_statement(kind: SportKind) -> Seq<char> {
    match kind {
        SportKind::Running => "SELECT sportsman_id, distance, speed FROM Running"@,
        SportKind::Biathlon => "SELECT sportsman_id, accuracy, distance, speed FROM Biathlon"@,
        SportKind::WeightLifting => "SELECT sportsman_id, weight, lifted_weight FROM WeightLifting"@,
    }
}

/// Reads every row of one kind's table: the entity id followed by the kind's
/// columns.
pub fn select_all_metrics_statement(kind: SportKind) -> (r: &'static str)
    ensures
        r@ == spec_select_all_metrics_statement(kind),
{
    match kind {
        SportKind::Running => "SELECT sportsman_id, distance, speed FROM Running",
        SportKind::Biathlon => "SELECT sportsman_id, accuracy, distance, speed FROM Biathlon",
        SportKind::WeightLifting => "SELECT sportsman_id, weight, lifted_weight FROM WeightLifting",
    }
}

pub open spec fn spec_delete_metric_statement(kind: SportKind) -> Seq<char> {
    match kind {
        SportKind::Running => "DELETE FROM Running WHERE sportsman_id=$1"@,
        SportKind::Biathlon => "DELETE FROM Biathlon WHERE sportsman_id=$1"@,
        SportKind::WeightLifting => "DELETE FROM WeightLifting WHERE sportsman_id=$1"@,
    }
}

/// Deletes the (at most one) row one entity has in one kind's table.
pub fn delete_metric_statement(kind: SportKind) -> (r: &'static str)
    ensures
        r@ == spec_delete_metric_statement(kind),
{
    match kind {
        SportKind::Running => "DELETE FROM Running WHERE sportsman_id=$1",
        SportKind::Biathlon => "DELETE FROM Biathlon WHERE sportsman_id=$1",
        SportKind::WeightLifting => "DELETE FROM WeightLifting WHERE sportsman_id=$1",
    }
}

pub open spec fn spec_metric_exists_statement(kind: SportKind) -> Seq<char> {
    match kind {
        SportKind::Running => "SELECT FROM Running WHERE sportsman_id=$1"@,
        SportKind::Biathlon => "SELECT FROM Biathlon WHERE sportsman_id=$1"@,
        SportKind::WeightLifting => "SELECT FROM WeightLifting WHERE sportsman_id=$1"@,
    }
}

/// Probes whether one entity has a row in one kind's table.
pub fn metric_exists_statement(kind: SportKind) -> (r: &'static str)
    ensures
        r@ == spec_metric_exists_statement(kind),
{
    match kind {
        SportKind::Running => "SELECT FROM Running WHERE sportsman_id=$1",
        SportKind::Biathlon => "SELECT FROM Biathlon WHERE sportsman_id=$1",
        SportKind::WeightLifting => "SELECT FROM WeightLifting WHERE sportsman_id=$1",
    }
}

/// A record's numeric payload in the column order of [`metric_columns`].
pub open spec fn spec_metric_bind_values(v: MetricValue) -> Seq<u32> {
    match v {
        MetricValue::Running(r) => seq![r.distance.0, r.speed.0],
        MetricValue::Biathlon(b) => seq![b.accuracy.0, b.distance.0, b.speed.0],
        MetricValue::WeightLifting(w) => seq![w.weight.0, w.lifted_weight.0],
    }
}

/// Encodes a record into the values bound after the entity id in
/// [`insert_metric_statement`].
pub fn metric_bind_values(v: &MetricValue) -> (r: Vec<u32>)
    ensures
        r@ == spec_metric_bind_values(*v),
{
    let mut out: Vec<u32> = Vec::new();
    match v {
        MetricValue::Running(r) => {
            out.push(r.distance.0);
            out.push(r.speed.0);
        },
        MetricValue::Biathlon(b) => {
            out.push(b.accuracy.0);
            out.push(b.distance.0);
            out.push(b.speed.0);
        },
        MetricValue::WeightLifting(w) => {
            out.push(w.weight.0);
            out.push(w.lifted_weight.0);
        },
    }
    assert(out@ =~= spec_metric_bind_values(*v));
    out
}

/// What decoding a row of one kind's numeric columns yields: a record, when
/// the arity matches the kind's column list.
pub open spec fn spec_metric_from_row(kind: SportKind, cols: Seq<u32>) -> Option<MetricValue> {
    match kind {
        SportKind::Running => if cols.len() == 2 {
            Some(
                MetricValue::Running(
                    Running { distance: Distance(cols[0]), speed: Speed(cols[1]) },
                ),
            )
        } else {
            None
        },
        SportKind::Biathlon => if cols.len() == 3 {
            Some(
                MetricValue::Biathlon(
                    Biathlon {
                        accuracy: Accuracy(cols[0]),
                        distance: crate::metrics::biathlon::Distance(cols[1]),
                        speed: crate::metrics::biathlon::Speed(cols[2]),
                    },
                ),
            )
        } else {
            None
        },
        SportKind::WeightLifting => if cols.len() == 2 {
            Some(
                MetricValue::WeightLifting(
                    WeightLifting { weight: Weight(cols[0]), lifted_weight: LiftedWeight(cols[1]) },
                ),
            )
        } else {
            None
        },
    }
}

/// Decodes one row's numeric columns, read in the order of
/// [`metric_columns`], back into a record of the kind.
pub fn metric_from_row(kind: SportKind, cols: &Vec<u32>) -> (r: Option<MetricValue>)
    ensures
        r == spec_metric_from_row(kind, cols@),
{
    match kind {
        SportKind::Running => {
            if cols.len() == 2 {
                Some(MetricValue::Running(Running { distance: Distance(cols[0]), speed: Speed(cols[1]) }))
            } else {
                None
            }
        },
        SportKind::Biathlon => {
            if cols.len() == 3 {
                Some(
                    MetricValue::Biathlon(
                        Biathlon {
                            accuracy: Accuracy(cols[0]),
                            distance: crate::metrics::biathlon::Distance(cols[1]),
                            speed: crate::metrics::biathlon::Speed(cols[2]),
                        },
                    ),
                )
            } else {
                None
            }
        },
        SportKind::WeightLifting => {
            if cols.len() == 2 {
                Some(
                    MetricValue::WeightLifting(
                        WeightLifting {
                            weight: Weight(cols[0]),
                            lifted_weight: LiftedWeight(cols[1]),
                        },
                    ),
                )
            } else {
                None
            }
        },
    }
}

/// Encoding a record as a row and decoding it under its own kind gives the
/// record back: the persistence boundary loses nothing about a record.
pub proof fn lemma_metric_row_round_trip(v: MetricValue)
    ensures
        spec_metric_from_row(v.kind(), spec_metric_bind_values(v)) == Some(v),
{
}

} // verus!
