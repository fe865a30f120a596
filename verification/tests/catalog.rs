use performance_registry::catalog;
use performance_registry::metrics::MetricValue;
use performance_registry::metrics::SportKind;
use performance_registry::metrics::biathlon;
use performance_registry::metrics::biathlon::Biathlon;
use performance_registry::metrics::running;
use performance_registry::metrics::running::Running;
use performance_registry::metrics::weight_lifting::LiftedWeight;
use performance_registry::metrics::weight_lifting::Weight;
use performance_registry::metrics::weight_lifting::WeightLifting;

#[test]
fn table_names_follow_the_closed_kind_set() {
    assert_eq!(catalog::sportsmen_table_name(), "Sportsmen");
    assert_eq!(catalog::metric_table_name(SportKind::Running), "Running");
    assert_eq!(catalog::metric_table_name(SportKind::Biathlon), "Biathlon");
    assert_eq!(
        catalog::metric_table_name(SportKind::WeightLifting),
        "WeightLifting"
    );
}

#[test]
fn column_lists_are_ordered_per_kind() {
    assert_eq!(
        catalog::metric_columns(SportKind::Running),
        vec!["distance", "speed"]
    );
    assert_eq!(
        catalog::metric_columns(SportKind::Biathlon),
        vec!["accuracy", "distance", "speed"]
    );
    assert_eq!(
        catalog::metric_columns(SportKind::WeightLifting),
        vec!["weight", "lifted_weight"]
    );
}

#[test]
fn statements_name_the_kind_tables() {
    assert_eq!(
        catalog::select_all_sportsmen_statement(),
        "SELECT id, name FROM Sportsmen"
    );
    assert_eq!(
        catalog::insert_sportsman_statement(),
        "INSERT INTO Sportsmen (name) VALUES($1);"
    );
    assert_eq!(
        catalog::select_sportsman_id_statement(),
        "SELECT id FROM Sportsmen WHERE name=$1"
    );
    assert_eq!(
        catalog::insert_metric_statement(SportKind::Running),
        "INSERT INTO Running (sportsman_id, distance, speed) VALUES ($1, $2, $3)"
    );
    assert_eq!(
        catalog::insert_metric_statement(SportKind::Biathlon),
        "INSERT INTO Biathlon (sportsman_id, accuracy, distance, speed) VALUES ($1, $2, $3, $4)"
    );
    assert_eq!(
        catalog::insert_metric_statement(SportKind::WeightLifting),
        "INSERT INTO WeightLifting (sportsman_id, weight, lifted_weight) VALUES ($1, $2, $3)"
    );
    assert_eq!(
        catalog::select_all_metrics_statement(SportKind::Biathlon),
        "SELECT sportsman_id, accuracy, distance, speed FROM Biathlon"
    );
    assert_eq!(
        catalog::delete_metric_statement(SportKind::WeightLifting),
        "DELETE FROM WeightLifting WHERE sportsman_id=$1"
    );
    assert_eq!(
        catalog::metric_exists_statement(SportKind::Running),
        "SELECT FROM Running WHERE sportsman_id=$1"
    );
}

#[test]
fn bind_values_follow_the_column_order() {
    let b = MetricValue::Biathlon(Biathlon::new(
        biathlon::Accuracy(18.9f32.to_bits()),
        biathlon::Distance(20.3f32.to_bits()),
        biathlon::Speed(888.0f32.to_bits()),
    ));
    assert_eq!(
        catalog::metric_bind_values(&b),
        vec![18.9f32.to_bits(), 20.3f32.to_bits(), 888.0f32.to_bits()]
    );
    let w = MetricValue::WeightLifting(WeightLifting::new(
        Weight(120.0f32.to_bits()),
        LiftedWeight(460.0f32.to_bits()),
    ));
    assert_eq!(
        catalog::metric_bind_values(&w),
        vec![120.0f32.to_bits(), 460.0f32.to_bits()]
    );
}

#[test]
fn a_row_decodes_back_to_the_record_it_encoded() {
    let records = [
        MetricValue::Running(Running::new(
            running::Distance(999.9f32.to_bits()),
            running::Speed(123.2f32.to_bits()),
        )),
        MetricValue::Biathlon(Biathlon::new(
            biathlon::Accuracy(18.9f32.to_bits()),
            biathlon::Distance(20.3f32.to_bits()),
            biathlon::Speed(888.0f32.to_bits()),
        )),
        MetricValue::WeightLifting(WeightLifting::new(
            Weight(120.0f32.to_bits()),
            LiftedWeight(460.0f32.to_bits()),
        )),
    ];
    for record in records.iter() {
        let cols = catalog::metric_bind_values(record);
        assert_eq!(catalog::metric_from_row(record.kind(), &cols), Some(*record));
    }
}

#[test]
fn a_row_of_wrong_arity_does_not_decode() {
    let two = vec![1u32, 2u32];
    let three = vec![1u32, 2u32, 3u32];
    assert_eq!(catalog::metric_from_row(SportKind::Running, &three), None);
    assert_eq!(catalog::metric_from_row(SportKind::Biathlon, &two), None);
    assert_eq!(catalog::metric_from_row(SportKind::WeightLifting, &three), None);
}
