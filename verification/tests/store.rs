use performance_registry::metrics::MetricValue;
use performance_registry::metrics::SportKind;
use performance_registry::metrics::biathlon;
use performance_registry::metrics::biathlon::Biathlon;
use performance_registry::metrics::running;
use performance_registry::metrics::running::Running;
use performance_registry::metrics::weight_lifting::LiftedWeight;
use performance_registry::metrics::weight_lifting::Weight;
use performance_registry::metrics::weight_lifting::WeightLifting;
use performance_registry::sportsman::Sportsman;
use performance_registry::store::Id;
use performance_registry::store::Store;
use performance_registry::store::StoreError;

fn sportsman(name: &str) -> Sportsman {
    Sportsman::new(name.to_string()).unwrap()
}

fn run_metric(distance: f32, speed: f32) -> MetricValue {
    MetricValue::Running(Running::new(
        running::Distance(distance.to_bits()),
        running::Speed(speed.to_bits()),
    ))
}

fn biathlon_metric(accuracy: f32, distance: f32, speed: f32) -> MetricValue {
    MetricValue::Biathlon(Biathlon::new(
        biathlon::Accuracy(accuracy.to_bits()),
        biathlon::Distance(distance.to_bits()),
        biathlon::Speed(speed.to_bits()),
    ))
}

fn lifting_metric(weight: f32, lifted: f32) -> MetricValue {
    MetricValue::WeightLifting(WeightLifting::new(
        Weight(weight.to_bits()),
        LiftedWeight(lifted.to_bits()),
    ))
}

#[test]
fn ids_are_assigned_in_insertion_order() {
    let mut store = Store::new();
    store.add_sportsman(&sportsman("Ann")).unwrap();
    store.add_sportsman(&sportsman("Bob")).unwrap();
    let all = store.get_all_sportsmen();
    assert_eq!(all.len(), 2);
    assert_eq!(all[0].0, Id(1));
    assert_eq!(all[0].1.name(), "Ann".to_string());
    assert_eq!(all[1].0, Id(2));
    assert_eq!(all[1].1.name(), "Bob".to_string());
}

#[test]
fn duplicate_sportsman_is_rejected() {
    let mut store = Store::new();
    store.add_sportsman(&sportsman("Ann")).unwrap();
    assert_eq!(store.add_sportsman(&sportsman("Ann")), Err(StoreError::Failure));
}

#[test]
fn unknown_name_resolves_to_row_not_found() {
    let store = Store::new();
    assert_eq!(
        store.get_sportsman_id(&sportsman("Ghost")),
        Err(StoreError::RowNotFound)
    );
}

#[test]
fn write_metric_replaces_by_delete_then_insert() {
    let mut store = Store::new();
    store.add_sportsman(&sportsman("Ann")).unwrap();
    store.add_performance(&sportsman("Ann"), run_metric(1.0, 1.0)).unwrap();
    store.add_performance(&sportsman("Ann"), run_metric(2.0, 2.0)).unwrap();
    let rows = store.get_all_metrics(SportKind::Running);
    assert_eq!(rows.len(), 1);
    assert_eq!(rows[0].0, Id(1));
    assert_eq!(rows[0].1, run_metric(2.0, 2.0));
}

#[test]
fn write_metric_for_unknown_name_fails() {
    let mut store = Store::new();
    assert_eq!(
        store.add_performance(&sportsman("Ghost"), run_metric(1.0, 1.0)),
        Err(StoreError::RowNotFound)
    );
}

#[test]
fn add_metric_respects_the_foreign_key() {
    let mut store = Store::new();
    assert_eq!(
        store.add_metric(7, run_metric(1.0, 1.0)),
        Err(StoreError::Failure)
    );
}

#[test]
fn metric_exists_reflects_rows() {
    let mut store = Store::new();
    store.add_sportsman(&sportsman("Ann")).unwrap();
    let id = store.get_sportsman_id(&sportsman("Ann")).unwrap();
    assert!(!store.if_metric_exists(id, SportKind::Running));
    store.add_performance(&sportsman("Ann"), run_metric(1.0, 1.0)).unwrap();
    assert!(store.if_metric_exists(id, SportKind::Running));
    assert!(!store.if_metric_exists(id, SportKind::Biathlon));
}

#[test]
fn removal_reports_true_then_false() {
    let mut store = Store::new();
    store.add_sportsman(&sportsman("Ann")).unwrap();
    store.add_performance(&sportsman("Ann"), run_metric(1.0, 1.0)).unwrap();
    let id = store.get_sportsman_id(&sportsman("Ann")).unwrap();
    assert_eq!(store.remove_metric_if_exists(id, SportKind::Running), true);
    assert_eq!(store.remove_metric_if_exists(id, SportKind::Running), false);
}

#[test]
fn remove_performance_distinguishes_missing_name_from_missing_row() {
    let mut store = Store::new();
    store.add_sportsman(&sportsman("Ann")).unwrap();
    assert_eq!(
        store.remove_performance(&sportsman("Ghost"), SportKind::Running),
        Err(StoreError::RowNotFound)
    );
    assert_eq!(
        store.remove_performance(&sportsman("Ann"), SportKind::Running),
        Ok(false)
    );
    store.add_performance(&sportsman("Ann"), run_metric(1.0, 1.0)).unwrap();
    assert_eq!(
        store.remove_performance(&sportsman("Ann"), SportKind::Running),
        Ok(true)
    );
}

#[test]
fn rehydration_reproduces_replayed_state() {
    let mut store = Store::new();
    let writes: [(&str, MetricValue); 5] = [
        ("Ann", run_metric(10.0, 12.0)),
        ("Ann", biathlon_metric(18.9, 20.3, 888.0)),
        ("Bob", lifting_metric(120.0, 460.0)),
        ("Cid", run_metric(5.0, 7.5)),
        ("Ann", run_metric(11.0, 13.0)),
    ];
    let mut seen: Vec<&str> = Vec::new();
    for (name, metric) in writes.iter() {
        if !seen.contains(name) {
            store.add_sportsman(&sportsman(name)).unwrap();
            seen.push(name);
        }
        store.add_performance(&sportsman(name), *metric).unwrap();
    }
    let loaded = store.load_performance_tracker();

    let mut replayed = performance_registry::performance_tracker::PerformanceTracker::empty();
    for (name, metric) in writes.iter() {
        replayed.add_performance(sportsman(name), *metric);
    }

    for name in ["Ann", "Bob", "Cid"] {
        for kind in [SportKind::Running, SportKind::Biathlon, SportKind::WeightLifting] {
            assert_eq!(
                loaded.get_performance(&sportsman(name), kind),
                replayed.get_performance(&sportsman(name), kind),
                "disagreement for {} {:?}",
                name,
                kind
            );
        }
    }
}

#[test]
fn loaded_tracker_serves_reads_behind_the_lock() {
    let mut store = Store::new();
    store.add_sportsman(&sportsman("Ann")).unwrap();
    store.add_performance(&sportsman("Ann"), run_metric(10.0, 12.0)).unwrap();
    let shared = performance_registry::performance_tracker::SharedTracker::new(
        store.load_performance_tracker(),
    );
    assert_eq!(
        shared.get_performance(&sportsman("Ann"), SportKind::Running),
        Ok(run_metric(10.0, 12.0))
    );
}

#[test]
fn rehydration_keeps_an_entity_without_rows() {
    let mut store = Store::new();
    store.add_sportsman(&sportsman("Ann")).unwrap();
    let loaded = store.load_performance_tracker();
    // The entity exists with an empty collection: the two "not found"
    // conditions stay distinguishable after a reload.
    assert_eq!(loaded.metrics_len(&sportsman("Ann")), Some(0));
    assert_eq!(
        loaded.get_performance(&sportsman("Ann"), SportKind::Running),
        Err(performance_registry::error::Error::SportsmanDoesntHasMetric)
    );
}
