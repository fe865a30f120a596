use performance_registry::error::Error;
use performance_registry::metrics::MetricValue;
use performance_registry::metrics::SportKind;
use performance_registry::metrics::biathlon;
use performance_registry::metrics::biathlon::Biathlon;
use performance_registry::metrics::running;
use performance_registry::metrics::running::Running;
use performance_registry::metrics::weight_lifting::LiftedWeight;
use performance_registry::metrics::weight_lifting::Weight;
use performance_registry::metrics::weight_lifting::WeightLifting;
use performance_registry::performance_tracker::PerformanceTracker;
use performance_registry::performance_tracker::SharedTracker;
use performance_registry::sportsman::Sportsman;

fn ann() -> Sportsman {
    Sportsman::new("Ann".to_string()).unwrap()
}

fn run_metric(distance: f32, speed: f32) -> MetricValue {
    MetricValue::Running(Running::new(
        running::Distance(distance.to_bits()),
        running::Speed(speed.to_bits()),
    ))
}

fn biathlon_metric(accuracy: f32, distance: f32, speed: f32) -> MetricValue {
    MetricValue::Biathlon(Biathlon::new(
        biathlon::Accuracy(accuracy.to_bits()),
        biathlon::Distance(distance.to_bits()),
        biathlon::Speed(speed.to_bits()),
    ))
}

fn lifting_metric(weight: f32, lifted: f32) -> MetricValue {
    MetricValue::WeightLifting(WeightLifting::new(
        Weight(weight.to_bits()),
        LiftedWeight(lifted.to_bits()),
    ))
}

#[test]
fn add_then_get_returns_the_record() {
    let mut tracker = PerformanceTracker::empty();
    tracker.add_performance(ann(), run_metric(10.0, 12.0));
    let got = tracker.get_performance(&ann(), SportKind::Running);
    assert_eq!(got, Ok(run_metric(10.0, 12.0)));
}

#[test]
fn get_on_empty_tracker_is_sportsman_not_found() {
    let tracker = PerformanceTracker::empty();
    let ghost = Sportsman::new("Ghost".to_string()).unwrap();
    let got = tracker.get_performance(&ghost, SportKind::Running);
    assert_eq!(got, Err(Error::SportsmanNotFound));
}

#[test]
fn get_of_missing_kind_is_metric_not_found() {
    let mut tracker = PerformanceTracker::empty();
    tracker.add_performance(ann(), run_metric(10.0, 12.0));
    let got = tracker.get_performance(&ann(), SportKind::Biathlon);
    assert_eq!(got, Err(Error::SportsmanDoesntHasMetric));
}

#[test]
fn second_add_of_same_kind_replaces_and_keeps_length_one() {
    let mut tracker = PerformanceTracker::empty();
    tracker.add_performance(ann(), run_metric(1.0, 1.0));
    tracker.add_performance(ann(), run_metric(2.0, 2.0));
    let got = tracker.get_performance(&ann(), SportKind::Running);
    assert_eq!(got, Ok(run_metric(2.0, 2.0)));
    assert_eq!(tracker.metrics_len(&ann()), Some(1));
}

#[test]
fn adds_of_distinct_kinds_accumulate() {
    let mut tracker = PerformanceTracker::empty();
    tracker.add_performance(ann(), run_metric(5.0, 9.5));
    tracker.add_performance(ann(), biathlon_metric(18.9, 20.3, 888.0));
    tracker.add_performance(ann(), lifting_metric(120.0, 460.0));
    assert_eq!(tracker.metrics_len(&ann()), Some(3));
    assert_eq!(
        tracker.get_performance(&ann(), SportKind::Running),
        Ok(run_metric(5.0, 9.5))
    );
    assert_eq!(
        tracker.get_performance(&ann(), SportKind::Biathlon),
        Ok(biathlon_metric(18.9, 20.3, 888.0))
    );
    assert_eq!(
        tracker.get_performance(&ann(), SportKind::WeightLifting),
        Ok(lifting_metric(120.0, 460.0))
    );
}

#[test]
fn long_add_sequence_keeps_last_write_per_kind() {
    let mut tracker = PerformanceTracker::empty();
    for i in 0..10 {
        tracker.add_performance(ann(), run_metric(i as f32, 2.0 * i as f32));
        tracker.add_performance(ann(), lifting_metric(80.0, 100.0 + i as f32));
    }
    assert_eq!(tracker.metrics_len(&ann()), Some(2));
    assert_eq!(
        tracker.get_performance(&ann(), SportKind::Running),
        Ok(run_metric(9.0, 18.0))
    );
    assert_eq!(
        tracker.get_performance(&ann(), SportKind::WeightLifting),
        Ok(lifting_metric(80.0, 109.0))
    );
}

#[test]
fn remove_succeeds_once_then_reports_missing_metric() {
    let mut tracker = PerformanceTracker::empty();
    tracker.add_performance(ann(), run_metric(10.0, 12.0));
    assert_eq!(tracker.remove_performance(ann(), SportKind::Running), Ok(()));
    assert_eq!(
        tracker.remove_performance(ann(), SportKind::Running),
        Err(Error::SportsmanDoesntHasMetric)
    );
}

#[test]
fn remove_for_unknown_sportsman_is_sportsman_not_found() {
    let mut tracker = PerformanceTracker::empty();
    assert_eq!(
        tracker.remove_performance(ann(), SportKind::Running),
        Err(Error::SportsmanNotFound)
    );
}

#[test]
fn remove_keeps_other_kinds() {
    let mut tracker = PerformanceTracker::empty();
    tracker.add_performance(ann(), run_metric(10.0, 12.0));
    tracker.add_performance(ann(), biathlon_metric(1.0, 2.0, 3.0));
    assert_eq!(tracker.remove_performance(ann(), SportKind::Running), Ok(()));
    assert_eq!(tracker.metrics_len(&ann()), Some(1));
    assert_eq!(
        tracker.get_performance(&ann(), SportKind::Biathlon),
        Ok(biathlon_metric(1.0, 2.0, 3.0))
    );
}

#[test]
fn shared_tracker_serves_interleaved_writers_and_readers() {
    let tracker = SharedTracker::new(PerformanceTracker::empty());
    let bob = Sportsman::new("Bob".to_string()).unwrap();
    for i in 0..5 {
        tracker.add_performance(ann(), run_metric(i as f32, i as f32));
        tracker.add_performance(bob.clone(), run_metric(100.0 + i as f32, 1.0));
        assert!(tracker.get_performance(&ann(), SportKind::Running).is_ok());
    }
    assert_eq!(
        tracker.get_performance(&ann(), SportKind::Running),
        Ok(run_metric(4.0, 4.0))
    );
    assert_eq!(
        tracker.get_performance(&bob, SportKind::Running),
        Ok(run_metric(104.0, 1.0))
    );
    assert_eq!(tracker.remove_performance(bob.clone(), SportKind::Running), Ok(()));
    assert_eq!(
        tracker.get_performance(&bob, SportKind::Running),
        Err(Error::SportsmanDoesntHasMetric)
    );
}

#[test]
fn name_of_fifty_characters_is_accepted_and_longer_rejected() {
    let okay = "a".repeat(50);
    assert!(Sportsman::new(okay).is_ok());
    let too_long = "a".repeat(51);
    assert_eq!(Sportsman::new(too_long), Err(Error::NameTooLong));
}

#[test]
fn sportsman_name_round_trips() {
    let s = Sportsman::unchecked_new("Mia".to_string());
    assert_eq!(s.name(), "Mia".to_string());
    assert_eq!(s, Sportsman::new("Mia".to_string()).unwrap());
}
