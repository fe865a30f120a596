use performance_registry::error::Error;
use performance_registry::metrics::MetricValue;
use performance_registry::metrics::SportKind;
use performance_registry::metrics::running;
use performance_registry::metrics::running::Running;
use performance_registry::performance_tracker::PerformanceTracker;
use performance_registry::responses::Responses;
use performance_registry::service::handle_add;
use performance_registry::service::handle_get;
use performance_registry::service::handle_remove;
use performance_registry::store::Store;

fn run_metric(distance: f32, speed: f32) -> MetricValue {
    MetricValue::Running(Running::new(
        running::Distance(distance.to_bits()),
        running::Speed(speed.to_bits()),
    ))
}

#[test]
fn sport_names_parse_into_the_closed_set() {
    assert_eq!(
        SportKind::from_path_name("running"),
        Some(SportKind::Running)
    );
    assert_eq!(
        SportKind::from_path_name("biathlon"),
        Some(SportKind::Biathlon)
    );
    assert_eq!(
        SportKind::from_path_name("weight_lifting"),
        Some(SportKind::WeightLifting)
    );
    assert_eq!(SportKind::from_path_name("chess"), None);
    assert_eq!(SportKind::from_path_name(""), None);
}

#[test]
fn write_through_add_then_read() {
    let mut tracker = PerformanceTracker::empty();
    let mut store = Store::new();
    let r = handle_add(
        &mut tracker,
        &mut store,
        "Ann".to_string(),
        run_metric(10.0, 12.0),
    );
    assert_eq!(r, Responses::PerformanceAdded("Running"));
    assert_eq!(
        handle_get(&tracker, "Ann".to_string(), SportKind::Running),
        Ok(run_metric(10.0, 12.0))
    );
}

#[test]
fn add_with_an_overlong_name_is_rejected_before_any_write() {
    let mut tracker = PerformanceTracker::empty();
    let mut store = Store::new();
    let name = "a".repeat(51);
    let r = handle_add(&mut tracker, &mut store, name, run_metric(1.0, 1.0));
    assert_eq!(r, Responses::Errors(Error::NameTooLong));
    assert_eq!(store.get_all_sportsmen().len(), 0);
}

#[test]
fn second_add_for_the_same_name_surfaces_the_store_rejection() {
    let mut tracker = PerformanceTracker::empty();
    let mut store = Store::new();
    handle_add(
        &mut tracker,
        &mut store,
        "Ann".to_string(),
        run_metric(1.0, 1.0),
    );
    // The flow inserts the entity row unconditionally; the store's unique
    // name rejects it and the failure is reported, not masked.
    let r = handle_add(
        &mut tracker,
        &mut store,
        "Ann".to_string(),
        run_metric(2.0, 2.0),
    );
    assert_eq!(r, Responses::Errors(Error::SaveError));
    assert_eq!(
        handle_get(&tracker, "Ann".to_string(), SportKind::Running),
        Ok(run_metric(1.0, 1.0))
    );
}

#[test]
fn get_validates_the_name_first() {
    let tracker = PerformanceTracker::empty();
    assert_eq!(
        handle_get(&tracker, "a".repeat(51), SportKind::Running),
        Err(Error::NameTooLong)
    );
}

#[test]
fn remove_of_unknown_sportsman_reports_sportsman_not_found() {
    let mut tracker = PerformanceTracker::empty();
    let mut store = Store::new();
    let r = handle_remove(
        &mut tracker,
        &mut store,
        "Ghost".to_string(),
        SportKind::Running,
    );
    assert_eq!(r, Responses::SportsmanNotFound);
}

#[test]
fn remove_of_missing_record_reports_performance_not_found() {
    let mut tracker = PerformanceTracker::empty();
    let mut store = Store::new();
    handle_add(
        &mut tracker,
        &mut store,
        "Ann".to_string(),
        run_metric(1.0, 1.0),
    );
    let r = handle_remove(
        &mut tracker,
        &mut store,
        "Ann".to_string(),
        SportKind::Biathlon,
    );
    assert_eq!(r, Responses::PerformanceNotFound);
}

#[test]
fn remove_goes_through_store_then_tracker() {
    let mut tracker = PerformanceTracker::empty();
    let mut store = Store::new();
    handle_add(
        &mut tracker,
        &mut store,
        "Ann".to_string(),
        run_metric(1.0, 1.0),
    );
    let r = handle_remove(
        &mut tracker,
        &mut store,
        "Ann".to_string(),
        SportKind::Running,
    );
    assert_eq!(r, Responses::PerformanceRemoved);
    assert_eq!(
        handle_get(&tracker, "Ann".to_string(), SportKind::Running),
        Err(Error::SportsmanDoesntHasMetric)
    );
    let again = handle_remove(
        &mut tracker,
        &mut store,
        "Ann".to_string(),
        SportKind::Running,
    );
    assert_eq!(again, Responses::PerformanceNotFound);
}

#[test]
fn statuses_follow_the_error_taxonomy() {
    assert_eq!(Error::SportsmanNotFound.status_code(), 404);
    assert_eq!(Error::SportsmanDoesntHasMetric.status_code(), 404);
    assert_eq!(Error::SaveError.status_code(), 500);
    assert_eq!(Error::RemoveError.status_code(), 500);
    assert_eq!(Error::NameTooLong.status_code(), 400);
}

#[test]
fn messages_stay_short_and_free_of_internal_detail() {
    assert_eq!(Error::SportsmanNotFound.message(), "Sportsman not found");
    assert_eq!(Error::SportsmanDoesntHasMetric.message(), "Metric wasn't found");
    assert_eq!(Error::SaveError.message(), "Something went wrong");
    assert_eq!(Error::RemoveError.message(), "Something went wrong");
    assert_eq!(Error::NameTooLong.message(), "Sportsman name is too long");
}

#[test]
fn response_statuses_and_messages() {
    assert_eq!(Responses::PerformanceAdded("Running").status_code(), 200);
    assert_eq!(
        Responses::PerformanceAdded("Running").message(),
        "Running performance added successfully".to_string()
    );
    assert_eq!(Responses::PerformanceRemoved.status_code(), 200);
    assert_eq!(
        Responses::PerformanceRemoved.message(),
        "Performance removed successfully".to_string()
    );
    assert_eq!(Responses::PerformanceNotFound.status_code(), 404);
    assert_eq!(
        Responses::PerformanceNotFound.message(),
        "Performance not found".to_string()
    );
    assert_eq!(Responses::SportsmanNotFound.status_code(), 404);
    assert_eq!(
        Responses::SportsmanNotFound.message(),
        "Sportsman not found".to_string()
    );
    assert_eq!(
        Responses::InvalidPerformanceFormat("RunningPerformance").status_code(),
        400
    );
    assert_eq!(
        Responses::InvalidPerformanceFormat("RunningPerformance").message(),
        "Invalid RunningPerformance format".to_string()
    );
    assert_eq!(Responses::Errors(Error::RemoveError).status_code(), 500);
    assert_eq!(
        Responses::Errors(Error::RemoveError).message(),
        "Something went wrong".to_string()
    );
}

#[test]
fn kind_response_names() {
    assert_eq!(SportKind::Running.response_name(), "Running");
    assert_eq!(SportKind::Biathlon.response_name(), "Biathlon");
    assert_eq!(SportKind::WeightLifting.response_name(), "WeightLifting");
}
