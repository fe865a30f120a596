//! The write-through coordination of the registry: every mutating operation
//! goes to the persistence boundary first and is mirrored into the tracker
//! only on success; reads are served from the tracker alone.
//!
//! These flows carry the decision logic; the surrounding program performs
//! the transport (routing, decoding, status shaping) and nothing else.
//!
//! Nothing here retries or rolls back: a failure surfaces at once, and a
//! caller abandoned between the store write and the tracker mirror leaves
//! the cache stale until the next full rehydration — a deliberate,
//! documented window, not a guarantee of atomicity.

use vstd::prelude::*;
use crate::error::Error;
use crate::metrics::MetricValue;
use crate::metrics::SportKind;
use crate::performance_tracker::PerformanceTracker;
use crate::performance_tracker::entity_seq;
use crate::performance_tracker::has_kind;
use crate::performance_tracker::kind_map;
use crate::performance_tracker::registry_step;
use crate::performance_tracker::tracker_contents;
use crate::responses::Responses;
use crate::sportsman::Sportsman;
use crate::sportsman::valid_name;
use crate::store::Store;
use crate::store::StoreError;
use crate::store::has_name;
use crate::store::has_row;
use crate::store::id_of_name;
use crate::store::rows_agree_except;
use crate::store::store_contents;

verus! {

/// The address the service binds to; resolved once at startup by the
/// surrounding program and carried through as plain text.
pub struct Url(pub String);

/// Serves a read: validates the name, then looks the record up in the
/// tracker only — the store is never consulted on the read path.
pub fn handle_get(tracker: &PerformanceTracker, name: String, kind: SportKind) -> (r: Result<
    MetricValue,
    Error,
>)
    requires
        tracker.wf(),
    ensures
        !valid_name(name@) ==> r == Err::<MetricValue, Error>(Error::NameTooLong),
        valid_name(name@) && !tracker@.contains_key(name@) ==> r == Err::<MetricValue, Error>(
            Error::SportsmanNotFound,
        ),
        valid_name(name@) && tracker@.contains_key(name@) && !has_kind(tracker@[name@]@, kind)
            ==> r == Err::<MetricValue, Error>(Error::SportsmanDoesntHasMetric),
        valid_name(name@) && tracker@.contains_key(name@) && has_kind(tracker@[name@]@, kind)
            ==> r == Ok::<MetricValue, Error>(kind_map(tracker@[name@]@)[kind]),
{
    let sportsman = match Sportsman::new(name) {
        Ok(s) => s,
        Err(e) => {
            return Err(e);
        },
    };
    tracker.get_performance(&sportsman, kind)
}

/// Serves a write: validates the name, registers the sportsman and writes
/// the record through the store, and only then mirrors the record into the
/// tracker. The sportsman row is inserted unconditionally before the write,
/// so a name already present in the store is rejected by its unique-name
/// constraint and surfaces as a save failure — the store stays the source
/// of truth and the failure is not masked.
pub fn handle_add(
    tracker: &mut PerformanceTracker,
    store: &mut Store,
    name: String,
    metric: MetricValue,
) -> (r: Responses)
    requires
        old(tracker).wf(),
        old(store).wf(),
    ensures
        final(tracker).wf(),
        final(store).wf(),
        !valid_name(name@) ==> r == Responses::Errors(Error::NameTooLong) && final(tracker)@
            == old(tracker)@ && final(store)@ == old(store)@,
        valid_name(name@) && !(!has_name(old(store)@.sportsmen, name@) && old(store)@.next_id
            < i32::MAX) ==> r == Responses::Errors(Error::SaveError) && final(tracker)@ == old(
            tracker,
        )@ && final(store)@ == old(store)@,
        valid_name(name@) && !has_name(old(store)@.sportsmen, name@) && old(store)@.next_id
            < i32::MAX ==> {
            &&& (r matches Responses::PerformanceAdded(n) && n@ == metric.kind(
            ).spec_response_name())
            &&& store_contents(final(store)@) == registry_step(
                store_contents(old(store)@),
                name@,
                metric,
            )
            &&& tracker_contents(final(tracker)@) == registry_step(
                tracker_contents(old(tracker)@),
                name@,
                metric,
            )
        },
{
    let sportsman = match Sportsman::new(name) {
        Ok(s) => s,
        Err(e) => {
            return Responses::Errors(e);
        },
    };
    let response_name = metric.kind().response_name();
    if store.add_sportsman(&sportsman).is_err() {
        return Responses::Errors(Error::SaveError);
    }
    let ghost mid = store@;
    match store.add_performance(&sportsman, metric) {
        Ok(_) => {},
        Err(_) => {
            proof {
                assert(mid.sportsmen[mid.sportsmen.len() - 1].1 == sportsman@);
                assert(has_name(mid.sportsmen, sportsman@));
                assert(false);
            }
            return Responses::Errors(Error::SaveError);
        },
    }
    proof {
        let oldc = store_contents(old(store)@);
        let midc = store_contents(mid);
        let newc = store_contents(final(store)@);
        assert(midc == oldc.insert(sportsman@, Map::empty()));
        assert(midc[sportsman@] =~= Map::<SportKind, MetricValue>::empty());
        assert(newc == registry_step(midc, sportsman@, metric));
        assert(newc =~= registry_step(oldc, sportsman@, metric));
    }
    tracker.add_performance(sportsman, metric);
    Responses::PerformanceAdded(response_name)
}

/// Serves a removal: validates the name, deletes the record's row through
/// the store first, and mirrors the removal into the tracker only when a
/// row was actually deleted. An unknown sportsman and a missing record stay
/// distinguishable; a missing row is "nothing to remove", reported as not
/// found, never an error on the store.
pub fn handle_remove(
    tracker: &mut PerformanceTracker,
    store: &mut Store,
    name: String,
    kind: SportKind,
) -> (r: Responses)
    requires
        old(tracker).wf(),
        old(store).wf(),
    ensures
        final(tracker).wf(),
        final(store).wf(),
        !valid_name(name@) ==> r == Responses::Errors(Error::NameTooLong) && final(tracker)@
            == old(tracker)@ && final(store)@ == old(store)@,
        valid_name(name@) && !has_name(old(store)@.sportsmen, name@) ==> r
            == Responses::SportsmanNotFound && final(tracker)@ == old(tracker)@ && final(store)@
            == old(store)@,
        valid_name(name@) && has_name(old(store)@.sportsmen, name@) && !has_row(
            old(store)@.rows,
            id_of_name(old(store)@.sportsmen, name@),
            kind,
        ) ==> r == Responses::PerformanceNotFound && final(tracker)@ == old(tracker)@
            && final(store)@ == old(store)@,
        valid_name(name@) && has_name(old(store)@.sportsmen, name@) && has_row(
            old(store)@.rows,
            id_of_name(old(store)@.sportsmen, name@),
            kind,
        ) ==> {
            &&& !has_row(final(store)@.rows, id_of_name(old(store)@.sportsmen, name@), kind)
            &&& rows_agree_except(
                old(store)@.rows,
                final(store)@.rows,
                id_of_name(old(store)@.sportsmen, name@),
                kind,
            )
            &&& final(store)@.sportsmen == old(store)@.sportsmen
            &&& (old(tracker)@.contains_key(name@) && has_kind(
                entity_seq(old(tracker)@, name@),
                kind,
            ) ==> r == Responses::PerformanceRemoved && kind_map(final(tracker)@[name@]@)
                == kind_map(old(tracker)@[name@]@).remove(kind))
            &&& (!old(tracker)@.contains_key(name@) ==> r == Responses::Errors(
                Error::SportsmanNotFound,
            ) && final(tracker)@ == old(tracker)@)
            &&& (old(tracker)@.contains_key(name@) && !has_kind(
                entity_seq(old(tracker)@, name@),
                kind,
            ) ==> r == Responses::Errors(Error::SportsmanDoesntHasMetric) && final(tracker)@
                == old(tracker)@)
        },
{
    let sportsman = match Sportsman::new(name) {
        Ok(s) => s,
        Err(e) => {
            return Responses::Errors(e);
        },
    };
    match store.remove_performance(&sportsman, kind) {
        Ok(removed) => {
            if !removed {
                return Responses::PerformanceNotFound;
            }
        },
        Err(e) => {
            return match e {
                StoreError::RowNotFound => Responses::SportsmanNotFound,
                StoreError::Failure => Responses::Errors(Error::RemoveError),
            };
        },
    }
    match tracker.remove_performance(sportsman, kind) {
        Ok(_) => Responses::PerformanceRemoved,
        Err(e) => Responses::Errors(e),
    }
}

} // verus!
