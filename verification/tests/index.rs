//! The journey index: batch construction, merging, expiry, queries.

use forsinka::db::StopRow;
use forsinka::entur_siriformat::{
    EstimatedCall, EstimatedCalls, EstimatedJourneyVersionFrame, EstimatedTimetableDelivery,
    EstimatedVehicleJourney, RecordedCall, RecordedCalls, ServiceDelivery, Siri, SiriETResponse,
    StringValue,
};
use forsinka::membased::{Journeys, Stops};
use forsinka::server::state::refreshed_journeys;

fn sv(s: &str) -> StringValue {
    StringValue { value: s.to_string() }
}

fn base_entry() -> EstimatedVehicleJourney {
    EstimatedVehicleJourney {
        block_ref: None,
        cancellation: None,
        data_source: "VYG".to_string(),
        dated_vehicle_journey_ref: None,
        destination_aimed_arrival_time: None,
        destination_display_at_origin: None,
        destination_name: None,
        destination_ref: None,
        direction_name: None,
        direction_ref: sv("1"),
        estimated_calls: None,
        extra_journey: None,
        framed_vehicle_journey_ref: None,
        is_complete_stop_sequence: None,
        journey_note: None,
        journey_pattern_name: None,
        journey_pattern_ref: None,
        line_ref: sv("NSB:Line:R20"),
        monitored: None,
        occupancy: None,
        operator_ref: None,
        origin_aimed_departure_time: None,
        origin_name: None,
        origin_ref: None,
        prediction_inaccurate: None,
        product_category_ref: None,
        published_line_name: None,
        recorded_at_time: 0,
        recorded_calls: None,
        service_feature_ref: None,
        vehicle_mode: None,
        vehicle_ref: None,
        via: None,
    }
}

fn rec_call(aimed: Option<i64>, actual: Option<i64>, stop_ref: &str) -> RecordedCall {
    RecordedCall {
        actual_arrival_time: actual,
        actual_departure_time: None,
        aimed_arrival_time: aimed,
        aimed_departure_time: None,
        arrival_platform_name: None,
        cancellation: None,
        departure_platform_name: None,
        expected_arrival_time: None,
        expected_departure_time: None,
        occupancy: None,
        order: 1,
        prediction_inaccurate: None,
        stop_point_name: None,
        stop_point_ref: sv(stop_ref),
        visit_number: None,
        via: None,
    }
}

fn est_call(aimed: Option<i64>, stop_ref: &str) -> EstimatedCall {
    EstimatedCall {
        aimed_arrival_time: aimed,
        aimed_departure_time: None,
        arrival_status: None,
        arrival_stop_assignment: None,
        cancellation: None,
        departure_boarding_activity: None,
        departure_platform_name: None,
        departure_status: None,
        departure_stop_assignment: None,
        destination_display: None,
        expected_arrival_time: None,
        expected_arrival_prediction_quality: None,
        expected_departure_time: None,
        occupancy: None,
        order: 2,
        prediction_inaccurate: None,
        request_stop: None,
        stop_point_name: None,
        stop_point_ref: sv(stop_ref),
        timing_point: None,
        visit_number: None,
    }
}

fn row(name: &str, r: &str) -> StopRow {
    StopRow { name: name.to_string(), stop_point_ref: r.to_string(), lat: None, lon: None }
}

fn catalog() -> Stops {
    Stops::new(vec![row("Oslo S", "S1"), row("Lillestrøm", "S2")])
}

const T0: i64 = 1_600_000_000;

/// A complete entry for journey `id`, recorded at `rec_at`, with a delay of
/// `delay` seconds, and `with_next` controlling whether estimated calls
/// remain.
fn entry(id: &str, rec_at: i64, delay: i64, with_next: bool) -> EstimatedVehicleJourney {
    let mut e = base_entry();
    e.dated_vehicle_journey_ref = Some(sv(id));
    e.recorded_at_time = rec_at;
    e.recorded_calls =
        Some(RecordedCalls { recorded_call: vec![rec_call(Some(T0), Some(T0 + delay), "S1")] });
    if with_next {
        e.estimated_calls =
            Some(EstimatedCalls { estimated_call: vec![est_call(Some(T0 + 1200), "S2")] });
    }
    e
}

#[test]
fn empty_batch_builds_empty_index() {
    let stops = catalog();
    let mut idx = Journeys::new(&stops, vec![]);
    assert_eq!(idx.len(), 0);
    assert!(idx.is_wf());
    idx.expire(1_000_000);
    assert_eq!(idx.len(), 0);
    let other = Journeys::new(&stops, vec![entry("J1", 100, 60, true)]);
    idx.merge_from(other);
    assert_eq!(idx.len(), 1);
}

#[test]
fn entry_without_actual_time_builds_empty_index() {
    let stops = catalog();
    let mut e = base_entry();
    e.dated_vehicle_journey_ref = Some(sv("J1"));
    e.recorded_calls = Some(RecordedCalls { recorded_call: vec![rec_call(Some(T0), None, "S1")] });
    e.estimated_calls =
        Some(EstimatedCalls { estimated_call: vec![est_call(Some(T0 + 1200), "S2")] });
    let idx = Journeys::new(&stops, vec![e]);
    assert_eq!(idx.len(), 0);
}

#[test]
fn entry_without_id_builds_empty_index() {
    let stops = catalog();
    let e = {
        let mut e = entry("J1", 100, 60, true);
        e.dated_vehicle_journey_ref = None;
        e
    };
    let idx = Journeys::new(&stops, vec![e]);
    assert_eq!(idx.len(), 0);
}

#[test]
fn newest_record_wins_within_one_batch() {
    let stops = catalog();
    // Newest first in the input; it must still win.
    let idx = Journeys::new(&stops, vec![entry("J1", 200, 120, true), entry("J1", 100, 60, true)]);
    assert_eq!(idx.len(), 1);
    let trains = idx.train_journeys();
    assert_eq!(trains[0].recorded_delay_seconds(), 120);
    let idx2 = Journeys::new(&stops, vec![entry("J1", 100, 60, true), entry("J1", 200, 120, true)]);
    assert_eq!(idx2.train_journeys()[0].recorded_delay_seconds(), 120);
}

#[test]
fn merge_is_last_writer_wins() {
    let stops = catalog();
    let mut a = Journeys::new(&stops, vec![entry("X", 100, 60, true)]);
    let b = Journeys::new(&stops, vec![entry("X", 50, 120, true)]);
    a.merge_from(b);
    assert_eq!(a.len(), 1);
    // B's version replaces A's even though A's record was newer.
    assert_eq!(a.train_journeys()[0].recorded_delay_seconds(), 120);
}

#[test]
fn merged_journey_is_replaced_wholesale() {
    // Cycle 1 has the journey unfinished; cycle 2 has no estimated calls
    // left. After the merge the journey reads finished.
    let stops = catalog();
    let mut idx = Journeys::new(&stops, vec![entry("J1", 100, 60, true)]);
    assert!(!idx.train_journeys()[0].finished());
    let cycle2 = Journeys::new(&stops, vec![entry("J1", 200, 60, false)]);
    idx.merge_from(cycle2);
    assert_eq!(idx.len(), 1);
    assert!(idx.train_journeys()[0].finished());
}

#[test]
fn expire_removes_exactly_at_or_before_cutoff() {
    let stops = catalog();
    let mut idx = Journeys::new(&stops, vec![entry("J1", 100, 60, true), entry("J2", 200, 60, true)]);
    assert_eq!(idx.len(), 2);
    idx.expire(100);
    assert_eq!(idx.len(), 1);
    // Idempotent: expiring twice with the same cutoff changes nothing.
    idx.expire(100);
    assert_eq!(idx.len(), 1);
    idx.expire(200);
    assert_eq!(idx.len(), 0);
}

#[test]
fn refresh_cycle_expires_then_merges() {
    let stops = catalog();
    let current = Journeys::new(&stops, vec![entry("J1", 100, 60, true), entry("J2", 300, 60, true)]);
    let batch = Journeys::new(&stops, vec![entry("J3", 400, 30, true)]);
    let r = refreshed_journeys(current, batch, 150);
    assert_eq!(r.len(), 2);
}

#[test]
fn by_visits_finds_journeys_headed_for_a_stop() {
    let stops = catalog();
    let idx = Journeys::new(&stops, vec![entry("J1", 100, 60, true), entry("J2", 100, 60, false)]);
    assert_eq!(idx.by_visits("Lillestrøm").len(), 1);
    assert_eq!(idx.by_visits("Oslo S").len(), 0);
    assert_eq!(idx.by_visits("Nowhere").len(), 0);
}

#[test]
fn train_journeys_filters_by_data_source() {
    let stops = catalog();
    let mut bus = entry("B1", 100, 60, true);
    bus.data_source = "RUT".to_string();
    let idx = Journeys::new(&stops, vec![entry("J1", 100, 60, true), bus]);
    assert_eq!(idx.len(), 2);
    assert_eq!(idx.train_journeys().len(), 1);
}

#[test]
fn by_mode_filters_by_membership() {
    let stops = catalog();
    let mut bus = entry("B1", 100, 60, true);
    bus.data_source = "RUT".to_string();
    let mut tram = entry("T1", 100, 60, true);
    tram.data_source = "SPO".to_string();
    let idx = Journeys::new(&stops, vec![entry("J1", 100, 60, true), bus, tram]);
    assert_eq!(idx.by_mode(&vec!["RUT".to_string(), "SPO".to_string()]).len(), 2);
    assert_eq!(idx.by_mode(&vec!["RUT".to_string()]).len(), 1);
    assert_eq!(idx.by_mode(&vec![]).len(), 0);
}

#[test]
fn cancelled_estimated_call_is_not_to_visit() {
    let stops = catalog();
    let mut e = entry("J1", 100, 60, true);
    if let Some(calls) = e.estimated_calls.as_mut() {
        calls.estimated_call[0].cancellation = Some(true);
    }
    let idx = Journeys::new(&stops, vec![e]);
    assert_eq!(idx.by_visits("Lillestrøm").len(), 0);
}

#[test]
fn built_index_is_well_formed() {
    let stops = catalog();
    let idx = Journeys::new(&stops, vec![entry("J1", 100, 60, true), entry("J2", 200, 60, true)]);
    assert!(idx.is_wf());
}

#[test]
fn stop_names_are_distinct() {
    let stops = Stops::new(vec![row("Oslo S", "S1"), row("Oslo S", "S2"), row("Bergen", "S3")]);
    let mut names = stops.stop_names();
    names.sort();
    assert_eq!(names, vec!["Bergen".to_string(), "Oslo S".to_string()]);
}

#[test]
fn response_flattens_deliveries_and_frames_in_order() {
    let resp = SiriETResponse {
        siri: Siri {
            service_delivery: ServiceDelivery {
                estimated_timetable_delivery: vec![
                    EstimatedTimetableDelivery {
                        version: "1".to_string(),
                        response_timestamp: 0,
                        estimated_journey_version_frame: vec![
                            EstimatedJourneyVersionFrame {
                                estimated_vehicle_journey: vec![entry("A", 1, 0, false)],
                                recorded_at_time: 0,
                            },
                            EstimatedJourneyVersionFrame {
                                estimated_vehicle_journey: vec![
                                    entry("B", 2, 0, false),
                                    entry("C", 3, 0, false),
                                ],
                                recorded_at_time: 0,
                            },
                        ],
                    },
                    EstimatedTimetableDelivery {
                        version: "1".to_string(),
                        response_timestamp: 0,
                        estimated_journey_version_frame: vec![EstimatedJourneyVersionFrame {
                            estimated_vehicle_journey: vec![entry("D", 4, 0, false)],
                            recorded_at_time: 0,
                        }],
                    },
                ],
                producer_ref: sv("ENT"),
                response_timestamp: 0,
            },
            version: "2.0".to_string(),
        },
    };
    let entries = resp.journeys();
    let ids: Vec<String> = entries
        .iter()
        .map(|e| e.dated_vehicle_journey_ref.as_ref().unwrap().value.clone())
        .collect();
    assert_eq!(ids, vec!["A", "B", "C", "D"]);
}
