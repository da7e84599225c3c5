//! The journey builder: identity fallback, required times, stop resolution.

use forsinka::db::StopRow;
use forsinka::entur_siriformat::{
    EstimatedCall, EstimatedCalls, EstimatedVehicleJourney, FramedVehicleJourneyRef, DataFrameRef,
    RecordedCall, RecordedCalls, StringValue,
};
use forsinka::membased::{journey_id_of, Journey, JourneyId, Stops};
use forsinka::api::{JourneyDelay, TrainJourney};

fn sv(s: &str) -> StringValue {
    StringValue { value: s.to_string() }
}

fn base_entry() -> EstimatedVehicleJourney {
    EstimatedVehicleJourney {
        block_ref: None,
        cancellation: None,
        data_source: "VYG".to_string(),
        dated_vehicle_journey_ref: None,
        destination_aimed_arrival_time: None,
        destination_display_at_origin: None,
        destination_name: None,
        destination_ref: None,
        direction_name: None,
        direction_ref: sv("1"),
        estimated_calls: None,
        extra_journey: None,
        framed_vehicle_journey_ref: None,
        is_complete_stop_sequence: None,
        journey_note: None,
        journey_pattern_name: None,
        journey_pattern_ref: None,
        line_ref: sv("NSB:Line:R20"),
        monitored: None,
        occupancy: None,
        operator_ref: None,
        origin_aimed_departure_time: None,
        origin_name: None,
        origin_ref: None,
        prediction_inaccurate: None,
        product_category_ref: None,
        published_line_name: None,
        recorded_at_time: 0,
        recorded_calls: None,
        service_feature_ref: None,
        vehicle_mode: None,
        vehicle_ref: None,
        via: None,
    }
}

fn rec_call(aimed: Option<i64>, actual: Option<i64>, stop_ref: &str) -> RecordedCall {
    RecordedCall {
        actual_arrival_time: actual,
        actual_departure_time: None,
        aimed_arrival_time: aimed,
        aimed_departure_time: None,
        arrival_platform_name: None,
        cancellation: None,
        departure_platform_name: None,
        expected_arrival_time: None,
        expected_departure_time: None,
        occupancy: None,
        order: 1,
        prediction_inaccurate: None,
        stop_point_name: None,
        stop_point_ref: sv(stop_ref),
        visit_number: None,
        via: None,
    }
}

fn est_call(aimed: Option<i64>, stop_ref: &str) -> EstimatedCall {
    EstimatedCall {
        aimed_arrival_time: aimed,
        aimed_departure_time: None,
        arrival_status: None,
        arrival_stop_assignment: None,
        cancellation: None,
        departure_boarding_activity: None,
        departure_platform_name: None,
        departure_status: None,
        departure_stop_assignment: None,
        destination_display: None,
        expected_arrival_time: None,
        expected_arrival_prediction_quality: None,
        expected_departure_time: None,
        occupancy: None,
        order: 2,
        prediction_inaccurate: None,
        request_stop: None,
        stop_point_name: None,
        stop_point_ref: sv(stop_ref),
        timing_point: None,
        visit_number: None,
    }
}

fn row(name: &str, r: &str) -> StopRow {
    StopRow { name: name.to_string(), stop_point_ref: r.to_string(), lat: None, lon: None }
}

fn catalog() -> Stops {
    Stops::new(vec![row("Oslo S", "S1"), row("Lillestrøm", "S2")])
}

const T0: i64 = 1_600_000_000;

#[test]
fn missing_all_id_candidates_is_dropped() {
    let mut e = base_entry();
    e.recorded_calls = Some(RecordedCalls { recorded_call: vec![rec_call(Some(T0), Some(T0), "S1")] });
    assert!(journey_id_of(&e).is_none());
}

#[test]
fn id_fallback_prefers_dated_then_framed_then_block() {
    let mut e = base_entry();
    e.dated_vehicle_journey_ref = Some(sv("D1"));
    e.framed_vehicle_journey_ref = Some(FramedVehicleJourneyRef {
        data_frame_ref: DataFrameRef { value: 0 },
        dated_vehicle_journey_ref: "F1".to_string(),
    });
    e.block_ref = Some(sv("B1"));
    assert_eq!(journey_id_of(&e).unwrap(), "D1");
    e.dated_vehicle_journey_ref = None;
    assert_eq!(journey_id_of(&e).unwrap(), "F1");
    e.framed_vehicle_journey_ref = None;
    assert_eq!(journey_id_of(&e).unwrap(), "B1");
    e.block_ref = None;
    assert!(journey_id_of(&e).is_none());
}

#[test]
fn missing_planned_time_drops_journey() {
    let stops = catalog();
    let mut e = base_entry();
    e.recorded_calls = Some(RecordedCalls { recorded_call: vec![rec_call(None, Some(T0), "S1")] });
    assert!(Journey::new(&stops, JourneyId::new("J1".to_string()), e).is_none());
}

#[test]
fn missing_actual_time_drops_journey() {
    let stops = catalog();
    let mut e = base_entry();
    e.recorded_calls = Some(RecordedCalls { recorded_call: vec![rec_call(Some(T0), None, "S1")] });
    assert!(Journey::new(&stops, JourneyId::new("J1".to_string()), e).is_none());
}

#[test]
fn no_recorded_calls_drops_journey() {
    let stops = catalog();
    let mut e = base_entry();
    e.estimated_calls = Some(EstimatedCalls { estimated_call: vec![est_call(Some(T0), "S2")] });
    assert!(Journey::new(&stops, JourneyId::new("J1".to_string()), e).is_none());
    let mut e2 = base_entry();
    e2.recorded_calls = Some(RecordedCalls { recorded_call: vec![] });
    assert!(Journey::new(&stops, JourneyId::new("J1".to_string()), e2).is_none());
}

#[test]
fn unresolved_prev_stop_without_embedded_name_drops_journey() {
    let stops = catalog();
    let mut e = base_entry();
    e.recorded_calls =
        Some(RecordedCalls { recorded_call: vec![rec_call(Some(T0), Some(T0), "NOPE")] });
    assert!(Journey::new(&stops, JourneyId::new("J1".to_string()), e).is_none());
}

#[test]
fn embedded_name_rescues_unresolved_stop() {
    let stops = catalog();
    let mut call = rec_call(Some(T0), Some(T0 + 120), "NOPE");
    call.stop_point_name = Some(vec![sv("Drammen")]);
    let mut e = base_entry();
    e.recorded_calls = Some(RecordedCalls { recorded_call: vec![call] });
    let j = Journey::new(&stops, JourneyId::new("J1".to_string()), e).unwrap();
    let d = JourneyDelay::from_journey(&j);
    assert_eq!(d.last_stop_name, "Drammen");
}

#[test]
fn delay_roundtrip_ninety_seconds() {
    let stops = catalog();
    let mut e = base_entry();
    e.recorded_calls =
        Some(RecordedCalls { recorded_call: vec![rec_call(Some(T0), Some(T0 + 90), "S1")] });
    let j = Journey::new(&stops, JourneyId::new("J1".to_string()), e).unwrap();
    assert_eq!(j.recorded_delay_seconds(), 90);
}

#[test]
fn delay_can_be_negative() {
    let stops = catalog();
    let mut e = base_entry();
    e.recorded_calls =
        Some(RecordedCalls { recorded_call: vec![rec_call(Some(T0), Some(T0 - 45), "S1")] });
    let j = Journey::new(&stops, JourneyId::new("J1".to_string()), e).unwrap();
    assert_eq!(j.recorded_delay_seconds(), -45);
}

#[test]
fn scenario_delayed_train_to_lillestrom() {
    // One recorded call: planned 10:00:00, actual 10:02:00, at "Oslo S";
    // one estimated call at "Lillestrøm", planned 10:20:00.
    let stops = catalog();
    let mut e = base_entry();
    e.dated_vehicle_journey_ref = Some(sv("J1"));
    e.recorded_calls =
        Some(RecordedCalls { recorded_call: vec![rec_call(Some(T0), Some(T0 + 120), "S1")] });
    e.estimated_calls =
        Some(EstimatedCalls { estimated_call: vec![est_call(Some(T0 + 1200), "S2")] });
    let j = Journey::new(&stops, JourneyId::new("J1".to_string()), e).unwrap();
    assert_eq!(j.recorded_delay_seconds(), 120);
    // 10:28:00 is planned arrival plus the eight-minute slack.
    assert!(!j.possibly_stuck(T0 + 1679));
    assert!(j.possibly_stuck(T0 + 1681));
    let t = TrainJourney::from_journey(&j, T0 + 1300);
    assert_eq!(t.next_stop_name.as_deref(), Some("Lillestrøm"));
    assert_eq!(t.delay_seconds, 120);
    assert_eq!(t.aimed_time, T0);
    assert_eq!(t.actual_time, T0 + 120);
    assert_eq!(t.next_stop_time, Some(T0 + 1200));
    assert!(!t.possibly_stuck);
    assert!(!j.finished());
}

#[test]
fn last_leg_is_never_stuck() {
    let stops = catalog();
    let mut e = base_entry();
    e.recorded_calls =
        Some(RecordedCalls { recorded_call: vec![rec_call(Some(T0), Some(T0 + 120), "S1")] });
    let j = Journey::new(&stops, JourneyId::new("J1".to_string()), e).unwrap();
    assert!(!j.possibly_stuck(T0 + 100_000_000));
    assert!(j.finished());
}

#[test]
fn next_stop_without_planned_time_reads_as_no_next_stop() {
    let stops = catalog();
    let mut e = base_entry();
    e.recorded_calls =
        Some(RecordedCalls { recorded_call: vec![rec_call(Some(T0), Some(T0 + 120), "S1")] });
    e.estimated_calls = Some(EstimatedCalls { estimated_call: vec![est_call(None, "S2")] });
    let j = Journey::new(&stops, JourneyId::new("J1".to_string()), e).unwrap();
    let d = JourneyDelay::from_journey(&j);
    assert!(d.next_stop_name.is_none());
    assert!(d.aimed_next_stop_time.is_none());
    assert!(!j.possibly_stuck(T0 + 100_000_000));
}

#[test]
fn duplicate_catalog_reference_resolves_to_last_row() {
    let stops = Stops::new(vec![row("First", "S1"), row("Second", "S1")]);
    let mut e = base_entry();
    e.recorded_calls =
        Some(RecordedCalls { recorded_call: vec![rec_call(Some(T0), Some(T0), "S1")] });
    let j = Journey::new(&stops, JourneyId::new("J1".to_string()), e).unwrap();
    let d = JourneyDelay::from_journey(&j);
    assert_eq!(d.last_stop_name, "Second");
}

#[test]
fn train_journey_label_trims_stations_and_line_prefix() {
    let stops = Stops::new(vec![row("Oslo S", "S1"), row("Fredrikstad stasjon", "S2")]);
    let mut e = base_entry();
    e.recorded_calls =
        Some(RecordedCalls { recorded_call: vec![rec_call(Some(T0), Some(T0 + 60), "S1")] });
    e.estimated_calls =
        Some(EstimatedCalls { estimated_call: vec![est_call(Some(T0 + 600), "S2")] });
    let j = Journey::new(&stops, JourneyId::new("J1".to_string()), e).unwrap();
    let t = TrainJourney::from_journey(&j, T0);
    assert_eq!(t.line_ref, "R20: Oslo S to Fredrikstad");
    assert_eq!(t.data_source, "VYG");
    assert!(t.departed);
}

#[test]
fn times_in_range_rejects_out_of_range_timestamps() {
    let mut e = base_entry();
    e.recorded_calls = Some(RecordedCalls {
        recorded_call: vec![rec_call(Some(i64::MAX), Some(T0), "S1")],
    });
    assert!(!e.times_in_range());
    let mut e2 = base_entry();
    e2.recorded_calls =
        Some(RecordedCalls { recorded_call: vec![rec_call(Some(T0), Some(T0), "S1")] });
    assert!(e2.times_in_range());
}
