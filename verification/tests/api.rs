//! Presentation types: delay formatting, page counts, health, and the
//! refresh loop's decisions and counters.

use forsinka::api::{format_delay, sort_trains, Healthy, TrainJourney, TrainsPage};
use forsinka::server::state::{record_sync_cycle, RefreshAction, RefreshEvent, RefreshLoop};

fn train(delay_seconds: i64, possibly_stuck: bool) -> TrainJourney {
    TrainJourney {
        vehicle_journey_id: "J1".to_string(),
        line_ref: "R20: A to B".to_string(),
        cancellation: false,
        data_source: "VYG".to_string(),
        stop_name: "A".to_string(),
        next_stop_name: Some("B".to_string()),
        aimed_time: 0,
        actual_time: delay_seconds,
        delay_seconds,
        next_stop_time: Some(1200),
        departed: true,
        possibly_stuck,
    }
}

#[test]
fn format_delay_renders_whole_minutes() {
    assert_eq!(format_delay(&120), "2 min");
    assert_eq!(format_delay(&59), "0 min");
    assert_eq!(format_delay(&3600), "60 min");
    assert_eq!(format_delay(&0), "0 min");
}

#[test]
fn format_delay_truncates_toward_zero_and_keeps_sign() {
    assert_eq!(format_delay(&-90), "-1 min");
    assert_eq!(format_delay(&-30), "0 min");
    assert_eq!(format_delay(&-3600), "-60 min");
    assert_eq!(format_delay(&i32::MIN), "-35791394 min");
    assert_eq!(format_delay(&i32::MAX), "35791394 min");
}

#[test]
fn trains_page_counts_delayed_and_stuck() {
    let trains = vec![train(30, false), train(120, false), train(61, true), train(600, true)];
    let page = TrainsPage::new(trains, "/static".to_string());
    assert_eq!(page.delayed_count, 3);
    assert_eq!(page.stuck_count, 2);
    assert_eq!(page.assets_path, "/static");
    assert_eq!(page.trains.len(), 4);
}

#[test]
fn health_is_a_small_gap_between_present_counters() {
    assert!(Healthy::new(Some(0), Some(5)).healthy);
    assert!(Healthy::new(Some(7), Some(7)).healthy);
    assert!(!Healthy::new(Some(0), Some(10)).healthy);
    assert!(!Healthy::new(None, Some(1)).healthy);
    assert!(!Healthy::new(Some(1), None).healthy);
    assert!(!Healthy::new(None, None).healthy);
}

#[test]
fn sync_counters_always_advance_attempts() {
    assert_eq!(record_sync_cycle(1, 7, true), (7, 8));
    assert_eq!(record_sync_cycle(1, 7, false), (1, 8));
    assert_eq!(record_sync_cycle(0, u32::MAX, false), (0, 0));
}

#[test]
fn refresh_loop_arms_on_first_tick_only() {
    let mut l = RefreshLoop::new();
    assert_eq!(l.on_event(RefreshEvent::Tick), RefreshAction::Arm);
    assert_eq!(l.on_event(RefreshEvent::Tick), RefreshAction::Fetch);
    assert_eq!(l.on_event(RefreshEvent::ShutdownChanged(false)), RefreshAction::Wait);
    assert_eq!(l.on_event(RefreshEvent::Tick), RefreshAction::Fetch);
    assert_eq!(l.on_event(RefreshEvent::ShutdownChanged(true)), RefreshAction::Stop);
}

#[test]
fn sort_trains_puts_stuck_first_then_largest_delay() {
    let trains = vec![train(30, false), train(500, false), train(10, true), train(120, false)];
    let sorted = sort_trains(trains);
    let keys: Vec<(bool, i64)> =
        sorted.iter().map(|t| (t.possibly_stuck, t.delay_seconds)).collect();
    assert_eq!(keys, vec![(true, 10), (false, 500), (false, 120), (false, 30)]);
}
