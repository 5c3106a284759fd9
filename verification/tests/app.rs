use chrono::{DateTime, TimeZone, Utc};
use parcli::app::{split_number_and_label, App, Effect, Failure, Mode};
use parcli::clock::{Interval, Timestamp};
use parcli::geo::Coord;
use parcli::keys::{KeyCode, KeyEvent, ALT, CONTROL, NONE, SHIFT};
use parcli::poller::{PollCommand, PollEvent, PollResult, Scheduler};
use parcli::provider::{Status, TrackEvent, Tracking};
use parcli::store::{ParcelList, StateCache};

fn ts(t: DateTime<Utc>) -> Timestamp {
    Timestamp::new(t.timestamp(), t.timestamp_subsec_nanos()).unwrap()
}

fn moment() -> DateTime<Utc> {
    Utc.with_ymd_and_hms(2026, 9, 13, 12, 0, 0).unwrap()
}

fn now() -> Timestamp {
    ts(moment())
}

fn in_minutes(m: i64) -> Timestamp {
    ts(moment() + chrono::Duration::minutes(m))
}

fn key(c: char) -> KeyEvent {
    KeyEvent::new(KeyCode::Char(c), NONE)
}

fn code(k: KeyCode) -> KeyEvent {
    KeyEvent::new(k, NONE)
}

fn app_with(numbers: &[&str]) -> App {
    let mut list = ParcelList::default();
    for n in numbers {
        list.add(n, None, now());
    }
    App::new(list, StateCache::default(), Interval::from_secs(600))
}

fn type_str(app: &mut App, s: &str) {
    for c in s.chars() {
        app.handle_key(key(c), now());
    }
}

fn tracking(number: &str, carrier: Option<&str>, status: Status, events: Vec<TrackEvent>) -> Tracking {
    Tracking {
        number: number.to_string(),
        carrier: carrier.map(|c| c.to_string()),
        status,
        events,
        fetched_at: now(),
        attributes: vec![],
        tracking_url: None,
    }
}

fn finished(number: &str, result: Result<Tracking, String>) -> PollEvent {
    PollEvent::Finished(PollResult { number: number.to_string(), result })
}

fn started(number: &str) -> PollEvent {
    PollEvent::Started(number.to_string())
}

fn send(c: PollCommand) -> Effect {
    Effect::Send(c)
}

#[test]
fn q_quits_in_normal_mode() {
    let mut app = app_with(&[]);
    assert_eq!(app.handle_key(key('q'), now()), vec![Effect::Quit]);
}

#[test]
fn ctrl_c_quits_in_every_mode() {
    let ctrl_c = KeyEvent::new(KeyCode::Char('c'), CONTROL);
    let mut app = app_with(&["A"]);
    assert_eq!(app.handle_key(ctrl_c, now()), vec![Effect::Quit]);

    app.handle_key(key('a'), now());
    assert!(matches!(app.mode, Mode::Adding(_)));
    assert_eq!(app.handle_key(ctrl_c, now()), vec![Effect::Quit]);

    app.mode = Mode::Normal;
    app.handle_key(key('d'), now());
    assert!(matches!(app.mode, Mode::ConfirmRemove));
    assert_eq!(app.handle_key(ctrl_c, now()), vec![Effect::Quit]);

    app.mode = Mode::Detail { scroll: 0 };
    assert_eq!(app.handle_key(ctrl_c, now()), vec![Effect::Quit]);
}

#[test]
fn control_counts_among_other_modifiers() {
    let mut app = app_with(&["A"]);
    assert_eq!(app.handle_key(KeyEvent::new(KeyCode::Char('c'), CONTROL + SHIFT), now()), vec![Effect::Quit]);
    assert_eq!(app.handle_key(KeyEvent::new(KeyCode::Char('c'), CONTROL + ALT), now()), vec![Effect::Quit]);
    assert!(app.handle_key(KeyEvent::new(KeyCode::Char('c'), SHIFT), now()).is_empty());
    assert!(app.handle_key(KeyEvent::new(KeyCode::Char('c'), ALT), now()).is_empty());
    assert!(app.handle_key(key('c'), now()).is_empty());
}

#[test]
fn navigation_clamps() {
    let mut app = app_with(&["A", "B", "C"]);
    app.handle_key(key('k'), now());
    assert_eq!(app.selected, 0);
    app.handle_key(key('j'), now());
    app.handle_key(code(KeyCode::Down), now());
    app.handle_key(key('j'), now());
    assert_eq!(app.selected, 2);
    app.handle_key(code(KeyCode::Up), now());
    assert_eq!(app.selected, 1);
}

#[test]
fn add_flow_saves_and_polls() {
    let mut app = app_with(&[]);
    assert!(app.handle_key(key('a'), now()).is_empty());
    assert!(matches!(app.mode, Mode::Adding(_)));
    type_str(&mut app, "rb123456789cn camera body");
    let effects = app.handle_key(code(KeyCode::Enter), now());
    assert_eq!(effects, vec![Effect::SaveParcels, send(PollCommand::Add("RB123456789CN".into()))]);
    assert!(matches!(app.mode, Mode::Normal));
    assert_eq!(app.parcels.parcels[0].number, "RB123456789CN");
    assert_eq!(app.parcels.parcels[0].label.as_deref(), Some("camera body"));
    assert_eq!(app.selected, 0);
    assert!(app.polling.is_none());
    app.apply_poll_event(started("RB123456789CN"), now());
    assert_eq!(app.polling.as_deref(), Some("RB123456789CN"));
}

#[test]
fn add_rejects_empty_and_duplicate_without_effects() {
    let mut app = app_with(&["A"]);
    app.handle_key(key('a'), now());
    assert!(app.handle_key(code(KeyCode::Enter), now()).is_empty());
    assert!(matches!(app.mode, Mode::Normal));
    app.handle_key(key('a'), now());
    type_str(&mut app, "a");
    assert!(app.handle_key(code(KeyCode::Enter), now()).is_empty());
    assert_eq!(app.parcels.parcels.len(), 1);
    assert!(app.last_error.as_deref().unwrap().contains("already"));
    assert_eq!(app.last_error.as_deref(), Some("A is already tracked"));
}

#[test]
fn esc_cancels_add() {
    let mut app = app_with(&[]);
    app.handle_key(key('a'), now());
    type_str(&mut app, "xyz");
    assert!(app.handle_key(code(KeyCode::Esc), now()).is_empty());
    assert!(matches!(app.mode, Mode::Normal));
    assert!(app.parcels.parcels.is_empty());
}

#[test]
fn a_new_parcel_is_selected() {
    let mut app = app_with(&["A", "B"]);
    let effects = app.enter_line("  c  ", now());
    assert_eq!(effects, vec![Effect::SaveParcels, send(PollCommand::Add("C".into()))]);
    assert_eq!(app.selected, 2);
    assert_eq!(app.parcels.parcels[2].label, None);
}

#[test]
fn remove_flow_confirms_then_removes_and_fixes_selection() {
    let mut app = app_with(&["A", "B"]);
    app.handle_key(key('j'), now());
    app.handle_key(key('d'), now());
    assert!(matches!(app.mode, Mode::ConfirmRemove));
    assert!(app.handle_key(key('n'), now()).is_empty());
    assert_eq!(app.parcels.parcels.len(), 2);
    app.handle_key(key('d'), now());
    let effects = app.handle_key(key('y'), now());
    assert_eq!(effects, vec![Effect::SaveParcels, Effect::SaveState, send(PollCommand::Remove("B".into()))]);
    assert_eq!(app.parcels.parcels.len(), 1);
    assert_eq!(app.selected, 0);
    assert!(matches!(app.mode, Mode::Normal));
}

#[test]
fn remove_clears_polling_for_that_parcel() {
    let mut app = app_with(&["A"]);
    app.polling = Some("A".into());
    app.handle_key(key('d'), now());
    app.handle_key(key('y'), now());
    assert!(app.polling.is_none());

    let mut app = app_with(&["A", "B"]);
    app.polling = Some("A".into());
    app.handle_key(key('j'), now());
    app.handle_key(key('d'), now());
    app.handle_key(key('y'), now());
    assert_eq!(app.polling.as_deref(), Some("A"));
}

#[test]
fn removing_forgets_what_is_known_and_late_results_bring_nothing_back() {
    let mut app = app_with(&["A", "B"]);
    app.apply_poll_event(finished("A", Ok(tracking("A", None, Status::Pending, vec![]))), now());
    assert!(app.state_for("A").is_some());
    app.handle_key(key('d'), now());
    assert!(app.handle_key(key('x'), now()).is_empty(), "anything else is ignored");
    assert!(matches!(app.mode, Mode::ConfirmRemove));
    app.handle_key(key('Y'), now());
    assert!(app.state_for("A").is_none());
    assert!(app.apply_poll_event(finished("A", Err("late".into())), now()).is_empty());
    assert!(app.state_for("A").is_none());
    assert_eq!(app.last_error, None);
}

#[test]
fn d_on_empty_list_does_nothing() {
    let mut app = app_with(&[]);
    assert!(app.handle_key(key('d'), now()).is_empty());
    assert!(matches!(app.mode, Mode::Normal));
}

#[test]
fn refresh_keys() {
    let mut app = app_with(&["A", "B"]);
    assert_eq!(app.handle_key(key('r'), now()), vec![send(PollCommand::Refresh("A".into()))]);
    assert_eq!(app.handle_key(key('R'), now()), vec![send(PollCommand::RefreshAll)]);
}

#[test]
fn nothing_is_selected_in_an_empty_list() {
    let mut app = app_with(&[]);
    assert!(app.selected_parcel().is_none());
    assert!(app.handle_key(key('r'), now()).is_empty());
    assert!(app.handle_key(code(KeyCode::Enter), now()).is_empty());
    assert!(matches!(app.mode, Mode::Normal));
    app.mode = Mode::ConfirmRemove;
    assert!(app.handle_key(key('y'), now()).is_empty());
    assert!(matches!(app.mode, Mode::Normal));
}

#[test]
fn detail_mode_scrolls_and_exits() {
    let mut app = app_with(&["A"]);
    app.handle_key(code(KeyCode::Enter), now());
    assert!(matches!(app.mode, Mode::Detail { scroll: 0 }));
    app.handle_key(key('j'), now());
    app.handle_key(key('j'), now());
    app.handle_key(key('k'), now());
    assert!(matches!(app.mode, Mode::Detail { scroll: 1 }));
    app.handle_key(key('k'), now());
    app.handle_key(key('k'), now());
    assert!(matches!(app.mode, Mode::Detail { scroll: 0 }), "scroll clamps at 0");
    assert_eq!(app.handle_key(key('r'), now()), vec![send(PollCommand::Refresh("A".into()))]);
    app.handle_key(key('q'), now());
    assert!(matches!(app.mode, Mode::Normal));
    app.handle_key(code(KeyCode::Enter), now());
    app.handle_key(code(KeyCode::Esc), now());
    assert!(matches!(app.mode, Mode::Normal));
}

#[test]
fn scrolling_stops_at_the_largest_number() {
    let mut app = app_with(&["A"]);
    app.mode = Mode::Detail { scroll: u16::MAX };
    app.handle_key(key('j'), now());
    assert!(matches!(app.mode, Mode::Detail { scroll: u16::MAX }));
}

#[test]
fn poll_success_updates_cache_and_saves() {
    let mut app = app_with(&["A"]);
    app.polling = Some("A".into());
    let build = || {
        tracking(
            "A",
            Some("DHL"),
            Status::InTransit,
            vec![TrackEvent { time: Some(now()), description: "Posted".into(), location: None, translated: None }],
        )
    };
    let effects = app.apply_poll_event(finished("A", Ok(build())), now());
    assert_eq!(effects, vec![Effect::SaveState]);
    let st = app.state_for("A").unwrap();
    assert_eq!(st.tracking.as_ref(), Some(&build()));
    assert_eq!(st.failures, 0);
    assert_eq!(st.last_error, None);
    assert_eq!(st.next_poll, in_minutes(10));
    assert_eq!(app.polling, None);
}

#[test]
fn poll_failure_keeps_old_tracking_and_records_error() {
    let mut app = app_with(&["A"]);
    let build = || tracking("A", None, Status::Pending, vec![]);
    app.apply_poll_event(finished("A", Ok(build())), now());
    app.apply_poll_event(finished("A", Err("boom".into())), now());
    let st = app.state_for("A").unwrap();
    assert_eq!(st.tracking.as_ref(), Some(&build()));
    assert_eq!(st.failures, 1);
    assert_eq!(st.last_error.as_deref(), Some("boom"));
    assert_eq!(st.next_poll, in_minutes(20));
    assert_eq!(app.last_error.as_deref(), Some("A: boom"));
}

#[test]
fn the_dashboard_and_the_schedule_agree_on_every_failure() {
    let mut app = app_with(&["A"]);
    let mut s = Scheduler::new(Interval::from_secs(600), vec!["A".into()], now());
    for k in 1..40u32 {
        app.apply_poll_event(finished("A", Err("boom".into())), now());
        s.record_failure("A", now());
        assert_eq!(Some(app.state_for("A").unwrap().next_poll), s.next_poll("A"), "failure {k}");
        assert_eq!(app.state_for("A").unwrap().failures, k);
    }
    assert_eq!(s.next_poll("A"), Some(in_minutes(60)));
    app.apply_poll_event(finished("A", Ok(tracking("A", None, Status::Pending, vec![]))), now());
    s.record_success("A", Status::Pending, now());
    assert_eq!(Some(app.state_for("A").unwrap().next_poll), s.next_poll("A"));
    assert_eq!(app.state_for("A").unwrap().failures, 0);
}

#[test]
fn poll_result_for_removed_parcel_is_ignored() {
    let mut app = app_with(&[]);
    let effects = app.apply_poll_event(finished("Z", Err("x".into())), now());
    assert!(effects.is_empty());
    assert!(app.state_for("Z").is_none());
}

#[test]
fn started_event_sets_polling_and_finished_clears_it() {
    let mut app = app_with(&["A"]);
    assert!(app.polling.is_none());
    let effects = app.apply_poll_event(started("A"), now());
    assert!(effects.is_empty());
    assert_eq!(app.polling.as_deref(), Some("A"));
    app.apply_poll_event(finished("A", Ok(tracking("A", None, Status::Pending, vec![]))), now());
    assert!(app.polling.is_none());
}

#[test]
fn the_result_of_one_poll_leaves_the_mark_of_another() {
    let mut app = app_with(&["A", "B"]);
    app.apply_poll_event(started("B"), now());
    app.apply_poll_event(finished("A", Err("boom".into())), now());
    assert_eq!(app.polling.as_deref(), Some("B"));
}

#[test]
fn m_toggles_show_map_in_normal_and_detail() {
    let mut app = app_with(&["A"]);
    assert!(app.show_map, "defaults to shown");

    assert!(app.handle_key(key('m'), now()).is_empty());
    assert!(!app.show_map);
    assert!(app.handle_key(key('m'), now()).is_empty());
    assert!(app.show_map);

    app.handle_key(code(KeyCode::Enter), now());
    assert!(matches!(app.mode, Mode::Detail { .. }));
    assert!(app.handle_key(key('m'), now()).is_empty());
    assert!(!app.show_map);
    assert!(matches!(app.mode, Mode::Detail { .. }), "toggling the map does not leave Detail mode");

    app.mode = Mode::Normal;
    app.show_map = true;
    app.handle_key(key('a'), now());
    assert!(matches!(app.mode, Mode::Adding(_)));
    assert!(app.handle_key(key('m'), now()).is_empty());
    assert!(app.show_map, "m is text input while adding, not a map toggle");
    match &app.mode {
        Mode::Adding(input) => assert_eq!(input.value(), "m"),
        other => panic!("expected Adding, got {other:?}"),
    }
}

#[test]
fn geocoded_event_updates_cache_and_saves() {
    let mut app = app_with(&["A"]);
    assert_eq!(app.cache.geo.len(), 0);
    let shenzhen = Coord { lat: 22.5f64.to_bits(), lon: 114.0f64.to_bits() };

    let effects = app.apply_poll_event(PollEvent::Geocoded { key: "Shenzhen".into(), coord: Some(shenzhen) }, now());
    assert_eq!(effects, vec![Effect::SaveState]);
    assert_eq!(app.cache.geo.get("Shenzhen"), Some(&Some(shenzhen)));

    let effects = app.apply_poll_event(PollEvent::Geocoded { key: "Nowhere".into(), coord: None }, now());
    assert_eq!(effects, vec![Effect::SaveState]);
    assert_eq!(app.cache.geo.get("Nowhere"), Some(&None), "a miss is cached too");
}

#[test]
fn splits_number_and_label() {
    assert_eq!(split_number_and_label("  ab12  my thing "), ("AB12".into(), Some("my thing".into())));
    assert_eq!(split_number_and_label("ab12"), ("AB12".into(), None));
    assert_eq!(split_number_and_label("   "), ("".into(), None));
}

#[test]
fn any_white_space_splits_number_and_label() {
    assert_eq!(split_number_and_label("ab\u{3000}x"), ("AB".into(), Some("x".into())));
    assert_eq!(split_number_and_label("\tab\n\n x  y\n"), ("AB".into(), Some("x  y".into())));
}

#[test]
fn failures_are_noted() {
    let mut app = app_with(&[]);
    app.note_failure(Failure::SavingParcels("disk full".into()));
    assert_eq!(app.last_error.as_deref(), Some("saving parcels: disk full"));
    app.note_failure(Failure::SavingState("denied".into()));
    assert_eq!(app.last_error.as_deref(), Some("saving state: denied"));
    app.note_failure(Failure::PollerStopped);
    assert_eq!(app.last_error.as_deref(), Some("poller stopped"));
}

#[test]
fn an_interval_that_is_no_span_polls_again_at_once() {
    let mut list = ParcelList::default();
    list.add("A", None, now());
    let mut app = App::new(list, StateCache::default(), Interval::from_secs(u64::MAX));
    app.apply_poll_event(finished("A", Ok(tracking("A", None, Status::Pending, vec![]))), now());
    assert_eq!(app.state_for("A").unwrap().next_poll, now());
    app.apply_poll_event(finished("A", Err("boom".into())), now());
    assert_eq!(app.state_for("A").unwrap().next_poll, now());
}
