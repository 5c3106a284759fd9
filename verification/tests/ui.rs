use chrono::{DateTime, TimeDelta, TimeZone, Utc};
use parcli::app::{App, Mode};
use parcli::clock::{Interval, TimeSpan, Timestamp};
use parcli::geo::Coord;
use parcli::journey::{render_strip, StopKind};
use parcli::keys::{KeyCode, KeyEvent, LineInput, NONE};
use parcli::provider::{Status, TrackEvent, Tracking};
use parcli::store::{ParcelList, ParcelState, StateCache};
use parcli::ui::detail::{
    build_event_lines, build_timeline, detail_title, events_title, map_is_shown, stops_for, summary_card, summary_height,
    summary_rows, Timeline, CARD_TITLE, STRIP_HEIGHT,
};
use parcli::ui::footer::{editing_line, footer_line, hint_line, Footer};
use parcli::ui::header::header_line;
use parcli::ui::map::{map_legs, map_pins, pin_glyph};
use parcli::ui::table::{column_titles, selected_color, selected_status, spinner_frame, table_rows, NextCell, EMPTY_HINT};
use parcli::ui::theme::{carrier_color, fnv1a, key_hint, Color, Line, Span, ACCENT, CARRIER, DIM, ERROR_BG};
use parcli::ui::{age_color, bar_text, humanize, status_color, status_pill};

fn ts(t: DateTime<Utc>) -> Timestamp {
    Timestamp::new(t.timestamp(), t.timestamp_subsec_nanos()).unwrap()
}

fn moment() -> DateTime<Utc> {
    Utc.with_ymd_and_hms(2026, 9, 13, 12, 0, 0).unwrap()
}

fn now() -> Timestamp {
    ts(moment())
}

fn after(d: TimeDelta) -> Timestamp {
    ts(moment() + d)
}

fn span(d: TimeDelta) -> TimeSpan {
    TimeSpan::new(d.num_seconds(), 0).unwrap()
}

fn coord(lat: f64, lon: f64) -> Coord {
    Coord { lat: lat.to_bits(), lon: lon.to_bits() }
}

fn sample_tracking(status: Status) -> Tracking {
    Tracking {
        number: "RB123456789CN".into(),
        carrier: Some("China Post".into()),
        status,
        events: vec![TrackEvent {
            time: Some(after(-TimeDelta::hours(5))),
            description: "Departed facility".into(),
            location: Some("Shenzhen".into()),
            translated: None,
        }],
        fetched_at: now(),
        attributes: vec![],
        tracking_url: None,
    }
}

fn bare_tracking(number: &str, status: Status) -> Tracking {
    Tracking {
        number: number.into(),
        carrier: None,
        status,
        events: vec![],
        fetched_at: now(),
        attributes: vec![],
        tracking_url: None,
    }
}

fn state(tracking: Option<Tracking>, next_poll: Timestamp) -> ParcelState {
    ParcelState { tracking, last_error: None, failures: 0, next_poll }
}

fn app_knowing(tracking: Tracking, next_poll: Timestamp) -> App {
    let mut list = ParcelList::default();
    list.add("RB123456789CN", Some("camera"), now());
    list.add("1Z999AA10123456784", None, now());
    let mut cache = StateCache::default();
    cache.by_number.insert("RB123456789CN".into(), state(Some(tracking), next_poll));
    App::new(list, cache, Interval::from_secs(600))
}

fn sample_app() -> App {
    app_knowing(sample_tracking(Status::InTransit), after(TimeDelta::minutes(7)))
}

fn line_text(line: &Line) -> String {
    line.spans.iter().map(|s| s.content.as_str()).collect()
}

fn next_text(cell: &NextCell, interval: u64) -> String {
    match cell {
        NextCell::Text(s) => s.content.clone(),
        NextCell::Countdown { remaining, text } => {
            let frac = (1.0 - remaining.num_seconds() as f64 / interval as f64).clamp(0.0, 1.0);
            format!("{} {text}", bar_text((frac * 5.0).floor() as usize, 5))
        }
    }
}

fn footer_text(app: &App, width: u16) -> String {
    match footer_line(app, width) {
        Footer::Hints(l) => line_text(&l),
        Footer::Editing { line, .. } => line_text(&line),
        Footer::Question(t) => t,
    }
}

/// Everything that the dashboard shows, piece by piece.
fn render(app: &App, width: u16) -> String {
    let mut out = vec![line_text(&header_line(app, now()))];
    match &app.mode {
        Mode::Detail { scroll } => {
            let parcel = app.selected_parcel().unwrap();
            out.push(detail_title(parcel));
            let stops = stops_for(app, &parcel.number);
            if map_is_shown(app, width) {
                out.push(parcli::ui::map::TITLE.to_string());
                out.extend(map_pins(&stops, selected_status(app), 0).into_iter().map(|p| p.text));
            }
            out.push(CARD_TITLE.to_string());
            out.extend(summary_card(&summary_rows(app, parcel, now())).iter().map(line_text));
            let status =
                app.state_for(&parcel.number).and_then(|s| s.tracking.as_ref()).map_or(Status::Unknown, |t| t.status);
            out.extend(render_strip(&stops, status, 0, width).iter().map(line_text));
            out.push(events_title(app, &parcel.number));
            match build_timeline(app, &parcel.number, *scroll, now()) {
                Timeline::Notice(lines) => out.extend(lines.iter().map(line_text)),
                Timeline::Events(items) => out.extend(items.iter().flatten().map(line_text)),
            }
        }
        _ if app.parcels.parcels.is_empty() => out.push(EMPTY_HINT.to_string()),
        _ => {
            out.push(parcli::ui::table::TITLE.to_string());
            out.push(column_titles().join(" "));
            for r in table_rows(app, now(), 0) {
                let next = next_text(&r.next, app.interval.secs());
                let cells = [&r.label, &r.number, &r.carrier, &r.status, &r.last_event, &r.age];
                let texts: Vec<&str> = cells.iter().map(|s| s.content.as_str()).collect();
                out.push(format!("{} {next}", texts.join(" ")));
            }
        }
    }
    out.push(footer_text(app, width));
    out.join("\n")
}

fn check_table() {
    let out = render(&sample_app(), 120);
    for needle in [
        "LABEL",
        "camera",
        "RB123456789CN",
        "China Post",
        "in transit",
        "Departed facility",
        "5h",
        "7m",
        "1Z999AA10123456784",
        "2 parcels",
        "a add",
        "parcels",
    ] {
        assert!(out.contains(needle), "missing {needle:?} in:\n{out}");
    }
}

#[test]
fn ui_table_shows_header_rows_and_values() {
    check_table();
}

#[test]
fn mod_table_shows_header_rows_and_values() {
    check_table();
}

fn check_delivered_header() {
    let mut list = ParcelList::default();
    list.add("RB123456789CN", None, now());
    let mut cache = StateCache::default();
    cache.by_number.insert(
        "RB123456789CN".into(),
        state(Some(bare_tracking("RB123456789CN", Status::Delivered)), after(TimeDelta::minutes(5))),
    );
    let app = App::new(list, cache, Interval::from_secs(600));
    let out = render(&app, 120);
    assert!(out.contains("next poll \u{2014}"), "{out}");
}

#[test]
fn ui_header_ignores_delivered_parcels_for_next_poll() {
    check_delivered_header();
}

#[test]
fn mod_header_ignores_delivered_parcels_for_next_poll() {
    check_delivered_header();
}

fn check_empty_hint() {
    let app = App::new(ParcelList::default(), StateCache::default(), Interval::from_secs(600));
    let out = render(&app, 80);
    assert!(out.contains("press a to add"), "{out}");
}

#[test]
fn ui_empty_list_shows_hint() {
    check_empty_hint();
}

#[test]
fn mod_empty_list_shows_hint() {
    check_empty_hint();
}

fn typed(s: &str) -> LineInput {
    let mut input = LineInput::new();
    for c in s.chars() {
        input.press(KeyEvent::new(KeyCode::Char(c), NONE));
    }
    input
}

fn check_prompt() {
    let mut app = sample_app();
    app.mode = Mode::Adding(typed("RB9"));
    let out = render(&app, 80);
    assert!(out.contains("add:"), "{out}");
    assert!(out.contains("RB9"), "{out}");
}

#[test]
fn ui_adding_mode_shows_prompt_and_input() {
    check_prompt();
}

#[test]
fn mod_adding_mode_shows_prompt_and_input() {
    check_prompt();
}

fn check_confirm() {
    let mut app = sample_app();
    app.selected = 1;
    app.mode = Mode::ConfirmRemove;
    let out = render(&app, 80);
    assert!(out.contains("remove 1Z999AA10123456784? (y/n)"), "{out}");
}

#[test]
fn ui_confirm_mode_names_the_parcel() {
    check_confirm();
}

#[test]
fn mod_confirm_mode_names_the_parcel() {
    check_confirm();
}

fn check_detail_events() {
    let mut app = sample_app();
    app.mode = Mode::Detail { scroll: 0 };
    let out = render(&app, 100);
    assert!(out.contains("Shenzhen"), "{out}");
    assert!(out.contains("Departed facility"), "{out}");
    assert!(!out.contains("LABEL"), "{out}");
}

#[test]
fn ui_detail_mode_lists_events() {
    check_detail_events();
}

#[test]
fn mod_detail_mode_lists_events() {
    check_detail_events();
}

fn check_scroll_past_end() {
    let mut app = sample_app();
    app.mode = Mode::Detail { scroll: 50 };
    let out = render(&app, 100);
    assert!(out.contains("Departed facility"), "{out}");
}

#[test]
fn ui_detail_scroll_past_end_still_shows_last_event() {
    check_scroll_past_end();
}

#[test]
fn mod_detail_scroll_past_end_still_shows_last_event() {
    check_scroll_past_end();
}

#[test]
fn detail_shows_summary_card_and_timeline_with_original_text() {
    let mut t = sample_tracking(Status::InTransit);
    t.events[0].translated = Some("Left the facility".into());
    t.attributes = vec![("Days in transit".into(), "2".into())];
    t.tracking_url = Some("https://example.test/track".into());
    let mut app = app_knowing(t, after(TimeDelta::minutes(7)));
    app.mode = Mode::Detail { scroll: 0 };
    let out = render(&app, 100);
    for needle in [
        "summary",
        "Number",
        "RB123456789CN",
        "Carrier",
        "China Post",
        "Days in transit",
        "2",
        "Tracking link",
        "https://example.test/track",
        "events (1)",
        "●",
        "Left the facility",
        "Departed facility",
        "Shenzhen",
    ] {
        assert!(out.contains(needle), "missing {needle:?} in:\n{out}");
    }

    // Value column must line up: every key is padded to the width of the longest key
    // present, so "Number" and "Days in transit" values start at the same column.
    let keys =
        ["Number", "Label", "Carrier", "Status", "Days in transit", "Last update", "Next poll", "Tracking link"];
    let key_w = keys.iter().map(|k| k.chars().count()).max().unwrap();
    let expected_number = format!("{:<key_w$}  {}", "Number", "RB123456789CN");
    let expected_attr = format!("{:<key_w$}  {}", "Days in transit", "2");
    assert!(out.contains(&expected_number), "keys not aligned, missing {expected_number:?} in:\n{out}");
    assert!(out.contains(&expected_attr), "keys not aligned, missing {expected_attr:?} in:\n{out}");

    let names: Vec<String> =
        summary_rows(&app, app.selected_parcel().unwrap(), now()).into_iter().map(|r| r.0).collect();
    assert_eq!(names, keys);
}

#[test]
fn detail_event_already_english_renders_one_line_not_two() {
    let mut t = sample_tracking(Status::InTransit);
    // Same text stored as `translated` must not print a duplicate original line beneath.
    t.events[0].translated = Some("Departed facility".into());
    let mut app = app_knowing(t, after(TimeDelta::minutes(7)));
    app.mode = Mode::Detail { scroll: 0 };
    let out = render(&app, 100);
    assert_eq!(out.matches("Departed facility").count(), 1, "should not duplicate the original line:\n{out}");
}

#[test]
fn detail_next_poll_mirrors_table_for_delivered_and_overdue() {
    // Not overdue, but delivered.
    let mut app = app_knowing(sample_tracking(Status::Delivered), after(TimeDelta::minutes(10)));
    app.mode = Mode::Detail { scroll: 0 };
    let out = render(&app, 100);
    // No `tracking_url`/attributes set here, so the card's longest key is "Last update".
    let keys = ["Number", "Label", "Carrier", "Status", "Last update", "Next poll"];
    let key_w = keys.iter().map(|k| k.chars().count()).max().unwrap();
    let expected_done = format!("{:<key_w$}  {}", "Next poll", "done");
    assert!(out.contains(&expected_done), "delivered parcel should show done:\n{out}");

    // Overdue but not delivered: table shows "now" via humanize, detail must match.
    app.selected = 1;
    app.cache.by_number.insert(
        "1Z999AA10123456784".into(),
        state(Some(bare_tracking("1Z999AA10123456784", Status::InTransit)), after(-TimeDelta::minutes(1))),
    );
    let out = render(&app, 100);
    let expected_now = format!("{:<key_w$}  {}", "Next poll", "now");
    assert!(out.contains(&expected_now), "overdue non-delivered parcel should show now:\n{out}");
}

#[test]
fn detail_without_data_shows_placeholder_and_error() {
    let mut app = sample_app();
    app.selected = 1; // 1Z999… has no cache entry
    app.mode = Mode::Detail { scroll: 0 };
    let out = render(&app, 100);
    assert!(out.contains("no data yet"), "{out}");
    app.cache.by_number.insert(
        "1Z999AA10123456784".into(),
        ParcelState { tracking: None, last_error: Some("timed out".into()), failures: 1, next_poll: now() },
    );
    let out = render(&app, 100);
    assert!(out.contains("timed out"), "{out}");
    assert!(out.contains("last error: timed out"), "{out}");
}

#[test]
fn a_tracking_without_events_says_so() {
    let mut app = app_knowing(bare_tracking("RB123456789CN", Status::Pending), now());
    app.mode = Mode::Detail { scroll: 3 };
    let out = render(&app, 90);
    assert!(out.contains("no events reported"), "{out}");
    assert!(out.contains(" events (0) "), "{out}");
    assert!(out.contains("just now"), "{out}");
}

fn check_polling() {
    let mut app = sample_app();
    app.polling = Some("1Z999AA10123456784".into());
    app.last_error = Some("1Z999AA10123456784: timed out".into());
    let out = render(&app, 120);
    assert!(out.contains("polling"), "{out}");
    assert!(out.contains("timed out"), "{out}");
}

#[test]
fn ui_polling_row_shows_spinner_and_error_shows_in_header() {
    check_polling();
}

#[test]
fn mod_polling_row_shows_spinner_and_error_shows_in_header() {
    check_polling();
}

fn check_humanize() {
    assert_eq!(humanize(span(TimeDelta::seconds(45))), "45s");
    assert_eq!(humanize(span(TimeDelta::seconds(125))), "2m");
    assert_eq!(humanize(span(TimeDelta::hours(5) + TimeDelta::minutes(3))), "5h");
    assert_eq!(humanize(span(TimeDelta::days(2))), "2d");
    assert_eq!(humanize(span(TimeDelta::seconds(-5))), "now");
}

#[test]
fn ui_humanize_durations() {
    check_humanize();
}

#[test]
fn mod_humanize_durations() {
    check_humanize();
}

#[test]
fn durations_change_their_unit_when_it_is_full() {
    let text = |secs: i64, nanos: u32| humanize(TimeSpan::new(secs, nanos).unwrap());
    assert_eq!(text(0, 999_999_999), "now");
    assert_eq!(text(-1, 0), "now");
    assert_eq!(text(1, 0), "1s");
    assert_eq!(text(59, 999_999_999), "59s");
    assert_eq!(text(60, 0), "1m");
    assert_eq!(text(3599, 0), "59m");
    assert_eq!(text(3600, 0), "1h");
    assert_eq!(text(86_399, 0), "23h");
    assert_eq!(text(86_400, 0), "1d");
}

#[test]
fn age_colors_by_staleness() {
    assert_eq!(age_color(span(TimeDelta::hours(3))), Color::Green);
    assert_eq!(age_color(span(TimeDelta::hours(30))), Color::Yellow);
    assert_eq!(age_color(span(TimeDelta::days(4))), Color::Red);
}

#[test]
fn ages_change_their_color_after_a_day_and_after_three() {
    assert_eq!(age_color(TimeSpan::new(86_399, 999_999_999).unwrap()), Color::Green);
    assert_eq!(age_color(TimeSpan::new(86_400, 0).unwrap()), Color::Yellow);
    assert_eq!(age_color(TimeSpan::new(3 * 86_400, 0).unwrap()), Color::Red);
}

#[test]
fn bars_are_filled_from_the_left() {
    assert_eq!(bar_text(0, 5), "▱▱▱▱▱");
    assert_eq!(bar_text(2, 4), "▰▰▱▱");
    assert_eq!(bar_text(3, 3), "▰▰▰");
    assert_eq!(bar_text(7, 2), "▰▰");
}

#[test]
fn table_shows_progress_bar_and_translated_text() {
    let mut t = sample_tracking(Status::InTransit);
    t.events[0].translated = Some("Left the facility".into());
    // 7 minutes remaining of a 10-minute interval → 30% elapsed → 1 of 5 blocks
    let app = app_knowing(t, after(TimeDelta::minutes(7)));
    let out = render(&app, 120);
    assert!(out.contains("▰▱▱▱▱ 7m"), "{out}");
    assert!(out.contains("Left the facility"), "{out}");
    assert!(!out.contains("Departed facility"), "table shows translation only: {out}");
    assert!(out.contains("parcels"), "block title: {out}");
}

fn check_status_colors() {
    let all = [
        Status::Pending,
        Status::InTransit,
        Status::OutForDelivery,
        Status::Delivered,
        Status::Exception,
        Status::Unknown,
    ];
    let mut colors: Vec<Color> = all.iter().map(|s| status_color(*s)).collect();
    colors.sort_by_key(|c| format!("{c:?}"));
    colors.dedup();
    assert_eq!(colors.len(), 6);
}

#[test]
fn ui_status_colors_are_distinct() {
    check_status_colors();
}

#[test]
fn mod_status_colors_are_distinct() {
    check_status_colors();
}

#[test]
fn footer_shows_key_hints() {
    let app = sample_app();
    let out = render(&app, 120);
    assert!(out.contains("a add"), "{out}");
    assert!(out.contains("d remove"), "{out}");
    assert!(out.contains("--home to set your address"), "no home set, should hint at --home:\n{out}");

    let mut app = sample_app();
    app.mode = Mode::Detail { scroll: 0 };
    let out = render(&app, 100);
    assert!(out.contains("j/k scroll"), "{out}");
    assert!(out.contains("q/Esc back"), "{out}");
}

#[test]
fn header_shows_home_indicator() {
    let app = sample_app();
    let out = render(&app, 120);
    assert!(out.contains('⌂'), "{out}");
    assert!(out.contains("⌂ unset"), "no home configured:\n{out}");

    let mut app = sample_app();
    app.parcels.home = Some("Roissy CDG".into());
    let out = render(&app, 120);
    assert!(out.contains("⌂ set"), "home configured:\n{out}");
    assert!(!out.contains("--home to set your address"), "home is set, no hint needed:\n{out}");
}

#[test]
fn detail_shows_journey_strip_with_home() {
    let mut app = sample_app();
    app.parcels.home = Some("Berlin".into());
    app.mode = Mode::Detail { scroll: 0 };
    let out = render(&app, 100);
    assert!(out.contains('┄'), "in-transit strip should show remaining dashes to home:\n{out}");
    assert!(out.contains("Berlin"), "strip should name the home stop:\n{out}");
}

fn located_app() -> App {
    let mut app = sample_app();
    app.parcels.home = Some("Berlin".into());
    app.cache.geo.insert("Shenzhen".into(), Some(coord(22.5445741, 114.0545429)));
    app.cache.geo.insert("Berlin".into(), Some(coord(52.52, 13.405)));
    app.mode = Mode::Detail { scroll: 0 };
    app
}

#[test]
fn detail_wide_shows_map_with_home_pin() {
    let app = located_app();
    let out = render(&app, 120);
    assert!(out.contains("map"), "wide detail should show the map pane:\n{out}");
    assert!(out.contains('⌂'), "map should pin home:\n{out}");
    assert!(out.contains("⌂ Berlin"), "{out}");
}

#[test]
fn detail_narrow_hides_map() {
    let app = located_app();
    let out = render(&app, 90);
    assert!(!out.contains("map"), "narrow detail should not show the map pane:\n{out}");
    assert!(map_is_shown(&app, 100));
    assert!(!map_is_shown(&app, 99));
}

#[test]
fn detail_map_toggle_off_hides_map() {
    let mut app = located_app();
    app.show_map = false;
    let out = render(&app, 120);
    assert!(!out.contains("map"), "show_map=false should hide the map pane:\n{out}");
}

#[test]
fn carrier_color_is_stable_and_distinct_for_samples() {
    assert_eq!(carrier_color("DHL"), carrier_color("DHL"), "same name must be stable");
    assert_eq!(carrier_color("China Post"), carrier_color("China Post"));

    let dhl = carrier_color("DHL");
    let china_post = carrier_color("China Post");
    let chronopost = carrier_color("Chronopost France");
    assert_ne!(dhl, china_post, "DHL and China Post must not collide");
    assert_ne!(dhl, chronopost, "DHL and Chronopost France must not collide");
    assert_ne!(china_post, chronopost, "China Post and Chronopost France must not collide");
}

#[test]
fn carrier_colors_come_from_the_hash_of_the_name() {
    let palette = [
        Color::Magenta,
        Color::Blue,
        Color::Green,
        Color::Cyan,
        Color::Yellow,
        Color::LightMagenta,
        Color::LightBlue,
        Color::LightGreen,
    ];
    for name in ["", "a", "DHL", "China Post", "Österreichische Post", "中国邮政"] {
        let hash = name
            .bytes()
            .fold(0xcbf2_9ce4_8422_2325u64, |h, b| (h ^ b as u64).wrapping_mul(0x0000_0100_0000_01b3));
        assert_eq!(carrier_color(name), palette[(hash % 8) as usize], "{name}");
    }
}

#[test]
fn key_hint_bolds_the_key_and_dims_the_label() {
    let spans = key_hint("a", "add");
    assert_eq!(spans.len(), 2);
    assert_eq!(spans[0].content, "a");
    assert_eq!(spans[0].style.fg, Some(ACCENT));
    assert!(spans[0].style.bold);
    assert_eq!(spans[1].content, " add");
    assert_eq!(spans[1].style.fg, Some(DIM));
}

#[test]
fn hints_stand_apart() {
    let line = hint_line(vec![key_hint("a", "add"), key_hint("q", "quit")]);
    assert_eq!(line_text(&line), " a add · q quit");
    assert_eq!(line_text(&hint_line(vec![])), " ");
    assert_eq!(line.spans[3].style.fg, Some(DIM));
}

#[test]
fn a_long_line_is_shown_from_where_it_is_scrolled_to() {
    let mut app = sample_app();
    app.mode = Mode::Adding(typed("RB123456789CN"));
    match footer_line(&app, 12) {
        Footer::Editing { line, cursor } => {
            assert_eq!(line_text(&line), " add: 789CN");
            assert_eq!(cursor, 5);
        }
        other => panic!("expected Editing, got {other:?}"),
    }
    let shown = parcli::keys::LineShown { text: "ab".into(), cursor: 0, scroll: 5 };
    match editing_line(&shown) {
        Footer::Editing { line, cursor } => assert_eq!((line_text(&line).as_str(), cursor), (" add: ", 0)),
        other => panic!("expected Editing, got {other:?}"),
    }
}

#[test]
fn the_header_names_the_earliest_poll_and_the_last_error() {
    let mut app = sample_app();
    app.cache.by_number.insert("1Z999AA10123456784".into(), state(None, after(TimeDelta::minutes(3))));
    app.last_error = Some("oops".into());
    let line = header_line(&app, now());
    assert_eq!(line_text(&line), " parcli  2 parcels · ⌂ unset · next poll 3m ·  oops ");
    assert_eq!(line.spans[5].style.bg, Some(Color::Indexed(ERROR_BG)));
    assert_eq!(line.spans[0].style.bg, Some(ACCENT));
}

#[test]
fn the_rows_of_the_table() {
    let mut app = sample_app();
    app.cache.by_number.insert(
        "1Z999AA10123456784".into(),
        ParcelState { tracking: None, last_error: Some("x".into()), failures: 1, next_poll: now() },
    );
    let rows = table_rows(&app, now(), 1);
    assert_eq!(rows[0].status, status_pill(Status::InTransit));
    assert_eq!(rows[0].status.content, " in transit ");
    assert_eq!(rows[0].carrier.style.fg, Some(carrier_color("China Post")));
    assert_eq!(rows[0].age.style.fg, Some(Color::Green));
    assert!(!rows[0].zebra);
    assert_eq!(rows[1].label.content, "");
    assert_eq!(rows[1].carrier.style.fg, Some(CARRIER));
    assert_eq!(rows[1].status.content, "error");
    assert_eq!(rows[1].age.content, "");
    assert!(rows[1].zebra);
    assert_eq!(next_text(&rows[1].next, 600), "▰▰▰▰▰ now");
    app.selected = 1;
    assert!(!table_rows(&app, now(), 1)[1].zebra, "the selected row stands out by itself");
    app.cache.by_number.remove("1Z999AA10123456784");
    let rows = table_rows(&app, now(), 1);
    assert_eq!(rows[1].status.content, "…");
    assert_eq!(next_text(&rows[1].next, 600), "now");
    app.polling = Some("1Z999AA10123456784".into());
    assert_eq!(next_text(&table_rows(&app, now(), 1)[1].next, 600), "/ polling");
    let delivered = app_knowing(sample_tracking(Status::Delivered), now());
    assert_eq!(next_text(&table_rows(&delivered, now(), 1)[0].next, 600), "done");
}

#[test]
fn the_frame_has_the_color_of_the_selected_status() {
    let mut app = sample_app();
    assert_eq!(selected_color(&app), Color::Blue);
    assert_eq!(selected_status(&app), Status::InTransit);
    app.selected = 1;
    assert_eq!(selected_color(&app), Color::DarkGray);
    assert_eq!(selected_status(&app), Status::Unknown);
}

#[test]
fn the_spinner_turns() {
    let frames: Vec<&str> = (0..5).map(spinner_frame).collect();
    assert_eq!(frames, vec!["|", "/", "-", "\\", "|"]);
}

#[test]
fn the_card_leaves_room_for_the_rest() {
    assert_eq!(summary_height(6, 30), 8);
    assert_eq!(summary_height(6, 12), 6);
    assert_eq!(summary_height(6, 4), 3);
    assert_eq!(summary_height(0, 30), 2);
    assert_eq!(STRIP_HEIGHT, 3);
}

#[test]
fn the_title_is_the_label_or_the_number() {
    let app = sample_app();
    assert_eq!(detail_title(&app.parcels.parcels[0]), " camera ");
    assert_eq!(detail_title(&app.parcels.parcels[1]), " 1Z999AA10123456784 ");
}

#[test]
fn the_lines_of_an_event() {
    let e = TrackEvent {
        time: None,
        description: "Colis".into(),
        location: Some("Roissy".into()),
        translated: Some("Parcel".into()),
    };
    let lines = build_event_lines(&e, true, Status::Delivered, "2026-09-13 07:00", now());
    assert_eq!(line_text(&lines[0]), format!("● 2026-09-13 07:00  {:<20} Parcel", "Roissy"));
    assert_eq!(line_text(&lines[1]), "│ Colis");
    assert_eq!(lines[0].spans[0].style.fg, Some(Color::Green));
    assert_eq!(lines[0].spans[1].style.fg, Some(DIM));
    assert!(lines[0].spans[3].style.bold);
    assert!(lines[1].spans[1].style.italic);
    let later = build_event_lines(&e, false, Status::Delivered, "x", now());
    assert_eq!(later[0].spans[0].content, "│ ");
    assert!(!later[0].spans[3].style.bold);
}

#[test]
fn the_timeline_is_dated_to_the_minute() {
    let mut t = sample_tracking(Status::InTransit);
    t.events.push(TrackEvent { time: None, description: "Posted".into(), location: None, translated: None });
    let mut app = app_knowing(t, now());
    app.mode = Mode::Detail { scroll: 0 };
    let out = render(&app, 90);
    assert!(out.contains("● 2026-09-13 07:00  Shenzhen             Departed facility"), "{out}");
    assert!(out.contains(&format!("│ {}  {:<20} Posted", "—".repeat(16), "")), "{out}");
    app.mode = Mode::Detail { scroll: 1 };
    let out = render(&app, 90);
    assert!(!out.contains("Departed facility"), "{out}");
    assert!(out.contains("Posted"), "{out}");
}

#[test]
fn the_map_has_a_pin_for_each_place_that_is_known() {
    let mut app = located_app();
    app.parcels.home = Some("A house with a long name".into());
    app.cache.geo.insert("A house with a long name".into(), Some(coord(1.0, 2.0)));
    let pins = map_pins(&stops_for(&app, "RB123456789CN"), Status::InTransit, 0);
    let texts: Vec<&str> = pins.iter().map(|p| p.text.as_str()).collect();
    assert_eq!(texts, vec!["◉ Shenzhen", "⌂ A house wit…"]);
    assert_eq!(pins[1].color, Color::Green);
    assert_eq!(map_legs(&pins), vec![(coord(22.5445741, 114.0545429), coord(1.0, 2.0))]);
    assert!(map_legs(&vec![]).is_empty());
    app.cache.geo.remove("Shenzhen");
    assert_eq!(map_pins(&stops_for(&app, "RB123456789CN"), Status::InTransit, 0).len(), 1);
}

#[test]
fn pins_tell_the_stops_apart() {
    assert_eq!(pin_glyph(StopKind::Origin, Status::InTransit, 0), ("●", ACCENT));
    assert_eq!(pin_glyph(StopKind::Waypoint, Status::InTransit, 0), ("•", DIM));
    assert_eq!(pin_glyph(StopKind::Current, Status::InTransit, 0), ("◉", Color::Blue));
    assert_eq!(pin_glyph(StopKind::Current, Status::Exception, 1), ("○", Color::Red));
    assert_eq!(pin_glyph(StopKind::Home, Status::InTransit, 1), ("⌂", Color::Green));
}

#[test]
fn a_pill_is_black_on_the_color_of_its_status() {
    let pill: Span = status_pill(Status::Exception);
    assert_eq!(pill.content, " exception ");
    assert_eq!(pill.style.fg, Some(Color::Black));
    assert_eq!(pill.style.bg, Some(Color::Red));
    assert!(pill.style.bold);
}

#[test]
fn hashes_are_fnv_1a() {
    assert_eq!(fnv1a(b""), 0xcbf2_9ce4_8422_2325);
    assert_eq!(fnv1a(b"a"), 0xaf63_dc4c_8601_ec8c);
    assert_eq!(fnv1a(b"foobar"), 0x8594_4171_f739_67e8);
    assert_eq!(fnv1a(b"ab"), (fnv1a(b"a") ^ u64::from(b'b')).wrapping_mul(0x0000_0100_0000_01b3));
}
