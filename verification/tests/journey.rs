use chrono::{DateTime, TimeZone, Utc};
use parcli::clock::Timestamp;
use parcli::geo::{Coord, GeoCache};
use parcli::journey::{build_stops, dedup_places, journey_stops, render_strip, truncate_name, Stop, StopKind};
use parcli::provider::{Status, TrackEvent, Tracking};
use parcli::ui::theme::{Color, Line, DIM, WARN};

fn ts(t: DateTime<Utc>) -> Timestamp {
    Timestamp::new(t.timestamp(), t.timestamp_subsec_nanos()).unwrap()
}

fn now() -> Timestamp {
    ts(Utc.with_ymd_and_hms(2026, 9, 13, 12, 0, 0).unwrap())
}

fn event(location: &str) -> TrackEvent {
    TrackEvent { time: Some(now()), description: "moved".into(), location: Some(location.into()), translated: None }
}

fn tracking(status: Status, events: Vec<TrackEvent>) -> Tracking {
    Tracking {
        number: "X".into(),
        carrier: None,
        status,
        events,
        fetched_at: now(),
        attributes: vec![],
        tracking_url: None,
    }
}

fn stop(name: &str, kind: StopKind) -> Stop {
    Stop { name: name.into(), coord: None, kind }
}

fn line_text(line: &Line) -> String {
    line.spans.iter().map(|s| s.content.as_str()).collect()
}

fn strip_text(lines: &[Line]) -> String {
    lines.iter().map(line_text).collect::<Vec<_>>().join("\n")
}

#[test]
fn stops_dedup_and_order() {
    // Stored newest-first, as `Tracking.events` always is.
    let t = tracking(Status::InTransit, vec![event("Roissy CDG"), event("shenzhen"), event("Shenzhen")]);
    let geo = GeoCache::new();
    let stops = journey_stops(Some(&t), Some("Berlin"), &geo);

    let names: Vec<&str> = stops.iter().map(|s| s.name.as_str()).collect();
    assert_eq!(names, vec!["Shenzhen", "Roissy CDG", "Berlin"], "oldest->newest then home, deduped");
    assert_eq!(stops[0].kind, StopKind::Origin);
    assert_eq!(stops[1].kind, StopKind::Current);
    assert_eq!(stops[2].kind, StopKind::Home);
}

#[test]
fn places_are_compared_in_lower_case_of_any_script() {
    let t = tracking(Status::InTransit, vec![event("\u{c9}VRY"), event("\u{e9}vry"), event("Lyon")]);
    let stops = journey_stops(Some(&t), None, &GeoCache::new());
    let names: Vec<&str> = stops.iter().map(|s| s.name.as_str()).collect();
    assert_eq!(names, vec!["Lyon", "\u{e9}vry"]);
}

#[test]
fn delivered_parcels_are_nowhere_on_the_way() {
    let t = tracking(Status::Delivered, vec![event("Berlin"), event("  "), event("Shenzhen")]);
    let stops = journey_stops(Some(&t), Some("Home"), &GeoCache::new());
    let kinds: Vec<StopKind> = stops.iter().map(|s| s.kind).collect();
    assert_eq!(kinds, vec![StopKind::Origin, StopKind::Waypoint, StopKind::Home]);
    let one = tracking(Status::Pending, vec![event("Shenzhen")]);
    assert_eq!(journey_stops(Some(&one), None, &GeoCache::new())[0].kind, StopKind::Current);
    assert!(journey_stops(None, None, &GeoCache::new()).is_empty());
}

#[test]
fn stops_are_where_the_cache_says() {
    let shenzhen = Coord { lat: 22.5f64.to_bits(), lon: 114.0f64.to_bits() };
    let home = Coord { lat: 52.5f64.to_bits(), lon: 13.4f64.to_bits() };
    let mut geo = GeoCache::new();
    geo.insert("Shenzhen East".into(), Some(shenzhen));
    geo.insert("Nowhere".into(), None);
    geo.insert(" my  home".into(), Some(home));
    let t = tracking(Status::InTransit, vec![event("Nowhere"), event(" Shenzhen  East")]);
    let stops = journey_stops(Some(&t), Some(" my  home"), &geo);
    assert_eq!(stops[0].coord, Some(shenzhen));
    assert_eq!(stops[1].coord, None);
    assert_eq!(stops[2].coord, Some(home), "home is looked up as it is written");
    assert_eq!(stops[2].name, " my  home");
}

#[test]
fn stops_can_be_built_from_places() {
    let places = vec![
        ("A".to_string(), "a".to_string()),
        ("B".to_string(), "b".to_string()),
        ("a".to_string(), "a".to_string()),
        ("C".to_string(), "c".to_string()),
    ];
    let names = dedup_places(&places);
    assert_eq!(names, vec!["A", "B", "C"]);
    let stops = build_stops(&names, false, None, &GeoCache::new());
    let kinds: Vec<StopKind> = stops.iter().map(|s| s.kind).collect();
    assert_eq!(kinds, vec![StopKind::Origin, StopKind::Waypoint, StopKind::Current]);
}

#[test]
fn strip_marks_current_and_dashes_remaining() {
    let stops = vec![
        stop("Shenzhen", StopKind::Origin),
        stop("Roissy", StopKind::Current),
        stop("Berlin", StopKind::Home),
    ];
    let lines = render_strip(&stops, Status::InTransit, 0, 40);
    let text = strip_text(&lines);
    assert!(text.contains('◉'), "{text}");
    assert!(text.contains('┄'), "{text}");
    assert!(text.contains('▸'), "{text}");
}

#[test]
fn strip_delivered_is_solid_with_check() {
    let stops = vec![
        stop("Shenzhen", StopKind::Origin),
        stop("Roissy", StopKind::Waypoint),
        stop("Berlin", StopKind::Home),
    ];
    let lines = render_strip(&stops, Status::Delivered, 0, 40);
    let text = strip_text(&lines);
    assert!(text.contains('✔'), "{text}");
    assert!(!text.contains('┄'), "{text}");
}

#[test]
fn strip_pulse_moves_with_tick() {
    let stops = vec![stop("A", StopKind::Current), stop("B", StopKind::Home)];
    let l0 = strip_text(&render_strip(&stops, Status::InTransit, 0, 40));
    let l1 = strip_text(&render_strip(&stops, Status::InTransit, 1, 40));
    assert_ne!(l0, l1, "pulse position should move between ticks");
}

#[test]
fn strip_handles_narrow_width() {
    let stops = vec![
        stop("Shenzhen", StopKind::Origin),
        stop("Roissy CDG", StopKind::Current),
        stop("Berlin", StopKind::Home),
    ];
    let lines = render_strip(&stops, Status::InTransit, 0, 20);
    assert_eq!(lines.len(), 3);
    for line in &lines {
        assert!(line_text(line).chars().count() <= 20, "{line:?}");
    }
}

#[test]
fn empty_stops_render_single_hint_line() {
    let lines = render_strip(&vec![], Status::Unknown, 0, 40);
    assert_eq!(lines.len(), 1);
    assert!(strip_text(&lines).contains("no locations yet"));
}

#[test]
fn the_strip_column_by_column() {
    let stops = vec![
        stop("Shenzhen", StopKind::Origin),
        stop("Roissy", StopKind::Current),
        stop("Berlin", StopKind::Home),
    ];
    let lines = render_strip(&stops, Status::InTransit, 2, 21);
    assert_eq!(line_text(&lines[0]), "Shen…   Rois…   Berl…");
    assert_eq!(line_text(&lines[1]), "●━━━━━━━━━◉┄┄▸┄┄┄┄┄┄○");
    assert_eq!(line_text(&lines[2]), "origin   now     home");
    let spans: Vec<(&str, Option<Color>)> =
        lines[1].spans.iter().map(|s| (s.content.as_str(), s.style.fg)).collect();
    assert_eq!(
        spans,
        vec![
            ("●━━━━━━━━━◉", Some(Color::Blue)),
            ("┄┄", Some(DIM)),
            ("▸", Some(Color::Indexed(WARN))),
            ("┄┄┄┄┄┄○", Some(DIM)),
        ]
    );
    // Nine columns lie between the two stops, so the pulse is back after nine ticks.
    assert_eq!(render_strip(&stops, Status::InTransit, 11, 21), lines);
}

#[test]
fn a_parcel_that_waits_shows_only_home() {
    let stops = vec![stop("Berlin", StopKind::Home)];
    let lines = render_strip(&stops, Status::Pending, 0, 30);
    assert_eq!(line_text(&lines[0]), format!("Berlin{}", " ".repeat(24)));
    assert_eq!(line_text(&lines[1]), format!("○{}", " ".repeat(29)));
    assert_eq!(line_text(&lines[2]), format!("waiting for first scan{}", " ".repeat(8)));
}

#[test]
fn every_width_is_filled_exactly() {
    let stops: Vec<Stop> = (0..7)
        .map(|i| stop("a rather long name", if i == 3 { StopKind::Current } else { StopKind::Waypoint }))
        .collect();
    for width in 0..60u16 {
        for line in render_strip(&stops, Status::Exception, 5, width) {
            assert_eq!(line_text(&line).chars().count(), width.max(1) as usize);
        }
    }
}

#[test]
fn names_are_cut_with_an_ellipsis() {
    assert_eq!(truncate_name("Berlin", 6), "Berlin");
    assert_eq!(truncate_name("Berlin", 5), "Berl…");
    assert_eq!(truncate_name("Berlin", 2), "B…");
    assert_eq!(truncate_name("Berlin", 1), "…");
    assert_eq!(truncate_name("Berlin", 0), "");
    assert_eq!(truncate_name("", 0), "");
}

#[test]
fn names_stay_within_their_share_of_the_columns() {
    let stops = vec![stop("Shenzhen", StopKind::Current), stop("Berlin", StopKind::Home)];
    assert_eq!(line_text(&render_strip(&stops, Status::InTransit, 0, 5)[0]), "S… B…");
    assert_eq!(line_text(&render_strip(&stops, Status::InTransit, 0, 3)[0]), "… …");
    assert_eq!(line_text(&render_strip(&stops, Status::InTransit, 0, 1)[0]), " ");
    assert_eq!(line_text(&render_strip(&stops, Status::InTransit, 0, 8)[0]), "Sh…  Be…");
}

#[test]
fn the_case_of_letters_makes_no_stop() {
    let t = tracking(Status::InTransit, vec![event("ROISSY cdg"), event(" Roissy  CDG "), event("roissy CDG")]);
    let stops = journey_stops(Some(&t), None, &GeoCache::new());
    assert_eq!(stops, vec![stop("roissy CDG", StopKind::Current)]);
}
