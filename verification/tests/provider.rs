use chrono::{DateTime, TimeZone, Utc};
use parcli::clock::Timestamp;
use parcli::provider::parcelsapp::{
    mask_user_agent, parse_response, ApiAttribute, ApiResponse, ApiState, PageAction, PageEvent,
    ResponseWatch, TrackError, SETTLE_SECS,
};
use parcli::provider::{classify_status, Status, TrackEvent, Tracking};
use serde_json::Value;

const FIXTURE: &str = r#"{"states":[{"date":"2026-04-14T09:58:50Z","carrier":0,"status":"Pending shipping by the seller"}],"carriers":["China Post","Deutsche Post - DHL Paket"],"externalTracking":[{"url":"https://global.cainiao.com/detail.htm?mailNoList=RB123456789CN","slug":"china-post","method":"GET"}],"services":[{"slug":"china-post","name":"China Post","isFinished":true},{"slug":"deutsche-post","name":"Deutsche Post - DHL Paket"}],"detected":[0],"detectedCarrier":{"name":"China Post","slug":"china-post"},"carrier":0,"checkedCountry":"Germany","checkedCountryCode":"DE","status":"archive","final_status":"This is the final status. Carrier doesn't provide further tracking updates.","probablyDelayed":true,"attributes":[]}"#;

fn ts(t: DateTime<Utc>) -> Timestamp {
    Timestamp::new(t.timestamp(), t.timestamp_subsec_nanos()).unwrap()
}

fn now() -> Timestamp {
    ts(Utc.with_ymd_and_hms(2026, 9, 13, 12, 0, 0).unwrap())
}

fn text(v: &Value, key: &str) -> Option<String> {
    v.get(key).and_then(|x| x.as_str()).map(|x| x.to_string())
}

fn list<'a>(v: &'a Value, key: &str) -> Vec<&'a Value> {
    v.get(key).and_then(|x| x.as_array()).map(|x| x.iter().collect()).unwrap_or_default()
}

/// The response that a JSON body holds.
fn response(body: &str) -> Option<ApiResponse> {
    let v: Value = serde_json::from_str(body).ok()?;
    Some(ApiResponse {
        states: list(&v, "states")
            .iter()
            .map(|s| ApiState {
                date: text(s, "date"),
                carrier: s.get("carrier").and_then(|c| c.as_u64()).map(|c| c as usize),
                status: text(s, "status").unwrap_or_default(),
                location: text(s, "location"),
            })
            .collect(),
        carriers: list(&v, "carriers").iter().map(|c| c.as_str().unwrap().to_string()).collect(),
        detected_carrier: v.get("detectedCarrier").and_then(|c| text(c, "name")),
        status: text(&v, "status").unwrap_or_default(),
        error: text(&v, "error"),
        message: text(&v, "message"),
        attributes: list(&v, "attributes")
            .iter()
            .map(|a| ApiAttribute { n: text(a, "n"), val: text(a, "val") })
            .collect(),
        external_tracking: list(&v, "externalTracking").iter().map(|e| text(e, "url")).collect(),
    })
}

fn parse(body: &str, number: &str) -> Result<Tracking, TrackError> {
    parse_response(&response(body).unwrap(), number, now())
}

fn state(date: Option<&str>, status: &str) -> ApiState {
    ApiState { date: date.map(|d| d.to_string()), carrier: None, status: status.to_string(), location: None }
}

fn api(states: Vec<ApiState>) -> ApiResponse {
    ApiResponse {
        states,
        carriers: vec![],
        detected_carrier: None,
        status: String::new(),
        error: None,
        message: None,
        attributes: vec![],
        external_tracking: vec![],
    }
}

#[test]
fn classifies_api_status_values() {
    assert_eq!(classify_status("delivered", None), Status::Delivered);
    assert_eq!(classify_status("transit", None), Status::InTransit);
    assert_eq!(classify_status("arrived", None), Status::OutForDelivery);
    assert_eq!(classify_status("pickup", None), Status::InTransit);
    assert_eq!(classify_status("archive", None), Status::Unknown);
}

#[test]
fn falls_back_to_latest_event_text() {
    assert_eq!(classify_status("archive", Some("Pending shipping by the seller")), Status::Pending);
    assert_eq!(classify_status("", Some("Out for delivery")), Status::OutForDelivery);
    assert_eq!(classify_status("", Some("Delivered to mailbox")), Status::Delivered);
    assert_eq!(classify_status("", Some("Held at customs")), Status::Exception);
    assert_eq!(classify_status("", Some("Return to sender")), Status::Exception);
    assert_eq!(classify_status("", Some("Departed facility")), Status::InTransit);
    assert_eq!(classify_status("", Some("something odd")), Status::Unknown);
    assert_eq!(classify_status("", None), Status::Unknown);
}

#[test]
fn api_status_wins_over_event_text() {
    assert_eq!(classify_status("delivered", Some("Out for delivery")), Status::Delivered);
}

#[test]
fn labels() {
    assert_eq!(Status::OutForDelivery.label(), "out for delivery");
    assert_eq!(Status::InTransit.label(), "in transit");
}

#[test]
fn every_status_has_a_label() {
    assert_eq!(Status::Pending.label(), "pending");
    assert_eq!(Status::Delivered.label(), "delivered");
    assert_eq!(Status::Exception.label(), "exception");
    assert_eq!(Status::Unknown.label(), "unknown");
}

#[test]
fn keywords_are_read_in_any_case_and_in_their_order() {
    assert_eq!(classify_status("", Some("DELIVERED")), Status::Delivered);
    assert_eq!(classify_status("", Some("With Courier")), Status::OutForDelivery);
    assert_eq!(classify_status("", Some("with delivery courier")), Status::OutForDelivery);
    for word in ["customs", "return", "exception", "failed", "unsuccessful", "refused", "damaged", "lost"] {
        assert_eq!(classify_status("", Some(word)), Status::Exception, "{word}");
    }
    for word in ["pending", "waiting", "label created", "shipment information received", "pre-advice"] {
        assert_eq!(classify_status("", Some(word)), Status::Pending, "{word}");
    }
    for word in [
        "departed", "arrived", "in transit", "processed", "accepted", "posted", "received", "dispatched", "handed",
        "sorting", "left",
    ] {
        assert_eq!(classify_status("", Some(word)), Status::InTransit, "{word}");
    }
    // The first group that matches decides.
    assert_eq!(classify_status("", Some("returned, then delivered")), Status::Delivered);
    assert_eq!(classify_status("", Some("out for delivery after customs")), Status::OutForDelivery);
    assert_eq!(classify_status("", Some("left customs, pending")), Status::Exception);
    // Only the documented values are authoritative, and only as they are written.
    assert_eq!(classify_status("Delivered", None), Status::Unknown);
    assert_eq!(classify_status("archive", Some("arrived")), Status::InTransit);
}

#[test]
fn display_text_prefers_translation() {
    let mut e = TrackEvent {
        time: None,
        description: "Colis".to_string(),
        location: None,
        translated: Some("Parcel".to_string()),
    };
    assert_eq!(e.display_text(), "Parcel");
    e.translated = None;
    assert_eq!(e.display_text(), "Colis");
}

#[test]
fn parses_archive_fixture() {
    let t = parse(FIXTURE, "RB123456789CN").unwrap();
    assert_eq!(t.number, "RB123456789CN");
    assert_eq!(t.carrier.as_deref(), Some("China Post"));
    assert_eq!(t.status, Status::Pending);
    assert_eq!(t.events.len(), 1);
    assert_eq!(t.events[0].description, "Pending shipping by the seller");
    assert_eq!(t.events[0].time, Some(ts(Utc.with_ymd_and_hms(2026, 4, 14, 9, 58, 50).unwrap())));
    assert_eq!(t.events[0].location, None);
    assert_eq!(t.fetched_at, now());
    assert!(t.attributes.is_empty());
    assert_eq!(
        t.tracking_url.as_deref(),
        Some("https://global.cainiao.com/detail.htm?mailNoList=RB123456789CN")
    );
}

#[test]
fn parses_attributes_and_tracking_url() {
    let body = r#"{"states":[],"carriers":[],"attributes":[{"l":"days_transit","n":"Days in transit","val":"2"}],
        "externalTracking":[{"url":"https://example.test/x","slug":"x","method":"GET"}]}"#;
    let t = parse(body, "X").unwrap();
    assert_eq!(t.attributes, vec![("Days in transit".to_string(), "2".to_string())]);
    assert_eq!(t.tracking_url.as_deref(), Some("https://example.test/x"));
}

#[test]
fn incomplete_attributes_and_links_are_passed_over() {
    let body = r#"{"attributes":[{"n":"Only a name"},{"val":"3"},{"n":"Weight","val":"1 kg"}],
        "externalTracking":[{"slug":"x"},{"url":"https://example.test/y"},{"url":"https://example.test/z"}]}"#;
    let t = parse(body, "X").unwrap();
    assert_eq!(t.attributes, vec![("Weight".to_string(), "1 kg".to_string())]);
    assert_eq!(t.tracking_url.as_deref(), Some("https://example.test/y"));
}

#[test]
fn events_are_newest_first_and_carry_carrier_when_no_detected_carrier() {
    let body = r#"{"states":[
        {"date":"2026-09-01T08:00:00Z","carrier":1,"status":"Posted","location":"Shenzhen"},
        {"date":"2026-09-03T10:00:00Z","carrier":0,"status":"Delivered","location":"Berlin"}],
        "carriers":["DHL","China Post"],"status":"delivered"}"#;
    let t = parse(body, "X").unwrap();
    assert_eq!(t.status, Status::Delivered);
    assert_eq!(t.events[0].description, "Delivered");
    assert_eq!(t.events[0].location.as_deref(), Some("Berlin"));
    assert_eq!(t.events[1].description, "Posted");
    assert_eq!(t.carrier.as_deref(), Some("DHL"), "carrier of the newest event");
}

#[test]
fn empty_states_gives_unknown_status_and_no_events() {
    let t = parse(r#"{"states":[],"carriers":[]}"#, "X").unwrap();
    assert_eq!(t.status, Status::Unknown);
    assert!(t.events.is_empty());
    assert_eq!(t.carrier, None);
}

#[test]
fn api_error_field_is_an_error() {
    let err = parse(r#"{"error":"Too many requests"}"#, "X").unwrap_err();
    assert!(err.text().contains("Too many requests"));
    assert_eq!(err.text(), "parcelsapp error: Too many requests");
}

#[test]
fn an_empty_error_is_none_and_hides_the_message() {
    assert_eq!(parse(r#"{"message":"No data"}"#, "X").unwrap_err(), TrackError::Reported("No data".to_string()));
    assert!(parse(r#"{"error":"","message":"No data"}"#, "X").is_ok());
    assert!(parse(r#"{"message":""}"#, "X").is_ok());
    assert_eq!(
        parse(r#"{"error":"first","message":"second"}"#, "X").unwrap_err(),
        TrackError::Reported("first".to_string())
    );
}

#[test]
fn events_of_one_time_keep_their_order_and_undated_ones_come_last() {
    let t = parse_response(
        &api(vec![
            state(None, "undated one"),
            state(Some("2026-09-01T08:00:00Z"), "old"),
            state(Some("2026-09-03T10:00:00+02:00"), "first of two"),
            state(Some("not a date"), "undated two"),
            state(Some("2026-09-03T08:00:00Z"), "second of two"),
            state(Some("2026-09-04T08:00:00Z"), "new"),
        ]),
        "X",
        now(),
    )
    .unwrap();
    let texts: Vec<&str> = t.events.iter().map(|e| e.description.as_str()).collect();
    assert_eq!(texts, vec!["new", "first of two", "second of two", "old", "undated one", "undated two"]);
    assert_eq!(t.events[1].time, t.events[2].time);
    assert_eq!(t.events[4].time, None);
    assert_eq!(t.events[5].time, None);
}

#[test]
fn descriptions_are_trimmed_and_blank_locations_dropped() {
    let mut s = state(None, "  Posted\n");
    s.location = Some(" \t".to_string());
    let mut s2 = state(None, "Left");
    s2.location = Some(" Paris ".to_string());
    let t = parse_response(&api(vec![s, s2]), "X", now()).unwrap();
    assert_eq!(t.events[0].description, "Posted");
    assert_eq!(t.events[0].location, None);
    assert_eq!(t.events[1].location.as_deref(), Some(" Paris "));
    assert_eq!(t.status, Status::InTransit, "the newest event is the first");
}

#[test]
fn the_carrier_of_the_newest_event_must_be_listed() {
    let mut s = state(None, "Posted");
    s.carrier = Some(2);
    let mut response = api(vec![s]);
    response.carriers = vec!["DHL".to_string(), "UPS".to_string()];
    assert_eq!(parse_response(&response, "X", now()).unwrap().carrier, None);
    response.states[0].carrier = Some(1);
    assert_eq!(parse_response(&response, "X", now()).unwrap().carrier.as_deref(), Some("UPS"));
    response.detected_carrier = Some("China Post".to_string());
    assert_eq!(parse_response(&response, "X", now()).unwrap().carrier.as_deref(), Some("China Post"));
}

fn begun(url: &str, id: &str) -> PageEvent {
    PageEvent::Response { url: url.to_string(), id: id.to_string() }
}

fn loaded(id: &str) -> PageEvent {
    PageEvent::Loaded { id: id.to_string() }
}

#[test]
fn only_the_wanted_responses_are_fetched_and_the_last_is_read() {
    let mut watch = ResponseWatch::new();
    assert_eq!(watch.step(begun("https://parcelsapp.com/widget.js", "1")), PageAction::Listen);
    assert_eq!(watch.step(begun("https://parcelsapp.com/api/v2/parcels", "2")), PageAction::Listen);
    assert_eq!(watch.step(loaded("1")), PageAction::Listen);
    assert_eq!(watch.step(loaded("2")), PageAction::FetchBody("2".to_string()));
    assert_eq!(watch.step(PageEvent::Body("early".to_string())), PageAction::ListenFor(SETTLE_SECS));
    assert_eq!(watch.step(begun("https://parcelsapp.com/api/v2/parcels?again", "3")), PageAction::Listen);
    assert_eq!(watch.step(loaded("3")), PageAction::FetchBody("3".to_string()));
    assert_eq!(watch.step(PageEvent::Body("late".to_string())), PageAction::ListenFor(3));
    assert_eq!(watch.step(PageEvent::Settled), PageAction::Read("late".to_string()));
}

#[test]
fn a_page_that_never_asks_is_an_error() {
    let mut watch = ResponseWatch::new();
    assert_eq!(watch.step(begun("https://parcelsapp.com/widget", "1")), PageAction::Listen);
    assert_eq!(watch.step(loaded("1")), PageAction::Listen);
    assert_eq!(watch.step(PageEvent::Settled), PageAction::Fail(TrackError::NoResponse));
    assert_eq!(TrackError::NoResponse.text(), "widget produced no api/v2/parcels response");
}

#[test]
fn the_user_agent_does_not_say_headless() {
    assert_eq!(
        mask_user_agent("Mozilla/5.0 HeadlessChrome/120.0 Safari/537.36"),
        "Mozilla/5.0 Chrome/120.0 Safari/537.36"
    );
    assert_eq!(mask_user_agent("HeadlessChromeHeadlessChrome"), "ChromeChrome");
    assert_eq!(mask_user_agent("Chrome"), "Chrome");
}
