use std::collections::HashMap;

use chrono::{DateTime, TimeZone, Utc};
use parcli::clock::{Interval, Timestamp, MIN_SECS};
use parcli::enrich::{apply_translation, next_unlocated, next_untranslated, seed_translation_cache, TranslationCache};
use parcli::geo::{Coord, GeoCache};
use parcli::poller::{PollCommand, PollEvent, PollResult, Scheduler};
use parcli::provider::{Status, TrackEvent, Tracking};
use parcli::store::{ParcelList, ParcelState, StateCache};
use parcli::worker::{is_resumable, resume_schedule, IntervalTooLong, Worker, WorkerAction, WorkerEvent};

fn ts(t: DateTime<Utc>) -> Timestamp {
    Timestamp::new(t.timestamp(), t.timestamp_subsec_nanos()).unwrap()
}

fn start() -> DateTime<Utc> {
    Utc.with_ymd_and_hms(2026, 9, 13, 12, 0, 0).unwrap()
}

fn now() -> Timestamp {
    ts(start())
}

fn mins(m: i64) -> Timestamp {
    ts(start() + chrono::Duration::minutes(m))
}

fn coord(lat: f64, lon: f64) -> Coord {
    Coord { lat: lat.to_bits(), lon: lon.to_bits() }
}

fn ev(desc: &str) -> TrackEvent {
    TrackEvent { time: None, description: desc.into(), location: None, translated: None }
}

fn loc(location: &str) -> TrackEvent {
    TrackEvent { time: None, description: "x".into(), location: Some(location.into()), translated: None }
}

fn tracking(number: &str, status: Status, events: Vec<TrackEvent>) -> Tracking {
    Tracking {
        number: number.into(),
        carrier: None,
        status,
        events,
        fetched_at: now(),
        attributes: vec![],
        tracking_url: None,
    }
}

fn scheduler(numbers: &[&str]) -> Scheduler {
    Scheduler::new(Interval::from_secs(600), numbers.iter().map(|n| n.to_string()).collect(), now())
}

/// The world outside of the worker.
struct World {
    polled: Vec<String>,
    poll_fails: bool,
    events: Vec<&'static str>,
    places: Vec<&'static str>,
    translated: Vec<String>,
    translator_fails: bool,
    located: Vec<(String, bool)>,
    known_places: HashMap<String, Result<Option<Coord>, ()>>,
    sent: Vec<PollEvent>,
    listening: bool,
}

impl World {
    fn new() -> World {
        World {
            polled: vec![],
            poll_fails: false,
            events: vec!["moving"],
            places: vec![],
            translated: vec![],
            translator_fails: false,
            located: vec![],
            known_places: HashMap::new(),
            sent: vec![],
            listening: true,
        }
    }

    /// Does what the worker asks for until it waits or stops. Returns the
    /// worker while it waits.
    fn run(&mut self, worker: Worker, first: WorkerEvent, at: Timestamp) -> Option<Worker> {
        let (mut worker, mut action) = worker.step(first, at);
        loop {
            let event = match action {
                WorkerAction::Wait => return Some(worker),
                WorkerAction::Stop => return None,
                WorkerAction::Send(e) => {
                    if self.listening {
                        self.sent.push(e);
                    }
                    WorkerEvent::Sent(self.listening)
                }
                WorkerAction::Track(n) => {
                    self.polled.push(n.clone());
                    WorkerEvent::Answered(if self.poll_fails {
                        Err("boom".to_string())
                    } else {
                        let mut events: Vec<TrackEvent> = self.events.iter().map(|e| ev(e)).collect();
                        events.extend(self.places.iter().map(|p| loc(p)));
                        Ok(tracking(&n, Status::InTransit, events))
                    })
                }
                WorkerAction::Translate(text) => {
                    self.translated.push(text.clone());
                    WorkerEvent::Translated(if self.translator_fails {
                        Err(())
                    } else if text.starts_with("EN:") {
                        Ok(None)
                    } else {
                        Ok(Some(format!("[en] {text}")))
                    })
                }
                WorkerAction::Locate { query, settlement_only } => {
                    self.located.push((query.clone(), settlement_only));
                    WorkerEvent::Located(match self.known_places.get(&query) {
                        Some(r) => *r,
                        None => Ok(None),
                    })
                }
            };
            let (w, a) = worker.step(event, at);
            worker = w;
            action = a;
        }
    }

    /// What was sent since, in short.
    fn log(&self) -> Vec<String> {
        self.sent
            .iter()
            .map(|e| match e {
                PollEvent::Started(n) => format!("started {n}"),
                PollEvent::Finished(PollResult { number, result: Ok(_) }) => format!("finished {number}"),
                PollEvent::Finished(PollResult { number, result: Err(e) }) => format!("failed {number}: {e}"),
                PollEvent::Geocoded { key, coord } => format!("located {key}: {}", coord.is_some()),
            })
            .collect()
    }

    fn last_events(&self) -> Vec<Option<String>> {
        match self.sent.last() {
            Some(PollEvent::Finished(PollResult { result: Ok(t), .. })) => {
                t.events.iter().map(|e| e.translated.clone()).collect()
            }
            other => panic!("expected Finished, got {other:?}"),
        }
    }
}

fn plain_worker(numbers: &[&str]) -> Worker {
    Worker::new(scheduler(numbers), false, TranslationCache::new(), false, GeoCache::new(), None)
}

#[test]
fn worker_polls_due_parcels_and_reports_results() {
    let mut world = World::new();
    let w = world.run(plain_worker(&["A"]), WorkerEvent::Begun, now()).unwrap();
    let w = world.run(w, WorkerEvent::Tick, now()).unwrap();
    assert_eq!(world.log(), vec!["started A", "finished A"]);

    let w = world.run(w, WorkerEvent::Command(PollCommand::Add("B".into())), now()).unwrap();
    let w = world.run(w, WorkerEvent::Tick, now()).unwrap();
    assert_eq!(world.log(), vec!["started A", "finished A", "started B", "finished B"]);

    let w = world.run(w, WorkerEvent::Tick, now()).unwrap();
    assert!(world.run(w, WorkerEvent::Command(PollCommand::Shutdown), now()).is_none());
    assert_eq!(world.polled, vec!["A".to_string(), "B".to_string()]);
}

#[test]
fn worker_reports_errors_as_strings() {
    let mut world = World::new();
    world.poll_fails = true;
    let w = world.run(plain_worker(&["A"]), WorkerEvent::Begun, now()).unwrap();
    let w = world.run(w, WorkerEvent::Tick, now()).unwrap();
    assert_eq!(world.log(), vec!["started A", "failed A: boom"]);
    // The next attempt comes after twice the interval.
    let w = world.run(w, WorkerEvent::Tick, mins(19)).unwrap();
    assert_eq!(world.sent.len(), 2);
    let w = world.run(w, WorkerEvent::Tick, mins(20)).unwrap();
    assert_eq!(world.sent.len(), 4);
    assert!(world.run(w, WorkerEvent::Command(PollCommand::Shutdown), now()).is_none());
}

#[test]
fn translate_events_fills_and_caches() {
    let mut cache = TranslationCache::new();
    let mut events = vec![ev("Colis"), ev("EN: Delivered"), ev("Colis")];
    let mut calls = 0;
    let mut pass = |cache: &mut TranslationCache, events: &mut Vec<TrackEvent>| {
        let mut from = 0;
        while let Some(at) = next_untranslated(cache, events, from) {
            calls += 1;
            let text = events[at].description.clone();
            let english = if text.starts_with("EN:") { None } else { Some(format!("[en] {text}")) };
            apply_translation(cache, events, at, english);
            from = at + 1;
        }
        calls
    };
    assert_eq!(pass(&mut cache, &mut events), 2, "duplicate description translated once");
    assert_eq!(events[0].translated.as_deref(), Some("[en] Colis"));
    assert_eq!(
        events[1].translated.as_deref(),
        Some("EN: Delivered"),
        "already-English text is persisted, not left None"
    );
    assert_eq!(events[2].translated.as_deref(), Some("[en] Colis"));
    assert_eq!(
        cache.get("EN: Delivered"),
        Some(&Some("EN: Delivered".to_string())),
        "same-language result is cached as itself too"
    );
    // second pass hits the cache only
    let mut again = vec![ev("Colis")];
    assert_eq!(pass(&mut cache, &mut again), 2);
    assert_eq!(again[0].translated.as_deref(), Some("[en] Colis"));
}

#[test]
fn translate_events_failure_leaves_original_and_is_not_cached() {
    let mut world = World::new();
    world.translator_fails = true;
    world.events = vec!["Colis", "Autre"];
    let w = Worker::new(scheduler(&["A"]), true, TranslationCache::new(), false, GeoCache::new(), None);
    let w = world.run(w, WorkerEvent::Begun, now()).unwrap();
    let w = world.run(w, WorkerEvent::Tick, now()).unwrap();
    assert_eq!(world.last_events(), vec![None, None]);
    assert_eq!(world.translated.len(), 1, "circuit breaker: stop after the first failure");
    // It is asked for again on the next poll.
    world.translator_fails = false;
    world.run(w, WorkerEvent::Tick, mins(10)).unwrap();
    assert_eq!(world.last_events(), vec![Some("[en] Colis".to_string()), Some("[en] Autre".to_string())]);
    assert_eq!(world.translated, vec!["Colis", "Colis", "Autre"]);
}

#[test]
fn events_without_text_are_not_translated() {
    let cache = TranslationCache::new();
    let mut done = ev("Colis");
    done.translated = Some("Parcel".into());
    let mut events = vec![ev("  "), done, ev("Autre")];
    assert_eq!(next_untranslated(&cache, &mut events, 0), Some(2));
    assert_eq!(next_untranslated(&cache, &mut events, 3), None);
    assert_eq!(events[0].translated, None);
}

#[test]
fn seed_translation_cache_from_state() {
    let mut cache = StateCache::default();
    let mut tr = tracking("A", Status::InTransit, vec![ev("Colis"), ev("Plain")]);
    tr.events[0].translated = Some("Parcel".into());
    cache.by_number.insert(
        "A".into(),
        ParcelState { tracking: Some(tr), last_error: None, failures: 0, next_poll: now() },
    );
    cache.by_number.insert(
        "B".into(),
        ParcelState { tracking: None, last_error: Some("x".into()), failures: 1, next_poll: now() },
    );
    let seeded = seed_translation_cache(&cache);
    assert_eq!(seeded.get("Colis"), Some(&Some("Parcel".to_string())));
    assert!(!seeded.contains_key("Plain"));
    assert_eq!(seeded.len(), 1);
}

#[test]
fn worker_translates_before_reporting() {
    let mut world = World::new();
    let w = Worker::new(scheduler(&["A"]), true, TranslationCache::new(), false, GeoCache::new(), None);
    let w = world.run(w, WorkerEvent::Begun, now()).unwrap();
    world.run(w, WorkerEvent::Tick, now()).unwrap();
    assert_eq!(world.log(), vec!["started A", "finished A"]);
    assert_eq!(world.last_events(), vec![Some("[en] moving".to_string())]);
}

#[test]
fn each_text_is_asked_for_once_over_all_polls() {
    let mut world = World::new();
    world.events = vec!["Colis", "EN: Delivered", "Colis"];
    let w = Worker::new(scheduler(&["A", "B"]), true, TranslationCache::new(), false, GeoCache::new(), None);
    let w = world.run(w, WorkerEvent::Begun, now()).unwrap();
    let w = world.run(w, WorkerEvent::Tick, now()).unwrap();
    world.run(w, WorkerEvent::Tick, now()).unwrap();
    assert_eq!(world.translated, vec!["Colis", "EN: Delivered"]);
    assert_eq!(world.polled, vec!["A", "B"]);
    assert_eq!(
        world.last_events(),
        vec![Some("[en] Colis".to_string()), Some("EN: Delivered".to_string()), Some("[en] Colis".to_string())]
    );
}

#[test]
fn geocode_locations_dedups_skips_cached_and_sends_events() {
    let mut world = World::new();
    world.events = vec![];
    world.places = vec!["Shenzhen", "Shenzhen ", "Nowhere", "Boom", "Paris"];
    world.known_places.insert("Shenzhen".into(), Ok(Some(coord(22.5, 114.0))));
    world.known_places.insert("Nowhere".into(), Ok(None));
    world.known_places.insert("Boom".into(), Err(()));
    let w = Worker::new(scheduler(&["A"]), false, TranslationCache::new(), true, GeoCache::new(), None);
    let w = world.run(w, WorkerEvent::Begun, now()).unwrap();
    let w = world.run(w, WorkerEvent::Tick, now()).unwrap();
    assert_eq!(
        world.located,
        vec![("Shenzhen".to_string(), true), ("Nowhere".to_string(), true), ("Boom".to_string(), true)],
        "dedups whitespace variants; stops after the Boom error; Paris never reached"
    );
    assert_eq!(
        world.log(),
        vec!["started A", "located Shenzhen: true", "located Nowhere: false", "finished A"],
        "no match is sent too, and the error is not"
    );
    assert!(
        matches!(&world.sent[1], PollEvent::Geocoded { coord: Some(c), .. } if *c == coord(22.5, 114.0)),
        "{:?}",
        world.sent[1]
    );
    // What is known is not looked up again; what failed is.
    world.run(w, WorkerEvent::Tick, mins(10)).unwrap();
    assert_eq!(world.located.len(), 4);
    assert_eq!(world.located[3].0, "Boom");
}

#[test]
fn places_are_found_one_after_the_other() {
    let mut geo = GeoCache::new();
    geo.insert("Known".into(), None);
    let events = vec![ev("x"), loc("Known"), loc("  "), loc(" New \t Place ")];
    assert_eq!(next_unlocated(&geo, &events, 0), Some((3, "New Place".to_string())));
    assert_eq!(next_unlocated(&geo, &events, 4), None);
}

#[test]
fn worker_geocodes_home_once_at_start() {
    let mut world = World::new();
    world.known_places.insert("123 Main St".into(), Ok(Some(coord(1.0, 2.0))));
    let w = Worker::new(
        scheduler(&["A"]),
        false,
        TranslationCache::new(),
        true,
        GeoCache::new(),
        Some("123 Main St".into()),
    );
    let w = world.run(w, WorkerEvent::Begun, now()).unwrap();
    match &world.sent[0] {
        PollEvent::Geocoded { key, coord: c } => {
            assert_eq!(key, "123 Main St");
            assert_eq!(*c, Some(coord(1.0, 2.0)));
        }
        other => panic!("expected Geocoded, got {other:?}"),
    }
    let w = world.run(w, WorkerEvent::Tick, now()).unwrap();
    let w = world.run(w, WorkerEvent::Command(PollCommand::Add("B".into())), now()).unwrap();
    let w = world.run(w, WorkerEvent::Tick, now()).unwrap();
    assert!(world.run(w, WorkerEvent::Command(PollCommand::Shutdown), now()).is_none());
    assert_eq!(
        world.located,
        vec![("123 Main St".to_string(), false)],
        "home is geocoded exactly once at start, with settlement_only=false, regardless of how many parcels poll afterward"
    );
}

#[test]
fn home_is_not_looked_up_where_it_is_known_or_empty() {
    for (home, locates) in [(Some("Berlin"), true), (Some(""), true), (None, true), (Some("Paris"), false)] {
        let mut world = World::new();
        let mut known = GeoCache::new();
        known.insert("Berlin".into(), Some(coord(52.5, 13.4)));
        let w = Worker::new(
            scheduler(&[]),
            false,
            TranslationCache::new(),
            locates,
            known,
            home.map(|h| h.to_string()),
        );
        assert!(world.run(w, WorkerEvent::Begun, now()).is_some());
        assert!(world.located.is_empty(), "{home:?}");
    }
    // A lookup that fails is passed over.
    let mut world = World::new();
    world.known_places.insert("Paris".into(), Err(()));
    let w =
        Worker::new(scheduler(&[]), false, TranslationCache::new(), true, GeoCache::new(), Some("Paris".to_string()));
    assert!(world.run(w, WorkerEvent::Begun, now()).is_some());
    assert!(world.sent.is_empty());
}

#[test]
fn the_worker_stops_when_nobody_listens() {
    let mut world = World::new();
    world.listening = false;
    let w = world.run(plain_worker(&["A"]), WorkerEvent::Begun, now()).unwrap();
    assert!(world.run(w, WorkerEvent::Tick, now()).is_none());
    assert!(world.polled.is_empty());

    let mut world = World::new();
    let w = world.run(plain_worker(&["A"]), WorkerEvent::Begun, now()).unwrap();
    assert!(world.run(w, WorkerEvent::Closed, now()).is_none());
}

#[test]
fn commands_change_the_schedule() {
    let mut world = World::new();
    let w = world.run(plain_worker(&["A", "B"]), WorkerEvent::Begun, now()).unwrap();
    let w = world.run(w, WorkerEvent::Command(PollCommand::Remove("A".into())), now()).unwrap();
    let w = world.run(w, WorkerEvent::Tick, now()).unwrap();
    assert_eq!(world.polled, vec!["B"]);
    let w = world.run(w, WorkerEvent::Tick, mins(1)).unwrap();
    assert_eq!(world.polled.len(), 1, "nothing is due");
    let w = world.run(w, WorkerEvent::Command(PollCommand::Refresh("B".into())), mins(1)).unwrap();
    let w = world.run(w, WorkerEvent::Tick, mins(1)).unwrap();
    assert_eq!(world.polled.len(), 2);
    let w = world.run(w, WorkerEvent::Command(PollCommand::RefreshAll), mins(2)).unwrap();
    world.run(w, WorkerEvent::Tick, mins(2)).unwrap();
    assert_eq!(world.polled, vec!["B", "B", "B"]);
}

#[test]
fn events_that_are_not_awaited_change_nothing() {
    let mut world = World::new();
    let w = world.run(plain_worker(&["A"]), WorkerEvent::Begun, now()).unwrap();
    let w = world.run(w, WorkerEvent::Answered(Err("x".into())), now()).unwrap();
    let w = world.run(w, WorkerEvent::Sent(false), now()).unwrap();
    world.run(w, WorkerEvent::Tick, now()).unwrap();
    assert_eq!(world.log(), vec!["started A", "finished A"]);
}

#[test]
fn a_restart_resumes_the_schedule() {
    let mut list = ParcelList::default();
    for n in ["A", "B", "C", "D"] {
        list.add(n, None, now());
    }
    let mut cache = StateCache::default();
    let state = |tracking: Option<Tracking>, next: Timestamp| ParcelState {
        tracking,
        last_error: None,
        failures: 3,
        next_poll: next,
    };
    cache.by_number.insert("A".into(), state(Some(tracking("A", Status::InTransit, vec![])), mins(7)));
    cache.by_number.insert("B".into(), state(Some(tracking("B", Status::Delivered, vec![])), mins(-30)));
    cache.by_number.insert("C".into(), state(None, mins(45)));
    let s = resume_schedule(Interval::from_secs(600), &list.parcels, &cache, now()).unwrap();
    assert_eq!(s.next_poll("A"), Some(mins(7)));
    assert_eq!(s.next_poll("B"), Some(mins(-30)));
    assert_eq!(s.next_poll("C"), Some(now()), "never tracked: polled at once");
    assert_eq!(s.next_poll("D"), Some(now()));
    assert_eq!(s.next_due(now()), Some("C".to_string()), "B has been delivered");
}

#[test]
fn an_interval_that_cannot_be_counted_back_is_refused() {
    let mut list = ParcelList::default();
    list.add("A", None, now());
    let mut cache = StateCache::default();
    let long = Interval::from_secs(u64::MAX);
    assert!(resume_schedule(long, &list.parcels, &cache, now()).is_ok(), "nothing to count back from");
    cache.by_number.insert(
        "A".into(),
        ParcelState {
            tracking: Some(tracking("A", Status::InTransit, vec![])),
            last_error: None,
            failures: 0,
            next_poll: now(),
        },
    );
    assert_eq!(resume_schedule(long, &list.parcels, &cache, now()).unwrap_err(), IntervalTooLong);
}

#[test]
fn a_poll_at_the_beginning_of_time_cannot_be_counted_back() {
    let mut list = ParcelList::default();
    list.add("A", None, now());
    let known = |next_poll: Timestamp, polled: bool| {
        let mut cache = StateCache::default();
        let tracking = if polled { Some(tracking("A", Status::InTransit, vec![])) } else { None };
        cache.by_number.insert("A".into(), ParcelState { tracking, last_error: None, failures: 0, next_poll });
        cache
    };
    let ten = Interval::from_secs(600);
    let first = Timestamp::new(MIN_SECS, 0).unwrap();
    assert!(is_resumable(&ten, &list.parcels, &known(mins(7), true)));
    assert!(!is_resumable(&ten, &list.parcels, &known(first, true)));
    assert!(is_resumable(&ten, &list.parcels, &known(first, false)), "never tracked: nothing to count back");
    assert!(is_resumable(&Interval::from_secs(0), &list.parcels, &known(first, true)));
}

#[test]
fn a_poll_takes_no_command_before_its_report() {
    let worker = plain_worker(&["A", "B"]);
    let (worker, _) = worker.step(WorkerEvent::Begun, now());
    let (worker, action) = worker.step(WorkerEvent::Tick, now());
    assert!(matches!(action, WorkerAction::Send(PollEvent::Started(n)) if n == "A"));
    let (mut worker, action) = worker.step(WorkerEvent::Sent(true), now());
    assert!(matches!(action, WorkerAction::Track(n) if n == "A"));
    for event in [WorkerEvent::Tick, WorkerEvent::Command(PollCommand::Shutdown), WorkerEvent::Closed] {
        let (w, action) = worker.step(event, now());
        assert!(matches!(action, WorkerAction::Wait));
        worker = w;
    }
    let (_, action) = worker.step(WorkerEvent::Answered(Err("boom".into())), now());
    match action {
        WorkerAction::Send(PollEvent::Finished(r)) => assert_eq!((r.number.as_str(), r.result), ("A", Err("boom".into()))),
        other => panic!("{other:?}"),
    }
}

#[test]
fn only_places_are_looked_up_and_only_descriptions_translated() {
    let mut world = World::new();
    world.events = vec!["en route"];
    world.places = vec![" Roissy   CDG "];
    let worker = Worker::new(
        scheduler(&["LX123"]),
        true,
        TranslationCache::new(),
        true,
        GeoCache::new(),
        Some("Musterstraße 1".into()),
    );
    let worker = world.run(worker, WorkerEvent::Begun, now()).unwrap();
    world.run(worker, WorkerEvent::Tick, now()).unwrap();
    assert_eq!(world.located, vec![("Musterstraße 1".to_string(), false), ("Roissy CDG".to_string(), true)]);
    assert_eq!(world.translated, vec!["en route", "x"]);
}

#[test]
fn starts_and_outcomes_alternate_over_a_run() {
    let mut world = World::new();
    world.places = vec!["Shenzhen"];
    let mut worker =
        Worker::new(scheduler(&["A", "B"]), false, TranslationCache::new(), true, GeoCache::new(), Some("Home".into()));
    worker = world.run(worker, WorkerEvent::Begun, now()).unwrap();
    for m in [0, 0, 0, 5, 10, 10] {
        world.poll_fails = m == 10;
        worker = world.run(worker, WorkerEvent::Tick, mins(m)).unwrap();
    }
    let heard: Vec<(String, bool)> = world
        .sent
        .iter()
        .filter_map(|e| match e {
            PollEvent::Started(n) => Some((n.clone(), true)),
            PollEvent::Finished(r) => Some((r.number.clone(), false)),
            PollEvent::Geocoded { .. } => None,
        })
        .collect();
    assert_eq!(world.polled, vec!["A", "B", "A", "B"]);
    assert_eq!(heard.len(), 8);
    for (i, pair) in heard.chunks(2).enumerate() {
        assert_eq!(pair, [(world.polled[i].clone(), true), (world.polled[i].clone(), false)]);
    }
    assert!(world.run(worker, WorkerEvent::Command(PollCommand::Shutdown), mins(11)).is_none());
}

#[test]
fn the_last_translation_of_a_parcel_is_kept() {
    let translated = |english: Option<&str>| TrackEvent { translated: english.map(str::to_string), ..ev("Colis") };
    let state = |events: Vec<TrackEvent>| ParcelState {
        tracking: Some(tracking("A", Status::InTransit, events)),
        last_error: None,
        failures: 0,
        next_poll: now(),
    };
    let mut cache = StateCache::default();
    cache.by_number.insert("A".into(), state(vec![translated(Some("Box")), translated(Some("Parcel")), translated(None)]));
    assert_eq!(seed_translation_cache(&cache).get("Colis"), Some(&Some("Parcel".to_string())));
    cache.by_number.insert("B".into(), state(vec![translated(Some("Crate")), translated(Some("Packet"))]));
    let kept = seed_translation_cache(&cache).get("Colis").unwrap().clone().unwrap();
    assert!(kept == "Parcel" || kept == "Packet", "{kept}");
}
