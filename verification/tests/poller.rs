use chrono::{DateTime, TimeZone, Utc};
use parcli::clock::{Interval, Timestamp};
use parcli::poller::Scheduler;
use parcli::provider::Status;

fn ts(t: DateTime<Utc>) -> Timestamp {
    Timestamp::new(t.timestamp(), t.timestamp_subsec_nanos()).unwrap()
}

fn start() -> DateTime<Utc> {
    Utc.with_ymd_and_hms(2026, 9, 13, 12, 0, 0).unwrap()
}

fn t0() -> Timestamp {
    ts(start())
}

/// The moment `m` minutes after the start.
fn mins(m: i64) -> Timestamp {
    ts(start() + chrono::Duration::minutes(m))
}

fn ten_minutes() -> Interval {
    Interval::from_secs(600)
}

fn some(n: &str) -> Option<String> {
    Some(n.to_string())
}

#[test]
fn new_parcels_are_due_immediately() {
    let s = Scheduler::new(ten_minutes(), vec!["B".into(), "A".into()], t0());
    assert_eq!(s.next_due(t0()), some("A"), "ties resolve alphabetically");
}

#[test]
fn success_schedules_after_interval_and_picks_earliest() {
    let mut s = Scheduler::new(ten_minutes(), vec!["A".into(), "B".into()], t0());
    s.record_success("A", Status::InTransit, t0());
    assert_eq!(s.next_due(t0()), some("B"));
    s.record_success("B", Status::InTransit, mins(1));
    assert_eq!(s.next_due(mins(5)), None);
    assert_eq!(s.next_due(mins(10)), some("A"));
    assert_eq!(s.next_poll("A"), Some(mins(10)));
}

#[test]
fn delivered_parcels_are_never_due() {
    let mut s = Scheduler::new(ten_minutes(), vec!["A".into()], t0());
    s.record_success("A", Status::Delivered, t0());
    assert_eq!(s.next_due(mins(600)), None);
    s.refresh("A", mins(600));
    assert_eq!(s.next_due(mins(600)), some("A"), "explicit refresh still works");
}

#[test]
fn failures_back_off_exponentially_capped_at_an_hour() {
    let mut s = Scheduler::new(ten_minutes(), vec!["A".into()], t0());
    s.record_failure("A", t0());
    assert_eq!(s.next_poll("A"), Some(mins(20)));
    s.record_failure("A", t0());
    assert_eq!(s.next_poll("A"), Some(mins(40)));
    s.record_failure("A", t0());
    assert_eq!(s.next_poll("A"), Some(mins(60)));
    s.record_failure("A", t0());
    assert_eq!(s.next_poll("A"), Some(mins(60)));
    s.record_success("A", Status::InTransit, t0());
    assert_eq!(s.next_poll("A"), Some(mins(10)), "success resets backoff");
}

#[test]
fn add_remove_refresh_all() {
    let mut s = Scheduler::new(ten_minutes(), vec![], t0());
    assert_eq!(s.next_due(t0()), None);
    s.add("A", t0());
    s.record_success("A", Status::InTransit, t0());
    s.refresh_all(mins(1));
    assert_eq!(s.next_due(mins(1)), some("A"));
    s.remove("A");
    assert_eq!(s.next_due(mins(1)), None);
    assert_eq!(s.next_poll("A"), None);
}

#[test]
fn adding_a_scheduled_parcel_changes_nothing() {
    let mut s = Scheduler::new(ten_minutes(), vec!["A".into()], t0());
    s.record_failure("A", t0());
    s.add("A", mins(3));
    assert_eq!(s.next_poll("A"), Some(mins(20)));
}

#[test]
fn the_parcel_that_has_been_due_longest_comes_first() {
    let mut s = Scheduler::new(ten_minutes(), vec!["A".into(), "B".into(), "C".into()], t0());
    s.record_success("A", Status::InTransit, mins(2));
    s.record_success("B", Status::InTransit, mins(1));
    s.record_success("C", Status::InTransit, mins(1));
    assert_eq!(s.next_due(mins(30)), some("B"));
    s.record_success("B", Status::InTransit, mins(30));
    assert_eq!(s.next_due(mins(30)), some("C"));
    s.record_success("C", Status::InTransit, mins(30));
    assert_eq!(s.next_due(mins(30)), some("A"));
}

#[test]
fn refreshing_all_makes_delivered_parcels_due_too() {
    let mut s = Scheduler::new(ten_minutes(), vec!["B".into(), "A".into()], t0());
    s.record_success("A", Status::Delivered, t0());
    s.record_success("B", Status::InTransit, t0());
    s.refresh_all(mins(1));
    assert_eq!(s.next_due(mins(1)), some("A"));
    assert_eq!(s.next_poll("A"), Some(mins(1)));
    assert_eq!(s.next_poll("B"), Some(mins(1)));
}

#[test]
fn unknown_parcels_are_not_scheduled_by_their_results() {
    let mut s = Scheduler::new(ten_minutes(), vec![], t0());
    s.record_success("A", Status::InTransit, t0());
    s.record_failure("A", t0());
    s.refresh("A", t0());
    assert_eq!(s.next_poll("A"), None);
}

#[test]
fn a_refresh_keeps_the_count_of_failures() {
    let mut s = Scheduler::new(ten_minutes(), vec!["A".into()], t0());
    s.record_failure("A", t0());
    s.refresh("A", mins(1));
    assert_eq!(s.next_due(mins(1)), some("A"));
    s.record_failure("A", mins(1));
    assert_eq!(s.next_poll("A"), Some(mins(41)), "the second failure in a row");
}

#[test]
fn a_delivered_parcel_stays_delivered_whatever_else_happens() {
    let mut s = Scheduler::new(ten_minutes(), vec!["A".into(), "B".into()], t0());
    s.record_success("A", Status::Delivered, t0());
    assert_eq!(s.next_poll("A"), Some(mins(10)));
    s.add("A", mins(1));
    s.record_failure("A", mins(2));
    s.refresh("B", mins(3));
    s.record_success("B", Status::InTransit, mins(4));
    s.remove("B");
    assert_eq!(s.next_due(mins(100_000)), None);
    s.refresh_all(mins(5));
    assert_eq!(s.next_due(mins(5)), some("A"));
}

#[test]
fn the_wait_counts_the_failures_since_the_last_success() {
    let minute = Interval::from_secs(60);
    let mut s = Scheduler::new(minute, vec!["A".into(), "B".into()], t0());
    for k in 0..20u32 {
        if k % 2 == 0 {
            s.refresh("A", t0());
        } else {
            s.refresh_all(t0());
        }
        s.record_failure("A", t0());
        let wait = (1i64 << (k + 1)).min(60);
        assert_eq!(s.next_poll("A"), Some(mins(wait)), "after {k} failures");
        assert_eq!(s.next_poll("B"), Some(t0()));
    }
    s.record_success("A", Status::InTransit, t0());
    s.record_failure("A", t0());
    assert_eq!(s.next_poll("A"), Some(mins(2)));
    s.record_failure("A", t0());
    s.remove("A");
    s.record_failure("A", t0());
    s.add("A", t0());
    s.record_failure("A", t0());
    assert_eq!(s.next_poll("A"), Some(mins(2)), "a parcel that is added anew starts anew");
}

#[test]
fn a_copy_of_a_schedule_goes_its_own_way() {
    let mut s = Scheduler::new(ten_minutes(), vec!["A".into()], t0());
    let copy = s.clone();
    s.record_success("A", Status::InTransit, t0());
    assert_eq!(copy.next_poll("A"), Some(t0()));
    assert_eq!(s.next_poll("A"), Some(mins(10)));
}
