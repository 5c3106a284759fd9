use chrono::{DateTime, TimeZone, Utc};
use parcli::clock::Timestamp;
use parcli::store::{home_from_argument, normalize, temp_file_name, ParcelList, StateCache};

fn ts(t: DateTime<Utc>) -> Timestamp {
    Timestamp::new(t.timestamp(), t.timestamp_subsec_nanos()).unwrap()
}

fn now() -> Timestamp {
    ts(Utc.with_ymd_and_hms(2026, 9, 13, 12, 0, 0).unwrap())
}

#[test]
fn add_trims_uppercases_and_rejects_duplicates_and_empty() {
    let mut list = ParcelList::default();
    assert!(list.add("  rb123456789cn ", None, now()));
    assert_eq!(list.parcels[0].number, "RB123456789CN");
    assert!(!list.add("RB123456789CN", None, now()));
    assert!(!list.add("   ", None, now()));
    assert_eq!(list.parcels.len(), 1);
    assert!(list.contains("RB123456789CN"));
}

#[test]
fn remove_returns_whether_present() {
    let mut list = ParcelList::default();
    list.add("A1", None, now());
    assert!(list.remove("A1"));
    assert!(!list.remove("A1"));
    assert!(list.parcels.is_empty());
}

#[test]
fn labels_are_trimmed_and_blank_ones_dropped() {
    let mut list = ParcelList::default();
    assert!(list.add("A", Some("  camera body "), now()));
    assert!(list.add("B", Some(" \t "), now()));
    assert!(list.add("C", None, now()));
    assert_eq!(list.parcels[0].label.as_deref(), Some("camera body"));
    assert_eq!(list.parcels[1].label, None);
    assert_eq!(list.parcels[2].label, None);
    assert_eq!(list.parcels[0].added, now());
}

#[test]
fn removing_leaves_the_others_in_their_order() {
    let mut list = ParcelList::default();
    for n in ["A", "B", "C", "D"] {
        assert!(list.add(n, None, now()));
    }
    assert!(list.remove("B"));
    assert!(!list.remove("b"), "numbers are compared as they are");
    let numbers: Vec<&str> = list.parcels.iter().map(|p| p.number.as_str()).collect();
    assert_eq!(numbers, vec!["A", "C", "D"]);
    assert!(!list.contains("B"));
    assert!(list.add("b", None, now()), "a removed number can be added again");
}

#[test]
fn numbers_are_normalized_once() {
    assert_eq!(normalize(" rb 1\u{e9} "), "RB 1\u{e9}");
    assert_eq!(normalize(&normalize(" rb 1\u{e9} ")), "RB 1\u{e9}");
    assert_eq!(normalize("\u{3000}x\u{2028}"), "X");
}

#[test]
fn a_new_cache_is_empty() {
    let cache = StateCache::default();
    assert_eq!(cache.by_number.len(), 0);
    assert_eq!(cache.geo.len(), 0);
    let list = ParcelList::default();
    assert!(list.parcels.is_empty());
    assert_eq!(list.home, None);
}

#[test]
fn a_file_is_written_beside_itself_first() {
    assert_eq!(temp_file_name("parcels.toml"), ".parcels.toml.tmp");
}

#[test]
fn a_blank_home_is_none() {
    assert_eq!(home_from_argument("  "), None);
    assert_eq!(home_from_argument(""), None);
    assert_eq!(home_from_argument(" 1 Rue X "), Some(" 1 Rue X ".to_string()));
}
