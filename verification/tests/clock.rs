use chrono::{DateTime, TimeDelta, TimeZone, Utc};
use parcli::clock::{leaves_room, Interval, TimeSpan, Timestamp, MAX_SECS, MIN_SECS};

fn ts(t: DateTime<Utc>) -> Timestamp {
    Timestamp::new(t.timestamp(), t.timestamp_subsec_nanos()).unwrap()
}

/// The same point in time in chrono.
fn back(t: &Timestamp) -> DateTime<Utc> {
    DateTime::from_timestamp(t.secs(), t.nanos()).unwrap()
}

fn moments() -> Vec<DateTime<Utc>> {
    let mut out = vec![DateTime::<Utc>::MIN_UTC, DateTime::<Utc>::MAX_UTC];
    for (secs, nanos) in [
        (0i64, 0u32),
        (-1, 999_999_999),
        (59, 1_500_000_000),
        (59, 1_999_999_999),
        (-1, 1_000_000_000),
        (86_399, 1_200_000_000),
        (86_400, 0),
        (1_789_300_799, 1_000_000_001),
        (1_789_300_800, 5),
        (-62_135_596_801, 1_999_999_999),
    ] {
        out.push(DateTime::from_timestamp(secs, nanos).unwrap());
    }
    out
}

fn spans() -> Vec<TimeDelta> {
    let mut out = vec![TimeDelta::MAX, TimeDelta::MIN];
    for (secs, nanos) in [
        (0i64, 0u32),
        (0, 1),
        (-1, 999_999_999),
        (0, 499_999_999),
        (0, 500_000_000),
        (1, 0),
        (-1, 0),
        (-2, 1),
        (3600, 0),
        (-86_400, 250_000_000),
        (MAX_SECS, 0),
        (-9_000_000_000_000, 0),
    ] {
        out.push(TimeDelta::new(secs, nanos).unwrap());
    }
    out
}

/// The same span in the library.
fn span(d: TimeDelta) -> TimeSpan {
    let whole = d.num_seconds();
    let rest = d.subsec_nanos();
    if rest < 0 {
        TimeSpan::new(whole - 1, (1_000_000_000 + rest) as u32).unwrap()
    } else {
        TimeSpan::new(whole, rest as u32).unwrap()
    }
}

#[test]
fn the_first_and_the_last_second() {
    assert_eq!(DateTime::<Utc>::MIN_UTC.timestamp(), MIN_SECS);
    assert_eq!(DateTime::<Utc>::MAX_UTC.timestamp(), MAX_SECS);
    for secs in [MIN_SECS - 1, MIN_SECS, 0, MAX_SECS, MAX_SECS + 1, i64::MIN, i64::MAX] {
        for nanos in [0u32, 999_999_999, 1_000_000_000, 1_999_999_999, 2_000_000_000] {
            assert_eq!(
                Timestamp::new(secs, nanos).is_some(),
                DateTime::from_timestamp(secs, nanos).is_some(),
                "{secs} {nanos}"
            );
        }
    }
    for secs in -130i64..130 {
        assert_eq!(
            Timestamp::new(secs, 1_000_000_000).is_some(),
            DateTime::from_timestamp(secs, 1_000_000_000).is_some(),
            "{secs}"
        );
    }
}

#[test]
fn adding_is_what_chrono_adds() {
    for m in moments() {
        for d in spans() {
            let got = ts(m).checked_add(&span(d)).map(|t| back(&t));
            assert_eq!(got, m.checked_add_signed(d), "{m:?} + {d:?}");
        }
    }
}

#[test]
fn subtracting_is_what_chrono_subtracts() {
    for a in moments() {
        for b in moments() {
            let d = a.signed_duration_since(b);
            let got = ts(a).since(&ts(b));
            assert_eq!(got, span(d), "{a:?} - {b:?}");
            assert_eq!(got.num_seconds(), d.num_seconds());
            assert_eq!(ts(a).not_after(&ts(b)), a <= b);
        }
    }
}

#[test]
fn spans_are_what_chrono_has() {
    for (secs, nanos) in [
        (0i64, 0u32),
        (0, 999_999_999),
        (0, 1_000_000_000),
        (i64::MAX / 1000, 807_000_000),
        (i64::MAX / 1000, 807_000_001),
        (-(i64::MAX / 1000) - 1, 193_000_000),
        (-(i64::MAX / 1000) - 1, 192_999_999),
        (i64::MAX, 0),
        (i64::MIN, 0),
    ] {
        assert_eq!(TimeSpan::new(secs, nanos).is_some(), TimeDelta::new(secs, nanos).is_some(), "{secs} {nanos}");
    }
    for d in spans() {
        assert_eq!(span(d).num_seconds(), d.num_seconds());
        assert_eq!(span(d).negated(), span(-d));
        assert_eq!(span(d).shorter_than_hours(24), d < TimeDelta::hours(24));
    }
    assert_eq!(TimeSpan::zero(), span(TimeDelta::zero()));
}

#[test]
fn intervals_become_spans_where_they_fit() {
    for (secs, nanos) in [(0u64, 0u32), (600, 5), (i64::MAX as u64 / 1000, 807_000_000), (i64::MAX as u64 / 1000, 807_000_001), (u64::MAX, 0)] {
        let std = std::time::Duration::new(secs, nanos);
        let got = Interval::new(secs, nanos).unwrap();
        assert_eq!(got.fits_span(), TimeDelta::from_std(std).is_ok());
        assert_eq!(got.to_span(), span(TimeDelta::from_std(std).unwrap_or_else(|_| TimeDelta::zero())));
    }
    assert!(Interval::new(0, 1_000_000_000).is_none());
}

#[test]
fn backing_off_doubles_up_to_an_hour() {
    let cap = std::time::Duration::from_secs(3600);
    for (secs, nanos) in [(0u64, 0u32), (0, 1), (1, 250_000_000), (600, 0), (3600, 0), (86_400, 0), (u64::MAX, 999_999_999)] {
        for failures in [0u32, 1, 2, 3, 15, 16, 17, 40, u32::MAX] {
            let factor = 2u32.saturating_pow(failures.min(16));
            let expected = std::time::Duration::new(secs, nanos).saturating_mul(factor).min(cap);
            assert_eq!(
                Interval::new(secs, nanos).unwrap().backoff_span(failures),
                span(TimeDelta::from_std(expected).unwrap()),
                "{secs} {nanos} {failures}"
            );
        }
    }
}

#[test]
fn dates_are_read() {
    assert_eq!(
        Timestamp::parse_rfc3339("2026-04-14T09:58:50Z"),
        Some(ts(Utc.with_ymd_and_hms(2026, 4, 14, 9, 58, 50).unwrap()))
    );
    assert_eq!(
        Timestamp::parse_rfc3339("2026-04-14T09:58:50.25+02:00"),
        Some(Timestamp::new(Utc.with_ymd_and_hms(2026, 4, 14, 7, 58, 50).unwrap().timestamp(), 250_000_000).unwrap())
    );
    assert_eq!(Timestamp::parse_rfc3339("2016-12-31T23:59:60Z").map(|t| t.nanos()), Some(1_000_000_000));
    assert_eq!(Timestamp::parse_rfc3339("2026-04-14"), None);
    assert_eq!(Timestamp::parse_rfc3339(""), None);
}

#[test]
fn dates_are_written_to_the_minute() {
    assert_eq!(ts(Utc.with_ymd_and_hms(2026, 9, 13, 7, 5, 59).unwrap()).format_minute(), "2026-09-13 07:05");
}

#[test]
fn adding_and_taking_back_a_span() {
    let t = ts(Utc.with_ymd_and_hms(2026, 9, 13, 7, 5, 59).unwrap());
    let d = TimeSpan::new(600, 1).unwrap();
    assert_eq!(t.plus(&d.negated()).plus(&d), t);
}

const NANOS: i128 = 1_000_000_000;

/// The moment `span` nanoseconds after a moment, counted by hand.
fn shifted(secs: i128, nanos: i128, span: i128) -> (i128, i128) {
    let at = |n: i128| (n.div_euclid(NANOS), n.rem_euclid(NANOS));
    let whole = span / NANOS;
    let rest = span - whole * NANOS;
    if nanos < NANOS {
        at(secs * NANOS + nanos + span)
    } else if whole > 0 || nanos + rest >= 2 * NANOS {
        at(secs * NANOS + nanos - NANOS + span)
    } else if whole < 0 {
        at((secs + 1) * NANOS + nanos - NANOS + span)
    } else {
        (secs, nanos + rest)
    }
}

/// The nanoseconds between two moments, counted by hand.
fn elapsed(later: (i128, i128), earlier: (i128, i128)) -> i128 {
    let day = |m: (i128, i128)| m.0.rem_euclid(86_400);
    let leap = if day(later) > day(earlier) && earlier.1 >= NANOS {
        1
    } else if day(later) < day(earlier) && later.1 >= NANOS {
        -1
    } else {
        0
    };
    (later.0 - earlier.0 + leap) * NANOS + later.1 - earlier.1
}

fn total(d: TimeDelta) -> i128 {
    d.num_seconds() as i128 * NANOS + d.subsec_nanos() as i128
}

fn parts(t: DateTime<Utc>) -> (i128, i128) {
    (t.timestamp() as i128, t.timestamp_subsec_nanos() as i128)
}

/// Numbers that look random.
fn scattered(seed: u64, count: usize) -> Vec<i64> {
    let mut x = seed;
    (0..count)
        .map(|_| {
            x = x.wrapping_mul(6_364_136_223_846_793_005).wrapping_add(1_442_695_040_888_963_407);
            (x >> 11) as i64
        })
        .collect()
}

fn many_moments() -> Vec<DateTime<Utc>> {
    let mut out = moments();
    for (i, n) in scattered(1, 60).into_iter().enumerate() {
        let secs = n % 4_000_000_000;
        let secs = if i % 2 == 0 { secs } else { -secs };
        let minute_end = secs - secs.rem_euclid(60) + 59;
        out.push(DateTime::from_timestamp(secs, (n % 1_000_000_000) as u32).unwrap());
        out.push(DateTime::from_timestamp(minute_end, 1_000_000_000 + (n % 1_000_000_000) as u32).unwrap());
    }
    out
}

fn many_spans() -> Vec<TimeDelta> {
    let mut out = spans();
    for (i, n) in scattered(2, 60).into_iter().enumerate() {
        let nanos = n % [3, 1_500_000_000, 3_000_000_000, 90_000_000_000_000][i % 4];
        out.push(TimeDelta::nanoseconds(if i % 3 == 0 { -nanos } else { nanos }));
    }
    out
}

#[test]
fn moments_move_as_they_are_counted() {
    for m in many_moments() {
        for d in many_spans() {
            let (secs, nanos) = shifted(parts(m).0, parts(m).1, total(d));
            let counted = if (MIN_SECS as i128..=MAX_SECS as i128).contains(&secs) { Some((secs, nanos)) } else { None };
            assert_eq!(m.checked_add_signed(d).map(parts), counted, "{m:?} + {d:?}");
        }
    }
}

#[test]
fn times_between_moments_are_as_they_are_counted() {
    for a in many_moments() {
        for b in many_moments() {
            assert_eq!(total(a.signed_duration_since(b)), elapsed(parts(a), parts(b)), "{a:?} - {b:?}");
        }
    }
}

#[test]
fn the_end_of_time_leaves_no_room() {
    let day = Interval::from_secs(86_400);
    let minute = Interval::from_secs(60);
    let before_end = |secs: i64| Timestamp::new(MAX_SECS - secs, 0).unwrap();
    assert!(leaves_room(&ts(Utc.with_ymd_and_hms(2026, 9, 13, 7, 5, 59).unwrap()), &day));
    assert!(leaves_room(&before_end(86_400), &day));
    assert!(!leaves_room(&before_end(86_399), &day));
    assert!(leaves_room(&before_end(3600), &minute));
    assert!(!leaves_room(&before_end(3599), &minute), "failures can lead to an hour");
}
