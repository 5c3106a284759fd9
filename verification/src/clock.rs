//! Points in time, spans between them, and the backoff that is computed from
//! them. The calendar arithmetic is chrono's.
use vstd::arithmetic::power2::{lemma2_to64, lemma_pow2_unfold, pow2};
use vstd::prelude::*;

verus! {

/// Nanoseconds in a second.
pub const NANOS: i64 = 1_000_000_000;

/// The first second of the first day that a date can name.
pub const MIN_SECS: i64 = -8_334_601_228_800;

/// The last second of the last day that a date can name.
pub const MAX_SECS: i64 = 8_210_266_876_799;

/// The longest span, in nanoseconds: `i64::MAX` milliseconds.
pub open spec fn max_span() -> int {
    i64::MAX * 1_000_000
}

/// The value of a [`Timestamp`]: seconds since the start of 1970 and the
/// nanoseconds on top of them. Nanoseconds from one to two thousand million
/// stand for the leap second behind the last second of a minute.
pub struct Moment {
    pub secs: int,
    pub nanos: int,
}

impl Moment {
    /// A moment that chrono can represent.
    pub open spec fn valid(self) -> bool {
        &&& MIN_SECS <= self.secs <= MAX_SECS
        &&& 0 <= self.nanos < 2 * NANOS
        &&& self.nanos >= NANOS ==> self.secs % 60 == 59
    }

    /// `self` is earlier than `other`, or the same moment.
    pub open spec fn le(self, other: Moment) -> bool {
        self.secs < other.secs || (self.secs == other.secs && self.nanos <= other.nanos)
    }
}

/// The moment that lies `n` nanoseconds behind the start of 1970.
pub open spec fn moment_of(n: int) -> Moment {
    Moment { secs: n / (NANOS as int), nanos: n % (NANOS as int) }
}

/// `n` divided by `d`, rounded toward zero.
pub open spec fn truncated_div(n: int, d: int) -> int {
    if n < 0 {
        -((-n) / d)
    } else {
        n / d
    }
}

/// The moment `span` nanoseconds after `m`. Inside a leap second the clock
/// moves on within it; leaving it, the leap second counts once when time goes
/// backward and not at all when it goes forward.
pub open spec fn shifted(m: Moment, span: int) -> Moment {
    let whole = truncated_div(span, NANOS as int);
    let rest = span - whole * NANOS;
    if m.nanos < NANOS {
        moment_of(m.secs * NANOS + m.nanos + span)
    } else if whole > 0 || m.nanos + rest >= 2 * NANOS {
        moment_of(m.secs * NANOS + m.nanos - NANOS + span)
    } else if whole < 0 {
        moment_of((m.secs + 1) * NANOS + m.nanos - NANOS + span)
    } else {
        Moment { secs: m.secs, nanos: m.nanos + rest }
    }
}

/// The second of the day that `m` falls in.
pub open spec fn second_of_day(m: Moment) -> int {
    m.secs % 86_400
}

/// The nanoseconds from `earlier` to `later`. A leap second that one of them
/// lies in is counted where the other has an earlier or later time of day.
pub open spec fn elapsed(later: Moment, earlier: Moment) -> int {
    let leap: int = if second_of_day(later) > second_of_day(earlier) && earlier.nanos >= NANOS {
        1
    } else if second_of_day(later) < second_of_day(earlier) && later.nanos >= NANOS {
        -1
    } else {
        0
    };
    (later.secs - earlier.secs + leap) * NANOS + later.nanos - earlier.nanos
}

/// What chrono's `DateTime::parse_from_rfc3339` makes of a text, as a moment
/// in UTC; `None` where it is an error.
pub uninterp spec fn rfc3339_moment(text: Seq<char>) -> Option<Moment>;

/// What chrono's `DateTime::format` writes for a moment in UTC under the
/// pattern `%Y-%m-%d %H:%M`.
pub uninterp spec fn minute_text(m: Moment) -> Seq<char>;

/// chrono's `DateTime::checked_add_signed` on a moment in UTC and a
/// `TimeDelta`: the shifted moment, and `None` exactly where it lies on no day
/// that chrono can represent.
#[verifier::external_body]
fn chrono_add(secs: i64, nanos: u32, span_secs: i64, span_nanos: u32) -> (r: Option<(i64, u32)>)
    requires
        (Moment { secs: secs as int, nanos: nanos as int }).valid(),
        0 <= span_nanos < NANOS,
        -max_span() <= span_secs * NANOS + span_nanos <= max_span(),
    ensures
        ({
            let to = shifted(
                Moment { secs: secs as int, nanos: nanos as int },
                span_secs * NANOS + span_nanos,
            );
            match r {
                Some(p) => MIN_SECS <= to.secs <= MAX_SECS && to == (Moment {
                    secs: p.0 as int,
                    nanos: p.1 as int,
                }),
                None => !(MIN_SECS <= to.secs <= MAX_SECS),
            }
        }),
{
    let span = chrono::TimeDelta::new(span_secs, span_nanos)?;
    let at = chrono::DateTime::from_timestamp(secs, nanos)?.checked_add_signed(span)?;
    Some((at.timestamp(), at.timestamp_subsec_nanos()))
}

/// chrono's `DateTime::signed_duration_since` on two moments in UTC, as whole
/// seconds rounded toward zero and the nanoseconds that are left, of the same
/// sign.
#[verifier::external_body]
fn chrono_since(secs: i64, nanos: u32, other_secs: i64, other_nanos: u32) -> (r: (i64, i32))
    requires
        (Moment { secs: secs as int, nanos: nanos as int }).valid(),
        (Moment { secs: other_secs as int, nanos: other_nanos as int }).valid(),
    ensures
        ({
            let n = elapsed(
                Moment { secs: secs as int, nanos: nanos as int },
                Moment { secs: other_secs as int, nanos: other_nanos as int },
            );
            r.0 == truncated_div(n, NANOS as int) && r.0 * NANOS + r.1 == n
        }),
{
    let at = chrono::DateTime::from_timestamp(secs, nanos).unwrap();
    let span = at.signed_duration_since(chrono::DateTime::from_timestamp(other_secs, other_nanos).unwrap());
    (span.num_seconds(), span.subsec_nanos())
}

/// chrono's `DateTime::parse_from_rfc3339`, with the moment taken to UTC. Every
/// moment that it reads is one that chrono can represent.
#[verifier::external_body]
fn chrono_parse_rfc3339(text: &str) -> (r: Option<(i64, u32)>)
    ensures
        match r {
            Some(p) => rfc3339_moment(text@) == Some(
                Moment { secs: p.0 as int, nanos: p.1 as int },
            ) && (Moment { secs: p.0 as int, nanos: p.1 as int }).valid(),
            None => rfc3339_moment(text@) is None,
        },
{
    let at = chrono::DateTime::parse_from_rfc3339(text).ok()?.with_timezone(&chrono::Utc);
    Some((at.timestamp(), at.timestamp_subsec_nanos()))
}

/// chrono's `DateTime::format` with the pattern `%Y-%m-%d %H:%M`: the text is a
/// function of the moment alone.
#[verifier::external_body]
fn chrono_format_minute(secs: i64, nanos: u32) -> (r: String)
    requires
        (Moment { secs: secs as int, nanos: nanos as int }).valid(),
    ensures
        r@ == minute_text(Moment { secs: secs as int, nanos: nanos as int }),
{
    let at = chrono::DateTime::from_timestamp(secs, nanos).unwrap();
    at.format("%Y-%m-%d %H:%M").to_string()
}

/// A span of time, positive or negative, with nanosecond precision. Its value
/// is a number of nanoseconds.
#[derive(Clone, Copy, PartialEq, Eq, Structural, Debug)]
pub struct TimeSpan {
    secs: i64,
    nanos: u32,
}

impl View for TimeSpan {
    type V = int;

    closed spec fn view(&self) -> int {
        self.secs * NANOS + self.nanos
    }
}

impl TimeSpan {
    #[verifier::type_invariant]
    closed spec fn normal(self) -> bool {
        &&& self.nanos < NANOS
        &&& -max_span() <= self.secs * NANOS + self.nanos <= max_span()
    }

    /// The span of `secs` seconds and `nanos` nanoseconds; `None` where the
    /// nanoseconds make a second or more, or the span is out of bounds.
    pub fn new(secs: i64, nanos: u32) -> (r: Option<TimeSpan>)
        ensures
            match r {
                Some(d) => nanos < NANOS && d@ == secs * NANOS + nanos && -max_span() <= d@
                    <= max_span(),
                None => nanos >= NANOS || !(-max_span() <= secs * NANOS + nanos <= max_span()),
            },
    {
        let total: i128 = secs as i128 * 1_000_000_000 + nanos as i128;
        let bound: i128 = i64::MAX as i128 * 1_000_000;
        if nanos < 1_000_000_000 && -bound <= total && total <= bound {
            Some(TimeSpan { secs, nanos })
        } else {
            None
        }
    }

    /// The span of no length.
    pub fn zero() -> (r: TimeSpan)
        ensures
            r@ == 0,
    {
        TimeSpan { secs: 0, nanos: 0 }
    }

    /// The whole seconds of the span, rounded toward zero.
    pub fn num_seconds(&self) -> (r: i64)
        ensures
            r == truncated_div(self@, NANOS as int),
    {
        proof {
            use_type_invariant(self);
            lemma_split(self.secs as int, self.nanos as int);
        }
        if self.secs < 0 && self.nanos > 0 {
            self.secs + 1
        } else {
            self.secs
        }
    }

    /// Whether the span is shorter than `hours` hours.
    pub fn shorter_than_hours(&self, hours: u32) -> (r: bool)
        ensures
            r == (self@ < hours * 3600 * NANOS),
    {
        proof {
            use_type_invariant(self);
        }
        self.secs < hours as i64 * 3600
    }

    /// The span of the same length in the other direction.
    pub fn negated(&self) -> (r: TimeSpan)
        ensures
            r@ == -self@,
    {
        proof {
            use_type_invariant(self);
        }
        if self.nanos == 0 {
            TimeSpan { secs: -self.secs, nanos: 0 }
        } else {
            TimeSpan { secs: -self.secs - 1, nanos: 1_000_000_000 - self.nanos }
        }
    }

}

proof fn lemma_split(secs: int, nanos: int)
    requires
        0 <= nanos < NANOS,
    ensures
        (secs * NANOS + nanos) / (NANOS as int) == secs,
        (secs * NANOS + nanos) % (NANOS as int) == nanos,
        truncated_div(secs * NANOS + nanos, NANOS as int) == if secs < 0 && nanos > 0 {
            secs + 1
        } else {
            secs
        },
{
    assert((secs * 1_000_000_000 + nanos) / 1_000_000_000 == secs) by (nonlinear_arith)
        requires
            0 <= nanos < 1_000_000_000,
    ;
    let n = secs * NANOS + nanos;
    if n < 0 {
        assert((-secs * 1_000_000_000 - nanos) / 1_000_000_000 == if nanos > 0 {
            -secs - 1
        } else {
            -secs
        }) by (nonlinear_arith)
            requires
                0 <= nanos < 1_000_000_000,
        ;
    }
}

/// A length of time, never negative, with nanosecond precision: the time
/// between two polls. Its value is a number of nanoseconds.
#[derive(Clone, Copy, PartialEq, Eq, Structural, Debug)]
pub struct Interval {
    secs: u64,
    nanos: u32,
}

impl View for Interval {
    type V = int;

    closed spec fn view(&self) -> int {
        self.secs * NANOS + self.nanos
    }
}

/// The span that an interval of `n` nanoseconds stands for: none at all where
/// it is longer than the longest span.
pub open spec fn span_of_interval(n: int) -> int {
    if n <= max_span() {
        n
    } else {
        0
    }
}

/// The factor that `failures` failed attempts in a row put on the interval: it
/// doubles with each of the first sixteen.
pub open spec fn backoff_factor(failures: nat) -> int
    decreases failures,
{
    if failures == 0 {
        1
    } else if failures > 16 {
        backoff_factor(16)
    } else {
        2 * backoff_factor((failures - 1) as nat)
    }
}

/// An hour, in nanoseconds: no failed poll waits longer.
pub open spec fn max_backoff() -> int {
    3600 * NANOS
}

/// The wait, in nanoseconds, after `failures` failed attempts in a row to poll
/// at an interval of `n` nanoseconds.
pub open spec fn backoff(n: int, failures: nat) -> int {
    if n * backoff_factor(failures) < max_backoff() {
        n * backoff_factor(failures)
    } else {
        max_backoff()
    }
}

impl Interval {
    #[verifier::type_invariant]
    closed spec fn normal(self) -> bool {
        self.nanos < NANOS
    }

    /// The interval of `secs` seconds and `nanos` nanoseconds; `None` where the
    /// nanoseconds make a second or more.
    pub fn new(secs: u64, nanos: u32) -> (r: Option<Interval>)
        ensures
            match r {
                Some(i) => nanos < NANOS && i@ == secs * NANOS + nanos,
                None => nanos >= NANOS,
            },
    {
        if nanos < 1_000_000_000 {
            Some(Interval { secs, nanos })
        } else {
            None
        }
    }

    /// The interval of `secs` seconds.
    pub fn from_secs(secs: u64) -> (r: Interval)
        ensures
            r@ == secs * NANOS,
    {
        Interval { secs, nanos: 0 }
    }

    /// The whole seconds of the interval.
    pub fn secs(&self) -> (r: u64)
        ensures
            r == self@ / (NANOS as int),
    {
        proof {
            use_type_invariant(self);
            lemma_split(self.secs as int, self.nanos as int);
        }
        self.secs
    }

    /// The nanoseconds of the interval beyond its whole seconds.
    pub fn subsec_nanos(&self) -> (r: u32)
        ensures
            r == self@ % (NANOS as int),
    {
        proof {
            use_type_invariant(self);
            lemma_split(self.secs as int, self.nanos as int);
        }
        self.nanos
    }

    /// Whether the interval is short enough to be a span.
    pub fn fits_span(&self) -> (r: bool)
        ensures
            r == (self@ <= max_span()),
            self@ >= 0,
    {
        proof {
            use_type_invariant(self);
        }
        let total: i128 = self.secs as i128 * 1_000_000_000 + self.nanos as i128;
        total <= i64::MAX as i128 * 1_000_000
    }

    /// The interval as a span; the span of no length where it is too long for
    /// one.
    pub fn to_span(&self) -> (r: TimeSpan)
        ensures
            r@ == span_of_interval(self@),
    {
        proof {
            use_type_invariant(self);
        }
        let total: i128 = self.secs as i128 * 1_000_000_000 + self.nanos as i128;
        if total <= i64::MAX as i128 * 1_000_000 {
            TimeSpan { secs: self.secs as i64, nanos: self.nanos }
        } else {
            TimeSpan::zero()
        }
    }

    /// What is left of `millis` milliseconds after the interval.
    pub fn left_of_millis(&self, millis: u64) -> (r: Interval)
        ensures
            r@ == if self@ < millis * 1_000_000 {
                millis * 1_000_000 - self@
            } else {
                0
            },
    {
        proof {
            use_type_invariant(self);
        }
        let total: u128 = self.secs as u128 * 1_000_000_000 + self.nanos as u128;
        let whole: u128 = millis as u128 * 1_000_000;
        if total < whole {
            let left: u128 = whole - total;
            Interval { secs: (left / 1_000_000_000) as u64, nanos: (left % 1_000_000_000) as u32 }
        } else {
            Interval { secs: 0, nanos: 0 }
        }
    }

    /// The wait after `failures` failed attempts in a row.
    pub fn backoff_span(&self, failures: u32) -> (r: TimeSpan)
        ensures
            r@ == backoff(self@, failures as nat),
            0 <= r@ <= max_backoff(),
    {
        proof {
            use_type_invariant(self);
            lemma_backoff_factor(failures as nat);
        }
        let factor = factor_after(failures);
        let total: u128 = self.secs as u128 * 1_000_000_000 + self.nanos as u128;
        let ghost n = self@;
        assert(0 <= n * factor <= n * 65536) by (nonlinear_arith)
            requires
                n >= 0,
                0 <= factor <= 65536,
        ;
        assert(n * 65536 <= 0x1_0000_0000_0000_0000 * 1_000_000_000 * 65536);
        let wait: u128 = total * factor as u128;
        if wait < 3600 * 1_000_000_000 {
            TimeSpan { secs: (wait / 1_000_000_000) as i64, nanos: (wait % 1_000_000_000) as u32 }
        } else {
            TimeSpan { secs: 3600, nanos: 0 }
        }
    }
}

pub proof fn lemma_backoff_factor(failures: nat)
    ensures
        1 <= backoff_factor(failures) <= 65536,
        failures == 0 ==> backoff_factor(failures) == 1,
        failures >= 16 ==> backoff_factor(failures) == 65536,
{
    reveal_with_fuel(backoff_factor, 18);
}

/// The factor is two to the power of the failures, at most of sixteen.
pub proof fn lemma_backoff_is_a_power(failures: nat)
    ensures
        backoff_factor(failures) == pow2(if failures < 16 { failures } else { 16 }),
    decreases failures,
{
    if failures == 0 {
        lemma2_to64();
    } else if failures > 16 {
        lemma_backoff_is_a_power(16);
    } else {
        lemma_backoff_is_a_power((failures - 1) as nat);
        lemma_pow2_unfold(failures);
    }
}

/// The wait after a failed poll never shrinks as failures pile up, doubles with
/// each failure until it would pass an hour, and never passes an hour.
pub proof fn law_backoff_doubles_up_to_an_hour(n: int, failures: nat)
    requires
        n >= 0,
    ensures
        backoff(n, failures) <= backoff(n, failures + 1) <= max_backoff(),
        failures < 16 && 2 * backoff(n, failures) <= max_backoff() ==> backoff(n, failures + 1) == 2
            * backoff(n, failures),
        failures < 16 && 2 * backoff(n, failures) > max_backoff() ==> backoff(n, failures + 1)
            == max_backoff(),
{
    lemma_backoff_factor(failures);
    lemma_backoff_factor(failures + 1);
    let f = backoff_factor(failures);
    let g = backoff_factor(failures + 1);
    assert(g == if failures < 16 {
        2 * f
    } else {
        f
    });
    assert(n * g == if failures < 16 {
        2 * (n * f)
    } else {
        n * f
    }) by (nonlinear_arith)
        requires
            g == if failures < 16 {
                2 * f
            } else {
                f
            },
    ;
}

/// Going back by a span and forward by the same span ends where it started,
/// outside leap seconds.
pub proof fn law_shift_back_and_forth(m: Moment, span: int)
    requires
        0 <= m.nanos < NANOS,
    ensures
        shifted(shifted(m, -span), span) == m,
{
    let n = m.secs * NANOS + m.nanos - span;
    let back = shifted(m, -span);
    assert(back == moment_of(n));
    assert(back.secs * NANOS + back.nanos == n) by {
        assert(n == (n / 1_000_000_000) * 1_000_000_000 + n % 1_000_000_000);
    }
    lemma_split(m.secs, m.nanos);
}

/// The factor that `failures` failed attempts in a row put on the interval.
fn factor_after(failures: u32) -> (r: u32)
    ensures
        r == backoff_factor(failures as nat),
{
    let steps: u32 = if failures > 16 {
        16
    } else {
        failures
    };
    let mut r: u32 = 1;
    let mut i: u32 = 0;
    while i < steps
        invariant
            i <= steps <= 16,
            r == backoff_factor(i as nat),
        decreases steps - i,
    {
        proof {
            lemma_backoff_factor(i as nat);
        }
        r = r * 2;
        i += 1;
    }
    r
}

/// A poll at `now` leaves room for the next one: after an interval of `n`
/// nanoseconds, and after any wait that failures can lead to.
pub open spec fn has_room(now: Moment, n: int) -> bool {
    &&& shifted(now, span_of_interval(n)).valid()
    &&& forall|wait: int| 0 <= wait <= max_backoff() ==> (#[trigger] shifted(now, wait)).valid()
}

proof fn lemma_room_within_an_hour(now: Moment, wait: int)
    requires
        now.valid(),
        0 <= wait <= max_backoff(),
        shifted(now, max_backoff()).valid(),
    ensures
        shifted(now, wait).valid(),
{
    let n = now.secs * NANOS + now.nanos;
    let base = if now.nanos < NANOS {
        n
    } else {
        n - NANOS
    };
    assert((base + wait) / 1_000_000_000 <= (base + max_backoff()) / 1_000_000_000);
    assert(base / 1_000_000_000 <= (base + wait) / 1_000_000_000);
    assert(base / 1_000_000_000 == now.secs) by {
        lemma_split(now.secs, base - now.secs * NANOS);
    }
}

/// Whether a poll at `now` leaves room for the next one.
pub fn leaves_room(now: &Timestamp, interval: &Interval) -> (r: bool)
    ensures
        r == has_room(now@, interval@),
{
    proof {
        use_type_invariant(now);
    }
    let hour = TimeSpan { secs: 3600, nanos: 0 };
    assert(hour@ == max_backoff());
    let fits_hour = now.checked_add(&hour).is_some();
    proof {
        assert(fits_hour == shifted(now@, max_backoff()).valid());
        if fits_hour {
            assert forall|wait: int| 0 <= wait <= max_backoff() implies (#[trigger] shifted(
                now@,
                wait,
            )).valid() by {
                lemma_room_within_an_hour(now@, wait);
            }
        }
    }
    fits_hour && now.checked_add(&interval.to_span()).is_some()
}

/// A point in time, in UTC.
#[derive(Clone, Copy, PartialEq, Eq, Structural, Debug)]
pub struct Timestamp {
    secs: i64,
    nanos: u32,
}

impl View for Timestamp {
    type V = Moment;

    closed spec fn view(&self) -> Moment {
        Moment { secs: self.secs as int, nanos: self.nanos as int }
    }
}

impl DeepView for Timestamp {
    type V = Moment;

    open spec fn deep_view(&self) -> Moment {
        self@
    }
}

impl Timestamp {
    /// Every timestamp is a moment that chrono can represent.
    #[verifier::type_invariant]
    pub open spec fn normal(self) -> bool {
        self@.valid()
    }

    /// The moment `secs` seconds and `nanos` nanoseconds behind the start of
    /// 1970; `None` where chrono cannot represent it.
    pub fn new(secs: i64, nanos: u32) -> (r: Option<Timestamp>)
        ensures
            match r {
                Some(t) => t@ == (Moment { secs: secs as int, nanos: nanos as int })
                    && t@.valid(),
                None => !(Moment { secs: secs as int, nanos: nanos as int }).valid(),
            },
    {
        let minute_end = if secs >= 0 {
            secs % 60 == 59
        } else if secs > i64::MIN {
            (-secs) % 60 == 1
        } else {
            false
        };
        if MIN_SECS <= secs && secs <= MAX_SECS && (nanos < 1_000_000_000 || (nanos < 2_000_000_000
            && minute_end)) {
            Some(Timestamp { secs, nanos })
        } else {
            None
        }
    }

    /// The seconds since the start of 1970.
    pub fn secs(&self) -> (r: i64)
        ensures
            r == self@.secs,
    {
        self.secs
    }

    /// The nanoseconds on top of the seconds.
    pub fn nanos(&self) -> (r: u32)
        ensures
            r == self@.nanos,
    {
        self.nanos
    }

    /// Whether the moment is not later than `other`.
    pub fn not_after(&self, other: &Timestamp) -> (r: bool)
        ensures
            r == self@.le(other@),
    {
        self.secs < other.secs || (self.secs == other.secs && self.nanos <= other.nanos)
    }

    /// The moment `span` later; `None` exactly where it lies on no day that
    /// chrono can represent.
    pub fn checked_add(&self, span: &TimeSpan) -> (r: Option<Timestamp>)
        ensures
            match r {
                Some(t) => t@ == shifted(self@, span@) && t@.valid(),
                None => !shifted(self@, span@).valid(),
            },
    {
        proof {
            use_type_invariant(self);
            use_type_invariant(span);
        }
        match chrono_add(self.secs, self.nanos, span.secs, span.nanos) {
            Some(p) => Some(Timestamp { secs: p.0, nanos: p.1 }),
            None => None,
        }
    }

    /// The moment `span` later.
    pub fn plus(&self, span: &TimeSpan) -> (r: Timestamp)
        requires
            shifted(self@, span@).valid(),
        ensures
            r@ == shifted(self@, span@),
    {
        match self.checked_add(span) {
            Some(t) => t,
            None => *self,
        }
    }

    /// The span from `earlier` to this moment.
    pub fn since(&self, earlier: &Timestamp) -> (r: TimeSpan)
        ensures
            r@ == elapsed(self@, earlier@),
    {
        proof {
            use_type_invariant(self);
            use_type_invariant(earlier);
        }
        let (secs, nanos) = chrono_since(self.secs, self.nanos, earlier.secs, earlier.nanos);
        if nanos < 0 {
            TimeSpan { secs: secs - 1, nanos: (1_000_000_000 + nanos) as u32 }
        } else {
            TimeSpan { secs, nanos: nanos as u32 }
        }
    }

    /// Reads a date and time in the format of RFC 3339; `None` where the text
    /// is not one.
    pub fn parse_rfc3339(text: &str) -> (r: Option<Timestamp>)
        ensures
            match r {
                Some(t) => rfc3339_moment(text@) == Some(t@),
                None => rfc3339_moment(text@) is None,
            },
    {
        match chrono_parse_rfc3339(text) {
            Some(p) => Some(Timestamp { secs: p.0, nanos: p.1 }),
            None => None,
        }
    }

    /// The date and the time of day to the minute.
    pub fn format_minute(&self) -> (r: String)
        ensures
            r@ == minute_text(self@),
    {
        proof {
            use_type_invariant(self);
        }
        chrono_format_minute(self.secs, self.nanos)
    }
}

} // verus!
