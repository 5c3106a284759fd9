//! When parcels are polled, and what a poll does.
use vstd::arithmetic::power2::pow2;
use vstd::prelude::*;

use crate::clock::{has_room, lemma_backoff_is_a_power, shifted, Moment, MAX_SECS, MIN_SECS};
use crate::enrich::{
    filled, is_last_translated, lemma_filled, lemma_next_place, lemma_noted, next_place, place_of,
    seeded, translates_at,
};
use crate::geo::{
    found_places, located, lookup_wait, search_terms, Coord, GeoErrorModel, PlaceModel,
};
use crate::laws::strip::{lemma_place, place_told};
use crate::laws::texts::{all_blank, law_blank_text_trims_to_nothing, law_found_text_is_a_part};
use crate::numerals::{all_digits, digits_value, i64_of, integer_of, signed_decimal};
use crate::order::{lemma_text_le_reflexive, lemma_text_le_total, lemma_text_le_transitive, text_le};
use crate::poller::{one_more, scheduled, CommandModel, PollEventModel, ScheduleModel, SlotModel};
use crate::provider::{EventModel, Status, TrackingModel};
use crate::store::{home_in, lists, temp_name, CacheModel, ParcelModel};
use crate::text::trimmed;
use crate::translate::{
    answer_in, english_text, status_code, translate_error_text, MyMemoryModel, StatusModel,
};
use crate::worker::{
    all_resumable, can_resume, law_restart_keeps_the_schedule, resumed, PhaseModel,
    WorkerActionModel, WorkerEventModel, WorkerModel,
};

verus! {

// ---------------------------------------------------------------------------
// The schedule
// ---------------------------------------------------------------------------
/// A parcel that is added is polled at once, and one that is there keeps its
/// slot; a parcel that is removed has none; a refresh makes a parcel due at once
/// and not delivered any more, and leaves its failures counted; and a refresh of
/// all does that to every parcel. No other slot changes, nor the interval.
pub proof fn law_commands_change_the_schedule(
    m: ScheduleModel,
    number: Seq<char>,
    n: Seq<char>,
    now: Moment,
)
    ensures
        m.added(number, now).interval == m.interval,
        m.removed(number).interval == m.interval,
        m.refreshed(number, now).interval == m.interval,
        m.all_refreshed(now).interval == m.interval,
        m.added(number, now).entries == (if m.entries.contains_key(number) {
            m.entries
        } else {
            m.entries.insert(
                number,
                SlotModel { next_poll: now, failures: 0, delivered: false },
            )
        }),
        m.removed(number).entries == m.entries.remove(number),
        m.refreshed(number, now).entries == (if m.entries.contains_key(number) {
            m.entries.insert(
                number,
                SlotModel {
                    next_poll: now,
                    failures: m.entries[number].failures,
                    delivered: false,
                },
            )
        } else {
            m.entries
        }),
        m.all_refreshed(now).entries.contains_key(n) == m.entries.contains_key(n),
        m.entries.contains_key(n) ==> m.all_refreshed(now).entries[n] == (SlotModel {
            next_poll: now,
            failures: m.entries[n].failures,
            delivered: false,
        }),
{
}

/// A poll that went well puts the next one an interval later, forgets the
/// failures, and notes whether the parcel was delivered. A parcel that is not
/// scheduled stays so, and no other slot changes.
pub proof fn law_success_puts_the_next_poll_an_interval_later(
    m: ScheduleModel,
    number: Seq<char>,
    status: Status,
    now: Moment,
)
    requires
        0 <= m.interval <= i64::MAX * 1_000_000,
    ensures
        m.succeeded(number, status, now).interval == m.interval,
        m.succeeded(number, status, now).entries == (if m.entries.contains_key(number) {
            m.entries.insert(
                number,
                SlotModel {
                    next_poll: shifted(now, m.interval),
                    failures: 0,
                    delivered: status == Status::Delivered,
                },
            )
        } else {
            m.entries
        }),
{
}

/// An interval that is longer than any span of time counts as none.
pub proof fn law_endless_interval_counts_as_none(
    m: ScheduleModel,
    number: Seq<char>,
    status: Status,
    now: Moment,
)
    requires
        m.interval > i64::MAX * 1_000_000,
        m.entries.contains_key(number),
    ensures
        m.succeeded(number, status, now).entries[number].next_poll == shifted(now, 0),
        m.succeeded(number, status, now).entries[number].delivered == (status
            == Status::Delivered),
        m.succeeded(number, status, now).entries[number].failures == 0,
{
}

/// The parcel can be polled at `now`.
pub open spec fn is_waiting(m: ScheduleModel, n: Seq<char>, now: Moment) -> bool {
    &&& m.entries.contains_key(n)
    &&& !m.entries[n].delivered
    &&& m.entries[n].next_poll.secs < now.secs || m.entries[n].next_poll.secs == now.secs
        && m.entries[n].next_poll.nanos <= now.nanos
}

/// The parcel that is polled next is scheduled, not delivered and due; no parcel
/// like that was due before it, and of those that were due at the same time it
/// comes first in the alphabet.
pub proof fn law_longest_waiting_is_polled_first(
    m: ScheduleModel,
    now: Moment,
    n: Seq<char>,
    other: Seq<char>,
)
    requires
        m.next_due(now) == Some(n),
    ensures
        is_waiting(m, n, now),
        is_waiting(m, other, now) ==> {
            let (a, b) = (m.entries[n].next_poll, m.entries[other].next_poll);
            ||| a.secs < b.secs
            ||| a.secs == b.secs && a.nanos < b.nanos
            ||| a == b && text_le(n, other)
        },
{
    assert(m.first_due(n, now));
    if is_waiting(m, other, now) {
        assert(m.due(other, now));
    }
}

/// The parcel `a` comes before the parcel `b`, or is the same: it has waited for
/// longer, or as long and is the first in the alphabet.
pub open spec fn comes_first(m: ScheduleModel, a: Seq<char>, b: Seq<char>) -> bool {
    let (x, y) = (m.entries[a].next_poll, m.entries[b].next_poll);
    ||| x.secs < y.secs
    ||| x.secs == y.secs && x.nanos < y.nanos
    ||| x == y && text_le(a, b)
}

/// Where a parcel can be polled, one is.
pub proof fn law_waiting_parcels_are_polled(m: ScheduleModel, now: Moment, n: Seq<char>)
    requires
        m.entries.dom().finite(),
        is_waiting(m, n, now),
    ensures
        m.next_due(now) is Some,
{
    let waiting = m.entries.dom().filter(|k: Seq<char>| is_waiting(m, k, now));
    m.entries.dom().lemma_len_filter(|k: Seq<char>| is_waiting(m, k, now));
    assert(waiting.contains(n));
    let first = lemma_first_of(m, waiting);
    assert(m.due(first, now));
    assert forall|other: Seq<char>| #[trigger] m.due(other, now) implies {
        ||| crate::poller::before(m.entries[first].next_poll, m.entries[other].next_poll)
        ||| m.entries[first].next_poll == m.entries[other].next_poll && text_le(first, other)
    } by {
        assert(waiting.contains(other));
        assert(comes_first(m, first, other));
    }
    assert(m.first_due(first, now));
}

proof fn lemma_first_of(m: ScheduleModel, some: Set<Seq<char>>) -> (first: Seq<char>)
    requires
        some.finite(),
        some.len() > 0,
    ensures
        some.contains(first),
        forall|other: Seq<char>| some.contains(other) ==> #[trigger] comes_first(m, first, other),
    decreases some.len(),
{
    let a = some.choose();
    assert(some.contains(a));
    let rest = some.remove(a);
    lemma_text_le_reflexive(a);
    if rest.len() == 0 {
        assert forall|other: Seq<char>| some.contains(other) implies #[trigger] comes_first(
            m,
            a,
            other,
        ) by {
            if other != a {
                assert(rest.contains(other));
                assert(rest =~= Set::empty());
            }
        }
        a
    } else {
        let b = lemma_first_of(m, rest);
        lemma_text_le_total(a, b);
        let first = if comes_first(m, a, b) {
            a
        } else {
            b
        };
        assert forall|other: Seq<char>| some.contains(other) implies #[trigger] comes_first(
            m,
            first,
            other,
        ) by {
            if other != a {
                assert(rest.contains(other));
                assert(comes_first(m, b, other));
                if text_le(a, b) && text_le(b, other) {
                    lemma_text_le_transitive(a, b, other);
                }
            }
        }
        first
    }
}

/// A poll that failed counts, and puts the next poll off: the `k`th failure in a
/// row by the interval times two to the power of `k`, at most of sixteen, and by
/// an hour at most; the count stops at the largest number that it can hold. A
/// parcel that was delivered stays so, one that is not scheduled stays so too,
/// and no other slot changes.
pub proof fn law_failure_puts_the_next_poll_off(
    m: ScheduleModel,
    number: Seq<char>,
    now: Moment,
)
    requires
        m.entries.contains_key(number),
    ensures
        ({
            let slot = m.entries[number];
            let k = if slot.failures < u32::MAX {
                slot.failures + 1
            } else {
                slot.failures
            };
            let doubled = m.interval * pow2(if k < 16 { k } else { 16 });
            let hour = 3_600_000_000_000int;
            m.failed(number, now) == (ScheduleModel {
                interval: m.interval,
                entries: m.entries.insert(
                    number,
                    SlotModel {
                        next_poll: shifted(
                            now,
                            if doubled < hour {
                                doubled
                            } else {
                                hour
                            },
                        ),
                        failures: k,
                        delivered: slot.delivered,
                    },
                ),
            })
        }),
{
    lemma_backoff_is_a_power(one_more(m.entries[number].failures));
}

/// A late failure of a parcel that is not scheduled changes nothing.
pub proof fn law_failure_of_the_unscheduled(m: ScheduleModel, number: Seq<char>, now: Moment)
    requires
        !m.entries.contains_key(number),
    ensures
        m.failed(number, now) == m,
{
}

/// There is room for the next poll wherever the interval, and an hour, lie within
/// the time that can be told; and a schedule can be resumed wherever the next
/// polls, less the interval, do.
pub proof fn law_there_is_room_in_ordinary_times(
    now: Moment,
    interval: int,
    parcels: Seq<ParcelModel>,
    cache: CacheModel,
)
    requires
        0 <= interval <= i64::MAX * 1_000_000,
    ensures
        0 <= now.nanos < 1_000_000_000 && MIN_SECS <= now.secs && now.secs * 1_000_000_000
            + now.nanos + interval < (MAX_SECS + 1) * 1_000_000_000 && now.secs + 3_601 <= MAX_SECS
            ==> has_room(now, interval),
        (forall|i: int| #![trigger parcels[i]]
            0 <= i < parcels.len() && cache.by_number.contains_key(parcels[i].number) ==> {
                let p = cache.by_number[parcels[i].number].next_poll;
                0 <= p.nanos < 1_000_000_000 && p.secs <= MAX_SECS && MIN_SECS * 1_000_000_000
                    <= p.secs * 1_000_000_000 + p.nanos - interval
            }) ==> all_resumable(interval, parcels, cache),
{
    assert forall|i: int|
        0 <= i < parcels.len() && (forall|i: int| #![trigger parcels[i]]
            0 <= i < parcels.len() && cache.by_number.contains_key(parcels[i].number) ==> {
                let p = cache.by_number[parcels[i].number].next_poll;
                0 <= p.nanos < 1_000_000_000 && p.secs <= MAX_SECS && MIN_SECS * 1_000_000_000
                    <= p.secs * 1_000_000_000 + p.nanos - interval
            }) implies can_resume(interval, cache, (#[trigger] parcels[i]).number) by {
        if cache.by_number.contains_key(parcels[i].number) {
            let p = cache.by_number[parcels[i].number].next_poll;
            let polled = shifted(p, -interval);
            assert(polled.secs * 1_000_000_000 + polled.nanos == p.secs * 1_000_000_000 + p.nanos
                - interval);
        }
    }
}

/// At the start every parcel of the list is due, and no other is scheduled.
pub proof fn law_every_parcel_is_scheduled(
    interval: int,
    numbers: Seq<Seq<char>>,
    now: Moment,
    n: Seq<char>,
)
    ensures
        scheduled(interval, numbers, now).interval == interval,
        scheduled(interval, numbers, now).entries.contains_key(n) <==> numbers.contains(n),
        numbers.contains(n) ==> scheduled(interval, numbers, now).entries[n] == (SlotModel {
            next_poll: now,
            failures: 0,
            delivered: false,
        }),
    decreases numbers.len(),
{
    if numbers.len() > 0 {
        let front = numbers.drop_last();
        law_every_parcel_is_scheduled(interval, front, now, n);
        law_every_parcel_is_scheduled(interval, front, now, numbers.last());
        if front.contains(n) {
            let i = choose|i: int| 0 <= i < front.len() && front[i] == n;
            assert(numbers[i] == n);
        }
        if numbers.contains(n) && !front.contains(n) {
            let i = choose|i: int| 0 <= i < numbers.len() && numbers[i] == n;
            if i < front.len() {
                assert(front[i] == n);
            }
        }
        assert(numbers[numbers.len() - 1] == numbers.last());
    }
}

/// After a restart the parcels of the list are scheduled, and no others.
pub proof fn law_restart_schedules_the_list(
    interval: int,
    parcels: Seq<ParcelModel>,
    cache: CacheModel,
    now: Moment,
    n: Seq<char>,
)
    ensures
        resumed(interval, parcels, cache, now).interval == interval,
        resumed(interval, parcels, cache, now).entries.contains_key(n) <==> exists|i: int|
            0 <= i < parcels.len() && (#[trigger] parcels[i]).number == n,
    decreases parcels.len(),
{
    if parcels.len() > 0 {
        let front = parcels.drop_last();
        law_restart_schedules_the_list(interval, front, cache, now, n);
        assert(parcels[parcels.len() - 1] == parcels.last());
        if exists|i: int| 0 <= i < front.len() && (#[trigger] front[i]).number == n {
            let i = choose|i: int| 0 <= i < front.len() && (#[trigger] front[i]).number == n;
            assert(parcels[i].number == n);
        }
        if exists|i: int| 0 <= i < parcels.len() && (#[trigger] parcels[i]).number == n {
            let i = choose|i: int| 0 <= i < parcels.len() && (#[trigger] parcels[i]).number == n;
            if i < front.len() {
                assert(front[i].number == n);
            }
        }
    }
}

/// After a restart a parcel of the list of which there is a tracking, whatever
/// that says, is polled when it would have been polled next, and never if it was
/// delivered; and any other parcel of the list is polled at once. Failures are
/// forgotten.
pub proof fn law_restart_resumes_each_parcel(
    interval: int,
    parcels: Seq<ParcelModel>,
    cache: CacheModel,
    now: Moment,
    i: int,
)
    requires
        0 <= interval <= i64::MAX * 1_000_000,
        0 <= i < parcels.len(),
    ensures
        ({
            let n = parcels[i].number;
            let slot = resumed(interval, parcels, cache, now).entries[n];
            let state = cache.by_number[n];
            &&& resumed(interval, parcels, cache, now).entries.contains_key(n)
            &&& cache.by_number.contains_key(n) && state.tracking is Some && 0
                <= state.next_poll.nanos < 1_000_000_000 ==> slot == (SlotModel {
                next_poll: state.next_poll,
                failures: 0,
                delivered: state.tracking->0.status == Status::Delivered,
            })
            &&& !cache.by_number.contains_key(n) || state.tracking is None ==> slot == (SlotModel {
                next_poll: now,
                failures: 0,
                delivered: false,
            })
        }),
    decreases parcels.len(),
{
    let n = parcels[i].number;
    let front = parcels.drop_last();
    let last = parcels.last();
    law_restart_schedules_the_list(interval, parcels, cache, now, n);
    law_restart_schedules_the_list(interval, front, cache, now, n);
    if cache.by_number.contains_key(n) && cache.by_number[n].tracking is Some && 0
        <= cache.by_number[n].next_poll.nanos < 1_000_000_000 {
        assert(lists(parcels, n));
        law_restart_keeps_the_schedule(interval, parcels, cache, now, n);
    }
    if !cache.by_number.contains_key(n) || cache.by_number[n].tracking is None {
        if exists|k: int| 0 <= k < front.len() && (#[trigger] front[k]).number == n {
            let k = choose|k: int| 0 <= k < front.len() && (#[trigger] front[k]).number == n;
            law_restart_resumes_each_parcel(interval, front, cache, now, k);
        } else {
            assert(last.number == n) by {
                if i < front.len() {
                    assert(front[i].number == n);
                }
            }
        }
    }
}

// ---------------------------------------------------------------------------
// The worker between polls
// ---------------------------------------------------------------------------
/// At the start home is looked up as it is written, if it is set, not empty and
/// not known; and where it is, or that it is nowhere, is kept and told. A lookup
/// that fails is not kept.
pub proof fn law_worker_looks_for_home(
    w: WorkerModel,
    home: Seq<char>,
    coord: Option<Coord>,
    now: Moment,
)
    ensures
        w.phase is Starting && w.home == Some(home) && w.locates && home.len() > 0
            && !w.geo.contains_key(home) ==> w.after(WorkerEventModel::Begun, now) == (
            WorkerModel { phase: PhaseModel::LocatingHome { home }, ..w },
            WorkerActionModel::Locate { query: home, settlement_only: false },
        ),
        w.phase is Starting && (w.home is None || !w.locates || w.home->0.len() == 0
            || w.geo.contains_key(w.home->0)) ==> w.after(WorkerEventModel::Begun, now) == (
            WorkerModel { phase: PhaseModel::Idle, ..w },
            WorkerActionModel::Wait,
        ),
        w.phase == (PhaseModel::LocatingHome { home }) ==> w.after(
            WorkerEventModel::Located(Some(coord)),
            now,
        ) == (
            WorkerModel {
                geo: w.geo.insert(home, coord),
                phase: PhaseModel::ReportingHome,
                ..w
            },
            WorkerActionModel::Send(PollEventModel::Geocoded { key: home, coord }),
        ),
        w.phase == (PhaseModel::LocatingHome { home }) ==> w.after(
            WorkerEventModel::Located(None),
            now,
        ) == (WorkerModel { phase: PhaseModel::Idle, ..w }, WorkerActionModel::Wait),
        w.phase is ReportingHome ==> w.after(WorkerEventModel::Sent(true), now) == (
            WorkerModel { phase: PhaseModel::Idle, ..w },
            WorkerActionModel::Wait,
        ),
{
}

/// Between polls the worker obeys: it adds, removes and refreshes parcels in its
/// schedule, and waits on; told to stop, or cut off, it stops.
pub proof fn law_worker_obeys(w: WorkerModel, n: Seq<char>, now: Moment)
    requires
        w.phase is Idle,
    ensures
        ({
            let does = |c: CommandModel| w.after(WorkerEventModel::Command(c), now);
            let waits = |s: ScheduleModel|
                (WorkerModel { scheduler: s, ..w }, WorkerActionModel::Wait);
            &&& does(CommandModel::Add(n)) == waits(w.scheduler.added(n, now))
            &&& does(CommandModel::Remove(n)) == waits(w.scheduler.removed(n))
            &&& does(CommandModel::Refresh(n)) == waits(w.scheduler.refreshed(n, now))
            &&& does(CommandModel::RefreshAll) == waits(w.scheduler.all_refreshed(now))
            &&& does(CommandModel::Shutdown).1 is Stop
            &&& w.after(WorkerEventModel::Closed, now).1 is Stop
        }),
{
}

/// At a tick the parcel that is due first is announced, and once that is heard
/// the site is asked for it; where none is due the worker waits on.
pub proof fn law_worker_polls_what_is_due(w: WorkerModel, n: Seq<char>, now: Moment)
    ensures
        w.phase is Idle && w.scheduler.next_due(now) == Some(n) ==> w.after(
            WorkerEventModel::Tick,
            now,
        ) == (
            WorkerModel { phase: PhaseModel::Announcing { number: n }, ..w },
            WorkerActionModel::Send(PollEventModel::Started(n)),
        ),
        w.phase is Idle && w.scheduler.next_due(now) is None ==> w.after(
            WorkerEventModel::Tick,
            now,
        ) == (w, WorkerActionModel::Wait),
        w.phase == (PhaseModel::Announcing { number: n }) ==> w.after(
            WorkerEventModel::Sent(true),
            now,
        ) == (
            WorkerModel { phase: PhaseModel::Tracking { number: n }, ..w },
            WorkerActionModel::Track(n),
        ),
        w.phase is Reporting ==> w.after(WorkerEventModel::Sent(true), now) == (
            WorkerModel { phase: PhaseModel::Idle, ..w },
            WorkerActionModel::Wait,
        ),
{
}

// ---------------------------------------------------------------------------
// Translations
// ---------------------------------------------------------------------------
/// The event has a text that is to be translated: one that is not blank, and no
/// translation yet.
pub open spec fn wants_translation(e: EventModel) -> bool {
    e.translated is None && !all_blank(e.description)
}

/// The event with the translation that is known of its text, if it wants one.
pub open spec fn with_known(
    e: EventModel,
    known: Map<Seq<char>, Option<Seq<char>>>,
) -> EventModel {
    if wants_translation(e) && known.contains_key(e.description) {
        EventModel { translated: known[e.description], ..e }
    } else {
        e
    }
}

/// The first event from `from` on whose text wants a translation that is not
/// known is asked for; the events before it have got what is known, and the
/// others are as they were. Without such an event, every event has got what is
/// known.
pub proof fn law_first_unknown_text_is_asked_for(
    known: Map<Seq<char>, Option<Seq<char>>>,
    events: Seq<EventModel>,
    from: int,
    i: int,
)
    requires
        0 <= from <= events.len(),
        0 <= i < events.len(),
    ensures
        ({
            let (told, next) = filled(known, events, from);
            &&& told.len() == events.len()
            &&& next matches Some(at) ==> {
                &&& from <= at < events.len()
                &&& wants_translation(events[at]) && !known.contains_key(events[at].description)
                &&& from <= i < at && wants_translation(events[i]) ==> known.contains_key(
                    events[i].description,
                )
                &&& told[i] == if from <= i < at {
                    with_known(events[i], known)
                } else {
                    events[i]
                }
            }
            &&& next is None ==> {
                &&& from <= i && wants_translation(events[i]) ==> known.contains_key(
                    events[i].description,
                )
                &&& told[i] == if from <= i {
                    with_known(events[i], known)
                } else {
                    events[i]
                }
            }
        }),
{
    lemma_filled(known, events, from);
    let (told, next) = filled(known, events, from);
    law_blank_text_trims_to_nothing(events[i].description);
    if let Some(at) = next {
        law_blank_text_trims_to_nothing(events[at].description);
    }
    assert(told[i] == (EventModel { translated: told[i].translated, ..events[i] }));
}

/// With a translator, the answer of the site is translated before anything else:
/// the first unknown text is asked for, and where there is none, nothing is.
pub proof fn law_answer_is_translated(
    w: WorkerModel,
    number: Seq<char>,
    t: TrackingModel,
    now: Moment,
)
    requires
        w.phase == (PhaseModel::Tracking { number }),
    ensures
        ({
            let (after, action) = w.after(WorkerEventModel::Answered(Ok(t)), now);
            let (events, next) = filled(w.translations, t.events, 0);
            let told = TrackingModel { events, ..t };
            &&& w.translates && next is Some ==> action == WorkerActionModel::Translate(
                t.events[next->0].description,
            ) && after == (WorkerModel {
                phase: PhaseModel::Translating { number, tracking: told, at: next->0 },
                ..w
            })
            &&& w.translates && next is None && !w.locates ==> action == WorkerActionModel::Send(
                PollEventModel::Finished { number, result: Ok(told) },
            )
            &&& !w.translates && !w.locates ==> action == WorkerActionModel::Send(
                PollEventModel::Finished { number, result: Ok(t) },
            )
        }),
{
    lemma_filled(w.translations, t.events, 0);
}

/// The tracking that the worker works on, or that it reports.
pub open spec fn in_hand(after: WorkerModel, action: WorkerActionModel) -> Option<TrackingModel> {
    match after.phase {
        PhaseModel::Translating { tracking, .. } => Some(tracking),
        PhaseModel::Locating { tracking, .. } => Some(tracking),
        PhaseModel::ReportingPlace { tracking, .. } => Some(tracking),
        _ => match action {
            WorkerActionModel::Send(PollEventModel::Finished { result: Ok(t), .. }) => Some(t),
            _ => None,
        },
    }
}

/// What the translator answers is the translation of the event that was asked
/// for, and is kept for every event of the same text; a text that needs no
/// translation is its own. Nothing else of the events changes.
pub proof fn law_answered_translation_is_kept(
    w: WorkerModel,
    number: Seq<char>,
    t: TrackingModel,
    at: int,
    english: Option<Seq<char>>,
    now: Moment,
    i: int,
)
    requires
        w.phase == (PhaseModel::Translating { number, tracking: t, at }),
        0 <= at < t.events.len(),
        0 <= i < t.events.len(),
    ensures
        ({
            let (after, action) = w.after(WorkerEventModel::Translated(Some(english)), now);
            let d = t.events[at].description;
            let text = match english {
                Some(e) => e,
                None => d,
            };
            let known = w.translations.insert(d, Some(text));
            let now_told = in_hand(after, action);
            &&& after.translations == known
            &&& now_told is Some
            &&& now_told->0.events.len() == t.events.len()
            &&& now_told->0.events[at] == (EventModel { translated: Some(text), ..t.events[at] })
            &&& i < at ==> now_told->0.events[i] == t.events[i]
            &&& i > at ==> now_told->0.events[i] == t.events[i] || now_told->0.events[i]
                == with_known(t.events[i], known)
            &&& now_told->0 == (TrackingModel { events: now_told->0.events, ..t })
        }),
{
    let d = t.events[at].description;
    let text = match english {
        Some(e) => e,
        None => d,
    };
    let known = w.translations.insert(d, Some(text));
    let events = t.events.update(at, EventModel { translated: Some(text), ..t.events[at] });
    lemma_filled(known, events, at + 1);
    law_first_unknown_text_is_asked_for(known, events, at + 1, i);
    law_first_unknown_text_is_asked_for(known, events, at + 1, at);
}

// ---------------------------------------------------------------------------
// Places
// ---------------------------------------------------------------------------
/// The place of the first event from `from` on whose place is not known is
/// looked up; the places of the events before it are known; and none is looked up
/// where all are known.
pub proof fn law_first_unknown_place_is_looked_up(
    geo: Map<Seq<char>, Option<Coord>>,
    events: Seq<EventModel>,
    from: int,
    i: int,
)
    requires
        0 <= from <= i < events.len(),
        place_told(events[i]) is Some,
    ensures
        match next_place(geo, events, from) {
            Some((at, key)) => {
                &&& from <= at < events.len()
                &&& place_told(events[at]) == Some(key)
                &&& !geo.contains_key(key)
                &&& i < at ==> geo.contains_key(place_told(events[i])->0)
            },
            None => geo.contains_key(place_told(events[i])->0),
        },
    decreases events.len() - from,
{
    lemma_place(events[i]);
    lemma_place(events[from]);
    if from < i && !(place_of(events[from]) matches Some(key) && !geo.contains_key(key)) {
        law_first_unknown_place_is_looked_up(geo, events, from + 1, i);
    } else {
        lemma_next_place(geo, events, from);
        if let Some((at, key)) = next_place(geo, events, from) {
            lemma_place(events[at]);
        }
    }
}

/// Once the texts are done, the first unknown place is looked up among the
/// settlements. Where it is, or that it is nowhere, is kept and told, and the
/// lookups go on behind it; where none is left, the poll is reported.
pub proof fn law_places_are_looked_up_one_by_one(
    w: WorkerModel,
    number: Seq<char>,
    t: TrackingModel,
    at: int,
    key: Seq<char>,
    coord: Option<Coord>,
    now: Moment,
)
    requires
        0 <= at < t.events.len(),
        w.locates,
    ensures
        w.phase == (PhaseModel::Locating { number, tracking: t, at, key }) ==> w.after(
            WorkerEventModel::Located(Some(coord)),
            now,
        ) == (
            WorkerModel {
                geo: w.geo.insert(key, coord),
                phase: PhaseModel::ReportingPlace { number, tracking: t, at },
                ..w
            },
            WorkerActionModel::Send(PollEventModel::Geocoded { key, coord }),
        ),
        w.phase == (PhaseModel::ReportingPlace { number, tracking: t, at }) ==> {
            let (after, action) = w.after(WorkerEventModel::Sent(true), now);
            match next_place(w.geo, t.events, at + 1) {
                Some((next, place)) => action == (WorkerActionModel::Locate {
                    query: place,
                    settlement_only: true,
                }) && after == (WorkerModel {
                    phase: PhaseModel::Locating { number, tracking: t, at: next, key: place },
                    ..w
                }),
                None => action == WorkerActionModel::Send(
                    PollEventModel::Finished { number, result: Ok(t) },
                ),
            }
        },
        w.phase == (PhaseModel::Translating { number, tracking: t, at }) ==> {
            let (after, action) = w.after(WorkerEventModel::Translated(None), now);
            match next_place(w.geo, t.events, 0) {
                Some((next, place)) => action == (WorkerActionModel::Locate {
                    query: place,
                    settlement_only: true,
                }) && after == (WorkerModel {
                    phase: PhaseModel::Locating { number, tracking: t, at: next, key: place },
                    ..w
                }),
                None => action == WorkerActionModel::Send(
                    PollEventModel::Finished { number, result: Ok(t) },
                ),
            }
        },
        w.phase == (PhaseModel::Tracking { number }) && !w.translates ==> {
            let (after, action) = w.after(WorkerEventModel::Answered(Ok(t)), now);
            match next_place(w.geo, t.events, 0) {
                Some((next, place)) => action == (WorkerActionModel::Locate {
                    query: place,
                    settlement_only: true,
                }) && after == (WorkerModel {
                    phase: PhaseModel::Locating { number, tracking: t, at: next, key: place },
                    ..w
                }),
                None => action == WorkerActionModel::Send(
                    PollEventModel::Finished { number, result: Ok(t) },
                ),
            }
        },
{
}

/// What a lookup asks for: the place, one result, and only settlements if so
/// wanted. The first result is where it is, no result means nowhere, and a
/// coordinate that is no number is an error that names it.
pub proof fn law_lookup_takes_the_first_result(
    query: Seq<char>,
    results: Seq<PlaceModel>,
)
    ensures
        search_terms(query, false) == seq![
            ("q"@, query),
            ("format"@, "jsonv2"@),
            ("limit"@, "1"@),
        ],
        search_terms(query, true) == seq![
            ("q"@, query),
            ("format"@, "jsonv2"@),
            ("limit"@, "1"@),
            ("featureType"@, "settlement"@),
        ],
        results.len() == 0 ==> located(results) == Ok::<Option<Coord>, GeoErrorModel>(None),
        results.len() > 0 ==> {
            let first = results[0];
            &&& first.lat_value is Some && first.lon_value is Some ==> located(results) == Ok::<
                Option<Coord>,
                GeoErrorModel,
            >(Some(Coord { lat: first.lat_value->0, lon: first.lon_value->0 }))
            &&& first.lat_value is None ==> located(results) == Err::<
                Option<Coord>,
                GeoErrorModel,
            >(GeoErrorModel::InvalidLatitude(first.lat))
            &&& first.lat_value is Some && first.lon_value is None ==> located(results) == Err::<
                Option<Coord>,
                GeoErrorModel,
            >(GeoErrorModel::InvalidLongitude(first.lon))
        },
{
    assert(search_terms(query, true) =~= seq![
        ("q"@, query),
        ("format"@, "jsonv2"@),
        ("limit"@, "1"@),
        ("featureType"@, "settlement"@),
    ]);
}

/// A lookup waits until eleven tenths of a second have passed since the last one,
/// and no longer.
pub proof fn law_lookup_waits_no_longer_than_it_must(n: int)
    requires
        n >= 0,
    ensures
        n < 1_100_000_000 ==> n + lookup_wait(n) == 1_100_000_000,
        n >= 1_100_000_000 ==> lookup_wait(n) == 0,
{
}

/// Of the places, those that were found are kept, and with where they are.
pub proof fn law_found_places_are_kept(geo: Map<Seq<char>, Option<Coord>>, key: Seq<char>)
    ensures
        found_places(geo).contains_key(key) <==> geo.contains_key(key) && geo[key] is Some,
        geo.contains_key(key) && geo[key] is Some ==> found_places(geo)[key] == geo[key],
{
}

// ---------------------------------------------------------------------------
// The translator's answer
// ---------------------------------------------------------------------------
/// The status of an answer is a number, or a text that writes one, and zero
/// otherwise; its text is taken without white space around it, and a blank text
/// is none; and an error tells the status and what the service said.
pub proof fn law_translation_is_read(text: Seq<char>, status: int, details: Seq<char>, n: i64)
    ensures
        status_code(StatusModel::Number(Some(n))) == n,
        status_code(StatusModel::Number(None)) == 0,
        status_code(StatusModel::Other) == 0,
        i64_of(text) is None ==> status_code(StatusModel::Text(text)) == 0,
        i64_of(text) matches Some(k) ==> status_code(StatusModel::Text(text)) == k,
        status_code(StatusModel::Text(signed_decimal(n as int))) == n,
        english_text(None) is None,
        all_blank(text) ==> english_text(Some(text)) is None,
        !all_blank(text) ==> english_text(Some(text)) == Some(trimmed(text)),
        translate_error_text(status, details) == "translation failed ("@
            + signed_decimal(status) + "): "@ + details,
{
    law_blank_text_trims_to_nothing(text);
    crate::numerals::law_written_number_reads_back(n);
}

/// An answer that says the languages are the same means that the text was English
/// already, whatever its status. Any other status than 200 is a failure with that
/// status and what the service said. And under 200 the answer is the text, or none
/// where that is blank.
pub proof fn law_answer_of_the_translator(m: MyMemoryModel, n: i64)
    requires
        m.status == StatusModel::Number(Some(n)),
    ensures
        ({
            let same = exists|a: Seq<char>, b: Seq<char>|
                m.details == #[trigger] (a + "PLEASE SELECT TWO DISTINCT LANGUAGES"@ + b);
            &&& same ==> answer_in(m) == Ok::<Option<Seq<char>>, (int, Seq<char>)>(None)
            &&& !same && n != 200 ==> answer_in(m) == Err::<Option<Seq<char>>, (int, Seq<char>)>(
                (n as int, m.details),
            )
            &&& !same && n == 200 && (m.translated_text matches Some(t) && !all_blank(t))
                ==> answer_in(m) == Ok::<Option<Seq<char>>, (int, Seq<char>)>(
                Some(trimmed(m.translated_text->0)),
            )
            &&& !same && n == 200 && (m.translated_text matches Some(t) ==> all_blank(t))
                ==> answer_in(m) == Ok::<Option<Seq<char>>, (int, Seq<char>)>(None)
        }),
{
    law_found_text_is_a_part(m.details, "PLEASE SELECT TWO DISTINCT LANGUAGES"@);
    if let Some(t) = m.translated_text {
        law_blank_text_trims_to_nothing(t);
    }
}

/// A numeral is read digit by digit, ten times what stands before and the digit;
/// a minus sign in front makes it negative, a plus sign changes nothing, and a
/// text that holds anything else, or no digit, is no numeral.
pub proof fn law_numerals_are_read(s: Seq<char>, c: char, n: int)
    requires
        s.len() > 0,
        forall|i: int| 0 <= i < s.len() ==> '0' <= #[trigger] s[i] <= '9',
        integer_of(s) == Some(n),
    ensures
        '0' <= c <= '9' ==> integer_of(s.push(c)) == Some(10 * n + (c as int - '0' as int)),
        !('0' <= c <= '9') ==> integer_of(s.push(c)) is None,
        integer_of(seq!['-'] + s) == Some(-n),
        integer_of(seq!['+'] + s) == Some(n),
        integer_of(Seq::empty()) is None,
        integer_of(seq!['-']) is None,
        '0' <= c <= '9' ==> integer_of(seq![c]) == Some(c as int - '0' as int),
        i64_of(s) == (if n <= i64::MAX {
            Some(n)
        } else {
            None
        }),
{
    let more = s.push(c);
    assert(more[0] == s[0]);
    assert(more.drop_last() =~= s);
    if !('0' <= c <= '9') {
        assert(more[s.len() as int] == c);
    }
    assert((seq!['-'] + s).skip(1) =~= s);
    assert((seq!['+'] + s).skip(1) =~= s);
    assert(seq!['-'].skip(1) =~= Seq::<char>::empty());
    assert(seq![c].drop_last() =~= Seq::<char>::empty());
    reveal_with_fuel(digits_value, 2);
    assert(all_digits(s));
    if '0' <= c <= '9' {
        assert(all_digits(more));
        assert(all_digits(seq![c]));
    }
}

/// What is known of texts after a restart: the events of the last parcel decide on
/// the texts that they translate, the last one on each, and the parcels before it
/// on all others.
pub proof fn law_last_translation_is_known(
    cache: CacheModel,
    order: Seq<Seq<char>>,
    t: TrackingModel,
    d: Seq<char>,
    i: int,
)
    requires
        order.len() > 0,
        cache.by_number[order.last()].tracking == Some(t),
    ensures
        0 <= i < t.events.len() && t.events[i].description == d && t.events[i].translated is Some
            && (forall|j: int|
            i < j < t.events.len() && (#[trigger] t.events[j]).description == d
                ==> t.events[j].translated is None) ==> seeded(cache, order).contains_key(d)
            && seeded(cache, order)[d] == t.events[i].translated,
        (forall|j: int|
            0 <= j < t.events.len() && (#[trigger] t.events[j]).description == d
                ==> t.events[j].translated is None) ==> {
            let before = seeded(cache, order.drop_last());
            &&& seeded(cache, order).contains_key(d) == before.contains_key(d)
            &&& before.contains_key(d) ==> seeded(cache, order)[d] == before[d]
        },
{
    let before = seeded(cache, order.drop_last());
    let after = seeded(cache, order);
    lemma_noted(before, t.events, d);
    if 0 <= i < t.events.len() && t.events[i].description == d && t.events[i].translated is Some
        && is_last_translated(t.events, i, d) {
        if is_last_translated(t.events, -1, d) {
            assert(t.events[i].translated is None);
        }
        let k = choose|k: int|
            0 <= k < t.events.len() && (#[trigger] t.events[k]).description == d
                && t.events[k].translated is Some && is_last_translated(t.events, k, d)
                && after.contains_key(d) && after[d] == t.events[k].translated;
        assert(k == i) by {
            if k < i {
                assert(t.events[i].translated is None);
            } else if i < k {
                assert(t.events[k].translated is None);
            }
        }
    }
}

/// What is known of texts after a restart is what the events of the parcels say,
/// and a text whose translation an event holds is known.
pub proof fn law_known_texts_survive_a_restart(
    cache: CacheModel,
    order: Seq<Seq<char>>,
    number: Seq<char>,
    i: int,
    d: Seq<char>,
    e: Seq<char>,
)
    requires
        forall|k: int| 0 <= k < order.len() ==> cache.by_number.contains_key(#[trigger] order[k]),
        order.contains(number),
        translates_at(cache, number, i, d, e),
    ensures
        seeded(cache, order).contains_key(d),
        seeded(cache, order)[d] is Some,
{
    crate::enrich::lemma_seeded(cache, order);
}

// ---------------------------------------------------------------------------
// The end of the worker
// ---------------------------------------------------------------------------
/// Where nobody listens any more, the worker stops at its next message; only a
/// poll that is under way is brought to its end before. A stopped worker stays
/// so, and an event that it does not wait for changes nothing.
pub proof fn law_worker_stops_when_nobody_listens(
    w: WorkerModel,
    number: Seq<char>,
    t: TrackingModel,
    at: int,
    event: WorkerEventModel,
    now: Moment,
)
    ensures
        w.phase is ReportingHome || w.phase is Announcing || w.phase is Reporting ==> w.after(
            WorkerEventModel::Sent(false),
            now,
        ) == (WorkerModel { phase: PhaseModel::Stopped, ..w }, WorkerActionModel::Stop),
        w.phase == (PhaseModel::ReportingPlace { number, tracking: t, at }) ==> w.after(
            WorkerEventModel::Sent(false),
            now,
        ).1 == WorkerActionModel::Send(PollEventModel::Finished { number, result: Ok(t) }),
        w.phase is Stopped ==> w.after(event, now) == (w, WorkerActionModel::Stop),
        w.phase is Starting && !(event is Begun) ==> w.after(event, now) == (
            w,
            WorkerActionModel::Wait,
        ),
        w.phase is Tracking && !(event is Answered) ==> w.after(event, now) == (
            w,
            WorkerActionModel::Wait,
        ),
        w.phase is Translating && !(event is Translated) ==> w.after(event, now) == (
            w,
            WorkerActionModel::Wait,
        ),
        (w.phase is Locating || w.phase is LocatingHome) && !(event is Located) ==> w.after(
            event,
            now,
        ) == (w, WorkerActionModel::Wait),
        (w.phase is ReportingHome || w.phase is Announcing || w.phase is ReportingPlace
            || w.phase is Reporting) && !(event is Sent) ==> w.after(event, now) == (
            w,
            WorkerActionModel::Wait,
        ),
        w.phase is Idle && !(event is Command) && !(event is Closed) && !(event is Tick)
            ==> w.after(event, now) == (w, WorkerActionModel::Wait),
{
}

// ---------------------------------------------------------------------------
// Files and arguments
// ---------------------------------------------------------------------------
/// A blank argument sets no home, any other sets it as it is written; and a file
/// is written under a hidden name first.
pub proof fn law_argument_sets_home(argument: Seq<char>, name: Seq<char>)
    ensures
        all_blank(argument) ==> home_in(argument) is None,
        !all_blank(argument) ==> home_in(argument) == Some(argument),
        temp_name(name) == "."@ + name + ".tmp"@,
{
    law_blank_text_trims_to_nothing(argument);
}

} // verus!
