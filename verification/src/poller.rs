//! The poller: which parcel is polled when, and what a poll consists of.
use vstd::arithmetic::power2::pow2;
use vstd::prelude::*;

use crate::clock::{backoff, max_backoff, shifted, span_of_interval, Interval, Moment, Timestamp};
use crate::geo::Coord;
use crate::order::{
    lemma_text_le_antisymmetric, lemma_text_le_reflexive, lemma_text_le_total,
    lemma_text_le_transitive, text_le, text_not_after,
};
use crate::provider::{Status, Tracking, TrackingModel};
use crate::text_map::{
    distinct_keys, has_key, key_at, key_index, lemma_deep_insert, lemma_deep_remove,
    lemma_key_index, lemma_map_take, map_of, TextMap,
};

verus! {

// ---------------------------------------------------------------------------
// Commands and events
// ---------------------------------------------------------------------------
/// What the dashboard tells the poller.
#[derive(Debug, Clone, PartialEq, Eq)]
pub enum PollCommand {
    Add(String),
    Remove(String),
    Refresh(String),
    RefreshAll,
    Shutdown,
}

/// The value of a [`PollCommand`].
pub enum CommandModel {
    Add(Seq<char>),
    Remove(Seq<char>),
    Refresh(Seq<char>),
    RefreshAll,
    Shutdown,
}

impl DeepView for PollCommand {
    type V = CommandModel;

    open spec fn deep_view(&self) -> CommandModel {
        match self {
            PollCommand::Add(n) => CommandModel::Add(n@),
            PollCommand::Remove(n) => CommandModel::Remove(n@),
            PollCommand::Refresh(n) => CommandModel::Refresh(n@),
            PollCommand::RefreshAll => CommandModel::RefreshAll,
            PollCommand::Shutdown => CommandModel::Shutdown,
        }
    }
}

/// How a poll went: what is known of the parcel now, or why nothing is.
#[derive(Debug)]
pub struct PollResult {
    pub number: String,
    pub result: Result<Tracking, String>,
}

/// The value of a poll's outcome.
pub open spec fn outcome_model(result: Result<Tracking, String>) -> Result<
    TrackingModel,
    Seq<char>,
> {
    match result {
        Ok(t) => Ok(t.deep_view()),
        Err(e) => Err(e@),
    }
}

/// What the poller tells the dashboard: `Started` right before a poll begins,
/// scheduled or asked for, and `Finished` once it is complete.
#[derive(Debug)]
pub enum PollEvent {
    Started(String),
    Finished(PollResult),
    Geocoded { key: String, coord: Option<Coord> },
}

/// The value of a [`PollEvent`].
pub enum PollEventModel {
    Started(Seq<char>),
    Finished { number: Seq<char>, result: Result<TrackingModel, Seq<char>> },
    Geocoded { key: Seq<char>, coord: Option<Coord> },
}

impl DeepView for PollEvent {
    type V = PollEventModel;

    open spec fn deep_view(&self) -> PollEventModel {
        match self {
            PollEvent::Started(n) => PollEventModel::Started(n@),
            PollEvent::Finished(r) => PollEventModel::Finished {
                number: r.number@,
                result: outcome_model(r.result),
            },
            PollEvent::Geocoded { key, coord } => PollEventModel::Geocoded {
                key: key@,
                coord: *coord,
            },
        }
    }
}

// ---------------------------------------------------------------------------
// The schedule
// ---------------------------------------------------------------------------
/// When a parcel is polled next.
#[derive(Debug, Clone, Copy, PartialEq, Eq)]
pub struct Slot {
    pub next_poll: Timestamp,
    pub failures: u32,
    pub delivered: bool,
}

/// The value of a [`Slot`].
pub struct SlotModel {
    pub next_poll: Moment,
    pub failures: nat,
    pub delivered: bool,
}

impl DeepView for Slot {
    type V = SlotModel;

    open spec fn deep_view(&self) -> SlotModel {
        SlotModel {
            next_poll: self.next_poll@,
            failures: self.failures as nat,
            delivered: self.delivered,
        }
    }
}

/// When each parcel is polled next.
#[derive(Debug, Clone)]
pub struct Scheduler {
    interval: Interval,
    entries: TextMap<Slot>,
}

/// The value of a [`Scheduler`]: the interval in nanoseconds, and the slots by
/// the parcels' numbers.
pub struct ScheduleModel {
    pub interval: int,
    pub entries: Map<Seq<char>, SlotModel>,
}

impl DeepView for Scheduler {
    type V = ScheduleModel;

    closed spec fn deep_view(&self) -> ScheduleModel {
        ScheduleModel { interval: self.interval@, entries: self.entries.deep_view() }
    }
}

/// One more failure, as far as they are counted.
pub open spec fn one_more(failures: nat) -> nat {
    if failures < u32::MAX {
        failures + 1
    } else {
        failures
    }
}

/// The moment `a` is before the moment `b`.
pub open spec fn before(a: Moment, b: Moment) -> bool {
    !b.le(a)
}

impl ScheduleModel {
    /// The parcel, if it is scheduled, is polled next at a moment that can be
    /// represented.
    pub open spec fn fits_slot(self, number: Seq<char>) -> bool {
        self.entries.contains_key(number) ==> self.entries[number].next_poll.valid()
    }

    /// The parcel is scheduled, has not been delivered, and its time has come.
    pub open spec fn due(self, number: Seq<char>, now: Moment) -> bool {
        &&& self.entries.contains_key(number)
        &&& !self.entries[number].delivered
        &&& self.entries[number].next_poll.le(now)
    }

    /// The parcel is due, and no other due parcel comes before it: not one that
    /// has been due for longer, and not one that has been due as long and comes
    /// before it in the alphabet.
    pub open spec fn first_due(self, number: Seq<char>, now: Moment) -> bool {
        &&& self.due(number, now)
        &&& forall|other: Seq<char>| #[trigger]
            self.due(other, now) ==> {
                ||| before(self.entries[number].next_poll, self.entries[other].next_poll)
                ||| self.entries[number].next_poll == self.entries[other].next_poll && text_le(
                    number,
                    other,
                )
            }
    }

    /// The parcel to poll now, if one is due.
    pub open spec fn next_due(self, now: Moment) -> Option<Seq<char>> {
        if exists|n: Seq<char>| self.first_due(n, now) {
            Some(choose|n: Seq<char>| self.first_due(n, now))
        } else {
            None
        }
    }

    /// The schedule with one parcel's slot set.
    pub open spec fn with_slot(self, number: Seq<char>, slot: SlotModel) -> ScheduleModel {
        ScheduleModel { interval: self.interval, entries: self.entries.insert(number, slot) }
    }

    /// The schedule with a parcel that is due at once. One that is scheduled
    /// already keeps its slot.
    pub open spec fn added(self, number: Seq<char>, now: Moment) -> ScheduleModel {
        if self.entries.contains_key(number) {
            self
        } else {
            self.with_slot(number, SlotModel { next_poll: now, failures: 0, delivered: false })
        }
    }

    /// The schedule without a parcel.
    pub open spec fn removed(self, number: Seq<char>) -> ScheduleModel {
        ScheduleModel { interval: self.interval, entries: self.entries.remove(number) }
    }

    /// The schedule with a parcel made due at once, delivered or not.
    pub open spec fn refreshed(self, number: Seq<char>, now: Moment) -> ScheduleModel {
        if self.entries.contains_key(number) {
            self.with_slot(
                number,
                SlotModel { next_poll: now, delivered: false, ..self.entries[number] },
            )
        } else {
            self
        }
    }

    /// The schedule with every parcel made due at once.
    pub open spec fn all_refreshed(self, now: Moment) -> ScheduleModel {
        ScheduleModel {
            interval: self.interval,
            entries: Map::new(
                |n: Seq<char>| self.entries.contains_key(n),
                |n: Seq<char>|
                    SlotModel { next_poll: now, delivered: false, ..self.entries[n] },
            ),
        }
    }

    /// The schedule after a poll that went well.
    pub open spec fn succeeded(
        self,
        number: Seq<char>,
        status: Status,
        now: Moment,
    ) -> ScheduleModel {
        if self.entries.contains_key(number) {
            self.with_slot(
                number,
                SlotModel {
                    next_poll: shifted(now, span_of_interval(self.interval)),
                    failures: 0,
                    delivered: status == Status::Delivered,
                },
            )
        } else {
            self
        }
    }

    /// The schedule after a poll that failed.
    pub open spec fn failed(self, number: Seq<char>, now: Moment) -> ScheduleModel {
        if self.entries.contains_key(number) {
            let failures = one_more(self.entries[number].failures);
            self.with_slot(
                number,
                SlotModel {
                    next_poll: shifted(now, backoff(self.interval, failures)),
                    failures,
                    delivered: self.entries[number].delivered,
                },
            )
        } else {
            self
        }
    }
}

impl Scheduler {
    /// The schedule in which each of `numbers` is due at once.
    pub fn new(interval: Interval, numbers: Vec<String>, now: Timestamp) -> (r: Scheduler)
        ensures
            r.deep_view() == scheduled(interval@, numbers.deep_view(), now@),
    {
        let mut r = Scheduler { interval, entries: TextMap::new() };
        assert(r.entries.deep_view() =~= Map::<Seq<char>, SlotModel>::empty());
        let mut i: usize = 0;
        assert(numbers.deep_view().take(0) =~= Seq::empty());
        while i < numbers.len()
            invariant
                i <= numbers.len(),
                r.deep_view() == scheduled(interval@, numbers.deep_view().take(i as int), now@),
            decreases numbers.len() - i,
        {
            proof {
                let all = numbers.deep_view();
                assert(all.take(i + 1).drop_last() =~= all.take(i as int));
                assert(all.take(i + 1).last() == numbers[i as int]@);
            }
            r.add(&numbers[i], now);
            i += 1;
        }
        assert(numbers.deep_view().take(i as int) =~= numbers.deep_view());
        r
    }

    /// Schedules a parcel to be polled at once. One that is scheduled already
    /// keeps its slot.
    pub fn add(&mut self, number: &str, now: Timestamp)
        ensures
            final(self).deep_view() == old(self).deep_view().added(number@, now@),
    {
        if !self.entries.contains_key(number) {
            let ghost was = self.entries;
            let slot = Slot { next_poll: now, failures: 0, delivered: false };
            self.entries.insert(number.to_owned(), slot);
            proof {
                lemma_deep_insert(was, self.entries, number@, slot);
            }
        }
    }

    /// Takes a parcel out of the schedule.
    pub fn remove(&mut self, number: &str)
        ensures
            final(self).deep_view() == old(self).deep_view().removed(number@),
    {
        let ghost was = self.entries;
        self.entries.remove(number);
        proof {
            lemma_deep_remove(was, self.entries, number@);
        }
    }

    /// Makes a parcel due at once, delivered or not.
    pub fn refresh(&mut self, number: &str, now: Timestamp)
        ensures
            final(self).deep_view() == old(self).deep_view().refreshed(number@, now@),
    {
        let found = match self.entries.get(number) {
            Some(slot) => Some(*slot),
            None => None,
        };
        if let Some(slot) = found {
            let ghost was = self.entries;
            let slot = Slot { next_poll: now, failures: slot.failures, delivered: false };
            self.entries.insert(number.to_owned(), slot);
            proof {
                lemma_deep_insert(was, self.entries, number@, slot);
            }
        }
    }

    /// Makes every parcel due at once, delivered or not.
    pub fn refresh_all(&mut self, now: Timestamp)
        ensures
            final(self).deep_view() == old(self).deep_view().all_refreshed(now@),
    {
        let ghost was = self.entries;
        let mut entries: TextMap<Slot> = TextMap::new();
        {
            let map = &self.entries;
            proof {
                use_type_invariant(map);
            }
            let pairs = map.pairs();
            let mut i: usize = 0;
            assert(entries@ =~= due_now(map_of(pairs@.take(0)), now));
            while i < pairs.len()
                invariant
                    i <= pairs.len(),
                    distinct_keys(pairs@),
                    entries@ == due_now(map_of(pairs@.take(i as int)), now),
                decreases pairs.len() - i,
            {
                let slot = Slot {
                    next_poll: now,
                    failures: pairs[i].1.failures,
                    delivered: false,
                };
                proof {
                    lemma_map_take(pairs@, i as int);
                }
                entries.insert(pairs[i].0.clone(), slot);
                assert(entries@ =~= due_now(map_of(pairs@.take(i + 1)), now));
                i += 1;
            }
            assert(pairs@.take(i as int) =~= pairs@);
        }
        self.entries = entries;
        proof {
            assert(self.entries.deep_view() =~= old(self).deep_view().all_refreshed(now@).entries);
        }
    }

    /// The due parcel whose time came first, and of those of one time the one
    /// that comes first in the alphabet. Delivered parcels are never due.
    pub fn next_due(&self, now: Timestamp) -> (r: Option<String>)
        ensures
            r.deep_view() == self.deep_view().next_due(now@),
            match r {
                Some(n) => self.deep_view().first_due(n@, now@),
                None => forall|n: Seq<char>| !#[trigger] self.deep_view().due(n, now@),
            },
    {
        let ghost m = self.deep_view();
        let map = &self.entries;
        proof {
            use_type_invariant(map);
        }
        let pairs = map.pairs();
        let mut best: Option<usize> = None;
        let mut i: usize = 0;
        while i < pairs.len()
            invariant
                i <= pairs.len(),
                distinct_keys(pairs@),
                pairs@ == self.entries.listed(),
                m == self.deep_view(),
                match best {
                    Some(b) => b < i && m.due(pairs@[b as int].0@, now@) && forall|k: int|
                        0 <= k < i && m.due((#[trigger] pairs@[k]).0@, now@) ==> {
                            ||| before(
                                pairs@[b as int].1.next_poll@,
                                pairs@[k].1.next_poll@,
                            )
                            ||| pairs@[b as int].1.next_poll@ == pairs@[k].1.next_poll@ && text_le(
                                pairs@[b as int].0@,
                                pairs@[k].0@,
                            )
                        },
                    None => forall|k: int|
                        0 <= k < i ==> !m.due((#[trigger] pairs@[k]).0@, now@),
                },
            decreases pairs.len() - i,
        {
            let slot = &pairs[i].1;
            proof {
                lemma_key_index(pairs@, i as int);
                assert(m.entries[pairs@[i as int].0@] == slot.deep_view());
                lemma_text_le_reflexive(pairs@[i as int].0@);
            }
            if !slot.delivered && slot.next_poll.not_after(&now) {
                let better = match best {
                    None => true,
                    Some(b) => {
                        proof {
                            lemma_text_le_total(pairs@[b as int].0@, pairs@[i as int].0@);
                        }
                        if !pairs[b].1.next_poll.not_after(&slot.next_poll) {
                            true
                        } else if !slot.next_poll.not_after(&pairs[b].1.next_poll) {
                            false
                        } else {
                            !text_not_after(&pairs[b].0, &pairs[i].0)
                        }
                    },
                };
                if better {
                    proof {
                        if let Some(b) = best {
                            assert forall|k: int|
                                0 <= k < i && m.due((#[trigger] pairs@[k]).0@, now@) implies {
                                ||| before(pairs@[i as int].1.next_poll@, pairs@[k].1.next_poll@)
                                ||| pairs@[i as int].1.next_poll@ == pairs@[k].1.next_poll@
                                    && text_le(pairs@[i as int].0@, pairs@[k].0@)
                            } by {
                                if pairs@[i as int].1.next_poll@ == pairs@[b as int].1.next_poll@
                                    && pairs@[b as int].1.next_poll@ == pairs@[k].1.next_poll@ {
                                    lemma_text_le_transitive(
                                        pairs@[i as int].0@,
                                        pairs@[b as int].0@,
                                        pairs@[k].0@,
                                    );
                                }
                            }
                        }
                    }
                    best = Some(i);
                }
            }
            i += 1;
        }
        proof {
            assert forall|n: Seq<char>| #[trigger] m.due(n, now@) implies exists|k: int|
                0 <= k < pairs.len() && (#[trigger] pairs@[k]).0@ == n && m.entries[n]
                    == pairs@[k].1.deep_view() by {
                let k = key_index(pairs@, n);
                assert(has_key(pairs@, n));
                assert(key_at(pairs@, n, k));
                lemma_key_index(pairs@, k);
            }
        }
        match best {
            Some(b) => {
                let n = pairs[b].0.clone();
                proof {
                    lemma_key_index(pairs@, b as int);
                    assert(m.first_due(n@, now@));
                    let other = choose|o: Seq<char>| m.first_due(o, now@);
                    law_next_due_is_determined(m, n@, other, now@);
                }
                Some(n)
            },
            None => None,
        }
    }

    /// Takes in a poll that went well: the next one is an interval away, and
    /// there is none for a parcel that has been delivered.
    pub fn record_success(&mut self, number: &str, status: Status, now: Timestamp)
        requires
            old(self).deep_view().succeeded(number@, status, now@).fits_slot(number@),
        ensures
            final(self).deep_view() == old(self).deep_view().succeeded(number@, status, now@),
    {
        if self.entries.contains_key(number) {
            let ghost was = self.entries;
            let slot = Slot {
                next_poll: now.plus(&self.interval.to_span()),
                failures: 0,
                delivered: status == Status::Delivered,
            };
            self.entries.insert(number.to_owned(), slot);
            proof {
                lemma_deep_insert(was, self.entries, number@, slot);
            }
        }
    }

    /// Takes in a poll that failed: the wait doubles with each failure in a
    /// row, up to an hour.
    pub fn record_failure(&mut self, number: &str, now: Timestamp)
        requires
            old(self).deep_view().failed(number@, now@).fits_slot(number@),
        ensures
            final(self).deep_view() == old(self).deep_view().failed(number@, now@),
    {
        let found = match self.entries.get(number) {
            Some(slot) => Some(*slot),
            None => None,
        };
        if let Some(slot) = found {
            let ghost was = self.entries;
            let failures: u32 = if slot.failures < u32::MAX {
                slot.failures + 1
            } else {
                slot.failures
            };
            let slot = Slot {
                next_poll: now.plus(&self.interval.backoff_span(failures)),
                failures,
                delivered: slot.delivered,
            };
            self.entries.insert(number.to_owned(), slot);
            proof {
                lemma_deep_insert(was, self.entries, number@, slot);
            }
        }
    }

    /// When a parcel is polled next.
    pub fn next_poll(&self, number: &str) -> (r: Option<Timestamp>)
        ensures
            r.deep_view() == if self.deep_view().entries.contains_key(number@) {
                Some(self.deep_view().entries[number@].next_poll)
            } else {
                None
            },
    {
        match self.entries.get(number) {
            Some(slot) => Some(slot.next_poll),
            None => None,
        }
    }
}

/// The slots with every parcel made due at `now`.
spec fn due_now(slots: Map<Seq<char>, Slot>, now: Timestamp) -> Map<Seq<char>, Slot> {
    Map::new(
        |n: Seq<char>| slots.contains_key(n),
        |n: Seq<char>| Slot { next_poll: now, failures: slots[n].failures, delivered: false },
    )
}

/// Which parcel is polled next is determined: no two parcels are both first.
pub proof fn law_next_due_is_determined(
    m: ScheduleModel,
    a: Seq<char>,
    b: Seq<char>,
    now: Moment,
)
    requires
        m.first_due(a, now),
        m.first_due(b, now),
    ensures
        a == b,
{
    assert(m.due(a, now) && m.due(b, now));
    lemma_text_le_antisymmetric(a, b);
}

/// What can be done to a schedule.
pub enum CallModel {
    Add { number: Seq<char>, now: Moment },
    Remove { number: Seq<char> },
    Refresh { number: Seq<char>, now: Moment },
    RefreshAll { now: Moment },
    Success { number: Seq<char>, status: Status, now: Moment },
    Failure { number: Seq<char>, now: Moment },
}

impl CallModel {
    /// The call neither refreshes nor removes the parcel `number`, and brings no
    /// new tracking of it.
    pub open spec fn leaves_delivered(self, number: Seq<char>) -> bool {
        match self {
            CallModel::Add { .. } => true,
            CallModel::Remove { number: n } => n != number,
            CallModel::Refresh { number: n, .. } => n != number,
            CallModel::RefreshAll { .. } => false,
            CallModel::Success { number: n, .. } => n != number,
            CallModel::Failure { .. } => true,
        }
    }
}

impl ScheduleModel {
    /// The schedule after one call.
    pub open spec fn called(self, call: CallModel) -> ScheduleModel {
        match call {
            CallModel::Add { number, now } => self.added(number, now),
            CallModel::Remove { number } => self.removed(number),
            CallModel::Refresh { number, now } => self.refreshed(number, now),
            CallModel::RefreshAll { now } => self.all_refreshed(now),
            CallModel::Success { number, status, now } => self.succeeded(number, status, now),
            CallModel::Failure { number, now } => self.failed(number, now),
        }
    }

    /// The schedule after some calls, one after the other.
    pub open spec fn after_calls(self, calls: Seq<CallModel>) -> ScheduleModel
        decreases calls.len(),
    {
        if calls.len() == 0 {
            self
        } else {
            self.after_calls(calls.drop_last()).called(calls.last())
        }
    }

    /// How many polls of a scheduled parcel have failed, over some calls, since
    /// one went well or the parcel was added. Refreshing does not count.
    pub open spec fn failures_since(self, calls: Seq<CallModel>, number: Seq<char>) -> nat
        decreases calls.len(),
    {
        if calls.len() == 0 {
            if self.entries.contains_key(number) {
                self.entries[number].failures
            } else {
                0
            }
        } else {
            let front = calls.drop_last();
            let before = self.failures_since(front, number);
            let scheduled = self.after_calls(front).entries.contains_key(number);
            match calls.last() {
                CallModel::Failure { number: n, .. } if n == number && scheduled => before + 1,
                CallModel::Success { number: n, .. } if n == number => 0,
                CallModel::Remove { number: n } if n == number => 0,
                _ => before,
            }
        }
    }
}

/// A scheduled parcel that was delivered is never due again, at any time and
/// whatever is done, unless it is refreshed, removed or polled anew. The poll
/// that found it delivered puts the next one an interval later.
pub proof fn law_delivered_is_never_due(
    m: ScheduleModel,
    number: Seq<char>,
    at: Moment,
    calls: Seq<CallModel>,
    later: Moment,
)
    requires
        m.entries.contains_key(number),
        forall|i: int| 0 <= i < calls.len() ==> (#[trigger] calls[i]).leaves_delivered(number),
    ensures
        ({
            let delivered = m.succeeded(number, Status::Delivered, at);
            let then = delivered.after_calls(calls);
            &&& delivered.entries[number].next_poll == shifted(at, span_of_interval(m.interval))
            &&& then.entries.contains_key(number)
            &&& then.entries[number].delivered
            &&& !then.due(number, later)
            &&& then.next_due(later) != Some(number)
        }),
    decreases calls.len(),
{
    if calls.len() > 0 {
        let front = calls.drop_last();
        assert forall|i: int| 0 <= i < front.len() implies (#[trigger] front[i]).leaves_delivered(
            number,
        ) by {
            assert(front[i] == calls[i]);
        }
        law_delivered_is_never_due(m, number, at, front, later);
        assert(calls.last().leaves_delivered(number));
    }
}

/// A refresh makes a delivered parcel due at once.
pub proof fn law_refreshed_is_due(m: ScheduleModel, number: Seq<char>, now: Moment)
    requires
        m.entries.contains_key(number),
    ensures
        m.refreshed(number, now).due(number, now),
        m.all_refreshed(now).due(number, now),
{
}

/// As many failures as are counted.
pub open spec fn counted(failures: nat) -> nat {
    if failures <= u32::MAX {
        failures
    } else {
        u32::MAX as nat
    }
}

/// No call changes the interval, and a scheduled parcel's slot counts its
/// failures since a poll went well, or since it was added.
proof fn lemma_failures_are_counted(m: ScheduleModel, calls: Seq<CallModel>, number: Seq<char>)
    requires
        m.entries.contains_key(number) ==> m.entries[number].failures <= u32::MAX,
    ensures
        m.after_calls(calls).interval == m.interval,
        m.after_calls(calls).entries.contains_key(number) ==> m.after_calls(
            calls,
        ).entries[number].failures == counted(m.failures_since(calls, number)),
        !m.after_calls(calls).entries.contains_key(number) ==> m.failures_since(calls, number) == 0,
    decreases calls.len(),
{
    if calls.len() > 0 {
        lemma_failures_are_counted(m, calls.drop_last(), number);
    }
}

/// After `k` failures of a scheduled parcel since a poll went well, or since it
/// was added, the next failure waits for the interval times two to the power of
/// `k + 1`, at most of sixteen, and at most for an hour. Refreshing in between
/// does not shorten the wait. The failure leaves a delivered parcel delivered,
/// and every other parcel's slot as it is.
pub proof fn law_wait_grows_with_the_failures(
    m: ScheduleModel,
    calls: Seq<CallModel>,
    number: Seq<char>,
    now: Moment,
    other: Seq<char>,
)
    requires
        m.entries.contains_key(number) ==> m.entries[number].failures <= u32::MAX,
        m.after_calls(calls).entries.contains_key(number),
        other != number,
    ensures
        ({
            let s = m.after_calls(calls);
            let k = m.failures_since(calls, number);
            let doubled = m.interval * pow2(if k + 1 < 16 { k + 1 } else { 16 });
            let wait = if doubled < max_backoff() { doubled } else { max_backoff() };
            &&& wait == backoff(m.interval, k + 1)
            &&& s.failed(number, now).entries[number].next_poll == shifted(now, wait)
            &&& s.failed(number, now).entries[number].delivered == s.entries[number].delivered
            &&& s.failed(number, now).entries.contains_key(other) == s.entries.contains_key(other)
            &&& s.entries.contains_key(other) ==> s.failed(number, now).entries[other]
                == s.entries[other]
        }),
{
    lemma_failures_are_counted(m, calls, number);
    let k = m.failures_since(calls, number);
    crate::clock::lemma_backoff_is_a_power(k + 1);
    crate::clock::lemma_backoff_is_a_power(one_more(counted(k)));
}

/// A parcel that was just polled is not due before its time: with an interval
/// that is not empty it is not due at once.
pub proof fn law_polled_parcel_waits(
    m: ScheduleModel,
    number: Seq<char>,
    status: Status,
    now: Moment,
)
    requires
        now.valid(),
        span_of_interval(m.interval) > 0,
    ensures
        !m.succeeded(number, status, now).due(number, now),
        m.entries.contains_key(number) ==> !m.failed(number, now).due(number, now),
{
    lemma_shift_is_later(now, span_of_interval(m.interval));
    if m.entries.contains_key(number) {
        let failures = one_more(m.entries[number].failures);
        crate::clock::lemma_backoff_factor(failures);
        let f = crate::clock::backoff_factor(failures);
        assert(m.interval * f > 0) by (nonlinear_arith)
            requires
                m.interval > 0,
                f > 0,
        ;
        lemma_shift_is_later(now, backoff(m.interval, failures));
    }
}

proof fn lemma_shift_is_later(m: Moment, span: int)
    requires
        m.valid(),
        span > 0,
    ensures
        before(m, shifted(m, span)),
{
}

/// The wait after failures doubles from one to the next up to an hour, and a
/// poll that goes well brings it back to the interval.
pub proof fn law_failures_back_off_and_success_resets(
    m: ScheduleModel,
    number: Seq<char>,
    status: Status,
    now: Moment,
)
    requires
        m.interval >= 0,
        m.entries.contains_key(number),
        m.entries[number].failures < u32::MAX,
    ensures
        ({
            let k = m.entries[number].failures;
            let f = m.failed(number, now).entries[number];
            &&& f.failures == k + 1
            &&& f.next_poll == shifted(now, backoff(m.interval, k + 1))
            &&& backoff(m.interval, k + 1) <= max_backoff()
            &&& backoff(m.interval, k) <= backoff(m.interval, k + 1)
            &&& k < 16 && 2 * backoff(m.interval, k) <= max_backoff() ==> backoff(m.interval, k + 1)
                == 2 * backoff(m.interval, k)
        }),
        m.failed(number, now).succeeded(number, status, now).entries[number].failures == 0,
        m.failed(number, now).succeeded(number, status, now).entries[number].next_poll == shifted(
            now,
            span_of_interval(m.interval),
        ),
{
    crate::clock::law_backoff_doubles_up_to_an_hour(m.interval, m.entries[number].failures);
}

/// What happens to one parcel leaves the slots of the others as they are.
pub proof fn law_other_parcels_keep_their_slots(
    m: ScheduleModel,
    number: Seq<char>,
    other: Seq<char>,
    status: Status,
    now: Moment,
)
    requires
        other != number,
        m.entries.contains_key(other),
    ensures
        m.added(number, now).entries[other] == m.entries[other],
        m.removed(number).entries[other] == m.entries[other],
        m.refreshed(number, now).entries[other] == m.entries[other],
        m.succeeded(number, status, now).entries[other] == m.entries[other],
        m.failed(number, now).entries[other] == m.entries[other],
        m.added(number, now).entries.contains_key(other),
        m.removed(number).entries.contains_key(other),
        m.refreshed(number, now).entries.contains_key(other),
        m.succeeded(number, status, now).entries.contains_key(other),
        m.failed(number, now).entries.contains_key(other),
{
}

/// A parcel that is added is due at once, a parcel that is removed is never
/// due, and a parcel that is unknown is not scheduled by a late result.
pub proof fn law_added_is_due_and_removed_is_not(
    m: ScheduleModel,
    number: Seq<char>,
    status: Status,
    now: Moment,
    later: Moment,
)
    ensures
        !m.entries.contains_key(number) ==> m.added(number, now).due(number, now),
        !m.removed(number).due(number, later),
        !m.removed(number).succeeded(number, status, now).entries.contains_key(number),
        !m.removed(number).failed(number, now).entries.contains_key(number),
{
}

/// The schedule in which each of `numbers` is due at once.
pub open spec fn scheduled(interval: int, numbers: Seq<Seq<char>>, now: Moment) -> ScheduleModel
    decreases numbers.len(),
{
    if numbers.len() == 0 {
        ScheduleModel { interval, entries: Map::empty() }
    } else {
        scheduled(interval, numbers.drop_last(), now).added(numbers.last(), now)
    }
}

} // verus!
