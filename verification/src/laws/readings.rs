//! What is read off the tracking site's response.
use vstd::prelude::*;

use crate::clock::{rfc3339_moment, Moment};
use crate::laws::texts::{all_blank, law_blank_text_trims_to_nothing};
use crate::provider::parcelsapp::{
    api_message, entries_of, entry_of, first_link, law_events_are_newest_first,
    law_ordering_keeps_every_event, lemma_placed_somewhere, masked, named_values, newest_first,
    older, tracking_of, EntryModel, PageActionModel, PageEventModel, ResponseModel, StateModel,
    TrackErrorModel, WatchModel,
};
use crate::provider::{classified, status_label, EventModel, Status};
use crate::text::{ascii_lower, has_text, occurs_at, trimmed};

verus! {

// ---------------------------------------------------------------------------
// The status
// ---------------------------------------------------------------------------
/// The text holds the word at the position `at`, whatever the case of its ASCII
/// letters.
pub open spec fn mentions_at(text: Seq<char>, word: Seq<char>, at: int) -> bool {
    &&& 0 <= at <= text.len() - word.len()
    &&& forall|i: int|
        0 <= i < word.len() ==> #[trigger] word[i] as int == (if 'A' <= text[at + i] <= 'Z' {
            text[at + i] as int + 32
        } else {
            text[at + i] as int
        })
}

/// The text holds the word somewhere, whatever the case of its ASCII letters.
pub open spec fn mentions(text: Seq<char>, word: Seq<char>) -> bool {
    exists|at: int| mentions_at(text, word, at)
}

proof fn lemma_mentions(text: Seq<char>, word: Seq<char>)
    ensures
        mentions(text, word) == has_text(ascii_lower(text), word),
{
    let low = ascii_lower(text);
    if mentions(text, word) {
        let at = choose|at: int| mentions_at(text, word, at);
        assert(low.subrange(at, at + word.len()) =~= word) by {
            assert forall|i: int| 0 <= i < word.len() implies low.subrange(at, at + word.len())[i]
                == word[i] by {
                assert(low[at + i] as int == word[i] as int);
            }
        }
        assert(occurs_at(low, word, at));
    }
    if has_text(low, word) {
        let at = choose|at: int| occurs_at(low, word, at);
        let sub = low.subrange(at, at + word.len());
        assert forall|i: int| 0 <= i < word.len() implies #[trigger] word[i] as int == (if 'A'
            <= text[at + i] <= 'Z' {
            text[at + i] as int + 32
        } else {
            text[at + i] as int
        }) by {
            assert(sub[i] == low[at + i]);
        }
        assert(mentions_at(text, word, at));
    }
}

/// The values that the site documents decide by themselves.
pub proof fn law_documented_values_name_their_status(text: Option<Seq<char>>)
    ensures
        classified("delivered"@, text) == Status::Delivered,
        classified("arrived"@, text) == Status::OutForDelivery,
        classified("transit"@, text) == Status::InTransit,
        classified("pickup"@, text) == Status::InTransit,
{
    reveal_strlit("delivered");
    reveal_strlit("arrived");
    reveal_strlit("transit");
    reveal_strlit("pickup");
    assert("arrived"@[0] != "delivered"@[0]);
    assert("transit"@[0] != "delivered"@[0]);
    assert("pickup"@[0] != "delivered"@[0]);
    assert("transit"@[0] != "arrived"@[0]);
    assert("pickup"@[0] != "arrived"@[0]);
}

/// Under any other value the words of the event decide, wherever they stand in
/// its text and in whatever case: a word of delivery before a word of the last
/// mile, that before a word of trouble, that before a word of waiting, and that
/// before a word of moving on. Without any of them, and without an event, the
/// status is unknown.
pub proof fn law_words_of_the_event_decide(value: Seq<char>, text: Seq<char>)
    requires
        value != "delivered"@,
        value != "arrived"@,
        value != "transit"@,
        value != "pickup"@,
    ensures
        classified(value, None) == Status::Unknown,
        classified(value, Some(text)) == if mentions(text, "delivered"@) {
            Status::Delivered
        } else if mentions(text, "out for delivery"@) || mentions(text, "with courier"@)
            || mentions(text, "with delivery courier"@) {
            Status::OutForDelivery
        } else if mentions(text, "customs"@) || mentions(text, "return"@) || mentions(
            text,
            "exception"@,
        ) || mentions(text, "failed"@) || mentions(text, "unsuccessful"@) || mentions(
            text,
            "refused"@,
        ) || mentions(text, "damaged"@) || mentions(text, "lost"@) {
            Status::Exception
        } else if mentions(text, "pending"@) || mentions(text, "waiting"@) || mentions(
            text,
            "label created"@,
        ) || mentions(text, "shipment information received"@) || mentions(text, "pre-advice"@) {
            Status::Pending
        } else if mentions(text, "departed"@) || mentions(text, "arrived"@) || mentions(
            text,
            "in transit"@,
        ) || mentions(text, "processed"@) || mentions(text, "accepted"@) || mentions(
            text,
            "posted"@,
        ) || mentions(text, "received"@) || mentions(text, "dispatched"@) || mentions(
            text,
            "handed"@,
        ) || mentions(text, "sorting"@) || mentions(text, "left"@) {
            Status::InTransit
        } else {
            Status::Unknown
        },
{
    assert forall|word: Seq<char>| #[trigger]
        has_text(ascii_lower(text), word) == mentions(text, word) by {
        lemma_mentions(text, word);
    }
}

/// The names of the statuses.
pub proof fn law_statuses_have_their_names()
    ensures
        status_label(Status::Pending) == "pending"@,
        status_label(Status::InTransit) == "in transit"@,
        status_label(Status::OutForDelivery) == "out for delivery"@,
        status_label(Status::Delivered) == "delivered"@,
        status_label(Status::Exception) == "exception"@,
        status_label(Status::Unknown) == "unknown"@,
{
}

// ---------------------------------------------------------------------------
// The events
// ---------------------------------------------------------------------------
/// The moment `a` is later than the moment `b`, and any moment is later than
/// none.
pub open spec fn later(a: Option<Moment>, b: Option<Moment>) -> bool {
    match (a, b) {
        (Some(x), Some(y)) => x.secs > y.secs || x.secs == y.secs && x.nanos > y.nanos,
        (Some(_), None) => true,
        (None, _) => false,
    }
}

/// `order` holds each position below `n` once.
pub open spec fn arranges(order: Seq<int>, n: int) -> bool {
    &&& order.len() == n
    &&& forall|k: int| 0 <= k < n ==> 0 <= #[trigger] order[k] < n
    &&& forall|k: int, l: int|
        0 <= k < l < n ==> #[trigger] order[k] != #[trigger] order[l]
}

/// The event is what the state reports.
pub open spec fn tells(event: EventModel, state: StateModel) -> bool {
    &&& event.description == trimmed(state.status)
    &&& event.time == match state.date {
        Some(d) => rfc3339_moment(d),
        None => None,
    }
    &&& event.location == match state.location {
        Some(l) => if all_blank(l) {
            None
        } else {
            Some(l)
        },
        None => None,
    }
    &&& event.translated is None
}

proof fn lemma_order(entries: Seq<EntryModel>) -> (order: Seq<int>)
    ensures
        arranges(order, entries.len() as int),
        newest_first(entries).len() == entries.len(),
        forall|k: int|
            0 <= k < order.len() ==> newest_first(entries)[k] == entries[#[trigger] order[k]],
        forall|k: int, l: int|
            0 <= k < l < order.len() ==> {
                let (a, b) = (#[trigger] order[k], #[trigger] order[l]);
                later(entries[a].1.time, entries[b].1.time) || entries[a].1.time
                    == entries[b].1.time && a < b
            },
    decreases entries.len(),
{
    law_ordering_keeps_every_event(entries);
    if entries.len() == 0 {
        Seq::empty()
    } else {
        let front = entries.drop_last();
        let e = entries.last();
        let n = front.len() as int;
        let before = lemma_order(front);
        let s = newest_first(front);
        law_events_are_newest_first(front);
        let at = lemma_placed_somewhere(s, e);
        let order = before.insert(at, n);
        assert forall|k: int| 0 <= k < n implies front[#[trigger] before[k]]
            == entries[before[k]] by {}
        assert forall|k: int| 0 <= k < order.len() implies 0 <= #[trigger] order[k] < n + 1
            && newest_first(entries)[k] == entries[order[k]] by {
            if k < at {
                assert(order[k] == before[k]);
                assert(newest_first(entries)[k] == s[k]);
            } else if k > at {
                assert(order[k] == before[k - 1]);
                assert(newest_first(entries)[k] == s[k - 1]);
            }
        }
        assert forall|k: int, l: int| 0 <= k < l < order.len() implies {
            let (a, b) = (#[trigger] order[k], #[trigger] order[l]);
            a != b && (later(entries[a].1.time, entries[b].1.time) || entries[a].1.time
                == entries[b].1.time && a < b)
        } by {
            let i = if k < at { k } else { k - 1 };
            let j = if l < at { l } else { l - 1 };
            if k != at && l != at {
                assert(order[k] == before[i] && order[l] == before[j]);
            } else if k == at {
                assert(order[l] == before[j]);
                assert(s[j] == front[before[j]]);
            } else {
                assert(order[k] == before[i]);
                assert(s[i] == front[before[i]]);
                if i < at - 1 {
                    assert(!older(s[i].1.time, s[at - 1].1.time));
                }
            }
        }
        order
    }
}

/// Every state that the site reports is one event of the tracking, read off
/// that state, and there are no others. Later events stand before earlier ones,
/// events without a time stand last, and events of one time stand as the site
/// reported them. The newest event names the carrier, if the site has not
/// detected one, and decides on the status as far as the site's value leaves it
/// open.
pub proof fn law_events_are_read_off_the_states(
    api: ResponseModel,
    number: Seq<char>,
    fetched_at: Moment,
)
    ensures
        ({
            let t = tracking_of(api, entries_of(api.states), number, fetched_at);
            let n = api.states.len() as int;
            exists|order: Seq<int>| #[trigger]
                arranges(order, n) && t.events.len() == n && (forall|k: int|
                    0 <= k < n ==> tells(#[trigger] t.events[k], api.states[order[k]])) && (forall|
                    k: int,
                    l: int,
                |
                    0 <= k < l < n ==> later(
                        (#[trigger] t.events[k]).time,
                        (#[trigger] t.events[l]).time,
                    ) || t.events[k].time == t.events[l].time && order[k] < order[l]) && t.carrier
                    == (match api.detected_carrier {
                    Some(c) => Some(c),
                    None => if n > 0 {
                        match api.states[order[0]].carrier {
                            Some(i) => if i < api.carriers.len() {
                                Some(api.carriers[i as int])
                            } else {
                                None
                            },
                            None => None,
                        }
                    } else {
                        None
                    },
                })
        }),
{
    let entries = entries_of(api.states);
    let t = tracking_of(api, entries, number, fetched_at);
    let n = api.states.len() as int;
    let order = lemma_order(entries);
    assert forall|k: int| 0 <= k < n implies tells(#[trigger] t.events[k], api.states[order[k]]) by {
        assert(newest_first(entries)[k] == entries[order[k]]);
        assert(entries[order[k]] == entry_of(api.states[order[k]]));
        if let Some(l) = api.states[order[k]].location {
            law_blank_text_trims_to_nothing(l);
        }
    }
    assert forall|k: int, l: int| 0 <= k < l < n implies later(
        (#[trigger] t.events[k]).time,
        (#[trigger] t.events[l]).time,
    ) || t.events[k].time == t.events[l].time && order[k] < order[l] by {
        assert(newest_first(entries)[k] == entries[order[k]]);
        assert(newest_first(entries)[l] == entries[order[l]]);
    }
    if n > 0 {
        assert(newest_first(entries)[0] == entries[order[0]]);
        assert(entries[order[0]] == entry_of(api.states[order[0]]));
    }
    assert(arranges(order, n));
}

/// The status of a tracking is the one that the site's value and the text of its
/// first event point to, and no event is newer than that one.
pub proof fn law_newest_event_decides(api: ResponseModel, number: Seq<char>, fetched_at: Moment)
    ensures
        ({
            let t = tracking_of(api, entries_of(api.states), number, fetched_at);
            &&& api.states.len() == 0 ==> t.events.len() == 0 && t.status == classified(
                api.status,
                None,
            )
            &&& api.states.len() > 0 ==> t.events.len() > 0 && t.status == classified(
                api.status,
                Some(t.events[0].description),
            )
            &&& forall|k: int|
                0 <= k < t.events.len() ==> !later((#[trigger] t.events[k]).time, t.events[0].time)
        }),
{
    let t = tracking_of(api, entries_of(api.states), number, fetched_at);
    let entries = entries_of(api.states);
    let order = lemma_order(entries);
    assert forall|k: int| 0 <= k < t.events.len() implies !later(
        (#[trigger] t.events[k]).time,
        t.events[0].time,
    ) by {
        assert(newest_first(entries)[k] == entries[order[k]]);
        assert(newest_first(entries)[0] == entries[order[0]]);
        if k > 0 {
            let (a, b) = (order[0], order[k]);
            assert(later(entries[a].1.time, entries[b].1.time) || entries[a].1.time
                == entries[b].1.time && a < b);
        }
    }
}

// ---------------------------------------------------------------------------
// What else the response says
// ---------------------------------------------------------------------------
/// The attributes of a tracking are those of the response that have a name and a
/// value, in their order; its link is the first that there is; and it is about
/// the parcel that was asked for, at the time it was asked for.
pub proof fn law_details_are_read_off_the_response(
    api: ResponseModel,
    number: Seq<char>,
    fetched_at: Moment,
)
    ensures
        ({
            let t = tracking_of(api, entries_of(api.states), number, fetched_at);
            &&& t.number == number
            &&& t.fetched_at == fetched_at
            &&& picks_the_named(t.attributes, api.attributes)
            &&& match t.tracking_url {
                Some(u) => exists|i: int|
                    0 <= i < api.external_tracking.len() && (#[trigger] api.external_tracking[i])
                        == Some(u) && forall|j: int|
                        0 <= j < i ==> (#[trigger] api.external_tracking[j]) is None,
                None => forall|i: int|
                    0 <= i < api.external_tracking.len() ==> (
                    #[trigger] api.external_tracking[i]) is None,
            }
        }),
{
    lemma_named_values(api.attributes);
    lemma_first_link(api.external_tracking);
}

/// `taken` holds the pairs of `all` that are complete, in their order.
pub open spec fn picks_the_named(
    taken: Seq<(Seq<char>, Seq<char>)>,
    all: Seq<(Option<Seq<char>>, Option<Seq<char>>)>,
) -> bool {
    exists|from: Seq<int>| #[trigger]
        ascends(from, all.len() as int) && from.len() == taken.len() && (forall|k: int|
            0 <= k < taken.len() ==> all[#[trigger] from[k]] == (
                Some(taken[k].0),
                Some(taken[k].1),
            )) && (forall|i: int|
            0 <= i < all.len() && (#[trigger] all[i]).0 is Some && all[i].1 is Some
                ==> from.contains(i))
}

/// `from` holds positions below `n`, each behind the one before.
pub open spec fn ascends(from: Seq<int>, n: int) -> bool {
    &&& forall|k: int| 0 <= k < from.len() ==> 0 <= #[trigger] from[k] < n
    &&& forall|k: int, l: int|
        0 <= k < l < from.len() ==> #[trigger] from[k] < #[trigger] from[l]
}

proof fn lemma_named_values(all: Seq<(Option<Seq<char>>, Option<Seq<char>>)>)
    ensures
        picks_the_named(named_values(all), all),
    decreases all.len(),
{
    let none = Seq::<int>::empty();
    if all.len() == 0 {
        assert(ascends(none, 0));
    } else {
        let front = all.drop_last();
        let n = front.len() as int;
        lemma_named_values(front);
        let taken = named_values(front);
        let from = choose|from: Seq<int>| #[trigger]
            ascends(from, n) && from.len() == taken.len() && (forall|k: int|
                0 <= k < taken.len() ==> front[#[trigger] from[k]] == (
                    Some(taken[k].0),
                    Some(taken[k].1),
                )) && (forall|i: int|
                0 <= i < front.len() && (#[trigger] front[i]).0 is Some && front[i].1 is Some
                    ==> from.contains(i));
        let (wide, more) = if all.last().0 is Some && all.last().1 is Some {
            (from.push(n), taken.push((all.last().0->0, all.last().1->0)))
        } else {
            (from, taken)
        };
        assert(more == named_values(all));
        assert(ascends(wide, n + 1));
        assert forall|k: int| 0 <= k < more.len() implies all[#[trigger] wide[k]] == (
            Some(more[k].0),
            Some(more[k].1),
        ) by {
            if k < taken.len() {
                assert(wide[k] == from[k]);
                assert(front[from[k]] == all[from[k]]);
            }
        }
        assert forall|i: int|
            0 <= i < all.len() && (#[trigger] all[i]).0 is Some && all[i].1 is Some implies
            wide.contains(i) by {
            if i < n {
                assert(front[i] == all[i]);
                assert(from.contains(i));
                let k = choose|k: int| 0 <= k < from.len() && from[k] == i;
                assert(wide[k] == i);
            } else {
                assert(wide[from.len() as int] == n);
            }
        }
    }
}

proof fn lemma_first_link(links: Seq<Option<Seq<char>>>)
    ensures
        match first_link(links) {
            Some(u) => exists|i: int|
                0 <= i < links.len() && (#[trigger] links[i]) == Some(u) && forall|j: int|
                    0 <= j < i ==> (#[trigger] links[j]) is None,
            None => forall|i: int| 0 <= i < links.len() ==> (#[trigger] links[i]) is None,
        },
    decreases links.len(),
{
    if links.len() > 0 && links[0] is None {
        let rest = links.skip(1);
        lemma_first_link(rest);
        match first_link(rest) {
            Some(u) => {
                let i = choose|i: int|
                    0 <= i < rest.len() && (#[trigger] rest[i]) == Some(u) && forall|j: int|
                        0 <= j < i ==> (#[trigger] rest[j]) is None;
                assert(links[i + 1] == rest[i]);
                assert forall|j: int| 0 <= j < i + 1 implies (#[trigger] links[j]) is None by {
                    if j > 0 {
                        assert(links[j] == rest[j - 1]);
                    }
                }
            },
            None => {
                assert forall|i: int| 0 <= i < links.len() implies (#[trigger] links[i]) is None by {
                    if i > 0 {
                        assert(links[i] == rest[i - 1]);
                    }
                }
            },
        }
    } else if links.len() > 0 {
        assert(links[0] == first_link(links));
    }
}

/// The site refuses with its error, or where there is none with its message; an
/// empty text refuses nothing, and an empty error hides the message.
pub proof fn law_refusals_are_read(api: ResponseModel)
    ensures
        api.error matches Some(e) && e.len() > 0 ==> api_message(api) == api.error,
        api.error matches Some(e) && e.len() == 0 ==> api_message(api) is None,
        api.error is None && (api.message matches Some(m) && m.len() > 0) ==> api_message(api)
            == api.message,
        api.error is None && (api.message matches Some(m) ==> m.len() == 0) ==> api_message(
            api,
        ) is None,
{
}

/// Why a poll failed, in words.
pub proof fn law_failures_of_polls_are_told(message: Seq<char>)
    ensures
        TrackErrorModel::Reported(message).text() == "parcelsapp error: "@ + message,
        TrackErrorModel::NoResponse.text() == "widget produced no api/v2/parcels response"@,
{
}

// ---------------------------------------------------------------------------
// Catching the response
// ---------------------------------------------------------------------------
/// Once a response to the widget's own request has begun, its body is asked for
/// when it is there, whatever came in between; and the body of no other response
/// is. Each body gives the page three more seconds. At the end the last body is
/// read, and without one the poll fails.
pub proof fn law_wanted_body_is_fetched(
    events: Seq<PageEventModel>,
    k: int,
    url: Seq<char>,
    id: Seq<char>,
)
    requires
        0 <= k < events.len(),
        events[k] == (PageEventModel::Response { url, id }),
        exists|a: Seq<char>, b: Seq<char>| url == #[trigger] (a + "api/v2/parcels"@ + b),
    ensures
        WatchModel::after_all(events).after(PageEventModel::Loaded { id }).1
            == PageActionModel::FetchBody(id),
    decreases events.len(),
{
    crate::laws::texts::law_found_text_is_a_part(url, "api/v2/parcels"@);
    lemma_pending_stays(events, k, url, id);
}

proof fn lemma_pending_stays(
    events: Seq<PageEventModel>,
    k: int,
    url: Seq<char>,
    id: Seq<char>,
)
    requires
        0 <= k < events.len(),
        events[k] == (PageEventModel::Response { url, id }),
        has_text(url, "api/v2/parcels"@),
    ensures
        WatchModel::after_all(events).pending.contains(id),
    decreases events.len(),
{
    let front = events.drop_last();
    let before = WatchModel::after_all(front);
    let after = WatchModel::after_all(events);
    if k < front.len() {
        lemma_pending_stays(front, k, url, id);
        let i = choose|i: int| 0 <= i < before.pending.len() && before.pending[i] == id;
        assert(after.pending[i] == id);
    } else {
        assert(after.pending[before.pending.len() as int] == id);
    }
}

/// A response that is not to the widget's own request is never asked for, and
/// nothing is asked for before it is there.
pub proof fn law_other_bodies_are_left(w: WatchModel, url: Seq<char>, id: Seq<char>)
    ensures
        !(exists|a: Seq<char>, b: Seq<char>| url == #[trigger] (a + "api/v2/parcels"@ + b))
            ==> w.after(PageEventModel::Response { url, id }) == (w, PageActionModel::Listen),
        w.after(PageEventModel::Response { url, id }).1 is Listen,
        !w.pending.contains(id) ==> w.after(PageEventModel::Loaded { id }) == (
            w,
            PageActionModel::Listen,
        ),
        WatchModel::after_all(Seq::empty()).pending.len() == 0,
{
    crate::laws::texts::law_found_text_is_a_part(url, "api/v2/parcels"@);
}

/// Each body that comes is kept and gives the page three more seconds, and at
/// the end a poll without a body fails.
pub proof fn law_bodies_are_waited_for(w: WatchModel, body: Seq<char>)
    ensures
        w.after(PageEventModel::Body(body)).1 == PageActionModel::ListenFor(3),
        w.after(PageEventModel::Body(body)).0.body == Some(body),
        w.after(PageEventModel::Body(body)).0.pending == w.pending,
        w.body is None ==> w.after(PageEventModel::Settled).1 == PageActionModel::Fail(
            TrackErrorModel::NoResponse,
        ),
        w.body matches Some(b) ==> w.after(PageEventModel::Settled).1 == PageActionModel::Read(b),
{
}

/// The browser's user agent loses each mention that it has no window, and nothing
/// else.
pub proof fn law_user_agent_is_masked(a: Seq<char>, b: Seq<char>)
    ensures
        (forall|k: int|
            0 <= k < a.len() ==> (#[trigger] (a + "HeadlessChrome"@ + b).subrange(
                k,
                k + "HeadlessChrome"@.len(),
            )) != "HeadlessChrome"@) ==> masked(a + "HeadlessChrome"@ + b) == a + "Chrome"@
            + masked(b),
        !has_text(a, "HeadlessChrome"@) ==> masked(a) == a,
{
    reveal_strlit("HeadlessChrome");
    crate::laws::texts::law_occurrences_are_replaced(a, "HeadlessChrome"@, "Chrome"@, b);
}

} // verus!
