//! The response of parcelsapp's `POST /api/v2/parcels`: what it holds, how it
//! is caught on the widget page, and what is made of it.
use vstd::prelude::*;

use crate::clock::{rfc3339_moment, Moment, Timestamp};
use crate::provider::{
    classified, classify_status, copy_text, EventModel, TrackEvent, Tracking, TrackingModel,
};
use crate::text::{
    concat2, contains_text, has_text, replace_text, replaced, same_text, trim, trimmed,
};

verus! {

/// The page whose requests are listened to.
pub const WIDGET_URL: &'static str = "https://parcelsapp.com/widget";

/// The path of the request whose response is wanted.
pub const API_PATH: &'static str = "api/v2/parcels";

/// How long to listen on, in seconds, after a response: the widget sometimes
/// asks again once the carriers have answered.
pub const SETTLE_SECS: u64 = 3;

/// How long to listen, in seconds, before the first response.
pub const FIRST_WAIT_SECS: u64 = 3600;

/// One state of a parcel, as the site reports it.
#[derive(Debug)]
pub struct ApiState {
    pub date: Option<String>,
    pub carrier: Option<usize>,
    pub status: String,
    pub location: Option<String>,
}

/// The value of an [`ApiState`].
pub struct StateModel {
    pub date: Option<Seq<char>>,
    pub carrier: Option<usize>,
    pub status: Seq<char>,
    pub location: Option<Seq<char>>,
}

impl DeepView for ApiState {
    type V = StateModel;

    open spec fn deep_view(&self) -> StateModel {
        StateModel {
            date: self.date.deep_view(),
            carrier: self.carrier,
            status: self.status@,
            location: self.location.deep_view(),
        }
    }
}

/// A named value that the site reports of a parcel.
#[derive(Debug)]
pub struct ApiAttribute {
    pub n: Option<String>,
    pub val: Option<String>,
}

impl DeepView for ApiAttribute {
    type V = (Option<Seq<char>>, Option<Seq<char>>);

    open spec fn deep_view(&self) -> (Option<Seq<char>>, Option<Seq<char>>) {
        (self.n.deep_view(), self.val.deep_view())
    }
}

/// The site's response.
#[derive(Debug)]
pub struct ApiResponse {
    pub states: Vec<ApiState>,
    pub carriers: Vec<String>,
    /// The name of the carrier that the site detected.
    pub detected_carrier: Option<String>,
    pub status: String,
    pub error: Option<String>,
    pub message: Option<String>,
    pub attributes: Vec<ApiAttribute>,
    /// The links to the carriers' own pages.
    pub external_tracking: Vec<Option<String>>,
}

/// The value of an [`ApiResponse`].
pub struct ResponseModel {
    pub states: Seq<StateModel>,
    pub carriers: Seq<Seq<char>>,
    pub detected_carrier: Option<Seq<char>>,
    pub status: Seq<char>,
    pub error: Option<Seq<char>>,
    pub message: Option<Seq<char>>,
    pub attributes: Seq<(Option<Seq<char>>, Option<Seq<char>>)>,
    pub external_tracking: Seq<Option<Seq<char>>>,
}

impl DeepView for ApiResponse {
    type V = ResponseModel;

    open spec fn deep_view(&self) -> ResponseModel {
        ResponseModel {
            states: self.states.deep_view(),
            carriers: self.carriers.deep_view(),
            detected_carrier: self.detected_carrier.deep_view(),
            status: self.status@,
            error: self.error.deep_view(),
            message: self.message.deep_view(),
            attributes: self.attributes.deep_view(),
            external_tracking: self.external_tracking.deep_view(),
        }
    }
}

/// Why there is no tracking.
#[derive(Debug, PartialEq, Eq)]
pub enum TrackError {
    /// The site answered with this error message.
    Reported(String),
    /// The widget page never asked for the parcel.
    NoResponse,
}

/// The value of a [`TrackError`].
pub enum TrackErrorModel {
    Reported(Seq<char>),
    NoResponse,
}

impl DeepView for TrackError {
    type V = TrackErrorModel;

    open spec fn deep_view(&self) -> TrackErrorModel {
        match self {
            TrackError::Reported(m) => TrackErrorModel::Reported(m@),
            TrackError::NoResponse => TrackErrorModel::NoResponse,
        }
    }
}

impl TrackErrorModel {
    /// The error in words.
    pub open spec fn text(self) -> Seq<char> {
        match self {
            TrackErrorModel::Reported(m) => "parcelsapp error: "@ + m,
            TrackErrorModel::NoResponse => "widget produced no api/v2/parcels response"@,
        }
    }
}

impl TrackError {
    /// The error in words.
    pub fn text(&self) -> (r: String)
        ensures
            r@ == self.deep_view().text(),
    {
        match self {
            TrackError::Reported(m) => concat2("parcelsapp error: ", m),
            TrackError::NoResponse => "widget produced no api/v2/parcels response".to_owned(),
        }
    }
}

// ---------------------------------------------------------------------------
// Events, newest first
// ---------------------------------------------------------------------------
/// An event, with the position of its carrier in the site's list.
pub type Entry = (Option<usize>, TrackEvent);

/// The value of an [`Entry`].
pub type EntryModel = (Option<usize>, EventModel);

/// The moment `a` is before the moment `b`. No moment at all is before every
/// moment.
pub open spec fn older(a: Option<Moment>, b: Option<Moment>) -> bool {
    match (a, b) {
        (None, None) => false,
        (None, Some(_)) => true,
        (Some(_), None) => false,
        (Some(x), Some(y)) => !y.le(x),
    }
}

/// `entries` with `e` put behind every entry that is not older than `e`.
pub open spec fn placed(entries: Seq<EntryModel>, e: EntryModel) -> Seq<EntryModel>
    decreases entries.len(),
{
    if entries.len() > 0 && older(entries.last().1.time, e.1.time) {
        placed(entries.drop_last(), e).push(entries.last())
    } else {
        entries.push(e)
    }
}

/// `entries`, the newest first. Entries without a time come last, and entries
/// of one time stay in the order they had.
pub open spec fn newest_first(entries: Seq<EntryModel>) -> Seq<EntryModel>
    decreases entries.len(),
{
    if entries.len() == 0 {
        Seq::empty()
    } else {
        placed(newest_first(entries.drop_last()), entries.last())
    }
}

/// No entry is older than one behind it.
pub open spec fn is_newest_first(entries: Seq<EntryModel>) -> bool {
    forall|i: int, j: int|
        0 <= i < j < entries.len() ==> !older(
            (#[trigger] entries[i]).1.time,
            (#[trigger] entries[j]).1.time,
        )
}

proof fn lemma_placed_at(entries: Seq<EntryModel>, e: EntryModel, at: int)
    requires
        0 <= at <= entries.len(),
        at > 0 ==> !older(entries[at - 1].1.time, e.1.time),
        forall|i: int| at <= i < entries.len() ==> older((#[trigger] entries[i]).1.time, e.1.time),
    ensures
        placed(entries, e) == entries.insert(at, e),
    decreases entries.len(),
{
    if at < entries.len() {
        lemma_placed_at(entries.drop_last(), e, at);
        assert(entries.drop_last().insert(at, e).push(entries.last()) =~= entries.insert(at, e));
    } else {
        assert(entries.push(e) =~= entries.insert(at, e));
    }
}

/// The position at which [`placed`] puts `e`.
pub proof fn lemma_placed_somewhere(entries: Seq<EntryModel>, e: EntryModel) -> (at: int)
    ensures
        0 <= at <= entries.len(),
        at > 0 ==> !older(entries[at - 1].1.time, e.1.time),
        forall|i: int| at <= i < entries.len() ==> older((#[trigger] entries[i]).1.time, e.1.time),
        placed(entries, e) == entries.insert(at, e),
    decreases entries.len(),
{
    if entries.len() > 0 && older(entries.last().1.time, e.1.time) {
        let at = lemma_placed_somewhere(entries.drop_last(), e);
        assert forall|i: int| at <= i < entries.len() implies older(
            (#[trigger] entries[i]).1.time,
            e.1.time,
        ) by {
            if i < entries.len() - 1 {
                assert(entries.drop_last()[i] == entries[i]);
            }
        }
        lemma_placed_at(entries, e, at);
        at
    } else {
        let at = entries.len() as int;
        lemma_placed_at(entries, e, at);
        at
    }
}

/// The events stand newest first, and those without a time come last.
pub proof fn law_events_are_newest_first(entries: Seq<EntryModel>)
    ensures
        is_newest_first(newest_first(entries)),
    decreases entries.len(),
{
    if entries.len() > 0 {
        law_events_are_newest_first(entries.drop_last());
        let s = newest_first(entries.drop_last());
        let e = entries.last();
        let at = lemma_placed_somewhere(s, e);
        let r = s.insert(at, e);
        assert forall|i: int, j: int| 0 <= i < j < r.len() implies !older(
            (#[trigger] r[i]).1.time,
            (#[trigger] r[j]).1.time,
        ) by {
            let a = if i < at { i } else { i - 1 };
            let b = if j < at { j } else { j - 1 };
            if i != at && j != at {
                assert(r[i] == s[a] && r[j] == s[b]);
            } else if i == at {
                assert(r[j] == s[b]);
            } else {
                assert(r[i] == s[i]);
                if i < at - 1 {
                    assert(!older(s[i].1.time, s[at - 1].1.time));
                }
            }
        }
    }
}

/// Ordering the events neither loses nor invents nor repeats one.
pub proof fn law_ordering_keeps_every_event(entries: Seq<EntryModel>)
    ensures
        newest_first(entries).to_multiset() == entries.to_multiset(),
        newest_first(entries).len() == entries.len(),
    decreases entries.len(),
{
    broadcast use vstd::seq_lib::group_to_multiset_ensures;

    if entries.len() > 0 {
        law_ordering_keeps_every_event(entries.drop_last());
        let s = newest_first(entries.drop_last());
        let at = lemma_placed_somewhere(s, entries.last());
        assert(entries =~= entries.drop_last().push(entries.last()));
    } else {
        assert(newest_first(entries) =~= entries);
    }
}

/// The entries of `entries` that have the time `time`.
pub open spec fn at_time(entries: Seq<EntryModel>, time: Option<Moment>) -> Seq<EntryModel>
    decreases entries.len(),
{
    if entries.len() == 0 {
        Seq::empty()
    } else if entries.last().1.time == time {
        at_time(entries.drop_last(), time).push(entries.last())
    } else {
        at_time(entries.drop_last(), time)
    }
}

proof fn lemma_at_time_of_placed(entries: Seq<EntryModel>, e: EntryModel, time: Option<Moment>)
    ensures
        at_time(placed(entries, e), time) == at_time(entries.push(e), time),
    decreases entries.len(),
{
    if entries.len() > 0 && older(entries.last().1.time, e.1.time) {
        let front = entries.drop_last();
        let last = entries.last();
        reveal_with_fuel(at_time, 3);
        lemma_at_time_of_placed(front, e, time);
        assert(placed(front, e).push(last).drop_last() =~= placed(front, e));
        assert(front.push(e).drop_last() =~= front);
        assert(entries.push(e).drop_last() =~= entries);
        if time == last.1.time {
            assert(time != e.1.time);
        }
    }
}

/// Events of one time stay in the order in which the site reported them.
pub proof fn law_equal_times_keep_their_order(entries: Seq<EntryModel>, time: Option<Moment>)
    ensures
        at_time(newest_first(entries), time) == at_time(entries, time),
    decreases entries.len(),
{
    if entries.len() > 0 {
        let front = entries.drop_last();
        law_equal_times_keep_their_order(front, time);
        let s = newest_first(front);
        lemma_at_time_of_placed(s, entries.last(), time);
        assert(s.push(entries.last()).drop_last() =~= s);
    }
}

/// Whether the moment `a` is before the moment `b`.
fn is_older(a: &Option<Timestamp>, b: &Option<Timestamp>) -> (r: bool)
    ensures
        r == older(a.deep_view(), b.deep_view()),
{
    match (a, b) {
        (None, None) => false,
        (None, Some(_)) => true,
        (Some(_), None) => false,
        (Some(x), Some(y)) => !y.not_after(x),
    }
}

/// The events, the newest first.
pub fn order_events(entries: &Vec<Entry>) -> (r: Vec<Entry>)
    ensures
        r.deep_view() == newest_first(entries.deep_view()),
{
    let mut r: Vec<Entry> = Vec::new();
    let mut i: usize = 0;
    assert(r.deep_view() =~= newest_first(entries.deep_view().take(0)));
    while i < entries.len()
        invariant
            i <= entries.len(),
            r.deep_view() == newest_first(entries.deep_view().take(i as int)),
        decreases entries.len() - i,
    {
        let ghost all = entries.deep_view();
        let e = (entries[i].0, entries[i].1.clone());
        let ghost em = e.deep_view();
        let mut at: usize = r.len();
        while at > 0 && is_older(&r[at - 1].1.time, &e.1.time)
            invariant
                at <= r.len(),
                em == e.deep_view(),
                forall|k: int|
                    at <= k < r.len() ==> older((#[trigger] r.deep_view()[k]).1.time, em.1.time),
            decreases at,
        {
            assert(r.deep_view()[at - 1] == r[at - 1].deep_view());
            at -= 1;
        }
        proof {
            if at > 0 {
                assert(r.deep_view()[at - 1] == r[at - 1].deep_view());
            }
            lemma_placed_at(r.deep_view(), em, at as int);
            assert(all.take(i + 1).drop_last() =~= all.take(i as int));
            assert(all.take(i + 1).last() == em);
        }
        let ghost before = r.deep_view();
        r.insert(at, e);
        assert(r.deep_view() =~= before.insert(at as int, em));
        i += 1;
    }
    assert(entries.deep_view().take(i as int) =~= entries.deep_view());
    r
}

// ---------------------------------------------------------------------------
// Reading the response
// ---------------------------------------------------------------------------
/// The message with which the site refuses. A message that is there but empty
/// is none.
pub open spec fn api_message(api: ResponseModel) -> Option<Seq<char>> {
    let m = match api.error {
        Some(e) => Some(e),
        None => api.message,
    };
    match m {
        Some(t) if t.len() > 0 => Some(t),
        _ => None,
    }
}

/// The event that a state stands for. Its time is the one that the state's
/// date names, if it is a date in the format of RFC 3339.
pub open spec fn entry_of(s: StateModel) -> EntryModel {
    (
        s.carrier,
        EventModel {
            time: match s.date {
                Some(d) => rfc3339_moment(d),
                None => None,
            },
            description: trimmed(s.status),
            location: match s.location {
                Some(l) if trimmed(l).len() > 0 => Some(l),
                _ => None,
            },
            translated: None,
        },
    )
}

/// The events that the states stand for, in their order.
pub open spec fn entries_of(states: Seq<StateModel>) -> Seq<EntryModel> {
    Seq::new(states.len(), |i: int| entry_of(states[i]))
}

/// The attributes that have both a name and a value.
pub open spec fn named_values(
    attributes: Seq<(Option<Seq<char>>, Option<Seq<char>>)>,
) -> Seq<(Seq<char>, Seq<char>)>
    decreases attributes.len(),
{
    if attributes.len() == 0 {
        Seq::empty()
    } else {
        let rest = named_values(attributes.drop_last());
        match attributes.last() {
            (Some(n), Some(v)) => rest.push((n, v)),
            _ => rest,
        }
    }
}

/// The first link that is there.
pub open spec fn first_link(links: Seq<Option<Seq<char>>>) -> Option<Seq<char>>
    decreases links.len(),
{
    if links.len() == 0 {
        None
    } else if links[0] is Some {
        links[0]
    } else {
        first_link(links.skip(1))
    }
}

/// The carrier: the one that the site detected, or else that of the newest
/// event.
pub open spec fn carrier_of(
    api: ResponseModel,
    ordered: Seq<EntryModel>,
) -> Option<Seq<char>> {
    if api.detected_carrier is Some {
        api.detected_carrier
    } else if ordered.len() > 0 && ordered[0].0 is Some && ordered[0].0->0 < api.carriers.len() {
        Some(api.carriers[ordered[0].0->0 as int])
    } else {
        None
    }
}

/// What is known of the parcel `number` from a response whose states stand for
/// the events `entries`.
pub open spec fn tracking_of(
    api: ResponseModel,
    entries: Seq<EntryModel>,
    number: Seq<char>,
    fetched_at: Moment,
) -> TrackingModel {
    let ordered = newest_first(entries);
    TrackingModel {
        number,
        carrier: carrier_of(api, ordered),
        status: classified(
            api.status,
            if ordered.len() > 0 {
                Some(ordered[0].1.description)
            } else {
                None
            },
        ),
        events: Seq::new(ordered.len(), |i: int| ordered[i].1),
        fetched_at,
        attributes: named_values(api.attributes),
        tracking_url: first_link(api.external_tracking),
    }
}

/// The event that a state stands for.
fn read_state(s: &ApiState) -> (r: Entry)
    ensures
        r.deep_view() == entry_of(s.deep_view()),
{
    let time = match &s.date {
        Some(d) => Timestamp::parse_rfc3339(d),
        None => None,
    };
    let location = match &s.location {
        Some(l) => if trim(l).as_str().is_empty() {
            None
        } else {
            Some(l.clone())
        },
        None => None,
    };
    (s.carrier, TrackEvent { time, description: trim(&s.status), location, translated: None })
}

/// The events that the states stand for, in their order.
pub fn read_states(states: &Vec<ApiState>) -> (r: Vec<Entry>)
    ensures
        r.deep_view() == entries_of(states.deep_view()),
{
    let mut r: Vec<Entry> = Vec::new();
    let mut i: usize = 0;
    while i < states.len()
        invariant
            i <= states.len(),
            r.len() == i,
            forall|k: int| 0 <= k < i ==> (#[trigger] r[k]).deep_view() == entry_of(
                states[k].deep_view(),
            ),
        decreases states.len() - i,
    {
        r.push(read_state(&states[i]));
        i += 1;
    }
    assert(r.deep_view() =~= entries_of(states.deep_view()));
    r
}

/// The attributes that have both a name and a value.
fn read_attributes(attributes: &Vec<ApiAttribute>) -> (r: Vec<(String, String)>)
    ensures
        r.deep_view() == named_values(attributes.deep_view()),
{
    let mut r: Vec<(String, String)> = Vec::new();
    let mut i: usize = 0;
    assert(r.deep_view() =~= named_values(attributes.deep_view().take(0)));
    while i < attributes.len()
        invariant
            i <= attributes.len(),
            r.deep_view() == named_values(attributes.deep_view().take(i as int)),
        decreases attributes.len() - i,
    {
        let ghost all = attributes.deep_view();
        let ghost before = r.deep_view();
        proof {
            assert(all.take(i + 1).drop_last() =~= all.take(i as int));
            assert(all.take(i + 1).last() == attributes[i as int].deep_view());
        }
        match (&attributes[i].n, &attributes[i].val) {
            (Some(n), Some(v)) => {
                let pair = (n.clone(), v.clone());
                let ghost pm = pair.deep_view();
                r.push(pair);
                assert(r.deep_view() =~= before.push(pm));
            },
            _ => {},
        }
        i += 1;
    }
    assert(attributes.deep_view().take(i as int) =~= attributes.deep_view());
    r
}

/// The first link that is there.
fn read_link(links: &Vec<Option<String>>) -> (r: Option<String>)
    ensures
        r.deep_view() == first_link(links.deep_view()),
{
    let mut i: usize = 0;
    assert(links.deep_view().skip(0) =~= links.deep_view());
    while i < links.len()
        invariant
            i <= links.len(),
            first_link(links.deep_view()) == first_link(links.deep_view().skip(i as int)),
        decreases links.len() - i,
    {
        let ghost left = links.deep_view().skip(i as int);
        assert(left[0] == links[i as int].deep_view());
        assert(left.skip(1) =~= links.deep_view().skip(i + 1));
        if links[i].is_some() {
            return copy_text(&links[i]);
        }
        i += 1;
    }
    None
}

/// What is known of the parcel `number` from a response whose states stand for
/// the events `entries`.
pub fn build_tracking(
    api: &ApiResponse,
    entries: &Vec<Entry>,
    number: &str,
    fetched_at: Timestamp,
) -> (r: Tracking)
    ensures
        r.deep_view() == tracking_of(
            api.deep_view(),
            entries.deep_view(),
            number@,
            fetched_at@,
        ),
{
    let ordered = order_events(entries);
    let ghost om = ordered.deep_view();
    let carrier = match &api.detected_carrier {
        Some(c) => Some(c.clone()),
        None => if ordered.len() == 0 {
            None
        } else {
            assert(om[0] == ordered[0].deep_view());
            match ordered[0].0 {
                Some(k) => if k < api.carriers.len() {
                    Some(api.carriers[k].clone())
                } else {
                    None
                },
                None => None,
            }
        },
    };
    let status = if ordered.len() == 0 {
        classify_status(&api.status, None)
    } else {
        assert(om[0] == ordered[0].deep_view());
        classify_status(&api.status, Some(&ordered[0].1.description))
    };
    let mut events: Vec<TrackEvent> = Vec::new();
    let mut i: usize = 0;
    while i < ordered.len()
        invariant
            i <= ordered.len(),
            events.len() == i,
            forall|k: int| 0 <= k < i ==> (#[trigger] events[k]) == ordered[k].1,
        decreases ordered.len() - i,
    {
        events.push(ordered[i].1.clone());
        i += 1;
    }
    let attributes = read_attributes(&api.attributes);
    let tracking_url = read_link(&api.external_tracking);
    proof {
        let m = tracking_of(api.deep_view(), entries.deep_view(), number@, fetched_at@);
        assert(events.deep_view() =~= m.events);
    }
    Tracking {
        number: number.to_owned(),
        carrier,
        status,
        events,
        fetched_at,
        attributes,
        tracking_url,
    }
}

/// What is known of the parcel `number` from the site's response: an error
/// exactly where the site refuses with a message.
pub fn parse_response(api: &ApiResponse, number: &str, fetched_at: Timestamp) -> (r: Result<
    Tracking,
    TrackError,
>)
    ensures
        match api_message(api.deep_view()) {
            Some(m) => r is Err && r->Err_0.deep_view() == TrackErrorModel::Reported(m),
            None => r is Ok && r->Ok_0.deep_view() == tracking_of(
                api.deep_view(),
                entries_of(api.deep_view().states),
                number@,
                fetched_at@,
            ),
        },
{
    let message = match &api.error {
        Some(e) => Some(e),
        None => match &api.message {
            Some(m) => Some(m),
            None => None,
        },
    };
    if let Some(m) = message {
        if !m.as_str().is_empty() {
            return Err(TrackError::Reported(m.clone()));
        }
    }
    let entries = read_states(&api.states);
    Ok(build_tracking(api, &entries, number, fetched_at))
}

// ---------------------------------------------------------------------------
// Catching the response
// ---------------------------------------------------------------------------
/// A user agent without the word that says the browser has no window.
pub open spec fn masked(user_agent: Seq<char>) -> Seq<char> {
    replaced(user_agent, "HeadlessChrome"@, "Chrome"@)
}

/// The user agent of a browser, without the word that says it has no window:
/// the site answers such a browser with nothing.
pub fn mask_user_agent(user_agent: &str) -> (r: String)
    ensures
        r@ == masked(user_agent@),
        r@ == replaced(user_agent@, "HeadlessChrome"@, "Chrome"@),
{
    proof {
        reveal_strlit("HeadlessChrome");
    }
    replace_text(user_agent, "HeadlessChrome", "Chrome")
}

/// What happens on the widget page.
#[derive(Debug)]
pub enum PageEvent {
    /// The response to the request `id` has begun.
    Response { url: String, id: String },
    /// The response to the request `id` is there.
    Loaded { id: String },
    /// The body that was asked for.
    Body(String),
    /// The time to listen is over.
    Settled,
}

/// The value of a [`PageEvent`].
pub enum PageEventModel {
    Response { url: Seq<char>, id: Seq<char> },
    Loaded { id: Seq<char> },
    Body(Seq<char>),
    Settled,
}

impl DeepView for PageEvent {
    type V = PageEventModel;

    open spec fn deep_view(&self) -> PageEventModel {
        match self {
            PageEvent::Response { url, id } => PageEventModel::Response { url: url@, id: id@ },
            PageEvent::Loaded { id } => PageEventModel::Loaded { id: id@ },
            PageEvent::Body(b) => PageEventModel::Body(b@),
            PageEvent::Settled => PageEventModel::Settled,
        }
    }
}

/// What to do next on the widget page.
#[derive(Debug, PartialEq, Eq)]
pub enum PageAction {
    /// Listen on.
    Listen,
    /// Ask for the body of the response to this request.
    FetchBody(String),
    /// Listen on, from now for this many seconds.
    ListenFor(u64),
    /// Read this body.
    Read(String),
    /// Give up.
    Fail(TrackError),
}

/// The value of a [`PageAction`].
pub enum PageActionModel {
    Listen,
    FetchBody(Seq<char>),
    ListenFor(u64),
    Read(Seq<char>),
    Fail(TrackErrorModel),
}

impl DeepView for PageAction {
    type V = PageActionModel;

    open spec fn deep_view(&self) -> PageActionModel {
        match self {
            PageAction::Listen => PageActionModel::Listen,
            PageAction::FetchBody(id) => PageActionModel::FetchBody(id@),
            PageAction::ListenFor(n) => PageActionModel::ListenFor(*n),
            PageAction::Read(b) => PageActionModel::Read(b@),
            PageAction::Fail(e) => PageActionModel::Fail(e.deep_view()),
        }
    }
}

/// Listens to the requests of the widget page: which responses are wanted, and
/// the body of the last one that came.
#[derive(Debug)]
pub struct ResponseWatch {
    pub pending: Vec<String>,
    pub body: Option<String>,
}

/// The value of a [`ResponseWatch`].
pub struct WatchModel {
    pub pending: Seq<Seq<char>>,
    pub body: Option<Seq<char>>,
}

impl DeepView for ResponseWatch {
    type V = WatchModel;

    open spec fn deep_view(&self) -> WatchModel {
        WatchModel { pending: self.pending.deep_view(), body: self.body.deep_view() }
    }
}

impl WatchModel {
    /// Before anything has happened.
    pub open spec fn start() -> WatchModel {
        WatchModel { pending: Seq::empty(), body: None }
    }

    /// What is known after `event`, and what to do next.
    pub open spec fn after(self, event: PageEventModel) -> (WatchModel, PageActionModel) {
        match event {
            PageEventModel::Response { url, id } => if has_text(url, API_PATH@) {
                (
                    WatchModel { pending: self.pending.push(id), ..self },
                    PageActionModel::Listen,
                )
            } else {
                (self, PageActionModel::Listen)
            },
            PageEventModel::Loaded { id } => if self.pending.contains(id) {
                (self, PageActionModel::FetchBody(id))
            } else {
                (self, PageActionModel::Listen)
            },
            PageEventModel::Body(b) => (
                WatchModel { body: Some(b), ..self },
                PageActionModel::ListenFor(SETTLE_SECS),
            ),
            PageEventModel::Settled => (
                self,
                match self.body {
                    Some(b) => PageActionModel::Read(b),
                    None => PageActionModel::Fail(TrackErrorModel::NoResponse),
                },
            ),
        }
    }

    /// What is known after `events`.
    pub open spec fn after_all(events: Seq<PageEventModel>) -> WatchModel
        decreases events.len(),
    {
        if events.len() == 0 {
            WatchModel::start()
        } else {
            WatchModel::after_all(events.drop_last()).after(events.last()).0
        }
    }
}

impl ResponseWatch {
    /// Nothing has happened yet: listen for [`FIRST_WAIT_SECS`] seconds.
    pub fn new() -> (r: ResponseWatch)
        ensures
            r.deep_view() == WatchModel::start(),
    {
        let r = ResponseWatch { pending: Vec::new(), body: None };
        assert(r.deep_view().pending =~= WatchModel::start().pending);
        r
    }

    /// Whether the response to the request `id` is wanted.
    fn wants(&self, id: &str) -> (r: bool)
        ensures
            r == self.deep_view().pending.contains(id@),
    {
        let ghost pending = self.deep_view().pending;
        let mut i: usize = 0;
        while i < self.pending.len()
            invariant
                i <= self.pending.len(),
                pending == self.pending.deep_view(),
                forall|k: int| 0 <= k < i ==> #[trigger] pending[k] != id@,
            decreases self.pending.len() - i,
        {
            assert(pending[i as int] == self.pending[i as int]@);
            if same_text(&self.pending[i], id) {
                return true;
            }
            i += 1;
        }
        false
    }

    /// Takes in what happened on the page and says what to do next.
    pub fn step(&mut self, event: PageEvent) -> (r: PageAction)
        ensures
            (final(self).deep_view(), r.deep_view()) == old(self).deep_view().after(
                event.deep_view(),
            ),
    {
        let ghost before = self.deep_view().pending;
        match event {
            PageEvent::Response { url, id } => {
                if contains_text(&url, API_PATH) {
                    let ghost new = id@;
                    self.pending.push(id);
                    assert(self.pending.deep_view() =~= before.push(new));
                }
                PageAction::Listen
            },
            PageEvent::Loaded { id } => if self.wants(&id) {
                PageAction::FetchBody(id)
            } else {
                PageAction::Listen
            },
            PageEvent::Body(b) => {
                self.body = Some(b);
                PageAction::ListenFor(SETTLE_SECS)
            },
            PageEvent::Settled => match copy_text(&self.body) {
                Some(b) => PageAction::Read(b),
                None => PageAction::Fail(TrackError::NoResponse),
            },
        }
    }
}

/// `event` is the beginning of a response of the wanted path to the request
/// `id`.
pub open spec fn begins_wanted(event: PageEventModel, id: Seq<char>) -> bool {
    match event {
        PageEventModel::Response { url, id: begun } => has_text(url, API_PATH@) && begun == id,
        _ => false,
    }
}

/// Only the body of a response to the wanted path is ever asked for: a response
/// of that path has begun before.
pub proof fn law_only_wanted_bodies_are_fetched(
    events: Seq<PageEventModel>,
    next: PageEventModel,
    id: Seq<char>,
)
    requires
        WatchModel::after_all(events).after(next).1 == PageActionModel::FetchBody(id),
    ensures
        exists|k: int|
            0 <= k < events.len() && begins_wanted(#[trigger] events[k], id),
{
    lemma_pending_was_wanted(events, id);
}

proof fn lemma_pending_was_wanted(events: Seq<PageEventModel>, id: Seq<char>)
    requires
        WatchModel::after_all(events).pending.contains(id),
    ensures
        exists|k: int|
            0 <= k < events.len() && begins_wanted(#[trigger] events[k], id),
    decreases events.len(),
{
    if events.len() > 0 {
        let front = events.drop_last();
        let last = events.last();
        if WatchModel::after_all(front).pending.contains(id) {
            lemma_pending_was_wanted(front, id);
            let k = choose|k: int|
                0 <= k < front.len() && begins_wanted(#[trigger] front[k], id);
            assert(events[k] == front[k]);
        } else {
            assert(events[events.len() - 1] == last);
        }
    }
}

/// The body that is read at the end is the last one that came.
pub proof fn law_the_last_body_is_read(events: Seq<PageEventModel>, last: int)
    requires
        0 <= last < events.len(),
        events[last] is Body,
        forall|k: int| last < k < events.len() ==> !((#[trigger] events[k]) is Body),
    ensures
        WatchModel::after_all(events).after(PageEventModel::Settled).1 == PageActionModel::Read(
            events[last]->Body_0,
        ),
    decreases events.len(),
{
    if last < events.len() - 1 {
        assert(events[events.len() - 1] == events.last());
        law_the_last_body_is_read(events.drop_last(), last);
    }
}

} // verus!
