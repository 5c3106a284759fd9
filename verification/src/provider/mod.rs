//! What a tracking site reports of a parcel, and how its status is read.
use vstd::prelude::*;

use crate::clock::{Moment, Timestamp};
use crate::text::{ascii_lower, contains_text, has_text, same_text, to_ascii_lower};

pub mod parcelsapp;

verus! {

/// Where a parcel is in its life.
#[derive(Debug, Clone, Copy, PartialEq, Eq, Structural)]
pub enum Status {
    Pending,
    InTransit,
    OutForDelivery,
    Delivered,
    Exception,
    Unknown,
}

/// One entry of a parcel's history.
#[derive(Debug, PartialEq, Eq)]
pub struct TrackEvent {
    pub time: Option<Timestamp>,
    pub description: String,
    pub location: Option<String>,
    /// `description` in English, once it is known.
    pub translated: Option<String>,
}

/// The value of a [`TrackEvent`].
pub struct EventModel {
    pub time: Option<Moment>,
    pub description: Seq<char>,
    pub location: Option<Seq<char>>,
    pub translated: Option<Seq<char>>,
}

impl DeepView for TrackEvent {
    type V = EventModel;

    open spec fn deep_view(&self) -> EventModel {
        EventModel {
            time: self.time.deep_view(),
            description: self.description@,
            location: self.location.deep_view(),
            translated: self.translated.deep_view(),
        }
    }
}

impl EventModel {
    /// The text to show: the translation, or else the description.
    pub open spec fn display_text(self) -> Seq<char> {
        match self.translated {
            Some(t) => t,
            None => self.description,
        }
    }
}

impl TrackEvent {
    /// The text to show: the translation, or else the description.
    pub fn display_text(&self) -> (r: &str)
        ensures
            r@ == self.deep_view().display_text(),
    {
        match &self.translated {
            Some(t) => t.as_str(),
            None => self.description.as_str(),
        }
    }
}

/// A copy of an optional text.
pub fn copy_text(o: &Option<String>) -> (r: Option<String>)
    ensures
        r == *o,
{
    match o {
        Some(s) => Some(s.clone()),
        None => None,
    }
}

impl Clone for TrackEvent {
    fn clone(&self) -> (r: TrackEvent)
        ensures
            r == *self,
    {
        TrackEvent {
            time: self.time,
            description: self.description.clone(),
            location: copy_text(&self.location),
            translated: copy_text(&self.translated),
        }
    }
}

/// What is known of a parcel after a poll. The newest event comes first.
#[derive(Debug, Clone, PartialEq, Eq)]
pub struct Tracking {
    pub number: String,
    pub carrier: Option<String>,
    pub status: Status,
    pub events: Vec<TrackEvent>,
    pub fetched_at: Timestamp,
    /// Name and value pairs that the site reports, such as the days in transit.
    pub attributes: Vec<(String, String)>,
    /// The carrier's own tracking page, if the site names one.
    pub tracking_url: Option<String>,
}

/// The value of a [`Tracking`].
pub struct TrackingModel {
    pub number: Seq<char>,
    pub carrier: Option<Seq<char>>,
    pub status: Status,
    pub events: Seq<EventModel>,
    pub fetched_at: Moment,
    pub attributes: Seq<(Seq<char>, Seq<char>)>,
    pub tracking_url: Option<Seq<char>>,
}

impl DeepView for Tracking {
    type V = TrackingModel;

    open spec fn deep_view(&self) -> TrackingModel {
        TrackingModel {
            number: self.number@,
            carrier: self.carrier.deep_view(),
            status: self.status,
            events: self.events.deep_view(),
            fetched_at: self.fetched_at@,
            attributes: self.attributes.deep_view(),
            tracking_url: self.tracking_url.deep_view(),
        }
    }
}

/// The name of a status, as it is shown.
pub open spec fn status_label(s: Status) -> Seq<char> {
    match s {
        Status::Pending => "pending"@,
        Status::InTransit => "in transit"@,
        Status::OutForDelivery => "out for delivery"@,
        Status::Delivered => "delivered"@,
        Status::Exception => "exception"@,
        Status::Unknown => "unknown"@,
    }
}

impl Status {
    /// The name of the status, as it is shown.
    pub fn label(&self) -> (r: &'static str)
        ensures
            r@ == status_label(*self),
    {
        match self {
            Status::Pending => "pending",
            Status::InTransit => "in transit",
            Status::OutForDelivery => "out for delivery",
            Status::Delivered => "delivered",
            Status::Exception => "exception",
            Status::Unknown => "unknown",
        }
    }
}

/// The status that a documented value of the site names.
pub open spec fn status_of_api(api_status: Seq<char>) -> Option<Status> {
    if api_status == "delivered"@ {
        Some(Status::Delivered)
    } else if api_status == "arrived"@ {
        Some(Status::OutForDelivery)
    } else if api_status == "transit"@ || api_status == "pickup"@ {
        Some(Status::InTransit)
    } else {
        None
    }
}

pub open spec fn says_delivered(t: Seq<char>) -> bool {
    has_text(t, "delivered"@)
}

pub open spec fn says_out_for_delivery(t: Seq<char>) -> bool {
    ||| has_text(t, "out for delivery"@)
    ||| has_text(t, "with courier"@)
    ||| has_text(t, "with delivery courier"@)
}

pub open spec fn says_exception(t: Seq<char>) -> bool {
    ||| has_text(t, "customs"@)
    ||| has_text(t, "return"@)
    ||| has_text(t, "exception"@)
    ||| has_text(t, "failed"@)
    ||| has_text(t, "unsuccessful"@)
    ||| has_text(t, "refused"@)
    ||| has_text(t, "damaged"@)
    ||| has_text(t, "lost"@)
}

pub open spec fn says_pending(t: Seq<char>) -> bool {
    ||| has_text(t, "pending"@)
    ||| has_text(t, "waiting"@)
    ||| has_text(t, "label created"@)
    ||| has_text(t, "shipment information received"@)
    ||| has_text(t, "pre-advice"@)
}

pub open spec fn says_in_transit(t: Seq<char>) -> bool {
    ||| has_text(t, "departed"@)
    ||| has_text(t, "arrived"@)
    ||| has_text(t, "in transit"@)
    ||| has_text(t, "processed"@)
    ||| has_text(t, "accepted"@)
    ||| has_text(t, "posted"@)
    ||| has_text(t, "received"@)
    ||| has_text(t, "dispatched"@)
    ||| has_text(t, "handed"@)
    ||| has_text(t, "sorting"@)
    ||| has_text(t, "left"@)
}

/// The status that the keywords of an event's text, in lower case, point to.
/// The first group of keywords that occurs decides.
pub open spec fn status_of_keywords(t: Seq<char>) -> Status {
    if says_delivered(t) {
        Status::Delivered
    } else if says_out_for_delivery(t) {
        Status::OutForDelivery
    } else if says_exception(t) {
        Status::Exception
    } else if says_pending(t) {
        Status::Pending
    } else if says_in_transit(t) {
        Status::InTransit
    } else {
        Status::Unknown
    }
}

/// The status for what the site says and for the text of the newest event: a
/// documented value decides; otherwise the event's keywords do.
pub open spec fn classified(api_status: Seq<char>, latest_event: Option<Seq<char>>) -> Status {
    match status_of_api(api_status) {
        Some(s) => s,
        None => match latest_event {
            Some(t) => status_of_keywords(ascii_lower(t)),
            None => Status::Unknown,
        },
    }
}

/// Maps the site's status value and the newest event's text onto [`Status`].
/// The value is authoritative when it is one of the documented ones; otherwise
/// keywords in the event decide, with `Unknown` as the fallback.
pub fn classify_status(api_status: &str, latest_event: Option<&str>) -> (r: Status)
    ensures
        r == classified(
            api_status@,
            match latest_event {
                Some(t) => Some(t@),
                None => None,
            },
        ),
{
    if same_text(api_status, "delivered") {
        return Status::Delivered;
    }
    if same_text(api_status, "arrived") {
        return Status::OutForDelivery;
    }
    if same_text(api_status, "transit") || same_text(api_status, "pickup") {
        return Status::InTransit;
    }
    let text = match latest_event {
        Some(t) => to_ascii_lower(t),
        None => return Status::Unknown,
    };
    let t = text.as_str();
    if contains_text(t, "delivered") {
        Status::Delivered
    } else if contains_text(t, "out for delivery") || contains_text(t, "with courier")
        || contains_text(t, "with delivery courier") {
        Status::OutForDelivery
    } else if contains_text(t, "customs") || contains_text(t, "return") || contains_text(
        t,
        "exception",
    ) || contains_text(t, "failed") || contains_text(t, "unsuccessful") || contains_text(
        t,
        "refused",
    ) || contains_text(t, "damaged") || contains_text(t, "lost") {
        Status::Exception
    } else if contains_text(t, "pending") || contains_text(t, "waiting") || contains_text(
        t,
        "label created",
    ) || contains_text(t, "shipment information received") || contains_text(t, "pre-advice") {
        Status::Pending
    } else if contains_text(t, "departed") || contains_text(t, "arrived") || contains_text(
        t,
        "in transit",
    ) || contains_text(t, "processed") || contains_text(t, "accepted") || contains_text(t, "posted")
        || contains_text(t, "received") || contains_text(t, "dispatched") || contains_text(
        t,
        "handed",
    ) || contains_text(t, "sorting") || contains_text(t, "left") {
        Status::InTransit
    } else {
        Status::Unknown
    }
}

/// The text of an event cannot overrule a documented status value.
pub proof fn law_documented_status_is_authoritative(
    api_status: Seq<char>,
    a: Option<Seq<char>>,
    b: Option<Seq<char>>,
)
    requires
        status_of_api(api_status) is Some,
    ensures
        classified(api_status, a) == classified(api_status, b),
{
}

/// The keywords of an event are read without regard to ASCII case.
pub proof fn law_keywords_ignore_case(api_status: Seq<char>, a: Seq<char>, b: Seq<char>)
    requires
        ascii_lower(a) == ascii_lower(b),
    ensures
        classified(api_status, Some(a)) == classified(api_status, Some(b)),
{
}

} // verus!
