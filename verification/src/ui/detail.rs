//! One parcel in full: the summary card, the journey and the timeline.
use vstd::prelude::*;

use crate::app::{App, AppModel};
use crate::clock::{elapsed, minute_text, Moment, Timestamp};
use crate::journey::{
    first_visits, is_delivered, journey_stops, stops_of, tracked_places, Stop, StopModel,
};
use crate::numerals::{decimal, to_decimal};
use crate::provider::{EventModel, Status, TrackEvent, Tracking, TrackingModel};
use crate::store::{Parcel, ParcelModel, ParcelState, ParcelStateModel};
use crate::text::{concat2, concat3, pad_right, padded, repeat_char, repeated, same_text};
use crate::ui::table::is_polling;
use crate::ui::theme::{
    carrier_color, color_of_carrier, colored, plain, raw, styled, Color, Line, Span, SpanModel,
    Style, ACCENT, DIM,
};
use crate::ui::{
    age_color, color_of_age, color_of_status, humanize, pill, span_text, status_color, status_pill,
};

verus! {

/// The title of the summary card.
pub const CARD_TITLE: &'static str = " summary ";

/// The narrowest area that has room for the map.
pub const MAP_MIN_WIDTH: u16 = 100;

/// The rows of the journey strip.
pub const STRIP_HEIGHT: u16 = 3;

// ---------------------------------------------------------------------------
// Frame
// ---------------------------------------------------------------------------
/// The title of the view: the parcel's label, or else its number.
pub open spec fn title(parcel: ParcelModel) -> Seq<char> {
    " "@ + match parcel.label {
        Some(l) => l,
        None => parcel.number,
    } + " "@
}

/// The title of the view: the parcel's label, or else its number.
pub fn detail_title(parcel: &Parcel) -> (r: String)
    ensures
        r@ == title(parcel.deep_view()),
{
    match &parcel.label {
        Some(l) => concat3(" ", l, " "),
        None => concat3(" ", &parcel.number, " "),
    }
}

/// The map is shown in an area of `width` columns.
pub open spec fn shows_map(app: AppModel, width: int) -> bool {
    app.show_map && width >= MAP_MIN_WIDTH
}

/// Whether the map is shown in an area of `width` columns.
pub fn map_is_shown(app: &App, width: u16) -> (r: bool)
    ensures
        r == (app.deep_view().show_map && width >= MAP_MIN_WIDTH),
        r == shows_map(app.deep_view(), width as int),
{
    app.show_map && width >= MAP_MIN_WIDTH
}

/// The height of the card for `rows` rows in an area of `height` rows: it
/// leaves six rows to the rest, but never has less than three. The rows are
/// counted in sixteen bits.
pub open spec fn card_height(rows: int, height: int) -> int {
    let room = if height - 6 > 3 {
        height - 6
    } else {
        3
    };
    let wanted = rows % 0x1_0000 + 2;
    if wanted < room {
        wanted
    } else {
        room
    }
}

/// The height of the card for `rows` rows in an area of `height` rows.
pub fn summary_height(rows: usize, height: u16) -> (r: u16)
    requires
        rows % 0x1_0000 + 2 <= u16::MAX,
    ensures
        r == card_height(rows as int, height as int),
{
    let room: u16 = if height > 9 {
        height - 6
    } else {
        3
    };
    let wanted: u16 = (rows % 0x1_0000) as u16 + 2;
    if wanted < room {
        wanted
    } else {
        room
    }
}

/// The stops of the parcel `number`.
pub open spec fn detail_stops(app: AppModel, number: Seq<char>) -> Seq<StopModel> {
    let tracking = app.tracking_of(number);
    stops_of(
        first_visits(tracked_places(tracking)),
        is_delivered(tracking),
        app.parcels.home,
        app.cache.geo,
    )
}

/// The tracking in what is known of a parcel.
fn tracking_in(state: Option<&ParcelState>) -> (r: Option<&Tracking>)
    ensures
        match state {
            Some(s) => match r {
                Some(t) => s.tracking == Some(*t),
                None => s.tracking is None,
            },
            None => r is None,
        },
{
    match state {
        Some(s) => match &s.tracking {
            Some(t) => Some(t),
            None => None,
        },
        None => None,
    }
}

/// The stops of the parcel `number`.
pub fn stops_for(app: &App, number: &str) -> (r: Vec<Stop>)
    ensures
        r.deep_view() == detail_stops(app.deep_view(), number@),
{
    let tracking = tracking_in(app.state_for(number));
    let home = match &app.parcels.home {
        Some(h) => Some(h.as_str()),
        None => None,
    };
    journey_stops(tracking, home, &app.cache.geo)
}

// ---------------------------------------------------------------------------
// Summary card
// ---------------------------------------------------------------------------
/// A row of the card: its name and its value.
pub type RowText = (Seq<char>, SpanModel);

/// When the parcel was last heard of.
pub open spec fn update_text(n: int) -> Seq<char> {
    if span_text(n) == "now"@ {
        "just now"@
    } else {
        span_text(n) + " ago"@
    }
}

/// The rows of what the tracking says: the status, what else the site reports,
/// and when it was asked.
pub open spec fn tracking_rows(t: TrackingModel, now: Moment) -> Seq<RowText> {
    seq![("Status"@, pill(t.status))] + Seq::new(
        t.attributes.len(),
        |i: int| (t.attributes[i].0, raw(t.attributes[i].1)),
    ) + seq![("Last update"@, raw(update_text(elapsed(now, t.fetched_at))))]
}

/// When the parcel is polled next.
pub open spec fn poll_text(
    polling: bool,
    state: ParcelStateModel,
    now: Moment,
) -> Seq<char> {
    if polling {
        "polling"@
    } else if is_delivered(state.tracking) {
        "done"@
    } else {
        span_text(elapsed(state.next_poll, now))
    }
}

/// The rows of the card. What is not known has none.
pub open spec fn card_rows(app: AppModel, parcel: ParcelModel, now: Moment) -> Seq<RowText> {
    let state = app.state_of(parcel.number);
    let tracking = app.tracking_of(parcel.number);
    let number = seq![("Number"@, raw(parcel.number))];
    let label = match parcel.label {
        Some(l) => seq![("Label"@, raw(l))],
        None => Seq::empty(),
    };
    let carrier = match tracking {
        Some(t) => match t.carrier {
            Some(c) => seq![("Carrier"@, styled(c, colored(color_of_carrier(c))))],
            None => Seq::empty(),
        },
        None => Seq::empty(),
    };
    let reported = match tracking {
        Some(t) => tracking_rows(t, now),
        None => Seq::empty(),
    };
    let next = match state {
        Some(s) => seq![
            ("Next poll"@, raw(poll_text(app.polling == Some(parcel.number), s, now))),
        ],
        None => Seq::empty(),
    };
    let link = match tracking {
        Some(t) => match t.tracking_url {
            Some(u) => seq![("Tracking link"@, styled(u, colored(DIM)))],
            None => Seq::empty(),
        },
        None => Seq::empty(),
    };
    number + label + carrier + reported + next + link
}

/// The length of the longest name.
pub open spec fn widest_name(rows: Seq<RowText>) -> nat
    decreases rows.len(),
{
    if rows.len() == 0 {
        0
    } else {
        let before = widest_name(rows.drop_last());
        let len = rows.last().0.len();
        if len > before {
            len
        } else {
            before
        }
    }
}

/// The card: the names of its rows dimmed and as wide as the longest, so that
/// the values line up.
pub open spec fn card(rows: Seq<RowText>) -> Seq<Seq<SpanModel>> {
    Seq::new(
        rows.len(),
        |i: int|
            seq![
                styled(padded(rows[i].0, widest_name(rows) as int) + "  "@, colored(DIM)),
                rows[i].1,
            ],
    )
}

/// Puts a row behind the others.
fn push_row(rows: &mut Vec<(String, Span)>, name: &str, value: Span)
    ensures
        final(rows).deep_view() == old(rows).deep_view().push((name@, value.deep_view())),
{
    let ghost before = rows.deep_view();
    let ghost vm = value.deep_view();
    rows.push((name.to_owned(), value));
    assert(rows.deep_view() =~= before.push((name@, vm)));
}

/// The rows of what the tracking says.
fn push_tracking(rows: &mut Vec<(String, Span)>, t: &Tracking, now: Timestamp)
    ensures
        final(rows).deep_view() == old(rows).deep_view() + tracking_rows(t.deep_view(), now@),
{
    let ghost before = rows.deep_view();
    let ghost tm = t.deep_view();
    push_row(rows, "Status", status_pill(t.status));
    let ghost led = rows.deep_view();
    let ghost middle = Seq::new(
        tm.attributes.len(),
        |i: int| (tm.attributes[i].0, raw(tm.attributes[i].1)),
    );
    let mut i: usize = 0;
    assert(led + middle.take(0) =~= led);
    while i < t.attributes.len()
        invariant
            i <= t.attributes.len(),
            tm == t.deep_view(),
            middle == Seq::new(
                tm.attributes.len(),
                |i: int| (tm.attributes[i].0, raw(tm.attributes[i].1)),
            ),
            rows.deep_view() == led + middle.take(i as int),
        decreases t.attributes.len() - i,
    {
        proof {
            assert(tm.attributes[i as int] == t.attributes[i as int].deep_view());
            assert(middle.take(i + 1) =~= middle.take(i as int).push(middle[i as int]));
            assert(led + middle.take(i + 1) =~= (led + middle.take(i as int)).push(
                middle[i as int],
            ));
        }
        push_row(rows, &t.attributes[i].0, Span::raw(t.attributes[i].1.clone()));
        i += 1;
    }
    assert(middle.take(i as int) =~= middle);
    let age = humanize(now.since(&t.fetched_at));
    let text = if same_text(&age, "now") {
        "just now".to_owned()
    } else {
        concat2(&age, " ago")
    };
    push_row(rows, "Last update", Span::raw(text));
    assert(rows.deep_view() =~= before + tracking_rows(tm, now@));
}

/// The rows of the card.
pub fn summary_rows(app: &App, parcel: &Parcel, now: Timestamp) -> (r: Vec<(String, Span)>)
    ensures
        r.deep_view() == card_rows(app.deep_view(), parcel.deep_view(), now@),
{
    let state = app.state_for(&parcel.number);
    let tracking = tracking_in(state);
    let mut rows: Vec<(String, Span)> = Vec::new();
    assert(rows.deep_view() =~= Seq::empty());
    push_row(&mut rows, "Number", Span::raw(parcel.number.clone()));
    if let Some(l) = &parcel.label {
        push_row(&mut rows, "Label", Span::raw(l.clone()));
    }
    if let Some(t) = tracking {
        if let Some(c) = &t.carrier {
            push_row(&mut rows, "Carrier", Span::styled(c.clone(), Style::fg(carrier_color(c))));
        }
        push_tracking(&mut rows, t, now);
    }
    if let Some(s) = state {
        let delivered = match tracking {
            Some(t) => t.status == Status::Delivered,
            None => false,
        };
        let text = if is_polling(app, &parcel.number) {
            "polling".to_owned()
        } else if delivered {
            "done".to_owned()
        } else {
            humanize(s.next_poll.since(&now))
        };
        push_row(&mut rows, "Next poll", Span::raw(text));
    }
    if let Some(t) = tracking {
        if let Some(u) = &t.tracking_url {
            push_row(&mut rows, "Tracking link", Span::styled(u.clone(), Style::fg(DIM)));
        }
    }
    assert(rows.deep_view() =~= card_rows(app.deep_view(), parcel.deep_view(), now@));
    rows
}

/// The card: the names of its rows dimmed and as wide as the longest, so that
/// the values line up.
pub fn summary_card(rows: &Vec<(String, Span)>) -> (r: Vec<Line>)
    ensures
        r.deep_view() == card(rows.deep_view()),
{
    let ghost all = rows.deep_view();
    let mut width: usize = 0;
    let mut i: usize = 0;
    while i < rows.len()
        invariant
            i <= rows.len(),
            all == rows.deep_view(),
            width == widest_name(all.take(i as int)),
        decreases rows.len() - i,
    {
        proof {
            assert(all.take(i + 1).drop_last() =~= all.take(i as int));
            assert(all.take(i + 1).last() == rows[i as int].deep_view());
        }
        let len = rows[i].0.as_str().unicode_len();
        if len > width {
            width = len;
        }
        i += 1;
    }
    assert(all.take(i as int) =~= all);
    let mut r: Vec<Line> = Vec::new();
    let mut k: usize = 0;
    while k < rows.len()
        invariant
            k <= rows.len(),
            all == rows.deep_view(),
            width == widest_name(all),
            r.len() == k,
            forall|j: int| 0 <= j < k ==> (#[trigger] r[j]).deep_view() == card(all)[j],
        decreases rows.len() - k,
    {
        assert(all[k as int] == rows[k as int].deep_view());
        let mut spans: Vec<Span> = Vec::new();
        spans.push(Span::styled(concat2(&pad_right(&rows[k].0, width), "  "), Style::fg(DIM)));
        spans.push(Span::styled(rows[k].1.content.clone(), rows[k].1.style));
        let line = Line { spans };
        assert(line.deep_view() =~= card(all)[k as int]);
        r.push(line);
        k += 1;
    }
    assert(r.deep_view() =~= card(all));
    r
}

/// The values of the card line up: the name of each row takes as many columns
/// as that of any other.
pub proof fn law_card_lines_up(rows: Seq<RowText>, i: int, j: int)
    requires
        0 <= i < rows.len(),
        0 <= j < rows.len(),
    ensures
        card(rows)[i][0].content.len() == card(rows)[j][0].content.len(),
{
    lemma_widest(rows, i);
    lemma_widest(rows, j);
}

proof fn lemma_widest(rows: Seq<RowText>, i: int)
    requires
        0 <= i < rows.len(),
    ensures
        rows[i].0.len() <= widest_name(rows),
    decreases rows.len(),
{
    if i < rows.len() - 1 {
        lemma_widest(rows.drop_last(), i);
    }
}

// ---------------------------------------------------------------------------
// Timeline
// ---------------------------------------------------------------------------
/// The title of the timeline of `count` events.
pub open spec fn timeline_title(count: nat) -> Seq<char> {
    " events ("@ + decimal(count) + ") "@
}

/// The number of events of a tracking.
pub open spec fn event_count(tracking: Option<TrackingModel>) -> nat {
    match tracking {
        Some(t) => t.events.len(),
        None => 0,
    }
}

/// The title of the timeline of the parcel `number`.
pub fn events_title(app: &App, number: &str) -> (r: String)
    ensures
        r@ == timeline_title(event_count(app.deep_view().tracking_of(number@))),
{
    let count: usize = match tracking_in(app.state_for(number)) {
        Some(t) => t.events.len(),
        None => 0,
    };
    concat3(" events (", &to_decimal(count as u64), ") ")
}

/// When an event happened, as it is shown: a dash for each character where that
/// is not known.
pub open spec fn when_text(time: Option<Moment>) -> Seq<char> {
    match time {
        Some(t) => minute_text(t),
        None => repeated('\u{2014}', 16),
    }
}

/// The lines of an event that happened at `when`: the newest stands out, and
/// below a translated text stands the original one, unless it is the same.
pub open spec fn event_lines(
    e: EventModel,
    is_newest: bool,
    status: Status,
    when: Seq<char>,
    now: Moment,
) -> Seq<Seq<SpanModel>> {
    let dot = if is_newest {
        styled("\u{25cf} "@, colored(color_of_status(status)))
    } else {
        styled("\u{2502} "@, colored(DIM))
    };
    let when_color = match e.time {
        Some(t) => color_of_age(elapsed(now, t)),
        None => DIM,
    };
    let place = match e.location {
        Some(l) => l,
        None => ""@,
    };
    let first = seq![
        dot,
        styled(when + "  "@, colored(when_color)),
        styled(padded(place, 20) + " "@, colored(ACCENT)),
        styled(e.display_text(), Style { bold: is_newest, ..plain() }),
    ];
    match e.translated {
        Some(t) if t != e.description => seq![
            first,
            seq![
                styled("\u{2502} "@, colored(DIM)),
                styled(e.description, Style { italic: true, ..colored(DIM) }),
            ],
        ],
        _ => seq![first],
    }
}

/// The first event that is shown: scrolling stops at the last one.
pub open spec fn first_shown(scroll: int, count: int) -> int {
    if scroll < count - 1 {
        scroll
    } else if count > 0 {
        count - 1
    } else {
        0
    }
}

/// The timeline of a tracking that has events: each event from the first that
/// is shown on.
pub open spec fn events_shown(t: TrackingModel, scroll: int, now: Moment) -> Seq<
    Seq<Seq<SpanModel>>,
> {
    let from = first_shown(scroll, t.events.len() as int);
    Seq::new(
        (t.events.len() - from) as nat,
        |k: int|
            event_lines(
                t.events[from + k],
                from + k == 0,
                t.status,
                when_text(t.events[from + k].time),
                now,
            ),
    )
}

/// What the timeline shows.
#[derive(Debug)]
pub enum Timeline {
    /// There are no events: why not.
    Notice(Vec<Line>),
    /// The lines of each event.
    Events(Vec<Vec<Line>>),
}

/// The value of a [`Timeline`].
pub enum TimelineModel {
    Notice(Seq<Seq<SpanModel>>),
    Events(Seq<Seq<Seq<SpanModel>>>),
}

impl DeepView for Timeline {
    type V = TimelineModel;

    open spec fn deep_view(&self) -> TimelineModel {
        match self {
            Timeline::Notice(l) => TimelineModel::Notice(l.deep_view()),
            Timeline::Events(e) => TimelineModel::Events(e.deep_view()),
        }
    }
}

/// What the timeline of the parcel `number` shows.
pub open spec fn timeline(app: AppModel, number: Seq<char>, scroll: int, now: Moment) -> TimelineModel {
    match app.tracking_of(number) {
        Some(t) => if t.events.len() == 0 {
            TimelineModel::Notice(seq![seq![raw("no events reported"@)]])
        } else {
            TimelineModel::Events(events_shown(t, scroll, now))
        },
        None => {
            let lines = seq![seq![raw("no data yet"@)]];
            match app.state_of(number) {
                Some(s) => match s.last_error {
                    Some(e) => TimelineModel::Notice(
                        lines.push(seq![styled("last error: "@ + e, colored(Color::Red))]),
                    ),
                    None => TimelineModel::Notice(lines),
                },
                None => TimelineModel::Notice(lines),
            }
        },
    }
}

/// A line of one piece of text.
fn line_of(span: Span) -> (r: Line)
    ensures
        r.deep_view() == seq![span.deep_view()],
{
    let ghost sm = span.deep_view();
    let mut spans: Vec<Span> = Vec::new();
    spans.push(span);
    let r = Line { spans };
    assert(r.deep_view() =~= seq![sm]);
    r
}

/// The lines of an event that happened at `when`.
pub fn build_event_lines(
    e: &TrackEvent,
    is_newest: bool,
    status: Status,
    when: &str,
    now: Timestamp,
) -> (r: Vec<Line>)
    ensures
        r.deep_view() == event_lines(e.deep_view(), is_newest, status, when@, now@),
{
    let dot = if is_newest {
        Span::styled("\u{25cf} ".to_owned(), Style::fg(status_color(status)))
    } else {
        Span::styled("\u{2502} ".to_owned(), Style::fg(DIM))
    };
    let when_color = match &e.time {
        Some(t) => age_color(now.since(t)),
        None => DIM,
    };
    let place = match &e.location {
        Some(l) => pad_right(l, 20),
        None => pad_right("", 20),
    };
    let text_style = if is_newest {
        Style::plain().bold()
    } else {
        Style::plain()
    };
    let mut spans: Vec<Span> = Vec::new();
    spans.push(dot);
    spans.push(Span::styled(concat2(when, "  "), Style::fg(when_color)));
    spans.push(Span::styled(concat2(&place, " "), Style::fg(ACCENT)));
    spans.push(Span::styled(e.display_text().to_owned(), text_style));
    let first = Line { spans };
    let ghost m = event_lines(e.deep_view(), is_newest, status, when@, now@);
    assert(first.deep_view() =~= m[0]);
    let mut r: Vec<Line> = Vec::new();
    r.push(first);
    if let Some(t) = &e.translated {
        if !same_text(t, &e.description) {
            let mut below: Vec<Span> = Vec::new();
            below.push(Span::styled("\u{2502} ".to_owned(), Style::fg(DIM)));
            below.push(Span::styled(e.description.clone(), Style::fg(DIM).italic()));
            let line = Line { spans: below };
            assert(line.deep_view() =~= m[1]);
            r.push(line);
        }
    }
    assert(r.deep_view() =~= m);
    r
}

/// The timeline of a tracking that has events.
fn build_events(t: &Tracking, scroll: u16, now: Timestamp) -> (r: Vec<Vec<Line>>)
    requires
        t.events.len() > 0,
    ensures
        r.deep_view() == events_shown(t.deep_view(), scroll as int, now@),
{
    let ghost tm = t.deep_view();
    let count = t.events.len();
    let from: usize = if (scroll as usize) < count - 1 {
        scroll as usize
    } else {
        count - 1
    };
    let ghost goal = events_shown(tm, scroll as int, now@);
    let mut r: Vec<Vec<Line>> = Vec::new();
    let mut i: usize = from;
    while i < count
        invariant
            from <= i <= count,
            count == t.events.len(),
            tm == t.deep_view(),
            goal == events_shown(tm, scroll as int, now@),
            from == first_shown(scroll as int, count as int),
            r.len() == i - from,
            forall|k: int| 0 <= k < i - from ==> (#[trigger] r[k]).deep_view() == goal[k],
        decreases count - i,
    {
        assert(tm.events[i as int] == t.events[i as int].deep_view());
        let when = match &t.events[i].time {
            Some(at) => at.format_minute(),
            None => repeat_char('\u{2014}', 16),
        };
        let lines = build_event_lines(&t.events[i], i == 0, t.status, &when, now);
        assert(lines.deep_view() == goal[i - from]);
        r.push(lines);
        i += 1;
    }
    assert(r.deep_view() =~= goal);
    r
}

/// What the timeline of the parcel `number` shows.
pub fn build_timeline(app: &App, number: &str, scroll: u16, now: Timestamp) -> (r: Timeline)
    ensures
        r.deep_view() == timeline(app.deep_view(), number@, scroll as int, now@),
{
    let state = app.state_for(number);
    let ghost m = timeline(app.deep_view(), number@, scroll as int, now@);
    match tracking_in(state) {
        Some(t) => if t.events.len() == 0 {
            let mut lines: Vec<Line> = Vec::new();
            lines.push(line_of(Span::raw("no events reported".to_owned())));
            assert(lines.deep_view() =~= m->Notice_0);
            Timeline::Notice(lines)
        } else {
            Timeline::Events(build_events(t, scroll, now))
        },
        None => {
            let mut lines: Vec<Line> = Vec::new();
            lines.push(line_of(Span::raw("no data yet".to_owned())));
            if let Some(s) = state {
                if let Some(e) = &s.last_error {
                    lines.push(
                        line_of(Span::styled(concat2("last error: ", e), Style::fg(Color::Red))),
                    );
                }
            }
            assert(lines.deep_view() =~= m->Notice_0);
            Timeline::Notice(lines)
        },
    }
}

/// However far the timeline is scrolled, at least one event is shown, and the
/// last one always is.
pub proof fn law_last_event_is_always_shown(t: TrackingModel, scroll: int, now: Moment)
    requires
        0 <= scroll,
        t.events.len() > 0,
    ensures
        ({
            let last = t.events.len() - 1;
            let shown = events_shown(t, scroll, now);
            &&& shown.len() > 0
            &&& shown.last() == event_lines(
                t.events[last],
                last == 0,
                t.status,
                when_text(t.events[last].time),
                now,
            )
        }),
{
}

/// An event whose text needed no translation has one line, and one that was
/// translated has two: the translation above the original text.
pub proof fn law_original_text_is_shown_once(
    e: EventModel,
    is_newest: bool,
    status: Status,
    when: Seq<char>,
    now: Moment,
)
    ensures
        ({
            let lines = event_lines(e, is_newest, status, when, now);
            &&& lines[0][3].content == e.display_text()
            &&& e.translated is None || e.translated == Some(e.description) ==> lines.len() == 1
            &&& e.translated is Some && e.translated != Some(e.description) ==> lines.len() == 2
                && lines[1][1].content == e.description
        }),
{
}

} // verus!
