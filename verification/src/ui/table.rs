//! The table of the parcels.
use vstd::prelude::*;

use crate::app::{App, AppModel};
use crate::clock::{elapsed, Moment, TimeSpan, Timestamp};
use crate::provider::{EventModel, Status, TrackEvent, Tracking, TrackingModel};
use crate::store::{ParcelState, ParcelStateModel};
use crate::text::{concat2, same_text};
use crate::ui::theme::{
    carrier_color, color_of_carrier, colored, raw, styled, Color, Span, SpanModel, Style, ACCENT,
    CARRIER, DIM,
};
use crate::ui::{
    age_color, color_of_age, color_of_status, humanize, pill, span_text, status_color, status_pill,
};

verus! {

/// What is shown where there are no parcels.
pub const EMPTY_HINT: &'static str = "no parcels \u{2014} press a to add a tracking number";

/// The title of the frame.
pub const TITLE: &'static str = " parcels ";

/// The titles of the columns.
pub open spec fn titles() -> Seq<Seq<char>> {
    seq![
        "LABEL"@,
        "NUMBER"@,
        "CARRIER"@,
        "STATUS"@,
        "LAST EVENT"@,
        "AGE"@,
        "NEXT"@,
    ]
}

/// The titles of the columns.
pub fn column_titles() -> (r: Vec<String>)
    ensures
        r.deep_view() == titles(),
{
    let mut r: Vec<String> = Vec::new();
    r.push("LABEL".to_owned());
    r.push("NUMBER".to_owned());
    r.push("CARRIER".to_owned());
    r.push("STATUS".to_owned());
    r.push("LAST EVENT".to_owned());
    r.push("AGE".to_owned());
    r.push("NEXT".to_owned());
    assert(r.deep_view() =~= titles());
    r
}

/// The frame of the spinner at a tick.
pub open spec fn spinner(tick: int) -> Seq<char> {
    if tick % 4 == 0 {
        "|"@
    } else if tick % 4 == 1 {
        "/"@
    } else if tick % 4 == 2 {
        "-"@
    } else {
        "\\"@
    }
}

/// The frame of the spinner at a tick.
pub fn spinner_frame(tick: usize) -> (r: &'static str)
    ensures
        r@ == spinner(tick as int),
{
    match tick % 4 {
        0 => "|",
        1 => "/",
        2 => "-",
        _ => "\\",
    }
}

/// When a parcel is polled next, as it is shown.
#[derive(Debug)]
pub enum NextCell {
    /// In words.
    Text(Span),
    /// What remains until then, and that in words: it is shown behind a bar
    /// that fills up.
    Countdown { remaining: TimeSpan, text: String },
}

/// The value of a [`NextCell`].
pub enum NextModel {
    Text(SpanModel),
    Countdown { remaining: int, text: Seq<char> },
}

impl DeepView for NextCell {
    type V = NextModel;

    open spec fn deep_view(&self) -> NextModel {
        match self {
            NextCell::Text(s) => NextModel::Text(s.deep_view()),
            NextCell::Countdown { remaining, text } => NextModel::Countdown {
                remaining: remaining@,
                text: text@,
            },
        }
    }
}

/// A row of the table.
#[derive(Debug)]
pub struct TableRow {
    pub label: Span,
    pub number: Span,
    pub carrier: Span,
    pub status: Span,
    pub last_event: Span,
    pub age: Span,
    pub next: NextCell,
    /// The row has the background of every other row.
    pub zebra: bool,
}

/// The value of a [`TableRow`].
pub struct RowModel {
    pub label: SpanModel,
    pub number: SpanModel,
    pub carrier: SpanModel,
    pub status: SpanModel,
    pub last_event: SpanModel,
    pub age: SpanModel,
    pub next: NextModel,
    pub zebra: bool,
}

impl DeepView for TableRow {
    type V = RowModel;

    open spec fn deep_view(&self) -> RowModel {
        RowModel {
            label: self.label.deep_view(),
            number: self.number.deep_view(),
            carrier: self.carrier.deep_view(),
            status: self.status.deep_view(),
            last_event: self.last_event.deep_view(),
            age: self.age.deep_view(),
            next: self.next.deep_view(),
            zebra: self.zebra,
        }
    }
}

impl AppModel {
    /// What is known of the parcel `number`, if anything is.
    pub open spec fn state_of(self, number: Seq<char>) -> Option<ParcelStateModel> {
        if self.cache.by_number.contains_key(number) {
            Some(self.cache.by_number[number])
        } else {
            None
        }
    }

    /// The last tracking of the parcel `number`, if there is one.
    pub open spec fn tracking_of(self, number: Seq<char>) -> Option<TrackingModel> {
        match self.state_of(number) {
            Some(s) => s.tracking,
            None => None,
        }
    }
}

/// The status to show: unknown where there is no tracking.
pub open spec fn shown_status(tracking: Option<TrackingModel>) -> Status {
    match tracking {
        Some(t) => t.status,
        None => Status::Unknown,
    }
}

/// The newest event of a tracking, if there is one.
pub open spec fn newest(tracking: Option<TrackingModel>) -> Option<EventModel> {
    match tracking {
        Some(t) if t.events.len() > 0 => Some(t.events[0]),
        _ => None,
    }
}

/// The selected parcel's status, as it is shown.
pub open spec fn status_of_selected(app: AppModel) -> Status {
    match app.selected_number() {
        Some(n) => shown_status(app.tracking_of(n)),
        None => Status::Unknown,
    }
}

/// The color of the frame: that of the selected parcel's status.
pub open spec fn frame_color(app: AppModel) -> Color {
    color_of_status(status_of_selected(app))
}

/// When the parcel `number` is polled next, as it is shown.
pub open spec fn next_cell(app: AppModel, number: Seq<char>, now: Moment, tick: int) -> NextModel {
    if app.polling == Some(number) {
        NextModel::Text(styled(spinner(tick) + " polling"@, colored(Color::Yellow)))
    } else if shown_status(app.tracking_of(number)) == Status::Delivered {
        NextModel::Text(styled("done"@, colored(Color::Green)))
    } else {
        match app.state_of(number) {
            Some(s) => NextModel::Countdown {
                remaining: elapsed(s.next_poll, now),
                text: span_text(elapsed(s.next_poll, now)),
            },
            None => NextModel::Text(raw("now"@)),
        }
    }
}

/// The status of a parcel as it is shown: as long as there is no tracking, the
/// word "error" where a poll has failed, and an ellipsis where none has.
pub open spec fn status_cell(state: Option<ParcelStateModel>) -> SpanModel {
    match state {
        Some(s) => match s.tracking {
            Some(t) => pill(t.status),
            None => if s.last_error is Some {
                styled("error"@, colored(Color::Red))
            } else {
                styled("\u{2026}"@, colored(DIM))
            },
        },
        None => styled("\u{2026}"@, colored(DIM)),
    }
}

/// How old the newest event is, as it is shown.
pub open spec fn age_cell(event: Option<EventModel>, now: Moment) -> SpanModel {
    match event {
        Some(e) => match e.time {
            Some(t) => styled(
                span_text(elapsed(now, t)),
                colored(color_of_age(elapsed(now, t))),
            ),
            None => raw(""@),
        },
        None => raw(""@),
    }
}

/// The carrier as it is shown.
pub open spec fn carrier_cell(tracking: Option<TrackingModel>) -> SpanModel {
    let name = match tracking {
        Some(t) => match t.carrier {
            Some(c) => c,
            None => ""@,
        },
        None => ""@,
    };
    styled(
        name,
        colored(
            if name.len() == 0 {
                CARRIER
            } else {
                color_of_carrier(name)
            },
        ),
    )
}

/// The row of the parcel at the position `i` of the list.
pub open spec fn table_row(app: AppModel, i: int, now: Moment, tick: int) -> RowModel {
    let parcel = app.parcels.parcels[i];
    let state = app.state_of(parcel.number);
    let tracking = app.tracking_of(parcel.number);
    RowModel {
        label: styled(
            match parcel.label {
                Some(l) => l,
                None => ""@,
            },
            colored(ACCENT),
        ),
        number: styled(parcel.number, Style { bold: true, ..colored(Color::White) }),
        carrier: carrier_cell(tracking),
        status: status_cell(state),
        last_event: raw(
            match newest(tracking) {
                Some(e) => e.display_text(),
                None => ""@,
            },
        ),
        age: age_cell(newest(tracking), now),
        next: next_cell(app, parcel.number, now, tick),
        zebra: i % 2 == 1 && i != app.selected,
    }
}

/// The rows of the table.
pub open spec fn table(app: AppModel, now: Moment, tick: int) -> Seq<RowModel> {
    Seq::new(app.parcels.parcels.len(), |i: int| table_row(app, i, now, tick))
}

/// The selected parcel's status, as it is shown.
pub fn selected_status(app: &App) -> (r: Status)
    ensures
        r == status_of_selected(app.deep_view()),
{
    if let Some(p) = app.selected_parcel() {
        assert(app.deep_view().parcels.parcels[app.selected as int] == p.deep_view());
        if let Some(s) = app.state_for(&p.number) {
            if let Some(t) = &s.tracking {
                return t.status;
            }
        }
    }
    Status::Unknown
}

/// The color of the frame: that of the selected parcel's status.
pub fn selected_color(app: &App) -> (r: Color)
    ensures
        r == frame_color(app.deep_view()),
{
    status_color(selected_status(app))
}

/// Whether the parcel `number` is being polled.
pub fn is_polling(app: &App, number: &str) -> (r: bool)
    ensures
        r == (app.deep_view().polling == Some(number@)),
{
    match &app.polling {
        Some(p) => same_text(p, number),
        None => false,
    }
}

/// When the parcel `number` is polled next, as it is shown.
fn build_next(app: &App, number: &str, now: Timestamp, tick: usize) -> (r: NextCell)
    ensures
        r.deep_view() == next_cell(app.deep_view(), number@, now@, tick as int),
{
    if is_polling(app, number) {
        return NextCell::Text(
            Span::styled(concat2(spinner_frame(tick), " polling"), Style::fg(Color::Yellow)),
        );
    }
    match app.state_for(number) {
        Some(s) => {
            let delivered = match &s.tracking {
                Some(t) => t.status == Status::Delivered,
                None => false,
            };
            if delivered {
                NextCell::Text(Span::styled("done".to_owned(), Style::fg(Color::Green)))
            } else {
                let remaining = s.next_poll.since(&now);
                NextCell::Countdown { remaining, text: humanize(remaining) }
            }
        },
        None => NextCell::Text(Span::raw("now".to_owned())),
    }
}

/// The status of a parcel as it is shown.
fn build_status(state: Option<&ParcelState>) -> (r: Span)
    ensures
        r.deep_view() == status_cell(
            match state {
                Some(s) => Some(s.deep_view()),
                None => None,
            },
        ),
{
    match state {
        Some(s) => match &s.tracking {
            Some(t) => status_pill(t.status),
            None => if s.last_error.is_some() {
                Span::styled("error".to_owned(), Style::fg(Color::Red))
            } else {
                Span::styled("\u{2026}".to_owned(), Style::fg(DIM))
            },
        },
        None => Span::styled("\u{2026}".to_owned(), Style::fg(DIM)),
    }
}

/// How old an event is, as it is shown.
fn build_age(event: Option<&TrackEvent>, now: Timestamp) -> (r: Span)
    ensures
        r.deep_view() == age_cell(
            match event {
                Some(e) => Some(e.deep_view()),
                None => None,
            },
            now@,
        ),
{
    match event {
        Some(e) => match &e.time {
            Some(t) => {
                let age = now.since(t);
                Span::styled(humanize(age), Style::fg(age_color(age)))
            },
            None => Span::raw("".to_owned()),
        },
        None => Span::raw("".to_owned()),
    }
}

/// The carrier as it is shown.
fn build_carrier(tracking: Option<&Tracking>) -> (r: Span)
    ensures
        r.deep_view() == carrier_cell(
            match tracking {
                Some(t) => Some(t.deep_view()),
                None => None,
            },
        ),
{
    let name = match tracking {
        Some(t) => match &t.carrier {
            Some(c) => c.clone(),
            None => "".to_owned(),
        },
        None => "".to_owned(),
    };
    let color = if name.as_str().is_empty() {
        CARRIER
    } else {
        carrier_color(&name)
    };
    Span::styled(name, Style::fg(color))
}

/// The row of the parcel at the position `i` of the list.
fn build_row(app: &App, i: usize, now: Timestamp, tick: usize) -> (r: TableRow)
    requires
        i < app.parcels.parcels.len(),
    ensures
        r.deep_view() == table_row(app.deep_view(), i as int, now@, tick as int),
{
    let parcel = &app.parcels.parcels[i];
    assert(app.deep_view().parcels.parcels[i as int] == parcel.deep_view());
    let state = app.state_for(&parcel.number);
    let tracking = match state {
        Some(s) => match &s.tracking {
            Some(t) => Some(t),
            None => None,
        },
        None => None,
    };
    let latest = match tracking {
        Some(t) => if t.events.len() > 0 {
            assert(t.events.deep_view()[0] == t.events[0].deep_view());
            Some(&t.events[0])
        } else {
            None
        },
        None => None,
    };
    let label = match &parcel.label {
        Some(l) => l.clone(),
        None => "".to_owned(),
    };
    let text = match latest {
        Some(e) => e.display_text().to_owned(),
        None => "".to_owned(),
    };
    TableRow {
        label: Span::styled(label, Style::fg(ACCENT)),
        number: Span::styled(parcel.number.clone(), Style::fg(Color::White).bold()),
        carrier: build_carrier(tracking),
        status: build_status(state),
        last_event: Span::raw(text),
        age: build_age(latest, now),
        next: build_next(app, &parcel.number, now, tick),
        zebra: i % 2 == 1 && i != app.selected,
    }
}

/// The rows of the table.
pub fn table_rows(app: &App, now: Timestamp, tick: usize) -> (r: Vec<TableRow>)
    ensures
        r.deep_view() == table(app.deep_view(), now@, tick as int),
{
    let mut r: Vec<TableRow> = Vec::new();
    let mut i: usize = 0;
    while i < app.parcels.parcels.len()
        invariant
            i <= app.parcels.parcels.len(),
            r.len() == i,
            forall|k: int|
                0 <= k < i ==> (#[trigger] r[k]).deep_view() == table_row(
                    app.deep_view(),
                    k,
                    now@,
                    tick as int,
                ),
        decreases app.parcels.parcels.len() - i,
    {
        r.push(build_row(app, i, now, tick));
        i += 1;
    }
    assert(r.deep_view() =~= table(app.deep_view(), now@, tick as int));
    r
}

/// The table has a row for each parcel, in the order of the list; a delivered
/// parcel that is not being polled is done, and no selected row has the
/// background of every other row.
pub proof fn law_table_lists_every_parcel(app: AppModel, now: Moment, tick: int, i: int)
    requires
        0 <= i < app.parcels.parcels.len(),
    ensures
        table(app, now, tick).len() == app.parcels.parcels.len(),
        table(app, now, tick)[i].number.content == app.parcels.parcels[i].number,
        i == app.selected ==> !table(app, now, tick)[i].zebra,
        ({
            let n = app.parcels.parcels[i].number;
            app.polling != Some(n) && shown_status(app.tracking_of(n)) == Status::Delivered
                ==> table(app, now, tick)[i].next == NextModel::Text(
                styled("done"@, colored(Color::Green)),
            )
        }),
{
}

} // verus!
