//! What the dashboard shows.
use vstd::prelude::*;

use crate::app::{AppModel, ModeModel};
use crate::clock::{elapsed, minute_text, Moment};
use crate::journey::{first_visits, stops_of, tracked_places, StopKind, StopModel};
use crate::keys::{line_cursor, line_scroll, line_text, KeyEvent};
use crate::laws::readings::ascends;
use crate::laws::strip::{only_color, unstyled};
use crate::numerals::decimal;
use crate::provider::{status_label, EventModel, Status, TrackingModel};
use crate::store::{ParcelModel, ParcelStateModel};
use crate::text::{padded, truncated};
use crate::ui::detail::{
    card, card_height, card_rows, detail_stops, event_count, event_lines, shows_map, timeline,
    timeline_title, title, widest_name, RowText, TimelineModel,
};
use crate::ui::footer::{editing, footer, hints_line, FooterModel};
use crate::ui::header::{awaits_poll, earliest_poll, header, law_header_shows_the_earliest_poll};
use crate::ui::map::{legs, pins, PinModel};
use crate::ui::table::{frame_color, spinner, status_of_selected, table, titles, NextModel};
use crate::ui::theme::{color_of_carrier, fnv, hint, Color, SpanModel, Style};
use crate::ui::{bar, color_of_age, color_of_status, pill, span_text};

verus! {

/// A text as the terminal has it.
pub open spec fn as_is(content: Seq<char>) -> SpanModel {
    SpanModel { content, style: unstyled() }
}

/// A text in a color.
pub open spec fn in_color(content: Seq<char>, color: Color) -> SpanModel {
    SpanModel { content, style: only_color(color) }
}

/// What is known of the parcel `number`.
pub open spec fn knows(app: AppModel, number: Seq<char>) -> Option<ParcelStateModel> {
    if app.cache.by_number.contains_key(number) {
        Some(app.cache.by_number[number])
    } else {
        None
    }
}

/// The tracking of the parcel `number` that is known.
pub open spec fn has_tracking(app: AppModel, number: Seq<char>, t: TrackingModel) -> bool {
    app.cache.by_number.contains_key(number) && app.cache.by_number[number].tracking == Some(t)
}

/// No tracking of the parcel `number` is known.
pub open spec fn lacks_tracking(app: AppModel, number: Seq<char>) -> bool {
    app.cache.by_number.contains_key(number) ==> app.cache.by_number[number].tracking is None
}

// ---------------------------------------------------------------------------
// Colors
// ---------------------------------------------------------------------------
/// The colors of the statuses, and the pill that a status is shown as: its name,
/// bold and black on its color.
pub proof fn law_statuses_have_their_colors(s: Status)
    ensures
        color_of_status(s) == (match s {
            Status::Pending => Color::Gray,
            Status::InTransit => Color::Blue,
            Status::OutForDelivery => Color::Yellow,
            Status::Delivered => Color::Green,
            Status::Exception => Color::Red,
            Status::Unknown => Color::DarkGray,
        }),
        pill(s) == (SpanModel {
            content: " "@ + status_label(s) + " "@,
            style: Style {
                fg: Some(Color::Black),
                bg: Some(color_of_status(s)),
                bold: true,
                italic: false,
            },
        }),
{
}

/// What is younger than a day is green, what is younger than three days yellow,
/// and anything older red.
pub proof fn law_ages_have_their_colors(n: int)
    ensures
        n < 86_400_000_000_000 ==> color_of_age(n) == Color::Green,
        86_400_000_000_000 <= n < 259_200_000_000_000 ==> color_of_age(n) == Color::Yellow,
        n >= 259_200_000_000_000 ==> color_of_age(n) == Color::Red,
{
}

/// A carrier's color is picked from eight by the remainder of its name's hash.
pub proof fn law_carriers_have_their_colors(name: Seq<char>)
    ensures
        color_of_carrier(name) == (seq![
            Color::Magenta,
            Color::Blue,
            Color::Green,
            Color::Cyan,
            Color::Yellow,
            Color::LightMagenta,
            Color::LightBlue,
            Color::LightGreen,
        ])[fnv(vstd::utf8::encode_utf8(name)) as int % 8],
{
}

/// A bar is full up to where it is filled, and empty behind.
pub proof fn law_bar_is_filled_from_the_left(filled: int, width: int, i: int)
    requires
        0 <= filled,
        0 <= i < width,
    ensures
        bar(filled, width).len() == width,
        bar(filled, width)[i] == (if i < filled {
            '\u{25b0}'
        } else {
            '\u{25b1}'
        }),
{
}

// ---------------------------------------------------------------------------
// The timeline
// ---------------------------------------------------------------------------
/// The timeline shows the events from the one that it is scrolled to, each once,
/// in their order and to the end; scrolled too far it shows the last. Each has
/// the time to the minute, or sixteen dashes, and the newest event of all, and
/// no other, is shown as the newest.
pub proof fn law_timeline_starts_where_it_is_scrolled_to(
    app: AppModel,
    number: Seq<char>,
    t: TrackingModel,
    scroll: int,
    now: Moment,
    k: int,
)
    requires
        has_tracking(app, number, t),
        t.events.len() > 0,
        scroll >= 0,
    ensures
        ({
            let n = t.events.len() as int;
            let shown = timeline(app, number, scroll, now);
            let from = if scroll < n {
                scroll
            } else {
                n - 1
            };
            &&& shown is Events
            &&& shown->Events_0.len() == n - from
            &&& 0 <= k < n - from ==> {
                let e = t.events[from + k];
                let dashes = Seq::new(16, |i: int| '\u{2014}');
                shown->Events_0[k] == event_lines(
                    e,
                    from + k == 0,
                    t.status,
                    if e.time is Some {
                        minute_text(e.time->0)
                    } else {
                        dashes
                    },
                    now,
                )
            }
        }),
{
    assert(crate::text::repeated('\u{2014}', 16) =~= Seq::new(16, |i: int| '\u{2014}'));
}

/// An event is shown by a mark, its time, its place in twenty columns at least
/// and its text: the translation, if there is one. The mark of the newest event
/// is a dot in the color of the status and its text is bold; the mark of the
/// others is a dim line. The color of the time tells its age. Below a translation
/// that differs from it stands the original text, dim and in italics.
pub proof fn law_event_is_told(
    e: EventModel,
    newest: bool,
    status: Status,
    when: Seq<char>,
    now: Moment,
)
    ensures
        ({
            let lines = event_lines(e, newest, status, when, now);
            let text = match e.translated {
                Some(t) => t,
                None => e.description,
            };
            let place = match e.location {
                Some(l) => l,
                None => ""@,
            };
            &&& lines[0] == seq![
                if newest {
                    in_color("\u{25cf} "@, color_of_status(status))
                } else {
                    in_color("\u{2502} "@, Color::DarkGray)
                },
                in_color(
                    when + "  "@,
                    match e.time {
                        Some(t) => color_of_age(elapsed(now, t)),
                        None => Color::DarkGray,
                    },
                ),
                in_color(padded(place, 20) + " "@, Color::Cyan),
                SpanModel {
                    content: text,
                    style: Style { fg: None, bg: None, bold: newest, italic: false },
                },
            ]
            &&& text == e.description ==> lines.len() == 1
            &&& text != e.description ==> lines.len() == 2 && lines[1] == seq![
                in_color("\u{2502} "@, Color::DarkGray),
                SpanModel {
                    content: e.description,
                    style: Style {
                        fg: Some(Color::DarkGray),
                        bg: None,
                        bold: false,
                        italic: true,
                    },
                },
            ]
        }),
{
}

/// Where there are no events, the timeline says that none were reported; where
/// there is no tracking, that there are no data yet, and why the last poll
/// failed. Its title counts the events.
pub proof fn law_empty_timeline_says_why(
    app: AppModel,
    number: Seq<char>,
    t: TrackingModel,
    scroll: int,
    now: Moment,
    count: nat,
)
    ensures
        has_tracking(app, number, t) && t.events.len() == 0 ==> timeline(app, number, scroll, now)
            == TimelineModel::Notice(seq![seq![as_is("no events reported"@)]]),
        lacks_tracking(app, number) && (knows(app, number) matches Some(s)
            && s.last_error is Some) ==> timeline(app, number, scroll, now)
            == TimelineModel::Notice(
            seq![
                seq![as_is("no data yet"@)],
                seq![
                    in_color("last error: "@ + knows(app, number)->0.last_error->0, Color::Red),
                ],
            ],
        ),
        lacks_tracking(app, number) && (knows(app, number) matches Some(s)
            ==> s.last_error is None) ==> timeline(app, number, scroll, now)
            == TimelineModel::Notice(seq![seq![as_is("no data yet"@)]]),
        timeline_title(count) == " events ("@ + decimal(count) + ") "@,
{
    if lacks_tracking(app, number) && (knows(app, number) matches Some(s) && s.last_error is Some) {
        assert(timeline(app, number, scroll, now)->Notice_0 =~= seq![
            seq![as_is("no data yet"@)],
            seq![in_color("last error: "@ + knows(app, number)->0.last_error->0, Color::Red)],
        ]);
    }
}

// ---------------------------------------------------------------------------
// The card
// ---------------------------------------------------------------------------
/// The rows that a tracking has on the card: its status, what the site reports
/// besides, and how long ago it was had.
pub open spec fn reported(t: TrackingModel, now: Moment) -> Seq<RowText> {
    let age = span_text(elapsed(now, t.fetched_at));
    seq![("Status"@, pill(t.status))] + t.attributes.map_values(
        |a: (Seq<char>, Seq<char>)| (a.0, as_is(a.1)),
    ) + seq![
        (
            "Last update"@,
            as_is(
                if age == "now"@ {
                    "just now"@
                } else {
                    age + " ago"@
                },
            ),
        ),
    ]
}

/// The card of a parcel that has a tracking: its number; its label and its
/// carrier, if it has them; what was reported; when it is polled next, or that it
/// is being polled, or that it is done; and the link, if there is one.
pub proof fn law_card_tells_what_is_known(
    app: AppModel,
    parcel: ParcelModel,
    t: TrackingModel,
    now: Moment,
)
    requires
        has_tracking(app, parcel.number, t),
    ensures
        ({
            let s = app.cache.by_number[parcel.number];
            let none = Seq::<RowText>::empty();
            card_rows(app, parcel, now) == seq![("Number"@, as_is(parcel.number))] + (
            match parcel.label {
                Some(l) => seq![("Label"@, as_is(l))],
                None => none,
            }) + (match t.carrier {
                Some(c) => seq![("Carrier"@, in_color(c, color_of_carrier(c)))],
                None => none,
            }) + reported(t, now) + seq![
                (
                    "Next poll"@,
                    as_is(
                        if app.polling == Some(parcel.number) {
                            "polling"@
                        } else if t.status == Status::Delivered {
                            "done"@
                        } else {
                            span_text(elapsed(s.next_poll, now))
                        },
                    ),
                ),
            ] + (match t.tracking_url {
                Some(u) => seq![("Tracking link"@, in_color(u, Color::DarkGray))],
                None => none,
            })
        }),
{
    let attributes = t.attributes.map_values(|a: (Seq<char>, Seq<char>)| (a.0, as_is(a.1)));
    assert(attributes =~= Seq::new(
        t.attributes.len(),
        |i: int| (t.attributes[i].0, crate::ui::theme::raw(t.attributes[i].1)),
    ));
}

/// The card of a parcel without a tracking: its number, its label if it has one,
/// and, if anything is known of it, when it is polled next.
pub proof fn law_card_without_a_tracking(app: AppModel, parcel: ParcelModel, now: Moment)
    requires
        lacks_tracking(app, parcel.number),
    ensures
        ({
            let none = Seq::<RowText>::empty();
            card_rows(app, parcel, now) == seq![("Number"@, as_is(parcel.number))] + (
            match parcel.label {
                Some(l) => seq![("Label"@, as_is(l))],
                None => none,
            }) + (match knows(app, parcel.number) {
                Some(s) => seq![
                    (
                        "Next poll"@,
                        as_is(
                            if app.polling == Some(parcel.number) {
                                "polling"@
                            } else {
                                span_text(elapsed(s.next_poll, now))
                            },
                        ),
                    ),
                ],
                None => none,
            })
        }),
{
    let none = Seq::<RowText>::empty();
    let a = seq![("Number"@, as_is(parcel.number))];
    let b = match parcel.label {
        Some(l) => seq![("Label"@, as_is(l))],
        None => none,
    };
    let c = match knows(app, parcel.number) {
        Some(s) => seq![
            (
                "Next poll"@,
                as_is(
                    if app.polling == Some(parcel.number) {
                        "polling"@
                    } else {
                        span_text(elapsed(s.next_poll, now))
                    },
                ),
            ),
        ],
        None => none,
    };
    assert(a + b + none + none + c + none =~= a + b + c);
}

/// Each row of the card is its name, dim, and its value. The names are filled up
/// with spaces to the length of the longest, and two spaces follow.
pub proof fn law_card_rows_are_names_and_values(rows: Seq<RowText>, i: int, longest: int)
    requires
        0 <= i < rows.len(),
        0 <= longest < rows.len(),
        forall|j: int|
            0 <= j < rows.len() ==> (#[trigger] rows[j]).0.len() <= rows[longest].0.len(),
    ensures
        card(rows).len() == rows.len(),
        card(rows)[i] == seq![
            in_color(
                padded(rows[i].0, rows[longest].0.len() as int) + "  "@,
                Color::DarkGray,
            ),
            rows[i].1,
        ],
{
    lemma_widest_is(rows, longest);
}

proof fn lemma_widest_is(rows: Seq<RowText>, longest: int)
    requires
        0 <= longest < rows.len(),
        forall|j: int|
            0 <= j < rows.len() ==> (#[trigger] rows[j]).0.len() <= rows[longest].0.len(),
    ensures
        widest_name(rows) == rows[longest].0.len(),
{
    lemma_widest_bounds(rows, rows[longest].0.len(), longest);
}

proof fn lemma_widest_bounds(rows: Seq<RowText>, most: nat, at: int)
    requires
        forall|j: int| 0 <= j < rows.len() ==> (#[trigger] rows[j]).0.len() <= most,
    ensures
        widest_name(rows) <= most,
        0 <= at < rows.len() ==> widest_name(rows) >= rows[at].0.len(),
    decreases rows.len(),
{
    if rows.len() > 0 {
        let front = rows.drop_last();
        assert forall|j: int| 0 <= j < front.len() implies (#[trigger] front[j]).0.len()
            <= most by {
            assert(front[j] == rows[j]);
        }
        assert(rows[rows.len() - 1].0.len() <= most);
        lemma_widest_bounds(front, most, at);
        if 0 <= at < front.len() {
            assert(front[at] == rows[at]);
        }
    }
}

/// The card is as high as its rows and its frame, as far as that leaves six rows
/// to the rest, and three rows at least.
pub proof fn law_card_leaves_room(rows: int, height: int)
    requires
        0 <= rows < 65_536,
    ensures
        card_height(rows, height) <= rows + 2,
        rows + 2 <= height - 6 ==> card_height(rows, height) == rows + 2,
        rows + 2 > height - 6 && height > 9 ==> card_height(rows, height) == height - 6,
        height <= 9 && rows >= 1 ==> card_height(rows, height) == 3,
{
}

/// The view is titled by the parcel's label, or else by its number; its stops are
/// those of the tracking that is known, under the home and the places that are.
pub proof fn law_detail_is_about_its_parcel(
    app: AppModel,
    parcel: ParcelModel,
    t: TrackingModel,
)
    ensures
        parcel.label is Some ==> title(parcel) == " "@ + parcel.label->0 + " "@,
        parcel.label is None ==> title(parcel) == " "@ + parcel.number + " "@,
        has_tracking(app, parcel.number, t) ==> detail_stops(app, parcel.number) == stops_of(
            first_visits(tracked_places(Some(t))),
            t.status == Status::Delivered,
            app.parcels.home,
            app.cache.geo,
        ),
        lacks_tracking(app, parcel.number) ==> detail_stops(app, parcel.number) == stops_of(
            Seq::empty(),
            false,
            app.parcels.home,
            app.cache.geo,
        ),
{
}

// ---------------------------------------------------------------------------
// The table
// ---------------------------------------------------------------------------
/// The table has a row for each parcel, in the order of the list, with its label
/// and number; every other row but the selected one has a background.
pub proof fn law_rows_show_their_parcels(app: AppModel, now: Moment, tick: int, i: int)
    requires
        0 <= i < app.parcels.parcels.len(),
    ensures
        ({
            let parcel = app.parcels.parcels[i];
            let row = table(app, now, tick)[i];
            &&& table(app, now, tick).len() == app.parcels.parcels.len()
            &&& row.label == in_color(
                match parcel.label {
                    Some(l) => l,
                    None => ""@,
                },
                Color::Cyan,
            )
            &&& row.number == (SpanModel {
                content: parcel.number,
                style: Style {
                    fg: Some(Color::White),
                    bg: None,
                    bold: true,
                    italic: false,
                },
            })
            &&& row.zebra == (i % 2 == 1 && i != app.selected)
        }),
{
}

/// A row with a tracking shows its carrier in the carrier's color, its status,
/// and of the newest event the text, translated if it is, and its age in the
/// color of the age, if it has a time.
pub proof fn law_rows_show_their_trackings(
    app: AppModel,
    now: Moment,
    tick: int,
    i: int,
    t: TrackingModel,
)
    requires
        0 <= i < app.parcels.parcels.len(),
        has_tracking(app, app.parcels.parcels[i].number, t),
    ensures
        ({
            let row = table(app, now, tick)[i];
            let carrier = match t.carrier {
                Some(c) => c,
                None => ""@,
            };
            &&& carrier.len() > 0 ==> row.carrier == in_color(carrier, color_of_carrier(carrier))
            &&& carrier.len() == 0 ==> row.carrier == in_color(carrier, Color::Magenta)
            &&& row.status == pill(t.status)
            &&& t.events.len() == 0 ==> row.last_event == as_is(""@) && row.age == as_is(""@)
            &&& t.events.len() > 0 ==> {
                let e = t.events[0];
                &&& row.last_event == as_is(
                    match e.translated {
                        Some(text) => text,
                        None => e.description,
                    },
                )
                &&& e.time is None ==> row.age == as_is(""@)
                &&& e.time matches Some(at) ==> row.age == in_color(
                    span_text(elapsed(now, at)),
                    color_of_age(elapsed(now, at)),
                )
            }
        }),
{
}

/// A row without a tracking shows no carrier and no event; its status is an
/// error where the last poll failed, and otherwise open.
pub proof fn law_rows_without_trackings(app: AppModel, now: Moment, tick: int, i: int)
    requires
        0 <= i < app.parcels.parcels.len(),
        lacks_tracking(app, app.parcels.parcels[i].number),
    ensures
        ({
            let row = table(app, now, tick)[i];
            let failed = knows(app, app.parcels.parcels[i].number) matches Some(s)
                && s.last_error is Some;
            &&& row.carrier == in_color(""@, Color::Magenta)
            &&& row.last_event == as_is(""@)
            &&& row.age == as_is(""@)
            &&& failed ==> row.status == in_color("error"@, Color::Red)
            &&& !failed ==> row.status == in_color("\u{2026}"@, Color::DarkGray)
        }),
{
    reveal_strlit("");
}

/// A row tells when its parcel is polled next: it is being polled, with a
/// spinner; or it is delivered and done; or how long that takes still; or now,
/// where nothing is known.
pub proof fn law_rows_tell_the_next_poll(app: AppModel, now: Moment, tick: int, i: int)
    requires
        0 <= i < app.parcels.parcels.len(),
    ensures
        ({
            let number = app.parcels.parcels[i].number;
            let next = table(app, now, tick)[i].next;
            let done = knows(app, number) matches Some(s) && s.tracking is Some
                && s.tracking->0.status == Status::Delivered;
            let mark = if tick % 4 == 0 {
                "|"@
            } else if tick % 4 == 1 {
                "/"@
            } else if tick % 4 == 2 {
                "-"@
            } else {
                "\\"@
            };
            &&& app.polling == Some(number) ==> next == NextModel::Text(
                in_color(mark + " polling"@, Color::Yellow),
            )
            &&& app.polling != Some(number) && done ==> next == NextModel::Text(
                in_color("done"@, Color::Green),
            )
            &&& app.polling != Some(number) && !done ==> match knows(app, number) {
                Some(s) => next == (NextModel::Countdown {
                    remaining: elapsed(s.next_poll, now),
                    text: span_text(elapsed(s.next_poll, now)),
                }),
                None => next == NextModel::Text(as_is("now"@)),
            }
        }),
{
}

/// The frame has the color of the selected parcel's status, unknown where there
/// is none.
pub proof fn law_frame_shows_the_selected_status(app: AppModel, t: TrackingModel)
    ensures
        frame_color(app) == color_of_status(status_of_selected(app)),
        0 <= app.selected < app.parcels.parcels.len() && has_tracking(
            app,
            app.parcels.parcels[app.selected].number,
            t,
        ) ==> status_of_selected(app) == t.status,
        0 <= app.selected < app.parcels.parcels.len() && lacks_tracking(
            app,
            app.parcels.parcels[app.selected].number,
        ) ==> status_of_selected(app) == Status::Unknown,
        !(0 <= app.selected < app.parcels.parcels.len()) ==> status_of_selected(app)
            == Status::Unknown,
{
}

// ---------------------------------------------------------------------------
// The header
// ---------------------------------------------------------------------------
/// The header counts the parcels, tells whether home is set, and when the next
/// poll comes; and behind that it shows the last error.
pub proof fn law_header_tells(app: AppModel, now: Moment)
    ensures
        ({
            let line = header(app, now);
            let next = earliest_poll(app.parcels.parcels, app.cache.by_number);
            &&& line.len() == (if app.last_error is Some {
                6int
            } else {
                4
            })
            &&& line[0] == (SpanModel {
                content: " parcli "@,
                style: Style {
                    fg: Some(Color::Black),
                    bg: Some(Color::Cyan),
                    bold: true,
                    italic: false,
                },
            })
            &&& line[1] == as_is(
                " "@ + decimal(app.parcels.parcels.len()) + " parcels \u{b7} "@,
            )
            &&& line[2] == (if app.parcels.home is Some {
                in_color("\u{2302} set"@, Color::Green)
            } else {
                in_color("\u{2302} unset"@, Color::DarkGray)
            })
            &&& line[3] == as_is(
                " \u{b7} "@ + match next {
                    Some(t) => "next poll "@ + span_text(elapsed(t, now)),
                    None => "next poll \u{2014}"@,
                },
            )
            &&& app.last_error matches Some(e) ==> line[4] == as_is(" \u{b7} "@) && line[5] == (
            SpanModel {
                content: " "@ + e + " "@,
                style: Style {
                    fg: Some(Color::Red),
                    bg: Some(Color::Indexed(52)),
                    bold: false,
                    italic: false,
                },
            })
        }),
{
}

/// The next poll in the header is the earliest of the parcels in the list of
/// which something is known and that were not delivered; there is none where
/// there is no such parcel.
pub proof fn law_next_poll_is_the_earliest(
    parcels: Seq<ParcelModel>,
    known: Map<Seq<char>, ParcelStateModel>,
)
    ensures
        ({
            let waits = |i: int|
                known.contains_key(parcels[i].number) && !(known[parcels[i].number].tracking is Some
                    && known[parcels[i].number].tracking->0.status == Status::Delivered);
            match earliest_poll(parcels, known) {
                Some(e) => {
                    &&& exists|i: int|
                        0 <= i < parcels.len() && #[trigger] waits(i)
                            && known[parcels[i].number].next_poll == e
                    &&& forall|i: int|
                        0 <= i < parcels.len() && #[trigger] waits(i) ==> {
                            let p = known[parcels[i].number].next_poll;
                            e.secs < p.secs || e.secs == p.secs && e.nanos <= p.nanos
                        }
                },
                None => forall|i: int| 0 <= i < parcels.len() ==> !#[trigger] waits(i),
            }
        }),
{
    law_header_shows_the_earliest_poll(parcels, known);
    let waits = |i: int|
        known.contains_key(parcels[i].number) && !(known[parcels[i].number].tracking is Some
            && known[parcels[i].number].tracking->0.status == Status::Delivered);
    assert forall|i: int| 0 <= i < parcels.len() implies #[trigger] waits(i) == awaits_poll(
        known,
        parcels[i].number,
    ) by {}
    if let Some(e) = earliest_poll(parcels, known) {
        let i = choose|i: int|
            0 <= i < parcels.len() && awaits_poll(known, (#[trigger] parcels[i]).number)
                && known[parcels[i].number].next_poll == e;
        assert(waits(i));
    }
}

// ---------------------------------------------------------------------------
// The footer
// ---------------------------------------------------------------------------
/// A hint is its key, bold and in the accent color, and what it does, dim.
pub open spec fn key_does(key: Seq<char>, what: Seq<char>) -> Seq<SpanModel> {
    seq![
        SpanModel {
            content: key,
            style: Style { fg: Some(Color::Cyan), bg: None, bold: true, italic: false },
        },
        in_color(" "@ + what, Color::DarkGray),
    ]
}

/// Hints in one line, with dim dots between them.
pub open spec fn in_one_line(hints: Seq<Seq<SpanModel>>) -> Seq<SpanModel> {
    hints.drop_first().fold_left(
        seq![as_is(" "@)] + hints.first(),
        |line: Seq<SpanModel>, h: Seq<SpanModel>|
            line.push(in_color(" \u{b7} "@, Color::DarkGray)) + h,
    )
}

proof fn lemma_one_line(hints: Seq<Seq<SpanModel>>)
    requires
        hints.len() > 0,
    ensures
        hints_line(hints) == in_one_line(hints),
    decreases hints.len(),
{
    let rest = hints.drop_first();
    if hints.len() == 1 {
        assert(rest =~= Seq::empty());
        reveal_with_fuel(Seq::fold_left, 2);
    } else {
        let front = hints.drop_last();
        lemma_one_line(front);
        assert(front.drop_first() =~= rest.drop_last());
        assert(front.first() == hints.first());
        assert(rest.last() == hints.last());
        reveal_with_fuel(Seq::fold_left, 2);
    }
}

/// The footer tells what the keys do: in the table to add, remove, refresh one or
/// all, show, move and quit, and how to set home as long as it is not set; while
/// one parcel is shown to scroll, refresh and go back. Before a removal it asks,
/// with the number.
pub proof fn law_footer_tells_the_keys(app: AppModel, width: int)
    ensures
        app.mode is Normal ==> {
            let hints = seq![
                key_does("a"@, "add"@),
                key_does("d"@, "remove"@),
                key_does("r"@, "refresh"@),
                key_does("R"@, "refresh all"@),
                key_does("Enter"@, "detail"@),
                key_does("j/k"@, "move"@),
                key_does("q"@, "quit"@),
            ];
            let home = seq![in_color("--home to set your address"@, Color::DarkGray)];
            footer(app, width) == FooterModel::Hints(
                in_one_line(
                    if app.parcels.home is Some {
                        hints
                    } else {
                        hints.push(home)
                    },
                ),
            )
        },
        app.mode is Detail ==> footer(app, width) == FooterModel::Hints(
            in_one_line(
                seq![
                    key_does("j/k"@, "scroll"@),
                    key_does("r"@, "refresh"@),
                    key_does("q/Esc"@, "back"@),
                ],
            ),
        ),
        app.mode is ConfirmRemove && 0 <= app.selected < app.parcels.parcels.len() ==> footer(
            app,
            width,
        ) == FooterModel::Question(
            " remove "@ + app.parcels.parcels[app.selected].number + "? (y/n) "@,
        ),
{
    assert forall|key: Seq<char>, what: Seq<char>| #[trigger]
        hint(key, what) == key_does(key, what) by {
        assert(hint(key, what) =~= key_does(key, what));
    }
    if app.mode is Normal {
        lemma_one_line(crate::ui::footer::normal_hints(app.parcels.home is Some));
    }
    if app.mode is Detail {
        lemma_one_line(crate::ui::footer::detail_hints());
    }
}

/// While a line is being entered, the footer shows the prompt and the line from
/// where it is scrolled to, with the cursor as far behind the prompt as it is
/// behind that. The line has the columns that the prompt and the cursor leave it.
pub proof fn law_footer_shows_the_line(
    app: AppModel,
    keys: Seq<KeyEvent>,
    width: int,
    text: Seq<char>,
    cursor: int,
    scroll: int,
)
    requires
        app.mode == ModeModel::Adding(keys),
        0 <= width <= u16::MAX,
        0 <= scroll,
    ensures
        footer(app, width) == editing(
            line_text(keys),
            line_cursor(keys) as int,
            line_scroll(
                keys,
                (if width > 7 {
                    width - 7
                } else {
                    0
                }) as usize,
            ) as int,
        ),
        editing(text, cursor, scroll) is Editing,
        editing(text, cursor, scroll)->line == seq![
            in_color(" add: "@, Color::Yellow),
            as_is(
                if scroll <= text.len() {
                    text.subrange(scroll, text.len() as int)
                } else {
                    Seq::empty()
                },
            ),
        ],
        cursor >= scroll ==> editing(text, cursor, scroll)->cursor == cursor - scroll,
        cursor < scroll ==> editing(text, cursor, scroll)->cursor == 0,
{
    if scroll <= text.len() {
        assert(text.subrange(scroll, text.len() as int) =~= text.skip(scroll));
    }
}

// ---------------------------------------------------------------------------
// The map
// ---------------------------------------------------------------------------
/// The pin of a stop.
pub open spec fn pinned(s: StopModel, status: Status, tick: int) -> PinModel {
    let (mark, color) = match s.kind {
        StopKind::Origin => ("\u{25cf}"@, Color::Cyan),
        StopKind::Waypoint => ("\u{2022}"@, Color::DarkGray),
        StopKind::Current => (
            if tick % 2 == 0 {
                "\u{25c9}"@
            } else {
                "\u{25cb}"@
            },
            color_of_status(status),
        ),
        StopKind::Home => ("\u{2302}"@, Color::Green),
    };
    PinModel { coord: s.coord->0, text: mark + " "@ + truncated(s.name, 12), color }
}

/// The map has a pin for every stop whose place was found, in their order and no
/// other, and a line from each pin to the next.
pub proof fn law_pins_are_the_stops_that_were_found(
    stops: Seq<StopModel>,
    status: Status,
    tick: int,
)
    ensures
        ({
            let on_map = pins(stops, status, tick);
            exists|from: Seq<int>| #[trigger]
                ascends(from, stops.len() as int) && from.len() == on_map.len() && (forall|k: int|
                    0 <= k < from.len() ==> stops[#[trigger] from[k]].coord is Some && on_map[k]
                        == pinned(stops[from[k]], status, tick)) && (forall|i: int|
                    0 <= i < stops.len() && (#[trigger] stops[i]).coord is Some
                        ==> from.contains(i))
        }),
    decreases stops.len(),
{
    let on_map = pins(stops, status, tick);
    if stops.len() == 0 {
        assert(ascends(Seq::<int>::empty(), 0));
    } else {
        let front = stops.drop_last();
        let n = front.len() as int;
        law_pins_are_the_stops_that_were_found(front, status, tick);
        let before = pins(front, status, tick);
        let from = choose|from: Seq<int>| #[trigger]
            ascends(from, n) && from.len() == before.len() && (forall|k: int|
                0 <= k < from.len() ==> front[#[trigger] from[k]].coord is Some && before[k]
                    == pinned(front[from[k]], status, tick)) && (forall|i: int|
                0 <= i < n && (#[trigger] front[i]).coord is Some ==> from.contains(i));
        let wide = if stops.last().coord is Some {
            from.push(n)
        } else {
            from
        };
        assert(ascends(wide, n + 1));
        assert forall|k: int| 0 <= k < wide.len() implies stops[#[trigger] wide[k]].coord is Some
            && on_map[k] == pinned(stops[wide[k]], status, tick) by {
            if k < from.len() {
                assert(wide[k] == from[k]);
                assert(front[from[k]] == stops[from[k]]);
            }
        }
        assert forall|i: int|
            0 <= i < stops.len() && (#[trigger] stops[i]).coord is Some implies wide.contains(i) by {
            if i < n {
                assert(front[i] == stops[i]);
                assert(from.contains(i));
                let k = choose|k: int| 0 <= k < from.len() && from[k] == i;
                assert(wide[k] == i);
            } else {
                assert(wide[from.len() as int] == n);
            }
        }
    }
}

/// Each pin is joined to the next.
pub proof fn law_pins_are_joined(on_map: Seq<PinModel>, k: int)
    ensures
        on_map.len() > 0 ==> legs(on_map).len() == on_map.len() - 1,
        on_map.len() == 0 ==> legs(on_map).len() == 0,
        0 <= k < on_map.len() - 1 ==> legs(on_map)[k] == (on_map[k].coord, on_map[k + 1].coord),
{
}

/// The map is shown where it is turned on and there are a hundred columns.
pub proof fn law_map_needs_its_room(app: AppModel, width: int)
    ensures
        shows_map(app, width) <==> app.show_map && width >= 100,
{
}

/// The columns of the table, the hints of the keys and the marks of the spinner.
pub proof fn law_table_has_its_columns(key: Seq<char>, what: Seq<char>, tick: int)
    ensures
        titles() == seq![
            "LABEL"@,
            "NUMBER"@,
            "CARRIER"@,
            "STATUS"@,
            "LAST EVENT"@,
            "AGE"@,
            "NEXT"@,
        ],
        hint(key, what) == key_does(key, what),
        spinner(tick) == (seq!["|"@, "/"@, "-"@, "\\"@])[tick % 4],
{
    assert(hint(key, what) =~= key_does(key, what));
}

/// What is known of a parcel is what the cache holds under its number, and its
/// events are counted.
pub proof fn law_what_is_known_is_in_the_cache(
    app: AppModel,
    number: Seq<char>,
    t: TrackingModel,
)
    ensures
        app.state_of(number) == knows(app, number),
        has_tracking(app, number, t) ==> app.tracking_of(number) == Some(t) && event_count(
            app.tracking_of(number),
        ) == t.events.len(),
        lacks_tracking(app, number) ==> app.tracking_of(number) is None && event_count(
            app.tracking_of(number),
        ) == 0,
{
}

} // verus!
