//! The journey of a parcel: its stops, and the strip that shows them, cell by
//! cell.
use vstd::prelude::*;

use crate::enrich::place_of;
use crate::geo::Coord;
use crate::journey::{
    cell_style, centered_start, column, current_stop, first_visits, grouped, is_delivered,
    labels_row, lemma_column_bounds, lemma_stop_before, name_room, names_row, places_visited,
    reached, stop_label, stops_of, strip, track, track_cell, tracked_places, visited, CellText,
    StopKind, StopModel,
};
use crate::laws::texts::{
    all_blank, ink, law_collapsing_keeps_every_character, law_runs_of_white_space_become_one_space,
};
use crate::provider::{EventModel, Status, TrackingModel};
use crate::text::{collapsed, is_white, lower_case, truncated};
use crate::ui::color_of_status;
use crate::ui::theme::{Color, SpanModel, Style};

verus! {

// ---------------------------------------------------------------------------
// Cells
// ---------------------------------------------------------------------------
/// The characters of a line, each in its style.
pub open spec fn painted(line: Seq<SpanModel>) -> Seq<(char, Style)>
    decreases line.len(),
{
    if line.len() == 0 {
        Seq::empty()
    } else {
        painted(line.drop_last()) + Seq::new(
            line.last().content.len(),
            |i: int| (line.last().content[i], line.last().style),
        )
    }
}

/// Nothing but a color.
pub open spec fn only_color(color: Color) -> Style {
    Style { fg: Some(color), bg: None, bold: false, italic: false }
}

/// Nothing at all.
pub open spec fn unstyled() -> Style {
    Style { fg: None, bg: None, bold: false, italic: false }
}

proof fn lemma_painted(cells: Seq<CellText>)
    ensures
        painted(grouped(cells)) == Seq::new(
            cells.len(),
            |i: int| (cells[i].0, cell_style(cells[i].1)),
        ),
        grouped(cells).len() > 0 <==> cells.len() > 0,
        cells.len() > 0 ==> grouped(cells).last().style == cell_style(cells.last().1),
    decreases cells.len(),
{
    let goal = Seq::new(cells.len(), |i: int| (cells[i].0, cell_style(cells[i].1)));
    if cells.len() == 0 {
        assert(painted(grouped(cells)) =~= goal);
    } else {
        let front = cells.drop_last();
        lemma_painted(front);
        let g = grouped(front);
        let (ch, color) = cells.last();
        let all = grouped(cells);
        if cells.len() > 1 && cells[cells.len() - 2].1 == color {
            assert(front.last() == cells[cells.len() - 2]);
            assert(all.drop_last() =~= g.drop_last());
            let short = Seq::new(
                g.last().content.len(),
                |i: int| (g.last().content[i], g.last().style),
            );
            let long = Seq::new(
                all.last().content.len(),
                |i: int| (all.last().content[i], all.last().style),
            );
            assert(long =~= short.push((ch, cell_style(color))));
            assert(painted(all) =~= painted(g).push((ch, cell_style(color))));
        } else {
            assert(all.drop_last() =~= g);
            assert(painted(all) =~= painted(g).push((ch, cell_style(color))));
        }
        assert(painted(all) =~= goal);
    }
}

// ---------------------------------------------------------------------------
// The track
// ---------------------------------------------------------------------------
/// Where the stop `i` of `n` stands in `w` columns: the first at the left end,
/// the last at the right, and the others evenly between them.
pub open spec fn station(i: int, n: int, w: int) -> int {
    if n == 1 {
        0
    } else {
        i * (w - 1) / (n - 1)
    }
}

/// The parcel has got as far as the stop `c`: to the end once it is delivered,
/// and before that to the first stop that it is at now, or else to the first
/// stop of all.
pub open spec fn is_at(stops: Seq<StopModel>, status: Status, c: int) -> bool {
    &&& 0 <= c < stops.len()
    &&& status == Status::Delivered ==> c == stops.len() - 1
    &&& status != Status::Delivered ==> {
        ||| stops[c].kind == StopKind::Current && forall|j: int|
            0 <= j < c ==> (#[trigger] stops[j]).kind != StopKind::Current
        ||| c == 0 && forall|j: int|
            0 <= j < stops.len() ==> (#[trigger] stops[j]).kind != StopKind::Current
    }
}

proof fn lemma_reached(stops: Seq<StopModel>, status: Status, c: int)
    requires
        is_at(stops, status, c),
    ensures
        reached(stops, status) == c,
{
    if status != Status::Delivered {
        if stops[c].kind == StopKind::Current && forall|j: int|
            0 <= j < c ==> (#[trigger] stops[j]).kind != StopKind::Current {
            lemma_current_is(stops, 0, c);
        } else {
            lemma_current_is_not(stops, 0);
        }
    }
}

proof fn lemma_current_is(stops: Seq<StopModel>, i: int, c: int)
    requires
        0 <= i <= c < stops.len(),
        stops[c].kind == StopKind::Current,
        forall|j: int| i <= j < c ==> (#[trigger] stops[j]).kind != StopKind::Current,
    ensures
        current_stop(stops, i) == c,
    decreases c - i,
{
    if i < c {
        assert(stops[i].kind != StopKind::Current);
        lemma_current_is(stops, i + 1, c);
    }
}

proof fn lemma_current_is_not(stops: Seq<StopModel>, i: int)
    requires
        0 <= i,
        forall|j: int| i <= j < stops.len() ==> (#[trigger] stops[j]).kind != StopKind::Current,
    ensures
        current_stop(stops, i) == 0,
    decreases stops.len() - i,
{
    if i < stops.len() {
        assert(stops[i].kind != StopKind::Current);
        lemma_current_is_not(stops, i + 1);
    }
}

/// Every stop has its glyph at its place on the track, in the color of the
/// status as far as the parcel has got, and dimmed beyond: a dot for a place
/// that was passed, a ring around a dot where the parcel is now, and at home a
/// ring, or a check mark once the parcel is delivered. Of stops that share a
/// place, the last one shows.
pub proof fn law_stops_have_their_glyphs(
    stops: Seq<StopModel>,
    status: Status,
    tick: int,
    width: int,
    c: int,
    i: int,
)
    requires
        is_at(stops, status, c),
        width >= 1,
        0 <= i < stops.len(),
        i + 1 < stops.len() ==> station(i, stops.len() as int, width) < station(
            i + 1,
            stops.len() as int,
            width,
        ),
    ensures
        ({
            let line = painted(strip(stops, status, tick, width)[1]);
            let x = station(i, stops.len() as int, width);
            &&& line.len() == width
            &&& 0 <= x < width
            &&& line[x] == (
                match stops[i].kind {
                    StopKind::Origin => '\u{25cf}',
                    StopKind::Waypoint => '\u{25cf}',
                    StopKind::Current => '\u{25c9}',
                    StopKind::Home => if status == Status::Delivered {
                        '\u{2714}'
                    } else {
                        '\u{25cb}'
                    },
                },
                only_color(
                    if i <= c {
                        color_of_status(status)
                    } else {
                        Color::DarkGray
                    },
                ),
            )
        }),
{
    let n = stops.len() as int;
    let x = station(i, n, width);
    lemma_reached(stops, status, c);
    lemma_column_bounds(i, n, width);
    lemma_painted(track(stops, status, tick, width));
    lemma_stop_before(x, n, width, n - 1, i);
    assert(track(stops, status, tick, width)[x] == track_cell(stops, status, tick, width, x));
}

/// Between two stops the track is a solid line in the color of the status where
/// the way is behind the parcel, and a dashed dim one where it is ahead, with a
/// pulse on it that is a step further with each tick and starts over at the end
/// of the way.
pub proof fn law_way_behind_is_solid_and_way_ahead_is_dashed(
    stops: Seq<StopModel>,
    status: Status,
    tick: int,
    width: int,
    c: int,
    i: int,
    x: int,
)
    requires
        is_at(stops, status, c),
        width >= 1,
        0 <= i,
        i + 1 < stops.len(),
        station(i, stops.len() as int, width) < x < station(i + 1, stops.len() as int, width),
    ensures
        ({
            let n = stops.len() as int;
            let line = painted(strip(stops, status, tick, width)[1]);
            let (from, to) = (station(i, n, width), station(i + 1, n, width));
            &&& line.len() == width
            &&& i < c ==> line[x] == ('\u{2501}', only_color(color_of_status(status)))
            &&& i >= c && x == from + 1 + tick % (to - from - 1) ==> line[x] == (
                '\u{25b8}',
                only_color(Color::Indexed(214)),
            )
            &&& i >= c && x != from + 1 + tick % (to - from - 1) ==> line[x] == (
                '\u{2504}',
                only_color(Color::DarkGray),
            )
        }),
{
    let n = stops.len() as int;
    lemma_reached(stops, status, c);
    lemma_column_bounds(i, n, width);
    lemma_column_bounds(i + 1, n, width);
    lemma_painted(track(stops, status, tick, width));
    lemma_stop_before(x, n, width, n - 1, i);
    assert(track(stops, status, tick, width)[x] == track_cell(stops, status, tick, width, x));
}

/// A single stop stands at the left end, and nothing follows it.
pub proof fn law_single_stop_stands_alone(
    stops: Seq<StopModel>,
    status: Status,
    tick: int,
    width: int,
    x: int,
)
    requires
        stops.len() == 1,
        0 < x < width,
    ensures
        painted(strip(stops, status, tick, width)[1])[x] == (' ', unstyled()),
{
    lemma_painted(track(stops, status, tick, width));
    lemma_stop_before(x, 1, width, 0, 0);
    assert(track(stops, status, tick, width)[x] == track_cell(stops, status, tick, width, x));
}

/// Without a column the strip has one all the same.
pub proof fn law_strip_has_a_column(stops: Seq<StopModel>, status: Status, tick: int, width: int)
    requires
        width <= 0,
    ensures
        strip(stops, status, tick, width) == strip(stops, status, tick, 1),
{
}

/// Where there is no stop, a line says so.
pub proof fn law_no_stops_is_said(status: Status, tick: int, width: int)
    ensures
        strip(Seq::empty(), status, tick, width) == seq![
            seq![
                SpanModel {
                    content: "no locations yet"@,
                    style: only_color(Color::DarkGray),
                },
            ],
        ],
{
    assert(strip(Seq::empty(), status, tick, width)[0] =~= seq![
        SpanModel { content: "no locations yet"@, style: only_color(Color::DarkGray) },
    ]);
}

// ---------------------------------------------------------------------------
// Names and labels
// ---------------------------------------------------------------------------
/// Where a text of `len` characters starts that stands over the column `c`: with
/// its middle there, unless that would take it out of the `w` columns.
pub open spec fn starts(c: int, len: int, w: int) -> int {
    if len >= w || c - len / 2 < 0 {
        0
    } else if c - len / 2 + len > w {
        w - len
    } else {
        c - len / 2
    }
}

/// The text `text`, standing over the column `c`, takes the column `x`.
pub open spec fn takes(x: int, c: int, text: Seq<char>, w: int) -> bool {
    starts(c, text.len() as int, w) <= x < starts(c, text.len() as int, w) + text.len()
}

/// The name of a stop as far as it is shown: in its share of the columns, less
/// two, but with three where its share holds them.
pub open spec fn name_shown(name: Seq<char>, n: int, w: int) -> Seq<char> {
    truncated(
        name,
        if w / n >= 5 {
            w / n - 2
        } else if w / n >= 3 {
            3
        } else {
            w / n
        },
    )
}

/// Every stop has its name over its place. Where names meet, the later stop's
/// shows, and where no name stands the line is blank.
pub proof fn law_names_stand_over_their_stops(
    stops: Seq<StopModel>,
    status: Status,
    tick: int,
    width: int,
    x: int,
)
    requires
        stops.len() > 0,
        0 <= x < width,
    ensures
        ({
            let n = stops.len() as int;
            let line = painted(strip(stops, status, tick, width)[0]);
            let over = |i: int|
                takes(x, station(i, n, width), name_shown(stops[i].name, n, width), width);
            &&& line.len() == width
            &&& forall|i: int|
                0 <= i < n && #[trigger] over(i) && (forall|j: int|
                    i < j < n ==> !#[trigger] over(j)) ==> line[x] == (
                    name_shown(stops[i].name, n, width)[x - starts(
                        station(i, n, width),
                        name_shown(stops[i].name, n, width).len() as int,
                        width,
                    )],
                    unstyled(),
                )
            &&& (forall|j: int| 0 <= j < n ==> !#[trigger] over(j)) ==> line[x] == (
                ' ',
                unstyled(),
            )
        }),
{
    let n = stops.len() as int;
    lemma_painted(names_row(stops, width, n));
    lemma_names_row(stops, width, n, x);
}

/// The cell `x` of a row into which the names of the first `k` stops are written.
proof fn lemma_names_row(stops: Seq<StopModel>, w: int, k: int, x: int)
    requires
        0 <= k <= stops.len(),
        stops.len() > 0,
        0 <= x < w,
    ensures
        ({
            let n = stops.len() as int;
            let row = names_row(stops, w, k);
            let over = |i: int| takes(x, station(i, n, w), name_shown(stops[i].name, n, w), w);
            &&& row.len() == w
            &&& forall|i: int|
                0 <= i < k && #[trigger] over(i) && (forall|j: int|
                    i < j < k ==> !#[trigger] over(j)) ==> row[x] == (
                    name_shown(stops[i].name, n, w)[x - starts(
                        station(i, n, w),
                        name_shown(stops[i].name, n, w).len() as int,
                        w,
                    )],
                    None::<Color>,
                )
            &&& (forall|j: int| 0 <= j < k ==> !#[trigger] over(j)) ==> row[x] == (
                ' ',
                None::<Color>,
            )
        }),
    decreases k,
{
    if k > 0 {
        let n = stops.len() as int;
        lemma_names_row(stops, w, k - 1, x);
        lemma_column_bounds(k - 1, n, w);
        let text = name_shown(stops[k - 1].name, n, w);
        assert(truncated(stops[k - 1].name, name_room(n, w)) == text);
        lemma_starts(column(k - 1, n, w), text.len() as int, w);
        let over = |i: int| takes(x, station(i, n, w), name_shown(stops[i].name, n, w), w);
        let row = names_row(stops, w, k);
        let before = names_row(stops, w, k - 1);
        if over(k - 1) {
            assert forall|i: int|
                0 <= i < k && #[trigger] over(i) && (forall|j: int|
                    i < j < k ==> !#[trigger] over(j)) implies i == k - 1 by {
                if i < k - 1 {
                    assert(!over(k - 1));
                }
            }
        } else {
            assert(row[x] == before[x]);
            assert forall|i: int|
                0 <= i < k && #[trigger] over(i) && (forall|j: int|
                    i < j < k ==> !#[trigger] over(j)) implies row[x] == (
                name_shown(stops[i].name, n, w)[x - starts(
                    station(i, n, w),
                    name_shown(stops[i].name, n, w).len() as int,
                    w,
                )],
                None::<Color>,
            ) by {
                assert(i < k - 1);
            }
        }
    }
}

proof fn lemma_starts(c: int, len: int, w: int)
    requires
        0 <= c < w,
        0 <= len,
    ensures
        centered_start(c, len, w) == starts(c, len, w),
{
}

/// What is said below a stop: that it is the origin, where the parcel is now, or
/// home, and nothing of the others; and where home is the only stop, that the
/// first scan is awaited.
pub open spec fn said_below(stops: Seq<StopModel>, i: int) -> Seq<char> {
    if stops.len() == 1 && stops[0].kind == StopKind::Home {
        "waiting for first scan"@
    } else {
        match stops[i].kind {
            StopKind::Origin => "origin"@,
            StopKind::Current => "now"@,
            StopKind::Home => "home"@,
            StopKind::Waypoint => ""@,
        }
    }
}

/// Every stop has its label, dimmed, below its place. Where labels meet, the
/// later stop's shows, and where no label stands the line is blank.
pub proof fn law_labels_stand_below_their_stops(
    stops: Seq<StopModel>,
    status: Status,
    tick: int,
    width: int,
    x: int,
)
    requires
        stops.len() > 0,
        0 <= x < width,
    ensures
        ({
            let n = stops.len() as int;
            let line = painted(strip(stops, status, tick, width)[2]);
            let below = |i: int| takes(x, station(i, n, width), said_below(stops, i), width);
            &&& line.len() == width
            &&& forall|i: int|
                0 <= i < n && #[trigger] below(i) && (forall|j: int|
                    i < j < n ==> !#[trigger] below(j)) ==> line[x] == (
                    said_below(stops, i)[x - starts(
                        station(i, n, width),
                        said_below(stops, i).len() as int,
                        width,
                    )],
                    only_color(Color::DarkGray),
                )
            &&& (forall|j: int| 0 <= j < n ==> !#[trigger] below(j)) ==> line[x] == (
                ' ',
                unstyled(),
            )
        }),
{
    let n = stops.len() as int;
    lemma_painted(labels_row(stops, width, n));
    lemma_labels_row(stops, width, n, x);
}

proof fn lemma_labels_row(stops: Seq<StopModel>, w: int, k: int, x: int)
    requires
        0 <= k <= stops.len(),
        stops.len() > 0,
        0 <= x < w,
    ensures
        ({
            let n = stops.len() as int;
            let row = labels_row(stops, w, k);
            let below = |i: int| takes(x, station(i, n, w), said_below(stops, i), w);
            &&& row.len() == w
            &&& forall|i: int|
                0 <= i < k && #[trigger] below(i) && (forall|j: int|
                    i < j < k ==> !#[trigger] below(j)) ==> row[x] == (
                    said_below(stops, i)[x - starts(
                        station(i, n, w),
                        said_below(stops, i).len() as int,
                        w,
                    )],
                    Some(Color::DarkGray),
                )
            &&& (forall|j: int| 0 <= j < k ==> !#[trigger] below(j)) ==> row[x] == (
                ' ',
                None::<Color>,
            )
        }),
    decreases k,
{
    if k > 0 {
        let n = stops.len() as int;
        lemma_labels_row(stops, w, k - 1, x);
        lemma_column_bounds(k - 1, n, w);
        let text = said_below(stops, k - 1);
        assert(stop_label(stops, k - 1) == text);
        lemma_starts(column(k - 1, n, w), text.len() as int, w);
        let below = |i: int| takes(x, station(i, n, w), said_below(stops, i), w);
        let row = labels_row(stops, w, k);
        let before = labels_row(stops, w, k - 1);
        if below(k - 1) {
            assert forall|i: int|
                0 <= i < k && #[trigger] below(i) && (forall|j: int|
                    i < j < k ==> !#[trigger] below(j)) implies i == k - 1 by {
                if i < k - 1 {
                    assert(!below(k - 1));
                }
            }
        } else {
            assert(row[x] == before[x]);
            assert forall|i: int|
                0 <= i < k && #[trigger] below(i) && (forall|j: int|
                    i < j < k ==> !#[trigger] below(j)) implies row[x] == (
                said_below(stops, i)[x - starts(
                    station(i, n, w),
                    said_below(stops, i).len() as int,
                    w,
                )],
                Some(Color::DarkGray),
            ) by {
                assert(i < k - 1);
            }
        }
    }
}

// ---------------------------------------------------------------------------
// The stops
// ---------------------------------------------------------------------------
/// The place of an event: its location with single spaces between its words, if
/// it has one that is not blank.
pub open spec fn place_told(e: EventModel) -> Option<Seq<char>> {
    match e.location {
        Some(l) => if all_blank(l) {
            None
        } else {
            Some(collapsed(l))
        },
        None => None,
    }
}

proof fn lemma_ink_of_blank(s: Seq<char>)
    ensures
        ink(s).len() == 0 <==> all_blank(s),
    decreases s.len(),
{
    if s.len() > 0 {
        let t = s.skip(1);
        lemma_ink_of_blank(t);
        if all_blank(s) {
            assert forall|i: int| 0 <= i < t.len() implies is_white(#[trigger] t[i]) by {
                assert(t[i] == s[i + 1]);
            }
        }
        if all_blank(t) && is_white(s[0]) {
            assert forall|i: int| 0 <= i < s.len() implies is_white(#[trigger] s[i]) by {
                if i > 0 {
                    assert(s[i] == t[i - 1]);
                }
            }
        }
    }
}

pub proof fn lemma_place(e: EventModel)
    ensures
        place_of(e) == place_told(e),
{
    if let Some(l) = e.location {
        law_collapsing_keeps_every_character(l);
        lemma_ink_of_blank(l);
        lemma_ink_of_blank(collapsed(l));
        if all_blank(l) {
            law_runs_of_white_space_become_one_space(l, seq!['x'], seq![' '], seq!['x']);
        }
    }
}

/// `at` says, for each of the names, which event it is taken from: the oldest
/// one at that place, whatever the case of the letters; and older places come
/// first. Every event's place has a name.
pub open spec fn names_come_from(
    names: Seq<Seq<char>>,
    events: Seq<EventModel>,
    at: Seq<int>,
) -> bool {
    &&& at.len() == names.len()
    &&& forall|k: int|
        0 <= k < at.len() ==> 0 <= #[trigger] at[k] < events.len() && place_told(events[at[k]])
            == Some(names[k])
    &&& forall|k: int, l: int| 0 <= k < l < at.len() ==> #[trigger] at[k] > #[trigger] at[l]
    &&& forall|k: int, j: int|
        #![trigger at[k], events[j]]
        0 <= k < at.len() && at[k] < j < events.len() && place_told(events[j]) is Some
            ==> lower_case(place_told(events[j])->0) != lower_case(names[k])
    &&& forall|j: int|
        0 <= j < events.len() && place_told(#[trigger] events[j]) is Some ==> exists|k: int|
            0 <= k < names.len() && at[k] >= j && lower_case(#[trigger] names[k]) == lower_case(
                place_told(events[j])->0,
            )
}

proof fn lemma_visited_names(events: Seq<EventModel>)
    ensures
        forall|key: Seq<char>| #[trigger]
            visited(places_visited(events), key) <==> exists|j: int|
                0 <= j < events.len() && place_told(#[trigger] events[j]) is Some && lower_case(
                    place_told(events[j])->0,
                ) == key,
    decreases events.len(),
{
    let places = places_visited(events);
    if events.len() > 0 {
        let older = events.skip(1);
        lemma_visited_names(older);
        lemma_place(events[0]);
        let before = places_visited(older);
        assert forall|key: Seq<char>| #[trigger] visited(places, key) <==> exists|j: int|
            0 <= j < events.len() && place_told(#[trigger] events[j]) is Some && lower_case(
                place_told(events[j])->0,
            ) == key by {
            if visited(before, key) {
                let i = choose|i: int| 0 <= i < before.len() && (#[trigger] before[i]).1 == key;
                assert(places[i] == before[i]);
                let j = choose|j: int|
                    0 <= j < older.len() && place_told(#[trigger] older[j]) is Some && lower_case(
                        place_told(older[j])->0,
                    ) == key;
                assert(events[j + 1] == older[j]);
            }
            if visited(places, key) && !visited(before, key) {
                let i = choose|i: int| 0 <= i < places.len() && (#[trigger] places[i]).1 == key;
                if i < before.len() {
                    assert(before[i] == places[i]);
                }
                assert(place_told(events[0]) is Some);
            }
            if exists|j: int|
                0 <= j < events.len() && place_told(#[trigger] events[j]) is Some && lower_case(
                    place_told(events[j])->0,
                ) == key {
                let j = choose|j: int|
                    0 <= j < events.len() && place_told(#[trigger] events[j]) is Some
                        && lower_case(place_told(events[j])->0) == key;
                if j > 0 {
                    assert(older[j - 1] == events[j]);
                    assert(visited(before, key));
                    let i = choose|i: int|
                        0 <= i < before.len() && (#[trigger] before[i]).1 == key;
                    assert(places[i] == before[i]);
                } else {
                    assert(places[before.len() as int].1 == key);
                }
            }
        }
    }
}

proof fn lemma_names_come_from(events: Seq<EventModel>) -> (at: Seq<int>)
    ensures
        names_come_from(first_visits(places_visited(events)), events, at),
    decreases events.len(),
{
    let names = first_visits(places_visited(events));
    if events.len() == 0 {
        Seq::empty()
    } else {
        let older = events.skip(1);
        let before = lemma_names_come_from(older);
        let olds = first_visits(places_visited(older));
        lemma_place(events[0]);
        lemma_visited_names(older);
        let shifted = Seq::new(before.len(), |k: int| before[k] + 1);
        let places = places_visited(events);
        if place_told(events[0]) is Some {
            assert(places.drop_last() =~= places_visited(older));
        }
        let fresh = place_told(events[0]) is Some && !visited(
            places_visited(older),
            lower_case(place_told(events[0])->0),
        );
        let at = if fresh {
            shifted.push(0)
        } else {
            shifted
        };
        assert(names == if fresh {
            olds.push(place_told(events[0])->0)
        } else {
            olds
        });
        assert forall|k: int| 0 <= k < at.len() implies 0 <= #[trigger] at[k] < events.len()
            && place_told(events[at[k]]) == Some(names[k]) by {
            if k < before.len() {
                assert(events[at[k]] == older[before[k]]);
            }
        }
        assert forall|k: int, l: int| 0 <= k < l < at.len() implies #[trigger] at[k]
            > #[trigger] at[l] by {
            if l < before.len() {
                assert(before[k] > before[l]);
            }
        }
        assert forall|k: int, j: int|
            #![trigger at[k], events[j]]
            0 <= k < at.len() && at[k] < j < events.len() && place_told(
                events[j],
            ) is Some implies lower_case(place_told(events[j])->0) != lower_case(names[k]) by {
            assert(older[j - 1] == events[j]);
            if k < before.len() {
                assert(before[k] < j - 1);
            } else if lower_case(place_told(events[j])->0) == lower_case(names[k]) {
                assert(visited(places_visited(older), lower_case(names[k])));
            }
        }
        assert forall|j: int|
            0 <= j < events.len() && place_told(#[trigger] events[j]) is Some implies exists|
            k: int,
        |
            0 <= k < names.len() && at[k] >= j && lower_case(#[trigger] names[k]) == lower_case(
                place_told(events[j])->0,
            ) by {
            if j > 0 {
                assert(older[j - 1] == events[j]);
                let k = choose|k: int|
                    0 <= k < olds.len() && before[k] >= j - 1 && lower_case(#[trigger] olds[k])
                        == lower_case(place_told(older[j - 1])->0);
                assert(names[k] == olds[k]);
            } else if fresh {
                assert(names[olds.len() as int] == place_told(events[0])->0);
            } else {
                let key = lower_case(place_told(events[0])->0);
                let i = choose|i: int|
                    0 <= i < older.len() && place_told(#[trigger] older[i]) is Some && lower_case(
                        place_told(older[i])->0,
                    ) == key;
                let k = choose|k: int|
                    0 <= k < olds.len() && before[k] >= i && lower_case(#[trigger] olds[k])
                        == lower_case(place_told(older[i])->0);
                assert(names[k] == olds[k]);
            }
        }
        at
    }
}

/// The stops of a parcel are the places of its events, the oldest first, each
/// under the name that the oldest event there gives it; and then home, if it is
/// set. The last place is where the parcel is now, unless it was delivered, the
/// first of several is the origin, and a stop is on the map where its place was
/// found.
pub proof fn law_stops_are_the_places_of_the_events(
    t: TrackingModel,
    home: Option<Seq<char>>,
    geo: Map<Seq<char>, Option<Coord>>,
)
    ensures
        ({
            let tracking = Some(t);
            let names = first_visits(tracked_places(tracking));
            let stops = stops_of(names, is_delivered(tracking), home, geo);
            let n = names.len() as int;
            &&& exists|at: Seq<int>| #[trigger] names_come_from(names, t.events, at)
            &&& stops.len() == n + (if home is Some {
                1int
            } else {
                0
            })
            &&& forall|i: int|
                0 <= i < n ==> (#[trigger] stops[i]).name == names[i] && stops[i].kind == (if i
                    < n - 1 {
                    if i == 0 {
                        StopKind::Origin
                    } else {
                        StopKind::Waypoint
                    }
                } else if t.status == Status::Delivered {
                    StopKind::Waypoint
                } else {
                    StopKind::Current
                })
            &&& home matches Some(h) ==> stops[n].name == h && stops[n].kind == StopKind::Home
            &&& forall|i: int|
                0 <= i < stops.len() ==> (#[trigger] stops[i]).coord == (if geo.contains_key(
                    stops[i].name,
                ) {
                    geo[stops[i].name]
                } else {
                    None
                })
        }),
{
    let at = lemma_names_come_from(t.events);
    assert(names_come_from(first_visits(tracked_places(Some(t))), t.events, at));
}

/// Without a tracking there is no stop but home.
pub proof fn law_no_tracking_leaves_home(
    home: Option<Seq<char>>,
    geo: Map<Seq<char>, Option<Coord>>,
)
    ensures
        ({
            let stops = stops_of(
                first_visits(tracked_places(None)),
                is_delivered(None),
                home,
                geo,
            );
            &&& home is None ==> stops.len() == 0
            &&& home matches Some(h) ==> stops.len() == 1 && stops[0].name == h && stops[0].kind
                == StopKind::Home
        }),
{
}

} // verus!
