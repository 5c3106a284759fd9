//! The journey of a parcel: the places it went through, and the strip that
//! shows how far it has come.
use vstd::arithmetic::div_mod::{
    lemma_div_basics, lemma_div_is_ordered, lemma_div_multiples_vanish, lemma_fundamental_div_mod,
    lemma_fundamental_div_mod_converse_mod,
};
use vstd::arithmetic::mul::lemma_mul_inequality;
use vstd::prelude::*;

use crate::enrich::place_of;
use crate::geo::{normalize_place, Coord, GeoCache};
use crate::provider::{EventModel, Status, TrackEvent, Tracking, TrackingModel};
use crate::text::{
    all_ascii, ascii_lower, chars_of, lower_case, same_text, to_lowercase, truncate_text, truncated,
};
use crate::ui::theme::{
    colored, line_chars, plain, styled, Color, Line, Span, SpanModel, Style, DIM, WARN,
};
use crate::ui::{color_of_status, status_color};

verus! {

/// What a stop is to a journey.
#[derive(Debug, Clone, Copy, PartialEq, Eq, Structural)]
pub enum StopKind {
    Origin,
    Waypoint,
    Current,
    Home,
}

/// A stop of a journey.
#[derive(Debug, Clone, PartialEq, Eq)]
pub struct Stop {
    pub name: String,
    pub coord: Option<Coord>,
    pub kind: StopKind,
}

/// The value of a [`Stop`].
pub struct StopModel {
    pub name: Seq<char>,
    pub coord: Option<Coord>,
    pub kind: StopKind,
}

impl DeepView for Stop {
    type V = StopModel;

    open spec fn deep_view(&self) -> StopModel {
        StopModel { name: self.name@, coord: self.coord, kind: self.kind }
    }
}

// ---------------------------------------------------------------------------
// Stops
// ---------------------------------------------------------------------------
/// The places of the events, from the oldest to the newest, each with its name
/// in lower case. The events themselves stand newest first.
pub open spec fn places_visited(events: Seq<EventModel>) -> Seq<(Seq<char>, Seq<char>)>
    decreases events.len(),
{
    if events.len() == 0 {
        Seq::empty()
    } else {
        let older = places_visited(events.skip(1));
        match place_of(events[0]) {
            Some(name) => older.push((name, lower_case(name))),
            None => older,
        }
    }
}

/// One of the places has the key `key`.
pub open spec fn visited(places: Seq<(Seq<char>, Seq<char>)>, key: Seq<char>) -> bool {
    exists|i: int| 0 <= i < places.len() && (#[trigger] places[i]).1 == key
}

/// The places whose keys have not come before, by their names.
pub open spec fn first_visits(places: Seq<(Seq<char>, Seq<char>)>) -> Seq<Seq<char>>
    decreases places.len(),
{
    if places.len() == 0 {
        Seq::empty()
    } else if visited(places.drop_last(), places.last().1) {
        first_visits(places.drop_last())
    } else {
        first_visits(places.drop_last()).push(places.last().0)
    }
}

/// Where a place is, as far as it is known.
pub open spec fn coord_of(geo: Map<Seq<char>, Option<Coord>>, place: Seq<char>) -> Option<Coord> {
    if geo.contains_key(place) {
        geo[place]
    } else {
        None
    }
}

/// What the stop `i` of `n` places that were visited is: the last one is where
/// the parcel is now, unless it has been delivered.
pub open spec fn visit_kind(i: int, n: int, delivered: bool) -> StopKind {
    if i == n - 1 {
        if delivered {
            StopKind::Waypoint
        } else {
            StopKind::Current
        }
    } else if i == 0 {
        StopKind::Origin
    } else {
        StopKind::Waypoint
    }
}

/// The stops of a journey through the places `names`, and then home.
pub open spec fn stops_of(
    names: Seq<Seq<char>>,
    delivered: bool,
    home: Option<Seq<char>>,
    geo: Map<Seq<char>, Option<Coord>>,
) -> Seq<StopModel> {
    let visits = Seq::new(
        names.len(),
        |i: int|
            StopModel {
                name: names[i],
                coord: coord_of(geo, names[i]),
                kind: visit_kind(i, names.len() as int, delivered),
            },
    );
    match home {
        Some(h) => visits.push(
            StopModel { name: h, coord: coord_of(geo, h), kind: StopKind::Home },
        ),
        None => visits,
    }
}

/// The places of a tracking, none where there is no tracking.
pub open spec fn tracked_places(tracking: Option<TrackingModel>) -> Seq<(Seq<char>, Seq<char>)> {
    match tracking {
        Some(t) => places_visited(t.events),
        None => Seq::empty(),
    }
}

/// The parcel has been delivered.
pub open spec fn is_delivered(tracking: Option<TrackingModel>) -> bool {
    tracking matches Some(t) && t.status == Status::Delivered
}

/// The places of the events, from the oldest to the newest, each with its name
/// in lower case.
fn read_places(events: &Vec<TrackEvent>) -> (r: Vec<(String, String)>)
    ensures
        r.deep_view() == places_visited(events.deep_view()),
{
    let mut r: Vec<(String, String)> = Vec::new();
    let mut left: usize = events.len();
    let ghost all = events.deep_view();
    assert(all.skip(left as int) =~= Seq::empty());
    assert(r.deep_view() =~= places_visited(all.skip(left as int)));
    while left > 0
        invariant
            left <= events.len(),
            all == events.deep_view(),
            r.deep_view() == places_visited(all.skip(left as int)),
        decreases left,
    {
        let ghost before = r.deep_view();
        proof {
            assert(all.skip(left - 1).skip(1) =~= all.skip(left as int));
            assert(all.skip(left - 1)[0] == events[left - 1].deep_view());
        }
        left -= 1;
        if let Some(l) = &events[left].location {
            let name = normalize_place(l);
            if !name.as_str().is_empty() {
                let key = to_lowercase(&name);
                let pair = (name, key);
                let ghost pm = pair.deep_view();
                r.push(pair);
                assert(r.deep_view() =~= before.push(pm));
            }
        }
    }
    assert(all.skip(0) =~= all);
    r
}

/// The places whose keys have not come before, by their names. A place is its
/// name and its key.
pub fn dedup_places(places: &Vec<(String, String)>) -> (r: Vec<String>)
    ensures
        r.deep_view() == first_visits(places.deep_view()),
{
    let mut r: Vec<String> = Vec::new();
    let mut i: usize = 0;
    let ghost all = places.deep_view();
    assert(all.take(0) =~= Seq::empty());
    assert(r.deep_view() =~= first_visits(all.take(0)));
    while i < places.len()
        invariant
            i <= places.len(),
            all == places.deep_view(),
            r.deep_view() == first_visits(all.take(i as int)),
        decreases places.len() - i,
    {
        let mut seen = false;
        let mut j: usize = 0;
        while j < i && !seen
            invariant
                j <= i < places.len(),
                all == places.deep_view(),
                seen ==> visited(all.take(i as int), all[i as int].1),
                !seen ==> forall|k: int|
                    0 <= k < j ==> (#[trigger] all[k]).1 != all[i as int].1,
            decreases i - j,
        {
            assert(all[j as int] == places[j as int].deep_view());
            assert(all[i as int] == places[i as int].deep_view());
            if same_text(&places[j].1, &places[i].1) {
                assert(all.take(i as int)[j as int].1 == all[i as int].1);
                seen = true;
            }
            j += 1;
        }
        let ghost before = r.deep_view();
        proof {
            assert(all.take(i + 1).drop_last() =~= all.take(i as int));
            assert(all.take(i + 1).last() == all[i as int]);
            assert(all[i as int] == places[i as int].deep_view());
            if !seen && visited(all.take(i as int), all[i as int].1) {
                let k = choose|k: int|
                    0 <= k < i && (#[trigger] all.take(i as int)[k]).1 == all[i as int].1;
                assert(all[k].1 == all[i as int].1);
            }
        }
        if !seen {
            r.push(places[i].0.clone());
            assert(r.deep_view() =~= before.push(all[i as int].0));
        }
        i += 1;
    }
    assert(all.take(i as int) =~= all);
    r
}

/// Where a place is, as far as it is known.
fn find_coord(geo: &GeoCache, place: &str) -> (r: Option<Coord>)
    ensures
        r == coord_of(geo@, place@),
{
    match geo.get(place) {
        Some(c) => *c,
        None => None,
    }
}

/// The stops of a journey through the places `names`, and then home.
pub fn build_stops(
    names: &Vec<String>,
    delivered: bool,
    home: Option<&str>,
    geo: &GeoCache,
) -> (r: Vec<Stop>)
    ensures
        r.deep_view() == stops_of(
            names.deep_view(),
            delivered,
            match home {
                Some(h) => Some(h@),
                None => None,
            },
            geo@,
        ),
{
    let mut r: Vec<Stop> = Vec::new();
    let n = names.len();
    let mut i: usize = 0;
    while i < n
        invariant
            i <= n,
            n == names.len(),
            r.len() == i,
            forall|k: int|
                0 <= k < i ==> (#[trigger] r[k]).deep_view() == (StopModel {
                    name: names[k]@,
                    coord: coord_of(geo@, names[k]@),
                    kind: visit_kind(k, n as int, delivered),
                }),
        decreases n - i,
    {
        let kind = if i == n - 1 {
            if delivered {
                StopKind::Waypoint
            } else {
                StopKind::Current
            }
        } else if i == 0 {
            StopKind::Origin
        } else {
            StopKind::Waypoint
        };
        r.push(Stop { name: names[i].clone(), coord: find_coord(geo, &names[i]), kind });
        i += 1;
    }
    if let Some(h) = home {
        r.push(Stop { name: h.to_owned(), coord: find_coord(geo, h), kind: StopKind::Home });
    }
    proof {
        let hm = match home {
            Some(h) => Some(h@),
            None => None,
        };
        assert(r.deep_view() =~= stops_of(names.deep_view(), delivered, hm, geo@));
    }
    r
}

/// The stops of a parcel's journey: the places of its events, the oldest first,
/// each once whatever the case of its letters; and then home, if it is set. The
/// last place is where the parcel is now, unless it has been delivered.
pub fn journey_stops(
    tracking: Option<&Tracking>,
    home: Option<&str>,
    geo: &GeoCache,
) -> (r: Vec<Stop>)
    ensures
        ({
            let tm = match tracking {
                Some(t) => Some(t.deep_view()),
                None => None,
            };
            r.deep_view() == stops_of(
                first_visits(tracked_places(tm)),
                is_delivered(tm),
                match home {
                    Some(h) => Some(h@),
                    None => None,
                },
                geo@,
            )
        }),
{
    let (places, delivered) = match tracking {
        Some(t) => (read_places(&t.events), t.status == Status::Delivered),
        None => (Vec::new(), false),
    };
    proof {
        let tm = match tracking {
            Some(t) => Some(t.deep_view()),
            None => None,
        };
        assert(places.deep_view() =~= tracked_places(tm));
    }
    let names = dedup_places(&places);
    build_stops(&names, delivered, home, geo)
}

/// The keys of places are their names in lower case.
spec fn keyed(places: Seq<(Seq<char>, Seq<char>)>) -> bool {
    forall|i: int|
        0 <= i < places.len() ==> (#[trigger] places[i]).1 == lower_case(places[i].0)
}

proof fn lemma_visited_push(
    places: Seq<(Seq<char>, Seq<char>)>,
    place: (Seq<char>, Seq<char>),
    key: Seq<char>,
)
    ensures
        visited(places.push(place), key) == (visited(places, key) || place.1 == key),
{
    let more = places.push(place);
    if visited(places, key) {
        let i = choose|i: int| 0 <= i < places.len() && (#[trigger] places[i]).1 == key;
        assert(more[i].1 == key);
    }
    if place.1 == key {
        assert(more[places.len() as int].1 == key);
    }
    if visited(more, key) && place.1 != key {
        let i = choose|i: int| 0 <= i < more.len() && (#[trigger] more[i]).1 == key;
        assert(places[i].1 == key);
    }
}

proof fn lemma_places_are_keyed(events: Seq<EventModel>)
    ensures
        keyed(places_visited(events)),
        forall|i: int|
            0 <= i < events.len() && place_of(#[trigger] events[i]) is Some ==> visited(
                places_visited(events),
                lower_case(place_of(events[i])->0),
            ),
    decreases events.len(),
{
    if events.len() > 0 {
        let rest = events.skip(1);
        lemma_places_are_keyed(rest);
        let older = places_visited(rest);
        assert forall|i: int| 0 <= i < events.len() && place_of(#[trigger] events[i]) is Some implies visited(
            places_visited(events),
            lower_case(place_of(events[i])->0),
        ) by {
            let key = lower_case(place_of(events[i])->0);
            if i > 0 {
                assert(rest[i - 1] == events[i]);
                assert(visited(older, key));
            }
            if let Some(name) = place_of(events[0]) {
                lemma_visited_push(older, (name, lower_case(name)), key);
            }
        }
    }
}

proof fn lemma_first_visits(places: Seq<(Seq<char>, Seq<char>)>)
    requires
        keyed(places),
    ensures
        forall|i: int|
            0 <= i < first_visits(places).len() ==> visited(
                places,
                lower_case(#[trigger] first_visits(places)[i]),
            ),
        forall|i: int, j: int|
            0 <= i < j < first_visits(places).len() ==> lower_case(
                #[trigger] first_visits(places)[i],
            ) != lower_case(#[trigger] first_visits(places)[j]),
        forall|key: Seq<char>| #[trigger]
            visited(places, key) ==> exists|i: int|
                0 <= i < first_visits(places).len() && lower_case(
                    #[trigger] first_visits(places)[i],
                ) == key,
    decreases places.len(),
{
    if places.len() > 0 {
        let front = places.drop_last();
        let last = places.last();
        assert forall|i: int| 0 <= i < front.len() implies (#[trigger] front[i]).1
            == lower_case(front[i].0) by {
            assert(places[i] == front[i]);
        }
        assert(places[places.len() - 1] == last);
        lemma_first_visits(front);
        assert(places =~= front.push(last));
        let before = first_visits(front);
        let after = first_visits(places);
        assert forall|key: Seq<char>| #[trigger] visited(places, key) implies exists|i: int|
            0 <= i < after.len() && lower_case(#[trigger] after[i]) == key by {
            lemma_visited_push(front, last, key);
            if visited(front, key) {
                let i = choose|i: int|
                    0 <= i < before.len() && lower_case(#[trigger] before[i]) == key;
                assert(after[i] == before[i]);
            } else {
                assert(after[before.len() as int] == last.0);
            }
        }
        assert forall|i: int| 0 <= i < after.len() implies visited(
            places,
            lower_case(#[trigger] after[i]),
        ) by {
            lemma_visited_push(front, last, lower_case(after[i]));
            if i < before.len() {
                assert(after[i] == before[i]);
            }
        }
        assert forall|i: int, j: int| 0 <= i < j < after.len() implies lower_case(
            #[trigger] after[i],
        ) != lower_case(#[trigger] after[j]) by {
            assert(after[i] == before[i]);
            if j < before.len() {
                assert(after[j] == before[j]);
            }
        }
    }
}

/// Every place that the parcel went through is a stop, and no place is a stop
/// twice, whatever the case of its letters.
pub proof fn law_every_place_is_one_stop(events: Seq<EventModel>)
    ensures
        ({
            let names = first_visits(places_visited(events));
            &&& forall|i: int|
                0 <= i < events.len() && place_of(#[trigger] events[i]) is Some ==> exists|k: int|
                    0 <= k < names.len() && lower_case(#[trigger] names[k])
                        == lower_case(place_of(events[i])->0)
            &&& forall|i: int, j: int|
                0 <= i < j < names.len() ==> lower_case(#[trigger] names[i])
                    != lower_case(#[trigger] names[j])
        }),
{
    lemma_places_are_keyed(events);
    lemma_first_visits(places_visited(events));
}

/// The stop `k` of those named `names` stands for the place `place`.
pub open spec fn stands_for(names: Seq<Seq<char>>, k: int, place: Seq<char>) -> bool {
    0 <= k < names.len() && lower_case(names[k]) == lower_case(place)
}

/// Two places whose names, in ASCII, differ in nothing but the case of their
/// letters share one stop.
pub proof fn law_case_of_letters_makes_no_stop(events: Seq<EventModel>, i: int, j: int)
    requires
        0 <= i < events.len(),
        0 <= j < events.len(),
        place_of(events[i]) matches Some(p) && all_ascii(p),
        place_of(events[j]) matches Some(p) && all_ascii(p),
        ascii_lower(place_of(events[i])->0) == ascii_lower(place_of(events[j])->0),
    ensures
        ({
            let names = first_visits(places_visited(events));
            let (a, b) = (place_of(events[i])->0, place_of(events[j])->0);
            exists|k: int| #[trigger]
                stands_for(names, k, a) && stands_for(names, k, b) && forall|l: int|
                    stands_for(names, l, a) || stands_for(names, l, b) ==> l == k
        }),
{
    law_every_place_is_one_stop(events);
    let names = first_visits(places_visited(events));
    let (a, b) = (place_of(events[i])->0, place_of(events[j])->0);
    assert(lower_case(a) == lower_case(b));
    let k = choose|k: int|
        0 <= k < names.len() && lower_case(#[trigger] names[k]) == lower_case(a);
    assert(stands_for(names, k, a));
    assert forall|l: int| stands_for(names, l, a) || stands_for(names, l, b) implies l == k by {
        if l < k {
            assert(lower_case(names[l]) != lower_case(names[k]));
        } else if k < l {
            assert(lower_case(names[k]) != lower_case(names[l]));
        }
    }
}

/// A journey ends at home, if home is set, and nowhere else is home. The parcel
/// is at most at one stop now: the last place it went through, and none once it
/// has been delivered.
pub proof fn law_journey_ends_at_home(
    names: Seq<Seq<char>>,
    delivered: bool,
    home: Option<Seq<char>>,
    geo: Map<Seq<char>, Option<Coord>>,
    i: int,
)
    requires
        0 <= i < stops_of(names, delivered, home, geo).len(),
    ensures
        ({
            let stops = stops_of(names, delivered, home, geo);
            &&& (stops[i].kind is Home) == (home is Some && i == stops.len() - 1)
            &&& (stops[i].kind is Current) == (!delivered && i == names.len() - 1)
            &&& i < names.len() ==> stops[i].name == names[i]
        }),
{
}

// ---------------------------------------------------------------------------
// The strip
// ---------------------------------------------------------------------------
/// A character with its color.
pub type CellText = (char, Option<Color>);

/// The glyph of a stop.
pub open spec fn glyph(kind: StopKind, delivered: bool) -> char {
    match kind {
        StopKind::Origin | StopKind::Waypoint => '\u{25cf}',
        StopKind::Current => '\u{25c9}',
        StopKind::Home => if delivered {
            '\u{2714}'
        } else {
            '\u{25cb}'
        },
    }
}

/// What stands below a stop.
pub open spec fn label_below(kind: StopKind) -> Seq<char> {
    match kind {
        StopKind::Origin => "origin"@,
        StopKind::Current => "now"@,
        StopKind::Home => "home"@,
        StopKind::Waypoint => ""@,
    }
}

/// The column of the stop `i` of `n` in a strip of `w` columns: the stops are
/// spread evenly, the first at the left end and the last at the right.
pub open spec fn column(i: int, n: int, w: int) -> int {
    if n <= 1 {
        0
    } else {
        i * (w - 1) / (n - 1)
    }
}

/// The last of the stops up to `i` that is not to the right of column `c`.
pub open spec fn stop_before(c: int, n: int, w: int, i: int) -> int
    decreases i,
{
    if i <= 0 {
        0
    } else if column(i, n, w) <= c {
        i
    } else {
        stop_before(c, n, w, i - 1)
    }
}

/// The first stop from `i` on where the parcel is now; the first stop of all
/// where there is none.
pub open spec fn current_stop(stops: Seq<StopModel>, i: int) -> int
    decreases stops.len() - i,
{
    if !(0 <= i < stops.len()) {
        0
    } else if stops[i].kind == StopKind::Current {
        i
    } else {
        current_stop(stops, i + 1)
    }
}

/// The last stop that the parcel has reached.
pub open spec fn reached(stops: Seq<StopModel>, status: Status) -> int {
    if status == Status::Delivered {
        stops.len() - 1
    } else {
        current_stop(stops, 0)
    }
}

/// The cell at column `c` of the track. At a stop it is the stop's glyph.
/// Between two stops it is a line: solid on the way that is behind the parcel,
/// and dashed on the way ahead, with a pulse that moves on with each tick.
pub open spec fn track_cell(
    stops: Seq<StopModel>,
    status: Status,
    tick: int,
    w: int,
    c: int,
) -> CellText {
    let n = stops.len() as int;
    let k = stop_before(c, n, w, n - 1);
    let from = column(k, n, w);
    if c == from {
        (
            glyph(stops[k].kind, status == Status::Delivered),
            Some(
                if k <= reached(stops, status) {
                    color_of_status(status)
                } else {
                    DIM
                },
            ),
        )
    } else if k == n - 1 {
        (' ', None)
    } else if k < reached(stops, status) {
        ('\u{2501}', Some(color_of_status(status)))
    } else if c == from + 1 + tick % (column(k + 1, n, w) - from - 1) {
        ('\u{25b8}', Some(Color::Indexed(WARN)))
    } else {
        ('\u{2504}', Some(DIM))
    }
}

/// The track of the strip.
pub open spec fn track(stops: Seq<StopModel>, status: Status, tick: int, w: int) -> Seq<CellText> {
    Seq::new(w as nat, |c: int| track_cell(stops, status, tick, w, c))
}

/// Where a text of `len` characters starts that is centered on column `c` of a
/// row of `w` cells and stays inside it.
pub open spec fn centered_start(c: int, len: int, w: int) -> int {
    let left = if c < len / 2 {
        0
    } else {
        c - len / 2
    };
    if len >= w {
        0
    } else if left < w - len {
        left
    } else {
        w - len
    }
}

/// The row with a text written into it, centered on column `c`. What does not
/// fit is cut off.
pub open spec fn with_text(
    row: Seq<CellText>,
    c: int,
    text: Seq<char>,
    color: Option<Color>,
) -> Seq<CellText> {
    let start = centered_start(c, text.len() as int, row.len() as int);
    Seq::new(
        row.len(),
        |x: int|
            if start <= x < start + text.len() {
                (text[x - start], color)
            } else {
                row[x]
            },
    )
}

/// A row of `w` blank cells.
pub open spec fn blank_row(w: int) -> Seq<CellText> {
    Seq::new(w as nat, |x: int| (' ', None))
}

/// How many characters of a name are shown when `n` stops share `w` columns: two
/// less than its share of the columns, but three where its share holds them.
pub open spec fn name_room(n: int, w: int) -> int {
    if w / n >= 5 {
        w / n - 2
    } else if w / n >= 3 {
        3
    } else {
        w / n
    }
}

/// The names of the first `k` stops, each above its stop.
pub open spec fn names_row(stops: Seq<StopModel>, w: int, k: int) -> Seq<CellText>
    decreases k,
{
    let n = stops.len() as int;
    if k <= 0 {
        blank_row(w)
    } else {
        with_text(
            names_row(stops, w, k - 1),
            column(k - 1, n, w),
            truncated(stops[k - 1].name, name_room(n, w)),
            None,
        )
    }
}

/// There is no stop but home.
pub open spec fn only_home(stops: Seq<StopModel>) -> bool {
    stops.len() == 1 && stops[0].kind == StopKind::Home
}

/// What stands below the stop `i`.
pub open spec fn stop_label(stops: Seq<StopModel>, i: int) -> Seq<char> {
    if only_home(stops) {
        "waiting for first scan"@
    } else {
        label_below(stops[i].kind)
    }
}

/// The labels of the first `k` stops, each below its stop.
pub open spec fn labels_row(stops: Seq<StopModel>, w: int, k: int) -> Seq<CellText>
    decreases k,
{
    if k <= 0 {
        blank_row(w)
    } else {
        with_text(
            labels_row(stops, w, k - 1),
            column(k - 1, stops.len() as int, w),
            stop_label(stops, k - 1),
            Some(DIM),
        )
    }
}

/// The style of a cell's color.
pub open spec fn cell_style(color: Option<Color>) -> Style {
    match color {
        Some(c) => colored(c),
        None => plain(),
    }
}

/// The row as a line: neighboring cells of one color are one piece of text.
pub open spec fn grouped(cells: Seq<CellText>) -> Seq<SpanModel>
    decreases cells.len(),
{
    if cells.len() == 0 {
        Seq::empty()
    } else {
        let front = grouped(cells.drop_last());
        let (ch, color) = cells.last();
        if cells.len() > 1 && cells[cells.len() - 2].1 == color {
            front.drop_last().push(
                styled(front.last().content.push(ch), cell_style(color)),
            )
        } else {
            front.push(styled(seq![ch], cell_style(color)))
        }
    }
}

/// The columns of a strip: at least one.
pub open spec fn strip_width(width: int) -> int {
    if width < 1 {
        1
    } else {
        width
    }
}

/// The lines of the strip: the names, the track and the labels; and one line
/// that says so where there is no stop.
pub open spec fn strip(stops: Seq<StopModel>, status: Status, tick: int, width: int) -> Seq<
    Seq<SpanModel>,
> {
    let w = strip_width(width);
    let n = stops.len() as int;
    if n == 0 {
        seq![seq![styled("no locations yet"@, colored(DIM))]]
    } else {
        seq![
            grouped(names_row(stops, w, n)),
            grouped(track(stops, status, tick, w)),
            grouped(labels_row(stops, w, n)),
        ]
    }
}

pub proof fn lemma_column_bounds(i: int, n: int, w: int)
    requires
        0 <= i < n,
        w >= 1,
    ensures
        0 <= column(i, n, w) < w,
        i == 0 ==> column(i, n, w) == 0,
        n > 1 && i == n - 1 ==> column(i, n, w) == w - 1,
{
    if n > 1 {
        let d = n - 1;
        let m = w - 1;
        lemma_mul_inequality(0, i, m);
        lemma_mul_inequality(i, d, m);
        lemma_div_is_ordered(0, i * m, d);
        lemma_div_is_ordered(i * m, d * m, d);
        lemma_div_multiples_vanish(m, d);
        lemma_div_basics(d);
    }
}

pub proof fn lemma_columns_ascend(i: int, j: int, n: int, w: int)
    requires
        0 <= i <= j < n,
        w >= 1,
    ensures
        column(i, n, w) <= column(j, n, w),
{
    if n > 1 {
        let d = n - 1;
        let m = w - 1;
        lemma_mul_inequality(i, j, m);
        lemma_div_is_ordered(i * m, j * m, d);
    }
}

pub proof fn lemma_stop_before(c: int, n: int, w: int, i: int, k: int)
    requires
        0 <= k <= i < n,
        w >= 1,
        column(k, n, w) <= c,
        k + 1 < n ==> column(k + 1, n, w) > c,
    ensures
        stop_before(c, n, w, i) == k,
    decreases i,
{
    if i > k {
        lemma_columns_ascend(k + 1, i, n, w);
        lemma_stop_before(c, n, w, i - 1, k);
    }
}

/// The stop that a column belongs to lies at or before it, and the next one
/// behind it.
pub proof fn lemma_stop_before_is_last(c: int, n: int, w: int, i: int)
    requires
        0 <= i < n,
        w >= 1,
        0 <= c,
        i + 1 < n ==> column(i + 1, n, w) > c,
    ensures
        ({
            let k = stop_before(c, n, w, i);
            &&& 0 <= k <= i
            &&& column(k, n, w) <= c
            &&& k + 1 < n ==> column(k + 1, n, w) > c
        }),
    decreases i,
{
    lemma_column_bounds(0, n, w);
    if i > 0 && column(i, n, w) > c {
        lemma_stop_before_is_last(c, n, w, i - 1);
    }
}

/// The column of the stop `i`.
fn column_of(i: usize, n: usize, w: usize) -> (r: usize)
    requires
        i < n,
        1 <= w <= u16::MAX,
    ensures
        r == column(i as int, n as int, w as int),
        r < w,
{
    proof {
        lemma_column_bounds(i as int, n as int, w as int);
    }
    if n <= 1 {
        return 0;
    }
    assert(0 <= i * (w - 1) <= 0xffff_ffff_ffff_ffff * 65535) by (nonlinear_arith)
        requires
            0 <= i <= 0xffff_ffff_ffff_ffff,
            0 <= w - 1 <= 65535,
    ;
    (i as u128 * (w as u128 - 1) / (n as u128 - 1)) as usize
}

/// The glyph of a stop.
fn glyph_char(kind: StopKind, delivered: bool) -> (r: char)
    ensures
        r == glyph(kind, delivered),
{
    match kind {
        StopKind::Origin | StopKind::Waypoint => '\u{25cf}',
        StopKind::Current => '\u{25c9}',
        StopKind::Home => if delivered {
            '\u{2714}'
        } else {
            '\u{25cb}'
        },
    }
}

/// What stands below a stop.
fn sub_label(kind: StopKind) -> (r: &'static str)
    ensures
        r@ == label_below(kind),
{
    match kind {
        StopKind::Origin => "origin",
        StopKind::Current => "now",
        StopKind::Home => "home",
        StopKind::Waypoint => "",
    }
}

/// At most `max_len` characters of a name: a longer one is cut and ends in an
/// ellipsis, where there is room for one.
pub fn truncate_name(name: &str, max_len: usize) -> (r: String)
    ensures
        r@ == truncated(name@, max_len as int),
        r@.len() <= max_len,
{
    truncate_text(name, max_len)
}

/// A row of `w` blank cells.
fn blank_cells(w: usize) -> (r: Vec<CellText>)
    ensures
        r@ == blank_row(w as int),
{
    let mut r: Vec<CellText> = Vec::new();
    while r.len() < w
        invariant
            r.len() <= w,
            forall|x: int| 0 <= x < r.len() ==> (#[trigger] r[x]) == (' ', None::<Color>),
        decreases w - r.len(),
    {
        r.push((' ', None));
    }
    assert(r@ =~= blank_row(w as int));
    r
}

/// Writes a text into a row, centered on column `col`. What does not fit is cut
/// off.
fn place_centered(row: &mut Vec<CellText>, col: usize, text: &str, color: Option<Color>)
    ensures
        final(row)@ == with_text(old(row)@, col as int, text@, color),
{
    let chars = chars_of(text);
    let w = row.len();
    let len = chars.len();
    let left: usize = if col < len / 2 {
        0
    } else {
        col - len / 2
    };
    let start: usize = if len >= w {
        0
    } else if left < w - len {
        left
    } else {
        w - len
    };
    let ghost before = row@;
    let mut i: usize = 0;
    while i < len && start + i < w
        invariant
            i <= len,
            start <= w,
            start + i <= w || i == 0,
            len == chars.len(),
            chars@ == text@,
            w == row.len(),
            w == before.len(),
            forall|x: int|
                0 <= x < w ==> (#[trigger] row[x]) == if start <= x < start + i {
                    (chars[x - start], color)
                } else {
                    before[x]
                },
        decreases len - i,
    {
        row.set(start + i, (chars[i], color));
        i += 1;
    }
    assert(row@ =~= with_text(before, col as int, text@, color));
}

/// The style of a cell's color.
fn span_for(text: String, color: Option<Color>) -> (r: Span)
    ensures
        r.deep_view() == styled(text@, cell_style(color)),
{
    match color {
        Some(c) => Span::styled(text, Style::fg(c)),
        None => Span::raw(text),
    }
}

/// Whether two cells have the same color.
fn same_color(a: &Option<Color>, b: &Option<Color>) -> (r: bool)
    ensures
        r == (*a == *b),
{
    match (a, b) {
        (Some(x), Some(y)) => *x == *y,
        (None, None) => true,
        _ => false,
    }
}

/// The row as a line: neighboring cells of one color are one piece of text.
fn cells_to_line(cells: &Vec<CellText>) -> (r: Line)
    ensures
        r.deep_view() == grouped(cells@),
{
    let mut spans: Vec<Span> = Vec::new();
    if cells.len() == 0 {
        let r = Line { spans };
        assert(r.deep_view() =~= grouped(cells@));
        return r;
    }
    let mut text = String::new();
    text.push(cells[0].0);
    let mut i: usize = 1;
    proof {
        let one = cells@.take(1);
        assert(one.drop_last() =~= Seq::empty());
        assert(one.last() == cells@[0]);
        reveal_with_fuel(grouped, 2);
        assert(text@ =~= seq![cells@[0].0]);
        assert(grouped(one) =~= spans.deep_view().push(styled(text@, cell_style(cells@[0].1))));
    }
    while i < cells.len()
        invariant
            1 <= i <= cells.len(),
            grouped(cells@.take(i as int)) == spans.deep_view().push(
                styled(text@, cell_style(cells@[i - 1].1)),
            ),
        decreases cells.len() - i,
    {
        let ghost now = cells@.take(i as int);
        let ghost next = cells@.take(i + 1);
        let ghost before = spans.deep_view();
        let ghost was = text@;
        proof {
            assert(next.drop_last() =~= now);
            assert(next.last() == cells@[i as int]);
            assert(next[next.len() - 2] == cells@[i - 1]);
        }
        let color = cells[i - 1].1;
        if !same_color(&cells[i].1, &color) {
            let mut done = String::new();
            std::mem::swap(&mut done, &mut text);
            let span = span_for(done, color);
            let ghost sm = span.deep_view();
            spans.push(span);
            text.push(cells[i].0);
            proof {
                assert(spans.deep_view() =~= before.push(sm));
                assert(text@ =~= seq![cells@[i as int].0]);
                assert(grouped(next) == grouped(now).push(
                    styled(text@, cell_style(cells@[i as int].1)),
                ));
            }
        } else {
            text.push(cells[i].0);
            proof {
                assert(grouped(now).drop_last() =~= before);
                assert(grouped(now).last().content == was);
            }
        }
        i += 1;
    }
    assert(cells@.take(i as int) =~= cells@);
    let ghost before = spans.deep_view();
    let span = span_for(text, cells[i - 1].1);
    let ghost sm = span.deep_view();
    spans.push(span);
    assert(spans.deep_view() =~= before.push(sm));
    Line { spans }
}

/// The last stop that the parcel has reached.
fn reached_stop(stops: &Vec<Stop>, status: Status) -> (r: usize)
    requires
        stops.len() > 0,
    ensures
        r == reached(stops.deep_view(), status),
        r < stops.len(),
{
    if status == Status::Delivered {
        return stops.len() - 1;
    }
    let ghost all = stops.deep_view();
    let mut i: usize = 0;
    while i < stops.len()
        invariant
            i <= stops.len(),
            stops.len() > 0,
            all == stops.deep_view(),
            status != Status::Delivered,
            current_stop(all, 0) == current_stop(all, i as int),
        decreases stops.len() - i,
    {
        assert(all[i as int] == stops[i as int].deep_view());
        if stops[i].kind == StopKind::Current {
            return i;
        }
        i += 1;
    }
    0
}

/// The track of the strip.
fn track_cells(stops: &Vec<Stop>, status: Status, tick: usize, w: usize) -> (r: Vec<CellText>)
    requires
        stops.len() > 0,
        1 <= w <= u16::MAX,
    ensures
        r@ == track(stops.deep_view(), status, tick as int, w as int),
{
    let n = stops.len();
    let ghost all = stops.deep_view();
    let delivered = status == Status::Delivered;
    let upto = reached_stop(stops, status);
    let mut r: Vec<CellText> = Vec::new();
    let mut k: usize = 0;
    let mut c: usize = 0;
    proof {
        lemma_column_bounds(0, n as int, w as int);
    }
    while c < w
        invariant
            c <= w,
            k < n,
            n == stops.len(),
            all == stops.deep_view(),
            1 <= w <= u16::MAX,
            delivered == (status == Status::Delivered),
            upto == reached(all, status),
            r.len() == c,
            column(k as int, n as int, w as int) <= c,
            forall|x: int|
                0 <= x < c ==> (#[trigger] r[x]) == track_cell(
                    all,
                    status,
                    tick as int,
                    w as int,
                    x,
                ),
        decreases w - c,
    {
        while k + 1 < n && column_of(k + 1, n, w) <= c
            invariant
                k < n,
                1 <= w <= u16::MAX,
                column(k as int, n as int, w as int) <= c,
            decreases n - k,
        {
            k += 1;
        }
        proof {
            lemma_stop_before(c as int, n as int, w as int, n - 1, k as int);
            assert(all[k as int] == stops[k as int].deep_view());
        }
        let from = column_of(k, n, w);
        let cell: CellText = if c == from {
            let color = if k <= upto {
                status_color(status)
            } else {
                DIM
            };
            (glyph_char(stops[k].kind, delivered), Some(color))
        } else if k == n - 1 {
            (' ', None)
        } else if k < upto {
            ('\u{2501}', Some(status_color(status)))
        } else {
            let next = column_of(k + 1, n, w);
            let len: usize = next - from - 1;
            if c == from + 1 + tick % len {
                ('\u{25b8}', Some(Color::Indexed(WARN)))
            } else {
                ('\u{2504}', Some(DIM))
            }
        };
        r.push(cell);
        c += 1;
    }
    assert(r@ =~= track(all, status, tick as int, w as int));
    r
}

/// The strip of a journey: the names of the stops, the track with a glyph for
/// each, and what each stop is. The stops are spread evenly over `width`
/// columns. The way behind the parcel is solid and in the color of its status;
/// the way ahead is dashed and dim, with a pulse that moves on with each tick.
/// The way of a delivered parcel is solid, with a check mark at home.
pub fn render_strip(stops: &Vec<Stop>, status: Status, tick: usize, width: u16) -> (r: Vec<Line>)
    ensures
        r.deep_view() == strip(stops.deep_view(), status, tick as int, width as int),
{
    let ghost all = stops.deep_view();
    let mut r: Vec<Line> = Vec::new();
    if stops.len() == 0 {
        let mut spans: Vec<Span> = Vec::new();
        spans.push(Span::styled("no locations yet".to_owned(), Style::fg(DIM)));
        let line = Line { spans };
        assert(line.deep_view() =~= seq![styled("no locations yet"@, colored(DIM))]);
        r.push(line);
        assert(r.deep_view() =~= strip(all, status, tick as int, width as int));
        return r;
    }
    let w: usize = if width < 1 {
        1
    } else {
        width as usize
    };
    let n = stops.len();
    let room: usize = if w / n >= 5 {
        w / n - 2
    } else if w / n >= 3 {
        3
    } else {
        w / n
    };
    let waiting = n == 1 && stops[0].kind == StopKind::Home;
    proof {
        assert(all[0] == stops[0].deep_view());
        assert(waiting == only_home(all));
    }
    let track = track_cells(stops, status, tick, w);
    let mut names = blank_cells(w);
    let mut labels = blank_cells(w);
    let mut i: usize = 0;
    while i < n
        invariant
            i <= n,
            n == stops.len(),
            all == stops.deep_view(),
            1 <= w <= u16::MAX,
            room == name_room(n as int, w as int),
            waiting == only_home(all),
            names@ == names_row(all, w as int, i as int),
            labels@ == labels_row(all, w as int, i as int),
        decreases n - i,
    {
        assert(all[i as int] == stops[i as int].deep_view());
        let col = column_of(i, n, w);
        let name = truncate_name(&stops[i].name, room);
        place_centered(&mut names, col, &name, None);
        let label = if waiting {
            "waiting for first scan"
        } else {
            sub_label(stops[i].kind)
        };
        place_centered(&mut labels, col, label, Some(DIM));
        i += 1;
    }
    r.push(cells_to_line(&names));
    r.push(cells_to_line(&track));
    r.push(cells_to_line(&labels));
    assert(r.deep_view() =~= strip(all, status, tick as int, width as int));
    r
}

/// The characters of a row of cells.
pub open spec fn cell_chars(cells: Seq<CellText>) -> Seq<char> {
    Seq::new(cells.len(), |i: int| cells[i].0)
}

/// Putting cells together into pieces of text changes no character.
pub proof fn law_grouping_keeps_the_text(cells: Seq<CellText>)
    ensures
        line_chars(grouped(cells)) == cell_chars(cells),
        grouped(cells).len() > 0 <==> cells.len() > 0,
    decreases cells.len(),
{
    if cells.len() > 0 {
        let front = cells.drop_last();
        law_grouping_keeps_the_text(front);
        let (ch, color) = cells.last();
        let g = grouped(front);
        if cells.len() > 1 && cells[cells.len() - 2].1 == color {
            let longer = styled(g.last().content.push(ch), cell_style(color));
            assert(g.drop_last().push(longer).drop_last() =~= g.drop_last());
            assert(line_chars(g) == line_chars(g.drop_last()) + g.last().content);
            assert(line_chars(grouped(cells)) =~= line_chars(g).push(ch));
        } else {
            assert(g.push(styled(seq![ch], cell_style(color))).drop_last() =~= g);
            assert(line_chars(grouped(cells)) =~= line_chars(g).push(ch));
        }
        assert(cell_chars(cells) =~= cell_chars(front).push(ch));
    } else {
        assert(line_chars(grouped(cells)) =~= cell_chars(cells));
    }
}

proof fn lemma_rows_are_wide(stops: Seq<StopModel>, w: int, k: int)
    requires
        w >= 0,
    ensures
        names_row(stops, w, k).len() == w,
        labels_row(stops, w, k).len() == w,
    decreases k,
{
    if k > 0 {
        lemma_rows_are_wide(stops, w, k - 1);
    }
}

/// A name fits into its stop's share of the columns.
pub proof fn law_names_fit_their_share(name: Seq<char>, n: int, w: int)
    requires
        n > 0,
        w >= 0,
    ensures
        truncated(name, name_room(n, w)).len() <= w / n,
{
    vstd::arithmetic::div_mod::lemma_div_pos_is_pos(w, n);
}

/// Every line of the strip is as wide as the strip, however narrow that is and
/// however long the names are: one character for each column.
pub proof fn law_strip_fits_its_width(
    stops: Seq<StopModel>,
    status: Status,
    tick: int,
    width: int,
    i: int,
)
    requires
        stops.len() > 0,
        0 <= i < 3,
    ensures
        strip(stops, status, tick, width).len() == 3,
        line_chars(strip(stops, status, tick, width)[i]).len() == strip_width(width),
{
    let w = strip_width(width);
    let n = stops.len() as int;
    lemma_rows_are_wide(stops, w, n);
    law_grouping_keeps_the_text(names_row(stops, w, n));
    law_grouping_keeps_the_text(track(stops, status, tick, w));
    law_grouping_keeps_the_text(labels_row(stops, w, n));
}

/// The way of a delivered parcel is solid from end to end: no cell of its track
/// is dashed, and nothing moves on it.
pub proof fn law_delivered_track_is_solid(
    stops: Seq<StopModel>,
    tick: int,
    later: int,
    w: int,
    c: int,
)
    requires
        stops.len() > 0,
        w >= 1,
        0 <= c < w,
    ensures
        track_cell(stops, Status::Delivered, tick, w, c).0 != '\u{2504}',
        track_cell(stops, Status::Delivered, tick, w, c).0 != '\u{25b8}',
        track_cell(stops, Status::Delivered, tick, w, c) == track_cell(
            stops,
            Status::Delivered,
            later,
            w,
            c,
        ),
{
    let n = stops.len() as int;
    lemma_stop_before_is_last(c, n, w, n - 1);
}

/// The pulse moves: where it is at one tick it is not at the next, as long as
/// there is another column between the two stops for it to go to.
pub proof fn law_pulse_moves_on(
    stops: Seq<StopModel>,
    status: Status,
    tick: int,
    w: int,
    c: int,
)
    requires
        stops.len() > 0,
        w >= 1,
        0 <= c < w,
        tick >= 0,
        track_cell(stops, status, tick, w, c).0 == '\u{25b8}',
        ({
            let n = stops.len() as int;
            let k = stop_before(c, n, w, n - 1);
            column(k + 1, n, w) - column(k, n, w) > 2
        }),
    ensures
        track_cell(stops, status, tick + 1, w, c) == ('\u{2504}', Some(DIM)),
{
    let n = stops.len() as int;
    let k = stop_before(c, n, w, n - 1);
    lemma_stop_before_is_last(c, n, w, n - 1);
    let len = column(k + 1, n, w) - column(k, n, w) - 1;
    lemma_next_remainder(tick, len);
}

proof fn lemma_next_remainder(n: int, d: int)
    requires
        d > 1,
    ensures
        (n + 1) % d != n % d,
{
    let q = n / d;
    let r = n % d;
    lemma_fundamental_div_mod(n, d);
    assert(n == q * d + r) by (nonlinear_arith)
        requires
            n == d * q + r,
    ;
    if r + 1 < d {
        lemma_fundamental_div_mod_converse_mod(n + 1, d, q, r + 1);
    } else {
        assert((q + 1) * d == q * d + d) by (nonlinear_arith);
        lemma_fundamental_div_mod_converse_mod(n + 1, d, q + 1, 0);
    }
}

/// Each stop stands on the track at its column, unless a later one stands
/// there: the first at the left end, and the last of several at the right.
pub proof fn law_stops_stand_on_the_track(
    stops: Seq<StopModel>,
    status: Status,
    tick: int,
    w: int,
    i: int,
)
    requires
        w >= 1,
        0 <= i < stops.len(),
        i + 1 < stops.len() ==> column(i, stops.len() as int, w) < column(
            i + 1,
            stops.len() as int,
            w,
        ),
    ensures
        0 <= column(i, stops.len() as int, w) < w,
        track_cell(stops, status, tick, w, column(i, stops.len() as int, w)).0 == glyph(
            stops[i].kind,
            status == Status::Delivered,
        ),
        column(0, stops.len() as int, w) == 0,
        stops.len() > 1 ==> column(stops.len() - 1, stops.len() as int, w) == w - 1,
{
    let n = stops.len() as int;
    lemma_column_bounds(i, n, w);
    lemma_column_bounds(0, n, w);
    lemma_column_bounds(n - 1, n, w);
    lemma_stop_before(column(i, n, w), n, w, n - 1, i);
}

} // verus!
