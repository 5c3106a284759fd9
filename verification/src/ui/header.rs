//! The line at the top: how many parcels there are, whether home is set, when
//! the next poll comes, and what went wrong last.
use vstd::prelude::*;

use crate::app::{App, AppModel};
use crate::clock::{elapsed, Moment, Timestamp};
use crate::numerals::{decimal, to_decimal};
use crate::provider::Status;
use crate::store::{ParcelModel, ParcelStateModel};
use crate::text::{concat2, concat3};
use crate::ui::theme::{
    colored, raw, styled, Color, Line, Span, SpanModel, Style, ACCENT, DIM, ERROR_BG,
};
use crate::ui::{humanize, span_text};

verus! {

/// The parcel will be polled again: something is known of it, and it has not
/// been delivered.
pub open spec fn awaits_poll(
    cache: Map<Seq<char>, ParcelStateModel>,
    number: Seq<char>,
) -> bool {
    &&& cache.contains_key(number)
    &&& !(cache[number].tracking matches Some(t) && t.status == Status::Delivered)
}

/// When the next of the parcels is polled, if one will be.
pub open spec fn earliest_poll(
    parcels: Seq<ParcelModel>,
    cache: Map<Seq<char>, ParcelStateModel>,
) -> Option<Moment>
    decreases parcels.len(),
{
    if parcels.len() == 0 {
        None
    } else {
        let before = earliest_poll(parcels.drop_last(), cache);
        let number = parcels.last().number;
        if awaits_poll(cache, number) {
            match before {
                Some(b) if b.le(cache[number].next_poll) => Some(b),
                _ => Some(cache[number].next_poll),
            }
        } else {
            before
        }
    }
}

/// The next poll in words.
pub open spec fn next_poll_text(app: AppModel, now: Moment) -> Seq<char> {
    match earliest_poll(app.parcels.parcels, app.cache.by_number) {
        Some(t) => "next poll "@ + span_text(elapsed(t, now)),
        None => "next poll \u{2014}"@,
    }
}

/// The line at the top.
pub open spec fn header(app: AppModel, now: Moment) -> Seq<SpanModel> {
    let home = if app.parcels.home is Some {
        styled("\u{2302} set"@, colored(Color::Green))
    } else {
        styled("\u{2302} unset"@, colored(DIM))
    };
    let spans = seq![
        styled(
            " parcli "@,
            Style { fg: Some(Color::Black), bg: Some(ACCENT), bold: true, italic: false },
        ),
        raw(" "@ + decimal(app.parcels.parcels.len()) + " parcels \u{b7} "@),
        home,
        raw(" \u{b7} "@ + next_poll_text(app, now)),
    ];
    match app.last_error {
        Some(e) => spans.push(raw(" \u{b7} "@)).push(
            styled(
                " "@ + e + " "@,
                Style {
                    fg: Some(Color::Red),
                    bg: Some(Color::Indexed(ERROR_BG)),
                    bold: false,
                    italic: false,
                },
            ),
        ),
        None => spans,
    }
}

/// When the next of the parcels is polled, if one will be.
fn find_earliest_poll(app: &App) -> (r: Option<Timestamp>)
    ensures
        r.deep_view() == earliest_poll(
            app.deep_view().parcels.parcels,
            app.deep_view().cache.by_number,
        ),
{
    let parcels = &app.parcels.parcels;
    let ghost all = parcels.deep_view();
    let ghost cache = app.deep_view().cache.by_number;
    let mut best: Option<Timestamp> = None;
    let mut i: usize = 0;
    assert(all.take(0) =~= Seq::empty());
    while i < parcels.len()
        invariant
            i <= parcels.len(),
            all == parcels.deep_view(),
            cache == app.deep_view().cache.by_number,
            best.deep_view() == earliest_poll(all.take(i as int), cache),
        decreases parcels.len() - i,
    {
        proof {
            assert(all.take(i + 1).drop_last() =~= all.take(i as int));
            assert(all.take(i + 1).last() == all[i as int]);
            assert(all[i as int] == parcels[i as int].deep_view());
        }
        if let Some(s) = app.state_for(&parcels[i].number) {
            let delivered = match &s.tracking {
                Some(t) => t.status == Status::Delivered,
                None => false,
            };
            if !delivered {
                best = match best {
                    Some(b) => if b.not_after(&s.next_poll) {
                        Some(b)
                    } else {
                        Some(s.next_poll)
                    },
                    None => Some(s.next_poll),
                };
            }
        }
        i += 1;
    }
    assert(all.take(i as int) =~= all);
    best
}

/// The line at the top.
pub fn header_line(app: &App, now: Timestamp) -> (r: Line)
    ensures
        r.deep_view() == header(app.deep_view(), now@),
{
    let next = match find_earliest_poll(app) {
        Some(t) => concat2("next poll ", &humanize(t.since(&now))),
        None => "next poll \u{2014}".to_owned(),
    };
    let home = if app.parcels.home.is_some() {
        Span::styled("\u{2302} set".to_owned(), Style::fg(Color::Green))
    } else {
        Span::styled("\u{2302} unset".to_owned(), Style::fg(DIM))
    };
    let mut spans: Vec<Span> = Vec::new();
    spans.push(Span::styled(" parcli ".to_owned(), Style::fg(Color::Black).bg(ACCENT).bold()));
    spans.push(
        Span::raw(concat3(" ", &to_decimal(app.parcels.parcels.len() as u64), " parcels \u{b7} ")),
    );
    spans.push(home);
    spans.push(Span::raw(concat2(" \u{b7} ", &next)));
    if let Some(e) = &app.last_error {
        spans.push(Span::raw(" \u{b7} ".to_owned()));
        spans.push(
            Span::styled(concat3(" ", e, " "), Style::fg(Color::Red).bg(Color::Indexed(ERROR_BG))),
        );
    }
    assert(spans.deep_view() =~= header(app.deep_view(), now@));
    Line { spans }
}

/// The poll that is shown is the earliest: no parcel that will be polled is
/// polled before it, and some parcel is polled then. Delivered parcels do not
/// count.
pub proof fn law_header_shows_the_earliest_poll(
    parcels: Seq<ParcelModel>,
    cache: Map<Seq<char>, ParcelStateModel>,
)
    ensures
        match earliest_poll(parcels, cache) {
            Some(e) => {
                &&& forall|i: int|
                    0 <= i < parcels.len() && awaits_poll(
                        cache,
                        (#[trigger] parcels[i]).number,
                    ) ==> e.le(cache[parcels[i].number].next_poll)
                &&& exists|i: int|
                    0 <= i < parcels.len() && awaits_poll(cache, (#[trigger] parcels[i]).number)
                        && cache[parcels[i].number].next_poll == e
            },
            None => forall|i: int|
                0 <= i < parcels.len() ==> !awaits_poll(cache, (#[trigger] parcels[i]).number),
        },
    decreases parcels.len(),
{
    if parcels.len() > 0 {
        let front = parcels.drop_last();
        let last = parcels.last();
        law_header_shows_the_earliest_poll(front, cache);
        assert(parcels[parcels.len() - 1] == last);
        assert forall|i: int| 0 <= i < front.len() implies #[trigger] parcels[i] == front[i] by {}
        match earliest_poll(front, cache) {
            Some(b) => {
                let k = choose|i: int|
                    0 <= i < front.len() && awaits_poll(cache, (#[trigger] front[i]).number)
                        && cache[front[i].number].next_poll == b;
                assert(parcels[k] == front[k]);
            },
            None => {},
        }
    }
}

} // verus!
