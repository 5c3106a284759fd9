//! The map of a journey: its pins, and the lines between them.
use vstd::prelude::*;

use crate::geo::Coord;
use crate::journey::{Stop, StopKind, StopModel};
use crate::provider::Status;
use crate::text::{concat3, truncate_text, truncated};
use crate::ui::theme::{Color, ACCENT, DIM};
use crate::ui::{color_of_status, status_color};

verus! {

/// The title of the frame.
pub const TITLE: &'static str = " map ";

/// What is shown where no stop has a place.
pub const EMPTY_HINT: &'static str = "no locations yet";

/// How many characters of a name stand beside a pin.
pub const NAME_ROOM: usize = 12;

/// A pin on the map: where it is, and what stands there.
#[derive(Debug, PartialEq, Eq)]
pub struct Pin {
    pub coord: Coord,
    pub text: String,
    pub color: Color,
}

/// The value of a [`Pin`].
pub struct PinModel {
    pub coord: Coord,
    pub text: Seq<char>,
    pub color: Color,
}

impl DeepView for Pin {
    type V = PinModel;

    open spec fn deep_view(&self) -> PinModel {
        PinModel { coord: self.coord, text: self.text@, color: self.color }
    }
}

/// The glyph of a stop's pin. The one where the parcel is now blinks.
pub open spec fn pin_mark(kind: StopKind, tick: int) -> Seq<char> {
    match kind {
        StopKind::Origin => "\u{25cf}"@,
        StopKind::Waypoint => "\u{2022}"@,
        StopKind::Current => if tick % 2 == 0 {
            "\u{25c9}"@
        } else {
            "\u{25cb}"@
        },
        StopKind::Home => "\u{2302}"@,
    }
}

/// The color of a stop's pin. The one where the parcel is now has the color of
/// the parcel's status.
pub open spec fn pin_color(kind: StopKind, status: Status) -> Color {
    match kind {
        StopKind::Origin => ACCENT,
        StopKind::Waypoint => DIM,
        StopKind::Current => color_of_status(status),
        StopKind::Home => Color::Green,
    }
}

/// The pins of the stops that have a place, in their order.
pub open spec fn pins(stops: Seq<StopModel>, status: Status, tick: int) -> Seq<PinModel>
    decreases stops.len(),
{
    if stops.len() == 0 {
        Seq::empty()
    } else {
        let before = pins(stops.drop_last(), status, tick);
        let s = stops.last();
        match s.coord {
            Some(coord) => before.push(
                PinModel {
                    coord,
                    text: pin_mark(s.kind, tick) + " "@ + truncated(s.name, NAME_ROOM as int),
                    color: pin_color(s.kind, status),
                },
            ),
            None => before,
        }
    }
}

/// The lines of the map: from each pin to the next.
pub open spec fn legs(pins: Seq<PinModel>) -> Seq<(Coord, Coord)> {
    Seq::new(
        if pins.len() > 0 {
            (pins.len() - 1) as nat
        } else {
            0
        },
        |i: int| (pins[i].coord, pins[i + 1].coord),
    )
}

/// The glyph and the color of a stop's pin.
pub fn pin_glyph(kind: StopKind, status: Status, tick: usize) -> (r: (&'static str, Color))
    ensures
        r.0@ == pin_mark(kind, tick as int),
        r.1 == pin_color(kind, status),
{
    match kind {
        StopKind::Origin => ("\u{25cf}", ACCENT),
        StopKind::Waypoint => ("\u{2022}", DIM),
        StopKind::Current => if tick % 2 == 0 {
            ("\u{25c9}", status_color(status))
        } else {
            ("\u{25cb}", status_color(status))
        },
        StopKind::Home => ("\u{2302}", Color::Green),
    }
}

/// The pins of the stops that have a place, in their order.
pub fn map_pins(stops: &Vec<Stop>, status: Status, tick: usize) -> (r: Vec<Pin>)
    ensures
        r.deep_view() == pins(stops.deep_view(), status, tick as int),
{
    let ghost all = stops.deep_view();
    let mut r: Vec<Pin> = Vec::new();
    let mut i: usize = 0;
    assert(all.take(0) =~= Seq::empty());
    assert(r.deep_view() =~= pins(all.take(0), status, tick as int));
    while i < stops.len()
        invariant
            i <= stops.len(),
            all == stops.deep_view(),
            r.deep_view() == pins(all.take(i as int), status, tick as int),
        decreases stops.len() - i,
    {
        let ghost before = r.deep_view();
        proof {
            assert(all.take(i + 1).drop_last() =~= all.take(i as int));
            assert(all.take(i + 1).last() == stops[i as int].deep_view());
        }
        if let Some(coord) = stops[i].coord {
            let (mark, color) = pin_glyph(stops[i].kind, status, tick);
            let name = truncate_text(&stops[i].name, NAME_ROOM);
            let pin = Pin { coord, text: concat3(mark, " ", &name), color };
            let ghost pm = pin.deep_view();
            r.push(pin);
            assert(r.deep_view() =~= before.push(pm));
        }
        i += 1;
    }
    assert(all.take(i as int) =~= all);
    r
}

/// The lines of the map: from each pin to the next.
pub fn map_legs(pins: &Vec<Pin>) -> (r: Vec<(Coord, Coord)>)
    ensures
        r@ == legs(pins.deep_view()),
{
    let mut r: Vec<(Coord, Coord)> = Vec::new();
    let mut i: usize = 1;
    while i < pins.len()
        invariant
            1 <= i,
            i <= pins.len() || i == 1,
            r.len() == i - 1,
            forall|k: int|
                0 <= k < i - 1 ==> (#[trigger] r[k]) == (pins[k].coord, pins[k + 1].coord),
        decreases pins.len() - i,
    {
        r.push((pins[i - 1].coord, pins[i].coord));
        i += 1;
    }
    proof {
        let pm = pins.deep_view();
        assert forall|k: int| 0 <= k < r.len() implies #[trigger] r@[k] == legs(pm)[k] by {
            assert(pm[k] == pins[k].deep_view());
            assert(pm[k + 1] == pins[k + 1].deep_view());
            assert(r[k] == (pins[k].coord, pins[k + 1].coord));
        }
        assert(r@ =~= legs(pm));
    }
    r
}

} // verus!
