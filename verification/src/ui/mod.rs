//! What the dashboard shows.
use vstd::prelude::*;

use crate::clock::{truncated_div, TimeSpan, NANOS};
use crate::numerals::{signed_decimal, to_signed_decimal};
use crate::provider::{status_label, Status};
use crate::text::{concat2, concat3, repeat_char, repeated};
use crate::ui::theme::{colored, styled, Color, Span, SpanModel, Style};

pub mod detail;
pub mod footer;
pub mod header;
pub mod map;
pub mod table;
pub mod theme;

verus! {

/// The color of a status.
pub open spec fn color_of_status(s: Status) -> Color {
    match s {
        Status::Pending => Color::Gray,
        Status::InTransit => Color::Blue,
        Status::OutForDelivery => Color::Yellow,
        Status::Delivered => Color::Green,
        Status::Exception => Color::Red,
        Status::Unknown => Color::DarkGray,
    }
}

/// The color of a status.
pub fn status_color(s: Status) -> (r: Color)
    ensures
        r == color_of_status(s),
{
    match s {
        Status::Pending => Color::Gray,
        Status::InTransit => Color::Blue,
        Status::OutForDelivery => Color::Yellow,
        Status::Delivered => Color::Green,
        Status::Exception => Color::Red,
        Status::Unknown => Color::DarkGray,
    }
}

/// No two statuses have the same color.
pub proof fn law_status_colors_are_distinct(a: Status, b: Status)
    requires
        a != b,
    ensures
        color_of_status(a) != color_of_status(b),
{
}

/// The color of an age of `n` nanoseconds.
pub open spec fn color_of_age(n: int) -> Color {
    if n < 24 * 3600 * NANOS {
        Color::Green
    } else if n < 72 * 3600 * NANOS {
        Color::Yellow
    } else {
        Color::Red
    }
}

/// Green when fresher than a day, yellow under three days, red beyond that.
pub fn age_color(age: TimeSpan) -> (r: Color)
    ensures
        r == color_of_age(age@),
{
    if age.shorter_than_hours(24) {
        Color::Green
    } else if age.shorter_than_hours(72) {
        Color::Yellow
    } else {
        Color::Red
    }
}

/// A status as it is shown: its name on its color.
pub open spec fn pill(status: Status) -> SpanModel {
    styled(
        " "@ + status_label(status) + " "@,
        Style {
            fg: Some(Color::Black),
            bg: Some(color_of_status(status)),
            bold: true,
            italic: false,
        },
    )
}

/// A colored pill for a status: its name in bold black on its color.
pub fn status_pill(status: Status) -> (r: Span)
    ensures
        r.deep_view() == pill(status),
{
    Span::styled(
        concat3(" ", status.label(), " "),
        Style::fg(Color::Black).bg(status_color(status)).bold(),
    )
}

/// A number of seconds in words: the largest unit that is full, and "now" where
/// none is.
pub open spec fn duration_text(secs: int) -> Seq<char> {
    if secs <= 0 {
        "now"@
    } else if secs < 60 {
        signed_decimal(secs) + "s"@
    } else if secs < 3600 {
        signed_decimal(secs / 60) + "m"@
    } else if secs < 86_400 {
        signed_decimal(secs / 3600) + "h"@
    } else {
        signed_decimal(secs / 86_400) + "d"@
    }
}

/// A span of `n` nanoseconds in words.
pub open spec fn span_text(n: int) -> Seq<char> {
    duration_text(truncated_div(n, NANOS as int))
}

/// A span in words, coarsely: "45s", "2m", "5h", "2d", and "now" for one that
/// is negative or shorter than a second.
pub fn humanize(d: TimeSpan) -> (r: String)
    ensures
        r@ == span_text(d@),
{
    let secs = d.num_seconds();
    if secs <= 0 {
        "now".to_owned()
    } else if secs < 60 {
        concat2(&to_signed_decimal(secs), "s")
    } else if secs < 3600 {
        concat2(&to_signed_decimal(secs / 60), "m")
    } else if secs < 86_400 {
        concat2(&to_signed_decimal(secs / 3600), "h")
    } else {
        concat2(&to_signed_decimal(secs / 86_400), "d")
    }
}

/// A bar of `width` cells, of which the first `filled` are full.
pub open spec fn bar(filled: int, width: int) -> Seq<char> {
    let full = if filled < width {
        filled
    } else {
        width
    };
    repeated('\u{25b0}', full as nat) + repeated('\u{25b1}', (width - full) as nat)
}

/// A bar of `width` cells, of which the first `filled` are full.
pub fn bar_text(filled: usize, width: usize) -> (r: String)
    ensures
        r@ == bar(filled as int, width as int),
{
    let full: usize = if filled < width {
        filled
    } else {
        width
    };
    concat2(&repeat_char('\u{25b0}', full), &repeat_char('\u{25b1}', width - full))
}

} // verus!
