//! Colors, styled text, and the palette.
use vstd::prelude::*;

use crate::text::concat2;

verus! {

/// A terminal color.
#[derive(Debug, Clone, Copy, PartialEq, Eq, Structural)]
pub enum Color {
    Black,
    Red,
    Green,
    Yellow,
    Blue,
    Magenta,
    Cyan,
    Gray,
    DarkGray,
    LightGreen,
    LightBlue,
    LightMagenta,
    White,
    /// A color of the palette of 256.
    Indexed(u8),
}

/// How a text looks.
#[derive(Debug, Clone, Copy, PartialEq, Eq, Structural)]
pub struct Style {
    pub fg: Option<Color>,
    pub bg: Option<Color>,
    pub bold: bool,
    pub italic: bool,
}

/// As the terminal has it.
pub open spec fn plain() -> Style {
    Style { fg: None, bg: None, bold: false, italic: false }
}

/// In this color.
pub open spec fn colored(fg: Color) -> Style {
    Style { fg: Some(fg), ..plain() }
}

impl Style {
    /// As the terminal has it.
    pub fn plain() -> (r: Style)
        ensures
            r == plain(),
    {
        Style { fg: None, bg: None, bold: false, italic: false }
    }

    /// In this color.
    pub fn fg(color: Color) -> (r: Style)
        ensures
            r == colored(color),
    {
        Style { fg: Some(color), bg: None, bold: false, italic: false }
    }

    /// On this background.
    pub fn bg(self, color: Color) -> (r: Style)
        ensures
            r == (Style { bg: Some(color), ..self }),
    {
        Style { fg: self.fg, bg: Some(color), bold: self.bold, italic: self.italic }
    }

    /// In bold.
    pub fn bold(self) -> (r: Style)
        ensures
            r == (Style { bold: true, ..self }),
    {
        Style { fg: self.fg, bg: self.bg, bold: true, italic: self.italic }
    }

    /// In italics.
    pub fn italic(self) -> (r: Style)
        ensures
            r == (Style { italic: true, ..self }),
    {
        Style { fg: self.fg, bg: self.bg, bold: self.bold, italic: true }
    }
}

/// A piece of text in one style.
#[derive(Debug, PartialEq, Eq)]
pub struct Span {
    pub content: String,
    pub style: Style,
}

/// The value of a [`Span`].
pub struct SpanModel {
    pub content: Seq<char>,
    pub style: Style,
}

impl DeepView for Span {
    type V = SpanModel;

    open spec fn deep_view(&self) -> SpanModel {
        SpanModel { content: self.content@, style: self.style }
    }
}

/// A piece of text as the terminal has it.
pub open spec fn raw(content: Seq<char>) -> SpanModel {
    SpanModel { content, style: plain() }
}

/// A piece of text in a style.
pub open spec fn styled(content: Seq<char>, style: Style) -> SpanModel {
    SpanModel { content, style }
}

impl Span {
    /// A piece of text as the terminal has it.
    pub fn raw(content: String) -> (r: Span)
        ensures
            r.deep_view() == raw(content@),
    {
        Span { content, style: Style::plain() }
    }

    /// A piece of text in a style.
    pub fn styled(content: String, style: Style) -> (r: Span)
        ensures
            r.deep_view() == styled(content@, style),
    {
        Span { content, style }
    }
}

/// A line of text.
#[derive(Debug, PartialEq, Eq)]
pub struct Line {
    pub spans: Vec<Span>,
}

impl DeepView for Line {
    type V = Seq<SpanModel>;

    open spec fn deep_view(&self) -> Seq<SpanModel> {
        self.spans.deep_view()
    }
}

/// The characters of a line.
pub open spec fn line_chars(spans: Seq<SpanModel>) -> Seq<char>
    decreases spans.len(),
{
    if spans.len() == 0 {
        Seq::empty()
    } else {
        line_chars(spans.drop_last()) + spans.last().content
    }
}

/// The accent: titles, the header band, the letters of keys.
pub const ACCENT: Color = Color::Cyan;

/// The color of a carrier without a name.
pub const CARRIER: Color = Color::Magenta;

/// A warning, amber: its place in the palette.
pub const WARN: u8 = 214;

/// What is secondary or inactive.
pub const DIM: Color = Color::DarkGray;

/// The background of every other row of a table: its place in the palette.
pub const ZEBRA: u8 = 235;

/// The background of the last error: its place in the palette.
pub const ERROR_BG: u8 = 52;

/// The hash of no bytes.
pub const FNV_OFFSET_BASIS: u64 = 0xcbf2_9ce4_8422_2325;

/// What the hash is multiplied with for each byte.
pub const FNV_PRIME: u64 = 0x0000_0100_0000_01b3;

/// The 64-bit FNV-1a hash of some bytes.
pub open spec fn fnv(bytes: Seq<u8>) -> u64
    decreases bytes.len(),
{
    if bytes.len() == 0 {
        FNV_OFFSET_BASIS
    } else {
        (fnv(bytes.drop_last()) ^ (bytes.last() as u64)).wrapping_mul(FNV_PRIME)
    }
}

/// The hash of no bytes is the offset basis, and one more byte is first taken
/// in by an exclusive or and then multiplied with the prime.
pub proof fn law_hash_takes_in_each_byte(bytes: Seq<u8>, b: u8)
    ensures
        fnv(Seq::empty()) == FNV_OFFSET_BASIS,
        fnv(bytes.push(b)) == (fnv(bytes) ^ (b as u64)).wrapping_mul(FNV_PRIME),
{
    assert(bytes.push(b).drop_last() =~= bytes);
}

/// The 64-bit FNV-1a hash of some bytes.
pub fn fnv1a(bytes: &[u8]) -> (r: u64)
    ensures
        r == fnv(bytes@),
{
    let mut hash: u64 = FNV_OFFSET_BASIS;
    let mut i: usize = 0;
    assert(bytes@.take(0) =~= Seq::empty());
    while i < bytes.len()
        invariant
            i <= bytes@.len(),
            hash == fnv(bytes@.take(i as int)),
        decreases bytes@.len() - i,
    {
        assert(bytes@.take(i + 1).drop_last() =~= bytes@.take(i as int));
        assert(bytes@.take(i + 1).last() == bytes@[i as int]);
        hash = (hash ^ (bytes[i] as u64)).wrapping_mul(FNV_PRIME);
        i += 1;
    }
    assert(bytes@.take(i as int) =~= bytes@);
    hash
}

/// The colors that carriers have, by their hashes.
pub open spec fn palette(index: int) -> Color {
    if index == 0 {
        Color::Magenta
    } else if index == 1 {
        Color::Blue
    } else if index == 2 {
        Color::Green
    } else if index == 3 {
        Color::Cyan
    } else if index == 4 {
        Color::Yellow
    } else if index == 5 {
        Color::LightMagenta
    } else if index == 6 {
        Color::LightBlue
    } else {
        Color::LightGreen
    }
}

/// The color of a carrier: the hash of its name, in UTF-8, picks one of eight.
pub open spec fn color_of_carrier(name: Seq<char>) -> Color {
    palette(fnv(vstd::utf8::encode_utf8(name)) as int % 8)
}

/// A stable color for a carrier: one name has one color, always.
pub fn carrier_color(name: &str) -> (r: Color)
    ensures
        r == color_of_carrier(name@),
{
    let index = fnv1a(name.as_bytes()) % 8;
    match index {
        0 => Color::Magenta,
        1 => Color::Blue,
        2 => Color::Green,
        3 => Color::Cyan,
        4 => Color::Yellow,
        5 => Color::LightMagenta,
        6 => Color::LightBlue,
        _ => Color::LightGreen,
    }
}

/// The spans of a hint: the key stands out, and what it does is dimmed.
pub open spec fn hint(key: Seq<char>, label: Seq<char>) -> Seq<SpanModel> {
    seq![
        styled(key, Style { bold: true, ..colored(ACCENT) }),
        styled(" "@ + label, colored(DIM)),
    ]
}

/// A hint at the foot of the screen: the key stands out, and what it does is
/// dimmed.
pub fn key_hint(key: &str, label: &str) -> (r: Vec<Span>)
    ensures
        r.deep_view() == hint(key@, label@),
{
    let mut r: Vec<Span> = Vec::new();
    r.push(Span::styled(key.to_owned(), Style::fg(ACCENT).bold()));
    r.push(Span::styled(concat2(" ", label), Style::fg(DIM)));
    assert(r.deep_view() =~= hint(key@, label@));
    r
}

} // verus!
