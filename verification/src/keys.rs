//! Keys, and the line of text that they edit. The editing is tui-input's.
use crossterm::event::{Event, KeyCode as TermCode, KeyEvent as TermKey, KeyModifiers};
use tui_input::backend::crossterm::EventHandler;
use vstd::prelude::*;

verus! {

/// The keys that mean something somewhere.
#[derive(Debug, Clone, Copy, PartialEq, Eq, Structural)]
pub enum KeyCode {
    Char(char),
    Enter,
    Esc,
    Up,
    Down,
    Left,
    Right,
    Home,
    End,
    Backspace,
    Delete,
    /// Any other key.
    Other,
}

/// No modifier is held.
pub const NONE: u8 = 0;

/// The shift key is held.
pub const SHIFT: u8 = 1;

/// The control key is held.
pub const CONTROL: u8 = 2;

/// The alt key is held.
pub const ALT: u8 = 4;

/// A key that was pressed, with the modifiers that were held: the sum of
/// [`SHIFT`], [`CONTROL`], [`ALT`] and the bits that terminals have for others.
#[derive(Debug, Clone, Copy, PartialEq, Eq, Structural)]
pub struct KeyEvent {
    pub code: KeyCode,
    pub modifiers: u8,
}

impl KeyEvent {
    /// The key `code`, with these modifiers held.
    pub fn new(code: KeyCode, modifiers: u8) -> (r: KeyEvent)
        ensures
            r == (KeyEvent { code, modifiers }),
    {
        KeyEvent { code, modifiers }
    }

    /// The control key is held.
    pub open spec fn with_control(self) -> bool {
        self.modifiers / CONTROL % 2 == 1
    }

    /// Whether the control key is held.
    pub fn has_control(&self) -> (r: bool)
        ensures
            r == self.with_control(),
    {
        self.modifiers / CONTROL % 2 == 1
    }

    /// The key types a character: no modifier is held but the shift key, or
    /// both the control key and the alt key.
    pub open spec fn types(self) -> bool {
        self.code is Char && (self.modifiers == NONE || self.modifiers == SHIFT || self.modifiers
            == CONTROL + ALT)
    }
}

/// The characters that typing keys type.
pub open spec fn typed(keys: Seq<KeyEvent>) -> Seq<char> {
    Seq::new(keys.len(), |i: int| keys[i].code->Char_0)
}

/// Every key types a character.
pub open spec fn all_typing(keys: Seq<KeyEvent>) -> bool {
    forall|i: int| 0 <= i < keys.len() ==> (#[trigger] keys[i]).types()
}

/// What `Input::value` of tui-input returns once the keys have been handed, in
/// their order, to an input that was empty.
pub uninterp spec fn line_text(keys: Seq<KeyEvent>) -> Seq<char>;

/// What `Input::visual_cursor` of tui-input returns once the keys have been
/// handed, in their order, to an input that was empty.
pub uninterp spec fn line_cursor(keys: Seq<KeyEvent>) -> usize;

/// What `Input::visual_scroll` of tui-input returns for a width once the keys
/// have been handed, in their order, to an input that was empty.
pub uninterp spec fn line_scroll(keys: Seq<KeyEvent>, width: usize) -> usize;

/// The text of a line, and where it is scrolled to and has its cursor, in
/// columns.
#[derive(Debug)]
pub struct LineShown {
    pub text: String,
    pub cursor: usize,
    pub scroll: usize,
}

/// tui-input's `Input`, empty, handed the keys in their order by
/// `EventHandler::handle_event`; and then its `value`, its `visual_cursor` and
/// its `visual_scroll` for `width`. The three are functions of the keys and the
/// width. Keys that only type leave the characters that they type.
#[verifier::external_body]
fn edit_line(keys: &Vec<KeyEvent>, width: usize) -> (r: LineShown)
    ensures
        r.text@ == line_text(keys@),
        r.cursor == line_cursor(keys@),
        r.scroll == line_scroll(keys@, width),
        all_typing(keys@) ==> r.text@ == typed(keys@),
{
    let mut input = tui_input::Input::default();
    for key in keys {
        let code = match key.code {
            KeyCode::Char(c) => TermCode::Char(c), KeyCode::Enter => TermCode::Enter,
            KeyCode::Esc => TermCode::Esc, KeyCode::Up => TermCode::Up,
            KeyCode::Down => TermCode::Down, KeyCode::Left => TermCode::Left,
            KeyCode::Right => TermCode::Right, KeyCode::Home => TermCode::Home,
            KeyCode::End => TermCode::End, KeyCode::Backspace => TermCode::Backspace,
            KeyCode::Delete => TermCode::Delete, KeyCode::Other => TermCode::Null,
        };
        input.handle_event(&Event::Key(TermKey::new(code, KeyModifiers::from_bits_retain(key.modifiers))));
    }
    LineShown { text: input.value().to_owned(), cursor: input.visual_cursor(), scroll: input.visual_scroll(width) }
}

/// A line of text that is being edited: the keys that have been pressed since
/// it was empty.
#[derive(Debug)]
pub struct LineInput {
    pub keys: Vec<KeyEvent>,
}

impl View for LineInput {
    type V = Seq<KeyEvent>;

    open spec fn view(&self) -> Seq<KeyEvent> {
        self.keys@
    }
}

impl LineInput {
    /// An empty line.
    pub fn new() -> (r: LineInput)
        ensures
            r@ == Seq::<KeyEvent>::empty(),
    {
        LineInput { keys: Vec::new() }
    }

    /// Takes in a key.
    pub fn press(&mut self, key: KeyEvent)
        ensures
            final(self)@ == old(self)@.push(key),
    {
        self.keys.push(key);
    }

    /// The text of the line.
    pub fn value(&self) -> (r: String)
        ensures
            r@ == line_text(self@),
            all_typing(self@) ==> r@ == typed(self@),
    {
        edit_line(&self.keys, 0).text
    }

    /// The line as it is shown in `width` columns.
    pub fn shown(&self, width: usize) -> (r: LineShown)
        ensures
            r.text@ == line_text(self@),
            r.cursor == line_cursor(self@),
            r.scroll == line_scroll(self@, width),
    {
        edit_line(&self.keys, width)
    }
}

} // verus!
