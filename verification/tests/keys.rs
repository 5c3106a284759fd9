use parcli::keys::{KeyCode, KeyEvent, LineInput, ALT, CONTROL, NONE, SHIFT};

fn line(keys: &[(KeyCode, u8)]) -> LineInput {
    let mut input = LineInput::new();
    for (code, modifiers) in keys {
        input.press(KeyEvent::new(*code, *modifiers));
    }
    input
}

fn typed(s: &str) -> LineInput {
    let mut input = LineInput::new();
    for c in s.chars() {
        input.press(KeyEvent::new(KeyCode::Char(c), NONE));
    }
    input
}

#[test]
fn an_empty_line_has_no_text() {
    let input = LineInput::new();
    assert_eq!(input.value(), "");
    let shown = input.shown(10);
    assert_eq!((shown.text.as_str(), shown.cursor, shown.scroll), ("", 0, 0));
}

#[test]
fn typing_keys_type() {
    assert_eq!(typed("rb1 caméra").value(), "rb1 caméra");
    let input = line(&[
        (KeyCode::Char('a'), NONE),
        (KeyCode::Char('B'), SHIFT),
        (KeyCode::Char('@'), CONTROL + ALT),
    ]);
    assert_eq!(input.value(), "aB@");
}

#[test]
fn editing_keys_edit() {
    let mut input = typed("abc");
    input.press(KeyEvent::new(KeyCode::Backspace, NONE));
    assert_eq!(input.value(), "ab");
    input.press(KeyEvent::new(KeyCode::Home, NONE));
    input.press(KeyEvent::new(KeyCode::Delete, NONE));
    assert_eq!(input.value(), "b");
    input.press(KeyEvent::new(KeyCode::Char('x'), NONE));
    assert_eq!(input.value(), "xb");
    input.press(KeyEvent::new(KeyCode::Right, NONE));
    input.press(KeyEvent::new(KeyCode::Char('y'), NONE));
    assert_eq!(input.value(), "xby");
    input.press(KeyEvent::new(KeyCode::Left, NONE));
    input.press(KeyEvent::new(KeyCode::Char('z'), NONE));
    assert_eq!(input.value(), "xbzy");
    input.press(KeyEvent::new(KeyCode::End, NONE));
    input.press(KeyEvent::new(KeyCode::Char('!'), NONE));
    assert_eq!(input.value(), "xbzy!");
}

#[test]
fn what_was_cut_can_be_put_back() {
    let mut input = typed("one two");
    input.press(KeyEvent::new(KeyCode::Char('u'), CONTROL));
    assert_eq!(input.value(), "");
    input.press(KeyEvent::new(KeyCode::Char('y'), CONTROL));
    input.press(KeyEvent::new(KeyCode::Char('y'), CONTROL));
    assert_eq!(input.value(), "one twoone two");
}

#[test]
fn other_keys_leave_the_line_alone() {
    let mut input = typed("abc");
    for code in [KeyCode::Up, KeyCode::Down, KeyCode::Other, KeyCode::Enter, KeyCode::Esc] {
        input.press(KeyEvent::new(code, NONE));
    }
    input.press(KeyEvent::new(KeyCode::Char('z'), ALT));
    assert_eq!(input.value(), "abc");
}

#[test]
fn a_long_line_scrolls() {
    let input = typed("abcdefghij");
    let shown = input.shown(4);
    assert_eq!((shown.cursor, shown.scroll), (10, 6));
    assert_eq!(input.shown(40).scroll, 0);
    let wide = typed("\u{6df1}\u{5733}");
    assert_eq!(wide.shown(40).cursor, 4, "wide characters take two columns");
}
