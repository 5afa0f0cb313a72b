use eipi::input::{parse, KeyEvent};

#[test]
fn printable_bytes_become_chars() {
    assert_eq!(
        parse(b"hi q"),
        vec![KeyEvent::Char('h'), KeyEvent::Char('i'), KeyEvent::Char(' '), KeyEvent::Char('q')]
    );
}

#[test]
fn arrow_keys_and_back_tab() {
    assert_eq!(
        parse(b"\x1b[A\x1b[B\x1b[C\x1b[D\x1b[Z"),
        vec![KeyEvent::Up, KeyEvent::Down, KeyEvent::Right, KeyEvent::Left, KeyEvent::Tab]
    );
}

#[test]
fn unknown_csi_sequence_is_skipped() {
    assert_eq!(parse(b"\x1b[Hx"), vec![KeyEvent::Char('x')]);
}

#[test]
fn lone_escape_is_escape() {
    assert_eq!(parse(b"\x1b"), vec![KeyEvent::Escape]);
    assert_eq!(parse(b"\x1bq"), vec![KeyEvent::Escape, KeyEvent::Char('q')]);
    assert_eq!(parse(b"\x1b["), vec![KeyEvent::Escape, KeyEvent::Char('[')]);
}

#[test]
fn control_keys() {
    assert_eq!(
        parse(b"\r\n\t\x7f\x08\x03"),
        vec![
            KeyEvent::Enter,
            KeyEvent::Enter,
            KeyEvent::Tab,
            KeyEvent::Backspace,
            KeyEvent::Backspace,
            KeyEvent::Char('q'),
        ]
    );
}

#[test]
fn other_bytes_are_dropped() {
    assert_eq!(parse(b"\x00\x01\x80\xff"), vec![]);
    assert_eq!(parse("é".as_bytes()), vec![]);
    assert_eq!(parse(b""), vec![]);
}

#[test]
fn sgr_left_press_is_a_click_at_zero_based_cell() {
    assert_eq!(parse(b"\x1b[<0;10;5M"), vec![KeyEvent::MouseClick(9, 4)]);
    assert_eq!(parse(b"\x1b[<0;1;1M"), vec![KeyEvent::MouseClick(0, 0)]);
    assert_eq!(parse(b"\x1b[<0;0;0M"), vec![KeyEvent::MouseClick(0, 0)]);
}

#[test]
fn sgr_release_and_other_buttons_are_null_chars() {
    assert_eq!(parse(b"\x1b[<0;10;5m"), vec![KeyEvent::Char('\0')]);
    assert_eq!(parse(b"\x1b[<2;10;5M"), vec![KeyEvent::Char('\0')]);
    assert_eq!(parse(b"\x1b[<64;3;3Mk"), vec![KeyEvent::Char('\0'), KeyEvent::Char('k')]);
}

#[test]
fn malformed_sgr_skips_three_bytes() {
    // No terminator: the three bytes of the prefix are skipped.
    assert_eq!(parse(b"\x1b[<0;1"), vec![KeyEvent::Char('0'), KeyEvent::Char(';'), KeyEvent::Char('1')]);
    // Too few fields.
    assert_eq!(parse(b"\x1b[<0;1M"), vec![KeyEvent::Char('0'), KeyEvent::Char(';'), KeyEvent::Char('1'), KeyEvent::Char('M')]);
    // A field that is not a u16.
    assert_eq!(parse(b"\x1b[<0;70000;1Mz").last(), Some(&KeyEvent::Char('z')));
}

#[test]
fn click_followed_by_keys() {
    assert_eq!(
        parse(b"\x1b[<0;3;4Mj\x1b[A"),
        vec![KeyEvent::MouseClick(2, 3), KeyEvent::Char('j'), KeyEvent::Up]
    );
}

#[test]
fn sgr_fields_follow_u16_parsing() {
    assert_eq!(parse(b"\x1b[<+0;+3;+4M"), vec![KeyEvent::MouseClick(2, 3)]);
    assert_eq!(parse(b"\x1b[<0;2;3;9M"), vec![KeyEvent::MouseClick(1, 2)]);
    assert_eq!(parse(b"\x1b[<0;65535;007M"), vec![KeyEvent::MouseClick(65534, 6)]);
}
