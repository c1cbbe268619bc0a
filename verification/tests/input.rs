use termedit::event_handler::{KeyCode, KeyModifiers, KeyParser, MouseEventType, MouseState};

fn csi(p: &mut KeyParser, numbers: &[u16], c: char) -> Option<i8> {
    p.CsiDispatch(&numbers.to_vec(), c, 7)
}

fn custom(n: u16) -> KeyParser {
    let mut p = KeyParser::new();
    let scroll = csi(&mut p, &[3, n], '~');
    assert_eq!(scroll, None);
    p
}

#[test]
fn option_tab_code() {
    let p = custom(22);
    assert_eq!(p.keyEvents, vec![KeyCode::Tab]);
    assert_eq!(p.keyModifiers, vec![KeyModifiers::Option]);
}

#[test]
fn command_shortcut_codes() {
    for (n, c) in [(16, 'c'), (19, 'f'), (11, 's'), (17, 'v'), (18, 'x'), (20, 'z')] {
        let p = custom(n);
        assert_eq!(p.charEvents, vec![c]);
        assert_eq!(p.keyModifiers, vec![KeyModifiers::Command]);
        assert!(p.keyEvents.is_empty());
    }
    let p = custom(21);
    assert_eq!(p.charEvents, vec!['z']);
    assert_eq!(p.keyModifiers, vec![KeyModifiers::Command, KeyModifiers::Shift]);
}

#[test]
fn delete_codes() {
    let cases: [(u16, Vec<KeyModifiers>); 5] = [
        (2, vec![KeyModifiers::Shift]),
        (3, vec![KeyModifiers::Option]),
        (8, vec![KeyModifiers::Option, KeyModifiers::Shift]),
        (9, vec![KeyModifiers::Command]),
        (10, vec![KeyModifiers::Command, KeyModifiers::Shift]),
    ];
    for (n, mods) in cases.iter() {
        let p = custom(*n);
        assert_eq!(p.keyEvents, vec![KeyCode::Delete]);
        assert_eq!(&p.keyModifiers, mods);
    }
}

#[test]
fn command_arrow_codes() {
    let cases = [
        (4, KeyCode::Left, false),
        (12, KeyCode::Left, true),
        (5, KeyCode::Right, false),
        (13, KeyCode::Right, true),
        (6, KeyCode::Up, false),
        (14, KeyCode::Up, true),
        (7, KeyCode::Down, false),
        (15, KeyCode::Down, true),
    ];
    for (n, key, shift) in cases {
        let p = custom(n);
        assert_eq!(p.keyEvents, vec![key]);
        if shift {
            assert_eq!(p.keyModifiers, vec![KeyModifiers::Command, KeyModifiers::Shift]);
        } else {
            assert_eq!(p.keyModifiers, vec![KeyModifiers::Command]);
        }
    }
}

#[test]
fn unknown_custom_code_does_nothing() {
    let p = custom(40);
    assert!(p.keyEvents.is_empty());
    assert!(p.keyModifiers.is_empty());
    assert!(p.charEvents.is_empty());
    assert_eq!(p.lastPress, 7);
}

#[test]
fn control_arrows() {
    let mut p = KeyParser::new();
    csi(&mut p, &[1, 5], 'D');
    assert_eq!(p.keyEvents, vec![KeyCode::Left]);
    assert_eq!(p.keyModifiers, vec![KeyModifiers::Control]);
    assert!(p.ContainsKeyCode(KeyCode::Left));
    assert!(p.ContainsModifier(&KeyModifiers::Control));
}

#[test]
fn arrows_with_option_and_shift() {
    let mut p = KeyParser::new();
    csi(&mut p, &[1, 3], 'A');
    assert_eq!(p.keyEvents, vec![KeyCode::Up]);
    assert_eq!(p.keyModifiers, vec![KeyModifiers::Option]);
    let mut p = KeyParser::new();
    csi(&mut p, &[1, 4], 'C');
    assert_eq!(p.keyModifiers, vec![KeyModifiers::Option, KeyModifiers::Shift]);
    let mut p = KeyParser::new();
    csi(&mut p, &[1, 2], 'B');
    assert_eq!(p.keyEvents, vec![KeyCode::Down]);
    assert_eq!(p.keyModifiers, vec![KeyModifiers::Shift]);
    let mut p = KeyParser::new();
    csi(&mut p, &[], 'D');
    assert_eq!(p.keyEvents, vec![KeyCode::Left]);
    assert!(p.keyModifiers.is_empty());
}

#[test]
fn shift_tab() {
    let mut p = KeyParser::new();
    csi(&mut p, &[], 'Z');
    assert_eq!(p.keyEvents, vec![KeyCode::Tab]);
    assert_eq!(p.keyModifiers, vec![KeyModifiers::Shift]);
}

#[test]
fn control_bytes() {
    let mut p = KeyParser::new();
    p.Execute(3, 11);
    assert_eq!(p.charEvents, vec!['c']);
    assert_eq!(p.keyModifiers, vec![KeyModifiers::Control]);
    assert_eq!(p.lastPress, 11);
    p.Execute(0x0D, 12);
    assert!(p.ContainsKeyCode(KeyCode::Return));
    p.Execute(0x08, 13);
    assert!(p.ContainsKeyCode(KeyCode::Delete));
    assert!(!p.inEscapeSeq);
    p.Execute(0x1B, 14);
    assert!(p.inEscapeSeq);
}

#[test]
fn printable_and_whitespace_characters_are_typed() {
    let mut p = KeyParser::new();
    p.Print('a', 1);
    p.Print(' ', 2);
    p.Print('\u{7}', 3);
    p.Print('\u{A0}', 4);
    assert_eq!(p.charEvents, vec!['a', ' ', '\u{A0}']);
    assert!(p.ContainsChar('a'));
    assert!(!p.ContainsChar('b'));
    assert_eq!(p.lastPress, 4);
}

#[test]
fn delete_character_is_a_key_once() {
    let mut p = KeyParser::new();
    p.Print('\u{7F}', 1);
    p.Print('\u{7F}', 2);
    assert_eq!(p.keyEvents, vec![KeyCode::Delete]);
    assert!(p.charEvents.is_empty());
}

#[test]
fn characters_inside_a_sequence_are_not_typed() {
    let mut p = KeyParser::new();
    p.Execute(0x1B, 1);
    p.Print('a', 2);
    assert!(p.charEvents.is_empty());
    assert_eq!(p.lastPress, 1);
    p.Print('\u{11}', 3);
    assert_eq!(p.charEvents, vec!['w']);
    assert_eq!(p.keyModifiers, vec![KeyModifiers::Option]);
}

#[test]
fn scroll_reports() {
    let mut p = KeyParser::new();
    assert_eq!(csi(&mut p, &[64, 10, 5], 'M'), Some(-1));
    let e = p.mouseEvent.clone().unwrap();
    assert_eq!(e.eventType, MouseEventType::Up);
    assert_eq!(e.position, (10, 5));
    assert_eq!(e.state, MouseState::Press);
    assert_eq!(p.keyModifiers, vec![KeyModifiers::Option]);
    let mut p = KeyParser::new();
    assert_eq!(csi(&mut p, &[65, 1, 1], 'M'), Some(1));
    assert_eq!(p.mouseEvent.clone().unwrap().eventType, MouseEventType::Down);
}

#[test]
fn click_press_hold_release() {
    let mut p = KeyParser::new();
    assert_eq!(csi(&mut p, &[0, 3, 4], 'M'), None);
    assert_eq!(p.mouseEvent.clone().unwrap().state, MouseState::Press);
    p.ClearEvents();
    assert_eq!(p.mouseEvent.clone().unwrap().state, MouseState::Hold);
    csi(&mut p, &[0, 5, 6], 'M');
    let e = p.mouseEvent.clone().unwrap();
    assert_eq!(e.position, (5, 6));
    assert_eq!(e.state, MouseState::Hold);
    csi(&mut p, &[0, 5, 6], 'm');
    assert_eq!(p.mouseEvent.clone().unwrap().state, MouseState::Release);
    p.ClearEvents();
    let e = p.mouseEvent.clone().unwrap();
    assert_eq!(e.state, MouseState::Null);
    assert_eq!(e.eventType, MouseEventType::Null);
}

#[test]
fn held_scroll_is_released_next_frame() {
    let mut p = KeyParser::new();
    csi(&mut p, &[65, 1, 1], 'M');
    p.ClearEvents();
    p.ClearEvents();
    assert_eq!(p.mouseEvent.clone().unwrap().state, MouseState::Release);
}

#[test]
fn shift_click_marks_a_mouse_modifier() {
    let mut p = KeyParser::new();
    csi(&mut p, &[4, 1, 1], 'M');
    assert_eq!(p.mouseModifiers, vec![KeyModifiers::Shift]);
    assert!(p.ContainsMouseModifier(KeyModifiers::Shift));
    assert!(p.keyModifiers.is_empty());
    let mut p = KeyParser::new();
    csi(&mut p, &[32 + 128 + 2, 1, 1], 'M');
    assert_eq!(p.keyModifiers, vec![KeyModifiers::Shift, KeyModifiers::Control]);
    assert_eq!(p.mouseEvent.clone().unwrap().eventType, MouseEventType::Right);
}

#[test]
fn short_mouse_reports_are_ignored() {
    let mut p = KeyParser::new();
    assert_eq!(csi(&mut p, &[0, 1], 'M'), None);
    assert!(p.mouseEvent.is_none());
}

#[test]
fn clearing_ends_the_frame() {
    let mut p = KeyParser::new();
    p.Print('x', 1);
    csi(&mut p, &[3, 8], '~');
    p.Execute(0x1B, 2);
    p.ClearEvents();
    assert!(p.charEvents.is_empty());
    assert!(p.keyEvents.is_empty());
    assert!(p.keyModifiers.is_empty());
    assert!(!p.inEscapeSeq);
    assert_eq!(p.lastPress, 2);
}
