use vpower_shell::input::{
    ctrl_char_bytes, encode_utf8, handle_key_event, Direction, InputAction, KeyCode, KeyEvent, KeyModifiers,
};

fn key(code: KeyCode, control: bool, alt: bool) -> KeyEvent {
    KeyEvent { code, modifiers: KeyModifiers { control, alt } }
}

#[test]
fn ctrl_q_quits() {
    assert_eq!(handle_key_event(key(KeyCode::Char('q'), true, false)), InputAction::Quit);
    assert_eq!(handle_key_event(key(KeyCode::Char('q'), true, true)), InputAction::Quit);
}

#[test]
fn alt_g_cycles_layout() {
    assert_eq!(handle_key_event(key(KeyCode::Char('g'), false, true)), InputAction::CycleLayout);
    assert_eq!(handle_key_event(key(KeyCode::Char('G'), false, true)), InputAction::CycleLayout);
}

#[test]
fn alt_arrows_move_focus() {
    assert_eq!(
        handle_key_event(key(KeyCode::Up, false, true)),
        InputAction::MoveFocus(Direction::Up)
    );
    assert_eq!(
        handle_key_event(key(KeyCode::Down, false, true)),
        InputAction::MoveFocus(Direction::Down)
    );
    assert_eq!(
        handle_key_event(key(KeyCode::Left, false, true)),
        InputAction::MoveFocus(Direction::Left)
    );
    assert_eq!(
        handle_key_event(key(KeyCode::Right, false, true)),
        InputAction::MoveFocus(Direction::Right)
    );
}

#[test]
fn other_alt_keys_do_nothing() {
    assert_eq!(handle_key_event(key(KeyCode::Char('x'), false, true)), InputAction::NoAction);
    assert_eq!(handle_key_event(key(KeyCode::Enter, false, true)), InputAction::NoAction);
}

#[test]
fn ctrl_letters_become_control_codes() {
    assert_eq!(
        handle_key_event(key(KeyCode::Char('a'), true, false)),
        InputAction::PtyInput(vec![0x01])
    );
    assert_eq!(
        handle_key_event(key(KeyCode::Char('c'), true, false)),
        InputAction::PtyInput(vec![0x03])
    );
    assert_eq!(
        handle_key_event(key(KeyCode::Char('z'), true, false)),
        InputAction::PtyInput(vec![26])
    );
}

#[test]
fn ctrl_with_non_letter_sends_the_char() {
    assert_eq!(
        handle_key_event(key(KeyCode::Char('1'), true, false)),
        InputAction::PtyInput(vec![b'1'])
    );
    assert_eq!(
        handle_key_event(key(KeyCode::Char('A'), true, false)),
        InputAction::PtyInput(vec![b'A'])
    );
    // '{' is just above 'z': its code is past 26.
    assert_eq!(
        handle_key_event(key(KeyCode::Char('{'), true, false)),
        InputAction::PtyInput(vec![b'{'])
    );
}

#[test]
fn ctrl_with_other_symbols_sends_its_code() {
    // '`' is just below 'a': its control code wraps to 0.
    assert_eq!(
        handle_key_event(key(KeyCode::Char('`'), true, false)),
        InputAction::PtyInput(vec![0])
    );
    // A symbol (not a letter) whose code point ends in the byte of 'a'.
    assert_eq!(
        handle_key_event(key(KeyCode::Char('\u{2261}'), true, false)),
        InputAction::PtyInput(vec![0x01])
    );
    assert_eq!(ctrl_char_bytes('\u{2261}', false), vec![0x01]);
    assert_eq!(ctrl_char_bytes('\u{2261}', true), vec![0xE2, 0x89, 0xA1]);
    assert_eq!(ctrl_char_bytes('c', true), vec![0x03]);
}

#[test]
fn ctrl_v_pastes() {
    assert_eq!(handle_key_event(key(KeyCode::Char('v'), true, false)), InputAction::Paste);
    assert_eq!(
        handle_key_event(key(KeyCode::Char('v'), false, false)),
        InputAction::PtyInput(vec![b'v'])
    );
}

#[test]
fn ctrl_arrows_move_focus() {
    assert_eq!(
        handle_key_event(key(KeyCode::Up, true, false)),
        InputAction::MoveFocus(Direction::Up)
    );
    assert_eq!(
        handle_key_event(key(KeyCode::Down, true, false)),
        InputAction::MoveFocus(Direction::Down)
    );
    assert_eq!(
        handle_key_event(key(KeyCode::Left, true, false)),
        InputAction::MoveFocus(Direction::Left)
    );
    assert_eq!(
        handle_key_event(key(KeyCode::Right, true, false)),
        InputAction::MoveFocus(Direction::Right)
    );
    // Without a modifier the arrows go to the shell.
    assert_eq!(
        handle_key_event(key(KeyCode::Up, false, false)),
        InputAction::PtyInput(vec![0x1b, b'[', b'A'])
    );
}

#[test]
fn ctrl_with_other_letters_sends_the_letter() {
    // A letter outside a-z whose code point ends in the byte of 'a'.
    assert_eq!(
        handle_key_event(key(KeyCode::Char('š'), true, false)),
        InputAction::PtyInput(vec![0xC5, 0xA1])
    );
}

#[test]
fn plain_chars_are_utf8() {
    assert_eq!(
        handle_key_event(key(KeyCode::Char('x'), false, false)),
        InputAction::PtyInput(vec![b'x'])
    );
    assert_eq!(
        handle_key_event(key(KeyCode::Char('é'), false, false)),
        InputAction::PtyInput(vec![0xC3, 0xA9])
    );
}

#[test]
fn encode_utf8_matches_std() {
    for c in ['a', '\u{7f}', '\u{80}', 'é', '\u{7ff}', '\u{800}', '€', '\u{ffff}', '\u{10000}', '😀', '\u{10ffff}'] {
        let mut buf = [0u8; 4];
        let expected = c.encode_utf8(&mut buf).as_bytes().to_vec();
        assert_eq!(encode_utf8(c), expected);
    }
}

#[test]
fn special_keys_send_escape_sequences() {
    let cases: Vec<(KeyCode, Vec<u8>)> = vec![
        (KeyCode::Enter, vec![b'\r']),
        (KeyCode::Backspace, vec![0x7f]),
        (KeyCode::Tab, vec![b'\t']),
        (KeyCode::Esc, vec![0x1b]),
        (KeyCode::Up, b"\x1b[A".to_vec()),
        (KeyCode::Down, b"\x1b[B".to_vec()),
        (KeyCode::Right, b"\x1b[C".to_vec()),
        (KeyCode::Left, b"\x1b[D".to_vec()),
        (KeyCode::Home, b"\x1b[H".to_vec()),
        (KeyCode::End, b"\x1b[F".to_vec()),
        (KeyCode::PageUp, b"\x1b[5~".to_vec()),
        (KeyCode::PageDown, b"\x1b[6~".to_vec()),
        (KeyCode::Delete, b"\x1b[3~".to_vec()),
        (KeyCode::Insert, b"\x1b[2~".to_vec()),
    ];
    for (code, bytes) in cases {
        assert_eq!(handle_key_event(key(code, false, false)), InputAction::PtyInput(bytes));
    }
}

#[test]
fn function_keys() {
    let expected: [&[u8]; 12] = [
        b"\x1bOP", b"\x1bOQ", b"\x1bOR", b"\x1bOS", b"\x1b[15~", b"\x1b[17~", b"\x1b[18~",
        b"\x1b[19~", b"\x1b[20~", b"\x1b[21~", b"\x1b[23~", b"\x1b[24~",
    ];
    for (i, bytes) in expected.iter().enumerate() {
        assert_eq!(
            handle_key_event(key(KeyCode::F(i as u8 + 1), false, false)),
            InputAction::PtyInput(bytes.to_vec())
        );
    }
    assert_eq!(handle_key_event(key(KeyCode::F(13), false, false)), InputAction::NoAction);
    assert_eq!(handle_key_event(key(KeyCode::F(0), false, false)), InputAction::NoAction);
}

#[test]
fn unknown_keys_do_nothing() {
    assert_eq!(handle_key_event(key(KeyCode::Other, false, false)), InputAction::NoAction);
}
