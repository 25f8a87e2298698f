//! Keyboard input handling.
//!
//! Maps key presses either to multiplexer commands (Alt+G, Alt+Arrow,
//! Ctrl+Arrow, Ctrl+V, Ctrl+Q)
//! or to the raw bytes that the focused PTY should receive.
use vstd::prelude::*;
use vstd::utf8::encode_scalar;

verus! {

/// The key of a key press.
#[derive(Debug, Clone, Copy, PartialEq, Eq, Structural)]
pub enum KeyCode {
    /// A character key.
    Char(char),
    Enter,
    Backspace,
    Tab,
    Esc,
    Up,
    Down,
    Left,
    Right,
    Home,
    End,
    PageUp,
    PageDown,
    Delete,
    Insert,
    /// Function key F1, F2, ...
    F(u8),
    /// Any other key.
    Other,
}

/// The modifier keys held during a key press that the multiplexer reads.
#[derive(Debug, Clone, Copy, PartialEq, Eq, Structural)]
pub struct KeyModifiers {
    pub control: bool,
    pub alt: bool,
}

/// A key press.
#[derive(Debug, Clone, Copy, PartialEq, Eq, Structural)]
pub struct KeyEvent {
    pub code: KeyCode,
    pub modifiers: KeyModifiers,
}

/// Actions that the input handler can produce.
#[derive(Debug, PartialEq, Eq)]
pub enum InputAction {
    /// Quit the application.
    Quit,
    /// Cycle to the next grid layout.
    CycleLayout,
    /// Move focus in the given direction.
    MoveFocus(Direction),
    /// Send raw bytes to the focused PTY.
    PtyInput(Vec<u8>),
    /// Paste the clipboard into the focused PTY.
    Paste,
    /// No action (unrecognized key combo).
    NoAction,
}

/// Direction for focus movement.
#[derive(Debug, Clone, Copy, PartialEq, Eq, Structural)]
pub enum Direction {
    Up,
    Down,
    Left,
    Right,
}

/// True for the letters `a` to `z`, the keys that Ctrl turns into a control code.
pub open spec fn is_ctrl_letter(c: char) -> bool {
    'a' <= c <= 'z'
}

/// The control code of Ctrl+`c`: the low byte of `c`, minus `b'a'`, plus 1,
/// wrapping around 256 (so Ctrl+A is 1 and Ctrl+Z is 26).
pub open spec fn ctrl_byte(c: char) -> u8 {
    (((c as u32) % 256 + 160) % 256) as u8
}

/// Whether a character has the Unicode Alphabetic property.
pub uninterp spec fn alphabetic(c: char) -> bool;

/// The bytes that Ctrl+`c` sends, where `letter` says whether `c` is a
/// letter: a control code for `a` to `z`; the character itself for any other
/// letter; for any other character its control code when that is at most 26,
/// else the character itself.
pub open spec fn spec_ctrl_char_bytes(c: char, letter: bool) -> Seq<u8> {
    if is_ctrl_letter(c) || (!letter && ctrl_byte(c) <= 26) {
        seq![ctrl_byte(c)]
    } else {
        encode_scalar(c as u32)
    }
}

/// The escape sequence of function key F`n` (F1 to F12); empty for any other `n`.
pub open spec fn spec_f_key_bytes(n: u8) -> Seq<u8> {
    if n == 1 {
        seq![0x1b, 0x4f, 0x50]
    } else if n == 2 {
        seq![0x1b, 0x4f, 0x51]
    } else if n == 3 {
        seq![0x1b, 0x4f, 0x52]
    } else if n == 4 {
        seq![0x1b, 0x4f, 0x53]
    } else if n == 5 {
        seq![0x1b, 0x5b, 0x31, 0x35, 0x7e]
    } else if n == 6 {
        seq![0x1b, 0x5b, 0x31, 0x37, 0x7e]
    } else if n == 7 {
        seq![0x1b, 0x5b, 0x31, 0x38, 0x7e]
    } else if n == 8 {
        seq![0x1b, 0x5b, 0x31, 0x39, 0x7e]
    } else if n == 9 {
        seq![0x1b, 0x5b, 0x32, 0x30, 0x7e]
    } else if n == 10 {
        seq![0x1b, 0x5b, 0x32, 0x31, 0x7e]
    } else if n == 11 {
        seq![0x1b, 0x5b, 0x32, 0x33, 0x7e]
    } else if n == 12 {
        seq![0x1b, 0x5b, 0x32, 0x34, 0x7e]
    } else {
        Seq::empty()
    }
}

/// The bytes a key press sends to the PTY: a character with Ctrl as
/// `spec_ctrl_char_bytes` says, other characters as their UTF-8 encoding,
/// special keys as their usual escape sequences, and nothing for other keys.
pub open spec fn spec_key_bytes(event: KeyEvent) -> Seq<u8> {
    match event.code {
        KeyCode::Char(c) => if event.modifiers.control {
            spec_ctrl_char_bytes(c, alphabetic(c))
        } else {
            encode_scalar(c as u32)
        },
        KeyCode::Enter => seq![0x0d],
        KeyCode::Backspace => seq![0x7f],
        KeyCode::Tab => seq![0x09],
        KeyCode::Esc => seq![0x1b],
        KeyCode::Up => seq![0x1b, 0x5b, 0x41],
        KeyCode::Down => seq![0x1b, 0x5b, 0x42],
        KeyCode::Right => seq![0x1b, 0x5b, 0x43],
        KeyCode::Left => seq![0x1b, 0x5b, 0x44],
        KeyCode::Home => seq![0x1b, 0x5b, 0x48],
        KeyCode::End => seq![0x1b, 0x5b, 0x46],
        KeyCode::PageUp => seq![0x1b, 0x5b, 0x35, 0x7e],
        KeyCode::PageDown => seq![0x1b, 0x5b, 0x36, 0x7e],
        KeyCode::Delete => seq![0x1b, 0x5b, 0x33, 0x7e],
        KeyCode::Insert => seq![0x1b, 0x5b, 0x32, 0x7e],
        KeyCode::F(n) => spec_f_key_bytes(n),
        KeyCode::Other => Seq::empty(),
    }
}

/// The direction of an arrow key.
pub open spec fn arrow_direction(code: KeyCode) -> Option<Direction> {
    match code {
        KeyCode::Up => Some(Direction::Up),
        KeyCode::Down => Some(Direction::Down),
        KeyCode::Left => Some(Direction::Left),
        KeyCode::Right => Some(Direction::Right),
        _ => None,
    }
}

/// The action of a key press: Ctrl+Q quits; with Alt, G cycles the layout,
/// the arrows move the focus and every other key does nothing; Ctrl+V pastes
/// and Ctrl with an arrow moves the focus; any other key press sends its bytes
/// to the focused PTY, or does nothing when it has none.
pub open spec fn is_action_of(action: InputAction, event: KeyEvent) -> bool {
    if event.modifiers.control && event.code == KeyCode::Char('q') {
        action is Quit
    } else if event.modifiers.control && !event.modifiers.alt && event.code == KeyCode::Char('v') {
        action is Paste
    } else if event.modifiers.control && !event.modifiers.alt && arrow_direction(event.code) is Some {
        action == InputAction::MoveFocus(arrow_direction(event.code)->0)
    } else if event.modifiers.alt {
        match event.code {
            KeyCode::Char(c) => if c == 'g' || c == 'G' {
                action is CycleLayout
            } else {
                action is NoAction
            },
            KeyCode::Up => action == InputAction::MoveFocus(Direction::Up),
            KeyCode::Down => action == InputAction::MoveFocus(Direction::Down),
            KeyCode::Left => action == InputAction::MoveFocus(Direction::Left),
            KeyCode::Right => action == InputAction::MoveFocus(Direction::Right),
            _ => action is NoAction,
        }
    } else if spec_key_bytes(event).len() == 0 {
        action is NoAction
    } else {
        action matches InputAction::PtyInput(bytes) && bytes@ == spec_key_bytes(event)
    }
}

/// Ctrl+A through Ctrl+Z give the control codes 1 through 26, one code per
/// letter; Ctrl with any other letter sends the letter itself.
pub proof fn lemma_ctrl_letters(c: char, d: char)
    ensures
        is_ctrl_letter(c) ==> ctrl_byte(c) == (c as u32) - ('a' as u32) + 1,
        is_ctrl_letter(c) ==> spec_ctrl_char_bytes(c, true) == seq![ctrl_byte(c)],
        is_ctrl_letter(c) && is_ctrl_letter(d) && c != d ==> ctrl_byte(c) != ctrl_byte(d),
        !is_ctrl_letter(c) ==> spec_ctrl_char_bytes(c, true) == encode_scalar(c as u32),
{
}

/// Process a key press and return the corresponding action.
pub fn handle_key_event(event: KeyEvent) -> (action: InputAction)
    ensures
        is_action_of(action, event),
{
    let mods = event.modifiers;

    // Ctrl+Q -> Quit
    if mods.control && event.code == KeyCode::Char('q') {
        return InputAction::Quit;
    }
    // Ctrl combinations -> multiplexer commands
    if mods.control && !mods.alt {
        match event.code {
            KeyCode::Char('v') => return InputAction::Paste,
            KeyCode::Up => return InputAction::MoveFocus(Direction::Up),
            KeyCode::Down => return InputAction::MoveFocus(Direction::Down),
            KeyCode::Left => return InputAction::MoveFocus(Direction::Left),
            KeyCode::Right => return InputAction::MoveFocus(Direction::Right),
            _ => {},
        }
    }
    // Alt combinations -> multiplexer commands

    if mods.alt {
        return match event.code {
            KeyCode::Char('g') | KeyCode::Char('G') => InputAction::CycleLayout,
            KeyCode::Up => InputAction::MoveFocus(Direction::Up),
            KeyCode::Down => InputAction::MoveFocus(Direction::Down),
            KeyCode::Left => InputAction::MoveFocus(Direction::Left),
            KeyCode::Right => InputAction::MoveFocus(Direction::Right),
            _ => InputAction::NoAction,
        };
    }
    // Everything else -> convert to bytes for the PTY

    let bytes = key_to_bytes(event);
    if bytes.len() == 0 {
        InputAction::NoAction
    } else {
        InputAction::PtyInput(bytes)
    }
}

/// The UTF-8 encoding of a character.
pub fn encode_utf8(c: char) -> (bytes: Vec<u8>)
    ensures
        bytes@ == encode_scalar(c as u32),
{
    let cp = c as u32;
    if cp <= 0x7F {
        vec![(cp & 0x7F) as u8]
    } else if cp <= 0x7FF {
        vec![0xC0 | ((cp >> 6) & 0x1F) as u8, 0x80 | (cp & 0x3F) as u8]
    } else if cp <= 0xFFFF {
        vec![
            0xE0 | ((cp >> 12) & 0x0F) as u8,
            0x80 | ((cp >> 6) & 0x3F) as u8,
            0x80 | (cp & 0x3F) as u8,
        ]
    } else {
        vec![
            0xF0 | ((cp >> 18) & 0x7) as u8,
            0x80 | ((cp >> 12) & 0x3F) as u8,
            0x80 | ((cp >> 6) & 0x3F) as u8,
            0x80 | (cp & 0x3F) as u8,
        ]
    }
}

/// Whether `c` is alphabetic, from std's `char::is_alphabetic`; the result is
/// the named property `alphabetic` of `c`.
#[verifier::external_body]
fn is_alphabetic(c: char) -> (r: bool)
    ensures
        r == alphabetic(c),
{
    c.is_alphabetic()
}

/// The bytes that Ctrl+`c` sends, where `letter` says whether `c` is a letter.
pub fn ctrl_char_bytes(c: char, letter: bool) -> (bytes: Vec<u8>)
    ensures
        bytes@ == spec_ctrl_char_bytes(c, letter),
{
    // Ctrl+A = 0x01, Ctrl+B = 0x02, etc.
    let code = (((c as u32) % 256 + 160) % 256) as u8;
    if ('a' <= c && c <= 'z') || (!letter && code <= 26) {
        vec![code]
    } else {
        // Ctrl+letter not in a-z: just send the char
        encode_utf8(c)
    }
}

/// Convert a key press to the byte sequence that should be sent to the PTY.
fn key_to_bytes(event: KeyEvent) -> (bytes: Vec<u8>)
    ensures
        bytes@ == spec_key_bytes(event),
{
    let ctrl = event.modifiers.control;

    match event.code {
        KeyCode::Char(c) => {
            if ctrl {
                ctrl_char_bytes(c, is_alphabetic(c))
            } else {
                encode_utf8(c)
            }
        },
        KeyCode::Enter => vec![0x0d],
        KeyCode::Backspace => vec![0x7f],
        KeyCode::Tab => vec![0x09],
        KeyCode::Esc => vec![0x1b],
        KeyCode::Up => vec![0x1b, 0x5b, 0x41],
        KeyCode::Down => vec![0x1b, 0x5b, 0x42],
        KeyCode::Right => vec![0x1b, 0x5b, 0x43],
        KeyCode::Left => vec![0x1b, 0x5b, 0x44],
        KeyCode::Home => vec![0x1b, 0x5b, 0x48],
        KeyCode::End => vec![0x1b, 0x5b, 0x46],
        KeyCode::PageUp => vec![0x1b, 0x5b, 0x35, 0x7e],
        KeyCode::PageDown => vec![0x1b, 0x5b, 0x36, 0x7e],
        KeyCode::Delete => vec![0x1b, 0x5b, 0x33, 0x7e],
        KeyCode::Insert => vec![0x1b, 0x5b, 0x32, 0x7e],
        KeyCode::F(n) => f_key_bytes(n),
        KeyCode::Other => Vec::new(),
    }
}

/// Generate the escape sequence for function keys F1-F12.
fn f_key_bytes(n: u8) -> (bytes: Vec<u8>)
    ensures
        bytes@ == spec_f_key_bytes(n),
{
    match n {
        1 => vec![0x1b, 0x4f, 0x50],
        2 => vec![0x1b, 0x4f, 0x51],
        3 => vec![0x1b, 0x4f, 0x52],
        4 => vec![0x1b, 0x4f, 0x53],
        5 => vec![0x1b, 0x5b, 0x31, 0x35, 0x7e],
        6 => vec![0x1b, 0x5b, 0x31, 0x37, 0x7e],
        7 => vec![0x1b, 0x5b, 0x31, 0x38, 0x7e],
        8 => vec![0x1b, 0x5b, 0x31, 0x39, 0x7e],
        9 => vec![0x1b, 0x5b, 0x32, 0x30, 0x7e],
        10 => vec![0x1b, 0x5b, 0x32, 0x31, 0x7e],
        11 => vec![0x1b, 0x5b, 0x32, 0x33, 0x7e],
        12 => vec![0x1b, 0x5b, 0x32, 0x34, 0x7e],
        _ => Vec::new(),
    }
}

} // verus!
