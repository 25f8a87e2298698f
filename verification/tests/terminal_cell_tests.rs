use vpower_shell::terminal_cell::{TerminalCell, VtEvent, MAX_SCROLLBACK};

fn row(cell: &TerminalCell, r: usize) -> String {
    cell.lines[r].iter().collect()
}

fn text(s: &str) -> Vec<VtEvent> {
    s.chars().map(VtEvent::Print).collect()
}

fn csi(params: &[u16], action: char) -> VtEvent {
    VtEvent::CsiDispatch { params: params.to_vec(), action }
}

#[test]
fn new_cell_is_blank() {
    let cell = TerminalCell::new(5, 3);
    assert_eq!(cell.lines.len(), 3);
    for r in 0..3 {
        assert_eq!(row(&cell, r), "     ");
    }
    assert_eq!((cell.cursor_row, cell.cursor_col), (0, 0));
    assert_eq!((cell.width, cell.height), (5, 3));
}

#[test]
fn new_cell_is_at_least_one_by_one() {
    let cell = TerminalCell::new(0, 0);
    assert_eq!((cell.width, cell.height), (1, 1));
    assert_eq!(cell.lines, vec![vec![' ']]);
}

#[test]
fn print_writes_at_cursor() {
    let mut cell = TerminalCell::new(5, 3);
    cell.apply_events(&text("hi"));
    assert_eq!(row(&cell, 0), "hi   ");
    assert_eq!((cell.cursor_row, cell.cursor_col), (0, 2));
}

#[test]
fn print_wraps_at_line_end() {
    let mut cell = TerminalCell::new(3, 3);
    cell.apply_events(&text("abcd"));
    assert_eq!(row(&cell, 0), "abc");
    assert_eq!(row(&cell, 1), "d  ");
    assert_eq!((cell.cursor_row, cell.cursor_col), (1, 1));
}

#[test]
fn line_feed_on_last_row_scrolls() {
    let mut cell = TerminalCell::new(3, 2);
    let mut events = text("a");
    events.push(VtEvent::Execute(b'\n'));
    events.extend(text("b"));
    events.push(VtEvent::Execute(b'\n'));
    events.extend(text("c"));
    cell.apply_events(&events);
    assert_eq!(cell.lines.len(), 3);
    assert_eq!(row(&cell, 0), "a  ");
    assert_eq!(row(&cell, 1), " b ");
    assert_eq!(row(&cell, 2), "  c");
    assert_eq!((cell.cursor_row, cell.cursor_col), (1, 3));
    let visible: Vec<String> = cell.visible_lines().iter().map(|l| l.iter().collect()).collect();
    assert_eq!(visible, vec![" b ".to_string(), "  c".to_string()]);
}

#[test]
fn cursor_stays_on_bottom_visible_row_after_scroll() {
    let mut cell = TerminalCell::new(3, 3);
    cell.feed(b"\n\n\nx");
    assert_eq!(cell.cursor_row, 2);
    assert_eq!(cell.lines.len(), 4);
    let visible = cell.visible_lines();
    assert_eq!(visible.len(), 3);
    assert_eq!(visible[2][0], 'x');
    assert_eq!(visible[1], vec![' ', ' ', ' ']);
}

#[test]
fn erase_uses_visible_rows_after_scroll() {
    let mut cell = TerminalCell::new(2, 2);
    // Lines "a ", "b ", "c " with the view on the last two.
    cell.feed(b"a\r\nb\r\nc");
    assert_eq!(cell.lines.len(), 3);
    assert_eq!((cell.cursor_row, cell.cursor_col), (1, 1));
    // Erase in line clears the bottom visible row, not the buffer's second line.
    cell.feed(b"\x1b[2K");
    assert_eq!(row(&cell, 1), "b ");
    assert_eq!(row(&cell, 2), "  ");
    // Erase above the cursor clears the first visible row only.
    let mut cell = TerminalCell::new(2, 2);
    cell.feed(b"a\r\nb\r\nc\x1b[1J");
    assert_eq!(row(&cell, 0), "a ");
    assert_eq!(row(&cell, 1), "  ");
    assert_eq!(row(&cell, 2), "  ");
    // Erase below the cursor from the top visible row.
    let mut cell = TerminalCell::new(2, 2);
    cell.feed(b"a\r\nb\r\nc\x1b[1;1H\x1b[J");
    assert_eq!(row(&cell, 0), "a ");
    assert_eq!(row(&cell, 1), "  ");
    assert_eq!(row(&cell, 2), "  ");
}

#[test]
fn feed_parses_escape_sequences() {
    let mut cell = TerminalCell::new(5, 3);
    cell.feed(b"ab\x1b[3;2Hz\r\x1b[Cy");
    assert_eq!(row(&cell, 0), "ab   ");
    assert_eq!(row(&cell, 2), " y   ");
    assert_eq!((cell.cursor_row, cell.cursor_col), (2, 2));
    // Multi-byte UTF-8 comes out as one character.
    cell.feed("é".as_bytes());
    assert_eq!(cell.lines[2][2], 'é');
}

#[test]
fn feed_keeps_parser_state_between_chunks() {
    let mut cell = TerminalCell::new(5, 3);
    cell.feed(b"\x1b[2");
    cell.feed(b";4H");
    cell.feed(b"q");
    assert_eq!(cell.lines[1][3], 'q');
    assert_eq!((cell.cursor_row, cell.cursor_col), (1, 4));
}

#[test]
fn carriage_return_and_backspace() {
    let mut cell = TerminalCell::new(4, 2);
    let mut events = text("ab");
    events.push(VtEvent::Execute(b'\r'));
    events.extend(text("x"));
    cell.apply_events(&events);
    assert_eq!(row(&cell, 0), "xb  ");
    assert_eq!(cell.cursor_col, 1);
    cell.apply_events(&[VtEvent::Execute(0x08), VtEvent::Execute(0x08)]);
    assert_eq!(cell.cursor_col, 0);
}

#[test]
fn tab_moves_to_next_stop_within_line() {
    let mut cell = TerminalCell::new(20, 2);
    cell.apply_events(&[VtEvent::Execute(b'\t')]);
    assert_eq!(cell.cursor_col, 8);
    cell.apply_events(&[VtEvent::Execute(b'\t')]);
    assert_eq!(cell.cursor_col, 16);
    cell.apply_events(&[VtEvent::Execute(b'\t')]);
    assert_eq!(cell.cursor_col, 19);
    cell.apply_events(&text("ab"));
    cell.apply_events(&[VtEvent::Execute(b'\t')]);
    assert_eq!((cell.cursor_row, cell.cursor_col), (1, 8));
}

#[test]
fn other_control_bytes_are_ignored() {
    let mut cell = TerminalCell::new(4, 2);
    cell.apply_events(&text("ab"));
    cell.apply_events(&[VtEvent::Execute(0x07), VtEvent::Execute(0x00)]);
    assert_eq!(row(&cell, 0), "ab  ");
    assert_eq!((cell.cursor_row, cell.cursor_col), (0, 2));
}

#[test]
fn cursor_position_is_one_based_and_clamped() {
    let mut cell = TerminalCell::new(10, 5);
    cell.apply_events(&[csi(&[2, 3], 'H')]);
    assert_eq!((cell.cursor_row, cell.cursor_col), (1, 2));
    cell.apply_events(&[csi(&[], 'H')]);
    assert_eq!((cell.cursor_row, cell.cursor_col), (0, 0));
    cell.apply_events(&[csi(&[100, 100], 'f')]);
    assert_eq!((cell.cursor_row, cell.cursor_col), (4, 9));
    cell.apply_events(&[csi(&[0, 0], 'H')]);
    assert_eq!((cell.cursor_row, cell.cursor_col), (0, 0));
}

#[test]
fn cursor_movement() {
    let mut cell = TerminalCell::new(10, 5);
    cell.apply_events(&[csi(&[], 'B')]);
    assert_eq!(cell.cursor_row, 1);
    cell.apply_events(&[csi(&[9], 'B')]);
    assert_eq!(cell.cursor_row, 4);
    cell.apply_events(&[csi(&[2], 'A')]);
    assert_eq!(cell.cursor_row, 2);
    cell.apply_events(&[csi(&[7], 'A')]);
    assert_eq!(cell.cursor_row, 0);
    cell.apply_events(&[csi(&[0], 'C')]);
    assert_eq!(cell.cursor_col, 1);
    cell.apply_events(&[csi(&[50], 'C')]);
    assert_eq!(cell.cursor_col, 9);
    cell.apply_events(&[csi(&[3], 'D')]);
    assert_eq!(cell.cursor_col, 6);
    cell.apply_events(&[csi(&[30], 'D')]);
    assert_eq!(cell.cursor_col, 0);
}

fn filled(width: usize, height: usize) -> TerminalCell {
    let mut cell = TerminalCell::new(width, height);
    let mut events = Vec::new();
    for r in 0..height {
        events.push(csi(&[r as u16 + 1, 1], 'H'));
        for _ in 0..width {
            events.push(VtEvent::Print('x'));
        }
    }
    cell.apply_events(&events);
    cell
}

#[test]
fn erase_display_from_cursor() {
    let mut cell = filled(4, 3);
    cell.apply_events(&[csi(&[2, 3], 'H'), csi(&[], 'J')]);
    assert_eq!(row(&cell, 0), "xxxx");
    assert_eq!(row(&cell, 1), "xx  ");
    assert_eq!(row(&cell, 2), "    ");
    assert_eq!((cell.cursor_row, cell.cursor_col), (1, 2));
}

#[test]
fn erase_display_to_cursor() {
    let mut cell = filled(4, 3);
    cell.apply_events(&[csi(&[2, 3], 'H'), csi(&[1], 'J')]);
    assert_eq!(row(&cell, 0), "    ");
    assert_eq!(row(&cell, 1), "   x");
    assert_eq!(row(&cell, 2), "xxxx");
}

#[test]
fn erase_whole_display_homes_cursor() {
    let mut cell = filled(4, 3);
    cell.apply_events(&[csi(&[2, 3], 'H'), csi(&[2], 'J')]);
    for r in 0..3 {
        assert_eq!(row(&cell, r), "    ");
    }
    assert_eq!((cell.cursor_row, cell.cursor_col), (0, 0));
    let mut cell = filled(4, 3);
    cell.apply_events(&[csi(&[3], 'J')]);
    assert_eq!(row(&cell, 2), "    ");
    let mut cell = filled(4, 3);
    cell.apply_events(&[csi(&[7], 'J')]);
    assert_eq!(row(&cell, 2), "xxxx");
}

#[test]
fn erase_in_line_modes() {
    let mut cell = filled(4, 3);
    cell.apply_events(&[csi(&[1, 2], 'H'), csi(&[], 'K')]);
    assert_eq!(row(&cell, 0), "x   ");
    cell.apply_events(&[csi(&[2, 2], 'H'), csi(&[1], 'K')]);
    assert_eq!(row(&cell, 1), "  xx");
    cell.apply_events(&[csi(&[3, 2], 'H'), csi(&[2], 'K')]);
    assert_eq!(row(&cell, 2), "    ");
    cell.apply_events(&[csi(&[2, 1], 'H'), csi(&[5], 'K')]);
    assert_eq!(row(&cell, 1), "  xx");
}

#[test]
fn unsupported_sequences_are_ignored() {
    let mut cell = filled(4, 2);
    let before = cell.lines.clone();
    cell.apply_events(&[csi(&[1, 31], 'm'), csi(&[5], 'r')]);
    assert_eq!(cell.lines, before);
}

#[test]
fn scrollback_is_limited() {
    let mut cell = TerminalCell::new(2, 2);
    let events: Vec<VtEvent> = (0..1500).map(|_| VtEvent::Execute(b'\n')).collect();
    cell.apply_events(&events);
    assert_eq!(cell.lines.len(), MAX_SCROLLBACK);
    assert!(cell.cursor_row < cell.height);
}

#[test]
fn resize_preserves_content() {
    let mut cell = TerminalCell::new(4, 2);
    cell.apply_events(&text("ab"));
    cell.resize(2, 3);
    assert_eq!(cell.lines.len(), 3);
    assert_eq!(row(&cell, 0), "ab");
    assert_eq!(row(&cell, 2), "  ");
    assert_eq!((cell.width, cell.height), (2, 3));
    assert_eq!(cell.cursor_col, 1);
    cell.resize(6, 1);
    assert_eq!(row(&cell, 0), "ab    ");
    assert_eq!(cell.lines.len(), 3);
    assert_eq!(cell.cursor_row, 0);
}

#[test]
fn resize_clamps_cursor_and_minimum_size() {
    let mut cell = TerminalCell::new(10, 10);
    cell.apply_events(&[csi(&[9, 9], 'H')]);
    cell.resize(0, 0);
    assert_eq!((cell.width, cell.height), (1, 1));
    assert_eq!((cell.cursor_row, cell.cursor_col), (0, 0));
    for l in &cell.lines {
        assert_eq!(l.len(), 1);
    }
}

#[test]
fn resize_drops_oldest_lines_beyond_limit() {
    let mut cell = TerminalCell::new(2, 1200);
    cell.apply_events(&[csi(&[1, 1], 'H'), VtEvent::Print('a'), csi(&[201, 1], 'H'), VtEvent::Print('z')]);
    cell.resize(2, 1200);
    assert_eq!(cell.lines.len(), MAX_SCROLLBACK);
    assert_eq!(row(&cell, 0), "z ");
}

#[test]
fn visible_lines_are_the_last_height_lines() {
    let mut cell = TerminalCell::new(2, 2);
    assert_eq!(cell.visible_lines().len(), 2);
    cell.apply_events(&[VtEvent::Execute(b'\n'), VtEvent::Execute(b'\n'), VtEvent::Print('q')]);
    assert_eq!(cell.lines.len(), 3);
    let visible = cell.visible_lines();
    assert_eq!(visible.len(), 2);
    assert_eq!(visible[0], cell.lines[1]);
    assert_eq!(visible[1], cell.lines[2]);
}

#[test]
fn feeding_in_batches_equals_feeding_at_once() {
    let mut events = text("hello");
    events.push(VtEvent::Execute(b'\n'));
    events.push(csi(&[1, 3], 'H'));
    events.extend(text("world, wrapping"));
    events.push(csi(&[], 'K'));
    let mut whole = TerminalCell::new(6, 3);
    whole.apply_events(&events);
    for split in 0..events.len() {
        let mut parts = TerminalCell::new(6, 3);
        parts.apply_events(&events[..split]);
        parts.apply_events(&events[split..]);
        assert_eq!(parts.lines, whole.lines);
        assert_eq!((parts.cursor_row, parts.cursor_col), (whole.cursor_row, whole.cursor_col));
    }
}

#[test]
fn printed_char_reads_back_at_cursor() {
    let mut cell = TerminalCell::new(4, 3);
    cell.apply_events(&[csi(&[2, 2], 'H'), VtEvent::Print('k')]);
    assert_eq!(cell.lines[1][1], 'k');
    assert_eq!((cell.cursor_row, cell.cursor_col), (1, 2));
    // Past the last column the character goes to the start of the next line.
    cell.apply_events(&text("lm"));
    assert_eq!((cell.cursor_row, cell.cursor_col), (1, 4));
    cell.apply_events(&text("n"));
    assert_eq!(cell.lines[2][0], 'n');
    assert_eq!((cell.cursor_row, cell.cursor_col), (2, 1));
}

#[test]
fn resize_twice_to_same_size_changes_nothing() {
    let mut cell = TerminalCell::new(4, 3);
    cell.feed(b"abcdef\r\ngh\n\n\nij");
    cell.resize(3, 2);
    let lines = cell.lines.clone();
    let cursor = (cell.cursor_row, cell.cursor_col);
    cell.resize(3, 2);
    assert_eq!(cell.lines, lines);
    assert_eq!((cell.cursor_row, cell.cursor_col), cursor);
    assert_eq!((cell.width, cell.height), (3, 2));
}

#[test]
fn feeding_bytes_in_chunks_equals_feeding_at_once() {
    let data: &[u8] = "ab\x1b[2;2Hcd\r\nxyz\x1b[1K\x1b[3;1Hé\x1b[J".as_bytes();
    let mut whole = TerminalCell::new(4, 3);
    whole.feed(data);
    for split in 0..data.len() {
        let mut parts = TerminalCell::new(4, 3);
        parts.feed(&data[..split]);
        parts.feed(&data[split..]);
        assert_eq!(parts.lines, whole.lines);
        assert_eq!((parts.cursor_row, parts.cursor_col), (whole.cursor_row, whole.cursor_col));
    }
}
