use vpower_shell::app::{cell_inner_size, App, AppEvent, Effect, STATUS_BAR_HEIGHT};
use vpower_shell::grid::{compute_cells, CellRect, GridLayout};
use vpower_shell::input::{Direction, KeyCode, KeyEvent, KeyModifiers};
use vpower_shell::pty::PtyOutput;
use vpower_shell::ui::status_area;

#[test]
fn inner_size_of_cells() {
    let rects = vec![
        CellRect { x: 0, y: 0, width: 40, height: 12 },
        CellRect { x: 40, y: 0, width: 2, height: 12 },
    ];
    assert_eq!(cell_inner_size(&rects, 0), (38, 10));
    assert_eq!(cell_inner_size(&rects, 1), (1, 1));
    assert_eq!(cell_inner_size(&rects, 2), (1, 1));
}

#[test]
fn new_app_reserves_status_bar() {
    let app = App::new(80, 25);
    assert_eq!(STATUS_BAR_HEIGHT, 1);
    assert_eq!(app.layout, GridLayout::Grid2x2);
    assert_eq!(app.focus, (0, 0));
    assert_eq!(app.term_size, (80, 24));
    assert_eq!(app.cell_rects, compute_cells(GridLayout::Grid2x2, 80, 24));
    assert!(app.cells.is_empty());
    let tiny = App::new(80, 0);
    assert_eq!(tiny.term_size, (80, 0));
    assert!(tiny.cell_rects.is_empty());
}

#[test]
fn init_cells_creates_one_buffer_per_cell() {
    let mut app = App::new(80, 25);
    app.init_cells();
    assert_eq!(app.cells.len(), 4);
    for cell in &app.cells {
        assert_eq!((cell.width, cell.height), (38, 10));
    }
    app.init_cells();
    assert_eq!(app.cells.len(), 4);
}

#[test]
fn move_focus_wraps_around() {
    let mut app = App::new(80, 25);
    app.move_focus(Direction::Up);
    assert_eq!(app.focus, (1, 0));
    app.move_focus(Direction::Left);
    assert_eq!(app.focus, (1, 1));
    app.move_focus(Direction::Right);
    assert_eq!(app.focus, (1, 0));
    app.move_focus(Direction::Down);
    assert_eq!(app.focus, (0, 0));
    assert_eq!(app.focus_index(), 0);
}

#[test]
fn opposite_moves_cancel() {
    let mut app = App::new(90, 31);
    app.cycle_layout();
    for (d, back) in [
        (Direction::Up, Direction::Down),
        (Direction::Down, Direction::Up),
        (Direction::Left, Direction::Right),
        (Direction::Right, Direction::Left),
    ] {
        for r in 0..3 {
            for c in 0..3 {
                app.focus = (r, c);
                app.move_focus(d);
                assert!(app.focus.0 < 3 && app.focus.1 < 3);
                app.move_focus(back);
                assert_eq!(app.focus, (r, c));
            }
        }
    }
}

#[test]
fn cycle_layout_recomputes_and_clamps_focus() {
    let mut app = App::new(80, 25);
    app.init_cells();
    app.cycle_layout();
    assert_eq!(app.layout, GridLayout::Grid3x3);
    assert_eq!(app.cells.len(), 9);
    assert_eq!(app.cell_rects, compute_cells(GridLayout::Grid3x3, 80, 24));
    app.cycle_layout();
    assert_eq!(app.layout, GridLayout::Grid4x4);
    assert_eq!(app.cells.len(), 16);
    app.focus = (3, 3);
    assert_eq!(app.focus_index(), 15);
    app.cycle_layout();
    assert_eq!(app.layout, GridLayout::Grid2x2);
    assert_eq!(app.focus, (1, 1));
    // Buffers of cells outside the layout are kept.
    assert_eq!(app.cells.len(), 16);
    let (w, h) = cell_inner_size(&app.cell_rects, 0);
    assert_eq!((app.cells[0].width, app.cells[0].height), (w as usize, h as usize));
}

#[test]
fn handle_resize_resizes_buffers() {
    let mut app = App::new(80, 25);
    app.init_cells();
    app.handle_resize(100, 41);
    assert_eq!(app.term_size, (100, 40));
    assert_eq!(app.cell_rects, compute_cells(GridLayout::Grid2x2, 100, 40));
    for cell in &app.cells {
        assert_eq!((cell.width, cell.height), (48, 18));
    }
}

#[test]
fn pty_output_goes_to_its_cell() {
    let mut app = App::new(80, 25);
    app.init_cells();
    app.feed_cell(2, b"z");
    assert_eq!(app.cells[2].lines[0][0], 'z');
    assert_eq!(app.cells[0].lines[0][0], ' ');
    app.feed_cell(7, b"y");
    assert_eq!(app.cells.len(), 4);
}

fn press(code: KeyCode, control: bool, alt: bool) -> AppEvent {
    AppEvent::Key(KeyEvent { code, modifiers: KeyModifiers { control, alt } })
}

#[test]
fn step_quits_on_ctrl_q() {
    let mut app = App::new(80, 25);
    app.init_cells();
    assert_eq!(app.step(press(KeyCode::Char('q'), true, false)), Effect::Quit);
    assert_eq!(app.focus, (0, 0));
}

#[test]
fn step_sends_keys_to_the_focused_pty() {
    let mut app = App::new(80, 25);
    app.init_cells();
    assert_eq!(app.step(press(KeyCode::Right, false, true)), Effect::Redraw);
    assert_eq!(app.step(press(KeyCode::Down, true, false)), Effect::Redraw);
    assert_eq!(app.focus, (1, 1));
    assert_eq!(app.step(press(KeyCode::Char('x'), false, false)), Effect::WritePty(3, vec![b'x']));
    assert_eq!(app.step(press(KeyCode::Char('c'), true, false)), Effect::WritePty(3, vec![0x03]));
    assert_eq!(app.step(press(KeyCode::Char('v'), true, false)), Effect::Paste(3));
    assert_eq!(app.step(press(KeyCode::Char('x'), false, true)), Effect::Nothing);
    assert_eq!(app.focus, (1, 1));
}

#[test]
fn step_cycles_layout_and_resizes() {
    let mut app = App::new(80, 25);
    app.init_cells();
    assert_eq!(app.step(press(KeyCode::Char('g'), false, true)), Effect::SyncAndRedraw);
    assert_eq!(app.layout, GridLayout::Grid3x3);
    assert_eq!(app.cells.len(), 9);
    assert_eq!(app.step(AppEvent::Resize(100, 41)), Effect::SyncAndRedraw);
    assert_eq!(app.term_size, (100, 40));
    assert_eq!(app.cell_rects, compute_cells(GridLayout::Grid3x3, 100, 40));
}

#[test]
fn step_feeds_pty_output_and_redraws() {
    let mut app = App::new(80, 25);
    app.init_cells();
    let out = PtyOutput { cell_index: 1, data: b"\x1b[2;3Hk".to_vec() };
    assert_eq!(app.step(AppEvent::PtyOutput(out)), Effect::Redraw);
    assert_eq!(app.cells[1].lines[1][2], 'k');
    assert_eq!((app.cells[1].cursor_row, app.cells[1].cursor_col), (1, 3));
    let out = PtyOutput { cell_index: 9, data: b"k".to_vec() };
    assert_eq!(app.step(AppEvent::PtyOutput(out)), Effect::Redraw);
    assert_eq!(app.cells.len(), 4);
}

#[test]
fn status_bar_takes_the_bottom_row() {
    let area = CellRect { x: 0, y: 0, width: 80, height: 25 };
    assert_eq!(status_area(area), Some(CellRect { x: 0, y: 24, width: 80, height: 1 }));
    assert_eq!(status_area(CellRect { x: 0, y: 0, width: 80, height: 0 }), None);
}
