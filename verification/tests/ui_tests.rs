use vpower_shell::grid::{compute_cells, CellRect, GridLayout};
use vpower_shell::terminal_cell::{TerminalCell, VtEvent};
use vpower_shell::ui::{Glyph, GlyphStyle, GridWidget, StatusBar};

fn at(glyphs: &[Glyph], x: u16, y: u16) -> Option<Glyph> {
    glyphs.iter().rev().find(|g| g.x == x && g.y == y).copied()
}

#[test]
fn status_text_shows_layout_and_focus() {
    let bar = StatusBar { layout: GridLayout::Grid3x3, focus_row: 1, focus_col: 12 };
    let text: String = bar.text().into_iter().collect();
    assert_eq!(
        text,
        " vpower-shell | Layout: 3x3 | Focus: (1,12) | Alt+G: cycle | Alt+Arrow: move | Ctrl+Q: quit "
    );
    let bar = StatusBar { layout: GridLayout::Grid2x2, focus_row: 0, focus_col: 0 };
    let text: String = bar.text().into_iter().collect();
    assert!(text.contains("Layout: 2x2 | Focus: (0,0)"));
}

#[test]
fn status_bar_fills_row() {
    let bar = StatusBar { layout: GridLayout::Grid4x4, focus_row: 3, focus_col: 2 };
    let text = bar.text();
    let area = CellRect { x: 0, y: 9, width: 120, height: 1 };
    let glyphs = bar.render(area);
    assert_eq!(glyphs.len(), 120);
    for (i, g) in glyphs.iter().enumerate() {
        assert_eq!((g.x, g.y), (i as u16, 9));
        assert_eq!(g.style, GlyphStyle::Status);
        let expected = if i < text.len() { text[i] } else { ' ' };
        assert_eq!(g.ch, expected);
    }
}

#[test]
fn status_bar_is_cut_at_width() {
    let bar = StatusBar { layout: GridLayout::Grid2x2, focus_row: 0, focus_col: 0 };
    let glyphs = bar.render(CellRect { x: 2, y: 0, width: 10, height: 1 });
    let shown: String = glyphs.iter().map(|g| g.ch).collect();
    assert_eq!(shown, " vpower-sh");
    assert_eq!(glyphs[0].x, 2);
    assert_eq!(glyphs[9].x, 11);
}

#[test]
fn grid_borders_and_focus() {
    let rects = compute_cells(GridLayout::Grid2x2, 10, 6);
    let cells: Vec<TerminalCell> = Vec::new();
    let widget = GridWidget { layout: GridLayout::Grid2x2, cell_rects: &rects, cells: &cells, focus_index: 1 };
    let glyphs = widget.render(CellRect { x: 0, y: 0, width: 10, height: 7 });
    let g = at(&glyphs, 0, 0).unwrap();
    assert_eq!((g.ch, g.style), ('┌', GlyphStyle::Border));
    let g = at(&glyphs, 4, 2).unwrap();
    assert_eq!((g.ch, g.style), ('┘', GlyphStyle::Border));
    let g = at(&glyphs, 5, 0).unwrap();
    assert_eq!((g.ch, g.style), ('┌', GlyphStyle::FocusedBorder));
    let g = at(&glyphs, 7, 0).unwrap();
    assert_eq!((g.ch, g.style), ('─', GlyphStyle::FocusedBorder));
    let g = at(&glyphs, 9, 1).unwrap();
    assert_eq!((g.ch, g.style), ('│', GlyphStyle::FocusedBorder));
    assert!(at(&glyphs, 2, 1).is_none());
    // Each 5x3 cell has a border of 4 corners, 2x3 edge and 2x1 side glyphs.
    assert_eq!(glyphs.len(), 4 * (4 + 6 + 2));
}

#[test]
fn grid_content_is_drawn_inside_border() {
    let rects = compute_cells(GridLayout::Grid2x2, 10, 8);
    let mut cell = TerminalCell::new(3, 2);
    cell.apply_events(&[VtEvent::Print('h'), VtEvent::Print('i')]);
    let cells = vec![cell];
    let widget = GridWidget { layout: GridLayout::Grid2x2, cell_rects: &rects, cells: &cells, focus_index: 0 };
    let glyphs = widget.render(CellRect { x: 0, y: 0, width: 10, height: 8 });
    let g = at(&glyphs, 1, 1).unwrap();
    assert_eq!((g.ch, g.style), ('h', GlyphStyle::Content));
    let g = at(&glyphs, 2, 1).unwrap();
    assert_eq!((g.ch, g.style), ('i', GlyphStyle::Content));
    let g = at(&glyphs, 3, 2).unwrap();
    assert_eq!((g.ch, g.style), (' ', GlyphStyle::Content));
    assert!(at(&glyphs, 6, 1).is_none());
}

#[test]
fn glyphs_outside_the_buffer_are_dropped() {
    let rects = compute_cells(GridLayout::Grid2x2, 10, 6);
    let cells: Vec<TerminalCell> = Vec::new();
    let widget = GridWidget { layout: GridLayout::Grid2x2, cell_rects: &rects, cells: &cells, focus_index: 0 };
    let glyphs = widget.render(CellRect { x: 0, y: 0, width: 5, height: 3 });
    assert!(glyphs.iter().all(|g| g.x < 5 && g.y < 3));
    assert_eq!(glyphs.len(), 12);
}
