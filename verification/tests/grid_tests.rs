use vpower_shell::grid::{compute_cells, index_to_rc, rc_to_index, CellRect, GridLayout};

#[test]
fn test_2x2_even() {
    let cells = compute_cells(GridLayout::Grid2x2, 80, 24);
    assert_eq!(cells.len(), 4);
    assert_eq!(cells[0], CellRect { x: 0, y: 0, width: 40, height: 12 });
    assert_eq!(cells[1], CellRect { x: 40, y: 0, width: 40, height: 12 });
    assert_eq!(cells[2], CellRect { x: 0, y: 12, width: 40, height: 12 });
    assert_eq!(cells[3], CellRect { x: 40, y: 12, width: 40, height: 12 });
}

#[test]
fn test_2x2_odd() {
    let cells = compute_cells(GridLayout::Grid2x2, 81, 25);
    assert_eq!(cells.len(), 4);
    // Last column gets remainder width (40+1=41), last row gets remainder height (12+1=13)
    assert_eq!(cells[0], CellRect { x: 0, y: 0, width: 40, height: 12 });
    assert_eq!(cells[1], CellRect { x: 40, y: 0, width: 41, height: 12 });
    assert_eq!(cells[2], CellRect { x: 0, y: 12, width: 40, height: 13 });
    assert_eq!(cells[3], CellRect { x: 40, y: 12, width: 41, height: 13 });
}

#[test]
fn test_3x3_layout() {
    let cells = compute_cells(GridLayout::Grid3x3, 90, 30);
    assert_eq!(cells.len(), 9);
    assert_eq!(cells[0].width, 30);
    assert_eq!(cells[0].height, 10);
}

#[test]
fn test_4x4_layout() {
    let cells = compute_cells(GridLayout::Grid4x4, 80, 24);
    assert_eq!(cells.len(), 16);
    assert_eq!(cells[0].width, 20);
    assert_eq!(cells[0].height, 6);
}

#[test]
fn test_layout_cycling() {
    assert_eq!(GridLayout::Grid2x2.next(), GridLayout::Grid3x3);
    assert_eq!(GridLayout::Grid3x3.next(), GridLayout::Grid4x4);
    assert_eq!(GridLayout::Grid4x4.next(), GridLayout::Grid2x2);
}

#[test]
fn test_tiny_terminal() {
    let cells = compute_cells(GridLayout::Grid2x2, 3, 3);
    assert_eq!(cells.len(), 4);
    // 3/2 = 1 remainder 1; last col/row gets 2
    assert_eq!(cells[0], CellRect { x: 0, y: 0, width: 1, height: 1 });
    assert_eq!(cells[3], CellRect { x: 1, y: 1, width: 2, height: 2 });
}

#[test]
fn test_rc_conversions() {
    assert_eq!(rc_to_index(GridLayout::Grid3x3, 1, 2), 5);
    assert_eq!(index_to_rc(GridLayout::Grid3x3, 5), (1, 2));
}

#[test]
fn test_cell_inner() {
    let cell = CellRect { x: 10, y: 5, width: 20, height: 10 };
    let inner = cell.inner().unwrap();
    assert_eq!(inner, CellRect { x: 11, y: 6, width: 18, height: 8 });
}

#[test]
fn test_cell_inner_too_small() {
    let cell = CellRect { x: 0, y: 0, width: 2, height: 2 };
    assert!(cell.inner().is_none());
}

#[test]
fn layout_sizes_and_counts() {
    assert_eq!(GridLayout::Grid2x2.size(), 2);
    assert_eq!(GridLayout::Grid3x3.size(), 3);
    assert_eq!(GridLayout::Grid4x4.size(), 4);
    assert_eq!(GridLayout::Grid2x2.cell_count(), 4);
    assert_eq!(GridLayout::Grid3x3.cell_count(), 9);
    assert_eq!(GridLayout::Grid4x4.cell_count(), 16);
}

#[test]
fn layout_cycle_returns_after_three_steps() {
    for l in [GridLayout::Grid2x2, GridLayout::Grid3x3, GridLayout::Grid4x4] {
        assert_ne!(l.next(), l);
        assert_ne!(l.next().next(), l);
        assert_eq!(l.next().next().next(), l);
    }
}

#[test]
fn cells_tile_the_whole_area() {
    for layout in [GridLayout::Grid2x2, GridLayout::Grid3x3, GridLayout::Grid4x4] {
        for (w, h) in [(80u16, 24u16), (81, 25), (7, 5), (1, 1), (65535, 65535), (100, 3)] {
            let cells = compute_cells(layout, w, h);
            let n = layout.size();
            assert_eq!(cells.len(), n * n);
            for r in 0..n {
                assert_eq!(cells[r * n].x, 0);
                let last = cells[r * n + n - 1];
                assert_eq!(last.x as u32 + last.width as u32, w as u32);
                for c in 0..n - 1 {
                    let a = cells[r * n + c];
                    let b = cells[r * n + c + 1];
                    assert_eq!(a.x + a.width, b.x);
                    assert_eq!(a.y, b.y);
                }
            }
            for c in 0..n {
                assert_eq!(cells[c].y, 0);
                let last = cells[(n - 1) * n + c];
                assert_eq!(last.y as u32 + last.height as u32, h as u32);
            }
        }
    }
}

#[test]
fn empty_terminal_has_no_cells() {
    assert!(compute_cells(GridLayout::Grid2x2, 0, 24).is_empty());
    assert!(compute_cells(GridLayout::Grid3x3, 80, 0).is_empty());
}

#[test]
fn last_column_takes_the_remainder() {
    let cells = compute_cells(GridLayout::Grid3x3, 100, 31);
    assert_eq!(cells[0], CellRect { x: 0, y: 0, width: 33, height: 10 });
    assert_eq!(cells[1], CellRect { x: 33, y: 0, width: 33, height: 10 });
    assert_eq!(cells[2], CellRect { x: 66, y: 0, width: 34, height: 10 });
    assert_eq!(cells[8], CellRect { x: 66, y: 20, width: 34, height: 11 });
}

#[test]
fn rc_index_roundtrip() {
    for layout in [GridLayout::Grid2x2, GridLayout::Grid3x3, GridLayout::Grid4x4] {
        let n = layout.size();
        for r in 0..6 {
            for c in 0..n {
                assert_eq!(index_to_rc(layout, rc_to_index(layout, r, c)), (r, c));
            }
        }
        for i in 0..40 {
            let (r, c) = index_to_rc(layout, i);
            assert_eq!(rc_to_index(layout, r, c), i);
        }
    }
}

#[test]
fn inner_of_minimal_cell() {
    let cell = CellRect { x: 0, y: 0, width: 3, height: 3 };
    assert_eq!(cell.inner(), Some(CellRect { x: 1, y: 1, width: 1, height: 1 }));
    let thin = CellRect { x: 0, y: 0, width: 10, height: 2 };
    assert_eq!(thin.inner(), None);
}
