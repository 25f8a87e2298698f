//! Multiplexer state: the grid layout, the focused cell, the cell rectangles
//! and the terminal buffers of the cells, and how they change on layout
//! cycling, focus movement, terminal resize and PTY output.
use vstd::prelude::*;

use crate::grid::{self, CellRect, GridLayout, spec_cells};
use crate::input::{handle_key_event, is_action_of, Direction, InputAction, KeyEvent};
use crate::pty::PtyOutput;
use crate::terminal_cell::{
    blank_line, blank_lines, fit_line, vt_events, CellState, TerminalCell, MAX_SCROLLBACK,
};

verus! {

/// Height of the status bar in rows.
pub const STATUS_BAR_HEIGHT: u16 = 1;

/// The content size of cell `index` (its rectangle without the border), or
/// (1, 1) when there is no such cell or it is too small to have content.
pub open spec fn spec_inner_size(cell_rects: Seq<CellRect>, index: int) -> (u16, u16) {
    if 0 <= index < cell_rects.len() && cell_rects[index].has_inner() {
        ((cell_rects[index].width - 2) as u16, (cell_rects[index].height - 2) as u16)
    } else {
        (1, 1)
    }
}

/// True when taking the inner area of `rect` does not overflow.
pub open spec fn inner_fits(rect: CellRect) -> bool {
    rect.has_inner() ==> rect.x < u16::MAX && rect.y < u16::MAX
}

/// Get the inner (content area) size for a cell by index from the cell_rects slice.
pub fn cell_inner_size(cell_rects: &[CellRect], index: usize) -> (size: (u16, u16))
    requires
        index < cell_rects@.len() ==> inner_fits(cell_rects@[index as int]),
    ensures
        size == spec_inner_size(cell_rects@, index as int),
{
    if index < cell_rects.len() {
        let rect = cell_rects[index];
        if let Some(inner) = rect.inner() {
            return (inner.width, inner.height);
        }
    }
    // Fallback for very small cells
    (1, 1)
}

/// Every cell that `compute_cells` produces lies inside the terminal, so
/// taking its inner area does not overflow.
pub proof fn lemma_cells_inner_fit(layout: GridLayout, width: u16, height: u16)
    ensures
        forall|i: int|
            0 <= i < spec_cells(layout, width, height).len() ==> inner_fits(
                #[trigger] spec_cells(layout, width, height)[i],
            ),
{
    if width > 0 && height > 0 {
        grid::lemma_cells_tile(layout, width, height);
    }
}

/// The focus after one move in `direction` on an `n` x `n` grid, wrapping at
/// the grid boundaries.
pub open spec fn spec_move_focus(n: int, focus: (int, int), direction: Direction) -> (int, int) {
    let (row, col) = focus;
    match direction {
        Direction::Up => if row == 0 {
            (n - 1, col)
        } else {
            (row - 1, col)
        },
        Direction::Down => if row + 1 >= n {
            (0, col)
        } else {
            (row + 1, col)
        },
        Direction::Left => if col == 0 {
            (row, n - 1)
        } else {
            (row, col - 1)
        },
        Direction::Right => if col + 1 >= n {
            (row, 0)
        } else {
            (row, col + 1)
        },
    }
}

/// The direction that undoes a move.
pub open spec fn opposite(direction: Direction) -> Direction {
    match direction {
        Direction::Up => Direction::Down,
        Direction::Down => Direction::Up,
        Direction::Left => Direction::Right,
        Direction::Right => Direction::Left,
    }
}

/// Focus movement stays inside the grid, and a move followed by a move in
/// the opposite direction returns the focus to where it was.
pub proof fn lemma_move_focus_inverse(n: int, focus: (int, int), direction: Direction)
    requires
        n >= 1,
        0 <= focus.0 < n,
        0 <= focus.1 < n,
    ensures
        ({
            let moved = spec_move_focus(n, focus, direction);
            &&& 0 <= moved.0 < n
            &&& 0 <= moved.1 < n
            &&& spec_move_focus(n, moved, opposite(direction)) == focus
        }),
{
}

/// A focus move steps one cell in its direction and wraps at the grid's
/// edges: Up takes the row one toward row 0, Down one away from it, Left
/// the column one toward column 0, Right one away from it, each modulo the
/// grid size; the other coordinate stays.
pub proof fn lemma_move_focus_steps(n: int, row: int, col: int)
    requires
        n >= 1,
        0 <= row < n,
        0 <= col < n,
    ensures
        spec_move_focus(n, (row, col), Direction::Up) == ((row + n - 1) % n, col),
        spec_move_focus(n, (row, col), Direction::Down) == ((row + 1) % n, col),
        spec_move_focus(n, (row, col), Direction::Left) == (row, (col + n - 1) % n),
        spec_move_focus(n, (row, col), Direction::Right) == (row, (col + 1) % n),
{
    lemma_step_mod(n, row);
    lemma_step_mod(n, col);
}

/// One step back and one step forward, modulo `n`.
proof fn lemma_step_mod(n: int, x: int)
    requires
        n >= 1,
        0 <= x < n,
    ensures
        (x + n - 1) % n == (if x == 0 {
            n - 1
        } else {
            x - 1
        }),
        (x + 1) % n == (if x + 1 >= n {
            0
        } else {
            x + 1
        }),
{
    if x == 0 {
        vstd::arithmetic::div_mod::lemma_small_mod((n - 1) as nat, n as nat);
    } else {
        vstd::arithmetic::div_mod::lemma_mod_add_multiples_vanish(x - 1, n);
        vstd::arithmetic::div_mod::lemma_small_mod((x - 1) as nat, n as nat);
    }
    if x + 1 >= n {
        vstd::arithmetic::div_mod::lemma_mod_self_0(n);
    } else {
        vstd::arithmetic::div_mod::lemma_small_mod((x + 1) as nat, n as nat);
    }
}

/// The cells of a grid after recomputing it for `cell_rects`: every cell of
/// the layout exists and is resized to its content size; cells beyond the
/// layout are kept as they are.
pub open spec fn spec_resized_cells(old: Seq<CellState>, cell_rects: Seq<CellRect>, count: int) -> Seq<
    CellState,
> {
    let len = if old.len() < count {
        count
    } else {
        old.len() as int
    };
    Seq::new(
        len as nat,
        |i: int|
            if i < count {
                let size = spec_inner_size(cell_rects, i);
                let base = if i < old.len() {
                    old[i]
                } else {
                    CellState::fresh(size.0 as nat, size.1 as nat)
                };
                base.resize(size.0 as nat, size.1 as nat)
            } else {
                old[i]
            },
    )
}

/// What recomputing the grid does to the pane buffers, pane by pane.
proof fn lemma_resized_cells(old: Seq<CellState>, cell_rects: Seq<CellRect>, count: int)
    requires
        count >= 0,
    ensures
        ({
            let r = spec_resized_cells(old, cell_rects, count);
            &&& r.len() == (if old.len() < count {
                count
            } else {
                old.len() as int
            })
            &&& forall|i: int|
                0 <= i < old.len() && i < count ==> #[trigger] r[i] == old[i].resize(
                    spec_inner_size(cell_rects, i).0 as nat,
                    spec_inner_size(cell_rects, i).1 as nat,
                )
            &&& forall|i: int| count <= i < old.len() ==> #[trigger] r[i] == old[i]
            &&& forall|i: int|
                old.len() <= i < count ==> {
                    &&& (#[trigger] r[i]).row == 0
                    &&& r[i].col == 0
                    &&& forall|j: int, c: int|
                        0 <= j < r[i].lines.len() && 0 <= c < r[i].lines[j].len()
                            ==> #[trigger] r[i].lines[j][c] == ' '
                }
        }),
{
    let r = spec_resized_cells(old, cell_rects, count);
    assert forall|i: int| old.len() <= i < count implies {
        &&& (#[trigger] r[i]).row == 0
        &&& r[i].col == 0
        &&& forall|j: int, c: int|
            0 <= j < r[i].lines.len() && 0 <= c < r[i].lines[j].len() ==> #[trigger] r[i].lines[j][c]
                == ' '
    } by {
        let size = spec_inner_size(cell_rects, i);
        let f = CellState::fresh(size.0 as nat, size.1 as nat);
        let w = f.width;
        let h = f.height;
        let fitted = Seq::new(f.lines.len(), |k: int| fit_line(f.lines[k], w));
        let grown = if fitted.len() < h {
            fitted + blank_lines((h - fitted.len()) as nat, w)
        } else {
            fitted
        };
        assert forall|k: int, c: int| 0 <= k < grown.len() && 0 <= c < grown[k].len() implies grown[k][c]
            == ' ' by {
            assert(f.lines[k] == blank_line(w));
            assert(fit_line(f.lines[k], w) =~= blank_line(w));
        }
        assert(r[i] == f.resize(size.0 as nat, size.1 as nat));
        assert forall|j: int, c: int|
            0 <= j < r[i].lines.len() && 0 <= c < r[i].lines[j].len() implies #[trigger] r[i].lines[j][c]
                == ' ' by {
            if grown.len() > MAX_SCROLLBACK {
                assert(r[i].lines[j] == grown[j + grown.len() - MAX_SCROLLBACK]);
            } else {
                assert(r[i].lines[j] == grown[j]);
            }
        }
    }
}

/// Recomputing the grid, after a terminal resize or a layout cycle, keeps
/// every pane that already had a buffer: its new buffer is its old one
/// resized to the content area of its new rectangle, so every character that
/// still fits stays in place (`lemma_resize_preserves_content`). Buffers
/// beyond the layout are left as they were, and the panes the layout gains
/// start blank, with the cursor at the top left.
pub proof fn lemma_regrid_keeps_panes(pre: App, post: App, width: u16, height: u16)
    requires
        pre.wf(),
        post.wf(),
        spec_resized(pre, width, height, post) || spec_cycled(pre, post),
    ensures
        ({
            let count = post.layout.spec_size() * post.layout.spec_size();
            let old = pre.cell_states();
            let new = post.cell_states();
            &&& new.len() == (if old.len() < count {
                count
            } else {
                old.len() as int
            })
            &&& forall|i: int|
                0 <= i < old.len() && i < count ==> #[trigger] new[i] == old[i].resize(
                    spec_inner_size(post.cell_rects@, i).0 as nat,
                    spec_inner_size(post.cell_rects@, i).1 as nat,
                )
            &&& forall|i: int| count <= i < old.len() ==> #[trigger] new[i] == old[i]
            &&& forall|i: int|
                old.len() <= i < count ==> {
                    &&& (#[trigger] new[i]).row == 0
                    &&& new[i].col == 0
                    &&& forall|j: int, c: int|
                        0 <= j < new[i].lines.len() && 0 <= c < new[i].lines[j].len()
                            ==> #[trigger] new[i].lines[j][c] == ' '
                }
        }),
{
    let count = post.layout.spec_size() * post.layout.spec_size();
    lemma_resized_cells(pre.cell_states(), post.cell_rects@, count);
}

/// The index of the focused cell in the cell list.
pub open spec fn spec_focus_index(app: App) -> int {
    app.focus.0 * app.layout.spec_size() + app.focus.1
}

/// `post` is `pre` with the next layout: the rectangles recomputed for it
/// (part of `wf`), the buffers of its cells created or resized to their
/// content areas, and the focus clamped into the new grid.
pub open spec fn spec_cycled(pre: App, post: App) -> bool {
    &&& post.layout == pre.layout.spec_next()
    &&& post.term_size == pre.term_size
    &&& post.cell_states() == spec_resized_cells(
        pre.cell_states(),
        spec_cells(pre.layout.spec_next(), pre.term_size.0, pre.term_size.1),
        post.layout.spec_size() * post.layout.spec_size(),
    )
    &&& post.focus == (
        if pre.focus.0 < post.layout.spec_size() {
            pre.focus.0
        } else {
            (post.layout.spec_size() - 1) as usize
        },
        if pre.focus.1 < post.layout.spec_size() {
            pre.focus.1
        } else {
            (post.layout.spec_size() - 1) as usize
        },
    )
}

/// `post` is `pre` with the focus moved one cell in `direction`, wrapping at
/// the grid's edges; nothing else changes.
pub open spec fn spec_focus_moved(pre: App, direction: Direction, post: App) -> bool {
    &&& post.focus.0 == spec_move_focus(
        pre.layout.spec_size() as int,
        (pre.focus.0 as int, pre.focus.1 as int),
        direction,
    ).0
    &&& post.focus.1 == spec_move_focus(
        pre.layout.spec_size() as int,
        (pre.focus.0 as int, pre.focus.1 as int),
        direction,
    ).1
    &&& post.layout == pre.layout
    &&& post.cells == pre.cells
    &&& post.cell_rects == pre.cell_rects
    &&& post.term_size == pre.term_size
}

/// `post` is `pre` after the terminal became `width` x `height`: one row is
/// kept for the status bar, the rectangles are recomputed (part of `wf`), the
/// buffers of the layout's cells are created or resized to their content
/// areas, and the focus stays.
pub open spec fn spec_resized(pre: App, width: u16, height: u16, post: App) -> bool {
    &&& post.layout == pre.layout
    &&& post.term_size == (width, (if height >= STATUS_BAR_HEIGHT {
        height - STATUS_BAR_HEIGHT
    } else {
        0
    }) as u16)
    &&& post.cell_states() == spec_resized_cells(
        pre.cell_states(),
        spec_cells(pre.layout, post.term_size.0, post.term_size.1),
        pre.layout.spec_size() * pre.layout.spec_size(),
    )
    &&& post.focus == pre.focus
}

/// `post` is `pre` after `data` came from the PTY of cell `cell_index`: that
/// cell's buffer took the bytes through its parser; every other cell, and
/// everything else, stays. Output for a cell that has no buffer is dropped.
pub open spec fn spec_fed(pre: App, cell_index: usize, data: Seq<u8>, post: App) -> bool {
    &&& post.layout == pre.layout
    &&& post.focus == pre.focus
    &&& post.cell_rects == pre.cell_rects
    &&& post.term_size == pre.term_size
    &&& post.cells@.len() == pre.cells@.len()
    &&& forall|i: int|
        0 <= i < pre.cells@.len() && i != cell_index ==> #[trigger] post.cells@[i] == pre.cells@[i]
    &&& cell_index < pre.cells@.len() ==> {
        let before = pre.cells@[cell_index as int];
        let after = post.cells@[cell_index as int];
        &&& after.parser.fed() == before.parser.fed() + data
        &&& after@ == before@.feed(before.parser.fed(), data)
        &&& vt_events(before.parser.fed()).is_prefix_of(vt_events(after.parser.fed()))
    }
}

/// What the multiplexer does with a key press's action: `post` is the state
/// after it and `effect` the outside work it calls for. Quit ends the loop;
/// cycling the layout changes the grid, and the PTYs must then follow it
/// before a redraw; moving the focus redraws; bytes and pastes go to the PTY
/// of the focused cell; no action does nothing. Only cycling and moving the
/// focus change the state.
pub open spec fn action_outcome(pre: App, action: InputAction, post: App, effect: Effect) -> bool {
    match action {
        InputAction::Quit => post == pre && effect is Quit,
        InputAction::CycleLayout => spec_cycled(pre, post) && effect is SyncAndRedraw,
        InputAction::MoveFocus(d) => spec_focus_moved(pre, d, post) && effect is Redraw,
        InputAction::PtyInput(bytes) => post == pre && (effect matches Effect::WritePty(i, b)
            && i == spec_focus_index(pre) && b@ == bytes@),
        InputAction::Paste => post == pre && (effect matches Effect::Paste(i) && i
            == spec_focus_index(pre)),
        InputAction::NoAction => post == pre && effect is Nothing,
    }
}

/// What the multiplexer does with one event of its loop: a key press as its
/// action says; a terminal resize changes the grid, after which the PTYs must
/// follow it and the screen be redrawn; PTY output goes to its cell's buffer,
/// after which the screen is redrawn.
pub open spec fn step_outcome(pre: App, event: AppEvent, post: App, effect: Effect) -> bool {
    match event {
        AppEvent::Key(k) => exists|a: InputAction|
            #[trigger] is_action_of(a, k) && action_outcome(pre, a, post, effect),
        AppEvent::Resize(w, h) => spec_resized(pre, w, h, post) && effect is SyncAndRedraw,
        AppEvent::PtyOutput(out) => spec_fed(pre, out.cell_index, out.data@, post)
            && effect is Redraw,
    }
}

/// An event of the multiplexer's loop.
pub enum AppEvent {
    /// A key press.
    Key(KeyEvent),
    /// The terminal's new width and height.
    Resize(u16, u16),
    /// Output of a cell's PTY.
    PtyOutput(PtyOutput),
}

/// Outside work that an event calls for.
#[derive(Debug, PartialEq, Eq)]
pub enum Effect {
    /// Leave the loop.
    Quit,
    /// Write these bytes to the PTY of this cell.
    WritePty(usize, Vec<u8>),
    /// Write the clipboard's text to the PTY of this cell.
    Paste(usize),
    /// Spawn and resize the PTYs to the cells of the layout, then redraw.
    SyncAndRedraw,
    /// Redraw the screen.
    Redraw,
    /// Nothing.
    Nothing,
}

/// Application state.
pub struct App {
    /// Current grid layout.
    pub layout: GridLayout,
    /// Currently focused cell as (row, col).
    pub focus: (usize, usize),
    /// Terminal cell buffers, one per PTY.
    pub cells: Vec<TerminalCell>,
    /// Computed cell rectangles for the current layout.
    pub cell_rects: Vec<CellRect>,
    /// Terminal size (width, height) excluding the status bar.
    pub term_size: (u16, u16),
}

impl App {
    /// The buffers of the cells.
    pub open spec fn cell_states(&self) -> Seq<CellState> {
        self.cells@.map_values(|c: TerminalCell| c@)
    }

    /// The invariant of the application state: the focus is inside the grid,
    /// the rectangles are those of the layout over the terminal size, and
    /// every cell buffer is well-formed.
    pub open spec fn wf(&self) -> bool {
        &&& self.focus.0 < self.layout.spec_size()
        &&& self.focus.1 < self.layout.spec_size()
        &&& self.cell_rects@ == spec_cells(self.layout, self.term_size.0, self.term_size.1)
        &&& forall|i: int| 0 <= i < self.cells@.len() ==> (#[trigger] self.cells@[i])@.wf()
    }

    /// Create a new app with the initial 2x2 layout; one row of the terminal
    /// is kept for the status bar.
    pub fn new(term_width: u16, term_height: u16) -> (app: App)
        ensures
            app.wf(),
            app.layout == GridLayout::Grid2x2,
            app.focus == (0usize, 0usize),
            app.cells@.len() == 0,
            app.term_size == (term_width, (if term_height >= STATUS_BAR_HEIGHT {
                term_height - STATUS_BAR_HEIGHT
            } else {
                0
            }) as u16),
    {
        let layout = GridLayout::Grid2x2;
        let grid_height = term_height.saturating_sub(STATUS_BAR_HEIGHT);
        let cell_rects = grid::compute_cells(layout, term_width, grid_height);

        App { layout, focus: (0, 0), cells: Vec::new(), cell_rects, term_size: (term_width, grid_height) }
    }

    /// Index of the focused cell in the cell list.
    pub fn focus_index(&self) -> (i: usize)
        requires
            self.wf(),
        ensures
            i == self.focus.0 * self.layout.spec_size() + self.focus.1,
    {
        proof {
            assert(self.focus.0 * self.layout.spec_size() + self.focus.1 < 16) by (nonlinear_arith)
                requires
                    self.focus.0 < self.layout.spec_size(),
                    self.focus.1 < self.layout.spec_size(),
                    self.layout.spec_size() <= 4,
            ;
        }
        grid::rc_to_index(self.layout, self.focus.0, self.focus.1)
    }

    /// Create the terminal buffers for the cells of the current layout that
    /// do not have one yet, each sized to its cell's content area.
    pub fn init_cells(&mut self)
        requires
            old(self).wf(),
        ensures
            final(self).wf(),
            final(self).layout == old(self).layout,
            final(self).focus == old(self).focus,
            final(self).cell_rects == old(self).cell_rects,
            final(self).term_size == old(self).term_size,
            final(self).cells@.len() == (if old(self).cells@.len() < old(self).layout.spec_size()
                * old(self).layout.spec_size() {
                old(self).layout.spec_size() * old(self).layout.spec_size()
            } else {
                old(self).cells@.len() as int
            }),
            forall|i: int|
                0 <= i < old(self).cells@.len() ==> #[trigger] final(self).cells@[i]
                    == old(self).cells@[i],
            forall|i: int|
                old(self).cells@.len() <= i < final(self).cells@.len() ==> (
                #[trigger] final(self).cells@[i])@ == CellState::fresh(
                    spec_inner_size(old(self).cell_rects@, i).0 as nat,
                    spec_inner_size(old(self).cell_rects@, i).1 as nat,
                ),
    {
        let count = self.layout.cell_count();
        proof {
            lemma_cells_inner_fit(self.layout, self.term_size.0, self.term_size.1);
        }
        self.push_missing_cells(count);
    }

    /// Appends fresh buffers until there are `count` of them.
    fn push_missing_cells(&mut self, count: usize)
        requires
            old(self).wf(),
            forall|i: int|
                0 <= i < old(self).cell_rects@.len() ==> inner_fits(
                    #[trigger] old(self).cell_rects@[i],
                ),
        ensures
            final(self).wf(),
            final(self).layout == old(self).layout,
            final(self).focus == old(self).focus,
            final(self).cell_rects == old(self).cell_rects,
            final(self).term_size == old(self).term_size,
            final(self).cells@.len() == (if old(self).cells@.len() < count {
                count as int
            } else {
                old(self).cells@.len() as int
            }),
            forall|i: int|
                0 <= i < old(self).cells@.len() ==> #[trigger] final(self).cells@[i]
                    == old(self).cells@[i],
            forall|i: int|
                old(self).cells@.len() <= i < final(self).cells@.len() ==> (
                #[trigger] final(self).cells@[i])@ == CellState::fresh(
                    spec_inner_size(old(self).cell_rects@, i).0 as nat,
                    spec_inner_size(old(self).cell_rects@, i).1 as nat,
                ),
    {
        let ghost start = *self;
        while self.cells.len() < count
            invariant
                self.wf(),
                self.layout == start.layout,
                self.focus == start.focus,
                self.cell_rects == start.cell_rects,
                self.term_size == start.term_size,
                forall|i: int|
                    0 <= i < self.cell_rects@.len() ==> inner_fits(#[trigger] self.cell_rects@[i]),
                start.cells@.len() <= self.cells@.len(),
                start.cells@.len() < count ==> self.cells@.len() <= count,
                start.cells@.len() >= count ==> self.cells@.len() == start.cells@.len(),
                forall|i: int|
                    0 <= i < start.cells@.len() ==> #[trigger] self.cells@[i] == start.cells@[i],
                forall|i: int|
                    start.cells@.len() <= i < self.cells@.len() ==> (
                    #[trigger] self.cells@[i])@ == CellState::fresh(
                        spec_inner_size(start.cell_rects@, i).0 as nat,
                        spec_inner_size(start.cell_rects@, i).1 as nat,
                    ),
            decreases count - self.cells@.len(),
        {
            let (cols, rows) = cell_inner_size(self.cell_rects.as_slice(), self.cells.len());
            self.cells.push(TerminalCell::new(cols as usize, rows as usize));
        }
    }

    /// Cycle to the next grid layout.
    pub fn cycle_layout(&mut self)
        requires
            old(self).wf(),
        ensures
            final(self).wf(),
            spec_cycled(*old(self), *final(self)),
    {
        self.layout = self.layout.next();
        self.recompute_grid();
    }

    /// Move focus in the given direction, wrapping at grid boundaries.
    pub fn move_focus(&mut self, direction: Direction)
        requires
            old(self).wf(),
        ensures
            final(self).wf(),
            spec_focus_moved(*old(self), direction, *final(self)),
    {
        let n = self.layout.size();
        let (row, col) = self.focus;

        self.focus = match direction {
            Direction::Up => {
                if row == 0 {
                    (n - 1, col)
                } else {
                    (row - 1, col)
                }
            },
            Direction::Down => {
                if row + 1 >= n {
                    (0, col)
                } else {
                    (row + 1, col)
                }
            },
            Direction::Left => {
                if col == 0 {
                    (row, n - 1)
                } else {
                    (row, col - 1)
                }
            },
            Direction::Right => {
                if col + 1 >= n {
                    (row, 0)
                } else {
                    (row, col + 1)
                }
            },
        };
    }

    /// Handle terminal resize; one row is kept for the status bar.
    pub fn handle_resize(&mut self, width: u16, height: u16)
        requires
            old(self).wf(),
        ensures
            final(self).wf(),
            spec_resized(*old(self), width, height, *final(self)),
    {
        self.term_size = (width, height.saturating_sub(STATUS_BAR_HEIGHT));
        self.recompute_grid();
    }

    /// Recompute grid cells and resize the buffers accordingly; clamp the
    /// focus into the grid.
    fn recompute_grid(&mut self)
        requires
            forall|i: int| 0 <= i < old(self).cells@.len() ==> (#[trigger] old(self).cells@[i])@.wf(),
        ensures
            final(self).wf(),
            final(self).layout == old(self).layout,
            final(self).term_size == old(self).term_size,
            final(self).cell_states() == spec_resized_cells(
                old(self).cell_states(),
                spec_cells(old(self).layout, old(self).term_size.0, old(self).term_size.1),
                old(self).layout.spec_size() * old(self).layout.spec_size(),
            ),
            final(self).focus == (
                if old(self).focus.0 < old(self).layout.spec_size() {
                    old(self).focus.0
                } else {
                    (old(self).layout.spec_size() - 1) as usize
                },
                if old(self).focus.1 < old(self).layout.spec_size() {
                    old(self).focus.1
                } else {
                    (old(self).layout.spec_size() - 1) as usize
                },
            ),
    {
        let ghost old_states = self.cell_states();
        let (w, h) = self.term_size;
        self.cell_rects = grid::compute_cells(self.layout, w, h);
        let ghost rects = self.cell_rects@;
        proof {
            lemma_cells_inner_fit(self.layout, w, h);
        }
        let n = self.layout.size();

        // Clamp focus to valid range
        if self.focus.0 > n - 1 {
            self.focus.0 = n - 1;
        }
        if self.focus.1 > n - 1 {
            self.focus.1 = n - 1;
        }

        // Ensure enough cell buffers exist
        let count = self.layout.cell_count();
        self.push_missing_cells(count);
        let ghost grown = self.cell_states();
        let ghost mid = *self;

        // Resize existing cell buffers
        let mut i: usize = 0;
        while i < count
            invariant
                self.wf(),
                self.layout == mid.layout,
                self.term_size == mid.term_size,
                self.focus == mid.focus,
                self.cell_rects@ == rects,
                rects == spec_cells(self.layout, self.term_size.0, self.term_size.1),
                forall|k: int| 0 <= k < rects.len() ==> inner_fits(#[trigger] rects[k]),
                i <= count,
                count <= self.cells@.len(),
                self.cells@.len() == grown.len(),
                forall|k: int|
                    0 <= k < grown.len() ==> (#[trigger] self.cells@[k])@ == (if k < i {
                        grown[k].resize(
                            spec_inner_size(rects, k).0 as nat,
                            spec_inner_size(rects, k).1 as nat,
                        )
                    } else {
                        grown[k]
                    }),
            decreases count - i,
        {
            let (cols, rows) = cell_inner_size(self.cell_rects.as_slice(), i);
            if i < self.cells.len() {
                self.cells[i].resize(cols as usize, rows as usize);
            }
            i += 1;
        }
        assert(self.cell_states() =~= spec_resized_cells(old_states, rects, count as int));
    }

    /// Feed a PTY's output to the buffer of its cell; output for a cell that
    /// has no buffer is dropped.
    pub fn feed_cell(&mut self, cell_index: usize, data: &[u8])
        requires
            old(self).wf(),
        ensures
            final(self).wf(),
            spec_fed(*old(self), cell_index, data@, *final(self)),
    {
        if cell_index < self.cells.len() {
            self.cells[cell_index].feed(data);
        }
    }

    /// Carry out a key press's action on the state, and say what outside work
    /// it calls for.
    fn apply_action(&mut self, action: InputAction) -> (effect: Effect)
        requires
            old(self).wf(),
        ensures
            final(self).wf(),
            action_outcome(*old(self), action, *final(self), effect),
    {
        match action {
            InputAction::Quit => Effect::Quit,
            InputAction::CycleLayout => {
                self.cycle_layout();
                Effect::SyncAndRedraw
            },
            InputAction::MoveFocus(dir) => {
                self.move_focus(dir);
                Effect::Redraw
            },
            InputAction::PtyInput(data) => Effect::WritePty(self.focus_index(), data),
            InputAction::Paste => Effect::Paste(self.focus_index()),
            InputAction::NoAction => Effect::Nothing,
        }
    }

    /// Handle one event of the multiplexer's loop: update the state and say
    /// what outside work follows.
    pub fn step(&mut self, event: AppEvent) -> (effect: Effect)
        requires
            old(self).wf(),
        ensures
            final(self).wf(),
            step_outcome(*old(self), event, *final(self), effect),
    {
        match event {
            AppEvent::Key(k) => {
                let action = handle_key_event(k);
                let ghost a = action;
                let effect = self.apply_action(action);
                assert(is_action_of(a, k) && action_outcome(*old(self), a, *self, effect));
                effect
            },
            AppEvent::Resize(w, h) => {
                self.handle_resize(w, h);
                Effect::SyncAndRedraw
            },
            AppEvent::PtyOutput(out) => {
                self.feed_cell(out.cell_index, out.data.as_slice());
                Effect::Redraw
            },
        }
    }
}

} // verus!
