//! Grid layout engine.
//!
//! Computes cell dimensions for NxN grid layouts. Handles odd terminal
//! dimensions by assigning the remainder to the last row/column.
use vstd::prelude::*;

verus! {

/// Supported grid layouts, cycling 2x2 -> 3x3 -> 4x4 -> 2x2.
#[derive(Debug, Clone, Copy, PartialEq, Eq, Structural)]
pub enum GridLayout {
    Grid2x2,
    Grid3x3,
    Grid4x4,
}

impl GridLayout {
    /// Number of columns (and rows) of the layout, as a number.
    pub open spec fn spec_size(self) -> usize {
        match self {
            GridLayout::Grid2x2 => 2,
            GridLayout::Grid3x3 => 3,
            GridLayout::Grid4x4 => 4,
        }
    }

    /// The layout that follows this one in the cycle.
    pub open spec fn spec_next(self) -> GridLayout {
        match self {
            GridLayout::Grid2x2 => GridLayout::Grid3x3,
            GridLayout::Grid3x3 => GridLayout::Grid4x4,
            GridLayout::Grid4x4 => GridLayout::Grid2x2,
        }
    }

    /// Number of columns (and rows) in this layout.
    #[verifier::when_used_as_spec(spec_size)]
    pub fn size(self) -> (n: usize)
        ensures
            n == self.spec_size(),
            2 <= n <= 4,
    {
        match self {
            GridLayout::Grid2x2 => 2,
            GridLayout::Grid3x3 => 3,
            GridLayout::Grid4x4 => 4,
        }
    }

    /// Total number of cells in this layout.
    pub fn cell_count(self) -> (count: usize)
        ensures
            count == self.spec_size() * self.spec_size(),
    {
        let s = self.size();
        s * s
    }

    /// Cycle to the next layout: 2x2 -> 3x3 -> 4x4 -> 2x2.
    pub fn next(self) -> (l: GridLayout)
        ensures
            l == self.spec_next(),
    {
        match self {
            GridLayout::Grid2x2 => GridLayout::Grid3x3,
            GridLayout::Grid3x3 => GridLayout::Grid4x4,
            GridLayout::Grid4x4 => GridLayout::Grid2x2,
        }
    }
}

/// Cycling through the layouts comes back to the start after three steps,
/// and no fewer steps return to it.
pub proof fn lemma_layout_cycle(l: GridLayout)
    ensures
        l.spec_next().spec_next().spec_next() == l,
        l.spec_next() != l,
        l.spec_next().spec_next() != l,
{
}

/// A rectangle representing a single cell's position and size in terminal coordinates.
#[derive(Debug, Clone, Copy, PartialEq, Eq, Structural)]
pub struct CellRect {
    pub x: u16,
    pub y: u16,
    pub width: u16,
    pub height: u16,
}

impl CellRect {
    /// True when the rectangle is large enough to have a content area inside its border.
    pub open spec fn has_inner(self) -> bool {
        self.width >= 3 && self.height >= 3
    }

    /// The inner area available for content (excluding 1-char border on each side).
    /// Returns None if the cell is too small to have any inner area.
    pub fn inner(self) -> (r: Option<CellRect>)
        requires
            self.has_inner() ==> self.x < u16::MAX && self.y < u16::MAX,
        ensures
            r is None <==> !self.has_inner(),
            r matches Some(i) ==> i == (CellRect {
                x: (self.x + 1) as u16,
                y: (self.y + 1) as u16,
                width: (self.width - 2) as u16,
                height: (self.height - 2) as u16,
            }),
    {
        if self.width < 3 || self.height < 3 {
            return None;
        }
        Some(CellRect { x: self.x + 1, y: self.y + 1, width: self.width - 2, height: self.height - 2 })
    }
}

/// Length of the `i`-th of `n` segments that split `total`: every segment has
/// `total / n`, and the last one also takes the remainder.
pub open spec fn segment_len(total: int, n: int, i: int) -> int {
    if i == n - 1 {
        total / n + total % n
    } else {
        total / n
    }
}

/// Offset of the `i`-th of `n` segments that split `total`.
pub open spec fn segment_start(total: int, n: int, i: int) -> int {
    i * (total / n)
}

/// The rectangle of cell `index` (row-major) in `layout` over a `width` x `height` area.
pub open spec fn spec_cell(layout: GridLayout, width: u16, height: u16, index: int) -> CellRect {
    let n = layout.spec_size() as int;
    let row = index / n;
    let col = index % n;
    CellRect {
        x: segment_start(width as int, n, col) as u16,
        y: segment_start(height as int, n, row) as u16,
        width: segment_len(width as int, n, col) as u16,
        height: segment_len(height as int, n, row) as u16,
    }
}

/// The cells that `compute_cells` produces, in row-major order.
pub open spec fn spec_cells(layout: GridLayout, width: u16, height: u16) -> Seq<CellRect> {
    if width == 0 || height == 0 {
        Seq::empty()
    } else {
        let n = layout.spec_size() as int;
        Seq::new((n * n) as nat, |i: int| spec_cell(layout, width, height, i))
    }
}

/// The segments split `total` exactly: each starts where the previous one ends,
/// the first starts at 0, the last ends at `total`, and all lie within `0..total`.
pub open spec fn splits_exactly(total: int, n: int) -> bool {
    &&& segment_start(total, n, 0) == 0
    &&& forall|i: int|
        0 <= i < n - 1 ==> #[trigger] segment_start(total, n, i) + segment_len(total, n, i)
            == segment_start(total, n, i + 1)
    &&& segment_start(total, n, n - 1) + segment_len(total, n, n - 1) == total
    &&& forall|i: int|
        0 <= i < n ==> 0 <= #[trigger] segment_start(total, n, i) && segment_start(total, n, i)
            + segment_len(total, n, i) <= total
}

/// Splitting a length into 2, 3 or 4 segments covers it exactly.
proof fn lemma_segments(total: int, n: int)
    requires
        2 <= n <= 4,
        0 <= total,
    ensures
        splits_exactly(total, n),
{
    assert(total == n * (total / n) + total % n) by (nonlinear_arith)
        requires
            n > 0,
    ;
    assert(0 <= total % n && 0 <= total / n) by (nonlinear_arith)
        requires
            n > 0,
            total >= 0,
    ;
    assert forall|i: int| 0 <= i < n - 1 implies #[trigger] segment_start(total, n, i) + segment_len(
        total,
        n,
        i,
    ) == segment_start(total, n, i + 1) by {
        assert(i * (total / n) + total / n == (i + 1) * (total / n)) by (nonlinear_arith);
    }
    assert((n - 1) * (total / n) + (total / n + total % n) == n * (total / n) + total % n)
        by (nonlinear_arith);
    assert forall|i: int| 0 <= i < n implies 0 <= #[trigger] segment_start(total, n, i)
        && segment_start(total, n, i) + segment_len(total, n, i) <= total by {
        assert(0 <= i * (total / n)) by (nonlinear_arith)
            requires
                0 <= i,
                0 <= total / n,
        ;
        if i < n - 1 {
            assert(i * (total / n) + total / n <= (n - 1) * (total / n)) by (nonlinear_arith)
                requires
                    i < n - 1,
                    0 <= total / n,
            ;
        }
    }
    assert(0 * (total / n) == 0);
}

/// Row-major position arithmetic for an `n`-wide grid.
proof fn lemma_flat_index(n: int, r: int, c: int)
    requires
        n > 0,
        0 <= r < n,
        0 <= c < n,
    ensures
        (r * n + c) / n == r,
        (r * n + c) % n == c,
        0 <= r * n + c < n * n,
{
    vstd::arithmetic::div_mod::lemma_fundamental_div_mod_converse(r * n + c, n, r, c);
    assert(0 <= r * n + c < n * n) by (nonlinear_arith)
        requires
            0 <= r < n,
            0 <= c < n,
    ;
}

/// The cells of a layout tile the whole area: every cell lies inside it, the
/// cells of a row (column) follow each other without gap or overlap, the first
/// row and column start at 0, and the last row and column end at the border.
pub proof fn lemma_cells_tile(layout: GridLayout, width: u16, height: u16)
    requires
        width > 0,
        height > 0,
    ensures
        ({
            let n = layout.spec_size() as int;
            let cells = spec_cells(layout, width, height);
            &&& cells.len() == n * n
            &&& forall|i: int|
                0 <= i < cells.len() ==> #[trigger] cells[i].x + cells[i].width <= width
                    && cells[i].y + cells[i].height <= height
            &&& forall|r: int, c: int|
                0 <= r < n && 0 <= c < n - 1 ==> #[trigger] cells[r * n + c].x + cells[r * n
                    + c].width == cells[r * n + c + 1].x && cells[r * n + c].y == cells[r * n + c
                    + 1].y
            &&& forall|r: int, c: int|
                0 <= r < n - 1 && 0 <= c < n ==> #[trigger] cells[r * n + c].y + cells[r * n
                    + c].height == cells[(r + 1) * n + c].y && cells[r * n + c].x == cells[(r + 1)
                    * n + c].x
            &&& forall|r: int| 0 <= r < n ==> #[trigger] cells[r * n].x == 0
            &&& forall|c: int| 0 <= c < n ==> #[trigger] cells[c].y == 0
            &&& forall|r: int|
                0 <= r < n ==> #[trigger] cells[r * n + n - 1].x + cells[r * n + n - 1].width
                    == width
            &&& forall|c: int|
                0 <= c < n ==> #[trigger] cells[(n - 1) * n + c].y + cells[(n - 1) * n
                    + c].height == height
        }),
{
    let n = layout.spec_size() as int;
    let cells = spec_cells(layout, width, height);
    lemma_segments(width as int, n);
    lemma_segments(height as int, n);
    assert forall|i: int| 0 <= i < cells.len() implies #[trigger] cells[i].x + cells[i].width
        <= width && cells[i].y + cells[i].height <= height by {
        assert(0 <= i / n < n && 0 <= i % n < n) by (nonlinear_arith)
            requires
                0 <= i < n * n,
                n > 0,
        ;
    }
    assert forall|r: int, c: int| 0 <= r < n - 1 && 0 <= c < n implies #[trigger] cells[r * n
        + c].y + cells[r * n + c].height == cells[(r + 1) * n + c].y && cells[r * n + c].x
        == cells[(r + 1) * n + c].x by {
        lemma_flat_index(n, r, c);
        lemma_flat_index(n, r + 1, c);
    }
    assert forall|r: int| 0 <= r < n implies #[trigger] cells[r * n].x == 0 by {
        assert(r * n == r * n + 0);
        lemma_flat_index(n, r, 0);
    }
    assert forall|c: int| 0 <= c < n implies #[trigger] cells[c].y == 0 by {
        assert(c == 0 * n + c);
        lemma_flat_index(n, 0, c);
    }
    assert forall|r: int| 0 <= r < n implies #[trigger] cells[r * n + n - 1].x + cells[r * n + n
        - 1].width == width by {
        assert(r * n + n - 1 == r * n + (n - 1));
        lemma_flat_index(n, r, n - 1);
    }
    assert forall|r: int, c: int| 0 <= r < n && 0 <= c < n - 1 implies #[trigger] cells[r * n
        + c].x + cells[r * n + c].width == cells[r * n + c + 1].x && cells[r * n + c].y == cells[r
        * n + c + 1].y by {
        lemma_flat_index(n, r, c);
        lemma_flat_index(n, r, c + 1);
    }
    assert forall|c: int| 0 <= c < n implies #[trigger] cells[(n - 1) * n + c].y + cells[(n - 1)
        * n + c].height == height by {
        lemma_flat_index(n, n - 1, c);
    }
}

/// Compute the rectangles for all cells in the given layout.
///
/// `total_width` and `total_height` are the terminal dimensions in characters.
/// Remainder from integer division is added to the last row/column.
///
/// Returns a Vec of `CellRect` in row-major order (row 0 col 0, row 0 col 1, ...).
pub fn compute_cells(layout: GridLayout, total_width: u16, total_height: u16) -> (cells: Vec<
    CellRect,
>)
    ensures
        cells@ == spec_cells(layout, total_width, total_height),
{
    let n = layout.size() as u16;
    if n == 0 || total_width == 0 || total_height == 0 {
        return Vec::new();
    }
    let ghost ni = n as int;
    proof {
        lemma_segments(total_width as int, ni);
        lemma_segments(total_height as int, ni);
    }

    let base_w = total_width / n;
    let rem_w = total_width % n;
    let base_h = total_height / n;
    let rem_h = total_height % n;

    // Pre-compute column x-offsets and widths.
    let mut col_x: Vec<u16> = Vec::with_capacity(n as usize);
    let mut col_w: Vec<u16> = Vec::with_capacity(n as usize);
    let mut x: u16 = 0;
    for c in 0..n
        invariant
            ni == n,
            2 <= n <= 4,
            base_w == total_width / n,
            rem_w == total_width % n,
            col_x@.len() == c,
            col_w@.len() == c,
            c < n ==> x == segment_start(total_width as int, ni, c as int),
            forall|j: int| 0 <= j < c ==> #[trigger] col_x@[j] == segment_start(total_width as int, ni, j),
            forall|j: int| 0 <= j < c ==> #[trigger] col_w@[j] == segment_len(total_width as int, ni, j),
            splits_exactly(total_width as int, ni),
    {
        let w = if c == n - 1 {
            base_w + rem_w
        } else {
            base_w
        };
        assert(w == segment_len(total_width as int, ni, c as int));
        col_x.push(x);
        col_w.push(w);
        x += w;
    }

    // Pre-compute row y-offsets and heights.
    let mut row_y: Vec<u16> = Vec::with_capacity(n as usize);
    let mut row_h: Vec<u16> = Vec::with_capacity(n as usize);
    let mut y: u16 = 0;
    for r in 0..n
        invariant
            ni == n,
            2 <= n <= 4,
            base_h == total_height / n,
            rem_h == total_height % n,
            row_y@.len() == r,
            row_h@.len() == r,
            r < n ==> y == segment_start(total_height as int, ni, r as int),
            forall|j: int| 0 <= j < r ==> #[trigger] row_y@[j] == segment_start(total_height as int, ni, j),
            forall|j: int| 0 <= j < r ==> #[trigger] row_h@[j] == segment_len(total_height as int, ni, j),
            splits_exactly(total_height as int, ni),
    {
        let h = if r == n - 1 {
            base_h + rem_h
        } else {
            base_h
        };
        assert(h == segment_len(total_height as int, ni, r as int));
        row_y.push(y);
        row_h.push(h);
        y += h;
    }

    let nu = n as usize;
    assert(col_x@.len() == nu && row_y@.len() == nu);
    assert(nu * nu <= 16) by (nonlinear_arith)
        requires
            2 <= nu <= 4,
    ;
    let mut cells: Vec<CellRect> = Vec::with_capacity(nu * nu);
    let mut r: usize = 0;
    assert(0 * nu == 0) by (nonlinear_arith);
    while r < nu
        invariant
            nu == n,
            ni == nu,
            2 <= nu <= 4,
            0 <= r <= nu,
            layout.spec_size() == nu,
            total_width > 0,
            total_height > 0,
            col_x@.len() == nu,
            col_w@.len() == nu,
            row_y@.len() == nu,
            row_h@.len() == nu,
            forall|j: int| 0 <= j < nu ==> #[trigger] col_x@[j] == segment_start(total_width as int, ni, j),
            forall|j: int| 0 <= j < nu ==> #[trigger] col_w@[j] == segment_len(total_width as int, ni, j),
            forall|j: int| 0 <= j < nu ==> #[trigger] row_y@[j] == segment_start(total_height as int, ni, j),
            forall|j: int| 0 <= j < nu ==> #[trigger] row_h@[j] == segment_len(total_height as int, ni, j),
            cells@.len() == r * nu,
            forall|i: int|
                0 <= i < cells@.len() ==> #[trigger] cells@[i] == spec_cell(
                    layout,
                    total_width,
                    total_height,
                    i,
                ),
        decreases nu - r,
    {
        let ghost base = r * nu;
        let mut c: usize = 0;
        while c < nu
            invariant
                nu == n,
                ni == nu,
                2 <= nu <= 4,
                layout.spec_size() == nu,
                0 <= r < nu,
                0 <= c <= nu,
                col_x@.len() == nu,
                col_w@.len() == nu,
                row_y@.len() == nu,
                row_h@.len() == nu,
                forall|j: int| 0 <= j < nu ==> #[trigger] col_x@[j] == segment_start(total_width as int, ni, j),
            forall|j: int| 0 <= j < nu ==> #[trigger] col_w@[j] == segment_len(total_width as int, ni, j),
                forall|j: int| 0 <= j < nu ==> #[trigger] row_y@[j] == segment_start(total_height as int, ni, j),
            forall|j: int| 0 <= j < nu ==> #[trigger] row_h@[j] == segment_len(total_height as int, ni, j),
                base == r * nu,
                cells@.len() == base + c,
                forall|i: int|
                    0 <= i < cells@.len() ==> #[trigger] cells@[i] == spec_cell(
                        layout,
                        total_width,
                        total_height,
                        i,
                    ),
            decreases nu - c,
        {
            proof {
                lemma_flat_index(nu as int, r as int, c as int);
            }
            let cell = CellRect { x: col_x[c], y: row_y[r], width: col_w[c], height: row_h[r] };
            assert(cell.x == segment_start(total_width as int, ni, c as int) as u16);
            assert(cell.width == segment_len(total_width as int, ni, c as int) as u16);
            assert(cell.y == segment_start(total_height as int, ni, r as int) as u16);
            assert(cell.height == segment_len(total_height as int, ni, r as int) as u16);
            assert(cell == spec_cell(layout, total_width, total_height, base + c));
            cells.push(cell);
            c += 1;
        }
        assert((r + 1) * nu == r * nu + nu) by (nonlinear_arith);
        r += 1;
    }
    assert(cells@ =~= spec_cells(layout, total_width, total_height));
    cells
}

/// Convert a (row, col) pair to a linear index in the cell list.
pub fn rc_to_index(layout: GridLayout, row: usize, col: usize) -> (index: usize)
    requires
        row * layout.spec_size() + col <= usize::MAX,
    ensures
        index == row * layout.spec_size() + col,
{
    row * layout.size() + col
}

/// Convert a linear index to a (row, col) pair.
pub fn index_to_rc(layout: GridLayout, index: usize) -> (rc: (usize, usize))
    ensures
        rc.0 == index / layout.spec_size(),
        rc.1 == index % layout.spec_size(),
{
    let n = layout.size();
    (index / n, index % n)
}

/// Converting a position to an index and back gives the position again, for
/// every column inside the grid; converting an index to a position and back
/// gives the index again.
pub proof fn lemma_rc_index_roundtrip(layout: GridLayout, row: int, col: int, index: int)
    requires
        0 <= row,
        0 <= col < layout.spec_size(),
        0 <= index,
    ensures
        (row * layout.spec_size() + col) / (layout.spec_size() as int) == row,
        (row * layout.spec_size() + col) % (layout.spec_size() as int) == col,
        (index / (layout.spec_size() as int)) * layout.spec_size() + index % (
        layout.spec_size() as int) == index,
{
    let n = layout.spec_size() as int;
    vstd::arithmetic::div_mod::lemma_fundamental_div_mod_converse(row * n + col, n, row, col);
    vstd::arithmetic::div_mod::lemma_fundamental_div_mod(index, n);
    assert((index / n) * n == n * (index / n)) by (nonlinear_arith);
}

} // verus!
