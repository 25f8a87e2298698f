//! What the screen shows: the border and content of every grid cell and the
//! status bar, as a list of glyphs (position, character, style) in drawing
//! order. The focused cell gets a highlighted border.
use vstd::prelude::*;

use crate::grid::{CellRect, GridLayout};
use crate::terminal_cell::{CellState, TerminalCell};

verus! {

/// How a glyph is styled.
#[derive(Debug, Clone, Copy, PartialEq, Eq, Structural)]
pub enum GlyphStyle {
    /// Border of the focused cell (bright cyan).
    FocusedBorder,
    /// Border of any other cell (dark gray).
    Border,
    /// Terminal content (white).
    Content,
    /// Status bar (black on cyan).
    Status,
}

/// A character drawn at a screen position.
#[derive(Debug, Clone, Copy, PartialEq, Eq, Structural)]
pub struct Glyph {
    pub x: u16,
    pub y: u16,
    pub ch: char,
    pub style: GlyphStyle,
}

/// The glyph at (`x`, `y`).
pub open spec fn glyph(x: int, y: int, ch: char, style: GlyphStyle) -> Glyph {
    Glyph { x: x as u16, y: y as u16, ch, style }
}

/// True when (`x`, `y`) lies in `area`.
pub open spec fn in_area(area: CellRect, x: int, y: int) -> bool {
    area.x <= x < area.x + area.width && area.y <= y < area.y + area.height
}

/// The glyphs of `glyphs` that lie in `area`, in order.
pub open spec fn clip(area: CellRect, glyphs: Seq<Glyph>) -> Seq<Glyph>
    decreases glyphs.len(),
{
    if glyphs.len() == 0 {
        glyphs
    } else {
        let rest = clip(area, glyphs.drop_last());
        let g = glyphs.last();
        if in_area(area, g.x as int, g.y as int) {
            rest.push(g)
        } else {
            rest
        }
    }
}

/// Clipping one more glyph.
proof fn lemma_clip_push(area: CellRect, glyphs: Seq<Glyph>, g: Glyph)
    ensures
        clip(area, glyphs.push(g)) == if in_area(area, g.x as int, g.y as int) {
            clip(area, glyphs).push(g)
        } else {
            clip(area, glyphs)
        },
{
    assert(glyphs.push(g).drop_last() =~= glyphs);
}

/// Clipping distributes over concatenation.
proof fn lemma_clip_concat(area: CellRect, a: Seq<Glyph>, b: Seq<Glyph>)
    ensures
        clip(area, a + b) == clip(area, a) + clip(area, b),
    decreases b.len(),
{
    if b.len() == 0 {
        assert(a + b =~= a);
        assert(clip(area, a) + clip(area, b) =~= clip(area, a));
    } else {
        assert((a + b).drop_last() =~= a + b.drop_last());
        lemma_clip_concat(area, a, b.drop_last());
        let g = b.last();
        if in_area(area, g.x as int, g.y as int) {
            assert(clip(area, a) + clip(area, b.drop_last()).push(g) =~= (clip(area, a) + clip(
                area,
                b.drop_last(),
            )).push(g));
        }
    }
}

/// Every glyph that survives clipping lies in the area: nothing is drawn
/// outside the screen buffer.
pub proof fn lemma_clip_in_area(area: CellRect, glyphs: Seq<Glyph>)
    ensures
        forall|i: int|
            0 <= i < clip(area, glyphs).len() ==> in_area(
                area,
                #[trigger] clip(area, glyphs)[i].x as int,
                clip(area, glyphs)[i].y as int,
            ),
        clip(area, glyphs).len() <= glyphs.len(),
    decreases glyphs.len(),
{
    if glyphs.len() > 0 {
        lemma_clip_in_area(area, glyphs.drop_last());
    }
}

/// The style of a cell border.
pub open spec fn border_style(focused: bool) -> GlyphStyle {
    if focused {
        GlyphStyle::FocusedBorder
    } else {
        GlyphStyle::Border
    }
}

/// The first `k` columns of the top and bottom edges of `rect`, after its left
/// corner, each column as a top glyph followed by a bottom glyph.
pub open spec fn edge_glyphs(rect: CellRect, style: GlyphStyle, k: nat) -> Seq<Glyph>
    decreases k,
{
    if k == 0 {
        Seq::empty()
    } else {
        edge_glyphs(rect, style, (k - 1) as nat).push(glyph(rect.x + k, rect.y as int, '─', style)).push(
            glyph(rect.x + k, rect.y + rect.height - 1, '─', style),
        )
    }
}

/// The first `k` rows of the left and right edges of `rect`, after its top
/// corner, each row as a left glyph followed by a right glyph.
pub open spec fn side_glyphs(rect: CellRect, style: GlyphStyle, k: nat) -> Seq<Glyph>
    decreases k,
{
    if k == 0 {
        Seq::empty()
    } else {
        side_glyphs(rect, style, (k - 1) as nat).push(glyph(rect.x as int, rect.y + k, '│', style)).push(
            glyph(rect.x + rect.width - 1, rect.y + k, '│', style),
        )
    }
}

/// The border of `rect`: the four corners, then the top and bottom edges, then
/// the left and right edges; nothing when the rectangle is narrower or lower than 2.
pub open spec fn border_glyphs(rect: CellRect, focused: bool) -> Seq<Glyph> {
    if rect.width < 2 || rect.height < 2 {
        Seq::empty()
    } else {
        let style = border_style(focused);
        let x2 = rect.x + rect.width - 1;
        let y2 = rect.y + rect.height - 1;
        seq![
            glyph(rect.x as int, rect.y as int, '┌', style),
            glyph(x2, rect.y as int, '┐', style),
            glyph(rect.x as int, y2, '└', style),
            glyph(x2, y2, '┘', style),
        ] + edge_glyphs(rect, style, (rect.width - 2) as nat) + side_glyphs(
            rect,
            style,
            (rect.height - 2) as nat,
        )
    }
}

/// The characters of `line` that fit in `width` columns, drawn from (`x0`, `y`).
pub open spec fn line_glyphs(x0: int, y: int, line: Seq<char>, width: int) -> Seq<Glyph> {
    let n = if line.len() < width {
        line.len() as int
    } else {
        width
    };
    Seq::new(n as nat, |c: int| glyph(x0 + c, y, line[c], GlyphStyle::Content))
}

/// The first `k` lines of `lines`, each drawn on its row of `inner`.
pub open spec fn content_rows(inner: CellRect, lines: Seq<Seq<char>>, k: nat) -> Seq<Glyph>
    decreases k,
{
    if k == 0 {
        Seq::empty()
    } else {
        content_rows(inner, lines, (k - 1) as nat) + line_glyphs(
            inner.x as int,
            inner.y + k - 1,
            lines[k - 1],
            inner.width as int,
        )
    }
}

/// The visible lines of a cell drawn inside the border of `rect`, as far as
/// they fit; nothing when the rectangle has no room inside its border.
pub open spec fn content_glyphs(rect: CellRect, cell: CellState) -> Seq<Glyph> {
    if !rect.has_inner() {
        Seq::empty()
    } else {
        let inner = CellRect {
            x: (rect.x + 1) as u16,
            y: (rect.y + 1) as u16,
            width: (rect.width - 2) as u16,
            height: (rect.height - 2) as u16,
        };
        let vis = cell.visible();
        let rows = if vis.len() < inner.height {
            vis.len()
        } else {
            inner.height as nat
        };
        content_rows(inner, vis, rows)
    }
}

/// The first `k` cells of the grid: each cell's border (highlighted for the
/// focused cell), then its content when it has a buffer.
pub open spec fn grid_glyphs(
    cell_rects: Seq<CellRect>,
    cells: Seq<CellState>,
    focus_index: int,
    k: nat,
) -> Seq<Glyph>
    decreases k,
{
    if k == 0 {
        Seq::empty()
    } else {
        let i = k - 1;
        grid_glyphs(cell_rects, cells, focus_index, i as nat) + border_glyphs(
            cell_rects[i],
            i == focus_index,
        ) + if i < cells.len() {
            content_glyphs(cell_rects[i], cells[i])
        } else {
            Seq::empty()
        }
    }
}

/// Edge glyphs all carry the given style.
proof fn lemma_edge_style(rect: CellRect, style: GlyphStyle, k: nat)
    ensures
        forall|m: int|
            0 <= m < edge_glyphs(rect, style, k).len() ==> (#[trigger] edge_glyphs(rect, style, k)[m]).style
                == style,
        forall|m: int|
            0 <= m < side_glyphs(rect, style, k).len() ==> (#[trigger] side_glyphs(rect, style, k)[m]).style
                == style,
    decreases k,
{
    if k > 0 {
        lemma_edge_style(rect, style, (k - 1) as nat);
    }
}

/// Every glyph of a border carries the border's style.
proof fn lemma_border_style(rect: CellRect, focused: bool)
    ensures
        forall|m: int|
            0 <= m < border_glyphs(rect, focused).len() ==> (#[trigger] border_glyphs(
                rect,
                focused,
            )[m]).style == border_style(focused),
{
    if rect.width >= 2 && rect.height >= 2 {
        let style = border_style(focused);
        lemma_edge_style(rect, style, (rect.width - 2) as nat);
        lemma_edge_style(rect, style, (rect.height - 2) as nat);
    }
}

/// Content rows are drawn in the content style.
proof fn lemma_rows_style(inner: CellRect, lines: Seq<Seq<char>>, k: nat)
    ensures
        forall|m: int|
            0 <= m < content_rows(inner, lines, k).len() ==> (#[trigger] content_rows(
                inner,
                lines,
                k,
            )[m]).style == GlyphStyle::Content,
    decreases k,
{
    if k > 0 {
        lemma_rows_style(inner, lines, (k - 1) as nat);
    }
}

/// A cell's content is drawn in the content style.
proof fn lemma_content_style(rect: CellRect, cell: CellState)
    ensures
        forall|m: int|
            0 <= m < content_glyphs(rect, cell).len() ==> (#[trigger] content_glyphs(rect, cell)[m]).style
                == GlyphStyle::Content,
{
    if rect.has_inner() {
        let inner = CellRect {
            x: (rect.x + 1) as u16,
            y: (rect.y + 1) as u16,
            width: (rect.width - 2) as u16,
            height: (rect.height - 2) as u16,
        };
        let vis = cell.visible();
        let rows = if vis.len() < inner.height {
            vis.len()
        } else {
            inner.height as nat
        };
        lemma_rows_style(inner, vis, rows);
    }
}

/// Only the focused cell's border is highlighted. In the drawn grid of the
/// first `k` cells, every glyph in the highlighted style is a glyph of the
/// focused cell's highlighted border, which is drawn whole when the focused
/// cell is among them; and every glyph in the plain border style is a glyph
/// of the plain border of some other cell.
pub proof fn lemma_only_focused_highlighted(
    cell_rects: Seq<CellRect>,
    cells: Seq<CellState>,
    focus_index: int,
    k: nat,
)
    requires
        k <= cell_rects.len(),
    ensures
        ({
            let g = grid_glyphs(cell_rects, cells, focus_index, k);
            &&& forall|j: int|
                0 <= j < g.len() && (#[trigger] g[j]).style == GlyphStyle::FocusedBorder ==> 0
                    <= focus_index < k && border_glyphs(cell_rects[focus_index], true).contains(g[j])
            &&& forall|j: int|
                0 <= j < g.len() && (#[trigger] g[j]).style == GlyphStyle::Border ==> exists|i: int|
                    0 <= i < k && i != focus_index && #[trigger] border_glyphs(
                        cell_rects[i],
                        false,
                    ).contains(g[j])
            &&& 0 <= focus_index < k ==> forall|m: int|
                0 <= m < border_glyphs(cell_rects[focus_index], true).len() ==> g.contains(
                    #[trigger] border_glyphs(cell_rects[focus_index], true)[m],
                )
        }),
    decreases k,
{
    if k > 0 {
        let i = k - 1;
        lemma_only_focused_highlighted(cell_rects, cells, focus_index, i as nat);
        let prev = grid_glyphs(cell_rects, cells, focus_index, i as nat);
        let b = border_glyphs(cell_rects[i], i == focus_index);
        let c = if i < cells.len() {
            content_glyphs(cell_rects[i], cells[i])
        } else {
            Seq::empty()
        };
        let g = grid_glyphs(cell_rects, cells, focus_index, k);
        assert(g == prev + b + c);
        lemma_border_style(cell_rects[i], i == focus_index);
        if i < cells.len() {
            lemma_content_style(cell_rects[i], cells[i]);
        }
        assert forall|j: int|
            0 <= j < g.len() && (#[trigger] g[j]).style == GlyphStyle::FocusedBorder implies 0
                <= focus_index < k && border_glyphs(cell_rects[focus_index], true).contains(g[j]) by {
            if j < prev.len() {
                assert(g[j] == prev[j]);
            } else if j < prev.len() + b.len() {
                let m = j - prev.len();
                assert(g[j] == b[m]);
                assert(b[m].style == border_style(i == focus_index));
                assert(i == focus_index);
                assert(b.contains(g[j]));
            } else {
                assert(g[j] == c[j - prev.len() - b.len()]);
            }
        }
        assert forall|j: int|
            0 <= j < g.len() && (#[trigger] g[j]).style == GlyphStyle::Border implies exists|t: int|
                0 <= t < k && t != focus_index && #[trigger] border_glyphs(
                    cell_rects[t],
                    false,
                ).contains(g[j]) by {
            if j < prev.len() {
                assert(g[j] == prev[j]);
                let t = choose|t: int|
                    0 <= t < i && t != focus_index && #[trigger] border_glyphs(
                        cell_rects[t],
                        false,
                    ).contains(prev[j]);
                assert(border_glyphs(cell_rects[t], false).contains(g[j]));
            } else if j < prev.len() + b.len() {
                let m = j - prev.len();
                assert(g[j] == b[m]);
                assert(b[m].style == border_style(i == focus_index));
                assert(i != focus_index);
                assert(border_glyphs(cell_rects[i as int], false).contains(g[j]));
            } else {
                assert(g[j] == c[j - prev.len() - b.len()]);
            }
        }
        if 0 <= focus_index < k {
            assert forall|m: int|
                0 <= m < border_glyphs(cell_rects[focus_index], true).len() implies g.contains(
                #[trigger] border_glyphs(cell_rects[focus_index], true)[m],
            ) by {
                let x = border_glyphs(cell_rects[focus_index], true)[m];
                if focus_index < i {
                    let q = choose|q: int| 0 <= q < prev.len() && prev[q] == x;
                    assert(g[q] == x);
                } else {
                    assert(g[prev.len() + m] == x);
                }
            }
        }
    }
}

/// True when a rectangle's far edges are inside the u16 coordinate range.
pub open spec fn rect_fits(rect: CellRect) -> bool {
    rect.x + rect.width <= u16::MAX && rect.y + rect.height <= u16::MAX
}

/// True when a rectangle that is large enough to get a border has its far
/// edges inside the u16 coordinate range (its position plus its size, the sum
/// the border's far corner is computed from).
pub open spec fn border_fits(rect: CellRect) -> bool {
    rect.width >= 2 && rect.height >= 2 ==> rect_fits(rect)
}

/// Adds `g` to `out` when it lies in `area`.
fn set_cell(out: &mut Vec<Glyph>, area: CellRect, g: Glyph)
    requires
        rect_fits(area),
    ensures
        final(out)@ == if in_area(area, g.x as int, g.y as int) {
            old(out)@.push(g)
        } else {
            old(out)@
        },
{
    if g.x >= area.x + area.width || g.y >= area.y + area.height {
        return ;
    }
    if g.x < area.x || g.y < area.y {
        return ;
    }
    out.push(g);
}

/// Draw a border around the cell rectangle, keeping what lies in `area`.
fn draw_border(out: &mut Vec<Glyph>, area: CellRect, rect: CellRect, focused: bool)
    requires
        rect_fits(area),
        border_fits(rect),
    ensures
        final(out)@ == old(out)@ + clip(area, border_glyphs(rect, focused)),
{
    if rect.width < 2 || rect.height < 2 {
        assert(old(out)@ + clip(area, border_glyphs(rect, focused)) =~= old(out)@);
        return ;
    }
    let style = if focused {
        GlyphStyle::FocusedBorder
    } else {
        GlyphStyle::Border
    };
    let ghost start = out@;
    let x1 = rect.x;
    let y1 = rect.y;
    let x2 = rect.x + rect.width - 1;
    let y2 = rect.y + rect.height - 1;
    let ghost corners = seq![
        glyph(x1 as int, y1 as int, '┌', style),
        glyph(x2 as int, y1 as int, '┐', style),
        glyph(x1 as int, y2 as int, '└', style),
        glyph(x2 as int, y2 as int, '┘', style),
    ];

    // Corners
    set_cell(out, area, Glyph { x: x1, y: y1, ch: '┌', style });
    set_cell(out, area, Glyph { x: x2, y: y1, ch: '┐', style });
    set_cell(out, area, Glyph { x: x1, y: y2, ch: '└', style });
    set_cell(out, area, Glyph { x: x2, y: y2, ch: '┘', style });
    proof {
        lemma_clip_push(area, Seq::empty(), corners[0]);
        assert(Seq::<Glyph>::empty().push(corners[0]) =~= corners.take(1));
        lemma_clip_push(area, corners.take(1), corners[1]);
        assert(corners.take(1).push(corners[1]) =~= corners.take(2));
        lemma_clip_push(area, corners.take(2), corners[2]);
        assert(corners.take(2).push(corners[2]) =~= corners.take(3));
        lemma_clip_push(area, corners.take(3), corners[3]);
        assert(corners.take(3).push(corners[3]) =~= corners);
        assert(clip(area, Seq::<Glyph>::empty()) =~= Seq::<Glyph>::empty());
        assert(out@ =~= start + clip(area, corners));
    }

    // Top and bottom edges
    let mut x = x1 + 1;
    while x < x2
        invariant
            rect_fits(area),
            x1 + 1 <= x <= x2,
            x1 == rect.x,
            x2 == rect.x + rect.width - 1,
            y1 == rect.y,
            y2 == rect.y + rect.height - 1,
            out@ == start + clip(area, corners + edge_glyphs(rect, style, (x - x1 - 1) as nat)),
        decreases x2 - x,
    {
        let ghost k = (x - x1 - 1) as nat;
        let ghost prev = corners + edge_glyphs(rect, style, k);
        set_cell(out, area, Glyph { x, y: y1, ch: '─', style });
        set_cell(out, area, Glyph { x, y: y2, ch: '─', style });
        proof {
            let g1 = glyph(rect.x + (k + 1), rect.y as int, '─', style);
            let g2 = glyph(rect.x + (k + 1), rect.y + rect.height - 1, '─', style);
            assert(corners + edge_glyphs(rect, style, k + 1) =~= prev.push(g1).push(g2));
            lemma_clip_push(area, prev, g1);
            lemma_clip_push(area, prev.push(g1), g2);
            assert(out@ =~= start + clip(area, prev.push(g1).push(g2)));
        }
        x += 1;
    }
    let ghost edges = corners + edge_glyphs(rect, style, (rect.width - 2) as nat);

    // Left and right edges
    let mut y = y1 + 1;
    while y < y2
        invariant
            rect_fits(area),
            y1 + 1 <= y <= y2,
            x1 == rect.x,
            x2 == rect.x + rect.width - 1,
            y1 == rect.y,
            y2 == rect.y + rect.height - 1,
            out@ == start + clip(area, edges + side_glyphs(rect, style, (y - y1 - 1) as nat)),
        decreases y2 - y,
    {
        let ghost k = (y - y1 - 1) as nat;
        let ghost prev = edges + side_glyphs(rect, style, k);
        set_cell(out, area, Glyph { x: x1, y, ch: '│', style });
        set_cell(out, area, Glyph { x: x2, y, ch: '│', style });
        proof {
            let g1 = glyph(rect.x as int, rect.y + (k + 1), '│', style);
            let g2 = glyph(rect.x + rect.width - 1, rect.y + (k + 1), '│', style);
            assert(edges + side_glyphs(rect, style, k + 1) =~= prev.push(g1).push(g2));
            lemma_clip_push(area, prev, g1);
            lemma_clip_push(area, prev.push(g1), g2);
            assert(out@ =~= start + clip(area, prev.push(g1).push(g2)));
        }
        y += 1;
    }
    assert(border_glyphs(rect, focused) =~= edges + side_glyphs(
        rect,
        style,
        (rect.height - 2) as nat,
    ));
}

/// Draw the terminal content inside the cell's inner area, keeping what lies in `area`.
fn draw_cell_content(out: &mut Vec<Glyph>, area: CellRect, rect: CellRect, cell: &TerminalCell)
    requires
        rect_fits(area),
        border_fits(rect),
    ensures
        final(out)@ == old(out)@ + clip(area, content_glyphs(rect, cell@)),
{
    let ghost start = out@;
    let inner = match rect.inner() {
        Some(i) => i,
        None => {
            assert(old(out)@ + clip(area, content_glyphs(rect, cell@)) =~= old(out)@);
            return ;
        },
    };

    let visible = cell.visible_lines();
    let ghost vis = cell@.visible();
    let ghost rows = if vis.len() < inner.height {
        vis.len()
    } else {
        inner.height as nat
    };
    proof {
        assert(visible@.len() == vis.len());
    }

    let mut row_idx: usize = 0;
    while row_idx < visible.len()
        invariant
            rect_fits(area),
            border_fits(rect),
            rect.has_inner(),
            inner == (CellRect {
                x: (rect.x + 1) as u16,
                y: (rect.y + 1) as u16,
                width: (rect.width - 2) as u16,
                height: (rect.height - 2) as u16,
            }),
            vis == cell@.visible(),
            visible@.map_values(|l: Vec<char>| l@) == vis,
            rows == (if vis.len() < inner.height {
                vis.len()
            } else {
                inner.height as nat
            }),
            row_idx <= vis.len(),
            row_idx <= inner.height,
            out@ == start + clip(area, content_rows(inner, vis, row_idx as nat)),
        ensures
            out@ == start + clip(area, content_rows(inner, vis, rows)),
        decreases visible@.len() - row_idx,
    {
        if row_idx >= inner.height as usize {
            break;
        }
        let y = inner.y + row_idx as u16;
        let line = &visible[row_idx];
        let ghost line_view = vis[row_idx as int];
        assert(line@ == line_view);
        let ghost prefix = content_rows(inner, vis, row_idx as nat);
        let ghost row_glyphs = line_glyphs(inner.x as int, y as int, line_view, inner.width as int);
        let mut col_idx: usize = 0;
        while col_idx < line.len()
            invariant
                rect_fits(area),
                border_fits(rect),
                rect.has_inner(),
                inner == (CellRect {
                    x: (rect.x + 1) as u16,
                    y: (rect.y + 1) as u16,
                    width: (rect.width - 2) as u16,
                    height: (rect.height - 2) as u16,
                }),
                line@ == line_view,
                y == inner.y + row_idx,
                row_idx < inner.height,
                col_idx <= line@.len(),
                col_idx <= inner.width,
                row_glyphs == line_glyphs(inner.x as int, y as int, line_view, inner.width as int),
                out@ == start + clip(area, prefix) + clip(area, row_glyphs.take(col_idx as int)),
            ensures
                out@ == start + clip(area, prefix) + clip(area, row_glyphs.take(col_idx as int)),
                col_idx == row_glyphs.len(),
            decreases line@.len() - col_idx,
        {
            if col_idx >= inner.width as usize {
                break;
            }
            assert(inner.x + inner.width <= u16::MAX);
            let x = inner.x + col_idx as u16;
            let g = Glyph { x, y, ch: line[col_idx], style: GlyphStyle::Content };
            set_cell(out, area, g);
            proof {
                assert(row_glyphs[col_idx as int] == g);
                assert(row_glyphs.take(col_idx as int).push(g) =~= row_glyphs.take(col_idx + 1));
                lemma_clip_push(area, row_glyphs.take(col_idx as int), g);
                assert(out@ =~= start + clip(area, prefix) + clip(area, row_glyphs.take(col_idx + 1)));
            }
            col_idx += 1;
        }
        proof {
            assert(row_glyphs.take(col_idx as int) =~= row_glyphs);
            lemma_clip_concat(area, prefix, row_glyphs);
            assert(content_rows(inner, vis, (row_idx + 1) as nat) == prefix + row_glyphs);
            assert(out@ =~= start + clip(area, content_rows(inner, vis, (row_idx + 1) as nat)));
        }
        row_idx += 1;
    }
}

/// The full grid: the border and content of each visible cell.
pub struct GridWidget<'a> {
    /// Current grid layout.
    pub layout: GridLayout,
    /// Computed cell rectangles.
    pub cell_rects: &'a [CellRect],
    /// Terminal cell states (may have more entries than visible cells).
    pub cells: &'a [TerminalCell],
    /// Index of the currently focused cell.
    pub focus_index: usize,
}

impl<'a> GridWidget<'a> {
    /// The buffers of the cells.
    pub open spec fn cell_states(&self) -> Seq<CellState> {
        self.cells@.map_values(|c: TerminalCell| c@)
    }

    /// The number of cells drawn: those of the layout that have a rectangle.
    pub open spec fn visible_count(&self) -> nat {
        let count = self.layout.spec_size() * self.layout.spec_size();
        if count < self.cell_rects@.len() {
            count as nat
        } else {
            self.cell_rects@.len()
        }
    }

    /// The glyphs of the grid that lie in `area` (the screen buffer's area),
    /// in drawing order.
    pub fn render(&self, area: CellRect) -> (out: Vec<Glyph>)
        requires
            rect_fits(area),
            forall|i: int| 0 <= i < self.visible_count() ==> border_fits(#[trigger] self.cell_rects@[i]),
        ensures
            out@ == clip(
                area,
                grid_glyphs(self.cell_rects@, self.cell_states(), self.focus_index as int, self.visible_count()),
            ),
    {
        let mut out: Vec<Glyph> = Vec::new();
        let count = self.layout.cell_count();
        let visible_count = if count < self.cell_rects.len() {
            count
        } else {
            self.cell_rects.len()
        };
        let ghost states = self.cell_states();
        let mut i: usize = 0;
        while i < visible_count
            invariant
                rect_fits(area),
                forall|j: int| 0 <= j < visible_count ==> border_fits(#[trigger] self.cell_rects@[j]),
                visible_count == self.visible_count(),
                visible_count <= self.cell_rects@.len(),
                i <= visible_count,
                states == self.cell_states(),
                out@ == clip(area, grid_glyphs(self.cell_rects@, states, self.focus_index as int, i as nat)),
            decreases visible_count - i,
        {
            let rect = self.cell_rects[i];
            let is_focused = i == self.focus_index;
            let ghost prev = grid_glyphs(self.cell_rects@, states, self.focus_index as int, i as nat);

            // Draw border
            draw_border(&mut out, area, rect, is_focused);

            // Draw cell content
            if i < self.cells.len() {
                draw_cell_content(&mut out, area, rect, &self.cells[i]);
            }
            proof {
                let b = border_glyphs(rect, is_focused);
                let c = if i < states.len() {
                    content_glyphs(rect, states[i as int])
                } else {
                    Seq::empty()
                };
                lemma_clip_concat(area, prev, b);
                lemma_clip_concat(area, prev + b, c);
                if i >= states.len() {
                    assert(clip(area, c) =~= Seq::<Glyph>::empty());
                }
                assert(grid_glyphs(self.cell_rects@, states, self.focus_index as int, (i + 1) as nat)
                    == prev + b + c);
                assert(out@ =~= clip(area, prev + b + c));
            }
            i += 1;
        }
        out
    }
}

/// Where the status bar goes on a screen of `area`'s size: the bottom row,
/// from column 0 across the full width; nowhere on a screen with no rows.
pub fn status_area(area: CellRect) -> (r: Option<CellRect>)
    ensures
        area.height == 0 <==> r is None,
        r matches Some(s) ==> s == (CellRect {
            x: 0,
            y: (area.height - 1) as u16,
            width: area.width,
            height: 1,
        }),
{
    if area.height > 0 {
        Some(CellRect { x: 0, y: area.height - 1, width: area.width, height: 1 })
    } else {
        None
    }
}

/// The decimal digits of `n`.
pub open spec fn decimal(n: nat) -> Seq<char>
    decreases n,
{
    if n < 10 {
        seq![((n + 48) as u8) as char]
    } else {
        decimal(n / 10).push((((n % 10) + 48) as u8) as char)
    }
}

/// Appends the decimal digits of `n` to `out`.
fn push_decimal(out: &mut Vec<char>, n: usize)
    ensures
        final(out)@ == old(out)@ + decimal(n as nat),
    decreases n,
{
    if n >= 10 {
        push_decimal(out, n / 10);
    }
    let digit = ((n % 10) as u8 + 48) as char;
    out.push(digit);
    proof {
        if n < 10 {
            assert(n % 10 == n);
        }
    }
    assert(out@ =~= old(out)@ + decimal(n as nat));
}

/// Appends the characters of `s` to `out`.
fn push_str(out: &mut Vec<char>, s: &str)
    ensures
        final(out)@ == old(out)@ + s@,
{
    let len = s.unicode_len();
    let mut i: usize = 0;
    while i < len
        invariant
            len == s@.len(),
            i <= len,
            out@ =~= old(out)@ + s@.take(i as int),
        decreases len - i,
    {
        out.push(s.get_char(i));
        i += 1;
        assert(out@ =~= old(out)@ + s@.take(i as int));
    }
    assert(s@.take(len as int) =~= s@);
}

/// The name of a layout on the status bar.
pub open spec fn layout_name(layout: GridLayout) -> Seq<char> {
    match layout {
        GridLayout::Grid2x2 => "2x2"@,
        GridLayout::Grid3x3 => "3x3"@,
        GridLayout::Grid4x4 => "4x4"@,
    }
}

/// The text of the status bar (all ASCII).
pub open spec fn status_text(layout: GridLayout, focus_row: nat, focus_col: nat) -> Seq<char> {
    " vpower-shell | Layout: "@ + layout_name(layout) + " | Focus: ("@ + decimal(focus_row) + ","@
        + decimal(focus_col) + ") | Alt+G: cycle | Alt+Arrow: move | Ctrl+Q: quit "@
}

/// The status bar drawn on the first row of `area`: the text as far as it
/// fits in the width, then spaces up to the right edge.
pub open spec fn status_glyphs(area: CellRect, text: Seq<char>) -> Seq<Glyph> {
    let shown = if text.len() < area.width {
        text.len() as int
    } else {
        area.width as int
    };
    let fill = if text.len() < area.width {
        area.width - text.len()
    } else {
        0
    };
    Seq::new(shown as nat, |i: int| glyph(area.x + i, area.y as int, text[i], GlyphStyle::Status))
        + Seq::new(
        fill as nat,
        |j: int| glyph(area.x + text.len() + j, area.y as int, ' ', GlyphStyle::Status),
    )
}

/// The digits of a number are ASCII.
proof fn lemma_decimal_ascii(n: nat)
    ensures
        vstd::utf8::is_ascii_chars(decimal(n)),
    decreases n,
{
    if n >= 10 {
        lemma_decimal_ascii(n / 10);
        assert(vstd::utf8::is_ascii_chars(decimal(n))) by {
            assert forall|i: int| 0 <= i < decimal(n).len() implies '\0' <= #[trigger] decimal(n)[i]
                <= '\u{7f}' by {
                if i < decimal(n / 10).len() {
                    assert(decimal(n)[i] == decimal(n / 10)[i]);
                }
            }
        }
    }
}

/// The status text is ASCII, so its length in characters is its length in
/// UTF-8 bytes: the fill after the text starts at the same column either way.
pub proof fn lemma_status_text_ascii(layout: GridLayout, focus_row: nat, focus_col: nat)
    ensures
        vstd::utf8::is_ascii_chars(status_text(layout, focus_row, focus_col)),
        vstd::utf8::encode_utf8(status_text(layout, focus_row, focus_col)).len()
            == status_text(layout, focus_row, focus_col).len(),
{
    reveal_strlit(" vpower-shell | Layout: ");
    reveal_strlit("2x2");
    reveal_strlit("3x3");
    reveal_strlit("4x4");
    reveal_strlit(" | Focus: (");
    reveal_strlit(",");
    reveal_strlit(") | Alt+G: cycle | Alt+Arrow: move | Ctrl+Q: quit ");
    lemma_decimal_ascii(focus_row);
    lemma_decimal_ascii(focus_col);
    let t = status_text(layout, focus_row, focus_col);
    assert(vstd::utf8::is_ascii_chars(t));
    vstd::utf8::is_ascii_chars_encode_utf8(t);
}

/// A status bar at the bottom showing layout and focus info.
pub struct StatusBar {
    pub layout: GridLayout,
    pub focus_row: usize,
    pub focus_col: usize,
}

impl StatusBar {
    /// The text of the status bar.
    pub fn text(&self) -> (text: Vec<char>)
        ensures
            text@ == status_text(self.layout, self.focus_row as nat, self.focus_col as nat),
    {
        let layout_name = match self.layout {
            GridLayout::Grid2x2 => "2x2",
            GridLayout::Grid3x3 => "3x3",
            GridLayout::Grid4x4 => "4x4",
        };
        let mut text: Vec<char> = Vec::new();
        push_str(&mut text, " vpower-shell | Layout: ");
        push_str(&mut text, layout_name);
        push_str(&mut text, " | Focus: (");
        push_decimal(&mut text, self.focus_row);
        push_str(&mut text, ",");
        push_decimal(&mut text, self.focus_col);
        push_str(&mut text, ") | Alt+G: cycle | Alt+Arrow: move | Ctrl+Q: quit ");
        assert(text@ =~= status_text(self.layout, self.focus_row as nat, self.focus_col as nat));
        text
    }

    /// The glyphs of the status bar on the first row of `area`.
    pub fn render(&self, area: CellRect) -> (out: Vec<Glyph>)
        requires
            area.x + area.width <= u16::MAX,
            area.x + status_text(self.layout, self.focus_row as nat, self.focus_col as nat).len()
                <= u16::MAX,
        ensures
            out@ == status_glyphs(
                area,
                status_text(self.layout, self.focus_row as nat, self.focus_col as nat),
            ),
    {
        let text = self.text();
        let ghost t = text@;
        let ghost shown = if t.len() < area.width {
            t.len() as int
        } else {
            area.width as int
        };
        let ghost chars = Seq::new(
            shown as nat,
            |i: int| glyph(area.x + i, area.y as int, t[i], GlyphStyle::Status),
        );
        let mut out: Vec<Glyph> = Vec::new();
        let mut i: usize = 0;
        while i < text.len()
            invariant
                area.x + area.width <= u16::MAX,
                area.x + t.len() <= u16::MAX,
                text@ == t,
                i <= t.len(),
                i <= area.width,
                shown == (if t.len() < area.width {
                    t.len() as int
                } else {
                    area.width as int
                }),
                chars == Seq::new(
                    shown as nat,
                    |k: int| glyph(area.x + k, area.y as int, t[k], GlyphStyle::Status),
                ),
                out@ == chars.take(i as int),
            ensures
                out@ == chars,
            decreases t.len() - i,
        {
            let x = area.x + i as u16;
            if x >= area.x + area.width {
                assert(chars.take(i as int) =~= chars);
                break;
            }
            let g = Glyph { x, y: area.y, ch: text[i], style: GlyphStyle::Status };
            assert(i < shown);
            assert(x == area.x + i);
            assert(chars[i as int] == g);
            out.push(g);
            i += 1;
            assert(out@ =~= chars.take(i as int));
        }
        proof {
            if i >= t.len() {
                assert(chars.take(i as int) =~= chars);
            }
        }

        // Fill remaining width with background
        let ghost fill = if t.len() < area.width {
            area.width - t.len()
        } else {
            0
        };
        let ghost spaces = Seq::new(
            fill as nat,
            |j: int| glyph(area.x + t.len() + j, area.y as int, ' ', GlyphStyle::Status),
        );
        let start = area.x + text.len() as u16;
        let end = area.x + area.width;
        let mut x = start;
        while x < end
            invariant
                start == area.x + t.len(),
                end == area.x + area.width,
                start <= x,
                start < end ==> x <= end,
                start >= end ==> x == start,
                fill == (if t.len() < area.width {
                    area.width - t.len()
                } else {
                    0
                }),
                spaces == Seq::new(
                    fill as nat,
                    |j: int| glyph(area.x + t.len() + j, area.y as int, ' ', GlyphStyle::Status),
                ),
                out@ == chars + spaces.take(x - start),
                x - start <= fill,
            decreases end - x,
        {
            out.push(Glyph { x, y: area.y, ch: ' ', style: GlyphStyle::Status });
            x += 1;
            assert(out@ =~= chars + spaces.take(x - start));
        }
        assert(spaces.take(x - start) =~= spaces);
        out
    }
}

} // verus!
