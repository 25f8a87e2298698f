//! Individual terminal cell state.
//!
//! Each cell in the grid maintains its own screen buffer and cursor position,
//! populated by a VTE parser processing PTY output.
use vstd::prelude::*;

verus! {

/// Maximum number of lines retained in the scrollback buffer per cell.
pub const MAX_SCROLLBACK: usize = 1000;

/// A line of `w` spaces.
pub open spec fn blank_line(w: nat) -> Seq<char> {
    Seq::new(w, |i: int| ' ')
}

/// `n` lines of `w` spaces each.
pub open spec fn blank_lines(n: nat, w: nat) -> Seq<Seq<char>> {
    Seq::new(n, |i: int| blank_line(w))
}

/// The line with every position in `from..to` set to a space.
pub open spec fn blank_range(line: Seq<char>, from: int, to: int) -> Seq<char> {
    Seq::new(line.len(), |i: int| if from <= i < to { ' ' } else { line[i] })
}

/// `line` cut or padded with spaces to length `w`.
pub open spec fn fit_line(line: Seq<char>, w: nat) -> Seq<char> {
    if line.len() >= w {
        line.take(w as int)
    } else {
        line + blank_line((w - line.len()) as nat)
    }
}

/// True when a buffer of the given width and height can be allocated: a line
/// of chars must fit in `isize::MAX` bytes, and so must the list of lines.
pub open spec fn dims_fit(width: int, height: int) -> bool {
    &&& width * 4 <= isize::MAX
    &&& height * 24 <= isize::MAX
}

/// The number of lines a buffer of the given height may hold: the scrollback
/// limit, or the visible height when that is larger.
pub open spec fn line_limit(height: nat) -> nat {
    if height > MAX_SCROLLBACK {
        height
    } else {
        MAX_SCROLLBACK as nat
    }
}

/// The contents of a terminal cell: its lines, cursor and dimensions.
pub struct CellState {
    pub lines: Seq<Seq<char>>,
    pub row: nat,
    pub col: nat,
    pub width: nat,
    pub height: nat,
}

/// An event of the escape-sequence parser that changes a cell.
#[derive(Debug, PartialEq, Eq)]
pub enum VtEvent {
    /// A printable character.
    Print(char),
    /// A C0/C1 control byte.
    Execute(u8),
    /// A CSI sequence with its (flattened) numeric parameters and final character.
    CsiDispatch { params: Vec<u16>, action: char },
}

/// The plain-value form of an event.
pub enum VtEventModel {
    Print(char),
    Execute(u8),
    CsiDispatch { params: Seq<u16>, action: char },
}

impl VtEvent {
    /// The event with its parameters as a sequence.
    pub open spec fn model(&self) -> VtEventModel {
        match self {
            VtEvent::Print(c) => VtEventModel::Print(*c),
            VtEvent::Execute(b) => VtEventModel::Execute(*b),
            VtEvent::CsiDispatch { params, action } => VtEventModel::CsiDispatch {
                params: params@,
                action: *action,
            },
        }
    }
}

/// The `i`-th parameter of a CSI sequence, or `default` when there is none.
pub open spec fn param_or(params: Seq<u16>, i: int, default: u16) -> u16 {
    if 0 <= i < params.len() {
        params[i]
    } else {
        default
    }
}

/// `a - b`, or 0 when `b > a`.
pub open spec fn sat_sub(a: int, b: int) -> nat {
    if a >= b {
        (a - b) as nat
    } else {
        0
    }
}

/// The smaller of two numbers.
pub open spec fn min_nat(a: nat, b: nat) -> nat {
    if a <= b {
        a
    } else {
        b
    }
}

/// `n`, or 1 when `n` is 0.
pub open spec fn at_least_one(n: nat) -> nat {
    if n < 1 {
        1
    } else {
        n
    }
}

impl CellState {
    /// A new cell of the given size (each dimension at least 1): blank lines
    /// filling the height, cursor at the top left.
    pub open spec fn fresh(width: nat, height: nat) -> CellState {
        CellState {
            lines: blank_lines(at_least_one(height), at_least_one(width)),
            row: 0,
            col: 0,
            width: at_least_one(width),
            height: at_least_one(height),
        }
    }

    /// The invariant every cell buffer keeps.
    pub open spec fn wf(self) -> bool {
        &&& 1 <= self.width
        &&& 1 <= self.height
        &&& dims_fit(self.width as int, self.height as int)
        &&& forall|i: int| 0 <= i < self.lines.len() ==> (#[trigger] self.lines[i]).len() == self.width
        &&& self.row < self.height
        &&& self.col <= self.width
        &&& self.lines.len() <= line_limit(self.height)
    }

    /// The state with other lines.
    pub open spec fn with_lines(self, lines: Seq<Seq<char>>) -> CellState {
        CellState { lines, ..self }
    }

    /// The state with the cursor elsewhere.
    pub open spec fn with_cursor(self, row: nat, col: nat) -> CellState {
        CellState { row, col, ..self }
    }

    /// Blank lines are appended until the cursor row exists in the buffer.
    pub open spec fn ensure_row(self) -> CellState {
        if self.lines.len() <= self.row {
            self.with_lines(
                self.lines + blank_lines((self.row + 1 - self.lines.len()) as nat, self.width),
            )
        } else {
            self
        }
    }

    /// Index in the buffer of the first visible line: the buffer shows its last
    /// `height` lines, or all of them when there are fewer.
    pub open spec fn top(self) -> nat {
        if self.lines.len() > self.height {
            (self.lines.len() - self.height) as nat
        } else {
            0
        }
    }

    /// Index in the buffer of the line under the cursor: the cursor row counts
    /// from the first visible line.
    pub open spec fn cursor_line(self) -> nat {
        self.top() + self.row
    }

    /// One blank line is appended, and the oldest line is dropped when that
    /// exceeds the scrollback limit. The cursor row is unchanged: it stays on
    /// the same visible row while the view moves up.
    pub open spec fn scroll_up(self) -> CellState {
        let pushed = self.lines.push(blank_line(self.width));
        if pushed.len() > MAX_SCROLLBACK {
            self.with_lines(pushed.drop_first())
        } else {
            self.with_lines(pushed)
        }
    }

    /// The cursor moves down one row, or the buffer scrolls when the cursor is
    /// on the last visible row.
    pub open spec fn newline(self) -> CellState {
        let moved = if self.row + 1 >= self.height {
            self.scroll_up()
        } else {
            self.with_cursor(self.row + 1, self.col)
        };
        moved.ensure_row()
    }

    /// The cursor moves to column 0.
    pub open spec fn carriage_return(self) -> CellState {
        self.with_cursor(self.row, 0)
    }

    /// `c` is written at the cursor (wrapping to a new line first when the
    /// cursor is past the last column), and the cursor moves right.
    pub open spec fn print(self, c: char) -> CellState {
        let s1 = self.ensure_row();
        let s2 = if s1.col >= s1.width {
            s1.with_cursor(s1.row, 0).newline()
        } else {
            s1
        };
        let l = s2.cursor_line() as int;
        let s3 = if l < s2.lines.len() && s2.col < s2.lines[l].len() {
            s2.with_lines(s2.lines.update(l, s2.lines[l].update(s2.col as int, c)))
        } else {
            s2
        };
        s3.with_cursor(s3.row, s3.col + 1)
    }

    /// Column of the tab stop after `col`: the next multiple of 8, kept inside the line.
    pub open spec fn tab_stop(self) -> nat {
        let next = (self.col + 8) - (self.col + 8) % 8;
        min_nat(next as nat, sat_sub(self.width as int, 1))
    }

    /// A control byte: line feed, carriage return, backspace and tab move the
    /// cursor; every other byte leaves the cell unchanged.
    pub open spec fn execute(self, byte: u8) -> CellState {
        if byte == 0x0a {
            self.newline()
        } else if byte == 0x0d {
            self.carriage_return()
        } else if byte == 0x08 {
            self.with_cursor(self.row, sat_sub(self.col as int, 1))
        } else if byte == 0x09 {
            self.with_cursor(self.row, self.tab_stop())
        } else {
            self
        }
    }

    /// Erase in display: mode 0 clears from the cursor to the end of the
    /// buffer, mode 1 from the first visible line to the cursor (inclusive),
    /// modes 2 and 3 the whole buffer (and home the cursor); other modes do nothing.
    pub open spec fn erase_in_display(self, mode: u16) -> CellState {
        if mode == 0 {
            let e = self.ensure_row();
            let l = e.cursor_line() as int;
            e.with_lines(
                Seq::new(
                    e.lines.len(),
                    |r: int|
                        if r == l {
                            blank_range(e.lines[r], e.col as int, e.lines[r].len() as int)
                        } else if r > l {
                            blank_line(e.lines[r].len())
                        } else {
                            e.lines[r]
                        },
                ),
            )
        } else if mode == 1 {
            let t = self.top() as int;
            let cleared = self.with_lines(
                Seq::new(
                    self.lines.len(),
                    |r: int|
                        if t <= r < t + self.row {
                            blank_line(self.lines[r].len())
                        } else {
                            self.lines[r]
                        },
                ),
            );
            let e = cleared.ensure_row();
            let l = e.cursor_line() as int;
            e.with_lines(e.lines.update(l, blank_range(e.lines[l], 0, e.col as int + 1)))
        } else if mode == 2 || mode == 3 {
            self.with_lines(
                Seq::new(self.lines.len(), |r: int| blank_line(self.lines[r].len())),
            ).with_cursor(0, 0)
        } else {
            self
        }
    }

    /// Erase in line: mode 0 clears from the cursor to the end of its line,
    /// mode 1 from the start of the line to the cursor (inclusive), mode 2 the
    /// whole line; the cursor row is created first in every mode.
    pub open spec fn erase_in_line(self, mode: u16) -> CellState {
        let e = self.ensure_row();
        let l = e.cursor_line() as int;
        let line = e.lines[l];
        if mode == 0 {
            e.with_lines(e.lines.update(l, blank_range(line, e.col as int, line.len() as int)))
        } else if mode == 1 {
            e.with_lines(e.lines.update(l, blank_range(line, 0, e.col as int + 1)))
        } else if mode == 2 {
            e.with_lines(e.lines.update(l, blank_line(line.len())))
        } else {
            e
        }
    }

    /// A CSI sequence: cursor movement (A, B, C, D), cursor position (H, f),
    /// erase in display (J) and erase in line (K); other sequences are ignored.
    pub open spec fn csi_dispatch(self, params: Seq<u16>, action: char) -> CellState {
        let p0 = param_or(params, 0, 1);
        let n: nat = if p0 == 0 {
            1
        } else {
            p0 as nat
        };
        if action == 'A' {
            self.with_cursor(sat_sub(self.row as int, n as int), self.col)
        } else if action == 'B' {
            self.with_cursor(min_nat(self.row + n, sat_sub(self.height as int, 1)), self.col)
        } else if action == 'C' {
            self.with_cursor(self.row, min_nat(self.col + n, sat_sub(self.width as int, 1)))
        } else if action == 'D' {
            self.with_cursor(self.row, sat_sub(self.col as int, n as int))
        } else if action == 'H' || action == 'f' {
            self.with_cursor(
                min_nat(sat_sub(param_or(params, 0, 1) as int, 1), sat_sub(self.height as int, 1)),
                min_nat(sat_sub(param_or(params, 1, 1) as int, 1), sat_sub(self.width as int, 1)),
            )
        } else if action == 'J' {
            self.erase_in_display(param_or(params, 0, 0))
        } else if action == 'K' {
            self.erase_in_line(param_or(params, 0, 0))
        } else {
            self
        }
    }

    /// The buffer after a resize to `new_width` x `new_height` (each at least 1):
    /// every line is cut or padded with spaces to the new width, blank lines are
    /// added up to the new height, the oldest lines beyond the scrollback limit
    /// are dropped, and the cursor is clamped into the new size.
    pub open spec fn resize(self, new_width: nat, new_height: nat) -> CellState {
        let w = at_least_one(new_width);
        let h = at_least_one(new_height);
        let fitted = Seq::new(self.lines.len(), |i: int| fit_line(self.lines[i], w));
        let grown = if fitted.len() < h {
            fitted + blank_lines((h - fitted.len()) as nat, w)
        } else {
            fitted
        };
        let kept = if grown.len() > MAX_SCROLLBACK {
            grown.skip(grown.len() - MAX_SCROLLBACK)
        } else {
            grown
        };
        CellState {
            lines: kept,
            row: min_nat(self.row, (h - 1) as nat),
            col: min_nat(self.col, (w - 1) as nat),
            width: w,
            height: h,
        }
    }

    /// The lines shown on screen: the last `height` lines of the buffer, or
    /// all of them when there are fewer.
    pub open spec fn visible(self) -> Seq<Seq<char>> {
        if self.lines.len() <= self.height {
            self.lines
        } else {
            self.lines.subrange(self.lines.len() - self.height, self.lines.len() as int)
        }
    }

    /// The effect of one parser event.
    pub open spec fn apply(self, event: VtEventModel) -> CellState {
        match event {
            VtEventModel::Print(c) => self.print(c),
            VtEventModel::Execute(b) => self.execute(b),
            VtEventModel::CsiDispatch { params, action } => self.csi_dispatch(params, action),
        }
    }

    /// The buffer after a parser that has been fed `history` is fed `data`:
    /// the events that the parser reports for the new bytes, applied in order.
    pub open spec fn feed(self, history: Seq<u8>, data: Seq<u8>) -> CellState {
        self.apply_all(vt_events(history + data).skip(vt_events(history).len() as int))
    }

    /// The effect of a sequence of parser events, in order.
    pub open spec fn apply_all(self, events: Seq<VtEventModel>) -> CellState
        decreases events.len(),
    {
        if events.len() == 0 {
            self
        } else {
            self.apply(events[0]).apply_all(events.drop_first())
        }
    }
}

/// The escape-sequence parser of the `vte` crate, held as an opaque value.
#[verifier::external_type_specification]
#[verifier::external_body]
pub struct ExVteParser<const N: usize>(vte::Parser<N>);

/// The parameter list of a CSI sequence as the `vte` crate hands it out, held
/// as an opaque value.
#[verifier::external_type_specification]
#[verifier::external_body]
pub struct ExVteParams(vte::Params);

/// Collects the parser callbacks that change a cell, in the order the parser
/// makes them.
struct EventRecorder {
    events: Vec<VtEvent>,
}

impl vte::Perform for EventRecorder {
    /// Records a printable character.
    fn print(&mut self, c: char) {
        self.events.push(VtEvent::Print(c));
    }

    /// Records a control byte.
    fn execute(&mut self, byte: u8) {
        self.events.push(VtEvent::Execute(byte));
    }

    /// Called by `vte::Parser::advance` when a CSI sequence ends: records the
    /// sequence's parameters, read through `vte::Params::iter` and flattened
    /// in order, with its final character. Nothing is stated of it.
    #[verifier::external_body]
    fn csi_dispatch(&mut self, params: &vte::Params, _intermediates: &[u8], _ignore: bool, action: char) {
        let params: Vec<u16> = params.iter().flat_map(|sub| sub.iter().copied()).collect();
        self.events.push(VtEvent::CsiDispatch { params, action });
    }
}

/// The events that the `vte` parser reports, in order, for a sequence of
/// bytes fed to a new parser, each in its plain form (CSI parameters
/// flattened in order).
pub uninterp spec fn vt_events(bytes: Seq<u8>) -> Seq<VtEventModel>;

/// The escape-sequence parser of a cell, with the bytes it has been fed.
pub struct VtParser {
    parser: vte::Parser,
    fed: Ghost<Seq<u8>>,
}

impl VtParser {
    /// The bytes this parser has been fed since it was made, in order.
    pub closed spec fn fed(self) -> Seq<u8> {
        self.fed@
    }

    /// A parser in its ground state, from `vte::Parser::new`: it has been fed
    /// nothing, and no events have been reported for nothing.
    #[verifier::external_body]
    fn new() -> (p: VtParser)
        ensures
            p.fed() == Seq::<u8>::empty(),
            vt_events(p.fed()) == Seq::<VtEventModel>::empty(),
    {
        VtParser { parser: vte::Parser::new(), fed: Ghost(Seq::empty()) }
    }

    /// Hands one byte to `vte::Parser::advance` and returns the events that
    /// the parser reported for it, in order. The parser's output depends only
    /// on the bytes fed since `Parser::new`, and it never takes back an event
    /// it has reported: the events of the bytes fed so far, then those of
    /// this byte, are the events of all of them.
    #[verifier::external_body]
    fn advance(&mut self, byte: u8) -> (events: Vec<VtEvent>)
        ensures
            final(self).fed() == old(self).fed().push(byte),
            vt_events(final(self).fed()) == vt_events(old(self).fed()) + events@.map_values(
                |e: VtEvent| e.model(),
            ),
    {
        let mut recorder = EventRecorder { events: Vec::new() };
        self.parser.advance(&mut recorder, byte);
        recorder.events
    }
}

/// Computes a row of `w` spaces.
fn blank_row(w: usize) -> (v: Vec<char>)
    ensures
        v@ == blank_line(w as nat),
{
    let mut v: Vec<char> = Vec::with_capacity(w);
    let mut i: usize = 0;
    while i < w
        invariant
            i <= w,
            v@ == blank_line(i as nat),
        decreases w - i,
    {
        v.push(' ');
        i += 1;
        assert(v@ =~= blank_line(i as nat));
    }
    v
}


/// Sets every position of `line` in `from..to` (as far as the line reaches) to a space.
fn blank_span(line: &mut Vec<char>, from: usize, to: usize)
    ensures
        final(line)@ == blank_range(old(line)@, from as int, to as int),
{
    let ghost orig = line@;
    let len = line.len();
    let end = if to < len {
        to
    } else {
        len
    };
    let mut i = from;
    while i < end
        invariant
            from <= i,
            end <= len,
            len == orig.len(),
            end == (if to < len { to } else { len }),
            i <= end || i == from,
            line@ =~= blank_range(orig, from as int, i as int),
        decreases end - i,
    {
        line[i] = ' ';
        i += 1;
        assert(line@ =~= blank_range(orig, from as int, i as int));
    }
    assert(line@ =~= blank_range(orig, from as int, to as int));
}

/// Sets every position of `line` to a space.
fn blank_all(line: &mut Vec<char>)
    ensures
        final(line)@ == blank_line(old(line)@.len()),
{
    let len = line.len();
    blank_span(line, 0, len);
    assert(line@ =~= blank_line(len as nat));
}

/// The `i`-th CSI parameter, or `default` when there are fewer parameters.
fn param_or_default(params: &[u16], i: usize, default: u16) -> (p: u16)
    ensures
        p == param_or(params@, i as int, default),
{
    if i < params.len() {
        params[i]
    } else {
        default
    }
}

/// Cuts `line` or pads it with spaces to length `w`.
fn fit_row(line: &mut Vec<char>, w: usize)
    ensures
        final(line)@ == fit_line(old(line)@, w as nat),
{
    let ghost orig = line@;
    if line.len() >= w {
        line.truncate(w);
    } else {
        while line.len() < w
            invariant
                orig.len() <= line@.len() <= w,
                orig.len() < w,
                line@ =~= orig + blank_line((line@.len() - orig.len()) as nat),
            decreases w - line@.len(),
        {
            line.push(' ');
        }
    }
    assert(line@ =~= fit_line(orig, w as nat));
}

/// Represents the state of a single terminal cell in the grid.
pub struct TerminalCell {
    /// Character grid: rows of columns. Each entry is a character.
    pub lines: Vec<Vec<char>>,
    /// Current cursor row (0-indexed, relative to the visible area).
    pub cursor_row: usize,
    /// Current cursor column (0-indexed).
    pub cursor_col: usize,
    /// Width of this cell in characters.
    pub width: usize,
    /// Height of this cell in characters.
    pub height: usize,
    /// Escape-sequence parser for this cell's PTY output. It keeps its own
    /// state between chunks, so a sequence split across two reads is still
    /// recognised.
    pub parser: VtParser,
}

impl View for TerminalCell {
    type V = CellState;

    open spec fn view(&self) -> CellState {
        CellState {
            lines: self.lines@.map_values(|l: Vec<char>| l@),
            row: self.cursor_row as nat,
            col: self.cursor_col as nat,
            width: self.width as nat,
            height: self.height as nat,
        }
    }
}

impl TerminalCell {
    /// Index in `lines` of the first visible line.
    fn top_line(&self) -> (t: usize)
        ensures
            t == self@.top(),
    {
        if self.lines.len() > self.height {
            self.lines.len() - self.height
        } else {
            0
        }
    }

    /// Index in `lines` of the line under the cursor.
    fn cursor_line(&self) -> (l: usize)
        requires
            self@.wf(),
        ensures
            l == self@.cursor_line(),
    {
        if self.lines.len() > self.height {
            self.lines.len() - self.height + self.cursor_row
        } else {
            self.cursor_row
        }
    }

    /// Ensure the cursor row exists in the buffer.
    pub fn ensure_row(&mut self)
        requires
            old(self)@.wf(),
        ensures
            final(self).parser == old(self).parser,
            final(self)@ == old(self)@.ensure_row(),
    {
        let ghost start = self@;
        while self.lines.len() <= self.cursor_row
            invariant
                self.parser == old(self).parser,
                self.width == start.width,
                self.height == start.height,
                self.cursor_row == start.row,
                self.cursor_col == start.col,
                start.wf(),
                start.lines.len() <= start.row ==> start.lines.len() <= self.lines.len() <= start.row + 1
                    && self@.lines =~= start.lines + blank_lines(
                    (self.lines.len() - start.lines.len()) as nat,
                    start.width,
                ),
                start.lines.len() > start.row ==> self@ == start,
            decreases self.cursor_row + 1 - self.lines.len(),
        {
            let ghost before = self@.lines;
            let row = blank_row(self.width);
            self.lines.push(row);
            assert(self@.lines =~= before.push(blank_line(start.width)));
        }
        assert(self@ =~= start.ensure_row());
    }

    /// Scroll the visible area up by one line.
    pub fn scroll_up(&mut self)
        requires
            old(self)@.wf(),
        ensures
            final(self).parser == old(self).parser,
            final(self)@ == old(self)@.scroll_up(),
    {
        let ghost start = self@;
        let row = blank_row(self.width);
        self.lines.push(row);
        assert(self@.lines =~= start.lines.push(blank_line(start.width)));
        // The cursor row stays at the bottom visible line while the view scrolls up.
        if self.lines.len() > MAX_SCROLLBACK {
            let ghost pushed = self@.lines;
            self.lines.remove(0);
            assert(self@.lines =~= pushed.drop_first());
        }
        assert(self@ =~= start.scroll_up());
    }

    /// Move cursor to a new line, scrolling if needed.
    pub fn newline(&mut self)
        requires
            old(self)@.wf(),
        ensures
            final(self).parser == old(self).parser,
            final(self)@ == old(self)@.newline(),
    {
        if self.cursor_row + 1 >= self.height {
            self.scroll_up();
        } else {
            self.cursor_row += 1;
        }
        proof {
            lemma_steps_wf(old(self)@);
        }
        self.ensure_row();
    }

    /// Carriage return: move cursor to column 0.
    pub fn carriage_return(&mut self)
        ensures
            final(self).parser == old(self).parser,
            final(self)@ == old(self)@.carriage_return(),
    {
        self.cursor_col = 0;
    }

    /// Draw a character at the cursor, wrapping to the next line when the
    /// cursor is past the last column.
    pub fn print(&mut self, c: char)
        requires
            old(self)@.wf(),
        ensures
            final(self).parser == old(self).parser,
            final(self)@ == old(self)@.print(c),
    {
        proof {
            lemma_steps_wf(old(self)@);
            lemma_steps_wf(old(self)@.ensure_row());
        }
        self.ensure_row();
        if self.cursor_col >= self.width {
            // Auto-wrap
            self.cursor_col = 0;
            self.newline();
            proof {
                lemma_newline_wf(old(self)@.ensure_row().with_cursor(old(self)@.ensure_row().row, 0));
            }
        }
        let l = self.cursor_line();
        let col = self.cursor_col;
        let ghost s2 = self@;
        if l < self.lines.len() {
            if col < self.lines[l].len() {
                self.lines[l][col] = c;
                assert(self@.lines =~= s2.lines.update(
                    l as int,
                    s2.lines[l as int].update(col as int, c),
                ));
            }
        }
        self.cursor_col += 1;
    }

    /// Execute a control byte: line feed, carriage return, backspace and tab.
    pub fn execute(&mut self, byte: u8)
        requires
            old(self)@.wf(),
        ensures
            final(self).parser == old(self).parser,
            final(self)@ == old(self)@.execute(byte),
    {
        match byte {
            // Newline (LF)
            0x0a => {
                self.newline();
            },
            // Carriage return
            0x0d => {
                self.carriage_return();
            },
            // Backspace
            0x08 => {
                if self.cursor_col > 0 {
                    self.cursor_col -= 1;
                }
            },
            // Tab
            0x09 => {
                let advanced = self.cursor_col + 8;
                let next_tab = advanced & !7usize;
                proof {
                    lemma_round_down_8(advanced);
                }
                let last = self.width.saturating_sub(1);
                self.cursor_col = if next_tab <= last {
                    next_tab
                } else {
                    last
                };
            },
            // Bell and everything else: ignored
            _ => {},
        }
    }

    /// Erase in display (ED).
    pub fn erase_in_display(&mut self, mode: u16)
        requires
            old(self)@.wf(),
        ensures
            final(self).parser == old(self).parser,
            final(self)@ == old(self)@.erase_in_display(mode),
    {
        let ghost start = self@;
        match mode {
            0 => {
                // Clear from cursor to end of screen
                proof {
                    lemma_steps_wf(start);
                }
                self.ensure_row();
                let ghost e = self@;
                let r = self.cursor_line();
                let col = self.cursor_col;
                let row_len = self.lines[r].len();
                blank_span(&mut self.lines[r], col, row_len);
                let len = self.lines.len();
                let mut k = r + 1;
                while k < len
                    invariant
                        self.parser == old(self).parser,
                        e == start.ensure_row(),
                        r == e.cursor_line(),
                        col == e.col,
                        r < len,
                        len == e.lines.len(),
                        self.lines@.len() == len,
                        r + 1 <= k <= len,
                        self.cursor_row == e.row,
                        self.cursor_col == e.col,
                        self.width == e.width,
                        self.height == e.height,
                        forall|j: int|
                            0 <= j < len ==> (#[trigger] self@.lines[j]) == (if j == r {
                                blank_range(e.lines[j], e.col as int, e.lines[j].len() as int)
                            } else if r < j < k {
                                blank_line(e.lines[j].len())
                            } else {
                                e.lines[j]
                            }),
                    decreases len - k,
                {
                    let ghost prev = self@.lines;
                    blank_all(&mut self.lines[k]);
                    assert(self@.lines =~= prev.update(k as int, blank_line(prev[k as int].len())));
                    k += 1;
                }
                assert(self@.lines =~= start.erase_in_display(mode).lines);
            },
            1 => {
                // Clear from the first visible line to the cursor
                let t = self.top_line();
                let end = t + self.cursor_row;
                let mut k: usize = t;
                while k < end
                    invariant
                        self.parser == old(self).parser,
                        t <= k <= end,
                        t == start.top(),
                        end == t + start.row,
                        self.cursor_row == start.row,
                        self.cursor_col == start.col,
                        self.width == start.width,
                        self.height == start.height,
                        self.lines@.len() == start.lines.len(),
                        forall|j: int|
                            0 <= j < start.lines.len() ==> (#[trigger] self@.lines[j]) == (if t
                                <= j < k {
                                blank_line(start.lines[j].len())
                            } else {
                                start.lines[j]
                            }),
                    decreases end - k,
                {
                    if k < self.lines.len() {
                        let ghost prev = self@.lines;
                        blank_all(&mut self.lines[k]);
                        assert(self@.lines =~= prev.update(
                            k as int,
                            blank_line(prev[k as int].len()),
                        ));
                    }
                    k += 1;
                }
                let ghost cleared = self@;
                assert(cleared.lines =~= Seq::new(
                    start.lines.len(),
                    |j: int|
                        if t <= j < t + start.row {
                            blank_line(start.lines[j].len())
                        } else {
                            start.lines[j]
                        },
                ));
                assert(cleared.wf()) by {
                    assert forall|j: int| 0 <= j < cleared.lines.len() implies (
                    #[trigger] cleared.lines[j]).len() == cleared.width by {
                        assert(start.lines[j].len() == start.width);
                    }
                }
                proof {
                    lemma_steps_wf(cleared);
                }
                self.ensure_row();
                let l = self.cursor_line();
                let col = self.cursor_col;
                blank_span(&mut self.lines[l], 0, col + 1);
                assert(self@.lines =~= start.erase_in_display(mode).lines);
            },
            2 | 3 => {
                // Clear entire screen
                let len = self.lines.len();
                let mut k: usize = 0;
                while k < len
                    invariant
                        self.parser == old(self).parser,
                        k <= len,
                        len == start.lines.len(),
                        self.cursor_row == start.row,
                        self.cursor_col == start.col,
                        self.width == start.width,
                        self.height == start.height,
                        self.lines@.len() == len,
                        forall|j: int|
                            0 <= j < len ==> (#[trigger] self@.lines[j]) == (if j < k {
                                blank_line(start.lines[j].len())
                            } else {
                                start.lines[j]
                            }),
                    decreases len - k,
                {
                    let ghost prev = self@.lines;
                    blank_all(&mut self.lines[k]);
                    assert(self@.lines =~= prev.update(k as int, blank_line(prev[k as int].len())));
                    k += 1;
                }
                let ghost expected = Seq::new(
                    start.lines.len(),
                    |j: int| blank_line(start.lines[j].len()),
                );
                assert(self@.lines =~= expected);
                assert(start.erase_in_display(mode).lines == expected);
                self.cursor_row = 0;
                self.cursor_col = 0;
            },
            _ => {},
        }
    }

    /// Erase in line (EL).
    pub fn erase_in_line(&mut self, mode: u16)
        requires
            old(self)@.wf(),
        ensures
            final(self).parser == old(self).parser,
            final(self)@ == old(self)@.erase_in_line(mode),
    {
        let ghost start = self@;
        proof {
            lemma_steps_wf(start);
        }
        self.ensure_row();
        let ghost e = self@;
        let r = self.cursor_line();
        let col = self.cursor_col;
        match mode {
            0 => {
                // Clear from cursor to end of line
                let row_len = self.lines[r].len();
                blank_span(&mut self.lines[r], col, row_len);
            },
            1 => {
                // Clear from start to cursor
                blank_span(&mut self.lines[r], 0, col + 1);
            },
            2 => {
                // Clear entire line
                blank_all(&mut self.lines[r]);
            },
            _ => {},
        }
        assert(self@.lines =~= start.erase_in_line(mode).lines);
    }

    /// Handle a CSI sequence with its flattened numeric parameters and final character.
    pub fn csi_dispatch(&mut self, params: &[u16], action: char)
        requires
            old(self)@.wf(),
        ensures
            final(self).parser == old(self).parser,
            final(self)@ == old(self)@.csi_dispatch(params@, action),
    {
        let p0 = param_or_default(params, 0, 1) as usize;
        let n = if p0 == 0 {
            1
        } else {
            p0
        };
        match action {
            // Cursor Up (CUU)
            'A' => {
                self.cursor_row = self.cursor_row.saturating_sub(n);
            },
            // Cursor Down (CUD)
            'B' => {
                let down = self.cursor_row + n;
                let last = self.height.saturating_sub(1);
                self.cursor_row = if down <= last {
                    down
                } else {
                    last
                };
            },
            // Cursor Forward (CUF)
            'C' => {
                let right = self.cursor_col + n;
                let last = self.width.saturating_sub(1);
                self.cursor_col = if right <= last {
                    right
                } else {
                    last
                };
            },
            // Cursor Backward (CUB)
            'D' => {
                self.cursor_col = self.cursor_col.saturating_sub(n);
            },
            // Cursor Position (CUP) / Horizontal and Vertical Position (HVP), 1-indexed
            'H' | 'f' => {
                let row = (param_or_default(params, 0, 1) as usize).saturating_sub(1);
                let col = (param_or_default(params, 1, 1) as usize).saturating_sub(1);
                let last_row = self.height.saturating_sub(1);
                let last_col = self.width.saturating_sub(1);
                self.cursor_row = if row <= last_row {
                    row
                } else {
                    last_row
                };
                self.cursor_col = if col <= last_col {
                    col
                } else {
                    last_col
                };
            },
            // Erase in Display (ED)
            'J' => {
                let mode = param_or_default(params, 0, 0);
                self.erase_in_display(mode);
            },
            // Erase in Line (EL)
            'K' => {
                let mode = param_or_default(params, 0, 0);
                self.erase_in_line(mode);
            },
            // SGR, save/restore cursor, scrolling regions, etc.: ignored
            _ => {},
        }
    }
}


/// `print` keeps a buffer well-formed.
proof fn lemma_print_wf(s: CellState, c: char)
    requires
        s.wf(),
    ensures
        s.print(c).wf(),
{
    lemma_steps_wf(s);
    let s1 = s.ensure_row();
    if s1.col >= s1.width {
        lemma_steps_wf(s1);
        lemma_newline_wf(s1.with_cursor(s1.row, 0));
    }
    let s2 = if s1.col >= s1.width {
        s1.with_cursor(s1.row, 0).newline()
    } else {
        s1
    };
    assert(s2.wf() && s2.lines.len() > s2.cursor_line() && s2.col < s2.width);
    let k = s2.cursor_line() as int;
    if k < s2.lines.len() && s2.col < s2.lines[k].len() {
        let l = s2.lines.update(k, s2.lines[k].update(s2.col as int, c));
        assert forall|i: int| 0 <= i < l.len() implies (#[trigger] l[i]).len() == s2.width by {
            assert(s2.lines[i].len() == s2.width);
        }
    }
}

/// `execute` keeps a buffer well-formed.
proof fn lemma_execute_wf(s: CellState, byte: u8)
    requires
        s.wf(),
    ensures
        s.execute(byte).wf(),
{
    lemma_newline_wf(s);
}

/// Replacing lines by lines of the same lengths keeps a buffer well-formed.
proof fn lemma_same_shape_wf(s: CellState, lines: Seq<Seq<char>>)
    requires
        s.wf(),
        lines.len() == s.lines.len(),
        forall|i: int| 0 <= i < lines.len() ==> (#[trigger] lines[i]).len() == s.lines[i].len(),
    ensures
        s.with_lines(lines).wf(),
{
    assert forall|i: int| 0 <= i < lines.len() implies (#[trigger] lines[i]).len() == s.width by {
        assert(s.lines[i].len() == s.width);
    }
}

/// `erase_in_display` keeps a buffer well-formed.
proof fn lemma_erase_in_display_wf(s: CellState, mode: u16)
    requires
        s.wf(),
    ensures
        s.erase_in_display(mode).wf(),
{
    if mode == 0 {
        lemma_steps_wf(s);
        let e = s.ensure_row();
        lemma_same_shape_wf(e, s.erase_in_display(mode).lines);
    } else if mode == 1 {
        let cleared = s.with_lines(
            Seq::new(
                s.lines.len(),
                |r: int|
                    if r < s.row {
                        blank_line(s.lines[r].len())
                    } else {
                        s.lines[r]
                    },
            ),
        );
        lemma_same_shape_wf(s, cleared.lines);
        lemma_steps_wf(cleared);
        let e = cleared.ensure_row();
        lemma_same_shape_wf(e, s.erase_in_display(mode).lines);
    } else if mode == 2 || mode == 3 {
        lemma_same_shape_wf(
            s,
            Seq::new(s.lines.len(), |r: int| blank_line(s.lines[r].len())),
        );
    }
}

/// `erase_in_line` keeps a buffer well-formed.
proof fn lemma_erase_in_line_wf(s: CellState, mode: u16)
    requires
        s.wf(),
    ensures
        s.erase_in_line(mode).wf(),
{
    lemma_steps_wf(s);
    let e = s.ensure_row();
    lemma_same_shape_wf(e, s.erase_in_line(mode).lines);
}

/// `csi_dispatch` keeps a buffer well-formed.
proof fn lemma_csi_dispatch_wf(s: CellState, params: Seq<u16>, action: char)
    requires
        s.wf(),
    ensures
        s.csi_dispatch(params, action).wf(),
{
    lemma_erase_in_display_wf(s, param_or(params, 0, 0));
    lemma_erase_in_line_wf(s, param_or(params, 0, 0));
}

/// Every parser event keeps a cell buffer well-formed: all lines as wide as
/// the cell, the cursor row inside the visible height, the cursor column at
/// most one past the last column, and no more lines than the scrollback limit
/// (or the height, when that is larger).
pub proof fn lemma_apply_wf(s: CellState, event: VtEventModel)
    requires
        s.wf(),
    ensures
        s.apply(event).wf(),
{
    match event {
        VtEventModel::Print(c) => lemma_print_wf(s, c),
        VtEventModel::Execute(b) => lemma_execute_wf(s, b),
        VtEventModel::CsiDispatch { params, action } => lemma_csi_dispatch_wf(s, params, action),
    }
}

/// Any sequence of parser events keeps a cell buffer well-formed.
pub proof fn lemma_apply_all_wf(s: CellState, events: Seq<VtEventModel>)
    requires
        s.wf(),
    ensures
        s.apply_all(events).wf(),
    decreases events.len(),
{
    if events.len() > 0 {
        lemma_apply_wf(s, events[0]);
        lemma_apply_all_wf(s.apply(events[0]), events.drop_first());
    }
}

/// Parser events never change a cell's dimensions.
proof fn lemma_apply_all_dims(s: CellState, events: Seq<VtEventModel>)
    ensures
        s.apply_all(events).width == s.width,
        s.apply_all(events).height == s.height,
    decreases events.len(),
{
    if events.len() > 0 {
        lemma_apply_all_dims(s.apply(events[0]), events.drop_first());
    }
}

/// Applying one more event after a sequence of events.
proof fn lemma_apply_all_push(s: CellState, events: Seq<VtEventModel>, e: VtEventModel)
    ensures
        s.apply_all(events.push(e)) == s.apply_all(events).apply(e),
{
    let single = seq![e];
    lemma_apply_all_concat(s, events, single);
    assert(events + single =~= events.push(e));
    let t = s.apply_all(events);
    assert(single.drop_first() =~= Seq::<VtEventModel>::empty());
    assert(t.apply_all(single) == t.apply(e).apply_all(single.drop_first()));
    assert(t.apply(e).apply_all(Seq::<VtEventModel>::empty()) == t.apply(e));
}

/// Feeding events in two batches has the same effect as feeding them at once.
pub proof fn lemma_apply_all_concat(s: CellState, a: Seq<VtEventModel>, b: Seq<VtEventModel>)
    ensures
        s.apply_all(a + b) == s.apply_all(a).apply_all(b),
    decreases a.len(),
{
    if a.len() > 0 {
        assert((a + b).drop_first() =~= a.drop_first() + b);
        lemma_apply_all_concat(s.apply(a[0]), a.drop_first(), b);
    } else {
        assert(a + b =~= b);
    }
}

impl TerminalCell {
    /// Create a new terminal cell with the given dimensions (each at least 1).
    pub fn new(width: usize, height: usize) -> (cell: TerminalCell)
        requires
            dims_fit(width as int, height as int),
        ensures
            cell@ == CellState::fresh(width as nat, height as nat),
            cell@.wf(),
            cell.parser.fed() == Seq::<u8>::empty(),
    {
        let w = if width < 1 {
            1
        } else {
            width
        };
        let h = if height < 1 {
            1
        } else {
            height
        };
        let mut lines: Vec<Vec<char>> = Vec::with_capacity(h);
        let mut i: usize = 0;
        while i < h
            invariant
                i <= h,
                lines@.len() == i,
                forall|j: int| 0 <= j < i ==> (#[trigger] lines@[j])@ == blank_line(w as nat),
            decreases h - i,
        {
            lines.push(blank_row(w));
            i += 1;
        }
        let cell = TerminalCell {
            lines,
            cursor_row: 0,
            cursor_col: 0,
            width: w,
            height: h,
            parser: VtParser::new(),
        };
        assert(cell@.lines =~= blank_lines(h as nat, w as nat));
        cell
    }

    /// Resize this cell's buffer to new dimensions (each at least 1).
    /// Existing content is preserved where possible.
    pub fn resize(&mut self, new_width: usize, new_height: usize)
        requires
            dims_fit(new_width as int, new_height as int),
        ensures
            final(self)@ == old(self)@.resize(new_width as nat, new_height as nat),
            final(self)@.wf(),
            final(self).parser == old(self).parser,
    {
        let ghost start = self@;
        let w = if new_width < 1 {
            1
        } else {
            new_width
        };
        let h = if new_height < 1 {
            1
        } else {
            new_height
        };

        // Resize existing rows
        let len = self.lines.len();
        let mut i: usize = 0;
        while i < len
            invariant
                self.parser == old(self).parser,
                i <= len,
                len == start.lines.len(),
                self.lines@.len() == len,
                self.cursor_row == start.row,
                self.cursor_col == start.col,
                forall|j: int|
                    0 <= j < len ==> (#[trigger] self@.lines[j]) == (if j < i {
                        fit_line(start.lines[j], w as nat)
                    } else {
                        start.lines[j]
                    }),
            decreases len - i,
        {
            let ghost prev = self@.lines;
            fit_row(&mut self.lines[i], w);
            assert(self@.lines =~= prev.update(i as int, fit_line(prev[i as int], w as nat)));
            i += 1;
        }
        let ghost fitted = self@.lines;

        // Add or remove rows
        while self.lines.len() < h
            invariant
                self.parser == old(self).parser,
                self.cursor_row == start.row,
                self.cursor_col == start.col,
                fitted.len() == len,
                len <= self.lines@.len(),
                fitted.len() < h ==> self.lines@.len() <= h,
                fitted.len() >= h ==> self.lines@.len() == len,
                self@.lines =~= fitted + blank_lines((self.lines@.len() - len) as nat, w as nat),
            decreases h - self.lines@.len(),
        {
            let ghost prev = self@.lines;
            let row = blank_row(w);
            self.lines.push(row);
            assert(self@.lines =~= prev.push(blank_line(w as nat)));
        }
        let ghost grown = self@.lines;
        let ghost expected = start.resize(new_width as nat, new_height as nat);
        assert(fitted =~= Seq::new(start.lines.len(), |j: int| fit_line(start.lines[j], w as nat)));
        assert(grown =~= (if fitted.len() < h {
            fitted + blank_lines((h - fitted.len()) as nat, w as nat)
        } else {
            fitted
        }));
        // Keep scrollback but trim to MAX_SCROLLBACK
        if self.lines.len() > MAX_SCROLLBACK {
            let drain = self.lines.len() - MAX_SCROLLBACK;
            let kept = self.lines.split_off(drain);
            self.lines = kept;
            assert(self@.lines =~= grown.skip(grown.len() - MAX_SCROLLBACK));
        }
        assert(self@.lines =~= expected.lines);
        let ghost kept_lines = self@.lines;
        self.width = w;
        self.height = h;
        // Clamp cursor
        let last_row = h.saturating_sub(1);
        let last_col = w.saturating_sub(1);
        if self.cursor_row > last_row {
            self.cursor_row = last_row;
        }
        if self.cursor_col > last_col {
            self.cursor_col = last_col;
        }
        assert(self@.lines == kept_lines);
        assert(self@ =~= expected);
        assert forall|j: int| 0 <= j < expected.lines.len() implies (
        #[trigger] expected.lines[j]).len() == w by {
            if grown.len() > MAX_SCROLLBACK {
                assert(expected.lines[j] == grown[j + grown.len() - MAX_SCROLLBACK]);
            }
        }
    }

    /// The visible lines for rendering: the last `height` lines of the buffer,
    /// or all of them when there are fewer.
    pub fn visible_lines(&self) -> (r: &[Vec<char>])
        ensures
            r@.map_values(|l: Vec<char>| l@) == self@.visible(),
    {
        let total = self.lines.len();
        if total <= self.height {
            let all = self.lines.as_slice();
            assert(all@.map_values(|l: Vec<char>| l@) =~= self@.visible());
            all
        } else {
            // Show the last `height` lines
            let tail = vstd::slice::slice_subrange(self.lines.as_slice(), total - self.height, total);
            assert(tail@.map_values(|l: Vec<char>| l@) =~= self@.visible());
            tail
        }
    }

    /// Apply one parser event to the buffer.
    pub fn apply(&mut self, event: &VtEvent)
        requires
            old(self)@.wf(),
        ensures
            final(self).parser == old(self).parser,
            final(self)@ == old(self)@.apply(event.model()),
            final(self)@.wf(),
    {
        proof {
            lemma_apply_wf(old(self)@, event.model());
        }
        match event {
            VtEvent::Print(c) => self.print(*c),
            VtEvent::Execute(b) => self.execute(*b),
            VtEvent::CsiDispatch { params, action } => self.csi_dispatch(params.as_slice(), *action),
        }
    }

    /// Apply the events that the escape-sequence parser reported for a chunk
    /// of PTY output, in order.
    pub fn apply_events(&mut self, events: &[VtEvent])
        requires
            old(self)@.wf(),
        ensures
            final(self).parser == old(self).parser,
            final(self)@ == old(self)@.apply_all(events@.map_values(|e: VtEvent| e.model())),
            final(self)@.wf(),
    {
        let ghost start = self@;
        let ghost models = events@.map_values(|e: VtEvent| e.model());
        let mut i: usize = 0;
        while i < events.len()
            invariant
                self.parser == old(self).parser,
                i <= events@.len(),
                models == events@.map_values(|e: VtEvent| e.model()),
                start.wf(),
                self@ == start.apply_all(models.take(i as int)),
                self@.wf(),
            decreases events@.len() - i,
        {
            proof {
                lemma_apply_all_push(start, models.take(i as int), models[i as int]);
                assert(models.take(i as int).push(models[i as int]) =~= models.take(i + 1));
            }
            self.apply(&events[i]);
            i += 1;
        }
        assert(models.take(events@.len() as int) =~= models);
    }

    /// Feed raw bytes from PTY output through the cell's escape-sequence
    /// parser, applying each event it reports to the buffer as it comes.
    pub fn feed(&mut self, data: &[u8])
        requires
            old(self)@.wf(),
        ensures
            final(self)@.wf(),
            final(self).parser.fed() == old(self).parser.fed() + data@,
            final(self)@ == old(self)@.feed(old(self).parser.fed(), data@),
            final(self)@.width == old(self)@.width,
            final(self)@.height == old(self)@.height,
            vt_events(old(self).parser.fed()).is_prefix_of(vt_events(final(self).parser.fed())),
    {
        let ghost start = self@;
        let ghost history = self.parser.fed();
        let ghost mut done: Seq<VtEventModel> = Seq::empty();
        let mut i: usize = 0;
        while i < data.len()
            invariant
                i <= data@.len(),
                start.wf(),
                self.parser.fed() == history + data@.take(i as int),
                vt_events(self.parser.fed()) == vt_events(history) + done,
                self@ == start.apply_all(done),
                self@.wf(),
                self@.width == start.width,
                self@.height == start.height,
            decreases data@.len() - i,
        {
            let events = self.parser.advance(data[i]);
            let ghost before = self@;
            let ghost models = events@.map_values(|e: VtEvent| e.model());
            self.apply_events(events.as_slice());
            proof {
                lemma_apply_all_concat(start, done, models);
                lemma_apply_all_dims(before, models);
                assert(history + data@.take(i + 1) =~= (history + data@.take(i as int)).push(data@[i as int]));
                assert(vt_events(history) + (done + models) =~= vt_events(history) + done + models);
                done = done + models;
            }
            i += 1;
        }
        proof {
            assert(data@.take(data@.len() as int) =~= data@);
            let all = vt_events(history + data@);
            assert(all.skip(vt_events(history).len() as int) =~= done);
            assert(all.subrange(0, vt_events(history).len() as int) =~= vt_events(history));
        }
    }
}

/// Feeding bytes in two chunks has the same effect as feeding them at once,
/// wherever the parser's events for the longer inputs extend those for the
/// shorter ones, as `TerminalCell::feed` states of every call.
pub proof fn lemma_feed_in_chunks(s: CellState, history: Seq<u8>, a: Seq<u8>, b: Seq<u8>)
    requires
        vt_events(history).is_prefix_of(vt_events(history + a)),
        vt_events(history + a).is_prefix_of(vt_events(history + a + b)),
    ensures
        s.feed(history, a).feed(history + a, b) == s.feed(history, a + b),
{
    let e0 = vt_events(history);
    let e1 = vt_events(history + a);
    let e2 = vt_events(history + a + b);
    assert(history + a + b =~= history + (a + b));
    lemma_apply_all_concat(s, e1.skip(e0.len() as int), e2.skip(e1.len() as int));
    assert(e1.skip(e0.len() as int) + e2.skip(e1.len() as int) =~= e2.skip(e0.len() as int)) by {
        assert(e1 =~= e2.subrange(0, e1.len() as int));
        assert(e0 =~= e1.subrange(0, e0.len() as int));
    }
}

/// Resizing preserves existing content where possible: every character that
/// still fits in the new width stays at its place in its line, where the lines
/// dropped beyond the scrollback limit are the oldest ones. Resizing a
/// well-formed buffer that holds at least a screenful of lines, and no more
/// than the scrollback limit, and whose cursor is on a column of the line, to
/// its own size changes nothing.
pub proof fn lemma_resize_preserves_content(s: CellState, new_width: nat, new_height: nat)
    ensures
        ({
            let r = s.resize(new_width, new_height);
            let h: nat = if new_height < 1 {
                1
            } else {
                new_height
            };
            let total: int = if s.lines.len() < h {
                h as int
            } else {
                s.lines.len() as int
            };
            let dropped: int = if total > MAX_SCROLLBACK {
                total - MAX_SCROLLBACK
            } else {
                0
            };
            &&& r.lines.len() == total - dropped
            &&& forall|j: int, c: int|
                0 <= j < r.lines.len() && j + dropped < s.lines.len() && 0 <= c < r.width && c
                    < s.lines[j + dropped].len() ==> #[trigger] r.lines[j][c] == s.lines[j
                    + dropped][c]
        }),
        s.wf() && new_width == s.width && new_height == s.height && s.height <= s.lines.len()
            <= MAX_SCROLLBACK && s.col < s.width ==> s.resize(
            new_width,
            new_height,
        ) == s,
{
    let r = s.resize(new_width, new_height);
    if s.wf() && new_width == s.width && new_height == s.height && s.height <= s.lines.len()
        <= MAX_SCROLLBACK && s.col < s.width {
        assert(r.lines =~= s.lines) by {
            assert forall|j: int| 0 <= j < s.lines.len() implies r.lines[j] == s.lines[j] by {
                assert(s.lines[j].len() == s.width);
                assert(fit_line(s.lines[j], s.width) =~= s.lines[j]);
            }
        }
    }
}

/// Resizing twice to the same size changes nothing the second time, for
/// every height up to the scrollback limit.
pub proof fn lemma_resize_idempotent(s: CellState, new_width: nat, new_height: nat)
    requires
        at_least_one(new_height) <= MAX_SCROLLBACK,
    ensures
        s.resize(new_width, new_height).resize(new_width, new_height) == s.resize(
            new_width,
            new_height,
        ),
{
    let w = at_least_one(new_width);
    let h = at_least_one(new_height);
    let r = s.resize(new_width, new_height);
    let fitted = Seq::new(s.lines.len(), |i: int| fit_line(s.lines[i], w));
    let grown = if fitted.len() < h {
        fitted + blank_lines((h - fitted.len()) as nat, w)
    } else {
        fitted
    };
    assert forall|i: int| 0 <= i < grown.len() implies (#[trigger] grown[i]).len() == w by {
        if i < fitted.len() {
            assert(fitted[i] == fit_line(s.lines[i], w));
        }
    }
    assert forall|i: int| 0 <= i < r.lines.len() implies (#[trigger] r.lines[i]).len() == w by {
        if grown.len() > MAX_SCROLLBACK {
            assert(r.lines[i] == grown[i + grown.len() - MAX_SCROLLBACK]);
        }
    }
    let r2 = r.resize(new_width, new_height);
    let fitted2 = Seq::new(r.lines.len(), |i: int| fit_line(r.lines[i], w));
    assert forall|i: int| 0 <= i < r.lines.len() implies #[trigger] fitted2[i] == r.lines[i] by {
        assert(fit_line(r.lines[i], w) =~= r.lines[i]);
    }
    assert(fitted2 =~= r.lines);
    assert(r2.lines =~= r.lines);
}

/// Control bytes move the cursor as a terminal does and never touch the
/// lines: backspace steps one column left (staying at column 0), carriage
/// return goes to column 0 of the same row, tab goes to the next multiple of
/// 8 or the last column when that is nearer, and line feed keeps the column
/// and moves one row down, or stays on the bottom row when it is there.
/// Every other byte (bell, NUL, ...) changes nothing.
pub proof fn lemma_execute_moves(s: CellState, byte: u8)
    requires
        s.wf(),
    ensures
        ({
            let t = s.execute(0x08);
            &&& t.lines == s.lines
            &&& t.row == s.row
            &&& t.width == s.width
            &&& t.height == s.height
            &&& t.col == (if s.col > 0 {
                s.col - 1
            } else {
                0int
            })
        }),
        ({
            let t = s.execute(0x0d);
            &&& t.lines == s.lines
            &&& t.row == s.row
            &&& t.col == 0
            &&& t.width == s.width
            &&& t.height == s.height
        }),
        ({
            let t = s.execute(0x09);
            let next: int = (s.col as int / 8 + 1) * 8;
            &&& t.lines == s.lines
            &&& t.row == s.row
            &&& t.width == s.width
            &&& t.height == s.height
            &&& t.col == (if next <= s.width - 1 {
                next
            } else {
                s.width - 1
            })
        }),
        ({
            let t = s.execute(0x0a);
            &&& t.col == s.col
            &&& t.width == s.width
            &&& t.height == s.height
            &&& t.row == (if s.row + 1 < s.height {
                s.row + 1
            } else {
                s.row
            })
        }),
        byte != 0x08 && byte != 0x09 && byte != 0x0a && byte != 0x0d ==> s.execute(byte) == s,
{
    let next = (s.col + 8) - (s.col + 8) % 8;
    assert(next == (s.col / 8 + 1) * 8);
}

/// CSI cursor movements: Up, Down, Forward and Backward move by the first
/// parameter (1 when it is missing or 0) and stop at the screen's edges;
/// Cursor Position goes to the 1-based row and column of the first two
/// parameters (1 when missing or 0), kept on the screen; none of them touches
/// the lines, and sequences the cell does not know change nothing.
pub proof fn lemma_csi_cursor_moves(s: CellState, params: Seq<u16>, action: char)
    requires
        s.wf(),
    ensures
        ({
            let n: int = if params.len() == 0 || params[0] == 0 {
                1
            } else {
                params[0] as int
            };
            let r: int = if params.len() == 0 || params[0] == 0 {
                0
            } else {
                params[0] - 1
            };
            let c: int = if params.len() < 2 || params[1] == 0 {
                0
            } else {
                params[1] - 1
            };
            let t = s.csi_dispatch(params, action);
            &&& action == 'A' || action == 'B' || action == 'C' || action == 'D' || action == 'H'
                || action == 'f' ==> t.lines == s.lines && t.width == s.width && t.height
                == s.height
            &&& action == 'A' ==> t.col == s.col && t.row == (if s.row >= n {
                s.row - n
            } else {
                0
            })
            &&& action == 'B' ==> t.col == s.col && t.row == (if s.row + n <= s.height - 1 {
                s.row + n
            } else {
                s.height - 1
            })
            &&& action == 'C' ==> t.row == s.row && t.col == (if s.col + n <= s.width - 1 {
                s.col + n
            } else {
                s.width - 1
            })
            &&& action == 'D' ==> t.row == s.row && t.col == (if s.col >= n {
                s.col - n
            } else {
                0
            })
            &&& action == 'H' || action == 'f' ==> t.row == (if r <= s.height - 1 {
                r
            } else {
                s.height - 1
            }) && t.col == (if c <= s.width - 1 {
                c
            } else {
                s.width - 1
            })
            &&& action == 'm' || action == 'r' ==> t == s
        }),
{
}

/// Erase in line clears the cursor's row on screen: from the cursor to the
/// end (mode 0), from the start through the cursor (mode 1), or all of it
/// (mode 2); the cursor stays and no other line changes. Erase in display
/// with mode 2 or 3 blanks every line and homes the cursor; with mode 0 it
/// clears the rows below the cursor's on screen, with mode 1 those above it.
pub proof fn lemma_erase_clears(s: CellState, mode: u16)
    requires
        s.wf(),
    ensures
        ({
            let e = s.ensure_row();
            let t = s.erase_in_line(mode);
            let l = e.cursor_line() as int;
            &&& t.row == s.row && t.col == s.col
            &&& t.lines.len() == e.lines.len()
            &&& t.row < t.visible().len()
            &&& forall|j: int| 0 <= j < t.lines.len() && j != l ==> #[trigger] t.lines[j] == e.lines[j]
            &&& forall|c: int|
                0 <= c < s.width ==> #[trigger] t.visible()[t.row as int][c] == (if (mode == 0
                    && c >= s.col) || (mode == 1 && c <= s.col) || mode == 2 {
                    ' '
                } else {
                    e.lines[l][c]
                })
        }),
        mode == 2 || mode == 3 ==> {
            let t = s.erase_in_display(mode);
            &&& t.row == 0 && t.col == 0
            &&& t.lines.len() == s.lines.len()
            &&& forall|j: int, c: int|
                0 <= j < t.lines.len() && 0 <= c < t.lines[j].len() ==> #[trigger] t.lines[j][c]
                    == ' '
        },
        mode == 0 ==> {
            let t = s.erase_in_display(mode);
            &&& t.row == s.row && t.col == s.col
            &&& forall|r: int, c: int|
                s.row < r < t.visible().len() && 0 <= c < s.width ==> #[trigger] t.visible()[r][c]
                    == ' '
            &&& s.row < t.visible().len()
            &&& forall|c: int|
                s.col <= c < s.width ==> #[trigger] t.visible()[s.row as int][c] == ' '
        },
        mode == 1 ==> {
            let t = s.erase_in_display(mode);
            &&& t.row == s.row && t.col == s.col
            &&& forall|r: int, c: int|
                0 <= r < s.row && r < t.visible().len() && 0 <= c < s.width
                    ==> #[trigger] t.visible()[r][c] == ' '
            &&& s.row < t.visible().len()
            &&& forall|c: int| 0 <= c <= s.col && c < s.width ==> #[trigger] t.visible()[s.row as int][c]
                == ' '
        },
{
    lemma_steps_wf(s);
    lemma_erase_in_line_wf(s, mode);
    lemma_erase_in_display_wf(s, mode);
    let e = s.ensure_row();
    let l = e.cursor_line() as int;
    let t = s.erase_in_line(mode);
    assert(e.lines[l].len() == s.width);
    assert(t.lines.len() == e.lines.len());
    if t.lines.len() > t.height {
        assert forall|c: int| 0 <= c < s.width implies #[trigger] t.visible()[t.row as int][c] == t.lines[l][c] by {
            assert(t.visible()[t.row as int] == t.lines[l]);
        }
    }
    if mode == 0 {
        let d = s.erase_in_display(mode);
        assert(d.lines.len() == e.lines.len());
        assert forall|r: int, c: int|
            s.row < r < d.visible().len() && 0 <= c < s.width implies #[trigger] d.visible()[r][c] == ' ' by {
            let k = d.top() + r;
            assert(d.visible()[r] == d.lines[k]);
            assert(e.lines[k].len() == s.width);
        }
        assert(d.visible()[s.row as int] == d.lines[l]);
    }
    if mode == 1 {
        let t0 = s.top() as int;
        let cleared = s.with_lines(
            Seq::new(
                s.lines.len(),
                |r: int|
                    if t0 <= r < t0 + s.row {
                        blank_line(s.lines[r].len())
                    } else {
                        s.lines[r]
                    },
            ),
        );
        lemma_same_shape_wf(s, cleared.lines);
        lemma_steps_wf(cleared);
        let e1 = cleared.ensure_row();
        let d = s.erase_in_display(mode);
        assert(e1.lines[e1.cursor_line() as int].len() == s.width);
        assert forall|r: int, c: int|
            0 <= r < s.row && r < d.visible().len() && 0 <= c < s.width implies #[trigger] d.visible()[r][c]
                == ' ' by {
            let k = d.top() + r;
            assert(d.visible()[r] == d.lines[k]);
            if k < s.lines.len() {
                assert(s.lines[k].len() == s.width);
            }
        }
        assert(d.visible()[s.row as int] == d.lines[e1.cursor_line() as int]);
    }
    if mode == 2 || mode == 3 {
        let d = s.erase_in_display(mode);
        assert forall|j: int, c: int| 0 <= j < d.lines.len() && 0 <= c < d.lines[j].len() implies #[trigger] d.lines[j][c]
            == ' ' by {
            assert(d.lines[j] == blank_line(s.lines[j].len()));
        }
    }
}

/// Resizing sets the new size (each dimension at least 1) and keeps the
/// cursor where it was when it still fits; otherwise the cursor goes to the
/// last row or column.
pub proof fn lemma_resize_cursor(s: CellState, new_width: nat, new_height: nat)
    ensures
        ({
            let r = s.resize(new_width, new_height);
            let w: nat = if new_width == 0 {
                1
            } else {
                new_width
            };
            let h: nat = if new_height == 0 {
                1
            } else {
                new_height
            };
            &&& r.width == w
            &&& r.height == h
            &&& r.row == (if s.row < h {
                s.row
            } else {
                (h - 1) as nat
            })
            &&& r.col == (if s.col < w {
                s.col
            } else {
                (w - 1) as nat
            })
        }),
{
}

/// A printed character can be read back on screen where it was written: on
/// the cursor's visible row, just left of the cursor. When the cursor was
/// inside the line, it stays on its row and moves one column right, and
/// nothing else in the buffer changes.
pub proof fn lemma_print_writes_at_cursor(s: CellState, c: char)
    requires
        s.wf(),
    ensures
        ({
            let p = s.print(c);
            &&& 1 <= p.col <= p.width
            &&& p.row < p.visible().len()
            &&& p.visible()[p.row as int][p.col - 1] == c
        }),
        s.col < s.width ==> {
            let p = s.print(c);
            let e = s.ensure_row();
            &&& p.row == s.row
            &&& p.col == s.col + 1
            &&& p.lines.len() == e.lines.len()
            &&& forall|i: int, j: int|
                0 <= i < p.lines.len() && 0 <= j < s.width && (i != e.cursor_line() || j
                    != s.col) ==> #[trigger] p.lines[i][j] == e.lines[i][j]
        },
{
    lemma_steps_wf(s);
    let e = s.ensure_row();
    if e.col >= e.width {
        lemma_steps_wf(e.with_cursor(e.row, 0));
        lemma_newline_wf(e.with_cursor(e.row, 0));
    }
    let s2 = if e.col >= e.width {
        e.with_cursor(e.row, 0).newline()
    } else {
        e
    };
    assert(s2.wf() && s2.lines.len() > s2.cursor_line() && s2.col < s2.width);
    let k = s2.cursor_line() as int;
    assert(s2.lines[k].len() == s2.width);
    let p = s.print(c);
    assert(p.lines[k][s2.col as int] == c);
    assert(p.lines.len() == s2.lines.len());
    if p.lines.len() > p.height {
        assert(p.visible()[p.row as int] == p.lines[k]);
    }
}

/// Clearing the low three bits rounds down to a multiple of 8.
proof fn lemma_round_down_8(x: usize)
    ensures
        x & !7usize == x - x % 8,
{
    assert(x & !7usize == x - x % 8) by (bit_vector);
}

/// `newline` keeps a buffer well-formed, and leaves the cursor row in the buffer.
proof fn lemma_newline_wf(s: CellState)
    requires
        s.wf(),
    ensures
        s.newline().wf(),
        s.newline().lines.len() > s.newline().row,
        s.newline().lines.len() > s.newline().cursor_line(),
        s.newline().col == s.col,
{
    lemma_steps_wf(s);
    if s.row + 1 >= s.height {
        lemma_steps_wf(s.scroll_up());
    } else {
        lemma_steps_wf(s.with_cursor(s.row + 1, s.col));
    }
}

/// The steps that `newline` and `print` are made of keep a buffer well-formed.
proof fn lemma_steps_wf(s: CellState)
    requires
        s.wf(),
    ensures
        s.ensure_row().wf(),
        s.ensure_row().lines.len() > s.row,
        s.ensure_row().cursor_line() < s.ensure_row().lines.len(),
        s.scroll_up().wf(),
        s.row + 1 < s.height ==> s.with_cursor(s.row + 1, s.col).wf(),
        s.with_cursor(s.row, 0).wf(),
{
    let e = s.ensure_row();
    assert forall|i: int| 0 <= i < e.lines.len() implies (#[trigger] e.lines[i]).len() == s.width by {
        if i >= s.lines.len() {
            assert(e.lines[i] == blank_line(s.width));
        }
    }
    let u = s.scroll_up();
    let pushed = s.lines.push(blank_line(s.width));
    assert forall|i: int| 0 <= i < pushed.len() implies (#[trigger] pushed[i]).len() == s.width by {
        if i < s.lines.len() {
            assert(pushed[i] == s.lines[i]);
        }
    }
    if pushed.len() > MAX_SCROLLBACK {
        assert forall|i: int| 0 <= i < u.lines.len() implies (#[trigger] u.lines[i]).len()
            == s.width by {
            assert(u.lines[i] == pushed[i + 1]);
        }
    }
}

} // verus!
