//! The mathematical model of the terminal grid: what each operation of
//! `Grid` does, stated over sequences of cells.
use vstd::prelude::*;

use crate::color::{dye_of, Color, Palette};

verus! {

/// How many lines the scrollback keeps.
pub const PAST: usize = 1000;

/// One character cell with its colours and decorations.
#[derive(Clone, Copy, Debug, PartialEq, Eq, Structural)]
pub struct Cell {
    pub glyph: char,
    pub fg: Color,
    pub bg: Color,
    pub under: bool,
    pub strike: bool,
    pub bold: bool,
}

/// The attributes that newly written cells get.
#[derive(Clone, Copy, Debug, PartialEq, Eq, Structural)]
pub struct Pen {
    pub fg: Color,
    pub bg: Color,
    pub bold: bool,
    pub slot: Option<u8>,
    pub rev: bool,
    pub under: bool,
    pub strike: bool,
}

/// The look of the cursor.
#[derive(Clone, Copy, Debug, PartialEq, Eq, Structural)]
pub enum Shape {
    Block,
    Under,
    Bar,
}

impl Default for Shape {
    /// A fresh cursor is a block.
    fn default() -> (s: Shape)
        ensures
            s == Shape::Block,
    {
        Shape::Block
    }
}

/// The glyph that stands in for the cursor of a shape.
pub open spec fn mark_of(s: Shape) -> char {
    match s {
        Shape::Block => '\u{2588}',
        Shape::Under => '\u{2581}',
        Shape::Bar => '\u{258F}',
    }
}

/// A run of cells of one look, as `Grid::spans` reports it.
pub struct SpanView {
    pub hue: Color,
    pub back: Option<Color>,
    pub text: Seq<char>,
    pub under: bool,
    pub strike: bool,
    pub bold: bool,
    pub col: usize,
}

/// A selection: its first and last cell, by flat line and column.
pub type Mark = ((usize, usize), (usize, usize));

/// The state of a grid.
pub struct Screen {
    pub cells: Seq<Seq<Cell>>,
    pub alt: Seq<Seq<Cell>>,
    pub live: bool,
    pub save: (usize, usize),
    pub show: bool,
    pub past: Seq<Seq<Cell>>,
    pub off: int,
    pub below: usize,
    pub dirty: bool,
    pub pen: Pen,
    pub inks: Palette,
    pub rows: usize,
    pub cols: usize,
    pub top: usize,
    pub bot: usize,
    pub row: usize,
    pub col: usize,
    pub reply: Seq<u8>,
    pub mark: Option<Mark>,
    pub press: bool,
    pub cell: bool,
    pub ext: bool,
    pub paste: bool,
    pub focus: bool,
    pub shape: Shape,
    pub blink: bool,
    pub phase: bool,
    pub title: Option<Seq<char>>,
}

/// The pen of a fresh grid, and after a reset.
pub open spec fn pen_of(inks: Palette) -> Pen {
    Pen {
        fg: Color::of(inks.fore),
        bg: Color::of(inks.back),
        bold: false,
        slot: None,
        rev: false,
        under: false,
        strike: false,
    }
}

pub open spec fn clamp(x: int, lo: int, hi: int) -> int {
    if x < lo {
        lo
    } else if x > hi {
        hi
    } else {
        x
    }
}

pub open spec fn sat_sub(a: int, b: int) -> int {
    if a >= b {
        a - b
    } else {
        0
    }
}

pub open spec fn min(a: int, b: int) -> int {
    if a <= b {
        a
    } else {
        b
    }
}

pub open spec fn max(a: int, b: int) -> int {
    if a >= b {
        a
    } else {
        b
    }
}

/// `rows` lines of `cols` copies of `c`.
pub open spec fn filled(rows: nat, cols: nat, c: Cell) -> Seq<Seq<Cell>> {
    Seq::new(rows, |_i: int| Seq::new(cols, |_j: int| c))
}

/// A selection one line further up, as lines leave the scrollback.
pub open spec fn lowered(mark: Option<Mark>) -> Option<Mark> {
    match mark {
        Some(((r1, c1), (r2, c2))) => Some(
            ((sat_sub(r1 as int, 1) as usize, c1), (sat_sub(r2 as int, 1) as usize, c2)),
        ),
        None => None,
    }
}

/// The view offset after a line enters a scrollback of `len` lines: a view
/// into the scrollback keeps its place, a view below the bottom snaps back.
pub open spec fn next_off(off: int, len: int) -> int {
    if off > 0 {
        min(off + 1, len)
    } else if off < 0 {
        0
    } else {
        off
    }
}

/// Whether every line has `n` cells.
pub open spec fn all_len(c: Seq<Seq<Cell>>, n: nat) -> bool {
    forall|i: int| 0 <= i < c.len() ==> (#[trigger] c[i]).len() == n
}

/// `k` copies of a line.
pub open spec fn blanks(k: nat, line: Seq<Cell>) -> Seq<Seq<Cell>> {
    Seq::new(k, |_i: int| line)
}

/// Lines `a..=b` move up by `k`; `k` copies of `line` enter at the bottom of that range.
#[verifier::opaque]
pub open spec fn pulled(
    cells: Seq<Seq<Cell>>,
    a: int,
    b: int,
    k: int,
    line: Seq<Cell>,
) -> Seq<Seq<Cell>> {
    cells.subrange(0, a) + cells.subrange(a + k, b + 1) + blanks(k as nat, line) + cells.subrange(
        b + 1,
        cells.len() as int,
    )
}

/// Lines `a..=b` move down by `k`; `k` copies of `line` enter at the top of that range.
#[verifier::opaque]
pub open spec fn pushed(
    cells: Seq<Seq<Cell>>,
    a: int,
    b: int,
    k: int,
    line: Seq<Cell>,
) -> Seq<Seq<Cell>> {
    cells.subrange(0, a) + blanks(k as nat, line) + cells.subrange(a, b + 1 - k) + cells.subrange(
        b + 1,
        cells.len() as int,
    )
}

/// A line whose columns `from..to` hold `c`.
pub open spec fn painted(line: Seq<Cell>, from: int, to: int, c: Cell) -> Seq<Cell> {
    Seq::new(line.len(), |j: int| if from <= j < to { c } else { line[j] })
}

/// Whether cell position `a` comes no later than `b`, line first.
pub open spec fn no_later(a: (usize, usize), b: (usize, usize)) -> bool {
    a.0 < b.0 || (a.0 == b.0 && a.1 <= b.1)
}

/// Whether a cell lies in a selection.
pub open spec fn in_mark(mark: Option<Mark>, row: usize, col: usize) -> bool {
    match mark {
        Some((from, to)) => no_later(from, (row, col)) && no_later((row, col), to),
        None => false,
    }
}

/// The decimal digits of a number, as ASCII.
pub open spec fn decimal(n: nat) -> Seq<u8>
    decreases n,
{
    if n < 10 {
        seq![(48 + n) as u8]
    } else {
        decimal(n / 10).push((48 + n % 10) as u8)
    }
}

/// Parameter `i` of a control sequence, or `d` where it is missing or zero.
pub open spec fn arg(ps: Seq<Seq<u16>>, i: int, d: u16) -> u16 {
    if 0 <= i < ps.len() && ps[i].len() > 0 && ps[i][0] != 0 {
        ps[i][0]
    } else {
        d
    }
}

/// All parameters and sub-parameters, in order.
pub open spec fn flat(ps: Seq<Seq<u16>>) -> Seq<u16>
    decreases ps.len(),
{
    if ps.len() == 0 {
        seq![]
    } else {
        flat(ps.drop_last()) + ps.last()
    }
}

/// The cursor shape that a cursor style number selects.
pub open spec fn shape_of(n: u16) -> Shape {
    if n == 3 || n == 4 {
        Shape::Under
    } else if n == 5 || n == 6 {
        Shape::Bar
    } else {
        Shape::Block
    }
}

/// Whether a cursor style number makes the cursor blink.
pub open spec fn blinks(n: u16) -> bool {
    n == 0 || n == 1 || n == 3 || n == 5
}

/// The pen after selecting palette colour `slot` for the text; bold brightens the eight dark ones.
pub open spec fn inked(pen: Pen, inks: Palette, slot: u8) -> Pen {
    let s = if pen.bold && slot < 8 {
        (slot + 8) as u8
    } else {
        slot
    };
    Pen { fg: dye_of(inks, s), slot: Some(s), ..pen }
}

/// The pen after selecting palette colour `slot` for the background.
pub open spec fn papered(pen: Pen, inks: Palette, slot: u8) -> Pen {
    Pen { bg: dye_of(inks, slot), ..pen }
}

/// The pen after one select-graphic-rendition code other than 38 and 48.
#[verifier::opaque]
pub open spec fn sgr_one(pen: Pen, inks: Palette, v: u16) -> Pen {
    if v == 0 {
        pen_of(inks)
    } else if v == 1 {
        match pen.slot {
            Some(s) if s < 8 => Pen {
                bold: true,
                slot: Some((s + 8) as u8),
                fg: dye_of(inks, (s + 8) as u8),
                ..pen
            },
            _ => Pen { bold: true, ..pen },
        }
    } else if v == 22 {
        match pen.slot {
            Some(s) if s >= 8 => Pen {
                bold: false,
                slot: Some((s - 8) as u8),
                fg: dye_of(inks, (s - 8) as u8),
                ..pen
            },
            _ => Pen { bold: false, ..pen },
        }
    } else if v == 7 {
        Pen { rev: true, ..pen }
    } else if v == 27 {
        Pen { rev: false, ..pen }
    } else if v == 4 {
        Pen { under: true, ..pen }
    } else if v == 24 {
        Pen { under: false, ..pen }
    } else if v == 9 {
        Pen { strike: true, ..pen }
    } else if v == 29 {
        Pen { strike: false, ..pen }
    } else if 30 <= v <= 37 {
        inked(pen, inks, (v - 30) as u8)
    } else if v == 39 {
        Pen { fg: Color::of(inks.fore), slot: None, ..pen }
    } else if 40 <= v <= 47 {
        papered(pen, inks, (v - 40) as u8)
    } else if v == 49 {
        Pen { bg: Color::of(inks.back), ..pen }
    } else if 90 <= v <= 97 {
        inked(pen, inks, (v - 90 + 8) as u8)
    } else if 100 <= v <= 107 {
        papered(pen, inks, (v - 100 + 8) as u8)
    } else {
        pen
    }
}

/// The pen with an extended colour set for the text (`fg`) or the background.
pub open spec fn dyed(pen: Pen, fg: bool, c: Color) -> Pen {
    if fg {
        Pen { fg: c, slot: None, ..pen }
    } else {
        Pen { bg: c, ..pen }
    }
}

/// A parameter as a channel value, saturating at 255.
pub open spec fn byte_of(v: u16) -> u8 {
    if v > 255 {
        255
    } else {
        v as u8
    }
}

/// The pen after the select-graphic-rendition codes from `i` on.
#[verifier::opaque]
pub open spec fn sgr_run(pen: Pen, inks: Palette, f: Seq<u16>, i: int) -> Pen
    decreases f.len() - i,
{
    if i < 0 || i >= f.len() {
        pen
    } else {
        let v = f[i];
        if v == 38 || v == 48 {
            let fg = v == 38;
            if i + 1 < f.len() && f[i + 1] == 5 {
                let p = if i + 2 < f.len() {
                    dyed(pen, fg, dye_of(inks, byte_of(f[i + 2])))
                } else {
                    pen
                };
                sgr_run(p, inks, f, min(i + 3, f.len() as int))
            } else if i + 1 < f.len() && f[i + 1] == 2 {
                let p = if i + 4 < f.len() {
                    dyed(
                        pen,
                        fg,
                        Color::spec_rgb(byte_of(f[i + 2]), byte_of(f[i + 3]), byte_of(f[i + 4])),
                    )
                } else {
                    pen
                };
                sgr_run(p, inks, f, min(i + 5, f.len() as int))
            } else {
                sgr_run(pen, inks, f, i + 1)
            }
        } else {
            sgr_run(sgr_one(pen, inks, v), inks, f, i + 1)
        }
    }
}

/// The codes a select-graphic-rendition sequence applies: a bare one resets.
#[verifier::opaque]
pub open spec fn sgr_codes(ps: Seq<Seq<u16>>) -> Seq<u16> {
    if flat(ps).len() == 0 {
        seq![0]
    } else {
        flat(ps)
    }
}

/// The reply to a mouse event in the SGR encoding.
pub open spec fn sgr_mouse(code: u8, x: nat, y: nat, down: bool) -> Seq<u8> {
    seq![0x1bu8, 0x5b, 0x3c] + decimal(code as nat) + seq![0x3bu8] + decimal(x) + seq![0x3bu8]
        + decimal(y) + seq![if down { 0x4du8 } else { 0x6du8 }]
}

/// The reply to a mouse event in the X10 encoding; each value saturates at 255.
pub open spec fn x10_mouse(code: u8, x: nat, y: nat) -> Seq<u8> {
    seq![
        0x1bu8,
        0x5b,
        0x4d,
        min(32 + code, 255) as u8,
        min(32 + x as int, 255) as u8,
        min(32 + y as int, 255) as u8,
    ]
}

/// The reply to a cursor position report.
pub open spec fn position_reply(row: nat, col: nat) -> Seq<u8> {
    seq![0x1bu8, 0x5b] + decimal(row) + seq![0x3bu8] + decimal(col) + seq![0x52u8]
}

/// The reply to a window size report, in cells.
pub open spec fn size_reply(rows: nat, cols: nat) -> Seq<u8> {
    seq![0x1bu8, 0x5b, 0x38, 0x3b] + decimal(rows) + seq![0x3bu8] + decimal(cols) + seq![0x74u8]
}

/// `ESC [ > 0 ; 10 ; 0 c`
pub open spec fn secondary_attrs() -> Seq<u8> {
    seq![0x1bu8, 0x5b, 0x3e, 0x30, 0x3b, 0x31, 0x30, 0x3b, 0x30, 0x63]
}

/// `ESC [ ? 6 c`
pub open spec fn primary_attrs() -> Seq<u8> {
    seq![0x1bu8, 0x5b, 0x3f, 0x36, 0x63]
}

/// `ESC [ 0 n`
pub open spec fn status_ok() -> Seq<u8> {
    seq![0x1bu8, 0x5b, 0x30, 0x6e]
}

/// `ESC [ I` or `ESC [ O`.
pub open spec fn focus_reply(inside: bool) -> Seq<u8> {
    seq![0x1bu8, 0x5b, if inside { 0x49u8 } else { 0x4fu8 }]
}

/// The text of a line of spans.
pub open spec fn line_text(line: Seq<SpanView>) -> Seq<char>
    decreases line.len(),
{
    if line.len() == 0 {
        seq![]
    } else {
        line_text(line.drop_last()) + line.last().text
    }
}

/// Lines of text joined by newlines.
pub open spec fn joined(lines: Seq<Seq<char>>) -> Seq<char>
    decreases lines.len(),
{
    if lines.len() == 0 {
        seq![]
    } else if lines.len() == 1 {
        lines[0]
    } else {
        joined(lines.drop_last()) + seq!['\n'] + lines.last()
    }
}

/// Lines without the empty lines at their end.
pub open spec fn trimmed(lines: Seq<Seq<SpanView>>) -> Seq<Seq<SpanView>>
    decreases lines.len(),
{
    if lines.len() > 0 && lines.last().len() == 0 {
        trimmed(lines.drop_last())
    } else {
        lines
    }
}

/// Text without the spaces at its end.
pub open spec fn unpadded(text: Seq<char>) -> Seq<char>
    decreases text.len(),
{
    if text.len() > 0 && text.last() == ' ' {
        unpadded(text.drop_last())
    } else {
        text
    }
}

/// The glyphs of some cells.
pub open spec fn glyphs(cells: Seq<Cell>) -> Seq<char> {
    Seq::new(cells.len(), |j: int| cells[j].glyph)
}

/// One more step of a pull: the line at `a` goes, a blank line comes in at `b`.
pub proof fn lemma_pull_step(c: Seq<Seq<Cell>>, a: int, b: int, j: int, line: Seq<Cell>)
    requires
        0 <= a <= b < c.len(),
        0 <= j < b - a + 1,
    ensures
        pulled(c, a, b, j, line).remove(a).insert(b, line) == pulled(c, a, b, j + 1, line),
        pulled(c, a, b, j, line).len() == c.len(),
{
    reveal(pulled);
    reveal(pushed);
    let p = pulled(c, a, b, j, line);
    let q = pulled(c, a, b, j + 1, line);
    assert(p.len() == c.len());
    assert(p.remove(a).insert(b, line) =~= q);
}

/// One more step of a push: the line at `b` goes, a blank line comes in at `a`.
pub proof fn lemma_push_step(c: Seq<Seq<Cell>>, a: int, b: int, j: int, line: Seq<Cell>)
    requires
        0 <= a <= b < c.len(),
        0 <= j < b - a + 1,
    ensures
        pushed(c, a, b, j, line).remove(b).insert(a, line) == pushed(c, a, b, j + 1, line),
        pushed(c, a, b, j, line).len() == c.len(),
{
    reveal(pulled);
    reveal(pushed);
    let p = pushed(c, a, b, j, line);
    let q = pushed(c, a, b, j + 1, line);
    assert(p.len() == c.len());
    assert(p.remove(b).insert(a, line) =~= q);
}

/// Pulling or pushing lines of one length keeps every line that length.
pub proof fn lemma_shift_len(c: Seq<Seq<Cell>>, a: int, b: int, k: int, line: Seq<Cell>, n: nat)
    requires
        0 <= a <= b < c.len(),
        0 <= k <= b - a + 1,
        all_len(c, n),
        line.len() == n,
    ensures
        all_len(pulled(c, a, b, k, line), n),
        all_len(pushed(c, a, b, k, line), n),
        pulled(c, a, b, k, line).len() == c.len(),
        pushed(c, a, b, k, line).len() == c.len(),
{
    reveal(pulled);
    reveal(pushed);
    let p = pulled(c, a, b, k, line);
    let q = pushed(c, a, b, k, line);
    assert forall|i: int| 0 <= i < p.len() implies (#[trigger] p[i]).len() == n by {
        if i < a {
        } else if i < b + 1 - k {
            assert(p[i] == c[i + k]);
        } else if i < b + 1 {
        } else {
            assert(p[i] == c[i]);
        }
    }
    assert forall|i: int| 0 <= i < q.len() implies (#[trigger] q[i]).len() == n by {
        if i < a {
        } else if i < a + k {
        } else if i < b + 1 {
            assert(q[i] == c[i - k]);
        } else {
            assert(q[i] == c[i]);
        }
    }
}

/// Pulling or pushing nothing leaves the lines as they were.
pub proof fn lemma_no_shift(c: Seq<Seq<Cell>>, a: int, b: int, line: Seq<Cell>)
    requires
        0 <= a <= b < c.len(),
    ensures
        pulled(c, a, b, 0, line) == c,
        pushed(c, a, b, 0, line) == c,
{
    reveal(pulled);
    reveal(pushed);
    assert(pulled(c, a, b, 0, line) =~= c);
    assert(pushed(c, a, b, 0, line) =~= c);
}

impl Screen {
    /// What erasing writes: a space in the pen's colours and decorations.
    pub open spec fn blank(self) -> Cell {
        Cell {
            glyph: ' ',
            fg: self.pen.fg,
            bg: self.pen.bg,
            under: self.pen.under,
            strike: self.pen.strike,
            bold: self.pen.bold,
        }
    }

    /// A line of blanks.
    pub open spec fn blank_line(self) -> Seq<Cell> {
        Seq::new(self.cols as nat, |_j: int| self.blank())
    }

    /// How many scrollback lines come before the screen in flat line numbers.
    pub open spec fn base(self) -> int {
        if self.live {
            0
        } else {
            self.past.len() as int
        }
    }

    /// How far below the last line the view may scroll.
    pub open spec fn floor(self) -> int {
        -(self.below as i32)
    }

    /// The shape every grid keeps.
    pub open spec fn wf(self) -> bool {
        &&& self.cells.len() == self.rows
        &&& self.alt.len() == self.rows
        &&& all_len(self.cells, self.cols as nat)
        &&& all_len(self.alt, self.cols as nat)
        &&& self.past.len() <= PAST
        &&& self.rows == 0 ==> self.top == 0 && self.bot == 0
        &&& self.rows > 0 ==> self.top <= self.bot < self.rows
        &&& 0 <= (self.below as i32)
        &&& self.floor() <= self.off <= self.past.len()
        &&& self.row < usize::MAX
        &&& self.save.0 < usize::MAX
    }

    /// Whether flat line numbers fit the 32-bit arithmetic of the view window.
    pub open spec fn fits(self) -> bool {
        &&& self.base() + self.rows <= i32::MAX
        &&& self.base() + self.rows - self.off <= i32::MAX
    }

    /// The grid after a resize: fresh blank screens, cursor home, full scroll region.
    #[verifier::opaque]
    pub open spec fn resized(self, rows: usize, cols: usize) -> Screen {
        let fill = self.blank();
        Screen {
            cells: filled(rows as nat, cols as nat, fill),
            alt: filled(rows as nat, cols as nat, fill),
            rows,
            cols,
            row: 0,
            col: 0,
            top: 0,
            bot: sat_sub(rows as int, 1) as usize,
            dirty: true,
            mark: None,
            off: clamp(self.off, self.floor(), self.past.len() as int),
            ..self
        }
    }

    /// A grid of the given size, scroll limit and palette.
    pub open spec fn started(rows: usize, cols: usize, below: usize, inks: Palette) -> Screen {
        Screen {
            cells: seq![],
            alt: seq![],
            live: false,
            save: (0, 0),
            show: true,
            past: seq![],
            off: 0,
            below,
            dirty: false,
            pen: pen_of(inks),
            inks,
            rows: 0,
            cols: 0,
            top: 0,
            bot: 0,
            row: 0,
            col: 0,
            reply: seq![],
            mark: None,
            press: false,
            cell: false,
            ext: false,
            paste: false,
            focus: false,
            shape: Shape::Block,
            blink: false,
            phase: true,
            title: None,
        }.resized(rows, cols)
    }

    /// The cursor as `Grid::cursor` reports it.
    pub open spec fn cursor(self) -> (usize, usize, bool, bool) {
        (self.row, self.col, self.live, self.show)
    }

    /// The first and one-past-last flat line in view.
    pub open spec fn window(self) -> (int, int) {
        let total = self.base() + self.rows;
        let end = total - self.off;
        let stop = clamp(end, 0, total);
        let start = min(max(end - self.rows, 0), stop);
        (start, stop)
    }

    /// Flat line `i`: scrollback first, then the screen.
    pub open spec fn line(self, i: int) -> Seq<Cell> {
        if !self.live && i < self.past.len() {
            self.past[i]
        } else {
            self.cells[i - self.base()]
        }
    }

    /// The flat cell under a cell of the view, if the view shows a line there.
    pub open spec fn at(self, vrow: usize, vcol: usize) -> Option<(usize, usize)> {
        if self.cols == 0 {
            None
        } else {
            let (start, stop) = self.window();
            if vrow < stop - start {
                Some(((start + vrow) as usize, min(vcol as int, self.cols - 1) as usize))
            } else {
                None
            }
        }
    }

    /// The grid after selecting from one cell to another, in either order.
    pub open spec fn selecting(self, from: (usize, usize), to: (usize, usize)) -> Screen {
        let mark = if no_later(from, to) {
            Some((from, to))
        } else {
            Some((to, from))
        };
        Screen { mark, dirty: self.dirty || self.mark != mark, ..self }
    }

    /// The grid with a line's columns `from..min(to, cols)` erased.
    #[verifier::opaque]
    pub open spec fn wiped(self, row: int, from: int, to: int) -> Screen {
        let to = min(to, self.cols as int);
        let fill = self.blank();
        let changed = exists|j: int| from <= j < to && #[trigger] self.cells[row][j] != fill;
        Screen {
            cells: self.cells.update(row, painted(self.cells[row], from, to, fill)),
            dirty: self.dirty || changed,
            ..self
        }
    }

    /// The grid with lines `lo..hi` erased whole, one after the other.
    #[verifier::opaque]
    pub open spec fn wiped_rows(self, lo: int, hi: int) -> Screen
        decreases hi - lo,
    {
        if lo >= hi {
            self
        } else {
            self.wiped(lo, 0, self.cols as int).wiped_rows(lo + 1, hi)
        }
    }

    /// The grid after moving the view `whole` lines into the scrollback
    /// (negative: past the bottom); the alternate screen does not scroll.
    pub open spec fn wheeled(self, whole: int) -> Screen {
        if self.live {
            self
        } else {
            let off = clamp(self.off + whole, self.floor(), self.past.len() as int);
            Screen { off, dirty: off != self.off, ..self }
        }
    }

    /// The scroll region moved up `n` lines, at most its height.
    #[verifier::opaque]
    pub open spec fn lifted(self, n: int) -> Screen {
        let k = min(n, self.bot - self.top + 1);
        Screen {
            cells: pulled(self.cells, self.top as int, self.bot as int, k, self.blank_line()),
            dirty: true,
            mark: None,
            ..self
        }
    }

    /// The scroll region moved down `n` lines, at most its height.
    #[verifier::opaque]
    pub open spec fn dropped(self, n: int) -> Screen {
        let k = min(n, self.bot - self.top + 1);
        Screen {
            cells: pushed(self.cells, self.top as int, self.bot as int, k, self.blank_line()),
            dirty: true,
            mark: None,
            ..self
        }
    }

    /// A new line at the bottom: the alternate screen and a partial scroll
    /// region lose their top line; a full screen hands it to the scrollback.
    #[verifier::opaque]
    pub open spec fn scrolled(self) -> Screen {
        if self.live {
            Screen {
                cells: self.cells.drop_first().push(self.blank_line()),
                row: (self.rows - 1) as usize,
                mark: None,
                ..self
            }
        } else if self.top > 0 || self.bot + 1 < self.rows {
            Screen { row: self.bot, ..self.lifted(1) }
        } else {
            let past = self.past.push(self.cells[0]);
            let full = past.len() > PAST;
            let past2 = if full {
                past.drop_first()
            } else {
                past
            };
            let mark = if full {
                lowered(self.mark)
            } else {
                self.mark
            };
            let off = next_off(self.off, past2.len() as int);
            Screen {
                past: past2,
                mark,
                off,
                cells: self.cells.drop_first().push(self.blank_line()),
                row: (self.rows - 1) as usize,
                ..self
            }
        }
    }

    /// The cursor one line down, scrolling at the bottom of the region;
    /// the flag says whether it scrolled.
    #[verifier::opaque]
    pub open spec fn down(self) -> (Screen, bool) {
        if self.row + 1 > self.bot {
            (self.scrolled(), true)
        } else {
            (Screen { row: (self.row + 1) as usize, ..self }, false)
        }
    }

    /// The cell that printing `c` writes.
    pub open spec fn ink_cell(self, c: char) -> Cell {
        Cell {
            glyph: c,
            fg: if self.pen.rev {
                self.pen.bg
            } else {
                self.pen.fg
            },
            bg: if self.pen.rev {
                self.pen.fg
            } else {
                self.pen.bg
            },
            under: self.pen.under,
            strike: self.pen.strike,
            bold: self.pen.bold,
        }
    }

    /// The grid after printing a character: past the last column it wraps to a new line first.
    #[verifier::opaque]
    pub open spec fn printed(self, c: char) -> Screen {
        let w = self.wrapped();
        w.0.put(self.ink_cell(c), w.1)
    }

    /// The grid with a cell written at the cursor and the cursor one column
    /// on; it needs redrawing if the screen moved or the cell changed.
    #[verifier::opaque]
    pub open spec fn put(self, fill: Cell, moved: bool) -> Screen {
        let r = self.row as int;
        let k = self.col as int;
        Screen {
            cells: self.cells.update(r, self.cells[r].update(k, fill)),
            dirty: self.dirty || moved || self.cells[r][k] != fill,
            col: (self.col + 1) as usize,
            ..self
        }
    }

    /// The cursor moved to the start of the next line if it stands past the
    /// last column; the flag says whether the screen scrolled.
    #[verifier::opaque]
    pub open spec fn wrapped(self) -> (Screen, bool) {
        if self.col >= self.cols {
            let (d, m) = self.down();
            (Screen { col: 0, ..d }, m)
        } else {
            (self, false)
        }
    }

    /// The grid after a line feed.
    pub open spec fn fed(self) -> Screen {
        let (s, m) = self.down();
        Screen { dirty: s.dirty || m, ..s }
    }

    /// The column a tab moves to.
    pub open spec fn tab_stop(self) -> int {
        (self.col / 8 + 1) * min(8, sat_sub(self.cols as int, 1))
    }

    /// The grid after a control byte.
    #[verifier::opaque]
    pub open spec fn executed(self, byte: u8) -> Screen {
        if byte == 10 || byte == 11 || byte == 12 {
            self.fed()
        } else if byte == 13 {
            Screen { col: 0, ..self }
        } else if byte == 8 {
            Screen { col: sat_sub(self.col as int, 1) as usize, ..self }
        } else if byte == 9 {
            Screen { col: self.tab_stop() as usize, ..self }
        } else {
            self
        }
    }

    /// The grid after switching to the alternate screen, cleared if asked.
    #[verifier::opaque]
    pub open spec fn entered(self, clear: bool) -> Screen {
        if self.live {
            self
        } else {
            let fill = self.blank();
            Screen {
                save: (self.row, self.col),
                cells: if clear {
                    Seq::new(self.alt.len(), |i: int| Seq::new(self.alt[i].len(), |_j: int| fill))
                } else {
                    self.alt
                },
                alt: self.cells,
                row: 0,
                col: 0,
                off: 0,
                top: 0,
                bot: sat_sub(self.rows as int, 1) as usize,
                live: true,
                dirty: true,
                mark: None,
                ..self
            }
        }
    }

    /// The grid after switching back to the main screen, with its cursor.
    #[verifier::opaque]
    pub open spec fn exited(self) -> Screen {
        if !self.live {
            self
        } else {
            Screen {
                cells: self.alt,
                alt: self.cells,
                row: self.save.0,
                col: self.save.1,
                live: false,
                top: 0,
                bot: sat_sub(self.rows as int, 1) as usize,
                off: 0,
                dirty: true,
                mark: None,
                ..self
            }
        }
    }

    /// The grid after setting (`h`) or resetting (`l`) one private mode.
    #[verifier::opaque]
    pub open spec fn set_mode(self, p: u16, set: bool) -> Screen {
        if p == 1047 || p == 1049 {
            if set {
                self.entered(p == 1049)
            } else {
                self.exited()
            }
        } else {
            self.flagged(p, set)
        }
    }

    /// The grid after setting or resetting a mode that is a flag: cursor
    /// shown (25), button reports (1000), drag reports (1002), SGR mouse
    /// encoding (1006), bracketed paste (2004), focus reports (1004).
    pub open spec fn flagged(self, p: u16, set: bool) -> Screen {
        Screen {
            show: if p == 25 {
                set
            } else {
                self.show
            },
            dirty: self.dirty || p == 25,
            press: if p == 1000 {
                set
            } else {
                self.press
            },
            cell: if p == 1002 {
                set
            } else {
                self.cell
            },
            ext: if p == 1006 {
                set
            } else {
                self.ext
            },
            paste: if p == 2004 {
                set
            } else {
                self.paste
            },
            focus: if p == 1004 {
                set
            } else {
                self.focus
            },
            ..self
        }
    }

    /// The grid after the private modes from `i` on.
    #[verifier::opaque]
    pub open spec fn set_modes(self, f: Seq<u16>, i: int, set: bool) -> Screen
        decreases f.len() - i,
    {
        if i < 0 || i >= f.len() {
            self
        } else {
            self.set_mode(f[i], set).set_modes(f, i + 1, set)
        }
    }

    /// The grid with more bytes to send back.
    pub open spec fn answered(self, bytes: Seq<u8>) -> Screen {
        Screen { reply: self.reply + bytes, ..self }
    }

    /// The grid after a mouse report.
    pub open spec fn reported(self, code: u8, row: usize, col: usize, down: bool) -> Screen {
        let x = col + 1;
        let y = row + 1;
        if self.ext {
            self.answered(sgr_mouse(code, x as nat, y as nat, down))
        } else {
            self.answered(x10_mouse(code, x as nat, y as nat))
        }
    }

    /// The grid after `ESC [ ... action`, with parameters `ps` and intermediate bytes `mid`.
    #[verifier::opaque]
    pub open spec fn csi(self, ps: Seq<Seq<u16>>, mid: Seq<u8>, action: char) -> Screen {
        if action == 'A' || action == 'B' || action == 'C' || action == 'D' || action == 'E'
            || action == 'F' || action == 'G' || action == 'H' || action == 'f' || action == 'd' {
            self.cursor_moved(ps, action)
        } else if action == 'J' {
            self.display_erased(ps)
        } else if action == 'K' {
            self.line_erased(ps)
        } else if action == 'X' {
            self.chars_erased(ps)
        } else if action == 'q' {
            self.styled_cursor(ps, mid)
        } else if action == 'r' {
            self.region_set(ps)
        } else if action == 'S' {
            self.lifted(arg(ps, 0, 1) as int)
        } else if action == 'T' {
            self.dropped(arg(ps, 0, 1) as int)
        } else if action == 'L' {
            self.lines_inserted(ps)
        } else if action == 'M' {
            self.lines_deleted(ps)
        } else if action == 'm' {
            self.rendered(ps, mid)
        } else if action == 'c' {
            self.attrs_answered(mid)
        } else if action == 'n' {
            self.status_answered(ps)
        } else if action == 't' {
            self.size_answered(ps)
        } else if action == 'h' || action == 'l' {
            self.modes_set(ps, mid, action == 'h')
        } else {
            self
        }
    }

    /// Whether `csi` can act: the grid has a cell, the cursor's line exists
    /// where it is read or written, and the cursor arithmetic stays in range.
    pub open spec fn csi_ok(self, ps: Seq<Seq<u16>>, action: char) -> bool {
        &&& self.rows > 0
        &&& self.cols > 0
        &&& Screen::csi_at_row(ps, action) ==> self.row < self.rows
        &&& (action == 'B' || action == 'E') ==> self.row + arg(ps, 0, 1) <= usize::MAX
        &&& action == 'C' ==> self.col + arg(ps, 0, 1) <= usize::MAX
        &&& action == 'X' ==> min(self.col as int, self.cols - 1) + arg(ps, 0, 1) <= usize::MAX
    }

    /// The cursor after a cursor movement: up, down, right, left, next line,
    /// previous line, column, cell, line. Up and down stop at the scroll region.
    #[verifier::opaque]
    pub open spec fn cursor_moved(self, ps: Seq<Seq<u16>>, action: char) -> Screen {
        let t = self.cursor_target(ps, action);
        Screen { row: t.0, col: t.1, ..self }
    }

    /// Where a cursor movement takes the cursor: line and column.
    pub open spec fn cursor_target(self, ps: Seq<Seq<u16>>, action: char) -> (usize, usize) {
        let maxc = self.cols - 1;
        let a0 = arg(ps, 0, 1) as int;
        let up = max(sat_sub(self.row as int, a0), self.top as int) as usize;
        let down = min(self.row + a0, self.bot as int) as usize;
        let line = clamp(sat_sub(a0, 1), self.top as int, self.bot as int) as usize;
        if action == 'A' {
            (up, self.col)
        } else if action == 'B' {
            (down, self.col)
        } else if action == 'C' {
            (self.row, min(self.col + a0, maxc) as usize)
        } else if action == 'D' {
            (self.row, sat_sub(self.col as int, a0) as usize)
        } else if action == 'E' {
            (down, 0)
        } else if action == 'F' {
            (up, 0)
        } else if action == 'G' {
            (self.row, min(sat_sub(a0, 1), maxc) as usize)
        } else if action == 'H' || action == 'f' {
            (line, min(sat_sub(arg(ps, 1, 1) as int, 1), maxc) as usize)
        } else {
            (line, self.col)
        }
    }

    /// The cursor column clamped to the last column.
    pub open spec fn edge(self) -> int {
        min(self.col as int, self.cols - 1)
    }

    /// Erase in display: above the cursor (1), all (2, 3), or below it.
    #[verifier::opaque]
    pub open spec fn display_erased(self, ps: Seq<Seq<u16>>) -> Screen {
        let n = arg(ps, 0, 0);
        if n == 1 {
            self.wiped_rows(0, self.row as int).wiped(self.row as int, 0, self.edge() + 1)
        } else if n == 2 || n == 3 {
            self.wiped_rows(0, self.rows as int)
        } else {
            self.wiped(self.row as int, self.edge(), self.cols as int).wiped_rows(
                self.row + 1,
                self.rows as int,
            )
        }
    }

    /// Erase in line: left of the cursor (1), all (2), or right of it.
    #[verifier::opaque]
    pub open spec fn line_erased(self, ps: Seq<Seq<u16>>) -> Screen {
        let n = arg(ps, 0, 0);
        if n == 1 {
            self.wiped(self.row as int, 0, self.edge() + 1)
        } else if n == 2 {
            self.wiped(self.row as int, 0, self.cols as int)
        } else {
            self.wiped(self.row as int, self.edge(), self.cols as int)
        }
    }

    /// Erase characters from the cursor on.
    pub open spec fn chars_erased(self, ps: Seq<Seq<u16>>) -> Screen {
        self.wiped(self.row as int, self.edge(), self.edge() + arg(ps, 0, 1))
    }

    /// Cursor style (`ESC [ n SP q`): shape, blinking, and the blink phase on.
    #[verifier::opaque]
    pub open spec fn styled_cursor(self, ps: Seq<Seq<u16>>, mid: Seq<u8>) -> Screen {
        if mid == seq![0x20u8] {
            let n = arg(ps, 0, 0);
            Screen { shape: shape_of(n), blink: blinks(n), phase: true, dirty: true, ..self }
        } else {
            self
        }
    }

    /// Set the scroll region; a region of fewer than two lines, or past the
    /// screen, is ignored.
    #[verifier::opaque]
    pub open spec fn region_set(self, ps: Seq<Seq<u16>>) -> Screen {
        let top = sat_sub(arg(ps, 0, 1) as int, 1);
        let bot = sat_sub(arg(ps, 1, self.rows as u16) as int, 1);
        if top < bot && bot < self.rows {
            Screen { top: top as usize, bot: bot as usize, row: top as usize, col: 0, ..self }
        } else {
            self
        }
    }

    /// The cursor's line within the scroll region.
    pub open spec fn region_row(self) -> int {
        clamp(self.row as int, self.top as int, self.bot as int)
    }

    /// Insert lines at the cursor's line, pushing the region below it down.
    #[verifier::opaque]
    pub open spec fn lines_inserted(self, ps: Seq<Seq<u16>>) -> Screen {
        let row = self.region_row();
        let k = min(arg(ps, 0, 1) as int, self.bot - row + 1);
        Screen {
            cells: pushed(self.cells, row, self.bot as int, k, self.blank_line()),
            dirty: true,
            mark: None,
            ..self
        }
    }

    /// Delete lines at the cursor's line, pulling the region below it up.
    #[verifier::opaque]
    pub open spec fn lines_deleted(self, ps: Seq<Seq<u16>>) -> Screen {
        let row = self.region_row();
        let k = min(arg(ps, 0, 1) as int, self.bot - row + 1);
        Screen {
            cells: pulled(self.cells, row, self.bot as int, k, self.blank_line()),
            dirty: true,
            mark: None,
            ..self
        }
    }

    /// Select graphic rendition; with intermediate bytes it is not ours and is ignored.
    #[verifier::opaque]
    pub open spec fn rendered(self, ps: Seq<Seq<u16>>, mid: Seq<u8>) -> Screen {
        if mid.len() == 0 {
            Screen { pen: sgr_run(self.pen, self.inks, sgr_codes(ps), 0), ..self }
        } else {
            self
        }
    }

    /// Device attributes: secondary with `>`, primary otherwise.
    pub open spec fn attrs_answered(self, mid: Seq<u8>) -> Screen {
        if mid.contains(0x3eu8) {
            self.answered(secondary_attrs())
        } else {
            self.answered(primary_attrs())
        }
    }

    /// Device status: "all well" (5) or the cursor position (6).
    pub open spec fn status_answered(self, ps: Seq<Seq<u16>>) -> Screen {
        let n = arg(ps, 0, 0);
        if n == 5 {
            self.answered(status_ok())
        } else if n == 6 {
            self.answered(
                position_reply(
                    (min(self.row as int, self.rows - 1) + 1) as nat,
                    (self.edge() + 1) as nat,
                ),
            )
        } else {
            self
        }
    }

    /// Window operations: only the size in cells (18) is answered.
    pub open spec fn size_answered(self, ps: Seq<Seq<u16>>) -> Screen {
        if arg(ps, 0, 0) == 18 {
            self.answered(size_reply(self.rows as nat, self.cols as nat))
        } else {
            self
        }
    }

    /// Private modes set or reset; without `?` the sequence is ignored.
    pub open spec fn modes_set(self, ps: Seq<Seq<u16>>, mid: Seq<u8>, set: bool) -> Screen {
        if mid.contains(0x3fu8) {
            self.set_modes(flat(ps), 0, set)
        } else {
            self
        }
    }

    /// Whether `csi` reads or writes the cursor's line, which must then exist.
    pub open spec fn csi_at_row(ps: Seq<Seq<u16>>, action: char) -> bool {
        ||| action == 'J' && !(arg(ps, 0, 0) == 2 || arg(ps, 0, 0) == 3)
        ||| action == 'K'
        ||| action == 'X'
    }

    /// The runs that a line of the view breaks into.
    ///
    /// Trailing cells that look empty are left out, unless the cursor stands
    /// on or after them; the cursor's cell shows the shape's glyph while the
    /// blink phase is on; selected cells swap their colours; neighbouring cells
    /// of one look share a run.
    pub open spec fn runs(self, flat: int, row: Seq<Cell>, cur: Option<usize>) -> Seq<SpanView> {
        self.runs_upto(flat, row, cur, self.run_end(flat, row, cur))
    }

    /// Whether a cell of a line can be left off its end.
    pub open spec fn faint(self, flat: int, row: Seq<Cell>, j: int) -> bool {
        let c = row[j];
        c.glyph == ' ' && c.bg == Color::of(self.inks.back) && !c.under && !c.strike
            && !in_mark(self.mark, flat as usize, j as usize)
    }

    /// The end of a line once its faint tail is left off.
    pub open spec fn trail(self, flat: int, row: Seq<Cell>, e: int) -> int
        decreases e,
    {
        if e > 0 && self.faint(flat, row, e - 1) {
            self.trail(flat, row, e - 1)
        } else {
            e
        }
    }

    /// How many cells of a line its runs cover.
    pub open spec fn run_end(self, flat: int, row: Seq<Cell>, cur: Option<usize>) -> int {
        let e = self.trail(flat, row, row.len() as int);
        match cur {
            Some(c) => max(e, min(c + 1, row.len() as int)),
            None => e,
        }
    }

    /// The span that a single cell of a line starts.
    pub open spec fn cell_span(self, flat: int, row: Seq<Cell>, cur: Option<usize>, i: int) -> SpanView {
        let cell = row[i];
        let glyph = if cur == Some(i as usize) && (!self.blink || self.phase) {
            mark_of(self.shape)
        } else {
            cell.glyph
        };
        let flip = in_mark(self.mark, flat as usize, i as usize);
        let back_color = Color::of(self.inks.back);
        SpanView {
            hue: if flip {
                cell.bg
            } else {
                cell.fg
            },
            back: if flip {
                if cell.fg == back_color {
                    None
                } else {
                    Some(cell.fg)
                }
            } else if cell.bg == back_color {
                None
            } else {
                Some(cell.bg)
            },
            text: seq![glyph],
            under: cell.under,
            strike: cell.strike,
            bold: cell.bold,
            col: i as usize,
        }
    }

    /// The runs of the first `k` cells of a line.
    pub open spec fn runs_upto(self, flat: int, row: Seq<Cell>, cur: Option<usize>, k: int) -> Seq<
        SpanView,
    >
        decreases k,
    {
        if k <= 0 {
            seq![]
        } else {
            let prev = self.runs_upto(flat, row, cur, k - 1);
            let s = self.cell_span(flat, row, cur, k - 1);
            if prev.len() > 0 && prev.last().hue == s.hue && prev.last().back == s.back
                && prev.last().under == s.under && prev.last().strike == s.strike
                && prev.last().bold == s.bold {
                prev.update(
                    prev.len() - 1,
                    SpanView { text: prev.last().text + s.text, ..prev.last() },
                )
            } else {
                prev.push(s)
            }
        }
    }

    /// Where the cursor shows, by flat line and column, if it shows.
    pub open spec fn cursor_at(self) -> Option<(int, usize)> {
        if self.show && self.off == 0 {
            Some((self.base() + self.row, min(self.col as int, sat_sub(self.cols as int, 1)) as usize))
        } else {
            None
        }
    }

    /// The cursor column on flat line `i`, if the cursor shows there.
    pub open spec fn cursor_on(self, i: int) -> Option<usize> {
        match self.cursor_at() {
            Some((r, c)) if r == i => Some(c),
            _ => None,
        }
    }

    /// The runs of the lines in view, before empty lines at the end are dropped.
    pub open spec fn view_lines(self) -> Seq<Seq<SpanView>> {
        let (start, stop) = self.window();
        Seq::new(
            (stop - start) as nat,
            |k: int| self.runs(start + k, self.line(start + k), self.cursor_on(start + k)),
        )
    }

    /// What the view shows: its lines of runs with empty lines at the end
    /// dropped, then an empty line for each line scrolled past the bottom.
    pub open spec fn spans(self) -> Seq<Seq<SpanView>> {
        let pad = min(max(-self.off, 0), self.rows as int);
        trimmed(self.view_lines()) + Seq::new(pad as nat, |_k: int| Seq::<SpanView>::empty())
    }

    /// The text of what the view shows, lines joined by newlines.
    pub open spec fn text(self) -> Seq<char> {
        joined(Seq::new(self.spans().len(), |k: int| line_text(self.spans()[k])))
    }

    /// The last flat line a selection ending on line `r2` reads.
    pub open spec fn mark_stop(self, r2: usize) -> int {
        min(r2 as int, sat_sub(self.base() + self.rows, 1))
    }

    /// The part of flat line `i` that a selection covers.
    pub open spec fn mark_piece(self, i: int) -> Seq<Cell> {
        let ((r1, c1), (r2, c2)) = self.mark.unwrap();
        let row = self.line(i);
        let from = if i == r1 {
            min(c1 as int, row.len() as int)
        } else {
            0
        };
        let to = if i == r2 {
            min(c2 + 1, row.len() as int)
        } else {
            row.len() as int
        };
        row.subrange(from, to)
    }

    /// Whether reading the selection can go through: each line's piece must
    /// not end before it starts, and the last column must have a successor.
    pub open spec fn can_select(self) -> bool {
        match self.mark {
            None => true,
            Some(((r1, c1), (r2, c2))) => {
                let stop = self.mark_stop(r2);
                let total = self.base() + self.rows;
                forall|i: int|
                    r1 <= i <= stop && i < total ==> {
                        let row = #[trigger] self.line(i);
                        &&& i == r2 ==> c2 < usize::MAX
                        &&& (if i == r1 {
                            min(c1 as int, row.len() as int)
                        } else {
                            0
                        }) <= (if i == r2 {
                            min(c2 + 1, row.len() as int)
                        } else {
                            row.len() as int
                        })
                    }
            },
        }
    }

    /// The selected text: each selected line's glyphs without trailing
    /// spaces, joined by newlines; nothing when there is no selection.
    pub open spec fn selected(self) -> Seq<char> {
        match self.mark {
            None => seq![],
            Some(((r1, c1), (r2, c2))) => {
                let stop = min(self.mark_stop(r2), self.base() + self.rows - 1);
                let n = max(stop - r1 + 1, 0);
                joined(Seq::new(n as nat, |k: int| unpadded(glyphs(self.mark_piece(r1 + k)))))
            },
        }
    }
}


/// Printing where the cursor stands inside its line writes the inked
/// character there and moves the cursor one column on; every other cell
/// stays as it was.
pub proof fn law_print_writes_cell(s: Screen, c: char)
    requires
        s.wf(),
        s.row < s.rows,
        s.col < s.cols,
    ensures
        s.printed(c).cells[s.row as int][s.col as int] == s.ink_cell(c),
        s.printed(c).row == s.row,
        s.printed(c).col == s.col + 1,
        s.printed(c).cells.len() == s.cells.len(),
        s.cells[s.row as int][s.col as int] == s.ink_cell(c) ==> s.printed(c).dirty == s.dirty,
        forall|i: int, j: int|
            0 <= i < s.rows && 0 <= j < s.cols && (i != s.row || j != s.col) ==> #[trigger] s.printed(
                c,
            ).cells[i][j] == s.cells[i][j],
{
    reveal(Screen::printed);
    reveal(Screen::put);
    reveal(Screen::wrapped);
}

/// Leaving the alternate screen after entering it brings back the main
/// screen as it was, with the cursor where it stood and the history in view.
pub proof fn law_alt_screen_round_trip(s: Screen, clear: bool)
    requires
        !s.live,
    ensures
        s.entered(clear).exited().cells == s.cells,
        s.entered(clear).exited().row == s.row,
        s.entered(clear).exited().col == s.col,
        !s.entered(clear).exited().live,
        s.entered(clear).exited().past == s.past,
        s.entered(clear).exited().off == 0,
{
    reveal(Screen::entered);
    reveal(Screen::exited);
}

/// The wheel never takes the view out of the history, and scrolling back by
/// the lines just scrolled returns to the same place when no end was met.
pub proof fn law_wheel_stays_and_undoes(s: Screen, k: int)
    requires
        s.wf(),
    ensures
        s.wheeled(k).floor() <= s.wheeled(k).off <= s.wheeled(k).past.len(),
        s.floor() <= s.off + k <= s.past.len() ==> s.wheeled(k).wheeled(-k).off == s.off,
{
}

/// A selection is the same whichever end it was dragged from.
pub proof fn law_selection_either_way(s: Screen, a: (usize, usize), b: (usize, usize))
    ensures
        s.selecting(a, b).mark == s.selecting(b, a).mark,
{
}

/// A resize gives blank screens of the new size with the cursor home and
/// the history kept.
pub proof fn law_resize_blanks(s: Screen, rows: usize, cols: usize)
    ensures
        s.resized(rows, cols).cells == filled(rows as nat, cols as nat, s.blank()),
        s.resized(rows, cols).row == 0,
        s.resized(rows, cols).col == 0,
        s.resized(rows, cols).past == s.past,
        s.resized(rows, cols).rows == rows,
        s.resized(rows, cols).cols == cols,
{
    reveal(Screen::resized);
}


/// A line scrolled off the top of the whole main screen goes to the end of
/// the history, which keeps at most `PAST` lines, dropping its oldest; in
/// the alternate screen, or inside a scroll region, the history stays as it is.
pub proof fn law_scroll_feeds_history(s: Screen)
    requires
        s.wf(),
        s.rows > 0,
    ensures
        (s.live || s.top > 0 || s.bot + 1 < s.rows) ==> s.scrolled().past == s.past,
        !(s.live || s.top > 0 || s.bot + 1 < s.rows) ==> {
            &&& s.scrolled().past.len() <= PAST
            &&& s.scrolled().past.last() == s.cells[0]
            &&& s.past.len() < PAST ==> s.scrolled().past == s.past.push(s.cells[0])
            &&& s.past.len() == PAST ==> s.scrolled().past == s.past.drop_first().push(s.cells[0])
        },
{
    reveal(Screen::scrolled);
    reveal(Screen::lifted);
    if !(s.live || s.top > 0 || s.bot + 1 < s.rows) && s.past.len() == PAST {
        assert(s.past.push(s.cells[0]).drop_first() =~= s.past.drop_first().push(s.cells[0]));
    }
}


/// A line feed above the bottom of the scroll region moves the cursor one
/// line down and leaves the screen as clean as it was; at the bottom it
/// scrolls and the screen needs redrawing.
pub proof fn law_newline_dirties_only_on_scroll(s: Screen)
    ensures
        s.row + 1 <= s.bot ==> s.fed() == (Screen { row: (s.row + 1) as usize, ..s }),
        s.row + 1 > s.bot ==> s.fed().dirty,
{
    reveal(Screen::down);
}

/// Erasing cells that are already blank changes nothing, not even whether
/// the screen needs redrawing.
pub proof fn law_clean_erase_stays_clean(s: Screen, row: int, from: int, to: int)
    requires
        0 <= row < s.cells.len(),
        s.cells[row].len() == s.cols,
        0 <= from,
        forall|j: int| from <= j < min(to, s.cols as int) ==> #[trigger] s.cells[row][j] == s.blank(),
    ensures
        s.wiped(row, from, to) == s,
{
    reveal(Screen::wiped);
    let t = s.wiped(row, from, to);
    assert(painted(s.cells[row], from, min(to, s.cols as int), s.blank()) =~= s.cells[row]);
    assert(t.cells =~= s.cells);
}


/// Cursor addressing lands inside the scroll region and the columns; moving
/// up or down from inside the region stays inside it; moves across stay
/// within the columns.
pub proof fn law_cursor_stays_in_region(s: Screen, ps: Seq<Seq<u16>>, action: char)
    requires
        s.wf(),
        s.rows > 0,
        s.cols > 0,
    ensures
        (action == 'H' || action == 'f' || action == 'd') ==> s.top <= s.cursor_target(ps, action).0
            <= s.bot,
        (action == 'H' || action == 'f' || action == 'G' || action == 'E' || action == 'F')
            ==> s.cursor_target(ps, action).1 < s.cols,
        action == 'C' && s.col < s.cols ==> s.cursor_target(ps, action).1 < s.cols,
        (action == 'A' || action == 'B' || action == 'E' || action == 'F') && s.top <= s.row
            <= s.bot ==> s.top <= s.cursor_target(ps, action).0 <= s.bot,
{
}


impl Screen {
    /// The cursor and the scroll region lie on the screen, and so does the
    /// saved cursor line while the alternate screen is in use.
    pub open spec fn cursor_inside(self) -> bool {
        &&& self.rows > 0
        &&& self.top <= self.bot < self.rows
        &&& self.row < self.rows
        &&& self.live ==> self.save.0 < self.rows
    }
}

proof fn lemma_wiped_keeps(s: Screen, row: int, from: int, to: int)
    ensures
        s.wiped(row, from, to) == (Screen { cells: s.wiped(row, from, to).cells, dirty: s.wiped(
            row,
            from,
            to,
        ).dirty, ..s }),
{
    reveal(Screen::wiped);
}

proof fn lemma_wiped_rows_keeps(s: Screen, lo: int, hi: int)
    ensures
        s.wiped_rows(lo, hi) == (Screen {
            cells: s.wiped_rows(lo, hi).cells,
            dirty: s.wiped_rows(lo, hi).dirty,
            ..s
        }),
    decreases hi - lo,
{
    reveal(Screen::wiped_rows);
    if lo < hi {
        let w = s.wiped(lo, 0, s.cols as int);
        lemma_wiped_keeps(s, lo, 0, s.cols as int);
        lemma_wiped_rows_keeps(w, lo + 1, hi);
    }
}

proof fn lemma_modes_keep_cursor(s: Screen, f: Seq<u16>, i: int, set: bool)
    requires
        s.cursor_inside(),
    ensures
        s.set_modes(f, i, set).cursor_inside(),
        s.set_modes(f, i, set).rows == s.rows,
        s.set_modes(f, i, set).cols == s.cols,
    decreases f.len() - i,
{
    reveal(Screen::set_modes);
    if 0 <= i < f.len() {
        let t = s.set_mode(f[i], set);
        reveal(Screen::set_mode);
        reveal(Screen::entered);
        reveal(Screen::exited);
        assert(t.cursor_inside() && t.rows == s.rows && t.cols == s.cols);
        lemma_modes_keep_cursor(t, f, i + 1, set);
    }
}

/// Whatever control sequence comes, the cursor stays on the screen, the
/// scroll region too, and the cursor line saved for leaving the alternate
/// screen stays on it while that screen is in use; the size does not change.
pub proof fn law_csi_keeps_cursor_inside(s: Screen, ps: Seq<Seq<u16>>, mid: Seq<u8>, action: char)
    requires
        s.cursor_inside(),
    ensures
        s.csi(ps, mid, action).cursor_inside(),
        s.csi(ps, mid, action).rows == s.rows,
        s.csi(ps, mid, action).cols == s.cols,
{
    reveal(Screen::csi);
    reveal(Screen::cursor_moved);
    reveal(Screen::display_erased);
    reveal(Screen::line_erased);
    reveal(Screen::styled_cursor);
    reveal(Screen::region_set);
    reveal(Screen::lifted);
    reveal(Screen::dropped);
    reveal(Screen::lines_inserted);
    reveal(Screen::lines_deleted);
    reveal(Screen::rendered);
    let n = arg(ps, 0, 0);
    lemma_wiped_rows_keeps(s, 0, s.row as int);
    lemma_wiped_keeps(s.wiped_rows(0, s.row as int), s.row as int, 0, s.edge() + 1);
    lemma_wiped_rows_keeps(s, 0, s.rows as int);
    lemma_wiped_keeps(s, s.row as int, s.edge(), s.cols as int);
    lemma_wiped_rows_keeps(s.wiped(s.row as int, s.edge(), s.cols as int), s.row + 1, s.rows as int);
    lemma_wiped_keeps(s, s.row as int, 0, s.edge() + 1);
    lemma_wiped_keeps(s, s.row as int, 0, s.cols as int);
    lemma_wiped_keeps(s, s.row as int, s.edge(), s.edge() + arg(ps, 0, 1));
    lemma_modes_keep_cursor(s, flat(ps), 0, action == 'h');
}

/// The text of some runs, one after the other.
pub open spec fn run_texts(l: Seq<SpanView>) -> Seq<char>
    decreases l.len(),
{
    if l.len() == 0 {
        seq![]
    } else {
        run_texts(l.drop_last()) + l.last().text
    }
}

/// Whether two runs look the same: colours, underline, strike-through, weight.
pub open spec fn same_look(a: SpanView, b: SpanView) -> bool {
    a.hue == b.hue && a.back == b.back && a.under == b.under && a.strike == b.strike && a.bold
        == b.bold
}

impl Screen {
    /// The glyphs that the first `k` cells of a line show: the cursor's
    /// glyph on its cell while it shows, each cell's own glyph elsewhere.
    pub open spec fn shown_glyphs(self, flat: int, row: Seq<Cell>, cur: Option<usize>, k: int) -> Seq<
        char,
    > {
        Seq::new(k as nat, |i: int| self.cell_span(flat, row, cur, i).text[0])
    }
}

/// The runs of the first `k` cells of a line: none for no cells; else the
/// first starts at column 0, each of the others where the one before ends,
/// the last ends at `k`, none is empty, neighbours differ in look, and
/// together they show the glyphs of those cells.
pub proof fn law_runs_shape(s: Screen, flat: int, row: Seq<Cell>, cur: Option<usize>, k: int)
    requires
        0 <= k <= row.len(),
        row.len() <= usize::MAX,
    ensures
        ({
            let l = s.runs_upto(flat, row, cur, k);
            &&& (k == 0 <==> l.len() == 0)
            &&& l.len() > 0 ==> l[0].col == 0
            &&& l.len() > 0 ==> l.last().col + l.last().text.len() == k
            &&& forall|j: int| 0 <= j < l.len() ==> (#[trigger] l[j]).text.len() > 0
            &&& forall|j: int|
                #![trigger l[j]]
                0 <= j && j + 1 < l.len() ==> l[j + 1].col == l[j].col + l[j].text.len()
                    && !same_look(l[j], l[j + 1])
            &&& run_texts(l) == s.shown_glyphs(flat, row, cur, k)
        }),
    decreases k,
{
    if k > 0 {
        law_runs_shape(s, flat, row, cur, k - 1);
        let prev = s.runs_upto(flat, row, cur, k - 1);
        let c = s.cell_span(flat, row, cur, k - 1);
        let l = s.runs_upto(flat, row, cur, k);
        assert(s.shown_glyphs(flat, row, cur, k) =~= s.shown_glyphs(flat, row, cur, k - 1).push(
            c.text[0],
        ));
        assert(c.text =~= seq![c.text[0]]);
        if prev.len() > 0 && same_look(prev.last(), c) {
            let last = SpanView { text: prev.last().text + c.text, ..prev.last() };
            assert(l == prev.update(prev.len() - 1, last));
            assert(l.drop_last() =~= prev.drop_last());
            assert(run_texts(l) =~= run_texts(prev) + c.text);
            assert forall|j: int|
                #![trigger l[j]]
                0 <= j && j + 1 < l.len() implies l[j + 1].col == l[j].col + l[j].text.len()
                && !same_look(l[j], l[j + 1]) by {
                assert(prev[j + 1].col == prev[j].col + prev[j].text.len());
                assert(!same_look(prev[j], prev[j + 1]));
            }
            assert forall|j: int| 0 <= j < l.len() implies (#[trigger] l[j]).text.len() > 0 by {
                assert(prev[j].text.len() > 0);
            }
        } else {
            assert(l == prev.push(c));
            assert(l.drop_last() =~= prev);
            assert forall|j: int|
                #![trigger l[j]]
                0 <= j && j + 1 < l.len() implies l[j + 1].col == l[j].col + l[j].text.len()
                && !same_look(l[j], l[j + 1]) by {
                if j + 1 < prev.len() {
                    assert(prev[j + 1].col == prev[j].col + prev[j].text.len());
                    assert(!same_look(prev[j], prev[j + 1]));
                }
            }
            assert forall|j: int| 0 <= j < l.len() implies (#[trigger] l[j]).text.len() > 0 by {
                if j < prev.len() {
                    assert(prev[j].text.len() > 0);
                }
            }
        }
    }
}

proof fn lemma_trail(s: Screen, flat: int, row: Seq<Cell>, e: int)
    requires
        0 <= e,
    ensures
        0 <= s.trail(flat, row, e) <= e,
    decreases e,
{
    if e > 0 && s.faint(flat, row, e - 1) {
        lemma_trail(s, flat, row, e - 1);
    }
}

/// The runs of a line cover its cells up to `run_end`, with the structure
/// `law_runs_shape` gives.
pub proof fn law_runs_cover_line(s: Screen, flat: int, row: Seq<Cell>, cur: Option<usize>)
    requires
        row.len() <= usize::MAX,
    ensures
        0 <= s.run_end(flat, row, cur) <= row.len(),
        run_texts(s.runs(flat, row, cur)) == s.shown_glyphs(flat, row, cur, s.run_end(flat, row, cur)),
        s.runs(flat, row, cur).len() > 0 ==> s.runs(flat, row, cur)[0].col == 0,
        s.runs(flat, row, cur).len() > 0 ==> s.runs(flat, row, cur).last().col + s.runs(
            flat,
            row,
            cur,
        ).last().text.len() == s.run_end(flat, row, cur),
{
    lemma_trail(s, flat, row, row.len() as int);
    law_runs_shape(s, flat, row, cur, s.run_end(flat, row, cur));
}


/// Select graphic rendition, code by code: 0 resets to the palette's text
/// and background colours with every attribute off; 1 and 22 set and clear
/// bold, 7 and 27 reverse video, 4 and 24 underline, 9 and 29
/// strike-through; 30 to 37 pick text colours 0 to 7 of the palette (8 to 15
/// while bold), 90 to 97 the bright text colours 8 to 15, 40 to 47 and 100
/// to 107 the background colours 0 to 7 and 8 to 15; 39 and 49 restore the
/// palette's text and background colours. A colour code leaves the other
/// colour and the attributes alone.
pub proof fn law_sgr_codes(pen: Pen, inks: Palette, v: u16)
    ensures
        v == 0 ==> {
            let p = sgr_one(pen, inks, v);
            &&& p.fg == Color::of(inks.fore)
            &&& p.bg == Color::of(inks.back)
            &&& !p.bold && !p.rev && !p.under && !p.strike
        },
        v == 1 ==> sgr_one(pen, inks, v).bold,
        v == 22 ==> !sgr_one(pen, inks, v).bold,
        v == 7 ==> sgr_one(pen, inks, v).rev,
        v == 27 ==> !sgr_one(pen, inks, v).rev,
        v == 4 ==> sgr_one(pen, inks, v).under,
        v == 24 ==> !sgr_one(pen, inks, v).under,
        v == 9 ==> sgr_one(pen, inks, v).strike,
        v == 29 ==> !sgr_one(pen, inks, v).strike,
        30 <= v <= 37 ==> sgr_one(pen, inks, v).fg == Color::of(
            inks.slots[v - 30 + if pen.bold {
                8int
            } else {
                0int
            }],
        ),
        90 <= v <= 97 ==> sgr_one(pen, inks, v).fg == Color::of(inks.slots[v - 90 + 8]),
        40 <= v <= 47 ==> sgr_one(pen, inks, v).bg == Color::of(inks.slots[v - 40]),
        100 <= v <= 107 ==> sgr_one(pen, inks, v).bg == Color::of(inks.slots[v - 100 + 8]),
        v == 39 ==> sgr_one(pen, inks, v).fg == Color::of(inks.fore),
        v == 49 ==> sgr_one(pen, inks, v).bg == Color::of(inks.back),
        ((30 <= v <= 37) || (90 <= v <= 97) || v == 39) ==> {
            let p = sgr_one(pen, inks, v);
            &&& p.bg == pen.bg
            &&& p.bold == pen.bold && p.rev == pen.rev && p.under == pen.under && p.strike
                == pen.strike
        },
        ((40 <= v <= 47) || (100 <= v <= 107) || v == 49) ==> {
            let p = sgr_one(pen, inks, v);
            &&& p.fg == pen.fg
            &&& p.bold == pen.bold && p.rev == pen.rev && p.under == pen.under && p.strike
                == pen.strike
        },
{
    reveal(sgr_one);
}

/// Cursor movement by a count `n` (the first parameter, 1 where it is
/// missing or 0): up and down by `n` lines, stopping at the scroll region's
/// edge; right by `n` columns, stopping at the last; left by `n` columns,
/// stopping at the first; next and previous line go down or up by `n` to
/// the first column; column, line and cell address from 1.
pub proof fn law_cursor_counts(s: Screen, ps: Seq<Seq<u16>>)
    requires
        s.cols > 0,
        s.top <= s.row <= s.bot,
    ensures
        ({
            let n: int = if ps.len() > 0 && ps[0].len() > 0 && ps[0][0] != 0 {
                ps[0][0] as int
            } else {
                1
            };
            let m: int = if ps.len() > 1 && ps[1].len() > 0 && ps[1][0] != 0 {
                ps[1][0] as int
            } else {
                1
            };
            let last = s.cols - 1;
            &&& s.cursor_target(ps, 'D') == (s.row, if s.col >= n { (s.col - n) as usize } else { 0usize })
            &&& s.cursor_target(ps, 'C').0 == s.row
            &&& s.cursor_target(ps, 'C').1 == if s.col + n <= last { s.col + n } else { last }
            &&& s.cursor_target(ps, 'A').1 == s.col
            &&& s.cursor_target(ps, 'A').0 == if s.row - n >= s.top { s.row - n } else { s.top as int }
            &&& s.cursor_target(ps, 'B').1 == s.col
            &&& s.cursor_target(ps, 'B').0 == if s.row + n <= s.bot { s.row + n } else { s.bot as int }
            &&& s.cursor_target(ps, 'E').0 == s.cursor_target(ps, 'B').0
            &&& s.cursor_target(ps, 'E').1 == 0
            &&& s.cursor_target(ps, 'F').0 == s.cursor_target(ps, 'A').0
            &&& s.cursor_target(ps, 'F').1 == 0
            &&& s.cursor_target(ps, 'G') == (s.row, if n - 1 <= last { (n - 1) as usize } else { last as usize })
            &&& s.cursor_target(ps, 'H').1 == if m - 1 <= last { m - 1 } else { last }
            &&& s.cursor_target(ps, 'H').0 == if n - 1 < s.top { s.top as int } else if n - 1 > s.bot { s.bot as int } else { n - 1 }
            &&& s.cursor_target(ps, 'f') == s.cursor_target(ps, 'H')
            &&& s.cursor_target(ps, 'd') == (s.cursor_target(ps, 'H').0, s.col)
        }),
{
}

/// Moving right by a count and then left by the same count returns to the
/// same column when the right move met no edge.
pub proof fn law_cursor_right_then_left(s: Screen, ps: Seq<Seq<u16>>)
    requires
        s.cols > 0,
        s.col + arg(ps, 0, 1) <= s.cols - 1,
    ensures
        s.cursor_moved(ps, 'C').cursor_target(ps, 'D') == (s.row, s.col),
{
    reveal(Screen::cursor_moved);
}

} // verus!
