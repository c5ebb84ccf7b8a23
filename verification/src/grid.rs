//! The terminal grid: screen cells, scrollback, cursor, modes and replies.
use std::collections::VecDeque;
use vstd::prelude::*;
use vstd::utf8::{decode_utf8, valid_utf8};

use crate::color::{default_slots, Color, Palette, BACK, FORE};
use crate::screen::{
    glyphs, joined, line_text, trimmed, unpadded, max, sat_sub,
    shape_of, blinks,
    lemma_shift_len,
    min,
    arg, flat, sgr_codes, sgr_one, sgr_run, inked, papered, dyed, byte_of, position_reply, size_reply,
    secondary_attrs, primary_attrs, status_ok,
    lowered, next_off,
    all_len,
    lemma_no_shift, lemma_pull_step, lemma_push_step, painted, pulled, pushed,
    decimal, filled, focus_reply, in_mark, mark_of, no_later, pen_of, sgr_mouse, x10_mouse, Cell, Mark,
    Pen, Screen, Shape, SpanView, PAST,
};

verus! {

/// A run of cells of one look.
pub struct Span {
    pub hue: Color,
    pub back: Option<Color>,
    pub text: String,
    pub under: bool,
    pub strike: bool,
    pub bold: bool,
    pub col: usize,
}

impl View for Span {
    type V = SpanView;

    open spec fn view(&self) -> SpanView {
        SpanView {
            hue: self.hue,
            back: self.back,
            text: self.text@,
            under: self.under,
            strike: self.strike,
            bold: self.bold,
            col: self.col,
        }
    }
}

/// The views of some runs.
pub open spec fn spans_of(v: Seq<Span>) -> Seq<SpanView> {
    Seq::new(v.len(), |j: int| v[j]@)
}

/// The views of some lines of runs.
pub open spec fn span_lines(v: Seq<Vec<Span>>) -> Seq<Seq<SpanView>> {
    Seq::new(v.len(), |i: int| spans_of(v[i]@))
}

/// What `String::from_utf8_lossy` makes of some bytes: their text, with a
/// replacement character for each ill-formed piece.
pub uninterp spec fn lossy_utf8(bytes: Seq<u8>) -> Seq<char>;

/// `String::from_utf8_lossy`, owned.
///
/// Claims only that the result is a function of the bytes, and that
/// well-formed UTF-8 comes out as the text it encodes; how ill-formed input
/// is replaced is left unsaid.
#[verifier::external_body]
fn text_of_bytes(bytes: &[u8]) -> (s: String)
    ensures
        s@ == lossy_utf8(bytes@),
        valid_utf8(bytes@) ==> s@ == decode_utf8(bytes@),
{
    String::from_utf8_lossy(bytes).into_owned()
}

/// The contents of some lines of cells.
pub open spec fn lines_of(v: Seq<Vec<Cell>>) -> Seq<Seq<Cell>> {
    Seq::new(v.len(), |i: int| v[i]@)
}

impl Pen {
    /// The pen of a fresh grid.
    pub fn of(inks: &Palette) -> (p: Pen)
        ensures
            p == pen_of(*inks),
    {
        Pen {
            fg: inks.fore(),
            bg: inks.back(),
            bold: false,
            slot: None,
            rev: false,
            under: false,
            strike: false,
        }
    }
}

impl Shape {
    /// The glyph that stands in for the cursor.
    pub fn mark(self) -> (c: char)
        ensures
            c == mark_of(self),
    {
        match self {
            Shape::Block => '\u{2588}',
            Shape::Under => '\u{2581}',
            Shape::Bar => '\u{258F}',
        }
    }
}

/// `String::push`: the string's characters gain `c` at the end, as its
/// documentation says.
#[verifier::external_body]
fn push_char(s: &mut String, c: char)
    ensures
        final(s)@ == old(s)@.push(c),
{
    s.push(c);
}

/// Appends the decimal digits of a number.
fn push_decimal(out: &mut Vec<u8>, n: usize)
    ensures
        final(out)@ == old(out)@ + decimal(n as nat),
    decreases n,
{
    if n >= 10 {
        push_decimal(out, n / 10);
    }
    out.push((48 + n % 10) as u8);
    proof {
        assert(final(out)@ =~= old(out)@ + decimal(n as nat));
    }
}

/// A line of `cols` copies of a cell.
fn line_of(fill: Cell, cols: usize) -> (v: Vec<Cell>)
    ensures
        v@ == Seq::new(cols as nat, |_j: int| fill),
{
    let v = vec![fill; cols];
    assert(v@ =~= Seq::new(cols as nat, |_j: int| fill));
    v
}

/// `rows` lines of `cols` copies of a cell.
fn lines_filled(fill: Cell, rows: usize, cols: usize) -> (v: Vec<Vec<Cell>>)
    ensures
        lines_of(v@) == filled(rows as nat, cols as nat, fill),
{
    let mut v: Vec<Vec<Cell>> = Vec::new();
    let mut i: usize = 0;
    while i < rows
        invariant
            i <= rows,
            v@.len() == i,
            forall|k: int| 0 <= k < i ==> (#[trigger] v@[k])@ == Seq::new(cols as nat, |_j: int| fill),
        decreases rows - i,
    {
        v.push(line_of(fill, cols));
        i += 1;
    }
    assert(lines_of(v@) =~= filled(rows as nat, cols as nat, fill));
    v
}

/// Moves lines `a..=b` up by `k`, bringing blank lines in at `b`.
fn pull(cells: &mut Vec<Vec<Cell>>, a: usize, b: usize, k: usize, fill: Cell, cols: usize)
    requires
        a <= b < old(cells)@.len(),
        k <= b - a + 1,
    ensures
        lines_of(final(cells)@) == pulled(
            lines_of(old(cells)@),
            a as int,
            b as int,
            k as int,
            Seq::new(cols as nat, |_j: int| fill),
        ),
{
    let ghost c0 = lines_of(cells@);
    let ghost line = Seq::new(cols as nat, |_j: int| fill);
    proof {
        lemma_no_shift(c0, a as int, b as int, line);
    }
    let mut j: usize = 0;
    while j < k
        invariant
            a <= b < c0.len(),
            k <= b - a + 1,
            j <= k,
            line == Seq::new(cols as nat, |_j: int| fill),
            lines_of(cells@) == pulled(c0, a as int, b as int, j as int, line),
        decreases k - j,
    {
        proof {
            lemma_pull_step(c0, a as int, b as int, j as int, line);
        }
        let ghost before = cells@;
        cells.remove(a);
        let ghost mid = cells@;
        assert(lines_of(mid) =~= lines_of(before).remove(a as int));
        cells.insert(b, line_of(fill, cols));
        assert(lines_of(cells@) =~= lines_of(mid).insert(b as int, line));
        j += 1;
    }
}

/// Moves lines `a..=b` down by `k`, bringing blank lines in at `a`.
fn push(cells: &mut Vec<Vec<Cell>>, a: usize, b: usize, k: usize, fill: Cell, cols: usize)
    requires
        a <= b < old(cells)@.len(),
        k <= b - a + 1,
    ensures
        lines_of(final(cells)@) == pushed(
            lines_of(old(cells)@),
            a as int,
            b as int,
            k as int,
            Seq::new(cols as nat, |_j: int| fill),
        ),
{
    let ghost c0 = lines_of(cells@);
    let ghost line = Seq::new(cols as nat, |_j: int| fill);
    proof {
        lemma_no_shift(c0, a as int, b as int, line);
    }
    let mut j: usize = 0;
    while j < k
        invariant
            a <= b < c0.len(),
            k <= b - a + 1,
            j <= k,
            line == Seq::new(cols as nat, |_j: int| fill),
            lines_of(cells@) == pushed(c0, a as int, b as int, j as int, line),
        decreases k - j,
    {
        proof {
            lemma_push_step(c0, a as int, b as int, j as int, line);
        }
        let ghost before = cells@;
        cells.remove(b);
        let ghost mid = cells@;
        assert(lines_of(mid) =~= lines_of(before).remove(b as int));
        cells.insert(a, line_of(fill, cols));
        assert(lines_of(cells@) =~= lines_of(mid).insert(a as int, line));
        j += 1;
    }
}

/// Writes one cell.
fn put_cell(cells: &mut Vec<Vec<Cell>>, r: usize, k: usize, fill: Cell, cols: Ghost<nat>)
    requires
        r < old(cells)@.len(),
        k < old(cells)@[r as int]@.len(),
        all_len(lines_of(old(cells)@), cols@),
    ensures
        lines_of(final(cells)@) == lines_of(old(cells)@).update(
            r as int,
            lines_of(old(cells)@)[r as int].update(k as int, fill),
        ),
        all_len(lines_of(final(cells)@), cols@),
{
    let ghost c0 = lines_of(cells@);
    cells[r][k] = fill;
    assert(lines_of(cells@) =~= c0.update(r as int, c0[r as int].update(k as int, fill)));
    assert forall|i: int| 0 <= i < lines_of(cells@).len() implies (#[trigger] lines_of(cells@)[i]).len() == cols@ by {
        if i != r {
            assert(lines_of(cells@)[i] == c0[i]);
        } else {
            assert(c0[i].len() == cols@);
        }
    }
}

/// Drops the first line and adds a line of `cols` copies of `fill` at the end;
/// hands out the dropped line.
fn roll_up(cells: &mut Vec<Vec<Cell>>, fill: Cell, cols: usize) -> (top: Vec<Cell>)
    requires
        old(cells)@.len() > 0,
    ensures
        top@ == lines_of(old(cells)@)[0],
        lines_of(final(cells)@) == lines_of(old(cells)@).drop_first().push(
            Seq::new(cols as nat, |_j: int| fill),
        ),
        all_len(lines_of(old(cells)@), cols as nat) ==> all_len(lines_of(final(cells)@), cols as nat),
{
    let ghost c0 = lines_of(cells@);
    let top = cells.remove(0);
    let ghost mid = cells@;
    assert(lines_of(mid) =~= c0.drop_first());
    cells.push(line_of(fill, cols));
    let ghost c1 = lines_of(cells@);
    assert(c1 =~= c0.drop_first().push(Seq::new(cols as nat, |_j: int| fill)));
    assert(all_len(c0, cols as nat) ==> all_len(c1, cols as nat)) by {
        if all_len(c0, cols as nat) {
            assert forall|i: int| 0 <= i < c1.len() implies (#[trigger] c1[i]).len() == cols by {
                if i < c1.len() - 1 {
                    assert(c1[i] == c0[i + 1]);
                }
            }
        }
    }
    top
}

/// Adds a line to the scrollback, dropping its oldest line when it holds more
/// than it keeps; says whether it dropped one.
fn keep(past: &mut VecDeque<Vec<Cell>>, line: Vec<Cell>) -> (dropped: bool)
    requires
        old(past)@.len() <= PAST,
    ensures
        dropped == (old(past)@.len() + 1 > PAST),
        lines_of(final(past)@) == (if dropped {
            lines_of(old(past)@).push(line@).drop_first()
        } else {
            lines_of(old(past)@).push(line@)
        }),
        final(past)@.len() <= PAST,
{
    let ghost p0 = lines_of(past@);
    let ghost l = line@;
    past.push_back(line);
    assert(lines_of(past@) =~= p0.push(l));
    if past.len() > PAST {
        let ghost p1 = past@;
        past.pop_front();
        assert(lines_of(past@) =~= lines_of(p1).drop_first());
        true
    } else {
        false
    }
}

/// A selection one line further up.
fn lower(mark: Option<Mark>) -> (r: Option<Mark>)
    ensures
        r == lowered(mark),
{
    match mark {
        Some(((r1, c1), (r2, c2))) => Some(((r1.saturating_sub(1), c1), (r2.saturating_sub(1), c2))),
        None => None,
    }
}

/// The view offset after a line enters a scrollback of `len` lines.
fn step_off(off: i32, len: usize) -> (r: i32)
    requires
        len <= PAST,
        off <= len,
    ensures
        r as int == next_off(off as int, len as int),
{
    if off > 0 {
        let p = len as i32;
        if off + 1 < p {
            off + 1
        } else {
            p
        }
    } else if off < 0 {
        0
    } else {
        off
    }
}

/// The parameters of a control sequence as sequences.
pub open spec fn params_of(ps: Seq<Vec<u16>>) -> Seq<Seq<u16>> {
    Seq::new(ps.len(), |i: int| ps[i]@)
}

/// Parameter `i`, or `d` where it is missing or zero.
fn arg_of(ps: &Vec<Vec<u16>>, i: usize, d: u16) -> (v: u16)
    ensures
        v == arg(params_of(ps@), i as int, d),
{
    if i < ps.len() && ps[i].len() > 0 && ps[i][0] != 0 {
        ps[i][0]
    } else {
        d
    }
}

/// All parameters and sub-parameters, in order.
fn flatten(ps: &Vec<Vec<u16>>) -> (f: Vec<u16>)
    ensures
        f@ == flat(params_of(ps@)),
{
    let ghost p = params_of(ps@);
    let mut out: Vec<u16> = Vec::new();
    let mut i: usize = 0;
    assert(p.take(0) =~= seq![]);
    while i < ps.len()
        invariant
            i <= ps@.len(),
            p == params_of(ps@),
            out@ == flat(p.take(i as int)),
        decreases ps@.len() - i,
    {
        let ghost before = out@;
        let group = &ps[i];
        let mut j: usize = 0;
        while j < group.len()
            invariant
                j <= group@.len(),
                out@ == before + group@.take(j as int),
            decreases group@.len() - j,
        {
            out.push(group[j]);
            assert(group@.take(j + 1) =~= group@.take(j as int).push(group@[j as int]));
            j += 1;
        }
        assert(group@.take(group@.len() as int) =~= group@);
        assert(p.take(i + 1).drop_last() =~= p.take(i as int));
        assert(p.take(i + 1).last() == p[i as int]);
        i += 1;
    }
    assert(p.take(ps@.len() as int) =~= p);
    out
}

/// Whether some bytes hold a given byte.
fn holds_byte(bytes: &[u8], b: u8) -> (r: bool)
    ensures
        r == bytes@.contains(b),
{
    let mut i: usize = 0;
    while i < bytes.len()
        invariant
            i <= bytes@.len(),
            forall|j: int| 0 <= j < i ==> bytes@[j] != b,
        decreases bytes@.len() - i,
    {
        if bytes[i] == b {
            assert(bytes@[i as int] == b);
            return true;
        }
        i += 1;
    }
    false
}

/// The larger of two numbers.
fn most(a: usize, b: usize) -> (r: usize)
    ensures
        r == if a >= b { a } else { b },
{
    if a >= b {
        a
    } else {
        b
    }
}

/// The smaller of two numbers.
fn least(a: usize, b: usize) -> (r: usize)
    ensures
        r == if a <= b { a } else { b },
{
    if a <= b {
        a
    } else {
        b
    }
}

/// The pen after one select-graphic-rendition code other than 38 and 48.
fn sgr_step(pen: Pen, inks: &Palette, v: u16) -> (p: Pen)
    ensures
        p == sgr_one(pen, *inks, v),
{
    reveal(sgr_one);
    let mut p = pen;
    if v == 0 {
        p = Pen::of(inks);
    } else if v == 1 {
        p.bold = true;
        if let Some(slot) = pen.slot {
            if slot < 8 {
                p.slot = Some(slot + 8);
                p.fg = inks.dye(slot + 8);
            }
        }
    } else if v == 22 {
        p.bold = false;
        if let Some(slot) = pen.slot {
            if slot >= 8 {
                p.slot = Some(slot - 8);
                p.fg = inks.dye(slot - 8);
            }
        }
    } else if v == 7 {
        p.rev = true;
    } else if v == 27 {
        p.rev = false;
    } else if v == 4 {
        p.under = true;
    } else if v == 24 {
        p.under = false;
    } else if v == 9 {
        p.strike = true;
    } else if v == 29 {
        p.strike = false;
    } else if 30 <= v && v <= 37 {
        p = ink_slot(pen, inks, (v - 30) as u8);
    } else if v == 39 {
        p.fg = inks.fore();
        p.slot = None;
    } else if 40 <= v && v <= 47 {
        p.bg = inks.dye((v - 40) as u8);
    } else if v == 49 {
        p.bg = inks.back();
    } else if 90 <= v && v <= 97 {
        p = ink_slot(pen, inks, (v - 90 + 8) as u8);
    } else if 100 <= v && v <= 107 {
        p.bg = inks.dye((v - 100 + 8) as u8);
    }
    p
}

/// The pen with palette colour `slot` for the text; bold brightens the dark ones.
fn ink_slot(pen: Pen, inks: &Palette, slot: u8) -> (p: Pen)
    ensures
        p == inked(pen, *inks, slot),
{
    let slot = if pen.bold && slot < 8 {
        slot + 8
    } else {
        slot
    };
    Pen { fg: inks.dye(slot), slot: Some(slot), ..pen }
}

/// A parameter as a channel value, saturating at 255.
fn channel(v: u16) -> (b: u8)
    ensures
        b == byte_of(v),
{
    if v > 255 {
        255
    } else {
        v as u8
    }
}

/// The pen after a list of select-graphic-rendition codes.
fn sgr_pen(pen: Pen, inks: &Palette, f: &Vec<u16>) -> (p: Pen)
    ensures
        p == sgr_run(pen, *inks, f@, 0),
{
    let ghost goal = sgr_run(pen, *inks, f@, 0);
    let mut p = pen;
    let mut i: usize = 0;
    proof {
        reveal(sgr_run);
    }
    while i < f.len()
        invariant
            i <= f@.len(),
            goal == sgr_run(p, *inks, f@, i as int),
        decreases f@.len() - i,
    {
        proof {
            reveal(sgr_run);
        }
        let v = f[i];
        if v == 38 || v == 48 {
            let fg = v == 38;
            if i + 1 < f.len() && f[i + 1] == 5 {
                if i + 2 < f.len() {
                    let c = inks.dye(channel(f[i + 2]));
                    p = if fg { Pen { fg: c, slot: None, ..p } } else { Pen { bg: c, ..p } };
                }
                i = if f.len() - i > 3 { i + 3 } else { f.len() };
            } else if i + 1 < f.len() && f[i + 1] == 2 {
                if f.len() - i > 4 {
                    let c = Color::rgb(channel(f[i + 2]), channel(f[i + 3]), channel(f[i + 4]));
                    p = if fg { Pen { fg: c, slot: None, ..p } } else { Pen { bg: c, ..p } };
                }
                i = if f.len() - i > 5 { i + 5 } else { f.len() };
            } else {
                i += 1;
            }
        } else {
            p = sgr_step(p, inks, v);
            i += 1;
        }
    }
    p
}

/// Every line filled with copies of one cell, lengths kept.
fn clear_lines(cells: &mut Vec<Vec<Cell>>, fill: Cell)
    ensures
        lines_of(final(cells)@) == Seq::new(
            old(cells)@.len(),
            |i: int| Seq::new(lines_of(old(cells)@)[i].len(), |_j: int| fill),
        ),
{
    let ghost c0 = lines_of(cells@);
    let mut r: usize = 0;
    while r < cells.len()
        invariant
            r <= cells@.len(),
            cells@.len() == c0.len(),
            forall|i: int| 0 <= i < r ==> (#[trigger] cells@[i])@ == Seq::new(c0[i].len(), |_j: int| fill),
            forall|i: int| r <= i < cells@.len() ==> (#[trigger] cells@[i])@ == c0[i],
        decreases cells@.len() - r,
    {
        let n = cells[r].len();
        cells[r] = line_of(fill, n);
        r += 1;
    }
    assert(lines_of(cells@) =~= Seq::new(c0.len(), |i: int| Seq::new(c0[i].len(), |_j: int| fill)));
}

/// The cursor shape that a cursor style number selects.
fn shape_for(n: u16) -> (s: Shape)
    ensures
        s == shape_of(n),
{
    if n == 3 || n == 4 {
        Shape::Under
    } else if n == 5 || n == 6 {
        Shape::Bar
    } else {
        Shape::Block
    }
}

/// The codes of a select-graphic-rendition sequence.
fn sgr_list(ps: &Vec<Vec<u16>>) -> (f: Vec<u16>)
    ensures
        f@ == sgr_codes(params_of(ps@)),
{
    reveal(sgr_codes);
    let mut f = flatten(ps);
    if f.len() == 0 {
        f.push(0);
        assert(f@ =~= seq![0u16]);
    }
    f
}

/// Appends the text of a line of runs.
fn append_line(t: &mut String, line: &Vec<Span>)
    ensures
        final(t)@ == old(t)@ + line_text(spans_of(line@)),
{
    let ghost mid = t@;
    let ghost lv = spans_of(line@);
    let mut j: usize = 0;
    assert(lv.take(0) =~= seq![]);
    assert(mid + line_text(lv.take(0)) =~= mid);
    while j < line.len()
        invariant
            j <= line@.len(),
            lv == spans_of(line@),
            t@ == mid + line_text(lv.take(j as int)),
        decreases line@.len() - j,
    {
        t.append(line[j].text.as_str());
        assert(lv.take(j + 1).drop_last() =~= lv.take(j as int));
        assert(t@ =~= mid + line_text(lv.take(j + 1)));
        j += 1;
    }
    assert(lv.take(line@.len() as int) =~= lv);
}

/// The terminal grid.
pub struct Grid {
    cells: Vec<Vec<Cell>>,
    alt: Vec<Vec<Cell>>,
    live: bool,
    save: (usize, usize),
    /// Whether the cursor is drawn.
    pub show: bool,
    past: VecDeque<Vec<Cell>>,
    off: i32,
    below: usize,
    dirty: bool,
    pen: Pen,
    inks: Palette,
    rows: usize,
    cols: usize,
    top: usize,
    bot: usize,
    row: usize,
    col: usize,
    reply: Vec<u8>,
    mark: Option<Mark>,
    press: bool,
    cell: bool,
    ext: bool,
    paste: bool,
    focus: bool,
    shape: Shape,
    blink: bool,
    phase: bool,
    title: Option<String>,
}

impl View for Grid {
    type V = Screen;

    closed spec fn view(&self) -> Screen {
        Screen {
            cells: lines_of(self.cells@),
            alt: lines_of(self.alt@),
            live: self.live,
            save: self.save,
            show: self.show,
            past: lines_of(self.past@),
            off: self.off as int,
            below: self.below,
            dirty: self.dirty,
            pen: self.pen,
            inks: self.inks,
            rows: self.rows,
            cols: self.cols,
            top: self.top,
            bot: self.bot,
            row: self.row,
            col: self.col,
            reply: self.reply@,
            mark: self.mark,
            press: self.press,
            cell: self.cell,
            ext: self.ext,
            paste: self.paste,
            focus: self.focus,
            shape: self.shape,
            blink: self.blink,
            phase: self.phase,
            title: match self.title {
                Some(t) => Some(t@),
                None => None,
            },
        }
    }
}

/// Whether two selections are the same.
fn same_mark(a: &Option<Mark>, b: &Option<Mark>) -> (r: bool)
    ensures
        r == (*a == *b),
{
    match (a, b) {
        (None, None) => true,
        (Some(x), Some(y)) => x.0.0 == y.0.0 && x.0.1 == y.0.1 && x.1.0 == y.1.0 && x.1.1 == y.1.1,
        _ => false,
    }
}

/// Whether cell position `a` comes no later than `b`.
fn before(a: (usize, usize), b: (usize, usize)) -> (r: bool)
    ensures
        r == no_later(a, b),
{
    a.0 < b.0 || (a.0 == b.0 && a.1 <= b.1)
}

impl Default for Grid {
    /// A grid of 24 lines of 80 cells that may scroll 24 lines past its bottom,
    /// with the default palette.
    fn default() -> (g: Grid)
        ensures
            g@ == Screen::started(24, 80, 24, g@.inks),
            g@.inks.slots == default_slots(),
            g@.inks.fore == FORE,
            g@.inks.back == BACK,
            g@.wf(),
    {
        Grid::new(24, 80, 24, Palette::default())
    }
}

impl Grid {
    /// A grid of `rows` lines of `cols` cells that may scroll up to `below`
    /// lines past its bottom, drawing with `inks`.
    pub fn new(rows: usize, cols: usize, below: usize, inks: Palette) -> (g: Grid)
        requires
            0 <= (below as i32),
        ensures
            g@ == Screen::started(rows, cols, below, inks),
            g@.wf(),
            g@.inks == inks,
    {
        let pen = Pen::of(&inks);
        let mut grid = Grid {
            cells: Vec::new(),
            alt: Vec::new(),
            live: false,
            save: (0, 0),
            show: true,
            past: VecDeque::new(),
            off: 0,
            below,
            dirty: false,
            pen,
            inks,
            rows: 0,
            cols: 0,
            top: 0,
            bot: 0,
            row: 0,
            col: 0,
            reply: Vec::new(),
            mark: None,
            press: false,
            cell: false,
            ext: false,
            paste: false,
            focus: false,
            shape: Shape::Block,
            blink: false,
            phase: true,
            title: None,
        };
        proof {
            assert(grid@.cells =~= seq![]);
            assert(grid@.alt =~= seq![]);
            assert(grid@.past =~= seq![]);
            assert(grid@.reply =~= seq![]);
        }
        grid.resize(rows, cols);
        grid
    }

    /// Whether the cursor blinks.
    pub fn blinked(&self) -> (b: bool)
        ensures
            b == self@.blink,
    {
        self.blink
    }

    /// Turns the blink phase over.
    pub fn flip(&mut self)
        ensures
            final(self)@ == (Screen { phase: !old(self)@.phase, dirty: true, ..old(self)@ }),
    {
        self.phase = !self.phase;
        self.dirty = true;
    }

    /// Shows the cursor again if the blink phase had hidden it.
    pub fn lit(&mut self)
        ensures
            final(self)@ == (if old(self)@.phase {
                old(self)@
            } else {
                Screen { phase: true, dirty: true, ..old(self)@ }
            }),
    {
        if !self.phase {
            self.phase = true;
            self.dirty = true;
        }
    }

    /// Hands out the bytes to send back to the program, leaving none.
    pub fn take_reply(&mut self) -> (r: Vec<u8>)
        ensures
            r@ == old(self)@.reply,
            final(self)@ == (Screen { reply: seq![], ..old(self)@ }),
    {
        let mut r = Vec::new();
        std::mem::swap(&mut r, &mut self.reply);
        proof {
            assert(self@ =~= (Screen { reply: seq![], ..old(self)@ }));
        }
        r
    }

    /// Whether the program asked for button reports.
    pub fn mouse(&self) -> (b: bool)
        ensures
            b == self@.press,
    {
        self.press
    }

    /// Whether the program asked for drag reports.
    pub fn motion(&self) -> (b: bool)
        ensures
            b == self@.cell,
    {
        self.cell
    }

    /// Whether a mouse report on a cell can be written: its numbers count from one,
    /// and the X10 encoding adds 32 to them.
    pub open spec fn can_report(s: Screen, row: usize, col: usize) -> bool {
        &&& row < usize::MAX
        &&& col < usize::MAX
        &&& !s.ext ==> row + 33 <= usize::MAX && col + 33 <= usize::MAX
    }

    /// Whether `print` can act: the grid has a cell, and the cursor's line
    /// exists unless the cursor waits past the last column.
    pub fn can_print(&self) -> (b: bool)
        ensures
            b == (self@.rows > 0 && self@.cols > 0 && (self@.col >= self@.cols || self@.row
                < self@.rows)),
    {
        self.rows > 0 && self.cols > 0 && (self.col >= self.cols || self.row < self.rows)
    }

    /// Whether `execute` can act on a control byte: a line feed needs a line,
    /// and a tab's column must be countable.
    pub fn can_execute(&self, byte: u8) -> (b: bool)
        ensures
            b == (((byte == 10 || byte == 11 || byte == 12) ==> self@.rows > 0) && (byte == 9
                ==> self@.tab_stop() <= usize::MAX)),
    {
        let step: usize = if self.cols >= 9 {
            8
        } else if self.cols == 0 {
            0
        } else {
            self.cols - 1
        };
        let tab_ok = match (self.col / 8 + 1).checked_mul(step) {
            Some(_) => true,
            None => false,
        };
        let feed = byte == 10 || byte == 11 || byte == 12;
        (!feed || self.rows > 0) && (byte != 9 || tab_ok)
    }

    /// Whether `csi_dispatch` can act on a control sequence.
    pub fn can_dispatch(&self, ps: &Vec<Vec<u16>>, action: char) -> (b: bool)
        ensures
            b == self@.csi_ok(params_of(ps@), action),
    {
        let a0 = arg_of(ps, 0, 1) as usize;
        let j0 = arg_of(ps, 0, 0);
        let at_row = (action == 'J' && !(j0 == 2 || j0 == 3)) || action == 'K' || action == 'X';
        if !(self.rows > 0 && self.cols > 0) {
            return false;
        }
        let near = if self.col < self.cols - 1 {
            self.col
        } else {
            self.cols - 1
        };
        (!at_row || self.row < self.rows) && (!(action == 'B' || action == 'E') || self.row
            <= usize::MAX - a0) && (action != 'C' || self.col <= usize::MAX - a0) && (action
            != 'X' || near <= usize::MAX - a0)
    }

    /// Whether `wheel` can move the view by `whole` lines: the offset it
    /// reaches must be countable.
    pub fn can_wheel(&self, whole: i32) -> (b: bool)
        ensures
            b == (!self@.live ==> i32::MIN <= self@.off + whole <= i32::MAX),
    {
        let off = self.off as i64 + whole as i64;
        self.live || (i32::MIN as i64 <= off && off <= i32::MAX as i64)
    }

    /// Whether the view can be read out as runs or text: its line numbers
    /// fit 32 bits, and the cursor's line can be counted.
    pub fn can_span(&self) -> (b: bool)
        ensures
            b == (self@.fits() && (self@.show && self@.off == 0 ==> self@.base() + self@.row
                <= usize::MAX)),
    {
        let base: usize = if self.live {
            0
        } else {
            self.past.len()
        };
        let fits = (base as i128) + (self.rows as i128) <= i32::MAX as i128 && (base as i128) + (
        self.rows as i128) - (self.off as i128) <= i32::MAX as i128;
        fits && (!(self.show && self.off == 0) || self.row <= usize::MAX - base)
    }

    /// Whether a mouse report on a cell can be written.
    pub fn reportable(&self, row: usize, col: usize) -> (b: bool)
        ensures
            b == Self::can_report(self@, row, col),
    {
        row < usize::MAX && col < usize::MAX && (self.ext || (row <= usize::MAX - 33 && col
            <= usize::MAX - 33))
    }

    /// Reports a button going down (with its number) or up (as button 3).
    pub fn click(&mut self, btn: u8, row: usize, col: usize, down: bool)
        requires
            Self::can_report(old(self)@, row, col),
        ensures
            final(self)@ == old(self)@.reported(
                if down {
                    btn
                } else {
                    3
                },
                row,
                col,
                down,
            ),
    {
        if down {
            self.report(btn, row, col, true);
        } else {
            self.report(3, row, col, false);
        }
    }

    /// Reports a wheel step up (button 64) or down (65).
    pub fn roll(&mut self, row: usize, col: usize, up: bool)
        requires
            Self::can_report(old(self)@, row, col),
        ensures
            final(self)@ == old(self)@.reported(
                if up {
                    64
                } else {
                    65
                },
                row,
                col,
                true,
            ),
    {
        self.report(if up { 64 } else { 65 }, row, col, true);
    }

    fn report(&mut self, code: u8, row: usize, col: usize, down: bool)
        requires
            Self::can_report(old(self)@, row, col),
        ensures
            final(self)@ == old(self)@.reported(code, row, col, down),
    {
        let x = col + 1;
        let y = row + 1;
        if self.ext {
            self.reply.push(0x1b);
            self.reply.push(0x5b);
            self.reply.push(0x3c);
            push_decimal(&mut self.reply, code as usize);
            self.reply.push(0x3b);
            push_decimal(&mut self.reply, x);
            self.reply.push(0x3b);
            push_decimal(&mut self.reply, y);
            self.reply.push(if down { 0x4d } else { 0x6d });
            proof {
                assert(self@.reply =~= old(self)@.reply + sgr_mouse(code, x as nat, y as nat, down));
                assert(self@ =~= old(self)@.reported(code, row, col, down));
            }
        } else {
            let a: usize = 32 + code as usize;
            let b: usize = 32 + x;
            let c: usize = 32 + y;
            self.reply.push(0x1b);
            self.reply.push(0x5b);
            self.reply.push(0x4d);
            self.reply.push(if a > 255 { 255 } else { a as u8 });
            self.reply.push(if b > 255 { 255 } else { b as u8 });
            self.reply.push(if c > 255 { 255 } else { c as u8 });
            proof {
                assert(self@.reply =~= old(self)@.reply + x10_mouse(code, x as nat, y as nat));
                assert(self@ =~= old(self)@.reported(code, row, col, down));
            }
        }
    }

    /// Hands out the title the program set last, if any, leaving none.
    pub fn take_title(&mut self) -> (t: Option<String>)
        ensures
            (match t {
                Some(s) => old(self)@.title == Some(s@),
                None => old(self)@.title is None,
            }),
            final(self)@ == (Screen { title: None, ..old(self)@ }),
    {
        self.title.take()
    }

    /// Whether the program asked for bracketed paste.
    pub fn pastes(&self) -> (b: bool)
        ensures
            b == self@.paste,
    {
        self.paste
    }

    /// Whether the program asked for focus reports.
    pub fn focused(&self) -> (b: bool)
        ensures
            b == self@.focus,
    {
        self.focus
    }

    /// Reports the window gaining or losing focus.
    pub fn focus(&mut self, inside: bool)
        ensures
            final(self)@ == old(self)@.answered(focus_reply(inside)),
    {
        self.reply.push(0x1b);
        self.reply.push(0x5b);
        self.reply.push(if inside { 0x49 } else { 0x4f });
        proof {
            assert(self@.reply =~= old(self)@.reply + focus_reply(inside));
            assert(self@ =~= old(self)@.answered(focus_reply(inside)));
        }
    }

    fn answer(&mut self, bytes: &[u8])
        ensures
            final(self)@.wf() == old(self)@.wf(),
            final(self)@ == old(self)@.answered(bytes@),
    {
        let mut i: usize = 0;
        while i < bytes.len()
            invariant
                i <= bytes@.len(),
                self@ == old(self)@.answered(bytes@.subrange(0, i as int)),
            decreases bytes@.len() - i,
        {
            self.reply.push(bytes[i]);
            proof {
                assert(bytes@.subrange(0, i + 1) =~= bytes@.subrange(0, i as int).push(bytes@[i as int]));
                assert(self@ =~= old(self)@.answered(bytes@.subrange(0, i + 1)));
            }
            i += 1;
        }
        proof {
            assert(bytes@.subrange(0, bytes@.len() as int) =~= bytes@);
        }
    }

    fn empty(&self) -> (c: Cell)
        ensures
            c == self@.blank(),
    {
        Cell {
            glyph: ' ',
            fg: self.pen.fg,
            bg: self.pen.bg,
            under: self.pen.under,
            strike: self.pen.strike,
            bold: self.pen.bold,
        }
    }

    /// Gives the grid a new size: both screens blank, cursor home, whole
    /// screen as the scroll region, no selection.
    pub fn resize(&mut self, rows: usize, cols: usize)
        requires
            0 <= (old(self)@.below as i32),
            old(self)@.floor() <= 0,
            old(self)@.past.len() <= PAST,
            old(self)@.save.0 < usize::MAX,
        ensures
            final(self)@ == old(self)@.resized(rows, cols),
            final(self)@.wf(),
            final(self)@.inks == old(self)@.inks,
    {
        proof {
            reveal(Screen::resized);
        }
        let fill = self.empty();
        self.cells = lines_filled(fill, rows, cols);
        self.alt = lines_filled(fill, rows, cols);
        self.rows = rows;
        self.cols = cols;
        self.row = 0;
        self.col = 0;
        self.top = 0;
        self.bot = rows.saturating_sub(1);
        self.dirty = true;
        self.mark = None;
        let lo: i32 = -(#[verifier::truncate] (self.below as i32));
        let hi: i32 = self.past.len() as i32;
        self.off = if self.off < lo {
            lo
        } else if self.off > hi {
            hi
        } else {
            self.off
        };
        proof {
            assert(self@ =~= old(self)@.resized(rows, cols));
        }
    }

    /// The cursor: line, column, whether the alternate screen is on, and
    /// whether the cursor is drawn.
    pub fn cursor(&self) -> (c: (usize, usize, bool, bool))
        ensures
            c == self@.cursor(),
    {
        (self.row, self.col, self.live, self.show)
    }

    /// Marks the grid for redrawing if the cursor differs from `was`.
    pub fn moved(&mut self, was: (usize, usize, bool, bool))
        ensures
            final(self)@ == (Screen {
                dirty: old(self)@.dirty || old(self)@.cursor() != was,
                ..old(self)@
            }),
    {
        let now = self.cursor();
        let differs = !(now.0 == was.0 && now.1 == was.1 && now.2 == was.2 && now.3 == was.3);
        self.dirty = self.dirty || differs;
    }

    /// Whether the grid changed since the last call; clears the flag.
    pub fn take_dirty(&mut self) -> (d: bool)
        ensures
            d == old(self)@.dirty,
            final(self)@ == (Screen { dirty: false, ..old(self)@ }),
    {
        let d = self.dirty;
        self.dirty = false;
        d
    }

    /// The flat lines in view: first and one past the last.
    pub fn window(&self) -> (w: (usize, usize))
        requires
            self@.wf(),
            self@.fits(),
        ensures
            w.0 as int == self@.window().0,
            w.1 as int == self@.window().1,
            w.0 <= w.1,
            w.1 <= self@.base() + self@.rows,
    {
        let base = if self.live { 0 } else { self.past.len() };
        let total = base + self.rows;
        let end: i32 = total as i32 - self.off;
        let stop: i32 = if end < 0 {
            0
        } else if end > total as i32 {
            total as i32
        } else {
            end
        };
        let low: i32 = end - self.rows as i32;
        let start: i32 = if low < 0 {
            0
        } else if low > stop {
            stop
        } else {
            low
        };
        (start as usize, stop as usize)
    }

    /// The flat cell under a cell of the view, if the view shows a line there.
    pub fn at(&self, vrow: usize, vcol: usize) -> (r: Option<(usize, usize)>)
        requires
            self@.wf(),
            self@.fits(),
        ensures
            r == self@.at(vrow, vcol),
    {
        if self.cols == 0 {
            return None;
        }
        let (start, stop) = self.window();
        if vrow < stop - start {
            Some((start + vrow, if vcol < self.cols - 1 { vcol } else { self.cols - 1 }))
        } else {
            None
        }
    }

    /// Selects from one cell to another, in either order.
    pub fn select(&mut self, from: (usize, usize), to: (usize, usize))
        ensures
            final(self)@ == old(self)@.selecting(from, to),
    {
        let mark = Some(if before(from, to) { (from, to) } else { (to, from) });
        if !same_mark(&self.mark, &mark) {
            self.mark = mark;
            self.dirty = true;
        }
    }

    /// Drops the selection.
    pub fn unmark(&mut self)
        ensures
            final(self)@ == (Screen {
                mark: None,
                dirty: old(self)@.dirty || old(self)@.mark is Some,
                ..old(self)@
            }),
    {
        if self.mark.take().is_some() {
            self.dirty = true;
        }
    }

    /// Whether something is selected.
    pub fn marked(&self) -> (b: bool)
        ensures
            b == self@.mark is Some,
    {
        self.mark.is_some()
    }

    fn inside(&self, row: usize, col: usize) -> (b: bool)
        ensures
            b == in_mark(self@.mark, row, col),
    {
        match self.mark {
            Some((from, to)) => before(from, (row, col)) && before((row, col), to),
            None => false,
        }
    }

    /// Moves the view `whole` lines into the scrollback (negative: below the
    /// last line), within the limits; the alternate screen does not scroll.
    /// The grid is marked for redrawing exactly when the view moved.
    pub fn wheel(&mut self, whole: i32)
        requires
            old(self)@.wf(),
            !old(self)@.live ==> i32::MIN <= old(self)@.off + whole <= i32::MAX,
        ensures
            final(self)@ == old(self)@.wheeled(whole as int),
    {
        if self.live {
            return;
        }
        let off = self.off + whole;
        let lo: i32 = -(#[verifier::truncate] (self.below as i32));
        let hi: i32 = self.past.len() as i32;
        let clamped = if off < lo {
            lo
        } else if off > hi {
            hi
        } else {
            off
        };
        self.dirty = clamped != self.off;
        self.off = clamped;
    }

    fn wipe(&mut self, row: usize, from: usize, to: usize)
        requires
            old(self)@.wf(),
            row < old(self)@.rows,
            from <= to,
            from <= old(self)@.cols,
        ensures
            final(self)@ == old(self)@.wiped(row as int, from as int, to as int),
            final(self)@.wf(),
            final(self)@.rows == old(self)@.rows,
            final(self)@.cols == old(self)@.cols,
            final(self)@.row == old(self)@.row,
    {
        proof {
            reveal(Screen::wiped);
        }
        let ghost s0 = self@;
        let to = if to < self.cols { to } else { self.cols };
        let fill = self.empty();
        let ghost line0 = s0.cells[row as int];
        assert(self.cells@[row as int]@ == line0);
        assert(line0.len() == self.cols);
        let mut differs = false;
        let mut j = from;
        while j < to
            invariant
                from <= j <= to,
                to <= line0.len(),
                self@ == s0,
                row < self.cells@.len(),
                self.cells@[row as int]@ == line0,
                differs == exists|k: int| from <= k < j && #[trigger] line0[k] != fill,
            decreases to - j,
        {
            if self.cells[row][j] != fill {
                differs = true;
                assert(line0[j as int] != fill);
            }
            j += 1;
        }
        if differs {
            assert(painted(line0, from as int, from as int, fill) =~= line0);
            assert(s0.cells.update(row as int, line0) =~= s0.cells);
            let mut j = from;
            while j < to
                invariant
                    from <= j <= to,
                    to <= line0.len(),
                    row < self.cells@.len(),
                    self.cells@.len() == s0.cells.len(),
                    self.cells@[row as int]@ == painted(line0, from as int, j as int, fill),
                    lines_of(self.cells@) == s0.cells.update(
                        row as int,
                        painted(line0, from as int, j as int, fill),
                    ),
                    self@ == (Screen { cells: lines_of(self.cells@), ..s0 }),
                decreases to - j,
            {
                let ghost before = lines_of(self.cells@);
                self.cells[row][j] = fill;
                assert(painted(line0, from as int, j + 1, fill) =~= painted(
                    line0,
                    from as int,
                    j as int,
                    fill,
                ).update(j as int, fill));
                assert(lines_of(self.cells@) =~= before.update(
                    row as int,
                    painted(line0, from as int, j + 1, fill),
                ));
                assert(before.update(row as int, painted(line0, from as int, j + 1, fill))
                    =~= s0.cells.update(row as int, painted(line0, from as int, j + 1, fill)));
                j += 1;
            }
            self.dirty = true;
            assert(self@ =~= s0.wiped(row as int, from as int, to as int));
        } else {
            assert(painted(line0, from as int, to as int, fill) =~= line0);
            assert(s0.cells.update(row as int, line0) =~= s0.cells);
            assert(self@ =~= s0.wiped(row as int, from as int, to as int));
        }
        proof {
            let s = self@;
            assert forall|i: int| 0 <= i < s.rows implies (#[trigger] s.cells[i]).len() == s.cols by {
                if i != row {
                    assert(s.cells[i] == s0.cells[i]);
                }
            }
        }
    }

    fn wipe_rows(&mut self, lo: usize, hi: usize)
        requires
            old(self)@.wf(),
            hi <= old(self)@.rows,
        ensures
            final(self)@ == old(self)@.wiped_rows(lo as int, hi as int),
            final(self)@.wf(),
            final(self)@.rows == old(self)@.rows,
            final(self)@.cols == old(self)@.cols,
            final(self)@.row == old(self)@.row,
    {
        proof {
            reveal(Screen::wiped_rows);
        }
        let ghost goal = self@.wiped_rows(lo as int, hi as int);
        let mut r = lo;
        while r < hi
            invariant
                self@.wf(),
                hi <= self@.rows,
                lo <= r || r >= hi,
                goal == self@.wiped_rows(r as int, hi as int),
                self@.rows == old(self)@.rows,
                self@.cols == old(self)@.cols,
                self@.row == old(self)@.row,
            decreases hi - r,
        {
            proof {
                reveal(Screen::wiped_rows);
            }
            let cols = self.cols;
            self.wipe(r, 0, cols);
            r += 1;
        }
    }

    fn lift(&mut self, n: usize)
        requires
            old(self)@.wf(),
            old(self)@.rows > 0,
        ensures
            final(self)@ == old(self)@.lifted(n as int),
            final(self)@.wf(),
            final(self)@.rows == old(self)@.rows,
            final(self)@.bot == old(self)@.bot,
            final(self)@.cols == old(self)@.cols,
            final(self)@.pen == old(self)@.pen,
    {
        proof {
            reveal(Screen::lifted);
        }
        let ghost s0 = self@;
        let fill = self.empty();
        let height = self.bot - self.top + 1;
        let k = if n < height { n } else { height };
        let (top, bot, cols) = (self.top, self.bot, self.cols);
        pull(&mut self.cells, top, bot, k, fill, cols);
        self.dirty = true;
        self.mark = None;
        proof {
            lemma_shift_len(s0.cells, top as int, bot as int, k as int, s0.blank_line(), s0.cols as nat);
            assert(self@ =~= s0.lifted(n as int));
        }
    }

    fn drop(&mut self, n: usize)
        requires
            old(self)@.wf(),
            old(self)@.rows > 0,
        ensures
            final(self)@ == old(self)@.dropped(n as int),
            final(self)@.wf(),
            final(self)@.rows == old(self)@.rows,
            final(self)@.bot == old(self)@.bot,
            final(self)@.cols == old(self)@.cols,
            final(self)@.pen == old(self)@.pen,
    {
        proof {
            reveal(Screen::dropped);
        }
        let ghost s0 = self@;
        let fill = self.empty();
        let height = self.bot - self.top + 1;
        let k = if n < height { n } else { height };
        let (top, bot, cols) = (self.top, self.bot, self.cols);
        push(&mut self.cells, top, bot, k, fill, cols);
        self.dirty = true;
        self.mark = None;
        proof {
            lemma_shift_len(s0.cells, top as int, bot as int, k as int, s0.blank_line(), s0.cols as nat);
            assert(self@ =~= s0.dropped(n as int));
        }
    }

    fn scroll(&mut self)
        requires
            old(self)@.wf(),
            old(self)@.rows > 0,
        ensures
            final(self)@ == old(self)@.scrolled(),
            final(self)@.wf(),
            final(self)@.row < final(self)@.rows,
            final(self)@.rows == old(self)@.rows,
            final(self)@.cols == old(self)@.cols,
            final(self)@.pen == old(self)@.pen,
    {
        if self.live {
            self.scroll_alt();
        } else if self.top > 0 || self.bot + 1 < self.rows {
            self.scroll_region();
        } else {
            self.scroll_full();
        }
    }

    fn scroll_alt(&mut self)
        requires
            old(self)@.wf(),
            old(self)@.rows > 0,
            old(self)@.live,
        ensures
            final(self)@ == old(self)@.scrolled(),
            final(self)@.wf(),
            final(self)@.row < final(self)@.rows,
            final(self)@.rows == old(self)@.rows,
            final(self)@.cols == old(self)@.cols,
            final(self)@.pen == old(self)@.pen,
    {
        proof {
            reveal(Screen::scrolled);
        }
        let ghost s0 = self@;
        let fill = self.empty();
        let cols = self.cols;
        roll_up(&mut self.cells, fill, cols);
        self.row = self.rows - 1;
        self.mark = None;
        assert(self@ =~= s0.scrolled());
    }

    fn scroll_region(&mut self)
        requires
            old(self)@.wf(),
            old(self)@.rows > 0,
            !old(self)@.live,
            old(self)@.top > 0 || old(self)@.bot + 1 < old(self)@.rows,
        ensures
            final(self)@ == old(self)@.scrolled(),
            final(self)@.wf(),
            final(self)@.row < final(self)@.rows,
            final(self)@.rows == old(self)@.rows,
            final(self)@.cols == old(self)@.cols,
            final(self)@.pen == old(self)@.pen,
    {
        proof {
            reveal(Screen::scrolled);
        }
        let ghost s0 = self@;
        self.lift(1);
        self.row = self.bot;
        assert(self@ =~= s0.scrolled());
    }

    fn scroll_full(&mut self)
        requires
            old(self)@.wf(),
            old(self)@.rows > 0,
            !old(self)@.live,
            !(old(self)@.top > 0 || old(self)@.bot + 1 < old(self)@.rows),
        ensures
            final(self)@ == old(self)@.scrolled(),
            final(self)@.wf(),
            final(self)@.row < final(self)@.rows,
            final(self)@.rows == old(self)@.rows,
            final(self)@.cols == old(self)@.cols,
            final(self)@.pen == old(self)@.pen,
    {
        proof {
            reveal(Screen::scrolled);
        }
        let ghost s0 = self@;
        let fill = self.empty();
        let cols = self.cols;
        let top = roll_up(&mut self.cells, fill, cols);
        let dropped = keep(&mut self.past, top);
        if dropped {
            self.mark = lower(self.mark);
        }
        self.off = step_off(self.off, self.past.len());
        self.row = self.rows - 1;
        assert(self@ =~= s0.scrolled());
    }

    fn down(&mut self) -> (m: bool)
        requires
            old(self)@.wf(),
            old(self)@.rows > 0,
        ensures
            (final(self)@, m) == old(self)@.down(),
            final(self)@.wf(),
            final(self)@.row < final(self)@.rows,
            final(self)@.rows == old(self)@.rows,
            final(self)@.cols == old(self)@.cols,
            final(self)@.pen == old(self)@.pen,
    {
        proof {
            reveal(Screen::down);
        }
        if self.row + 1 > self.bot {
            self.scroll();
            true
        } else {
            self.row += 1;
            false
        }
    }

    fn ink(&self, c: char) -> (fill: Cell)
        ensures
            fill == self@.ink_cell(c),
    {
        let (fg, bg) = if self.pen.rev {
            (self.pen.bg, self.pen.fg)
        } else {
            (self.pen.fg, self.pen.bg)
        };
        Cell { glyph: c, fg, bg, under: self.pen.under, strike: self.pen.strike, bold: self.pen.bold }
    }

    fn wrap(&mut self) -> (m: bool)
        requires
            old(self)@.wf(),
            old(self)@.rows > 0,
            old(self)@.col >= old(self)@.cols || old(self)@.row < old(self)@.rows,
        ensures
            (final(self)@, m) == old(self)@.wrapped(),
            final(self)@.wf(),
            final(self)@.row < final(self)@.rows,
            final(self)@.col < old(self)@.cols || final(self)@.col == 0,
            final(self)@.rows == old(self)@.rows,
            final(self)@.cols == old(self)@.cols,
            final(self)@.pen == old(self)@.pen,
    {
        proof {
            reveal(Screen::wrapped);
        }
        if self.col >= self.cols {
            let m = self.down();
            self.col = 0;
            m
        } else {
            false
        }
    }

    fn put(&mut self, fill: Cell, moved: bool)
        requires
            old(self)@.wf(),
            old(self)@.row < old(self)@.rows,
            old(self)@.col < old(self)@.cols,
        ensures
            final(self)@ == old(self)@.put(fill, moved),
            final(self)@.wf(),
    {
        proof {
            reveal(Screen::put);
        }
        let ghost s1 = self@;
        let (r, k) = (self.row, self.col);
        assert(s1.cells[r as int].len() == s1.cols);
        let changed = moved || self.cells[r][k] != fill;
        put_cell(&mut self.cells, r, k, fill, Ghost(self.cols as nat));
        self.dirty = self.dirty || changed;
        self.col = k + 1;
        assert(self@ =~= s1.put(fill, moved));
    }

    /// Writes a character at the cursor with the pen and moves the cursor
    /// right; at the end of a line it wraps to the next line first.
    pub fn print(&mut self, c: char)
        requires
            old(self)@.wf(),
            old(self)@.rows > 0,
            old(self)@.cols > 0,
            old(self)@.col >= old(self)@.cols || old(self)@.row < old(self)@.rows,
        ensures
            final(self)@ == old(self)@.printed(c),
            final(self)@.wf(),
    {
        proof {
            reveal(Screen::printed);
        }
        let fill = self.ink(c);
        let moved = self.wrap();
        self.put(fill, moved);
    }

    fn feed(&mut self)
        requires
            old(self)@.wf(),
            old(self)@.rows > 0,
        ensures
            final(self)@ == old(self)@.fed(),
            final(self)@.wf(),
    {
        let m = self.down();
        self.dirty = self.dirty || m;
    }

    /// Acts on a control byte: line feed, carriage return, backspace, tab.
    pub fn execute(&mut self, byte: u8)
        requires
            old(self)@.wf(),
            (byte == 10 || byte == 11 || byte == 12) ==> old(self)@.rows > 0,
            byte == 9 ==> old(self)@.tab_stop() <= usize::MAX,
        ensures
            final(self)@ == old(self)@.executed(byte),
            final(self)@.wf(),
    {
        proof {
            reveal(Screen::executed);
        }
        if byte == 10 || byte == 11 || byte == 12 {
            self.feed();
        } else if byte == 13 {
            self.col = 0;
        } else if byte == 8 {
            self.col = self.col.saturating_sub(1);
        } else if byte == 9 {
            let width = self.cols.saturating_sub(1);
            let step: usize = if 8 < width { 8 } else { width };
            proof {
                assert((self.col / 8 + 1) * step == old(self)@.tab_stop());
            }
            self.col = (self.col / 8 + 1) * step;
        }
    }


    fn target(&self, ps: &Vec<Vec<u16>>, action: char) -> (t: (usize, usize))
        requires
            self@.wf(),
            self@.csi_ok(params_of(ps@), action),
        ensures
            t == self@.cursor_target(params_of(ps@), action),
            t.0 < usize::MAX,
    {
        let a0 = arg_of(ps, 0, 1) as usize;
        let maxc = self.cols - 1;
        if action == 'A' {
            (most(self.row.saturating_sub(a0), self.top), self.col)
        } else if action == 'B' {
            (least(self.row + a0, self.bot), self.col)
        } else if action == 'C' {
            (self.row, least(self.col + a0, maxc))
        } else if action == 'D' {
            (self.row, self.col.saturating_sub(a0))
        } else if action == 'E' {
            (least(self.row + a0, self.bot), 0)
        } else if action == 'F' {
            (most(self.row.saturating_sub(a0), self.top), 0)
        } else if action == 'G' {
            (self.row, least(a0.saturating_sub(1), maxc))
        } else if action == 'H' || action == 'f' {
            let a1 = arg_of(ps, 1, 1) as usize;
            (least(most(a0.saturating_sub(1), self.top), self.bot), least(a1.saturating_sub(1), maxc))
        } else {
            (least(most(a0.saturating_sub(1), self.top), self.bot), self.col)
        }
    }

    fn move_cursor(&mut self, ps: &Vec<Vec<u16>>, action: char)
        requires
            old(self)@.wf(),
            old(self)@.csi_ok(params_of(ps@), action),
        ensures
            final(self)@ == old(self)@.cursor_moved(params_of(ps@), action),
            final(self)@.wf(),
    {
        proof {
            reveal(Screen::cursor_moved);
        }
        let ghost s0 = self@;
        let t = self.target(ps, action);
        self.row = t.0;
        self.col = t.1;
        assert(self@ =~= s0.cursor_moved(params_of(ps@), action));
    }

    fn erase_display(&mut self, ps: &Vec<Vec<u16>>)
        requires
            old(self)@.wf(),
            old(self)@.csi_ok(params_of(ps@), 'J'),
        ensures
            final(self)@ == old(self)@.display_erased(params_of(ps@)),
            final(self)@.wf(),
    {
        proof {
            reveal(Screen::display_erased);
        }
        let n = arg_of(ps, 0, 0);
        let edge = least(self.col, self.cols - 1);
        let (row, rows, cols) = (self.row, self.rows, self.cols);
        if n == 1 {
            self.wipe_rows(0, row);
            self.wipe(row, 0, edge + 1);
        } else if n == 2 || n == 3 {
            self.wipe_rows(0, rows);
        } else {
            self.wipe(row, edge, cols);
            self.wipe_rows(row + 1, rows);
        }
    }

    fn erase_line(&mut self, ps: &Vec<Vec<u16>>)
        requires
            old(self)@.wf(),
            old(self)@.csi_ok(params_of(ps@), 'K'),
        ensures
            final(self)@ == old(self)@.line_erased(params_of(ps@)),
            final(self)@.wf(),
    {
        proof {
            reveal(Screen::line_erased);
        }
        let n = arg_of(ps, 0, 0);
        let edge = least(self.col, self.cols - 1);
        let (row, cols) = (self.row, self.cols);
        if n == 1 {
            self.wipe(row, 0, edge + 1);
        } else if n == 2 {
            self.wipe(row, 0, cols);
        } else {
            self.wipe(row, edge, cols);
        }
    }

    fn style_cursor(&mut self, ps: &Vec<Vec<u16>>, mid: &[u8])
        requires
            old(self)@.wf(),
        ensures
            final(self)@.wf(),
            final(self)@ == old(self)@.styled_cursor(params_of(ps@), mid@),
    {
        proof {
            reveal(Screen::styled_cursor);
        }
        let ghost s0 = self@;
        if mid.len() == 1 && mid[0] == 0x20 {
            let n = arg_of(ps, 0, 0);
            self.shape = shape_for(n);
            self.blink = n == 0 || n == 1 || n == 3 || n == 5;
            self.phase = true;
            self.dirty = true;
            assert(mid@ =~= seq![0x20u8]);
            assert(self@ =~= s0.styled_cursor(params_of(ps@), mid@));
        } else {
            assert(mid@ != seq![0x20u8]);
        }
    }

    fn set_region(&mut self, ps: &Vec<Vec<u16>>)
        requires
            old(self)@.wf(),
        ensures
            final(self)@ == old(self)@.region_set(params_of(ps@)),
            final(self)@.wf(),
    {
        proof {
            reveal(Screen::region_set);
        }
        let top = (arg_of(ps, 0, 1) as usize).saturating_sub(1);
        let bot = (arg_of(ps, 1, #[verifier::truncate] (self.rows as u16)) as usize).saturating_sub(1);
        if top < bot && bot < self.rows {
            self.top = top;
            self.bot = bot;
            self.row = top;
            self.col = 0;
        }
    }

    fn insert_lines(&mut self, ps: &Vec<Vec<u16>>)
        requires
            old(self)@.wf(),
            old(self)@.rows > 0,
        ensures
            final(self)@ == old(self)@.lines_inserted(params_of(ps@)),
            final(self)@.wf(),
    {
        proof {
            reveal(Screen::lines_inserted);
        }
        let ghost s0 = self@;
        let row = least(most(self.row, self.top), self.bot);
        let a0 = arg_of(ps, 0, 1) as usize;
        let k = least(a0, self.bot - row + 1);
        let fill = self.empty();
        let (bot, cols) = (self.bot, self.cols);
        push(&mut self.cells, row, bot, k, fill, cols);
        self.dirty = true;
        self.mark = None;
        proof {
            lemma_shift_len(s0.cells, row as int, bot as int, k as int, s0.blank_line(), s0.cols as nat);
            assert(self@ =~= s0.lines_inserted(params_of(ps@)));
        }
    }

    fn delete_lines(&mut self, ps: &Vec<Vec<u16>>)
        requires
            old(self)@.wf(),
            old(self)@.rows > 0,
        ensures
            final(self)@ == old(self)@.lines_deleted(params_of(ps@)),
            final(self)@.wf(),
    {
        proof {
            reveal(Screen::lines_deleted);
        }
        let ghost s0 = self@;
        let row = least(most(self.row, self.top), self.bot);
        let a0 = arg_of(ps, 0, 1) as usize;
        let k = least(a0, self.bot - row + 1);
        let fill = self.empty();
        let (bot, cols) = (self.bot, self.cols);
        pull(&mut self.cells, row, bot, k, fill, cols);
        self.dirty = true;
        self.mark = None;
        proof {
            lemma_shift_len(s0.cells, row as int, bot as int, k as int, s0.blank_line(), s0.cols as nat);
            assert(self@ =~= s0.lines_deleted(params_of(ps@)));
        }
    }

    fn render(&mut self, ps: &Vec<Vec<u16>>, mid: &[u8])
        requires
            old(self)@.wf(),
        ensures
            final(self)@.wf(),
            final(self)@ == old(self)@.rendered(params_of(ps@), mid@),
    {
        proof {
            reveal(Screen::rendered);
        }
        let ghost s0 = self@;
        if mid.len() == 0 {
            let f = sgr_list(ps);
            let pen = sgr_pen(self.pen, &self.inks, &f);
            self.pen = pen;
            assert(self@ =~= s0.rendered(params_of(ps@), mid@));
        }
    }

    fn enter(&mut self, clear: bool)
        requires
            old(self)@.wf(),
        ensures
            final(self)@ == old(self)@.entered(clear),
            final(self)@.wf(),
    {
        proof {
            reveal(Screen::entered);
        }
        if self.live {
            return;
        }
        let ghost s0 = self@;
        let fill = self.empty();
        self.save = (self.row, self.col);
        std::mem::swap(&mut self.cells, &mut self.alt);
        if clear {
            clear_lines(&mut self.cells, fill);
        }
        self.row = 0;
        self.col = 0;
        self.off = 0;
        self.top = 0;
        self.bot = self.rows.saturating_sub(1);
        self.live = true;
        self.dirty = true;
        self.mark = None;
        proof {
            let s = self@;
            assert(s =~= s0.entered(clear));
            assert forall|i: int| 0 <= i < s.rows implies (#[trigger] s.cells[i]).len() == s.cols by {
                assert(s0.alt[i].len() == s0.cols);
            }
        }
    }

    fn exit(&mut self)
        requires
            old(self)@.wf(),
        ensures
            final(self)@ == old(self)@.exited(),
            final(self)@.wf(),
    {
        proof {
            reveal(Screen::exited);
        }
        if !self.live {
            return;
        }
        let ghost s0 = self@;
        std::mem::swap(&mut self.cells, &mut self.alt);
        self.row = self.save.0;
        self.col = self.save.1;
        self.live = false;
        self.top = 0;
        self.bot = self.rows.saturating_sub(1);
        self.off = 0;
        self.dirty = true;
        self.mark = None;
        assert(self@ =~= s0.exited());
    }

    fn set_mode(&mut self, p: u16, set: bool)
        requires
            old(self)@.wf(),
        ensures
            final(self)@ == old(self)@.set_mode(p, set),
            final(self)@.wf(),
    {
        proof {
            reveal(Screen::set_mode);
        }
        if p == 1047 || p == 1049 {
            if set {
                self.enter(p == 1049);
            } else {
                self.exit();
            }
        } else {
            let ghost s0 = self@;
            self.show = if p == 25 { set } else { self.show };
            self.dirty = self.dirty || p == 25;
            self.press = if p == 1000 { set } else { self.press };
            self.cell = if p == 1002 { set } else { self.cell };
            self.ext = if p == 1006 { set } else { self.ext };
            self.paste = if p == 2004 { set } else { self.paste };
            self.focus = if p == 1004 { set } else { self.focus };
            assert(self@ =~= s0.flagged(p, set));
        }
    }

    fn set_modes(&mut self, ps: &Vec<Vec<u16>>, mid: &[u8], set: bool)
        requires
            old(self)@.wf(),
        ensures
            final(self)@ == old(self)@.modes_set(params_of(ps@), mid@, set),
            final(self)@.wf(),
    {
        if !holds_byte(mid, 0x3f) {
            return;
        }
        let f = flatten(ps);
        let ghost goal = self@.set_modes(f@, 0, set);
        let mut i: usize = 0;
        while i < f.len()
            invariant
                i <= f@.len(),
                self@.wf(),
                goal == self@.set_modes(f@, i as int, set),
            decreases f@.len() - i,
        {
            proof {
                reveal(Screen::set_modes);
            }
            self.set_mode(f[i], set);
            i += 1;
        }
        proof {
            reveal(Screen::set_modes);
        }
    }

    fn say_position(&mut self)
        requires
            old(self)@.wf(),
            old(self)@.rows > 0,
            old(self)@.cols > 0,
        ensures
            final(self)@.wf(),
            final(self)@ == old(self)@.answered(
                position_reply(
                    (min(old(self)@.row as int, old(self)@.rows - 1) + 1) as nat,
                    (old(self)@.edge() + 1) as nat,
                ),
            ),
    {
        let ghost s0 = self@;
        let r = least(self.row, self.rows - 1) + 1;
        let c = least(self.col, self.cols - 1) + 1;
        self.reply.push(0x1b);
        self.reply.push(0x5b);
        push_decimal(&mut self.reply, r);
        self.reply.push(0x3b);
        push_decimal(&mut self.reply, c);
        self.reply.push(0x52);
        assert(self@.reply =~= s0.reply + position_reply(r as nat, c as nat));
        assert(self@ =~= s0.answered(position_reply(r as nat, c as nat)));
    }

    fn say_size(&mut self)
        requires
            old(self)@.wf(),
        ensures
            final(self)@.wf(),
            final(self)@ == old(self)@.answered(size_reply(old(self)@.rows as nat, old(self)@.cols as nat)),
    {
        let ghost s0 = self@;
        self.reply.push(0x1b);
        self.reply.push(0x5b);
        self.reply.push(0x38);
        self.reply.push(0x3b);
        push_decimal(&mut self.reply, self.rows);
        self.reply.push(0x3b);
        push_decimal(&mut self.reply, self.cols);
        self.reply.push(0x74);
        assert(self@.reply =~= s0.reply + size_reply(s0.rows as nat, s0.cols as nat));
        assert(self@ =~= s0.answered(size_reply(s0.rows as nat, s0.cols as nat)));
    }

    fn say_status(&mut self, ps: &Vec<Vec<u16>>)
        requires
            old(self)@.wf(),
            old(self)@.rows > 0,
            old(self)@.cols > 0,
        ensures
            final(self)@.wf(),
            final(self)@ == old(self)@.status_answered(params_of(ps@)),
    {
        let n = arg_of(ps, 0, 0);
        if n == 5 {
            self.answer(&[0x1b, 0x5b, 0x30, 0x6e]);
            assert(seq![0x1bu8, 0x5b, 0x30, 0x6e] =~= status_ok());
        } else if n == 6 {
            self.say_position();
        }
    }

    fn say_attrs(&mut self, mid: &[u8])
        requires
            old(self)@.wf(),
        ensures
            final(self)@.wf(),
            final(self)@ == old(self)@.attrs_answered(mid@),
    {
        if holds_byte(mid, 0x3e) {
            self.answer(&[0x1b, 0x5b, 0x3e, 0x30, 0x3b, 0x31, 0x30, 0x3b, 0x30, 0x63]);
            assert(seq![0x1bu8, 0x5b, 0x3e, 0x30, 0x3b, 0x31, 0x30, 0x3b, 0x30, 0x63] =~= secondary_attrs());
        } else {
            self.answer(&[0x1b, 0x5b, 0x3f, 0x36, 0x63]);
            assert(seq![0x1bu8, 0x5b, 0x3f, 0x36, 0x63] =~= primary_attrs());
        }
    }

    /// Acts on a control sequence `ESC [ ... action` with parameters `ps` and
    /// intermediate bytes `mid`: cursor movement, erasing, scrolling, line
    /// insertion and deletion, graphic rendition, cursor style, modes and reports.
    pub fn csi_dispatch(&mut self, ps: &Vec<Vec<u16>>, mid: &[u8], action: char)
        requires
            old(self)@.wf(),
            old(self)@.csi_ok(params_of(ps@), action),
        ensures
            final(self)@ == old(self)@.csi(params_of(ps@), mid@, action),
            final(self)@.wf(),
    {
        proof {
            reveal(Screen::csi);
        }
        if action == 'A' || action == 'B' || action == 'C' || action == 'D' || action == 'E'
            || action == 'F' || action == 'G' || action == 'H' || action == 'f' || action == 'd' {
            self.move_cursor(ps, action);
        } else if action == 'J' {
            self.erase_display(ps);
        } else if action == 'K' {
            self.erase_line(ps);
        } else if action == 'X' {
            let edge = least(self.col, self.cols - 1);
            let a0 = arg_of(ps, 0, 1) as usize;
            let row = self.row;
            self.wipe(row, edge, edge + a0);
        } else if action == 'q' {
            self.style_cursor(ps, mid);
        } else if action == 'r' {
            self.set_region(ps);
        } else if action == 'S' {
            let a0 = arg_of(ps, 0, 1) as usize;
            self.lift(a0);
        } else if action == 'T' {
            let a0 = arg_of(ps, 0, 1) as usize;
            self.drop(a0);
        } else if action == 'L' {
            self.insert_lines(ps);
        } else if action == 'M' {
            self.delete_lines(ps);
        } else if action == 'm' {
            self.render(ps, mid);
        } else if action == 'c' {
            self.say_attrs(mid);
        } else if action == 'n' {
            self.say_status(ps);
        } else if action == 't' {
            if arg_of(ps, 0, 0) == 18 {
                self.say_size();
            }
        } else if action == 'h' || action == 'l' {
            self.set_modes(ps, mid, action == 'h');
        }
    }

    /// Acts on an operating system command: `0` and `2` set the title.
    pub fn osc_dispatch(&mut self, ps: &Vec<Vec<u8>>)
        ensures
            final(self)@ == (if ps@.len() >= 2 && (ps@[0]@ == seq![0x30u8] || ps@[0]@ == seq![0x32u8]) {
                Screen { title: Some(lossy_utf8(ps@[1]@)), ..old(self)@ }
            } else {
                old(self)@
            }),
    {
        if ps.len() >= 2 {
            let first = &ps[0];
            let is_title = first.len() == 1 && (first[0] == 0x30 || first[0] == 0x32);
            proof {
                if first.len() == 1 && first[0] == 0x30 {
                    assert(first@ =~= seq![0x30u8]);
                }
                if first.len() == 1 && first[0] == 0x32 {
                    assert(first@ =~= seq![0x32u8]);
                }
                if first@.len() != 1 {
                    assert(first@ != seq![0x30u8]);
                    assert(first@ != seq![0x32u8]);
                }
            }
            if is_title {
                let ghost s0 = self@;
                self.title = Some(text_of_bytes(ps[1].as_slice()));
                assert(self@ =~= (Screen { title: Some(lossy_utf8(ps@[1]@)), ..s0 }));
            }
        }
    }

    fn line(&self, i: usize, base: usize) -> (r: &Vec<Cell>)
        requires
            self@.wf(),
            base == self@.base(),
            i < base + self@.rows,
        ensures
            r@ == self@.line(i as int),
    {
        if !self.live && i < self.past.len() {
            &self.past[i]
        } else {
            &self.cells[i - base]
        }
    }

    fn faint(&self, flat: usize, row: &Vec<Cell>, j: usize) -> (b: bool)
        requires
            j < row@.len(),
        ensures
            b == self@.faint(flat as int, row@, j as int),
    {
        let c = row[j];
        c.glyph == ' ' && c.bg == self.inks.back() && !c.under && !c.strike && !self.inside(flat, j)
    }

    fn cell_span(&self, flat: usize, row: &Vec<Cell>, cur: Option<usize>, i: usize) -> (s: Span)
        requires
            i < row@.len(),
        ensures
            s@ == self@.cell_span(flat as int, row@, cur, i as int),
    {
        let cell = row[i];
        let at_cursor = match cur {
            Some(c) => c == i,
            None => false,
        };
        let glyph = if at_cursor && (!self.blink || self.phase) {
            self.shape.mark()
        } else {
            cell.glyph
        };
        let flip = self.inside(flat, i);
        let back_color = self.inks.back();
        let hue = if flip { cell.bg } else { cell.fg };
        let back = if flip {
            if cell.fg == back_color {
                None
            } else {
                Some(cell.fg)
            }
        } else if cell.bg == back_color {
            None
        } else {
            Some(cell.bg)
        };
        let mut text = String::new();
        push_char(&mut text, glyph);
        assert(text@ =~= seq![glyph]);
        Span { hue, back, text, under: cell.under, strike: cell.strike, bold: cell.bold, col: i }
    }

    fn runs(&self, flat: usize, row: &Vec<Cell>, cur: Option<usize>) -> (out: Vec<Span>)
        requires
            cur matches Some(c) ==> c < usize::MAX,
        ensures
            spans_of(out@) == self@.runs(flat as int, row@, cur),
    {
        let ghost s = self@;
        let mut end = row.len();
        while end > 0 && self.faint(flat, row, end - 1)
            invariant
                end <= row@.len(),
                s == self@,
                s.trail(flat as int, row@, row@.len() as int) == s.trail(flat as int, row@, end as int),
            decreases end,
        {
            end -= 1;
        }
        if let Some(c) = cur {
            end = most(end, least(c + 1, row.len()));
        }
        assert(end as int == s.run_end(flat as int, row@, cur));
        let mut spans: Vec<Span> = Vec::new();
        let mut i: usize = 0;
        assert(spans_of(spans@) =~= s.runs_upto(flat as int, row@, cur, 0));
        while i < end
            invariant
                i <= end <= row@.len(),
                s == self@,
                spans_of(spans@) == s.runs_upto(flat as int, row@, cur, i as int),
            decreases end - i,
        {
            let next = self.cell_span(flat, row, cur, i);
            let ghost prev = spans_of(spans@);
            let n = spans.len();
            if n > 0 && spans[n - 1].hue == next.hue && spans[n - 1].back == next.back
                && spans[n - 1].under == next.under && spans[n - 1].strike == next.strike
                && spans[n - 1].bold == next.bold {
                let mut last = spans.pop().unwrap();
                let ghost t0 = last.text@;
                last.text.append(next.text.as_str());
                spans.push(last);
                assert(spans_of(spans@) =~= prev.update(
                    prev.len() - 1,
                    SpanView { text: prev.last().text + next@.text, ..prev.last() },
                ));
            } else {
                spans.push(next);
                assert(spans_of(spans@) =~= prev.push(next@));
            }
            i += 1;
        }
        spans
    }

    /// What the view shows: a line of runs for each line in view, without
    /// the empty lines at the end, then an empty line for each line the view
    /// is scrolled past the bottom.
    pub fn spans(&self) -> (out: Vec<Vec<Span>>)
        requires
            self@.wf(),
            self@.fits(),
            self@.show && self@.off == 0 ==> self@.base() + self@.row <= usize::MAX,
        ensures
            span_lines(out@) == self@.spans(),
    {
        let ghost s = self@;
        let base = if self.live { 0 } else { self.past.len() };
        let (start, stop) = self.window();
        let at: Option<(usize, usize)> = if self.show && self.off == 0 {
            Some((base + self.row, least(self.col, self.cols.saturating_sub(1))))
        } else {
            None
        };
        let mut out: Vec<Vec<Span>> = Vec::new();
        let mut i = start;
        let ghost lines = s.view_lines();
        while i < stop
            invariant
                start <= i <= stop,
                stop <= base + s.rows,
                s == self@,
                s.wf(),
                base == s.base(),
                start == s.window().0,
                stop == s.window().1,
                lines == s.view_lines(),
                at == (match s.cursor_at() {
                    Some((r, c)) => Some((r as usize, c)),
                    None => None::<(usize, usize)>,
                }),
                s.cursor_at() matches Some((r, c)) ==> 0 <= r <= usize::MAX && c < usize::MAX,
                span_lines(out@) == lines.take(i - start),
            decreases stop - i,
        {
            let cur = match at {
                Some((r, c)) => if r == i { Some(c) } else { None },
                None => None,
            };
            assert(cur == s.cursor_on(i as int));
            let row = self.line(i, base);
            let ghost before = span_lines(out@);
            out.push(self.runs(i, row, cur));
            assert(span_lines(out@) =~= before.push(lines[i - start]));
            assert(lines.take(i + 1 - start) =~= lines.take(i - start).push(lines[i - start]));
            i += 1;
        }
        assert(lines.take(stop - start) =~= lines);
        let ghost full = span_lines(out@);
        while out.len() > 0 && out[out.len() - 1].len() == 0
            invariant
                trimmed(full) == trimmed(span_lines(out@)),
            decreases out@.len(),
        {
            let ghost before = span_lines(out@);
            out.pop();
            assert(span_lines(out@) =~= before.drop_last());
        }
        assert(trimmed(span_lines(out@)) == span_lines(out@));
        let pad: usize = if self.off >= 0 {
            0
        } else if -(self.off as i64) < self.rows as i64 {
            (-(self.off as i64)) as usize
        } else {
            self.rows
        };
        let ghost kept = span_lines(out@);
        let mut k: usize = 0;
        while k < pad
            invariant
                k <= pad,
                span_lines(out@) == kept + Seq::new(k as nat, |_k: int| Seq::<SpanView>::empty()),
            decreases pad - k,
        {
            let ghost before = out@;
            let empty: Vec<Span> = Vec::new();
            assert(spans_of(empty@) =~= Seq::<SpanView>::empty());
            out.push(empty);
            assert(span_lines(out@) =~= span_lines(before).push(Seq::<SpanView>::empty()));
            assert(span_lines(out@) =~= kept + Seq::new((k + 1) as nat, |_k: int| Seq::<SpanView>::empty()));
            k += 1;
        }
        assert(s.spans() =~= kept + Seq::new(pad as nat, |_k: int| Seq::<SpanView>::empty()));
        out
    }

    /// The text the view shows: each line's runs run together, lines joined by newlines.
    pub fn text(&self) -> (t: String)
        requires
            self@.wf(),
            self@.fits(),
            self@.show && self@.off == 0 ==> self@.base() + self@.row <= usize::MAX,
        ensures
            t@ == self@.text(),
    {
        let lines = self.spans();
        let ghost v = self@.spans();
        let ghost texts = Seq::new(v.len(), |k: int| line_text(v[k]));
        let mut t = String::new();
        let mut k: usize = 0;
        while k < lines.len()
            invariant
                k <= lines@.len(),
                span_lines(lines@) == v,
                texts == Seq::new(v.len(), |k: int| line_text(v[k])),
                t@ == joined(texts.take(k as int)),
            decreases lines@.len() - k,
        {
            let ghost before = t@;
            if k > 0 {
                push_char(&mut t, '\n');
            }
            let line = &lines[k];
            let ghost lv = v[k as int];
            let ghost mid = t@;
            append_line(&mut t, line);
            assert(lv == spans_of(line@));
            proof {
                let next = texts.take(k + 1);
                assert(next.drop_last() =~= texts.take(k as int));
                if k == 0 {
                    assert(texts.take(0) =~= seq![]);
                    assert(mid =~= seq![]);
                    assert(t@ =~= joined(next));
                } else {
                    assert(t@ =~= joined(texts.take(k as int)) + seq!['\n'] + texts[k as int]);
                }
            }
            k += 1;
        }
        assert(texts.take(lines@.len() as int) =~= texts);
        t
    }

    /// The selected text: each selected line's characters without trailing
    /// spaces, lines joined by newlines; nothing without a selection.
    pub fn selected(&self) -> (t: String)
        requires
            self@.wf(),
            self@.can_select(),
            self@.base() + self@.rows <= usize::MAX,
        ensures
            t@ == self@.selected(),
    {
        let ghost s = self@;
        match self.mark {
            None => String::new(),
            Some(((r1, c1), (r2, c2))) => {
                let base = if self.live { 0 } else { self.past.len() };
                let total = base + self.rows;
                let stop = least(r2, total.saturating_sub(1));
                let ghost last = min(s.mark_stop(r2), s.base() + s.rows - 1);
                let ghost n = max(last - r1 + 1, 0);
                let ghost pieces = Seq::new(n as nat, |k: int| unpadded(glyphs(s.mark_piece(r1 + k))));
                let mut out = String::new();
                let mut i = r1;
                assert(pieces.take(0) =~= seq![]);
                while i <= stop && i < total
                    invariant
                        s == self@,
                        s.wf(),
                        s.can_select(),
                        s.mark == Some(((r1, c1), (r2, c2))),
                        base == s.base(),
                        total == base + s.rows,
                        stop == s.mark_stop(r2),
                        last == min(s.mark_stop(r2), s.base() + s.rows - 1),
                        n == max(last - r1 + 1, 0),
                        pieces == Seq::new(n as nat, |k: int| unpadded(glyphs(s.mark_piece(r1 + k)))),
                        r1 <= i,
                        i <= last + 1 || i == r1,
                        i - r1 <= n,
                        out@ == joined(pieces.take(i - r1)),
                    decreases total - i,
                {
                    let row = self.line(i, base);
                    let len = row.len();
                    let from = if i == r1 { least(c1, len) } else { 0 };
                    let to = if i == r2 { least(c2 + 1, len) } else { len };
                    let ghost piece = s.mark_piece(i as int);
                    assert(piece == row@.subrange(from as int, to as int));
                    let mut e = to;
                    while e > from && row[e - 1].glyph == ' '
                        invariant
                            from <= e <= to <= row@.len(),
                            unpadded(glyphs(piece)) == unpadded(glyphs(row@.subrange(from as int, e as int))),
                        decreases e,
                    {
                        let ghost g = glyphs(row@.subrange(from as int, e as int));
                        assert(g.drop_last() =~= glyphs(row@.subrange(from as int, e - 1)));
                        e -= 1;
                    }
                    proof {
                        let g = glyphs(row@.subrange(from as int, e as int));
                        if e == from {
                            assert(g =~= seq![]);
                        }
                        assert(unpadded(g) == g);
                    }
                    let ghost before = out@;
                    if i > r1 {
                        push_char(&mut out, '\n');
                    }
                    let ghost mid = out@;
                    let mut j = from;
                    while j < e
                        invariant
                            from <= j <= e <= row@.len(),
                            out@ == mid + glyphs(row@.subrange(from as int, j as int)),
                        decreases e - j,
                    {
                        push_char(&mut out, row[j].glyph);
                        assert(glyphs(row@.subrange(from as int, j + 1)) =~= glyphs(
                            row@.subrange(from as int, j as int),
                        ).push(row@[j as int].glyph));
                        j += 1;
                    }
                    proof {
                        let k = i - r1;
                        assert(pieces[k] == unpadded(glyphs(piece)));
                        let next = pieces.take(k + 1);
                        assert(next.drop_last() =~= pieces.take(k));
                        if k == 0 {
                            assert(pieces.take(0) =~= seq![]);
                            assert(out@ =~= joined(next));
                        } else {
                            assert(out@ =~= joined(pieces.take(k)) + seq!['\n'] + pieces[k]);
                        }
                    }
                    i += 1;
                }
                assert(i - r1 == n);
                assert(pieces.take(n) =~= pieces);
                out
            },
        }
    }
}

} // verus!
