//! Sixel drawings: a small interpreter that paints six-pixel columns with
//! colours from a palette, and turns the painted rows into RGBA pixels.
use vstd::prelude::*;

use crate::image::{is_digit, Entry};

verus! {

/// A pixel: red, green, blue and alpha.
pub type Px = (u8, u8, u8, u8);

/// What a drawing holds: its palette, the colour in use, where the next
/// column goes, how wide it has become, and its rows of pixels.
pub struct Canvas {
    pub pal: Seq<Option<(u8, u8, u8)>>,
    pub cur: (u8, u8, u8),
    pub x: int,
    pub y: int,
    pub w: int,
    pub rows: Seq<Seq<Px>>,
}

/// Colour slots a palette has.
pub const SLOTS: usize = 1024;

/// A canvas's shape: a full palette, and no row wider than the width.
pub open spec fn sound(c: Canvas) -> bool {
    &&& c.pal.len() == SLOTS
    &&& 0 <= c.x
    &&& 0 <= c.y
    &&& 0 <= c.w
    &&& forall|i: int| 0 <= i < c.rows.len() ==> #[trigger] c.rows[i].len() <= c.w
}

/// Rows made at least `n` long with empty rows.
pub open spec fn grown(rows: Seq<Seq<Px>>, n: int) -> Seq<Seq<Px>> {
    if rows.len() >= n {
        rows
    } else {
        rows + Seq::new((n - rows.len()) as nat, |i: int| Seq::<Px>::empty())
    }
}

/// A row made at least `n` long with clear pixels.
pub open spec fn padded(row: Seq<Px>, n: int) -> Seq<Px> {
    if row.len() >= n {
        row
    } else {
        row + Seq::new((n - row.len()) as nat, |i: int| (0u8, 0u8, 0u8, 0u8))
    }
}

/// The canvas with the pixel at column `x` of row `y` painted in the colour
/// in use.
pub open spec fn plotted(c: Canvas, x: int, y: int) -> Canvas {
    let rows = grown(c.rows, y + 1);
    let row = padded(rows[y], x + 1).update(x, (c.cur.0, c.cur.1, c.cur.2, 255u8));
    Canvas { rows: rows.update(y, row), w: if c.w < x + 1 { x + 1 } else { c.w }, ..c }
}

/// The canvas with the first `k` bits of a sixel painted, bit `i` at row
/// `y + i` of the current column.
pub open spec fn plot_bits(c: Canvas, bits: u8, k: nat) -> Canvas
    decreases k,
{
    if k == 0 {
        c
    } else {
        let c1 = plot_bits(c, bits, (k - 1) as nat);
        if bits & (1u8 << ((k - 1) as u8)) != 0 {
            plotted(c1, c1.x, c1.y + k - 1)
        } else {
            c1
        }
    }
}

/// Where a run of digits that starts at `i` ends.
pub open spec fn digits_end(s: Seq<u8>, i: int) -> int
    decreases s.len() - i,
{
    if i >= s.len() || !is_digit(s[i]) {
        i
    } else {
        digits_end(s, i + 1)
    }
}

/// The number some digits write, held at 65535 once it would pass it.
pub open spec fn capped(s: Seq<u8>) -> u16
    decreases s.len(),
{
    if s.len() == 0 {
        0
    } else {
        let v = capped(s.drop_last()) * 10 + (s.last() - 0x30);
        if v > 65535 {
            65535
        } else {
            v as u16
        }
    }
}

/// The numbers of a `n;n;n` list from `i` on, after those in `out`, and
/// where the list ends.
pub open spec fn ints_from(s: Seq<u8>, i: nat, out: Seq<u16>) -> (Seq<u16>, nat)
    decreases s.len() - i,
{
    let e = digits_end(s, i as int);
    if e <= i {
        (out, i)
    } else {
        let more = out.push(capped(s.subrange(i as int, e)));
        if e < s.len() && s[e] == 0x3b {
            ints_from(s, (e + 1) as nat, more)
        } else {
            (more, e as nat)
        }
    }
}

/// The numbers of a `n;n;n` list at the start of some bytes, and how many
/// bytes the list takes.
pub open spec fn ints_of(s: Seq<u8>) -> (Seq<u16>, nat) {
    ints_from(s, 0, seq![])
}

/// A colour level out of 100 as a byte.
pub open spec fn shade(v: u16) -> u8 {
    ((if v < 100 {
        v as int
    } else {
        100
    }) * 255 / 100) as u8
}

/// What one control or sixel at `i` does to a canvas, and how many bytes
/// after it belong to it.
pub open spec fn six_step(c: Canvas, d: Seq<u8>, i: int) -> (Canvas, nat) {
    let b = d[i];
    if b == 0x23 {
        let (all, n) = ints_of(d.subrange(i + 1, d.len() as int));
        if all.len() == 5 && all[1] == 2 {
            let col = (shade(all[2]), shade(all[3]), shade(all[4]));
            let pal = if all[0] < SLOTS {
                c.pal.update(all[0] as int, Some(col))
            } else {
                c.pal
            };
            (Canvas { pal, cur: col, ..c }, n)
        } else if all.len() > 0 && all[0] < SLOTS {
            let cur = match c.pal[all[0] as int] {
                Some(k) => k,
                None => (255u8, 255u8, 255u8),
            };
            (Canvas { cur, ..c }, n)
        } else {
            (c, n)
        }
    } else if b == 0x24 {
        (Canvas { x: 0, ..c }, 0)
    } else if b == 0x2d {
        (Canvas { y: c.y + 6, x: 0, ..c }, 0)
    } else if 0x3f <= b <= 0x7e {
        let c1 = plot_bits(c, (b - 0x3f) as u8, 6);
        (Canvas { x: c1.x + 1, ..c1 }, 0)
    } else {
        (c, 0)
    }
}

/// What the sixel data from `i` on does to a canvas.
pub open spec fn six_run(c: Canvas, d: Seq<u8>, i: nat) -> Canvas
    decreases d.len() - i,
{
    if i >= d.len() {
        c
    } else {
        let (c2, n) = six_step(c, d, i as int);
        if i + 1 + n >= d.len() {
            c2
        } else {
            six_run(c2, d, i + 1 + n)
        }
    }
}

/// The four bytes of a pixel.
pub open spec fn px_bytes(p: Px) -> Seq<u8> {
    seq![p.0, p.1, p.2, p.3]
}

/// The bytes of the first `n` pixels of a row, clear past its end.
pub open spec fn row_bytes(row: Seq<Px>, n: nat) -> Seq<u8>
    decreases n,
{
    if n == 0 {
        seq![]
    } else {
        row_bytes(row, (n - 1) as nat) + px_bytes(
            if n - 1 < row.len() {
                row[n - 1]
            } else {
                (0u8, 0u8, 0u8, 0u8)
            },
        )
    }
}

/// The bytes of the first `n` rows, each `w` pixels wide.
pub open spec fn rows_bytes(rows: Seq<Seq<Px>>, w: nat, n: nat) -> Seq<u8>
    decreases n,
{
    if n == 0 {
        seq![]
    } else {
        rows_bytes(rows, w, (n - 1) as nat) + row_bytes(rows[n - 1], w)
    }
}

/// The picture a canvas makes: none while it is empty.
pub open spec fn finished(c: Canvas) -> Option<(u32, u32, Seq<u8>)> {
    if c.w <= 0 || c.rows.len() == 0 {
        None
    } else {
        Some((c.w as u32, c.rows.len() as u32, rows_bytes(c.rows, c.w as nat, c.rows.len())))
    }
}

/// A sixel drawing in progress.
pub struct Six {
    pal: Vec<Option<(u8, u8, u8)>>,
    cur: (u8, u8, u8),
    x: usize,
    y: usize,
    w: usize,
    rows: Vec<Vec<Px>>,
}

impl View for Six {
    type V = Canvas;

    closed spec fn view(&self) -> Canvas {
        Canvas {
            pal: self.pal@,
            cur: self.cur,
            x: self.x as int,
            y: self.y as int,
            w: self.w as int,
            rows: self.rows@.map_values(|r: Vec<Px>| r@),
        }
    }
}

impl Six {
    /// The drawing's shape holds.
    pub open spec fn wf(&self) -> bool {
        sound(self@)
    }

    /// An empty drawing in white, with an empty palette.
    pub fn new() -> (s: Six)
        ensures
            s.wf(),
            s@.pal == Seq::new(SLOTS as nat, |i: int| None::<(u8, u8, u8)>),
            s@.cur == (255u8, 255u8, 255u8),
            s@.x == 0,
            s@.y == 0,
            s@.w == 0,
            s@.rows == Seq::<Seq<Px>>::empty(),
    {
        let mut pal: Vec<Option<(u8, u8, u8)>> = Vec::new();
        while pal.len() < SLOTS
            invariant
                pal.len() <= SLOTS,
                forall|i: int| 0 <= i < pal.len() ==> pal@[i] is None,
            decreases SLOTS - pal.len(),
        {
            pal.push(None);
        }
        let s = Six { pal, cur: (255, 255, 255), x: 0, y: 0, w: 0, rows: Vec::new() };
        assert(s@.pal =~= Seq::new(SLOTS as nat, |i: int| None::<(u8, u8, u8)>));
        assert(s@.rows =~= Seq::<Seq<Px>>::empty());
        s
    }

    /// Paints the pixel at column `x` of row `y` in the colour in use,
    /// growing the drawing to hold it.
    pub fn plot(&mut self, x: usize, y: usize)
        requires
            old(self).wf(),
            x < usize::MAX,
            y < usize::MAX,
        ensures
            final(self).wf(),
            final(self)@ == plotted(old(self)@, x as int, y as int),
    {
        let ghost c = self@;
        let ghost r0 = c.rows;
        while self.rows.len() <= y
            invariant
                self.rows@.len() <= y + 1 || self.rows@.len() == r0.len(),
                self.rows@.len() >= r0.len(),
                self@.rows == grown(r0, self.rows@.len() as int),
                self@ == (Canvas { rows: self@.rows, ..c }),
            decreases y + 1 - self.rows@.len(),
        {
            let ghost before = self@.rows;
            self.rows.push(Vec::new());
            assert(self@.rows =~= before.push(Seq::<Px>::empty()));
            assert(grown(r0, self.rows@.len() as int) =~= grown(r0, self.rows@.len() - 1).push(
                Seq::<Px>::empty(),
            ));
        }
        let ghost rows = grown(r0, y + 1);
        assert(self@.rows == rows);
        let mut row: Vec<Px> = Vec::new();
        self.rows.set_and_swap(y, &mut row);
        let ghost r1 = row@;
        assert(r1 == rows[y as int]);
        while row.len() <= x
            invariant
                row@.len() <= x + 1 || row@.len() == r1.len(),
                row@.len() >= r1.len(),
                row@ == padded(r1, row@.len() as int),
            decreases x + 1 - row@.len(),
        {
            row.push((0, 0, 0, 0));
            assert(padded(r1, row@.len() as int) =~= padded(r1, row@.len() - 1).push(
                (0u8, 0u8, 0u8, 0u8),
            ));
        }
        assert(row@ == padded(r1, x + 1));
        let (r, g, b) = self.cur;
        row.set(x, (r, g, b, 255));
        self.rows.set_and_swap(y, &mut row);
        if self.w < x + 1 {
            self.w = x + 1;
        }
        proof {
            let want = plotted(c, x as int, y as int);
            assert(self@.rows =~= want.rows);
            assert forall|i: int| 0 <= i < self@.rows.len() implies #[trigger] self@.rows[i].len()
                <= self@.w by {
                if i != y && i < r0.len() {
                    assert(self@.rows[i] == r0[i]);
                }
            }
        }
    }

    /// Runs sixel data on the drawing: `#` picks or defines a colour, `$`
    /// goes back to the first column, `-` down six rows, and each byte from
    /// `?` to `~` paints one column of six pixels and moves right.
    pub fn put(&mut self, data: &[u8])
        requires
            old(self).wf(),
            old(self)@.x + data@.len() < usize::MAX,
            old(self)@.y + 6 * data@.len() + 6 < usize::MAX,
        ensures
            final(self).wf(),
            final(self)@ == six_run(old(self)@, data@, 0),
    {
        let ghost c0 = self@;
        let ghost goal = six_run(c0, data@, 0);
        let mut i: usize = 0;
        while i < data.len()
            invariant
                i <= data@.len(),
                self.wf(),
                self@.x <= c0.x + i,
                self@.y <= c0.y + 6 * i,
                c0.x + data@.len() < usize::MAX,
                c0.y + 6 * data@.len() + 6 < usize::MAX,
                six_run(self@, data@, i as nat) == goal,
            decreases data@.len() - i,
        {
            let ghost before = self@;
            let ghost step = six_step(before, data@, i as int);
            let b = data[i];
            if b == 0x23 {
                let (all, n) = ints(&data[i + 1..data.len()]);
                assert(data@.subrange(i + 1, data@.len() as int) =~= data@.subrange(
                    i + 1,
                    data@.len() as int,
                ));
                if all.len() == 5 && all[1] == 2 {
                    let col = (shade_of(all[2]), shade_of(all[3]), shade_of(all[4]));
                    if all[0] < 1024 {
                        self.pal.set(all[0] as usize, Some(col));
                    }
                    self.cur = col;
                } else if all.len() > 0 && all[0] < 1024 {
                    self.cur =
                    match self.pal[all[0] as usize] {
                        Some(k) => k,
                        None => (255, 255, 255),
                    };
                }
                assert(self@ == step.0);
                i = i + 1 + n;
            } else if b == 0x24 {
                self.x = 0;
                i += 1;
            } else if b == 0x2d {
                self.y += 6;
                self.x = 0;
                i += 1;
            } else if 0x3f <= b && b <= 0x7e {
                let bits: u8 = b - 0x3f;
                let mut k: u8 = 0;
                while k < 6
                    invariant
                        k <= 6,
                        self.wf(),
                        self@ == plot_bits(before, bits, k as nat),
                        self@.x == before.x,
                        self@.y == before.y,
                        before.x < usize::MAX,
                        before.y + 6 < usize::MAX,
                    decreases 6 - k,
                {
                    if bits & (1u8 << k) != 0 {
                        self.plot(self.x, self.y + k as usize);
                    }
                    k += 1;
                }
                self.x += 1;
                i += 1;
            } else {
                i += 1;
            }
        }
    }

    /// The picture drawn so far, row by row, each row as wide as the widest;
    /// none while nothing is drawn.
    pub fn finish(self) -> (r: Option<Entry>)
        requires
            self.wf(),
        ensures
            match r {
                Some(e) => finished(self@) == Some((e.w, e.h, e.rgba@)),
                None => finished(self@) is None,
            },
    {
        if self.w == 0 || self.rows.len() == 0 {
            return None;
        }
        let h = self.rows.len();
        let w = self.w;
        let ghost c = self@;
        let mut rgba: Vec<u8> = Vec::new();
        let mut i: usize = 0;
        while i < h
            invariant
                h == self.rows@.len(),
                w == self.w,
                c == self@,
                i <= h,
                rgba@ == rows_bytes(c.rows, w as nat, i as nat),
            decreases h - i,
        {
            let row = &self.rows[i];
            assert(row@ == c.rows[i as int]);
            let ghost start = rgba@;
            let mut j: usize = 0;
            while j < w
                invariant
                    j <= w,
                    rgba@ == start + row_bytes(row@, j as nat),
                decreases w - j,
            {
                let p = if j < row.len() {
                    row[j]
                } else {
                    (0, 0, 0, 0)
                };
                rgba.push(p.0);
                rgba.push(p.1);
                rgba.push(p.2);
                rgba.push(p.3);
                assert(rgba@ =~= start + row_bytes(row@, (j + 1) as nat));
                j += 1;
            }
            i += 1;
        }
        Some(Entry { w: #[verifier::truncate] (w as u32), h: #[verifier::truncate] (h as u32), rgba })
    }
}

/// A colour level out of 100 as a byte.
fn shade_of(v: u16) -> (r: u8)
    ensures
        r == shade(v),
{
    let m: u32 = if v < 100 {
        v as u32
    } else {
        100
    };
    (m * 255 / 100) as u8
}

proof fn lemma_digits_end(s: Seq<u8>, i: int)
    requires
        0 <= i <= s.len(),
    ensures
        i <= digits_end(s, i) <= s.len(),
        forall|j: int| i <= j < digits_end(s, i) ==> is_digit(#[trigger] s[j]),
        digits_end(s, i) < s.len() ==> !is_digit(s[digits_end(s, i)]),
    decreases s.len() - i,
{
    if i < s.len() && is_digit(s[i]) {
        lemma_digits_end(s, i + 1);
    }
}

/// Reads a `n;n;n` list of numbers at the start of some bytes, each held at
/// 65535; returns them and how many bytes they take.
pub fn ints(data: &[u8]) -> (r: (Vec<u16>, usize))
    ensures
        r.0@ == ints_of(data@).0,
        r.1 == ints_of(data@).1,
        r.1 <= data@.len(),
{
    let ghost goal = ints_of(data@);
    let mut out: Vec<u16> = Vec::new();
    let mut i: usize = 0;
    loop
        invariant_except_break
            i <= data@.len(),
            ints_from(data@, i as nat, out@) == goal,
        ensures
            out@ == goal.0,
            i == goal.1,
            i <= data@.len(),
        decreases data@.len() - i,
    {
        let start = i;
        proof {
            lemma_digits_end(data@, start as int);
        }
        let mut n: u16 = 0;
        let mut len: usize = 0;
        while i < data.len() && 0x30 <= data[i] && data[i] <= 0x39
            invariant
                start <= i <= digits_end(data@, start as int),
                len == i - start,
                n == capped(data@.subrange(start as int, i as int)),
                digits_end(data@, start as int) <= data@.len(),
                forall|j: int| start <= j < digits_end(data@, start as int) ==> is_digit(#[trigger] data@[j]),
                digits_end(data@, start as int) < data@.len() ==> !is_digit(data@[digits_end(data@, start as int)]),
            decreases data@.len() - i,
        {
            let v: u32 = (n as u32) * 10 + ((data[i] - 0x30) as u32);
            n = if v > 65535 {
                65535
            } else {
                v as u16
            };
            assert(data@.subrange(start as int, i + 1).drop_last() =~= data@.subrange(
                start as int,
                i as int,
            ));
            len += 1;
            i += 1;
        }
        if len == 0 {
            break;
        }
        out.push(n);
        if i < data.len() && data[i] == 0x3b {
            i += 1;
        } else {
            break;
        }
    }
    (out, i)
}


proof fn lemma_row_bytes_len(row: Seq<Px>, n: nat)
    ensures
        row_bytes(row, n).len() == 4 * n,
    decreases n,
{
    if n > 0 {
        lemma_row_bytes_len(row, (n - 1) as nat);
    }
}

proof fn lemma_rows_bytes_len(rows: Seq<Seq<Px>>, w: nat, n: nat)
    ensures
        rows_bytes(rows, w, n).len() == 4 * w * n,
    decreases n,
{
    if n > 0 {
        lemma_rows_bytes_len(rows, w, (n - 1) as nat);
        lemma_row_bytes_len(rows[n - 1], w);
        let m = (n - 1) as nat;
        assert(rows_bytes(rows, w, n) == rows_bytes(rows, w, m) + row_bytes(rows[n - 1], w));
        assert(4 * w * m + 4 * w == 4 * w * n) by (nonlinear_arith)
            requires
                m + 1 == n,
        ;
    } else {
        assert(4 * w * n == 0) by (nonlinear_arith)
            requires
                n == 0,
        ;
    }
}

/// A finished drawing has four bytes for each pixel of its width by its height.
pub proof fn law_finish_size(c: Canvas)
    requires
        sound(c),
        finished(c) is Some,
    ensures
        finished(c).unwrap().2.len() == 4 * c.w * c.rows.len(),
{
    lemma_rows_bytes_len(c.rows, c.w as nat, c.rows.len());
}

/// Painting a pixel keeps the canvas's shape, gives that pixel the colour in
/// use, fully opaque, and leaves every other pixel that was there as it was.
pub proof fn law_plot_paints(c: Canvas, x: int, y: int)
    requires
        sound(c),
        0 <= x,
        0 <= y,
    ensures
        sound(plotted(c, x, y)),
        plotted(c, x, y).rows[y][x] == (c.cur.0, c.cur.1, c.cur.2, 255u8),
        plotted(c, x, y).w >= x + 1,
        forall|i: int, j: int|
            0 <= i < c.rows.len() && 0 <= j < c.rows[i].len() && (i != y || j != x) ==> #[trigger] plotted(c, x, y).rows[i][j] == c.rows[i][j],
{
    let p = plotted(c, x, y);
    assert forall|i: int| 0 <= i < p.rows.len() implies #[trigger] p.rows[i].len() <= p.w by {
        if i != y && i < c.rows.len() {
            assert(p.rows[i] == c.rows[i]);
        }
    }
}


/// Colours in sixel data: `#r` (a list that does not define a colour) makes
/// the colour slot `r` holds the current one, or white where the slot holds
/// none, and changes nothing else; `#r;2;x;y;z` makes the colour with those
/// levels out of 100 current and, for a slot of the palette, stores it there.
/// Levels run from 0 (none) to 255 (100 and above).
pub proof fn law_sixel_colours(c: Canvas, d: Seq<u8>, i: int)
    requires
        0 <= i < d.len(),
        d[i] == 0x23,
    ensures
        ({
            let all = ints_of(d.subrange(i + 1, d.len() as int)).0;
            let after = six_step(c, d, i).0;
            &&& (all.len() >= 1 && !(all.len() == 5 && all[1] == 2) && all[0] < SLOTS) ==> {
                &&& c.pal[all[0] as int] matches Some(k) ==> after.cur == k
                &&& c.pal[all[0] as int] is None ==> after.cur == (255u8, 255u8, 255u8)
                &&& after == (Canvas { cur: after.cur, ..c })
            }
            &&& (all.len() >= 1 && !(all.len() == 5 && all[1] == 2) && all[0] >= SLOTS) ==> after
                == c
            &&& (all.len() == 5 && all[1] == 2) ==> {
                &&& after.cur == (shade(all[2]), shade(all[3]), shade(all[4]))
                &&& all[0] < SLOTS ==> after.pal == c.pal.update(all[0] as int, Some(after.cur))
                &&& all[0] >= SLOTS ==> after.pal == c.pal
                &&& after.rows == c.rows && after.x == c.x && after.y == c.y
            }
        }),
        shade(0) == 0,
        forall|v: u16| v >= 100 ==> #[trigger] shade(v) == 255,
        forall|u: u16, v: u16| u <= v ==> #[trigger] shade(u) <= #[trigger] shade(v),
{
    assert forall|u: u16, v: u16| u <= v implies #[trigger] shade(u) <= #[trigger] shade(v) by {
        let a: int = if u < 100 { u as int } else { 100 };
        let b: int = if v < 100 { v as int } else { 100 };
        assert(a * 255 / 100 <= b * 255 / 100) by (nonlinear_arith)
            requires
                0 <= a <= b <= 100,
        ;
        assert(b * 255 / 100 <= 255) by (nonlinear_arith)
            requires
                0 <= b <= 100,
        ;
    }
}


/// Moving in sixel data: `$` goes back to the first column, `-` down six
/// rows to the first column, and each sixel byte from `?` to `~` leaves the
/// palette and colour as they were, paints in the current colour only, and
/// moves one column right on the same band; other bytes change nothing.
pub proof fn law_sixel_moves(c: Canvas, d: Seq<u8>, i: int)
    requires
        0 <= i < d.len(),
    ensures
        d[i] == 0x24 ==> six_step(c, d, i) == (Canvas { x: 0, ..c }, 0nat),
        d[i] == 0x2d ==> six_step(c, d, i) == (Canvas { x: 0, y: c.y + 6, ..c }, 0nat),
        0x3f <= d[i] <= 0x7e ==> {
            let after = six_step(c, d, i).0;
            &&& after.x == c.x + 1
            &&& after.y == c.y
            &&& after.pal == c.pal
            &&& after.cur == c.cur
            &&& six_step(c, d, i).1 == 0
        },
        !(d[i] == 0x23 || d[i] == 0x24 || d[i] == 0x2d || (0x3f <= d[i] <= 0x7e)) ==> six_step(
            c,
            d,
            i,
        ) == (c, 0nat),
{
    if 0x3f <= d[i] <= 0x7e {
        lemma_plot_bits_keeps(c, (d[i] - 0x3f) as u8, 6);
    }
}

proof fn lemma_plot_bits_keeps(c: Canvas, bits: u8, k: nat)
    ensures
        plot_bits(c, bits, k).x == c.x,
        plot_bits(c, bits, k).y == c.y,
        plot_bits(c, bits, k).pal == c.pal,
        plot_bits(c, bits, k).cur == c.cur,
    decreases k,
{
    if k > 0 {
        lemma_plot_bits_keeps(c, bits, (k - 1) as nat);
    }
}

} // verus!
