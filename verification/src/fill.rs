//! The flat strips drawn with the text: backgrounds, underlines and
//! strike-throughs, placed in cells.
use vstd::prelude::*;

use crate::color::Color;
use crate::grid::{span_lines, spans_of, Span};
use crate::screen::SpanView;

verus! {

/// What a strip shows: a run's background, its underline or its strike-through.
#[derive(Clone, Copy, Debug, PartialEq, Eq, Structural)]
pub enum Stroke {
    Back,
    Under,
    Strike,
}

/// A strip over `cols` cells from column `col` of line `row`, in one colour.
#[derive(Clone, Copy, Debug, PartialEq, Eq, Structural)]
pub struct Strip {
    pub row: usize,
    pub col: usize,
    pub cols: usize,
    pub kind: Stroke,
    pub rgb: Color,
}

/// The strips of one run on line `row`: none for an empty run, else its
/// background where it has one, then its underline and its strike-through
/// in its text colour where it has them.
pub open spec fn span_strips(row: usize, s: SpanView) -> Seq<Strip> {
    if s.text.len() == 0 {
        seq![]
    } else {
        let at = |kind: Stroke, rgb: Color|
            Strip { row, col: s.col, cols: s.text.len() as usize, kind, rgb };
        let back = match s.back {
            Some(b) => seq![at(Stroke::Back, b)],
            None => seq![],
        };
        let under = if s.under {
            seq![at(Stroke::Under, s.hue)]
        } else {
            seq![]
        };
        let strike = if s.strike {
            seq![at(Stroke::Strike, s.hue)]
        } else {
            seq![]
        };
        back + under + strike
    }
}

/// The strips of the first `n` runs of line `row`.
pub open spec fn line_strips(row: usize, line: Seq<SpanView>, n: nat) -> Seq<Strip>
    decreases n,
{
    if n == 0 {
        seq![]
    } else {
        line_strips(row, line, (n - 1) as nat) + span_strips(row, line[n - 1])
    }
}

/// The strips of the first `n` lines, line `i` on row `i`.
pub open spec fn screen_strips(lines: Seq<Seq<SpanView>>, n: nat) -> Seq<Strip>
    decreases n,
{
    if n == 0 {
        seq![]
    } else {
        screen_strips(lines, (n - 1) as nat) + line_strips(
            (n - 1) as usize,
            lines[n - 1],
            lines[n - 1].len(),
        )
    }
}

/// The strips of one run on line `row`.
fn strips_of(row: usize, span: &Span, out: &mut Vec<Strip>)
    ensures
        final(out)@ == old(out)@ + span_strips(row, span@),
{
    let cols = span.text.as_str().unicode_len();
    if cols == 0 {
        assert(old(out)@ + span_strips(row, span@) =~= old(out)@);
        return;
    }
    match span.back {
        Some(b) => out.push(Strip { row, col: span.col, cols, kind: Stroke::Back, rgb: b }),
        None => {},
    }
    if span.under {
        out.push(Strip { row, col: span.col, cols, kind: Stroke::Under, rgb: span.hue });
    }
    if span.strike {
        out.push(Strip { row, col: span.col, cols, kind: Stroke::Strike, rgb: span.hue });
    }
    assert(out@ =~= old(out)@ + span_strips(row, span@));
}

/// The strips to draw under and over the text of some lines of runs, line
/// `i` on row `i`.
pub fn strips(lines: &[Vec<Span>]) -> (r: Vec<Strip>)
    ensures
        r@ == screen_strips(span_lines(lines@), lines@.len()),
{
    let mut out: Vec<Strip> = Vec::new();
    let mut r: usize = 0;
    while r < lines.len()
        invariant
            r <= lines@.len(),
            out@ == screen_strips(span_lines(lines@), r as nat),
        decreases lines@.len() - r,
    {
        let line = &lines[r];
        let ghost views = span_lines(lines@);
        assert(views[r as int] == spans_of(line@));
        let ghost start = out@;
        let mut j: usize = 0;
        while j < line.len()
            invariant
                j <= line@.len(),
                r < lines@.len(),
                views == span_lines(lines@),
                views[r as int] == spans_of(line@),
                out@ == start + line_strips(r, spans_of(line@), j as nat),
            decreases line@.len() - j,
        {
            strips_of(r, &line[j], &mut out);
            assert(out@ =~= start + line_strips(r, spans_of(line@), (j + 1) as nat));
            j += 1;
        }
        r += 1;
    }
    out
}

} // verus!
