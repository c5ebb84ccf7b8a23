use partty::color::Color;
use partty::fill::{strips, Stroke};
use partty::grid::Span;

fn span(text: &str, col: usize, back: Option<Color>, under: bool, strike: bool) -> Span {
    Span {
        hue: Color::rgb(255, 255, 255),
        back,
        text: text.into(),
        under,
        strike,
        bold: false,
        col,
    }
}

#[test]
fn strips_mark_backgrounds() {
    let lines = vec![vec![
        span("ab", 0, None, false, false),
        span("hi", 2, Some(Color::rgb(255, 0, 0)), false, false),
    ]];
    let out = strips(&lines);
    assert_eq!(out.len(), 1);
    assert_eq!((out[0].row, out[0].col, out[0].cols), (0, 2, 2));
    assert_eq!(out[0].kind, Stroke::Back);
    assert_eq!(out[0].rgb, Color::rgb(255, 0, 0));
}

#[test]
fn strips_under_and_strike_in_text_colour() {
    let lines = vec![
        vec![span("", 0, Some(Color::rgb(1, 1, 1)), true, true)],
        vec![span("سلام", 3, Some(Color::rgb(0, 0, 9)), true, true)],
    ];
    let out = strips(&lines);
    assert_eq!(out.len(), 3);
    let kinds: Vec<Stroke> = out.iter().map(|s| s.kind).collect();
    assert_eq!(kinds, vec![Stroke::Back, Stroke::Under, Stroke::Strike]);
    assert!(out.iter().all(|s| s.row == 1 && s.col == 3 && s.cols == 4));
    assert_eq!(out[1].rgb, Color::rgb(255, 255, 255));
    assert_eq!(out[0].rgb, Color::rgb(0, 0, 9));
}
