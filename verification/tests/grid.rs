use partty::color::{Color, Palette};
use partty::grid::Grid;
use vte::{Params, Parser, Perform};

struct Feed<'a>(&'a mut Grid);

impl Perform for Feed<'_> {
    fn print(&mut self, c: char) {
        self.0.print(c);
    }

    fn execute(&mut self, byte: u8) {
        self.0.execute(byte);
    }

    fn csi_dispatch(&mut self, params: &Params, mid: &[u8], _ignore: bool, action: char) {
        let ps: Vec<Vec<u16>> = params.iter().map(|group| group.to_vec()).collect();
        self.0.csi_dispatch(&ps, mid, action);
    }

    fn osc_dispatch(&mut self, params: &[&[u8]], _bell: bool) {
        let ps: Vec<Vec<u8>> = params.iter().map(|p| p.to_vec()).collect();
        self.0.osc_dispatch(&ps);
    }
}

fn feed(parse: &mut Parser, grid: &mut Grid, bytes: &[u8]) {
    parse.advance(&mut Feed(grid), bytes);
}

/// The wheel as the window sees it: fractions of a line are kept until they add up.
fn roll_view(grid: &mut Grid, carry: &mut f32, lines: f32) {
    if grid.cursor().2 {
        *carry = 0.0;
        return;
    }
    *carry += lines;
    let whole = carry.trunc() as i32;
    *carry -= whole as f32;
    grid.wheel(whole);
}

fn fed(chunks: &[&str]) -> String {
    let mut grid = Grid::new(24, 80, 24, Palette::default());
    grid.show = false;
    let mut parse = Parser::new();
    for chunk in chunks {
        feed(&mut parse, &mut grid, chunk.as_bytes());
    }
    grid.text()
}

fn tinted(chunks: &[&str]) -> Vec<Vec<(String, (u8, u8, u8))>> {
    let mut grid = Grid::new(24, 80, 24, Palette::default());
    grid.show = false;
    let mut parse = Parser::new();
    for chunk in chunks {
        feed(&mut parse, &mut grid, chunk.as_bytes());
    }
    grid.spans()
        .into_iter()
        .map(|line| {
            line.into_iter()
                .map(|span| (span.text, (span.hue.r(), span.hue.g(), span.hue.b())))
                .collect()
        })
        .collect()
}

fn rgb(slot: usize) -> (u8, u8, u8) {
    let rgb = Palette::default().slots[slot];
    (rgb[0], rgb[1], rgb[2])
}

fn asked(chunks: &[&str]) -> Vec<u8> {
    let mut grid = Grid::new(4, 10, 4, Palette::default());
    let mut parse = Parser::new();
    for chunk in chunks {
        feed(&mut parse, &mut grid, chunk.as_bytes());
    }
    grid.take_reply()
}

fn marked_grid() -> Grid {
    let mut grid = Grid::new(4, 20, 4, Palette::default());
    grid.show = false;
    grid
}

fn six() -> Grid {
    let mut grid = Grid::new(6, 10, 6, Palette::default());
    grid.show = false;
    grid
}

fn painted(chunks: &[&str]) -> Vec<Vec<(String, Option<(u8, u8, u8)>, bool, bool, usize)>> {
    let mut grid = Grid::new(24, 80, 24, Palette::default());
    grid.show = false;
    let mut parse = Parser::new();
    for chunk in chunks {
        feed(&mut parse, &mut grid, chunk.as_bytes());
    }
    grid.spans()
        .into_iter()
        .map(|line| {
            line.into_iter()
                .map(|span| {
                    (
                        span.text,
                        span.back.map(|c| (c.r(), c.g(), c.b())),
                        span.under,
                        span.strike,
                        span.col,
                    )
                })
                .collect()
        })
        .collect()
}

#[test]
fn region_scrolls_inside() {
    let mut grid = six();
    let mut parse = Parser::new();
    feed(&mut parse, &mut grid, b"A\r\nB\r\nC\r\nD\r\nE\r\nF");
    feed(&mut parse, &mut grid, b"\x1b[2;5r\x1b[5;1H\n");
    assert_eq!(grid.text(), "A\nC\nD\nE\n\nF");
}

#[test]
fn su_pulls_up() {
    let mut grid = six();
    let mut parse = Parser::new();
    feed(&mut parse, &mut grid, b"A\r\nB\r\nC\r\nD\r\nE\r\nF");
    feed(&mut parse, &mut grid, b"\x1b[2;5r\x1b[S");
    assert_eq!(grid.text(), "A\nC\nD\nE\n\nF");
}

#[test]
fn sd_pushes_down() {
    let mut grid = six();
    let mut parse = Parser::new();
    feed(&mut parse, &mut grid, b"A\r\nB\r\nC\r\nD\r\nE\r\nF");
    feed(&mut parse, &mut grid, b"\x1b[2;5r\x1b[T");
    assert_eq!(grid.text(), "A\n\nB\nC\nD\nF");
}

#[test]
fn dl_il_shift() {
    let mut grid = six();
    let mut parse = Parser::new();
    feed(&mut parse, &mut grid, b"A\r\nB\r\nC\r\nD\r\nE\r\nF");
    feed(&mut parse, &mut grid, b"\x1b[3;1H\x1b[2L");
    assert_eq!(grid.text(), "A\nB\n\n\nC\nD");
    feed(&mut parse, &mut grid, b"\x1b[2M");
    assert_eq!(grid.text(), "A\nB\nC\nD");
}

#[test]
fn reverse_flips() {
    let mut grid = six();
    let mut parse = Parser::new();
    feed(&mut parse, &mut grid, b"\x1b[7mAB\x1b[27mCD");
    let rows = grid.spans();
    let fore = Palette::default().fore();
    let back = Palette::default().back();
    assert_eq!(rows[0][0].text, "AB");
    assert_eq!(rows[0][0].hue, back);
    assert_eq!(rows[0][0].back, Some(fore));
    assert_eq!(rows[0][1].text, "CD");
    assert_eq!(rows[0][1].hue, fore);
    assert_eq!(rows[0][1].back, None);
}

#[test]
fn cup_clamps_to_region() {
    let mut grid = six();
    let mut parse = Parser::new();
    feed(&mut parse, &mut grid, b"\x1b[2;5r\x1b[1;1H\x1b[6n");
    assert_eq!(grid.take_reply(), b"\x1b[2;1R");
}

#[test]
fn select_reads_text() {
    let mut grid = marked_grid();
    let mut parse = Parser::new();
    feed(&mut parse, &mut grid, b"hello world\r\nsecond\r\n");
    assert_eq!(grid.selected(), "");
    grid.select((0, 0), (0, 4));
    assert_eq!(grid.selected(), "hello");
    grid.select((0, 0), (1, 5));
    assert_eq!(grid.selected(), "hello world\nsecond");
}

#[test]
fn select_flips_video() {
    let mut grid = marked_grid();
    let mut parse = Parser::new();
    feed(&mut parse, &mut grid, b"ab");
    grid.select((0, 0), (0, 0));
    let line = &grid.spans()[0];
    assert_eq!(line.len(), 2);
    assert_ne!(line[0].hue, line[1].hue);
    assert!(line[0].back.is_some());
    assert!(line[1].back.is_none());
}

#[test]
fn scroll_keeps_selection() {
    let mut grid = marked_grid();
    let mut parse = Parser::new();
    feed(&mut parse, &mut grid, b"aa\r\n");
    grid.select((0, 0), (0, 1));
    feed(&mut parse, &mut grid, b"bb\r\ncc\r\ndd\r\n");
    assert_eq!(grid.selected(), "aa");
}

#[test]
fn at_maps_window() {
    let mut grid = marked_grid();
    let mut parse = Parser::new();
    feed(&mut parse, &mut grid, b"1\r\n2\r\n3\r\n4\r\n5\r\n6\r\n");
    let (start, stop) = grid.window();
    assert_eq!(grid.at(0, 0), Some((start, 0)));
    assert_eq!(grid.at(stop - start, 0), None);
}

#[test]
fn dsr_answers_position() {
    assert_eq!(asked(&["\x1b[3;3H", "\x1b[6n"]), b"\x1b[3;3R".to_vec());
}

#[test]
fn dsr_answers_ok() {
    assert_eq!(asked(&["\x1b[5n"]), b"\x1b[0n".to_vec());
}

#[test]
fn da_answers() {
    assert_eq!(asked(&["\x1b[c"]), b"\x1b[?6c".to_vec());
    assert_eq!(asked(&["\x1b[>c"]), b"\x1b[>0;10;0c".to_vec());
}

#[test]
fn winops_answers_size() {
    assert_eq!(asked(&["\x1b[18t"]), b"\x1b[8;4;10t".to_vec());
}

#[test]
fn clicks_report_sgr() {
    let mut grid = Grid::new(4, 10, 4, Palette::default());
    let mut parse = Parser::new();
    feed(&mut parse, &mut grid, b"\x1b[?1000h\x1b[?1006h");
    assert!(grid.mouse());
    grid.click(0, 2, 3, true);
    assert_eq!(grid.take_reply(), b"\x1b[<0;4;3M".to_vec());
    grid.click(0, 2, 3, false);
    assert_eq!(grid.take_reply(), b"\x1b[<3;4;3m".to_vec());
    grid.roll(2, 3, true);
    assert_eq!(grid.take_reply(), b"\x1b[<64;4;3M".to_vec());
    grid.roll(2, 3, false);
    assert_eq!(grid.take_reply(), b"\x1b[<65;4;3M".to_vec());
    feed(&mut parse, &mut grid, b"\x1b[?1000l");
    assert!(!grid.mouse());
}

#[test]
fn clicks_fall_back_to_x10() {
    let mut grid = Grid::new(4, 10, 4, Palette::default());
    let mut parse = Parser::new();
    feed(&mut parse, &mut grid, b"\x1b[?1000h");
    grid.click(1, 0, 0, true);
    assert_eq!(grid.take_reply(), vec![0x1b, b'[', b'M', 33, 33, 33]);
}

#[test]
fn prompt_redraws() {
    assert_eq!(fed(&["%   \r \r", "\r[i] alee @ ~ "]), "[i] alee @ ~");
}

#[test]
fn enter_keeps_single_prompt() {
    let out = fed(&[
        "\rprompt> ",
        "\x1b[?2004l\r\r\n",
        "%   \r \r",
        "\rprompt> ",
    ]);
    assert_eq!(out, "prompt>\nprompt>");
}

#[test]
fn cursor_addresses() {
    assert_eq!(fed(&["\x1b[2;5Hhi"]), "\n    hi");
}

#[test]
fn erase_line() {
    assert_eq!(fed(&["hello\x1b[2K"]), "");
}

#[test]
fn backspace_erases() {
    assert_eq!(fed(&["kk\x08 \x08"]), "k");
}

#[test]
fn split_escape() {
    assert_eq!(fed(&["\x1b[3", "2mhi"]), "hi");
}

#[test]
fn scroll_bounds() {
    assert_eq!(fed(&vec!["x\n"; 24]).lines().count(), 23);
}

#[test]
fn scrollback() {
    let mut grid = Grid::new(4, 10, 4, Palette::default());
    grid.show = false;
    let mut parse = Parser::new();
    let mut carry = 0.0f32;
    feed(&mut parse, &mut grid, b"1\r\n2\r\n3\r\n4\r\n5\r\n6\r\n");
    assert_eq!(grid.text(), "4\n5\n6");
    roll_view(&mut grid, &mut carry, 2.0);
    assert_eq!(grid.text(), "2\n3\n4\n5");
    roll_view(&mut grid, &mut carry, -2.0);
    assert_eq!(grid.text(), "4\n5\n6");
}

#[test]
fn below_caps() {
    let mut grid = Grid::new(4, 10, 1, Palette::default());
    let mut parse = Parser::new();
    let mut carry = 0.0f32;
    feed(&mut parse, &mut grid, b"1\r\n2\r\n3\r\n4\r\n5\r\n6\r\n");
    roll_view(&mut grid, &mut carry, -100.0);
    assert_eq!(grid.text(), "5\n6\n");
}

#[test]
fn bench_text_full_scrollback() {
    let mut grid = Grid::new(22, 104, 22, Palette::default());
    let mut parse = Parser::new();
    let line = "x".repeat(104);
    for _ in 0..1100 {
        feed(&mut parse, &mut grid, line.as_bytes());
        feed(&mut parse, &mut grid, b"\r\n");
    }
    let now = std::time::Instant::now();
    for _ in 0..100 {
        let _ = grid.text();
    }
    println!("text x100: {:?}", now.elapsed());
}

#[test]
fn below_larger_than_rows() {
    let mut grid = Grid::new(4, 10, 100, Palette::default());
    let mut parse = Parser::new();
    let mut carry = 0.0f32;
    feed(&mut parse, &mut grid, b"1\r\n2\r\n3\r\n4\r\n5\r\n6\r\n");
    roll_view(&mut grid, &mut carry, -100.0);
    assert_eq!(grid.text(), "\n\n\n");
}

#[test]
fn scroll_past_bottom() {
    let mut grid = Grid::new(4, 10, 4, Palette::default());
    grid.show = false;
    let mut parse = Parser::new();
    let mut carry = 0.0f32;
    feed(&mut parse, &mut grid, b"1\r\n2\r\n3\r\n4\r\n5\r\n6\r\n");
    roll_view(&mut grid, &mut carry, -2.0);
    assert_eq!(grid.text(), "6\n\n");
    roll_view(&mut grid, &mut carry, -100.0);
    assert_eq!(grid.text(), "\n\n\n");
    feed(&mut parse, &mut grid, b"7\r\n");
    assert_eq!(grid.text(), "5\n6\n7");
}

#[test]
fn same_text_stays_clean() {
    let mut grid = Grid::new(4, 10, 4, Palette::default());
    let mut parse = Parser::new();
    feed(&mut parse, &mut grid, b"hi");
    assert!(grid.take_dirty());
    feed(&mut parse, &mut grid, b"\rhi");
    assert!(!grid.take_dirty());
}

#[test]
fn newline_dirties_only_on_scroll() {
    let mut grid = Grid::new(4, 10, 4, Palette::default());
    let mut parse = Parser::new();
    feed(&mut parse, &mut grid, b"hi\n");
    assert!(grid.take_dirty());
    feed(&mut parse, &mut grid, b"\n");
    assert!(!grid.take_dirty());
}

#[test]
fn clean_erase_stays_clean() {
    let mut grid = Grid::new(4, 10, 4, Palette::default());
    grid.show = false;
    let mut parse = Parser::new();
    feed(&mut parse, &mut grid, b"hi");
    assert!(grid.take_dirty());
    feed(&mut parse, &mut grid, b"\x1b[K");
    assert!(!grid.take_dirty());
    feed(&mut parse, &mut grid, b"\x1b[1G\x1b[K");
    assert!(grid.take_dirty());
    assert_eq!(grid.text(), "");
}

#[test]
fn trailing_paint_survives() {
    let mut grid = Grid::new(4, 10, 4, Palette::default());
    grid.show = false;
    let mut parse = Parser::new();
    feed(&mut parse, &mut grid, b"\x1b[48;2;26;26;28mhi   ");
    let rows = grid.spans();
    assert_eq!(rows.len(), 1);
    assert_eq!(rows[0].len(), 1);
    assert_eq!(rows[0][0].text, "hi   ");
    assert_eq!(rows[0][0].back, Some(Color::rgb(26, 26, 28)));
}

#[test]
fn wheel_keeps_fractions() {
    let mut grid = Grid::new(4, 10, 4, Palette::default());
    grid.show = false;
    let mut parse = Parser::new();
    let mut carry = 0.0f32;
    feed(&mut parse, &mut grid, b"1\r\n2\r\n3\r\n4\r\n5\r\n6\r\n");
    roll_view(&mut grid, &mut carry, 0.6);
    assert_eq!(grid.text(), "4\n5\n6");
    roll_view(&mut grid, &mut carry, 0.6);
    assert_eq!(grid.text(), "3\n4\n5\n6");
}

#[test]
fn sgr_fg() {
    assert_eq!(tinted(&["\x1b[31mhi"]), vec![vec![("hi".into(), rgb(1))]]);
}

#[test]
fn sgr_bold_brightens() {
    assert_eq!(tinted(&["\x1b[1;31mhi"]), vec![vec![("hi".into(), rgb(9))]]);
}

#[test]
fn sgr_reset() {
    let fore = {
        let rgb = Palette::default().fore;
        (rgb[0], rgb[1], rgb[2])
    };
    assert_eq!(
        tinted(&["\x1b[31ma\x1b[0mb"]),
        vec![vec![("a".into(), rgb(1)), ("b".into(), fore)]]
    );
}

#[test]
fn sgr_index() {
    assert_eq!(
        tinted(&["\x1b[38;5;196mx"]),
        vec![vec![("x".into(), (255, 0, 0))]]
    );
}

#[test]
fn sgr_rgb() {
    assert_eq!(
        tinted(&["\x1b[38;2;1;2;3mx"]),
        vec![vec![("x".into(), (1, 2, 3))]]
    );
}

#[test]
fn bg_runs() {
    assert_eq!(
        painted(&["a\x1b[41mb\x1b[49mc"]),
        vec![vec![
            ("a".into(), None, false, false, 0),
            ("b".into(), Some((0xCC, 0, 0)), false, false, 1),
            ("c".into(), None, false, false, 2),
        ]]
    );
}

#[test]
fn ech_erases() {
    assert_eq!(fed(&["ABC\x1b[1;1H\x1b[2X:"]), ": C");
    assert_eq!(fed(&["ABC\x1b[1;1H\x1b[23X:"]), ":");
}

#[test]
fn private_sgr_ignored() {
    let mut grid = Grid::new(4, 10, 4, Palette::default());
    grid.show = false;
    let mut parse = Parser::new();
    feed(&mut parse, &mut grid, b"\x1b[>4;2mhi");
    assert!(!grid.spans()[0][0].under);
}

#[test]
fn deco_flags() {
    assert_eq!(
        painted(&["\x1b[4mu\x1b[24m \x1b[9ms\x1b[29m"]),
        vec![vec![
            ("u".into(), None, true, false, 0),
            (" ".into(), None, false, false, 1),
            ("s".into(), None, false, true, 2),
        ]]
    );
}

#[test]
fn alt_swaps_and_restores() {
    let mut grid = Grid::new(4, 10, 4, Palette::default());
    let mut parse = Parser::new();
    feed(&mut parse, &mut grid, b"main\x1b[?1049h");
    assert_eq!(grid.text(), "\u{2588}");
    feed(&mut parse, &mut grid, b"vim");
    assert_eq!(grid.text(), "vim\u{2588}");
    feed(&mut parse, &mut grid, b"\x1b[?1049l");
    assert_eq!(grid.text(), "main\u{2588}");
}

#[test]
fn alt_has_no_scrollback() {
    let mut grid = Grid::new(4, 10, 4, Palette::default());
    let mut parse = Parser::new();
    let mut carry = 0.0f32;
    feed(&mut parse, &mut grid, b"\x1b[?1049h1\r\n2\r\n3\r\n4\r\n5\r\n6\r\n");
    roll_view(&mut grid, &mut carry, 2.0);
    grid.show = false;
    assert_eq!(grid.text(), "4\n5\n6");
}

#[test]
fn cursor_block() {
    let fore = {
        let rgb = Palette::default().fore;
        (rgb[0], rgb[1], rgb[2])
    };
    let mut grid = Grid::new(24, 80, 24, Palette::default());
    let mut parse = Parser::new();
    feed(&mut parse, &mut grid, b"hi");
    let line = &grid.spans()[0];
    assert_eq!(line.len(), 1);
    assert_eq!(line[0].text, "hi\u{2588}");
    let hue = line[0].hue;
    assert_eq!((hue.r(), hue.g(), hue.b()), fore);
}

#[test]
fn cursor_hides() {
    assert_eq!(fed(&["\x1b[?25lhi"]), "hi");
    let mut grid = Grid::new(4, 10, 4, Palette::default());
    let mut parse = Parser::new();
    let mut carry = 0.0f32;
    feed(&mut parse, &mut grid, b"1\r\n2\r\n3\r\n4\r\n5\r\n6\r\n");
    roll_view(&mut grid, &mut carry, 1.0);
    assert!(!grid.text().contains('\u{2588}'));
}

#[test]
fn resize_clears_cells() {        let mut grid = Grid::new(4, 10, 4, Palette::default());
    grid.show = false;
    let mut parse = Parser::new();
    feed(&mut parse, &mut grid, b"hi");
    grid.resize(2, 5);
    assert_eq!(grid.text(), "");
    feed(&mut parse, &mut grid, b"abc");
    assert_eq!(grid.text(), "abc");
}

#[test]
fn title_sets() {
    let mut grid = Grid::new(4, 10, 4, Palette::default());
    let mut parse = Parser::new();
    feed(&mut parse, &mut grid, b"\x1b]0;work\x07");
    assert_eq!(grid.take_title().as_deref(), Some("work"));
    assert!(grid.take_title().is_none());
    feed(&mut parse, &mut grid, b"\x1b]2;icon+title\x07");
    assert_eq!(grid.take_title().as_deref(), Some("icon+title"));
}

#[test]
fn paste_tracks_mode() {
    let mut grid = Grid::new(4, 10, 4, Palette::default());
    let mut parse = Parser::new();
    assert!(!grid.pastes());
    feed(&mut parse, &mut grid, b"\x1b[?2004h");
    assert!(grid.pastes());
    feed(&mut parse, &mut grid, b"\x1b[?2004l");
    assert!(!grid.pastes());
}

#[test]
fn blink_tracks_shape() {
    let mut grid = Grid::new(4, 10, 4, Palette::default());
    let mut parse = Parser::new();
    feed(&mut parse, &mut grid, b"\x1b[1 q");
    assert!(grid.blinked());
    feed(&mut parse, &mut grid, b"\x1b[2 q");
    assert!(!grid.blinked());
    feed(&mut parse, &mut grid, b"\x1b[0 q");
    assert!(grid.blinked());
}

#[test]
fn phase_hides_cursor() {
    let mut grid = Grid::new(4, 10, 4, Palette::default());
    let mut parse = Parser::new();
    feed(&mut parse, &mut grid, b"\x1b[1 q");
    assert!(grid.spans()[0][0].text.starts_with('█'));
    grid.flip();
    assert_eq!(grid.spans()[0][0].text, " ");
    grid.flip();
    assert!(grid.spans()[0][0].text.starts_with('█'));
}

#[test]
fn cursor_shapes() {
    let mut grid = Grid::new(4, 10, 4, Palette::default());
    let mut parse = Parser::new();
    feed(&mut parse, &mut grid, b"\x1b[3 q");
    assert!(grid.spans()[0][0].text.starts_with('▁'));
    feed(&mut parse, &mut grid, b"\x1b[5 q");
    assert!(grid.spans()[0][0].text.starts_with('▏'));
    feed(&mut parse, &mut grid, b"\x1b[0 q");
    assert!(grid.spans()[0][0].text.starts_with('█'));
}

#[test]
fn focus_reports() {
    let mut grid = Grid::new(4, 10, 4, Palette::default());
    let mut parse = Parser::new();
    feed(&mut parse, &mut grid, b"\x1b[?1004h");
    assert!(grid.focused());
    grid.focus(true);
    assert_eq!(grid.take_reply(), b"\x1b[I");
    grid.focus(false);
    assert_eq!(grid.take_reply(), b"\x1b[O");
    feed(&mut parse, &mut grid, b"\x1b[?1004l");
    assert!(!grid.focused());
}

#[test]
fn bold_sets_weight() {
    let mut grid = Grid::new(4, 10, 4, Palette::default());
    grid.show = false;
    let mut parse = Parser::new();
    feed(&mut parse, &mut grid, b"\x1b[1mhi\x1b[22mlo");
    let spans = grid.spans();
    assert!(spans[0][0].bold);
    assert_eq!(spans[0][0].text, "hi");
    assert!(!spans[0][1].bold);
}

#[test]
fn selection_reads_the_same_either_way() {
    let mut grid = marked_grid();
    let mut parse = Parser::new();
    feed(&mut parse, &mut grid, b"hello world\r\nsecond\r\n");
    grid.select((1, 2), (0, 6));
    let back = grid.selected();
    grid.select((0, 6), (1, 2));
    assert_eq!(grid.selected(), back);
    assert_eq!(back, "world\nsec");
}

#[test]
fn print_writes_at_cursor_and_moves_on() {
    let mut grid = Grid::new(2, 5, 2, Palette::default());
    grid.show = false;
    let mut parse = Parser::new();
    feed(&mut parse, &mut grid, b"ab\x1b[1;2H");
    grid.take_dirty();
    feed(&mut parse, &mut grid, b"b");
    assert!(!grid.take_dirty());
    assert_eq!(grid.cursor().1, 2);
    feed(&mut parse, &mut grid, b"\x1b[1;1Hz");
    assert!(grid.take_dirty());
    assert_eq!(grid.text(), "zb");
}

#[test]
fn wheel_back_and_forth_returns() {
    let mut grid = Grid::new(4, 10, 4, Palette::default());
    grid.show = false;
    let mut parse = Parser::new();
    let mut carry = 0.0f32;
    feed(&mut parse, &mut grid, b"1\r\n2\r\n3\r\n4\r\n5\r\n6\r\n7\r\n");
    let here = grid.text();
    roll_view(&mut grid, &mut carry, 3.0);
    assert_ne!(grid.text(), here);
    roll_view(&mut grid, &mut carry, -3.0);
    assert_eq!(grid.text(), here);
    roll_view(&mut grid, &mut carry, 100.0);
    let top = grid.text();
    roll_view(&mut grid, &mut carry, 1.0);
    assert_eq!(grid.text(), top);
}

#[test]
fn fresh_shape_is_block() {
    assert_eq!(partty::screen::Shape::default(), partty::screen::Shape::Block);
    assert_eq!(partty::screen::Shape::default().mark(), '\u{2588}');
}

#[test]
fn cursor_stays_on_screen_after_sequences() {
    let mut grid = Grid::new(4, 10, 4, Palette::default());
    let mut parse = Parser::new();
    for seq in [&b"\x1b[999B"[..], b"\x1b[999;999H", b"\x1b[2;3r", b"\x1b[999A", b"\x1b[?1049h", b"\x1b[999E", b"\x1b[?1049l", b"\x1b[999d"] {
        feed(&mut parse, &mut grid, seq);
        let (row, col, _, _) = grid.cursor();
        assert!(row < 4, "row {row} after {seq:?}");
        assert!(col < 10, "col {col} after {seq:?}");
    }
}

#[test]
fn runs_tile_the_line() {
    let mut grid = Grid::new(2, 20, 2, Palette::default());
    grid.show = false;
    let mut parse = Parser::new();
    feed(&mut parse, &mut grid, b"ab\x1b[31mcd\x1b[4me\x1b[0mfg");
    let line = &grid.spans()[0];
    assert_eq!(line[0].col, 0);
    for pair in line.windows(2) {
        assert_eq!(pair[1].col, pair[0].col + pair[0].text.chars().count());
        let look = |s: &partty::grid::Span| (s.hue, s.back, s.under, s.strike, s.bold);
        assert_ne!(look(&pair[0]), look(&pair[1]));
    }
    let text: String = line.iter().map(|s| s.text.as_str()).collect();
    assert_eq!(text, "abcdefg");
}
