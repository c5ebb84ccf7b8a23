use partty::color::Palette;
use partty::grid::Grid;
use partty::input::{Act, Button, Input};
use partty::shell::{ElementState, Key, NamedKey};
use vte::{Params, Parser, Perform};

struct Feed<'a>(&'a mut Grid);

impl Perform for Feed<'_> {
    fn print(&mut self, c: char) {
        self.0.print(c);
    }

    fn execute(&mut self, byte: u8) {
        self.0.execute(byte);
    }

    fn csi_dispatch(&mut self, params: &Params, mid: &[u8], _ignore: bool, action: char) {
        let ps: Vec<Vec<u16>> = params.iter().map(|group| group.to_vec()).collect();
        self.0.csi_dispatch(&ps, mid, action);
    }
}

fn grid_with(modes: &[u8]) -> Grid {
    let mut grid = Grid::new(4, 10, 4, Palette::default());
    let mut parse = Parser::new();
    parse.advance(&mut Feed(&mut grid), modes);
    grid
}

#[test]
fn chord_pastes_once() {
    let mut input = Input::new();
    input.ctrl = true;
    input.shift = true;
    let v = Key::Character("V".into());
    let act = input.key(ElementState::Pressed, &v, Some("V"), false, false, false);
    assert!(matches!(act, Act::Paste { primary: false }));
    let act = input.key(ElementState::Pressed, &v, Some("V"), true, false, false);
    assert!(matches!(act, Act::Nothing));
    let act = input.key(ElementState::Released, &v, None, false, false, false);
    assert!(matches!(act, Act::Nothing));
    let other = Key::Character("м".into());
    let act = input.key(ElementState::Pressed, &other, None, false, true, false);
    assert!(matches!(act, Act::Paste { primary: false }));
}

#[test]
fn shift_insert_pastes_and_keys_send() {
    let mut input = Input::new();
    input.shift = true;
    let ins = Key::Named(NamedKey::Insert);
    let act = input.key(ElementState::Pressed, &ins, None, false, false, true);
    assert!(matches!(act, Act::Paste { primary: false }));
    let plain = Input::new();
    match plain.key(ElementState::Pressed, &ins, None, false, false, true) {
        Act::Send(bytes) => assert_eq!(bytes, b"\x1b[2~"),
        _ => panic!("insert sends its sequence"),
    }
    let mut ctrl = Input::new();
    ctrl.ctrl = true;
    match ctrl.key(ElementState::Pressed, &Key::Character("v".into()), None, false, false, false) {
        Act::Send(bytes) => assert_eq!(bytes, vec![22]),
        _ => panic!("ctrl+v alone sends its code"),
    }
}

#[test]
fn buttons_without_reports_paste_primary() {
    let mut grid = grid_with(b"");
    let mut input = Input::new();
    let act = input.button(&mut grid, Button::Middle, true, Some((0, 0)));
    assert!(matches!(act, Act::Paste { primary: true }));
    let act = input.button(&mut grid, Button::Left, true, Some((0, 0)));
    assert!(matches!(act, Act::Nothing));
    assert!(grid.take_reply().is_empty());
    assert!(!input.drag);
}

#[test]
fn buttons_report_and_drag() {
    let mut grid = grid_with(b"\x1b[?1000h\x1b[?1002h\x1b[?1006h");
    let mut input = Input::new();
    let act = input.button(&mut grid, Button::Right, true, Some((2, 3)));
    assert!(matches!(act, Act::Nothing));
    assert_eq!(grid.take_reply(), b"\x1b[<2;4;3M".to_vec());
    assert!(input.drag);
    assert_eq!(input.held, 2);
    input.moved(&mut grid, Some((1, 1)));
    assert_eq!(grid.take_reply(), b"\x1b[<2;2;2M".to_vec());
    input.moved(&mut grid, None);
    assert!(grid.take_reply().is_empty());
    input.button(&mut grid, Button::Right, false, Some((1, 1)));
    assert_eq!(grid.take_reply(), b"\x1b[<3;2;2m".to_vec());
    assert!(!input.drag);
    input.moved(&mut grid, Some((0, 0)));
    assert!(grid.take_reply().is_empty());
    input.button(&mut grid, Button::Other, true, Some((0, 0)));
    input.button(&mut grid, Button::Left, true, None);
    assert!(grid.take_reply().is_empty());
}

#[test]
fn focus_reports_where_asked() {
    let mut grid = grid_with(b"");
    let mut input = Input::new();
    input.drag = true;
    assert!(!input.focused(&mut grid, false));
    assert!(!input.drag);
    let mut grid = grid_with(b"\x1b[?1004h");
    assert!(input.focused(&mut grid, true));
    assert_eq!(grid.take_reply(), b"\x1b[I".to_vec());
    assert!(input.focused(&mut grid, false));
    assert_eq!(grid.take_reply(), b"\x1b[O".to_vec());
}

#[test]
fn wheel_reports_each_step() {
    let mut grid = grid_with(b"");
    let input = Input::new();
    assert!(!input.wheel(&mut grid, 3, Some((0, 0))));
    let mut grid = grid_with(b"\x1b[?1000h\x1b[?1006h");
    assert!(input.wheel(&mut grid, -2, Some((0, 0))));
    assert_eq!(grid.take_reply(), b"\x1b[<65;1;1M\x1b[<65;1;1M".to_vec());
    assert!(input.wheel(&mut grid, 1, Some((1, 2))));
    assert_eq!(grid.take_reply(), b"\x1b[<64;3;2M".to_vec());
    assert!(input.wheel(&mut grid, 0, Some((1, 2))));
    assert!(grid.take_reply().is_empty());
}
