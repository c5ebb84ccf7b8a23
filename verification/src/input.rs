//! What the window does with keyboard and mouse events: which keys paste,
//! which bytes go to the shell, and when clicks, drags, focus changes and
//! wheel steps are reported to the program instead.
use vstd::prelude::*;
use vstd::utf8::encode_utf8;

use crate::grid::Grid;
use crate::screen::Screen;
use crate::shell::{key_seq, text_bytes, ElementState, Key, Shell};

verus! {

/// A mouse button.
#[derive(Clone, Copy, Debug, PartialEq, Eq, Structural)]
pub enum Button {
    Left,
    Middle,
    Right,
    Other,
}

/// The number a button reports as.
pub open spec fn button_code(b: Button) -> Option<u8> {
    match b {
        Button::Left => Some(0u8),
        Button::Middle => Some(1u8),
        Button::Right => Some(2u8),
        Button::Other => None,
    }
}

/// What the window is asked to do after an event.
#[derive(Debug)]
pub enum Act {
    Nothing,
    Paste { primary: bool },
    Send(Vec<u8>),
}

/// What an action is, with the bytes to send as a sequence.
pub enum ActView {
    Nothing,
    Paste(bool),
    Send(Seq<u8>),
}

impl View for Act {
    type V = ActView;

    open spec fn view(&self) -> ActView {
        match self {
            Act::Nothing => ActView::Nothing,
            Act::Paste { primary } => ActView::Paste(*primary),
            Act::Send(v) => ActView::Send(v@),
        }
    }
}

/// What the window keeps between input events: the modifier keys held,
/// whether a button is down and dragging, and that button's number.
#[derive(Clone, Copy, Debug, PartialEq, Eq, Structural)]
pub struct Input {
    pub ctrl: bool,
    pub shift: bool,
    pub alt: bool,
    pub drag: bool,
    pub held: u8,
}

/// Whether a key is the character `v` or `V`.
pub open spec fn is_vee(logical: Key) -> bool {
    match logical {
        Key::Character(c) => encode_utf8(c@) == seq![0x76u8] || encode_utf8(c@) == seq![0x56u8],
        _ => false,
    }
}

/// What a key event asks for: Control+Shift with V (by its character or its
/// place on the keyboard) pastes the clipboard when first pressed, Shift+Insert
/// pastes it too, and any other key sends what it sends.
pub open spec fn key_act(
    inp: Input,
    state: ElementState,
    logical: Key,
    text: Option<Seq<u8>>,
    repeat: bool,
    vee: bool,
    insert: bool,
) -> ActView {
    let hot = inp.ctrl && inp.shift;
    let press = state == ElementState::Pressed && !repeat;
    if hot && (is_vee(logical) || vee) {
        if press {
            ActView::Paste(false)
        } else {
            ActView::Nothing
        }
    } else if press && insert && inp.shift {
        ActView::Paste(false)
    } else {
        match key_seq(state, logical, text, inp.ctrl, inp.alt) {
            Some(b) => ActView::Send(b),
            None => ActView::Nothing,
        }
    }
}

/// A screen after `k` wheel steps reported on a cell.
pub open spec fn rolled(s: Screen, row: usize, col: usize, up: bool, k: nat) -> Screen
    decreases k,
{
    if k == 0 {
        s
    } else {
        rolled(s, row, col, up, (k - 1) as nat).reported(
            if up {
                64
            } else {
                65
            },
            row,
            col,
            true,
        )
    }
}

proof fn lemma_rolled_ext(s: Screen, row: usize, col: usize, up: bool, k: nat)
    ensures
        rolled(s, row, col, up, k).ext == s.ext,
    decreases k,
{
    if k > 0 {
        lemma_rolled_ext(s, row, col, up, (k - 1) as nat);
    }
}

impl Input {
    /// No modifier held and no button down.
    pub fn new() -> (i: Input)
        ensures
            i == (Input { ctrl: false, shift: false, alt: false, drag: false, held: 0 }),
    {
        Input { ctrl: false, shift: false, alt: false, drag: false, held: 0 }
    }

    /// What a key event asks for; `vee` and `insert` tell whether the key in
    /// that place on the keyboard is V or Insert, whatever the layout.
    pub fn key(
        &self,
        state: ElementState,
        logical: &Key,
        text: Option<&str>,
        repeat: bool,
        vee: bool,
        insert: bool,
    ) -> (a: Act)
        ensures
            a@ == key_act(*self, state, *logical, text_bytes(text), repeat, vee, insert),
    {
        let hot = self.ctrl && self.shift;
        let press = state == ElementState::Pressed && !repeat;
        let v_char = match logical {
            Key::Character(c) => {
                let b = c.as_str().as_bytes();
                b.len() == 1 && (b[0] == 0x76 || b[0] == 0x56)
            },
            _ => false,
        };
        proof {
            if let Key::Character(c) = logical {
                assert(v_char == (encode_utf8(c@) == seq![0x76u8] || encode_utf8(c@) == seq![
                    0x56u8,
                ])) by {
                    if encode_utf8(c@) == seq![0x76u8] || encode_utf8(c@) == seq![0x56u8] {
                        assert(encode_utf8(c@).len() == 1);
                    }
                    if v_char {
                        assert(encode_utf8(c@) =~= seq![encode_utf8(c@)[0]]);
                    }
                }
            }
        }
        if hot && (v_char || vee) {
            if press {
                Act::Paste { primary: false }
            } else {
                Act::Nothing
            }
        } else if press && insert && self.shift {
            Act::Paste { primary: false }
        } else {
            match Shell::key(state, logical, text, self.ctrl, self.alt) {
                Some(bytes) => Act::Send(bytes),
                None => Act::Nothing,
            }
        }
    }

    /// Reports a button going down or up on a cell: going down, it becomes
    /// the button held for dragging. Buttons other than the three, clicks off
    /// the grid and cells that cannot be reported change nothing.
    pub fn press(&mut self, grid: &mut Grid, button: Button, pressed: bool, spot: Option<
        (usize, usize),
    >)
        ensures
            match (button_code(button), spot) {
                (Some(code), Some((row, col))) => if Grid::can_report(old(grid)@, row, col) {
                    &&& final(grid)@ == old(grid)@.reported(
                        if pressed {
                            code
                        } else {
                            3
                        },
                        row,
                        col,
                        pressed,
                    )
                    &&& final(self).drag == pressed
                    &&& final(self).held == (if pressed {
                        code
                    } else {
                        old(self).held
                    })
                    &&& final(self).ctrl == old(self).ctrl
                    &&& final(self).shift == old(self).shift
                    &&& final(self).alt == old(self).alt
                } else {
                    &&& final(grid)@ == old(grid)@
                    &&& *final(self) == *old(self)
                },
                _ => {
                    &&& final(grid)@ == old(grid)@
                    &&& *final(self) == *old(self)
                },
            },
    {
        let btn: u8 = match button {
            Button::Left => 0,
            Button::Middle => 1,
            Button::Right => 2,
            Button::Other => {
                return;
            },
        };
        let (row, col) = match spot {
            Some(s) => s,
            None => {
                return;
            },
        };
        if !grid.reportable(row, col) {
            return;
        }
        if pressed {
            self.held = btn;
            self.drag = true;
            grid.click(btn, row, col, true);
        } else {
            self.drag = false;
            grid.click(btn, row, col, false);
        }
    }

    /// A mouse button event: reported to the program where it asked for
    /// clicks; otherwise the middle button pastes the primary selection.
    pub fn button(&mut self, grid: &mut Grid, button: Button, pressed: bool, spot: Option<
        (usize, usize),
    >) -> (a: Act)
        ensures
            old(grid)@.press ==> a@ == ActView::Nothing,
            !old(grid)@.press ==> {
                &&& final(grid)@ == old(grid)@
                &&& *final(self) == *old(self)
                &&& a@ == (if button == Button::Middle && pressed {
                    ActView::Paste(true)
                } else {
                    ActView::Nothing
                })
            },
            old(grid)@.press ==> match (button_code(button), spot) {
                (Some(code), Some((row, col))) => if Grid::can_report(old(grid)@, row, col) {
                    &&& final(grid)@ == old(grid)@.reported(
                        if pressed {
                            code
                        } else {
                            3
                        },
                        row,
                        col,
                        pressed,
                    )
                    &&& final(self).drag == pressed
                    &&& final(self).held == (if pressed {
                        code
                    } else {
                        old(self).held
                    })
                    &&& final(self).ctrl == old(self).ctrl
                    &&& final(self).shift == old(self).shift
                    &&& final(self).alt == old(self).alt
                } else {
                    &&& final(grid)@ == old(grid)@
                    &&& *final(self) == *old(self)
                },
                _ => {
                    &&& final(grid)@ == old(grid)@
                    &&& *final(self) == *old(self)
                },
            },
    {
        if grid.mouse() {
            self.press(grid, button, pressed, spot);
            Act::Nothing
        } else if button == Button::Middle && pressed {
            Act::Paste { primary: true }
        } else {
            Act::Nothing
        }
    }

    /// The pointer moved onto a cell (or off the grid): while a button drags
    /// and the program asked for drag reports, the held button is reported there.
    pub fn moved(&self, grid: &mut Grid, spot: Option<(usize, usize)>)
        ensures
            match spot {
                Some((row, col)) => if old(grid)@.press && self.drag && old(grid)@.cell
                    && Grid::can_report(old(grid)@, row, col) {
                    final(grid)@ == old(grid)@.reported(self.held, row, col, true)
                } else {
                    final(grid)@ == old(grid)@
                },
                None => final(grid)@ == old(grid)@,
            },
    {
        if grid.mouse() && self.drag && grid.motion() {
            match spot {
                Some((row, col)) => {
                    if grid.reportable(row, col) {
                        grid.click(self.held, row, col, true);
                    }
                },
                None => {},
            }
        }
    }

    /// The window gained or lost focus: losing it ends any drag, and the
    /// program hears of it where it asked to; returns whether it did.
    pub fn focused(&mut self, grid: &mut Grid, inside: bool) -> (told: bool)
        ensures
            told == old(grid)@.focus,
            final(self).drag == (old(self).drag && inside),
            final(self).held == old(self).held,
            final(self).ctrl == old(self).ctrl,
            final(self).shift == old(self).shift,
            final(self).alt == old(self).alt,
            told ==> final(grid)@ == old(grid)@.answered(crate::screen::focus_reply(inside)),
            !told ==> final(grid)@ == old(grid)@,
    {
        if !inside {
            self.drag = false;
        }
        if grid.focused() {
            grid.focus(inside);
            true
        } else {
            false
        }
    }

    /// Whole wheel steps, up for positive: reported on a cell where the
    /// program asked for clicks, one report a step; returns whether the
    /// program took them, and the window scrolls its history where not.
    pub fn wheel(&self, grid: &mut Grid, n: i32, spot: Option<(usize, usize)>) -> (taken: bool)
        requires
            n != i32::MIN,
        ensures
            taken == old(grid)@.press,
            match spot {
                Some((row, col)) => if taken && n != 0 && Grid::can_report(old(grid)@, row, col) {
                    final(grid)@ == rolled(
                        old(grid)@,
                        row,
                        col,
                        n > 0,
                        (if n < 0 {
                            -n
                        } else {
                            n as int
                        }) as nat,
                    )
                } else {
                    final(grid)@ == old(grid)@
                },
                None => final(grid)@ == old(grid)@,
            },
    {
        if !grid.mouse() {
            return false;
        }
        if n != 0 {
            match spot {
                Some((row, col)) => {
                    if grid.reportable(row, col) {
                        let steps: u32 = if n < 0 {
                            (-n) as u32
                        } else {
                            n as u32
                        };
                        let ghost s0 = grid@;
                        let mut k: u32 = 0;
                        while k < steps
                            invariant
                                k <= steps,
                                Grid::can_report(s0, row, col),
                                grid@ == rolled(s0, row, col, n > 0, k as nat),
                            decreases steps - k,
                        {
                            proof {
                                lemma_rolled_ext(s0, row, col, n > 0, k as nat);
                            }
                            grid.roll(row, col, n > 0);
                            k += 1;
                        }
                    }
                },
                None => {},
            }
        }
        true
    }
}

} // verus!
