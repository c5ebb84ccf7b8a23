//! What the shell is sent for a key: plain text, the escape sequences of the
//! editing keys, control codes, and the Escape prefix that Alt adds.
use vstd::prelude::*;
use vstd::utf8::encode_utf8;

verus! {

/// Whether a key went down or came up.
#[derive(Clone, Copy, Debug, PartialEq, Eq, Structural)]
pub enum ElementState {
    Pressed,
    Released,
}

/// The named keys that send something of their own; `Other` stands for
/// every other named key.
#[derive(Clone, Copy, Debug, PartialEq, Eq, Structural)]
pub enum NamedKey {
    Enter,
    Backspace,
    Tab,
    Escape,
    ArrowUp,
    ArrowDown,
    ArrowRight,
    ArrowLeft,
    Home,
    End,
    Insert,
    Delete,
    PageUp,
    PageDown,
    Other,
}

/// A key as the keyboard layout reads it: a named key, the text of a
/// character key, or a key of neither kind.
#[derive(Debug)]
pub enum Key {
    Named(NamedKey),
    Character(String),
    Unidentified,
}

/// What a named key sends alone.
pub open spec fn plain_seq(k: NamedKey) -> Option<Seq<u8>> {
    match k {
        NamedKey::Enter => Some(seq![0x0du8]),
        NamedKey::Backspace => Some(seq![0x7fu8]),
        NamedKey::Tab => Some(seq![0x09u8]),
        NamedKey::Escape => Some(seq![0x1bu8]),
        NamedKey::ArrowUp => Some(seq![0x1bu8, 0x5b, 0x41]),
        NamedKey::ArrowDown => Some(seq![0x1bu8, 0x5b, 0x42]),
        NamedKey::ArrowRight => Some(seq![0x1bu8, 0x5b, 0x43]),
        NamedKey::ArrowLeft => Some(seq![0x1bu8, 0x5b, 0x44]),
        NamedKey::Home => Some(seq![0x1bu8, 0x5b, 0x48]),
        NamedKey::End => Some(seq![0x1bu8, 0x5b, 0x46]),
        NamedKey::Insert => Some(seq![0x1bu8, 0x5b, 0x32, 0x7e]),
        NamedKey::Delete => Some(seq![0x1bu8, 0x5b, 0x33, 0x7e]),
        NamedKey::PageUp => Some(seq![0x1bu8, 0x5b, 0x35, 0x7e]),
        NamedKey::PageDown => Some(seq![0x1bu8, 0x5b, 0x36, 0x7e]),
        NamedKey::Other => None,
    }
}

/// What a named key sends with Control held: the xterm sequences with
/// modifier 5, for the arrows and the editing keys only.
pub open spec fn modified_seq(k: NamedKey) -> Option<Seq<u8>> {
    match k {
        NamedKey::ArrowUp => Some(seq![0x1bu8, 0x5b, 0x31, 0x3b, 0x35, 0x41]),
        NamedKey::ArrowDown => Some(seq![0x1bu8, 0x5b, 0x31, 0x3b, 0x35, 0x42]),
        NamedKey::ArrowRight => Some(seq![0x1bu8, 0x5b, 0x31, 0x3b, 0x35, 0x43]),
        NamedKey::ArrowLeft => Some(seq![0x1bu8, 0x5b, 0x31, 0x3b, 0x35, 0x44]),
        NamedKey::Home => Some(seq![0x1bu8, 0x5b, 0x31, 0x3b, 0x35, 0x48]),
        NamedKey::End => Some(seq![0x1bu8, 0x5b, 0x31, 0x3b, 0x35, 0x46]),
        NamedKey::Insert => Some(seq![0x1bu8, 0x5b, 0x32, 0x3b, 0x35, 0x7e]),
        NamedKey::Delete => Some(seq![0x1bu8, 0x5b, 0x33, 0x3b, 0x35, 0x7e]),
        NamedKey::PageUp => Some(seq![0x1bu8, 0x5b, 0x35, 0x3b, 0x35, 0x7e]),
        NamedKey::PageDown => Some(seq![0x1bu8, 0x5b, 0x36, 0x3b, 0x35, 0x7e]),
        _ => None,
    }
}

/// The control code of a one-byte character with Control held: letters of
/// either case give 1 to 26, and `@`, space, `[`, `\`, `]`, `^`, `_`, `/`
/// and `?` give the codes around them.
pub open spec fn control_code(held: Seq<u8>) -> Option<u8> {
    if held.len() != 1 {
        None
    } else {
        let b = held[0];
        if 0x61 <= b <= 0x7a {
            Some((b - 0x61 + 1) as u8)
        } else if 0x41 <= b <= 0x5a {
            Some((b - 0x41 + 1) as u8)
        } else if b == 0x20 || b == 0x40 {
            Some(0u8)
        } else if b == 0x5b {
            Some(27u8)
        } else if b == 0x5c {
            Some(28u8)
        } else if b == 0x5d {
            Some(29u8)
        } else if b == 0x5e {
            Some(30u8)
        } else if b == 0x5f || b == 0x2f {
            Some(31u8)
        } else if b == 0x3f {
            Some(127u8)
        } else {
            None
        }
    }
}

/// What a key sends before Alt is counted: with Control, a control code or a
/// modified sequence; without, a named key's sequence or else its text.
pub open spec fn unprefixed(logical: Key, text: Option<Seq<u8>>, ctrl: bool) -> Option<Seq<u8>> {
    if ctrl {
        match logical {
            Key::Character(c) => match control_code(encode_utf8(c@)) {
                Some(code) => Some(seq![code]),
                None => None,
            },
            Key::Named(k) => modified_seq(k),
            Key::Unidentified => None,
        }
    } else {
        match logical {
            Key::Named(k) => match plain_seq(k) {
                Some(s) => Some(s),
                None => text,
            },
            _ => text,
        }
    }
}

/// What a key event sends: nothing on release, else what the key sends,
/// after an Escape where Alt is held.
pub open spec fn key_seq(
    state: ElementState,
    logical: Key,
    text: Option<Seq<u8>>,
    ctrl: bool,
    alt: bool,
) -> Option<Seq<u8>> {
    if state != ElementState::Pressed {
        None
    } else {
        match unprefixed(logical, text, ctrl) {
            Some(s) => Some(
                if alt {
                    seq![0x1bu8] + s
                } else {
                    s
                },
            ),
            None => None,
        }
    }
}

/// The text a key event carries, as bytes.
pub open spec fn text_bytes(text: Option<&str>) -> Option<Seq<u8>> {
    match text {
        Some(t) => Some(encode_utf8(t@)),
        None => None,
    }
}

/// The keyboard side of the shell: the bytes each key event sends.
pub struct Shell;

impl Shell {
    /// A terminal size in rows and columns as a pseudo-terminal holds it:
    /// each held at the largest 16-bit count.
    pub fn size(rows: usize, cols: usize) -> (r: (u16, u16))
        ensures
            r.0 == (if rows < 0xffff { rows } else { 0xffff }),
            r.1 == (if cols < 0xffff { cols } else { 0xffff }),
    {
        let r: u16 = if rows < 0xffff { rows as u16 } else { 0xffff };
        let c: u16 = if cols < 0xffff { cols as u16 } else { 0xffff };
        (r, c)
    }

    /// The bytes a key event sends to the shell, if any.
    pub fn key(state: ElementState, logical: &Key, text: Option<&str>, ctrl: bool, alt: bool) -> (r:
        Option<Vec<u8>>)
        ensures
            match r {
                Some(b) => key_seq(state, *logical, text_bytes(text), ctrl, alt) == Some(b@),
                None => key_seq(state, *logical, text_bytes(text), ctrl, alt) is None,
            },
    {
        if state != ElementState::Pressed {
            return None;
        }
        let base = if ctrl {
            match logical {
                Key::Character(c) => Self::control(c.as_str()),
                Key::Named(key) => Self::modified(key),
                Key::Unidentified => None,
            }
        } else {
            let named = match logical {
                Key::Named(key) => Self::plain(key),
                _ => None,
            };
            match named {
                Some(b) => Some(b),
                None => match text {
                    Some(t) => {
                        let mut v: Vec<u8> = Vec::new();
                        let bytes = t.as_bytes();
                        let mut i: usize = 0;
                        while i < bytes.len()
                            invariant
                                i <= bytes@.len(),
                                v@ == bytes@.take(i as int),
                            decreases bytes@.len() - i,
                        {
                            v.push(bytes[i]);
                            assert(bytes@.take(i + 1) =~= bytes@.take(i as int).push(bytes@[i as int]));
                            i += 1;
                        }
                        assert(bytes@.take(bytes@.len() as int) =~= bytes@);
                        Some(v)
                    },
                    None => None,
                },
            }
        };
        match base {
            Some(mut code) => {
                if alt {
                    code.insert(0, 0x1b);
                    assert(code@ =~= seq![0x1bu8] + unprefixed(*logical, text_bytes(text), ctrl).unwrap());
                }
                Some(code)
            },
            None => None,
        }
    }

    /// What a named key sends alone.
    fn plain(key: &NamedKey) -> (r: Option<Vec<u8>>)
        ensures
            match r {
                Some(b) => plain_seq(*key) == Some(b@),
                None => plain_seq(*key) is None,
            },
    {
        let v: Vec<u8> = match key {
            NamedKey::Enter => vec![0x0d],
            NamedKey::Backspace => vec![0x7f],
            NamedKey::Tab => vec![0x09],
            NamedKey::Escape => vec![0x1b],
            NamedKey::ArrowUp => vec![0x1b, 0x5b, 0x41],
            NamedKey::ArrowDown => vec![0x1b, 0x5b, 0x42],
            NamedKey::ArrowRight => vec![0x1b, 0x5b, 0x43],
            NamedKey::ArrowLeft => vec![0x1b, 0x5b, 0x44],
            NamedKey::Home => vec![0x1b, 0x5b, 0x48],
            NamedKey::End => vec![0x1b, 0x5b, 0x46],
            NamedKey::Insert => vec![0x1b, 0x5b, 0x32, 0x7e],
            NamedKey::Delete => vec![0x1b, 0x5b, 0x33, 0x7e],
            NamedKey::PageUp => vec![0x1b, 0x5b, 0x35, 0x7e],
            NamedKey::PageDown => vec![0x1b, 0x5b, 0x36, 0x7e],
            NamedKey::Other => {
                return None;
            },
        };
        assert(plain_seq(*key) == Some(v@));
        Some(v)
    }

    /// The control code a one-character text sends with Control held.
    fn control(c: &str) -> (r: Option<Vec<u8>>)
        ensures
            match r {
                Some(b) => control_code(encode_utf8(c@)) matches Some(code) && b@ == seq![code],
                None => control_code(encode_utf8(c@)) is None,
            },
    {
        let held = c.as_bytes();
        if held.len() != 1 {
            return None;
        }
        let b = held[0];
        let code: u8 = if 0x61 <= b && b <= 0x7a {
            b - 0x61 + 1
        } else if 0x41 <= b && b <= 0x5a {
            b - 0x41 + 1
        } else if b == 0x20 || b == 0x40 {
            0
        } else if b == 0x5b {
            27
        } else if b == 0x5c {
            28
        } else if b == 0x5d {
            29
        } else if b == 0x5e {
            30
        } else if b == 0x5f || b == 0x2f {
            31
        } else if b == 0x3f {
            127
        } else {
            return None;
        };
        let v = vec![code];
        assert(v@ =~= seq![code]);
        Some(v)
    }

    /// What a named key sends with Control held.
    fn modified(key: &NamedKey) -> (r: Option<Vec<u8>>)
        ensures
            match r {
                Some(b) => modified_seq(*key) == Some(b@),
                None => modified_seq(*key) is None,
            },
    {
        let v: Vec<u8> = match key {
            NamedKey::ArrowUp => vec![0x1b, 0x5b, 0x31, 0x3b, 0x35, 0x41],
            NamedKey::ArrowDown => vec![0x1b, 0x5b, 0x31, 0x3b, 0x35, 0x42],
            NamedKey::ArrowRight => vec![0x1b, 0x5b, 0x31, 0x3b, 0x35, 0x43],
            NamedKey::ArrowLeft => vec![0x1b, 0x5b, 0x31, 0x3b, 0x35, 0x44],
            NamedKey::Home => vec![0x1b, 0x5b, 0x31, 0x3b, 0x35, 0x48],
            NamedKey::End => vec![0x1b, 0x5b, 0x31, 0x3b, 0x35, 0x46],
            NamedKey::Insert => vec![0x1b, 0x5b, 0x32, 0x3b, 0x35, 0x7e],
            NamedKey::Delete => vec![0x1b, 0x5b, 0x33, 0x3b, 0x35, 0x7e],
            NamedKey::PageUp => vec![0x1b, 0x5b, 0x35, 0x3b, 0x35, 0x7e],
            NamedKey::PageDown => vec![0x1b, 0x5b, 0x36, 0x3b, 0x35, 0x7e],
            _ => {
                return None;
            },
        };
        assert(modified_seq(*key) == Some(v@));
        Some(v)
    }
}

/// Alt sends exactly what the key sends without it, after an Escape.
pub proof fn law_alt_prefixes_escape(
    state: ElementState,
    logical: Key,
    text: Option<Seq<u8>>,
    ctrl: bool,
)
    ensures
        key_seq(state, logical, text, ctrl, true) == (match key_seq(state, logical, text, ctrl, false) {
            Some(s) => Some(seq![0x1bu8] + s),
            None => None,
        }),
{
}

/// A released key sends nothing.
pub proof fn law_release_sends_nothing(logical: Key, text: Option<Seq<u8>>, ctrl: bool, alt: bool)
    ensures
        key_seq(ElementState::Released, logical, text, ctrl, alt) is None,
{
}

/// Control with a letter sends the same code in either case, the letter's
/// place in the alphabet; every control code is below space or is DEL.
pub proof fn law_control_codes(b: u8)
    ensures
        0x61 <= b <= 0x7a ==> control_code(seq![b]) == Some((b - 0x60) as u8) && control_code(
            seq![(b - 0x20) as u8],
        ) == control_code(seq![b]),
        forall|held: Seq<u8>|
            #[trigger] control_code(held) matches Some(v) ==> v < 0x20 || v == 0x7f,
{
}


/// The named keys send xterm's sequences: carriage return, DEL, tab and
/// Escape for Enter, Backspace, Tab and Escape; `ESC [ A`, `B`, `C`, `D` for
/// up, down, right and left; `ESC [ H` and `F` for Home and End; `ESC [ 2 ~`,
/// `3 ~`, `5 ~`, `6 ~` for Insert, Delete, Page Up and Page Down. With
/// Control, the cursor and editing keys add modifier 5 (`ESC [ 1 ; 5 A`,
/// `ESC [ 3 ; 5 ~`, ...); Control with Enter, Backspace, Tab or Escape sends nothing.
pub proof fn law_named_key_bytes(text: Option<Seq<u8>>)
    ensures
        key_seq(ElementState::Pressed, Key::Named(NamedKey::Enter), text, false, false) == Some(seq![0x0du8]),
        key_seq(ElementState::Pressed, Key::Named(NamedKey::Backspace), text, false, false) == Some(seq![0x7fu8]),
        key_seq(ElementState::Pressed, Key::Named(NamedKey::Tab), text, false, false) == Some(seq![0x09u8]),
        key_seq(ElementState::Pressed, Key::Named(NamedKey::Escape), text, false, false) == Some(seq![0x1bu8]),
        key_seq(ElementState::Pressed, Key::Named(NamedKey::ArrowUp), text, false, false) == Some(seq![0x1bu8, 0x5b, 0x41]),
        key_seq(ElementState::Pressed, Key::Named(NamedKey::ArrowDown), text, false, false) == Some(seq![0x1bu8, 0x5b, 0x42]),
        key_seq(ElementState::Pressed, Key::Named(NamedKey::ArrowRight), text, false, false) == Some(seq![0x1bu8, 0x5b, 0x43]),
        key_seq(ElementState::Pressed, Key::Named(NamedKey::ArrowLeft), text, false, false) == Some(seq![0x1bu8, 0x5b, 0x44]),
        key_seq(ElementState::Pressed, Key::Named(NamedKey::Home), text, false, false) == Some(seq![0x1bu8, 0x5b, 0x48]),
        key_seq(ElementState::Pressed, Key::Named(NamedKey::End), text, false, false) == Some(seq![0x1bu8, 0x5b, 0x46]),
        key_seq(ElementState::Pressed, Key::Named(NamedKey::Insert), text, false, false) == Some(seq![0x1bu8, 0x5b, 0x32, 0x7e]),
        key_seq(ElementState::Pressed, Key::Named(NamedKey::Delete), text, false, false) == Some(seq![0x1bu8, 0x5b, 0x33, 0x7e]),
        key_seq(ElementState::Pressed, Key::Named(NamedKey::PageUp), text, false, false) == Some(seq![0x1bu8, 0x5b, 0x35, 0x7e]),
        key_seq(ElementState::Pressed, Key::Named(NamedKey::PageDown), text, false, false) == Some(seq![0x1bu8, 0x5b, 0x36, 0x7e]),
        key_seq(ElementState::Pressed, Key::Named(NamedKey::ArrowUp), text, true, false) == Some(seq![0x1bu8, 0x5b, 0x31, 0x3b, 0x35, 0x41]),
        key_seq(ElementState::Pressed, Key::Named(NamedKey::ArrowDown), text, true, false) == Some(seq![0x1bu8, 0x5b, 0x31, 0x3b, 0x35, 0x42]),
        key_seq(ElementState::Pressed, Key::Named(NamedKey::ArrowRight), text, true, false) == Some(seq![0x1bu8, 0x5b, 0x31, 0x3b, 0x35, 0x43]),
        key_seq(ElementState::Pressed, Key::Named(NamedKey::ArrowLeft), text, true, false) == Some(seq![0x1bu8, 0x5b, 0x31, 0x3b, 0x35, 0x44]),
        key_seq(ElementState::Pressed, Key::Named(NamedKey::Home), text, true, false) == Some(seq![0x1bu8, 0x5b, 0x31, 0x3b, 0x35, 0x48]),
        key_seq(ElementState::Pressed, Key::Named(NamedKey::End), text, true, false) == Some(seq![0x1bu8, 0x5b, 0x31, 0x3b, 0x35, 0x46]),
        key_seq(ElementState::Pressed, Key::Named(NamedKey::Insert), text, true, false) == Some(seq![0x1bu8, 0x5b, 0x32, 0x3b, 0x35, 0x7e]),
        key_seq(ElementState::Pressed, Key::Named(NamedKey::Delete), text, true, false) == Some(seq![0x1bu8, 0x5b, 0x33, 0x3b, 0x35, 0x7e]),
        key_seq(ElementState::Pressed, Key::Named(NamedKey::PageUp), text, true, false) == Some(seq![0x1bu8, 0x5b, 0x35, 0x3b, 0x35, 0x7e]),
        key_seq(ElementState::Pressed, Key::Named(NamedKey::PageDown), text, true, false) == Some(seq![0x1bu8, 0x5b, 0x36, 0x3b, 0x35, 0x7e]),
        key_seq(ElementState::Pressed, Key::Named(NamedKey::Enter), text, true, false) is None,
        key_seq(ElementState::Pressed, Key::Named(NamedKey::Backspace), text, true, false) is None,
        key_seq(ElementState::Pressed, Key::Named(NamedKey::Tab), text, true, false) is None,
        key_seq(ElementState::Pressed, Key::Named(NamedKey::Escape), text, true, false) is None,
        key_seq(ElementState::Pressed, Key::Named(NamedKey::Other), text, false, false) == text,
{
}

/// No two named keys send the same bytes, alone or with Control, and with
/// Control a key sends its own sequence with modifier 5 put in: `ESC [ X`
/// becomes `ESC [ 1 ; 5 X`, and `ESC [ n ~` becomes `ESC [ n ; 5 ~`.
pub proof fn law_named_keys_distinct(a: NamedKey, b: NamedKey)
    ensures
        a != b && plain_seq(a) is Some ==> plain_seq(a) != plain_seq(b),
        a != b && modified_seq(a) is Some ==> modified_seq(a) != modified_seq(b),
        modified_seq(a) matches Some(m) ==> plain_seq(a) matches Some(p) && (p.len() == 3 ==> m
            == seq![0x1bu8, 0x5b, 0x31, 0x3b, 0x35, p[2]]) && (p.len() == 4 ==> m == seq![
            0x1bu8,
            0x5b,
            p[2],
            0x3b,
            0x35,
            0x7e,
        ]) && (p.len() == 3 || p.len() == 4),
{
    if a != b && plain_seq(a) is Some && plain_seq(b) is Some {
        let (x, y) = (plain_seq(a).unwrap(), plain_seq(b).unwrap());
        assert(x.len() != y.len() || x[x.len() - 1] != y[y.len() - 1] || x[2] != y[2]);
    }
    if a != b && modified_seq(a) is Some && modified_seq(b) is Some {
        let (x, y) = (modified_seq(a).unwrap(), modified_seq(b).unwrap());
        assert(x[2] != y[2] || x[5] != y[5]);
    }
}

} // verus!
