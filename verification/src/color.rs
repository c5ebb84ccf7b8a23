use vstd::prelude::*;
use vstd::utf8::encode_utf8;

verus! {

/// The default text colour of a fresh palette.
pub const FORE: [u8; 3] = [0xE6, 0xE6, 0xEB];

/// The default background colour of a fresh palette.
pub const BACK: [u8; 3] = [0x4B, 0x4B, 0x54];

/// An opaque colour given by its red, green and blue channels.
#[derive(Clone, Copy, Debug, PartialEq, Eq, Structural)]
pub struct Color {
    pub red: u8,
    pub green: u8,
    pub blue: u8,
}

impl Color {
    pub open spec fn spec_rgb(r: u8, g: u8, b: u8) -> Color {
        Color { red: r, green: g, blue: b }
    }

    /// The colour with the given channels.
    #[verifier::when_used_as_spec(spec_rgb)]
    pub fn rgb(r: u8, g: u8, b: u8) -> (c: Color)
        ensures
            c == Color::spec_rgb(r, g, b),
    {
        Color { red: r, green: g, blue: b }
    }

    /// The colour of a channel triple.
    pub open spec fn of(rgb: [u8; 3]) -> Color {
        Color { red: rgb[0], green: rgb[1], blue: rgb[2] }
    }

    pub fn r(&self) -> (v: u8)
        ensures
            v == self.red,
    {
        self.red
    }

    pub fn g(&self) -> (v: u8)
        ensures
            v == self.green,
    {
        self.green
    }

    pub fn b(&self) -> (v: u8)
        ensures
            v == self.blue,
    {
        self.blue
    }
}

/// ASCII hexadecimal digits, either case.
pub open spec fn is_hex_digit(b: u8) -> bool {
    (0x30 <= b <= 0x39) || (0x61 <= b <= 0x66) || (0x41 <= b <= 0x46)
}

/// The value of a hexadecimal digit.
pub open spec fn digit_value(b: u8) -> int {
    if 0x30 <= b <= 0x39 {
        b - 0x30
    } else if 0x61 <= b <= 0x66 {
        b - 0x61 + 10
    } else {
        b - 0x41 + 10
    }
}

/// The text after a single leading `#`, if there is one.
pub open spec fn unhashed(s: Seq<u8>) -> Seq<u8> {
    if s.len() > 0 && s[0] == 0x23 {
        s.drop_first()
    } else {
        s
    }
}

/// The byte written by the two hexadecimal digits at `i` and `i + 1`.
pub open spec fn hex_pair(s: Seq<u8>, i: int) -> u8 {
    (16 * digit_value(s[i]) + digit_value(s[i + 1])) as u8
}

/// What `#rrggbb` (or `rrggbb`) text means as a colour: exactly six
/// hexadecimal digits after an optional `#`, or nothing.
pub open spec fn hex_bytes(s: Seq<u8>) -> Option<[u8; 3]> {
    let t = unhashed(s);
    if t.len() == 6 && (forall|i: int| 0 <= i < 6 ==> #[trigger] is_hex_digit(t[i])) {
        Some([hex_pair(t, 0), hex_pair(t, 2), hex_pair(t, 4)])
    } else {
        None
    }
}

/// `hex_bytes` of the UTF-8 encoding of some text.
pub open spec fn hex_of(text: Seq<char>) -> Option<[u8; 3]> {
    hex_bytes(encode_utf8(text))
}

fn digit(b: u8) -> (v: u8)
    requires
        is_hex_digit(b),
    ensures
        v == digit_value(b),
        v < 16,
{
    if b <= 0x39 {
        b - 0x30
    } else if b >= 0x61 {
        b - 0x61 + 10
    } else {
        b - 0x41 + 10
    }
}

/// Reads a colour written as `#rrggbb` or `rrggbb`.
pub fn hex(text: &str) -> (res: Option<[u8; 3]>)
    ensures
        res == hex_of(text@),
{
    let bytes = text.as_bytes();
    let ghost s = bytes@;
    proof {
        assert(s == encode_utf8(text@));
    }
    let start: usize = if bytes.len() > 0 && bytes[0] == 0x23 { 1 } else { 0 };
    let ghost t = unhashed(s);
    assert(t =~= s.subrange(start as int, s.len() as int));
    if bytes.len() - start != 6 {
        return None;
    }
    let mut i: usize = 0;
    while i < 6
        invariant
            0 <= i <= 6,
            start <= 1,
            start + 6 == bytes@.len(),
            s == bytes@,
            s == encode_utf8(text@),
            t == unhashed(s),
            t =~= bytes@.subrange(start as int, bytes@.len() as int),
            forall|j: int| 0 <= j < i ==> #[trigger] is_hex_digit(t[j]),
        decreases 6 - i,
    {
        let b = bytes[start + i];
        if !((0x30 <= b && b <= 0x39) || (0x61 <= b && b <= 0x66) || (0x41 <= b && b <= 0x46)) {
            assert(!is_hex_digit(t[i as int]));
            return None;
        }
        i += 1;
    }
    let a = digit(bytes[start]) * 16 + digit(bytes[start + 1]);
    let b = digit(bytes[start + 2]) * 16 + digit(bytes[start + 3]);
    let c = digit(bytes[start + 4]) * 16 + digit(bytes[start + 5]);
    Some([a, b, c])
}

/// Colour overrides read from the configuration, by slot name.
pub struct Colors {
    pub foreground: Option<String>,
    pub black: Option<String>,
    pub red: Option<String>,
    pub green: Option<String>,
    pub yellow: Option<String>,
    pub blue: Option<String>,
    pub magenta: Option<String>,
    pub cyan: Option<String>,
    pub white: Option<String>,
    pub bright_black: Option<String>,
    pub bright_red: Option<String>,
    pub bright_green: Option<String>,
    pub bright_yellow: Option<String>,
    pub bright_blue: Option<String>,
    pub bright_magenta: Option<String>,
    pub bright_cyan: Option<String>,
    pub bright_white: Option<String>,
}

impl Colors {
    /// No overrides at all.
    pub fn none() -> (c: Colors)
        ensures
            c.foreground is None,
            c.black is None,
            c.red is None,
            c.green is None,
            c.yellow is None,
            c.blue is None,
            c.magenta is None,
            c.cyan is None,
            c.white is None,
            c.bright_black is None,
            c.bright_red is None,
            c.bright_green is None,
            c.bright_yellow is None,
            c.bright_blue is None,
            c.bright_magenta is None,
            c.bright_cyan is None,
            c.bright_white is None,
    {
        Colors {
            foreground: None,
            black: None,
            red: None,
            green: None,
            yellow: None,
            blue: None,
            magenta: None,
            cyan: None,
            white: None,
            bright_black: None,
            bright_red: None,
            bright_green: None,
            bright_yellow: None,
            bright_blue: None,
            bright_magenta: None,
            bright_cyan: None,
            bright_white: None,
        }
    }
}

/// The sixteen named colours and the default text and background colours.
pub struct Palette {
    pub slots: [[u8; 3]; 16],
    pub fore: [u8; 3],
    pub back: [u8; 3],
}

/// The slot colours of a fresh palette.
pub open spec fn default_slots() -> [[u8; 3]; 16] {
    [
        [0x2E, 0x34, 0x36],
        [0xCC, 0x00, 0x00],
        [0x4E, 0x9A, 0x06],
        [0xC4, 0xA0, 0x00],
        [0x34, 0x65, 0xA4],
        [0x75, 0x50, 0x7B],
        [0x06, 0x98, 0x9A],
        [0xD3, 0xD7, 0xCF],
        [0x55, 0x57, 0x53],
        [0xEF, 0x29, 0x29],
        [0x8A, 0xE2, 0x34],
        [0xFC, 0xE9, 0x4F],
        [0x72, 0x9F, 0xCF],
        [0xAD, 0x7F, 0xA8],
        [0x34, 0xE2, 0xE2],
        [0xEE, 0xEE, 0xEC],
    ]
}

/// A slot after an override: the override's colour if it reads as one.
pub open spec fn overridden(slot: [u8; 3], text: Option<String>) -> [u8; 3] {
    match text {
        Some(t) => match hex_of(t@) {
            Some(rgb) => rgb,
            None => slot,
        },
        None => slot,
    }
}

/// A step of the 6x6x6 colour cube.
pub open spec fn cube_step(v: int) -> u8 {
    if v == 0 {
        0
    } else {
        (55 + 40 * v) as u8
    }
}

/// The colour of entry `i` of the 256-colour table.
pub open spec fn dye_of(p: Palette, i: u8) -> Color {
    if i < 16 {
        Color::of(p.slots[i as int])
    } else if i <= 231 {
        let j = i - 16;
        Color { red: cube_step(j / 36), green: cube_step((j % 36) / 6), blue: cube_step(j % 6) }
    } else {
        let v = (8 + (i - 232) * 10) as u8;
        Color { red: v, green: v, blue: v }
    }
}

/// A palette after the overrides that read as colours; the others leave
/// their slot as it was, and the background stays.
pub open spec fn loaded(p: Palette, over: Colors) -> Palette {
    Palette {
        fore: overridden(p.fore, over.foreground),
        back: p.back,
        slots: [
            overridden(p.slots[0], over.black),
            overridden(p.slots[1], over.red),
            overridden(p.slots[2], over.green),
            overridden(p.slots[3], over.yellow),
            overridden(p.slots[4], over.blue),
            overridden(p.slots[5], over.magenta),
            overridden(p.slots[6], over.cyan),
            overridden(p.slots[7], over.white),
            overridden(p.slots[8], over.bright_black),
            overridden(p.slots[9], over.bright_red),
            overridden(p.slots[10], over.bright_green),
            overridden(p.slots[11], over.bright_yellow),
            overridden(p.slots[12], over.bright_blue),
            overridden(p.slots[13], over.bright_magenta),
            overridden(p.slots[14], over.bright_cyan),
            overridden(p.slots[15], over.bright_white),
        ],
    }
}

/// The background a configuration gets when it gives none that reads.
pub const FALLBACK: [u8; 3] = [0x1e, 0x1e, 0x1e];

/// A colour given as text, where it reads as one, else a fallback.
pub open spec fn read_or(text: Option<&str>, fallback: [u8; 3]) -> [u8; 3] {
    match text {
        Some(t) => match hex_of(t@) {
            Some(c) => c,
            None => fallback,
        },
        None => fallback,
    }
}

/// The palette a configuration asks for.
pub open spec fn configured_of(
    background: Option<&str>,
    foreground: Option<&str>,
    colors: Option<Colors>,
) -> Palette {
    let base = Palette {
        slots: default_slots(),
        fore: read_or(foreground, FORE),
        back: read_or(background, FALLBACK),
    };
    match colors {
        Some(o) => loaded(base, o),
        None => base,
    }
}

impl Palette {
    /// The palette before any override.
    pub fn default() -> (p: Palette)
        ensures
            p.slots == default_slots(),
            p.fore == FORE,
            p.back == BACK,
    {
        Palette {
            slots: [
                [0x2E, 0x34, 0x36],
                [0xCC, 0x00, 0x00],
                [0x4E, 0x9A, 0x06],
                [0xC4, 0xA0, 0x00],
                [0x34, 0x65, 0xA4],
                [0x75, 0x50, 0x7B],
                [0x06, 0x98, 0x9A],
                [0xD3, 0xD7, 0xCF],
                [0x55, 0x57, 0x53],
                [0xEF, 0x29, 0x29],
                [0x8A, 0xE2, 0x34],
                [0xFC, 0xE9, 0x4F],
                [0x72, 0x9F, 0xCF],
                [0xAD, 0x7F, 0xA8],
                [0x34, 0xE2, 0xE2],
                [0xEE, 0xEE, 0xEC],
            ],
            fore: FORE,
            back: BACK,
        }
    }

    /// Applies the overrides that read as colours; the others leave their slot as it was.
    pub fn load(&mut self, over: &Colors)
        ensures
            *final(self) == loaded(*old(self), *over),
    {
        self.fore = Self::set(self.fore, &over.foreground);
        let s = self.slots;
        self.slots = [
            Self::set(s[0], &over.black),
            Self::set(s[1], &over.red),
            Self::set(s[2], &over.green),
            Self::set(s[3], &over.yellow),
            Self::set(s[4], &over.blue),
            Self::set(s[5], &over.magenta),
            Self::set(s[6], &over.cyan),
            Self::set(s[7], &over.white),
            Self::set(s[8], &over.bright_black),
            Self::set(s[9], &over.bright_red),
            Self::set(s[10], &over.bright_green),
            Self::set(s[11], &over.bright_yellow),
            Self::set(s[12], &over.bright_blue),
            Self::set(s[13], &over.bright_magenta),
            Self::set(s[14], &over.bright_cyan),
            Self::set(s[15], &over.bright_white),
        ];
    }

    /// The palette a configuration asks for: its background and foreground
    /// where they read as colours (a dark grey and the default text colour
    /// where they do not), then its slot overrides.
    pub fn configured(background: Option<&str>, foreground: Option<&str>, colors: Option<&Colors>) -> (p:
        Palette)
        ensures
            p == configured_of(
                background,
                foreground,
                match colors {
                    Some(o) => Some(*o),
                    None => None,
                },
            ),
    {
        let back = match background {
            Some(t) => match hex(t) {
                Some(c) => c,
                None => FALLBACK,
            },
            None => FALLBACK,
        };
        let fore = match foreground {
            Some(t) => match hex(t) {
                Some(c) => c,
                None => FORE,
            },
            None => FORE,
        };
        let mut inks = Palette::default();
        inks.back = back;
        inks.fore = fore;
        match colors {
            Some(over) => inks.load(over),
            None => {},
        }
        inks
    }

    fn set(slot: [u8; 3], text: &Option<String>) -> (out: [u8; 3])
        ensures
            out == overridden(slot, *text),
    {
        match text {
            Some(t) => match hex(t.as_str()) {
                Some(rgb) => rgb,
                None => slot,
            },
            None => slot,
        }
    }

    /// Entry `i` of the 256-colour table: the sixteen slots, the 6x6x6 cube,
    /// then the grey ramp.
    pub fn dye(&self, i: u8) -> (c: Color)
        ensures
            c == dye_of(*self, i),
    {
        if i < 16 {
            let rgb = self.slots[i as usize];
            Color::rgb(rgb[0], rgb[1], rgb[2])
        } else if i <= 231 {
            let j = i - 16;
            Color::rgb(Self::step(j / 36), Self::step((j % 36) / 6), Self::step(j % 6))
        } else {
            let v = 8 + (i - 232) * 10;
            Color::rgb(v, v, v)
        }
    }

    fn step(v: u8) -> (s: u8)
        requires
            v < 6,
        ensures
            s == cube_step(v as int),
    {
        if v == 0 {
            0
        } else {
            55 + 40 * v
        }
    }

    /// The default text colour.
    pub fn fore(&self) -> (c: Color)
        ensures
            c == Color::of(self.fore),
    {
        Color::rgb(self.fore[0], self.fore[1], self.fore[2])
    }

    /// The default background colour.
    pub fn back(&self) -> (c: Color)
        ensures
            c == Color::of(self.back),
    {
        Color::rgb(self.back[0], self.back[1], self.back[2])
    }
}


/// The lower-case hexadecimal digit of a number below 16.
pub open spec fn hex_digit_of(n: int) -> u8 {
    if n < 10 {
        (0x30 + n) as u8
    } else {
        (0x61 + n - 10) as u8
    }
}

/// A colour written as `#rrggbb` in lower case.
pub open spec fn hex_text(rgb: [u8; 3]) -> Seq<u8> {
    seq![
        0x23u8,
        hex_digit_of(rgb[0] as int / 16),
        hex_digit_of(rgb[0] as int % 16),
        hex_digit_of(rgb[1] as int / 16),
        hex_digit_of(rgb[1] as int % 16),
        hex_digit_of(rgb[2] as int / 16),
        hex_digit_of(rgb[2] as int % 16),
    ]
}

proof fn lemma_pair(v: u8)
    ensures
        is_hex_digit(hex_digit_of(v as int / 16)),
        is_hex_digit(hex_digit_of(v as int % 16)),
        16 * digit_value(hex_digit_of(v as int / 16)) + digit_value(hex_digit_of(v as int % 16)) == v,
{
}

/// Any colour written as `#rrggbb`, or without the `#`, reads back as itself.
pub proof fn law_hex_round_trip(rgb: [u8; 3])
    ensures
        hex_bytes(hex_text(rgb)) == Some(rgb),
        hex_bytes(hex_text(rgb).drop_first()) == Some(rgb),
{
    lemma_pair(rgb[0]);
    lemma_pair(rgb[1]);
    lemma_pair(rgb[2]);
    let t = hex_text(rgb).drop_first();
    assert(unhashed(hex_text(rgb)) == t);
    assert(unhashed(t) == t);
    assert(forall|i: int| 0 <= i < 6 ==> #[trigger] is_hex_digit(t[i]));
    assert([hex_pair(t, 0), hex_pair(t, 2), hex_pair(t, 4)] =~= rgb);
}


/// The override a configuration gives for ANSI colour `i`: black, red,
/// green, yellow, blue, magenta, cyan and white, then their bright forms.
pub open spec fn ansi_override(over: Colors, i: int) -> Option<String> {
    if i == 0 {
        over.black
    } else if i == 1 {
        over.red
    } else if i == 2 {
        over.green
    } else if i == 3 {
        over.yellow
    } else if i == 4 {
        over.blue
    } else if i == 5 {
        over.magenta
    } else if i == 6 {
        over.cyan
    } else if i == 7 {
        over.white
    } else if i == 8 {
        over.bright_black
    } else if i == 9 {
        over.bright_red
    } else if i == 10 {
        over.bright_green
    } else if i == 11 {
        over.bright_yellow
    } else if i == 12 {
        over.bright_blue
    } else if i == 13 {
        over.bright_magenta
    } else if i == 14 {
        over.bright_cyan
    } else {
        over.bright_white
    }
}

/// Each override lands on its own colour: ANSI colour `i` becomes the
/// colour its override names where that reads as `#rrggbb`, and keeps its
/// colour otherwise, whatever the other overrides say; the text colour is
/// the `foreground` override's likewise, and the background never changes.
pub proof fn law_overrides_land_in_place(p: Palette, over: Colors, i: int)
    requires
        0 <= i < 16,
    ensures
        loaded(p, over).slots[i] == (match ansi_override(over, i) {
            Some(t) => match hex_of(t@) {
                Some(c) => c,
                None => p.slots[i],
            },
            None => p.slots[i],
        }),
        loaded(p, over).fore == (match over.foreground {
            Some(t) => match hex_of(t@) {
                Some(c) => c,
                None => p.fore,
            },
            None => p.fore,
        }),
        loaded(p, over).back == p.back,
{
}

/// Two configurations whose overrides for ANSI colour `i` agree give it the
/// same colour, whatever they say of the others.
pub proof fn law_override_only_its_slot(p: Palette, a: Colors, b: Colors, i: int)
    requires
        0 <= i < 16,
        ansi_override(a, i) == ansi_override(b, i),
    ensures
        loaded(p, a).slots[i] == loaded(p, b).slots[i],
{
    law_overrides_land_in_place(p, a, i);
    law_overrides_land_in_place(p, b, i);
}


/// The levels of the 6x6x6 colour cube, step by step.
pub open spec fn cube_level(k: int) -> u8 {
    if k == 0 {
        0
    } else if k == 1 {
        95
    } else if k == 2 {
        135
    } else if k == 3 {
        175
    } else if k == 4 {
        215
    } else {
        255
    }
}

/// The 256-colour table: entries 0 to 15 are the palette's sixteen colours,
/// entry `16 + 36 r + 6 g + b` is the cube colour with levels 0, 95, 135,
/// 175, 215, 255 for `r`, `g`, `b` from 0 to 5, and entries 232 to 255 are
/// greys from 8 up in steps of 10.
pub proof fn law_256_colours(p: Palette, r: int, g: int, b: int, k: int)
    ensures
        0 <= k < 16 ==> dye_of(p, k as u8) == Color::of(p.slots[k]),
        0 <= r < 6 && 0 <= g < 6 && 0 <= b < 6 ==> dye_of(p, (16 + 36 * r + 6 * g + b) as u8)
            == Color::spec_rgb(cube_level(r), cube_level(g), cube_level(b)),
        0 <= k < 24 ==> dye_of(p, (232 + k) as u8) == Color::spec_rgb(
            (8 + 10 * k) as u8,
            (8 + 10 * k) as u8,
            (8 + 10 * k) as u8,
        ),
{
    if 0 <= r < 6 && 0 <= g < 6 && 0 <= b < 6 {
        let j = 36 * r + 6 * g + b;
        assert(j / 36 == r && (j % 36) / 6 == g && j % 6 == b) by (nonlinear_arith)
            requires
                j == 36 * r + 6 * g + b,
                0 <= r < 6,
                0 <= g < 6,
                0 <= b < 6,
        ;
    }
}

} // verus!
