//! Text handed to the program from the clipboard.
use vstd::prelude::*;
use vstd::utf8::encode_utf8;

verus! {

/// `ESC [ 2004 ~`, which opens a bracketed paste.
pub open spec fn paste_open() -> Seq<u8> {
    seq![0x1bu8, 0x5b, 0x32, 0x30, 0x30, 0x34, 0x7e]
}

/// `ESC [ 201 ~`, which closes a bracketed paste.
pub open spec fn paste_close() -> Seq<u8> {
    seq![0x1bu8, 0x5b, 0x32, 0x30, 0x31, 0x7e]
}

/// The clipboard.
pub struct Clip;

impl Clip {
    /// The bytes that paste `text`: its UTF-8 encoding, between the bracket
    /// markers when the program asked for bracketed paste.
    pub fn wrap(text: &str, bracket: bool) -> (out: Vec<u8>)
        ensures
            out@ == (if bracket {
                paste_open() + encode_utf8(text@) + paste_close()
            } else {
                encode_utf8(text@)
            }),
    {
        let bytes = text.as_bytes();
        assert(bytes@ == encode_utf8(text@));
        let mut out: Vec<u8> = Vec::new();
        if bracket {
            out.push(0x1b);
            out.push(0x5b);
            out.push(0x32);
            out.push(0x30);
            out.push(0x30);
            out.push(0x34);
            out.push(0x7e);
        }
        let ghost head = out@;
        let mut i: usize = 0;
        while i < bytes.len()
            invariant
                i <= bytes@.len(),
                out@ == head + bytes@.take(i as int),
            decreases bytes@.len() - i,
        {
            out.push(bytes[i]);
            assert(bytes@.take(i + 1) =~= bytes@.take(i as int).push(bytes@[i as int]));
            i += 1;
        }
        assert(bytes@.take(bytes@.len() as int) =~= bytes@);
        if bracket {
            out.push(0x1b);
            out.push(0x5b);
            out.push(0x32);
            out.push(0x30);
            out.push(0x31);
            out.push(0x7e);
            assert(out@ =~= paste_open() + encode_utf8(text@) + paste_close());
        } else {
            assert(out@ =~= encode_utf8(text@));
        }
        out
    }
}

} // verus!
