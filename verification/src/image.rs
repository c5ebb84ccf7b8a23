//! Inline pictures: pulling kitty graphics commands out of the byte stream,
//! reading their keys, decoding pixels, sixel drawings, iTerm files, and the
//! store of pictures by id.
use base64::Engine;
use std::collections::{HashMap, VecDeque};
use vstd::prelude::*;

verus! {

/// Whether a byte is an ASCII digit.
pub open spec fn is_digit(b: u8) -> bool {
    0x30 <= b <= 0x39
}

/// The number that some ASCII digits write.
pub open spec fn digits_value(s: Seq<u8>) -> nat
    decreases s.len(),
{
    if s.len() == 0 {
        0
    } else {
        digits_value(s.drop_last()) * 10 + (s.last() - 0x30) as nat
    }
}

/// Whether all bytes are ASCII digits.
pub open spec fn all_digits(s: Seq<u8>) -> bool {
    forall|i: int| 0 <= i < s.len() ==> #[trigger] is_digit(s[i])
}

/// What `str::parse::<u32>` makes of some bytes: an optional `+`, then at
/// least one digit, with a value that fits.
pub open spec fn parse_u32(s: Seq<u8>) -> Option<u32> {
    let t = if s.len() > 0 && s[0] == 0x2b {
        s.drop_first()
    } else {
        s
    };
    if t.len() > 0 && all_digits(t) && digits_value(t) <= u32::MAX {
        Some(digits_value(t) as u32)
    } else {
        None
    }
}

/// What `str::parse::<i32>` makes of some bytes: an optional sign, then at
/// least one digit, with a value that fits.
pub open spec fn parse_i32(s: Seq<u8>) -> Option<i32> {
    let neg = s.len() > 0 && s[0] == 0x2d;
    let t = if s.len() > 0 && (s[0] == 0x2b || s[0] == 0x2d) {
        s.drop_first()
    } else {
        s
    };
    let v: int = if neg {
        -digits_value(t)
    } else {
        digits_value(t) as int
    };
    if t.len() > 0 && all_digits(t) && i32::MIN <= v <= i32::MAX {
        Some(v as i32)
    } else {
        None
    }
}

proof fn lemma_digits_step(s: Seq<u8>, i: int)
    requires
        0 <= i < s.len(),
    ensures
        digits_value(s.take(i + 1)) == digits_value(s.take(i)) * 10 + (s[i] - 0x30) as nat,
{
    assert(s.take(i + 1).drop_last() =~= s.take(i));
}

proof fn lemma_digits_grow(s: Seq<u8>, i: int)
    requires
        0 <= i <= s.len(),
        all_digits(s),
    ensures
        digits_value(s.take(i)) <= digits_value(s),
    decreases s.len() - i,
{
    if i < s.len() {
        lemma_digits_grow(s, i + 1);
        lemma_digits_step(s, i);
    } else {
        assert(s.take(i) =~= s);
    }
}

/// The value of some ASCII digits, or `None` once it passes `limit`.
fn digits_upto(s: &[u8], from: usize, limit: u64) -> (r: Option<u64>)
    requires
        from <= s@.len(),
        all_digits(s@.skip(from as int)),
        limit <= u32::MAX + 1,
    ensures
        match r {
            Some(v) => v == digits_value(s@.skip(from as int)) && v <= limit,
            None => digits_value(s@.skip(from as int)) > limit,
        },
{
    let ghost t = s@.skip(from as int);
    let mut v: u64 = 0;
    let mut i = from;
    assert(t.take(0) =~= seq![]);
    while i < s.len()
        invariant
            from <= i <= s@.len(),
            t == s@.skip(from as int),
            all_digits(t),
            v == digits_value(t.take(i - from)),
            v <= limit,
            limit <= u32::MAX + 1,
        decreases s@.len() - i,
    {
        proof {
            lemma_digits_step(t, i - from);
            assert(is_digit(t[i - from]));
        }
        let d = (s[i] - 0x30) as u64;
        let next = v * 10 + d;
        if next > limit {
            proof {
                lemma_digits_grow(t, i + 1 - from);
            }
            return None;
        }
        v = next;
        i += 1;
    }
    assert(t.take(i - from) =~= t);
    Some(v)
}

/// Whether the bytes from `from` on are all digits, and there is one.
fn only_digits(s: &[u8], from: usize) -> (b: bool)
    requires
        from <= s@.len(),
    ensures
        b == (from < s@.len() && all_digits(s@.skip(from as int))),
{
    if from >= s.len() {
        return false;
    }
    let mut i = from;
    while i < s.len()
        invariant
            from <= i <= s@.len(),
            forall|j: int| from <= j < i ==> #[trigger] is_digit(s@[j]),
        decreases s@.len() - i,
    {
        if !(0x30 <= s[i] && s[i] <= 0x39) {
            assert(!is_digit(s@.skip(from as int)[i - from]));
            return false;
        }
        i += 1;
    }
    assert forall|j: int| 0 <= j < s@.skip(from as int).len() implies #[trigger] is_digit(
        s@.skip(from as int)[j],
    ) by {
        assert(is_digit(s@[from + j]));
    }
    true
}

/// Reads a `u32` as `str::parse` does.
pub fn num(raw: &[u8]) -> (r: Option<u32>)
    ensures
        r == parse_u32(raw@),
{
    let from: usize = if raw.len() > 0 && raw[0] == 0x2b { 1 } else { 0 };
    assert(raw@.skip(from as int) =~= (if raw@.len() > 0 && raw@[0] == 0x2b {
        raw@.drop_first()
    } else {
        raw@
    }));
    if !only_digits(raw, from) {
        return None;
    }
    match digits_upto(raw, from, 0xFFFF_FFFF) {
        Some(v) => Some(v as u32),
        None => None,
    }
}

/// Reads an `i32` as `str::parse` does.
pub fn signed(raw: &[u8]) -> (r: Option<i32>)
    ensures
        r == parse_i32(raw@),
{
    let neg = raw.len() > 0 && raw[0] == 0x2d;
    let from: usize = if raw.len() > 0 && (raw[0] == 0x2b || raw[0] == 0x2d) { 1 } else { 0 };
    assert(raw@.skip(from as int) =~= (if raw@.len() > 0 && (raw@[0] == 0x2b || raw@[0] == 0x2d) {
        raw@.drop_first()
    } else {
        raw@
    }));
    if !only_digits(raw, from) {
        return None;
    }
    let limit: u64 = if neg { 0x8000_0000 } else { 0x7FFF_FFFF };
    match digits_upto(raw, from, limit) {
        Some(v) => {
            if neg {
                Some((0 - (v as i64)) as i32)
            } else {
                Some(v as i32)
            }
        },
        None => None,
    }
}

/// Where the string terminator `ESC \` first starts at or after `from`.
pub open spec fn st_from(data: Seq<u8>, from: int) -> Option<int>
    decreases data.len() - from,
{
    if from < 0 || from + 1 >= data.len() {
        None
    } else if data[from] == 0x1b && data[from + 1] == 0x5c {
        Some(from)
    } else {
        st_from(data, from + 1)
    }
}

/// What splitting a stream from `i` on gives: the bytes for the terminal,
/// the kitty commands (`ESC _ G ... ESC \`, without their frame), the
/// unfinished command to hold for the next chunk, and whether the chunk
/// ended on a lone `ESC`. Other `ESC _` commands are dropped.
pub open spec fn cut_from(data: Seq<u8>, i: int) -> (Seq<u8>, Seq<Seq<u8>>, Seq<u8>, bool)
    decreases data.len() - i, 0int,
{
    if i < 0 || i >= data.len() {
        (seq![], seq![], seq![], false)
    } else if data[i] == 0x1b && i + 1 < data.len() && data[i + 1] == 0x5f {
        match st_from(data, i + 2) {
            Some(end) => {
                if i < end + 2 <= data.len() {
                    let rest = cut_from(data, end + 2);
                    let kept = if data[i + 2] == 0x47 {
                        seq![data.subrange(i + 2, end)] + rest.1
                    } else {
                        rest.1
                    };
                    (rest.0, kept, rest.2, rest.3)
                } else {
                    (seq![], seq![], seq![], false)
                }
            },
            None => (seq![], seq![], data.subrange(i, data.len() as int), false),
        }
    } else if data[i] == 0x1b && i + 1 == data.len() {
        (seq![], seq![], seq![], true)
    } else {
        let rest = cut_from(data, i + 1);
        (seq![data[i]] + rest.0, rest.1, rest.2, rest.3)
    }
}

proof fn lemma_st_bounds(data: Seq<u8>, from: int)
    requires
        0 <= from,
    ensures
        st_from(data, from) matches Some(end) ==> from <= end && end + 1 < data.len() && data[end]
            == 0x1b && data[end + 1] == 0x5c,
    decreases data.len() - from,
{
    if from + 1 < data.len() && !(data[from] == 0x1b && data[from + 1] == 0x5c) {
        lemma_st_bounds(data, from + 1);
    }
}

proof fn lemma_st_shift(p: Seq<u8>, y: Seq<u8>, j: int)
    requires
        0 <= j,
    ensures
        st_from(p + y, p.len() + j) == (match st_from(y, j) {
            Some(e) => Some(e + p.len()),
            None => None,
        }),
    decreases y.len() - j,
{
    let d = p + y;
    let k = p.len() + j;
    if j + 1 < y.len() {
        assert(d[k] == y[j] && d[k + 1] == y[j + 1]);
        if !(y[j] == 0x1b && y[j + 1] == 0x5c) {
            lemma_st_shift(p, y, j + 1);
        }
    }
}

proof fn lemma_st_prefix(x: Seq<u8>, y: Seq<u8>, k: int)
    requires
        0 <= k,
        st_from(x, k) is Some,
    ensures
        st_from(x + y, k) == st_from(x, k),
    decreases x.len() - k,
{
    let d = x + y;
    assert(d[k] == x[k] && d[k + 1] == x[k + 1]);
    if !(x[k] == 0x1b && x[k + 1] == 0x5c) {
        lemma_st_prefix(x, y, k + 1);
    }
}

proof fn lemma_cut_shift(p: Seq<u8>, y: Seq<u8>, j: int)
    requires
        0 <= j,
    ensures
        cut_from(p + y, p.len() + j) == cut_from(y, j),
    decreases y.len() - j,
{
    let d = p + y;
    let k = p.len() + j;
    if j < y.len() {
        assert(d[k] == y[j]);
        if j + 1 < y.len() {
            assert(d[k + 1] == y[j + 1]);
        }
        if y[j] == 0x1b && j + 1 < y.len() && y[j + 1] == 0x5f {
            lemma_st_shift(p, y, j + 2);
            lemma_st_bounds(y, j + 2);
            match st_from(y, j + 2) {
                Some(end) => {
                    lemma_cut_shift(p, y, end + 2);
                    assert(d[k + 2] == y[j + 2]);
                    assert(d.subrange(k + 2, end + p.len()) =~= y.subrange(j + 2, end));
                },
                None => {
                    assert(d.subrange(k, d.len() as int) =~= y.subrange(j, y.len() as int));
                },
            }
        } else if y[j] == 0x1b && j + 1 == y.len() {
        } else {
            lemma_cut_shift(p, y, j + 1);
        }
    }
}

/// What a cut holds back after splitting from `i` on.
pub open spec fn kept_back(c: (Seq<u8>, Seq<Seq<u8>>, Seq<u8>, bool)) -> Seq<u8> {
    c.2 + if c.3 {
        seq![0x1bu8]
    } else {
        seq![]
    }
}

proof fn lemma_cut_append(x: Seq<u8>, y: Seq<u8>, i: int)
    requires
        0 <= i <= x.len(),
    ensures
        ({
            let one = cut_from(x, i);
            let two = cut_from(kept_back(one) + y, 0);
            cut_from(x + y, i) == (one.0 + two.0, one.1 + two.1, two.2, two.3)
        }),
    decreases x.len() - i,
{
    let d = x + y;
    let one = cut_from(x, i);
    let two = cut_from(kept_back(one) + y, 0);
    if i == x.len() {
        assert(kept_back(one) + y =~= y);
        lemma_cut_shift(x, y, 0);
        assert(one.0 + two.0 =~= two.0);
        assert(one.1 + two.1 =~= two.1);
    } else if x[i] == 0x1b && i + 1 < x.len() && x[i + 1] == 0x5f {
        assert(d[i] == x[i] && d[i + 1] == x[i + 1]);
        lemma_st_bounds(x, i + 2);
        match st_from(x, i + 2) {
            Some(end) => {
                lemma_st_prefix(x, y, i + 2);
                lemma_cut_append(x, y, end + 2);
                assert(d[i + 2] == x[i + 2]);
                assert(d.subrange(i + 2, end) =~= x.subrange(i + 2, end));
                let rest = cut_from(x, end + 2);
                let two2 = cut_from(kept_back(rest) + y, 0);
                assert(kept_back(rest) == kept_back(one));
                assert((seq![x.subrange(i + 2, end)] + rest.1) + two2.1 =~= seq![
                    x.subrange(i + 2, end),
                ] + (rest.1 + two2.1));
            },
            None => {
                let p = x.subrange(0, i);
                let q = x.subrange(i, x.len() as int);
                assert(kept_back(one) =~= q);
                assert(d =~= p + (q + y));
                lemma_cut_shift(p, q + y, 0);
                assert(one.0 + two.0 =~= two.0);
                assert(one.1 + two.1 =~= two.1);
            },
        }
    } else if x[i] == 0x1b && i + 1 == x.len() {
        let p = x.subrange(0, i);
        assert(kept_back(one) =~= seq![0x1bu8]);
        assert(d =~= p + (seq![0x1bu8] + y));
        lemma_cut_shift(p, seq![0x1bu8] + y, 0);
        assert(one.0 + two.0 =~= two.0);
        assert(one.1 + two.1 =~= two.1);
    } else {
        assert(d[i] == x[i]);
        if i + 1 < x.len() {
            assert(d[i + 1] == x[i + 1]);
        }
        lemma_cut_append(x, y, i + 1);
        let rest = cut_from(x, i + 1);
        assert(kept_back(rest) == kept_back(one));
        let two2 = cut_from(kept_back(rest) + y, 0);
        assert((seq![x[i]] + rest.0) + two2.0 =~= seq![x[i]] + (rest.0 + two2.0));
    }
}

/// Splitting a stream in two chunks gives the terminal bytes and the
/// commands that splitting it whole gives, in order, and holds back the same.
pub proof fn law_split_in_chunks(held: Seq<u8>, a: Seq<u8>, b: Seq<u8>)
    ensures
        ({
            let one = cut_from(held + a, 0);
            let two = cut_from(kept_back(one) + b, 0);
            let whole = cut_from(held + a + b, 0);
            &&& whole.0 == one.0 + two.0
            &&& whole.1 == one.1 + two.1
            &&& kept_back(whole) == kept_back(two)
        }),
{
    lemma_cut_append(held + a, b, 0);
}

/// Finds the string terminator `ESC \` at or after `from`.
fn find_st(data: &Vec<u8>, from: usize) -> (r: Option<usize>)
    ensures
        match r {
            Some(e) => st_from(data@, from as int) == Some(e as int),
            None => st_from(data@, from as int) is None,
        },
{
    let mut i = from;
    while i < data.len() && i + 1 < data.len()
        invariant
            from <= i,
            st_from(data@, from as int) == st_from(data@, i as int),
        decreases data@.len() - i,
    {
        if data[i] == 0x1b && data[i + 1] == 0x5c {
            return Some(i);
        }
        i += 1;
    }
    None
}

/// Splits kitty graphics commands out of a byte stream that arrives in chunks.
pub struct Cut {
    buf: Vec<u8>,
    trail: bool,
}

impl Cut {
    /// The bytes held back from the last chunk: an unfinished command, or a lone `ESC`.
    pub closed spec fn held(&self) -> Seq<u8> {
        self.buf@ + if self.trail {
            seq![0x1bu8]
        } else {
            seq![]
        }
    }

    /// A cut that holds nothing back.
    pub fn new() -> (c: Cut)
        ensures
            c.held() == Seq::<u8>::empty(),
    {
        let c = Cut { buf: Vec::new(), trail: false };
        assert(c.held() =~= Seq::<u8>::empty());
        c
    }

    /// Splits a chunk, with what the last chunk held back in front of it,
    /// into the bytes for the terminal and the kitty commands it holds;
    /// holds back an unfinished command or a final lone `ESC`.
    pub fn split(&mut self, bytes: &[u8]) -> (r: (Vec<u8>, Vec<Vec<u8>>))
        ensures
            ({
                let c = cut_from(old(self).held() + bytes@, 0);
                &&& r.0@ == c.0
                &&& r.1@.len() == c.1.len()
                &&& forall|k: int| 0 <= k < c.1.len() ==> (#[trigger] r.1@[k])@ == c.1[k]
                &&& final(self).held() == c.2 + if c.3 {
                    seq![0x1bu8]
                } else {
                    seq![]
                }
            }),
    {
        let ghost whole = old(self).held() + bytes@;
        let mut data: Vec<u8> = Vec::new();
        data.append(&mut self.buf);
        if self.trail {
            self.trail = false;
            data.push(0x1b);
        }
        let mut k: usize = 0;
        let ghost head = data@;
        while k < bytes.len()
            invariant
                k <= bytes@.len(),
                data@ == head + bytes@.take(k as int),
            decreases bytes@.len() - k,
        {
            data.push(bytes[k]);
            assert(bytes@.take(k + 1) =~= bytes@.take(k as int).push(bytes@[k as int]));
            k += 1;
        }
        assert(bytes@.take(bytes@.len() as int) =~= bytes@);
        assert(data@ =~= whole);
        let ghost goal = cut_from(data@, 0);
        let mut clean: Vec<u8> = Vec::new();
        let mut out: Vec<Vec<u8>> = Vec::new();
        let mut i: usize = 0;
        let mut held: Vec<u8> = Vec::new();
        let mut trail = false;
        while i < data.len()
            invariant_except_break
                i <= data@.len(),
                data@ == whole,
                goal == cut_from(data@, 0),
                held@ == Seq::<u8>::empty(),
                !trail,
                self.buf@ == Seq::<u8>::empty(),
                !self.trail,
                goal.0 == clean@ + cut_from(data@, i as int).0,
                goal.1.len() == out@.len() + cut_from(data@, i as int).1.len(),
                forall|j: int| 0 <= j < out@.len() ==> (#[trigger] out@[j])@ == goal.1[j],
                forall|j: int|
                    0 <= j < cut_from(data@, i as int).1.len() ==> goal.1[out@.len() + j]
                        == #[trigger] cut_from(data@, i as int).1[j],
                goal.2 == cut_from(data@, i as int).2,
                goal.3 == cut_from(data@, i as int).3,
            invariant
                data@ == whole,
                goal == cut_from(data@, 0),
                self.buf@ == Seq::<u8>::empty(),
                !self.trail,
                forall|j: int| 0 <= j < out@.len() ==> (#[trigger] out@[j])@ == goal.1[j],
            ensures
                goal.0 == clean@,
                goal.1.len() == out@.len(),
                goal.2 == held@,
                goal.3 == trail,
            decreases data@.len() - i,
        {
            if data[i] == 0x1b && i + 1 < data.len() && data[i + 1] == 0x5f {
                proof {
                    lemma_st_bounds(data@, i + 2);
                }
                match find_st(&data, i + 2) {
                    Some(end) => {
                        let ghost rest = cut_from(data@, end + 2);
                        if data[i + 2] == 0x47 {
                            let mut cmd: Vec<u8> = Vec::new();
                            let mut j = i + 2;
                            while j < end
                                invariant
                                    i + 2 <= j <= end,
                                    end < data@.len(),
                                    cmd@ == data@.subrange(i + 2, j as int),
                                decreases end - j,
                            {
                                cmd.push(data[j]);
                                assert(data@.subrange(i + 2, j + 1) =~= data@.subrange(
                                    i + 2,
                                    j as int,
                                ).push(data@[j as int]));
                                j += 1;
                            }
                            let ghost n0 = out@.len();
                            assert(goal.1[n0 as int] == cut_from(data@, i as int).1[0]);
                            out.push(cmd);
                            assert forall|j: int| 0 <= j < rest.1.len() implies goal.1[out@.len()
                                + j] == #[trigger] rest.1[j] by {
                                assert(cut_from(data@, i as int).1[j + 1] == rest.1[j]);
                            }
                        } else {
                            assert forall|j: int| 0 <= j < rest.1.len() implies goal.1[out@.len()
                                + j] == #[trigger] rest.1[j] by {
                                assert(cut_from(data@, i as int).1[j] == rest.1[j]);
                            }
                        }
                        i = end + 2;
                    },
                    None => {
                        let mut j = i;
                        while j < data.len()
                            invariant
                                i <= j <= data@.len(),
                                held@ == data@.subrange(i as int, j as int),
                            decreases data@.len() - j,
                        {
                            held.push(data[j]);
                            assert(data@.subrange(i as int, j + 1) =~= data@.subrange(
                                i as int,
                                j as int,
                            ).push(data@[j as int]));
                            j += 1;
                        }
                        assert(goal.0 =~= clean@);
                        assert(cut_from(data@, i as int).1.len() == 0);
                        break;
                    },
                }
            } else if data[i] == 0x1b && i + 1 == data.len() {
                assert(goal.0 =~= clean@);
                assert(cut_from(data@, i as int).1.len() == 0);
                trail = true;
                break;
            } else {
                clean.push(data[i]);
                proof {
                    let rest = cut_from(data@, i + 1);
                    assert(cut_from(data@, i as int).0 == seq![data@[i as int]] + rest.0);
                    assert(goal.0 =~= clean@ + rest.0);
                }
                i += 1;
            }
        }
        self.buf = held;
        self.trail = trail;
        assert(self.held() =~= goal.2 + if goal.3 { seq![0x1bu8] } else { seq![] });
        (clean, out)
    }
}


/// The keys of a kitty graphics command.
#[derive(Clone, Copy, Debug, PartialEq, Eq, Structural)]
pub struct Ctl {
    pub act: u8,
    pub id: u32,
    pub fmt: u8,
    pub img_w: u32,
    pub img_h: u32,
    pub cols: u32,
    pub rows: u32,
    pub still: bool,
    pub z: i32,
    pub more: bool,
}

/// The keys of a command that sets none: transmit and show, 32-bit pixels.
pub open spec fn base_ctl() -> Ctl {
    Ctl {
        act: 0x54,
        id: 0,
        fmt: 32,
        img_w: 0,
        img_h: 0,
        cols: 0,
        rows: 0,
        still: false,
        z: 0,
        more: false,
    }
}

/// The first place in `from..to` that holds `b`, or `to`.
pub open spec fn first_at(s: Seq<u8>, b: u8, from: int, to: int) -> int
    decreases to - from,
{
    if from >= to {
        to
    } else if s[from] == b {
        from
    } else {
        first_at(s, b, from + 1, to)
    }
}

/// The keys after one `key=val` pair; a number that does not read spoils the command.
pub open spec fn with_key(ctl: Ctl, key: Seq<u8>, val: Seq<u8>) -> Option<Ctl> {
    if key == seq![0x61u8] {
        Some(Ctl { act: if val.len() > 0 { val[0] } else { 0x54 }, ..ctl })
    } else if key == seq![0x69u8] {
        match parse_u32(val) {
            Some(v) => Some(Ctl { id: v, ..ctl }),
            None => None,
        }
    } else if key == seq![0x66u8] {
        match parse_u32(val) {
            Some(v) => Some(Ctl { fmt: v as u8, ..ctl }),
            None => None,
        }
    } else if key == seq![0x73u8] {
        match parse_u32(val) {
            Some(v) => Some(Ctl { img_w: v, ..ctl }),
            None => None,
        }
    } else if key == seq![0x76u8] {
        match parse_u32(val) {
            Some(v) => Some(Ctl { img_h: v, ..ctl }),
            None => None,
        }
    } else if key == seq![0x63u8] {
        match parse_u32(val) {
            Some(v) => Some(Ctl { cols: v, ..ctl }),
            None => None,
        }
    } else if key == seq![0x72u8] {
        match parse_u32(val) {
            Some(v) => Some(Ctl { rows: v, ..ctl }),
            None => None,
        }
    } else if key == seq![0x43u8] {
        Some(Ctl { still: val == seq![0x31u8], ..ctl })
    } else if key == seq![0x7au8] {
        match parse_i32(val) {
            Some(v) => Some(Ctl { z: v, ..ctl }),
            None => None,
        }
    } else if key == seq![0x6du8] {
        Some(Ctl { more: val == seq![0x31u8], ..ctl })
    } else {
        Some(ctl)
    }
}

/// The keys after the comma-separated pairs of `h` from `start` to `to`;
/// a piece without `=` spoils the command.
pub open spec fn keys_from(ctl: Ctl, h: Seq<u8>, start: int, to: int) -> Option<Ctl>
    decreases to - start,
{
    if start < 0 || start > to {
        None
    } else {
        let e = first_at(h, 0x2c, start, to);
        let eq = first_at(h, 0x3d, start, e);
        if eq >= e || e > to || e < start {
            None
        } else {
            match with_key(ctl, h.subrange(start, eq), h.subrange(eq + 1, e)) {
                None => None,
                Some(c) => if e >= to {
                    Some(c)
                } else {
                    keys_from(c, h, e + 1, to)
                },
            }
        }
    }
}

/// What a kitty graphics command says: its keys, between `G` and the first
/// `;`, and its data after that `;`.
pub open spec fn kitty_of(p: Seq<u8>) -> Option<(Ctl, Seq<u8>)> {
    let at = first_at(p, 0x3b, 0, p.len() as int);
    if at >= p.len() || at == 0 || p[0] != 0x47 {
        None
    } else {
        match keys_from(base_ctl(), p, 1, at) {
            Some(c) => Some((c, p.subrange(at + 1, p.len() as int))),
            None => None,
        }
    }
}

proof fn lemma_first_at(s: Seq<u8>, b: u8, from: int, to: int)
    requires
        0 <= from,
        to <= s.len(),
    ensures
        from <= to ==> from <= first_at(s, b, from, to) <= to,
        forall|j: int| from <= j < first_at(s, b, from, to) ==> s[j] != b,
        first_at(s, b, from, to) < to ==> s[first_at(s, b, from, to)] == b,
    decreases to - from,
{
    if from < to && s[from] != b {
        lemma_first_at(s, b, from + 1, to);
    }
}

/// The first place in `from..to` that holds `b`, or `to`.
fn find_byte(s: &[u8], b: u8, from: usize, to: usize) -> (r: usize)
    requires
        from <= to <= s@.len(),
    ensures
        r == first_at(s@, b, from as int, to as int),
        from <= r <= to,
{
    proof {
        lemma_first_at(s@, b, from as int, to as int);
    }
    let mut i = from;
    while i < to && s[i] != b
        invariant
            from <= i <= to <= s@.len(),
            first_at(s@, b, from as int, to as int) == first_at(s@, b, i as int, to as int),
        decreases to - i,
    {
        i += 1;
    }
    i
}

/// Whether some bytes are exactly one given byte.
fn is_one(s: &[u8], b: u8) -> (r: bool)
    ensures
        r == (s@ == seq![b]),
{
    if s.len() == 1 && s[0] == b {
        assert(s@ =~= seq![b]);
        true
    } else {
        assert(s@.len() != 1 || s@[0] != b ==> s@ != seq![b]);
        false
    }
}

/// The keys after one `key=val` pair.
fn set_key(ctl: Ctl, key: &[u8], val: &[u8]) -> (r: Option<Ctl>)
    ensures
        r == with_key(ctl, key@, val@),
{
    if is_one(key, 0x61) {
        Some(Ctl { act: if val.len() > 0 { val[0] } else { 0x54 }, ..ctl })
    } else if is_one(key, 0x69) {
        match num(val) {
            Some(v) => Some(Ctl { id: v, ..ctl }),
            None => None,
        }
    } else if is_one(key, 0x66) {
        match num(val) {
            Some(v) => Some(Ctl { fmt: #[verifier::truncate] (v as u8), ..ctl }),
            None => None,
        }
    } else if is_one(key, 0x73) {
        match num(val) {
            Some(v) => Some(Ctl { img_w: v, ..ctl }),
            None => None,
        }
    } else if is_one(key, 0x76) {
        match num(val) {
            Some(v) => Some(Ctl { img_h: v, ..ctl }),
            None => None,
        }
    } else if is_one(key, 0x63) {
        match num(val) {
            Some(v) => Some(Ctl { cols: v, ..ctl }),
            None => None,
        }
    } else if is_one(key, 0x72) {
        match num(val) {
            Some(v) => Some(Ctl { rows: v, ..ctl }),
            None => None,
        }
    } else if is_one(key, 0x43) {
        Some(Ctl { still: is_one(val, 0x31), ..ctl })
    } else if is_one(key, 0x7a) {
        match signed(val) {
            Some(v) => Some(Ctl { z: v, ..ctl }),
            None => None,
        }
    } else if is_one(key, 0x6d) {
        Some(Ctl { more: is_one(val, 0x31), ..ctl })
    } else {
        Some(ctl)
    }
}

/// Reads a kitty graphics command: its keys and its data.
pub fn kitty(payload: &[u8]) -> (r: Option<(Ctl, Vec<u8>)>)
    ensures
        match r {
            Some((c, d)) => kitty_of(payload@) == Some((c, d@)),
            None => kitty_of(payload@) is None,
        },
{
    let len = payload.len();
    let at = find_byte(payload, 0x3b, 0, len);
    if at >= len || at == 0 || payload[0] != 0x47 {
        return None;
    }
    let ghost goal = keys_from(base_ctl(), payload@, 1, at as int);
    assert(kitty_of(payload@) == (match goal {
        Some(c) => Some((c, payload@.subrange(at + 1, payload@.len() as int))),
        None => None,
    }));
    let mut ctl = Ctl {
        act: 0x54,
        id: 0,
        fmt: 32,
        img_w: 0,
        img_h: 0,
        cols: 0,
        rows: 0,
        still: false,
        z: 0,
        more: false,
    };
    let mut start: usize = 1;
    loop
        invariant_except_break
            1 <= start <= at,
            goal == keys_from(ctl, payload@, start as int, at as int),
        invariant
            at < len,
            len == payload@.len(),
            goal == keys_from(base_ctl(), payload@, 1, at as int),
            kitty_of(payload@) == (match goal {
                Some(c) => Some((c, payload@.subrange(at + 1, payload@.len() as int))),
                None => None,
            }),
        ensures
            goal == Some(ctl),
        decreases at - start,
    {
        let e = find_byte(payload, 0x2c, start, at);
        let eq = find_byte(payload, 0x3d, start, e);
        if eq >= e {
            return None;
        }
        match set_key(ctl, &payload[start..eq], &payload[eq + 1..e]) {
            None => {
                return None;
            },
            Some(c) => {
                ctl = c;
                if e >= at {
                    break;
                }
                start = e + 1;
            },
        }
    }
    let mut data: Vec<u8> = Vec::new();
    let mut j = at + 1;
    while j < len
        invariant
            at + 1 <= j <= len,
            len == payload@.len(),
            data@ == payload@.subrange(at + 1, j as int),
        decreases len - j,
    {
        data.push(payload[j]);
        assert(payload@.subrange(at + 1, j + 1) =~= payload@.subrange(at + 1, j as int).push(
            payload@[j as int],
        ));
        j += 1;
    }
    Some((ctl, data))
}


/// A picture: its size in pixels and its pixels, four bytes each, row by row.
pub struct Entry {
    pub w: u32,
    pub h: u32,
    pub rgba: Vec<u8>,
}

/// What the `image` crate makes of an encoded picture (PNG and the other
/// formats it recognises): its width, height and RGBA pixels.
pub uninterp spec fn picture(data: Seq<u8>) -> Option<(u32, u32, Seq<u8>)>;

/// `image::load_from_memory`, converted to 8-bit RGBA.
///
/// Claims only that the result is a function of the bytes; which encodings
/// read and how they decode is left to the crate.
#[verifier::external_body]
fn load_picture(data: &[u8]) -> (r: Option<(u32, u32, Vec<u8>)>)
    ensures
        match r {
            Some((w, h, px)) => picture(data@) == Some((w, h, px@)),
            None => picture(data@) is None,
        },
{
    let img = image::load_from_memory(data).ok()?.to_rgba8();
    let (w, h) = (img.width(), img.height());
    Some((w, h, img.into_raw()))
}

/// RGB pixels with an opaque alpha byte added to each.
pub open spec fn with_alpha(d: Seq<u8>) -> Seq<u8>
    decreases d.len(),
{
    if d.len() < 3 {
        seq![]
    } else {
        with_alpha(d.take(d.len() - 3)) + seq![d[d.len() - 3], d[d.len() - 2], d[d.len() - 1], 255u8]
    }
}

/// RGB data given an opaque alpha grows by a third, and byte `i` of the
/// result is its pixel's channel from the data, or 255 for the alpha.
pub proof fn law_rgb_gains_alpha(d: Seq<u8>)
    requires
        d.len() % 3 == 0,
    ensures
        with_alpha(d).len() == d.len() / 3 * 4,
        forall|i: int|
            0 <= i < with_alpha(d).len() ==> #[trigger] with_alpha(d)[i] == (if i % 4 == 3 {
                255u8
            } else {
                d[(i / 4) * 3 + i % 4]
            }),
    decreases d.len(),
{
    if d.len() >= 3 {
        let t = d.take(d.len() - 3);
        law_rgb_gains_alpha(t);
        let w = with_alpha(d);
        let n = with_alpha(t).len();
        assert forall|i: int| 0 <= i < w.len() implies #[trigger] w[i] == (if i % 4 == 3 {
            255u8
        } else {
            d[(i / 4) * 3 + i % 4]
        }) by {
            if i < n {
                assert(w[i] == with_alpha(t)[i]);
                if i % 4 != 3 {
                    assert((i / 4) * 3 + i % 4 < t.len());
                    assert(t[(i / 4) * 3 + i % 4] == d[(i / 4) * 3 + i % 4]);
                }
            } else {
                assert(i / 4 == d.len() / 3 - 1);
            }
        }
    }
}

/// What pixel data decodes to, by format: 100 is an encoded picture, 32 is
/// RGBA and 24 is RGB, both `w` by `h` and exactly that long.
pub open spec fn decoded(fmt: u8, w: u32, h: u32, data: Seq<u8>) -> Option<(u32, u32, Seq<u8>)> {
    if fmt == 100 {
        picture(data)
    } else if fmt == 32 {
        if w == 0 || h == 0 || data.len() != w * h * 4 {
            None
        } else {
            Some((w, h, data))
        }
    } else if fmt == 24 {
        if w == 0 || h == 0 || data.len() != w * h * 3 {
            None
        } else {
            Some((w, h, with_alpha(data)))
        }
    } else {
        None
    }
}

/// Whether `decode` can size its buffers: the byte counts it computes fit a `usize`.
pub open spec fn decode_fits(fmt: u8, w: u32, h: u32, len: nat) -> bool {
    &&& (fmt == 32 && w != 0 && h != 0) ==> w * h * 4 <= usize::MAX
    &&& (fmt == 24 && w != 0 && h != 0) ==> w * h * 3 <= usize::MAX && (len == w * h * 3
        ==> w * h * 4 <= usize::MAX)
}

/// A decoded picture as an entry: its width, height and RGBA pixels.
pub fn picture_entry(p: Option<(u32, u32, Vec<u8>)>) -> (r: Option<Entry>)
    ensures
        match r {
            Some(e) => p matches Some((w, h, px)) && e.w == w && e.h == h && e.rgba@ == px@,
            None => p is None,
        },
{
    match p {
        Some((w, h, rgba)) => Some(Entry { w, h, rgba }),
        None => None,
    }
}

/// Decodes pixel data of a format into a picture.
pub fn decode(fmt: u8, w: u32, h: u32, data: &[u8]) -> (r: Option<Entry>)
    requires
        decode_fits(fmt, w, h, data@.len()),
    ensures
        match r {
            Some(e) => decoded(fmt, w, h, data@) == Some((e.w, e.h, e.rgba@)),
            None => decoded(fmt, w, h, data@) is None,
        },
{
    if fmt == 100 {
        picture_entry(load_picture(data))
    } else if fmt == 32 {
        if w == 0 || h == 0 {
            return None;
        }
        proof {
            assert(w * h <= w * h * 4) by (nonlinear_arith);
        }
        let size = (w as usize) * (h as usize) * 4;
        if data.len() != size {
            return None;
        }
        let mut rgba: Vec<u8> = Vec::new();
        let mut i: usize = 0;
        while i < data.len()
            invariant
                i <= data@.len(),
                rgba@ == data@.take(i as int),
            decreases data@.len() - i,
        {
            rgba.push(data[i]);
            assert(data@.take(i + 1) =~= data@.take(i as int).push(data@[i as int]));
            i += 1;
        }
        assert(data@.take(data@.len() as int) =~= data@);
        Some(Entry { w, h, rgba })
    } else if fmt == 24 {
        if w == 0 || h == 0 {
            return None;
        }
        proof {
            assert(w * h <= w * h * 3) by (nonlinear_arith);
        }
        let size = (w as usize) * (h as usize) * 3;
        if data.len() != size {
            return None;
        }
        let mut rgba: Vec<u8> = Vec::new();
        let mut i: usize = 0;
        assert(data@.take(0) =~= seq![]);
        while data.len() - i >= 3
            invariant
                i <= data@.len(),
                i % 3 == 0,
                data@.len() % 3 == 0,
                rgba@ == with_alpha(data@.take(i as int)),
            decreases data@.len() - i,
        {
            rgba.push(data[i]);
            rgba.push(data[i + 1]);
            rgba.push(data[i + 2]);
            rgba.push(255);
            proof {
                let t = data@.take(i + 3);
                assert(t.take(t.len() - 3) =~= data@.take(i as int));
                assert(rgba@ =~= with_alpha(t));
            }
            i += 3;
        }
        assert(data@.take(i as int) =~= data@);
        Some(Entry { w, h, rgba })
    } else {
        None
    }
}


/// Most pictures a store keeps.
pub const KEEP: usize = 64;

/// Some ids with every `id` taken out, the others kept in order.
pub open spec fn without(s: Seq<u32>, id: u32) -> Seq<u32>
    decreases s.len(),
{
    if s.len() == 0 {
        s
    } else if s.last() == id {
        without(s.drop_last(), id)
    } else {
        without(s.drop_last(), id).push(s.last())
    }
}

/// A store's shape: each id once, from least to most recently stored, the
/// same ids as the pictures, and no more than `KEEP` of them.
pub open spec fn tidy(ages: Seq<u32>, pics: Map<u32, Entry>) -> bool {
    &&& ages.no_duplicates()
    &&& ages.to_set() == pics.dom()
    &&& ages.len() <= KEEP
}

/// The ids in storing order once `id` has been stored, before any is let go.
pub open spec fn queued(ages: Seq<u32>, id: u32) -> Seq<u32> {
    without(ages, id).push(id)
}

/// The id that storing `id` lets go: the least recently stored, when the
/// store would otherwise hold more than `KEEP`.
pub open spec fn evicted(ages: Seq<u32>, id: u32) -> Option<u32> {
    let q = queued(ages, id);
    if q.len() > KEEP {
        Some(q[0])
    } else {
        None
    }
}

/// The ids in storing order after storing `id`.
pub open spec fn ages_after_put(ages: Seq<u32>, id: u32) -> Seq<u32> {
    let q = queued(ages, id);
    if q.len() > KEEP {
        q.drop_first()
    } else {
        q
    }
}

/// The pictures after storing `entry` under `id`.
pub open spec fn pics_after_put(pics: Map<u32, Entry>, ages: Seq<u32>, id: u32, entry: Entry) -> Map<
    u32,
    Entry,
> {
    let m = pics.insert(id, entry);
    match evicted(ages, id) {
        Some(gone) => m.remove(gone),
        None => m,
    }
}

proof fn lemma_without(s: Seq<u32>, id: u32)
    ensures
        forall|x: u32| without(s, id).contains(x) <==> (s.contains(x) && x != id),
        s.no_duplicates() ==> without(s, id).no_duplicates(),
        !s.contains(id) ==> without(s, id) == s,
        without(s, id).len() <= s.len(),
        s.no_duplicates() && s.contains(id) ==> without(s, id).len() + 1 == s.len(),
    decreases s.len(),
{
    if s.len() > 0 {
        let t = s.drop_last();
        lemma_without(t, id);
        assert(s =~= t.push(s.last()));
        assert forall|x: u32| s.contains(x) <==> (t.contains(x) || x == s.last()) by {
            if s.contains(x) {
                let k = choose|k: int| 0 <= k < s.len() && s[k] == x;
                if k < t.len() {
                    assert(t[k] == x);
                }
            }
            if t.contains(x) {
                let k = choose|k: int| 0 <= k < t.len() && t[k] == x;
                assert(s[k] == x);
            }
            if x == s.last() {
                assert(s[s.len() - 1] == x);
            }
        }
        if s.no_duplicates() {
            assert(t.no_duplicates());
            assert(!t.contains(s.last()));
        }
        if s.last() != id {
            let w = without(t, id);
            assert forall|x: u32| w.push(s.last()).contains(x) <==> (w.contains(x) || x
                == s.last()) by {
                if w.push(s.last()).contains(x) {
                    let k = choose|k: int| 0 <= k < w.len() + 1 && w.push(s.last())[k] == x;
                    if k < w.len() {
                        assert(w[k] == x);
                    }
                }
                if w.contains(x) {
                    let k = choose|k: int| 0 <= k < w.len() && w[k] == x;
                    assert(w.push(s.last())[k] == x);
                }
                if x == s.last() {
                    assert(w.push(s.last())[w.len() as int] == x);
                }
            }
            if !s.contains(id) {
                assert(!t.contains(id));
            }
        } else {
            assert(s.contains(id));
        }
    }
}

proof fn lemma_without_step(s: Seq<u32>, id: u32, i: int)
    requires
        0 <= i < s.len(),
    ensures
        without(s.take(i + 1), id) == (if s[i] == id {
            without(s.take(i), id)
        } else {
            without(s.take(i), id).push(s[i])
        }),
{
    assert(s.take(i + 1).drop_last() =~= s.take(i));
}

/// The ids kept in order, every `id` taken out.
fn strip(order: &VecDeque<u32>, id: u32) -> (r: VecDeque<u32>)
    ensures
        r@ == without(order@, id),
{
    broadcast use vstd::std_specs::vecdeque::group_vec_dequeue_axioms;

    let mut kept: VecDeque<u32> = VecDeque::new();
    let mut i: usize = 0;
    let n = order.len();
    while i < n
        invariant
            n == order@.len(),
            i <= n,
            kept@ == without(order@.take(i as int), id),
        decreases n - i,
    {
        let x = order[i];
        proof {
            lemma_without_step(order@, id, i as int);
        }
        if x != id {
            kept.push_back(x);
        }
        i += 1;
    }
    assert(order@.take(n as int) =~= order@);
    kept
}

proof fn lemma_tidy_len(ages: Seq<u32>, pics: Map<u32, Entry>)
    requires
        ages.no_duplicates(),
        ages.to_set() == pics.dom(),
    ensures
        pics.len() == ages.len(),
{
    ages.unique_seq_to_set();
}

proof fn lemma_put(ages: Seq<u32>, pics: Map<u32, Entry>, id: u32, entry: Entry)
    requires
        tidy(ages, pics),
    ensures
        queued(ages, id).no_duplicates(),
        queued(ages, id).to_set() == pics.insert(id, entry).dom(),
        queued(ages, id).len() <= KEEP + 1,
        queued(ages, id).len() == pics.insert(id, entry).len(),
        tidy(ages_after_put(ages, id), pics_after_put(pics, ages, id, entry)),
        queued(ages, id).len() > KEEP ==> queued(ages, id)[0] != id && pics.insert(id, entry).contains_key(queued(ages, id)[0]),
{
    let w = without(ages, id);
    let q = queued(ages, id);
    let m = pics.insert(id, entry);
    lemma_without(ages, id);
    assert forall|x: u32| q.contains(x) <==> (w.contains(x) || x == id) by {
        if q.contains(x) {
            let k = choose|k: int| 0 <= k < q.len() && q[k] == x;
            if k < w.len() {
                assert(w[k] == x);
            }
        }
        if w.contains(x) {
            let k = choose|k: int| 0 <= k < w.len() && w[k] == x;
            assert(q[k] == x);
        }
        if x == id {
            assert(q[w.len() as int] == x);
        }
    }
    assert(q.to_set() =~= m.dom());
    assert(q.no_duplicates());
    lemma_tidy_len(q, m);
    lemma_tidy_len(ages, pics);
    if ages.contains(id) {
        assert(ages.to_set().contains(id));
    } else {
        assert(!ages.to_set().contains(id));
        assert(!pics.dom().contains(id));
    }
    if q.len() > KEEP {
        assert(q[0] != id) by {
            assert(q[q.len() - 1] == id);
        }
        assert(q.contains(q[0]));
        let r = q.drop_first();
        assert forall|x: u32| r.contains(x) <==> (q.contains(x) && x != q[0]) by {
            if r.contains(x) {
                let k = choose|k: int| 0 <= k < r.len() && r[k] == x;
                assert(q[k + 1] == x);
            }
            if q.contains(x) && x != q[0] {
                let k = choose|k: int| 0 <= k < q.len() && q[k] == x;
                assert(r[k - 1] == x);
            }
        }
        assert(r.to_set() =~= m.remove(q[0]).dom());
    }
}

/// Pictures by id, letting go of the least recently stored beyond `KEEP`.
pub struct Store {
    map: HashMap<u32, Entry>,
    order: VecDeque<u32>,
}

impl Store {
    /// The pictures held, by id.
    pub closed spec fn pics(&self) -> Map<u32, Entry> {
        self.map@
    }

    /// The ids held, from least to most recently stored.
    pub closed spec fn ages(&self) -> Seq<u32> {
        self.order@
    }

    /// The store's shape holds.
    pub open spec fn wf(&self) -> bool {
        tidy(self.ages(), self.pics())
    }

    /// An empty store.
    pub fn new() -> (s: Store)
        ensures
            s.wf(),
            s.pics() == Map::<u32, Entry>::empty(),
            s.ages() == Seq::<u32>::empty(),
    {
        let s = Store { map: HashMap::new(), order: VecDeque::new() };
        assert(s.order@.to_set() =~= s.map@.dom());
        s
    }

    /// Stores a picture under an id, replacing one stored under it before;
    /// returns the id it let go to stay within `KEEP`, if any.
    pub fn put(&mut self, id: u32, entry: Entry) -> (lost: Option<u32>)
        requires
            old(self).wf(),
        ensures
            final(self).wf(),
            lost == evicted(old(self).ages(), id),
            final(self).ages() == ages_after_put(old(self).ages(), id),
            final(self).pics() == pics_after_put(old(self).pics(), old(self).ages(), id, entry),
    {
        broadcast use vstd::std_specs::hash::group_hash_axioms;
        broadcast use vstd::std_specs::vecdeque::group_vec_dequeue_axioms;

        let ghost ages = self.order@;
        let ghost pics = self.map@;
        let ghost q = queued(ages, id);
        let ghost m = pics.insert(id, entry);
        proof {
            lemma_put(ages, pics, id, entry);
            lemma_without(ages, id);
            if !pics.contains_key(id) {
                assert(!ages.to_set().contains(id));
                assert(!ages.contains(id));
            }
        }
        if self.map.contains_key(&id) {
            self.order = strip(&self.order, id);
        }
        self.order.push_back(id);
        self.map.insert(id, entry);
        assert(self.order@ == q);
        assert(self.map@ == m);
        let mut lost: Option<u32> = None;
        while self.map.len() > KEEP
            invariant
                q.len() == m.len(),
                q.len() <= KEEP + 1,
                q.len() > KEEP ==> m.contains_key(q[0]),
                lost is None ==> self.order@ == q && self.map@ == m,
                lost is Some ==> q.len() > KEEP && lost == Some(q[0]) && self.order@ == q.drop_first()
                    && self.map@ == m.remove(q[0]),
            ensures
                self.map@.len() <= KEEP,
                lost is None ==> self.order@ == q && self.map@ == m,
                lost is Some ==> q.len() > KEEP && lost == Some(q[0]) && self.order@ == q.drop_first()
                    && self.map@ == m.remove(q[0]),
            decreases self.order@.len(),
        {
            match self.order.pop_front() {
                Some(old) => {
                    if self.map.remove(&old).is_some() {
                        lost = Some(old);
                    }
                },
                None => break,
            }
        }
        lost
    }

    /// The picture stored under an id, if any.
    pub fn get(&self, id: u32) -> (r: Option<&Entry>)
        ensures
            match r {
                Some(e) => self.pics().contains_key(id) && *e == self.pics()[id],
                None => !self.pics().contains_key(id),
            },
    {
        broadcast use vstd::std_specs::hash::group_hash_axioms;

        self.map.get(&id)
    }

    /// Lets go of the picture stored under an id.
    pub fn free(&mut self, id: u32)
        requires
            old(self).wf(),
        ensures
            final(self).wf(),
            final(self).pics() == old(self).pics().remove(id),
            final(self).ages() == without(old(self).ages(), id),
    {
        broadcast use vstd::std_specs::hash::group_hash_axioms;

        let ghost ages = self.order@;
        self.map.remove(&id);
        self.order = strip(&self.order, id);
        proof {
            lemma_without(ages, id);
            assert(self.order@.to_set() =~= self.map@.dom());
        }
    }

    /// Lets go of every picture.
    pub fn clear(&mut self)
        ensures
            final(self).wf(),
            final(self).pics() == Map::<u32, Entry>::empty(),
            final(self).ages() == Seq::<u32>::empty(),
    {
        self.map.clear();
        self.order.clear();
        assert(self.order@.to_set() =~= self.map@.dom());
    }
}


/// Storing a picture keeps the store's shape, a read of its id then gives
/// the picture back, and every other picture held stays but the one let go.
pub proof fn law_put_then_get(ages: Seq<u32>, pics: Map<u32, Entry>, id: u32, entry: Entry)
    requires
        tidy(ages, pics),
    ensures
        tidy(ages_after_put(ages, id), pics_after_put(pics, ages, id, entry)),
        pics_after_put(pics, ages, id, entry).contains_key(id),
        pics_after_put(pics, ages, id, entry)[id] == entry,
        forall|k: u32|
            pics.contains_key(k) && k != id && evicted(ages, id) != Some(k) ==> {
                &&& pics_after_put(pics, ages, id, entry).contains_key(k)
                &&& pics_after_put(pics, ages, id, entry)[k] == pics[k]
            },
{
    lemma_put(ages, pics, id, entry);
}

/// A full store that takes a new id lets go of its least recently stored picture.
pub proof fn law_full_store_evicts_oldest(
    ages: Seq<u32>,
    pics: Map<u32, Entry>,
    id: u32,
    entry: Entry,
)
    requires
        tidy(ages, pics),
        ages.len() == KEEP,
        !pics.contains_key(id),
    ensures
        evicted(ages, id) == Some(ages[0]),
        !pics_after_put(pics, ages, id, entry).contains_key(ages[0]),
        ages_after_put(ages, id) == ages.drop_first().push(id),
{
    lemma_without(ages, id);
    assert(!ages.contains(id)) by {
        if ages.contains(id) {
            assert(ages.to_set().contains(id));
        }
    }
    assert(queued(ages, id).drop_first() =~= ages.drop_first().push(id));
}

/// Storing under an id already held lets nothing go, and makes that id the
/// most recently stored.
pub proof fn law_restore_keeps_all(ages: Seq<u32>, pics: Map<u32, Entry>, id: u32, entry: Entry)
    requires
        tidy(ages, pics),
        pics.contains_key(id),
    ensures
        evicted(ages, id) is None,
        ages_after_put(ages, id).last() == id,
        pics_after_put(pics, ages, id, entry).dom() == pics.dom(),
{
    lemma_without(ages, id);
    assert(ages.contains(id)) by {
        assert(ages.to_set().contains(id));
    }
    assert(pics.insert(id, entry).dom() =~= pics.dom());
}


/// An inline file: the cells it asks for and its decoded bytes.
pub struct File {
    pub cols: u32,
    pub rows: u32,
    pub png: Vec<u8>,
}

/// A size in cells as written: a plain decimal that fits, else 0.
pub open spec fn cells_of(val: Seq<u8>) -> u32 {
    if val.len() > 0 && all_digits(val) {
        match parse_u32(val) {
            Some(v) => v,
            None => 0,
        }
    } else {
        0
    }
}

/// The cells after the `;`-separated `key=value` pairs of `h` from `start`
/// on, from `size` before them; a piece without `=` spoils the header.
pub open spec fn sizes_from(h: Seq<u8>, start: int, size: (u32, u32)) -> Option<(u32, u32)>
    decreases h.len() - start,
{
    if start < 0 || start > h.len() {
        None
    } else {
        let e = first_at(h, 0x3b, start, h.len() as int);
        let eq = first_at(h, 0x3d, start, e);
        if eq >= e || e > h.len() || e < start {
            None
        } else {
            let key = h.subrange(start, eq);
            let val = h.subrange(eq + 1, e);
            let next = if key == seq![0x77u8, 0x69, 0x64, 0x74, 0x68] {
                (cells_of(val), size.1)
            } else if key == seq![0x68u8, 0x65, 0x69, 0x67, 0x68, 0x74] {
                (size.0, cells_of(val))
            } else {
                size
            };
            if e >= h.len() {
                Some(next)
            } else {
                sizes_from(h, e + 1, next)
            }
        }
    }
}

/// The `width` and `height` a file header asks for, in cells; 0 where it
/// gives none or one that is not a plain number.
pub open spec fn sizes_of(h: Seq<u8>) -> Option<(u32, u32)> {
    sizes_from(h, 0, (0, 0))
}

/// Whether a byte is ASCII whitespace: space, tab, line feed, form feed or
/// carriage return.
pub open spec fn is_space(b: u8) -> bool {
    b == 0x20 || b == 0x09 || b == 0x0a || b == 0x0c || b == 0x0d
}

/// Some bytes with the whitespace taken out.
pub open spec fn squeezed(d: Seq<u8>) -> Seq<u8>
    decreases d.len(),
{
    if d.len() == 0 {
        d
    } else if is_space(d.last()) {
        squeezed(d.drop_last())
    } else {
        squeezed(d.drop_last()).push(d.last())
    }
}

/// The base64 text of a file's data: no whitespace, and no lone last
/// character that could not make a byte.
pub open spec fn base64_text_of(d: Seq<u8>) -> Seq<u8> {
    let r = squeezed(d);
    if r.len() % 4 == 1 {
        r.drop_last()
    } else {
        r
    }
}

/// What the `base64` crate's standard engine decodes some text to.
pub uninterp spec fn base64_standard(text: Seq<u8>) -> Option<Seq<u8>>;

/// `BASE64_STANDARD.decode` from the `base64` crate, its error as `None`.
///
/// Claims only that the result is a function of the text; which texts it
/// accepts and what they decode to is left to the crate.
#[verifier::external_body]
fn unbase64(text: &[u8]) -> (r: Option<Vec<u8>>)
    ensures
        match r {
            Some(b) => base64_standard(text@) == Some(b@),
            None => base64_standard(text@) is None,
        },
{
    base64::prelude::BASE64_STANDARD.decode(text).ok()
}

/// A size in cells as written: a plain decimal that fits, else 0.
fn cells(val: &[u8]) -> (r: u32)
    ensures
        r == cells_of(val@),
{
    if val.len() > 0 && only_digits(val, 0) {
        assert(val@.skip(0) =~= val@);
        match num(val) {
            Some(v) => v,
            None => 0,
        }
    } else {
        assert(val@.skip(0) =~= val@);
        0
    }
}

/// The base64 text of a file's data: the data without whitespace, less a
/// lone last character.
pub fn base64_text(data: &[u8]) -> (r: Vec<u8>)
    ensures
        r@ == base64_text_of(data@),
{
    let mut raw: Vec<u8> = Vec::new();
    let mut i: usize = 0;
    while i < data.len()
        invariant
            i <= data@.len(),
            raw@ == squeezed(data@.take(i as int)),
        decreases data@.len() - i,
    {
        let b = data[i];
        assert(data@.take(i + 1).drop_last() =~= data@.take(i as int));
        if !(b == 0x20 || b == 0x09 || b == 0x0a || b == 0x0c || b == 0x0d) {
            raw.push(b);
        }
        i += 1;
    }
    assert(data@.take(data@.len() as int) =~= data@);
    if raw.len() % 4 == 1 {
        raw.pop();
    }
    raw
}

/// The cells a file header asks for, with `;`-separated `key=value` pairs.
pub fn file_sizes(head: &[u8]) -> (r: Option<(u32, u32)>)
    ensures
        r == sizes_of(head@),
{
    let len = head.len();
    let mut size: (u32, u32) = (0, 0);
    let mut start: usize = 0;
    loop
        invariant_except_break
            start <= len,
            sizes_of(head@) == sizes_from(head@, start as int, size),
        invariant
            len == head@.len(),
        ensures
            sizes_of(head@) == Some(size),
        decreases len - start,
    {
        let e = find_byte(head, 0x3b, start, len);
        let eq = find_byte(head, 0x3d, start, e);
        if eq >= e {
            return None;
        }
        let key = &head[start..eq];
        let val = &head[eq + 1..e];
        if key.len() == 5 && key[0] == 0x77 && key[1] == 0x69 && key[2] == 0x64 && key[3] == 0x74
            && key[4] == 0x68 {
            assert(key@ =~= seq![0x77u8, 0x69, 0x64, 0x74, 0x68]);
            size = (cells(val), size.1);
        } else if key.len() == 6 && key[0] == 0x68 && key[1] == 0x65 && key[2] == 0x69 && key[3]
            == 0x67 && key[4] == 0x68 && key[5] == 0x74 {
            assert(key@ =~= seq![0x68u8, 0x65, 0x69, 0x67, 0x68, 0x74]);
            assert(key@ != seq![0x77u8, 0x69, 0x64, 0x74, 0x68]);
            size = (size.0, cells(val));
        } else {
            assert(key@ != seq![0x77u8, 0x69, 0x64, 0x74, 0x68]) by {
                if key@ == seq![0x77u8, 0x69, 0x64, 0x74, 0x68] {
                    assert(key@.len() == 5 && key@[0] == 0x77 && key@[1] == 0x69);
                }
            }
            assert(key@ != seq![0x68u8, 0x65, 0x69, 0x67, 0x68, 0x74]) by {
                if key@ == seq![0x68u8, 0x65, 0x69, 0x67, 0x68, 0x74] {
                    assert(key@.len() == 6 && key@[0] == 0x68);
                }
            }
        }
        if e >= len {
            break;
        }
        start = e + 1;
    }
    Some(size)
}

/// A file from its header and its decoded bytes: none where the header is
/// spoilt or the bytes did not decode.
pub fn file_of(head: &[u8], png: Option<Vec<u8>>) -> (r: Option<File>)
    ensures
        match r {
            Some(f) => sizes_of(head@) == Some((f.cols, f.rows)) && png == Some(f.png),
            None => sizes_of(head@) is None || png is None,
        },
{
    match file_sizes(head) {
        Some((cols, rows)) => match png {
            Some(png) => Some(File { cols, rows, png }),
            None => None,
        },
        None => None,
    }
}

/// Reads an inline file: its header's sizes in cells and its base64 data,
/// decoded.
pub fn file(head: &[u8], data: &[u8]) -> (r: Option<File>)
    ensures
        match r {
            Some(f) => {
                &&& sizes_of(head@) == Some((f.cols, f.rows))
                &&& base64_standard(base64_text_of(data@)) == Some(f.png@)
            },
            None => sizes_of(head@) is None || base64_standard(base64_text_of(data@)) is None,
        },
{
    let text = base64_text(data);
    file_of(head, unbase64(&text))
}

} // verus!
