//! Little-endian building blocks of the binary formats.
use vstd::prelude::*;
use vstd::utf8;

verus! {

/// The two bytes of a number, lowest first.
#[verifier::opaque]
pub open spec fn le2(v: u16) -> Seq<u8> {
    seq![(v % 256) as u8, (v / 256) as u8]
}

/// The four bytes of a number, lowest first.
#[verifier::opaque]
pub open spec fn le4(v: u32) -> Seq<u8> {
    seq![
        (v % 256) as u8,
        (v / 256 % 256) as u8,
        (v / 65536 % 256) as u8,
        (v / 16777216) as u8,
    ]
}

/// The eight bytes of a number, lowest first.
#[verifier::opaque]
pub open spec fn le8(v: u64) -> Seq<u8> {
    le4((v % 4294967296) as u32) + le4((v / 4294967296) as u32)
}

/// The number in the two bytes from `i` on.
#[verifier::opaque]
pub open spec fn val2(s: Seq<u8>, i: int) -> u16 {
    (s[i] + s[i + 1] * 256) as u16
}

/// The number in the four bytes from `i` on.
#[verifier::opaque]
pub open spec fn val4(s: Seq<u8>, i: int) -> u32 {
    (s[i] + s[i + 1] * 256 + s[i + 2] * 65536 + s[i + 3] * 16777216) as u32
}

/// The number in the eight bytes from `i` on.
#[verifier::opaque]
pub open spec fn val8(s: Seq<u8>, i: int) -> u64 {
    (val4(s, i) + val4(s, i + 4) * 4294967296) as u64
}

/// A signed number as the unsigned one with the same bits.
pub open spec fn unsigned(v: i32) -> u32 {
    (if v >= 0 {
        v as int
    } else {
        v + 4294967296
    }) as u32
}

/// The signed number with the bits of an unsigned one.
pub open spec fn signed(v: u32) -> i32 {
    (if v < 2147483648 {
        v as int
    } else {
        v - 4294967296
    }) as i32
}

/// The signed number in the four bytes from `i` on.
pub open spec fn ival4(s: Seq<u8>, i: int) -> i32 {
    signed(val4(s, i))
}

pub fn to_unsigned(v: i32) -> (r: u32)
    ensures
        r == unsigned(v),
        signed(r) == v,
{
    if v >= 0 {
        v as u32
    } else {
        (v as i64 + 4294967296) as u32
    }
}

pub fn to_signed(v: u32) -> (r: i32)
    ensures
        r == signed(v),
        unsigned(r) == v,
{
    if v < 2147483648 {
        v as i32
    } else {
        (v as i64 - 4294967296) as i32
    }
}

/// A number of two bytes is written as two bytes.
pub broadcast proof fn le2_length(v: u16)
    ensures
        (#[trigger] le2(v)).len() == 2,
{
    reveal(le2);
}

/// A number of four bytes is written as four bytes.
pub broadcast proof fn le4_length(v: u32)
    ensures
        (#[trigger] le4(v)).len() == 4,
{
    reveal(le4);
}

/// A number of eight bytes is written as eight bytes.
pub broadcast proof fn le8_length(v: u64)
    ensures
        (#[trigger] le8(v)).len() == 8,
{
    reveal(le8);
    reveal(le4);
}

/// The lengths of numbers as bytes.
pub broadcast group group_number_lengths {
    le2_length,
    le4_length,
    le8_length,
}

/// Two bytes are read back as the number that was written.
pub proof fn number2_reads_back(s: Seq<u8>, i: int, v: u16)
    requires
        0 <= i,
        i + 2 <= s.len(),
        s.subrange(i, i + 2) == le2(v),
    ensures
        val2(s, i) == v,
{
    reveal(le2);
    reveal(val2);
    let t = s.subrange(i, i + 2);
    assert(t[0] == s[i] && t[1] == s[i + 1]);
}

/// Four bytes are read back as the number that was written.
pub proof fn number4_reads_back(s: Seq<u8>, i: int, v: u32)
    requires
        0 <= i,
        i + 4 <= s.len(),
        s.subrange(i, i + 4) == le4(v),
    ensures
        val4(s, i) == v,
{
    reveal(le4);
    reveal(val4);
    let t = s.subrange(i, i + 4);
    assert(t[0] == s[i] && t[1] == s[i + 1] && t[2] == s[i + 2] && t[3] == s[i + 3]);
}

/// Eight bytes are read back as the number that was written.
pub proof fn number8_reads_back(s: Seq<u8>, i: int, v: u64)
    requires
        0 <= i,
        i + 8 <= s.len(),
        s.subrange(i, i + 8) == le8(v),
    ensures
        val8(s, i) == v,
{
    broadcast use group_number_lengths;

    reveal(le8);
    reveal(val8);
    let t = s.subrange(i, i + 8);
    let low = (v % 4294967296) as u32;
    let high = (v / 4294967296) as u32;
    assert(s.subrange(i, i + 4) =~= t.subrange(0, 4));
    assert(t.subrange(0, 4) =~= le4(low));
    number4_reads_back(s, i, low);
    assert(s.subrange(i + 4, i + 8) =~= t.subrange(4, 8));
    assert(t.subrange(4, 8) =~= le4(high));
    number4_reads_back(s, i + 4, high);
}

/// Two bytes are what the number that they are read as is written as.
pub proof fn number2_writes_back(s: Seq<u8>, i: int)
    requires
        0 <= i,
        i + 2 <= s.len(),
    ensures
        le2(val2(s, i)) == s.subrange(i, i + 2),
{
    reveal(le2);
    reveal(val2);
    assert(le2(val2(s, i)) =~= s.subrange(i, i + 2));
}

/// Four bytes are what the number that they are read as is written as.
pub proof fn number4_writes_back(s: Seq<u8>, i: int)
    requires
        0 <= i,
        i + 4 <= s.len(),
    ensures
        le4(val4(s, i)) == s.subrange(i, i + 4),
{
    reveal(le4);
    reveal(val4);
    let v = val4(s, i) as int;
    let (a, b, c, d) = (s[i] as int, s[i + 1] as int, s[i + 2] as int, s[i + 3] as int);
    assert(v == a + 256 * (b + 256 * (c + 256 * d)));
    assert(v / 256 == b + 256 * (c + 256 * d) && v % 256 == a);
    assert(v / 65536 == c + 256 * d && v / 256 % 256 == b);
    assert(v / 16777216 == d && v / 65536 % 256 == c);
    assert(le4(val4(s, i)) =~= s.subrange(i, i + 4));
}

/// Eight bytes are what the number that they are read as is written as.
pub proof fn number8_writes_back(s: Seq<u8>, i: int)
    requires
        0 <= i,
        i + 8 <= s.len(),
    ensures
        le8(val8(s, i)) == s.subrange(i, i + 8),
{
    broadcast use group_number_lengths;

    reveal(le8);
    reveal(val8);
    let v = val8(s, i) as int;
    let (low, high) = (val4(s, i) as int, val4(s, i + 4) as int);
    assert(v == low + 4294967296 * high);
    assert(v % 4294967296 == low && v / 4294967296 == high);
    number4_writes_back(s, i);
    number4_writes_back(s, i + 4);
    assert(le8(val8(s, i)) =~= s.subrange(i, i + 8));
}

/// Signed numbers survive being held as unsigned ones.
pub proof fn signed_numbers_survive(v: i32)
    ensures
        signed(unsigned(v)) == v,
{
}

/// The text that bytes stand for.
///
/// `String::from_utf8` hands back the text whose encoding the bytes are, and
/// refuses bytes that are not the encoding of any text.
#[verifier::external_body]
pub(crate) fn text_from_bytes(bytes: Vec<u8>) -> (r: Option<String>)
    ensures
        match r {
            Some(s) => utf8::valid_utf8(bytes@) && s@ == utf8::decode_utf8(bytes@),
            None => !utf8::valid_utf8(bytes@),
        },
{
    String::from_utf8(bytes).ok()
}

/// A text is read back from its bytes as it was written.
pub proof fn text_reads_back(text: Seq<char>)
    ensures
        utf8::valid_utf8(utf8::encode_utf8(text)),
        utf8::decode_utf8(utf8::encode_utf8(text)) == text,
{
    utf8::encode_utf8_valid_utf8(text);
    utf8::encode_utf8_decode_utf8(text);
}

/// Copies `n` bytes from `i` on.
pub fn copy_bytes(b: &[u8], i: usize, n: usize) -> (r: Vec<u8>)
    requires
        i + n <= b@.len(),
    ensures
        r@ == b@.subrange(i as int, i + n),
{
    let end: usize = b.len();
    let mut r: Vec<u8> = Vec::new();
    let mut k: usize = 0;
    while k < n
        invariant
            k <= n,
            i + n <= end,
            end == b@.len(),
            r@ == b@.subrange(i as int, i + k),
        decreases n - k,
    {
        r.push(b[i + k]);
        k = k + 1;
    }
    r
}

/// Three signed coordinates.
pub open spec fn triple_bytes(x: i32, y: i32, z: i32) -> Seq<u8> {
    le4(unsigned(x)) + le4(unsigned(y)) + le4(unsigned(z))
}

/// A text: the length of its encoding, and the encoding.
pub open spec fn text_bytes(text: Seq<char>) -> Seq<u8> {
    le2((utf8::encode_utf8(text).len() % 65536) as u16) + utf8::encode_utf8(text)
}

/// A payload under construction.
pub struct Enc {
    out: Vec<u8>,
}

impl View for Enc {
    type V = Seq<u8>;

    closed spec fn view(&self) -> Seq<u8> {
        self.out@
    }
}

impl Enc {
    pub fn new() -> (e: Enc)
        ensures
            e@ == Seq::<u8>::empty(),
    {
        Enc { out: Vec::new() }
    }

    pub fn u8(&mut self, v: u8)
        ensures
            final(self)@ == old(self)@ + seq![v],
    {
        self.out.push(v);
        assert(self@ =~= old(self)@ + seq![v]);
    }

    pub fn u16(&mut self, v: u16)
        ensures
            final(self)@ == old(self)@ + le2(v),
    {
        proof {
            reveal(le2);
        }
        self.out.push((v % 256) as u8);
        self.out.push((v / 256) as u8);
        assert(self@ =~= old(self)@ + le2(v));
    }

    pub fn u32(&mut self, v: u32)
        ensures
            final(self)@ == old(self)@ + le4(v),
    {
        proof {
            reveal(le4);
        }
        self.out.push((v % 256) as u8);
        self.out.push((v / 256 % 256) as u8);
        self.out.push((v / 65536 % 256) as u8);
        self.out.push((v / 16777216) as u8);
        assert(self@ =~= old(self)@ + le4(v));
    }

    pub fn u64(&mut self, v: u64)
        ensures
            final(self)@ == old(self)@ + le8(v),
    {
        proof {
            reveal(le8);
        }
        self.u32((v % 4294967296) as u32);
        self.u32((v / 4294967296) as u32);
        assert(self@ =~= old(self)@ + le8(v));
    }

    pub fn i32(&mut self, v: i32)
        ensures
            final(self)@ == old(self)@ + le4(unsigned(v)),
    {
        self.u32(to_unsigned(v));
    }

    /// Appends a number held by its bits.
    pub fn float_bits(&mut self, bits: u32)
        ensures
            final(self)@ == old(self)@ + le4(bits),
    {
        self.u32(bits);
    }

    pub fn bytes(&mut self, b: &[u8])
        ensures
            final(self)@ == old(self)@ + b@,
    {
        let mut k: usize = 0;
        while k < b.len()
            invariant
                k <= b@.len(),
                self@ == old(self)@ + b@.take(k as int),
            decreases b@.len() - k,
        {
            self.out.push(b[k]);
            k = k + 1;
            assert(self@ =~= old(self)@ + b@.take(k as int));
        }
        assert(b@.take(k as int) =~= b@);
    }

    /// Appends three signed coordinates.
    pub fn triple(&mut self, x: i32, y: i32, z: i32)
        ensures
            final(self)@ == old(self)@ + triple_bytes(x, y, z),
    {
        self.i32(x);
        self.i32(y);
        self.i32(z);
        assert(self@ =~= old(self)@ + triple_bytes(x, y, z));
    }

    /// Appends a text, its length first.
    pub fn text(&mut self, text: &String)
        ensures
            final(self)@ == old(self)@ + text_bytes(text@),
    {
        let bytes = text.as_str().as_bytes();
        self.u16((bytes.len() as u64 % 65536) as u16);
        self.bytes(bytes);
        assert(self@ =~= old(self)@ + text_bytes(text@));
    }

    /// Hands the payload out.
    pub fn into_bytes(self) -> (r: Vec<u8>)
        ensures
            r@ == self@,
    {
        self.out
    }

    /// Seals the payload as a frame: type, length, payload.
    pub fn frame(self, ty: u8) -> (r: Vec<u8>)
        ensures
            r@ == framed(ty, self@),
    {
        let n: u32 = (self.out.len() as u64 % 4294967296) as u32;
        let mut e = Enc::new();
        e.u8(ty);
        e.u32(n);
        e.bytes(self.out.as_slice());
        assert(e@ =~= framed(ty, self@));
        e.into_bytes()
    }
}

/// A frame: one byte of type, four bytes of payload length, the payload.
pub open spec fn framed(ty: u8, payload: Seq<u8>) -> Seq<u8> {
    seq![ty] + le4((payload.len() % 4294967296) as u32) + payload
}

/// The type and the payload of a frame, where all of it is there.
pub open spec fn unframed(frame: Seq<u8>) -> Option<(u8, Seq<u8>)> {
    if frame.len() >= 5 && frame.len() - 5 >= val4(frame, 1) {
        Some((frame[0], frame.subrange(5, 5 + val4(frame, 1))))
    } else {
        None
    }
}

/// A reading position in a payload.
pub struct Dec<'a> {
    pub b: &'a [u8],
    pub i: usize,
}

impl<'a> Dec<'a> {
    /// Whether the position is inside the payload or at its end.
    pub open spec fn wf(self) -> bool {
        self.i <= self.b@.len()
    }

    /// Whether `n` more bytes are there.
    pub open spec fn has(self, n: int) -> bool {
        self.i + n <= self.b@.len()
    }

    pub fn new(b: &'a [u8]) -> (d: Dec<'a>)
        ensures
            d.b@ == b@,
            d.i == 0,
            d.wf(),
    {
        Dec { b, i: 0 }
    }

    pub fn exhausted(&self) -> (r: bool)
        ensures
            r == (self.i == self.b@.len()),
    {
        self.i == self.b.len()
    }

    /// Steps over `n` bytes, where they are there.
    fn advance(&mut self, n: usize) -> (r: Option<usize>)
        requires
            old(self).wf(),
        ensures
            final(self).wf(),
            final(self).b@ == old(self).b@,
            match r {
                Some(at) => at == old(self).i && old(self).has(n as int) && final(self).i == old(self).i + n,
                None => !old(self).has(n as int) && final(self).i == old(self).i,
            },
    {
        if self.b.len() - self.i < n {
            return None;
        }
        let at: usize = self.i;
        self.i = self.i + n;
        Some(at)
    }

    pub fn u8(&mut self) -> (r: Option<u8>)
        requires
            old(self).wf(),
        ensures
            final(self).wf(),
            final(self).b@ == old(self).b@,
            match r {
                Some(v) => old(self).has(1) && v == old(self).b@[old(self).i as int] && final(self).i == old(self).i + 1,
                None => !old(self).has(1) && final(self).i == old(self).i,
            },
    {
        match self.advance(1) {
            Some(at) => Some(self.b[at]),
            None => None,
        }
    }

    pub fn u16(&mut self) -> (r: Option<u16>)
        requires
            old(self).wf(),
        ensures
            final(self).wf(),
            final(self).b@ == old(self).b@,
            match r {
                Some(v) => old(self).has(2) && v == val2(old(self).b@, old(self).i as int)
                    && final(self).i == old(self).i + 2,
                None => !old(self).has(2) && final(self).i == old(self).i,
            },
    {
        proof {
            reveal(val2);
        }
        match self.advance(2) {
            Some(at) => Some(self.b[at] as u16 + self.b[at + 1] as u16 * 256),
            None => None,
        }
    }

    pub fn u32(&mut self) -> (r: Option<u32>)
        requires
            old(self).wf(),
        ensures
            final(self).wf(),
            final(self).b@ == old(self).b@,
            match r {
                Some(v) => old(self).has(4) && v == val4(old(self).b@, old(self).i as int)
                    && final(self).i == old(self).i + 4,
                None => !old(self).has(4) && final(self).i == old(self).i,
            },
    {
        match self.advance(4) {
            Some(at) => Some(read4(self.b, at)),
            None => None,
        }
    }

    pub fn u64(&mut self) -> (r: Option<u64>)
        requires
            old(self).wf(),
        ensures
            final(self).wf(),
            final(self).b@ == old(self).b@,
            match r {
                Some(v) => old(self).has(8) && v == val8(old(self).b@, old(self).i as int)
                    && final(self).i == old(self).i + 8,
                None => !old(self).has(8) && final(self).i == old(self).i,
            },
    {
        proof {
            reveal(val8);
        }
        match self.advance(8) {
            Some(at) => Some(
                read4(self.b, at) as u64 + read4(self.b, at + 4) as u64 * 4294967296,
            ),
            None => None,
        }
    }

    pub fn i32(&mut self) -> (r: Option<i32>)
        requires
            old(self).wf(),
        ensures
            final(self).wf(),
            final(self).b@ == old(self).b@,
            match r {
                Some(v) => old(self).has(4) && v == ival4(old(self).b@, old(self).i as int)
                    && final(self).i == old(self).i + 4,
                None => !old(self).has(4) && final(self).i == old(self).i,
            },
    {
        match self.u32() {
            Some(v) => Some(to_signed(v)),
            None => None,
        }
    }

    /// Reads a number held by its bits.
    pub fn float_bits(&mut self) -> (r: Option<u32>)
        requires
            old(self).wf(),
        ensures
            final(self).wf(),
            final(self).b@ == old(self).b@,
            match r {
                Some(v) => old(self).has(4) && v == val4(old(self).b@, old(self).i as int)
                    && final(self).i == old(self).i + 4,
                None => !old(self).has(4) && final(self).i == old(self).i,
            },
    {
        self.u32()
    }

    pub fn bytes(&mut self, n: usize) -> (r: Option<Vec<u8>>)
        requires
            old(self).wf(),
        ensures
            final(self).wf(),
            final(self).b@ == old(self).b@,
            match r {
                Some(v) => old(self).has(n as int) && v@ == old(self).b@.subrange(
                    old(self).i as int,
                    old(self).i + n,
                ) && final(self).i == old(self).i + n,
                None => !old(self).has(n as int) && final(self).i == old(self).i,
            },
    {
        match self.advance(n) {
            Some(at) => Some(copy_bytes(self.b, at, n)),
            None => None,
        }
    }
}

/// The number in the two bytes from `i` on.
pub fn read2(b: &[u8], i: usize) -> (v: u16)
    requires
        i + 2 <= b@.len(),
    ensures
        v == val2(b@, i as int),
{
    proof {
        reveal(val2);
    }
    b[i] as u16 + b[i + 1] as u16 * 256
}

/// The number in the four bytes from `i` on.
pub fn read4(b: &[u8], i: usize) -> (v: u32)
    requires
        i + 4 <= b@.len(),
    ensures
        v == val4(b@, i as int),
{
    proof {
        reveal(val4);
    }
    b[i] as u32 + b[i + 1] as u32 * 256 + b[i + 2] as u32 * 65536 + b[i + 3] as u32 * 16777216
}

/// The number in the eight bytes from `i` on.
pub fn read8(b: &[u8], i: usize) -> (v: u64)
    requires
        i + 8 <= b@.len(),
    ensures
        v == val8(b@, i as int),
{
    proof {
        reveal(val8);
    }
    let end: usize = b.len();
    assert(i + 8 <= end);
    read4(b, i) as u64 + read4(b, i + 4) as u64 * 4294967296
}

/// Splits a frame into its type and its payload.
pub fn frame_header<'a>(frame: &'a [u8]) -> (r: Option<(u8, &'a [u8])>)
    ensures
        match r {
            Some((ty, payload)) => unframed(frame@) == Some((ty, payload@)),
            None => unframed(frame@) is None,
        },
{
    if frame.len() < 5 {
        return None;
    }
    let n: usize = read4(frame, 1) as usize;
    if frame.len() - 5 < n {
        return None;
    }
    Some((frame[0], vstd::slice::slice_subrange(frame, 5, 5 + n)))
}

/// The payload length and the whole length of the frame at `off`, where all of
/// it is there.
pub fn frame_len(buf: &[u8], off: usize) -> (r: Option<(usize, usize)>)
    ensures
        match r {
            Some((len, total)) => {
                &&& off + 5 <= buf@.len()
                &&& len == val4(buf@, off + 1)
                &&& total == 5 + len
                &&& off + total <= buf@.len()
            },
            None => off + 5 > buf@.len() || off + 5 + val4(buf@, off + 1) > buf@.len(),
        },
{
    if off > buf.len() || buf.len() - off < 5 {
        return None;
    }
    let n: usize = read4(buf, off + 1) as usize;
    if buf.len() - off - 5 < n {
        return None;
    }
    Some((n, 5 + n))
}

/// What is framed is found again by its frame alone, whatever follows it.
pub proof fn frames_read_back(ty: u8, payload: Seq<u8>, rest: Seq<u8>)
    requires
        payload.len() < 4294967296,
    ensures
        unframed(framed(ty, payload) + rest) == Some((ty, payload)),
        framed(ty, payload).len() == 5 + payload.len(),
        val4(framed(ty, payload) + rest, 1) == payload.len(),
{
    broadcast use group_number_lengths;

    let f = framed(ty, payload) + rest;
    assert(f.subrange(1, 5) =~= le4(payload.len() as u32));
    number4_reads_back(f, 1, payload.len() as u32);
    assert(f.subrange(5, 5 + payload.len() as int) =~= payload);
}

/// Three coordinates are read back wherever their bytes stand.
pub proof fn triple_reads_back(s: Seq<u8>, i: int, x: i32, y: i32, z: i32)
    requires
        0 <= i,
        i + 12 <= s.len(),
        s.subrange(i, i + 12) == triple_bytes(x, y, z),
    ensures
        ival4(s, i) == x,
        ival4(s, i + 4) == y,
        ival4(s, i + 8) == z,
{
    broadcast use group_number_lengths;

    let t = s.subrange(i, i + 12);
    assert(s.subrange(i, i + 4) =~= t.subrange(0, 4));
    assert(t.subrange(0, 4) =~= le4(unsigned(x)));
    number4_reads_back(s, i + 0, unsigned(x));
    signed_numbers_survive(x);
    assert(s.subrange(i + 4, i + 8) =~= t.subrange(4, 8));
    assert(t.subrange(4, 8) =~= le4(unsigned(y)));
    number4_reads_back(s, i + 4, unsigned(y));
    signed_numbers_survive(y);
    assert(s.subrange(i + 8, i + 12) =~= t.subrange(8, 12));
    assert(t.subrange(8, 12) =~= le4(unsigned(z)));
    number4_reads_back(s, i + 8, unsigned(z));
    signed_numbers_survive(z);
}

/// A text is read back wherever its bytes stand.
pub proof fn text_reads_back_at(s: Seq<u8>, j: int, text: Seq<char>)
    requires
        0 <= j,
        utf8::encode_utf8(text).len() < 65536,
        j + 2 + utf8::encode_utf8(text).len() <= s.len(),
        s.subrange(j, j + 2 + utf8::encode_utf8(text).len() as int) == text_bytes(text),
    ensures
        val2(s, j) == utf8::encode_utf8(text).len(),
        utf8::valid_utf8(s.subrange(j + 2, j + 2 + val2(s, j))),
        utf8::decode_utf8(s.subrange(j + 2, j + 2 + val2(s, j))) == text,
{
    broadcast use group_number_lengths;

    text_reads_back(text);
    let n = utf8::encode_utf8(text).len() as u16;
    let t = s.subrange(j, j + 2 + n);
    assert(s.subrange(j, j + 2) =~= t.subrange(0, 2));
    assert(t.subrange(0, 2) =~= le2(n));
    number2_reads_back(s, j, n);
    assert(s.subrange(j + 2, j + 2 + n) =~= t.subrange(2, 2 + n));
    assert(t.subrange(2, 2 + n) =~= utf8::encode_utf8(text));
}

/// Numbers are written lowest byte first, in two, four or eight bytes.
pub proof fn lowest_bytes_come_first(u: u16, v: u32, w: u64)
    ensures
        le2(u).len() == 2,
        le2(u)[0] + 256 * le2(u)[1] == u,
        le4(v).len() == 4,
        le4(v)[0] + 256 * le4(v)[1] + 65536 * le4(v)[2] + 16777216 * le4(v)[3] == v,
        le8(w).len() == 8,
        le8(w)[0] == w % 256,
        le8(w).subrange(0, 4) == le4((w % 4294967296) as u32),
        le8(w).subrange(4, 8) == le4((w / 4294967296) as u32),
{
    reveal(le2);
    reveal(le4);
    reveal(le8);
    let a = v as int / 256;
    let b = a / 256;
    let c = b / 256;
    assert(v == 256 * a + v as int % 256);
    assert(a == 256 * b + a % 256);
    assert(b == 256 * c + b % 256);
    assert(v as int / 65536 == b);
    assert(v as int / 16777216 == c);
    assert(le8(w).subrange(0, 4) =~= le4((w % 4294967296) as u32));
    assert(le8(w).subrange(4, 8) =~= le4((w / 4294967296) as u32));
    assert(le8(w)[0] == le8(w).subrange(0, 4)[0]);
    assert((w % 4294967296) % 256 == w % 256);
}

/// A negative number has the bits of itself and two to the power of 32.
pub proof fn negative_numbers_wrap(v: i32)
    ensures
        v >= 0 ==> unsigned(v) == v,
        v < 0 ==> unsigned(v) == v + 4294967296,
{
}

/// A frame is its type, the length of its payload in four bytes, and the payload.
pub proof fn frames_are_type_length_payload(ty: u8, payload: Seq<u8>)
    requires
        payload.len() < 4294967296,
    ensures
        framed(ty, payload).len() == 5 + payload.len(),
        framed(ty, payload)[0] == ty,
        framed(ty, payload).subrange(1, 5) == le4(payload.len() as u32),
        framed(ty, payload).skip(5) == payload,
{
    broadcast use group_number_lengths;

    assert(framed(ty, payload).subrange(1, 5) =~= le4(payload.len() as u32));
    assert(framed(ty, payload).skip(5) =~= payload);
}

} // verus!
