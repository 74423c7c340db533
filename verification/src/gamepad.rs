use vstd::prelude::*;

verus! {

/// Number of bytes of a gamepad state on the wire and in a bus report.
pub const GAMEPAD_LEN: usize = 12;

/// The state of an XInput gamepad: buttons, triggers and thumb sticks.
/// On the wire and in reports it takes twelve bytes, each field
/// little-endian, in declaration order.
#[derive(Debug, Copy, Clone, PartialEq, Eq, Structural)]
pub struct XinputGamepad {
    pub w_buttons: u16,
    pub b_left_trigger: u8,
    pub b_right_trigger: u8,
    pub s_thumb_lx: i16,
    pub s_thumb_ly: i16,
    pub s_thumb_rx: i16,
    pub s_thumb_ry: i16,
}

/// The unsigned 16-bit value of two little-endian bytes.
pub open spec fn le_u16(lo: u8, hi: u8) -> int {
    lo + 256 * hi
}

/// The two's-complement 16-bit value of two little-endian bytes.
pub open spec fn le_i16(lo: u8, hi: u8) -> int {
    if hi < 128 {
        le_u16(lo, hi)
    } else {
        le_u16(lo, hi) - 0x1_0000
    }
}

/// The unsigned 32-bit value of four little-endian bytes.
pub open spec fn le_u32(b0: u8, b1: u8, b2: u8, b3: u8) -> int {
    b0 + 0x100 * b1 + 0x1_0000 * b2 + 0x100_0000 * b3
}

/// Byte `k` (0 to 3) of the little-endian encoding of `n` modulo 2^32.
pub open spec fn le_byte(n: int, k: int) -> u8 {
    if k == 0 {
        (n % 0x100) as u8
    } else if k == 1 {
        ((n / 0x100) % 0x100) as u8
    } else if k == 2 {
        ((n / 0x1_0000) % 0x100) as u8
    } else {
        ((n / 0x100_0000) % 0x100) as u8
    }
}

/// The 16-bit two's-complement pattern of a signed value, as an unsigned number.
pub open spec fn i16_bits(v: i16) -> int {
    if v < 0 {
        v + 0x1_0000
    } else {
        v as int
    }
}

/// The gamepad that the twelve bytes `b[0..12]` encode.
pub open spec fn spec_decode(b: Seq<u8>) -> XinputGamepad {
    XinputGamepad {
        w_buttons: le_u16(b[0], b[1]) as u16,
        b_left_trigger: b[2],
        b_right_trigger: b[3],
        s_thumb_lx: le_i16(b[4], b[5]) as i16,
        s_thumb_ly: le_i16(b[6], b[7]) as i16,
        s_thumb_rx: le_i16(b[8], b[9]) as i16,
        s_thumb_ry: le_i16(b[10], b[11]) as i16,
    }
}

/// The twelve bytes that encode a gamepad.
pub open spec fn spec_encode(g: XinputGamepad) -> Seq<u8> {
    seq![
        le_byte(g.w_buttons as int, 0),
        le_byte(g.w_buttons as int, 1),
        g.b_left_trigger,
        g.b_right_trigger,
        le_byte(i16_bits(g.s_thumb_lx), 0),
        le_byte(i16_bits(g.s_thumb_lx), 1),
        le_byte(i16_bits(g.s_thumb_ly), 0),
        le_byte(i16_bits(g.s_thumb_ly), 1),
        le_byte(i16_bits(g.s_thumb_rx), 0),
        le_byte(i16_bits(g.s_thumb_rx), 1),
        le_byte(i16_bits(g.s_thumb_ry), 0),
        le_byte(i16_bits(g.s_thumb_ry), 1),
    ]
}

fn read_u16(lo: u8, hi: u8) -> (v: u16)
    ensures
        v == le_u16(lo, hi),
{
    lo as u16 + 256 * (hi as u16)
}

fn read_i16(lo: u8, hi: u8) -> (v: i16)
    ensures
        v == le_i16(lo, hi),
{
    let u = read_u16(lo, hi);
    if u < 0x8000 {
        u as i16
    } else {
        (u as i32 - 0x1_0000) as i16
    }
}

fn i16_low(v: i16) -> (b: u8)
    ensures
        b == le_byte(i16_bits(v), 0),
{
    let u: i32 = if v < 0 { v as i32 + 0x1_0000 } else { v as i32 };
    (u % 0x100) as u8
}

fn i16_high(v: i16) -> (b: u8)
    ensures
        b == le_byte(i16_bits(v), 1),
{
    let u: i32 = if v < 0 { v as i32 + 0x1_0000 } else { v as i32 };
    ((u / 0x100) % 0x100) as u8
}

impl XinputGamepad {
    /// A gamepad at rest: no button held, triggers released, sticks centred.
    pub fn zeroed() -> (g: XinputGamepad)
        ensures
            g == spec_decode(seq![0u8, 0, 0, 0, 0, 0, 0, 0, 0, 0, 0, 0]),
            g.w_buttons == 0 && g.b_left_trigger == 0 && g.b_right_trigger == 0,
            g.s_thumb_lx == 0 && g.s_thumb_ly == 0 && g.s_thumb_rx == 0 && g.s_thumb_ry == 0,
    {
        XinputGamepad {
            w_buttons: 0,
            b_left_trigger: 0,
            b_right_trigger: 0,
            s_thumb_lx: 0,
            s_thumb_ly: 0,
            s_thumb_rx: 0,
            s_thumb_ry: 0,
        }
    }

    /// Reads the gamepad encoded in `bytes[start..start + 12]`.
    pub fn decode(bytes: &[u8], start: usize) -> (g: XinputGamepad)
        requires
            start + GAMEPAD_LEN <= bytes@.len(),
        ensures
            g == spec_decode(bytes@.subrange(start as int, start + GAMEPAD_LEN)),
    {
        XinputGamepad {
            w_buttons: read_u16(bytes[start], bytes[start + 1]),
            b_left_trigger: bytes[start + 2],
            b_right_trigger: bytes[start + 3],
            s_thumb_lx: read_i16(bytes[start + 4], bytes[start + 5]),
            s_thumb_ly: read_i16(bytes[start + 6], bytes[start + 7]),
            s_thumb_rx: read_i16(bytes[start + 8], bytes[start + 9]),
            s_thumb_ry: read_i16(bytes[start + 10], bytes[start + 11]),
        }
    }

    /// The twelve bytes that encode this gamepad.
    pub fn encode(&self) -> (b: [u8; 12])
        ensures
            b@ == spec_encode(*self),
    {
        let mut b = [0u8; 12];
        b[0] = (self.w_buttons % 0x100) as u8;
        b[1] = (self.w_buttons / 0x100) as u8;
        b[2] = self.b_left_trigger;
        b[3] = self.b_right_trigger;
        b[4] = i16_low(self.s_thumb_lx);
        b[5] = i16_high(self.s_thumb_lx);
        b[6] = i16_low(self.s_thumb_ly);
        b[7] = i16_high(self.s_thumb_ly);
        b[8] = i16_low(self.s_thumb_rx);
        b[9] = i16_high(self.s_thumb_rx);
        b[10] = i16_low(self.s_thumb_ry);
        b[11] = i16_high(self.s_thumb_ry);
        assert(b@ =~= spec_encode(*self));
        b
    }
}

/// Decoding what was encoded gives the gamepad back.
pub proof fn lemma_decode_encode(g: XinputGamepad)
    ensures
        spec_decode(spec_encode(g)) == g,
{
}

proof fn lemma_u16_bytes(lo: u8, hi: u8)
    ensures
        le_byte(le_u16(lo, hi) as u16 as int, 0) == lo,
        le_byte(le_u16(lo, hi) as u16 as int, 1) == hi,
{
}

proof fn lemma_i16_bytes(lo: u8, hi: u8)
    ensures
        le_byte(i16_bits(le_i16(lo, hi) as i16), 0) == lo,
        le_byte(i16_bits(le_i16(lo, hi) as i16), 1) == hi,
{
}

/// Encoding what was decoded gives the twelve bytes back.
pub proof fn lemma_encode_decode(b: Seq<u8>)
    requires
        b.len() == GAMEPAD_LEN,
    ensures
        spec_encode(spec_decode(b)) == b,
{
    lemma_u16_bytes(b[0], b[1]);
    lemma_i16_bytes(b[4], b[5]);
    lemma_i16_bytes(b[6], b[7]);
    lemma_i16_bytes(b[8], b[9]);
    lemma_i16_bytes(b[10], b[11]);
    assert(spec_encode(spec_decode(b)) =~= b);
}

/// The four little-endian bytes of `n` read back `n` modulo 2^32.
pub proof fn lemma_le_bytes_read_back(n: u64)
    ensures
        le_u32(le_byte(n as int, 0), le_byte(n as int, 1), le_byte(n as int, 2), le_byte(n as int, 3))
            == n as int % 0x1_0000_0000,
{
    assert((n % 256) + 256 * ((n / 256) % 256) + 65536 * ((n / 65536) % 256) + 16777216 * ((n / 16777216)
        % 256) == n % 4294967296) by (bit_vector);
}

/// Each field of a decoded gamepad is the little-endian number its bytes
/// spell: buttons from bytes 0 and 1, the triggers from bytes 2 and 3, and
/// each stick axis, two's-complement, from the next pairs of bytes.
pub proof fn lemma_decode_fields(b: Seq<u8>)
    requires
        b.len() >= GAMEPAD_LEN,
    ensures
        spec_decode(b).w_buttons == b[0] + 256 * b[1],
        spec_decode(b).b_left_trigger == b[2],
        spec_decode(b).b_right_trigger == b[3],
        spec_decode(b).s_thumb_lx == b[4] + 256 * b[5] - (if b[5] >= 128 { 0x1_0000int } else { 0 }),
        spec_decode(b).s_thumb_ly == b[6] + 256 * b[7] - (if b[7] >= 128 { 0x1_0000int } else { 0 }),
        spec_decode(b).s_thumb_rx == b[8] + 256 * b[9] - (if b[9] >= 128 { 0x1_0000int } else { 0 }),
        spec_decode(b).s_thumb_ry == b[10] + 256 * b[11] - (if b[11] >= 128 { 0x1_0000int } else { 0 }),
{
}

} // verus!
