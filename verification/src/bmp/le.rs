//! Little-endian integers in byte strings.

use vstd::prelude::*;

verus! {

/// The little-endian `u16` at `at`.
pub open spec fn le16(s: Seq<u8>, at: int) -> u16 {
    (s[at] + 0x100 * s[at + 1]) as u16
}

/// The little-endian `u32` at `at`.
pub open spec fn le32(s: Seq<u8>, at: int) -> u32 {
    (s[at] + 0x100 * s[at + 1] + 0x1_0000 * s[at + 2] + 0x100_0000 * s[at + 3]) as u32
}

/// The signed value that a 32-bit word stands for in two's complement.
pub open spec fn signed32(word: u32) -> i32 {
    if word < 0x8000_0000 {
        word as i32
    } else {
        (word - 0x1_0000_0000) as i32
    }
}

/// The 32-bit word that stands for a signed value in two's complement.
pub open spec fn word32(value: i32) -> u32 {
    if value >= 0 {
        value as u32
    } else {
        (value + 0x1_0000_0000) as u32
    }
}

/// The little-endian `i32` at `at`.
pub open spec fn le32_signed(s: Seq<u8>, at: int) -> i32 {
    signed32(le32(s, at))
}

/// The two bytes of a little-endian `u16`.
pub open spec fn le16_bytes(v: u16) -> Seq<u8> {
    seq![(v % 0x100) as u8, (v / 0x100) as u8]
}

/// The four bytes of a little-endian `u32`.
pub open spec fn le32_bytes(v: u32) -> Seq<u8> {
    seq![
        (v % 0x100) as u8,
        (v / 0x100 % 0x100) as u8,
        (v / 0x1_0000 % 0x100) as u8,
        (v / 0x100_0000) as u8,
    ]
}

/// `s` with `bytes` written over it from `at` on.
pub open spec fn overwritten(s: Seq<u8>, at: int, bytes: Seq<u8>) -> Seq<u8> {
    Seq::new(
        s.len(),
        |i: int|
            if at <= i < at + bytes.len() {
                bytes[i - at]
            } else {
                s[i]
            },
    )
}

/// Reads a little-endian `u16`. `None` if it does not lie inside `data`.
pub fn read_u16_le(data: &[u8], offset: usize) -> (v: Option<u16>)
    ensures
        v == if offset + 2 <= data@.len() {
            Some(le16(data@, offset as int))
        } else {
            None
        },
{
    if data.len() < 2 || offset > data.len() - 2 {
        return None;
    }
    Some(data[offset] as u16 + 0x100 * data[offset + 1] as u16)
}

/// Reads a little-endian `u32`. `None` if it does not lie inside `data`.
pub fn read_u32_le(data: &[u8], offset: usize) -> (v: Option<u32>)
    ensures
        v == if offset + 4 <= data@.len() {
            Some(le32(data@, offset as int))
        } else {
            None
        },
{
    if data.len() < 4 || offset > data.len() - 4 {
        return None;
    }
    Some(
        data[offset] as u32 + 0x100 * data[offset + 1] as u32 + 0x1_0000 * data[offset + 2] as u32
            + 0x100_0000 * data[offset + 3] as u32,
    )
}

/// Reads a little-endian `i32`. `None` if it does not lie inside `data`.
pub fn read_i32_le(data: &[u8], offset: usize) -> (v: Option<i32>)
    ensures
        v == if offset + 4 <= data@.len() {
            Some(le32_signed(data@, offset as int))
        } else {
            None
        },
{
    match read_u32_le(data, offset) {
        Some(word) => {
            if word < 0x8000_0000 {
                Some(word as i32)
            } else {
                Some(-((0xFFFF_FFFF - word) as i32) - 1)
            }
        },
        None => None,
    }
}

/// Writes a little-endian `u16` into `buf` at `offset`.
pub fn write_u16_le(buf: &mut [u8], offset: usize, val: u16)
    requires
        offset + 2 <= old(buf)@.len(),
    ensures
        final(buf)@ == overwritten(old(buf)@, offset as int, le16_bytes(val)),
{
    buf[offset] = (val % 0x100) as u8;
    buf[offset + 1] = (val / 0x100) as u8;
    assert(buf@ =~= overwritten(old(buf)@, offset as int, le16_bytes(val)));
}

/// Writes a little-endian `u32` into `buf` at `offset`.
pub fn write_u32_le(buf: &mut [u8], offset: usize, val: u32)
    requires
        offset + 4 <= old(buf)@.len(),
    ensures
        final(buf)@ == overwritten(old(buf)@, offset as int, le32_bytes(val)),
{
    buf[offset] = (val % 0x100) as u8;
    buf[offset + 1] = (val / 0x100 % 0x100) as u8;
    buf[offset + 2] = (val / 0x1_0000 % 0x100) as u8;
    buf[offset + 3] = (val / 0x100_0000) as u8;
    assert(buf@ =~= overwritten(old(buf)@, offset as int, le32_bytes(val)));
}

/// Writes a little-endian `i32` into `buf` at `offset`.
pub fn write_i32_le(buf: &mut [u8], offset: usize, val: i32)
    requires
        offset + 4 <= old(buf)@.len(),
    ensures
        final(buf)@ == overwritten(old(buf)@, offset as int, le32_bytes(word32(val))),
{
    let word: u32 = if val >= 0 {
        val as u32
    } else {
        0xFFFF_FFFF - (-(val + 1)) as u32
    };
    write_u32_le(buf, offset, word);
}

/// A `u16` written anywhere inside a buffer is read back.
pub proof fn law_u16_write_then_read(s: Seq<u8>, at: int, v: u16)
    requires
        0 <= at,
        at + 2 <= s.len(),
    ensures
        le16(overwritten(s, at, le16_bytes(v)), at) == v,
{
}

/// A `u32` written anywhere inside a buffer is read back.
pub proof fn law_u32_write_then_read(s: Seq<u8>, at: int, v: u32)
    requires
        0 <= at,
        at + 4 <= s.len(),
    ensures
        le32(overwritten(s, at, le32_bytes(v)), at) == v,
{
}

/// An `i32` written anywhere inside a buffer is read back.
pub proof fn law_i32_write_then_read(s: Seq<u8>, at: int, v: i32)
    requires
        0 <= at,
        at + 4 <= s.len(),
    ensures
        le32_signed(overwritten(s, at, le32_bytes(word32(v))), at) == v,
{
    law_u32_write_then_read(s, at, word32(v));
}

/// The bytes of a word that was put together from four bytes are those bytes.
pub proof fn lemma_le32_digits(b0: u8, b1: u8, b2: u8, b3: u8)
    ensures
        ({
            let v: int = b0 + 0x100 * b1 + 0x1_0000 * b2 + 0x100_0000 * b3;
            &&& v <= u32::MAX
            &&& v % 0x100 == b0
            &&& v / 0x100 % 0x100 == b1
            &&& v / 0x1_0000 % 0x100 == b2
            &&& v / 0x100_0000 == b3
        }),
{
    let v: int = b0 + 0x100 * b1 + 0x1_0000 * b2 + 0x100_0000 * b3;
    let v1: int = b1 + 0x100 * b2 + 0x1_0000 * b3;
    let v2: int = b2 + 0x100 * b3;
    assert(v == 0x100 * v1 + b0);
    assert(v / 0x100 == v1);
    assert(v1 == 0x100 * v2 + b1);
    assert(v == 0x1_0000 * v2 + (b0 + 0x100 * b1));
    assert(v / 0x1_0000 == v2);
}

/// Writing back a `u32` that was just read changes nothing.
pub proof fn law_u32_read_then_write(s: Seq<u8>, at: int)
    requires
        0 <= at,
        at + 4 <= s.len(),
    ensures
        overwritten(s, at, le32_bytes(le32(s, at))) == s,
{
    lemma_le32_digits(s[at], s[at + 1], s[at + 2], s[at + 3]);
    assert(le32_bytes(le32(s, at)) =~= seq![s[at], s[at + 1], s[at + 2], s[at + 3]]);
    assert(overwritten(s, at, le32_bytes(le32(s, at))) =~= s);
}

/// Writing back a `u16` that was just read changes nothing.
pub proof fn law_u16_read_then_write(s: Seq<u8>, at: int)
    requires
        0 <= at,
        at + 2 <= s.len(),
    ensures
        overwritten(s, at, le16_bytes(le16(s, at))) == s,
{
    assert(overwritten(s, at, le16_bytes(le16(s, at))) =~= s);
}

} // verus!
