//! Channel masks of 16-bit and 32-bit pixels.

use vstd::prelude::*;
use vstd::arithmetic::power2;
use crate::bmp::header::{BmpDibHeader, BI_BITFIELDS, FILE_HEADER_SIZE};
use crate::bmp::le;
use crate::bmp::le::read_u32_le;
use crate::error::IoError;

verus! {

/// Channel masks for 16-bit and 32-bit pixel extraction.
#[derive(Debug, Clone, Copy, PartialEq, Eq, Structural)]
pub struct BitfieldMasks {
    /// Red.
    pub r: u32,
    /// Green.
    pub g: u32,
    /// Blue.
    pub b: u32,
    /// Alpha; zero if pixels have no alpha channel.
    pub a: u32,
}

/// Position and width of the channel that a mask selects.
#[derive(Debug, Clone, Copy, PartialEq, Eq, Structural)]
pub struct MaskInfo {
    /// Position of the lowest bit.
    pub shift: u8,
    /// Number of bits; zero if there is no such channel.
    pub bits: u8,
}

impl BitfieldMasks {
    /// Default masks for uncompressed 16-bit pixels (5-5-5 layout).
    pub fn default_16bit() -> (masks: Self)
        ensures
            masks == default_masks(16),
    {
        BitfieldMasks { r: 0x7C00, g: 0x03E0, b: 0x001F, a: 0 }
    }

    /// Default masks for uncompressed 32-bit pixels (8-8-8-X layout).
    pub fn default_32bit() -> (masks: Self)
        ensures
            masks == default_masks(32),
    {
        BitfieldMasks { r: 0x00FF_0000, g: 0x0000_FF00, b: 0x0000_00FF, a: 0 }
    }
}

/// The channel masks of pixels of the given width that come without masks:
/// 5-5-5 for 16 bits, 8-8-8-X for 32 bits.
pub open spec fn default_masks(bit_count: u16) -> BitfieldMasks {
    if bit_count == 16 {
        BitfieldMasks { r: 0x7C00, g: 0x03E0, b: 0x001F, a: 0 }
    } else {
        BitfieldMasks { r: 0x00FF_0000, g: 0x0000_FF00, b: 0x0000_00FF, a: 0 }
    }
}

/// The number of zero bits below the lowest one bit of `n`.
pub open spec fn low_zeros(n: nat) -> nat
    decreases n,
{
    if n == 0 || n % 2 == 1 {
        0
    } else {
        1 + low_zeros(n / 2)
    }
}

/// The number of one bits below the lowest zero bit of `n`.
pub open spec fn low_ones(n: nat) -> nat
    decreases n,
{
    if n % 2 == 0 {
        0
    } else {
        1 + low_ones(n / 2)
    }
}

/// The channel that a mask selects: the lowest unbroken run of one bits.
pub open spec fn mask_layout(mask: u32) -> MaskInfo {
    let shift = low_zeros(mask as nat);
    MaskInfo {
        shift: shift as u8,
        bits: low_ones(mask as nat / power2::pow2(shift)) as u8,
    }
}

/// The bits of `value` that lie inside a channel, as a number.
pub open spec fn channel_raw(value: u32, info: MaskInfo) -> nat {
    value as nat / power2::pow2(info.shift as nat) % power2::pow2(info.bits as nat)
}

/// A channel value of the given width scaled to the full 8-bit range: wider
/// channels keep their upper eight bits, narrower ones are stretched so that
/// the largest value becomes 255, rounding to nearest.
pub open spec fn full_range(raw: nat, bits: nat) -> nat {
    if bits == 0 {
        0
    } else if bits >= 8 {
        raw / power2::pow2((bits - 8) as nat)
    } else {
        let max = (power2::pow2(bits) - 1) as nat;
        (raw * 255 + max / 2) / max
    }
}

/// The 8-bit value of a channel of a pixel.
pub open spec fn channel(value: u32, info: MaskInfo) -> u8 {
    full_range(channel_raw(value, info), info.bits as nat) as u8
}

proof fn lemma_low_zeros_bound(n: nat, k: nat)
    requires
        0 < n < power2::pow2(k),
    ensures
        low_zeros(n) < k,
    decreases k,
{
    power2::lemma2_to64();
    if k > 0 && n % 2 == 0 {
        power2::lemma_pow2_unfold(k);
        lemma_low_zeros_bound(n / 2, (k - 1) as nat);
    }
}

proof fn lemma_low_ones_bound(n: nat, k: nat)
    requires
        n < power2::pow2(k),
    ensures
        low_ones(n) <= k,
    decreases k,
{
    power2::lemma2_to64();
    if k > 0 && n % 2 == 1 {
        power2::lemma_pow2_unfold(k);
        lemma_low_ones_bound(n / 2, (k - 1) as nat);
    }
}

/// The channel that a mask selects lies inside a 32-bit pixel.
pub proof fn lemma_mask_layout_in_word(mask: u32)
    ensures
        mask_layout(mask).shift as nat == low_zeros(mask as nat),
        mask_layout(mask).shift < 32,
        mask_layout(mask).bits as nat == low_ones(
            mask as nat / power2::pow2(low_zeros(mask as nat)),
        ),
        mask_layout(mask).bits <= 32,
{
    power2::lemma2_to64();
    let z = low_zeros(mask as nat);
    if mask != 0 {
        lemma_low_zeros_bound(mask as nat, 32);
    }
    power2::lemma_pow2_pos(z);
    let rest = mask as nat / power2::pow2(z);
    vstd::arithmetic::div_mod::lemma_div_is_ordered_by_denominator(
        mask as int,
        1,
        power2::pow2(z) as int,
    );
    lemma_low_ones_bound(rest, 32);
}

/// Computes position and width of the channel that a mask selects.
pub fn mask_info(mask: u32) -> (info: MaskInfo)
    ensures
        info == mask_layout(mask),
{
    if mask == 0 {
        proof {
            power2::lemma2_to64();
        }
        return MaskInfo { shift: 0, bits: 0 };
    }
    proof {
        power2::lemma2_to64();
        lemma_mask_layout_in_word(mask);
    }
    let mut rest: u32 = mask;
    let mut shift: u8 = 0;
    while rest % 2 == 0
        invariant
            rest > 0,
            mask > 0,
            shift + low_zeros(rest as nat) == low_zeros(mask as nat),
            low_zeros(mask as nat) < 32,
            rest as nat == mask as nat / power2::pow2(shift as nat),
        decreases rest,
    {
        proof {
            power2::lemma_pow2_unfold((shift + 1) as nat);
            power2::lemma_pow2_pos(shift as nat);
            vstd::arithmetic::div_mod::lemma_div_denominator(
                mask as int,
                power2::pow2(shift as nat) as int,
                2,
            );
        }
        rest = rest / 2;
        shift = shift + 1;
    }
    let ghost run = rest;
    let mut bits: u8 = 0;
    while rest % 2 == 1
        invariant
            bits + low_ones(rest as nat) == low_ones(run as nat),
            low_ones(run as nat) <= 32,
        decreases rest,
    {
        rest = rest / 2;
        bits = bits + 1;
    }
    MaskInfo { shift, bits }
}

proof fn lemma_full_range_fits(raw: nat, bits: nat)
    requires
        raw < power2::pow2(bits),
        bits <= 32,
    ensures
        full_range(raw, bits) <= 255,
{
    power2::lemma2_to64();
    if bits >= 8 {
        let low = (bits - 8) as nat;
        power2::lemma_pow2_adds(8, low);
        power2::lemma_pow2_pos(low);
        let p = power2::pow2(low) as int;
        assert(raw as int / p < 256) by (nonlinear_arith)
            requires
                raw < 256 * p,
                0 < p,
                raw >= 0,
        ;
    } else if bits > 0 {
        let max = (power2::pow2(bits) - 1) as int;
        power2::lemma_pow2_unfold(bits);
        power2::lemma_pow2_pos((bits - 1) as nat);
        assert((raw * 255 + max / 2) / max <= 255) by (nonlinear_arith)
            requires
                0 <= raw <= max,
                0 < max,
        ;
    }
}

/// Extracts a channel of a pixel and scales it to the full 8-bit range.
pub fn extract_channel(value: u32, info: MaskInfo) -> (c: u8)
    requires
        info.bits == 0 || info.shift < 32 && info.bits <= 32,
    ensures
        c == channel(value, info),
{
    if info.bits == 0 {
        return 0;
    }
    proof {
        power2::lemma2_to64();
        vstd::bits::lemma_u32_shr_is_div(value, info.shift as u32);
        power2::lemma_pow2_pos(info.bits as nat);
        lemma_full_range_fits(channel_raw(value, info), info.bits as nat);
    }
    let shifted: u32 = value >> (info.shift as u32);
    let raw: u32 = if info.bits >= 32 {
        proof {
            vstd::arithmetic::div_mod::lemma_small_mod(shifted as nat, power2::pow2(32));
        }
        shifted
    } else {
        proof {
            vstd::bits::lemma_u32_pow2_no_overflow(info.bits as nat);
            vstd::bits::lemma_u32_shl_is_mul(1, info.bits as u32);
        }
        shifted % (1u32 << (info.bits as u32))
    };
    assert(raw as nat == channel_raw(value, info));
    if info.bits >= 8 {
        let drop: u32 = info.bits as u32 - 8;
        proof {
            vstd::bits::lemma_u32_shr_is_div(raw, drop);
        }
        (raw >> drop) as u8
    } else {
        proof {
            vstd::bits::lemma_u32_pow2_no_overflow(info.bits as nat);
            vstd::bits::lemma_u32_shl_is_mul(1, info.bits as u32);
            power2::lemma_pow2_strictly_increases(0, info.bits as nat);
            power2::lemma_pow2_strictly_increases(info.bits as nat, 8);
        }
        let max_val: u32 = (1u32 << (info.bits as u32)) - 1;
        ((raw * 255 + max_val / 2) / max_val) as u8
    }
}

/// The masks that follow a `BITMAPINFOHEADER`, at `at`, or the error that they
/// give. The alpha mask is read where the file is long enough to hold one.
pub open spec fn trailing_masks(data: Seq<u8>, at: int) -> Result<BitfieldMasks, IoError> {
    if data.len() < at + 12 {
        Err(IoError::InvalidFormat { reason: "BMP file too short for bitfield masks" })
    } else {
        Ok(
            BitfieldMasks {
                r: le::le32(data, at),
                g: le::le32(data, at + 4),
                b: le::le32(data, at + 8),
                a: if data.len() >= at + 16 {
                    le::le32(data, at + 12)
                } else {
                    0
                },
            },
        )
    }
}

/// Parses the masks that follow a `BITMAPINFOHEADER`.
pub fn parse_bitfield_masks(data: &[u8], offset: usize) -> (r: Result<BitfieldMasks, IoError>)
    ensures
        r == trailing_masks(data@, offset as int),
{
    if data.len() < 12 || offset > data.len() - 12 {
        return Err(IoError::InvalidFormat { reason: "BMP file too short for bitfield masks" });
    }
    let r: u32 = read_u32_le(data, offset).unwrap();
    let g: u32 = read_u32_le(data, offset + 4).unwrap();
    let b: u32 = read_u32_le(data, offset + 8).unwrap();
    let a: u32 = match read_u32_le(data, offset + 12) {
        Some(mask) => mask,
        None => 0,
    };
    Ok(BitfieldMasks { r, g, b, a })
}

/// The masks by which the pixels of a file are read, or the error that they
/// give: those of the header where it embeds some, those that follow the
/// header where it announces some, and the defaults otherwise.
pub open spec fn effective_masks(dib: BmpDibHeader, bit_count: u16, data: Seq<u8>) -> Result<
    BitfieldMasks,
    IoError,
> {
    if dib.compression == BI_BITFIELDS {
        match dib.v4_masks {
            Some(masks) => Ok(masks),
            None => trailing_masks(data, 14 + dib.header_size),
        }
    } else {
        Ok(default_masks(bit_count))
    }
}

/// Resolves the masks by which 16-bit or 32-bit pixels are read.
pub fn resolve_masks_with_data(dib: &BmpDibHeader, bit_count: u16, data: &[u8]) -> (r: Result<
    BitfieldMasks,
    IoError,
>)
    requires
        dib.compression == BI_BITFIELDS || bit_count == 16 || bit_count == 32,
    ensures
        r == effective_masks(*dib, bit_count, data@),
{
    if dib.compression == BI_BITFIELDS {
        if let Some(masks) = dib.v4_masks {
            return Ok(masks);
        }
        let limit: usize = data.len();
        let mask_offset: usize = FILE_HEADER_SIZE.saturating_add(dib.header_size as usize);
        return parse_bitfield_masks(data, mask_offset);
    }
    if bit_count == 16 {
        Ok(BitfieldMasks::default_16bit())
    } else {
        Ok(BitfieldMasks::default_32bit())
    }
}

proof fn lemma_low_zeros_of_shifted(n: nat, k: nat)
    requires
        n % 2 == 1,
    ensures
        low_zeros(n * power2::pow2(k)) == k,
    decreases k,
{
    power2::lemma2_to64();
    if k == 0 {
        assert(n * 1 == n);
    } else {
        power2::lemma_pow2_unfold(k);
        power2::lemma_pow2_pos((k - 1) as nat);
        let half = power2::pow2((k - 1) as nat);
        let whole = n * power2::pow2(k);
        assert(whole == 2 * (n * half)) by (nonlinear_arith)
            requires
                whole == n * power2::pow2(k),
                power2::pow2(k) == 2 * half,
        ;
        assert(n * half > 0) by (nonlinear_arith)
            requires
                n > 0,
                half > 0,
        ;
        lemma_low_zeros_of_shifted(n, (k - 1) as nat);
        assert(whole / 2 == n * half);
    }
}

/// A mask of eight unbroken bits selects the byte at its position, unchanged.
pub proof fn lemma_byte_mask(k: nat, mask: u32, value: u32)
    requires
        k <= 24,
        mask == 255 * power2::pow2(k),
    ensures
        channel(value, mask_layout(mask)) as nat == value as nat / power2::pow2(k) % 256,
{
    power2::lemma2_to64();
    lemma_low_zeros_of_shifted(255, k);
    power2::lemma_pow2_pos(k);
    let p = power2::pow2(k) as int;
    vstd::arithmetic::div_mod::lemma_div_by_multiple(255, p);
    assert(mask as nat / power2::pow2(k) == 255);
    assert(low_ones(255) == 8) by {
        reveal_with_fuel(low_ones, 9);
    }
    assert(mask_layout(mask) == (MaskInfo { shift: k as u8, bits: 8 }));
    let raw = channel_raw(value, mask_layout(mask));
    assert(raw == value as nat / power2::pow2(k) % 256);
    let none: nat = (8int - 8) as nat;
    assert(power2::pow2(none) == 1);
    assert(full_range(raw, 8) == raw / power2::pow2(none));
}

/// Scaling reaches both ends of the range: a channel of all zero bits becomes
/// 0, and a channel of all one bits becomes 255.
pub proof fn law_scaling_reaches_both_ends(bits: nat)
    requires
        1 <= bits <= 32,
    ensures
        full_range(0, bits) == 0,
        full_range((power2::pow2(bits) - 1) as nat, bits) == 255,
{
    power2::lemma2_to64();
    let max = (power2::pow2(bits) - 1) as int;
    if bits >= 8 {
        let low = (bits - 8) as nat;
        power2::lemma_pow2_adds(8, low);
        power2::lemma_pow2_pos(low);
        let p = power2::pow2(low) as int;
        assert((256 * p - 1) / p == 255) by (nonlinear_arith)
            requires
                0 < p,
        ;
        assert(0int / p == 0) by (nonlinear_arith)
            requires
                0 < p,
        ;
    } else {
        power2::lemma_pow2_unfold(bits);
        power2::lemma_pow2_pos((bits - 1) as nat);
        assert((max * 255 + max / 2) / max == 255) by (nonlinear_arith)
            requires
                0 < max,
        ;
        assert((0 * 255 + max / 2) / max == 0) by (nonlinear_arith)
            requires
                0 < max,
        ;
    }
}

/// Scaling keeps the order of channel values.
pub proof fn law_scaling_keeps_order(lower: nat, upper: nat, bits: nat)
    requires
        lower <= upper,
    ensures
        full_range(lower, bits) <= full_range(upper, bits),
{
    if bits >= 8 {
        power2::lemma_pow2_pos((bits - 8) as nat);
        vstd::arithmetic::div_mod::lemma_div_is_ordered(
            lower as int,
            upper as int,
            power2::pow2((bits - 8) as nat) as int,
        );
    } else if bits > 0 {
        power2::lemma2_to64();
        let max = power2::pow2(bits) - 1;
        power2::lemma_pow2_strictly_increases(0, bits);
        vstd::arithmetic::div_mod::lemma_div_is_ordered(
            lower * 255 + max / 2,
            upper * 255 + max / 2,
            max,
        );
    }
}

/// The lowest unbroken run of one bits of a mask starts at bit `shift` and is
/// `bits` long.
pub open spec fn is_lowest_run(mask: int, shift: nat, bits: nat) -> bool {
    let above = mask / (power2::pow2(shift) as int);
    &&& mask % (power2::pow2(shift) as int) == 0
    &&& above % (power2::pow2(bits) as int) == power2::pow2(bits) - 1
    &&& above / (power2::pow2(bits) as int) % 2 == 0
    &&& bits >= 1
}

/// `level` is the number `raw` of a channel of `bits` bits, on the scale from 0
/// to 255: the nearest level for up to eight bits, and the upper eight bits of
/// more.
pub open spec fn is_level(raw: int, bits: nat, level: int) -> bool {
    if bits <= 8 {
        let max = power2::pow2(bits) - 1;
        -max <= 2 * (255 * raw - max * level) <= max
    } else {
        let unit = power2::pow2((bits - 8) as nat) as int;
        level * unit <= raw < (level + 1) * unit
    }
}

/// `level` is what a mask selects of a word: the number that the bits of the
/// lowest run of the mask hold, on the scale from 0 to 255, and 0 if the mask is
/// zero.
pub open spec fn selects(mask: int, word: int, level: int) -> bool {
    &&& mask == 0 ==> level == 0
    &&& forall|shift: nat, bits: nat|
        #![trigger is_lowest_run(mask, shift, bits)]
        is_lowest_run(mask, shift, bits) ==> is_level(
            word / (power2::pow2(shift) as int) % (power2::pow2(bits) as int),
            bits,
            level,
        )
}

proof fn lemma_low_ones_of_run(n: nat, bits: nat)
    requires
        n % power2::pow2(bits) == power2::pow2(bits) - 1,
        n / power2::pow2(bits) % 2 == 0,
    ensures
        low_ones(n) == bits,
    decreases bits,
{
    power2::lemma2_to64();
    power2::lemma_pow2_pos(bits);
    if bits > 0 {
        power2::lemma_pow2_unfold(bits);
        let half = power2::pow2((bits - 1) as nat) as int;
        power2::lemma_pow2_pos((bits - 1) as nat);
        let (m, p) = (n as int, 2 * half);
        vstd::arithmetic::div_mod::lemma_fundamental_div_mod(m, p);
        let q = m / p;
        assert(p * q == 2 * (half * q)) by (nonlinear_arith)
            requires
                p == 2 * half,
        ;
        assert(m == 2 * (half * q + half - 1) + 1);
        assert(n / 2 == half * q + half - 1);
        vstd::arithmetic::div_mod::lemma_fundamental_div_mod_converse(
            (n / 2) as int,
            half,
            q,
            half - 1,
        );
        lemma_low_ones_of_run(n / 2, (bits - 1) as nat);
    } else {
        assert(n / 1 == n);
    }
}

proof fn lemma_lowest_run(mask: u32, shift: nat, bits: nat)
    requires
        is_lowest_run(mask as int, shift, bits),
    ensures
        mask_layout(mask).shift as nat == shift,
        mask_layout(mask).bits as nat == bits,
{
    power2::lemma_pow2_pos(shift);
    power2::lemma_pow2_pos(bits);
    let p = power2::pow2(shift) as int;
    let n = (mask as int / p) as nat;
    vstd::arithmetic::div_mod::lemma_fundamental_div_mod(mask as int, p);
    assert(p * (mask as int / p) == n * p) by (nonlinear_arith)
        requires
            n == mask as int / p,
    ;
    lemma_low_ones_of_run(n, bits);
    assert(n % 2 == 1);
    lemma_low_zeros_of_shifted(n, shift);
    lemma_mask_layout_in_word(mask);
}

proof fn lemma_low_ones_split(n: nat)
    ensures
        n % power2::pow2(low_ones(n)) == power2::pow2(low_ones(n)) - 1,
        n / power2::pow2(low_ones(n)) % 2 == 0,
    decreases n,
{
    power2::lemma2_to64();
    if n % 2 == 1 {
        lemma_low_ones_split(n / 2);
        let k = low_ones(n / 2);
        power2::lemma_pow2_unfold((k + 1) as nat);
        power2::lemma_pow2_pos(k);
        let half = power2::pow2(k) as int;
        let q = (n / 2) as int / half;
        vstd::arithmetic::div_mod::lemma_fundamental_div_mod((n / 2) as int, half);
        assert(2 * (half * q) == (2 * half) * q) by (nonlinear_arith);
        assert((2 * half) * q == q * (2 * half)) by (nonlinear_arith);
        vstd::arithmetic::div_mod::lemma_fundamental_div_mod_converse(
            n as int,
            2 * half,
            q,
            2 * half - 1,
        );
    } else {
        assert(n / 1 == n);
    }
}

proof fn lemma_low_zeros_split(n: nat)
    requires
        n > 0,
    ensures
        n % power2::pow2(low_zeros(n)) == 0,
        n / power2::pow2(low_zeros(n)) % 2 == 1,
    decreases n,
{
    power2::lemma2_to64();
    if n % 2 == 0 {
        lemma_low_zeros_split(n / 2);
        let k = low_zeros(n / 2);
        power2::lemma_pow2_unfold((k + 1) as nat);
        power2::lemma_pow2_pos(k);
        let half = power2::pow2(k) as int;
        let q = (n / 2) as int / half;
        vstd::arithmetic::div_mod::lemma_fundamental_div_mod((n / 2) as int, half);
        assert(2 * (half * q) == (2 * half) * q) by (nonlinear_arith);
        assert((2 * half) * q == q * (2 * half)) by (nonlinear_arith);
        vstd::arithmetic::div_mod::lemma_fundamental_div_mod_converse(n as int, 2 * half, q, 0);
    } else {
        assert(n / 1 == n);
    }
}

proof fn lemma_run_is_not_empty(n: nat)
    requires
        n % 2 == 1,
    ensures
        low_ones(n) >= 1,
{
}

/// Every mask but zero has a lowest run, and it is the one that is computed.
pub proof fn law_mask_has_lowest_run(mask: u32)
    requires
        mask != 0,
    ensures
        is_lowest_run(
            mask as int,
            mask_layout(mask).shift as nat,
            mask_layout(mask).bits as nat,
        ),
{
    lemma_mask_layout_in_word(mask);
    lemma_low_zeros_split(mask as nat);
    let z = low_zeros(mask as nat);
    power2::lemma_pow2_pos(z);
    let n = (mask as nat / power2::pow2(z)) as nat;
    lemma_low_ones_split(n);
    lemma_run_is_not_empty(n);
}

/// The channel that is read of a word under a mask is what the mask selects.
pub proof fn law_mask_selects_channel(mask: u32, word: u32)
    ensures
        selects(mask as int, word as int, channel(word, mask_layout(mask)) as int),
{
    power2::lemma2_to64();
    lemma_mask_layout_in_word(mask);
    let info = mask_layout(mask);
    let level = channel(word, info) as int;
    assert forall|shift: nat, bits: nat|
        #![trigger is_lowest_run(mask as int, shift, bits)]
        is_lowest_run(mask as int, shift, bits) implies is_level(
        word as int / (power2::pow2(shift) as int) % (power2::pow2(bits) as int),
        bits,
        level,
    ) by {
        lemma_lowest_run(mask, shift, bits);
        let raw = channel_raw(word, info);
        power2::lemma_pow2_pos(bits);
        assert(raw < power2::pow2(bits));
        lemma_full_range_fits(raw, bits);
        assert(level == full_range(raw, bits));
        if bits > 8 {
            let unit = power2::pow2((bits - 8) as nat) as int;
            power2::lemma_pow2_pos((bits - 8) as nat);
            vstd::arithmetic::div_mod::lemma_fundamental_div_mod(raw as int, unit);
            assert((level + 1) * unit == unit * level + unit && level * unit == unit * level)
                by (nonlinear_arith);
        } else if bits == 8 {
            assert(power2::pow2((bits - 8) as nat) == 1);
            assert(raw / 1 == raw);
        } else {
            let max = power2::pow2(bits) - 1;
            power2::lemma_pow2_unfold(bits);
            power2::lemma_pow2_pos((bits - 1) as nat);
            let top = raw * 255 + max / 2;
            vstd::arithmetic::div_mod::lemma_fundamental_div_mod(top as int, max);
        }
    }
    if mask == 0 {
        assert(low_zeros(0) == 0 && low_ones(0) == 0);
    }
}

} // verus!
