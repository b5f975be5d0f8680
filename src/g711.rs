//! G.711 µ-law expansion from 8-bit codes to 16-bit linear PCM.
use vstd::arithmetic::power2::{lemma2_to64, pow2};
use vstd::bits::lemma_u16_shl_is_mul;
use vstd::prelude::*;

verus! {

/// Bias added to the quantization bits before shifting.
pub const BIAS: u8 = 0x84;

/// Mask of the four quantization bits.
pub const QUANT_MASK: u8 = 0xf;

/// Mask of the three segment bits.
pub const SEG_MASK: u8 = 0x70;

/// Position of the segment field.
pub const SEG_SHIFT: u8 = 4;

/// Sign bit of a code.
pub const SIGN_BIT: u8 = 0x80;

/// Magnitude encoded by a µ-law code: the code is stored inverted; its low
/// nibble is the quantization step and bits 4 to 6 the segment.
pub open spec fn ulaw_magnitude(code: u8) -> int {
    let c = 255 - code;
    let quant = c % 16;
    let segment = (c / 16) % 8;
    (quant * 8 + BIAS) * pow2(segment as nat) - BIAS
}

/// The linear sample that a µ-law code stands for: negative when the sign bit
/// of the inverted code is set.
pub open spec fn ulaw_linear(code: u8) -> int {
    if 255 - code >= 128 {
        -ulaw_magnitude(code)
    } else {
        ulaw_magnitude(code)
    }
}

/// The samples that a µ-law byte stream decodes to, one per byte.
pub open spec fn decoded(data: Seq<u8>) -> Seq<i16> {
    data.map_values(|b: u8| ulaw_linear(b) as i16)
}

/// Expands one µ-law code into a linear sample.
pub fn ulaw_to_linear(u_val: u8) -> (r: i16)
    ensures
        r as int == ulaw_linear(u_val),
{
    let c: u8 = !u_val;
    let quant: u8 = c & QUANT_MASK;
    let segment: u8 = (c & SEG_MASK) >> SEG_SHIFT;
    proof {
        assert(c == 255 - u_val && quant == c % 16 && segment == (c / 16) % 8
            && quant < 16 && segment < 8) by (bit_vector)
            requires
                c == !u_val,
                quant == c & 0xf,
                segment == (c & 0x70) >> 4,
        ;
        assert((c & 0x80 > 0) == (c >= 128)) by (bit_vector);
    }
    let biased: u16 = (quant as u16) * 8 + BIAS as u16;
    proof {
        lemma2_to64();
        assert(pow2(segment as nat) <= 128);
        assert(biased * pow2(segment as nat) <= 32256) by (nonlinear_arith)
            requires
                biased <= 252,
                pow2(segment as nat) <= 128,
        ;
        lemma_u16_shl_is_mul(biased, segment as u16);
    }
    let t: u16 = biased << (segment as u16);
    if c & SIGN_BIT > 0 {
        (BIAS as i16) - (t as i16)
    } else {
        (t as i16) - (BIAS as i16)
    }
}

/// Largest magnitude that a µ-law code expands to.
pub const MAX_DECODED: i16 = 32124;

/// Every code expands to a sample of magnitude at most 32124, well inside
/// the `i16` range: a decoded sample divided by 32767 lies in `[-1, 1]`.
pub proof fn lemma_ulaw_range(code: u8)
    ensures
        -MAX_DECODED <= ulaw_linear(code) <= MAX_DECODED,
        ulaw_linear(code) * ulaw_linear(code) <= 32767 * 32767,
{
    let c = 255 - code;
    let quant = c % 16;
    let segment = (c / 16) % 8;
    lemma2_to64();
    assert(1 <= pow2(segment as nat) <= 128);
    assert(0 <= (quant * 8 + BIAS) * pow2(segment as nat) - BIAS <= 32124) by (nonlinear_arith)
        requires
            0 <= quant < 16,
            1 <= pow2(segment as nat) <= 128,
    ;
    let v = ulaw_linear(code);
    assert(v * v <= 32767 * 32767) by (nonlinear_arith)
        requires
            -32124 <= v <= 32124,
    ;
}

/// Decodes a µ-law byte stream into linear samples, one per byte, in order.
/// Every byte is a valid code, so decoding never fails.
pub fn decode(data: Vec<u8>) -> (output_buffer: Vec<i16>)
    ensures
        output_buffer@ == decoded(data@),
        forall|i: int|
            0 <= i < data@.len() ==> #[trigger] output_buffer@[i] as int == ulaw_linear(
                data@[i],
            ),
{
    let mut output_buffer: Vec<i16> = Vec::new();
    let mut i: usize = 0;
    while i < data.len()
        invariant
            i <= data@.len(),
            output_buffer@.len() == i,
            forall|j: int|
                0 <= j < i ==> #[trigger] output_buffer@[j] as int == ulaw_linear(data@[j]),
        decreases data@.len() - i,
    {
        let decoded_val = ulaw_to_linear(data[i]);
        output_buffer.push(decoded_val);
        i = i + 1;
    }
    assert(output_buffer@ =~= decoded(data@));
    output_buffer
}

} // verus!
