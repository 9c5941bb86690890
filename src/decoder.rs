//! Decoding of mu-law bytes into linear PCM samples, and the peak amplitude of a frame.
use vstd::prelude::*;
use vstd::arithmetic::power2::{pow2, lemma2_to64};
use vstd::bits::lemma_u32_shl_is_mul;

verus! {

/// The byte after the bitwise inversion that mu-law applies on the wire.
pub open spec fn inverted(byte: u8) -> int {
    255 - byte
}

/// Bits 4 to 6 of the inverted byte.
pub open spec fn exponent_of(byte: u8) -> nat {
    ((inverted(byte) / 16) % 8) as nat
}

/// Bits 0 to 3 of the inverted byte.
pub open spec fn mantissa_of(byte: u8) -> int {
    inverted(byte) % 16
}

/// The top bit of the inverted byte marks a negative sample.
pub open spec fn is_negative(byte: u8) -> bool {
    inverted(byte) >= 128
}

/// Magnitude of a decoded sample: `((mantissa << 1) | 0x21) << (exponent + 2)`, less the bias 0x21.
pub open spec fn mulaw_magnitude(byte: u8) -> int {
    (2 * mantissa_of(byte) + 33) * pow2(exponent_of(byte) + 2) - 33
}

/// The linear PCM value that a mu-law byte stands for.
pub open spec fn mulaw_decode(byte: u8) -> int {
    if is_negative(byte) {
        -mulaw_magnitude(byte)
    } else {
        mulaw_magnitude(byte)
    }
}

pub open spec fn abs(x: int) -> int {
    if x < 0 {
        -x
    } else {
        x
    }
}

/// Largest absolute decoded value over the bytes of a frame; 0 for an empty frame.
pub open spec fn peak_amplitude(frame: Seq<u8>) -> int
    decreases frame.len(),
{
    if frame.len() == 0 {
        0
    } else {
        let rest = peak_amplitude(frame.drop_last());
        let here = abs(mulaw_decode(frame.last()));
        if here > rest {
            here
        } else {
            rest
        }
    }
}

/// Every decoded magnitude lies between 99 and 32223, so it fits an `i16` with either sign.
pub proof fn lemma_magnitude_bounds(byte: u8)
    ensures
        99 <= mulaw_magnitude(byte) <= 32223,
{
    lemma2_to64();
    let e = exponent_of(byte);
    let m = mantissa_of(byte);
    assert(0 <= m < 16);
    assert(e < 8);
    let p = pow2(e + 2);
    assert(4 <= p <= 512) by {
        if e == 0 {} else if e == 1 {} else if e == 2 {} else if e == 3 {}
        else if e == 4 {} else if e == 5 {} else if e == 6 {} else {}
    }
    assert(132 <= (2 * m + 33) * p <= 32256) by (nonlinear_arith)
        requires
            0 <= m < 16,
            4 <= p <= 512,
    ;
}

/// The peak amplitude of any frame lies within what an `i16` holds.
pub proof fn lemma_peak_bounds(frame: Seq<u8>)
    ensures
        0 <= peak_amplitude(frame) <= 32223,
    decreases frame.len(),
{
    if frame.len() > 0 {
        lemma_magnitude_bounds(frame.last());
        lemma_peak_bounds(frame.drop_last());
    }
}

/// Decodes one mu-law byte into its linear PCM value.
///
/// The magnitude is computed in a 32-bit intermediate, so no combination of
/// exponent and mantissa can overflow.
pub fn mulaw_to_pcm(mulaw: u8) -> (sample: i16)
    ensures
        sample == mulaw_decode(mulaw),
{
    let inv: u8 = !mulaw;
    let exponent: u8 = (inv >> 4) & 0x07;
    let mantissa: u8 = inv & 0x0F;
    let base: u32 = ((mantissa as u32) << 1) | 0x21;
    proof {
        assert(inv == 255 - mulaw) by (bit_vector)
            requires
                inv == !mulaw,
        ;
        assert(exponent == (inv / 16) % 8) by (bit_vector)
            requires
                exponent == (inv >> 4) & 0x07,
        ;
        assert(mantissa == inv % 16) by (bit_vector)
            requires
                mantissa == inv & 0x0F,
        ;
        assert(base == 2 * mantissa + 33) by (bit_vector)
            requires
                mantissa < 16,
                base == ((mantissa as u32) << 1) | 0x21,
        ;
        lemma2_to64();
        let p = pow2((exponent + 2) as nat);
        assert(4 <= p <= 512) by {
            if exponent == 0 {} else if exponent == 1 {} else if exponent == 2 {}
            else if exponent == 3 {} else if exponent == 4 {} else if exponent == 5 {}
            else if exponent == 6 {} else {}
        }
        assert(base * p <= 32256) by (nonlinear_arith)
            requires
                base <= 63,
                p <= 512,
        ;
        lemma_u32_shl_is_mul(base, (exponent + 2) as u32);
        lemma_magnitude_bounds(mulaw);
    }
    let magnitude: u32 = (base << ((exponent + 2) as u32)) - 0x21;
    let unsigned: i16 = magnitude as i16;
    if inv & 0x80 != 0 {
        proof {
            assert(inv & 0x80 != 0 <==> inv >= 128) by (bit_vector);
        }
        -unsigned
    } else {
        proof {
            assert(inv & 0x80 != 0 <==> inv >= 128) by (bit_vector);
        }
        unsigned
    }
}

/// Peak amplitude of a frame: the largest absolute decoded sample, 0 when the frame is empty.
pub fn calculate_amplitude(chunk: &[u8]) -> (peak: i16)
    ensures
        peak == peak_amplitude(chunk@),
{
    let mut peak: i16 = 0;
    let mut i: usize = 0;
    while i < chunk.len()
        invariant
            i <= chunk@.len(),
            peak == peak_amplitude(chunk@.subrange(0, i as int)),
        decreases chunk@.len() - i,
    {
        let sample: i16 = mulaw_to_pcm(chunk[i]);
        proof {
            lemma_magnitude_bounds(chunk@[i as int]);
            assert(chunk@.subrange(0, i + 1).drop_last() =~= chunk@.subrange(0, i as int));
        }
        let magnitude: i16 = if sample < 0 {
            -sample
        } else {
            sample
        };
        if magnitude > peak {
            peak = magnitude;
        }
        i = i + 1;
    }
    proof {
        assert(chunk@.subrange(0, chunk@.len() as int) =~= chunk@);
    }
    peak
}

} // verus!
