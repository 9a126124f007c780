use vstd::prelude::*;

verus! {

/// The Q15 factor that stands for a gain of one.
pub const GAIN_UNIT: i64 = 32768;

/// The signed value of the little-endian 16-bit word `lo, hi`.
pub open spec fn word_value(lo: u8, hi: u8) -> int {
    let u = lo as int + 256 * hi as int;
    if u >= 32768 { u - 65536 } else { u }
}

/// Division by `GAIN_UNIT`, truncated toward zero.
pub open spec fn unscale(acc: int) -> int {
    if acc >= 0 { acc / 32768 } else { -((-acc) / 32768) }
}

/// `v` limited to the range of a signed 16-bit sample.
pub open spec fn clamp_i16(v: int) -> int {
    if v > 32767 { 32767 } else if v < -32768 { -32768 } else { v }
}

/// The output sample for an accumulated Q15 sum.
pub open spec fn output_level(acc: int) -> int {
    clamp_i16(unscale(acc))
}

/// The samples of a little-endian signed 16-bit PCM byte stream; a trailing
/// odd byte is ignored.
pub open spec fn decoded(bytes: Seq<u8>) -> Seq<i16> {
    Seq::new(bytes.len() / 2, |i: int| word_value(bytes[2 * i], bytes[2 * i + 1]) as i16)
}

/// Reads the samples of little-endian signed 16-bit PCM data, every one of
/// them, in order.
pub fn decode_s16le(bytes: &[u8]) -> (r: Vec<i16>)
    ensures
        r@ == decoded(bytes@),
        forall|i: int| 0 <= i < r@.len() ==> r@[i] as int == word_value(bytes@[2 * i], bytes@[2 * i + 1]),
{
    let n: usize = bytes.len() / 2;
    let mut out: Vec<i16> = Vec::with_capacity(n);
    let mut i: usize = 0;
    while i < n
        invariant
            n == bytes@.len() / 2,
            2 * n <= bytes@.len(),
            bytes@.len() <= usize::MAX,
            i <= n,
            out@.len() == i,
            forall|k: int| 0 <= k < i ==> out@[k] as int == word_value(bytes@[2 * k], bytes@[2 * k + 1]),
        decreases n - i,
    {
        let lo = bytes[2 * i];
        let hi = bytes[2 * i + 1];
        let u: i32 = lo as i32 + 256 * hi as i32;
        let v: i32 = if u >= 32768 { u - 65536 } else { u };
        out.push(v as i16);
        i = i + 1;
    }
    assert(out@ =~= decoded(bytes@)) by {
        assert forall|k: int| 0 <= k < out@.len() implies out@[k] == decoded(bytes@)[k] by {
            let w = word_value(bytes@[2 * k], bytes@[2 * k + 1]);
            assert(-32768 <= w <= 32767);
            assert(out@[k] as int == w);
        }
    }
    out
}

/// Converts an accumulated Q15 sum to an output sample: divided by
/// `GAIN_UNIT`, truncated toward zero, and clamped to the 16-bit range so
/// that loud overlaps saturate instead of wrapping.
pub fn to_output(acc: i64) -> (r: i16)
    requires
        -0x4000_0000_0000_0000 <= acc <= 0x4000_0000_0000_0000,
    ensures
        r as int == output_level(acc as int),
{
    let q: i64 = if acc >= 0 { acc / GAIN_UNIT } else { -((-acc) / GAIN_UNIT) };
    if q > 32767 {
        32767
    } else if q < -32768 {
        -32768
    } else {
        q as i16
    }
}

/// Output samples never leave the 16-bit range, and a mix louder than full
/// scale saturates at the limit instead of wrapping around.
pub proof fn lemma_output_saturates(acc: int)
    ensures
        -32768 <= output_level(acc) <= 32767,
        acc >= 32767 * 32768 ==> output_level(acc) == 32767,
        acc <= -32768 * 32768 ==> output_level(acc) == -32768,
{
}

} // verus!
