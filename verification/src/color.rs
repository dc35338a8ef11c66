//! Color engine: blackbody whitepoint lookup and gamma ramp-table filling.
//!
//! A gamma table holds three contiguous planes of `ramp_size` 16-bit samples,
//! ordered R, G, B. Each sample is the linear ramp value `i / (ramp_size - 1)`
//! scaled by the channel's whitepoint, rounded to the nearest 16-bit level.

use vstd::prelude::*;
use vstd::arithmetic::div_mod::lemma_div_is_ordered;

use crate::scheduling::{round_div, lemma_round_div_bounds};

verus! {

/// The whitepoint that approximates a blackbody radiator at the given Kelvin
/// temperature, as `(r, g, b)` channels.
pub uninterp spec fn whitepoint_of(kelvin: int) -> (u8, u8, u8);

/// Relies on tempergb's `rgb_from_temperature`: the result is a pure function
/// of the Kelvin argument, defined and clamped for every input (inputs are
/// truncated into [1000, 40000]); the red channel saturates at 255 up to
/// 6600 K, the blue channel saturates at 255 from 6600 K on and is 0 up to
/// 1900 K.
#[verifier::external_body]
pub fn blackbody_whitepoint_kelvin(kelvin: i32) -> (rgb: (u8, u8, u8))
    ensures
        rgb == whitepoint_of(kelvin as int),
        kelvin <= 6600 ==> rgb.0 == 255,
        kelvin >= 6600 ==> rgb.2 == 255,
        kelvin <= 1900 ==> rgb.2 == 0,
{
    let color = tempergb::rgb_from_temperature(kelvin);
    (color.r(), color.g(), color.b())
}

/// The 16-bit sample at index `i` of a ramp of `ramp_size` entries for a
/// channel whose whitepoint is `c`: the nearest integer to
/// `(i / (ramp_size - 1)) * (c / 255) * 65535`; for a single-entry ramp the
/// ramp fraction is taken as 1.
pub open spec fn ramp_value(c: u8, i: int, ramp_size: int) -> int
    recommends
        ramp_size >= 1,
        0 <= i < ramp_size,
{
    if ramp_size == 1 {
        round_div(c * 65535, 255)
    } else {
        round_div(i * c * 65535, (ramp_size - 1) * 255)
    }
}

/// The full three-plane table: R samples, then G, then B.
pub open spec fn gamma_table(wp: (u8, u8, u8), ramp_size: int) -> Seq<u16> {
    Seq::new(
        (3 * ramp_size) as nat,
        |j: int|
            if j < ramp_size {
                ramp_value(wp.0, j, ramp_size) as u16
            } else if j < 2 * ramp_size {
                ramp_value(wp.1, j - ramp_size, ramp_size) as u16
            } else {
                ramp_value(wp.2, j - 2 * ramp_size, ramp_size) as u16
            },
    )
}

/// Every ramp sample is a valid 16-bit level, at most `257 * c`.
pub proof fn lemma_ramp_value_bounds(c: u8, i: int, ramp_size: int)
    requires
        ramp_size >= 1,
        0 <= i < ramp_size,
    ensures
        0 <= ramp_value(c, i, ramp_size) <= 257 * c <= 65535,
{
    if ramp_size == 1 {
        assert(c * 65535 == 257 * c * 255) by (nonlinear_arith);
        lemma_round_div_bounds(c * 65535, 255, 0, 257 * c);
    } else {
        let den = (ramp_size - 1) * 255;
        assert(den > 0) by (nonlinear_arith)
            requires ramp_size >= 2, den == (ramp_size - 1) * 255;
        assert(0 <= i * c * 65535 <= 257 * c * den) by (nonlinear_arith)
            requires 0 <= i <= ramp_size - 1, den == (ramp_size - 1) * 255, c >= 0;
        lemma_round_div_bounds(i * c * 65535, den, 0, 257 * c);
    }
}

/// For a fixed whitepoint, each channel's ramp is non-decreasing in the
/// index.
pub proof fn lemma_ramp_monotonic(c: u8, i: int, j: int, ramp_size: int)
    requires
        ramp_size >= 2,
        0 <= i <= j < ramp_size,
    ensures
        ramp_value(c, i, ramp_size) <= ramp_value(c, j, ramp_size),
{
    let den = (ramp_size - 1) * 255;
    assert(den > 0) by (nonlinear_arith)
        requires ramp_size >= 2, den == (ramp_size - 1) * 255;
    assert(0 <= i * c * 65535 <= j * c * 65535) by (nonlinear_arith)
        requires 0 <= i <= j, c >= 0;
    lemma_div_is_ordered(2 * (i * c * 65535) + den, 2 * (j * c * 65535) + den, 2 * den);
}

/// Overwrite `buf` with the three-plane gamma table for whitepoint `wp`.
pub fn fill_gamma_table(buf: &mut Vec<u16>, ramp_size: usize, wp: (u8, u8, u8))
    requires
        old(buf).len() == 3 * ramp_size,
        ramp_size >= 1,
    ensures
        final(buf)@ == gamma_table(wp, ramp_size as int),
{
    let n = ramp_size;
    let mut i: usize = 0;
    while i < n
        invariant
            buf.len() == 3 * n,
            n == ramp_size >= 1,
            0 <= i <= n,
            forall|j: int| 0 <= j < i ==> buf@[j] == ramp_value(wp.0, j, n as int) as u16,
            forall|j: int| 0 <= j < i ==> buf@[n + j] == ramp_value(wp.1, j, n as int) as u16,
            forall|j: int| 0 <= j < i ==> buf@[2 * n + j] == ramp_value(wp.2, j, n as int) as u16,
        decreases n - i,
    {
        let rr = ramp_sample(wp.0, i, n);
        let gg = ramp_sample(wp.1, i, n);
        let bb = ramp_sample(wp.2, i, n);
        buf[i] = rr;
        buf[n + i] = gg;
        buf[2 * n + i] = bb;
        i = i + 1;
    }
    proof {
        assert(buf@ =~= gamma_table(wp, ramp_size as int));
    }
}

/// One 16-bit ramp sample, by exact integer rounding.
fn ramp_sample(c: u8, i: usize, ramp_size: usize) -> (r: u16)
    requires
        ramp_size >= 1,
        i < ramp_size,
    ensures
        r == ramp_value(c, i as int, ramp_size as int) as u16,
        r == ramp_value(c, i as int, ramp_size as int),
{
    proof {
        lemma_ramp_value_bounds(c, i as int, ramp_size as int);
    }
    if ramp_size == 1 {
        let num: u128 = (c as u128) * 65535;
        let q: u128 = (2 * num + 255) / (2 * 255);
        q as u16
    } else {
        proof {
            assert(0 <= (i as int) * (c as int) <= 0x10000000000000000int * 255)
                by (nonlinear_arith)
                requires 0 <= i as int <= 0x10000000000000000int, 0 <= c as int <= 255;
            assert((i as int) * (c as int) * 65535 <= 0x10000000000000000int * 255 * 65535)
                by (nonlinear_arith)
                requires 0 <= (i as int) * (c as int) <= 0x10000000000000000int * 255;
            assert((ramp_size as int - 1) * 255 > 0) by (nonlinear_arith)
                requires ramp_size as int >= 2;
            assert((ramp_size as int - 1) * 255 <= 0x10000000000000000int * 255)
                by (nonlinear_arith)
                requires 0 <= ramp_size as int - 1 <= 0x10000000000000000int;
        }
        let num: u128 = (i as u128) * (c as u128) * 65535;
        let den: u128 = (ramp_size as u128 - 1) * 255;
        let q: u128 = (2 * num + den) / (2 * den);
        q as u16
    }
}

} // verus!
