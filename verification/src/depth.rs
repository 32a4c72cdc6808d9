//! The dimension and depth planner: picking the per-pixel bit width from
//! the palette size, and sizing scanlines.

use vstd::prelude::*;
use vstd::arithmetic::power2::{lemma2_to64, pow2};

verus! {

/// Number of bits each packed pixel takes for a palette of `p` colors:
/// one bit covers up to two colors, two bits up to four, four bits up to
/// sixteen, and eight bits anything larger.
pub open spec fn bit_depth_of(p: int) -> int {
    if p <= 2 {
        1
    } else if p <= 4 {
        2
    } else if p <= 16 {
        4
    } else {
        8
    }
}

/// Integer ceiling division.
pub open spec fn ceil_div_spec(a: int, b: int) -> int {
    a / b + if a % b == 0 {
        0int
    } else {
        1int
    }
}

/// Bits per packed pixel of an indexed PNG: one of 1, 2, 4 or 8.
#[derive(Clone, Copy, Debug, PartialEq, Eq, Structural)]
pub enum BitDepth {
    One,
    Two,
    Four,
    Eight,
}

impl BitDepth {
    /// The number of bits this depth stands for.
    pub open spec fn bits(self) -> int {
        match self {
            BitDepth::One => 1,
            BitDepth::Two => 2,
            BitDepth::Four => 4,
            BitDepth::Eight => 8,
        }
    }

    /// The number of bits, as a machine integer.
    pub fn as_u8(&self) -> (r: u8)
        ensures
            r as int == self.bits(),
    {
        match self {
            BitDepth::One => 1,
            BitDepth::Two => 2,
            BitDepth::Four => 4,
            BitDepth::Eight => 8,
        }
    }
}

/// Ceiling division: `a / b` rounded towards positive infinity.
pub fn ceil_div(a: usize, b: usize) -> (r: usize)
    requires
        b > 0,
    ensures
        r as int == ceil_div_spec(a as int, b as int),
{
    if a % b != 0 {
        assert(b >= 2 ==> a / b <= a / 2) by {
            vstd::arithmetic::div_mod::lemma_div_is_ordered_by_denominator(a as int, 2, b as int);
        };
        a / b + 1
    } else {
        a / b
    }
}

/// The scanline size can be planned either way: rounding the output
/// width up to whole bytes of `8 / depth` pixels is the same as taking
/// the ceiling of `width * depth / 8`, for every depth that divides 8.
pub proof fn lemma_bytes_per_line_formula(ow: int, depth: int)
    requires
        depth == 1 || depth == 2 || depth == 4 || depth == 8,
        ow >= 0,
    ensures
        ceil_div_spec(ow, 8int / depth) == ceil_div_spec(ow * depth, 8),
{
    let ppb = 8int / depth;
    assert(ceil_div_spec(ow, ppb) == ceil_div_spec(ow * depth, 8)) by (nonlinear_arith)
        requires
            ow >= 0 && (depth == 1 || depth == 2 || depth == 4 || depth == 8) && ppb == 8int / depth,
    ;
}

/// The bit depth never shrinks as the palette grows.
pub proof fn lemma_bit_depth_monotonic(p1: int, p2: int)
    requires
        p1 <= p2,
    ensures
        bit_depth_of(p1) <= bit_depth_of(p2),
{
}

/// The chosen depth is one of 1, 2, 4, 8; it can index every entry of a
/// palette that a PNG palette chunk can hold; and no smaller depth of
/// that set could (palettes of fewer than two colors still take one bit).
pub proof fn lemma_bit_depth_covers(p: int)
    requires
        0 <= p <= 256,
    ensures
        p <= pow2(bit_depth_of(p) as nat),
        bit_depth_of(p) == 1 || bit_depth_of(p) == 2 || bit_depth_of(p) == 4 || bit_depth_of(p)
            == 8,
        forall|d: int|
            (d == 1 || d == 2 || d == 4 || d == 8) && p <= #[trigger] pow2(d as nat)
                ==> bit_depth_of(p) <= d,
{
    lemma2_to64();
}

} // verus!
