//! Deterministic color mapping for sequence items.
//!
//! An item's color is a pure function of its global index and the sequence
//! length.  The normalized position `f = idx / n` drives the channels
//! through modular arithmetic so that every channel stays strictly inside
//! `[0, 1)`: `r = f mod 1`, `g = (1 - f) mod 1`, `b = (0.5 + f) mod 1`,
//! with a fixed alpha.  Channels are kept as exact fractions: a numerator
//! over the common denominator `2 * n`, so the map is reproducible and its
//! laws can be stated without rounding.

use vstd::prelude::*;
use vstd::arithmetic::div_mod::{
    lemma_fundamental_div_mod, lemma_fundamental_div_mod_converse_mod,
    lemma_mod_add_multiples_vanish, lemma_mod_division_less_than_divisor,
    lemma_mod_sub_multiples_vanish,
};
use vstd::arithmetic::mul::{lemma_mul_is_distributive_sub, lemma_mul_unary_negation};

verus! {

/// A color as exact fractions: each channel is `numerator / denom`.
/// The red, green and blue numerators stay strictly below the denominator,
/// so the channel values lie in `[0, 1)`; alpha may reach exactly one.
#[derive(Clone, Copy, Debug, PartialEq, Eq, Structural)]
pub struct ColorRGBA {
    pub red: u64,
    pub green: u64,
    pub blue: u64,
    pub alpha: u64,
    pub denom: u64,
}

/// Every channel numerator is a proper fraction of the denominator;
/// alpha may be the full denominator (an opaque color).
pub open spec fn color_wf(c: ColorRGBA) -> bool {
    &&& c.denom >= 1
    &&& c.red < c.denom
    &&& c.green < c.denom
    &&& c.blue < c.denom
    &&& c.alpha <= c.denom
}

/// Red numerator over denominator `2 * n`: `f mod 1` with `f = idx / n`.
pub open spec fn red_num(n: int, idx: int) -> int {
    (2 * idx) % (2 * n)
}

/// Green numerator over denominator `2 * n`: `(1 - f) mod 1`.
pub open spec fn green_num(n: int, idx: int) -> int {
    (2 * n - 2 * idx) % (2 * n)
}

/// Blue numerator over denominator `2 * n`: `(1/2 + f) mod 1`.
pub open spec fn blue_num(n: int, idx: int) -> int {
    (n + 2 * idx) % (2 * n)
}

/// Color of the item at global index `idx` in a sequence of length `n`.
/// Channels are exact fractions over the denominator `2 * n`; alpha is
/// fixed at one.
pub fn color_for(idx: u32, n: u32) -> (c: ColorRGBA)
    requires
        n >= 1,
    ensures
        c.denom == 2 * n,
        c.red == red_num(n as int, idx as int),
        c.green == green_num(n as int, idx as int),
        c.blue == blue_num(n as int, idx as int),
        c.alpha == c.denom,
        color_wf(c),
{
    let d: u64 = 2 * (n as u64);
    let r: u64 = (2 * (idx as u64)) % d;
    let g: u64 = if r == 0 {
        0
    } else {
        d - r
    };
    let b: u64 = ((n as u64) + 2 * (idx as u64)) % d;
    proof {
        let m = d as int;
        let a = 2 * (idx as int);
        lemma_fundamental_div_mod(a, m);
        lemma_mod_division_less_than_divisor(a, m);
        let q = a / m;
        lemma_mul_unary_negation(m, q);
        lemma_mul_is_distributive_sub(m, 1, q);
        if a % m == 0 {
            assert(m - a == m * (1 - q) + 0);
            lemma_fundamental_div_mod_converse_mod(m - a, m, 1 - q, 0);
        } else {
            assert(m - a == m * (-q) + (m - a % m));
            lemma_fundamental_div_mod_converse_mod(m - a, m, -q, m - a % m);
        }
    }
    ColorRGBA { red: r, green: g, blue: b, alpha: d, denom: d }
}

/// Law: the color map is periodic in the index with period `n`; in
/// particular the colors at index `0` and index `n` coincide, the two ends
/// of the sequence differing only by the wraparound of the modular
/// arithmetic.
pub proof fn lemma_color_periodic(n: int, idx: int)
    requires
        n >= 1,
    ensures
        red_num(n, idx + n) == red_num(n, idx),
        green_num(n, idx + n) == green_num(n, idx),
        blue_num(n, idx + n) == blue_num(n, idx),
{
    lemma_mod_add_multiples_vanish(2 * idx, 2 * n);
    lemma_mod_sub_multiples_vanish(2 * n - 2 * idx, 2 * n);
    lemma_mod_add_multiples_vanish(n + 2 * idx, 2 * n);
}

/// Fraction `idx / (count - 1)` used by the hue-based presentation, which
/// maps the normalized position directly to a hue at full saturation and
/// value.  Returned as numerator and denominator; a proper value in `[0, 1]`.
pub fn hue_fraction(idx: u32, count: u32) -> (f: (u32, u32))
    requires
        count >= 2,
        idx < count,
    ensures
        f.0 == idx,
        f.1 == count - 1,
        f.0 <= f.1,
{
    (idx, count - 1)
}

} // verus!
