//! The interpolation utility: where a value sits between two bounds, as an
//! exact rational, and the conversion of that position to an 8-bit display
//! level.

use vstd::prelude::*;

verus! {

/// `255 * num / den`, rounded half-up, as exact integer arithmetic:
/// `floor((510 * num + den) / (2 * den))`.
pub open spec fn round255(num: int, den: int) -> int {
    (510 * num + den) / (2 * den)
}

/// The display level for a position `num / den` inside `[0, 1]`: the rounded
/// scaling of the position itself, or of its complement when `invert` is set.
pub open spec fn spec_level(num: int, den: int, invert: bool) -> int {
    if invert {
        round255(den - num, den)
    } else {
        round255(num, den)
    }
}

/// `round255` stays within the 8-bit display range when `num / den` is a
/// position inside `[0, 1]`, and hits the range's ends exactly at 0 and 1.
pub proof fn lemma_round255_range(num: int, den: int)
    requires
        0 < den,
        0 <= num <= den,
    ensures
        0 <= round255(num, den) <= 255,
        num == 0 ==> round255(num, den) == 0,
        num == den ==> round255(num, den) == 255,
{
    vstd::arithmetic::div_mod::lemma_div_pos_is_pos(510 * num + den, 2 * den);
    vstd::arithmetic::div_mod::lemma_div_is_ordered(510 * num + den, 511 * den, 2 * den);
    vstd::arithmetic::div_mod::lemma_fundamental_div_mod_converse(511 * den, 2 * den, 255, den);
    if num == 0 {
        vstd::arithmetic::div_mod::lemma_fundamental_div_mod_converse(den, 2 * den, 0, den);
    }
}

/// The linear-interpolation coefficient `t` with `x = (1 - t) * x0 + t * x1`,
/// as the exact rational `t = (x - x0) / (x1 - x0)`, returned as the pair
/// `(numerator, denominator)`.
///
/// The coefficient is 0 exactly at the lower bound and 1 exactly at the upper
/// bound; a call with `x` outside `[x0, x1]`, or with the degenerate bounds
/// `x0 == x1`, is a caller error and is ruled out here.
pub fn inv_lerp(x: u32, x0: u32, x1: u32) -> (t: (u64, u64))
    requires
        x0 <= x <= x1,
        x0 < x1,
    ensures
        t.0 == x - x0,
        t.1 == x1 - x0,
        t.0 <= t.1,
        0 < t.1,
        x == x0 <==> t.0 == 0,
        x == x1 <==> t.0 == t.1,
{
    (((x - x0) as u64), ((x1 - x0) as u64))
}

/// Scales an interpolation coefficient `num / den` in `[0, 1]` to an 8-bit
/// display level, rounding half-up; `invert` scales the complement
/// `1 - num / den` instead.
pub fn scale_to_level(num: u64, den: u64, invert: bool) -> (level: u8)
    requires
        0 < den,
        num <= den,
        den <= u32::MAX,
    ensures
        level == spec_level(num as int, den as int, invert),
        0 <= level <= 255,
{
    let n: u64 = if invert {
        den - num
    } else {
        num
    };
    proof {
        lemma_round255_range(n as int, den as int);
    }
    let q: u64 = (510 * n + den) / (2 * den);
    q as u8
}

} // verus!
