//! The disparity model: a normalized depth sample is mapped to the horizontal
//! pixel separation `round((1 - mu*d) * e / (2 - mu*d))`, where `e` is the eye
//! separation in pixels and `mu` the depth-strength factor. Depth samples are
//! bytes (`d = z / 255`) and `mu` a fraction `mu_num / mu_den`, so the whole
//! computation is exact rational arithmetic over the common denominator
//! `255 * mu_den`, rounded half away from zero.

use vstd::prelude::*;
use vstd::arithmetic::div_mod::lemma_fundamental_div_mod;
use vstd::arithmetic::div_mod::lemma_fundamental_div_mod_converse_div;
use vstd::arithmetic::div_mod::lemma_div_is_ordered;
use vstd::arithmetic::div_mod::lemma_div_multiples_vanish;
use vstd::arithmetic::div_mod::lemma_div_pos_is_pos;
use vstd::arithmetic::div_mod::lemma_mod_bound;

verus! {

/// Eye separation in pixels: `round(2.5 * dpi)` at the default 72 dpi.
pub const EYE_SEPARATION: u32 = 180;

/// Numerator of the default depth-strength factor `mu = 1/5`.
pub const MU_NUM: u32 = 1;

/// Denominator of the default depth-strength factor `mu = 1/5`.
pub const MU_DEN: u32 = 5;

/// `round((1 - mu*d) * e / (2 - mu*d))` with `d = z / 255` and `mu = mn / md`,
/// brought over the common denominator `255 * md`: the numerator becomes
/// `e * (255*md - mn*z)` and the denominator `510*md - mn*z`, and the quotient
/// is rounded half away from zero (both are positive when `0 <= mn < md`).
pub open spec fn sep_spec(z: int, e: int, mn: int, md: int) -> int {
    let num = e * (255 * md - mn * z);
    let den = 510 * md - mn * z;
    (2 * num + den) / (2 * den)
}

/// Rounded division is monotone across denominators: if `p2/q2 <= p1/q1` as
/// rationals (stated by cross-multiplication), the floored quotients are
/// ordered the same way.
proof fn lemma_div_cross(p1: int, q1: int, p2: int, q2: int)
    requires
        0 < q1,
        0 < q2,
        0 <= p2,
        p2 * q1 <= p1 * q2,
    ensures
        p2 / q2 <= p1 / q1,
{
    let k = p2 / q2;
    lemma_div_pos_is_pos(p2, q2);
    lemma_fundamental_div_mod(p2, q2);
    lemma_mod_bound(p2, q2);
    assert(k * q2 <= p2);
    assert(k * q1 <= p1) by (nonlinear_arith)
        requires k * q2 <= p2, p2 * q1 <= p1 * q2, 0 < q1, 0 < q2, 0 <= k;
    lemma_div_is_ordered(k * q1, p1, q1);
    lemma_div_multiples_vanish(k, q1);
    assert(q1 * k == k * q1) by (nonlinear_arith);
}

/// The separation is monotone non-increasing in the depth sample: a closer
/// depth (larger `z`) never receives a larger separation than a farther one.
pub proof fn lemma_separation_monotone(z1: int, z2: int, e: int, mn: int, md: int)
    requires
        0 <= z1 <= z2 <= 255,
        0 <= e,
        0 <= mn < md,
    ensures
        sep_spec(z2, e, mn, md) <= sep_spec(z1, e, mn, md),
{
    let n1 = e * (255 * md - mn * z1);
    let d1 = 510 * md - mn * z1;
    let n2 = e * (255 * md - mn * z2);
    let d2 = 510 * md - mn * z2;
    assert(0 < d1 && 0 < d2 && 0 <= n1 && 0 <= n2) by (nonlinear_arith)
        requires
            0 <= z1 <= 255, 0 <= z2 <= 255, 0 <= e, 0 <= mn < md,
            n1 == e * (255 * md - mn * z1), d1 == 510 * md - mn * z1,
            n2 == e * (255 * md - mn * z2), d2 == 510 * md - mn * z2;
    assert(n1 * d2 - n2 * d1 == e * (mn * z2 - mn * z1) * (255 * md)) by (nonlinear_arith)
        requires
            n1 == e * (255 * md - mn * z1), d1 == 510 * md - mn * z1,
            n2 == e * (255 * md - mn * z2), d2 == 510 * md - mn * z2;
    assert(e * (mn * z2 - mn * z1) * (255 * md) >= 0) by (nonlinear_arith)
        requires 0 <= e, 0 <= mn, z1 <= z2, 0 < md;
    assert((2 * n2 + d2) * (2 * d1) <= (2 * n1 + d1) * (2 * d2)) by (nonlinear_arith)
        requires n2 * d1 <= n1 * d2, 0 < d1, 0 < d2;
    lemma_div_cross(2 * n1 + d1, 2 * d1, 2 * n2 + d2, 2 * d2);
}

/// The separation, in pixels, demanded by the depth sample `depth` under eye
/// separation `e` and depth factor `mu_num / mu_den`.
pub fn separation(depth: u8, e: u32, mu_num: u32, mu_den: u32) -> (s: u32)
    requires
        mu_num < mu_den,
    ensures
        s as int == sep_spec(depth as int, e as int, mu_num as int, mu_den as int),
        s <= e,
{
    let z: u128 = depth as u128;
    let mn: u128 = mu_num as u128;
    let md: u128 = mu_den as u128;
    let ee: u128 = e as u128;
    proof {
        assert(mn * z <= 255 * md && 255 * md - mn * z <= 255 * md) by (nonlinear_arith)
            requires z <= 255, mn < md;
        assert(ee * (255 * md - mn * z) <= 0xffffffff * (255 * 0xffffffff)) by (nonlinear_arith)
            requires ee <= 0xffffffff, md <= 0xffffffff, 0 <= 255 * md - mn * z <= 255 * md;
    }
    let num: u128 = ee * (255 * md - mn * z);
    let den: u128 = 510 * md - mn * z;
    proof {
        assert(0 < den) by (nonlinear_arith)
            requires z <= 255, mn < md, den == 510 * md - mn * z;
        let ni = num as int;
        let di = den as int;
        assert(ee as int * di - ni == ee as int * (255 * md as int)) by (nonlinear_arith)
            requires
                ni == ee as int * (255 * md as int - mn as int * z as int),
                di == 510 * md as int - mn as int * z as int;
        assert(ee as int * (255 * md as int) >= 0) by (nonlinear_arith)
            requires 0 <= ee, 0 <= md;
        assert(2 * ni + di <= e as int * (2 * di) + di) by (nonlinear_arith)
            requires ni <= ee as int * di, ee == e, 0 < di;
        lemma_div_is_ordered(2 * ni + di, e as int * (2 * di) + di, 2 * di);
        lemma_fundamental_div_mod_converse_div(e as int * (2 * di) + di, 2 * di, e as int, di);
        assert((2 * ni + di) / (2 * di) <= e as int);
        lemma_div_pos_is_pos(2 * ni + di, 2 * di);
    }
    let s_wide: u128 = (2 * num + den) / (2 * den);
    s_wide as u32
}

} // verus!
