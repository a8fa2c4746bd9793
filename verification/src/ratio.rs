//! Single-precision rounding on integers.
//!
//! The share of the primary pane is a single-precision number. It is kept
//! here as an integer count of units of 2^-28, fine enough that every single
//! between 0.0625 and 1 is a whole number of units. Rounding to 24
//! significant bits, ties to even, then gives exactly the sums and products
//! that single-precision hardware gives.

use vstd::prelude::*;

verus! {

/// One whole, in units of 2^-28.
pub const ONE: u32 = 268_435_456;

/// One half, in units of 2^-28.
pub const HALF: u32 = 134_217_728;

/// The number of integers with at most 24 significant bits and no scaling.
pub const SIGNIFICANDS: u64 = 16_777_216;

/// The spacing of 24-bit significands around `x`: the least power of two `u`
/// with `x < 2^24 * u`.
pub open spec fn spacing(x: nat) -> nat
    decreases x,
{
    if x < 16_777_216 {
        1
    } else {
        2 * spacing(x / 2)
    }
}

/// `x` rounded to 24 significant bits, ties to even.
pub open spec fn round24(x: nat) -> nat {
    let u = spacing(x);
    let q = x / u;
    let r = x % u;
    if 2 * r < u || (2 * r == u && q % 2 == 0) {
        q * u
    } else {
        (q + 1) * u
    }
}

/// `total * share`, both taken as single-precision numbers, rounded to the
/// nearest whole number (halves away from zero). `share` counts units of
/// 2^-28.
pub open spec fn scaled(total: nat, share: nat) -> nat {
    (round24(round24(total) * share) + 134_217_728) / 268_435_456
}

pub proof fn lemma_spacing(x: nat)
    ensures
        spacing(x) >= 1,
        x < 16_777_216 * spacing(x),
        spacing(x) > 1 ==> 8_388_608 * spacing(x) <= x && spacing(x) % 2 == 0,
        x < 16_777_216 ==> spacing(x) == 1,
    decreases x,
{
    if x >= 16_777_216 {
        lemma_spacing(x / 2);
    }
}

proof fn lemma_spacing_monotone(x: nat, y: nat)
    requires
        x <= y,
    ensures
        spacing(x) <= spacing(y),
        spacing(x) < spacing(y) ==> 2 * spacing(x) <= spacing(y),
    decreases y,
{
    lemma_spacing(x);
    lemma_spacing(y);
    if x >= 16_777_216 {
        lemma_spacing_monotone(x / 2, y / 2);
    }
}

/// The rounded value is one of the two neighbouring multiples of the spacing,
/// at most half a spacing away.
proof fn lemma_round24_near(x: nat)
    ensures
        2 * round24(x) <= 2 * x + spacing(x),
        2 * x <= 2 * round24(x) + spacing(x),
        x / spacing(x) * spacing(x) <= round24(x) <= (x / spacing(x) + 1) * spacing(x),
        round24(x) <= 16_777_216 * spacing(x),
        x < 16_777_216 ==> round24(x) == x,
{
    lemma_spacing(x);
    let u = spacing(x);
    let q = x / u;
    let r = x % u;
    assert(x == q * u + r && 0 <= r < u) by (nonlinear_arith)
        requires
            u >= 1,
            q == x / u,
            r == x % u,
    ;
    assert((q + 1) * u == q * u + u) by (nonlinear_arith);
    assert(q < 16_777_216) by (nonlinear_arith)
        requires
            x < 16_777_216 * u,
            x == q * u + r,
            0 <= r < u,
    ;
    assert((q + 1) * u <= 16_777_216 * u) by (nonlinear_arith)
        requires
            q < 16_777_216,
            u >= 1,
    ;
}

/// Rounding moves a value by at most one part in 2^24, and not at all below
/// 2^24.
pub proof fn lemma_round24_error(x: nat)
    ensures
        16_777_216 * round24(x) <= 16_777_217 * x,
        16_777_215 * x <= 16_777_216 * round24(x),
        x < 16_777_216 ==> round24(x) == x,
{
    lemma_spacing(x);
    lemma_round24_near(x);
}

/// Rounding keeps order.
pub proof fn lemma_round24_monotone(x: nat, y: nat)
    requires
        x <= y,
    ensures
        round24(x) <= round24(y),
{
    lemma_spacing(x);
    lemma_spacing(y);
    lemma_spacing_monotone(x, y);
    lemma_round24_near(x);
    lemma_round24_near(y);
    let u = spacing(x);
    let v = spacing(y);
    if u == v {
        let qx = x / u;
        let qy = y / u;
        assert(qx <= qy) by (nonlinear_arith)
            requires
                u >= 1,
                x <= y,
                qx == x / u,
                qy == y / u,
        ;
        if qx < qy {
            assert((qx + 1) * u <= qy * u) by (nonlinear_arith)
                requires
                    qx + 1 <= qy,
                    u >= 1,
            ;
        } else {
            assert(x == qx * u + x % u && y == qx * u + y % u) by (nonlinear_arith)
                requires
                    u >= 1,
                    qx == x / u,
                    qx == y / u,
            ;
            assert((qx + 1) * u == qx * u + u) by (nonlinear_arith);
        }
    } else {
        // `y` lies above every value that rounds with the smaller spacing.
        assert(16_777_216 * u <= 8_388_608 * v);
        assert(8_388_608 <= y / v) by (nonlinear_arith)
            requires
                v >= 1,
                8_388_608 * v <= y,
        ;
        assert(8_388_608 * v <= y / v * v) by (nonlinear_arith)
            requires
                8_388_608 <= y / v,
                v >= 1,
        ;
    }
}

/// A share of at most nine tenths (and one unit of its last place) of a total
/// never rounds to more than the total.
pub proof fn lemma_scaled_fits(total: nat, share: nat)
    requires
        total <= u32::MAX,
        share <= 241_591_904,
    ensures
        scaled(total, share) <= total,
        round24(total) * share <= 0x1000_0000_0000_0000,
{
    let t = round24(total);
    lemma_round24_error(total);
    let p = t * share;
    assert(p <= 0x1_0000_0100 * 241_591_904) by (nonlinear_arith)
        requires
            t <= 0x1_0000_0100,
            share <= 241_591_904,
            p == t * share,
    ;
    lemma_round24_error(p);
    assert(p <= 241_591_904 * t) by (nonlinear_arith)
        requires
            p == t * share,
            share <= 241_591_904,
    ;
}

/// A larger share of the same total is no smaller after rounding.
pub proof fn lemma_scaled_monotone(total: nat, a: nat, b: nat)
    requires
        a <= b,
    ensures
        scaled(total, a) <= scaled(total, b),
{
    let t = round24(total);
    assert(t * a <= t * b) by (nonlinear_arith)
        requires
            a <= b,
    ;
    lemma_round24_monotone(t * a, t * b);
}

/// A share of a side is within one pixel of the exact product.
pub proof fn lemma_scaled_near(total: nat, share: nat)
    requires
        total <= 0x80_0000,
        share <= 0x1000_0000,
    ensures
        (scaled(total, share) - 1) * 0x1000_0000 <= total * share,
        total * share <= (scaled(total, share) + 1) * 0x1000_0000,
{
    let p = total * share;
    lemma_round24_error(total);
    lemma_round24_error(p);
    assert(p <= 0x80_0000 * 0x1000_0000) by (nonlinear_arith)
        requires
            p == total * share,
            total <= 0x80_0000,
            share <= 0x1000_0000,
    ;
}

/// Rounds `x` to 24 significant bits, ties to even.
pub fn round_to_24(x: u64) -> (r: u64)
    requires
        x <= 0x1000_0000_0000_0000,
    ensures
        r == round24(x as nat),
        r <= 0x1100_0000_0000_0000,
{
    let mut u: u64 = 1;
    let mut y: u64 = x;
    while y >= SIGNIFICANDS
        invariant
            spacing(x as nat) == u * spacing(y as nat),
            u >= 1,
            u * y <= x,
            x <= 0x1000_0000_0000_0000,
        decreases y,
    {
        assert(2 * u * (y / 2) <= u * y) by (nonlinear_arith);
        assert(u * spacing(y as nat) == 2 * u * spacing((y / 2) as nat)) by (nonlinear_arith)
            requires
                spacing(y as nat) == 2 * spacing((y / 2) as nat),
        ;
        assert(u * y >= 2 * u) by (nonlinear_arith)
            requires
                y >= 2,
                u >= 1,
        ;
        u = 2 * u;
        y = y / 2;
    }
    assert(u * spacing(y as nat) == u) by (nonlinear_arith)
        requires
            spacing(y as nat) == 1,
    ;
    proof {
        lemma_round24_near(x as nat);
        lemma_spacing(x as nat);
    }
    let q: u64 = x / u;
    let r: u64 = x % u;
    assert(q * u + r == x) by (nonlinear_arith)
        requires
            u >= 1,
            q == x / u,
            r == x % u,
    ;
    assert((q + 1) * u == q * u + u) by (nonlinear_arith);
    if r < u - r || (r == u - r && q % 2 == 0) {
        q * u
    } else {
        (q + 1) * u
    }
}

/// The single-precision product `total * share`, rounded to a whole number.
pub fn scale(total: u32, share: u32) -> (r: u32)
    requires
        share <= 241_591_904,
    ensures
        r == scaled(total as nat, share as nat),
        r <= total,
{
    proof {
        lemma_scaled_fits(total as nat, share as nat);
    }
    let t: u64 = round_to_24(total as u64);
    let p: u64 = round_to_24(t * (share as u64));
    ((p + HALF as u64) / (ONE as u64)) as u32
}

/// Rounding goes to the nearest number of 24 significant bits, to the even one
/// of two that are equally near, and leaves small whole numbers alone.
pub proof fn law_rounding_is_to_the_nearest(x: nat)
    ensures
        x < 16_777_216 ==> round24(x) == x,
        round24(x) % spacing(x) == 0,
        2 * (round24(x) - x) <= spacing(x),
        2 * (x - round24(x)) <= spacing(x),
        2 * (round24(x) - x) == spacing(x) || 2 * (x - round24(x)) == spacing(x) ==> (round24(x)
            / spacing(x)) % 2 == 0,
{
    lemma_spacing(x);
    let u = spacing(x) as int;
    let n = x as int;
    let q = n / u;
    let r = n % u;
    vstd::arithmetic::div_mod::lemma_fundamental_div_mod(n, u);
    vstd::arithmetic::div_mod::lemma_mod_bound(n, u);
    assert(u * q == q * u) by (nonlinear_arith);
    assert((q + 1) * u == q * u + u) by (nonlinear_arith);
    vstd::arithmetic::div_mod::lemma_mod_multiples_basic(q, u);
    vstd::arithmetic::div_mod::lemma_mod_multiples_basic(q + 1, u);
    vstd::arithmetic::div_mod::lemma_div_multiples_vanish(q, u);
    vstd::arithmetic::div_mod::lemma_div_multiples_vanish(q + 1, u);
    assert(u * (q + 1) == (q + 1) * u) by (nonlinear_arith);
    if u == 1 {
        assert(r == 0);
    }
}

} // verus!
