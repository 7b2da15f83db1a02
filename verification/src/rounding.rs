//! Whole numbers as a double-precision number holds them: rounded to 53
//! significant bits, to the nearest, and to the even one of two that are
//! equally near.
use vstd::arithmetic::power2::pow2;
use vstd::prelude::*;

verus! {

/// The value of the last of the 53 significant bits of a number.
pub open spec fn unit(x: nat) -> nat
    decreases x,
{
    if x < 0x20_0000_0000_0000 {
        1
    } else {
        2 * unit(x / 2)
    }
}

/// The multiple of `u` that is nearest to a number; of two that are equally
/// near, the even one.
pub open spec fn nearest_multiple(x: nat, u: nat) -> nat
    recommends
        u > 0,
{
    let q = x / u;
    let r = x % u;
    if 2 * r < u || (2 * r == u && q % 2 == 0) {
        q * u
    } else {
        (q + 1) * u
    }
}

/// A number in 53 significant bits.
pub open spec fn rounded(x: nat) -> nat {
    nearest_multiple(x, unit(x))
}

/// How large a number is, counted in its last bit.
proof fn lemma_unit(x: nat)
    ensures
        unit(x) > 0,
        x < 0x20_0000_0000_0000 * unit(x),
        unit(x) > 1 ==> x >= 0x10_0000_0000_0000 * unit(x),
    decreases x,
{
    if x >= 0x20_0000_0000_0000 {
        lemma_unit(x / 2);
    }
}

/// A larger number has the same last bit or one that counts at least twice.
proof fn lemma_unit_grows(x: nat, y: nat)
    requires
        x <= y,
    ensures
        unit(x) == unit(y) || 2 * unit(x) <= unit(y),
    decreases y,
{
    lemma_unit(y);
    if y >= 0x20_0000_0000_0000 {
        lemma_unit(y / 2);
        if x >= 0x20_0000_0000_0000 {
            lemma_unit_grows(x / 2, y / 2);
        }
    }
}

/// What rounding to a multiple gives: the multiple below or the one above,
/// whichever is no further away.
proof fn lemma_nearest_multiple(x: nat, u: nat)
    requires
        u > 0,
    ensures
        (x / u) * u <= nearest_multiple(x, u) <= (x / u) * u + u,
        2 * nearest_multiple(x, u) <= 2 * x + u,
        2 * x <= 2 * nearest_multiple(x, u) + u,
        (x / u) * u <= x < (x / u) * u + u,
        x % u == 0 ==> nearest_multiple(x, u) == x,
{
    vstd::arithmetic::div_mod::lemma_fundamental_div_mod(x as int, u as int);
    vstd::arithmetic::div_mod::lemma_mod_bound(x as int, u as int);
    let q = (x / u) as int;
    let w = u as int;
    assert(w * q == q * w) by (nonlinear_arith);
    assert((q + 1) * w == q * w + w) by (nonlinear_arith);
}

/// Rounding keeps the order of numbers.
pub proof fn lemma_rounded_keeps_order(x: nat, y: nat)
    requires
        x <= y,
    ensures
        rounded(x) <= rounded(y),
{
    let (u, v) = (unit(x), unit(y));
    lemma_unit(x);
    lemma_unit(y);
    lemma_unit_grows(x, y);
    lemma_nearest_multiple(x, u);
    lemma_nearest_multiple(y, v);
    let (p, q) = ((x / u) as int, (y / v) as int);
    if u == v {
        let w = u as int;
        vstd::arithmetic::div_mod::lemma_div_is_ordered(x as int, y as int, w);
        if p < q {
            assert((p + 1) * w <= q * w) by (nonlinear_arith)
                requires
                    p + 1 <= q,
                    0 < w,
            ;
            assert((p + 1) * w == p * w + w) by (nonlinear_arith);
        } else {
            // The same multiple below: the one that is further above it is
            // rounded up if either is.
            vstd::arithmetic::div_mod::lemma_fundamental_div_mod(x as int, w);
            vstd::arithmetic::div_mod::lemma_fundamental_div_mod(y as int, w);
            assert(x % u <= y % v);
            assert((p + 1) * w == p * w + w) by (nonlinear_arith);
        }
    } else {
        // The number below rounds to at most 2^53 of its last bits, and the one
        // above has at least 2^52 of bits that count twice.
        let (a, b) = (u as int, v as int);
        assert(p < 0x20_0000_0000_0000) by (nonlinear_arith)
            requires
                p * a <= x,
                x < 0x20_0000_0000_0000 * a,
                0 < a,
        ;
        assert((p + 1) * a <= 0x20_0000_0000_0000 * a) by (nonlinear_arith)
            requires
                p + 1 <= 0x20_0000_0000_0000,
                0 < a,
        ;
        assert((p + 1) * a == p * a + a) by (nonlinear_arith);
        assert(q >= 0x10_0000_0000_0000) by (nonlinear_arith)
            requires
                q * b + b > y,
                y >= 0x10_0000_0000_0000 * b,
                0 < b,
        ;
        assert(q * b >= 0x10_0000_0000_0000 * b) by (nonlinear_arith)
            requires
                q >= 0x10_0000_0000_0000,
                0 < b,
        ;
    }
}

/// Twice a number rounds to twice as much.
proof fn lemma_rounded_twice(x: nat)
    ensures
        rounded(2 * x) == 2 * rounded(x),
{
    let u = unit(x) as int;
    lemma_unit(x);
    if 2 * x < 0x20_0000_0000_0000 {
        lemma_nearest_multiple(x, 1);
        lemma_nearest_multiple(2 * x, 1);
    } else {
        assert((2 * x) / 2 == x);
        assert(unit(2 * x) == 2 * unit(x));
        let q = (x / unit(x)) as int;
        let r = (x % unit(x)) as int;
        vstd::arithmetic::div_mod::lemma_fundamental_div_mod(x as int, u);
        vstd::arithmetic::div_mod::lemma_mod_bound(x as int, u);
        assert(2 * x == q * (2 * u) + 2 * r) by (nonlinear_arith)
            requires
                x == u * q + r,
        ;
        vstd::arithmetic::div_mod::lemma_fundamental_div_mod_converse(
            2 * x as int,
            2 * u,
            q,
            2 * r,
        );
        assert(q * (2 * u) == 2 * (q * u)) by (nonlinear_arith);
        assert((q + 1) * (2 * u) == 2 * ((q + 1) * u)) by (nonlinear_arith);
    }
}

/// A number times a power of two rounds to that many times as much.
pub proof fn lemma_rounded_scales(x: nat, e: nat)
    ensures
        rounded(x * pow2(e)) == rounded(x) * pow2(e),
    decreases e,
{
    if e == 0 {
        vstd::arithmetic::power2::lemma2_to64();
        assert(x * 1 == x && rounded(x) * 1 == rounded(x));
    } else {
        let p = pow2((e - 1) as nat);
        lemma_rounded_scales(x, (e - 1) as nat);
        vstd::arithmetic::power2::lemma_pow2_unfold(e);
        lemma_rounded_twice(x * p);
        let (a, b) = (x as int, p as int);
        assert(a * (2 * b) == 2 * (a * b)) by (nonlinear_arith);
        let c = rounded(x) as int;
        assert(c * (2 * b) == 2 * (c * b)) by (nonlinear_arith);
    }
}

/// Numbers of at most 53 bits are kept as they are.
pub proof fn lemma_rounded_small(x: nat)
    requires
        x <= 0x20_0000_0000_0000,
    ensures
        rounded(x) == x,
{
    if x < 0x20_0000_0000_0000 {
        lemma_nearest_multiple(x, 1);
    } else {
        assert(unit(0x10_0000_0000_0000) == 1);
        assert(unit(x) == 2);
        lemma_nearest_multiple(x, 2);
    }
}

/// Rounding changes a number by at most one part in 2^53.
pub proof fn lemma_rounded_near(x: nat)
    ensures
        0x20_0000_0000_0000 * rounded(x) <= 0x20_0000_0000_0000 * x + x,
        0x20_0000_0000_0000 * x <= 0x20_0000_0000_0000 * rounded(x) + x,
{
    lemma_unit(x);
    if unit(x) > 1 {
        lemma_nearest_multiple(x, unit(x));
    } else {
        lemma_nearest_multiple(x, 1);
    }
}

/// Rounds a number to 53 significant bits.
pub fn round(x: u128) -> (r: u128)
    requires
        x < 0x100_0000_0000_0000_0000_0000_0000_0000,
    ensures
        r == rounded(x as nat),
        r <= 0x200_0000_0000_0000_0000_0000_0000_0000,
{
    let mut u: u128 = 1;
    let mut rest: u128 = x;
    while rest >= 0x20_0000_0000_0000
        invariant
            u > 0,
            u <= x || u == 1,
            u * rest <= x,
            x < 0x100_0000_0000_0000_0000_0000_0000_0000,
            unit(x as nat) == u * unit(rest as nat),
        decreases rest,
    {
        let half: u128 = rest / 2;
        proof {
            let (a, b) = (u as int, unit(half as nat) as int);
            assert(a * (2 * b) == (2 * a) * b) by (nonlinear_arith);
            assert((2 * a) * half <= a * rest) by (nonlinear_arith)
                requires
                    2 * half <= rest,
                    0 < a,
            ;
            assert(2 * a <= x) by (nonlinear_arith)
                requires
                    (2 * a) * half <= x,
                    half >= 1,
                    0 < a,
            ;
        }
        u = 2 * u;
        rest = half;
    }
    proof {
        lemma_unit(x as nat);
        lemma_nearest_multiple(x as nat, u as nat);
        let (q, w) = (x as int / u as int, u as int);
        assert((q + 1) * w == q * w + w) by (nonlinear_arith);
        assert(unit(rest as nat) == 1);
        assert(u * unit(rest as nat) == u) by (nonlinear_arith)
            requires
                unit(rest as nat) == 1,
        ;
    }
    let q: u128 = x / u;
    let r: u128 = x % u;
    if 2 * r < u || (2 * r == u && q % 2 == 0) {
        q * u
    } else {
        (q + 1) * u
    }
}

/// The last of the 53 bits: the power of two that a number is at least 2^52 times
/// and less than 2^53 times as large as, or one for the numbers below.
pub proof fn law_unit(x: nat)
    ensures
        x < 0x20_0000_0000_0000 * unit(x),
        unit(x) > 1 ==> x >= 0x10_0000_0000_0000 * unit(x),
        exists|e: nat| unit(x) == #[trigger] pow2(e),
    decreases x,
{
    lemma_unit(x);
    if x < 0x20_0000_0000_0000 {
        vstd::arithmetic::power2::lemma2_to64();
        assert(unit(x) == pow2(0));
    } else {
        law_unit(x / 2);
        let e = choose|e: nat| unit(x / 2) == #[trigger] pow2(e);
        vstd::arithmetic::power2::lemma_pow2_unfold((e + 1) as nat);
        assert(unit(x) == pow2((e + 1) as nat));
    }
}

/// Rounding gives a multiple of the last bit that no other is nearer than; where
/// two are equally near, the even one.
pub proof fn law_rounding(x: nat)
    ensures
        exists|q: nat| #[trigger] (q * unit(x)) == rounded(x) && (2 * rounded(x) - 2 * x == unit(x)
            || 2 * x - 2 * rounded(x) == unit(x) ==> q % 2 == 0),
        -(unit(x) as int) <= 2 * rounded(x) - 2 * x <= unit(x),
{
    lemma_unit(x);
    let u = unit(x);
    lemma_nearest_multiple(x, u);
    vstd::arithmetic::div_mod::lemma_fundamental_div_mod(x as int, u as int);
    let q = x / u;
    let r = x % u;
    assert(u * q == q * u) by (nonlinear_arith);
    assert((q + 1) * u == q * u + u) by (nonlinear_arith);
    if 2 * r < u || (2 * r == u && q % 2 == 0) {
        assert(q * u == rounded(x));
    } else {
        assert((q + 1) * u == rounded(x));
    }
}

} // verus!
