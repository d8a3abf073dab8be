//! Single-precision arithmetic in integers.
//!
//! A number is a count of 2^-40. After every operation the exact result is rounded to
//! the nearest number with 24 significant bits, a tie to the even one, as IEEE 754
//! binary32 does. For the numbers met here (zero, or from about 2^-11 to 2^17) no
//! exponent is out of range, so the two agree bit for bit.

use vstd::prelude::*;

verus! {

/// One, as a count of 2^-40.
pub const ONE: u128 = 1_099_511_627_776;

/// The distance between neighbours of 24 significant bits around a number.
pub open spec fn spacing(x: nat) -> nat
    decreases x,
{
    if x < 16_777_216 {
        1
    } else {
        2 * spacing(x / 2)
    }
}

/// The fraction `num / den`, rounded to 24 significant bits, a tie to even.
pub open spec fn rounded(num: nat, den: nat) -> nat {
    let u = spacing(num / den);
    let q = num / (den * u);
    let r = num % (den * u);
    if 2 * r > den * u || 2 * r == den * u && q % 2 == 1 {
        (q + 1) * u
    } else {
        q * u
    }
}

proof fn lemma_spacing(x: nat)
    ensures
        1 <= spacing(x),
        x >= 1 ==> spacing(x) <= x,
        x >= 16_777_216 ==> spacing(x) * 8_388_608 <= x,
    decreases x,
{
    if x >= 16_777_216 {
        lemma_spacing(x / 2);
        if x / 2 < 16_777_216 {
            assert(spacing(x / 2) == 1);
        }
    }
}

fn spacing_at(x: u128) -> (r: u128)
    ensures
        r == spacing(x as nat),
    decreases x,
{
    if x < 16_777_216 {
        1
    } else {
        proof {
            lemma_spacing(x as nat);
        }
        2 * spacing_at(x / 2)
    }
}

/// The fraction `num / den`, rounded to 24 significant bits.
pub(crate) fn round(num: u128, den: u128) -> (r: u128)
    requires
        0 < den <= 0x2_0000_0000_0000,
        num < 0x1_0000_0000_0000_0000_0000_0000_0000,
    ensures
        r == rounded(num as nat, den as nat),
        r <= 2 * (num / den) + 1,
{
    let x: u128 = num / den;
    let u: u128 = spacing_at(x);
    proof {
        lemma_spacing(x as nat);
        lemma_round_bounds(num as nat, den as nat, u as nat);
    }
    let d: u128 = den * u;
    let q: u128 = num / d;
    let r: u128 = num % d;
    if 2 * r > d || 2 * r == d && q % 2 == 1 {
        (q + 1) * u
    } else {
        q * u
    }
}

proof fn lemma_round_bounds(num: nat, den: nat, u: nat)
    requires
        0 < den,
        1 <= u,
        num / den >= 1 ==> u <= num / den,
        num / den == 0 ==> u == 1,
    ensures
        0 < den * u <= num + den,
        num / (den * u) * u <= num / den,
        (num / (den * u) + 1) * u <= 2 * (num / den) + 1,
{
    let x = num / den;
    let d = den * u;
    let q = num / d;
    assert(d > 0) by (nonlinear_arith)
        requires
            d == den * u,
            den > 0,
            u >= 1,
    ;
    assert(x * den <= num) by (nonlinear_arith)
        requires
            x == num / den,
            den > 0,
    ;
    assert(d <= num + den) by (nonlinear_arith)
        requires
            d == den * u,
            x * den <= num,
            x >= 1 ==> u <= x,
            x == 0 ==> u == 1,
            den > 0,
    ;
    assert(q * d <= num) by (nonlinear_arith)
        requires
            q == num / d,
            d > 0,
    ;
    assert(q * u <= x) by (nonlinear_arith)
        requires
            q * d <= num,
            d == den * u,
            x == num / den,
            den > 0,
    ;
    assert((q + 1) * u == q * u + u) by (nonlinear_arith);
}

/// Zero stays zero.
pub proof fn lemma_zero(den: nat)
    requires
        den > 0,
    ensures
        rounded(0, den) == 0,
{
    assert(0nat / den == 0) by (nonlinear_arith)
        requires
            den > 0,
    ;
    assert(spacing(0) == 1);
    assert(den * 1 == den);
    assert(0nat % den == 0) by (nonlinear_arith)
        requires
            den > 0,
    ;
}

/// Rounding moves a number by at most one part in 2^24.
pub proof fn lemma_near(num: nat, den: nat)
    requires
        den > 0,
        num == 0 || num >= 16_777_216 * den,
    ensures
        16_777_216 * (den * rounded(num, den)) <= 16_777_216 * num + num,
        16_777_216 * num <= 16_777_216 * (den * rounded(num, den)) + num,
{
    if num == 0 {
        lemma_zero(den);
        assert(den * 0 == 0);
    } else {
        let x = num / den;
        let u = spacing(x);
        let d = den * u;
        let q = num / d;
        let r = num % d;
        assert(x >= 16_777_216) by (nonlinear_arith)
            requires
                x == num / den,
                den > 0,
                num >= 16_777_216 * den,
        ;
        lemma_spacing(x);
        assert(x * den <= num) by (nonlinear_arith)
            requires
                x == num / den,
                den > 0,
        ;
        assert(d > 0 && d * 8_388_608 <= num) by (nonlinear_arith)
            requires
                d == den * u,
                den > 0,
                u >= 1,
                u * 8_388_608 <= x,
                x * den <= num,
        ;
        assert(num == q * d + r && r < d) by (nonlinear_arith)
            requires
                q == num / d,
                r == num % d,
                d > 0,
        ;
        assert(den * (q * u) == q * d && den * ((q + 1) * u) == q * d + d) by (nonlinear_arith)
            requires
                d == den * u,
        ;
    }
}

} // verus!
