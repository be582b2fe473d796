//! Rounding to the nearest integer and to the nearest binary64 number.
//!
//! Every finite binary64 number is a whole multiple of 2^-1074. In
//! specifications a non-negative number is therefore a `nat`: how many of these
//! units it holds.

use vstd::arithmetic::div_mod::*;
use vstd::arithmetic::mul::*;
use vstd::arithmetic::power2::*;
use vstd::prelude::*;

verus! {

/// `num / den` rounded to the nearest integer, halves to the even neighbour.
pub open spec fn half_even(num: nat, den: nat) -> nat {
    let q = num / den;
    let r = num % den;
    if 2 * r < den || (2 * r == den && q % 2 == 0) {
        q
    } else {
        q + 1
    }
}

/// The binary64 number nearest to `num / den` units, halves to the even
/// significand. A significand has 53 bits, so below 2^53 units every whole
/// number is one; above, the spacing doubles from one power of two to the next.
pub open spec fn nearest(num: nat, den: nat) -> nat
    decreases num - den,
{
    if den == 0 || num < 0x20_0000_0000_0000 * den {
        half_even(num, den)
    } else {
        2 * nearest(num, 2 * den)
    }
}

/// How many units the number one holds.
pub open spec fn one() -> nat {
    pow2(1074)
}

/// The rounded quotient is within half a step of the exact one.
pub proof fn lemma_half_even_bounds(num: nat, den: nat)
    requires
        den > 0,
    ensures
        2 * (den * half_even(num, den)) <= 2 * num + den,
        2 * num <= 2 * (den * half_even(num, den)) + den,
        num / den <= half_even(num, den) <= num / den + 1,
{
    let q = num / den;
    let r = num % den;
    lemma_fundamental_div_mod(num as int, den as int);
    assert(den * (q + 1) == den * q + den) by (nonlinear_arith);
}

/// An integer closer than half a step is the rounded quotient.
pub proof fn lemma_half_even_is(num: nat, den: nat, k: nat)
    requires
        den > 0,
        2 * num < 2 * (den * k) + den,
        2 * (den * k) < 2 * num + den,
    ensures
        half_even(num, den) == k,
{
    lemma_half_even_bounds(num, den);
    let h = half_even(num, den);
    if h < k {
        assert(den * k >= den * h + den) by (nonlinear_arith)
            requires
                h + 1 <= k,
        ;
    }
    if h > k {
        assert(den * h >= den * k + den) by (nonlinear_arith)
            requires
                k + 1 <= h,
        ;
    }
}

/// An exact half goes to the even neighbour.
pub proof fn lemma_half_even_tie(num: nat, den: nat, k: nat)
    requires
        den > 0,
        2 * num == 2 * (den * k) + den,
    ensures
        half_even(num, den) == if k % 2 == 0 {
            k
        } else {
            k + 1
        },
{
    let r = (num - den * k) as nat;
    assert(num == k * den + r) by (nonlinear_arith)
        requires
            num == den * k + r,
    ;
    lemma_fundamental_div_mod_converse(num as int, den as int, k as int, r as int);
}

/// Rounding keeps the order of quotients.
pub proof fn lemma_half_even_monotone(a: nat, b: nat, c: nat, d: nat)
    requires
        b > 0,
        d > 0,
        a * d <= c * b,
    ensures
        half_even(a, b) <= half_even(c, d),
{
    let k = half_even(c, d);
    let h = half_even(a, b);
    lemma_half_even_bounds(a, b);
    lemma_half_even_bounds(c, d);
    if h > k {
        assert(b * h >= b * k + b) by (nonlinear_arith)
            requires
                h >= k + 1,
        ;
        let x = b * k;
        let y = d * k;
        // Both quotients lie exactly half way between k and k + 1.
        assert(x * d == y * b) by (nonlinear_arith)
            requires
                x == b * k,
                y == d * k,
        ;
        assert(2 * (a * d) >= 2 * (x * d) + b * d) by (nonlinear_arith)
            requires
                2 * a >= 2 * x + b,
                d > 0,
        ;
        assert(2 * (c * b) <= 2 * (y * b) + b * d) by (nonlinear_arith)
            requires
                2 * c <= 2 * y + d,
                b > 0,
        ;
        assert(2 * a == 2 * x + b) by (nonlinear_arith)
            requires
                2 * (a * d) == 2 * (x * d) + b * d,
                d > 0,
        ;
        assert(2 * c == 2 * y + d) by (nonlinear_arith)
            requires
                2 * (c * b) == 2 * (y * b) + b * d,
                b > 0,
        ;
        lemma_half_even_tie(a, b, k);
        lemma_half_even_tie(c, d, k);
    }
}

/// A common factor does not change the rounded quotient.
pub proof fn lemma_half_even_scale(num: nat, den: nat, c: nat)
    requires
        den > 0,
        c > 0,
    ensures
        half_even(num * c, den * c) == half_even(num, den),
{
    let a = num * c;
    let b = den * c;
    assert(b > 0) by (nonlinear_arith)
        requires
            b == den * c,
            den > 0,
            c > 0,
    ;
    assert(num * b == a * den) by (nonlinear_arith)
        requires
            a == num * c,
            b == den * c,
    ;
    lemma_half_even_monotone(num, den, a, b);
    lemma_half_even_monotone(a, b, num, den);
}

/// Zero is exact.
pub proof fn lemma_nearest_zero(den: nat)
    requires
        den > 0,
    ensures
        half_even(0, den) == 0,
        nearest(0, den) == 0,
{
    lemma_div_of0(den as int);
    lemma_small_mod(0, den);
}

/// A common factor does not change the nearest number.
pub proof fn lemma_nearest_scale(num: nat, den: nat, c: nat)
    requires
        den > 0,
        c > 0,
    ensures
        nearest(num * c, den * c) == nearest(num, den),
    decreases num - den,
{
    assert(den * c > 0) by (nonlinear_arith)
        requires
            den > 0,
            c > 0,
    ;
    assert(0x20_0000_0000_0000 * (den * c) == (0x20_0000_0000_0000 * den) * c) by (nonlinear_arith);
    if num < 0x20_0000_0000_0000 * den {
        assert(num * c < (0x20_0000_0000_0000 * den) * c) by (nonlinear_arith)
            requires
                num < 0x20_0000_0000_0000 * den,
                c > 0,
        ;
        lemma_half_even_scale(num, den, c);
    } else {
        assert(num * c >= (0x20_0000_0000_0000 * den) * c) by (nonlinear_arith)
            requires
                num >= 0x20_0000_0000_0000 * den,
                c > 0,
        ;
        assert(2 * (den * c) == (2 * den) * c) by (nonlinear_arith);
        lemma_nearest_scale(num, 2 * den, c);
    }
}

/// Between 2^(52+j) and 2^(53+j) units the numbers are 2^j units apart.
pub proof fn lemma_nearest_binade(num: nat, den: nat, j: nat)
    requires
        den > 0,
        0x10_0000_0000_0000 * (den * pow2(j)) <= num,
        num < 0x20_0000_0000_0000 * (den * pow2(j)),
    ensures
        nearest(num, den) == pow2(j) * half_even(num, den * pow2(j)),
    decreases j,
{
    if j == 0 {
        lemma2_to64();
        assert(den * 1 == den);
    } else {
        let p = pow2((j - 1) as nat);
        lemma_pow2_unfold(j);
        lemma_pow2_pos((j - 1) as nat);
        assert(den * pow2(j) == (2 * den) * p) by (nonlinear_arith)
            requires
                pow2(j) == 2 * p,
        ;
        assert((2 * den) * p >= 2 * den) by (nonlinear_arith)
            requires
                p >= 1,
        ;
        lemma_nearest_binade(num, 2 * den, (j - 1) as nat);
        let h = half_even(num, den * pow2(j));
        assert(2 * (p * h) == pow2(j) * h) by (nonlinear_arith)
            requires
                pow2(j) == 2 * p,
        ;
    }
}

/// A significand of at most 53 bits, scaled by a power of two, is exact.
pub proof fn lemma_nearest_exact(m: nat, j: nat)
    requires
        m <= 0x20_0000_0000_0000,
    ensures
        nearest(m * pow2(j), 1) == m * pow2(j),
    decreases j,
{
    lemma_pow2_pos(j);
    if m == 0 {
        assert(m * pow2(j) == 0) by (nonlinear_arith)
            requires
                m == 0,
        ;
        lemma_half_even_is(0, 1, 0);
    } else if m < 0x10_0000_0000_0000 && j > 0 {
        lemma_pow2_unfold(j);
        let p = pow2((j - 1) as nat);
        assert(m * pow2(j) == (2 * m) * p) by (nonlinear_arith)
            requires
                pow2(j) == 2 * p,
        ;
        lemma_nearest_exact(2 * m, (j - 1) as nat);
    } else if j == 0 {
        lemma2_to64();
        if m < 0x20_0000_0000_0000 {
            lemma_half_even_is(m, 1, m);
        } else {
            reveal_with_fuel(nearest, 2);
            lemma_half_even_is(m, 2, 0x10_0000_0000_0000);
        }
    } else if m == 0x20_0000_0000_0000 {
        lemma_pow2_unfold((j + 1) as nat);
        assert(m * pow2(j) == 0x10_0000_0000_0000 * pow2(j + 1)) by (nonlinear_arith)
            requires
                m == 0x20_0000_0000_0000,
                pow2(j + 1) == 2 * pow2(j),
        ;
        lemma_nearest_binade_exact(0x10_0000_0000_0000, j + 1);
    } else {
        lemma_nearest_binade_exact(m, j);
    }
}

proof fn lemma_nearest_binade_exact(m: nat, j: nat)
    requires
        0x10_0000_0000_0000 <= m < 0x20_0000_0000_0000,
    ensures
        nearest(m * pow2(j), 1) == m * pow2(j),
{
    let p = pow2(j);
    lemma_pow2_pos(j);
    assert(1 * p == p);
    assert(0x10_0000_0000_0000 * p <= m * p < 0x20_0000_0000_0000 * p) by (nonlinear_arith)
        requires
            p > 0,
            0x10_0000_0000_0000 <= m < 0x20_0000_0000_0000,
    ;
    lemma_nearest_binade(m * p, 1, j);
    assert(p * m == m * p) by (nonlinear_arith);
    lemma_half_even_is(m * p, p, m);
}

/// A quotient of at least 2^53 units is not rounded below 2^53 units.
proof fn lemma_nearest_at_least(num: nat, den: nat)
    requires
        den > 0,
        num >= 0x20_0000_0000_0000 * den,
    ensures
        nearest(num, den) >= 0x20_0000_0000_0000,
    decreases num - den,
{
    if num < 0x20_0000_0000_0000 * (2 * den) {
        reveal_with_fuel(nearest, 2);
        lemma_half_even_is(0x10_0000_0000_0000 * (2 * den), 2 * den, 0x10_0000_0000_0000);
        let e = 2 * den;
        assert((0x10_0000_0000_0000 * e) * e <= num * e) by (nonlinear_arith)
            requires
                0x10_0000_0000_0000 * e <= num,
        ;
        lemma_half_even_monotone(0x10_0000_0000_0000 * e, e, num, e);
    } else {
        lemma_nearest_at_least(num, 2 * den);
    }
}

/// Rounding to a binary64 number keeps the order of quotients.
pub proof fn lemma_nearest_monotone(a: nat, b: nat, c: nat, d: nat)
    requires
        b > 0,
        d > 0,
        a * d <= c * b,
    ensures
        nearest(a, b) <= nearest(c, d),
    decreases a - b,
{
    let k = 0x20_0000_0000_0000nat;
    if a < k * b {
        if c < k * d {
            lemma_half_even_monotone(a, b, c, d);
        } else {
            lemma_half_even_is(k * b, b, k);
            assert(a * b <= (k * b) * b) by (nonlinear_arith)
                requires
                    a <= k * b,
            ;
            lemma_half_even_monotone(a, b, k * b, b);
            lemma_nearest_at_least(c, d);
        }
    } else {
        assert(c >= k * d) by (nonlinear_arith)
            requires
                a >= k * b,
                a * d <= c * b,
                b > 0,
                d > 0,
        ;
        assert(a * (2 * d) <= c * (2 * b)) by (nonlinear_arith)
            requires
                a * d <= c * b,
        ;
        lemma_nearest_monotone(a, 2 * b, c, 2 * d);
    }
}

/// Below 2^(53+j) units the nearest number is at most 2^j / 2 units too large.
pub proof fn lemma_nearest_error(num: nat, den: nat, j: nat)
    requires
        den > 0,
        num < 0x20_0000_0000_0000 * (den * pow2(j)),
    ensures
        2 * (den * nearest(num, den)) <= 2 * num + den * pow2(j),
    decreases j,
{
    lemma_pow2_pos(j);
    assert(den * pow2(j) >= den) by (nonlinear_arith)
        requires
            pow2(j) >= 1,
    ;
    if num < 0x20_0000_0000_0000 * den {
        lemma_half_even_bounds(num, den);
    } else {
        if j == 0 {
            lemma2_to64();
            assert(den * 1 == den);
        }
        let p = pow2((j - 1) as nat);
        lemma_pow2_unfold(j);
        assert(den * pow2(j) == (2 * den) * p) by (nonlinear_arith)
            requires
                pow2(j) == 2 * p,
        ;
        lemma_nearest_error(num, 2 * den, (j - 1) as nat);
        let n = nearest(num, 2 * den);
        assert(den * (2 * n) == (2 * den) * n) by (nonlinear_arith);
    }
}

/// Less than a quarter of a step added to an exact number is rounded away.
pub proof fn lemma_nearest_absorbs_sum(m: nat, j: nat, b: nat)
    requires
        0x10_0000_0000_0000 <= m < 0x20_0000_0000_0000,
        4 * b < pow2(j),
    ensures
        nearest(m * pow2(j) + b, 1) == m * pow2(j),
{
    let p = pow2(j);
    let a = m * p;
    assert(1 * p == p);
    assert(0x10_0000_0000_0000 * p <= a <= 0x20_0000_0000_0000 * p - p) by (nonlinear_arith)
        requires
            a == m * p,
            0x10_0000_0000_0000 <= m <= 0x20_0000_0000_0000 - 1,
    ;
    lemma_nearest_binade(a + b, 1, j);
    assert(p * m == a) by (nonlinear_arith)
        requires
            a == m * p,
    ;
    lemma_half_even_is(a + b, p, m);
}

/// Less than a quarter of a step taken from an exact number is rounded away.
pub proof fn lemma_nearest_absorbs_difference(m: nat, j: nat, b: nat)
    requires
        0x10_0000_0000_0000 <= m < 0x20_0000_0000_0000,
        j > 0,
        4 * b < pow2(j),
        b <= m * pow2(j),
    ensures
        nearest((m * pow2(j) - b) as nat, 1) == m * pow2(j),
{
    let p = pow2(j);
    let a = m * p;
    lemma_pow2_pos(j);
    assert(p * m == a) by (nonlinear_arith)
        requires
            a == m * p,
    ;
    if b == 0 {
        lemma_nearest_exact(m, j);
    } else if m == 0x10_0000_0000_0000 {
        let h = pow2((j - 1) as nat);
        lemma_pow2_unfold(j);
        assert(1 * h == h);
        lemma_nearest_binade((a - b) as nat, 1, (j - 1) as nat);
        lemma_half_even_is((a - b) as nat, h, 0x20_0000_0000_0000);
    } else {
        assert(1 * p == p);
        assert(0x10_0000_0000_0000 * p + p <= a <= 0x20_0000_0000_0000 * p) by (nonlinear_arith)
            requires
                a == m * p,
                0x10_0000_0000_0000 + 1 <= m <= 0x20_0000_0000_0000,
        ;
        lemma_nearest_binade((a - b) as nat, 1, j);
        lemma_half_even_is((a - b) as nat, p, m);
    }
}

/// Rounding changes a number of at least 2^52 units by at most its 2^53rd part.
pub proof fn lemma_nearest_relative(num: nat, den: nat)
    requires
        den > 0,
        0x10_0000_0000_0000 * den <= num,
    ensures
        0x20_0000_0000_0000 * (den * nearest(num, den)) <= 0x20_0000_0000_0001 * num,
        0x1f_ffff_ffff_ffff * num <= 0x20_0000_0000_0000 * (den * nearest(num, den)),
    decreases num - den,
{
    if num < 0x20_0000_0000_0000 * den {
        lemma_half_even_bounds(num, den);
    } else {
        lemma_nearest_relative(num, 2 * den);
        let n = nearest(num, 2 * den);
        assert((2 * den) * n == den * (2 * n)) by (nonlinear_arith);
    }
}

} // verus!
