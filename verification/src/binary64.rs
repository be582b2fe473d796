//! Non-negative binary64 numbers, computed in integer arithmetic.
//!
//! The averages and percentages of a diagnosis are IEEE 754 binary64 numbers
//! and every operation on them rounds once, to the nearest, halves to even.

use crate::rounding;
use crate::text;
use vstd::arithmetic::div_mod::*;
use vstd::arithmetic::power2::*;
use vstd::prelude::*;

verus! {

/// A significand and an exponent: `m * 2^e`.
#[derive(Clone, Copy)]
struct Raw {
    m: u64,
    e: i32,
}

impl Raw {
    spec fn wf(self) -> bool {
        ||| self.m == 0 && self.e == 0
        ||| 0x10_0000_0000_0000 <= self.m < 0x20_0000_0000_0000 && -900 <= self.e <= 900
    }

    spec fn value(self) -> nat {
        self.m as nat * pow2((self.e + 1074) as nat)
    }
}

proof fn lemma_pow2_127()
    ensures
        pow2(127) == 0x8000_0000_0000_0000_0000_0000_0000_0000nat,
{
    lemma2_to64();
    lemma2_to64_rest();
    lemma_pow2_adds(64, 63);
}

/// The number nearest to `num / den * 2^e`.
fn round_ratio(num: u128, den: u128, e: i32) -> (r: Raw)
    requires
        0 < den < 0x400_0000_0000_0000_0000,
        num < 0x2000_0000_0000_0000_0000_0000_0000_0000,
        -500 <= e <= 500,
    ensures
        r.wf(),
        r.value() == rounding::nearest(num as nat * pow2((e + 1074) as nat), den as nat),
        r.m == 0 && r.e == 0 || e - 127 <= r.e <= e + 128,
{
    let ghost ee = (e + 1074) as nat;
    if num == 0 {
        proof {
            assert(num as nat * pow2(ee) == 0) by (nonlinear_arith)
                requires
                    num == 0,
            ;
            rounding::lemma_nearest_zero(den as nat);
            assert(0 * pow2(1074) == 0) by (nonlinear_arith);
        }
        return Raw { m: 0, e: 0 };
    }
    let mut n: u128 = num;
    let mut d: u128 = den;
    let mut up: i32 = 0;
    let mut down: i32 = 0;
    proof {
        lemma2_to64();
        assert(num as nat * 1 == num as nat);
        assert(den as nat * 1 == den as nat);
    }
    while n < d * 0x10_0000_0000_0000
        invariant
            0 < num,
            0 < den < 0x400_0000_0000_0000_0000,
            num < 0x2000_0000_0000_0000_0000_0000_0000_0000,
            d == den,
            n < 0x8000_0000_0000_0000_0000_0000_0000_0000,
            0 < n,
            0 <= up <= 127,
            up == 0 || n < 0x20_0000_0000_0000 * d,
            n == num as nat * pow2(up as nat),
            up == 0 ==> n == num,
            n as nat >= pow2(up as nat),
        decreases 0x8000_0000_0000_0000_0000_0000_0000_0000 - n,
    {
        proof {
            lemma_pow2_unfold((up + 1) as nat);
            let p = pow2(up as nat);
            assert(num as nat * (2 * p) == 2 * (num as nat * p)) by (nonlinear_arith);
            if up >= 127 {
                lemma_pow2_127();
            }
        }
        n = n * 2;
        up = up + 1;
    }
    while n >= d * 0x20_0000_0000_0000
        invariant
            0 < den < 0x400_0000_0000_0000_0000,
            0 < d,
            n < 0x8000_0000_0000_0000_0000_0000_0000_0000,
            d < 0x800_0000_0000_0000_0000,
            n >= d * 0x10_0000_0000_0000,
            0 <= down <= 127,
            up > 0 ==> down == 0 && n < 0x20_0000_0000_0000 * d,
            d == den as nat * pow2(down as nat),
            d as nat >= pow2(down as nat),
        decreases n - d,
    {
        proof {
            lemma_pow2_unfold((down + 1) as nat);
            let p = pow2(down as nat);
            assert(den as nat * (2 * p) == 2 * (den as nat * p)) by (nonlinear_arith);
            if down >= 127 {
                lemma_pow2_127();
            }
        }
        d = d * 2;
        down = down + 1;
    }
    let q = n / d;
    let rem = n % d;
    let m: u128 = if rem * 2 < d || (rem * 2 == d && q % 2 == 0) {
        q
    } else {
        q + 1
    };
    proof {
        let x = num as nat * pow2(ee);
        let s = up as nat;
        let t = down as nat;
        let j = (ee - s + t) as nat;
        let c = pow2((ee - s) as nat);
        lemma_pow2_pos((ee - s) as nat);
        lemma_pow2_adds((ee - s) as nat, s);
        lemma_pow2_adds((ee - s) as nat, t);
        // Both sides of n / d scaled by 2^(ee - s).
        assert(n as nat * c == x) by (nonlinear_arith)
            requires
                n == num as nat * pow2(s),
                c * pow2(s) == pow2(ee),
                x == num as nat * pow2(ee),
        ;
        assert(d as nat * c == den as nat * pow2(j)) by (nonlinear_arith)
            requires
                d == den as nat * pow2(t),
                c * pow2(t) == pow2(j),
        ;
        assert(0x10_0000_0000_0000 * (d as nat * c) <= n as nat * c) by (nonlinear_arith)
            requires
                n >= d * 0x10_0000_0000_0000,
        ;
        assert(n as nat * c < 0x20_0000_0000_0000 * (d as nat * c)) by (nonlinear_arith)
            requires
                n < d * 0x20_0000_0000_0000,
                c > 0,
        ;
        rounding::lemma_nearest_binade(x, den as nat, j);
        rounding::lemma_half_even_scale(n as nat, d as nat, c);
        assert(m == rounding::half_even(n as nat, d as nat));
        assert(rounding::nearest(x, den as nat) == pow2(j) * m as nat);
        rounding::lemma_half_even_is((d * 0x10_0000_0000_0000) as nat, d as nat, 0x10_0000_0000_0000);
        rounding::lemma_half_even_is((d * 0x20_0000_0000_0000) as nat, d as nat, 0x20_0000_0000_0000);
        assert((d * 0x10_0000_0000_0000) * d <= n * d) by (nonlinear_arith)
            requires
                n >= d * 0x10_0000_0000_0000,
        ;
        assert(n * d <= (d * 0x20_0000_0000_0000) * d) by (nonlinear_arith)
            requires
                n < d * 0x20_0000_0000_0000,
        ;
        rounding::lemma_half_even_monotone((d * 0x10_0000_0000_0000) as nat, d as nat, n as nat, d as nat);
        rounding::lemma_half_even_monotone(n as nat, d as nat, (d * 0x20_0000_0000_0000) as nat, d as nat);
        assert(pow2(j) * m as nat == m as nat * pow2(j)) by (nonlinear_arith);
        lemma_pow2_unfold(j + 1);
        lemma_pow2_pos(j);
        assert(m as nat * pow2(j) > 0) by (nonlinear_arith)
            requires
                m > 0,
                pow2(j) > 0,
        ;
        assert(0x20_0000_0000_0000 * pow2(j) == 0x10_0000_0000_0000 * (2 * pow2(j)))
            by (nonlinear_arith);
    }
    if m == 0x20_0000_0000_0000 {
        Raw { m: 0x10_0000_0000_0000, e: e - up + down + 1 }
    } else {
        Raw { m: m as u64, e: e - up + down }
    }
}

/// `m * 2^d`.
fn shifted(m: u64, d: u32) -> (r: u128)
    requires
        m < 0x20_0000_0000_0000,
        d <= 70,
    ensures
        r == m as nat * pow2(d as nat),
{
    let mut r: u128 = m as u128;
    let mut i: u32 = 0;
    proof {
        lemma2_to64();
        assert(m as nat * 1 == m as nat);
    }
    while i < d
        invariant
            i <= d <= 70,
            m < 0x20_0000_0000_0000,
            r == m as nat * pow2(i as nat),
        decreases d - i,
    {
        proof {
            lemma_shift_bound(m, (i + 1) as nat);
            lemma_pow2_unfold((i + 1) as nat);
            let p = pow2(i as nat);
            assert(m as nat * (2 * p) == 2 * (m as nat * p)) by (nonlinear_arith);
        }
        r = r * 2;
        i = i + 1;
    }
    r
}

/// A number is nearest to itself.
proof fn lemma_raw_exact(a: Raw)
    requires
        a.wf(),
    ensures
        rounding::nearest(a.value(), 1) == a.value(),
{
    rounding::lemma_nearest_exact(a.m as nat, (a.e + 1074) as nat);
}

/// A significand that is far below the last bit of another.
proof fn lemma_far_below(a: Raw, b: Raw)
    requires
        a.wf(),
        b.wf(),
        a.m > 0,
        a.e - b.e > 70,
    ensures
        4 * b.value() < pow2((a.e + 1074) as nat),
        b.value() < a.value(),
{
    let j = (a.e + 1074) as nat;
    let k = (b.e + 1074) as nat;
    let p = pow2(k);
    lemma2_to64_rest();
    lemma2_to64();
    lemma_pow2_adds(k, (j - k) as nat);
    lemma_pow2_strictly_increases(70, (j - k) as nat);
    lemma_pow2_adds(64, 6);
    lemma_pow2_pos(k);
    let g = pow2((j - k) as nat);
    assert(4 * (b.m as nat * p) < p * g) by (nonlinear_arith)
        requires
            b.m < 0x20_0000_0000_0000,
            g > 0x80_0000_0000_0000,
            p > 0,
    ;
    assert(a.m as nat * (p * g) >= p * g) by (nonlinear_arith)
        requires
            a.m >= 1,
    ;
}

/// The sum of two aligned significands.
proof fn lemma_aligned(a: Raw, b: Raw)
    requires
        a.e >= b.e >= -1074,
    ensures
        a.value() == (a.m as nat * pow2((a.e - b.e) as nat)) * pow2((b.e + 1074) as nat),
{
    lemma_pow2_adds((a.e - b.e) as nat, (b.e + 1074) as nat);
    let g = pow2((a.e - b.e) as nat);
    let p = pow2((b.e + 1074) as nat);
    assert(a.m as nat * (g * p) == (a.m as nat * g) * p) by (nonlinear_arith);
}

fn raw_sum(a: Raw, b: Raw) -> (r: Raw)
    requires
        a.wf(),
        b.wf(),
        -400 <= a.e <= 400,
        -400 <= b.e <= 400,
    ensures
        r.wf(),
        r.value() == rounding::nearest(a.value() + b.value(), 1),
{
    proof {
        lemma_raw_exact(a);
        lemma_raw_exact(b);
        assert(0 * pow2(1074) == 0) by (nonlinear_arith);
    }
    if a.m == 0 {
        return b;
    }
    if b.m == 0 {
        return a;
    }
    let (hi, lo) = if a.e >= b.e {
        (a, b)
    } else {
        (b, a)
    };
    if hi.e - lo.e > 70 {
        proof {
            lemma_far_below(hi, lo);
            rounding::lemma_nearest_absorbs_sum(hi.m as nat, (hi.e + 1074) as nat, lo.value());
        }
        return hi;
    }
    let top: u128 = shifted(hi.m, (hi.e - lo.e) as u32);
    proof {
        lemma_aligned(hi, lo);
        let p = pow2((lo.e + 1074) as nat);
        assert((top + lo.m) as nat * p == top as nat * p + lo.m as nat * p) by (nonlinear_arith);
        lemma_shift_bound(hi.m, (hi.e - lo.e) as nat);
    }
    round_ratio(top + lo.m as u128, 1, lo.e)
}

proof fn lemma_shift_bound(m: u64, d: nat)
    requires
        m < 0x20_0000_0000_0000,
        d <= 70,
    ensures
        m as nat * pow2(d) < 0x1000_0000_0000_0000_0000_0000_0000_0000,
{
    lemma2_to64();
    lemma2_to64_rest();
    lemma_pow2_adds(64, 6);
    if d < 70 {
        lemma_pow2_strictly_increases(d, 70);
    }
    lemma_pow2_pos(d);
    assert(m as nat * pow2(d) < 0x20_0000_0000_0000 * pow2(70)) by (nonlinear_arith)
        requires
            m < 0x20_0000_0000_0000,
            pow2(d) <= pow2(70),
            pow2(d) > 0,
    ;
}

fn raw_difference(a: Raw, b: Raw) -> (r: Raw)
    requires
        a.wf(),
        b.wf(),
        a.m > 0,
        a.e >= b.e || b.m == 0,
        a.value() >= b.value(),
        -400 <= a.e <= 400,
        -400 <= b.e <= 400,
    ensures
        r.wf(),
        r.value() == rounding::nearest((a.value() - b.value()) as nat, 1),
{
    proof {
        lemma_raw_exact(a);
        assert(0 * pow2(1074) == 0) by (nonlinear_arith);
    }
    if b.m == 0 {
        return a;
    }
    if a.e - b.e > 70 {
        proof {
            lemma_far_below(a, b);
            rounding::lemma_nearest_absorbs_difference(
                a.m as nat,
                (a.e + 1074) as nat,
                b.value(),
            );
        }
        return a;
    }
    let top: u128 = shifted(a.m, (a.e - b.e) as u32);
    proof {
        lemma_aligned(a, b);
        let p = pow2((b.e + 1074) as nat);
        lemma_pow2_pos((b.e + 1074) as nat);
        assert(top >= b.m) by (nonlinear_arith)
            requires
                top as nat * p >= b.m as nat * p,
                p > 0,
        ;
        assert((top - b.m) as nat * p == top as nat * p - b.m as nat * p) by (nonlinear_arith)
            requires
                top >= b.m,
        ;
        lemma_shift_bound(a.m, (a.e - b.e) as nat);
    }
    round_ratio(top - b.m as u128, 1, b.e)
}

fn raw_product(a: Raw, b: Raw) -> (r: Raw)
    requires
        a.wf(),
        b.wf(),
        -200 <= a.e <= 200,
        -200 <= b.e <= 200,
    ensures
        r.wf(),
        r.value() == rounding::nearest(a.value() * b.value(), rounding::one()),
{
    proof {
        let x = a.m as nat;
        let y = b.m as nat;
        assert(x * y < 0x20_0000_0000_0000 * 0x20_0000_0000_0000) by (nonlinear_arith)
            requires
                0 <= x < 0x20_0000_0000_0000,
                0 <= y < 0x20_0000_0000_0000,
        ;
        let p = pow2((a.e + 1074) as nat);
        let q = pow2((b.e + 1074) as nat);
        let s = pow2((a.e + b.e + 1074) as nat);
        let u = rounding::one();
        lemma_pow2_adds((a.e + 1074) as nat, (b.e + 1074) as nat);
        lemma_pow2_adds((a.e + b.e + 1074) as nat, 1074);
        assert((x * p) * (y * q) == ((x * y) * s) * u) by (nonlinear_arith)
            requires
                p * q == s * u,
        ;
        lemma_pow2_pos(1074);
        rounding::lemma_nearest_scale((x * y) * s, 1, u);
        assert(1 * u == u);
        assert(a.m as nat * b.m as nat == x * y);
    }
    round_ratio(a.m as u128 * b.m as u128, 1, a.e + b.e)
}

/// Whether `a` is the larger number.
fn raw_exceeds(a: Raw, b: Raw) -> (r: bool)
    requires
        a.wf(),
        b.wf(),
    ensures
        r == (a.value() > b.value()),
{
    proof {
        lemma_raw_order(a, b);
        lemma_raw_order(b, a);
        let p = pow2((a.e + 1074) as nat);
        lemma_pow2_pos((a.e + 1074) as nat);
        assert(a.m > b.m ==> a.m as nat * p > b.m as nat * p) by (nonlinear_arith)
            requires
                p > 0,
        ;
        assert(a.m <= b.m ==> a.m as nat * p <= b.m as nat * p) by (nonlinear_arith)
            requires
                p > 0,
        ;
        lemma_raw_zero(a);
        lemma_raw_zero(b);
    }
    if a.m == 0 {
        false
    } else if b.m == 0 {
        true
    } else if a.e == b.e {
        a.m > b.m
    } else {
        a.e > b.e
    }
}

proof fn lemma_raw_zero(a: Raw)
    requires
        a.wf(),
    ensures
        a.m == 0 <==> a.value() == 0,
{
    let p = pow2((a.e + 1074) as nat);
    lemma_pow2_pos((a.e + 1074) as nat);
    assert(a.m == 0 ==> a.m as nat * p == 0) by (nonlinear_arith);
    assert(a.m > 0 ==> a.m as nat * p > 0) by (nonlinear_arith)
        requires
            p > 0,
    ;
}

/// The larger exponent belongs to the larger number.
proof fn lemma_raw_order(a: Raw, b: Raw)
    requires
        a.wf(),
        b.wf(),
    ensures
        a.m > 0 && b.m > 0 && a.e > b.e ==> a.value() > b.value(),
{
    if a.m > 0 && b.m > 0 && a.e > b.e {
        let p = pow2((b.e + 1074) as nat);
        let q = pow2((a.e + 1074) as nat);
        lemma_pow2_pos((b.e + 1074) as nat);
        lemma_pow2_unfold((b.e + 1 + 1074) as nat);
        if a.e > b.e + 1 {
            lemma_pow2_strictly_increases((b.e + 1 + 1074) as nat, (a.e + 1074) as nat);
        }
        assert(a.m as nat * q > b.m as nat * p) by (nonlinear_arith)
            requires
                a.m >= 0x10_0000_0000_0000,
                b.m < 0x20_0000_0000_0000,
                q >= 2 * p,
                p > 0,
        ;
    }
}

/// A binary64 number that is zero or between 2^-64 and 2^64.
#[derive(Clone, Copy, Debug)]
pub struct Binary64 {
    m: u64,
    e: i32,
}

/// 2^64, the largest value that a `Binary64` holds, in units.
pub open spec fn largest() -> nat {
    pow2(1138)
}

/// `to` lies more than 30 above `from` and above 1.8 times `from`, as binary64
/// arithmetic finds it.
pub open spec fn rises(from: nat, to: nat) -> bool {
    &&& to > from
    &&& rounding::nearest((to - from) as nat, 1) > 30 * rounding::one()
    &&& to > rounding::nearest(
        from * rounding::nearest(18 * rounding::one(), 10),
        rounding::one(),
    )
}

/// The running mean `avg * (n - 1) / n + ms / n`, each operation rounded.
pub open spec fn mean_after(avg: nat, n: nat, ms: nat) -> nat {
    let kept = rounding::nearest(rounding::nearest(avg * (n - 1) as nat, 1), n);
    let added = rounding::nearest(rounding::nearest(ms * rounding::one(), 1), n);
    rounding::nearest(kept + added, 1)
}

/// `lost / sent * 100`, each operation rounded; 0 where nothing was sent.
pub open spec fn quotient_percent(lost: nat, sent: nat) -> nat {
    if sent == 0 {
        0
    } else {
        rounding::nearest(rounding::nearest(lost * rounding::one(), sent) * 100, 1)
    }
}

/// `lost * 100 / sent`, rounded; 0 where nothing was sent.
pub open spec fn product_percent(lost: nat, sent: nat) -> nat {
    if sent == 0 {
        0
    } else {
        rounding::nearest((lost * 100) * rounding::one(), sent)
    }
}

/// The number with no decimals, halves to even.
pub open spec fn fixed0(v: nat) -> Seq<char> {
    text::dec(rounding::half_even(v, rounding::one()))
}

/// The number with one decimal, halves to even.
pub open spec fn fixed1(v: nat) -> Seq<char> {
    let tenths = rounding::half_even(10 * v, rounding::one());
    text::dec(tenths / 10) + "."@ + text::dec(tenths % 10)
}

/// The range of a `Binary64`, read off its significand and exponent.
proof fn lemma_fits(a: Raw)
    requires
        a.wf(),
        a.value() == 0 || pow2(1010) <= a.value() <= largest(),
    ensures
        a.m == 0 && a.e == 0 || {
            &&& 0x10_0000_0000_0000 <= a.m < 0x20_0000_0000_0000
            &&& -116 <= a.e <= 12
            &&& a.e == 12 ==> a.m == 0x10_0000_0000_0000
        },
{
    lemma_raw_zero(a);
    if a.m > 0 {
        let j = (a.e + 1074) as nat;
        let p = pow2(j);
        let m = a.m as nat;
        lemma2_to64();
        lemma2_to64_rest();
        if a.e >= 12 {
            lemma_pow2_adds(52, 1086);
            if a.e > 12 {
                lemma_pow2_strictly_increases(1086, j);
            }
            let q = pow2(1086);
            lemma_pow2_pos(1086);
            assert(m * p <= 0x10_0000_0000_0000 * q);
            assert(p <= q && (p == q ==> m <= 0x10_0000_0000_0000)) by (nonlinear_arith)
                requires
                    m * p <= 0x10_0000_0000_0000 * q,
                    m >= 0x10_0000_0000_0000,
                    q > 0,
            ;
        }
        if a.e < -116 {
            lemma_pow2_adds(53, 957);
            if j < 957 {
                lemma_pow2_strictly_increases(j, 957);
            }
            let q = pow2(957);
            lemma_pow2_pos(957);
            lemma_pow2_pos(j);
            assert(m * p < 0x20_0000_0000_0000 * q) by (nonlinear_arith)
                requires
                    p <= q,
                    q > 0,
                    m < 0x20_0000_0000_0000,
            ;
        }
    }
}

/// The range of a `Binary64`, as units.
proof fn lemma_in_range(a: Raw)
    requires
        a.m == 0 && a.e == 0 || {
            &&& 0x10_0000_0000_0000 <= a.m < 0x20_0000_0000_0000
            &&& -116 <= a.e <= 12
            &&& a.e == 12 ==> a.m == 0x10_0000_0000_0000
        },
    ensures
        a.value() == 0 || pow2(1010) <= a.value() <= largest(),
{
    lemma_raw_zero(a);
    if a.m > 0 {
        let j = (a.e + 1074) as nat;
        let p = pow2(j);
        let m = a.m as nat;
        lemma2_to64();
        lemma2_to64_rest();
        lemma_pow2_pos(j);
        lemma_pow2_adds(52, 958);
        if a.e > -116 {
            lemma_pow2_strictly_increases(958, j);
        }
        assert(m * p >= 0x10_0000_0000_0000 * pow2(958)) by (nonlinear_arith)
            requires
                m >= 0x10_0000_0000_0000,
                p >= pow2(958),
        ;
        lemma_pow2_adds(52, 1086);
        if a.e < 12 {
            lemma_pow2_unfold(1086);
            if a.e < 11 {
                lemma_pow2_strictly_increases(j, 1085);
            }
            assert(m * p <= 0x10_0000_0000_0000 * pow2(1086)) by (nonlinear_arith)
                requires
                    m < 0x20_0000_0000_0000,
                    2 * p <= pow2(1086),
            ;
        }
    }
}

/// A quotient of at least 2^j units is not rounded below 2^j units.
proof fn lemma_nearest_floor(num: nat, den: nat, j: nat)
    requires
        den > 0,
        num >= den * pow2(j),
    ensures
        rounding::nearest(num, den) >= pow2(j),
{
    rounding::lemma_nearest_exact(1, j);
    assert(1 * pow2(j) == pow2(j));
    assert(pow2(j) * den == den * pow2(j)) by (nonlinear_arith);
    assert(num * 1 == num);
    rounding::lemma_nearest_monotone(pow2(j), 1, num, den);
}

/// A quotient of at most `k * 2^j` units is not rounded above it.
proof fn lemma_nearest_ceiling(num: nat, den: nat, k: nat, j: nat)
    requires
        den > 0,
        k <= 0x20_0000_0000_0000,
        num <= den * (k * pow2(j)),
    ensures
        rounding::nearest(num, den) <= k * pow2(j),
{
    rounding::lemma_nearest_exact(k, j);
    let b = k * pow2(j);
    assert(b * den == den * b) by (nonlinear_arith);
    assert(num * 1 == num);
    rounding::lemma_nearest_monotone(num, den, b, 1);
}

/// The running mean of samples up to 2^64 stays up to 2^64.
proof fn lemma_mean_bounds(avg: nat, n: nat, ms: nat)
    requires
        avg <= largest(),
        1 <= n < 0x1_0000_0000,
        1 <= ms < 0x1_0000_0000_0000_0000,
    ensures
        pow2(1010) <= mean_after(avg, n, ms) <= largest(),
        rounding::nearest(avg * (n - 1) as nat, 1) <= (n - 1) as nat * largest(),
        rounding::one() <= rounding::nearest(ms * rounding::one(), 1) <= largest(),
{
    let t = largest();
    let u = rounding::one();
    let h = pow2(1085);
    let p = rounding::nearest(avg * (n - 1) as nat, 1);
    let x = rounding::nearest(p, n);
    let f = rounding::nearest(ms * u, 1);
    let y = rounding::nearest(f, n);
    lemma2_to64();
    lemma2_to64_rest();
    lemma_pow2_adds(64, 1074);
    lemma_pow2_adds(53, 1085);
    lemma_pow2_pos(1085);
    lemma_pow2_pos(1074);
    assert(avg * (n - 1) as nat <= (n - 1) as nat * t) by (nonlinear_arith)
        requires
            avg <= t,
            n >= 1,
    ;
    lemma_nearest_ceiling(avg * (n - 1) as nat, 1, (n - 1) as nat, 1138);
    assert(ms * u <= 1 * t) by (nonlinear_arith)
        requires
            ms < 0x1_0000_0000_0000_0000,
            t == 0x1_0000_0000_0000_0000 * u,
            u > 0,
    ;
    lemma_nearest_ceiling(ms * u, 1, 1, 1138);
    assert(ms * u >= u) by (nonlinear_arith)
        requires
            ms >= 1,
    ;
    lemma_nearest_floor(ms * u, 1, 1074);
    // p / n and f / n stay below 2^64 units of one, or equal it where n is 1.
    assert(p < 0x20_0000_0000_0000 * (n * h)) by (nonlinear_arith)
        requires
            p <= (n - 1) * t,
            t == 0x20_0000_0000_0000 * h,
            h > 0,
            n >= 1,
    ;
    rounding::lemma_nearest_error(p, n, 1085);
    if n == 1 {
        assert(avg * 0 == 0);
        rounding::lemma_nearest_exact(0, 0);
        rounding::lemma_nearest_zero(1);
        assert(x == 0);
        assert(f <= 1 * (1 * t));
        lemma_nearest_ceiling(f, 1, 1, 1138);
        assert(y <= t);
    } else {
        assert(f < 0x20_0000_0000_0000 * (n * h)) by (nonlinear_arith)
            requires
                f <= t,
                t == 0x20_0000_0000_0000 * h,
                h > 0,
                n >= 2,
        ;
        rounding::lemma_nearest_error(f, n, 1085);
        assert(x + y <= t + h) by (nonlinear_arith)
            requires
                2 * (n * x) <= 2 * p + n * h,
                2 * (n * y) <= 2 * f + n * h,
                p <= (n - 1) * t,
                f <= t,
                n >= 2,
        ;
    }
    // Half a step above 2^64 rounds down, to the even significand.
    assert(rounding::nearest(t + h, 1) == t) by {
        lemma_pow2_unfold(1086);
        let g = pow2(1086);
        lemma_pow2_adds(52, 1086);
        assert(1 * g == g);
        rounding::lemma_nearest_binade(t + h, 1, 1086);
        assert(g * 0x10_0000_0000_0000 == t) by (nonlinear_arith)
            requires
                0x10_0000_0000_0000 * g == t,
        ;
        rounding::lemma_half_even_tie(t + h, g, 0x10_0000_0000_0000);
    }
    assert((x + y) * 1 <= (t + h) * 1);
    rounding::lemma_nearest_monotone(x + y, 1, t + h, 1);
    // One millisecond over n samples.
    lemma_pow2_adds(32, 1042);
    assert(f >= n * pow2(1042)) by (nonlinear_arith)
        requires
            f >= 0x1_0000_0000 * pow2(1042),
            n < 0x1_0000_0000,
    ;
    lemma_nearest_floor(f, n, 1042);
    assert(x + y >= 1 * pow2(1042));
    lemma_nearest_floor(x + y, 1, 1042);
    lemma_pow2_strictly_increases(1010, 1042);
}

/// A percentage is zero, or at least 2^-32 and at most 100.
proof fn lemma_percent_bounds(lost: nat, sent: nat)
    requires
        lost <= sent,
        0 < sent < 0x1_0000_0000,
    ensures
        lost == 0 ==> quotient_percent(lost, sent) == 0 && product_percent(lost, sent) == 0,
        lost > 0 ==> pow2(1042) <= quotient_percent(lost, sent),
        quotient_percent(lost, sent) <= 100 * rounding::one(),
        lost > 0 ==> pow2(1042) <= product_percent(lost, sent),
        product_percent(lost, sent) <= 100 * rounding::one(),
        100 * rounding::one() <= largest(),
        pow2(1010) <= pow2(1042),
{
    let u = rounding::one();
    let q = rounding::nearest(lost * u, sent);
    lemma2_to64();
    lemma_pow2_strictly_increases(1010, 1042);
    lemma_pow2_adds(64, 1074);
    lemma_pow2_adds(32, 1042);
    lemma_pow2_pos(1042);
    if lost == 0 {
        assert(lost * u == 0 && (lost * 100) * u == 0) by (nonlinear_arith)
            requires
                lost == 0,
        ;
        rounding::lemma_nearest_zero(sent);
        rounding::lemma_nearest_zero(1);
    } else {
        assert(lost * u >= sent * pow2(1042)) by (nonlinear_arith)
            requires
                lost >= 1,
                u == 0x1_0000_0000 * pow2(1042),
                sent < 0x1_0000_0000,
        ;
        lemma_nearest_floor(lost * u, sent, 1042);
        assert(lost * u <= sent * (1 * u)) by (nonlinear_arith)
            requires
                lost <= sent,
        ;
        lemma_nearest_ceiling(lost * u, sent, 1, 1074);
        lemma_nearest_floor(q * 100, 1, 1042);
        lemma_nearest_ceiling(q * 100, 1, 100, 1074);
        assert((lost * 100) * u >= lost * u) by (nonlinear_arith)
            requires
                lost >= 1,
        ;
        lemma_nearest_floor((lost * 100) * u, sent, 1042);
        assert((lost * 100) * u <= sent * (100 * u)) by (nonlinear_arith)
            requires
                lost <= sent,
        ;
        lemma_nearest_ceiling((lost * 100) * u, sent, 100, 1074);
    }
}

impl Binary64 {
    #[verifier::type_invariant]
    spec fn in_range(self) -> bool {
        self.m == 0 && self.e == 0 || {
            &&& 0x10_0000_0000_0000 <= self.m < 0x20_0000_0000_0000
            &&& -116 <= self.e <= 12
            &&& self.e == 12 ==> self.m == 0x10_0000_0000_0000
        }
    }

    /// The number, in units of 2^-1074.
    pub closed spec fn view(&self) -> nat {
        self.m as nat * pow2((self.e + 1074) as nat)
    }

    fn raw(self) -> (r: Raw)
        ensures
            r.wf(),
            r.value() == self@,
            r.m == 0 && r.e == 0 || -116 <= r.e <= 12,
            self@ == 0 || pow2(1010) <= self@ <= largest(),
    {
        proof {
            use_type_invariant(self);
            lemma_in_range(Raw { m: self.m, e: self.e });
        }
        Raw { m: self.m, e: self.e }
    }

    fn from_raw(r: Raw) -> (v: Self)
        requires
            r.wf(),
            r.value() == 0 || pow2(1010) <= r.value() <= largest(),
        ensures
            v@ == r.value(),
    {
        proof {
            lemma_fits(r);
        }
        Binary64 { m: r.m, e: r.e }
    }

    /// Zero.
    pub fn zero() -> (v: Self)
        ensures
            v@ == 0,
    {
        proof {
            assert(0 * pow2(1074) == 0) by (nonlinear_arith);
        }
        Binary64 { m: 0, e: 0 }
    }

    /// The number nearest to the integer `n`.
    pub fn from_integer(n: u64) -> (v: Self)
        ensures
            v@ == rounding::nearest(n as nat * rounding::one(), 1),
            n < 0x20_0000_0000_0000 ==> v@ == n as nat * rounding::one(),
    {
        proof {
            if n < 0x20_0000_0000_0000 {
                rounding::lemma_nearest_exact(n as nat, 1074);
            }
            if n > 0 {
                let u = rounding::one();
                lemma2_to64();
                lemma_pow2_pos(1074);
                lemma_pow2_adds(64, 1074);
                assert(u <= n as nat * u <= 0x1_0000_0000_0000_0000 * u) by (nonlinear_arith)
                    requires
                        1 <= n <= 0x1_0000_0000_0000_0000,
                ;
                lemma_nearest_floor(n as nat * u, 1, 1074);
                lemma_pow2_strictly_increases(1010, 1074);
                lemma_nearest_ceiling(n as nat * u, 1, 1, 1138);
            } else {
                assert(0 * rounding::one() == 0) by (nonlinear_arith);
                rounding::lemma_nearest_zero(1);
            }
        }
        Self::from_raw(round_ratio(n as u128, 1, 0))
    }

    /// The sum of two numbers.
    pub fn plus(self, other: Self) -> (v: Self)
        requires
            self@ + other@ <= largest(),
        ensures
            v@ == rounding::nearest(self@ + other@, 1),
    {
        let a = self.raw();
        let b = other.raw();
        proof {
            let s = self@ + other@;
            if s > 0 {
                lemma_nearest_floor(s, 1, 1010);
                lemma_nearest_ceiling(s, 1, 1, 1138);
            } else {
                rounding::lemma_nearest_zero(1);
            }
        }
        Self::from_raw(raw_sum(a, b))
    }

    /// The number divided by the count `n`.
    pub fn over(self, n: u32) -> (v: Self)
        requires
            n > 0,
            self@ == 0 || self@ >= rounding::one(),
        ensures
            v@ == rounding::nearest(self@, n as nat),
    {
        let a = self.raw();
        proof {
            let d = n as nat;
            let u = rounding::one();
            if self@ > 0 {
                lemma2_to64();
                lemma_pow2_pos(1042);
                lemma_pow2_adds(32, 1042);
                assert(self@ >= d * pow2(1042)) by (nonlinear_arith)
                    requires
                        self@ >= 0x1_0000_0000 * pow2(1042),
                        d < 0x1_0000_0000,
                ;
                lemma_nearest_floor(self@, d, 1042);
                lemma_pow2_strictly_increases(1010, 1042);
                assert(self@ <= d * (1 * largest())) by (nonlinear_arith)
                    requires
                        self@ <= largest(),
                        d >= 1,
                ;
                lemma_nearest_ceiling(self@, d, 1, 1138);
            } else {
                rounding::lemma_nearest_zero(d);
            }
        }
        Self::from_raw(round_ratio(a.m as u128, n as u128, a.e))
    }

    /// `lost / sent * 100`.
    pub fn quotient_percent(lost: u32, sent: u32) -> (v: Self)
        requires
            lost <= sent,
        ensures
            v@ == quotient_percent(lost as nat, sent as nat),
    {
        if sent == 0 {
            return Self::zero();
        }
        let q = round_ratio(lost as u128, sent as u128, 0);
        proof {
            lemma_percent_bounds(lost as nat, sent as nat);
            let p = pow2((q.e + 1074) as nat);
            assert((q.m * 100) as nat * p == (q.m as nat * p) * 100) by (nonlinear_arith);
            assert(q.m * 100 < 0x2000_0000_0000_0000_0000_0000_0000_0000);
        }
        Self::from_raw(round_ratio(q.m as u128 * 100, 1, q.e))
    }

    /// `lost * 100 / sent`.
    pub fn product_percent(lost: u32, sent: u32) -> (v: Self)
        requires
            lost <= sent,
        ensures
            v@ == product_percent(lost as nat, sent as nat),
    {
        if sent == 0 {
            return Self::zero();
        }
        proof {
            lemma_percent_bounds(lost as nat, sent as nat);
        }
        Self::from_raw(round_ratio(lost as u128 * 100, sent as u128, 0))
    }

    /// The mean of `n` samples, from the mean of the first `n - 1` and the last.
    pub fn mean_after(self, n: u32, ms: u64) -> (v: Self)
        requires
            n >= 1,
            ms >= 1,
        ensures
            v@ == mean_after(self@, n as nat, ms as nat),
    {
        let a = self.raw();
        proof {
            lemma_mean_bounds(self@, n as nat, ms as nat);
            let p = pow2((a.e + 1074) as nat);
            let k = (n - 1) as nat;
            assert((a.m as nat * k) * p == (a.m as nat * p) * k) by (nonlinear_arith);
            assert(a.m as nat * k < 0x2000_0000_0000_0000_0000_0000_0000_0000) by (nonlinear_arith)
                requires
                    a.m < 0x20_0000_0000_0000,
                    0 <= k < 0x1_0000_0000,
            ;
        }
        let scaled = round_ratio(a.m as u128 * (n - 1) as u128, 1, a.e);
        let kept = round_ratio(scaled.m as u128, n as u128, scaled.e);
        let sample = round_ratio(ms as u128, 1, 0);
        let added = round_ratio(sample.m as u128, n as u128, sample.e);
        Self::from_raw(raw_sum(kept, added))
    }

    /// Whether the number is greater than `k`.
    pub fn exceeds(self, k: u32) -> (r: bool)
        ensures
            r == (self@ > k as nat * rounding::one()),
    {
        let bound = Self::from_integer(k as u64);
        let a = self.raw();
        let b = bound.raw();
        raw_exceeds(a, b)
    }

    /// Whether the number is less than `k`.
    pub fn below(self, k: u32) -> (r: bool)
        ensures
            r == (self@ < k as nat * rounding::one()),
    {
        let bound = Self::from_integer(k as u64);
        let a = self.raw();
        let b = bound.raw();
        raw_exceeds(b, a)
    }

    /// Whether the step from `self` to `to` is a sharp rise.
    pub fn rises_to(self, to: Self) -> (r: bool)
        ensures
            r == rises(self@, to@),
    {
        let a = self.raw();
        let b = to.raw();
        if !raw_exceeds(b, a) {
            return false;
        }
        proof {
            lemma_raw_zero(a);
            lemma_raw_zero(b);
            lemma_raw_order(a, b);
        }
        let gap = raw_difference(b, a);
        let thirty = Self::from_integer(30).raw();
        let factor = round_ratio(18, 10, 0);
        let scaled = raw_product(a, factor);
        raw_exceeds(gap, thirty) && raw_exceeds(b, scaled)
    }

    /// `k` times the number, rounded to an integer, halves to even.
    fn rounded(self, k: u32) -> (r: u128)
        requires
            1 <= k <= 10,
        ensures
            r == rounding::half_even(k as nat * self@, rounding::one()),
    {
        let a = self.raw();
        assert(a.m * k < 0x20_0000_0000_0000 * 16) by (nonlinear_arith)
            requires
                a.m < 0x20_0000_0000_0000,
                k <= 10,
        ;
        let num: u128 = a.m as u128 * k as u128;
        proof {
            lemma_pow2_pos(1074);
            lemma_raw_zero(a);
        }
        if a.e >= 0 {
            let whole: u128 = shifted(a.m, a.e as u32);
            proof {
                lemma_shift_small(a.m, a.e as nat);
                lemma_pow2_adds(a.e as nat, 1074);
                let p = pow2(a.e as nat);
                let u = rounding::one();
                let w = (whole * k) as nat;
                assert(k as nat * (a.m as nat * (p * u)) == u * w) by (nonlinear_arith)
                    requires
                        w == (a.m as nat * p) * k as nat,
                ;
                rounding::lemma_half_even_is(k as nat * self@, u, w);
                assert(whole * k < 0x20_0000_0000_0000_0000 * 16) by (nonlinear_arith)
                    requires
                        whole < 0x20_0000_0000_0000_0000,
                        k <= 10,
                ;
            }
            whole * k as u128
        } else {
            let den: u128 = power((-a.e) as u32);
            proof {
                let c = pow2((1074 + a.e) as nat);
                lemma_pow2_pos((1074 + a.e) as nat);
                lemma_pow2_pos((-a.e) as nat);
                lemma_pow2_adds((-a.e) as nat, (1074 + a.e) as nat);
                rounding::lemma_half_even_scale(num as nat, den as nat, c);
                assert(num as nat * c == k as nat * (a.m as nat * c)) by (nonlinear_arith)
                    requires
                        num == a.m as nat * k as nat,
                ;
            }
            proof {
                lemma_div_nonincreasing(num as int, den as int);
            }
            let q = num / den;
            let rem = num % den;
            if rem * 2 < den || (rem * 2 == den && q % 2 == 0) {
                q
            } else {
                q + 1
            }
        }
    }

    /// The number with no decimals.
    pub fn fixed0(self) -> (t: String)
        ensures
            t@ == fixed0(self@),
    {
        text::decimal(self.rounded(1))
    }

    /// The number with one decimal.
    pub fn fixed1(self) -> (t: String)
        ensures
            t@ == fixed1(self@),
    {
        let tenths = self.rounded(10);
        let mut t = text::decimal(tenths / 10);
        t.append(".");
        t.append(text::decimal(tenths % 10).as_str());
        t
    }
}

impl Default for Binary64 {
    fn default() -> (v: Self)
        ensures
            v@ == 0,
    {
        Binary64::zero()
    }
}

/// `2^d`.
fn power(d: u32) -> (r: u128)
    requires
        d <= 116,
    ensures
        r == pow2(d as nat),
        r <= 0x10_0000_0000_0000_0000_0000_0000_0000,
{
    let mut r: u128 = 1;
    let mut i: u32 = 0;
    proof {
        lemma2_to64();
    }
    while i < d
        invariant
            i <= d <= 116,
            r == pow2(i as nat),
            r <= 0x10_0000_0000_0000_0000_0000_0000_0000,
        decreases d - i,
    {
        proof {
            lemma_pow2_unfold((i + 1) as nat);
            assert(pow2(116) == 0x10_0000_0000_0000_0000_0000_0000_0000nat) by {
                lemma2_to64();
                lemma2_to64_rest();
                lemma_pow2_adds(64, 52);
            }
            if i + 1 < 116 {
                lemma_pow2_strictly_increases((i + 1) as nat, 116);
            }
        }
        r = r * 2;
        i = i + 1;
    }
    r
}

proof fn lemma_shift_small(m: u64, d: nat)
    requires
        m < 0x20_0000_0000_0000,
        d <= 12,
    ensures
        m as nat * pow2(d) < 0x20_0000_0000_0000_0000,
{
    lemma2_to64();
    if d < 12 {
        lemma_pow2_strictly_increases(d, 12);
    }
    lemma_pow2_pos(d);
    assert(m as nat * pow2(d) < 0x20_0000_0000_0000 * 0x1000) by (nonlinear_arith)
        requires
            m < 0x20_0000_0000_0000,
            0 < pow2(d) <= 0x1000,
    ;
}

/// A share of less than all is less than 100 percent, however it is rounded.
proof fn lemma_percent_below(lost: nat, sent: nat)
    requires
        lost < sent,
        0 < sent < 0x1_0000_0000,
    ensures
        quotient_percent(lost, sent) < 100 * rounding::one(),
        product_percent(lost, sent) < 100 * rounding::one(),
{
    let u = rounding::one();
    let p = pow2(1042);
    let k = 0xffff_ffffnat;
    let q = rounding::nearest(lost * u, sent);
    lemma2_to64();
    lemma_pow2_adds(32, 1042);
    lemma_pow2_pos(1042);
    assert(lost * u <= sent * (k * p)) by (nonlinear_arith)
        requires
            lost + 1 <= sent,
            sent <= 0xffff_ffff,
            k == 0xffff_ffff,
            u == 0x1_0000_0000 * p,
            p > 0,
    ;
    lemma_nearest_ceiling(lost * u, sent, k, 1042);
    let c = k * 100;
    assert(q * 100 <= 1 * (c * p)) by (nonlinear_arith)
        requires
            q <= k * p,
            c == k * 100,
    ;
    lemma_nearest_ceiling(q * 100, 1, c, 1042);
    assert((lost * 100) * u <= sent * (c * p)) by (nonlinear_arith)
        requires
            lost * u <= sent * (k * p),
            c == k * 100,
    ;
    lemma_nearest_ceiling((lost * 100) * u, sent, c, 1042);
    assert(c * p < 100 * u) by (nonlinear_arith)
        requires
            c == 0xffff_ffff * 100,
            u == 0x1_0000_0000 * p,
            p > 0,
    ;
}

/// A share in percent lies between 0 and 100, whichever way it is computed. It is 0
/// exactly where nothing is lost, and 100 exactly where all is.
pub proof fn law_percent(lost: nat, sent: nat)
    requires
        lost <= sent,
        0 < sent <= u32::MAX,
    ensures
        quotient_percent(lost, sent) <= 100 * rounding::one(),
        product_percent(lost, sent) <= 100 * rounding::one(),
        quotient_percent(lost, sent) == 0 <==> lost == 0,
        product_percent(lost, sent) == 0 <==> lost == 0,
        quotient_percent(lost, sent) == 100 * rounding::one() <==> lost == sent,
        product_percent(lost, sent) == 100 * rounding::one() <==> lost == sent,
{
    let u = rounding::one();
    lemma_percent_bounds(lost, sent);
    lemma_pow2_pos(1042);
    lemma_pow2_pos(1074);
    if lost < sent {
        lemma_percent_below(lost, sent);
    } else {
        assert(lost * u == u * sent && (lost * 100) * u == (100 * u) * sent && 1 * sent == sent)
            by (nonlinear_arith)
            requires
                lost == sent,
        ;
        rounding::lemma_nearest_scale(u, 1, sent);
        rounding::lemma_nearest_scale(100 * u, 1, sent);
        rounding::lemma_nearest_exact(1, 1074);
        rounding::lemma_nearest_exact(100, 1074);
        assert(u * 100 == 100 * u);
    }
}

/// A fifth, a tenth and a twentieth, times 100, come back to 20, 10 and 5.
proof fn lemma_percent_exact(den: nat, j: nat)
    requires
        den == 20 && j == 1017 || den == 10 && j == 1018 || den == 5 && j == 1019,
    ensures
        rounding::nearest(rounding::nearest(rounding::one(), den) * 100, 1) == (100nat / den)
            * rounding::one(),
{
    let u = rounding::one();
    let p = pow2(j);
    let m = 7205759403792794nat;
    lemma2_to64();
    lemma_pow2_pos(j);
    lemma_pow2_adds(7, j);
    lemma_pow2_adds((1074 - j) as nat, j);
    let k = pow2((1074 - j) as nat);
    assert(k == if den == 20 {
        0x200_0000_0000_0000nat
    } else if den == 10 {
        0x100_0000_0000_0000nat
    } else {
        0x80_0000_0000_0000nat
    }) by {
        lemma2_to64_rest();
    }
    assert(0x10_0000_0000_0000 * (den * p) <= u < 0x20_0000_0000_0000 * (den * p)) by (nonlinear_arith)
        requires
            u == k * p,
            p > 0,
            0x10_0000_0000_0000 * den <= k < 0x20_0000_0000_0000 * den,
    ;
    rounding::lemma_nearest_binade(u, den, j);
    rounding::lemma_half_even_scale(k, den, p);
    rounding::lemma_half_even_is(k, den, m);
    assert(rounding::nearest(u, den) == p * m);
    let v = (p * m) * 100;
    let w = 100 * m;
    let q = pow2(j + 7);
    assert(v == w * p) by (nonlinear_arith)
        requires
            v == (p * m) * 100,
            w == 100 * m,
    ;
    assert(q == 128 * p);
    assert(1 * q == q);
    assert(0x10_0000_0000_0000 * q <= v < 0x20_0000_0000_0000 * q) by (nonlinear_arith)
        requires
            v == w * p,
            q == 128 * p,
            p > 0,
            w == 720575940379279400,
    ;
    rounding::lemma_nearest_binade(v, 1, j + 7);
    rounding::lemma_half_even_scale(w, 128, p);
    rounding::lemma_half_even_is(w, 128, 5629499534213120);
    let c = 100nat / den;
    assert(128 * 5629499534213120 == c * k);
    assert(q * 5629499534213120 == c * u) by (nonlinear_arith)
        requires
            q == 128 * p,
            u == k * p,
            128 * 5629499534213120 == c * k,
    ;
}

/// Half of the number one, times 100, is 50.
proof fn lemma_half_exact()
    ensures
        rounding::nearest(rounding::nearest(rounding::one(), 2) * 100, 1) == 50 * rounding::one(),
{
    let u = rounding::one();
    let h = pow2(1073);
    lemma_pow2_unfold(1074);
    rounding::lemma_nearest_scale(h, 1, 2);
    rounding::lemma_nearest_exact(1, 1073);
    rounding::lemma_nearest_exact(50, 1074);
    assert(h * 2 == u && h * 100 == 50 * u && 1 * h == h);
}

/// A share is compared with a whole percentage as the counts compare: `lost` of
/// `sent` reach `k` percent exactly where `100 * lost >= k * sent`, and exceed it
/// exactly where `100 * lost > k * sent`. The percentages are those that a diagnosis
/// asks for.
pub proof fn law_percent_compares_as_counts(lost: nat, sent: nat, k: nat)
    requires
        lost <= sent,
        0 < sent <= u32::MAX,
        k == 5 || k == 10 || k == 20 || k == 50,
    ensures
        product_percent(lost, sent) >= k * rounding::one() <==> 100 * lost >= k * sent,
        product_percent(lost, sent) > k * rounding::one() <==> 100 * lost > k * sent,
        quotient_percent(lost, sent) >= k * rounding::one() <==> 100 * lost >= k * sent,
        quotient_percent(lost, sent) > k * rounding::one() <==> 100 * lost > k * sent,
{
    let u = rounding::one();
    let a = 100 * lost;
    let b = k * sent;
    let pp = product_percent(lost, sent);
    let q = rounding::nearest(lost * u, sent);
    let r = quotient_percent(lost, sent);
    let t = 0x20_0000_0000_0000nat;
    lemma2_to64();
    lemma2_to64_rest();
    lemma_pow2_adds(10, 1064);
    lemma_pow2_adds(64, 1010);
    lemma_pow2_pos(1010);
    lemma_pow2_pos(1074);
    assert((lost * 100) * u == a * u);
    // exactly k
    rounding::lemma_nearest_exact(k, 1074);
    let d = 100nat / k;
    if k == 50 {
        lemma_half_exact();
    } else if k == 20 {
        lemma_percent_exact(5, 1019);
    } else if k == 10 {
        lemma_percent_exact(10, 1018);
    } else {
        lemma_percent_exact(20, 1017);
    }
    let f = rounding::nearest(u, d);
    assert(rounding::nearest(f * 100, 1) == k * u);
    if a >= b {
        assert((k * u) * sent <= (a * u) * 1) by (nonlinear_arith)
            requires
                a >= b,
                b == k * sent,
        ;
        rounding::lemma_nearest_monotone(k * u, 1, a * u, sent);
        assert(lost * d >= sent) by (nonlinear_arith)
            requires
                100 * lost >= k * sent,
                k * d == 100,
                k > 0,
        ;
        assert(u * sent <= (lost * u) * d) by (nonlinear_arith)
            requires
                lost * d >= sent,
        ;
        rounding::lemma_nearest_monotone(u, d, lost * u, sent);
        assert((f * 100) * 1 <= (q * 100) * 1);
        rounding::lemma_nearest_monotone(f * 100, 1, q * 100, 1);
    }
    if a <= b {
        assert((a * u) * 1 <= (k * u) * sent) by (nonlinear_arith)
            requires
                a <= b,
                b == k * sent,
        ;
        rounding::lemma_nearest_monotone(a * u, sent, k * u, 1);
        assert(lost * d <= sent) by (nonlinear_arith)
            requires
                100 * lost <= k * sent,
                k * d == 100,
                k > 0,
        ;
        assert((lost * u) * d <= u * sent) by (nonlinear_arith)
            requires
                lost * d <= sent,
        ;
        rounding::lemma_nearest_monotone(lost * u, sent, u, d);
        assert((q * 100) * 1 <= (f * 100) * 1);
        rounding::lemma_nearest_monotone(q * 100, 1, f * 100, 1);
    }
    if lost == 0 {
        rounding::lemma_nearest_zero(sent);
        rounding::lemma_nearest_zero(1);
        assert(lost * u == 0 && a * u == 0) by (nonlinear_arith)
            requires
                lost == 0,
                a == 0,
        ;
        assert(b > 0) by (nonlinear_arith)
            requires
                b == k * sent,
                k > 0,
                sent > 0,
        ;
    } else {
        let w = pow2(64);
        let z = pow2(1010);
        assert(u == 0x1_0000_0000_0000_0000 * z);
        assert(0x10_0000_0000_0000 * sent <= lost * u && 0x10_0000_0000_0000 * sent <= a * u
            && 0x10_0000_0000_0000 * sent <= a * u) by {
            lemma_pow2_strictly_increases(32, 1010);
            assert(0x10_0000_0000_0000 * sent <= 1 * u) by (nonlinear_arith)
                requires
                    u == 0x1_0000_0000_0000_0000 * z,
                    z > 0x1_0000_0000,
                    sent < 0x1_0000_0000,
            ;
            assert(1 * u <= lost * u && 1 * u <= a * u) by (nonlinear_arith)
                requires
                    lost >= 1,
                    a == 100 * lost,
            ;
        }
        rounding::lemma_nearest_relative(a * u, sent);
        rounding::lemma_nearest_relative(lost * u, sent);
        assert(0x10_0000_0000_0000 <= q * 100) by {
            lemma_pow2_strictly_increases(32, 1010);
            let x = 0x40_0000_0000_0000nat;
            assert((x * sent) <= lost * u) by (nonlinear_arith)
                requires
                    u == 0x1_0000_0000_0000_0000 * z,
                    z > 0x1_0000_0000,
                    sent < 0x1_0000_0000,
                    lost >= 1,
                    x == 0x40_0000_0000_0000,
            ;
            assert(sent * q >= 0x20_0000_0000_0000 * sent) by (nonlinear_arith)
                requires
                    0x1f_ffff_ffff_ffff * (lost * u) <= 0x20_0000_0000_0000 * (sent * q),
                    x * sent <= lost * u,
                    x == 0x40_0000_0000_0000,
            ;
            assert(q >= 0x20_0000_0000_0000) by (nonlinear_arith)
                requires
                    sent * q >= 0x20_0000_0000_0000 * sent,
                    sent > 0,
            ;
        }
        assert(0x10_0000_0000_0000 * 1 <= q * 100);
        rounding::lemma_nearest_relative(q * 100, 1);
        assert(1 * r == r);
        assert(b < 0x40_0000_0000) by (nonlinear_arith)
            requires
                b == k * sent,
                k <= 50,
                sent < 0x1_0000_0000,
        ;
        let ku = k * u;
        assert(sent * ku == b * u) by (nonlinear_arith)
            requires
                ku == k * u,
                b == k * sent,
        ;
        assert(a * u == 100 * (lost * u)) by (nonlinear_arith)
            requires
                a == 100 * lost,
        ;
        if a < b {
            assert(t * (sent * pp) < t * (b * u)) by (nonlinear_arith)
                requires
                    t * (sent * pp) <= 0x20_0000_0000_0001 * (a * u),
                    a + 1 <= b,
                    b < 0x40_0000_0000,
                    t == 0x20_0000_0000_0000,
                    u > 0,
            ;
            assert(pp < ku) by (nonlinear_arith)
                requires
                    t * (sent * pp) < t * (b * u),
                    sent * ku == b * u,
                    t > 0,
            ;
            lemma_two_roundings_below(t, sent, q, r, lost * u, a * u, b * u, u, a, b);
            assert(r < ku) by (nonlinear_arith)
                requires
                    sent * r < b * u,
                    sent * ku == b * u,
            ;
        }
        if a > b {
            assert(t * (sent * pp) > t * (b * u)) by (nonlinear_arith)
                requires
                    t * (sent * pp) >= 0x1f_ffff_ffff_ffff * (a * u),
                    a >= b + 1,
                    b < 0x40_0000_0000,
                    t == 0x20_0000_0000_0000,
                    u > 0,
            ;
            assert(pp > ku) by (nonlinear_arith)
                requires
                    t * (sent * pp) > t * (b * u),
                    sent * ku == b * u,
                    t > 0,
            ;
            lemma_two_roundings_above(t, sent, q, r, lost * u, a * u, b * u, u, a, b);
            assert(r > ku) by (nonlinear_arith)
                requires
                    sent * r > b * u,
                    sent * ku == b * u,
            ;
        }
    }
}

proof fn lemma_two_roundings_below(
    t: nat,
    sent: nat,
    q: nat,
    r: nat,
    lu: nat,
    au: nat,
    bu: nat,
    u: nat,
    a: nat,
    b: nat,
)
    requires
        t == 0x20_0000_0000_0000,
        t * (sent * q) <= 0x20_0000_0000_0001 * lu,
        t * r <= 0x20_0000_0000_0001 * (q * 100),
        au == 100 * lu,
        au == a * u,
        bu == b * u,
        a + 1 <= b,
        b < 0x40_0000_0000,
        u > 0,
    ensures
        sent * r < bu,
{
    let t1 = 0x20_0000_0000_0001nat;
    assert(t * (sent * r) <= t1 * (100 * (sent * q))) by (nonlinear_arith)
        requires
            t * r <= t1 * (q * 100),
    ;
    assert(t * (t * (sent * r)) <= t1 * (t1 * au)) by (nonlinear_arith)
        requires
            t * (sent * r) <= t1 * (100 * (sent * q)),
            t * (sent * q) <= t1 * lu,
            au == 100 * lu,
            t == 0x20_0000_0000_0000,
            t1 == 0x20_0000_0000_0001,
    ;
    assert(t1 * (t1 * a) < t * (t * b)) by (nonlinear_arith)
        requires
            a + 1 <= b,
            b < 0x40_0000_0000,
            t == 0x20_0000_0000_0000,
            t1 == 0x20_0000_0000_0001,
    ;
    assert(t1 * (t1 * au) < t * (t * bu)) by (nonlinear_arith)
        requires
            t1 * (t1 * a) < t * (t * b),
            au == a * u,
            bu == b * u,
            u > 0,
    ;
    assert(sent * r < bu) by (nonlinear_arith)
        requires
            t * (t * (sent * r)) < t * (t * bu),
            t == 0x20_0000_0000_0000,
    ;
}

proof fn lemma_two_roundings_above(
    t: nat,
    sent: nat,
    q: nat,
    r: nat,
    lu: nat,
    au: nat,
    bu: nat,
    u: nat,
    a: nat,
    b: nat,
)
    requires
        t == 0x20_0000_0000_0000,
        t * (sent * q) >= 0x1f_ffff_ffff_ffff * lu,
        t * r >= 0x1f_ffff_ffff_ffff * (q * 100),
        au == 100 * lu,
        au == a * u,
        bu == b * u,
        a >= b + 1,
        b < 0x40_0000_0000,
        u > 0,
    ensures
        sent * r > bu,
{
    let t1 = 0x1f_ffff_ffff_ffffnat;
    assert(t * (sent * r) >= t1 * (100 * (sent * q))) by (nonlinear_arith)
        requires
            t * r >= t1 * (q * 100),
    ;
    assert(t * (t * (sent * r)) >= t1 * (t1 * au)) by (nonlinear_arith)
        requires
            t * (sent * r) >= t1 * (100 * (sent * q)),
            t * (sent * q) >= t1 * lu,
            au == 100 * lu,
            t == 0x20_0000_0000_0000,
            t1 == 0x1f_ffff_ffff_ffff,
    ;
    assert(t1 * (t1 * a) > t * (t * b)) by (nonlinear_arith)
        requires
            a >= b + 1,
            b < 0x40_0000_0000,
            t == 0x20_0000_0000_0000,
            t1 == 0x1f_ffff_ffff_ffff,
    ;
    assert(t1 * (t1 * au) > t * (t * bu)) by (nonlinear_arith)
        requires
            t1 * (t1 * a) > t * (t * b),
            au == a * u,
            bu == b * u,
            u > 0,
    ;
    assert(sent * r > bu) by (nonlinear_arith)
        requires
            t * (t * (sent * r)) > t * (t * bu),
            t == 0x20_0000_0000_0000,
    ;
}

/// A number is shown without decimals as the whole number nearest to it; of two that
/// are equally near, as the even one.
pub proof fn law_shown_as_nearest_whole(v: nat)
    ensures
        exists|n: nat|
            {
                &&& fixed0(v) == #[trigger] text::dec(n)
                &&& 2 * v <= 2 * (n * pow2(1074)) + pow2(1074)
                &&& 2 * (n * pow2(1074)) <= 2 * v + pow2(1074)
                &&& (2 * v == 2 * (n * pow2(1074)) + pow2(1074) || 2 * (n * pow2(1074)) == 2 * v
                    + pow2(1074)) ==> n % 2 == 0
            },
{
    lemma_nearest_whole(v);
    assert(fixed0(v) == text::dec(rounding::half_even(v, rounding::one())));
}

/// The whole number nearest to `v`, halves to even.
proof fn lemma_nearest_whole(v: nat)
    ensures
        ({
            let u = pow2(1074);
            let n = rounding::half_even(v, u);
            &&& 2 * v <= 2 * (n * u) + u
            &&& 2 * (n * u) <= 2 * v + u
            &&& (2 * v == 2 * (n * u) + u || 2 * (n * u) == 2 * v + u) ==> n % 2 == 0
        }),
{
    let u = pow2(1074);
    lemma_pow2_pos(1074);
    rounding::lemma_half_even_bounds(v, u);
    let n = rounding::half_even(v, u);
    assert(u * n == n * u) by (nonlinear_arith);
    let q = v / u;
    let r = v % u;
    lemma_fundamental_div_mod(v as int, u as int);
    assert(u * (q + 1) == u * q + u) by (nonlinear_arith);
}

/// A number is shown with one decimal as the tenth nearest to it; of two that are
/// equally near, as the even one.
pub proof fn law_shown_as_nearest_tenth(v: nat)
    ensures
        exists|n: nat|
            {
                &&& fixed1(v) == #[trigger] text::dec(n / 10) + "."@ + text::dec(n % 10)
                &&& 20 * v <= 2 * (n * pow2(1074)) + pow2(1074)
                &&& 2 * (n * pow2(1074)) <= 20 * v + pow2(1074)
                &&& (20 * v == 2 * (n * pow2(1074)) + pow2(1074) || 2 * (n * pow2(1074)) == 20 * v
                    + pow2(1074)) ==> n % 2 == 0
            },
{
    lemma_nearest_whole(10 * v);
    let n = rounding::half_even(10 * v, rounding::one());
    assert(fixed1(v) == text::dec(n / 10) + "."@ + text::dec(n % 10));
}

/// The number nearest to 1.8 lies a little above it.
proof fn lemma_nine_fifths()
    ensures
        rounding::nearest(18 * rounding::one(), 10) == pow2(1022) * 8106479329266893,
{
    let u = rounding::one();
    let p = pow2(1022);
    lemma2_to64();
    lemma2_to64_rest();
    lemma_pow2_pos(1022);
    lemma_pow2_adds(52, 1022);
    let k = 18 * 0x10_0000_0000_0000nat;
    assert(18 * u == k * p) by (nonlinear_arith)
        requires
            u == 0x10_0000_0000_0000 * p,
            k == 18 * 0x10_0000_0000_0000nat,
    ;
    assert(0x10_0000_0000_0000 * (10 * p) <= 18 * u < 0x20_0000_0000_0000 * (10 * p));
    rounding::lemma_nearest_binade(18 * u, 10, 1022);
    rounding::lemma_half_even_scale(k, 10, p);
    rounding::lemma_half_even_is(k, 10, 8106479329266893);
}

/// A larger number behind, or a smaller one before, makes a rise no less of one.
pub proof fn law_rise_is_monotone(from: nat, to: nat, less: nat, more: nat)
    requires
        rises(from, to),
        less <= from,
        to <= more,
    ensures
        rises(less, more),
{
    let u = rounding::one();
    lemma_pow2_pos(1074);
    let f = rounding::nearest(18 * u, 10);
    rounding::lemma_nearest_monotone((to - from) as nat, 1, (more - less) as nat, 1);
    assert((less * f) * u <= (from * f) * u) by (nonlinear_arith)
        requires
            less <= from,
    ;
    rounding::lemma_nearest_monotone(less * f, u, from * f, u);
}

/// Between whole numbers, a rise is one of more than 30 that is also more than four
/// fifths of where it starts.
pub proof fn law_rise_of_whole_numbers(a: nat, b: nat)
    requires
        a <= u32::MAX,
        b <= u32::MAX,
    ensures
        rises(a * pow2(1074), b * pow2(1074)) <==> b > a + 30 && 10 * b > 18 * a,
{
    let u = rounding::one();
    let p = pow2(1022);
    let m = 8106479329266893nat;
    let f = p * m;
    lemma_nine_fifths();
    lemma2_to64();
    lemma2_to64_rest();
    lemma_pow2_pos(1074);
    lemma_pow2_pos(1022);
    lemma_pow2_adds(52, 1022);
    assert(u == 0x10_0000_0000_0000 * p);
    let x = rounding::nearest((a * u) * f, u);
    assert((a * u) * f == (a * f) * u && 1 * u == u) by (nonlinear_arith);
    rounding::lemma_nearest_scale(a * f, 1, u);
    assert(x == rounding::nearest(a * f, 1));
    assert(b > a <==> b * u > a * u) by (nonlinear_arith)
        requires
            u > 0,
    ;
    if b > a {
        let d = (b - a) as nat;
        assert(b * u - a * u == d * u) by (nonlinear_arith)
            requires
                b == a + d,
        ;
        rounding::lemma_nearest_exact(d, 1074);
        assert(d > 30 <==> d * u > 30 * u) by (nonlinear_arith)
            requires
                u > 0,
        ;
    }
    if 10 * b <= 18 * a {
        rounding::lemma_nearest_exact(b, 1074);
        assert(b * u <= a * f) by (nonlinear_arith)
            requires
                10 * b <= 18 * a,
                f == p * m,
                u == 0x10_0000_0000_0000 * p,
                m == 8106479329266893,
                p > 0,
        ;
        assert((b * u) * 1 <= (a * f) * 1);
        rounding::lemma_nearest_monotone(b * u, 1, a * f, 1);
    } else if a == 0 {
        assert(a * f == 0) by (nonlinear_arith)
            requires
                a == 0,
        ;
        rounding::lemma_nearest_zero(1);
        assert(b * u > 0) by (nonlinear_arith)
            requires
                b > 0,
                u > 0,
        ;
    } else {
        assert(a * f >= 0x10_0000_0000_0000 * 1) by (nonlinear_arith)
            requires
                a >= 1,
                f == p * m,
                p >= 1,
                m == 8106479329266893,
        ;
        rounding::lemma_nearest_relative(a * f, 1);
        let t = 0x20_0000_0000_0000nat;
        assert(1 * x == x);
        let e = a * m;
        assert(a * f == e * p) by (nonlinear_arith)
            requires
                f == p * m,
                e == a * m,
        ;
        let g = b * 0x10_0000_0000_0000;
        assert(b * u == g * p) by (nonlinear_arith)
            requires
                u == 0x10_0000_0000_0000 * p,
                g == b * 0x10_0000_0000_0000,
        ;
        assert(0x20_0000_0000_0001 * e < t * g) by (nonlinear_arith)
            requires
                e == a * m,
                g == b * 0x10_0000_0000_0000,
                10 * b >= 18 * a + 2,
                a <= 0xffff_ffff,
                t == 0x20_0000_0000_0000,
                m == 8106479329266893,
        ;
        assert(t * x < t * (g * p)) by (nonlinear_arith)
            requires
                t * x <= 0x20_0000_0000_0001 * (e * p),
                0x20_0000_0000_0001 * e < t * g,
                p > 0,
        ;
        assert(x < g * p) by (nonlinear_arith)
            requires
                t * x < t * (g * p),
                t > 0,
        ;
    }
}

/// The running mean is right up to a share of 2^-50.
pub proof fn lemma_mean_relative(avg: nat, n: nat, ms: nat)
    requires
        0 < n <= u32::MAX,
        ms > 0,
        avg == 0 || avg >= rounding::one(),
    ensures
        ({
            let exact = avg * (n - 1) as nat + ms * rounding::one();
            let t = n * mean_after(avg, n, ms);
            &&& 0x4_0000_0000_0000 * t <= 0x4_0000_0000_0001 * exact
            &&& 0x3_ffff_ffff_ffff * exact <= 0x4_0000_0000_0000 * t
        }),
{
    let u = rounding::one();
    let a = avg * (n - 1) as nat;
    let b = ms * u;
    lemma2_to64();
    lemma2_to64_rest();
    lemma_pow2_adds(64, 1010);
    lemma_pow2_strictly_increases(64, 1010);
    assert(u >= 0x1_0000_0000_0000_0000 * 0x1_0000_0000_0000_0000) by (nonlinear_arith)
        requires
            u == 0x1_0000_0000_0000_0000 * pow2(1010),
            pow2(1010) >= 0x1_0000_0000_0000_0000,
    ;
    assert(a == 0 || a >= u) by (nonlinear_arith)
        requires
            a == avg * (n - 1) as nat,
            n >= 1,
            avg == 0 || avg >= u,
    ;
    assert(b >= u) by (nonlinear_arith)
        requires
            b == ms * u,
            ms >= 1,
    ;
    let kept = rounding::nearest(rounding::nearest(a, 1), n);
    let added = rounding::nearest(rounding::nearest(b, 1), n);
    lemma_twice_rounded(a, n);
    lemma_twice_rounded(b, n);
    let s = kept + added;
    let r = rounding::nearest(s, 1);
    let t = 0x20_0000_0000_0000nat;
    assert(added >= 0x10_0000_0000_0000) by (nonlinear_arith)
        requires
            n * added * 0x8_0000_0000_0000 >= 0x7_ffff_ffff_ffff * b,
            b >= u,
            u >= 0x1_0000_0000_0000_0000 * 0x1_0000_0000_0000_0000,
            0 < n <= 0xffff_ffff,
    ;
    assert(0x10_0000_0000_0000 * 1 <= s);
    rounding::lemma_nearest_relative(s, 1);
    assert(1 * r == r);
    let e = a + b;
    assert(n * s == n * kept + n * added) by (nonlinear_arith)
        requires
            s == kept + added,
    ;
    let ns = n * s;
    let nr = n * r;
    let k = 0x8_0000_0000_0000nat;
    assert(k * ns <= 0x8_0000_0000_0001 * e && k * ns >= 0x7_ffff_ffff_ffff * e) by (nonlinear_arith)
        requires
            ns == n * kept + n * added,
            e == a + b,
            n * kept * k <= 0x8_0000_0000_0001 * a,
            n * added * k <= 0x8_0000_0000_0001 * b,
            n * kept * k >= 0x7_ffff_ffff_ffff * a,
            n * added * k >= 0x7_ffff_ffff_ffff * b,
    ;
    assert(t * nr <= 0x20_0000_0000_0001 * ns && t * nr >= 0x1f_ffff_ffff_ffff * ns)
        by (nonlinear_arith)
        requires
            ns == n * s,
            nr == n * r,
            t * r <= 0x20_0000_0000_0001 * s,
            t * r >= 0x1f_ffff_ffff_ffff * s,
    ;
    assert(0x4_0000_0000_0000 * nr <= 0x4_0000_0000_0001 * e && 0x3_ffff_ffff_ffff * e
        <= 0x4_0000_0000_0000 * nr) by {
        let big = k * t;
        assert(big * nr <= (0x20_0000_0000_0001 * 0x8_0000_0000_0001) * e) by (nonlinear_arith)
            requires
                big == k * t,
                t * nr <= 0x20_0000_0000_0001 * ns,
                k * ns <= 0x8_0000_0000_0001 * e,
        ;
        assert(big * nr >= (0x1f_ffff_ffff_ffff * 0x7_ffff_ffff_ffff) * e) by (nonlinear_arith)
            requires
                big == k * t,
                t * nr >= 0x1f_ffff_ffff_ffff * ns,
                k * ns >= 0x7_ffff_ffff_ffff * e,
        ;
    }
}

/// A number that is rounded, divided and rounded again is right up to a share of 2^-51.
proof fn lemma_twice_rounded(a: nat, n: nat)
    requires
        0 < n <= u32::MAX,
        a == 0 || a >= 0x1_0000_0000_0000_0000 * 0x1_0000_0000_0000_0000,
    ensures
        ({
            let r = rounding::nearest(rounding::nearest(a, 1), n);
            &&& n * r * 0x8_0000_0000_0000 <= 0x8_0000_0000_0001 * a
            &&& n * r * 0x8_0000_0000_0000 >= 0x7_ffff_ffff_ffff * a
        }),
{
    let m = rounding::nearest(a, 1);
    let r = rounding::nearest(m, n);
    if a == 0 {
        rounding::lemma_nearest_zero(1);
        rounding::lemma_nearest_zero(n);
        assert(n * r * 0x8_0000_0000_0000 == 0) by (nonlinear_arith)
            requires
                r == 0,
        ;
    } else {
        rounding::lemma_nearest_relative(a, 1);
        assert(1 * m == m);
        assert(0x10_0000_0000_0000 * n <= m) by (nonlinear_arith)
            requires
                0x1f_ffff_ffff_ffff * a <= 0x20_0000_0000_0000 * m,
                a >= 0x1_0000_0000_0000_0000 * 0x1_0000_0000_0000_0000,
                n <= 0xffff_ffff,
        ;
        rounding::lemma_nearest_relative(m, n);
        let t = 0x20_0000_0000_0000nat;
        let nr = n * r;
        assert(t * (t * nr) <= (0x20_0000_0000_0001 * 0x20_0000_0000_0001) * a) by (nonlinear_arith)
            requires
                t * nr <= 0x20_0000_0000_0001 * m,
                t * m <= 0x20_0000_0000_0001 * a,
        ;
        assert(t * (t * nr) >= (0x1f_ffff_ffff_ffff * 0x1f_ffff_ffff_ffff) * a) by (nonlinear_arith)
            requires
                t * nr >= 0x1f_ffff_ffff_ffff * m,
                t * m >= 0x1f_ffff_ffff_ffff * a,
        ;
    }
}

/// A share in percent is the exact one up to a share of 2^-51 of it, whichever way it is
/// computed.
pub proof fn law_percent_is_exact_up_to_rounding(lost: nat, sent: nat)
    requires
        lost <= sent,
        0 < sent <= u32::MAX,
    ensures
        ({
            let exact = (100 * lost) * rounding::one();
            let (p, q) = (sent * product_percent(lost, sent), sent * quotient_percent(lost, sent));
            &&& 0x8_0000_0000_0000 * p <= 0x8_0000_0000_0001 * exact
            &&& 0x7_ffff_ffff_ffff * exact <= 0x8_0000_0000_0000 * p
            &&& 0x8_0000_0000_0000 * q <= 0x8_0000_0000_0001 * exact
            &&& 0x7_ffff_ffff_ffff * exact <= 0x8_0000_0000_0000 * q
        }),
{
    let u = rounding::one();
    let a = 100 * lost;
    let pp = product_percent(lost, sent);
    let q = rounding::nearest(lost * u, sent);
    let r = quotient_percent(lost, sent);
    lemma2_to64();
    lemma2_to64_rest();
    lemma_pow2_adds(64, 1010);
    lemma_pow2_pos(1074);
    lemma_pow2_strictly_increases(64, 1010);
    assert((lost * 100) * u == a * u);
    if lost == 0 {
        rounding::lemma_nearest_zero(sent);
        rounding::lemma_nearest_zero(1);
        assert(lost * u == 0 && a * u == 0) by (nonlinear_arith)
            requires
                lost == 0,
                a == 0,
        ;
        assert(sent * pp == 0 && sent * r == 0) by (nonlinear_arith)
            requires
                pp == 0,
                r == 0,
        ;
    } else {
        let z = pow2(1010);
        let x = 0x40_0000_0000_0000nat;
        assert(x * sent <= lost * u && x * sent <= a * u) by (nonlinear_arith)
            requires
                u == 0x1_0000_0000_0000_0000 * z,
                z > 0x1_0000_0000,
                sent < 0x1_0000_0000,
                lost >= 1,
                a == 100 * lost,
                x == 0x40_0000_0000_0000,
        ;
        rounding::lemma_nearest_relative(a * u, sent);
        rounding::lemma_nearest_relative(lost * u, sent);
        assert(sent * q >= 0x20_0000_0000_0000 * sent) by (nonlinear_arith)
            requires
                0x1f_ffff_ffff_ffff * (lost * u) <= 0x20_0000_0000_0000 * (sent * q),
                x * sent <= lost * u,
                x == 0x40_0000_0000_0000,
        ;
        assert(q >= 0x20_0000_0000_0000) by (nonlinear_arith)
            requires
                sent * q >= 0x20_0000_0000_0000 * sent,
                sent > 0,
        ;
        assert(0x10_0000_0000_0000 * 1 <= q * 100);
        rounding::lemma_nearest_relative(q * 100, 1);
        assert(1 * r == r);
        let t = 0x20_0000_0000_0000nat;
        let (sq, sr) = (sent * q, sent * r);
        let lu = lost * u;
        assert(a * u == 100 * lu) by (nonlinear_arith)
            requires
                a == 100 * lost,
                lu == lost * u,
        ;
        assert(t * sr <= 0x20_0000_0000_0001 * (100 * sq) && t * sr >= 0x1f_ffff_ffff_ffff * (100
            * sq)) by (nonlinear_arith)
            requires
                sr == sent * r,
                sq == sent * q,
                t * r <= 0x20_0000_0000_0001 * (q * 100),
                t * r >= 0x1f_ffff_ffff_ffff * (q * 100),
        ;
        assert(t * (t * sr) <= (0x20_0000_0000_0001 * 0x20_0000_0000_0001) * (100 * lu))
            by (nonlinear_arith)
            requires
                t * sr <= 0x20_0000_0000_0001 * (100 * sq),
                t * sq <= 0x20_0000_0000_0001 * lu,
        ;
        assert(t * (t * sr) >= (0x1f_ffff_ffff_ffff * 0x1f_ffff_ffff_ffff) * (100 * lu))
            by (nonlinear_arith)
            requires
                t * sr >= 0x1f_ffff_ffff_ffff * (100 * sq),
                t * sq >= 0x1f_ffff_ffff_ffff * lu,
        ;
    }
}

} // verus!
