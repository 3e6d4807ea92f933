//! Fixed-point arithmetic shared by prices, quantities and money.
//!
//! Prices and quantities are `i64` counts of 1/`SCALE` of a currency unit
//! (resp. of a share); money (cash, PnL, commission, notional) is an `i128`
//! count of 1/`MONEY_SCALE` of a currency unit, so that `quantity * price`
//! is exact money with no rounding at all. Every operation that can leave
//! the representable range saturates at the bound instead of wrapping:
//! the integer counterpart of a floating-point value running off to an
//! infinity, with the difference that the result stays ordered and finite.
use vstd::prelude::*;

verus! {

/// Fixed-point units per currency unit (prices) or per share (quantities).
pub const SCALE: i64 = 10_000;

/// Money units per currency unit: `SCALE * SCALE`.
pub const MONEY_SCALE: i128 = 100_000_000;

/// `x` clamped to the range of `i64`.
pub open spec fn clamp64(x: int) -> int {
    if x > i64::MAX {
        i64::MAX as int
    } else if x < i64::MIN {
        i64::MIN as int
    } else {
        x
    }
}

/// `x` clamped to the range of `i128`.
pub open spec fn clamp128(x: int) -> int {
    if x > i128::MAX {
        i128::MAX as int
    } else if x < i128::MIN {
        i128::MIN as int
    } else {
        x
    }
}

/// Floor division `n / d` (toward negative infinity) for a positive `d`.
pub fn floor_div(n: i128, d: i128) -> (r: i128)
    requires
        d > 0,
    ensures
        r == n / d,
{
    if n >= 0 {
        n / d
    } else {
        let m: i128 = -(n + 1);
        let q: i128 = m / d;
        assert(0 <= m / d <= m) by (nonlinear_arith)
            requires
                m >= 0,
                d > 0,
        ;
        assert(-q - 1 == n / d) by (nonlinear_arith)
            requires
                m == -(n + 1),
                q == m / d,
                d > 0,
                n < 0,
        ;
        -q - 1
    }
}

/// Floor remainder `n % d`, always in `[0, d)`, for a positive `d`.
pub fn floor_mod(n: i128, d: i128) -> (r: i128)
    requires
        d > 0,
    ensures
        r == n % d,
        0 <= r < d,
{
    if n >= 0 {
        n % d
    } else {
        let m: i128 = -(n + 1);
        let rm: i128 = m % d;
        proof {
            let q = (m as int) / (d as int);
            vstd::arithmetic::div_mod::lemma_fundamental_div_mod(m as int, d as int);
            vstd::arithmetic::div_mod::lemma_mod_bound(m as int, d as int);
            assert(n == (-q - 1) * d + (d - 1 - rm)) by (nonlinear_arith)
                requires
                    m == -(n + 1),
                    m == d * q + rm,
            ;
            vstd::arithmetic::div_mod::lemma_fundamental_div_mod_converse(
                n as int,
                d as int,
                -q - 1,
                d - 1 - rm,
            );
        }
        d - 1 - rm
    }
}

/// `a + b`, saturating at the bounds of `i64`.
pub fn sat_add(a: i64, b: i64) -> (r: i64)
    ensures
        r == clamp64(a + b),
{
    let s: i128 = a as i128 + b as i128;
    narrow(s)
}

/// `a - b`, saturating at the bounds of `i64`.
pub fn sat_sub(a: i64, b: i64) -> (r: i64)
    ensures
        r == clamp64(a - b),
{
    let s: i128 = a as i128 - b as i128;
    narrow(s)
}

/// `x` narrowed to `i64`, saturating at its bounds.
pub fn narrow(x: i128) -> (r: i64)
    ensures
        r == clamp64(x as int),
{
    if x > i64::MAX as i128 {
        i64::MAX
    } else if x < i64::MIN as i128 {
        i64::MIN
    } else {
        x as i64
    }
}

/// `a + b`, saturating at the bounds of `i128`.
pub fn money_add(a: i128, b: i128) -> (r: i128)
    ensures
        r == clamp128(a + b),
{
    match a.checked_add(b) {
        Some(s) => s,
        None => if b > 0 {
            i128::MAX
        } else {
            i128::MIN
        },
    }
}

/// `a - b`, saturating at the bounds of `i128`.
pub fn money_sub(a: i128, b: i128) -> (r: i128)
    ensures
        r == clamp128(a - b),
{
    match a.checked_sub(b) {
        Some(s) => s,
        None => if b < 0 {
            i128::MAX
        } else {
            i128::MIN
        },
    }
}

/// The exact product of two `i64` values, which always fits in `i128`.
pub fn wide_mul(a: i64, b: i64) -> (r: i128)
    ensures
        r == a * b,
{
    assert(i128::MIN <= a * b <= i128::MAX) by (nonlinear_arith)
        requires
            i64::MIN <= a <= i64::MAX,
            i64::MIN <= b <= i64::MAX,
    ;
    (a as i128) * (b as i128)
}

/// `floor(a * b / d)`, saturating at the bounds of `i64`.
pub fn mul_div(a: i64, b: i64, d: i64) -> (r: i64)
    requires
        d > 0,
    ensures
        r == clamp64((a * b) / (d as int)),
{
    let p = wide_mul(a, b);
    narrow(floor_div(p, d as i128))
}

/// Whether `a * d >= c * b` (exact; `b` and `d` positive), decided by
/// comparing continued-fraction expansions so no product is formed.
pub fn frac_ge(a: u128, b: u128, c: u128, d: u128) -> (r: bool)
    requires
        b > 0,
        d > 0,
    ensures
        r == (a * d >= c * b),
    decreases b + d,
{
    let q1 = a / b;
    let r1 = a % b;
    let q2 = c / d;
    let r2 = c % d;
    proof {
        vstd::arithmetic::div_mod::lemma_fundamental_div_mod(a as int, b as int);
        vstd::arithmetic::div_mod::lemma_fundamental_div_mod(c as int, d as int);
    }
    if q1 != q2 {
        proof {
            lemma_frac_quotients(a as int, b as int, c as int, d as int, q1 as int, r1 as int, q2 as int, r2 as int);
        }
        return q1 > q2;
    }
    proof {
        lemma_frac_remainders(a as int, b as int, c as int, d as int, q1 as int, r1 as int, r2 as int);
    }
    if r2 == 0 {
        proof {
            assert(r1 * d >= 0) by (nonlinear_arith) requires r1 >= 0, d > 0;
            assert(r2 * b == 0) by (nonlinear_arith) requires r2 == 0;
        }
        return true;
    }
    if r1 == 0 {
        proof {
            assert(r2 * b > 0) by (nonlinear_arith) requires r2 > 0, b > 0;
            assert(r1 * d == 0) by (nonlinear_arith) requires r1 == 0;
        }
        return false;
    }
    proof {
        assert(d * r1 == r1 * d && b * r2 == r2 * b) by (nonlinear_arith);
    }
    frac_ge(d, r2, b, r1)
}

proof fn lemma_frac_quotients(a: int, b: int, c: int, d: int, q1: int, r1: int, q2: int, r2: int)
    by (nonlinear_arith)
    requires
        b > 0,
        d > 0,
        a == b * q1 + r1,
        c == d * q2 + r2,
        0 <= r1 < b,
        0 <= r2 < d,
        q1 >= 0,
        q2 >= 0,
        q1 != q2,
    ensures
        (a * d >= c * b) == (q1 > q2),
{
}

proof fn lemma_frac_remainders(a: int, b: int, c: int, d: int, q: int, r1: int, r2: int)
    by (nonlinear_arith)
    requires
        b > 0,
        d > 0,
        a == b * q + r1,
        c == d * q + r2,
    ensures
        (a * d >= c * b) == (r1 * d >= r2 * b),
{
}

/// Whether `n1 * d2 < n2 * d1` (exact; `d1` and `d2` positive), i.e.
/// whether `n1 / d1 < n2 / d2`.
pub fn ratio_lt(n1: i128, d1: i128, n2: i128, d2: i128) -> (r: bool)
    requires
        d1 > 0,
        d2 > 0,
    ensures
        r == (n1 * d2 < n2 * d1),
{
    let q1 = floor_div(n1, d1);
    let q2 = floor_div(n2, d2);
    let m1 = floor_mod(n1, d1);
    let m2 = floor_mod(n2, d2);
    proof {
        vstd::arithmetic::div_mod::lemma_fundamental_div_mod(n1 as int, d1 as int);
        vstd::arithmetic::div_mod::lemma_fundamental_div_mod(n2 as int, d2 as int);
    }
    if q1 != q2 {
        proof {
            lemma_ratio_quotients(n1 as int, d1 as int, n2 as int, d2 as int, q1 as int, m1 as int, q2 as int, m2 as int);
        }
        return q1 < q2;
    }
    proof {
        lemma_frac_remainders(n1 as int, d1 as int, n2 as int, d2 as int, q1 as int, m1 as int, m2 as int);
    }
    !frac_ge(m1 as u128, d1 as u128, m2 as u128, d2 as u128)
}

proof fn lemma_ratio_quotients(n1: int, d1: int, n2: int, d2: int, q1: int, r1: int, q2: int, r2: int)
    by (nonlinear_arith)
    requires
        d1 > 0,
        d2 > 0,
        n1 == d1 * q1 + r1,
        n2 == d2 * q2 + r2,
        0 <= r1 < d1,
        0 <= r2 < d2,
        q1 != q2,
    ensures
        (n1 * d2 < n2 * d1) == (q1 < q2),
{
}

/// `x * y / d` in whole quotient and remainder parts, for a quotient known
/// to be small: `n == q * d + r` with `0 <= r < d` pins `q` and `r`.
proof fn lemma_div_parts(n: int, d: int, q: int, r: int)
    requires
        d > 0,
        n == q * d + r,
        0 <= r < d,
    ensures
        n / d == q,
        n % d == r,
{
    vstd::arithmetic::div_mod::lemma_fundamental_div_mod_converse(n, d, q, r);
}

/// `floor(a * b * c / (v * SCALE))`, saturating at the bounds of `i64`,
/// with a single rounding: the exact product is divided once.
pub fn mul_mul_div(a: i64, b: i64, c: i64, v: i64) -> (r: i64)
    requires
        v > 0,
    ensures
        r == clamp64((a * b * c) / (v * SCALE as int)),
{
    let big: i128 = wide_mul(a, b);
    let d: i128 = wide_mul(v, SCALE);
    let a1 = floor_div(big, d);
    let a0 = floor_mod(big, d);
    let ghost dd = d as int;
    proof {
        vstd::arithmetic::div_mod::lemma_fundamental_div_mod(big as int, dd);
        assert(a * b * c == (a * b) * c) by (nonlinear_arith);
        assert(0 < dd < 0x2_0000_0000_0000_0000_0000) by (nonlinear_arith)
            requires
                dd == v * 10_000,
                0 < v <= i64::MAX,
        ;
    }
    if c == 0 {
        proof {
            assert(a * b * c == 0) by (nonlinear_arith) requires c == 0;
        }
        return 0;
    }
    let qa: u128 = if c < 0 { (-(c as i128)) as u128 } else { c as u128 };
    let two32: u128 = 0x1_0000_0000;
    let qh: u128 = qa / two32;
    let ql: u128 = qa % two32;
    let a0u: u128 = a0 as u128;
    let du: u128 = d as u128;
    proof {
        assert(qh <= 0x8000_0000) by (nonlinear_arith)
            requires qh == qa / 0x1_0000_0000, qa <= 0x8000_0000_0000_0000;
        assert(qa == qh * two32 + ql) by (nonlinear_arith)
            requires qh == qa / 0x1_0000_0000, ql == qa % 0x1_0000_0000, two32 == 0x1_0000_0000;
        assert(ql < two32) by (nonlinear_arith)
            requires ql == qa % 0x1_0000_0000, two32 == 0x1_0000_0000;
        assert(a0u * qh <= 0x2_0000_0000_0000_0000_0000 * 0x8000_0000) by (nonlinear_arith)
            requires a0u < 0x2_0000_0000_0000_0000_0000, qh <= 0x8000_0000;
    }
    let t1: u128 = a0u * qh;
    let u1: u128 = t1 / du;
    let r1: u128 = t1 % du;
    proof {
        assert(t1 == u1 * du + r1 && r1 < du) by (nonlinear_arith)
            requires u1 == t1 / du, r1 == t1 % du, du > 0;
        assert(r1 * two32 <= 0x2_0000_0000_0000_0000_0000 * 0x1_0000_0000) by (nonlinear_arith)
            requires r1 < 0x2_0000_0000_0000_0000_0000, two32 == 0x1_0000_0000;
        assert(a0u * ql <= 0x2_0000_0000_0000_0000_0000 * 0x1_0000_0000) by (nonlinear_arith)
            requires a0u < 0x2_0000_0000_0000_0000_0000, ql < 0x1_0000_0000;
    }
    let t2: u128 = r1 * two32 + a0u * ql;
    let u2: u128 = t2 / du;
    let r2: u128 = t2 % du;
    proof {
        assert(t2 == u2 * du + r2 && r2 < du) by (nonlinear_arith)
            requires u2 == t2 / du, r2 == t2 % du, du > 0;
        // a0 * qa == (u1 * 2^32 + u2) * d + r2
        assert(a0u * qa == (u1 * two32 + u2) * du + r2) by (nonlinear_arith)
            requires
                qa == qh * two32 + ql,
                t1 == a0u * qh,
                t1 == u1 * du + r1,
                t2 == r1 * two32 + a0u * ql,
                t2 == u2 * du + r2,
        ;
        // the quotient is below qa <= 2^63
        assert((u1 * two32 + u2) < qa) by (nonlinear_arith)
            requires
                a0u * qa == (u1 * two32 + u2) * du + r2,
                a0u < du,
                r2 >= 0,
                du > 0,
                qa > 0,
                u1 >= 0,
                u2 >= 0,
        ;
    }
    let g: u128 = u1 * two32 + u2;
    let f: i128 = if c > 0 {
        g as i128
    } else if r2 == 0 {
        -(g as i128)
    } else {
        -(g as i128) - 1
    };
    proof {
        let ai = a0 as int;
        let ci = c as int;
        if c > 0 {
            assert(ai * ci == (g as int) * dd + r2) by (nonlinear_arith)
                requires a0u * qa == g * du + r2, ai == a0u, ci == qa, dd == du;
            lemma_div_parts(ai * ci, dd, g as int, r2 as int);
        } else if r2 == 0 {
            assert(ai * ci == (-(g as int)) * dd + 0) by (nonlinear_arith)
                requires a0u * qa == g * du + r2, r2 == 0, ai == a0u, ci == -qa, dd == du;
            lemma_div_parts(ai * ci, dd, -(g as int), 0);
        } else {
            assert(ai * ci == (-(g as int) - 1) * dd + (dd - r2)) by (nonlinear_arith)
                requires a0u * qa == g * du + r2, ai == a0u, ci == -qa, dd == du;
            lemma_div_parts(ai * ci, dd, -(g as int) - 1, dd - r2);
        }
        assert(f == (ai * ci) / dd);
        // the whole quotient splits at d
        assert((a * b) * c == (a1 * ci) * dd + ai * ci) by (nonlinear_arith)
            requires a * b == a1 * dd + ai, ci == c;
        vstd::arithmetic::div_mod::lemma_fundamental_div_mod(ai * ci, dd);
        let m = (ai * ci) % dd;
        let q = (ai * ci) / dd;
        assert((a * b) * c == (a1 * ci + q) * dd + m) by (nonlinear_arith)
            requires
                (a * b) * c == (a1 * ci) * dd + ai * ci,
                ai * ci == dd * q + m,
        ;
        lemma_div_parts((a * b) * c, dd, a1 * ci + q, m);
        assert(c > 0 ==> 0 <= f < ci);
        assert(c < 0 ==> ci <= f <= 0);
    }
    let lim: i128 = 0x8000_0000_0000_0000;
    if a1 >= lim || a1 <= -lim {
        proof {
            let ci = c as int;
            let t = a1 * ci + f;
            if a1 >= lim && c > 0 {
                assert(t > i64::MAX) by (nonlinear_arith) requires a1 >= 0x8000_0000_0000_0000, ci >= 1, f >= 0, t == a1 * ci + f;
            } else if a1 >= lim {
                assert(t <= i64::MIN) by (nonlinear_arith) requires a1 >= 0x8000_0000_0000_0000, ci <= -1, f <= 0, t == a1 * ci + f;
            } else if c > 0 {
                assert(t <= i64::MIN) by (nonlinear_arith) requires a1 <= -0x8000_0000_0000_0000, ci >= 1, f < ci, t == a1 * ci + f;
            } else {
                assert(t >= i64::MAX) by (nonlinear_arith) requires a1 <= -0x8000_0000_0000_0000, ci <= -1, f >= ci, t == a1 * ci + f;
            }
        }
        if (a1 > 0) == (c > 0) {
            return i64::MAX;
        } else {
            return i64::MIN;
        }
    }
    proof {
        assert(-0x4000_0000_0000_0000_0000_0000_0000_0000 <= a1 * c <= 0x4000_0000_0000_0000_0000_0000_0000_0000) by (nonlinear_arith)
            requires -0x8000_0000_0000_0000 < a1 < 0x8000_0000_0000_0000, i64::MIN <= c <= i64::MAX;
    }
    let total: i128 = a1 * (c as i128) + f;
    narrow(total)
}

} // verus!
