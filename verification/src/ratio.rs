//! Scaling an integer by a ratio of two integers, exactly and without overflow.
use vstd::prelude::*;

verus! {

/// `n / d` rounded to the nearest integer, halves rounded up (`d > 0`).
pub open spec fn round_div(n: int, d: int) -> int {
    (2 * n + d) / (2 * d)
}

/// `x` capped at `cap`.
pub open spec fn capped(x: int, cap: int) -> int {
    if x > cap {
        cap
    } else {
        x
    }
}

/// Rounding `q + r / d` for `0 <= r < d` to the nearest, halves up.
pub proof fn lemma_round_div_parts(n: int, d: int, q: int, r: int)
    requires
        d > 0,
        0 <= r < d,
        n == q * d + r,
    ensures
        round_div(n, d) == q + (if 2 * r >= d {
            1int
        } else {
            0int
        }),
{
    let extra: int = if 2 * r >= d {
        1
    } else {
        0
    };
    assert(2 * n + d == (q + extra) * (2 * d) + (2 * r + d - 2 * d * extra)) by (nonlinear_arith)
        requires
            n == q * d + r,
    ;
    assert(0 <= 2 * r + d - 2 * d * extra < 2 * d);
    vstd::arithmetic::div_mod::lemma_fundamental_div_mod_converse(
        2 * n + d,
        2 * d,
        q + extra,
        2 * r + d - 2 * d * extra,
    );
}

/// One step of long division by `t`: `(rem * 2^32 + c * f)` split into a
/// quotient and a remainder below `t`.
fn div_step(rem: u128, c: u128, f: u128, t: u128) -> (r: (u128, u128))
    requires
        0 < t < 0x8000_0000_0000_0000_0000_0000,
        rem < t,
        f < t,
        c < 0x1_0000_0000,
    ensures
        r.1 < t,
        r.0 < 0x2_0000_0000,
        rem * 0x1_0000_0000 + c * f == r.0 * t + r.1,
{
    assert(rem * 0x1_0000_0000 < 0x8000_0000_0000_0000_0000_0000 * 0x1_0000_0000) by (nonlinear_arith)
        requires
            rem < t,
            t < 0x8000_0000_0000_0000_0000_0000,
    ;
    assert(c * f < 0x1_0000_0000 * 0x8000_0000_0000_0000_0000_0000) by (nonlinear_arith)
        requires
            c < 0x1_0000_0000,
            f < 0x8000_0000_0000_0000_0000_0000,
    ;
    let z: u128 = rem * 0x1_0000_0000 + c * f;
    let q = z / t;
    let m = z % t;
    assert(z == q * t + m) by (nonlinear_arith)
        requires
            t > 0,
            q == z / t,
            m == z % t,
    ;
    assert(z < t * 0x2_0000_0000) by (nonlinear_arith)
        requires
            z == rem * 0x1_0000_0000 + c * f,
            rem < t,
            f < t,
            c < 0x1_0000_0000,
    ;
    assert(q < 0x2_0000_0000) by (nonlinear_arith)
        requires
            z == q * t + m,
            0 <= m,
            z < t * 0x2_0000_0000,
            t > 0,
    ;
    (q, m)
}

/// `s * f` split as `q * t + rem` with `rem < t`, for `f < t`.
fn mul_small_div(s: u128, f: u128, t: u128) -> (r: (u128, u128))
    requires
        0 < t < 0x8000_0000_0000_0000_0000_0000,
        f < t,
    ensures
        r.1 < t,
        s * f == r.0 * t + r.1,
        r.0 <= s,
{
    let c3 = s / 0x1_0000_0000_0000_0000_0000_0000;
    let lo3 = s % 0x1_0000_0000_0000_0000_0000_0000;
    let c2 = lo3 / 0x1_0000_0000_0000_0000;
    let lo2 = lo3 % 0x1_0000_0000_0000_0000;
    let c1 = lo2 / 0x1_0000_0000;
    let c0 = lo2 % 0x1_0000_0000;
    assert(c3 < 0x1_0000_0000);
    assert(s == ((c3 * 0x1_0000_0000 + c2) * 0x1_0000_0000 + c1) * 0x1_0000_0000 + c0);
    let (q3, r3) = div_step(0, c3, f, t);
    let (q2, r2) = div_step(r3, c2, f, t);
    let (q1, r1) = div_step(r2, c1, f, t);
    let (q0, r0) = div_step(r1, c0, f, t);
    let ghost qq: int = ((q3 * 0x1_0000_0000 + q2) * 0x1_0000_0000 + q1) * 0x1_0000_0000 + q0;
    assert(s * f == qq * t + r0) by (nonlinear_arith)
        requires
            s == ((c3 * 0x1_0000_0000 + c2) * 0x1_0000_0000 + c1) * 0x1_0000_0000 + c0,
            0 * 0x1_0000_0000 + c3 * f == q3 * t + r3,
            r3 * 0x1_0000_0000 + c2 * f == q2 * t + r2,
            r2 * 0x1_0000_0000 + c1 * f == q1 * t + r1,
            r1 * 0x1_0000_0000 + c0 * f == q0 * t + r0,
            qq == ((q3 * 0x1_0000_0000 + q2) * 0x1_0000_0000 + q1) * 0x1_0000_0000 + q0,
    ;
    assert(qq <= s) by (nonlinear_arith)
        requires
            s * f == qq * t + r0,
            f < t,
            0 <= r0,
            0 <= qq,
            s >= 0,
            t > 0,
    {
        if qq > s {
            assert(qq * t >= (s + 1) * t);
            assert(s * f < s * t + t);
        }
    }
    let q: u128 = (((q3 * 0x1_0000_0000 + q2) * 0x1_0000_0000 + q1) * 0x1_0000_0000 + q0) as u128;
    (q, r0)
}

/// `s * i / t` rounded to the nearest integer (halves up), capped at `cap`.
pub fn mul_div_round(s: u128, i: u128, t: u128, cap: u128) -> (r: u128)
    requires
        0 < t < 0x8000_0000_0000_0000_0000_0000,
        cap < 0x8000_0000_0000_0000_0000_0000_0000_0000,
    ensures
        r == capped(round_div(s * i, t as int), cap as int),
{
    let g = i / t;
    let f = i % t;
    assert(i == g * t + f) by (nonlinear_arith)
        requires
            t > 0,
            g == i / t,
            f == i % t,
    ;
    let (qf, rf) = mul_small_div(s, f, t);
    assert(s * i == (s * g + qf) * t + rf) by (nonlinear_arith)
        requires
            i == g * t + f,
            s * f == qf * t + rf,
    ;
    proof {
        lemma_round_div_parts(s * i, t as int, s * g + qf, rf as int);
    }
    if g > 0 && s > cap / g {
        assert(s * g > cap) by (nonlinear_arith)
            requires
                g > 0,
                s > cap / g,
        {
            assert(s >= cap / g + 1);
            assert(s * g >= (cap / g + 1) * g);
            assert(cap < (cap / g + 1) * g);
        }
        return cap;
    }
    assert(s * g <= cap) by (nonlinear_arith)
        requires
            g == 0 || s <= cap / g,
    {
        if g > 0 {
            assert(s * g <= (cap / g) * g);
            assert((cap / g) * g <= cap);
        }
    }
    let sg = s * g;
    if qf > cap - sg {
        return cap;
    }
    let q = sg + qf;
    if 2 * rf >= t {
        if q >= cap {
            cap
        } else {
            q + 1
        }
    } else {
        q
    }
}

} // verus!
