//! Fixed-point scalars.
//!
//! Every numeric value of the network is an `i64` holding millionths: the
//! real number `x` is stored as `x * 1_000_000` rounded toward zero. The
//! operations below are total: addition, subtraction and multiplication wrap
//! around the `i64` range (two's-complement), squaring saturates so that a
//! square is never negative, and division truncates toward zero. Each
//! executable operation is proved equal to a specification function, so every
//! contract in the crate can state results exactly.

use vstd::prelude::*;

verus! {

use vstd::arithmetic::div_mod::{lemma_small_mod, lemma_mod_add_multiples_vanish,
    lemma_mod_sub_multiples_vanish, lemma_add_mod_noop, lemma_div_pos_is_pos,
    lemma_div_nonincreasing};
use vstd::wrapping::i64_specs;

/// Number of fixed-point units in one: values are stored in millionths.
pub const SCALE: i64 = 1_000_000;

/// The smallest positive fixed-point value, used as an epsilon guard
/// before square roots.
pub const EPSILON: i64 = 1;

/// One more than `i64::MAX - i64::MIN`: the modulus of wrapping arithmetic.
pub open spec fn modulus() -> int {
    0x1_0000_0000_0000_0000
}

/// The `i64` that is congruent to `x` modulo 2^64.
pub open spec fn wrap64(x: int) -> i64 {
    i64_specs::signed_crop(x)
}

/// Division truncated toward zero, as the machine divides.
pub open spec fn tdiv(x: int, d: int) -> int
    recommends
        d > 0,
{
    if x >= 0 {
        x / d
    } else {
        -((-x) / d)
    }
}

/// Wrapping fixed-point addition.
pub open spec fn spec_fx_add(a: i64, b: i64) -> i64 {
    wrap64(a + b)
}

/// Wrapping fixed-point subtraction.
pub open spec fn spec_fx_sub(a: i64, b: i64) -> i64 {
    wrap64(a - b)
}

/// Wrapping fixed-point multiplication: the product of two scaled values,
/// scaled back down by truncating division.
pub open spec fn spec_fx_mul(a: i64, b: i64) -> i64 {
    wrap64(tdiv(a * b, SCALE as int))
}

/// Fixed-point division by a positive fixed-point value.
pub open spec fn spec_fx_div(a: i64, b: i64) -> i64
    recommends
        b > 0,
{
    wrap64(tdiv(a * SCALE, b as int))
}

/// Fixed-point value divided by a positive integer count (used to turn a
/// gradient summed over a batch into a mean gradient).
pub open spec fn spec_fx_divn(a: i64, n: int) -> i64
    recommends
        n > 0,
{
    wrap64(tdiv(a as int, n))
}

/// Saturating fixed-point square: never negative, clamped to `i64::MAX`.
pub open spec fn spec_fx_sq(a: i64) -> i64 {
    let q = tdiv(a * a, SCALE as int);
    if q > i64::MAX {
        i64::MAX
    } else {
        q as i64
    }
}

/// Saturating addition, used for the epsilon guard before square roots.
pub open spec fn spec_fx_sat_add(a: i64, b: i64) -> i64 {
    if a + b > i64::MAX {
        i64::MAX
    } else if a + b < i64::MIN {
        i64::MIN
    } else {
        (a + b) as i64
    }
}

/// The integer square root: the largest `r` with `r * r <= n`.
pub open spec fn isqrt_spec(n: int) -> int
    recommends
        n >= 0,
    decreases n,
    when n >= 0
{
    if n <= 0 {
        0
    } else {
        let r = isqrt_spec(n - 1);
        if (r + 1) * (r + 1) <= n {
            r + 1
        } else {
            r
        }
    }
}

/// Fixed-point square root: zero on every non-positive argument (degenerate
/// inputs are mapped to zero rather than rejected).
pub open spec fn spec_fx_sqrt(a: i64) -> i64 {
    if a <= 0 {
        0
    } else {
        isqrt_spec(a * SCALE) as i64
    }
}

/// Wrapping never leaves the `i64` range, and changes the value only by a
/// multiple of 2^64.
pub proof fn lemma_wrap64_props(x: int)
    ensures
        i64::MIN <= wrap64(x) <= i64::MAX,
        wrap64(x) as int % modulus() == x % modulus(),
{
    let m = x % modulus();
    lemma_small_mod(m as nat, modulus() as nat);
    if m > i64::MAX {
        lemma_mod_sub_multiples_vanish(m, modulus());
    }
}

/// Wrapping a value that is already in range is the identity.
pub proof fn lemma_wrap64_id(x: int)
    requires
        i64::MIN <= x <= i64::MAX,
    ensures
        wrap64(x) == x,
{
    if x >= 0 {
        lemma_small_mod(x as nat, modulus() as nat);
    } else {
        lemma_mod_add_multiples_vanish(x, modulus());
        lemma_small_mod((x + modulus()) as nat, modulus() as nat);
    }
}

/// Values congruent modulo 2^64 wrap to the same `i64`.
pub proof fn lemma_wrap64_congruent(x: int, y: int)
    requires
        x % modulus() == y % modulus(),
    ensures
        wrap64(x) == wrap64(y),
{
}

/// Wrapping addition is associative.
pub proof fn lemma_fx_add_assoc(a: i64, b: i64, c: i64)
    ensures
        spec_fx_add(spec_fx_add(a, b), c) == spec_fx_add(a, spec_fx_add(b, c)),
{
    let md = modulus();
    let ab = spec_fx_add(a, b);
    let bc = spec_fx_add(b, c);
    lemma_wrap64_props(a + b);
    lemma_wrap64_props(b + c);
    lemma_add_mod_noop(ab as int, c as int, md);
    lemma_add_mod_noop(a + b, c as int, md);
    lemma_add_mod_noop(a as int, bc as int, md);
    lemma_add_mod_noop(a as int, b + c, md);
    assert((ab + c) % md == (a + b + c) % md);
    assert((a + bc) % md == (a + b + c) % md);
    lemma_wrap64_congruent(ab + c, a + bc);
}

/// Zero is the identity of wrapping addition.
pub proof fn lemma_fx_add_zero(a: i64)
    ensures
        spec_fx_add(0, a) == a,
        spec_fx_add(a, 0) == a,
{
    lemma_wrap64_id(a as int);
}

/// Truncating division is bounded by its dividend.
pub proof fn lemma_tdiv_bound(x: int, d: int)
    requires
        d > 0,
    ensures
        x >= 0 ==> 0 <= tdiv(x, d) <= x,
        x < 0 ==> x <= tdiv(x, d) <= 0,
{
    if x >= 0 {
        lemma_div_pos_is_pos(x, d);
        lemma_div_nonincreasing(x, d);
    } else {
        lemma_div_pos_is_pos(-x, d);
        lemma_div_nonincreasing(-x, d);
    }
}

/// A square is never negative.
pub proof fn lemma_fx_sq_nonneg(a: i64)
    ensures
        spec_fx_sq(a) >= 0,
{
    assert(a * a >= 0) by (nonlinear_arith);
    lemma_tdiv_bound(a * a, SCALE as int);
}

/// Multiplying a non-negative value by a factor between zero and one keeps
/// it between zero and the value.
pub proof fn lemma_fx_mul_convex(rho: i64, x: i64)
    requires
        0 <= rho <= SCALE,
        0 <= x,
    ensures
        0 <= spec_fx_mul(rho, x) <= x,
        spec_fx_mul(rho, x) == tdiv(rho * x, SCALE as int),
{
    let p = rho * x;
    assert(0 <= rho * x && rho * x <= SCALE * x) by (nonlinear_arith)
        requires
            0 <= rho <= SCALE && 0 <= x,
    ;
    lemma_tdiv_bound(p, SCALE as int);
    vstd::arithmetic::div_mod::lemma_div_is_ordered(p, SCALE * x, SCALE as int);
    vstd::arithmetic::div_mod::lemma_div_multiples_vanish(x as int, SCALE as int);
    assert(SCALE * x == (SCALE as int) * (x as int)) by (nonlinear_arith);
    lemma_wrap64_id(tdiv(p, SCALE as int));
}

/// One step of an exponential moving average of non-negative values stays
/// non-negative and below the larger of the two inputs: with a decay factor
/// between zero and one, `rho * a + (1 - rho) * s` is a weighted mean.
pub proof fn lemma_avg_step_bounds(rho: i64, a: i64, s: i64)
    requires
        0 <= rho <= SCALE,
        0 <= a,
        0 <= s,
    ensures
        ({
            let m1 = spec_fx_mul(rho, a);
            let m2 = spec_fx_mul(spec_fx_sub(SCALE, rho), s);
            let top = if a >= s {
                a
            } else {
                s
            };
            0 <= spec_fx_add(m1, m2) <= top
        }),
{
    let sc = SCALE as int;
    let top: i64 = if a >= s {
        a
    } else {
        s
    };
    lemma_wrap64_id(SCALE - rho);
    let one_minus = spec_fx_sub(SCALE, rho);
    lemma_fx_mul_convex(rho, a);
    lemma_fx_mul_convex(one_minus, s);
    let m1 = spec_fx_mul(rho, a);
    let m2 = spec_fx_mul(one_minus, s);
    assert(rho * a >= 0 && one_minus * s >= 0) by (nonlinear_arith)
        requires
            rho >= 0 && a >= 0 && one_minus >= 0 && s >= 0,
    ;
    assert(m1 == (rho * a) / sc && m2 == (one_minus * s) / sc);
    assert(rho * a <= rho * top && one_minus * s <= one_minus * top) by (nonlinear_arith)
        requires
            rho >= 0 && one_minus >= 0 && a <= top && s <= top && 0 <= a && 0 <= s,
    ;
    vstd::arithmetic::div_mod::lemma_div_is_ordered(rho * a, rho * top, sc);
    vstd::arithmetic::div_mod::lemma_div_is_ordered(one_minus * s, one_minus * top, sc);
    // The two scaled quotients together stay below the quotient of the sum.
    vstd::arithmetic::div_mod::lemma_fundamental_div_mod(rho * top, sc);
    vstd::arithmetic::div_mod::lemma_fundamental_div_mod(one_minus * top, sc);
    vstd::arithmetic::div_mod::lemma_div_pos_is_pos(rho * top, sc);
    vstd::arithmetic::div_mod::lemma_div_pos_is_pos(one_minus * top, sc);
    let q1 = (rho * top) / sc;
    let q2 = (one_minus * top) / sc;
    assert(sc * (q1 + q2) <= rho * top + one_minus * top);
    vstd::arithmetic::div_mod::lemma_div_is_ordered(sc * (q1 + q2), rho * top + one_minus * top, sc);
    vstd::arithmetic::div_mod::lemma_div_multiples_vanish(q1 + q2, sc);
    assert(rho * top + one_minus * top == sc * top) by (nonlinear_arith)
        requires
            one_minus == SCALE - rho && sc == SCALE,
    ;
    vstd::arithmetic::div_mod::lemma_div_multiples_vanish(top as int, sc);
    assert(m1 + m2 <= top);
    lemma_wrap64_id(m1 + m2);
}

/// After the epsilon guard, the square root of a non-negative value is at
/// least the root of one epsilon, which is positive.
pub proof fn lemma_fx_sqrt_guard_pos(x: i64)
    requires
        x >= 0,
    ensures
        spec_fx_sqrt(spec_fx_sat_add(x, EPSILON)) >= 1000,
{
    let y = spec_fx_sat_add(x, EPSILON);
    assert(y >= 1);
    assert(SCALE <= y * SCALE <= 0x7FFF_FFFF_FFFF_FFFF * 1_000_000) by (nonlinear_arith)
        requires
            1 <= y <= 0x7FFF_FFFF_FFFF_FFFF && SCALE == 1_000_000i64,
    ;
    lemma_isqrt(y * SCALE);
    let s = isqrt_spec(y * SCALE);
    if s < 1000 {
        assert((s + 1) * (s + 1) <= 1000 * 1000) by (nonlinear_arith)
            requires
                0 <= s + 1 <= 1000,
        ;
    }
    assert(s < 0x1_0000_0000_0000) by (nonlinear_arith)
        requires
            s >= 0 && s * s <= 0x7FFF_FFFF_FFFF_FFFF * 1_000_000i64,
    ;
}

/// Truncating division on 128-bit intermediates, bounded away from the
/// extremes so that the quotient always exists.
fn tdiv_i128(x: i128, d: i128) -> (q: i128)
    requires
        d > 0,
        -0x4000_0000_0000_0000_0000_0000_0000_0000 <= x
            <= 0x4000_0000_0000_0000_0000_0000_0000_0000,
    ensures
        q == tdiv(x as int, d as int),
        x >= 0 ==> 0 <= q <= x,
        x < 0 ==> x <= q <= 0,
{
    proof {
        lemma_tdiv_bound(x as int, d as int);
    }
    x.checked_div(d).unwrap()
}

/// Reduce a 128-bit intermediate into the `i64` that is congruent to it.
fn wrap_i128(q: i128) -> (r: i64)
    ensures
        r == wrap64(q as int),
{
    let md: i128 = 0x1_0000_0000_0000_0000;
    let m: i128 = q.checked_rem_euclid(md).unwrap();
    if m > i64::MAX as i128 {
        (m - md) as i64
    } else {
        m as i64
    }
}

/// Wrapping fixed-point addition.
#[verifier::when_used_as_spec(spec_fx_add)]
pub fn fx_add(a: i64, b: i64) -> (r: i64)
    ensures
        r == spec_fx_add(a, b),
{
    wrap_i128(a as i128 + b as i128)
}

/// Wrapping fixed-point subtraction.
#[verifier::when_used_as_spec(spec_fx_sub)]
pub fn fx_sub(a: i64, b: i64) -> (r: i64)
    ensures
        r == spec_fx_sub(a, b),
{
    wrap_i128(a as i128 - b as i128)
}

/// Wrapping fixed-point multiplication.
#[verifier::when_used_as_spec(spec_fx_mul)]
pub fn fx_mul(a: i64, b: i64) -> (r: i64)
    ensures
        r == spec_fx_mul(a, b),
{
    proof {
        assert((a as int) * (b as int) <= 0x4000_0000_0000_0000_0000_0000_0000_0000
            && (a as int) * (b as int) >= -0x4000_0000_0000_0000_0000_0000_0000_0000)
            by (nonlinear_arith)
            requires
                -0x8000_0000_0000_0000 <= a as int <= 0x7FFF_FFFF_FFFF_FFFF,
                -0x8000_0000_0000_0000 <= b as int <= 0x7FFF_FFFF_FFFF_FFFF,
        ;
    }
    let p: i128 = (a as i128) * (b as i128);
    let q: i128 = tdiv_i128(p, SCALE as i128);
    wrap_i128(q)
}

/// Fixed-point division by a positive value.
#[verifier::when_used_as_spec(spec_fx_div)]
pub fn fx_div(a: i64, b: i64) -> (r: i64)
    requires
        b > 0,
    ensures
        r == spec_fx_div(a, b),
{
    proof {
        assert((a as int) * (SCALE as int) <= 0x4000_0000_0000_0000_0000_0000_0000_0000
            && (a as int) * (SCALE as int) >= -0x4000_0000_0000_0000_0000_0000_0000_0000)
            by (nonlinear_arith)
            requires
                -0x8000_0000_0000_0000 <= a as int <= 0x7FFF_FFFF_FFFF_FFFF,
                SCALE == 1_000_000i64,
        ;
    }
    let p: i128 = (a as i128) * (SCALE as i128);
    let q: i128 = tdiv_i128(p, b as i128);
    wrap_i128(q)
}

/// Division of a fixed-point value by a positive integer count.
pub fn fx_divn(a: i64, n: usize) -> (r: i64)
    requires
        n > 0,
    ensures
        r == spec_fx_divn(a, n as int),
{
    let q: i128 = tdiv_i128(a as i128, n as i128);
    wrap_i128(q)
}

/// Saturating fixed-point square.
#[verifier::when_used_as_spec(spec_fx_sq)]
pub fn fx_sq(a: i64) -> (r: i64)
    ensures
        r == spec_fx_sq(a),
        r >= 0,
{
    proof {
        assert(0 <= (a as int) * (a as int) <= 0x4000_0000_0000_0000_0000_0000_0000_0000)
            by (nonlinear_arith)
            requires
                -0x8000_0000_0000_0000 <= a as int <= 0x7FFF_FFFF_FFFF_FFFF,
        ;
    }
    let p: i128 = (a as i128) * (a as i128);
    let q: i128 = tdiv_i128(p, SCALE as i128);
    if q > i64::MAX as i128 {
        i64::MAX
    } else {
        q as i64
    }
}

/// `isqrt_spec(n)` is the largest integer whose square is at most `n`.
pub proof fn lemma_isqrt(n: int)
    requires
        n >= 0,
    ensures
        0 <= isqrt_spec(n),
        isqrt_spec(n) * isqrt_spec(n) <= n,
        n < (isqrt_spec(n) + 1) * (isqrt_spec(n) + 1),
    decreases n,
{
    if n > 0 {
        lemma_isqrt(n - 1);
        let r0 = isqrt_spec(n - 1);
        if (r0 + 1) * (r0 + 1) <= n {
            assert(n - 1 < (r0 + 1) * (r0 + 1));
            assert(n < (r0 + 2) * (r0 + 2)) by (nonlinear_arith)
                requires
                    n <= (r0 + 1) * (r0 + 1),
                    r0 >= 0,
            ;
        }
    }
}

/// Any value bracketed by the consecutive squares around `r` has `r` as its
/// integer square root.
pub proof fn lemma_isqrt_unique(n: int, r: int)
    requires
        0 <= r,
        r * r <= n,
        n < (r + 1) * (r + 1),
    ensures
        r == isqrt_spec(n),
{
    lemma_isqrt(n);
    let s = isqrt_spec(n);
    if r < s {
        assert((r + 1) * (r + 1) <= s * s) by (nonlinear_arith)
            requires
                0 <= r,
                r + 1 <= s,
        ;
    } else if s < r {
        assert((s + 1) * (s + 1) <= r * r) by (nonlinear_arith)
            requires
                0 <= s,
                s + 1 <= r,
        ;
    }
}

/// Binary-search integer square root on 128-bit values.
fn isqrt_u128(v: u128) -> (r: u64)
    requires
        v < 0x1000_0000_0000_0000_0000_0000,
    ensures
        r as int == isqrt_spec(v as int),
{
    let mut lo: u128 = 0;
    let mut hi: u128 = 0x4_0000_0000_0000;
    while lo + 1 < hi
        invariant
            lo < hi,
            hi <= 0x4_0000_0000_0000,
            lo * lo <= v,
            v < hi * hi,
        decreases hi - lo,
    {
        let mid: u128 = lo + (hi - lo) / 2;
        proof {
            assert(mid * mid <= 0x4_0000_0000_0000 * 0x4_0000_0000_0000)
                by (nonlinear_arith)
                requires
                    0 <= mid <= 0x4_0000_0000_0000,
            ;
        }
        if mid * mid <= v {
            lo = mid;
        } else {
            hi = mid;
        }
    }
    proof {
        lemma_isqrt_unique(v as int, lo as int);
    }
    lo as u64
}

/// Fixed-point square root: the root of a non-negative value, zero on a
/// non-positive one.
#[verifier::when_used_as_spec(spec_fx_sqrt)]
pub fn fx_sqrt(a: i64) -> (r: i64)
    ensures
        r == spec_fx_sqrt(a),
        r >= 0,
{
    if a <= 0 {
        0
    } else {
        proof {
            assert((a as int) * (SCALE as int) < 0x1000_0000_0000_0000_0000_0000)
                by (nonlinear_arith)
                requires
                    0 < a as int <= 0x7FFF_FFFF_FFFF_FFFF,
                    SCALE == 1_000_000i64,
            ;
        }
        let v: u128 = (a as u128) * (SCALE as u128);
        let root: u64 = isqrt_u128(v);
        proof {
            lemma_isqrt(v as int);
            assert(isqrt_spec(v as int) < 0x1_0000_0000_0000) by (nonlinear_arith)
                requires
                    isqrt_spec(v as int) * isqrt_spec(v as int) <= v as int,
                    isqrt_spec(v as int) >= 0,
                    v < 0x1000_0000_0000_0000_0000_0000,
            ;
        }
        root as i64
    }
}

/// Saturating addition.
#[verifier::when_used_as_spec(spec_fx_sat_add)]
pub fn fx_sat_add(a: i64, b: i64) -> (r: i64)
    ensures
        r == spec_fx_sat_add(a, b),
{
    match a.checked_add(b) {
        Some(v) => v,
        None => if b > 0 {
            i64::MAX
        } else {
            i64::MIN
        },
    }
}

} // verus!
