//! Fixed-point scalar arithmetic for height values.
//!
//! Heights are carried as signed 64-bit integers counting micro-units:
//! `SCALE` units stand for the real value 1.0. The logistic squashing
//! function used by terrain generation is computed here entirely in
//! integer arithmetic, so results are exact, portable and reproducible.

use vstd::prelude::*;

verus! {

use vstd::arithmetic::div_mod::{
    lemma_div_is_ordered, lemma_div_multiples_vanish, lemma_div_pos_is_pos,
};
use vstd::arithmetic::mul::lemma_mul_inequality;

/// One height unit (the real value 1.0) in micro-units.
pub const SCALE: i64 = 1_000_000;

/// `e^-1` in micro-units, rounded down.
pub const EXP_NEG_ONE: i64 = 367_879;

/// Integer arguments of 30 and above make `e^-q` vanish below one
/// micro-unit, so the fixed-point exponential flushes them to zero.
pub const EXP_CUTOFF: i64 = 30;

/// `e^-q` in micro-units for a whole-number argument `q`, computed by
/// repeated multiplication with `EXP_NEG_ONE`.
pub open spec fn exp_int_fp(q: nat) -> int
    decreases q,
{
    if q == 0 {
        SCALE as int
    } else {
        exp_int_fp((q - 1) as nat) * EXP_NEG_ONE / (SCALE as int)
    }
}

/// `k` rounds of fixed-point squaring: `x -> x*x / SCALE`.
pub open spec fn sq_steps_fp(x: int, k: nat) -> int
    decreases k,
{
    if k == 0 {
        x
    } else {
        sq_steps_fp(x * x / (SCALE as int), (k - 1) as nat)
    }
}

/// `e^-r` in micro-units for a fractional argument `0 <= r < SCALE`,
/// approximated as `(1 - r/1024)^1024` by ten squarings.
pub open spec fn exp_frac_fp(r: int) -> int {
    sq_steps_fp(SCALE - r / 1024, 10)
}

/// `e^-v` in micro-units for `v >= 0` micro-units.
pub open spec fn exp_neg_fp(v: int) -> int {
    let q = v / (SCALE as int);
    let r = v % (SCALE as int);
    if q >= EXP_CUTOFF {
        0
    } else {
        exp_int_fp(q as nat) * exp_frac_fp(r) / (SCALE as int)
    }
}

/// The logistic function `1 / (1 + e^-v)` in micro-units.
pub open spec fn sigmoid_fp(v: int) -> int {
    if v >= 0 {
        SCALE * SCALE / (SCALE + exp_neg_fp(v))
    } else {
        SCALE - SCALE * SCALE / (SCALE + exp_neg_fp(-v))
    }
}

pub proof fn lemma_exp_int_fp_bounds(q: nat)
    ensures
        0 <= exp_int_fp(q) <= SCALE,
    decreases q,
{
    if q > 0 {
        lemma_exp_int_fp_bounds((q - 1) as nat);
        let prev = exp_int_fp((q - 1) as nat);
        lemma_mul_inequality(prev, SCALE as int, EXP_NEG_ONE as int);
        lemma_div_is_ordered(prev * EXP_NEG_ONE, SCALE * EXP_NEG_ONE, SCALE as int);
        assert(SCALE * (EXP_NEG_ONE as int) / (SCALE as int) == EXP_NEG_ONE) by {
            lemma_div_multiples_vanish(EXP_NEG_ONE as int, SCALE as int);
        }
        if prev * EXP_NEG_ONE >= 0 {
            lemma_div_pos_is_pos(prev * EXP_NEG_ONE, SCALE as int);
        }
        vstd::arithmetic::mul::lemma_mul_nonnegative(prev, EXP_NEG_ONE as int);
    }
}

/// One fixed-point squaring keeps a value inside `[0, SCALE]`.
pub proof fn lemma_sq_once_bounds(x: int)
    requires
        0 <= x <= SCALE,
    ensures
        0 <= x * x / (SCALE as int) <= SCALE,
{
    lemma_mul_inequality(x, SCALE as int, x);
    vstd::arithmetic::mul::lemma_mul_is_commutative(SCALE as int, x);
    lemma_mul_inequality(x, SCALE as int, SCALE as int);
    lemma_div_is_ordered(x * x, SCALE * SCALE, SCALE as int);
    assert((SCALE as int) * (SCALE as int) / (SCALE as int) == SCALE) by {
        lemma_div_multiples_vanish(SCALE as int, SCALE as int);
    }
    vstd::arithmetic::mul::lemma_mul_nonnegative(x, x);
    lemma_div_pos_is_pos(x * x, SCALE as int);
}

pub proof fn lemma_sq_steps_fp_bounds(x: int, k: nat)
    requires
        0 <= x <= SCALE,
    ensures
        0 <= sq_steps_fp(x, k) <= SCALE,
    decreases k,
{
    if k > 0 {
        lemma_sq_once_bounds(x);
        lemma_sq_steps_fp_bounds(x * x / (SCALE as int), (k - 1) as nat);
    }
}

pub proof fn lemma_exp_neg_fp_bounds(v: int)
    requires
        v >= 0,
    ensures
        0 <= exp_neg_fp(v) <= SCALE,
{
    let q = v / (SCALE as int);
    let r = v % (SCALE as int);
    if q < EXP_CUTOFF {
        vstd::arithmetic::div_mod::lemma_mod_bound(v, SCALE as int);
        vstd::arithmetic::div_mod::lemma_mod_is_mod_recursive(v, SCALE as int);
        assert(0 <= r < SCALE);
        assert(0 <= r / 1024 <= SCALE) by {
            lemma_div_is_ordered(r, SCALE as int, 1024);
            lemma_div_pos_is_pos(r, 1024);
        }
        lemma_sq_steps_fp_bounds(SCALE - r / 1024, 10);
        lemma_exp_int_fp_bounds(q as nat);
        let a = exp_int_fp(q as nat);
        let b = exp_frac_fp(r);
        lemma_mul_inequality(a, SCALE as int, b);
        vstd::arithmetic::mul::lemma_mul_is_commutative(SCALE as int, b);
        lemma_mul_inequality(b, SCALE as int, SCALE as int);
        lemma_div_is_ordered(a * b, SCALE * SCALE, SCALE as int);
        assert((SCALE as int) * (SCALE as int) / (SCALE as int) == SCALE) by {
            lemma_div_multiples_vanish(SCALE as int, SCALE as int);
        }
        vstd::arithmetic::mul::lemma_mul_nonnegative(a, b);
        lemma_div_pos_is_pos(a * b, SCALE as int);
    }
}

proof fn lemma_sigmoid_pos_part_bounds(w: int)
    requires
        w >= 0,
    ensures
        (SCALE as int) / 2 <= SCALE * SCALE / (SCALE + exp_neg_fp(w)) <= SCALE,
{
    lemma_exp_neg_fp_bounds(w);
    let e = exp_neg_fp(w);
    vstd::arithmetic::div_mod::lemma_div_is_ordered_by_denominator(
        SCALE * SCALE,
        SCALE as int,
        SCALE + e,
    );
    assert((SCALE as int) * (SCALE as int) / (SCALE as int) == SCALE) by {
        lemma_div_multiples_vanish(SCALE as int, SCALE as int);
    }
    assert(SCALE * SCALE / (2 * (SCALE as int)) == (SCALE as int) / 2) by {
        vstd::arithmetic::div_mod::lemma_div_multiples_vanish_quotient(
            SCALE as int,
            SCALE as int,
            2,
        );
        assert((SCALE as int) * (SCALE as int) == (SCALE as int) * (SCALE as int));
    }
    vstd::arithmetic::div_mod::lemma_div_is_ordered_by_denominator(
        SCALE * SCALE,
        SCALE + e,
        2 * (SCALE as int),
    );
}

/// The logistic function always lands inside `[0, SCALE]`.
pub proof fn lemma_sigmoid_fp_bounds(v: int)
    ensures
        0 <= sigmoid_fp(v) <= SCALE,
{
    if v >= 0 {
        lemma_sigmoid_pos_part_bounds(v);
    } else {
        lemma_sigmoid_pos_part_bounds(-v);
    }
}

/// Executable `e^-q` for whole-number `q`, exact against `exp_int_fp`.
fn exp_int_exec(q: u32) -> (r: i64)
    requires
        q < EXP_CUTOFF,
    ensures
        r == exp_int_fp(q as nat),
        0 <= r <= SCALE,
{
    let mut acc: i64 = SCALE;
    let mut i: u32 = 0;
    proof {
        lemma_exp_int_fp_bounds(0);
    }
    while i < q
        invariant
            0 <= i <= q,
            q < EXP_CUTOFF,
            acc == exp_int_fp(i as nat),
            0 <= acc <= SCALE,
        decreases q - i,
    {
        proof {
            lemma_exp_int_fp_bounds((i + 1) as nat);
        }
        acc = acc * EXP_NEG_ONE / SCALE;
        i = i + 1;
    }
    acc
}

/// Executable `e^-r` for fractional `0 <= r < SCALE`, exact against
/// `exp_frac_fp`.
fn exp_frac_exec(r: i64) -> (res: i64)
    requires
        0 <= r < SCALE,
    ensures
        res == exp_frac_fp(r as int),
        0 <= res <= SCALE,
{
    let mut x: i64 = SCALE - r / 1024;
    proof {
        lemma_div_is_ordered(r as int, SCALE as int, 1024);
        lemma_div_pos_is_pos(r as int, 1024);
    }
    let ghost x0: int = x as int;
    let mut k: u32 = 0;
    while k < 10
        invariant
            0 <= k <= 10,
            0 <= x <= SCALE,
            sq_steps_fp(x0, 10) == sq_steps_fp(x as int, (10 - k) as nat),
        decreases 10 - k,
    {
        proof {
            lemma_sq_once_bounds(x as int);
            assert(sq_steps_fp(x as int, (10 - k) as nat) == sq_steps_fp(
                (x as int) * (x as int) / (SCALE as int),
                (10 - k - 1) as nat,
            ));
        }
        x = x * x / SCALE;
        k = k + 1;
    }
    x
}

/// Executable `e^-v` for `v >= 0`, exact against `exp_neg_fp`.
fn exp_neg_exec(v: i64) -> (r: i64)
    requires
        v >= 0,
    ensures
        r == exp_neg_fp(v as int),
        0 <= r <= SCALE,
{
    let q = v / SCALE;
    let rem = v % SCALE;
    if q >= EXP_CUTOFF {
        0
    } else {
        proof {
            lemma_exp_int_fp_bounds(q as nat);
            vstd::arithmetic::div_mod::lemma_mod_bound(v as int, SCALE as int);
            lemma_exp_neg_fp_bounds(v as int);
        }
        let a = exp_int_exec(q as u32);
        let b = exp_frac_exec(rem);
        proof {
            lemma_mul_inequality(a as int, SCALE as int, b as int);
            vstd::arithmetic::mul::lemma_mul_is_commutative(SCALE as int, b as int);
            lemma_mul_inequality(b as int, SCALE as int, SCALE as int);
            vstd::arithmetic::mul::lemma_mul_nonnegative(a as int, b as int);
        }
        a * b / SCALE
    }
}

/// The logistic squashing function `1 / (1 + e^-v)` on a micro-unit
/// height, exact against `sigmoid_fp`; the result is a valid height in
/// `[0, SCALE]`.
pub fn sigmoid(v: i64) -> (r: i64)
    ensures
        r == sigmoid_fp(v as int),
        0 <= r <= SCALE,
{
    proof {
        lemma_sigmoid_fp_bounds(v as int);
    }
    if v >= 0 {
        let e = exp_neg_exec(v);
        SCALE * SCALE / (SCALE + e)
    } else if v <= -EXP_CUTOFF * SCALE {
        // `e^v` is below one micro-unit here, so the spec collapses to 0.
        proof {
            let w: int = -(v as int);
            assert(w / (SCALE as int) >= EXP_CUTOFF) by {
                lemma_div_is_ordered(
                    EXP_CUTOFF * SCALE,
                    w,
                    SCALE as int,
                );
                lemma_div_multiples_vanish(EXP_CUTOFF as int, SCALE as int);
                assert((SCALE as int) * (EXP_CUTOFF as int) == (EXP_CUTOFF as int) * (SCALE as int));
            }
            assert(exp_neg_fp(w) == 0);
            assert(SCALE * SCALE / (SCALE + 0int) == SCALE) by {
                lemma_div_multiples_vanish(SCALE as int, SCALE as int);
            }
        }
        0
    } else {
        let e = exp_neg_exec(-v);
        SCALE - SCALE * SCALE / (SCALE + e)
    }
}

} // verus!
