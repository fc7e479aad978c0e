//! The base-`p` digit test at the heart of the comparison.
use vstd::arithmetic::div_mod::{lemma_div_decreases, lemma_div_pos_is_pos};
use vstd::prelude::*;

use crate::divisor::{divide_by_constant, divisor_spec};

verus! {

/// Whether some base-`p` digit of `x` exceeds `p / 2`, which by Kummer's
/// theorem is whether the odd prime `p` divides `C(2x, x)`. Zero has no digit.
pub open spec fn has_high_digit_spec(x: int, p: int) -> bool
    decreases x
    via lemma_high_digit_decreases
{
    if p < 2 || x <= 0 {
        false
    } else {
        x % p > p / 2 || has_high_digit_spec(x / p, p)
    }
}

#[via_fn]
proof fn lemma_high_digit_decreases(x: int, p: int) {
    if p >= 2 && x > 0 {
        lemma_div_decreases(x, p);
        lemma_div_pos_is_pos(x, p);
    }
}

/// Whether `n` and `m` agree on the digit test for `p`.
pub open spec fn digit_tests_agree(n: int, m: int, p: int) -> bool {
    has_high_digit_spec(n, p) == has_high_digit_spec(m, p)
}

/// Unfolds one step of the digit test and bounds the next value.
proof fn lemma_digit_step(x: int, p: int)
    requires
        p >= 2,
        x >= 0,
    ensures
        x > 0 ==> 0 <= x / p < x,
        x == 0 ==> x / p == 0 && x % p == 0,
        has_high_digit_spec(x, p) == (x > 0 && (x % p > p / 2 || has_high_digit_spec(x / p, p))),
{
    if x > 0 {
        lemma_div_decreases(x, p);
        lemma_div_pos_is_pos(x, p);
    }
}

/// Returns whether some base-`p` digit of `value` exceeds `p / 2`; `c` is the
/// reciprocal constant of `p`.
pub fn has_high_digit(value: u64, p: u64, c: u64) -> (r: bool)
    requires
        p >= 2,
        c == divisor_spec(p as int),
    ensures
        r == has_high_digit_spec(value as int, p as int),
{
    let half = p / 2;
    let mut x = value;
    while x > 0
        invariant
            p >= 2,
            half == p / 2,
            c == divisor_spec(p as int),
            has_high_digit_spec(value as int, p as int) == has_high_digit_spec(x as int, p as int),
        decreases x,
    {
        proof {
            lemma_digit_step(x as int, p as int);
        }
        let (q, digit) = divide_by_constant(x, p, c);
        if digit > half {
            return true;
        }
        x = q;
    }
    proof {
        lemma_digit_step(0, p as int);
    }
    false
}

/// Returns whether `n` and `m` agree on the digit test for `p`: either both
/// have a base-`p` digit above `p / 2` or neither has. `m_inv` is the
/// reciprocal constant of `p`. The two expansions are scanned in lock-step,
/// and the scan stops as soon as the answer is settled.
pub fn central_divide_match(n: u64, m: u64, p: u64, m_inv: u64) -> (r: bool)
    requires
        p >= 2,
        m_inv == divisor_spec(p as int),
    ensures
        r == digit_tests_agree(n as int, m as int, p as int),
{
    let p_half = p / 2;
    let mut x = n;
    let mut y = m;
    let mut ndiv = false;
    let mut mdiv = false;
    while (x > 0 || y > 0) && !(ndiv && mdiv) && !(x == y && ndiv == mdiv)
        invariant
            p >= 2,
            p_half == p / 2,
            m_inv == divisor_spec(p as int),
            has_high_digit_spec(n as int, p as int) == (ndiv || has_high_digit_spec(
                x as int,
                p as int,
            )),
            has_high_digit_spec(m as int, p as int) == (mdiv || has_high_digit_spec(
                y as int,
                p as int,
            )),
        decreases x + y,
    {
        proof {
            lemma_digit_step(x as int, p as int);
            lemma_digit_step(y as int, p as int);
        }
        let (qx, dx) = divide_by_constant(x, p, m_inv);
        let (qy, dy) = divide_by_constant(y, p, m_inv);
        ndiv = ndiv || dx > p_half;
        mdiv = mdiv || dy > p_half;
        x = qx;
        y = qy;
    }
    proof {
        lemma_digit_step(x as int, p as int);
        lemma_digit_step(y as int, p as int);
    }
    ndiv == mdiv
}

} // verus!
