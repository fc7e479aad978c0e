//! The fixed-point reciprocal that replaces division by a prime.
use vstd::arithmetic::div_mod::{lemma_fundamental_div_mod, lemma_mod_pos_bound};
use vstd::prelude::*;

verus! {

/// `2^64`, the weight of the high word of a 128-bit product.
pub open spec fn word_modulus() -> int {
    0x1_0000_0000_0000_0000int
}

/// The reciprocal constant of `p`: one more than `u64::MAX / p`.
pub open spec fn divisor_spec(p: int) -> int {
    (u64::MAX as int) / p + 1
}

/// The quotient read off the constant: the high word of `x * divisor_spec(p)`.
pub open spec fn fixed_point_quotient(x: int, p: int) -> int {
    (x * divisor_spec(p)) / word_modulus()
}

/// Returns the reciprocal constant `u64::MAX / p + 1` of `p`.
pub fn get_divisor(p: u64) -> (r: u64)
    requires
        p >= 2,
    ensures
        r == divisor_spec(p as int),
{
    assert(u64::MAX / p <= u64::MAX / 2) by (nonlinear_arith)
        requires
            p >= 2,
    ;
    u64::MAX / p + 1
}

/// The constant times `p` exceeds `2^64` by less than `p`.
pub proof fn lemma_divisor_times_prime(p: int)
    requires
        p >= 2,
    ensures
        word_modulus() <= divisor_spec(p) * p,
        divisor_spec(p) * p < word_modulus() + p,
{
    let w = u64::MAX as int;
    lemma_fundamental_div_mod(w, p);
    lemma_mod_pos_bound(w, p);
    assert(divisor_spec(p) * p == p * (w / p) + p) by (nonlinear_arith)
        requires
            divisor_spec(p) == w / p + 1,
    ;
}

/// If `y < k * 2^64` then the high word of `y` is below `k`; if `k * 2^64 <= y`,
/// it is at least `k`.
proof fn lemma_high_word_bounds(y: int, k: int)
    requires
        y >= 0,
    ensures
        y < k * word_modulus() ==> y / word_modulus() < k,
        k * word_modulus() <= y ==> k <= y / word_modulus(),
{
    let w = word_modulus();
    lemma_fundamental_div_mod(y, w);
    lemma_mod_pos_bound(y, w);
    assert(y < k * w ==> y / w < k) by (nonlinear_arith)
        requires
            y == w * (y / w) + y % w,
            0 <= y % w,
            w > 0,
    ;
    assert(k * w <= y ==> k <= y / w) by (nonlinear_arith)
        requires
            y == w * (y / w) + y % w,
            y % w < w,
            w > 0,
    ;
}

/// For every 64-bit dividend the quotient read off the constant is the true
/// quotient or one more; it is exactly the true quotient when `x * p < 2^64`.
pub proof fn lemma_fixed_point_quotient(x: int, p: int)
    requires
        p >= 2,
        0 <= x < word_modulus(),
    ensures
        x / p <= fixed_point_quotient(x, p) <= x / p + 1,
        x * p < word_modulus() ==> fixed_point_quotient(x, p) == x / p,
{
    let w = word_modulus();
    let c = divisor_spec(p);
    let a = x / p;
    let r = x % p;
    lemma_divisor_times_prime(p);
    lemma_fundamental_div_mod(x, p);
    lemma_mod_pos_bound(x, p);
    assert(c >= 1) by (nonlinear_arith)
        requires
            w <= c * p,
            p >= 2,
            w > 0,
    ;
    assert(a * w <= x * c) by (nonlinear_arith)
        requires
            x == p * a + r,
            r >= 0,
            a >= 0,
            c >= 0,
            w <= c * p,
    ;
    assert(x * c < (a + 2) * w) by (nonlinear_arith)
        requires
            x == p * a + r,
            0 <= r < p,
            0 <= x < w,
            c * p < w + p,
            p >= 2,
    ;
    assert(x * p < w ==> x * c < (a + 1) * w) by (nonlinear_arith)
        requires
            x == p * a + r,
            0 <= r < p,
            0 <= x,
            c * p < w + p,
            p >= 2,
    ;
    lemma_high_word_bounds(x * c, a);
    lemma_high_word_bounds(x * c, a + 1);
    lemma_high_word_bounds(x * c, a + 2);
}

/// Exactness of the reciprocal constant: below `2^64 / p` the quotient read
/// off the constant equals integer division by `p`.
pub proof fn lemma_reciprocal_quotient_exact(x: u64, p: u64)
    requires
        p >= 2,
        (x as int) * (p as int) < word_modulus(),
    ensures
        fixed_point_quotient(x as int, p as int) == (x / p) as int,
{
    lemma_fixed_point_quotient(x as int, p as int);
}

/// Divides `x` by `p` through the reciprocal constant `c`, with one corrective
/// step where the constant overshoots; returns the quotient and the remainder.
pub fn divide_by_constant(x: u64, p: u64, c: u64) -> (r: (u64, u64))
    requires
        p >= 2,
        c == divisor_spec(p as int),
    ensures
        r.0 == x / p,
        r.1 == x % p,
{
    proof {
        assert((x as int) * (c as int) <= 0xffff_ffff_ffff_ffff_ffff_ffff_ffff_ffffint)
            by (nonlinear_arith)
            requires
                x <= u64::MAX,
                c <= u64::MAX,
        ;
    }
    let product: u128 = (x as u128) * (c as u128);
    let high: u128 = product >> 64u32;
    proof {
        assert(product >> 64u32 == product / 0x1_0000_0000_0000_0000u128) by (bit_vector);
        lemma_fixed_point_quotient(x as int, p as int);
        lemma_fundamental_div_mod(x as int, p as int);
        lemma_mod_pos_bound(x as int, p as int);
        assert(x / p < u64::MAX) by (nonlinear_arith)
            requires
                p >= 2,
        ;
        assert(high as int == fixed_point_quotient(x as int, p as int));
    }
    let mut q: u64 = high as u64;
    proof {
        assert((q as int) * (p as int) <= 0xffff_ffff_ffff_ffff_ffff_ffff_ffff_ffffint)
            by (nonlinear_arith)
            requires
                q <= u64::MAX,
                p <= u64::MAX,
        ;
    }
    if (q as u128) * (p as u128) > x as u128 {
        proof {
            assert(q > 0) by (nonlinear_arith)
                requires
                    (q as int) * (p as int) > x as int,
                    x >= 0,
            ;
        }
        q = q - 1;
    }
    proof {
        let a = (x / p) as int;
        let h = high as int;
        assert(q == a && q * p <= x && x - q * p == x % p) by (nonlinear_arith)
            requires
                x as int == p * a + (x % p) as int,
                0 <= (x % p) < p,
                a <= h <= a + 1,
                h * p > x ==> q == h - 1,
                h * p <= x ==> q == h,
                a >= 0,
        ;
    }
    (q, x - q * p)
}

} // verus!
