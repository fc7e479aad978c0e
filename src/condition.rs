//! The pair condition: do `n` and `m` agree on the digit test for every
//! odd prime of a table, up to twice the larger of the two?
use vstd::prelude::*;

use crate::digits::{central_divide_match, digit_tests_agree};
use crate::divisor::divisor_spec;

verus! {

/// The largest prime that the comparison of `n` and `m` looks at:
/// `2 * max(n, m)`, clamped to `u64::MAX`.
pub open spec fn prime_bound(n: int, m: int) -> int {
    let b = 2 * if n >= m {
        n
    } else {
        m
    };
    if b > u64::MAX {
        u64::MAX as int
    } else {
        b
    }
}

/// `p` is a prime number.
pub open spec fn is_prime(p: int) -> bool {
    p >= 2 && forall|d: int| 2 <= d < p ==> #[trigger] (p % d) != 0
}

/// A table of (prime, reciprocal constant) entries: every first component is
/// at least 2, every second one is the constant of the first, and the first
/// components strictly increase.
pub open spec fn valid_table(t: Seq<(u64, u64)>) -> bool {
    &&& forall|i: int|
        #![trigger t[i]]
        0 <= i < t.len() ==> t[i].0 >= 2 && t[i].1 == divisor_spec(t[i].0 as int)
    &&& forall|i: int, j: int| 0 <= i < j < t.len() ==> t[i].0 < t[j].0
}

/// A valid table whose entries are odd primes and that holds every odd prime
/// up to `limit`; it may hold larger ones too.
pub open spec fn is_prime_table(t: Seq<(u64, u64)>, limit: int) -> bool {
    &&& valid_table(t)
    &&& forall|i: int| #![trigger t[i]] 0 <= i < t.len() ==> t[i].0 >= 3 && is_prime(t[i].0 as int)
    &&& forall|p: u64| 3 <= p <= limit && is_prime(p as int) ==> #[trigger] table_has(t, p)
}

/// Some entry of `t` is for `p`.
pub open spec fn table_has(t: Seq<(u64, u64)>, p: u64) -> bool {
    exists|i: int| 0 <= i < t.len() && t[i].0 == p
}

/// The prime `p` raises no objection to the pair: it is excluded, or `n` and
/// `m` agree on its digit test.
pub open spec fn prime_agrees(n: u64, m: u64, p: u64, excluded: Seq<u64>) -> bool {
    excluded.contains(p) || digit_tests_agree(n as int, m as int, p as int)
}

/// Every entry of `t` up to `prime_bound(n, m)` raises no objection.
pub open spec fn condition_holds(n: u64, m: u64, t: Seq<(u64, u64)>, excluded: Seq<u64>) -> bool {
    forall|i: int|
        #![trigger t[i]]
        0 <= i < t.len() && t[i].0 <= prime_bound(n as int, m as int) ==> prime_agrees(
            n,
            m,
            t[i].0,
            excluded,
        )
}

/// The condition itself, free of any table: every odd prime up to
/// `prime_bound(n, m)` that is not excluded sees `n` and `m` agree.
pub open spec fn kummer_holds(n: u64, m: u64, excluded: Seq<u64>) -> bool {
    forall|p: u64|
        3 <= p <= prime_bound(n as int, m as int) && is_prime(p as int) ==> #[trigger] prime_agrees(
            n,
            m,
            p,
            excluded,
        )
}

/// Returns whether `p` is one of `excluded`.
fn is_excluded(excluded: &[u64], p: u64) -> (r: bool)
    ensures
        r == excluded@.contains(p),
{
    let mut i: usize = 0;
    while i < excluded.len()
        invariant
            i <= excluded@.len(),
            forall|j: int| 0 <= j < i ==> excluded@[j] != p,
        decreases excluded@.len() - i,
    {
        if excluded[i] == p {
            return true;
        }
        i = i + 1;
    }
    false
}

/// Returns whether `n` and `m` agree on the digit test for every prime of the
/// table up to `2 * max(n, m)` (clamped to `u64::MAX`) that `exclude_primes`
/// does not name. The scan follows the table in ascending order and stops at
/// the first prime that objects, or at the first one past the bound.
pub fn check_kummer_condition(n: u64, m: u64, primes: &[(u64, u64)], exclude_primes: &[u64]) -> (r:
    bool)
    requires
        valid_table(primes@),
    ensures
        r == condition_holds(n, m, primes@, exclude_primes@),
{
    let top: u64 = if n >= m {
        n
    } else {
        m
    };
    let max_prime: u64 = if top > u64::MAX / 2 {
        u64::MAX
    } else {
        2 * top
    };
    let mut i: usize = 0;
    while i < primes.len()
        invariant
            valid_table(primes@),
            max_prime == prime_bound(n as int, m as int),
            i <= primes@.len(),
            forall|j: int|
                #![trigger primes@[j]]
                0 <= j < i && primes@[j].0 <= max_prime ==> prime_agrees(
                    n,
                    m,
                    primes@[j].0,
                    exclude_primes@,
                ),
        decreases primes@.len() - i,
    {
        let (p, c) = primes[i];
        if p > max_prime {
            assert(forall|j: int|
                #![trigger primes@[j]]
                i <= j < primes@.len() ==> primes@[j].0 > max_prime);
            return true;
        }
        if !is_excluded(exclude_primes, p) && !central_divide_match(n, m, p, c) {
            return false;
        }
        i = i + 1;
    }
    true
}

/// Every value agrees with itself, whatever the table and the exclusions.
pub proof fn lemma_reflexive(n: u64, t: Seq<(u64, u64)>, excluded: Seq<u64>)
    ensures
        condition_holds(n, n, t, excluded),
{
}

/// Swapping the two values of a pair does not change the answer.
pub proof fn lemma_symmetric(n: u64, m: u64, t: Seq<(u64, u64)>, excluded: Seq<u64>)
    ensures
        condition_holds(n, m, t, excluded) == condition_holds(m, n, t, excluded),
{
    assert(prime_bound(n as int, m as int) == prime_bound(m as int, n as int));
}

/// Two tables that hold the same primes up to `prime_bound(n, m)` give the
/// same answer: enlarging a table past the bound changes nothing.
pub proof fn lemma_table_extension(
    n: u64,
    m: u64,
    t1: Seq<(u64, u64)>,
    t2: Seq<(u64, u64)>,
    excluded: Seq<u64>,
)
    requires
        valid_table(t1),
        valid_table(t2),
        forall|p: u64| p <= prime_bound(n as int, m as int) ==> table_has(t1, p) == table_has(t2, p),
    ensures
        condition_holds(n, m, t1, excluded) == condition_holds(n, m, t2, excluded),
{
    if condition_holds(n, m, t1, excluded) {
        lemma_table_extension_one_way(n, m, t1, t2, excluded);
    }
    if condition_holds(n, m, t2, excluded) {
        lemma_table_extension_one_way(n, m, t2, t1, excluded);
    }
}

proof fn lemma_table_extension_one_way(
    n: u64,
    m: u64,
    t1: Seq<(u64, u64)>,
    t2: Seq<(u64, u64)>,
    excluded: Seq<u64>,
)
    requires
        forall|p: u64| p <= prime_bound(n as int, m as int) ==> table_has(t1, p) == table_has(t2, p),
        condition_holds(n, m, t1, excluded),
    ensures
        condition_holds(n, m, t2, excluded),
{
    assert forall|i: int|
        #![trigger t2[i]]
        0 <= i < t2.len() && t2[i].0 <= prime_bound(n as int, m as int) implies prime_agrees(
        n,
        m,
        t2[i].0,
        excluded,
    ) by {
        let p = t2[i].0;
        assert(table_has(t2, p));
        assert(table_has(t1, p));
        let j = choose|j: int| 0 <= j < t1.len() && t1[j].0 == p;
        assert(t1[j].0 == p);
    }
}

/// Excluding more primes can only turn a refusal into an agreement, never the
/// reverse.
pub proof fn lemma_exclusion_monotone(
    n: u64,
    m: u64,
    t: Seq<(u64, u64)>,
    excluded: Seq<u64>,
    more: Seq<u64>,
)
    requires
        forall|p: u64| excluded.contains(p) ==> more.contains(p),
    ensures
        condition_holds(n, m, t, excluded) ==> condition_holds(n, m, t, more),
{
}

/// On a table that holds every odd prime up to the pair's bound, the answer is
/// the condition itself, whatever else the table holds.
pub proof fn lemma_prime_table_decides(
    n: u64,
    m: u64,
    t: Seq<(u64, u64)>,
    limit: int,
    excluded: Seq<u64>,
)
    requires
        is_prime_table(t, limit),
        prime_bound(n as int, m as int) <= limit,
    ensures
        condition_holds(n, m, t, excluded) == kummer_holds(n, m, excluded),
{
    if condition_holds(n, m, t, excluded) {
        assert forall|p: u64|
            3 <= p <= prime_bound(n as int, m as int) && is_prime(
                p as int,
            ) implies #[trigger] prime_agrees(n, m, p, excluded) by {
            assert(table_has(t, p));
            let j = choose|j: int| 0 <= j < t.len() && t[j].0 == p;
            assert(t[j].0 == p);
        }
    }
    if kummer_holds(n, m, excluded) {
        assert forall|i: int|
            #![trigger t[i]]
            0 <= i < t.len() && t[i].0 <= prime_bound(n as int, m as int) implies prime_agrees(
            n,
            m,
            t[i].0,
            excluded,
        ) by {
            let p = t[i].0;
            assert(3 <= p && is_prime(p as int));
        }
    }
}

/// Prime tables built for two different limits, both at least the pair's
/// bound, give the same answer: a larger sieve changes nothing.
pub proof fn lemma_prime_tables_agree(
    n: u64,
    m: u64,
    t1: Seq<(u64, u64)>,
    limit1: int,
    t2: Seq<(u64, u64)>,
    limit2: int,
    excluded: Seq<u64>,
)
    requires
        is_prime_table(t1, limit1),
        is_prime_table(t2, limit2),
        prime_bound(n as int, m as int) <= limit1,
        prime_bound(n as int, m as int) <= limit2,
    ensures
        condition_holds(n, m, t1, excluded) == condition_holds(n, m, t2, excluded),
{
    lemma_prime_table_decides(n, m, t1, limit1, excluded);
    lemma_prime_table_decides(n, m, t2, limit2, excluded);
}

} // verus!
