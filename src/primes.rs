//! Tables of odd primes with their reciprocal constants.
use vstd::prelude::*;

use crate::condition::{is_prime, is_prime_table, table_has};
use crate::divisor::get_divisor;

verus! {

/// Relies on `primal::Sieve::new(limit)` and `Sieve::primes_from(3)`: the
/// primes from 3 upwards in ascending order, every prime up to `limit` among
/// them. The sieve may run a little past `limit`, so larger primes may follow.
/// `primes_from(3)` panics only past the sieve's upper bound, which is at
/// least `limit`.
#[verifier::external_body]
fn sieve_odd_primes(limit: u64) -> (r: Vec<u64>)
    requires
        limit >= 3,
    ensures
        forall|i: int| 0 <= i < r@.len() ==> r@[i] >= 3 && is_prime(#[trigger] r@[i] as int),
        forall|i: int, j: int| 0 <= i < j < r@.len() ==> r@[i] < r@[j],
        forall|p: u64| 3 <= p <= limit && is_prime(p as int) ==> #[trigger] r@.contains(p),
{
    primal::Sieve::new(limit as usize).primes_from(3).map(|p| p as u64).collect()
}

/// Returns, in ascending order, each odd prime up to `limit` (and possibly a
/// few beyond it) paired with its reciprocal constant.
pub fn prime_table(limit: u64) -> (r: Vec<(u64, u64)>)
    ensures
        is_prime_table(r@, limit as int),
{
    let sieve_limit: u64 = if limit < 3 {
        3
    } else {
        limit
    };
    let odd_primes = sieve_odd_primes(sieve_limit);
    let mut table: Vec<(u64, u64)> = Vec::new();
    let mut i: usize = 0;
    while i < odd_primes.len()
        invariant
            i <= odd_primes@.len(),
            table@.len() == i,
            forall|j: int| 0 <= j < odd_primes@.len() ==> odd_primes@[j] >= 3 && is_prime(
                #[trigger] odd_primes@[j] as int,
            ),
            forall|j: int, l: int| 0 <= j < l < odd_primes@.len() ==> odd_primes@[j] < odd_primes@[l],
            forall|j: int| 0 <= j < i ==> (#[trigger] table@[j]).0 == odd_primes@[j],
            is_prime_table(table@, 0),
        decreases odd_primes@.len() - i,
    {
        let p = odd_primes[i];
        let c = get_divisor(p);
        table.push((p, c));
        i = i + 1;
    }
    assert forall|p: u64| 3 <= p <= limit && is_prime(p as int) implies #[trigger] table_has(
        table@,
        p,
    ) by {
        assert(odd_primes@.contains(p));
        let j = choose|j: int| 0 <= j < odd_primes@.len() && odd_primes@[j] == p;
        assert(table@[j].0 == p);
    }
    table
}

} // verus!
