//! The range search: every `n` for which the pair `(n, n + k)` meets the
//! condition, chunk by chunk, with a prime table sized for each chunk.
use vstd::prelude::*;

use crate::condition::{
    check_kummer_condition, condition_holds, kummer_holds, lemma_prime_table_decides,
    prime_bound, valid_table,
};
use crate::primes::prime_table;

verus! {

/// The size of the first chunk of a search.
pub const INITIAL_CHUNK_SIZE: u64 = 65536;

/// A chunk of candidates: `start` included, `end` excluded.
#[derive(Clone, Copy, Debug, PartialEq, Eq)]
pub struct Chunk {
    pub start: u64,
    pub end: u64,
}

/// Where a search stands: the first candidate not yet looked at, the size of
/// the next chunk, and the limit (excluded) if there is one.
#[derive(Clone, Copy, Debug, PartialEq, Eq)]
pub struct ChunkPlan {
    pub next_start: u64,
    pub chunk_size: u64,
    pub limit: Option<u64>,
}

/// `a + b`, clamped to `u64::MAX`.
pub open spec fn saturating_add_spec(a: int, b: int) -> int {
    if a + b > u64::MAX {
        u64::MAX as int
    } else {
        a + b
    }
}

/// `2 * a`, clamped to `u64::MAX`.
pub open spec fn saturating_double_spec(a: int) -> int {
    if 2 * a > u64::MAX {
        u64::MAX as int
    } else {
        2 * a
    }
}

/// Returns `a + b`, clamped to `u64::MAX`.
fn saturating_add(a: u64, b: u64) -> (r: u64)
    ensures
        r == saturating_add_spec(a as int, b as int),
{
    if a > u64::MAX - b {
        u64::MAX
    } else {
        a + b
    }
}

/// Returns `2 * a`, clamped to `u64::MAX`.
fn saturating_double(a: u64) -> (r: u64)
    ensures
        r == saturating_double_spec(a as int),
{
    if a > u64::MAX / 2 {
        u64::MAX
    } else {
        2 * a
    }
}

impl ChunkPlan {
    /// A search that starts at zero with a first chunk of
    /// `INITIAL_CHUNK_SIZE` candidates.
    pub fn new(limit: Option<u64>) -> (r: ChunkPlan)
        ensures
            r.next_start == 0,
            r.chunk_size == INITIAL_CHUNK_SIZE,
            r.limit == limit,
    {
        ChunkPlan { next_start: 0, chunk_size: INITIAL_CHUNK_SIZE, limit }
    }

    /// Hands out the next chunk, or `None` once the limit is reached. A chunk
    /// runs from `next_start` for `chunk_size` candidates (clamped to
    /// `u64::MAX`), cut short at the limit; the plan then moves past it and
    /// doubles the chunk size, clamped to `u64::MAX`.
    pub fn next_chunk(&mut self) -> (r: Option<Chunk>)
        ensures
            final(self).limit == old(self).limit,
            match old(self).limit {
                Some(l) => (r is None) == (old(self).next_start >= l),
                None => r is Some,
            },
            r is None ==> *final(self) == *old(self),
            r matches Some(c) ==> {
                let full = saturating_add_spec(
                    old(self).next_start as int,
                    old(self).chunk_size as int,
                );
                &&& c.start == old(self).next_start
                &&& c.end == match old(self).limit {
                    Some(l) => if l < full {
                        l as int
                    } else {
                        full
                    },
                    None => full,
                }
                &&& final(self).next_start == c.end
                &&& final(self).chunk_size == saturating_double_spec(
                    old(self).chunk_size as int,
                )
            },
    {
        let start = self.next_start;
        let full = saturating_add(start, self.chunk_size);
        let end = match self.limit {
            Some(l) => {
                if start >= l {
                    return None;
                }
                if l < full {
                    l
                } else {
                    full
                }
            },
            None => full,
        };
        self.next_start = end;
        self.chunk_size = saturating_double(self.chunk_size);
        Some(Chunk { start, end })
    }
}

/// Returns the bound of the prime table for a chunk that ends (excluded) at
/// `end`: `2 * (end + k)`, each step clamped to `u64::MAX`.
pub fn sieve_limit(end: u64, k: u64) -> (r: u64)
    ensures
        r == saturating_double_spec(saturating_add_spec(end as int, k as int)),
{
    saturating_double(saturating_add(end, k))
}

/// The sieve limit of a chunk covers the bound of each of its pairs.
proof fn lemma_sieve_limit_covers(n: u64, k: u64, end: u64)
    requires
        n < end,
        n + k <= u64::MAX,
    ensures
        prime_bound(n as int, (n + k) as int) <= saturating_double_spec(
            saturating_add_spec(end as int, k as int),
        ),
{
}

/// The intermediate results of a match: entry `j - 1` tells whether `n`
/// meets the condition with `n + j`, for `j` from 1 to `k - 1`.
pub open spec fn pattern_matches(n: u64, k: u64, t: Seq<(u64, u64)>, v: Seq<bool>) -> bool {
    &&& v.len() == if k == 0 {
        0
    } else {
        k - 1
    }
    &&& forall|j: int|
        #![trigger v[j]]
        0 <= j < v.len() ==> v[j] == condition_holds(n, (n + j + 1) as u64, t, Seq::empty())
}

/// Evaluates the candidate `n`: `None` where `(n, n + k)` does not meet the
/// condition on the table `primes`; otherwise, for each `j` from 1 to `k - 1`,
/// whether `(n, n + j)` does.
pub fn match_report(n: u64, k: u64, primes: &[(u64, u64)]) -> (r: Option<Vec<bool>>)
    requires
        valid_table(primes@),
        n + k <= u64::MAX,
    ensures
        (r is Some) == condition_holds(n, (n + k) as u64, primes@, Seq::empty()),
        r matches Some(v) ==> pattern_matches(n, k, primes@, v@),
{
    let none: Vec<u64> = Vec::new();
    assert(none@ =~= Seq::<u64>::empty());
    if !check_kummer_condition(n, n + k, primes, none.as_slice()) {
        return None;
    }
    let mut pattern: Vec<bool> = Vec::new();
    let mut j: u64 = 1;
    while j < k
        invariant
            valid_table(primes@),
            n + k <= u64::MAX,
            none@ == Seq::<u64>::empty(),
            1 <= j,
            k == 0 ==> j == 1,
            k > 0 ==> j <= k,
            pattern@.len() == j - 1,
            forall|i: int|
                #![trigger pattern@[i]]
                0 <= i < pattern@.len() ==> pattern@[i] == condition_holds(
                    n,
                    (n + i + 1) as u64,
                    primes@,
                    Seq::empty(),
                ),
        decreases k - j,
    {
        let holds = check_kummer_condition(n, n + j, primes, none.as_slice());
        pattern.push(holds);
        j = j + 1;
    }
    Some(pattern)
}

/// Returns, in ascending order, each `n` of the chunk for which `(n, n + k)`
/// meets the condition on the table `primes`.
pub fn chunk_matches(chunk: Chunk, k: u64, primes: &[(u64, u64)]) -> (r: Vec<u64>)
    requires
        valid_table(primes@),
        chunk.end as int + k <= u64::MAX + 1,
    ensures
        forall|i: int, j: int| 0 <= i < j < r@.len() ==> r@[i] < r@[j],
        forall|i: int|
            #![trigger r@[i]]
            0 <= i < r@.len() ==> chunk.start <= r@[i] < chunk.end && condition_holds(
                r@[i],
                (r@[i] + k) as u64,
                primes@,
                Seq::empty(),
            ),
        forall|n: u64|
            chunk.start <= n < chunk.end && condition_holds(n, (n + k) as u64, primes@, Seq::empty())
                ==> #[trigger] r@.contains(n),
{
    let none: Vec<u64> = Vec::new();
    assert(none@ =~= Seq::<u64>::empty());
    let mut found: Vec<u64> = Vec::new();
    let mut n = chunk.start;
    while n < chunk.end
        invariant
            valid_table(primes@),
            chunk.end as int + k <= u64::MAX + 1,
            none@ == Seq::<u64>::empty(),
            chunk.start <= n,
            n <= chunk.end || chunk.start > chunk.end,
            chunk.start > chunk.end ==> found@.len() == 0,
            forall|i: int, j: int| 0 <= i < j < found@.len() ==> found@[i] < found@[j],
            forall|i: int|
                #![trigger found@[i]]
                0 <= i < found@.len() ==> chunk.start <= found@[i] < n && condition_holds(
                    found@[i],
                    (found@[i] + k) as u64,
                    primes@,
                    Seq::empty(),
                ),
            forall|x: u64|
                chunk.start <= x < n && condition_holds(x, (x + k) as u64, primes@, Seq::empty())
                    ==> #[trigger] found@.contains(x),
        decreases chunk.end - n,
    {
        let ghost before = found@;
        if check_kummer_condition(n, n + k, primes, none.as_slice()) {
            found.push(n);
            assert(found@[found@.len() - 1] == n);
            assert forall|x: u64| before.contains(x) implies #[trigger] found@.contains(x) by {
                let i = choose|i: int| 0 <= i < before.len() && before[i] == x;
                assert(found@[i] == x);
            }
        }
        n = n + 1;
    }
    found
}

/// Returns whether `n` and `n + k` agree on the digit test for every odd
/// prime up to `2 * (n + k)` that `exclude_primes` does not name, on a prime
/// table built for that bound.
pub fn check_pair(n: u64, k: u64, exclude_primes: &[u64]) -> (r: bool)
    requires
        n + k <= u64::MAX,
    ensures
        r == kummer_holds(n, (n + k) as u64, exclude_primes@),
{
    let m = n + k;
    let table = prime_table(saturating_double(m));
    proof {
        lemma_prime_table_decides(
            n,
            m,
            table@,
            saturating_double_spec(m as int),
            exclude_primes@,
        );
    }
    check_kummer_condition(n, m, table.as_slice(), exclude_primes)
}

/// Returns, in ascending order, each `n` below `limit` for which `n` and
/// `n + k` agree on the digit test for every odd prime up to `2 * (n + k)`.
/// The range is walked in chunks of growing size, each with a prime table
/// built for the chunk's last pair.
pub fn search_up_to(k: u64, limit: u64) -> (r: Vec<u64>)
    requires
        limit as int + k <= u64::MAX + 1,
    ensures
        forall|i: int, j: int| 0 <= i < j < r@.len() ==> r@[i] < r@[j],
        forall|i: int|
            #![trigger r@[i]]
            0 <= i < r@.len() ==> r@[i] < limit && kummer_holds(
                r@[i],
                (r@[i] + k) as u64,
                Seq::empty(),
            ),
        forall|n: u64|
            n < limit && kummer_holds(n, (n + k) as u64, Seq::empty()) ==> #[trigger] r@.contains(
                n,
            ),
{
    let mut plan = ChunkPlan::new(Some(limit));
    let mut found: Vec<u64> = Vec::new();
    while plan.next_start < limit
        invariant
            limit as int + k <= u64::MAX + 1,
            plan.limit == Some(limit),
            plan.next_start <= limit,
            plan.chunk_size >= 1,
            forall|i: int, j: int| 0 <= i < j < found@.len() ==> found@[i] < found@[j],
            forall|i: int|
                #![trigger found@[i]]
                0 <= i < found@.len() ==> found@[i] < plan.next_start && kummer_holds(
                    found@[i],
                    (found@[i] + k) as u64,
                    Seq::empty(),
                ),
            forall|x: u64|
                x < plan.next_start && kummer_holds(x, (x + k) as u64, Seq::empty())
                    ==> #[trigger] found@.contains(x),
        decreases limit - plan.next_start,
    {
        let ghost start = plan.next_start;
        let ghost before = found@;
        assert(forall|x: u64|
            x < start && kummer_holds(x, (x + k) as u64, Seq::empty()) ==> #[trigger] before.contains(
                x,
            ));
        if let Some(chunk) = plan.next_chunk() {
            let table = prime_table(sieve_limit(chunk.end, k));
            let mut matches = chunk_matches(chunk, k, table.as_slice());
            proof {
                assert forall|x: u64| chunk.start <= x < chunk.end implies condition_holds(
                    x,
                    (x + k) as u64,
                    table@,
                    Seq::empty(),
                ) == #[trigger] kummer_holds(x, (x + k) as u64, Seq::empty()) by {
                    lemma_sieve_limit_covers(x, k, chunk.end);
                    lemma_prime_table_decides(
                        x,
                        (x + k) as u64,
                        table@,
                        saturating_double_spec(saturating_add_spec(chunk.end as int, k as int)),
                        Seq::empty(),
                    );
                }
            }
            let ghost added = matches@;
            found.append(&mut matches);
            proof {
                assert forall|x: u64|
                    x < plan.next_start && kummer_holds(
                        x,
                        (x + k) as u64,
                        Seq::empty(),
                    ) implies #[trigger] found@.contains(x) by {
                    if x < chunk.start {
                        assert(before.contains(x));
                        let i = choose|i: int| 0 <= i < before.len() && before[i] == x;
                        assert(found@[i] == x);
                    } else {
                        assert(added.contains(x));
                        let i = choose|i: int| 0 <= i < added.len() && added[i] == x;
                        assert(found@[before.len() + i] == x);
                    }
                }
                assert forall|i: int|
                    #![trigger found@[i]]
                    0 <= i < found@.len() implies found@[i] < plan.next_start && kummer_holds(
                    found@[i],
                    (found@[i] + k) as u64,
                    Seq::empty(),
                ) by {
                    if i >= before.len() {
                        assert(added[i - before.len()] == found@[i]);
                    }
                }
                assert forall|i: int, j: int|
                    0 <= i < j < found@.len() implies found@[i] < found@[j] by {
                    if j >= before.len() {
                        assert(added[j - before.len()] == found@[j]);
                        if i >= before.len() {
                            assert(added[i - before.len()] == found@[i]);
                        }
                    }
                }
            }
        }
    }
    found
}

} // verus!
