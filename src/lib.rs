//! Comparison of the odd prime factors of central binomial coefficients.
//!
//! By Kummer's theorem an odd prime `p` divides `C(2n, n)` exactly when adding
//! `n` to itself in base `p` produces a carry, that is when some base-`p` digit
//! of `n` exceeds `p / 2`. Two values `n` and `m` are compared prime by prime
//! with that digit test, without computing a single factorial.

pub mod condition;
pub mod digits;
pub mod divisor;
pub mod primes;
pub mod search;

pub use condition::check_kummer_condition;
pub use digits::{central_divide_match, has_high_digit};
pub use divisor::get_divisor;
pub use primes::prime_table;
pub use search::{
    check_pair, chunk_matches, match_report, search_up_to, sieve_limit, Chunk, ChunkPlan,
};
