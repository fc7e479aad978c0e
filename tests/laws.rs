use kummer::divisor::divide_by_constant;
use kummer::{
    central_divide_match, check_kummer_condition, check_pair, get_divisor, has_high_digit,
    prime_table,
};

#[test]
fn divisor_constant_values() {
    assert_eq!(get_divisor(3), 6148914691236517206);
    assert_eq!(get_divisor(2), 9223372036854775808);
    assert_eq!(get_divisor(7), u64::MAX / 7 + 1);
}

#[test]
fn reciprocal_quotient_matches_division() {
    let primes = [3u64, 5, 7, 11, 13, 101, 65537, 999983, 9999991];
    let samples = [
        0u64,
        1,
        2,
        1000,
        123456789,
        (1u64 << 40) - 1,
        (1u64 << 39) + 12345,
        987654321987,
    ];
    for &p in &primes {
        let c = get_divisor(p);
        for &x in &samples {
            let x = x % (1u64 << 40);
            let quotient = ((x as u128 * c as u128) >> 64) as u64;
            assert_eq!(quotient, x / p);
            assert_eq!(divide_by_constant(x, p, c), (x / p, x % p));
        }
    }
}

#[test]
fn division_corrects_large_dividends() {
    for &p in &[3u64, 5, 7, 1_000_003] {
        let c = get_divisor(p);
        for &x in &[u64::MAX, u64::MAX - 1, u64::MAX - 2, 1u64 << 63, (1u64 << 63) + 1] {
            assert_eq!(divide_by_constant(x, p, c), (x / p, x % p));
        }
    }
}

#[test]
fn high_digit_examples() {
    let c3 = get_divisor(3);
    assert!(!has_high_digit(0, 3, c3));
    assert!(!has_high_digit(1, 3, c3));
    assert!(has_high_digit(2, 3, c3));
    // 4 is 11 in base 3: no digit above 1.
    assert!(!has_high_digit(4, 3, c3));
    // 5 is 12 in base 3.
    assert!(has_high_digit(5, 3, c3));
    let c5 = get_divisor(5);
    assert!(!has_high_digit(12, 5, c5));
    assert!(has_high_digit(13, 5, c5));
    assert!(has_high_digit(u64::MAX, 3, c3));
}

#[test]
fn lock_step_comparison() {
    let c3 = get_divisor(3);
    assert!(central_divide_match(0, 0, 3, c3));
    assert!(central_divide_match(1, 4, 3, c3));
    assert!(!central_divide_match(1, 2, 3, c3));
    assert!(central_divide_match(2, 5, 3, c3));
    assert!(central_divide_match(u64::MAX, u64::MAX - 1, 3, c3));
}

#[test]
fn zero_pair_holds() {
    let table = prime_table(10);
    assert!(check_kummer_condition(0, 0, &table, &[]));
}

#[test]
fn reflexive_on_many_values() {
    let table = prime_table(5000);
    for n in [0u64, 1, 2, 87, 1000, 2499] {
        assert!(check_kummer_condition(n, n, &table, &[]));
        assert!(check_kummer_condition(n, n, &table, &[3, 5]));
    }
}

#[test]
fn symmetric_on_many_pairs() {
    let table = prime_table(400);
    for n in 0u64..=100 {
        for m in 0u64..=100 {
            assert_eq!(
                check_kummer_condition(n, m, &table, &[]),
                check_kummer_condition(m, n, &table, &[])
            );
        }
    }
    assert!(!check_kummer_condition(2, 1, &table, &[]));
    assert!(!check_kummer_condition(1, 2, &table, &[]));
}

#[test]
fn known_single_step_match() {
    let table = prime_table(2 * 89);
    assert!(check_kummer_condition(87, 88, &table, &[]));
    assert!(!check_kummer_condition(88, 89, &table, &[]));
    assert!(!check_kummer_condition(86, 87, &table, &[]));
}

#[test]
fn gap_pair_and_exclusion() {
    let table = prime_table(2 * 2381727);
    assert!(check_kummer_condition(2381725, 2381727, &table, &[]));
    assert!(!check_kummer_condition(2381725, 2381726, &table, &[]));
    assert!(!check_kummer_condition(2381726, 2381727, &table, &[]));
    assert!(check_kummer_condition(2381725, 2381726, &table, &[3]));
    assert!(check_kummer_condition(2381726, 2381727, &table, &[3]));
}

#[test]
fn larger_tables_give_the_same_answers() {
    let small = prime_table(2 * 300);
    let large = prime_table(20_000);
    for n in 0u64..300 {
        for k in 0u64..3 {
            assert_eq!(
                check_kummer_condition(n, n + k, &small, &[]),
                check_kummer_condition(n, n + k, &large, &[])
            );
        }
    }
}

#[test]
fn exclusion_never_creates_a_refusal() {
    let table = prime_table(1000);
    for n in 0u64..200 {
        let m = n + 1;
        let plain = check_kummer_condition(n, m, &table, &[]);
        let without_three = check_kummer_condition(n, m, &table, &[3]);
        let without_more = check_kummer_condition(n, m, &table, &[3, 5, 7]);
        assert!(!plain || without_three);
        assert!(!without_three || without_more);
    }
}

#[test]
fn excluding_every_prime_always_agrees() {
    let table = prime_table(50);
    let all: Vec<u64> = table.iter().map(|e| e.0).collect();
    assert!(check_kummer_condition(1, 2, &table, &all));
}

#[test]
fn single_pair_check() {
    assert!(check_pair(87, 1, &[]));
    assert!(!check_pair(88, 1, &[]));
    assert!(check_pair(0, 0, &[]));
    assert!(check_pair(2381725, 2, &[]));
    assert!(!check_pair(2381725, 1, &[]));
    assert!(check_pair(2381725, 1, &[3]));
}
