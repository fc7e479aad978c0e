use kummer::{check_kummer_condition, prime_table};

fn run_distance_test(distance: u64, true_cases: &[u64]) {
    if true_cases.is_empty() {
        return;
    }
    let max_n = *true_cases.iter().max().unwrap();
    let primes_and_divisor = prime_table(2 * (max_n + distance + 1));

    for &n in true_cases {
        let result = check_kummer_condition(n, n + distance, &primes_and_divisor, &[]);
        assert!(result, "Main check failed for n = {}", n);

        for i in 0..distance {
            for j in (i + 1)..=distance {
                let u = n + i;
                let v = n + j;
                assert!(
                    check_kummer_condition(u, v, &primes_and_divisor, &[]),
                    "Intermediate check failed for (u, v) = ({}, {}) on base n = {}",
                    u,
                    v,
                    n
                );
            }
        }
    }
}

fn run_gap_test(distance: u64, gap_prime: u64, gap_cases: &[u64]) {
    if gap_cases.is_empty() {
        return;
    }
    let max_n = *gap_cases.iter().max().unwrap();
    let primes_and_divisor = prime_table(2 * (max_n + distance + 10));
    let ignored_prime_slice = &[gap_prime];

    for &n in gap_cases {
        assert!(
            check_kummer_condition(n, n + distance, &primes_and_divisor, &[]),
            "Main gap check failed for n = {}",
            n
        );

        for i in 0..=distance {
            for j in (i + 1)..=distance {
                if i == 0 && j == distance {
                    continue;
                }

                let u = n + i;
                let v = n + j;
                let result = check_kummer_condition(u, v, &primes_and_divisor, &[]);

                let crosses_boundary = ([n, n + distance].contains(&u)
                    && ![n, n + distance].contains(&v))
                    || (![n, n + distance].contains(&u) && [n, n + distance].contains(&v));
                assert_eq!(result, !crosses_boundary);

                if crosses_boundary {
                    assert!(
                        check_kummer_condition(u, v, &primes_and_divisor, ignored_prime_slice),
                        "Gap pair ({}, {}) for base n = {} failed even with ignored prime {}",
                        u,
                        v,
                        n,
                        gap_prime
                    );
                }
            }
        }
    }
}

#[test]
fn dist_zero_pairs() {
    let primes_and_divisor = prime_table(1000);
    for n in 0..=500 {
        assert!(
            check_kummer_condition(n, n, &primes_and_divisor, &[]),
            "distance zero check failed for n = {}",
            n
        );
    }
}

#[test]
fn dist_one_pairs() {
    let true_cases: &[u64] = &[
        87, 199, 237, 467, 607, 967, 1127, 1319, 1483, 1903, 1943, 2012, 2047, 2287, 2348, 2359,
        2464, 2479, 2495, 2507, 2623, 2645, 2719, 3349, 3467, 3514, 3568, 3629, 3633, 3712, 3847,
        3919, 4088, 4224, 4287, 4360, 4479, 4927, 4987, 5087, 5167, 5224, 5669,
    ];
    run_distance_test(1, true_cases);
}

#[test]
fn dist_two_pairs() {
    let true_cases: &[u64] = &[
        10003, 17374, 47487, 111547, 121602, 129784, 133161, 142239, 142781, 143762, 152190,
        213425, 233332, 250711, 253273, 266843, 288062, 291786, 295135, 303772, 306008, 356277,
    ];
    run_distance_test(2, true_cases);
}

#[test]
fn dist_two_pairs_with_gap() {
    let gap_cases: &[u64] = &[2381725, 129320551, 136226152, 177560668, 177687550];
    run_gap_test(2, 3, gap_cases);
}

#[test]
fn dist_three_pairs() {
    let true_cases: &[u64] = &[3894942, 4505065, 6218569, 7506679, 8879450];
    run_distance_test(3, true_cases);
}
