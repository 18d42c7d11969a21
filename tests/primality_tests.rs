use prime_sieve::natural::Natural;
use prime_sieve::primality::is_prime;
use prime_sieve::primality::is_probable_prime_with_bases;

fn natural(n: u64) -> Natural {
    Natural::from_u64(n)
}

fn bases(values: &[u64]) -> Vec<Natural> {
    values.iter().map(|v| natural(*v)).collect()
}

#[test]
fn small_primes_are_prime() {
    let mut rng = rand::thread_rng();
    for n in [2u64, 3, 5, 7, 11, 13, 17, 19, 23] {
        assert!(is_prime(&natural(n), 1, &mut rng), "{} is prime", n);
        assert!(is_prime(&natural(n), 10, &mut rng), "{} is prime", n);
    }
}

#[test]
fn small_composites_are_composite() {
    let mut rng = rand::thread_rng();
    // These have no strong liar in [2, n - 2], so one round decides.
    for n in [0u64, 1, 4, 6, 8, 9, 15, 21] {
        assert!(!is_prime(&natural(n), 1, &mut rng), "{} is composite", n);
    }
    for n in [1u64, 4, 6, 8, 9, 15, 21, 25] {
        assert!(!is_prime(&natural(n), 10, &mut rng), "{} is composite", n);
    }
}

#[test]
fn zero_trials_on_odd_number_says_prime() {
    let mut rng = rand::thread_rng();
    assert!(is_prime(&natural(25), 0, &mut rng));
    assert!(!is_prime(&natural(26), 0, &mut rng));
}

#[test]
fn pseudoprimes_are_rejected_over_many_runs() {
    let mut rng = rand::thread_rng();
    let composites = [561u64, 1105, 1729, 2047, 3215031751];
    let mut false_positives = 0;
    for n in composites {
        for _ in 0..2000 {
            if is_prime(&natural(n), 10, &mut rng) {
                false_positives += 1;
            }
        }
    }
    assert_eq!(false_positives, 0);
}

#[test]
fn strong_pseudoprime_to_base_two_passes_that_base_only() {
    assert!(is_probable_prime_with_bases(&natural(2047), &bases(&[2])));
    assert!(!is_probable_prime_with_bases(&natural(2047), &bases(&[3])));
    assert!(!is_probable_prime_with_bases(&natural(2047), &bases(&[2, 3])));
}

#[test]
fn strong_pseudoprime_to_first_four_prime_bases() {
    let n = natural(3215031751);
    assert!(is_probable_prime_with_bases(&n, &bases(&[2, 3, 5, 7])));
    assert!(!is_probable_prime_with_bases(&n, &bases(&[2, 3, 5, 7, 11])));
}

#[test]
fn carmichael_number_fails_base_two() {
    assert!(!is_probable_prime_with_bases(&natural(561), &bases(&[2])));
}

#[test]
fn bases_verdict_on_small_and_even_values() {
    assert!(!is_probable_prime_with_bases(&natural(0), &bases(&[])));
    assert!(!is_probable_prime_with_bases(&natural(1), &bases(&[])));
    assert!(is_probable_prime_with_bases(&natural(2), &bases(&[])));
    assert!(is_probable_prime_with_bases(&natural(3), &bases(&[])));
    assert!(!is_probable_prime_with_bases(&natural(4), &bases(&[2])));
    assert!(is_probable_prime_with_bases(&natural(5), &bases(&[2, 3])));
    assert!(is_probable_prime_with_bases(&natural(9), &bases(&[])));
    assert!(!is_probable_prime_with_bases(&natural(9), &bases(&[2])));
}

#[test]
fn strong_liar_passes_where_other_bases_fail() {
    assert!(is_probable_prime_with_bases(&natural(91), &bases(&[9])));
    assert!(!is_probable_prime_with_bases(&natural(91), &bases(&[2])));
}

#[test]
fn large_mersenne_prime_is_prime() {
    let mut rng = rand::thread_rng();
    // 2^89 - 1
    let n = Natural { digits: vec![0xFFFF_FFFF, 0xFFFF_FFFF, 0x01FF_FFFF] };
    assert!(is_prime(&n, 10, &mut rng));
    assert!(is_probable_prime_with_bases(&n, &bases(&[2, 3, 5, 7, 11])));
}

#[test]
fn large_composites_are_composite() {
    let mut rng = rand::thread_rng();
    // 2^89 + 1 is divisible by 3.
    let a = Natural { digits: vec![1, 0, 0x0200_0000] };
    assert!(!is_prime(&a, 10, &mut rng));
    // 2^128 + 1 = 59649589127497217 * 5704689200685129054721
    let b = Natural { digits: vec![1, 0, 0, 0, 1] };
    assert!(!is_prime(&b, 10, &mut rng));
    // 2^100, even
    let c = Natural { digits: vec![0, 0, 0, 16] };
    assert!(!is_prime(&c, 10, &mut rng));
}
