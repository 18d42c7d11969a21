use std::collections::BTreeSet;

use prime_sieve::config::Config;
use prime_sieve::coordinator::Coordinator;
use prime_sieve::natural::Natural;
use prime_sieve::worker::Report;
use prime_sieve::worker::Tag;
use prime_sieve::worker::Worker;

fn report(worker: u32, candidate: u64, prime: bool) -> Report {
    Report { tag: Tag::new(worker, prime), candidate: Natural::from_u64(candidate) }
}

fn found_values(c: &Coordinator) -> Vec<u64> {
    c.found.iter().map(|n| n.to_u64().unwrap()).collect()
}

fn is_prime_by_division(n: u64) -> bool {
    n >= 2 && (2..n).take_while(|d| d * d <= n).all(|d| n % d != 0)
}

#[test]
fn default_config() {
    let c = Config::default();
    assert_eq!((c.worker_count, c.ceiling, c.trials), (8, 10_000_000, 10));
    let d = Config::new(4, 1000, 3);
    assert_eq!((d.worker_count, d.ceiling, d.trials), (4, 1000, 3));
}

#[test]
fn tag_round_trip() {
    for w in 1..=8u32 {
        for v in [true, false] {
            let t = Tag::new(w, v);
            assert_eq!(t.worker(), w);
            assert_eq!(t.is_prime(), v);
        }
    }
    assert_eq!(Tag::new(3, true), Tag::Prime(3));
    assert_eq!(Tag::new(3, false), Tag::Composite(3));
}

#[test]
fn workers_scan_disjoint_classes_covering_odd_values() {
    let mut rng = rand::thread_rng();
    let count = 4u32;
    let mut seen = BTreeSet::new();
    for id in 1..=count {
        let mut w = Worker::new(id, count);
        let mut last = 0u64;
        for _ in 0..50 {
            let r = w.next_report(2, &mut rng);
            assert_eq!(r.tag.worker(), id);
            let c = r.candidate.to_u64().unwrap();
            assert!(c > last);
            last = c;
            assert!(seen.insert(c), "{} scanned twice", c);
        }
    }
    for m in (3..=401u64).step_by(2) {
        assert!(seen.contains(&m), "{} not scanned", m);
    }
}

#[test]
fn worker_first_candidates() {
    let mut rng = rand::thread_rng();
    let mut w = Worker::new(2, 8);
    let got: Vec<(u64, bool)> = (0..3)
        .map(|_| {
            let r = w.next_report(10, &mut rng);
            (r.candidate.to_u64().unwrap(), r.tag.is_prime())
        })
        .collect();
    assert_eq!(got, vec![(5, true), (21, false), (37, true)]);
}

#[test]
fn search_finds_exactly_primes_up_to_ceiling() {
    let mut rng = rand::thread_rng();
    let config = Config::new(4, 1000, 10);
    let mut coordinator = Coordinator::new(&config);
    let mut workers: Vec<Worker> = (1..=config.worker_count).map(|id| Worker::new(id, config.worker_count)).collect();
    let mut finished = false;
    let mut rounds = 0;
    while !finished {
        for w in workers.iter_mut() {
            let r = w.next_report(config.trials, &mut rng);
            if coordinator.receive(r) {
                finished = true;
                break;
            }
        }
        rounds += 1;
        assert!(rounds < 1000);
    }
    let mut found = found_values(&coordinator);
    found.sort();
    let expected: Vec<u64> = (2..=1000).filter(|n| is_prime_by_division(*n)).collect();
    assert_eq!(found, expected);
    assert_eq!(found.len(), 168);
}

#[test]
fn repeated_past_ceiling_reports_keep_termination_exact() {
    let mut c = Coordinator::new(&Config::new(3, 100, 10));
    assert!(!c.receive(report(1, 101, true)));
    assert!(!c.receive(report(1, 107, false)));
    assert!(!c.receive(report(1, 113, true)));
    assert_eq!(c.done, vec![true, false, false]);
    assert!(!c.receive(report(2, 103, true)));
    assert!(!c.receive(report(2, 109, true)));
    assert_eq!(c.done, vec![true, true, false]);
    assert!(!c.finished);
    assert!(c.receive(report(3, 105, false)));
    assert!(c.finished);
    assert_eq!(found_values(&c), vec![2]);
}

#[test]
fn ceiling_is_inclusive_and_composites_are_not_kept() {
    let mut c = Coordinator::new(&Config::new(2, 97, 10));
    assert!(!c.receive(report(1, 97, true)));
    assert!(!c.receive(report(2, 95, false)));
    assert!(!c.receive(report(2, 101, true)));
    assert_eq!(found_values(&c), vec![2, 97]);
    assert_eq!(c.done, vec![false, true]);
}

#[test]
fn new_coordinator_starts_with_two() {
    let c = Coordinator::new(&Config::new(5, 10, 1));
    assert_eq!(found_values(&c), vec![2]);
    assert_eq!(c.done, vec![false; 5]);
    assert!(!c.finished);
}
