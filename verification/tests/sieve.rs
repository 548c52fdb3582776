use protohackers::problem1::sieve::PrimeSieve;

fn trial_division(n: usize) -> bool {
    if n < 2 {
        return false;
    }
    let mut d = 2;
    while d < n {
        if n % d == 0 {
            return false;
        }
        d += 1;
    }
    true
}

#[test]
fn fresh_sieve_is_empty() {
    let s = PrimeSieve::with_capacity(1000);
    assert!(!s.contains(1));
    assert_eq!(s.get(1), None);
    assert_eq!(s.get(7), None);
}

#[test]
fn expand_reports_primality() {
    let mut s = PrimeSieve::with_capacity(0);
    assert!(s.expand(7));
    assert!(!s.expand(8));
    assert!(s.expand(2));
    assert!(s.expand(97));
    assert!(!s.expand(91));
}

#[test]
fn one_keeps_its_candidate_flag() {
    let mut s = PrimeSieve::with_capacity(0);
    assert!(s.expand(1));
    assert_eq!(s.get(1), Some(true));
}

#[test]
fn zero_is_not_prime() {
    let mut s = PrimeSieve::with_capacity(0);
    assert!(!s.expand(0));
    assert!(!s.contains(0));
    assert_eq!(s.get(0), None);
}

#[test]
fn first_growth_reaches_minimum_capacity() {
    let mut s = PrimeSieve::with_capacity(0);
    s.expand(3);
    assert!(s.contains(10));
    assert!(!s.contains(11));
    assert_eq!(s.get(10), Some(false));
    assert_eq!(s.get(11), None);
}

#[test]
fn expand_is_idempotent_on_covered_targets() {
    let mut s = PrimeSieve::with_capacity(0);
    s.expand(20);
    assert!(s.contains(20));
    assert!(s.expand(5));
    assert!(s.contains(20));
    assert!(!s.contains(21));
}

#[test]
fn growth_never_shrinks() {
    let mut s = PrimeSieve::with_capacity(0);
    s.expand(15);
    s.expand(3);
    s.expand(0);
    assert!(s.contains(15));
    s.expand(30);
    assert!(s.contains(30));
}

#[test]
fn cache_agrees_with_trial_division() {
    let mut s = PrimeSieve::with_capacity(0);
    s.expand(200);
    for n in 2..=200 {
        assert_eq!(s.get(n), Some(trial_division(n)), "disagreement at {n}");
    }
}
