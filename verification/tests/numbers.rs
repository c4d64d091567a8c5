use py_interop::bignum::BigNat;
use py_interop::intro::{fibonacci, fibonacci_impl, it_works};
use py_interop::primes::{
    compute_prime_factors, is_prime, nth_prime, nth_prime_checked, unique_prime_factors,
};
use py_interop::top_k::{max_k, sort_largest_first, MaxKError};

#[test]
fn it_works_is_true() {
    assert!(it_works());
}

#[test]
fn fibonacci_first_numbers() {
    assert_eq!(fibonacci(0), Vec::<u64>::new());
    assert_eq!(fibonacci(1), vec![0]);
    assert_eq!(fibonacci(2), vec![0, 1]);
    assert_eq!(fibonacci(10), vec![0, 1, 1, 2, 3, 5, 8, 13, 21, 34]);
}

#[test]
fn fibonacci_impl_up_to_the_limit() {
    let v = fibonacci_impl(94);
    assert_eq!(v.len(), 94);
    assert_eq!(v[92], 7540113804746346429);
    assert_eq!(v[93], 12200160415121876738);
    assert_eq!(fibonacci(94).len(), 94);
    assert_eq!(fibonacci(94)[93], 12200160415121876738);
    for i in 2..v.len() {
        assert_eq!(v[i], v[i - 1] + v[i - 2]);
    }
    assert_eq!(fibonacci_impl(5), fibonacci(5));
}

#[test]
fn primes_are_recognized() {
    let primes: Vec<u64> = (0..60).filter(|&n| is_prime(n)).collect();
    assert_eq!(
        primes,
        vec![2, 3, 5, 7, 11, 13, 17, 19, 23, 29, 31, 37, 41, 43, 47, 53, 59]
    );
    assert!(is_prime(1_000_000_007));
    assert!(!is_prime(1_000_000_007u64 * 3));
    assert!(!is_prime(49));
    assert!(is_prime(4294967291));
    assert!(is_prime(999999999989));
    assert!(!is_prime(4294967291u64 * 3));
}

#[test]
fn nth_prime_counts_from_one() {
    assert_eq!(nth_prime(0), 1);
    assert_eq!(nth_prime(1), 2);
    assert_eq!(nth_prime(2), 3);
    assert_eq!(nth_prime(10), 29);
    assert_eq!(nth_prime(100), 541);
    assert_eq!(nth_prime_checked(1000), Some(7919));
}

#[test]
fn unique_prime_factors_ascending() {
    assert_eq!(unique_prime_factors(0), Vec::<u64>::new());
    assert_eq!(unique_prime_factors(1), Vec::<u64>::new());
    assert_eq!(unique_prime_factors(12), vec![2, 3]);
    assert_eq!(unique_prime_factors(97), vec![97]);
    assert_eq!(unique_prime_factors(2 * 2 * 3 * 5 * 5 * 7 * 11), vec![2, 3, 5, 7, 11]);
}

#[test]
fn compute_prime_factors_pairs_each_number() {
    let table = compute_prime_factors(&[10, 1, 13, 10]);
    assert_eq!(
        table,
        vec![(10, vec![2, 5]), (1, vec![]), (13, vec![13]), (10, vec![2, 5])]
    );
}

fn texts(items: &[&str]) -> Vec<Option<String>> {
    items.iter().map(|s| Some(s.to_string())).collect()
}

fn decimals(v: &[BigNat]) -> Vec<String> {
    v.iter().map(|b| b.to_decimal()).collect()
}

#[test]
fn max_k_gives_largest_first() {
    let r = max_k(texts(&["3", "10", "7", "10"]), 3).unwrap();
    assert_eq!(decimals(&r), vec!["10", "10", "7"]);
    let r = max_k(texts(&["5"]), 1).unwrap();
    assert_eq!(decimals(&r), vec!["5"]);
}

#[test]
fn max_k_handles_big_numbers() {
    let r = max_k(
        texts(&["99", "123456789012345678901234567890", "123456789012345678901234567889", "0"]),
        2,
    )
    .unwrap();
    assert_eq!(
        decimals(&r),
        vec!["123456789012345678901234567890", "123456789012345678901234567889"]
    );
}

#[test]
fn max_k_errors() {
    assert_eq!(max_k(texts(&["1", "2"]), 3).err(), Some(MaxKError::KTooLarge));
    assert_eq!(max_k(vec![None, None], 3).err(), Some(MaxKError::KTooLarge));
    assert!(max_k(vec![None], 0).unwrap().is_empty());
    assert_eq!(
        max_k(texts(&["1", "-5", "x"]), 1).err(),
        Some(MaxKError::NotAnInteger { index: 1 })
    );
    assert_eq!(
        max_k(vec![Some("4".to_string()), None], 2).err(),
        Some(MaxKError::NotAnInteger { index: 1 })
    );
}

#[test]
fn bignat_reads_decimal_text() {
    assert_eq!(BigNat::parse("007").unwrap().to_decimal(), "7");
    assert_eq!(BigNat::parse("+12").unwrap().to_decimal(), "12");
    assert_eq!(BigNat::parse("1_000").unwrap().to_decimal(), "1000");
    assert_eq!(BigNat::parse("0").unwrap().to_decimal(), "0");
    assert!(BigNat::parse("").is_none());
    assert!(BigNat::parse("+").is_none());
    assert!(BigNat::parse("++1").is_none());
    assert!(BigNat::parse("_1").is_none());
    assert!(BigNat::parse("-1").is_none());
    assert!(BigNat::parse("1.5").is_none());
}

#[test]
fn bignat_order() {
    let a = BigNat::parse("99").unwrap();
    let b = BigNat::parse("100").unwrap();
    let c = BigNat::parse("100").unwrap();
    assert!(a.is_less(&b));
    assert!(!b.is_less(&a));
    assert!(!b.is_less(&c));
    let sorted = sort_largest_first(vec![a.copy(), b.copy(), BigNat::parse("5").unwrap()]);
    assert_eq!(decimals(&sorted), vec!["100", "99", "5"]);
}

#[test]
fn decimal_text_reads_back() {
    for text in ["0", "7", "10", "4294967296", "123456789012345678901234567890"] {
        let n = BigNat::parse(text).unwrap();
        let back = BigNat::parse(&n.to_decimal()).unwrap();
        assert_eq!(back.to_decimal(), text);
        assert!(!back.is_less(&n) && !n.is_less(&back));
    }
}

#[test]
fn nth_primes_increase() {
    let mut previous = nth_prime(0);
    for n in 1..200 {
        let p = nth_prime(n);
        assert!(previous < p);
        previous = p;
    }
}
