use ph::prime_time::{answer, response_text, split_lines, Request};
use ph::primes::{sqrt_sup, Primes};

#[test]
fn test_primes() {
    let mut pz = Primes::default();

    for n in 0..100 {
        println!("{}: {}", n, pz.is_prime(n));
    }
}

#[test]
fn primes_below_one_hundred() {
    let expected: Vec<u64> = vec![
        2, 3, 5, 7, 11, 13, 17, 19, 23, 29, 31, 37, 41, 43, 47, 53, 59, 61, 67, 71, 73, 79, 83,
        89, 97,
    ];
    let mut pz = Primes::with_capacity(16);
    let found: Vec<u64> = (0..100).filter(|&n| pz.is_prime(n)).collect();
    assert_eq!(found, expected);
}

#[test]
fn zero_and_one_are_not_prime() {
    let mut pz = Primes::default();
    assert!(!pz.is_prime(0));
    assert!(!pz.is_prime(1));
    assert!(pz.is_prime(2));
}

#[test]
fn large_numbers() {
    let mut pz = Primes::default();
    assert!(pz.is_prime(2147483647));
    assert!(!pz.is_prime(4294967297));
    assert!(!pz.is_prime(65537 * 65537));
    assert!(pz.is_prime(65537));
    assert!(pz.is_prime(1000000007));
}

#[test]
fn order_of_queries_does_not_matter() {
    let mut a = Primes::default();
    let mut b = Primes::default();
    assert!(a.is_prime(7919));
    assert!(!a.is_prime(49));
    assert!(!b.is_prime(49));
    assert!(b.is_prime(7919));
}

#[test]
fn sqrt_sup_values() {
    assert_eq!(sqrt_sup(0), 0);
    assert_eq!(sqrt_sup(1), 1);
    assert_eq!(sqrt_sup(2), 2);
    assert_eq!(sqrt_sup(4), 2);
    assert_eq!(sqrt_sup(5), 3);
    assert_eq!(sqrt_sup(99), 10);
    assert_eq!(sqrt_sup(100), 10);
    assert_eq!(sqrt_sup(101), 11);
    assert_eq!(sqrt_sup(u64::MAX), 1u64 << 32);
}

#[test]
fn answers_follow_the_request() {
    let mut pz = Primes::default();
    let int = |m: &str, n: i64| Request::Int { method: m.to_string(), number: n };
    assert_eq!(answer(&mut pz, &int("isPrime", 7)), Some(true));
    assert_eq!(answer(&mut pz, &int("isPrime", 8)), Some(false));
    assert_eq!(answer(&mut pz, &int("isPrime", -7)), Some(false));
    assert_eq!(answer(&mut pz, &int("isPrime", 1)), Some(false));
    assert_eq!(answer(&mut pz, &int("isprime", 7)), None);
    assert_eq!(answer(&mut pz, &Request::Float { method: "isPrime".to_string() }), Some(false));
    assert_eq!(answer(&mut pz, &Request::Float { method: "other".to_string() }), None);
    assert_eq!(answer(&mut pz, &Request::Malformed), None);
}

#[test]
fn reply_lines() {
    assert_eq!(response_text(Some(true)), "{\"method\":\"isPrime\",\"prime\":true}\n");
    assert_eq!(response_text(Some(false)), "{\"method\":\"isPrime\",\"prime\":false}\n");
    assert_eq!(response_text(None), "{{}}\n");
}

#[test]
fn stream_is_cut_into_lines() {
    let (lines, rest) = split_lines(Vec::new(), b"ab\ncd\n\nef");
    assert_eq!(lines, vec![b"ab".to_vec(), b"cd".to_vec(), Vec::new()]);
    assert_eq!(rest, b"ef".to_vec());
    let (lines, rest) = split_lines(rest, b"g\nh");
    assert_eq!(lines, vec![b"efg".to_vec()]);
    assert_eq!(rest, b"h".to_vec());
    let (lines, rest) = split_lines(rest, b"");
    assert!(lines.is_empty());
    assert_eq!(rest, b"h".to_vec());
}
