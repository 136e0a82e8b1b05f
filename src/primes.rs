//! An incremental primality checker for programs that test many integers:
//! it keeps every prime found so far and extends that list only as far as a
//! query needs.

use vstd::prelude::*;
use vstd::arithmetic::div_mod::{lemma_fundamental_div_mod, lemma_mod_multiples_basic, lemma_small_mod};

verus! {

/// `n` is prime: at least 2, and no integer in `[2, n)` divides it.
pub open spec fn prime(n: int) -> bool {
    n >= 2 && forall|d: int| 2 <= d < n ==> #[trigger] (n % d) != 0
}

/// `r` is the least natural number whose square is at least `n`.
pub open spec fn is_sqrt_sup(n: int, r: int) -> bool {
    r >= 0 && r * r >= n && (r == 0 || (r - 1) * (r - 1) < n)
}

/// Every prime up to `bound` is in `known`.
pub open spec fn covers(known: Seq<u64>, bound: int) -> bool {
    forall|p: int| 2 <= p <= bound && #[trigger] prime(p) ==> known.contains(p as u64)
}

/// Every prime whose square is at most `n` is in `known`.
pub open spec fn covers_roots(known: Seq<u64>, n: int) -> bool {
    forall|p: int| 2 <= p && p * p <= n && #[trigger] prime(p) ==> known.contains(p as u64)
}

/// Where every prime up to `s` is known and `s * s >= n`, every prime whose
/// square is at most `n` is known, and `s` is at least the integer square
/// root of `n`.
proof fn lemma_covers_roots(k: Seq<u64>, n: int, s: int)
    requires
        covers(k, s),
        s >= 0,
        s * s >= n,
    ensures
        covers_roots(k, n),
        (s + 1) * (s + 1) > n,
{
    assert forall|p: int| 2 <= p && p * p <= n && #[trigger] prime(p) implies k.contains(
        p as u64,
    ) by {
        assert(p <= s) by (nonlinear_arith)
            requires
                p * p <= n,
                n <= s * s,
                s >= 0,
                p >= 2,
        ;
    }
    assert((s + 1) * (s + 1) > n) by (nonlinear_arith)
        requires
            s * s >= n,
            s >= 0,
    ;
}

/// The least number in `[k, n]` that divides `n`.
spec fn least_factor_from(n: int, k: int) -> int
    decreases n - k,
{
    if k >= n {
        n
    } else if n % k == 0 {
        k
    } else {
        least_factor_from(n, k + 1)
    }
}

proof fn lemma_least_factor_from(n: int, k: int)
    requires
        2 <= k <= n,
    ensures
        k <= least_factor_from(n, k) <= n,
        n % least_factor_from(n, k) == 0,
        forall|m: int| k <= m < least_factor_from(n, k) ==> #[trigger] (n % m) != 0,
    decreases n - k,
{
    if k >= n {
        lemma_mod_multiples_basic(1, n);
        assert(1 * n == n);
    } else if n % k != 0 {
        lemma_least_factor_from(n, k + 1);
    }
}

/// A divisor of a divisor of `n` divides `n`.
proof fn lemma_divides_trans(n: int, d: int, m: int)
    requires
        d > 0,
        m > 0,
        n % d == 0,
        d % m == 0,
    ensures
        n % m == 0,
{
    lemma_fundamental_div_mod(n, d);
    lemma_fundamental_div_mod(d, m);
    let a = n / d;
    let b = d / m;
    assert(n == (b * a) * m) by (nonlinear_arith)
        requires
            n == d * a,
            d == m * b,
    ;
    lemma_mod_multiples_basic(b * a, m);
}

/// A number that is not prime has a prime factor no greater than any `s`
/// with `s * s >= n`.
proof fn lemma_small_prime_factor(n: int, s: int)
    requires
        n >= 2,
        s >= 0,
        s * s >= n,
        !prime(n),
    ensures
        exists|q: int| 2 <= q <= s && q * q <= n && prime(q) && #[trigger] (n % q) == 0,
{
    lemma_least_factor_from(n, 2);
    let q = least_factor_from(n, 2);
    assert forall|m: int| 2 <= m < q implies #[trigger] (q % m) != 0 by {
        if q % m == 0 {
            lemma_divides_trans(n, q, m);
        }
    }
    assert(prime(q));
    let d = choose|d: int| 2 <= d < n && #[trigger] (n % d) == 0;
    assert(q < n);
    lemma_fundamental_div_mod(n, q);
    let e = n / q;
    assert(n == q * e);
    assert(e >= 2) by (nonlinear_arith)
        requires
            n == q * e,
            q < n,
            q >= 2,
    ;
    lemma_mod_multiples_basic(q, e);
    assert(e >= q);
    assert(q * q <= n) by (nonlinear_arith)
        requires
            n == q * e,
            e >= q,
            q >= 2,
    ;
    assert(q <= s) by (nonlinear_arith)
        requires
            q * q <= n,
            n <= s * s,
            s >= 0,
            q >= 0,
    ;
}

/// The least number whose square is at least `n` (the ceiling of its
/// square root).
pub fn sqrt_sup(n: u64) -> (r: u64)
    ensures
        is_sqrt_sup(n as int, r as int),
        r <= 0x1_0000_0000,
{
    let mut lo: u64 = 0;
    let mut hi: u64 = 0x1_0000_0000;
    assert(0x1_0000_0000int * 0x1_0000_0000int > u64::MAX);
    while lo < hi
        invariant
            lo <= hi <= 0x1_0000_0000,
            hi as int * hi as int >= n,
            lo == 0 || (lo - 1) * (lo - 1) < n,
        decreases hi - lo,
    {
        let mid = lo + (hi - lo) / 2;
        assert(mid as int * mid as int <= 0x1_0000_0000int * 0x1_0000_0000int) by (nonlinear_arith)
            requires
                0 <= mid <= 0x1_0000_0000,
        ;
        let sq: u128 = (mid as u128) * (mid as u128);
        if sq >= n as u128 {
            hi = mid;
        } else {
            lo = mid + 1;
        }
    }
    lo
}

/// A primality checker that remembers the primes it has found.
pub struct Primes {
    known: Vec<u64>,
}

impl View for Primes {
    type V = Seq<u64>;

    /// The primes found so far, in increasing order.
    closed spec fn view(&self) -> Seq<u64> {
        self.known@
    }
}

impl Default for Primes {
    fn default() -> (r: Self)
        ensures
            r.wf(),
            r@ == seq![2u64],
    {
        Primes::with_capacity(0)
    }
}

impl Primes {
    /// The list holds 2, increases, holds primes only, and holds every prime
    /// up to its last element.
    pub open spec fn wf(&self) -> bool {
        let k = self@;
        &&& k.len() >= 1
        &&& k[0] == 2
        &&& forall|i: int, j: int| 0 <= i < j < k.len() ==> k[i] < k[j]
        &&& forall|i: int| 0 <= i < k.len() ==> prime(#[trigger] k[i] as int)
        &&& covers(k, k.last() as int)
    }

    /// A checker with room reserved for `cap` primes.
    pub fn with_capacity(cap: usize) -> (r: Self)
        ensures
            r.wf(),
            r@ == seq![2u64],
    {
        let mut known: Vec<u64> = Vec::with_capacity(cap);
        known.push(2);
        let r = Primes { known };
        assert(r@ =~= seq![2u64]);
        assert forall|p: int| 2 <= p <= 2 && #[trigger] prime(p) implies r@.contains(p as u64) by {
            assert(r@[0] == p as u64);
        }
        r
    }

    /// Whether `n` is prime, given that `s` is at least the integer square
    /// root of `n` and every prime up to that root is known.
    fn check(&self, n: u64, s: u64) -> (r: bool)
        requires
            self.wf(),
            n >= 2,
            (s as int + 1) * (s as int + 1) > n,
            covers_roots(self@, n as int),
        ensures
            r == prime(n as int),
    {
        let mut i: usize = 0;
        while i < self.known.len()
            invariant
                self.wf(),
                n >= 2,
                (s as int + 1) * (s as int + 1) > n,
                covers_roots(self@, n as int),
                i <= self@.len(),
                forall|j: int| 0 <= j < i ==> (n as int) % (#[trigger] self@[j] as int) != 0,
            decreases self@.len() - i,
        {
            let p = self.known[i];
            if p > s {
                proof {
                    lemma_prime_without_small_factor(self@, n as int, s as int, i as int);
                }
                return true;
            } else if n == p {
                assert(prime(self@[i as int] as int));
                return true;
            } else if n % p == 0 {
                proof {
                    assert(prime(p as int));
                    if p > n {
                        lemma_small_mod(n as nat, p as nat);
                    }
                    assert(2 <= p < n && (n as int) % (p as int) == 0);
                }
                return false;
            }
            i += 1;
        }
        proof {
            lemma_prime_without_small_factor(self@, n as int, s as int, i as int);
        }
        true
    }

    /// Append the least prime above the last known one, where it is at most
    /// `limit`; report whether there was one.
    fn append_next(&mut self, limit: u64) -> (found: bool)
        requires
            old(self).wf(),
            old(self)@.last() < limit,
        ensures
            final(self).wf(),
            found ==> {
                let p = final(self)@.last();
                &&& final(self)@ == old(self)@.push(p)
                &&& old(self)@.last() < p <= limit
            },
            !found ==> final(self)@ == old(self)@ && covers(old(self)@, limit as int),
    {
        let last = self.known[self.known.len() - 1];
        let mut next: u64 = last + 1;
        loop
            invariant
                self.wf(),
                self@ == old(self)@,
                last == self@.last(),
                last < next <= limit,
                forall|p: int| last < p < next ==> !#[trigger] prime(p),
            decreases limit - next,
        {
            let s = sqrt_sup(next);
            assert(s < next) by (nonlinear_arith)
                requires
                    is_sqrt_sup(next as int, s as int),
                    next >= 3,
            ;
            assert forall|p: int| 2 <= p <= s && #[trigger] prime(p) implies self@.contains(
                p as u64,
            ) by {
                assert(p <= last);
            }
            proof {
                lemma_covers_roots(self@, next as int, s as int);
            }
            if self.check(next, s) {
                let ghost before = self@;
                self.known.push(next);
                proof {
                    assert(self@ == before.push(next));
                    assert forall|i: int| 0 <= i < before.len() implies #[trigger] before[i] <= last by {
                        if i < before.len() - 1 {
                            assert(before[i] < before[before.len() - 1]);
                        }
                    }
                    assert forall|p: int| 2 <= p <= next && #[trigger] prime(p) implies self@.contains(
                        p as u64,
                    ) by {
                        if p == next {
                            assert(self@[self@.len() - 1] == next);
                        } else {
                            assert(before.contains(p as u64));
                            let j = choose|j: int| 0 <= j < before.len() && before[j] == p as u64;
                            assert(self@[j] == p as u64);
                        }
                    }
                }
                return true;
            }
            if next == limit {
                assert forall|p: int| 2 <= p <= limit && #[trigger] prime(p) implies self@.contains(
                    p as u64,
                ) by {
                    assert(p <= last);
                }
                return false;
            }
            next += 1;
        }
    }

    /// Whether `n` is prime. The list of known primes grows as needed.
    pub fn is_prime(&mut self, n: u64) -> (r: bool)
        requires
            old(self).wf(),
        ensures
            final(self).wf(),
            r == prime(n as int),
            old(self)@.is_prefix_of(final(self)@),
            n < 2 ==> final(self)@ == old(self)@,
    {
        if n < 2 {
            return false;
        }
        let s = sqrt_sup(n);
        loop
            invariant
                self.wf(),
                old(self)@.is_prefix_of(self@),
            ensures
                self.wf(),
                old(self)@.is_prefix_of(self@),
                covers(self@, s as int),
            decreases s - self@.last(),
        {
            let last = self.known[self.known.len() - 1];
            if last >= s {
                assert forall|p: int| 2 <= p <= s && #[trigger] prime(p) implies self@.contains(
                    p as u64,
                ) by {
                    assert(p <= last);
                }
                break;
            }
            let ghost before = self@;
            if !self.append_next(s) {
                break;
            }
            assert(old(self)@.is_prefix_of(self@)) by {
                assert forall|i: int| 0 <= i < old(self)@.len() implies old(self)@[i] == self@[i] by {
                    assert(before[i] == self@[i]);
                }
            }
        }
        proof {
            lemma_covers_roots(self@, n as int, s as int);
        }
        self.check(n, s)
    }
}

/// Where no known prime below the first one above `s` (or below the end of
/// the list) divides `n`, and every prime up to `s` is known, `n` is prime.
proof fn lemma_prime_without_small_factor(k: Seq<u64>, n: int, s: int, i: int)
    requires
        forall|a: int, b: int| 0 <= a < b < k.len() ==> k[a] < k[b],
        covers_roots(k, n),
        2 <= n <= u64::MAX,
        0 <= s <= u64::MAX,
        (s + 1) * (s + 1) > n,
        0 <= i <= k.len(),
        i == k.len() || k[i] > s,
        forall|j: int| 0 <= j < i ==> n % (#[trigger] k[j] as int) != 0,
    ensures
        prime(n),
{
    if !prime(n) {
        assert(n * n >= n) by (nonlinear_arith)
            requires
                n >= 2,
        ;
        lemma_small_prime_factor(n, n);
        let q = choose|q: int| 2 <= q <= n && q * q <= n && prime(q) && #[trigger] (n % q) == 0;
        assert(k.contains(q as u64));
        let j = choose|j: int| 0 <= j < k.len() && k[j] == q as u64;
        if j >= i {
            if j > i {
                assert(k[i] < k[j]);
            }
            assert(q >= s + 1);
            assert(q * q >= (s + 1) * (s + 1)) by (nonlinear_arith)
                requires
                    q >= s + 1,
                    s >= 0,
            ;
        }
        assert(n % (k[j] as int) != 0);
    }
}

} // verus!
