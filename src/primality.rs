//! The Miller-Rabin probable-prime test.

use vstd::prelude::*;
use vstd::arithmetic::power::pow;
use vstd::arithmetic::power::lemma_pow_mod_noop;
use vstd::arithmetic::power::lemma_pow_multiplies;
use crate::natural::Natural;
use crate::natural::power_mod;
use crate::natural::sum;
use crate::natural::difference;
use crate::natural::half;
use crate::natural::less_or_equal;
use crate::natural::random_in_range;
use rand::rngs::ThreadRng;

verus! {

/// Two to the power `j`.
pub open spec fn pow2(j: nat) -> nat
    decreases j,
{
    if j == 0 {
        1
    } else {
        2 * pow2((j - 1) as nat)
    }
}

/// What is left of `m` once every factor two is divided out.
pub open spec fn odd_part(m: nat) -> nat
    decreases m,
{
    if m > 0 && m % 2 == 0 {
        odd_part(m / 2)
    } else {
        m
    }
}

/// How many times two divides `m`.
pub open spec fn two_exponent(m: nat) -> nat
    decreases m,
{
    if m > 0 && m % 2 == 0 {
        1 + two_exponent(m / 2)
    } else {
        0
    }
}

/// `a` to the power `d * 2^j`, modulo `n`.
pub open spec fn trial_value(n: nat, a: nat, d: nat, j: nat) -> int {
    pow(a as int, d * pow2(j)) % (n as int)
}

/// Whether base `a` fails to witness that `n` is composite: with
/// `n - 1 == d * 2^r` and `d` odd, either `a^d == 1 (mod n)` or
/// `a^(d * 2^j) == n - 1 (mod n)` for some `j < r`.
pub open spec fn passes_trial(n: nat, a: nat) -> bool {
    let d = odd_part((n - 1) as nat);
    let r = two_exponent((n - 1) as nat);
    pow(a as int, d) % (n as int) == 1 || exists|j: nat| j < r && #[trigger] trial_value(n, a, d, j) == n - 1
}

/// Whether a base may be drawn for `n`: it lies in `[2, n - 2]`.
pub open spec fn valid_base(n: nat, a: nat) -> bool {
    2 <= a && a + 2 <= n
}

/// The verdict on `n` for the given bases: below two is not prime, two and
/// three are, an even number above two is not, and an odd number from five
/// on is a probable prime when every base passes.
pub open spec fn verdict_for_bases(n: nat, bases: Seq<nat>) -> bool {
    if n < 2 {
        false
    } else if n <= 3 {
        true
    } else if n % 2 == 0 {
        false
    } else {
        forall|k: int| 0 <= k < bases.len() ==> passes_trial(n, #[trigger] bases[k])
    }
}

/// The values of a sequence of naturals.
pub open spec fn values(s: Seq<Natural>) -> Seq<nat> {
    s.map_values(|b: Natural| b@)
}

proof fn lemma_odd_part(m: nat)
    requires
        m > 0,
    ensures
        odd_part(m) % 2 == 1,
        m == odd_part(m) * pow2(two_exponent(m)),
    decreases m,
{
    if m % 2 == 0 {
        lemma_odd_part(m / 2);
        let o = odd_part(m / 2);
        let p = pow2(two_exponent(m / 2));
        assert(odd_part(m) == o);
        assert(two_exponent(m) == 1 + two_exponent(m / 2));
        assert(pow2(two_exponent(m)) == 2 * p);
        assert(m == o * (2 * p)) by (nonlinear_arith)
            requires
                m / 2 == o * p,
                m % 2 == 0,
        ;
    } else {
        assert(two_exponent(m) == 0);
        assert(odd_part(m) == m);
        assert(pow2(0) == 1);
        assert(m == m * 1);
    }
}

proof fn lemma_pow2_grows(i: nat, j: nat)
    requires
        i < j,
    ensures
        pow2(i) < pow2(j),
    decreases j,
{
    if i + 1 < j {
        lemma_pow2_grows(i, (j - 1) as nat);
    }
    lemma_pow2_positive((j - 1) as nat);
}

proof fn lemma_pow2_positive(j: nat)
    ensures
        pow2(j) >= 1,
    decreases j,
{
    if j > 0 {
        lemma_pow2_positive((j - 1) as nat);
    }
}

proof fn lemma_square_step(n: nat, a: nat, d: nat, j: nat)
    requires
        n > 0,
    ensures
        trial_value(n, a, d, j + 1) == pow(trial_value(n, a, d, j), 2) % (n as int),
{
    let e = d * pow2(j);
    lemma_pow_mod_noop(pow(a as int, e), 2, n as int);
    lemma_pow_multiplies(a as int, e, 2);
    assert(d * pow2(j + 1) == e * 2) by (nonlinear_arith)
        requires
            e == d * pow2(j),
            pow2(j + 1) == 2 * pow2(j),
    ;
}

proof fn lemma_stays_one(n: nat, a: nat, d: nat, i: nat, j: nat)
    requires
        n > 1,
        i <= j,
        trial_value(n, a, d, i) == 1,
    ensures
        trial_value(n, a, d, j) == 1,
    decreases j - i,
{
    if i < j {
        lemma_stays_one(n, a, d, i, (j - 1) as nat);
        lemma_square_step(n, a, d, (j - 1) as nat);
        vstd::arithmetic::power::lemma_square_is_pow2(1);
        assert(pow(1, 2) == 1);
        vstd::arithmetic::div_mod::lemma_small_mod(1, n);
    }
}

/// Divides every factor two out of `m`.
fn odd_part_of(m: &Natural) -> (d: Natural)
    requires
        m@ > 0,
    ensures
        d@ == odd_part(m@),
{
    let mut d = m.duplicate();
    while d.is_even()
        invariant
            d@ > 0,
            odd_part(d@) == odd_part(m@),
        decreases d@,
    {
        d = half(&d);
    }
    d
}

/// One Miller-Rabin round on odd `n >= 5` with base `a`, where
/// `n - 1 == d * 2^r` and `d` is odd.
fn trial(n: &Natural, n_minus_1: &Natural, d: &Natural, a: &Natural) -> (r: bool)
    requires
        n@ >= 5,
        n@ % 2 == 1,
        n_minus_1@ == n@ - 1,
        d@ == odd_part((n@ - 1) as nat),
    ensures
        r == passes_trial(n@, a@),
{
    let ghost m = (n@ - 1) as nat;
    let ghost r = two_exponent(m);
    proof {
        lemma_odd_part(m);
        if r == 0 {
            assert(m == odd_part(m));
        }
        assert(pow2(0) == 1);
        assert(d@ * pow2(0) == d@);
    }
    let one = Natural::from_u64(1);
    let two = Natural::from_u64(2);
    let mut x = power_mod(a, d, n);
    assert(x@ == trial_value(n@, a@, d@, 0));
    if x.equals(&one) {
        return true;
    }
    if x.equals(n_minus_1) {
        return true;
    }
    let mut e = d.duplicate();
    let ghost mut i: nat = 0;
    loop
        invariant
            i < r,
            r == two_exponent(m),
            m == n@ - 1,
            m == d@ * pow2(r),
            d@ == odd_part(m),
            n@ >= 5,
            n_minus_1@ == m,
            two@ == 2,
            one@ == 1,
            e@ == d@ * pow2(i),
            x@ == trial_value(n@, a@, d@, i),
            pow(a@ as int, d@) % (n@ as int) != 1,
            forall|j: nat| j <= i ==> #[trigger] trial_value(n@, a@, d@, j) != n@ - 1,
        decreases r - i,
    {
        let next = sum(&e, &e);
        assert(next@ == d@ * pow2(i + 1)) by (nonlinear_arith)
            requires
                next@ == e@ + e@,
                e@ == d@ * pow2(i),
                pow2(i + 1) == 2 * pow2(i),
        ;
        if next.equals(n_minus_1) {
            proof {
                if i + 1 < r {
                    lemma_pow2_grows(i + 1, r);
                    assert(d@ * pow2(i + 1) < d@ * pow2(r)) by (nonlinear_arith)
                        requires
                            pow2(i + 1) < pow2(r),
                            d@ > 0,
                    ;
                }
                assert forall|j: nat| j < r implies #[trigger] trial_value(n@, a@, d@, j) != n@ - 1 by {
                    assert(j <= i);
                }
            }
            return false;
        }
        proof {
            if i + 1 == r {
                assert(next@ == m);
            }
            lemma_square_step(n@, a@, d@, i);
        }
        x = power_mod(&x, &two, n);
        e = next;
        proof {
            i = i + 1;
        }
        if x.equals(n_minus_1) {
            return true;
        }
        if x.equals(&one) {
            proof {
                assert forall|j: nat| j < r implies #[trigger] trial_value(n@, a@, d@, j) != n@ - 1 by {
                    if j > i {
                        lemma_stays_one(n@, a@, d@, i, j);
                    }
                }
            }
            return false;
        }
    }
}

/// The verdict on `n` where it needs no trial: `Some(false)` below two,
/// `Some(true)` for two and three, `Some(false)` for an even number above
/// two, and `None` for an odd number from five on.
fn verdict_without_trials(n: &Natural) -> (r: Option<bool>)
    ensures
        r == (if n@ < 2 {
            Some(false)
        } else if n@ <= 3 {
            Some(true)
        } else if n@ % 2 == 0 {
            Some(false)
        } else {
            None::<bool>
        }),
{
    if less_or_equal(n, &Natural::from_u64(1)) {
        Some(false)
    } else if less_or_equal(n, &Natural::from_u64(3)) {
        Some(true)
    } else if n.is_even() {
        Some(false)
    } else {
        None
    }
}

/// The Miller-Rabin verdict on `n` with the given bases, each of which lies
/// in `[2, n - 2]` where `n` is odd and at least five.
pub fn is_probable_prime_with_bases(n: &Natural, bases: &Vec<Natural>) -> (r: bool)
    requires
        n@ >= 5 && n@ % 2 == 1 ==> forall|k: int| 0 <= k < bases@.len() ==> valid_base(n@, #[trigger] bases@[k]@),
    ensures
        r == verdict_for_bases(n@, values(bases@)),
{
    match verdict_without_trials(n) {
        Some(v) => v,
        None => {
            let one = Natural::from_u64(1);
            let n_minus_1 = difference(n, &one);
            let d = odd_part_of(&n_minus_1);
            let mut i: usize = 0;
            while i < bases.len()
                invariant
                    n@ >= 5,
                    n@ % 2 == 1,
                    n_minus_1@ == n@ - 1,
                    d@ == odd_part((n@ - 1) as nat),
                    i <= bases@.len(),
                    forall|k: int| 0 <= k < i ==> passes_trial(n@, #[trigger] values(bases@)[k]),
                decreases bases@.len() - i,
            {
                if !trial(n, &n_minus_1, &d, &bases[i]) {
                    assert(values(bases@)[i as int] == bases@[i as int]@);
                    return false;
                }
                i += 1;
            }
            true
        }
    }
}

/// The Miller-Rabin verdict on `n` after `trials` rounds, each with a base
/// drawn uniformly from `[2, n - 2]`; it stops at the first failing round.
/// A `false` on an odd `n` from five on comes with a witness of
/// compositeness; a `true` means that the drawn bases all passed.
pub fn is_prime(n: &Natural, trials: u32, rng: &mut ThreadRng) -> (r: bool)
    ensures
        n@ < 2 ==> !r,
        2 <= n@ <= 3 ==> r,
        n@ > 3 && n@ % 2 == 0 ==> !r,
        n@ >= 5 && n@ % 2 == 1 && !r ==> exists|a: nat| valid_base(n@, a) && !passes_trial(n@, a),
        n@ >= 5 && n@ % 2 == 1 && r ==> exists|bases: Seq<nat>|
            bases.len() == trials && (forall|k: int| 0 <= k < bases.len() ==> valid_base(n@, #[trigger] bases[k]))
                && verdict_for_bases(n@, bases),
{
    match verdict_without_trials(n) {
        Some(v) => v,
        None => {
            let one = Natural::from_u64(1);
            let two = Natural::from_u64(2);
            let n_minus_1 = difference(n, &one);
            let d = odd_part_of(&n_minus_1);
            let ghost mut drawn: Seq<nat> = Seq::empty();
            let mut t: u32 = 0;
            while t < trials
                invariant
                    n@ >= 5,
                    n@ % 2 == 1,
                    two@ == 2,
                    n_minus_1@ == n@ - 1,
                    d@ == odd_part((n@ - 1) as nat),
                    t <= trials,
                    drawn.len() == t,
                    forall|k: int| 0 <= k < drawn.len() ==> valid_base(n@, #[trigger] drawn[k]),
                    forall|k: int| 0 <= k < drawn.len() ==> passes_trial(n@, #[trigger] drawn[k]),
                decreases trials - t,
            {
                let a = random_in_range(rng, &two, &n_minus_1);
                if !trial(n, &n_minus_1, &d, &a) {
                    return false;
                }
                proof {
                    drawn = drawn.push(a@);
                }
                t += 1;
            }
            assert(verdict_for_bases(n@, drawn));
            true
        }
    }
}

} // verus!
