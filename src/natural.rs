//! Arbitrary-precision naturals, held as base 2^32 digits (least significant
//! first). The arithmetic itself is done by `num_bigint`.

use vstd::prelude::*;
use num_bigint::BigUint;
use num_bigint::RandBigInt;
use num_traits::ToPrimitive;
use rand::rngs::ThreadRng;

verus! {

/// The radix of one digit.
pub open spec fn radix() -> nat {
    4294967296
}

/// The number that the digits `s` denote, least significant digit first.
pub open spec fn digits_value(s: Seq<u32>) -> nat
    decreases s.len(),
{
    if s.len() == 0 {
        0
    } else {
        s[0] as nat + radix() * digits_value(s.subrange(1, s.len() as int))
    }
}

/// A natural number of any size.
pub struct Natural {
    pub digits: Vec<u32>,
}

impl View for Natural {
    type V = nat;

    open spec fn view(&self) -> nat {
        digits_value(self.digits@)
    }
}

proof fn lemma_value_parity(s: Seq<u32>)
    requires
        s.len() > 0,
    ensures
        digits_value(s) % 2 == s[0] % 2,
{
    let rest = digits_value(s.subrange(1, s.len() as int));
    assert((s[0] as nat + 4294967296 * rest) % 2 == s[0] % 2) by (nonlinear_arith);
}

impl Natural {
    /// The natural `n`.
    pub fn from_u64(n: u64) -> (r: Natural)
        ensures
            r@ == n,
    {
        let lo: u64 = n % 4294967296;
        let hi: u64 = n / 4294967296;
        assert(hi < 4294967296) by (nonlinear_arith)
            requires
                hi == n / 4294967296,
                n <= u64::MAX,
        ;
        let digits: Vec<u32> = vec![lo as u32, hi as u32];
        proof {
            let s = digits@;
            assert(s.subrange(2, 2) =~= Seq::<u32>::empty());
            assert(s.subrange(1, 2).subrange(1, 1) =~= Seq::<u32>::empty());
            assert(digits_value(s.subrange(1, 2)) == hi as nat) by {
                reveal_with_fuel(digits_value, 2);
            }
            reveal_with_fuel(digits_value, 2);
            assert(n == lo + 4294967296 * hi);
        }
        Natural { digits }
    }

    /// The value as a `u64`, where it fits.
    pub fn to_u64(&self) -> (r: Option<u64>)
        ensures
            r == (if self@ <= u64::MAX {
                Some(self@ as u64)
            } else {
                None::<u64>
            }),
    {
        to_u64_checked(self)
    }

    /// A second natural with the same digits.
    pub fn duplicate(&self) -> (r: Natural)
        ensures
            r@ == self@,
    {
        let mut digits: Vec<u32> = Vec::new();
        let mut i: usize = 0;
        while i < self.digits.len()
            invariant
                i <= self.digits@.len(),
                digits@ == self.digits@.subrange(0, i as int),
            decreases self.digits@.len() - i,
        {
            digits.push(self.digits[i]);
            i += 1;
            assert(digits@ =~= self.digits@.subrange(0, i as int));
        }
        assert(digits@ =~= self.digits@);
        Natural { digits }
    }

    /// Whether the value is even.
    pub fn is_even(&self) -> (r: bool)
        ensures
            r == (self@ % 2 == 0),
    {
        if self.digits.len() == 0 {
            true
        } else {
            proof {
                lemma_value_parity(self.digits@);
            }
            self.digits[0] % 2 == 0
        }
    }

    /// Whether the two values are equal.
    pub fn equals(&self, other: &Natural) -> (r: bool)
        ensures
            r == (self@ == other@),
    {
        less_or_equal(self, other) && less_or_equal(other, self)
    }
}

/// Relies on `num_traits::ToPrimitive::to_u64` for `BigUint`: the value when
/// it fits in a `u64`, `None` otherwise.
#[verifier::external_body]
fn to_u64_checked(a: &Natural) -> (r: Option<u64>)
    ensures
        r == (if a@ <= u64::MAX {
            Some(a@ as u64)
        } else {
            None::<u64>
        }),
{
    BigUint::new(a.digits.clone()).to_u64()
}

/// Relies on `<=` of `BigUint` (`PartialOrd::le`): compares the values.
#[verifier::external_body]
pub(crate) fn less_or_equal(a: &Natural, b: &Natural) -> (r: bool)
    ensures
        r == (a@ <= b@),
{
    BigUint::new(a.digits.clone()) <= BigUint::new(b.digits.clone())
}

/// Relies on `+` of `BigUint` (`Add`): the sum.
#[verifier::external_body]
pub(crate) fn sum(a: &Natural, b: &Natural) -> (r: Natural)
    ensures
        r@ == a@ + b@,
{
    Natural { digits: (BigUint::new(a.digits.clone()) + BigUint::new(b.digits.clone())).to_u32_digits() }
}

/// Relies on `-` of `BigUint` (`Sub`), which panics below zero: the difference.
#[verifier::external_body]
pub(crate) fn difference(a: &Natural, b: &Natural) -> (r: Natural)
    requires
        a@ >= b@,
    ensures
        r@ == a@ - b@,
{
    Natural { digits: (BigUint::new(a.digits.clone()) - BigUint::new(b.digits.clone())).to_u32_digits() }
}

/// Relies on `/` of `BigUint` by a `u32` (`Div<u32>`): the quotient by two,
/// rounded down.
#[verifier::external_body]
pub(crate) fn half(a: &Natural) -> (r: Natural)
    ensures
        r@ == a@ / 2,
{
    Natural { digits: (BigUint::new(a.digits.clone()) / 2u32).to_u32_digits() }
}

/// Relies on `BigUint::modpow`, which panics on a zero modulus:
/// `base` to the power `exponent`, reduced modulo `modulus`.
#[verifier::external_body]
pub(crate) fn power_mod(base: &Natural, exponent: &Natural, modulus: &Natural) -> (r: Natural)
    requires
        modulus@ > 1,
    ensures
        r@ == vstd::arithmetic::power::pow(base@ as int, exponent@) % (modulus@ as int),
{
    let m = BigUint::new(modulus.digits.clone());
    Natural {
        digits: BigUint::new(base.digits.clone()).modpow(&BigUint::new(exponent.digits.clone()), &m).to_u32_digits(),
    }
}

#[verifier::external_type_specification]
#[verifier::external_body]
pub struct ExThreadRng(ThreadRng);

/// Relies on `RandBigInt::gen_biguint_range`, which panics unless
/// `low < high`: a value in `[low, high)`.
#[verifier::external_body]
pub(crate) fn random_in_range(rng: &mut ThreadRng, low: &Natural, high: &Natural) -> (r: Natural)
    requires
        low@ < high@,
    ensures
        low@ <= r@ < high@,
{
    let l = BigUint::new(low.digits.clone());
    Natural { digits: rng.gen_biguint_range(&l, &BigUint::new(high.digits.clone())).to_u32_digits() }
}

} // verus!
