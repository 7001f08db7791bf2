use vstd::prelude::*;
use num_integer::Integer;

verus! {

/// The value of a little-endian sequence of base-256 digits.
pub open spec fn nat_of_le(s: Seq<u8>) -> nat
    decreases s.len(),
{
    if s.len() == 0 {
        0
    } else {
        s[0] as nat + 256 * nat_of_le(s.drop_first())
    }
}

/// An arbitrary-precision signed integer: a sign and a little-endian
/// magnitude. Zero may carry either sign.
pub struct BigInt {
    pub negative: bool,
    pub magnitude: Vec<u8>,
}

impl BigInt {
    pub open spec fn value(&self) -> int {
        if self.negative {
            -(nat_of_le(self.magnitude@) as int)
        } else {
            nat_of_le(self.magnitude@) as int
        }
    }
}

/// Whether the number that `bytes` holds little-endian passes the strong
/// probable-prime test to the first `rounds` prime bases and the strong Lucas
/// test (Baillie-PSW when `rounds` is 1).
pub uninterp spec fn passes_prime_test(bytes: Seq<u8>, rounds: usize) -> bool;

/// Relies on num_prime::nt_funcs::is_prime, with the Baillie-PSW
/// configuration widened to the first `rounds` primes as fixed bases and no
/// random ones: the answer depends on the number and `rounds` alone. Even
/// numbers other than 2 and numbers below 2 are rejected by its exact shortcuts.
#[verifier::external_body]
pub(crate) fn is_probable_prime(bytes: &[u8], rounds: usize) -> (r: bool)
    ensures
        r == passes_prime_test(bytes@, rounds),
        r ==> nat_of_le(bytes@) >= 2,
{
    let mut config = num_prime::PrimalityTestConfig::bpsw();
    config.sprp_trials = rounds;
    let n = num_bigint::BigUint::from_bytes_le(bytes);
    num_prime::nt_funcs::is_prime(&n, Some(config)).probably()
}

/// Relies on num_integer::Integer::div_floor on num_bigint::BigInt, and on
/// BigInt's little-endian byte conversions keeping the value.
#[verifier::external_body]
pub(crate) fn div_floor(a: &BigInt, l: &[u8]) -> (q: BigInt)
    requires
        nat_of_le(l@) > 0,
    ensures
        q.value() == a.value() / (nat_of_le(l@) as int),
{
    let sign = if a.negative { num_bigint::Sign::Minus } else { num_bigint::Sign::Plus };
    let x = num_bigint::BigInt::from_bytes_le(sign, &a.magnitude);
    let d = num_bigint::BigInt::from_bytes_le(num_bigint::Sign::Plus, l);
    let (s, magnitude) = x.div_floor(&d).to_bytes_le();
    BigInt { negative: s == num_bigint::Sign::Minus, magnitude }
}

/// Relies on num_integer::Integer::mod_floor on num_bigint::BigInt, which for
/// a positive divisor lies in `[0, l)`, and on BigInt's byte conversions.
#[verifier::external_body]
pub(crate) fn mod_floor(a: &BigInt, l: &[u8]) -> (r: Vec<u8>)
    requires
        nat_of_le(l@) > 0,
    ensures
        nat_of_le(r@) == a.value() % (nat_of_le(l@) as int),
{
    let sign = if a.negative { num_bigint::Sign::Minus } else { num_bigint::Sign::Plus };
    let x = num_bigint::BigInt::from_bytes_le(sign, &a.magnitude);
    let d = num_bigint::BigInt::from_bytes_le(num_bigint::Sign::Plus, l);
    x.mod_floor(&d).to_bytes_le().1
}

} // verus!
