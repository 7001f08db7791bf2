use vstd::prelude::*;
use vstd::arithmetic::div_mod::{lemma_fundamental_div_mod, lemma_mod_multiples_basic};
use crate::bigint::{div_floor, mod_floor, nat_of_le, BigInt};
use crate::blake2b::{blake2b_of, Blake2b, DIGEST_LEN};
use crate::group::{Group, InvertibleGroup};
use crate::hash::{hash, hash_to_prime, spec_hash_to_prime};

verus! {

/// A non-interactive proof of knowledge of an exponent `x` with
/// `result == base^x`: `z = g^x` for the group's generator `g`, `Q` encodes the
/// quotient of `x` by the challenge prime `l`, and `r = x mod l`
/// (little-endian).
#[allow(non_snake_case)]
#[derive(Debug, PartialEq)]
pub struct PoKE2<T> {
    pub z: T,
    pub Q: T,
    pub r: Vec<u8>,
}

/// The bytes hashed to derive the challenge prime: the encodings of `u`, `w`
/// and `z`, one after another.
pub open spec fn challenge_input<G: Group>(u: G::Elem, w: G::Elem, z: G::Elem) -> Seq<u8> {
    G::spec_encode(u) + G::spec_encode(w) + G::spec_encode(z)
}

/// The challenge prime `l` for `(u, w, z)`, little-endian.
pub open spec fn challenge_prime<G: Group>(u: G::Elem, w: G::Elem, z: G::Elem) -> Option<Seq<u8>> {
    spec_hash_to_prime::<Blake2b>(challenge_input::<G>(u, w, z))
}

/// The challenge scalar `alpha` for `(u, w, z)` and the prime `l`.
pub open spec fn challenge_alpha<G: Group>(u: G::Elem, w: G::Elem, z: G::Elem, l: Seq<u8>) -> nat {
    nat_of_le(blake2b_of(DIGEST_LEN, challenge_input::<G>(u, w, z) + l))
}

/// `u * g^alpha`, the base that `Q` and `r` are exponents of.
pub open spec fn mixed_base<G: Group>(u: G::Elem, alpha: nat) -> G::Elem {
    G::spec_op(u, G::spec_pow(G::spec_base(), alpha as int))
}

/// The identity that the verifier checks, for given challenges `l` and `alpha`:
/// `Q^l * (u * g^alpha)^r == w * z^alpha`.
pub open spec fn poke2_identity<G: Group>(
    u: G::Elem,
    w: G::Elem,
    z: G::Elem,
    big_q: G::Elem,
    r: nat,
    l: nat,
    alpha: nat,
) -> bool {
    G::spec_op(G::spec_pow(big_q, l as int), G::spec_pow(mixed_base::<G>(u, alpha), r as int))
        == G::spec_op(w, G::spec_pow(z, alpha as int))
}

/// Whether the proof `(z, Q, r)` is accepted for `base = u`, `result = w`.
pub open spec fn poke2_accepts<G: Group>(
    u: G::Elem,
    w: G::Elem,
    z: G::Elem,
    big_q: G::Elem,
    r: nat,
) -> bool {
    match challenge_prime::<G>(u, w, z) {
        Some(l) => poke2_identity::<G>(u, w, z, big_q, r, nat_of_le(l), challenge_alpha::<G>(u, w, z, l)),
        None => false,
    }
}

/// Derives the challenge prime by hashing the encodings of `u`, `w` and `z`
/// to a prime.
pub fn hash_prime<G: Group>(u: &G::Elem, w: &G::Elem, z: &G::Elem) -> (r: Option<Vec<u8>>)
    ensures
        match r {
            Some(l) => challenge_prime::<G>(*u, *w, *z) == Some(l@) && nat_of_le(l@) >= 2,
            None => challenge_prime::<G>(*u, *w, *z) is None,
        },
{
    let mut input = G::encode(u);
    let mut encoded_w = G::encode(w);
    let mut encoded_z = G::encode(z);
    input.append(&mut encoded_w);
    input.append(&mut encoded_z);
    hash_to_prime(&Blake2b::new, input.as_slice())
}

/// Derives the challenge scalar by hashing the encodings of `u`, `w` and `z`
/// followed by the bytes of `l`.
pub fn hash_inputs<G: Group>(u: &G::Elem, w: &G::Elem, z: &G::Elem, l: &Vec<u8>) -> (r: Vec<u8>)
    ensures
        nat_of_le(r@) == challenge_alpha::<G>(*u, *w, *z, l@),
{
    let mut input = G::encode(u);
    let mut encoded_w = G::encode(w);
    let mut encoded_z = G::encode(z);
    let mut encoded_l = l.clone();
    input.append(&mut encoded_w);
    input.append(&mut encoded_z);
    input.append(&mut encoded_l);
    hash(&Blake2b::new, input.as_slice())
}

/// The quotient element that `prove_poke2` computes for exponent `x` and
/// challenges `l` and `alpha`: `(u * g^alpha)^(x div l)`.
pub open spec fn proved_quotient<G: Group>(u: G::Elem, x: int, l: nat, alpha: nat) -> G::Elem {
    G::spec_pow(mixed_base::<G>(u, alpha), x / (l as int))
}

/// The remainder of floor division: for a positive `l`, `x mod l` lies in
/// `[0, l)` and differs from `x` by a multiple of `l`, also for a negative `x`.
pub proof fn lemma_euclidean_remainder(x: int, l: int)
    requires
        l > 0,
    ensures
        0 <= x % l < l,
        (x - x % l) % l == 0,
        x == l * (x / l) + x % l,
{
    lemma_fundamental_div_mod(x, l);
    lemma_mod_multiples_basic(x / l, l);
    assert(x - x % l == (x / l) * l) by (nonlinear_arith)
        requires
            x == l * (x / l) + x % l,
    ;
}

/// Completeness: for every exponent `x` (negative ones included) and all
/// challenges with `l > 0`, the proof that the prover builds for
/// `result = base^x` satisfies the verifier's identity.
pub proof fn lemma_completeness<G: InvertibleGroup>(base: G::Elem, x: int, l: nat, alpha: nat)
    requires
        l > 0,
    ensures
        poke2_identity::<G>(
            base,
            G::spec_pow(base, x),
            G::spec_pow(G::spec_base(), x),
            proved_quotient::<G>(base, x, l, alpha),
            (x % (l as int)) as nat,
            l,
            alpha,
        ),
{
    let g = G::spec_base();
    let v = mixed_base::<G>(base, alpha);
    let q = x / (l as int);
    let r = x % (l as int);
    lemma_euclidean_remainder(x, l as int);
    G::lemma_pow_mul(v, q, l as int);
    G::lemma_pow_add(v, q * l, r);
    assert(q * l + r == x) by (nonlinear_arith)
        requires
            x == l * q + r,
    ;
    G::lemma_pow_op(base, G::spec_pow(g, alpha as int), x);
    G::lemma_pow_mul(g, alpha as int, x);
    G::lemma_pow_mul(g, x, alpha as int);
    assert(alpha * x == x * alpha) by (nonlinear_arith);
}

/// Proves knowledge of `exp` with `result == base^exp`. `None` only when no
/// counter makes the challenge prime derivation succeed.
///
/// The proof is for the given `result`; when it is not `base^exp` the proof
/// simply fails to verify.
pub fn prove_poke2<G: InvertibleGroup>(base: &G::Elem, exp: &BigInt, result: &G::Elem) -> (r: Option<PoKE2<G::Elem>>)
    ensures
        ({
            let z = G::spec_pow(G::spec_base(), exp.value());
            match challenge_prime::<G>(*base, *result, z) {
                Some(l) => {
                    let alpha = challenge_alpha::<G>(*base, *result, z, l);
                    &&& r is Some
                    &&& r->Some_0.z == z
                    &&& r->Some_0.Q == proved_quotient::<G>(*base, exp.value(), nat_of_le(l), alpha)
                    &&& nat_of_le(r->Some_0.r@) == exp.value() % (nat_of_le(l) as int)
                    &&& nat_of_le(r->Some_0.r@) < nat_of_le(l)
                    &&& (exp.value() - nat_of_le(r->Some_0.r@)) % (nat_of_le(l) as int) == 0
                },
                None => r is None,
            }
        }),
        r is Some && *result == G::spec_pow(*base, exp.value()) ==> poke2_accepts::<G>(
            *base,
            *result,
            r->Some_0.z,
            r->Some_0.Q,
            nat_of_le(r->Some_0.r@),
        ),
{
    let g = G::base_elem();
    let z = G::exp_signed(&g, exp);
    let l = match hash_prime::<G>(base, result, &z) {
        Some(l) => l,
        None => {
            return None;
        },
    };
    let alpha = hash_inputs::<G>(base, result, &z, &l);
    let q = div_floor(exp, l.as_slice());
    let r = mod_floor(exp, l.as_slice());
    let mixed = G::op(base, &G::exp(&g, alpha.as_slice()));
    let big_q = G::exp_signed(&mixed, &q);
    proof {
        lemma_euclidean_remainder(exp.value(), nat_of_le(l@) as int);
        lemma_completeness::<G>(*base, exp.value(), nat_of_le(l@), nat_of_le(alpha@));
    }
    Some(PoKE2 { z, Q: big_q, r })
}

/// Checks a proof that `result` is a power of `base`: re-derives the
/// challenges from `(base, result, z)` and tests
/// `Q^l * (base * g^alpha)^r == result * z^alpha`.
pub fn verify_poke2<G: Group>(base: &G::Elem, result: &G::Elem, proof: &PoKE2<G::Elem>) -> (r: bool)
    ensures
        r == poke2_accepts::<G>(*base, *result, proof.z, proof.Q, nat_of_le(proof.r@)),
{
    let g = G::base_elem();
    let l = match hash_prime::<G>(base, result, &proof.z) {
        Some(l) => l,
        None => {
            return false;
        },
    };
    let alpha = hash_inputs::<G>(base, result, &proof.z, &l);
    let mixed = G::op(base, &G::exp(&g, alpha.as_slice()));
    let lhs = G::op(&G::exp(&proof.Q, l.as_slice()), &G::exp(&mixed, proof.r.as_slice()));
    let rhs = G::op(result, &G::exp(&proof.z, alpha.as_slice()));
    G::elem_eq(&lhs, &rhs)
}

} // verus!
