use accumulator::bigint::BigInt;
use accumulator::cyclic::Cyclic64;
use accumulator::group::{Group, InvertibleGroup};
use accumulator::blake2b::Blake2b;
use accumulator::hash::{hash, hash_to_prime};
use accumulator::poke2::{hash_inputs, hash_prime, prove_poke2, verify_poke2, PoKE2};

fn signed(n: i64) -> BigInt {
    BigInt { negative: n < 0, magnitude: n.unsigned_abs().to_le_bytes().to_vec() }
}

fn value_of_le(bytes: &[u8]) -> u128 {
    let mut v: u128 = 0;
    for byte in bytes.iter().rev() {
        v = v * 256 + *byte as u128;
    }
    v
}

#[test]
fn test_poke2() {
    // g^20 with the generator g = 1 of the integers modulo 2^64
    let base = Cyclic64::base_elem();
    let exp = signed(20);
    let result: u64 = 20;
    let proof = prove_poke2::<Cyclic64>(&base, &exp, &result).unwrap();
    assert!(verify_poke2::<Cyclic64>(&base, &result, &proof));
    assert_eq!(proof.z, 20);
    // The challenge prime has 256 bits: 20 = 0 * l + 20.
    assert_eq!(value_of_le(&proof.r), 20);
    assert_eq!(proof.Q, 0);

    let exp_2 = signed(35);
    let result_2: u64 = 35;
    let proof_2 = prove_poke2::<Cyclic64>(&base, &exp_2, &result_2).unwrap();
    assert!(verify_poke2::<Cyclic64>(&base, &result_2, &proof_2));
    // Cannot verify wrong base/exp/result triple with wrong pair.
    assert!(!verify_poke2::<Cyclic64>(&base, &result_2, &proof));
    assert_eq!(proof_2.z, 35);
    assert_eq!(value_of_le(&proof_2.r), 35);
    assert_eq!(proof_2.Q, 0);
    let mut r_2 = 35u64.to_le_bytes().to_vec();
    r_2.resize(proof_2.r.len(), 0);
    assert_eq!(proof_2, PoKE2 { z: 35, Q: 0, r: r_2 });
    assert_ne!(proof, proof_2);
}

#[test]
fn test_poke2_negatives() {
    let base: u64 = 2;
    let exp = signed(-5);
    let result = Cyclic64::exp_signed(&base, &exp);
    assert_eq!(result, 0u64.wrapping_sub(10));
    let proof = prove_poke2::<Cyclic64>(&base, &exp, &result).unwrap();
    assert!(verify_poke2::<Cyclic64>(&base, &result, &proof));
    assert_eq!(proof.z, 0u64.wrapping_sub(5));
    // -5 = -1 * l + (l - 5): the remainder is non-negative and, as l is odd, even.
    assert_eq!(proof.r.len(), 32);
    assert_eq!(proof.r[0] % 2, 0);
}

#[test]
fn poke2_rejects_other_result() {
    let base: u64 = 3;
    let exp = signed(1_000_003);
    let result = Cyclic64::exp_signed(&base, &exp);
    assert_eq!(result, 3_000_009);
    let proof = prove_poke2::<Cyclic64>(&base, &exp, &result).unwrap();
    assert!(verify_poke2::<Cyclic64>(&base, &result, &proof));
    let other = Cyclic64::op(&result, &base);
    assert!(!verify_poke2::<Cyclic64>(&base, &other, &proof));
    assert!(!verify_poke2::<Cyclic64>(&5, &result, &proof));
}

#[test]
fn poke2_rejects_tampered_proof() {
    let base: u64 = 7;
    let exp = signed(-123_456);
    let result = Cyclic64::exp_signed(&base, &exp);
    let proof = prove_poke2::<Cyclic64>(&base, &exp, &result).unwrap();
    assert!(verify_poke2::<Cyclic64>(&base, &result, &proof));
    let mut r = proof.r.clone();
    r[0] = r[0].wrapping_add(1);
    let tampered = PoKE2 { z: proof.z, Q: proof.Q, r };
    assert!(!verify_poke2::<Cyclic64>(&base, &result, &tampered));
    let tampered_q = PoKE2 { z: proof.z, Q: Cyclic64::op(&proof.Q, &1), r: proof.r.clone() };
    assert!(!verify_poke2::<Cyclic64>(&base, &result, &tampered_q));
}

#[test]
fn poke2_zero_exponent() {
    let base: u64 = 11;
    let exp = BigInt { negative: false, magnitude: vec![] };
    let result: u64 = 0;
    let proof = prove_poke2::<Cyclic64>(&base, &exp, &result).unwrap();
    assert!(verify_poke2::<Cyclic64>(&base, &result, &proof));
    assert_eq!(proof.z, 0);
    assert_eq!(value_of_le(&proof.r), 0);
}

#[test]
fn cyclic_group_arithmetic() {
    assert_eq!(Cyclic64::exp(&3, &[0, 1]), 768);
    assert_eq!(Cyclic64::exp(&5, &[]), 0);
    assert_eq!(Cyclic64::op(&u64::MAX, &2), 1);
    // 2^64 * a wraps to 0
    assert_eq!(Cyclic64::exp(&9, &[0, 0, 0, 0, 0, 0, 0, 0, 1]), 0);
    let minus_five = Cyclic64::exp_signed(&2, &signed(-5));
    assert_eq!(Cyclic64::op(&minus_five, &Cyclic64::exp(&2, &[5])), 0);
    assert!(Cyclic64::elem_eq(&4, &4));
    assert!(!Cyclic64::elem_eq(&4, &5));
    assert_eq!(Cyclic64::encode(&0x0102), vec![2, 1, 0, 0, 0, 0, 0, 0]);
}

#[test]
fn test_hash_inputs() {
    let base: u64 = 2;
    let exp = signed(20);
    let result = Cyclic64::exp_signed(&base, &exp);
    assert_eq!(result, 40);
    let z = Cyclic64::exp_signed(&Cyclic64::base_elem(), &exp);
    let l = hash_prime::<Cyclic64>(&base, &result, &z).unwrap();
    let alpha = hash_inputs::<Cyclic64>(&base, &result, &z, &l);

    let mut input = Vec::new();
    input.extend_from_slice(&2u64.to_le_bytes());
    input.extend_from_slice(&40u64.to_le_bytes());
    input.extend_from_slice(&20u64.to_le_bytes());
    assert_eq!(l, hash_to_prime(&Blake2b::new, &input).unwrap());
    input.extend_from_slice(&l);
    assert_eq!(alpha, hash(&Blake2b::new, &input));
    assert_ne!(alpha, l);
}
