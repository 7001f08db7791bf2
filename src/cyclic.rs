use vstd::prelude::*;
use vstd::arithmetic::div_mod::{
    lemma_add_mod_noop, lemma_add_mod_noop_right, lemma_mod_bound, lemma_mul_mod_noop_left,
    lemma_mul_mod_noop_right, lemma_small_mod, lemma_sub_mod_noop,
};
use vstd::arithmetic::mul::{lemma_mul_is_associative, lemma_mul_is_distributive_add};
use crate::bigint::{nat_of_le, BigInt};
use crate::group::{Group, InvertibleGroup};
use crate::hash::{le_bytes, u64_le_bytes};

verus! {

/// The order of `Cyclic64`.
pub open spec fn order() -> int {
    0x1_0000_0000_0000_0000
}

const ORDER: u128 = 0x1_0000_0000_0000_0000;

/// A small test group: the integers modulo 2^64 under addition, generated by
/// 1, so that `g^n` is `n mod 2^64`. Its order is public, so it gives no
/// security; it exercises the proof protocol.
pub struct Cyclic64;

impl Group for Cyclic64 {
    type Elem = u64;

    open spec fn spec_base() -> u64 {
        1
    }

    open spec fn spec_op(a: u64, b: u64) -> u64 {
        ((a as int + b as int) % order()) as u64
    }

    open spec fn spec_pow(a: u64, n: int) -> u64 {
        ((a as int * n) % order()) as u64
    }

    open spec fn spec_encode(a: u64) -> Seq<u8> {
        le_bytes(a as nat, 8)
    }

    fn base_elem() -> (r: u64) {
        1
    }

    fn op(a: &u64, b: &u64) -> (r: u64) {
        ((*a as u128 + *b as u128) % ORDER) as u64
    }

    fn exp(a: &u64, n: &[u8]) -> (r: u64) {
        let len = n.len();
        let mut acc: u64 = 0;
        let mut i: usize = len;
        proof {
            assert(n@.subrange(len as int, len as int) =~= Seq::<u8>::empty());
            assert(*a as int * 0 == 0);
            lemma_small_mod(0, order() as nat);
        }
        while i > 0
            invariant
                len == n@.len(),
                i <= len,
                acc as int == (*a as int * nat_of_le(n@.subrange(i as int, len as int))) % order(),
            decreases i,
        {
            i = i - 1;
            let d = n[i];
            let x: u128 = *a as u128;
            assert(x * (d as u128) <= 0xffff_ffff_ffff_ffff * 255) by (nonlinear_arith)
                requires
                    x <= 0xffff_ffff_ffff_ffff,
                    d <= 255,
            ;
            let t: u128 = x * (d as u128) + 256 * (acc as u128);
            let next = (t % ORDER) as u64;
            proof {
                let s = n@.subrange(i as int, len as int);
                let rest = nat_of_le(n@.subrange(i + 1, len as int));
                assert(s.drop_first() =~= n@.subrange(i + 1, len as int));
                assert(nat_of_le(s) == d as nat + 256 * rest);
                let ar = *a as int * rest;
                lemma_mul_mod_noop_right(256, ar, order());
                lemma_add_mod_noop_right(*a as int * d, 256 * ar, order());
                lemma_add_mod_noop_right(*a as int * d, 256 * (ar % order()), order());
                let ai = *a as int;
                let di = d as int;
                let ri = rest as int;
                assert(ai * (di + 256 * ri) == ai * di + 256 * (ai * ri)) by (nonlinear_arith);
                lemma_mod_bound(t as int, order());
            }
            acc = next;
        }
        proof {
            assert(n@.subrange(0, len as int) =~= n@);
        }
        acc
    }

    fn elem_eq(a: &u64, b: &u64) -> (r: bool) {
        *a == *b
    }

    fn encode(a: &u64) -> (r: Vec<u8>) {
        u64_le_bytes(*a)
    }
}

impl InvertibleGroup for Cyclic64 {
    fn exp_signed(a: &u64, n: &BigInt) -> (r: u64) {
        let e = Self::exp(a, n.magnitude.as_slice());
        if n.negative {
            let r = ((ORDER - e as u128) % ORDER) as u64;
            proof {
                let ai = *a as int;
                let mi = nat_of_le(n.magnitude@) as int;
                let an = ai * mi;
                assert(ai * (0 - mi) == 0 - ai * mi) by (nonlinear_arith);
                assert(n.value() == 0 - mi);
                lemma_sub_mod_noop(0, an, order());
                lemma_small_mod(0, order() as nat);
                lemma_add_mod_noop(order(), 0 - (e as int), order());
                lemma_mod_bound(0 - an, order());
            }
            r
        } else {
            e
        }
    }

    proof fn lemma_pow_add(a: u64, m: int, n: int) {
        lemma_mod_bound(a as int * m, order());
        lemma_mod_bound(a as int * n, order());
        lemma_add_mod_noop(a as int * m, a as int * n, order());
        lemma_mul_is_distributive_add(a as int, m, n);
        lemma_mod_bound(a as int * (m + n), order());
    }

    proof fn lemma_pow_mul(a: u64, m: int, n: int) {
        lemma_mod_bound(a as int * m, order());
        lemma_mul_mod_noop_left(a as int * m, n, order());
        lemma_mul_is_associative(a as int, m, n);
        lemma_mod_bound(a as int * (m * n), order());
    }

    proof fn lemma_pow_op(a: u64, b: u64, n: int) {
        let s = a as int + b as int;
        lemma_mod_bound(s, order());
        lemma_mul_mod_noop_left(s, n, order());
        let ai = a as int;
        let bi = b as int;
        assert((ai + bi) * n == ai * n + bi * n) by (nonlinear_arith);
        lemma_mod_bound(a as int * n, order());
        lemma_mod_bound(b as int * n, order());
        lemma_add_mod_noop(a as int * n, b as int * n, order());
        lemma_mod_bound(s * n, order());
    }
}

} // verus!
