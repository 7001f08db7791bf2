use vstd::prelude::*;
use crate::bigint::{nat_of_le, BigInt};

verus! {

/// The operations of an abelian group that proofs of exponent need.
///
/// Each group supplies a mathematical model of its elements (`spec_op`,
/// `spec_pow`) and proves the laws below of that model.
pub trait Group: Sized {
    type Elem;

    /// The group's distinguished element (its generator).
    spec fn spec_base() -> Self::Elem;

    /// The group operation.
    spec fn spec_op(a: Self::Elem, b: Self::Elem) -> Self::Elem;

    /// `a` raised to the power `n`; a negative `n` is meaningful only in an
    /// invertible group.
    spec fn spec_pow(a: Self::Elem, n: int) -> Self::Elem;

    /// The canonical byte encoding of an element, fed to hashes.
    spec fn spec_encode(a: Self::Elem) -> Seq<u8>;

    fn base_elem() -> (r: Self::Elem)
        ensures
            r == Self::spec_base(),
    ;

    fn op(a: &Self::Elem, b: &Self::Elem) -> (r: Self::Elem)
        ensures
            r == Self::spec_op(*a, *b),
    ;

    /// `a` raised to the non-negative power held little-endian in `n`.
    fn exp(a: &Self::Elem, n: &[u8]) -> (r: Self::Elem)
        ensures
            r == Self::spec_pow(*a, nat_of_le(n@) as int),
    ;

    fn elem_eq(a: &Self::Elem, b: &Self::Elem) -> (r: bool)
        ensures
            r == (*a == *b),
    ;

    fn encode(a: &Self::Elem) -> (r: Vec<u8>)
        ensures
            r@ == Self::spec_encode(*a),
    ;
}

/// A group in which every element has an inverse, so that negative powers
/// are defined: `exp_signed(g, -k)` is the inverse of `exp(g, k)`.
pub trait InvertibleGroup: Group {
    fn exp_signed(a: &Self::Elem, n: &BigInt) -> (r: Self::Elem)
        ensures
            r == Self::spec_pow(*a, n.value()),
    ;

    /// `a^m * a^n == a^(m + n)`.
    proof fn lemma_pow_add(a: Self::Elem, m: int, n: int)
        ensures
            Self::spec_op(Self::spec_pow(a, m), Self::spec_pow(a, n)) == Self::spec_pow(a, m + n),
    ;

    /// `(a^m)^n == a^(m * n)`.
    proof fn lemma_pow_mul(a: Self::Elem, m: int, n: int)
        ensures
            Self::spec_pow(Self::spec_pow(a, m), n) == Self::spec_pow(a, m * n),
    ;

    /// `(a * b)^n == a^n * b^n`, as the group is abelian.
    proof fn lemma_pow_op(a: Self::Elem, b: Self::Elem, n: int)
        ensures
            Self::spec_pow(Self::spec_op(a, b), n) == Self::spec_op(
                Self::spec_pow(a, n),
                Self::spec_pow(b, n),
            ),
    ;
}

} // verus!
