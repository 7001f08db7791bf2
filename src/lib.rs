//! Building blocks of a hidden-order-group accumulator: hashers general over
//! their output, hashing to a prime, the capabilities of a group, and PoKE2,
//! a non-interactive proof of knowledge of an exponent.

pub mod bigint;
pub mod blake2b;
pub mod cyclic;
pub mod group;
pub mod hash;
pub mod poke2;
