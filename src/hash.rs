use vstd::prelude::*;
use crate::bigint::{is_probable_prime, nat_of_le, passes_prime_test};

verus! {

/// Like `std::hash::Hasher`, but general over the type of what it outputs.
///
/// A hasher is fed bytes and then consumed to produce its output, which is a
/// function of the bytes fed alone.
pub trait GeneralHasher: Sized {
    type Output: View;

    /// The bytes fed to this hasher so far.
    spec fn absorbed(&self) -> Seq<u8>;

    /// The output of a hasher of this kind that was fed exactly `data`.
    spec fn digest_of(data: Seq<u8>) -> <Self::Output as View>::V;

    /// Feeds `bytes` to the hasher.
    fn write(&mut self, bytes: &[u8])
        ensures
            final(self).absorbed() == old(self).absorbed() + bytes@,
    ;

    /// Similar to `Hasher::finish`, but consumes the hasher.
    fn finalize(self) -> (r: Self::Output)
        ensures
            r@ == Self::digest_of(self.absorbed()),
    ;
}

/// `new_hasher` makes hashers that have been fed nothing yet.
pub open spec fn makes_fresh_hashers<H: GeneralHasher, F: Fn() -> H>(new_hasher: F) -> bool {
    &&& call_requires(new_hasher, ())
    &&& forall|h: H| call_ensures(new_hasher, (), h) ==> h.absorbed() == Seq::<u8>::empty()
}

/// Feeds `t` to a hasher fresh from `new_hasher` and returns what it outputs.
///
/// The constructor is passed in so that callers pick the hash algorithm
/// without spelling out the hasher's type.
pub fn hash<H: GeneralHasher, F: Fn() -> H>(new_hasher: &F, t: &[u8]) -> (r: H::Output)
    requires
        makes_fresh_hashers(*new_hasher),
    ensures
        r@ == H::digest_of(t@),
{
    let mut h = new_hasher();
    h.write(t);
    proof {
        assert(Seq::<u8>::empty() + t@ =~= t@);
    }
    h.finalize()
}

/// Rounds of the probable-prime test that a hashed candidate must pass.
pub const PRIME_TEST_ROUNDS: usize = 32;

/// The `n` low base-256 digits of `c`, least significant first.
pub open spec fn le_bytes(c: nat, n: nat) -> Seq<u8>
    decreases n,
{
    if n == 0 {
        Seq::empty()
    } else {
        seq![(c % 256) as u8] + le_bytes(c / 256, (n - 1) as nat)
    }
}

/// The candidate that `hash_to_prime` tests with counter `c`: the digest of
/// `t` followed by the counter's eight little-endian bytes.
pub open spec fn prime_candidate<H: GeneralHasher<Output = Vec<u8>>>(t: Seq<u8>, c: u64) -> Seq<u8> {
    H::digest_of(t + le_bytes(c as nat, 8))
}

pub open spec fn candidate_is_prime<H: GeneralHasher<Output = Vec<u8>>>(t: Seq<u8>, c: u64) -> bool {
    passes_prime_test(prime_candidate::<H>(t, c), PRIME_TEST_ROUNDS)
}

/// `c` is the least counter whose candidate passes the prime test.
pub open spec fn is_first_prime_counter<H: GeneralHasher<Output = Vec<u8>>>(t: Seq<u8>, c: u64) -> bool {
    &&& candidate_is_prime::<H>(t, c)
    &&& forall|d: u64| d < c ==> !candidate_is_prime::<H>(t, d)
}

/// What `hash_to_prime` returns for `t`: the candidate of the first counter
/// that passes, if any counter does.
pub open spec fn spec_hash_to_prime<H: GeneralHasher<Output = Vec<u8>>>(t: Seq<u8>) -> Option<Seq<u8>> {
    if exists|c: u64| is_first_prime_counter::<H>(t, c) {
        Some(prime_candidate::<H>(t, choose|c: u64| is_first_prime_counter::<H>(t, c)))
    } else {
        None
    }
}

pub(crate) fn u64_le_bytes(c: u64) -> (r: Vec<u8>)
    ensures
        r@ == le_bytes(c as nat, 8),
{
    let mut r: Vec<u8> = Vec::new();
    let mut v: u64 = c;
    let mut i: usize = 0;
    while i < 8
        invariant
            i <= 8,
            r@ + le_bytes(v as nat, (8 - i) as nat) == le_bytes(c as nat, 8),
        decreases 8 - i,
    {
        proof {
            assert(le_bytes(v as nat, (8 - i) as nat) == seq![(v % 256) as u8] + le_bytes(
                (v / 256) as nat,
                (8 - i - 1) as nat,
            ));
            assert(r@.push((v % 256) as u8) + le_bytes((v / 256) as nat, (8 - i - 1) as nat)
                =~= r@ + (seq![(v % 256) as u8] + le_bytes((v / 256) as nat, (8 - i - 1) as nat)));
        }
        r.push((v % 256) as u8);
        v = v / 256;
        i = i + 1;
    }
    proof {
        assert(r@ + le_bytes(v as nat, 0) =~= r@);
    }
    r
}

/// Hashes `t` with an incrementing 64-bit counter until the digest, read as a
/// little-endian number, passes the probable-prime test, and returns that
/// digest. `None` only when no counter at all gives a prime.
pub fn hash_to_prime<H: GeneralHasher<Output = Vec<u8>>, F: Fn() -> H>(new_hasher: &F, t: &[u8]) -> (r: Option<Vec<u8>>)
    requires
        makes_fresh_hashers(*new_hasher),
    ensures
        match r {
            Some(p) => spec_hash_to_prime::<H>(t@) == Some(p@),
            None => spec_hash_to_prime::<H>(t@) is None,
        },
        r matches Some(p) ==> passes_prime_test(p@, PRIME_TEST_ROUNDS) && nat_of_le(p@) >= 2,
{
    let mut counter: u64 = 0;
    loop
        invariant
            makes_fresh_hashers(*new_hasher),
            forall|d: u64| d < counter ==> !candidate_is_prime::<H>(t@, d),
        decreases u64::MAX - counter,
    {
        let mut h = new_hasher();
        h.write(t);
        let c = u64_le_bytes(counter);
        h.write(c.as_slice());
        let candidate = h.finalize();
        proof {
            assert(Seq::<u8>::empty() + t@ + c@ =~= t@ + le_bytes(counter as nat, 8));
        }
        if is_probable_prime(candidate.as_slice(), PRIME_TEST_ROUNDS) {
            proof {
                assert(is_first_prime_counter::<H>(t@, counter));
                lemma_first_prime_counter_unique::<H>(t@, counter);
            }
            return Some(candidate);
        }
        if counter == u64::MAX {
            proof {
                assert forall|c: u64| !is_first_prime_counter::<H>(t@, c) by {
                    if c < counter {
                    } else {
                        assert(c == counter);
                    }
                }
            }
            return None;
        }
        counter = counter + 1;
    }
}

/// Determinism: at most one counter is the first whose candidate passes, so
/// the prime that `hash_to_prime` returns is fixed by the hasher and `t`.
pub proof fn lemma_first_prime_counter_unique<H: GeneralHasher<Output = Vec<u8>>>(t: Seq<u8>, c: u64)
    requires
        is_first_prime_counter::<H>(t, c),
    ensures
        spec_hash_to_prime::<H>(t) == Some(prime_candidate::<H>(t, c)),
{
    let d = choose|d: u64| is_first_prime_counter::<H>(t, d);
    assert(is_first_prime_counter::<H>(t, d));
    if d < c {
    } else if c < d {
    }
}

} // verus!
