use vstd::prelude::*;
use crate::hash::GeneralHasher;

verus! {

/// Length in bytes of the digests that `Blake2b` outputs.
pub const DIGEST_LEN: usize = 32;

/// The BLAKE2b digest of `nn` bytes of `data`, without a key.
pub uninterp spec fn blake2b_of(nn: usize, data: Seq<u8>) -> Seq<u8>;

/// Relies on blake2_rfc::blake2b::blake2b: the unkeyed BLAKE2b digest of
/// `data`, `nn` bytes long (it asserts 1 <= nn <= 64).
#[verifier::external_body]
fn blake2b_digest(nn: usize, data: &[u8]) -> (r: Vec<u8>)
    requires
        1 <= nn <= 64,
    ensures
        r@ == blake2b_of(nn, data@),
        r@.len() == nn,
{
    blake2_rfc::blake2b::blake2b(nn, &[], data).as_bytes().to_vec()
}

/// A BLAKE2b hasher with 32-byte digests; it keeps what it was fed and
/// digests it all at once when finalized.
pub struct Blake2b {
    data: Vec<u8>,
}

impl Blake2b {
    /// A hasher that has been fed nothing.
    pub fn new() -> (r: Blake2b)
        ensures
            r.absorbed() == Seq::<u8>::empty(),
    {
        Blake2b { data: Vec::new() }
    }
}

impl Default for Blake2b {
    fn default() -> (r: Blake2b)
        ensures
            r.absorbed() == Seq::<u8>::empty(),
    {
        Blake2b::new()
    }
}

impl GeneralHasher for Blake2b {
    type Output = Vec<u8>;

    closed spec fn absorbed(&self) -> Seq<u8> {
        self.data@
    }

    open spec fn digest_of(data: Seq<u8>) -> Seq<u8> {
        blake2b_of(DIGEST_LEN, data)
    }

    fn write(&mut self, bytes: &[u8]) {
        let mut i: usize = 0;
        while i < bytes.len()
            invariant
                i <= bytes@.len(),
                self.data@ == old(self).data@ + bytes@.subrange(0, i as int),
            decreases bytes@.len() - i,
        {
            self.data.push(bytes[i]);
            i = i + 1;
            proof {
                assert(bytes@.subrange(0, i as int) =~= bytes@.subrange(0, i - 1) + seq![
                    bytes@[i - 1],
                ]);
            }
        }
        proof {
            assert(bytes@.subrange(0, bytes@.len() as int) =~= bytes@);
        }
    }

    fn finalize(self) -> (r: Vec<u8>) {
        blake2b_digest(DIGEST_LEN, self.data.as_slice())
    }
}

} // verus!
