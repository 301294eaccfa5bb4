//! SHA-256 digests, as the contracts compute them, and pairs of digests
//! used as storage keys.
use vstd::prelude::*;
use crate::keymap::SameKey;

verus! {

/// What SHA-256 gives for the bytes.
pub uninterp spec fn sha256_of(data: Seq<u8>) -> Seq<u8>;

/// The most bytes handed to one digest. A fresh soroban host meters its
/// work against a default budget (100 million CPU instructions, 40 MB),
/// and copying and hashing the bytes runs past it, panicking, somewhere
/// beyond a megabyte; this limit stays well inside it.
pub const HASH_INPUT_LIMIT: usize = 262144;

/// `Crypto::sha256` of soroban-sdk, in a fresh host environment.
///
/// Trusted: the digest is a function of the bytes alone, named
/// `sha256_of`. The host panics where the budget runs out; the
/// `requires` keeps the input within `HASH_INPUT_LIMIT`, below that point.
#[verifier::external_body]
pub(crate) fn sha256(data: &[u8]) -> (r: [u8; 32])
    requires
        data@.len() <= HASH_INPUT_LIMIT,
    ensures
        r@ == sha256_of(data@),
{
    let env = soroban_sdk::Env::default();
    env.crypto().sha256(&soroban_sdk::Bytes::from_slice(&env, data)).to_array()
}

/// Whether two digests hold the same bytes.
pub fn same_digest(a: &[u8; 32], b: &[u8; 32]) -> (r: bool)
    ensures
        r == (a@ == b@),
{
    let mut i: usize = 0;
    while i < 32
        invariant
            i <= 32,
            a@.len() == 32,
            b@.len() == 32,
            forall|j: int| 0 <= j < i ==> a@[j] == b@[j],
        decreases 32 - i,
    {
        if a[i] != b[i] {
            return false;
        }
        i += 1;
    }
    proof {
        assert(a@ =~= b@);
    }
    true
}

/// A pair of digests, e.g. of a proof and of a claim.
#[derive(Copy, Clone, Debug, PartialEq, Eq)]
pub struct DigestPair {
    pub first: [u8; 32],
    pub second: [u8; 32],
}

impl View for DigestPair {
    type V = (Seq<u8>, Seq<u8>);

    open spec fn view(&self) -> (Seq<u8>, Seq<u8>) {
        (self.first@, self.second@)
    }
}

impl SameKey for DigestPair {
    fn same_key(&self, other: &Self) -> (r: bool) {
        same_digest(&self.first, &other.first) && same_digest(&self.second, &other.second)
    }
}

} // verus!
