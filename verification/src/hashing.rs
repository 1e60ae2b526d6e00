//! The content hash used to verify pieces and to identify the swarm.
//!
//! The digest itself is computed by an outside crate; the library only names
//! its result.  `sha1_of` stands for the 20-byte digest of a byte string, and
//! every contract that speaks of content verification speaks through it.

use sha1::Digest;
use sha1::Sha1;
use vstd::prelude::*;

verus! {

/// The 20-byte digest of `data`.  Equal inputs give the equal digest, in
/// every process and on every machine.
pub uninterp spec fn sha1_of(data: Seq<u8>) -> Seq<u8>;

/// Relies on `sha1::Sha1` via the `Digest` trait: feeding `update` the whole
/// input and calling `finalize` yields a 20-byte digest that depends on the
/// input bytes alone.
#[verifier::external_body]
pub(crate) fn sha1_digest(data: &[u8]) -> (r: Vec<u8>)
    ensures
        r@ == sha1_of(data@),
        r@.len() == 20,
{
    let mut hasher = Sha1::new();
    hasher.update(data);
    hasher.finalize().to_vec()
}

/// Byte-string equality, used to compare a computed digest with an expected
/// one.
pub fn bytes_eq(a: &Vec<u8>, b: &Vec<u8>) -> (r: bool)
    ensures
        r <==> a@ == b@,
{
    if a.len() != b.len() {
        return false;
    }
    let mut i: usize = 0;
    while i < a.len()
        invariant
            i <= a@.len(),
            a@.len() == b@.len(),
            forall|j: int| 0 <= j < i ==> a@[j] == b@[j],
        decreases a@.len() - i,
    {
        if a[i] != b[i] {
            return false;
        }
        i += 1;
    }
    proof {
        assert(a@ =~= b@);
    }
    true
}

} // verus!
