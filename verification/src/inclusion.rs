//! Inclusion proofs and their verification.

use vstd::prelude::*;

use crate::hashing::bytes_eq;
use crate::hashing::clone_bytes;
use crate::hashing::extend_bytes;
use crate::hashing::sha256;
use crate::hashing::sha256_of;

verus! {

/// The mathematical content of an inclusion proof: the leaf digest it
/// starts from, the sibling digests with their side flags in leaf-to-root
/// order (`true`: the sibling stands to the left), and the root digest the
/// proof was generated under.
pub struct SpecProof {
    pub leaf: Seq<u8>,
    pub sibs: Seq<(Seq<u8>, bool)>,
    pub root: Seq<u8>,
}

/// A self-contained proof that one record's digest sits in a tree; it is
/// checked against a claimed root digest, with no tree at hand.
pub struct MerkleProof {
    /// Sibling digests with side flags, from the leaf toward the root;
    /// `true` marks a sibling that stands to the left.
    pub proof_hashes: Vec<(Vec<u8>, bool)>,
    /// The digest of the record this proof speaks for.
    pub leaf_hash: Vec<u8>,
    /// The root digest of the tree the proof was generated from.
    pub root_hash: Vec<u8>,
}

/// The digest sequences behind a stored sibling list.
pub open spec fn sibs_view(sibs: Seq<(Vec<u8>, bool)>) -> Seq<(Seq<u8>, bool)> {
    sibs.map_values(|p: (Vec<u8>, bool)| (p.0@, p.1))
}

impl View for MerkleProof {
    type V = SpecProof;

    open spec fn view(&self) -> SpecProof {
        SpecProof {
            leaf: self.leaf_hash@,
            sibs: sibs_view(self.proof_hashes@),
            root: self.root_hash@,
        }
    }
}

/// The replay of a proof: starting from `current`, each sibling is hashed
/// in, on the side its flag names, in stored order.
pub open spec fn spec_fold(current: Seq<u8>, sibs: Seq<(Seq<u8>, bool)>) -> Seq<u8>
    decreases sibs.len(),
{
    if sibs.len() == 0 {
        current
    } else {
        let step = if sibs[0].1 {
            sha256_of(sibs[0].0 + current)
        } else {
            sha256_of(current + sibs[0].0)
        };
        spec_fold(step, sibs.drop_first())
    }
}

impl MerkleProof {
    /// Replays the proof from its leaf digest and accepts exactly when the
    /// outcome equals `root_hash`, byte for byte.
    pub fn verify(&self, root_hash: &[u8]) -> (r: bool)
        ensures
            r == (spec_fold(self@.leaf, self@.sibs) == root_hash@),
    {
        proof {
            assert(sibs_view(self.proof_hashes@).skip(0) =~= self@.sibs);
        }
        let mut current = clone_bytes(&self.leaf_hash);
        let mut i: usize = 0;
        while i < self.proof_hashes.len()
            invariant
                i <= self.proof_hashes@.len(),
                spec_fold(current@, sibs_view(self.proof_hashes@).skip(i as int)) == spec_fold(
                    self@.leaf,
                    self@.sibs,
                ),
            decreases self.proof_hashes@.len() - i,
        {
            let pair: &(Vec<u8>, bool) = &self.proof_hashes[i];
            let mut buf: Vec<u8> = Vec::new();
            if pair.1 {
                extend_bytes(&mut buf, pair.0.as_slice());
                extend_bytes(&mut buf, current.as_slice());
            } else {
                extend_bytes(&mut buf, current.as_slice());
                extend_bytes(&mut buf, pair.0.as_slice());
            }
            proof {
                let s = sibs_view(self.proof_hashes@);
                assert(s.skip(i as int)[0] == s[i as int]);
                assert(s.skip(i as int).drop_first() =~= s.skip(i as int + 1));
            }
            current = sha256(buf.as_slice());
            i = i + 1;
        }
        proof {
            assert(sibs_view(self.proof_hashes@).skip(self.proof_hashes@.len() as int)
                =~= Seq::<(Seq<u8>, bool)>::empty());
        }
        bytes_eq(&current, root_hash)
    }
}

} // verus!
