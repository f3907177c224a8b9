//! The mathematical account of tree construction: leaf level, padding,
//! pairing, and the bottom-up build.

use vstd::prelude::*;

use crate::hashing::sha256_of;
use crate::node::SpecNode;

verus! {

/// One leaf per record, in record order.
pub open spec fn spec_leaf_level(records: Seq<Seq<u8>>) -> Seq<SpecNode> {
    Seq::new(records.len(), |i: int| SpecNode::Leaf { digest: sha256_of(records[i]) })
}

/// A level with an odd number of nodes gains a copy of its last node, so
/// that pairing always finds an even count.
pub open spec fn spec_pad(level: Seq<SpecNode>) -> Seq<SpecNode> {
    if level.len() % 2 == 1 {
        level.push(level.last())
    } else {
        level
    }
}

/// Adjacent nodes of an even level, joined pairwise in index order.
pub open spec fn spec_pair(level: Seq<SpecNode>) -> Seq<SpecNode> {
    Seq::new(
        level.len() / 2,
        |i: int| SpecNode::Internal {
            left: Box::new(level[2 * i]),
            right: Box::new(level[2 * i + 1]),
        },
    )
}

/// Repeated padding and pairing of a non-empty level until one node stands:
/// the root of the tree built over that level.
pub open spec fn spec_build(level: Seq<SpecNode>) -> SpecNode
    recommends
        level.len() >= 1,
    decreases level.len(),
{
    if level.len() <= 1 {
        level[0]
    } else {
        spec_build(spec_pair(spec_pad(level)))
    }
}

/// The tree built over an ordered record sequence: none for no records;
/// otherwise the leaf level — padded even when it is a single leaf — built
/// up to a root.
pub open spec fn spec_tree(records: Seq<Seq<u8>>) -> Option<SpecNode> {
    if records.len() == 0 {
        None
    } else {
        Some(spec_build(spec_pad(spec_leaf_level(records))))
    }
}

/// The root digest committing to an ordered record sequence, when there is
/// one.
pub open spec fn spec_root(records: Seq<Seq<u8>>) -> Option<Seq<u8>> {
    match spec_tree(records) {
        None => None,
        Some(node) => Some(node.digest()),
    }
}

/// The leaf count after the leaf level's own padding step.
pub open spec fn padded_count(n: nat) -> nat {
    if n % 2 == 1 {
        n + 1
    } else {
        n
    }
}

/// The ceiling of the base-two logarithm, through the halving that one
/// padding-and-pairing round performs.
pub open spec fn clog2(n: nat) -> nat
    decreases n,
{
    if n <= 1 {
        0
    } else {
        1 + clog2((n + 1) / 2)
    }
}

/// Two raised to a power.
pub open spec fn pow2(k: nat) -> nat
    decreases k,
{
    if k == 0 {
        1
    } else {
        2 * pow2((k - 1) as nat)
    }
}

/// [`clog2`] deserves its name: it is the least exponent whose power of two
/// reaches `n`.
pub proof fn lemma_clog2_is_ceiling(n: nat)
    requires
        n >= 1,
    ensures
        n <= pow2(clog2(n)),
        clog2(n) >= 1 ==> pow2((clog2(n) - 1) as nat) < n,
    decreases n,
{
    if n >= 2 {
        let half = ((n + 1) / 2) as nat;
        lemma_clog2_is_ceiling(half);
        assert(pow2(clog2(n)) == 2 * pow2(clog2(half)));
        if clog2(half) >= 1 {
            assert(pow2((clog2(half) - 1) as nat) < half);
            assert(pow2(clog2(half)) == 2 * pow2((clog2(half) - 1) as nat));
        }
    }
}

} // verus!
