//! The guarantees the library gives, stated and proved over the
//! mathematical model: determinism, inclusion, exclusion, the empty and
//! single-record trees, and the length of every proof.

use vstd::prelude::*;

use crate::construct::clog2;
use crate::construct::padded_count;
use crate::construct::spec_build;
use crate::construct::spec_leaf_level;
use crate::construct::spec_pad;
use crate::construct::spec_pair;
use crate::construct::spec_root;
use crate::construct::spec_tree;
use crate::hashing::sha256_of;
use crate::inclusion::spec_fold;
use crate::node::spec_find;
use crate::node::SpecNode;
use crate::tree::MerkleTree;

verus! {

/// A digest sequence concatenation holds a digest exactly when one of its
/// two parts does.
proof fn lemma_concat_contains(a: Seq<Seq<u8>>, b: Seq<Seq<u8>>, d: Seq<u8>)
    ensures
        (a + b).contains(d) <==> (a.contains(d) || b.contains(d)),
{
    if a.contains(d) {
        let i = choose|i: int| 0 <= i < a.len() && a[i] == d;
        assert((a + b)[i] == d);
    }
    if b.contains(d) {
        let i = choose|i: int| 0 <= i < b.len() && b[i] == d;
        assert((a + b)[a.len() + i] == d);
    }
    if (a + b).contains(d) {
        let i = choose|i: int| 0 <= i < (a + b).len() && (a + b)[i] == d;
        if i < a.len() {
            assert(a[i] == d);
        } else {
            assert(b[i - a.len()] == d);
        }
    }
}

/// Appending one sibling to a proof hashes the replayed digest once more,
/// on the side the flag names.
proof fn lemma_fold_push(start: Seq<u8>, sibs: Seq<(Seq<u8>, bool)>, step: (Seq<u8>, bool))
    ensures
        spec_fold(start, sibs.push(step)) == (if step.1 {
            sha256_of(step.0 + spec_fold(start, sibs))
        } else {
            sha256_of(spec_fold(start, sibs) + step.0)
        }),
    decreases sibs.len(),
{
    let extended = sibs.push(step);
    if sibs.len() == 0 {
        let mid = if step.1 {
            sha256_of(step.0 + start)
        } else {
            sha256_of(start + step.0)
        };
        assert(extended[0] == step);
        assert(extended.drop_first() =~= Seq::<(Seq<u8>, bool)>::empty());
        assert(spec_fold(start, extended) == spec_fold(mid, extended.drop_first()));
        assert(spec_fold(mid, extended.drop_first()) == mid);
        assert(spec_fold(start, sibs) == start);
    } else {
        let first = sibs[0];
        let next = if first.1 {
            sha256_of(first.0 + start)
        } else {
            sha256_of(start + first.0)
        };
        assert(extended[0] == first);
        assert(extended.drop_first() =~= sibs.drop_first().push(step));
        assert(spec_fold(start, extended) == spec_fold(next, sibs.drop_first().push(step)));
        lemma_fold_push(next, sibs.drop_first(), step);
        assert(spec_fold(start, sibs) == spec_fold(next, sibs.drop_first()));
    }
}

/// Soundness of generation against verification: a proof found in a tree
/// replays to that tree's digest.
pub proof fn lemma_find_fold(node: SpecNode, target: Seq<u8>)
    requires
        spec_find(node, target) is Some,
    ensures
        spec_fold(target, spec_find(node, target).unwrap()) == node.digest(),
    decreases node,
{
    match node {
        SpecNode::Leaf { .. } => {},
        SpecNode::Internal { left, right } => {
            if spec_find(*left, target) is Some {
                lemma_find_fold(*left, target);
                lemma_fold_push(target, spec_find(*left, target).unwrap(), (right.digest(), false));
            } else {
                lemma_find_fold(*right, target);
                lemma_fold_push(target, spec_find(*right, target).unwrap(), (left.digest(), true));
            }
        },
    }
}

/// The search succeeds exactly when some leaf carries the target digest.
pub proof fn lemma_find_contains(node: SpecNode, target: Seq<u8>)
    ensures
        spec_find(node, target) is Some <==> node.leaf_digests().contains(target),
    decreases node,
{
    match node {
        SpecNode::Leaf { digest } => {
            if digest == target {
                assert(node.leaf_digests()[0] == target);
            }
            if node.leaf_digests().contains(target) {
                let i = choose|i: int|
                    0 <= i < node.leaf_digests().len() && node.leaf_digests()[i] == target;
                assert(i == 0);
            }
        },
        SpecNode::Internal { left, right } => {
            lemma_find_contains(*left, target);
            lemma_find_contains(*right, target);
            lemma_concat_contains(left.leaf_digests(), right.leaf_digests(), target);
        },
    }
}

/// A built level's leaves are exactly the leaves of the level's own nodes:
/// padding duplicates a node already present, and pairing only regroups.
proof fn lemma_build_leaves(level: Seq<SpecNode>, d: Seq<u8>)
    requires
        level.len() >= 1,
    ensures
        spec_build(level).leaf_digests().contains(d) <==> (exists|i: int|
            0 <= i < level.len() && (#[trigger] level[i]).leaf_digests().contains(d)),
    decreases level.len(),
{
    if level.len() == 1 {
        if spec_build(level).leaf_digests().contains(d) {
            assert(level[0].leaf_digests().contains(d));
        }
    } else {
        let padded = spec_pad(level);
        let paired = spec_pair(padded);
        lemma_build_leaves(paired, d);
        assert forall|j: int| 0 <= j < paired.len() implies ((#[trigger] paired[j]).leaf_digests().contains(d)
            <==> (padded[2 * j].leaf_digests().contains(d) || padded[2 * j
            + 1].leaf_digests().contains(d))) by {
            lemma_concat_contains(
                padded[2 * j].leaf_digests(),
                padded[2 * j + 1].leaf_digests(),
                d,
            );
        }
        if spec_build(level).leaf_digests().contains(d) {
            let j = choose|j: int|
                0 <= j < paired.len() && (#[trigger] paired[j]).leaf_digests().contains(d);
            let i = if padded[2 * j].leaf_digests().contains(d) {
                2 * j
            } else {
                2 * j + 1
            };
            assert(padded[i].leaf_digests().contains(d));
            if i < level.len() {
                assert(level[i].leaf_digests().contains(d));
            } else {
                assert(padded[i] == level[level.len() - 1]);
                assert(level[level.len() - 1].leaf_digests().contains(d));
            }
        }
        if exists|i: int| 0 <= i < level.len() && (#[trigger] level[i]).leaf_digests().contains(d) {
            let i = choose|i: int|
                0 <= i < level.len() && (#[trigger] level[i]).leaf_digests().contains(d);
            assert(padded[i] == level[i]);
            let j = i / 2;
            assert(0 <= j < paired.len());
            assert(i == 2 * j || i == 2 * j + 1);
            assert(paired[j].leaf_digests().contains(d));
        }
    }
}

/// The leaves of the tree over a record sequence carry exactly the digests
/// of those records.
proof fn lemma_tree_leaves(records: Seq<Seq<u8>>, d: Seq<u8>)
    requires
        records.len() >= 1,
    ensures
        spec_tree(records) is Some,
        spec_tree(records).unwrap().leaf_digests().contains(d) <==> (exists|i: int|
            0 <= i < records.len() && sha256_of(#[trigger] records[i]) == d),
{
    let leaves = spec_leaf_level(records);
    let base = spec_pad(leaves);
    lemma_build_leaves(base, d);
    assert forall|i: int| 0 <= i < base.len() implies ((#[trigger] base[i]).leaf_digests().contains(
        d,
    ) <==> (exists|k: int| 0 <= k < records.len() && sha256_of(#[trigger] records[k]) == d && base[i]
        == (SpecNode::Leaf { digest: d }))) by {
        let k = if i < leaves.len() {
            i
        } else {
            leaves.len() - 1
        };
        assert(base[i] == leaves[k]);
        assert(leaves[k] == (SpecNode::Leaf { digest: sha256_of(records[k]) }));
        if base[i].leaf_digests().contains(d) {
            let m = choose|m: int|
                0 <= m < base[i].leaf_digests().len() && base[i].leaf_digests()[m] == d;
            assert(m == 0);
            assert(sha256_of(records[k]) == d);
        }
        if sha256_of(records[k]) == d {
            assert(base[i].leaf_digests()[0] == d);
        }
    }
    if exists|i: int| 0 <= i < records.len() && sha256_of(#[trigger] records[i]) == d {
        let i = choose|i: int| 0 <= i < records.len() && sha256_of(#[trigger] records[i]) == d;
        assert(base[i] == leaves[i]);
        assert(base[i].leaf_digests()[0] == d);
        assert(base[i].leaf_digests().contains(d));
    }
}

/// Inclusion: every record of a build is found by the search, and the proof
/// found for it replays to the root digest, so verification accepts it.
pub proof fn lemma_inclusion(records: Seq<Seq<u8>>, i: int)
    requires
        0 <= i < records.len(),
    ensures
        spec_tree(records) is Some,
        spec_find(spec_tree(records).unwrap(), sha256_of(records[i])) is Some,
        spec_fold(
            sha256_of(records[i]),
            spec_find(spec_tree(records).unwrap(), sha256_of(records[i])).unwrap(),
        ) == spec_tree(records).unwrap().digest(),
{
    let d = sha256_of(records[i]);
    lemma_tree_leaves(records, d);
    let root = spec_tree(records).unwrap();
    lemma_find_contains(root, d);
    lemma_find_fold(root, d);
}

/// Exclusion: a digest that no record hashes to is found in no build, so
/// proof generation returns none for it.
pub proof fn lemma_exclusion(records: Seq<Seq<u8>>, target: Seq<u8>)
    requires
        forall|i: int| 0 <= i < records.len() ==> sha256_of(#[trigger] records[i]) != target,
    ensures
        (match spec_tree(records) {
            None => true,
            Some(root) => spec_find(root, target) is None,
        }),
{
    if records.len() >= 1 {
        lemma_tree_leaves(records, target);
        lemma_find_contains(spec_tree(records).unwrap(), target);
    }
}

/// In a balanced tree every found proof is as long as the tree is deep.
proof fn lemma_find_depth(node: SpecNode, target: Seq<u8>)
    requires
        node.balanced(),
        spec_find(node, target) is Some,
    ensures
        spec_find(node, target).unwrap().len() == node.depth(),
    decreases node,
{
    match node {
        SpecNode::Leaf { .. } => {},
        SpecNode::Internal { left, right } => {
            if spec_find(*left, target) is Some {
                lemma_find_depth(*left, target);
            } else {
                lemma_find_depth(*right, target);
            }
        },
    }
}

/// Building over a level of balanced nodes of one common depth yields a
/// balanced tree, deeper by the ceiling base-two logarithm of the level's
/// width.
proof fn lemma_build_balanced(level: Seq<SpecNode>, d: nat)
    requires
        level.len() >= 1,
        forall|i: int|
            0 <= i < level.len() ==> (#[trigger] level[i]).balanced() && level[i].depth() == d,
    ensures
        spec_build(level).balanced(),
        spec_build(level).depth() == d + clog2(level.len()),
    decreases level.len(),
{
    if level.len() == 1 {
        assert(clog2(1) == 0);
    } else {
        let padded = spec_pad(level);
        let paired = spec_pair(padded);
        assert forall|i: int| 0 <= i < padded.len() implies (#[trigger] padded[i]).balanced()
            && padded[i].depth() == d by {
            if i < level.len() {
                assert(padded[i] == level[i]);
            } else {
                assert(padded[i] == level[level.len() - 1]);
            }
        }
        assert forall|j: int| 0 <= j < paired.len() implies (#[trigger] paired[j]).balanced()
            && paired[j].depth() == d + 1 by {
            assert(padded[2 * j].depth() == d);
            assert(padded[2 * j + 1].depth() == d);
        }
        lemma_build_balanced(paired, (d + 1) as nat);
        assert(paired.len() == (level.len() + 1) / 2);
        assert(clog2(level.len()) == 1 + clog2(paired.len()));
    }
}

/// Proof length: in the tree over a non-empty record sequence, every proof
/// the search yields has exactly one sibling per construction round, that
/// is the ceiling base-two logarithm of the padded leaf count.
pub proof fn lemma_proof_length(records: Seq<Seq<u8>>, target: Seq<u8>)
    requires
        spec_tree(records) is Some,
        spec_find(spec_tree(records).unwrap(), target) is Some,
    ensures
        spec_find(spec_tree(records).unwrap(), target).unwrap().len() == clog2(
            padded_count(records.len()),
        ),
{
    let base = spec_pad(spec_leaf_level(records));
    assert forall|i: int| 0 <= i < base.len() implies (#[trigger] base[i]).balanced()
        && base[i].depth() == 0 by {
        let leaves = spec_leaf_level(records);
        if i < leaves.len() {
            assert(base[i] == leaves[i]);
        } else {
            assert(base[i] == leaves[leaves.len() - 1]);
        }
    }
    lemma_build_balanced(base, 0);
    lemma_find_depth(spec_tree(records).unwrap(), target);
    assert(base.len() == padded_count(records.len()));
}

/// Determinism: two trees built from the same ordered record sequence are
/// the same tree, and so carry the same root digest.
pub proof fn lemma_deterministic(records: Seq<Seq<u8>>, t1: MerkleTree, t2: MerkleTree)
    requires
        t1@ == spec_tree(records),
        t2@ == spec_tree(records),
    ensures
        t1@ == t2@,
{
}

/// The empty build: no records give a rootless tree and no root digest.
pub proof fn lemma_empty_tree(records: Seq<Seq<u8>>)
    requires
        records.len() == 0,
    ensures
        spec_tree(records) is None,
        spec_root(records) is None,
{
}

/// The single-record tree: padding duplicates the lone leaf, so the root
/// digest hashes that leaf digest concatenated with itself — the same root
/// as building from the record twice.
pub proof fn lemma_single_record(records: Seq<Seq<u8>>)
    requires
        records.len() == 1,
    ensures
        spec_root(records) == Some(sha256_of(sha256_of(records[0]) + sha256_of(records[0]))),
        spec_root(records) == spec_root(records.push(records[0])),
{
    let h = sha256_of(records[0]);
    let leaf = SpecNode::Leaf { digest: h };
    let pair = SpecNode::Internal { left: Box::new(leaf), right: Box::new(leaf) };
    let leaves = spec_leaf_level(records);
    assert(leaves =~= seq![leaf]);
    let padded = spec_pad(leaves);
    assert(padded =~= seq![leaf, leaf]);
    assert(spec_pad(padded) == padded);
    assert(spec_pair(padded) =~= seq![pair]);
    assert(spec_build(padded) == spec_build(spec_pair(padded)));
    assert(spec_build(spec_pair(padded)) == pair);
    assert(leaf.digest() == h);
    assert(pair.digest() == sha256_of(leaf.digest() + leaf.digest()));
    let twice = records.push(records[0]);
    let leaves2 = spec_leaf_level(twice);
    assert(leaves2 =~= seq![leaf, leaf]);
    assert(spec_pad(leaves2) == leaves2);
    assert(spec_tree(twice) == Some(spec_build(padded)));
}

} // verus!
