//! The tree itself: construction from records, root queries, and proof
//! generation.

use vstd::prelude::*;

use crate::construct::spec_build;
use crate::construct::spec_leaf_level;
use crate::construct::spec_pad;
use crate::construct::spec_pair;
use crate::construct::spec_tree;
use crate::hashing::bytes_eq;
use crate::hashing::clone_bytes;
use crate::hashing::hex_encode;
use crate::hashing::hex_of;
use crate::hashing::sha256;
use crate::hashing::sha256_of;
use crate::inclusion::sibs_view;
use crate::inclusion::spec_fold;
use crate::inclusion::MerkleProof;
use crate::inclusion::SpecProof;
use crate::node::spec_find;
use crate::node::Node;
use crate::node::SpecNode;

verus! {

/// The mathematical trees behind a sequence of executable nodes.
pub(crate) open spec fn node_views(nodes: Seq<Node>) -> Seq<SpecNode> {
    nodes.map_values(|n: Node| n.as_spec())
}

/// A binary hash tree committing to an ordered sequence of byte-string
/// records through a single root digest.
pub struct MerkleTree {
    root: Option<Node>,
}

impl View for MerkleTree {
    type V = Option<SpecNode>;

    closed spec fn view(&self) -> Option<SpecNode> {
        match self.root {
            None => None,
            Some(node) => Some(node.as_spec()),
        }
    }
}

/// The depth-first search of [`MerkleTree::generate_proof`], one node at a
/// time. On a hit the siblings along the unwinding path are appended to
/// `path`, exactly as [`spec_find`] states.
fn build_proof(node: &Node, target: &Vec<u8>, path: &mut Vec<(Vec<u8>, bool)>) -> (found: bool)
    requires
        node.wf(),
    ensures
        found == (spec_find(node.as_spec(), target@) matches Some(_)),
        found ==> sibs_view(final(path)@) == sibs_view(old(path)@) + spec_find(
            node.as_spec(),
            target@,
        ).unwrap(),
        !found ==> final(path)@ == old(path)@,
    decreases node,
{
    match node {
        Node::Leaf { hash } => {
            let found = bytes_eq(hash, target.as_slice());
            proof {
                assert(sibs_view(path@) =~= sibs_view(path@) + Seq::<(Seq<u8>, bool)>::empty());
            }
            found
        },
        Node::Internal { hash: _, left, right } => {
            let ghost path0 = path@;
            if build_proof(left, target, path) {
                let ghost path1 = path@;
                let sib = clone_bytes(right.hash_ref());
                path.push((sib, false));
                proof {
                    right.lemma_wf_hash();
                    let step = (right.as_spec().digest(), false);
                    assert(sibs_view(path@) =~= sibs_view(path1).push(step));
                    assert(sibs_view(path1).push(step) =~= sibs_view(path0) + spec_find(
                        left.as_spec(),
                        target@,
                    ).unwrap().push(step));
                }
                true
            } else if build_proof(right, target, path) {
                let ghost path1 = path@;
                let sib = clone_bytes(left.hash_ref());
                path.push((sib, true));
                proof {
                    left.lemma_wf_hash();
                    let step = (left.as_spec().digest(), true);
                    assert(sibs_view(path@) =~= sibs_view(path1).push(step));
                    assert(sibs_view(path1).push(step) =~= sibs_view(path0) + spec_find(
                        right.as_spec(),
                        target@,
                    ).unwrap().push(step));
                }
                true
            } else {
                false
            }
        },
    }
}

impl MerkleTree {
    /// Every stored digest in the tree is the digest of the subtree below
    /// it.
    pub closed spec fn wf(self) -> bool {
        match self.root {
            None => true,
            Some(node) => node.wf(),
        }
    }

    /// Builds the tree over `data`, in order: one leaf per record, and at
    /// every level an odd node count is evened out by duplicating the last
    /// node before pairing neighbours, until a single root stands. No
    /// record content is ever rejected; zero records give a rootless tree.
    pub fn new(data: Vec<Vec<u8>>) -> (tree: MerkleTree)
        ensures
            tree.wf(),
            tree@ == spec_tree(data@.map_values(|r: Vec<u8>| r@)),
    {
        let ghost records: Seq<Seq<u8>> = data@.map_values(|r: Vec<u8>| r@);
        if data.len() == 0 {
            return MerkleTree { root: None };
        }
        let mut level: Vec<Node> = Vec::new();
        let mut i: usize = 0;
        while i < data.len()
            invariant
                i <= data@.len(),
                records == data@.map_values(|r: Vec<u8>| r@),
                level@.len() == i,
                forall|j: int|
                    0 <= j < i ==> (#[trigger] level@[j]).as_spec() == spec_leaf_level(records)[j]
                        && level@[j].wf(),
            decreases data@.len() - i,
        {
            let node = Node::new_leaf(data[i].as_slice());
            level.push(node);
            i = i + 1;
        }
        proof {
            assert(node_views(level@) =~= spec_leaf_level(records));
        }
        if level.len() % 2 == 1 {
            let ghost pre = node_views(level@);
            let last = level[level.len() - 1].clone_node();
            level.push(last);
            proof {
                assert(node_views(level@) =~= spec_pad(pre));
            }
        }
        let ghost base: Seq<SpecNode> = spec_pad(spec_leaf_level(records));
        proof {
            assert(node_views(level@) =~= base);
        }
        while level.len() > 1
            invariant
                level@.len() >= 1,
                base.len() >= 1,
                forall|j: int| 0 <= j < level@.len() ==> (#[trigger] level@[j]).wf(),
                spec_build(node_views(level@)) == spec_build(base),
            decreases level@.len(),
        {
            let ghost entry = node_views(level@);
            if level.len() % 2 == 1 {
                let ghost pre = node_views(level@);
                let last = level[level.len() - 1].clone_node();
                level.push(last);
                proof {
                    assert(node_views(level@) =~= spec_pad(pre));
                }
            }
            let ghost padded = node_views(level@);
            proof {
                assert(padded == spec_pad(entry));
            }
            let mut next: Vec<Node> = Vec::new();
            let mut k: usize = 0;
            while k + 1 < level.len()
                invariant
                    k % 2 == 0,
                    k <= level@.len(),
                    level@.len() % 2 == 0,
                    level@.len() >= 2,
                    node_views(level@) == padded,
                    forall|j: int| 0 <= j < level@.len() ==> (#[trigger] level@[j]).wf(),
                    next@.len() == k / 2,
                    forall|j: int|
                        0 <= j < k / 2 ==> (#[trigger] next@[j]).wf() && next@[j].as_spec()
                            == spec_pair(padded)[j],
                decreases level@.len() - k,
            {
                let l = level[k].clone_node();
                let r = level[k + 1].clone_node();
                let parent = Node::new_internal(l, r);
                next.push(parent);
                k = k + 2;
            }
            proof {
                assert(node_views(next@) =~= spec_pair(padded));
            }
            level = next;
        }
        proof {
            assert(level@[0].as_spec() == spec_build(node_views(level@)));
        }
        let root = level.remove(0);
        MerkleTree { root: Some(root) }
    }

    /// The root digest, absent exactly when the tree was built from zero
    /// records.
    pub fn root_hash(&self) -> (r: Option<Vec<u8>>)
        requires
            self.wf(),
        ensures
            (match self@ {
                None => r is None,
                Some(node) => r matches Some(h) && h@ == node.digest(),
            }),
    {
        match &self.root {
            None => None,
            Some(node) => {
                proof {
                    node.lemma_wf_hash();
                }
                Some(clone_bytes(node.hash_ref()))
            },
        }
    }

    /// The root digest rendered as a lowercase hexadecimal string, for
    /// display; absent exactly when the tree is rootless.
    pub fn root_hash_hex(&self) -> (r: Option<String>)
        requires
            self.wf(),
        ensures
            (match self@ {
                None => r is None,
                Some(node) => r matches Some(s) && s@ == hex_of(node.digest()),
            }),
    {
        match &self.root {
            None => None,
            Some(node) => {
                proof {
                    node.lemma_wf_hash();
                }
                Some(hex_encode(node.hash_ref()))
            },
        }
    }

    /// Searches depth-first, left to right, for the first leaf carrying the
    /// digest of `data`, and returns the sibling path from that leaf to the
    /// root; none when no leaf matches, and always none on a rootless tree.
    pub fn generate_proof(&self, data: &[u8]) -> (r: Option<MerkleProof>)
        requires
            self.wf(),
        ensures
            (match self@ {
                None => r is None,
                Some(root) => match spec_find(root, sha256_of(data@)) {
                    None => r is None,
                    Some(sibs) => r matches Some(pf) && pf@ == (SpecProof {
                        leaf: sha256_of(data@),
                        sibs,
                        root: root.digest(),
                    }),
                },
            }),
    {
        let leaf_hash = sha256(data);
        match &self.root {
            None => None,
            Some(root) => {
                let mut path: Vec<(Vec<u8>, bool)> = Vec::new();
                proof {
                    assert(sibs_view(path@) =~= Seq::<(Seq<u8>, bool)>::empty());
                }
                let found = build_proof(root, &leaf_hash, &mut path);
                if found {
                    proof {
                        root.lemma_wf_hash();
                        assert(sibs_view(path@) =~= spec_find(
                            root.as_spec(),
                            sha256_of(data@),
                        ).unwrap());
                    }
                    Some(
                        MerkleProof {
                            proof_hashes: path,
                            leaf_hash,
                            root_hash: clone_bytes(root.hash_ref()),
                        },
                    )
                } else {
                    None
                }
            },
        }
    }

    /// Checks `proof` against this tree's own root digest; false on a
    /// rootless tree.
    pub fn verify_proof(&self, pf: &MerkleProof) -> (r: bool)
        requires
            self.wf(),
        ensures
            r == (match self@ {
                None => false,
                Some(root) => spec_fold(pf@.leaf, pf@.sibs) == root.digest(),
            }),
    {
        match &self.root {
            None => false,
            Some(root) => {
                proof {
                    root.lemma_wf_hash();
                }
                pf.verify(root.hash_ref().as_slice())
            },
        }
    }
}

} // verus!
