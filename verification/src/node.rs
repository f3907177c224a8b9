//! Tree nodes: the mathematical tree model and the executable node type.

use vstd::prelude::*;

use crate::hashing::clone_bytes;
use crate::hashing::extend_bytes;
use crate::hashing::sha256;
use crate::hashing::sha256_of;

verus! {

/// The mathematical shape of a hash tree: a leaf carries the digest of one
/// record, an internal node joins exactly two subtrees. The digest of an
/// internal node is not stored; it is determined by [`SpecNode::digest`].
pub enum SpecNode {
    Leaf { digest: Seq<u8> },
    Internal { left: Box<SpecNode>, right: Box<SpecNode> },
}

impl SpecNode {
    /// The digest at the top of the tree: a leaf's own digest, or the hash
    /// of the two child digests concatenated (left first).
    pub open spec fn digest(self) -> Seq<u8>
        decreases self,
    {
        match self {
            SpecNode::Leaf { digest } => digest,
            SpecNode::Internal { left, right } => sha256_of(left.digest() + right.digest()),
        }
    }

    /// The digests of the leaves, in left-to-right order.
    pub open spec fn leaf_digests(self) -> Seq<Seq<u8>>
        decreases self,
    {
        match self {
            SpecNode::Leaf { digest } => seq![digest],
            SpecNode::Internal { left, right } => left.leaf_digests() + right.leaf_digests(),
        }
    }

    /// The number of edges from this node down to its deepest leaf.
    pub open spec fn depth(self) -> nat
        decreases self,
    {
        match self {
            SpecNode::Leaf { .. } => 0,
            SpecNode::Internal { left, right } => 1 + if left.depth() >= right.depth() {
                left.depth()
            } else {
                right.depth()
            },
        }
    }

    /// Every internal node has two subtrees of equal depth.
    pub open spec fn balanced(self) -> bool
        decreases self,
    {
        match self {
            SpecNode::Leaf { .. } => true,
            SpecNode::Internal { left, right } => left.balanced() && right.balanced()
                && left.depth() == right.depth(),
        }
    }
}

/// The inclusion proof found by a depth-first, left-first search for a leaf
/// carrying `target`: `None` when no leaf carries it, otherwise the sibling
/// digests along the path from that leaf up to the root, each paired with
/// `true` when the sibling stands to the left of the path.
pub open spec fn spec_find(node: SpecNode, target: Seq<u8>) -> Option<Seq<(Seq<u8>, bool)>>
    decreases node,
{
    match node {
        SpecNode::Leaf { digest } => if digest == target {
            Some(Seq::<(Seq<u8>, bool)>::empty())
        } else {
            None
        },
        SpecNode::Internal { left, right } => match spec_find(*left, target) {
            Some(path) => Some(path.push((right.digest(), false))),
            None => match spec_find(*right, target) {
                Some(path) => Some(path.push((left.digest(), true))),
                None => None,
            },
        },
    }
}

/// A node of the executable tree. Unlike [`SpecNode`], every node stores its
/// digest; well-formedness ([`Node::wf`]) ties the stored digests to the
/// mathematical ones.
pub(crate) enum Node {
    Leaf { hash: Vec<u8> },
    Internal { hash: Vec<u8>, left: Box<Node>, right: Box<Node> },
}

impl Node {
    /// The mathematical tree that this node represents.
    pub(crate) open spec fn as_spec(self) -> SpecNode
        decreases self,
    {
        match self {
            Node::Leaf { hash } => SpecNode::Leaf { digest: hash@ },
            Node::Internal { hash, left, right } => SpecNode::Internal {
                left: Box::new(left.as_spec()),
                right: Box::new(right.as_spec()),
            },
        }
    }

    /// The digest stored at this node.
    pub(crate) open spec fn stored_hash(self) -> Seq<u8> {
        match self {
            Node::Leaf { hash } => hash@,
            Node::Internal { hash, .. } => hash@,
        }
    }

    /// Every stored digest is the digest of the subtree below it.
    pub(crate) open spec fn wf(self) -> bool
        decreases self,
    {
        match self {
            Node::Leaf { .. } => true,
            Node::Internal { hash, left, right } => {
                &&& hash@ == sha256_of(left.as_spec().digest() + right.as_spec().digest())
                &&& left.wf()
                &&& right.wf()
            },
        }
    }

    /// In a well-formed node the stored digest agrees with the model.
    pub(crate) proof fn lemma_wf_hash(self)
        requires
            self.wf(),
        ensures
            self.stored_hash() == self.as_spec().digest(),
    {
    }

    /// A borrow of the stored digest.
    pub(crate) fn hash_ref(&self) -> (r: &Vec<u8>)
        ensures
            r@ == self.stored_hash(),
    {
        match self {
            Node::Leaf { hash } => hash,
            Node::Internal { hash, .. } => hash,
        }
    }

    /// A leaf carrying the digest of `data`.
    pub(crate) fn new_leaf(data: &[u8]) -> (node: Node)
        ensures
            node.wf(),
            node.as_spec() == (SpecNode::Leaf { digest: sha256_of(data@) }),
    {
        Node::Leaf { hash: sha256(data) }
    }

    /// An internal node over two subtrees, hashing the concatenation of
    /// their digests (left first).
    pub(crate) fn new_internal(left: Node, right: Node) -> (node: Node)
        requires
            left.wf(),
            right.wf(),
        ensures
            node.wf(),
            node.as_spec() == (SpecNode::Internal {
                left: Box::new(left.as_spec()),
                right: Box::new(right.as_spec()),
            }),
    {
        proof {
            left.lemma_wf_hash();
            right.lemma_wf_hash();
        }
        let mut buf: Vec<u8> = Vec::new();
        extend_bytes(&mut buf, left.hash_ref().as_slice());
        extend_bytes(&mut buf, right.hash_ref().as_slice());
        let hash = sha256(buf.as_slice());
        Node::Internal { hash, left: Box::new(left), right: Box::new(right) }
    }

    /// A structural copy of the subtree below this node.
    pub(crate) fn clone_node(&self) -> (r: Node)
        ensures
            r.as_spec() == self.as_spec(),
            r.stored_hash() == self.stored_hash(),
            self.wf() ==> r.wf(),
        decreases self,
    {
        match self {
            Node::Leaf { hash } => Node::Leaf { hash: clone_bytes(hash) },
            Node::Internal { hash, left, right } => Node::Internal {
                hash: clone_bytes(hash),
                left: Box::new(left.clone_node()),
                right: Box::new(right.clone_node()),
            },
        }
    }
}

} // verus!
