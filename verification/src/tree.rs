//! The Merkle tree itself: an owned binary tree of nodes, built bottom-up
//! from leaf values, with depth-first inclusion-proof generation.
//!
//! Each executable function is specified against the model in `crate::model`:
//! a built tree's model is exactly `build_model` of its leaf values, and the
//! proof returned for a target is exactly `find_proof` on that model.

use vstd::prelude::*;

use vstd::string::StringExecFns;

use crate::hashing::{combine, sha256, to_hex};
use crate::model::{
    HashTree, build_model, build_up, find_proof, hash_of, join, leaf_level, lemma_build_up_wf,
    lemma_pair_up_len, pair_up, wf,
};

verus! {

/// One vertex of the stored tree. A leaf keeps the leaf value itself in
/// `hash`; an internal node keeps the digest of its two children's hashes.
pub struct MerkleNode {
    pub left: Option<Box<MerkleNode>>,
    pub right: Option<Box<MerkleNode>>,
    pub hash: String,
}

/// The tree owns at most one node: the root. Built once; immutable afterward.
pub struct MerkleTree {
    pub root: Option<Box<MerkleNode>>,
}

/// The model a stored node stands for: a node with two children is an
/// internal vertex; any other node stands for a leaf.
pub open spec fn node_model(n: MerkleNode) -> HashTree
    decreases n,
{
    match n.left {
        Some(l) => match n.right {
            Some(r) => HashTree::Node {
                left: Box::new(node_model(*l)),
                right: Box::new(node_model(*r)),
                hash: n.hash@,
            },
            None => HashTree::Leaf { hash: n.hash@ },
        },
        None => HashTree::Leaf { hash: n.hash@ },
    }
}

/// The structural invariant: every node has either zero children or two.
pub open spec fn node_shape(n: MerkleNode) -> bool
    decreases n,
{
    match n.left {
        Some(l) => match n.right {
            Some(r) => node_shape(*l) && node_shape(*r),
            None => false,
        },
        None => n.right is None,
    }
}

/// A node's model stores the node's own hash string.
pub proof fn lemma_node_model_hash(n: MerkleNode)
    ensures
        hash_of(node_model(n)) == n.hash@,
{
}

/// The models of a level of nodes, in order.
pub open spec fn models_of(ns: Seq<MerkleNode>) -> Seq<HashTree> {
    Seq::new(ns.len(), |i: int| node_model(ns[i]))
}

/// Every node of the level satisfies the structural invariant.
pub open spec fn shapes_ok(ns: Seq<MerkleNode>) -> bool {
    forall|i: int| 0 <= i < ns.len() ==> node_shape(#[trigger] ns[i])
}

/// The views of a sequence of leaf values.
pub open spec fn leaf_views(leaves: Seq<&str>) -> Seq<Seq<char>> {
    Seq::new(leaves.len(), |i: int| leaves[i]@)
}

/// The model of the stored tree, if it has a root.
pub open spec fn tree_model(t: MerkleTree) -> Option<HashTree> {
    match t.root {
        Some(r) => Some(node_model(*r)),
        None => None,
    }
}

/// Every stored node has zero or two children.
pub open spec fn tree_shape(t: MerkleTree) -> bool {
    match t.root {
        Some(r) => node_shape(*r),
        None => true,
    }
}

/// Shape plus hashes: every internal node stores its children's combined
/// digest.
pub open spec fn tree_wf(t: MerkleTree) -> bool {
    tree_shape(t) && match tree_model(t) {
        Some(m) => wf(m),
        None => true,
    }
}

/// The tree a given leaf value sequence determines: none for no leaves,
/// otherwise exactly the model construction.
pub open spec fn built_from(t: MerkleTree, leaves: Seq<Seq<char>>) -> bool {
    if leaves.len() == 0 {
        tree_model(t) is None
    } else {
        tree_model(t) == Some(build_model(leaves))
    }
}

/// Relies on str's PartialEq: two string slices are equal exactly when their
/// text is.
#[verifier::external_body]
fn str_eq(a: &str, b: &str) -> (r: bool)
    ensures
        r == (a@ == b@),
{
    a == b
}

/// A deep copy of a subtree: the duplication rule for an unpaired node needs
/// a second, separately owned copy.
fn duplicate(n: &MerkleNode) -> (r: MerkleNode)
    ensures
        r == *n,
    decreases *n,
{
    let left = match &n.left {
        Some(l) => Some(Box::new(duplicate(&**l))),
        None => None,
    };
    let right = match &n.right {
        Some(r0) => Some(Box::new(duplicate(&**r0))),
        None => None,
    };
    MerkleNode { left, right, hash: n.hash.clone() }
}

/// Joins two nodes under a fresh parent storing their combined digest.
fn join_nodes(left: MerkleNode, right: MerkleNode) -> (n: MerkleNode)
    ensures
        node_model(n) == join(node_model(left), node_model(right)),
        node_shape(left) && node_shape(right) ==> node_shape(n),
{
    let hash_input = left.hash.clone().concat(right.hash.as_str());
    let hash_bytes = sha256(hash_input.as_str());
    let hash = to_hex(&hash_bytes);
    proof {
        lemma_node_model_hash(left);
        lemma_node_model_hash(right);
        assert(hash@ == combine(hash_of(node_model(left)), hash_of(node_model(right))));
    }
    MerkleNode { left: Some(Box::new(left)), right: Some(Box::new(right)), hash }
}

impl MerkleNode {
    /// Wraps a value as a leaf node: the value itself becomes the node's
    /// hash, with no digest applied.
    pub fn new(hash: &str) -> (n: MerkleNode)
        ensures
            node_model(n) == (HashTree::Leaf { hash: hash@ }),
            node_shape(n),
    {
        MerkleNode { left: None, right: None, hash: hash.to_owned() }
    }
}

impl MerkleTree {
    /// Builds the tree over the given leaf values, order preserved: no root
    /// for no leaves, otherwise exactly the model construction, well-formed.
    pub fn new(leaves: Vec<&str>) -> (t: MerkleTree)
        ensures
            built_from(t, leaf_views(leaves@)),
            tree_wf(t),
    {
        let mut nodes: Vec<MerkleNode> = Vec::new();
        let mut j: usize = 0;
        while j < leaves.len()
            invariant
                j <= leaves@.len(),
                nodes@.len() == j,
                forall|i: int|
                    0 <= i < j ==> node_model(#[trigger] nodes@[i]) == (HashTree::Leaf {
                        hash: leaves@[i]@,
                    }),
                forall|i: int| 0 <= i < j ==> node_shape(#[trigger] nodes@[i]),
            decreases leaves@.len() - j,
        {
            nodes.push(MerkleNode::new(leaves[j]));
            j = j + 1;
        }
        let ghost node_models = models_of(nodes@);
        proof {
            assert(node_models =~= leaf_level(leaf_views(leaves@)));
        }
        let mut tree = MerkleTree { root: None };
        tree.build_tree(nodes);
        proof {
            if leaves@.len() > 0 {
                lemma_build_up_wf(leaf_level(leaf_views(leaves@)));
            }
        }
        tree
    }

    /// Combines the level repeatedly, pairs left to right and an unpaired
    /// last node duplicated, until one root remains; no root for an empty
    /// level.
    pub fn build_tree(&mut self, nodes: Vec<MerkleNode>)
        requires
            shapes_ok(nodes@),
        ensures
            nodes@.len() == 0 ==> *final(self) == *old(self),
            nodes@.len() > 0 ==> tree_shape(*final(self)) && tree_model(*final(self)) == Some(
                build_up(models_of(nodes@)),
            ),
    {
        let ghost orig_models = models_of(nodes@);
        let mut temp_nodes = nodes;
        while temp_nodes.len() > 1
            invariant
                shapes_ok(temp_nodes@),
                temp_nodes@.len() == 0 <==> orig_models.len() == 0,
                temp_nodes@.len() > 0 ==> build_up(models_of(temp_nodes@)) == build_up(
                    orig_models,
                ),
            decreases temp_nodes@.len(),
        {
            let ghost level_models = models_of(temp_nodes@);
            let mut new_level: Vec<MerkleNode> = Vec::new();
            proof {
                assert(level_models.skip(0) =~= level_models);
                assert(models_of(new_level@) =~= Seq::<HashTree>::empty());
                assert(models_of(new_level@) + pair_up(level_models) =~= pair_up(level_models));
            }
            let mut i: usize = 0;
            while i < temp_nodes.len()
                invariant
                    shapes_ok(temp_nodes@),
                    shapes_ok(new_level@),
                    level_models == models_of(temp_nodes@),
                    i <= temp_nodes@.len(),
                    pair_up(level_models) == models_of(new_level@) + pair_up(
                        level_models.skip(i as int),
                    ),
                decreases temp_nodes@.len() - i,
            {
                let left = duplicate(&temp_nodes[i]);
                let ghost tail = level_models.skip(i as int);
                if i + 1 < temp_nodes.len() {
                    let right = duplicate(&temp_nodes[i + 1]);
                    let parent = join_nodes(left, right);
                    proof {
                        assert(tail.len() >= 2);
                        assert(tail[0] == node_model(temp_nodes@[i as int]));
                        assert(tail[1] == node_model(temp_nodes@[i + 1]));
                        assert(tail.skip(2) =~= level_models.skip(i + 2));
                        assert(models_of(new_level@.push(parent)) =~= models_of(
                            new_level@,
                        ).push(node_model(parent)));
                        assert(pair_up(tail) == seq![join(tail[0], tail[1])] + pair_up(
                            tail.skip(2),
                        ));
                        assert(models_of(new_level@) + pair_up(tail) =~= models_of(
                            new_level@.push(parent),
                        ) + pair_up(level_models.skip(i + 2)));
                    }
                    new_level.push(parent);
                    i = i + 2;
                } else {
                    let right = duplicate(&left);
                    let parent = join_nodes(left, right);
                    proof {
                        assert(tail.len() == 1);
                        assert(tail[0] == node_model(temp_nodes@[i as int]));
                        assert(pair_up(tail) == seq![join(tail[0], tail[0])]);
                        assert(models_of(new_level@.push(parent)) =~= models_of(
                            new_level@,
                        ).push(node_model(parent)));
                        assert(level_models.skip(temp_nodes@.len() as int) =~= Seq::empty());
                        assert(models_of(new_level@) + pair_up(tail) =~= models_of(
                            new_level@.push(parent),
                        ) + pair_up(level_models.skip(temp_nodes@.len() as int)));
                    }
                    new_level.push(parent);
                    i = temp_nodes.len();
                }
            }
            proof {
                assert(level_models.skip(temp_nodes@.len() as int) =~= Seq::empty());
                assert(pair_up(Seq::empty()) =~= Seq::<HashTree>::empty());
                assert(models_of(new_level@) + Seq::empty() =~= models_of(new_level@));
                assert(pair_up(level_models) == models_of(new_level@));
                lemma_pair_up_len(level_models);
                assert(build_up(level_models) == build_up(pair_up(level_models)));
            }
            temp_nodes = new_level;
        }
        if temp_nodes.len() == 1 {
            let ghost last_models = models_of(temp_nodes@);
            let root_node = temp_nodes.remove(0);
            proof {
                assert(node_model(root_node) == last_models[0]);
                assert(build_up(last_models) == last_models[0]);
            }
            self.root = Some(Box::new(root_node));
        }
    }

    /// The root's hash string, if the tree has a root.
    pub fn root_hash(&self) -> (r: Option<&String>)
        ensures
            match tree_model(*self) {
                Some(m) => r is Some && r->0@ == hash_of(m),
                None => r is None,
            },
    {
        match &self.root {
            Some(n) => Some(&n.hash),
            None => None,
        }
    }

    /// Searches the tree depth-first for a node whose hash equals the target
    /// exactly, and returns the sibling hashes along the way up, deepest
    /// first; absent when no node matches (in particular, always absent on a
    /// rootless tree). A present, empty sequence means the target matched
    /// the root itself, which is distinct from absent.
    pub fn generate_proof(&self, target_leaf: &str) -> (res: Option<Vec<String>>)
        requires
            tree_shape(*self),
        ensures
            match tree_model(*self) {
                None => res is None,
                Some(m) => match find_proof(m, target_leaf@) {
                    None => res is None,
                    Some(p) => res is Some && res->0.deep_view() == p,
                },
            },
    {
        let mut siblings: Vec<String> = Vec::new();
        let found = match &self.root {
            Some(root) => self.generate_proof_recursive(root, target_leaf, &mut siblings),
            None => false,
        };
        if found {
            proof {
                if tree_model(*self) is Some {
                    let m = tree_model(*self)->0;
                    assert(siblings.deep_view() =~= find_proof(m, target_leaf@)->0);
                }
            }
            Some(siblings)
        } else {
            None
        }
    }

    /// The depth-first search step: reports whether the target occurs in
    /// this subtree, and appends the sibling hashes, deepest first, exactly
    /// when it does. The node's own hash is checked first, then the left
    /// subtree, then the right.
    pub fn generate_proof_recursive(
        &self,
        node: &Box<MerkleNode>,
        target_leaf: &str,
        siblings: &mut Vec<String>,
    ) -> (found: bool)
        requires
            node_shape(**node),
        ensures
            found == (find_proof(node_model(**node), target_leaf@) is Some),
            found ==> final(siblings).deep_view() == old(siblings).deep_view() + find_proof(
                node_model(**node),
                target_leaf@,
            )->0,
            !found ==> *final(siblings) == *old(siblings),
        decreases **node,
    {
        proof {
            lemma_node_model_hash(**node);
        }
        if str_eq(node.hash.as_str(), target_leaf) {
            proof {
                assert(siblings.deep_view() =~= old(siblings).deep_view() + Seq::<
                    Seq<char>,
                >::empty());
            }
            return true;
        }
        if let Some(left) = &node.left {
            if self.generate_proof_recursive(left, target_leaf, siblings) {
                let sibling = node.right.as_ref().unwrap().hash.clone();
                let ghost pre = siblings.deep_view();
                siblings.push(sibling);
                proof {
                    lemma_node_model_hash(*node.right->0);
                    assert(find_proof(node_model(**node), target_leaf@) == Some(
                        find_proof(node_model(**left), target_leaf@)->0.push(
                            hash_of(node_model(*node.right->0)),
                        ),
                    ));
                    assert(siblings.deep_view() =~= pre.push(sibling@));
                    assert(siblings.deep_view() =~= old(siblings).deep_view() + find_proof(
                        node_model(**node),
                        target_leaf@,
                    )->0);
                }
                return true;
            }
        }
        if let Some(right) = &node.right {
            if self.generate_proof_recursive(right, target_leaf, siblings) {
                let sibling = node.left.as_ref().unwrap().hash.clone();
                let ghost pre = siblings.deep_view();
                siblings.push(sibling);
                proof {
                    lemma_node_model_hash(*node.left->0);
                    assert(find_proof(node_model(**node), target_leaf@) == Some(
                        find_proof(node_model(**right), target_leaf@)->0.push(
                            hash_of(node_model(*node.left->0)),
                        ),
                    ));
                    assert(siblings.deep_view() =~= pre.push(sibling@));
                    assert(siblings.deep_view() =~= old(siblings).deep_view() + find_proof(
                        node_model(**node),
                        target_leaf@,
                    )->0);
                }
                return true;
            }
        }
        false
    }
}

} // verus!
