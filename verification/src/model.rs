//! The mathematical model of the tree.
//!
//! A `HashTree` is the shape and the hash strings of one Merkle tree, free of
//! any executable representation. Construction is modelled level by level:
//! `pair_up` joins adjacent vertices (duplicating an unpaired last one) and
//! `build_up` repeats that until a single root remains. Proof search is
//! modelled by `find_proof`, which matches any vertex whose hash equals the
//! target and collects the sibling hashes as the recursion unwinds,
//! deepest sibling first.

use vstd::prelude::*;

use crate::hashing::combine;

verus! {

/// One vertex of the model: a leaf stores the leaf value itself as its hash;
/// an internal vertex stores the digest of its two children.
pub enum HashTree {
    Leaf { hash: Seq<char> },
    Node { left: Box<HashTree>, right: Box<HashTree>, hash: Seq<char> },
}

/// The hash string a vertex stores.
pub open spec fn hash_of(t: HashTree) -> Seq<char> {
    match t {
        HashTree::Leaf { hash } => hash,
        HashTree::Node { left: _, right: _, hash } => hash,
    }
}

/// Well-formed: every internal vertex stores exactly the digest of its two
/// children's hash strings.
pub open spec fn wf(t: HashTree) -> bool
    decreases t,
{
    match t {
        HashTree::Leaf { hash: _ } => true,
        HashTree::Node { left, right, hash } => wf(*left) && wf(*right) && hash == combine(
            hash_of(*left),
            hash_of(*right),
        ),
    }
}

/// The parent of two vertices: it owns both and stores their combined digest.
pub open spec fn join(l: HashTree, r: HashTree) -> HashTree {
    HashTree::Node { left: Box::new(l), right: Box::new(r), hash: combine(hash_of(l), hash_of(r)) }
}

/// One construction step: adjacent vertices are joined left to right; an
/// unpaired last vertex is duplicated as its own partner.
pub open spec fn pair_up(level: Seq<HashTree>) -> Seq<HashTree>
    decreases level.len(),
{
    if level.len() == 0 {
        Seq::empty()
    } else if level.len() == 1 {
        seq![join(level[0], level[0])]
    } else {
        seq![join(level[0], level[1])] + pair_up(level.skip(2))
    }
}

/// A construction step halves the level, rounding up.
pub proof fn lemma_pair_up_len(level: Seq<HashTree>)
    ensures
        pair_up(level).len() == (level.len() + 1) / 2,
    decreases level.len(),
{
    if level.len() >= 2 {
        lemma_pair_up_len(level.skip(2));
    }
}

/// Construction steps repeated until one root remains.
pub open spec fn build_up(level: Seq<HashTree>) -> HashTree
    recommends
        level.len() > 0,
    decreases level.len(),
{
    if level.len() <= 1 {
        level[0]
    } else {
        proof {
            lemma_pair_up_len(level);
        }
        build_up(pair_up(level))
    }
}

/// A construction step joins only well-formed vertices into well-formed
/// parents.
pub proof fn lemma_pair_up_wf(level: Seq<HashTree>)
    requires
        forall|i: int| 0 <= i < level.len() ==> wf(#[trigger] level[i]),
    ensures
        forall|k: int| 0 <= k < pair_up(level).len() ==> wf(#[trigger] pair_up(level)[k]),
    decreases level.len(),
{
    if level.len() == 0 {
    } else if level.len() == 1 {
        assert(wf(level[0]));
        assert(wf(join(level[0], level[0])));
    } else {
        assert(wf(level[0]) && wf(level[1]));
        assert(wf(join(level[0], level[1])));
        lemma_pair_up_wf(level.skip(2));
        assert forall|k: int| 0 <= k < pair_up(level).len() implies wf(
            #[trigger] pair_up(level)[k],
        ) by {
            if k > 0 {
                assert(pair_up(level)[k] == pair_up(level.skip(2))[k - 1]);
            }
        }
    }
}

/// A tree built up from well-formed vertices is well-formed.
pub proof fn lemma_build_up_wf(level: Seq<HashTree>)
    requires
        level.len() > 0,
        forall|i: int| 0 <= i < level.len() ==> wf(#[trigger] level[i]),
    ensures
        wf(build_up(level)),
    decreases level.len(),
{
    if level.len() > 1 {
        lemma_pair_up_len(level);
        lemma_pair_up_wf(level);
        lemma_build_up_wf(pair_up(level));
    }
}

/// The leaf level: each leaf value wrapped as a leaf vertex, order preserved.
pub open spec fn leaf_level(leaves: Seq<Seq<char>>) -> Seq<HashTree> {
    Seq::new(leaves.len(), |i: int| HashTree::Leaf { hash: leaves[i] })
}

/// The tree built from a non-empty leaf value sequence.
pub open spec fn build_model(leaves: Seq<Seq<char>>) -> HashTree
    recommends
        leaves.len() > 0,
{
    build_up(leaf_level(leaves))
}

/// Whether some vertex of the tree stores exactly this hash string.
pub open spec fn contains_hash(t: HashTree, target: Seq<char>) -> bool
    decreases t,
{
    match t {
        HashTree::Leaf { hash } => hash == target,
        HashTree::Node { left, right, hash } => hash == target || contains_hash(*left, target)
            || contains_hash(*right, target),
    }
}

/// Depth-first proof search. A vertex matches if its hash equals the target
/// exactly; the left subtree is tried before the right; each unwinding step
/// appends the sibling of the subtree that matched, so the result is ordered
/// deepest sibling first. `None` when no vertex matches.
pub open spec fn find_proof(t: HashTree, target: Seq<char>) -> Option<Seq<Seq<char>>>
    decreases t,
{
    if hash_of(t) == target {
        Some(Seq::empty())
    } else {
        match t {
            HashTree::Leaf { hash: _ } => None,
            HashTree::Node { left, right, hash: _ } => match find_proof(*left, target) {
                Some(p) => Some(p.push(hash_of(*right))),
                None => match find_proof(*right, target) {
                    Some(p) => Some(p.push(hash_of(*left))),
                    None => None,
                },
            },
        }
    }
}

/// The side each proof element sits on: `true` when the sibling sits to the
/// right of the matched subtree, `false` when to the left. Runs parallel to
/// `find_proof` and is meaningful only where that returns `Some`.
pub open spec fn find_sides(t: HashTree, target: Seq<char>) -> Seq<bool>
    decreases t,
{
    if hash_of(t) == target {
        Seq::empty()
    } else {
        match t {
            HashTree::Leaf { hash: _ } => Seq::empty(),
            HashTree::Node { left, right, hash: _ } => if find_proof(*left, target) is Some {
                find_sides(*left, target).push(true)
            } else {
                find_sides(*right, target).push(false)
            },
        }
    }
}

/// Recombining a starting hash with sibling hashes, deepest first: each step
/// digests self-then-sibling when the sibling sits to the right, and
/// sibling-then-self when to the left.
pub open spec fn rebuild(start: Seq<char>, siblings: Seq<Seq<char>>, sides: Seq<bool>) -> Seq<char>
    decreases siblings.len(),
{
    if siblings.len() == 0 {
        start
    } else {
        let step = if sides.len() > 0 && sides[0] {
            combine(start, siblings[0])
        } else {
            combine(siblings[0], start)
        };
        rebuild(step, siblings.drop_first(), sides.drop_first())
    }
}

} // verus!
