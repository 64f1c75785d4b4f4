//! The laws the library states about itself, proved against the model:
//! determinism of construction, presence and round-trip soundness of
//! inclusion proofs, absence for unknown targets, the single-leaf shape, and
//! the odd-count duplication rule.

use vstd::prelude::*;

use crate::model::{
    HashTree, build_model, build_up, contains_hash, find_proof, find_sides, hash_of, join,
    leaf_level, lemma_build_up_wf, lemma_pair_up_len, pair_up, rebuild, wf,
};
use crate::tree::{MerkleTree, built_from, tree_model};
use crate::hashing::combine;

verus! {

/// Proof search succeeds exactly on the hash strings the tree holds
/// somewhere: at a leaf or at an internal vertex.
pub proof fn lemma_found_iff_contains(t: HashTree, target: Seq<char>)
    ensures
        find_proof(t, target) is Some <==> contains_hash(t, target),
    decreases t,
{
    match t {
        HashTree::Leaf { hash: _ } => {
        },
        HashTree::Node { left, right, hash: _ } => {
            lemma_found_iff_contains(*left, target);
            lemma_found_iff_contains(*right, target);
        },
    }
}

/// A target stored by no vertex of the tree yields an absent proof.
pub proof fn lemma_absent_target(t: HashTree, target: Seq<char>)
    requires
        !contains_hash(t, target),
    ensures
        find_proof(t, target) is None,
{
    lemma_found_iff_contains(t, target);
}

/// Recombining distributes over splitting the sibling sequence.
proof fn lemma_rebuild_append(
    start: Seq<char>,
    s1: Seq<Seq<char>>,
    d1: Seq<bool>,
    s2: Seq<Seq<char>>,
    d2: Seq<bool>,
)
    requires
        s1.len() == d1.len(),
    ensures
        rebuild(start, s1 + s2, d1 + d2) == rebuild(rebuild(start, s1, d1), s2, d2),
    decreases s1.len(),
{
    if s1.len() == 0 {
        assert(s1 + s2 =~= s2);
        assert(d1 + d2 =~= d2);
    } else {
        assert((s1 + s2)[0] == s1[0]);
        assert((d1 + d2)[0] == d1[0]);
        assert((s1 + s2).drop_first() =~= s1.drop_first() + s2);
        assert((d1 + d2).drop_first() =~= d1.drop_first() + d2);
        let step = if d1[0] {
            combine(start, s1[0])
        } else {
            combine(s1[0], start)
        };
        lemma_rebuild_append(step, s1.drop_first(), d1.drop_first(), s2, d2);
    }
}

/// The round-trip law at one tree: wherever proof search succeeds in a
/// well-formed tree, recombining the target with each sibling in order, on
/// the side recorded for it, reproduces the root hash exactly.
pub proof fn lemma_round_trip(t: HashTree, target: Seq<char>)
    requires
        wf(t),
        find_proof(t, target) is Some,
    ensures
        find_sides(t, target).len() == find_proof(t, target)->0.len(),
        rebuild(target, find_proof(t, target)->0, find_sides(t, target)) == hash_of(t),
    decreases t,
{
    if hash_of(t) == target {
    } else {
        match t {
            HashTree::Leaf { hash: _ } => {
            },
            HashTree::Node { left, right, hash: _ } => {
                if find_proof(*left, target) is Some {
                    lemma_round_trip(*left, target);
                    let p = find_proof(*left, target)->0;
                    let d = find_sides(*left, target);
                    assert(find_proof(t, target)->0 =~= p + seq![hash_of(*right)]);
                    assert(find_sides(t, target) =~= d + seq![true]);
                    lemma_rebuild_append(target, p, d, seq![hash_of(*right)], seq![true]);
                    let one = seq![hash_of(*right)];
                    let side = seq![true];
                    assert(one.drop_first() =~= Seq::<Seq<char>>::empty());
                    assert(side.drop_first() =~= Seq::<bool>::empty());
                    assert(rebuild(
                        combine(hash_of(*left), one[0]),
                        one.drop_first(),
                        side.drop_first(),
                    ) == combine(hash_of(*left), hash_of(*right)));
                    assert(rebuild(hash_of(*left), one, side) == combine(
                        hash_of(*left),
                        hash_of(*right),
                    ));
                } else {
                    lemma_round_trip(*right, target);
                    let p = find_proof(*right, target)->0;
                    let d = find_sides(*right, target);
                    assert(find_proof(t, target)->0 =~= p + seq![hash_of(*left)]);
                    assert(find_sides(t, target) =~= d + seq![false]);
                    lemma_rebuild_append(target, p, d, seq![hash_of(*left)], seq![false]);
                    let one = seq![hash_of(*left)];
                    let side = seq![false];
                    assert(one.drop_first() =~= Seq::<Seq<char>>::empty());
                    assert(side.drop_first() =~= Seq::<bool>::empty());
                    assert(rebuild(
                        combine(one[0], hash_of(*right)),
                        one.drop_first(),
                        side.drop_first(),
                    ) == combine(hash_of(*left), hash_of(*right)));
                    assert(rebuild(hash_of(*right), one, side) == combine(
                        hash_of(*left),
                        hash_of(*right),
                    ));
                }
            },
        }
    }
}

/// A hash held somewhere in a level is held by the level built one step up.
proof fn lemma_pair_up_contains(level: Seq<HashTree>, target: Seq<char>, j: int)
    requires
        0 <= j < level.len(),
        contains_hash(level[j], target),
    ensures
        exists|k: int|
            0 <= k < pair_up(level).len() && contains_hash(#[trigger] pair_up(level)[k], target),
    decreases level.len(),
{
    if level.len() == 1 {
        assert(contains_hash(join(level[0], level[0]), target));
        assert(pair_up(level)[0] == join(level[0], level[0]));
    } else if j < 2 {
        assert(contains_hash(join(level[0], level[1]), target));
        assert(pair_up(level)[0] == join(level[0], level[1]));
    } else {
        lemma_pair_up_contains(level.skip(2), target, j - 2);
        let k0 = choose|k: int|
            0 <= k < pair_up(level.skip(2)).len() && contains_hash(
                #[trigger] pair_up(level.skip(2))[k],
                target,
            );
        assert(pair_up(level)[k0 + 1] == pair_up(level.skip(2))[k0]);
    }
}

/// A hash held somewhere in a level is held by the tree built from it.
proof fn lemma_build_up_contains(level: Seq<HashTree>, target: Seq<char>, j: int)
    requires
        0 <= j < level.len(),
        contains_hash(level[j], target),
    ensures
        contains_hash(build_up(level), target),
    decreases level.len(),
{
    if level.len() > 1 {
        lemma_pair_up_len(level);
        lemma_pair_up_contains(level, target, j);
        let k = choose|k: int|
            0 <= k < pair_up(level).len() && contains_hash(#[trigger] pair_up(level)[k], target);
        lemma_build_up_contains(pair_up(level), target, k);
    }
}

/// Every leaf given at construction has a present proof, and recombining the
/// leaf value with each sibling in order, on its recorded side, reproduces
/// the root hash exactly.
pub proof fn lemma_leaf_proof_round_trip(leaves: Seq<Seq<char>>, i: int)
    requires
        0 <= i < leaves.len(),
    ensures
        find_proof(build_model(leaves), leaves[i]) is Some,
        find_sides(build_model(leaves), leaves[i]).len() == find_proof(
            build_model(leaves),
            leaves[i],
        )->0.len(),
        rebuild(
            leaves[i],
            find_proof(build_model(leaves), leaves[i])->0,
            find_sides(build_model(leaves), leaves[i]),
        ) == hash_of(build_model(leaves)),
{
    let level = leaf_level(leaves);
    assert(contains_hash(level[i], leaves[i]));
    lemma_build_up_contains(level, leaves[i], i);
    lemma_found_iff_contains(build_model(leaves), leaves[i]);
    lemma_build_up_wf(level);
    lemma_round_trip(build_model(leaves), leaves[i]);
}

/// Construction is deterministic: two trees built from the same leaf values
/// have the same model, and so the same root hash.
pub proof fn lemma_build_deterministic(t1: MerkleTree, t2: MerkleTree, leaves: Seq<Seq<char>>)
    requires
        built_from(t1, leaves),
        built_from(t2, leaves),
    ensures
        tree_model(t1) == tree_model(t2),
{
}

/// One construction step treats an odd level and that level with its last
/// vertex duplicated alike.
proof fn lemma_pair_up_push_last(level: Seq<HashTree>)
    requires
        level.len() % 2 == 1,
    ensures
        pair_up(level.push(level.last())) == pair_up(level),
    decreases level.len(),
{
    let doubled = level.push(level.last());
    if level.len() == 1 {
        assert(doubled[0] == level[0] && doubled[1] == level[0]);
        assert(doubled.skip(2) =~= Seq::<HashTree>::empty());
        assert(pair_up(doubled.skip(2)) =~= Seq::<HashTree>::empty());
        assert(pair_up(doubled) =~= seq![join(doubled[0], doubled[1])] + pair_up(doubled.skip(2)));
        assert(pair_up(doubled) =~= seq![join(level[0], level[0])]);
        assert(pair_up(level) =~= seq![join(level[0], level[0])]);
    } else {
        assert(doubled[0] == level[0] && doubled[1] == level[1]);
        assert(doubled.skip(2) =~= level.skip(2).push(level.skip(2).last()));
        lemma_pair_up_push_last(level.skip(2));
        assert(pair_up(doubled) =~= seq![join(doubled[0], doubled[1])] + pair_up(doubled.skip(2)));
        assert(pair_up(level) =~= seq![join(level[0], level[1])] + pair_up(level.skip(2)));
        assert(pair_up(doubled) =~= pair_up(level));
    }
}

/// The intended exception to root-hash sensitivity: duplicating the last
/// leaf of an odd-length sequence of three or more leaves does not change
/// the root hash, because the duplication rule already pairs that leaf with
/// itself.
pub proof fn lemma_odd_duplicate_last(leaves: Seq<Seq<char>>)
    requires
        leaves.len() >= 3,
        leaves.len() % 2 == 1,
    ensures
        hash_of(build_model(leaves.push(leaves.last()))) == hash_of(build_model(leaves)),
{
    let l1 = leaf_level(leaves);
    let l2 = leaf_level(leaves.push(leaves.last()));
    assert(l2 =~= l1.push(l1.last()));
    lemma_pair_up_push_last(l1);
    assert(build_up(l1) == build_up(pair_up(l1)));
    assert(build_up(l2) == build_up(pair_up(l2)));
}

/// A single-leaf tree: the root hash is the leaf value itself, with no
/// combination step, and the leaf's proof is present and empty.
pub proof fn lemma_single_leaf(x: Seq<char>)
    ensures
        hash_of(build_model(seq![x])) == x,
        find_proof(build_model(seq![x]), x) == Some(Seq::<Seq<char>>::empty()),
{
    let level = leaf_level(seq![x]);
    assert(level.len() == 1);
    assert(level[0] == (HashTree::Leaf { hash: x }));
    assert(build_up(level) == level[0]);
}

} // verus!
