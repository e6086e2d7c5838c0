//! The executable tree.

use vstd::prelude::*;
use crate::error::MerkleError;
use crate::laws::{
    lemma_build_consistent, lemma_path_length, lemma_update_idempotent, lemma_update_is_rebuild,
};
use crate::model::{
    ancestor, auth_path, build_levels, consistent, fully_paired, hash_of, next_level,
    parent_built, parent_recomputed, path_upto, refreshed, updated, well_shaped, with_leaf,
    Level, Node,
};
use crate::oracle::{HashError, HashOracle};

verus! {

/// Builds the level above `prev`, calling the oracle once for every full pair.
fn level_above<H: HashOracle>(prev: &Vec<String>, oracle: &H) -> (out: Result<Vec<String>, HashError>)
    ensures
        out matches Ok(level) ==> level.deep_view() == next_level(hash_of(oracle), prev.deep_view()),
        prev.len() <= 1 ==> out is Ok,
{
    let len = prev.len();
    let width = len / 2 + len % 2;
    let ghost h = hash_of(oracle);
    let mut level: Vec<String> = Vec::new();
    let mut k: usize = 0;
    while k < width
        invariant
            len == prev.len(),
            width == (len + 1) / 2,
            k <= width,
            level.len() == k,
            h == hash_of(oracle),
            forall|j: int| 0 <= j < k ==> level[j]@ == #[trigger] parent_built(h, prev.deep_view(), j),
        decreases width - k,
    {
        let left = &prev[2 * k];
        let parent = if 2 * k + 1 < len {
            match oracle.combine(left.as_str(), prev[2 * k + 1].as_str()) {
                Ok(value) => value,
                Err(e) => {
                    return Err(e);
                },
            }
        } else {
            left.clone()
        };
        level.push(parent);
        k += 1;
    }
    assert(level.deep_view() =~= next_level(h, prev.deep_view()));
    Ok(level)
}

/// A copy of `level`, node by node.
fn copy_level(level: &Vec<String>) -> (out: Vec<String>)
    ensures
        out.deep_view() == level.deep_view(),
{
    let mut out: Vec<String> = Vec::new();
    let mut i: usize = 0;
    while i < level.len()
        invariant
            i <= level.len(),
            out.len() == i,
            forall|j: int| 0 <= j < i ==> out[j]@ == level[j]@,
        decreases level.len() - i,
    {
        out.push(level[i].clone());
        i += 1;
    }
    assert(out.deep_view() =~= level.deep_view());
    out
}

/// Puts `value` at position `pos` of level `level`.
fn set_node(tree: &mut Vec<Vec<String>>, level: usize, pos: usize, value: String)
    requires
        level < old(tree).len(),
        pos < old(tree)[level as int].len(),
    ensures
        final(tree).deep_view() == old(tree).deep_view().update(
            level as int,
            old(tree).deep_view()[level as int].update(pos as int, value@),
        ),
{
    tree[level][pos] = value;
    assert(tree.deep_view() =~~= old(tree).deep_view().update(
        level as int,
        old(tree).deep_view()[level as int].update(pos as int, value@),
    ));
}

/// Recomputes the node at `pos` of level `below + 1` from the one or two nodes
/// under it. On failure the tree is as it was.
fn recompute_parent<H: HashOracle>(
    tree: &mut Vec<Vec<String>>,
    below: usize,
    pos: usize,
    oracle: &H,
) -> (out: Result<(), HashError>)
    requires
        below + 1 < old(tree).len(),
        2 * pos < old(tree)[below as int].len(),
        pos < old(tree)[below + 1].len(),
    ensures
        out is Ok ==> final(tree).deep_view() == old(tree).deep_view().update(
            below + 1,
            old(tree).deep_view()[below + 1].update(
                pos as int,
                parent_recomputed(hash_of(oracle), old(tree).deep_view()[below as int], pos as int),
            ),
        ),
        out is Err ==> *final(tree) == *old(tree),
{
    let level = &tree[below];
    let left_child = &level[pos * 2];
    let right_child = if pos * 2 + 1 < level.len() {
        &level[pos * 2 + 1]
    } else {
        left_child
    };
    let outcome = oracle.combine(left_child.as_str(), right_child.as_str());
    store_parent(tree, below + 1, pos, outcome)
}

/// Puts what the oracle made of the nodes under `pos` of level `level` in
/// that place: a value is stored there, and a failure is handed on as it is
/// while the tree stays as it was.
fn store_parent(
    tree: &mut Vec<Vec<String>>,
    level: usize,
    pos: usize,
    outcome: Result<String, HashError>,
) -> (out: Result<(), HashError>)
    requires
        level < old(tree).len(),
        pos < old(tree)[level as int].len(),
    ensures
        match outcome {
            Ok(value) => out is Ok && final(tree).deep_view() == old(tree).deep_view().update(
                level as int,
                old(tree).deep_view()[level as int].update(pos as int, value@),
            ),
            Err(e) => out == Err::<(), HashError>(e) && *final(tree) == *old(tree),
        },
{
    match outcome {
        Ok(value) => {
            set_node(tree, level, pos, value);
            Ok(())
        },
        Err(e) => Err(e),
    }
}

/// Below the root, a level has at least two nodes, and the parent of each of
/// them lies within the level above.
proof fn lemma_parent_in_range(levels: Seq<Level>, n: int, pos: int)
    requires
        well_shaped(levels),
        0 <= n < levels.len() - 1,
        0 <= pos < levels[n].len(),
    ensures
        levels[n].len() > 1,
        2 * (pos / 2) < levels[n].len(),
        pos / 2 < levels[n + 1].len(),
{
    assert(levels[n].len() > 1);
}

/// Replacing one node leaves the widths of a tree as they were.
proof fn lemma_shape_after_set(levels: Seq<Level>, n: int, p: int, x: Node)
    requires
        well_shaped(levels),
        0 <= n < levels.len(),
        0 <= p < levels[n].len(),
    ensures
        well_shaped(levels.update(n, levels[n].update(p, x))),
{
    let after = levels.update(n, levels[n].update(p, x));
    assert forall|m: int| 0 <= m < after.len() - 1 implies (#[trigger] after[m]).len() > 1
        && after[m + 1].len() == (after[m].len() + 1) / 2 by {
        assert(levels[m].len() > 1);
        assert(after[m].len() == levels[m].len());
        assert(after[m + 1].len() == levels[m + 1].len());
    }
}

/// A Merkle tree: the leaves it was built over, and every level from the
/// leaves up to the root.
#[derive(Debug, Clone)]
pub struct MerkleTree {
    leaf_nodes: Vec<String>,
    tree: Vec<Vec<String>>,
}

impl MerkleTree {
    /// The leaf values, in order.
    pub closed spec fn leaves(&self) -> Level {
        self.leaf_nodes.deep_view()
    }

    /// The levels of the tree, the leaves first and the root last.
    pub closed spec fn levels(&self) -> Seq<Level> {
        self.tree.deep_view()
    }

    /// The tree has the widths of a tree, and its lowest level is its leaves.
    /// Every operation keeps this, a failed update included.
    pub open spec fn wf(&self) -> bool {
        &&& well_shaped(self.levels())
        &&& self.leaves() == self.levels()[0]
    }

    /// The single node of the last level.
    pub open spec fn spec_root(&self) -> Node {
        self.levels().last()[0]
    }

    /// Every node above the leaves is the parent, by the building rule and
    /// the function of `oracle`, of the nodes below it.
    pub open spec fn consistent_with<H: HashOracle>(&self, oracle: &H) -> bool {
        consistent(hash_of(oracle), self.levels())
    }

    /// Builds the tree over `leaf_data`, level by level, until a level of one
    /// node is reached. Fails without a tree when there are no leaves or when
    /// the oracle fails on a pair; a single leaf needs no oracle call.
    pub fn new<H: HashOracle>(leaf_data: Vec<String>, oracle: &H) -> (out: Result<
        MerkleTree,
        MerkleError,
    >)
        ensures
            leaf_data.len() == 0 <==> out matches Err(MerkleError::EmptyInput),
            leaf_data.len() == 1 ==> out is Ok,
            !(out matches Err(MerkleError::IndexOutOfRange)),
            out matches Ok(t) ==> {
                &&& t.wf()
                &&& t.leaves() == leaf_data.deep_view()
                &&& t.levels() == build_levels(hash_of(oracle), leaf_data.deep_view())
                &&& t.consistent_with(oracle)
            },
    {
        if leaf_data.len() == 0 {
            return Err(MerkleError::EmptyInput);
        }
        let ghost h = hash_of(oracle);
        let ghost leaves = leaf_data.deep_view();
        let mut tree: Vec<Vec<String>> = Vec::new();
        tree.push(copy_level(&leaf_data));
        assert(tree.deep_view() =~= seq![leaves]);
        assert(tree.deep_view().drop_last() + build_levels(h, leaves) =~= build_levels(h, leaves));
        while tree[tree.len() - 1].len() > 1
            invariant
                tree.len() >= 1,
                leaves == leaf_data.deep_view(),
                leaves.len() >= 1,
                leaves.len() == 1 ==> tree.deep_view().last().len() == 1,
                build_levels(h, leaves) == tree.deep_view().drop_last() + build_levels(
                    h,
                    tree.deep_view().last(),
                ),
                h == hash_of(oracle),
            decreases tree.deep_view().last().len(),
        {
            let ghost before = tree.deep_view();
            let above = match level_above(&tree[tree.len() - 1], oracle) {
                Ok(level) => level,
                Err(e) => {
                    assert(leaves.len() != 1);
                    return Err(MerkleError::Hash(e));
                },
            };
            tree.push(above);
            proof {
                let up = next_level(h, before.last());
                assert(tree.deep_view() =~= before.push(up));
                assert(tree.deep_view().drop_last() =~= before);
                assert(before =~= before.drop_last() + seq![before.last()]);
                assert(build_levels(h, before.last()) == seq![before.last()] + build_levels(h, up));
                assert(tree.deep_view().drop_last() + build_levels(h, up) =~= before.drop_last()
                    + build_levels(h, before.last()));
            }
        }
        proof {
            let all = tree.deep_view();
            assert(build_levels(h, all.last()) == seq![all.last()]);
            assert(all =~= all.drop_last() + seq![all.last()]);
            lemma_build_consistent(h, leaves);
        }
        Ok(MerkleTree { leaf_nodes: leaf_data, tree })
    }

    /// The root: the single node of the last level.
    pub fn root(&self) -> (out: &String)
        requires
            self.wf(),
        ensures
            out@ == self.spec_root(),
    {
        &self.tree[self.tree.len() - 1][0]
    }

    /// The leaf values, in order.
    pub fn leaf_nodes(&self) -> (out: &Vec<String>)
        ensures
            out.deep_view() == self.leaves(),
    {
        &self.leaf_nodes
    }

    /// All levels, the leaves first and the root last.
    pub fn tree(&self) -> (out: &Vec<Vec<String>>)
        ensures
            out.deep_view() == self.levels(),
    {
        &self.tree
    }

    /// The authentication path of leaf `index`: on every level below the
    /// root, the sibling of the leaf's ancestor, where it has one.
    pub fn merkle_path(&self, index: usize) -> (out: Result<Vec<String>, MerkleError>)
        requires
            self.wf(),
        ensures
            index < self.leaves().len() <==> out is Ok,
            out is Err ==> out matches Err(MerkleError::IndexOutOfRange),
            out matches Ok(path) ==> {
                &&& path.deep_view() == auth_path(self.levels(), index as int)
                &&& path.len() <= self.levels().len() - 1
                &&& path.len() == self.levels().len() - 1 <==> fully_paired(
                    self.levels(),
                    index as int,
                )
            },
    {
        if index >= self.leaf_nodes.len() {
            return Err(MerkleError::IndexOutOfRange);
        }
        proof {
            lemma_path_length(self.levels(), index as int);
        }
        let depth = self.tree.len() - 1;
        let mut path: Vec<String> = Vec::new();
        let mut idx = index;
        let mut i: usize = 0;
        while i < depth
            invariant
                self.wf(),
                depth == self.tree.len() - 1,
                i <= depth,
                idx == ancestor(index as int, i as nat),
                idx < self.tree[i as int].len(),
                path.deep_view() == path_upto(self.levels(), index as int, i as nat),
            decreases depth - i,
        {
            let level = &self.tree[i];
            let sibling_index = if idx % 2 == 0 {
                idx + 1
            } else {
                idx - 1
            };
            let ghost before = path.deep_view();
            if sibling_index < level.len() {
                path.push(level[sibling_index].clone());
                assert(path.deep_view() =~= before.push(self.levels()[i as int][sibling_index as int]));
            }
            assert(self.levels()[i as int].len() > 1);
            idx = idx / 2;
            i += 1;
        }
        Ok(path)
    }

    /// Replaces leaf `index` by `new_data` and recomputes its ancestor on
    /// every level above, lowest first. An ancestor whose node below has no
    /// partner is the combination of that node with itself, so the result is
    /// the tree that building gives only where every ancestor has a partner.
    /// Doing the same update again changes nothing. When the oracle fails,
    /// the levels recomputed so far keep their new values and the levels
    /// above keep their old ones.
    pub fn update_leaf<H: HashOracle>(&mut self, index: usize, new_data: &str, oracle: &H) -> (out:
        Result<(), MerkleError>)
        requires
            old(self).wf(),
        ensures
            final(self).wf(),
            index >= old(self).leaves().len() <==> out matches Err(MerkleError::IndexOutOfRange),
            out matches Err(MerkleError::IndexOutOfRange) ==> *final(self) == *old(self),
            !(out matches Err(MerkleError::EmptyInput)),
            index < old(self).leaves().len() ==> final(self).leaves() == old(self).leaves().update(
                index as int,
                new_data@,
            ),
            old(self).leaves().len() == 1 ==> !(out matches Err(MerkleError::Hash(_))),
            out is Ok ==> final(self).levels() == updated(
                hash_of(oracle),
                old(self).levels(),
                index as int,
                new_data@,
            ),
            out is Ok ==> updated(hash_of(oracle), final(self).levels(), index as int, new_data@)
                == final(self).levels(),
            out is Ok && old(self).consistent_with(oracle) && fully_paired(
                old(self).levels(),
                index as int,
            ) ==> {
                &&& final(self).consistent_with(oracle)
                &&& final(self).levels() == build_levels(
                    hash_of(oracle),
                    old(self).leaves().update(index as int, new_data@),
                )
            },
            out matches Err(MerkleError::Hash(_)) ==> exists|n: nat|
                n < old(self).levels().len() - 1 && final(self).levels() == refreshed(
                    hash_of(oracle),
                    with_leaf(old(self).levels(), index as int, new_data@),
                    index as int,
                    n,
                ),
    {
        if index >= self.leaf_nodes.len() {
            return Err(MerkleError::IndexOutOfRange);
        }
        let ghost h = hash_of(oracle);
        let ghost start = with_leaf(old(self).levels(), index as int, new_data@);
        self.leaf_nodes[index] = new_data.to_owned();
        set_node(&mut self.tree, 0, index, self.leaf_nodes[index].clone());
        proof {
            assert(self.leaf_nodes.deep_view() =~= start[0]);
            lemma_shape_after_set(old(self).levels(), 0, index as int, new_data@);
        }

        let depth = self.tree.len() - 1;
        assert(old(self).leaves().len() == 1 ==> depth == 0) by {
            if depth > 0 {
                assert(old(self).levels()[0].len() > 1);
            }
        }
        let mut idx = index;
        let mut i: usize = 0;
        while i < depth
            invariant
                well_shaped(old(self).levels()),
                index < old(self).leaves().len(),
                old(self).leaves().len() == 1 ==> depth == 0,
                self.leaves() == old(self).leaves().update(index as int, new_data@),
                well_shaped(self.levels()),
                self.leaves() == self.levels()[0],
                start == with_leaf(old(self).levels(), index as int, new_data@),
                h == hash_of(oracle),
                depth == self.tree.len() - 1,
                depth == old(self).levels().len() - 1,
                i <= depth,
                idx == ancestor(index as int, i as nat),
                idx < self.levels()[i as int].len(),
                self.levels() == refreshed(h, start, index as int, i as nat),
            decreases depth - i,
        {
            let ghost before = self.levels();
            let parent_idx = idx / 2;
            proof {
                lemma_parent_in_range(before, i as int, idx as int);
            }
            match recompute_parent(&mut self.tree, i, parent_idx, oracle) {
                Ok(()) => {},
                Err(e) => {
                    return Err(MerkleError::Hash(e));
                },
            }
            proof {
                let value = parent_recomputed(h, before[i as int], parent_idx as int);
                lemma_shape_after_set(before, i + 1, parent_idx as int, value);
                assert(ancestor(index as int, (i + 1) as nat) == parent_idx);
                assert(self.levels() == refreshed(h, start, index as int, (i + 1) as nat));
            }
            idx = parent_idx;
            i += 1;
        }
        proof {
            lemma_update_idempotent(h, old(self).levels(), index as int, new_data@);
            if old(self).consistent_with(oracle) && fully_paired(old(self).levels(), index as int) {
                lemma_update_is_rebuild(h, old(self).levels(), index as int, new_data@);
            }
        }
        Ok(())
    }
}

} // verus!
