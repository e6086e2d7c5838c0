//! The tree as mathematics: levels of node values and the rules between them.

use vstd::prelude::*;
use crate::oracle::HashOracle;

verus! {

/// A node value, as the characters of its text.
pub type Node = Seq<char>;

/// One row of the tree, left to right.
pub type Level = Seq<Node>;

/// The function of two node values that an oracle computes.
pub type HashFn = spec_fn(Node, Node) -> Node;

/// The function that `oracle` computes.
pub open spec fn hash_of<H: HashOracle>(oracle: &H) -> HashFn {
    |left: Node, right: Node| oracle.combined(left, right)
}

/// The parent at position `k` above `level` when a tree is built: the
/// combination of the pair at `2k` and `2k + 1`, or the node at `2k` itself
/// where it is the last of an odd-width level.
pub open spec fn parent_built(h: HashFn, level: Level, k: int) -> Node {
    if 2 * k + 1 < level.len() {
        h(level[2 * k], level[2 * k + 1])
    } else {
        level[2 * k]
    }
}

/// The parent at position `k` above `level` when a leaf is replaced: the
/// combination of the pair at `2k` and `2k + 1`, or of the node at `2k` with
/// itself where it has no partner.
pub open spec fn parent_recomputed(h: HashFn, level: Level, k: int) -> Node {
    if 2 * k + 1 < level.len() {
        h(level[2 * k], level[2 * k + 1])
    } else {
        h(level[2 * k], level[2 * k])
    }
}

/// The level above `level`: half as wide, rounded up.
pub open spec fn next_level(h: HashFn, level: Level) -> Level {
    Seq::new(((level.len() + 1) / 2) as nat, |k: int| parent_built(h, level, k))
}

/// All levels of the tree over `leaves`, the leaves first and the root last.
pub open spec fn build_levels(h: HashFn, leaves: Level) -> Seq<Level>
    decreases leaves.len(),
{
    if leaves.len() <= 1 {
        seq![leaves]
    } else {
        seq![leaves] + build_levels(h, next_level(h, leaves))
    }
}

/// The widths of a tree: every level but the last has at least two nodes and
/// is followed by one half as wide, rounded up; the last level is one node.
pub open spec fn well_shaped(levels: Seq<Level>) -> bool {
    &&& levels.len() >= 1
    &&& levels.last().len() == 1
    &&& forall|n: int|
        0 <= n < levels.len() - 1 ==> (#[trigger] levels[n]).len() > 1 && levels[n + 1].len() == (
        levels[n].len() + 1) / 2
}

/// Every node above the leaves is the parent, by the building rule, of the
/// nodes below it.
pub open spec fn consistent(h: HashFn, levels: Seq<Level>) -> bool {
    &&& well_shaped(levels)
    &&& forall|n: int, k: int|
        0 <= n < levels.len() - 1 && 0 <= k < levels[n + 1].len() ==> levels[n + 1][k]
            == #[trigger] parent_built(h, levels[n], k)
}

/// The position, on level `n`, of the ancestor of leaf `index`.
pub open spec fn ancestor(index: int, n: nat) -> int
    decreases n,
{
    if n == 0 {
        index
    } else {
        ancestor(index, (n - 1) as nat) / 2
    }
}

/// The position that is paired with `pos`.
pub open spec fn sibling(pos: int) -> int {
    if pos % 2 == 0 {
        pos + 1
    } else {
        pos - 1
    }
}

/// On each of the lowest `n` levels, the ancestor of leaf `index` has a
/// sibling.
pub open spec fn paired_below(levels: Seq<Level>, index: int, n: nat) -> bool {
    forall|m: nat| m < n ==> sibling(#[trigger] ancestor(index, m)) < levels[m as int].len()
}

/// No ancestor of leaf `index` below the root is the unpaired last node of
/// its level.
pub open spec fn fully_paired(levels: Seq<Level>, index: int) -> bool {
    paired_below(levels, index, (levels.len() - 1) as nat)
}

/// On every level above the leaves, the ancestor of leaf `index` is what
/// both rules make of the nodes under it: recomputing it gives what building
/// gives.
pub open spec fn rules_agree(h: HashFn, levels: Seq<Level>, index: int) -> bool {
    forall|m: nat|
        1 <= m < levels.len() ==> parent_recomputed(h, levels[m - 1], #[trigger] ancestor(index, m))
            == parent_built(h, levels[m - 1], ancestor(index, m))
}

/// The siblings met on the way up from leaf `index` through the lowest `n`
/// levels, lowest first. A level on which the ancestor has no sibling adds
/// nothing.
pub open spec fn path_upto(levels: Seq<Level>, index: int, n: nat) -> Seq<Node>
    decreases n,
{
    if n == 0 {
        Seq::empty()
    } else {
        let below = path_upto(levels, index, (n - 1) as nat);
        let s = sibling(ancestor(index, (n - 1) as nat));
        if s < levels[n - 1].len() {
            below.push(levels[n - 1][s])
        } else {
            below
        }
    }
}

/// The authentication path of leaf `index`: its siblings on every level
/// below the root.
pub open spec fn auth_path(levels: Seq<Level>, index: int) -> Seq<Node> {
    path_upto(levels, index, (levels.len() - 1) as nat)
}

/// `levels` with leaf `index` replaced by `value` and nothing else touched.
pub open spec fn with_leaf(levels: Seq<Level>, index: int, value: Node) -> Seq<Level> {
    levels.update(0, levels[0].update(index, value))
}

/// `levels` after the ancestors of leaf `index` on levels `1..=n` have been
/// recomputed, each from the level below it, lowest first.
pub open spec fn refreshed(h: HashFn, levels: Seq<Level>, index: int, n: nat) -> Seq<Level>
    decreases n,
{
    if n == 0 {
        levels
    } else {
        let below = refreshed(h, levels, index, (n - 1) as nat);
        let p = ancestor(index, n);
        below.update(n as int, below[n as int].update(p, parent_recomputed(h, below[n - 1], p)))
    }
}

/// `levels` after leaf `index` has been replaced by `value` and all its
/// ancestors recomputed.
pub open spec fn updated(h: HashFn, levels: Seq<Level>, index: int, value: Node) -> Seq<Level> {
    refreshed(h, with_leaf(levels, index, value), index, (levels.len() - 1) as nat)
}

} // verus!
