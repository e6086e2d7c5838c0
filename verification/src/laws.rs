//! Theorems about the tree's model.

use vstd::prelude::*;
use crate::model::{
    ancestor, auth_path, build_levels, consistent, fully_paired, next_level, paired_below,
    parent_built, parent_recomputed, path_upto, refreshed, rules_agree, sibling, updated,
    well_shaped, with_leaf, HashFn, Level,
};

verus! {

/// A tree that is built over at least one leaf starts with those leaves and
/// keeps the rule between every level and the one above it.
pub proof fn lemma_build_consistent(h: HashFn, leaves: Level)
    requires
        leaves.len() >= 1,
    ensures
        build_levels(h, leaves)[0] == leaves,
        consistent(h, build_levels(h, leaves)),
    decreases leaves.len(),
{
    let all = build_levels(h, leaves);
    if leaves.len() > 1 {
        let up = next_level(h, leaves);
        let rest = build_levels(h, up);
        lemma_build_consistent(h, up);
        assert(all == seq![leaves] + rest);
        assert forall|n: int| 0 <= n < all.len() - 1 implies (#[trigger] all[n]).len() > 1 && all[n
            + 1].len() == (all[n].len() + 1) / 2 by {
            if n > 0 {
                assert(all[n] == rest[n - 1]);
            }
            assert(all[n + 1] == rest[n]);
        }
        assert forall|n: int, k: int|
            0 <= n < all.len() - 1 && 0 <= k < all[n + 1].len() implies all[n + 1][k]
            == #[trigger] parent_built(h, all[n], k) by {
            if n > 0 {
                assert(all[n] == rest[n - 1]);
            }
            assert(all[n + 1] == rest[n]);
        }
    }
}

/// A tree that keeps the building rule is the tree built over its leaves:
/// the leaves and the oracle's function leave no choice.
pub proof fn lemma_consistent_is_built(h: HashFn, levels: Seq<Level>)
    requires
        consistent(h, levels),
    ensures
        levels == build_levels(h, levels[0]),
    decreases levels.len(),
{
    if levels.len() == 1 {
        assert(levels =~= seq![levels[0]]);
    } else {
        let rest = levels.subrange(1, levels.len() as int);
        assert(levels[0].len() > 1);
        assert forall|k: int| 0 <= k < levels[1].len() implies levels[1][k] == next_level(
            h,
            levels[0],
        )[k] by {
            assert(levels[1][k] == parent_built(h, levels[0], k));
        }
        assert(levels[1] =~= next_level(h, levels[0]));
        assert forall|n: int| 0 <= n < rest.len() - 1 implies (#[trigger] rest[n]).len() > 1
            && rest[n + 1].len() == (rest[n].len() + 1) / 2 by {
            assert(levels[n + 1].len() > 1);
        }
        assert forall|n: int, k: int|
            0 <= n < rest.len() - 1 && 0 <= k < rest[n + 1].len() implies rest[n + 1][k]
            == #[trigger] parent_built(h, rest[n], k) by {
            assert(levels[n + 1 + 1][k] == parent_built(h, levels[n + 1], k));
        }
        lemma_consistent_is_built(h, rest);
        assert(levels =~= seq![levels[0]] + rest);
    }
}

/// Two trees that keep the building rule for the same function and stand on
/// the same leaves are the same tree, root included.
pub proof fn lemma_root_determined(h: HashFn, first: Seq<Level>, second: Seq<Level>)
    requires
        consistent(h, first),
        consistent(h, second),
        first[0] == second[0],
    ensures
        first == second,
        first.last()[0] == second.last()[0],
{
    lemma_consistent_is_built(h, first);
    lemma_consistent_is_built(h, second);
}

/// Over a single leaf the tree is that leaf: it is the root, and its
/// authentication path is empty.
pub proof fn lemma_single_leaf(h: HashFn, leaves: Level)
    requires
        leaves.len() == 1,
    ensures
        build_levels(h, leaves) == seq![leaves],
        build_levels(h, leaves).last()[0] == leaves[0],
        auth_path(build_levels(h, leaves), 0) == Seq::<Seq<char>>::empty(),
{
}

/// The ancestors of a leaf lie within their levels.
pub proof fn lemma_ancestor_in_range(levels: Seq<Level>, index: int, n: nat)
    requires
        well_shaped(levels),
        0 <= index < levels[0].len(),
        n < levels.len(),
    ensures
        0 <= ancestor(index, n) < levels[n as int].len(),
    decreases n,
{
    if n > 0 {
        lemma_ancestor_in_range(levels, index, (n - 1) as nat);
        assert(levels[n - 1].len() > 1);
    }
}

/// The lowest `n` levels add at most `n` entries to a path, and exactly `n`
/// when the leaf's ancestor has a sibling on each of them.
pub proof fn lemma_path_upto_length(levels: Seq<Level>, index: int, n: nat)
    ensures
        path_upto(levels, index, n).len() <= n,
        path_upto(levels, index, n).len() == n <==> paired_below(levels, index, n),
    decreases n,
{
    if n > 0 {
        let m = (n - 1) as nat;
        lemma_path_upto_length(levels, index, m);
        if paired_below(levels, index, n) {
            assert(sibling(ancestor(index, m)) < levels[m as int].len());
            assert(paired_below(levels, index, m));
        }
        if path_upto(levels, index, n).len() == n {
            assert(paired_below(levels, index, m));
            assert(sibling(ancestor(index, m)) < levels[m as int].len());
            assert forall|j: nat| j < n implies sibling(#[trigger] ancestor(index, j))
                < levels[j as int].len() by {
                if j < m {
                } else {
                    assert(j == m);
                }
            }
        }
    }
}

/// An authentication path has at most one entry for each level below the
/// root, and exactly that many when no ancestor of the leaf is the unpaired
/// last node of its level.
pub proof fn lemma_path_length(levels: Seq<Level>, index: int)
    requires
        well_shaped(levels),
        0 <= index < levels[0].len(),
    ensures
        auth_path(levels, index).len() <= levels.len() - 1,
        auth_path(levels, index).len() == levels.len() - 1 <==> fully_paired(levels, index),
{
    lemma_path_upto_length(levels, index, (levels.len() - 1) as nat);
}

/// What recomputing the ancestors of a leaf on levels `1..=n` does: widths
/// and the leaves stay, levels above `n` stay, nodes that are no ancestor of
/// the leaf stay, and each recomputed ancestor is the parent, by the
/// recomputing rule, of the nodes under it.
pub proof fn lemma_refreshed(h: HashFn, levels: Seq<Level>, index: int, n: nat)
    requires
        well_shaped(levels),
        0 <= index < levels[0].len(),
        n < levels.len(),
    ensures
        ({
            let r = refreshed(h, levels, index, n);
            &&& r.len() == levels.len()
            &&& r[0] == levels[0]
            &&& forall|m: int| 0 <= m < levels.len() ==> (#[trigger] r[m]).len() == levels[m].len()
            &&& forall|m: int| n < m < levels.len() ==> #[trigger] r[m] == levels[m]
            &&& forall|m: nat, k: int|
                m < levels.len() && 0 <= k < levels[m as int].len() && k != ancestor(index, m)
                    ==> #[trigger] r[m as int][k] == levels[m as int][k]
            &&& forall|m: nat|
                1 <= m <= n ==> r[m as int][#[trigger] ancestor(index, m)] == parent_recomputed(
                    h,
                    r[m - 1],
                    ancestor(index, m),
                )
        }),
    decreases n,
{
    if n > 0 {
        let below = refreshed(h, levels, index, (n - 1) as nat);
        let r = refreshed(h, levels, index, n);
        let p = ancestor(index, n);
        let x = parent_recomputed(h, below[n - 1], p);
        lemma_refreshed(h, levels, index, (n - 1) as nat);
        lemma_ancestor_in_range(levels, index, n);
        assert(below[n as int] == levels[n as int]);
        assert(r == below.update(n as int, below[n as int].update(p, x)));
        assert forall|m: int| 0 <= m < levels.len() implies (#[trigger] r[m]).len()
            == levels[m].len() by {
            assert(below[m].len() == levels[m].len());
        }
        assert forall|m: int| n < m < levels.len() implies #[trigger] r[m] == levels[m] by {
            assert(below[m] == levels[m]);
        }
        assert forall|m: nat, k: int|
            m < levels.len() && 0 <= k < levels[m as int].len() && k != ancestor(
                index,
                m,
            ) implies #[trigger] r[m as int][k] == levels[m as int][k] by {
            assert(below[m as int][k] == levels[m as int][k]);
        }
        assert forall|m: nat| 1 <= m <= n implies r[m as int][#[trigger] ancestor(index, m)]
            == parent_recomputed(h, r[m - 1], ancestor(index, m)) by {
            if m < n {
                assert(below[m as int][ancestor(index, m)] == parent_recomputed(
                    h,
                    below[m - 1],
                    ancestor(index, m),
                ));
                assert(r[m as int] == below[m as int]);
                assert(r[m - 1] == below[m - 1]);
            } else {
                assert(r[n - 1] == below[n - 1]);
            }
        }
    }
}

/// Recomputing ancestors that already are the parents of the nodes under
/// them changes nothing.
proof fn lemma_refresh_settled(h: HashFn, levels: Seq<Level>, index: int, top: nat, n: nat)
    requires
        n <= top < levels.len(),
        forall|m: nat|
            1 <= m <= top ==> 0 <= #[trigger] ancestor(index, m) < levels[m as int].len()
                && levels[m as int][ancestor(index, m)] == parent_recomputed(
                h,
                levels[m - 1],
                ancestor(index, m),
            ),
    ensures
        refreshed(h, levels, index, n) == levels,
    decreases n,
{
    if n > 0 {
        lemma_refresh_settled(h, levels, index, top, (n - 1) as nat);
        let p = ancestor(index, n);
        assert(0 <= p < levels[n as int].len());
        let x = parent_recomputed(h, levels[n - 1], p);
        assert(levels[n as int].update(p, x) =~= levels[n as int]);
        assert(levels.update(n as int, levels[n as int]) =~= levels);
    }
}

/// Replacing a leaf by a value and then again by the same value leaves the
/// tree, and so its root, as the first replacement left it.
pub proof fn lemma_update_idempotent(h: HashFn, levels: Seq<Level>, index: int, value: Seq<char>)
    requires
        well_shaped(levels),
        0 <= index < levels[0].len(),
    ensures
        updated(h, updated(h, levels, index, value), index, value) == updated(
            h,
            levels,
            index,
            value,
        ),
{
    let top = (levels.len() - 1) as nat;
    let start = with_leaf(levels, index, value);
    let once = updated(h, levels, index, value);
    assert(well_shaped(start)) by {
        assert forall|m: int| 0 <= m < start.len() - 1 implies (#[trigger] start[m]).len() > 1
            && start[m + 1].len() == (start[m].len() + 1) / 2 by {
            assert(levels[m].len() > 1);
        }
    }
    lemma_refreshed(h, start, index, top);
    assert(once[0] == start[0]);
    assert(once[0].update(index, value) =~= once[0]);
    assert(with_leaf(once, index, value) =~= once);
    assert forall|m: nat| 1 <= m <= top implies 0 <= #[trigger] ancestor(index, m)
        < once[m as int].len() && once[m as int][ancestor(index, m)] == parent_recomputed(
        h,
        once[m - 1],
        ancestor(index, m),
    ) by {
        lemma_ancestor_in_range(start, index, m);
        assert(once[m as int].len() == start[m as int].len());
    }
    lemma_refresh_settled(h, once, index, top, top);
}

/// Replacing a leaf in a tree that keeps the building rule gives the tree
/// that is built afresh over the leaves with that one replaced exactly when
/// the two rules agree on every ancestor of the leaf: an ancestor over an
/// unpaired node is recomputed as the combination of that node with itself,
/// and built as the node.
pub proof fn lemma_update_is_rebuild_iff(
    h: HashFn,
    levels: Seq<Level>,
    index: int,
    value: Seq<char>,
)
    requires
        consistent(h, levels),
        0 <= index < levels[0].len(),
    ensures
        updated(h, levels, index, value) == build_levels(h, levels[0].update(index, value))
            <==> rules_agree(h, updated(h, levels, index, value), index),
        rules_agree(h, updated(h, levels, index, value), index) <==> consistent(
            h,
            updated(h, levels, index, value),
        ),
{
    let top = (levels.len() - 1) as nat;
    let start = with_leaf(levels, index, value);
    let after = updated(h, levels, index, value);
    assert(well_shaped(start)) by {
        assert forall|m: int| 0 <= m < start.len() - 1 implies (#[trigger] start[m]).len() > 1
            && start[m + 1].len() == (start[m].len() + 1) / 2 by {
            assert(levels[m].len() > 1);
        }
    }
    lemma_refreshed(h, start, index, top);
    assert(after[0] == levels[0].update(index, value));
    assert(well_shaped(after)) by {
        assert forall|m: int| 0 <= m < after.len() - 1 implies (#[trigger] after[m]).len() > 1
            && after[m + 1].len() == (after[m].len() + 1) / 2 by {
            assert(start[m].len() > 1);
            assert(after[m].len() == start[m].len());
            assert(after[m + 1].len() == start[m + 1].len());
        }
    }
    if rules_agree(h, after, index) {
        assert forall|n: int, k: int|
            0 <= n < after.len() - 1 && 0 <= k < after[n + 1].len() implies after[n + 1][k]
            == #[trigger] parent_built(h, after[n], k) by {
            let a = ancestor(index, n as nat);
            let p = ancestor(index, (n + 1) as nat);
            lemma_ancestor_in_range(start, index, n as nat);
            assert(p == a / 2);
            assert(levels[n].len() > 1);
            assert(after[n].len() == start[n].len());
            assert(after[n + 1].len() == start[n + 1].len());
            assert(start[n].len() == levels[n].len());
            if k == p {
                assert(after[n + 1][p] == parent_recomputed(h, after[(n + 1) - 1], p));
            } else {
                assert(after[(n + 1) as nat as int][k] == start[(n + 1) as nat as int][k]);
                assert(start[n + 1] == levels[n + 1]);
                assert(levels[n + 1][k] == parent_built(h, levels[n], k));
                assert(2 * k != a);
                assert(after[n as nat as int][2 * k] == start[n as nat as int][2 * k]);
                assert(start[n][2 * k] == levels[n][2 * k]);
                if 2 * k + 1 < levels[n].len() {
                    assert(2 * k + 1 != a);
                    assert(after[n as nat as int][2 * k + 1] == start[n as nat as int][2 * k
                        + 1]);
                    assert(start[n][2 * k + 1] == levels[n][2 * k + 1]);
                }
            }
        }
        lemma_consistent_is_built(h, after);
    }
    if after == build_levels(h, levels[0].update(index, value)) {
        lemma_build_consistent(h, levels[0].update(index, value));
    }
    if consistent(h, after) {
        lemma_consistent_is_built(h, after);
        assert forall|m: nat| 1 <= m < after.len() implies parent_recomputed(
            h,
            after[m - 1],
            #[trigger] ancestor(index, m),
        ) == parent_built(h, after[m - 1], ancestor(index, m)) by {
            let p = ancestor(index, m);
            lemma_ancestor_in_range(start, index, m);
            assert(after[m as int].len() == start[m as int].len());
            assert(after[m as int][p] == parent_recomputed(h, after[m - 1], p));
            assert(after[(m - 1) + 1][p] == parent_built(h, after[m - 1], p));
        }
    }
}

/// Where every ancestor of the leaf has a sibling, replacing the leaf in a
/// tree that keeps the building rule gives the tree that is built afresh
/// over the leaves with that one replaced.
pub proof fn lemma_update_is_rebuild(h: HashFn, levels: Seq<Level>, index: int, value: Seq<char>)
    requires
        consistent(h, levels),
        0 <= index < levels[0].len(),
        fully_paired(levels, index),
    ensures
        updated(h, levels, index, value) == build_levels(h, levels[0].update(index, value)),
        consistent(h, updated(h, levels, index, value)),
{
    let top = (levels.len() - 1) as nat;
    let start = with_leaf(levels, index, value);
    let after = updated(h, levels, index, value);
    assert(well_shaped(start)) by {
        assert forall|m: int| 0 <= m < start.len() - 1 implies (#[trigger] start[m]).len() > 1
            && start[m + 1].len() == (start[m].len() + 1) / 2 by {
            assert(levels[m].len() > 1);
        }
    }
    lemma_refreshed(h, start, index, top);
    assert forall|m: nat| 1 <= m < after.len() implies parent_recomputed(
        h,
        after[m - 1],
        #[trigger] ancestor(index, m),
    ) == parent_built(h, after[m - 1], ancestor(index, m)) by {
        let below = (m - 1) as nat;
        let a = ancestor(index, below);
        lemma_ancestor_in_range(start, index, below);
        assert(sibling(a) < levels[below as int].len());
        assert(after[below as int].len() == start[below as int].len());
        assert(start[below as int].len() == levels[below as int].len());
        assert(2 * ancestor(index, m) + 1 < after[below as int].len());
    }
    lemma_update_is_rebuild_iff(h, levels, index, value);
}

} // verus!
