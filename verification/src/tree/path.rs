//! The way of an insertion through the store, level by level.

use crate::tree::model::{
    blank_node, descent, inserted, insertion, node_depth, span_at, store_wf, subdivided, tinted,
    walk, zero_vector,
};
use crate::tree::octree::{Traverse, TreeNode, EMPTY, MAX_RECURSION, SUBDIVIDED};
use crate::tree::shape::{
    at_level, lemma_insertion, lemma_sealed, lemma_span_values, lemma_stepped, lemma_subdivided,
    lemma_tinted,
};
use crate::vector::Vector4;
use vstd::prelude::*;

verus! {

/// Two stores in which the nodes on the way down from `cursor` name the
/// same children lead the cursor the same way.
pub proof fn lemma_walk_agrees(a: Seq<TreeNode>, b: Seq<TreeNode>, cursor: Traverse, steps: nat)
    requires
        forall|k: nat|
            k < steps ==> a[(#[trigger] walk(a, cursor, k)).index as int].children == b[walk(
                a,
                cursor,
                k,
            ).index as int].children,
    ensures
        walk(a, cursor, steps) == walk(b, cursor, steps),
    decreases steps,
{
    if steps > 0 {
        lemma_walk_agrees(a, b, cursor, (steps - 1) as nat);
        let above = walk(a, cursor, (steps - 1) as nat);
        assert(a[above.index as int].children == b[above.index as int].children);
    }
}

/// Where every node on the way is subdivided, a query goes the whole way.
pub proof fn lemma_descent_follows_walk(
    data: Seq<TreeNode>,
    cursor: Traverse,
    done: nat,
    steps: nat,
)
    requires
        done <= steps,
        forall|k: nat|
            k < steps ==> data[(#[trigger] walk(data, cursor, k)).index as int].node_type
                == SUBDIVIDED,
    ensures
        descent(data, walk(data, cursor, done), (steps - done) as nat) == walk(data, cursor, steps),
    decreases steps - done,
{
    if done < steps {
        let here = walk(data, cursor, done);
        assert(data[here.index as int].node_type == SUBDIVIDED);
        assert(walk(data, cursor, done + 1) == here.stepped(data));
        lemma_descent_follows_walk(data, cursor, done + 1, steps);
    }
}

/// The store after `level` levels of an insertion at `pos`.
pub open spec fn store_at(
    data: Seq<TreeNode>,
    pos: Vector4<i64>,
    color: Vector4<i64>,
    level: nat,
) -> Seq<TreeNode> {
    insertion(data, Traverse::seed(pos), color, level).0
}

/// The cursor after `level` levels of an insertion at `pos`.
pub open spec fn cursor_at(
    data: Seq<TreeNode>,
    pos: Vector4<i64>,
    color: Vector4<i64>,
    level: nat,
) -> Traverse {
    insertion(data, Traverse::seed(pos), color, level).1
}

/// The node that an insertion at `pos` stands on after `level` levels.
pub open spec fn path_index(
    data: Seq<TreeNode>,
    pos: Vector4<i64>,
    color: Vector4<i64>,
    level: nat,
) -> int {
    cursor_at(data, pos, color, level).index as int
}

/// The store in the middle of level `level`: the node above is split, its
/// child has not yet taken its share.
pub open spec fn split_at(
    data: Seq<TreeNode>,
    pos: Vector4<i64>,
    color: Vector4<i64>,
    level: nat,
) -> Seq<TreeNode> {
    subdivided(
        store_at(data, pos, color, (level - 1) as nat),
        path_index(data, pos, color, (level - 1) as nat),
    )
}

/// What node `i` held before the insertion: its colour in `data`, or none
/// if the insertion made the node.
pub open spec fn prior_color(data: Seq<TreeNode>, i: int) -> Vector4<i64> {
    if i < data.len() {
        data[i].base_color
    } else {
        zero_vector()
    }
}

/// Node `i` of `store` is one that the first `levels` levels of the
/// insertion stood on.
pub open spec fn visited(
    data: Seq<TreeNode>,
    pos: Vector4<i64>,
    color: Vector4<i64>,
    levels: nat,
    store: Seq<TreeNode>,
    i: int,
) -> bool {
    node_depth(store, i) <= levels && path_index(data, pos, color, node_depth(store, i)) == i
}

/// Each node of the way lies in the store, on the level of its number.
pub open spec fn way_in_place(
    data: Seq<TreeNode>,
    pos: Vector4<i64>,
    color: Vector4<i64>,
    levels: nat,
) -> bool {
    forall|k: nat|
        k <= levels ==> 0 <= #[trigger] path_index(data, pos, color, k) < store_at(
            data,
            pos,
            color,
            levels,
        ).len() && node_depth(store_at(data, pos, color, levels), path_index(data, pos, color, k))
            == k
}

/// A walk through the store that the insertion left goes the way that the
/// insertion went.
pub open spec fn way_is_walked(
    data: Seq<TreeNode>,
    pos: Vector4<i64>,
    color: Vector4<i64>,
    levels: nat,
) -> bool {
    forall|k: nat|
        k <= levels ==> #[trigger] walk(store_at(data, pos, color, levels), Traverse::seed(pos), k)
            == cursor_at(data, pos, color, k)
}

/// Every node of the way but the last is subdivided.
pub open spec fn way_is_split(
    data: Seq<TreeNode>,
    pos: Vector4<i64>,
    color: Vector4<i64>,
    levels: nat,
) -> bool {
    forall|k: nat|
        k < levels ==> store_at(data, pos, color, levels)[#[trigger] path_index(
            data,
            pos,
            color,
            k,
        )].node_type == SUBDIVIDED
}

/// Every node of the way below the root holds what it held before, plus
/// the colour over the edge of its cell.
pub open spec fn way_is_tinted(
    data: Seq<TreeNode>,
    pos: Vector4<i64>,
    color: Vector4<i64>,
    levels: nat,
) -> bool {
    forall|k: nat|
        1 <= k <= levels ==> store_at(data, pos, color, levels)[#[trigger] path_index(
            data,
            pos,
            color,
            k,
        )].base_color == prior_color(data, path_index(data, pos, color, k)).saturating_add_spec(
            color.quot_spec(span_at(k) as i64),
        )
}

/// The root keeps its colour, and a node that was subdivided above the
/// last level keeps its type and its children.
pub open spec fn splits_are_kept(
    data: Seq<TreeNode>,
    pos: Vector4<i64>,
    color: Vector4<i64>,
    levels: nat,
) -> bool {
    let store = store_at(data, pos, color, levels);
    &&& store[0].base_color == data[0].base_color
    &&& forall|i: int|
        0 <= i < data.len() && data[i].node_type == SUBDIVIDED && node_depth(data, i)
            < MAX_RECURSION - 1 ==> (#[trigger] store[i]).node_type == SUBDIVIDED
            && store[i].children == data[i].children
}

/// A node off the way is as it was, or blank if the insertion made it.
pub open spec fn rest_is_untouched(
    data: Seq<TreeNode>,
    pos: Vector4<i64>,
    color: Vector4<i64>,
    levels: nat,
) -> bool {
    let store = store_at(data, pos, color, levels);
    &&& forall|i: int|
        0 <= i < data.len() && !visited(data, pos, color, levels, store, i) ==> #[trigger] store[i]
            == data[i]
    &&& forall|i: int|
        data.len() <= i < store.len() && !visited(data, pos, color, levels, store, i)
            ==> #[trigger] store[i] == blank_node(EMPTY, store[i].parent)
}

/// The whole account of the first `levels` levels of an insertion.
pub open spec fn path_account(
    data: Seq<TreeNode>,
    pos: Vector4<i64>,
    color: Vector4<i64>,
    levels: nat,
) -> bool {
    &&& way_in_place(data, pos, color, levels)
    &&& way_is_walked(data, pos, color, levels)
    &&& way_is_split(data, pos, color, levels)
    &&& way_is_tinted(data, pos, color, levels)
    &&& splits_are_kept(data, pos, color, levels)
    &&& rest_is_untouched(data, pos, color, levels)
}

/// One level of an insertion, step by step: the store before it, the store
/// with the node above split, and the store with the share taken.
pub proof fn lemma_level(data: Seq<TreeNode>, pos: Vector4<i64>, color: Vector4<i64>, level: nat)
    requires
        store_wf(data),
        1 <= level < MAX_RECURSION,
        data.len() + 8 * level <= u32::MAX,
    ensures
        ({
            let before = store_at(data, pos, color, (level - 1) as nat);
            let above = cursor_at(data, pos, color, (level - 1) as nat);
            let split = split_at(data, pos, color, level);
            let below = cursor_at(data, pos, color, level);
            let store = store_at(data, pos, color, level);
            &&& below == above.stepped(split)
            &&& store == tinted(split, below.index as int, color, below.span)
            &&& store_wf(before) && store_wf(split) && store_wf(store)
            &&& at_level(before, above, (level - 1) as nat)
            &&& at_level(store, below, level)
            &&& data.len() <= before.len() <= split.len() == store.len()
            &&& above.index < below.index < store.len()
            &&& below.span == span_at(level) && 0 < below.span
            &&& split[above.index as int].node_type == SUBDIVIDED
            &&& split[above.index as int].base_color == before[above.index as int].base_color
            &&& split[above.index as int].parent == before[above.index as int].parent
            &&& before[above.index as int].node_type == SUBDIVIDED ==> split == before
            &&& forall|i: int|
                0 <= i < before.len() && i != above.index ==> #[trigger] split[i] == before[i]
            &&& forall|i: int|
                before.len() <= i < split.len() ==> #[trigger] split[i] == blank_node(
                    EMPTY,
                    above.index,
                )
            &&& forall|i: int|
                0 <= i < store.len() && i != below.index ==> #[trigger] store[i] == split[i]
            &&& store[below.index as int] == (TreeNode {
                base_color: split[below.index as int].base_color.saturating_add_spec(
                    color.quot_spec(below.span),
                ),
                ..split[below.index as int]
            })
            &&& forall|i: int|
                0 <= i < before.len() ==> #[trigger] node_depth(store, i) == node_depth(before, i)
            &&& forall|i: int|
                0 <= i < data.len() ==> #[trigger] node_depth(before, i) == node_depth(data, i)
            &&& forall|i: int|
                before.len() <= i < store.len() ==> #[trigger] node_depth(store, i) == level
        }),
{
    let fewer = (level - 1) as nat;
    let seed = Traverse::seed(pos);
    let before = store_at(data, pos, color, fewer);
    let above = cursor_at(data, pos, color, fewer);
    let split = split_at(data, pos, color, level);
    let below = above.stepped(split);
    let store = tinted(split, below.index as int, color, below.span);
    assert(insertion(data, seed, color, level) == (store, below));
    lemma_insertion(data, pos, color, fewer);
    lemma_subdivided(before, above.index as int);
    lemma_stepped(split, above, fewer);
    lemma_tinted(split, below.index as int, color, below.span);
    lemma_span_values(level);
    assert forall|i: int| 0 <= i < before.len() implies #[trigger] node_depth(store, i)
        == node_depth(before, i) by {
        assert(node_depth(split, i) == node_depth(before, i));
        assert(node_depth(store, i) == node_depth(split, i));
    }
    assert forall|i: int| before.len() <= i < store.len() implies #[trigger] node_depth(store, i)
        == level by {
        assert(node_depth(split, i) == node_depth(before, above.index as int) + 1);
        assert(node_depth(store, i) == node_depth(split, i));
    }
}

proof fn lemma_way_in_place_step(
    data: Seq<TreeNode>,
    pos: Vector4<i64>,
    color: Vector4<i64>,
    levels: nat,
)
    requires
        store_wf(data),
        1 <= levels < MAX_RECURSION,
        data.len() + 8 * levels <= u32::MAX,
        way_in_place(data, pos, color, (levels - 1) as nat),
    ensures
        way_in_place(data, pos, color, levels),
{
    lemma_level(data, pos, color, levels);
    let before = store_at(data, pos, color, (levels - 1) as nat);
    let store = store_at(data, pos, color, levels);
    assert forall|k: nat| k <= levels implies 0 <= #[trigger] path_index(data, pos, color, k)
        < store.len() && node_depth(store, path_index(data, pos, color, k)) == k by {
        if k < levels {
            assert(node_depth(before, path_index(data, pos, color, k)) == k);
        }
    }
}

proof fn lemma_way_is_walked_step(
    data: Seq<TreeNode>,
    pos: Vector4<i64>,
    color: Vector4<i64>,
    levels: nat,
)
    requires
        store_wf(data),
        1 <= levels < MAX_RECURSION,
        data.len() + 8 * levels <= u32::MAX,
        way_in_place(data, pos, color, (levels - 1) as nat),
        way_is_walked(data, pos, color, (levels - 1) as nat),
    ensures
        way_is_walked(data, pos, color, levels),
{
    lemma_level(data, pos, color, levels);
    let fewer = (levels - 1) as nat;
    let seed = Traverse::seed(pos);
    let before = store_at(data, pos, color, fewer);
    let above = cursor_at(data, pos, color, fewer);
    let split = split_at(data, pos, color, levels);
    let store = store_at(data, pos, color, levels);
    assert forall|k: nat| k <= levels implies #[trigger] walk(store, seed, k) == cursor_at(
        data,
        pos,
        color,
        k,
    ) by {
        let reach = if k < levels {
            k
        } else {
            fewer
        };
        assert forall|j: nat| j < reach implies before[(#[trigger] walk(before, seed, j)).index as int].children
            == store[walk(before, seed, j).index as int].children by {
            let node = path_index(data, pos, color, j);
            assert(walk(before, seed, j) == cursor_at(data, pos, color, j));
            assert(node_depth(before, node) == j);
            assert(node != above.index);
            assert(split[node] == before[node]);
        }
        lemma_walk_agrees(before, store, seed, reach);
        assert(walk(before, seed, reach) == cursor_at(data, pos, color, reach));
        if k == levels {
            assert(walk(store, seed, fewer) == above);
            assert(store[above.index as int].children == split[above.index as int].children);
            assert(walk(store, seed, levels) == walk(store, seed, fewer).stepped(store));
            assert(above.stepped(store) == above.stepped(split));
        }
    }
}

proof fn lemma_way_is_split_step(
    data: Seq<TreeNode>,
    pos: Vector4<i64>,
    color: Vector4<i64>,
    levels: nat,
)
    requires
        store_wf(data),
        1 <= levels < MAX_RECURSION,
        data.len() + 8 * levels <= u32::MAX,
        way_in_place(data, pos, color, (levels - 1) as nat),
        way_is_split(data, pos, color, (levels - 1) as nat),
    ensures
        way_is_split(data, pos, color, levels),
{
    lemma_level(data, pos, color, levels);
    let fewer = (levels - 1) as nat;
    let before = store_at(data, pos, color, fewer);
    let above = cursor_at(data, pos, color, fewer);
    let split = split_at(data, pos, color, levels);
    let store = store_at(data, pos, color, levels);
    assert forall|k: nat| k < levels implies store[#[trigger] path_index(data, pos, color, k)].node_type
        == SUBDIVIDED by {
        let node = path_index(data, pos, color, k);
        if k < fewer {
            assert(node_depth(before, node) == k);
            assert(node != above.index);
            assert(split[node] == before[node]);
            assert(before[node].node_type == SUBDIVIDED);
        }
        assert(store[node].node_type == split[node].node_type);
    }
}

proof fn lemma_way_is_tinted_step(
    data: Seq<TreeNode>,
    pos: Vector4<i64>,
    color: Vector4<i64>,
    levels: nat,
)
    requires
        store_wf(data),
        1 <= levels < MAX_RECURSION,
        data.len() + 8 * levels <= u32::MAX,
        way_in_place(data, pos, color, (levels - 1) as nat),
        way_in_place(data, pos, color, levels),
        way_is_tinted(data, pos, color, (levels - 1) as nat),
        rest_is_untouched(data, pos, color, (levels - 1) as nat),
    ensures
        way_is_tinted(data, pos, color, levels),
{
    lemma_level(data, pos, color, levels);
    let fewer = (levels - 1) as nat;
    let before = store_at(data, pos, color, fewer);
    let above = cursor_at(data, pos, color, fewer);
    let split = split_at(data, pos, color, levels);
    let below = cursor_at(data, pos, color, levels);
    let store = store_at(data, pos, color, levels);
    assert forall|k: nat| 1 <= k <= levels implies store[#[trigger] path_index(
        data,
        pos,
        color,
        k,
    )].base_color == prior_color(data, path_index(data, pos, color, k)).saturating_add_spec(
        color.quot_spec(span_at(k) as i64),
    ) by {
        let node = path_index(data, pos, color, k);
        if k < levels {
            assert(node_depth(store, node) == k);
            assert(node_depth(store, below.index as int) == levels);
            assert(node != below.index);
            assert(split[node].base_color == before[node].base_color);
        } else {
            if below.index < before.len() {
                assert(node_depth(before, below.index as int) == levels);
                assert(!visited(data, pos, color, fewer, before, below.index as int));
                assert(split[below.index as int] == before[below.index as int]);
                if below.index < data.len() {
                    assert(before[below.index as int] == data[below.index as int]);
                } else {
                    assert(before[below.index as int] == blank_node(
                        EMPTY,
                        before[below.index as int].parent,
                    ));
                }
            } else {
                assert(split[below.index as int] == blank_node(EMPTY, above.index));
            }
        }
    }
}

proof fn lemma_splits_are_kept_step(
    data: Seq<TreeNode>,
    pos: Vector4<i64>,
    color: Vector4<i64>,
    levels: nat,
)
    requires
        store_wf(data),
        1 <= levels < MAX_RECURSION,
        data.len() + 8 * levels <= u32::MAX,
        splits_are_kept(data, pos, color, (levels - 1) as nat),
    ensures
        splits_are_kept(data, pos, color, levels),
{
    lemma_level(data, pos, color, levels);
    let fewer = (levels - 1) as nat;
    let before = store_at(data, pos, color, fewer);
    let above = cursor_at(data, pos, color, fewer);
    let split = split_at(data, pos, color, levels);
    let below = cursor_at(data, pos, color, levels);
    let store = store_at(data, pos, color, levels);
    assert(store[0].base_color == data[0].base_color) by {
        assert(below.index != 0);
        assert(split[0].base_color == before[0].base_color);
    }
    assert forall|i: int|
        0 <= i < data.len() && data[i].node_type == SUBDIVIDED && node_depth(data, i)
            < MAX_RECURSION - 1 implies (#[trigger] store[i]).node_type == SUBDIVIDED
        && store[i].children == data[i].children by {
        assert(before[i].node_type == SUBDIVIDED);
        assert(before[i].children == data[i].children);
        assert(split[i] == before[i]);
        assert(store[i].node_type == split[i].node_type);
        assert(store[i].children == split[i].children);
    }
}

proof fn lemma_rest_is_untouched_step(
    data: Seq<TreeNode>,
    pos: Vector4<i64>,
    color: Vector4<i64>,
    levels: nat,
)
    requires
        store_wf(data),
        1 <= levels < MAX_RECURSION,
        data.len() + 8 * levels <= u32::MAX,
        way_in_place(data, pos, color, levels),
        rest_is_untouched(data, pos, color, (levels - 1) as nat),
    ensures
        rest_is_untouched(data, pos, color, levels),
{
    lemma_level(data, pos, color, levels);
    let fewer = (levels - 1) as nat;
    let before = store_at(data, pos, color, fewer);
    let above = cursor_at(data, pos, color, fewer);
    let split = split_at(data, pos, color, levels);
    let below = cursor_at(data, pos, color, levels);
    let store = store_at(data, pos, color, levels);
    assert(node_depth(store, above.index as int) == fewer);
    assert(node_depth(store, below.index as int) == levels);
    assert(visited(data, pos, color, levels, store, above.index as int));
    assert(visited(data, pos, color, levels, store, below.index as int));
    assert forall|i: int|
        0 <= i < data.len() && !visited(data, pos, color, levels, store, i) implies #[trigger] store[i]
        == data[i] by {
        assert(node_depth(store, i) == node_depth(before, i));
        assert(!visited(data, pos, color, fewer, before, i));
        assert(before[i] == data[i]);
        assert(split[i] == before[i]);
    }
    assert forall|i: int|
        data.len() <= i < store.len() && !visited(
            data,
            pos,
            color,
            levels,
            store,
            i,
        ) implies #[trigger] store[i] == blank_node(EMPTY, store[i].parent) by {
        if i < before.len() {
            assert(node_depth(store, i) == node_depth(before, i));
            assert(!visited(data, pos, color, fewer, before, i));
            assert(split[i] == before[i]);
        } else {
            assert(split[i] == blank_node(EMPTY, above.index));
        }
    }
}

/// The account holds of every insertion into a store of the right shape.
pub proof fn lemma_path_account(
    data: Seq<TreeNode>,
    pos: Vector4<i64>,
    color: Vector4<i64>,
    levels: nat,
)
    requires
        store_wf(data),
        levels < MAX_RECURSION,
        data.len() + 8 * levels <= u32::MAX,
    ensures
        path_account(data, pos, color, levels),
    decreases levels,
{
    if levels == 0 {
        let seed = Traverse::seed(pos);
        assert(insertion(data, seed, color, 0) == (data, seed));
        assert(walk(data, seed, 0) == seed);
        assert(node_depth(data, 0) == 0);
    } else {
        lemma_path_account(data, pos, color, (levels - 1) as nat);
        lemma_way_in_place_step(data, pos, color, levels);
        lemma_way_is_walked_step(data, pos, color, levels);
        lemma_way_is_split_step(data, pos, color, levels);
        lemma_rest_is_untouched_step(data, pos, color, levels);
        lemma_way_is_tinted_step(data, pos, color, levels);
        lemma_splits_are_kept_step(data, pos, color, levels);
    }
}

/// Sealing the end of the path leaves the way to it as it was: in the
/// store after the whole insertion, the walk from the root visits the nodes
/// that the insertion stood on, and all of them but the last are
/// subdivided.
pub proof fn lemma_sealed_path(
    data: Seq<TreeNode>,
    pos: Vector4<i64>,
    color: Vector4<i64>,
    node_type: u32,
)
    requires
        store_wf(data),
        data.len() + 8 * (MAX_RECURSION - 1) <= u32::MAX,
    ensures
        store_wf(inserted(data, pos, color, node_type)),
        inserted(data, pos, color, node_type).len() == insertion(
            data,
            Traverse::seed(pos),
            color,
            (MAX_RECURSION - 1) as nat,
        ).0.len(),
        forall|k: nat|
            k < MAX_RECURSION ==> #[trigger] walk(
                inserted(data, pos, color, node_type),
                Traverse::seed(pos),
                k,
            ) == insertion(data, Traverse::seed(pos), color, k).1,
        forall|k: nat|
            k < MAX_RECURSION - 1 ==> inserted(data, pos, color, node_type)[(#[trigger] walk(
                inserted(data, pos, color, node_type),
                Traverse::seed(pos),
                k,
            )).index as int].node_type == SUBDIVIDED,
        forall|i: int|
            0 <= i < inserted(data, pos, color, node_type).len() ==> #[trigger] node_depth(
                inserted(data, pos, color, node_type),
                i,
            ) == node_depth(
                insertion(data, Traverse::seed(pos), color, (MAX_RECURSION - 1) as nat).0,
                i,
            ),
{
    let last = (MAX_RECURSION - 1) as nat;
    let seed = Traverse::seed(pos);
    let walked = insertion(data, seed, color, last);
    let store = inserted(data, pos, color, node_type);
    lemma_insertion(data, pos, color, last);
    lemma_path_account(data, pos, color, last);
    lemma_sealed(walked.0, walked.1.index as int, color, node_type);
    assert forall|k: nat| k < MAX_RECURSION implies #[trigger] walk(store, seed, k) == insertion(
        data,
        seed,
        color,
        k,
    ).1 by {
        assert forall|j: nat| j < k implies walked.0[(#[trigger] walk(
            walked.0,
            seed,
            j,
        )).index as int].children == store[walk(walked.0, seed, j).index as int].children by {
            assert(walk(walked.0, seed, j) == insertion(data, seed, color, j).1);
            assert(0 <= path_index(data, pos, color, j) < walked.0.len());
        }
        lemma_walk_agrees(walked.0, store, seed, k);
        assert(walk(walked.0, seed, k) == insertion(data, seed, color, k).1);
    }
    assert forall|k: nat| k < MAX_RECURSION - 1 implies store[(#[trigger] walk(
        store,
        seed,
        k,
    )).index as int].node_type == SUBDIVIDED by {
        let node = path_index(data, pos, color, k);
        assert(walk(store, seed, k) == insertion(data, seed, color, k).1);
        assert(node_depth(walked.0, node) == k);
        assert(walked.0[node].node_type == SUBDIVIDED);
        assert(node != walked.1.index);
    }
}

/// Along a way that is subdivided already, an insertion makes no node and
/// moves no link: it only leaves colour.
pub proof fn lemma_insertion_on_split_path(
    data: Seq<TreeNode>,
    pos: Vector4<i64>,
    color: Vector4<i64>,
    levels: nat,
)
    requires
        store_wf(data),
        levels < MAX_RECURSION,
        data.len() + 8 * levels <= u32::MAX,
        forall|k: nat|
            k < levels ==> data[(#[trigger] walk(data, Traverse::seed(pos), k)).index as int].node_type
                == SUBDIVIDED,
    ensures
        insertion(data, Traverse::seed(pos), color, levels).0.len() == data.len(),
        insertion(data, Traverse::seed(pos), color, levels).1 == walk(
            data,
            Traverse::seed(pos),
            levels,
        ),
        forall|i: int|
            0 <= i < data.len() ==> {
                let after = #[trigger] insertion(data, Traverse::seed(pos), color, levels).0[i];
                &&& after.node_type == data[i].node_type
                &&& after.parent == data[i].parent
                &&& after.children == data[i].children
            },
    decreases levels,
{
    let seed = Traverse::seed(pos);
    if levels > 0 {
        let fewer = (levels - 1) as nat;
        let before = insertion(data, seed, color, fewer);
        let split = subdivided(before.0, before.1.index as int);
        let below = before.1.stepped(split);
        let store = tinted(split, below.index as int, color, below.span);
        assert(insertion(data, seed, color, levels) == (store, below));
        lemma_insertion_on_split_path(data, pos, color, fewer);
        lemma_insertion(data, pos, color, fewer);
        lemma_insertion(data, pos, color, levels);
        let above = walk(data, seed, fewer);
        assert(before.1 == above);
        assert(data[above.index as int].node_type == SUBDIVIDED);
        assert(before.0[above.index as int].node_type == SUBDIVIDED);
        assert(split == before.0);
        assert(before.0[above.index as int].children == data[above.index as int].children);
        assert(above.stepped(before.0) == above.stepped(data));
    }
}

} // verus!
