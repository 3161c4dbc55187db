//! What holds of the tree across its operations.

use crate::tree::model::{
    childless, children_linked, descent, inserted, inserted_all, insertion, landing, node_depth,
    root_only, span_at, store_wf, walk, Voxel,
};
use crate::tree::octree::{Traverse, TreeNode, EMPTY, MAX_RECURSION, ROOT_SPAN, SUBDIVIDED};
use crate::tree::path::{
    lemma_descent_follows_walk, lemma_insertion_on_split_path, lemma_path_account,
    lemma_sealed_path, path_index, prior_color, visited,
};
use crate::tree::shape::{
    at_level, lemma_insertion, lemma_seed, lemma_span_values, lemma_stepped,
};
use crate::vector::Vector4;
use vstd::arithmetic::div_mod::lemma_div_denominator;
use vstd::arithmetic::power2::{lemma2_to64, lemma_pow2_pos, lemma_pow2_unfold, pow2};
use vstd::prelude::*;

verus! {

/// The edge of a cell is the root's edge over two to the power of the
/// cell's depth.
pub proof fn lemma_span_is_root_over_power(depth: nat)
    requires
        depth < MAX_RECURSION,
    ensures
        span_at(depth) == ROOT_SPAN as int / pow2(depth) as int,
    decreases depth,
{
    if depth == 0 {
        assert(pow2(0) == 1) by {
            lemma2_to64();
        }
    } else {
        let above = (depth - 1) as nat;
        lemma_span_is_root_over_power(above);
        lemma_pow2_pos(above);
        lemma_pow2_unfold(depth);
        lemma_div_denominator(ROOT_SPAN as int, pow2(above) as int, 2);
        assert(pow2(above) * 2 == pow2(depth));
    }
}

/// A query on a new tree ends where it began: on the root, which is empty,
/// whatever the point.
pub proof fn lemma_query_on_new_tree(pos: Vector4<i64>)
    ensures
        store_wf(root_only()),
        descent(root_only(), Traverse::seed(pos), (MAX_RECURSION - 1) as nat) == Traverse::seed(
            pos,
        ),
        Traverse::seed(pos).index == 0,
        Traverse::seed(pos).depth == 0,
        root_only()[0].node_type == EMPTY,
{
    assert(node_depth(root_only(), 0) == 0);
}

/// An insertion always goes down to the last level: its cursor ends at
/// depth `MAX_RECURSION - 1`, on a cell whose edge is the root's edge over
/// two to that power, which is 2.
pub proof fn lemma_insertion_reaches_last_level(
    data: Seq<TreeNode>,
    pos: Vector4<i64>,
    color: Vector4<i64>,
)
    requires
        store_wf(data),
        data.len() + 8 * (MAX_RECURSION - 1) <= u32::MAX,
    ensures
        landing(data, pos, color).depth == MAX_RECURSION - 1,
        landing(data, pos, color).span == ROOT_SPAN as int / pow2((MAX_RECURSION - 1) as nat) as int,
        landing(data, pos, color).span == 2,
        landing(data, pos, color) == walk(
            inserted(data, pos, color, EMPTY),
            Traverse::seed(pos),
            (MAX_RECURSION - 1) as nat,
        ),
{
    let last = (MAX_RECURSION - 1) as nat;
    lemma_insertion(data, pos, color, last);
    lemma_span_values(last);
    lemma_span_is_root_over_power(last);
    lemma_sealed_path(data, pos, color, EMPTY);
}

/// After an insertion, a query at the same point ends on the cursor that
/// the insertion returned, and the node there holds the type and the
/// colour that were inserted, exactly.
pub proof fn lemma_query_after_insertion(
    data: Seq<TreeNode>,
    pos: Vector4<i64>,
    color: Vector4<i64>,
    node_type: u32,
)
    requires
        store_wf(data),
        data.len() + 8 * (MAX_RECURSION - 1) <= u32::MAX,
    ensures
        descent(
            inserted(data, pos, color, node_type),
            Traverse::seed(pos),
            (MAX_RECURSION - 1) as nat,
        ) == landing(data, pos, color),
        inserted(data, pos, color, node_type)[landing(data, pos, color).index as int].node_type
            == node_type,
        inserted(data, pos, color, node_type)[landing(data, pos, color).index as int].base_color
            == color,
{
    let last = (MAX_RECURSION - 1) as nat;
    let seed = Traverse::seed(pos);
    let store = inserted(data, pos, color, node_type);
    lemma_insertion(data, pos, color, last);
    lemma_sealed_path(data, pos, color, node_type);
    lemma_descent_follows_walk(store, seed, 0, last);
    assert(walk(store, seed, 0) == seed);
    assert(walk(store, seed, last) == landing(data, pos, color));
}

/// What an insertion leaves on the way. Every node that the insertion
/// passed below the root and above its end holds what it held before (no
/// colour, if the insertion made it) plus the inserted colour divided by the
/// edge of its cell. The root keeps its colour. An old node that the
/// insertion did not stand on is as it was.
pub proof fn lemma_insertion_shares(
    data: Seq<TreeNode>,
    pos: Vector4<i64>,
    color: Vector4<i64>,
    node_type: u32,
)
    requires
        store_wf(data),
        data.len() + 8 * (MAX_RECURSION - 1) <= u32::MAX,
    ensures
        forall|k: nat|
            1 <= k < MAX_RECURSION - 1 ==> {
                let node = (#[trigger] walk(
                    inserted(data, pos, color, node_type),
                    Traverse::seed(pos),
                    k,
                )).index as int;
                inserted(data, pos, color, node_type)[node].base_color == prior_color(
                    data,
                    node,
                ).saturating_add_spec(color.quot_spec(span_at(k) as i64))
            },
        inserted(data, pos, color, node_type)[0].base_color == data[0].base_color,
        forall|i: int|
            0 <= i < data.len() && walk(
                inserted(data, pos, color, node_type),
                Traverse::seed(pos),
                node_depth(data, i),
            ).index != i ==> #[trigger] inserted(data, pos, color, node_type)[i] == data[i],
{
    let last = (MAX_RECURSION - 1) as nat;
    let seed = Traverse::seed(pos);
    let walked = insertion(data, seed, color, last);
    let store = inserted(data, pos, color, node_type);
    lemma_insertion(data, pos, color, last);
    lemma_path_account(data, pos, color, last);
    lemma_sealed_path(data, pos, color, node_type);
    assert forall|k: nat| 1 <= k < MAX_RECURSION - 1 implies {
        let node = (#[trigger] walk(store, seed, k)).index as int;
        store[node].base_color == prior_color(data, node).saturating_add_spec(
            color.quot_spec(span_at(k) as i64),
        )
    } by {
        let node = path_index(data, pos, color, k);
        assert(walk(store, seed, k) == insertion(data, seed, color, k).1);
        assert(node_depth(walked.0, node) == k);
        assert(node != walked.1.index);
    }
    assert(store[0].base_color == data[0].base_color) by {
        assert(node_depth(walked.0, 0) == 0);
        assert(walked.1.index != 0);
    }
    assert forall|i: int|
        0 <= i < data.len() && walk(store, seed, node_depth(data, i)).index != i implies #[trigger] store[i]
        == data[i] by {
        let level = node_depth(data, i);
        assert(node_depth(walked.0, i) == level);
        assert(level < MAX_RECURSION);
        assert(walk(store, seed, level) == insertion(data, seed, color, level).1);
        assert(!visited(data, pos, color, last, walked.0, i));
        assert(walked.0[i] == data[i]);
        assert(i != walked.1.index);
    }
}

/// Inserting a second time at a point adds no node, whatever the colours
/// and the types: the first insertion has split the whole way, and the
/// second ends on the same node.
pub proof fn lemma_reinsertion_adds_nothing(
    data: Seq<TreeNode>,
    pos: Vector4<i64>,
    first_color: Vector4<i64>,
    first_type: u32,
    second_color: Vector4<i64>,
    second_type: u32,
)
    requires
        store_wf(data),
        data.len() + 16 * (MAX_RECURSION - 1) <= u32::MAX,
    ensures
        inserted(
            inserted(data, pos, first_color, first_type),
            pos,
            second_color,
            second_type,
        ).len() == inserted(data, pos, first_color, first_type).len(),
        landing(inserted(data, pos, first_color, first_type), pos, second_color).index == landing(
            data,
            pos,
            first_color,
        ).index,
{
    let last = (MAX_RECURSION - 1) as nat;
    let seed = Traverse::seed(pos);
    let once = inserted(data, pos, first_color, first_type);
    lemma_insertion(data, pos, first_color, last);
    lemma_sealed_path(data, pos, first_color, first_type);
    lemma_insertion_on_split_path(once, pos, second_color, last);
    lemma_insertion(once, pos, second_color, last);
    assert(walk(once, seed, last) == landing(data, pos, first_color));
}

/// Repeating an insertion adds to the way a second time and leaves the end
/// as it is: no node is made, the cursor is the same, every node below the
/// root and above the end holds one share more than after the first
/// insertion, and the node at the end holds the colour, not twice the
/// colour.
pub proof fn lemma_repeated_insertion(
    data: Seq<TreeNode>,
    pos: Vector4<i64>,
    color: Vector4<i64>,
    node_type: u32,
)
    requires
        store_wf(data),
        data.len() + 16 * (MAX_RECURSION - 1) <= u32::MAX,
    ensures
        ({
            let once = inserted(data, pos, color, node_type);
            let twice = inserted(once, pos, color, node_type);
            let end = landing(data, pos, color);
            &&& twice.len() == once.len()
            &&& landing(once, pos, color) == end
            &&& twice[end.index as int].base_color == color
            &&& twice[end.index as int].node_type == node_type
            &&& twice[0].base_color == data[0].base_color
            &&& forall|k: nat|
                1 <= k < MAX_RECURSION - 1 ==> {
                    let node = (#[trigger] walk(once, Traverse::seed(pos), k)).index as int;
                    twice[node].base_color == once[node].base_color.saturating_add_spec(
                        color.quot_spec(span_at(k) as i64),
                    )
                }
        }),
{
    let last = (MAX_RECURSION - 1) as nat;
    let seed = Traverse::seed(pos);
    let once = inserted(data, pos, color, node_type);
    let twice = inserted(once, pos, color, node_type);
    lemma_insertion(data, pos, color, last);
    lemma_path_account(data, pos, color, last);
    lemma_sealed_path(data, pos, color, node_type);
    lemma_insertion_shares(data, pos, color, node_type);
    lemma_insertion_on_split_path(once, pos, color, last);
    lemma_insertion(once, pos, color, last);
    lemma_sealed_path(once, pos, color, node_type);
    lemma_insertion_shares(once, pos, color, node_type);
    lemma_query_after_insertion(once, pos, color, node_type);
    assert(walk(once, seed, last) == landing(data, pos, color));
    assert forall|k: nat| 1 <= k < MAX_RECURSION - 1 implies {
        let node = (#[trigger] walk(once, seed, k)).index as int;
        twice[node].base_color == once[node].base_color.saturating_add_spec(
            color.quot_spec(span_at(k) as i64),
        )
    } by {
        let node = walk(once, seed, k).index as int;
        assert(walk(once, seed, k) == insertion(data, seed, color, k).1);
        assert(0 <= path_index(data, pos, color, k) < once.len());
        lemma_insertion_on_split_path(once, pos, color, k);
        assert(walk(twice, seed, k) == insertion(once, seed, color, k).1);
        assert(walk(twice, seed, k) == walk(once, seed, k));
        assert(prior_color(once, node) == once[node].base_color);
    }
}

/// Each insertion adds eight nodes per level below the root at most, so a
/// list of `n` voxels adds at most `n * 8 * (MAX_RECURSION - 1)` nodes, and
/// the store keeps its shape.
pub proof fn lemma_growth_bound(data: Seq<TreeNode>, voxels: Seq<Voxel>)
    requires
        store_wf(data),
        data.len() + voxels.len() * (8 * (MAX_RECURSION - 1)) <= u32::MAX,
    ensures
        store_wf(inserted_all(data, voxels)),
        data.len() <= inserted_all(data, voxels).len() <= data.len() + voxels.len() * (8 * (
        MAX_RECURSION - 1)),
    decreases voxels.len(),
{
    if voxels.len() > 0 {
        let count = voxels.len() as int;
        let each = 8 * (MAX_RECURSION - 1);
        assert(voxels.drop_last().len() == count - 1);
        assert((count - 1) * each == count * each - each && 0 <= (count - 1) * each)
            by (nonlinear_arith)
            requires
                1 <= count,
                0 <= each,
        ;
        let last = voxels.last();
        let before = inserted_all(data, voxels.drop_last());
        lemma_growth_bound(data, voxels.drop_last());
        lemma_insertion(before, last.0, last.1, (MAX_RECURSION - 1) as nat);
        lemma_sealed_path(before, last.0, last.1, last.2);
    }
}

/// A subdivided node stays subdivided, with the children it had: an
/// insertion never takes a split back.
pub proof fn lemma_split_is_kept(
    data: Seq<TreeNode>,
    pos: Vector4<i64>,
    color: Vector4<i64>,
    node_type: u32,
    node: int,
)
    requires
        store_wf(data),
        data.len() + 8 * (MAX_RECURSION - 1) <= u32::MAX,
        0 <= node < data.len(),
        node_depth(data, node) < MAX_RECURSION - 1,
        data[node].node_type == SUBDIVIDED,
    ensures
        inserted(data, pos, color, node_type)[node].node_type == SUBDIVIDED,
        inserted(data, pos, color, node_type)[node].children == data[node].children,
        inserted(data, pos, color, node_type)[node].parent == data[node].parent,
{
    let last = (MAX_RECURSION - 1) as nat;
    let walked = insertion(data, Traverse::seed(pos), color, last);
    lemma_insertion(data, pos, color, last);
    lemma_path_account(data, pos, color, last);
    assert(walked.0[node].node_type == SUBDIVIDED);
    assert(node_depth(walked.0, node) == node_depth(data, node));
    assert(node != walked.1.index);
}

/// Place 0 is the root and no node's child: the entry 0 of a node that has
/// no children cannot be taken for a child, and no walk that has left the
/// root comes back to it.
pub proof fn lemma_root_is_no_child(data: Seq<TreeNode>, node: int, place: int)
    requires
        store_wf(data),
        0 <= node < data.len(),
        node_depth(data, node) < MAX_RECURSION - 1,
        0 <= place < 8,
    ensures
        data[node].node_type == SUBDIVIDED <==> data[node].children[place] != 0,
        data[node].node_type == SUBDIVIDED ==> data[data[node].children[place] as int].parent
            == node,
{
    if data[node].node_type == SUBDIVIDED {
        assert(children_linked(data, node));
    } else {
        assert(childless(data[node]));
    }
}

/// A query that starts on a node of the store ends on one: on the first
/// node on its way that is not subdivided, or on the node that it reaches
/// with its last step, and in the frame of the same point.
pub proof fn lemma_descent_ends_in_place(
    data: Seq<TreeNode>,
    pos: Vector4<i64>,
    cursor: Traverse,
    level: nat,
    steps: nat,
)
    requires
        store_wf(data),
        at_level(data, cursor, level),
        cursor.holds_point(pos),
        level + steps < MAX_RECURSION,
    ensures
        ({
            let end = descent(data, cursor, steps);
            &&& level <= end.depth <= level + steps
            &&& at_level(data, end, end.depth as nat)
            &&& end.holds_point(pos)
            &&& end.depth == level + steps || data[end.index as int].node_type != SUBDIVIDED
        }),
    decreases steps,
{
    if steps > 0 && data[cursor.index as int].node_type == SUBDIVIDED {
        lemma_stepped(data, cursor, level);
        lemma_descent_ends_in_place(
            data,
            pos,
            cursor.stepped(data),
            level + 1,
            (steps - 1) as nat,
        );
    }
}

/// The cell that a query returns holds the point: its corner and the local
/// point add up to the point, and on each axis on which the point does not
/// lie below zero, the point lies between the cell's corner and the corner
/// plus the cell's edge. No subdivided node is returned above the last
/// level.
pub proof fn lemma_query_holds_point(data: Seq<TreeNode>, pos: Vector4<i64>)
    requires
        store_wf(data),
    ensures
        ({
            let end = descent(data, Traverse::seed(pos), (MAX_RECURSION - 1) as nat);
            &&& end.holds_point(pos)
            &&& end.index < data.len()
            &&& node_depth(data, end.index as int) == end.depth
            &&& end.span == span_at(end.depth as nat)
            &&& end.depth == MAX_RECURSION - 1 || data[end.index as int].node_type != SUBDIVIDED
        }),
{
    lemma_seed(data, pos);
    lemma_descent_ends_in_place(data, pos, Traverse::seed(pos), 0, (MAX_RECURSION - 1) as nat);
}

} // verus!
