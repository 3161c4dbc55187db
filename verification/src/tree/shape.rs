//! The shape of the store, and how each operation of the tree keeps it.

use crate::tree::model::{
    blank_node, child_mask, children_linked, insertion, node_depth, octant_of, octant_place, sealed,
    span_at, store_wf, subdivided, tinted,
};
use crate::tree::octree::{Traverse, TreeNode, EMPTY, MAX_RECURSION, ROOT_SPAN, SUBDIVIDED};
use crate::vector::{lemma_octant_places, Vector4};
use vstd::prelude::*;

verus! {

/// Two stores agree on every parent link of the first.
pub open spec fn same_parents(a: Seq<TreeNode>, b: Seq<TreeNode>) -> bool {
    &&& a.len() <= b.len()
    &&& forall|j: int| 0 <= j < a.len() ==> (#[trigger] a[j]).parent == b[j].parent
}

/// A node's depth hangs on the parent links alone.
pub proof fn lemma_depth_stable(a: Seq<TreeNode>, b: Seq<TreeNode>, i: int)
    requires
        same_parents(a, b),
        0 <= i < a.len(),
    ensures
        node_depth(a, i) == node_depth(b, i),
    decreases i,
{
    if 0 < i && a[i].parent < i {
        lemma_depth_stable(a, b, a[i].parent as int);
    }
}

/// The edge of the cells of each level.
pub proof fn lemma_span_values(depth: nat)
    requires
        depth < MAX_RECURSION,
    ensures
        2 <= span_at(depth) <= ROOT_SPAN,
        depth < MAX_RECURSION - 1 ==> span_at(depth) == 2 * span_at(depth + 1),
        depth == MAX_RECURSION - 1 ==> span_at(depth) == 2,
    decreases depth,
{
    reveal_with_fuel(span_at, 18);
    assert(span_at(0) == 131072);
    assert(span_at(4) == 8192);
    assert(span_at(8) == 512);
    assert(span_at(12) == 32);
    assert(span_at(16) == 2);
}

/// Splitting a node above the last level keeps the store's shape, leaves
/// every other old node as it was and every depth as it was.
pub proof fn lemma_subdivided(data: Seq<TreeNode>, index: int)
    requires
        store_wf(data),
        0 <= index < data.len(),
        node_depth(data, index) < MAX_RECURSION - 1,
        subdivided(data, index).len() <= u32::MAX,
    ensures
        store_wf(subdivided(data, index)),
        subdivided(data, index)[index].node_type == SUBDIVIDED,
        children_linked(subdivided(data, index), index),
        same_parents(data, subdivided(data, index)),
        subdivided(data, index).len() == data.len() + (if data[index].node_type == EMPTY {
            8int
        } else {
            0int
        }),
        forall|i: int|
            0 <= i < data.len() && i != index ==> #[trigger] subdivided(data, index)[i] == data[i],
        subdivided(data, index)[index].base_color == data[index].base_color,
        forall|i: int|
            data.len() <= i < subdivided(data, index).len() ==> #[trigger] subdivided(
                data,
                index,
            )[i] == blank_node(EMPTY, index as u32),
        forall|i: int|
            0 <= i < data.len() ==> #[trigger] node_depth(subdivided(data, index), i)
                == node_depth(data, i),
        forall|i: int|
            data.len() <= i < subdivided(data, index).len() ==> #[trigger] node_depth(
                subdivided(data, index),
                i,
            ) == node_depth(data, index) + 1,
{
    let after = subdivided(data, index);
    if data[index].node_type == EMPTY {
        assert(after.len() == data.len() + 8);
        assert forall|i: int| 0 <= i < data.len() implies #[trigger] node_depth(after, i)
            == node_depth(data, i) by {
            lemma_depth_stable(data, after, i);
        }
        assert forall|i: int| data.len() <= i < after.len() implies #[trigger] node_depth(after, i)
            == node_depth(data, index) + 1 by {
            assert(after[i] == blank_node(EMPTY, index as u32));
            lemma_depth_stable(data, after, index);
        }
        assert forall|k: int| 0 <= k < 8 implies {
            &&& index < (#[trigger] after[index].children[k]) < after.len()
            &&& after[after[index].children[k] as int].parent == index
        } by {
            assert(after[index].children[k] == data.len() + k);
        }
        assert forall|i: int|
            0 <= i < after.len() && #[trigger] node_depth(after, i) < MAX_RECURSION - 1 implies {
            ||| after[i].node_type == EMPTY
            ||| (after[i].node_type == SUBDIVIDED && children_linked(after, i))
        } by {
            if i < data.len() && i != index {
                assert(node_depth(data, i) < MAX_RECURSION - 1);
                if data[i].node_type != EMPTY {
                    assert(children_linked(data, i));
                    assert forall|k: int| 0 <= k < 8 implies {
                        &&& i < (#[trigger] after[i].children[k]) < after.len()
                        &&& after[after[i].children[k] as int].parent == i
                    } by {
                        let c = data[i].children[k];
                        assert(i < c < data.len());
                        assert(data[c as int].parent == after[c as int].parent);
                    }
                }
            }
        }
        assert forall|i: int| 0 < i < after.len() implies (#[trigger] after[i]).parent < i by {
            if i < data.len() {
                assert(data[i].parent == after[i].parent);
            }
        }
    } else {
        assert(after == data);
        assert(node_depth(data, index) < MAX_RECURSION - 1);
    }
}

/// A share of colour changes no link and no type: the store keeps its
/// shape.
pub proof fn lemma_tinted(data: Seq<TreeNode>, index: int, color: Vector4<i64>, span: i64)
    requires
        store_wf(data),
        0 <= index < data.len(),
    ensures
        store_wf(tinted(data, index, color, span)),
        same_parents(data, tinted(data, index, color, span)),
        forall|i: int|
            0 <= i < data.len() ==> #[trigger] node_depth(tinted(data, index, color, span), i)
                == node_depth(data, i),
{
    let after = tinted(data, index, color, span);
    assert forall|i: int| 0 <= i < data.len() implies #[trigger] node_depth(after, i)
        == node_depth(data, i) by {
        lemma_depth_stable(data, after, i);
    }
    assert forall|i: int|
        0 <= i < after.len() && #[trigger] node_depth(after, i) < MAX_RECURSION - 1 implies {
        ||| after[i].node_type == EMPTY
        ||| (after[i].node_type == SUBDIVIDED && children_linked(after, i))
    } by {
        assert(node_depth(data, i) < MAX_RECURSION - 1);
        if data[i].node_type != EMPTY {
            assert(children_linked(data, i));
            assert forall|k: int| 0 <= k < 8 implies {
                &&& i < (#[trigger] after[i].children[k]) < after.len()
                &&& after[after[i].children[k] as int].parent == i
            } by {
                let c = data[i].children[k];
                assert(i < c < data.len());
                assert(data[c as int].parent == after[c as int].parent);
            }
        }
    }
    assert forall|i: int| 0 < i < after.len() implies (#[trigger] after[i]).parent < i by {
        assert(data[i].parent == after[i].parent);
    }
}

/// A node of the last level may take any type and colour: the store keeps
/// its shape.
pub proof fn lemma_sealed(data: Seq<TreeNode>, index: int, color: Vector4<i64>, node_type: u32)
    requires
        store_wf(data),
        0 <= index < data.len(),
        node_depth(data, index) == MAX_RECURSION - 1,
    ensures
        store_wf(sealed(data, index, color, node_type)),
        same_parents(data, sealed(data, index, color, node_type)),
        forall|i: int|
            0 <= i < data.len() ==> #[trigger] node_depth(sealed(data, index, color, node_type), i)
                == node_depth(data, i),
{
    let after = sealed(data, index, color, node_type);
    assert forall|i: int| 0 <= i < data.len() implies #[trigger] node_depth(after, i)
        == node_depth(data, i) by {
        lemma_depth_stable(data, after, i);
    }
    assert forall|i: int|
        0 <= i < after.len() && #[trigger] node_depth(after, i) < MAX_RECURSION - 1 implies {
        ||| after[i].node_type == EMPTY
        ||| (after[i].node_type == SUBDIVIDED && children_linked(after, i))
    } by {
        assert(node_depth(data, i) < MAX_RECURSION - 1);
        assert(i != index);
        if data[i].node_type != EMPTY {
            assert(children_linked(data, i));
            assert forall|k: int| 0 <= k < 8 implies {
                &&& i < (#[trigger] after[i].children[k]) < after.len()
                &&& after[after[i].children[k] as int].parent == i
            } by {
                let c = data[i].children[k];
                assert(i < c < data.len());
                assert(data[c as int].parent == after[c as int].parent);
            }
        }
    }
    assert forall|i: int| 0 < i < after.len() implies (#[trigger] after[i]).parent < i by {
        assert(data[i].parent == after[i].parent);
    }
}

/// The cursor stands on a node of level `level` of `data`, with that
/// level's edge and a frame that the machine's integers hold.
pub open spec fn at_level(data: Seq<TreeNode>, cursor: Traverse, level: nat) -> bool {
    &&& cursor.depth == level
    &&& cursor.index < data.len()
    &&& node_depth(data, cursor.index as int) == level
    &&& cursor.span == span_at(level)
    &&& cursor.frame_fits()
}

/// A child mask selects one of the eight places of a node's children.
pub proof fn lemma_place_in_range(cur_span: i64, local_origin: Vector4<i64>)
    ensures
        0 <= octant_place(child_mask(cur_span, local_origin)) < 8,
{
    let octant = octant_of(child_mask(cur_span, local_origin));
    lemma_octant_places(octant, octant, 0);
}

/// The cursor of a new descent stands on the root, and its frame adds up
/// to the point.
pub proof fn lemma_seed(data: Seq<TreeNode>, pos: Vector4<i64>)
    requires
        store_wf(data),
    ensures
        at_level(data, Traverse::seed(pos), 0),
        pos.difference_fits(pos.rem_spec(ROOT_SPAN)),
        Traverse::seed(pos).holds_point(pos),
{
}

/// One level down from a subdivided node above the last level, the cursor
/// stands on one of the node's children, on the next level, and its frame
/// is still that of the same point.
pub proof fn lemma_stepped(data: Seq<TreeNode>, cursor: Traverse, level: nat)
    requires
        store_wf(data),
        at_level(data, cursor, level),
        level < MAX_RECURSION - 1,
        data[cursor.index as int].node_type == SUBDIVIDED,
    ensures
        cursor.can_step(data),
        at_level(data, cursor.stepped(data), level + 1),
        cursor.stepped(data).parent == cursor.index,
        cursor.index < cursor.stepped(data).index,
        data[cursor.stepped(data).index as int].parent == cursor.index,
        forall|pos: Vector4<i64>|
            cursor.holds_point(pos) ==> #[trigger] cursor.stepped(data).holds_point(pos),
{
    lemma_span_values(level);
    let span = (cursor.span / 2) as i64;
    let mask = child_mask(span, cursor.local_origin);
    lemma_place_in_range(span, cursor.local_origin);
    let place = octant_place(mask);
    let below = cursor.stepped(data);
    assert(children_linked(data, cursor.index as int));
    assert(below.index == data[cursor.index as int].children[place]);
    assert(forall|m: int| m == 0 ==> #[trigger] (m * span) == 0 && #[trigger] (m * (-(span
        as int))) == 0) by (nonlinear_arith);
    assert(forall|m: int| m == 1 ==> #[trigger] (m * span) == span && #[trigger] (m * (-(span
        as int))) == -(span as int)) by (nonlinear_arith);
}

/// What holds after any number of levels of an insertion into a store of
/// the right shape: the shape is kept, the cursor stands on the level it
/// has reached, no old parent link has changed, and each level has added
/// eight nodes or none.
pub proof fn lemma_insertion(data: Seq<TreeNode>, pos: Vector4<i64>, color: Vector4<i64>, steps: nat)
    requires
        store_wf(data),
        steps < MAX_RECURSION,
        data.len() + 8 * steps <= u32::MAX,
    ensures
        store_wf(insertion(data, Traverse::seed(pos), color, steps).0),
        at_level(
            insertion(data, Traverse::seed(pos), color, steps).0,
            insertion(data, Traverse::seed(pos), color, steps).1,
            steps,
        ),
        insertion(data, Traverse::seed(pos), color, steps).1.holds_point(pos),
        same_parents(data, insertion(data, Traverse::seed(pos), color, steps).0),
        data.len() <= insertion(data, Traverse::seed(pos), color, steps).0.len() <= data.len() + 8
            * steps,
        forall|i: int|
            0 <= i < data.len() ==> #[trigger] node_depth(
                insertion(data, Traverse::seed(pos), color, steps).0,
                i,
            ) == node_depth(data, i),
    decreases steps,
{
    if steps == 0 {
        lemma_seed(data, pos);
    } else {
        let before = insertion(data, Traverse::seed(pos), color, (steps - 1) as nat);
        let split = subdivided(before.0, before.1.index as int);
        let below = before.1.stepped(split);
        let after = tinted(split, below.index as int, color, below.span);
        assert(insertion(data, Traverse::seed(pos), color, steps) == (after, below));
        lemma_insertion(data, pos, color, (steps - 1) as nat);
        lemma_subdivided(before.0, before.1.index as int);
        lemma_stepped(split, before.1, (steps - 1) as nat);
        lemma_tinted(split, below.index as int, color, below.span);
    }
}

} // verus!
