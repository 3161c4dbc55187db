//! What the operations of the tree compute, as functions on the store and
//! on the cursor.

use crate::tree::octree::{Ray, Traverse, TreeNode, EMPTY, MAX_RECURSION, ROOT_SPAN, SUBDIVIDED};
use crate::vector::{Mask, Vector3, Vector4};
use vstd::array::{spec_array_fill_for_copy_type, spec_array_update};
use vstd::prelude::*;

verus! {

/// No colour, and the origin of space.
pub open spec fn zero_vector() -> Vector4<i64> {
    Vector4 { x: 0i64, y: 0i64, z: 0i64, w: 0i64 }
}

/// The mask of the lower child on every axis.
pub open spec fn zero_mask() -> Vector4<i32> {
    Vector4 { x: 0i32, y: 0i32, z: 0i32, w: 0i32 }
}

/// The children entry of a node that has none.
pub open spec fn no_children() -> [u32; 8] {
    [0u32, 0u32, 0u32, 0u32, 0u32, 0u32, 0u32, 0u32]
}

/// Eight places in a row, from `base` on.
pub open spec fn child_block(base: int) -> [u32; 8] {
    [
        base as u32,
        (base + 1) as u32,
        (base + 2) as u32,
        (base + 3) as u32,
        (base + 4) as u32,
        (base + 5) as u32,
        (base + 6) as u32,
        (base + 7) as u32,
    ]
}

/// A node of the given type under `parent`, with no children and no colour.
pub open spec fn blank_node(node_type: u32, parent: u32) -> TreeNode {
    TreeNode { node_type, parent, children: no_children(), base_color: zero_vector() }
}

/// The store of a new tree: an empty root.
pub open spec fn root_only() -> Seq<TreeNode> {
    seq![blank_node(EMPTY, 0)]
}

/// The number of parent links from node `i` up to the root.
pub open spec fn node_depth(data: Seq<TreeNode>, i: int) -> nat
    decreases i,
{
    if 0 < i < data.len() && data[i].parent < i {
        1 + node_depth(data, data[i].parent as int)
    } else {
        0
    }
}

/// The children of node `i` stand in a row behind it in the store, and each
/// names it as its parent.
pub open spec fn children_linked(data: Seq<TreeNode>, i: int) -> bool {
    forall|k: int|
        0 <= k < 8 ==> {
            &&& i < (#[trigger] data[i].children[k]) < data.len()
            &&& data[i].children[k] == data[i].children[0] + k
            &&& data[data[i].children[k] as int].parent == i
        }
}

/// The node names no child: every entry is 0.
pub open spec fn childless(node: TreeNode) -> bool {
    forall|k: int| 0 <= k < 8 ==> #[trigger] node.children[k] == 0
}

/// The shape that every operation of the tree keeps. Places fit in a `u32`;
/// every parent lies before its child; no node lies deeper than the last
/// level. Above the last level a node is empty and names no child, or it is
/// subdivided and has its eight children: there it is subdivided if and
/// only if its children are in place. A node of the last level is a leaf:
/// it names no child, whatever its type says.
pub open spec fn store_wf(data: Seq<TreeNode>) -> bool {
    &&& 1 <= data.len() <= u32::MAX
    &&& data[0].parent == 0
    &&& forall|i: int| 0 < i < data.len() ==> (#[trigger] data[i]).parent < i
    &&& forall|i: int| 0 <= i < data.len() ==> #[trigger] node_depth(data, i) < MAX_RECURSION
    &&& forall|i: int|
        0 <= i < data.len() && #[trigger] node_depth(data, i) < MAX_RECURSION - 1 ==> {
            ||| (data[i].node_type == EMPTY && childless(data[i]))
            ||| (data[i].node_type == SUBDIVIDED && children_linked(data, i))
        }
    &&& forall|i: int|
        0 <= i < data.len() && #[trigger] node_depth(data, i) == MAX_RECURSION - 1 ==> childless(
            data[i],
        )
}

/// The store after node `index` was split, if it was empty: the node is
/// subdivided, and its eight children, empty, stand at the end of the store.
/// A node that was not empty leaves the store as it is.
pub open spec fn subdivided(data: Seq<TreeNode>, index: int) -> Seq<TreeNode> {
    if data[index].node_type == EMPTY {
        data.update(
            index,
            TreeNode {
                node_type: SUBDIVIDED,
                children: child_block(data.len() as int),
                ..data[index]
            },
        ) + Seq::new(8, |k: int| blank_node(EMPTY, index as u32))
    } else {
        data
    }
}

/// The store after node `index` took its share of `color` in a cell of edge
/// `span`: the colour divided by the edge, added to what the node held.
pub open spec fn tinted(data: Seq<TreeNode>, index: int, color: Vector4<i64>, span: i64) -> Seq<
    TreeNode,
> {
    data.update(
        index,
        TreeNode {
            base_color: data[index].base_color.saturating_add_spec(color.quot_spec(span)),
            ..data[index]
        },
    )
}

/// The store after node `index` was given a type and a colour of its own.
pub open spec fn sealed(data: Seq<TreeNode>, index: int, color: Vector4<i64>, node_type: u32) -> Seq<
    TreeNode,
> {
    data.update(index, TreeNode { node_type, base_color: color, ..data[index] })
}

/// Per axis, 1 where the point lies in the upper half of its cell: at or
/// beyond `cur_span`, the edge of the cell's children.
pub open spec fn child_mask(cur_span: i64, local_origin: Vector4<i64>) -> Vector4<i32> {
    Vector4 {
        x: if local_origin.x >= cur_span { 1i32 } else { 0i32 },
        y: if local_origin.y >= cur_span { 1i32 } else { 0i32 },
        z: if local_origin.z >= cur_span { 1i32 } else { 0i32 },
        w: if local_origin.w >= cur_span { 1i32 } else { 0i32 },
    }
}

/// The mask's three space axes as a cell of the grid of edge 2.
pub open spec fn octant_of(mask: Vector4<i32>) -> Vector3<i64> {
    Vector3 { x: mask.x as i64, y: mask.y as i64, z: mask.z as i64 }
}

/// The place among a node's children that a child mask selects.
pub open spec fn octant_place(mask: Vector4<i32>) -> int {
    octant_of(mask).index_spec(2)
}

/// `point` moved by `span` along each axis that `mask` marks, forward or
/// back.
pub open spec fn moved(point: Vector4<i64>, mask: Vector4<i32>, span: int) -> Vector4<i64> {
    Vector4 {
        x: (point.x + mask.x * span) as i64,
        y: (point.y + mask.y * span) as i64,
        z: (point.z + mask.z * span) as i64,
        w: (point.w + mask.w * span) as i64,
    }
}

/// The edge of a cell at `depth`: the root's edge, halved once per level.
pub open spec fn span_at(depth: nat) -> int
    decreases depth,
{
    if depth == 0 {
        ROOT_SPAN as int
    } else {
        span_at((depth - 1) as nat) / 2
    }
}

impl Traverse {
    /// The cursor of a descent that has not begun: at the root, with the
    /// root's edge and an empty history.
    pub open spec fn start() -> Traverse {
        Traverse {
            parent: 0,
            index: 0,
            span: ROOT_SPAN,
            depth: 0,
            mask_in_parent: spec_array_fill_for_copy_type(zero_mask()),
            ray: Ray { origin: zero_vector(), dir: zero_vector() },
            dist: 0,
            local_origin: zero_vector(),
            origin_on_edge: zero_vector(),
        }
    }

    /// The cursor at the root for the point `pos`: the point is reduced by
    /// the root's edge, and the root cell's corner is what was taken off.
    pub open spec fn seed(pos: Vector4<i64>) -> Traverse {
        Traverse {
            local_origin: pos.rem_spec(ROOT_SPAN),
            origin_on_edge: pos.minus_spec(pos.rem_spec(ROOT_SPAN)),
            ..Traverse::start()
        }
    }

    /// Corner and local point add up, on each axis, to a coordinate that an
    /// `i64` holds.
    pub open spec fn frame_fits(self) -> bool {
        self.origin_on_edge.sum_fits(self.local_origin)
    }

    /// The cursor's frame is that of the point `pos`: corner and local
    /// point add up to it, and on each axis on which the point does not lie
    /// below zero, the local point lies inside the cell.
    pub open spec fn holds_point(self, pos: Vector4<i64>) -> bool {
        &&& self.frame_fits()
        &&& self.origin_on_edge.plus_spec(self.local_origin) == pos
        &&& pos.x >= 0 ==> 0 <= self.local_origin.x < self.span
        &&& pos.y >= 0 ==> 0 <= self.local_origin.y < self.span
        &&& pos.z >= 0 ==> 0 <= self.local_origin.z < self.span
        &&& pos.w >= 0 ==> 0 <= self.local_origin.w < self.span
    }

    /// Whether the cursor can go one level down: it stands above the last
    /// level, on a subdivided node of `data`.
    pub open spec fn can_step(self, data: Seq<TreeNode>) -> bool {
        &&& 0 <= self.depth < MAX_RECURSION - 1
        &&& 0 <= self.span
        &&& self.frame_fits()
        &&& self.index < data.len()
        &&& data[self.index as int].node_type == SUBDIVIDED
    }

    /// The cursor one level down. The cell's edge is halved; the mask says,
    /// per axis, whether the point lies at or beyond the halved edge; the
    /// frame moves into the child that the mask selects.
    pub open spec fn stepped(self, data: Seq<TreeNode>) -> Traverse {
        let span = (self.span / 2) as i64;
        let mask = child_mask(span, self.local_origin);
        Traverse {
            parent: self.index,
            index: data[self.index as int].children[octant_place(mask)],
            span,
            depth: (self.depth + 1) as i32,
            mask_in_parent: spec_array_update(self.mask_in_parent, self.depth + 1, mask),
            ray: self.ray,
            dist: self.dist,
            local_origin: moved(self.local_origin, mask, -(span as int)),
            origin_on_edge: moved(self.origin_on_edge, mask, span as int),
        }
    }
}

/// The cursor after `steps` levels down from `cursor`, whatever the nodes on
/// the way hold.
pub open spec fn walk(data: Seq<TreeNode>, cursor: Traverse, steps: nat) -> Traverse
    decreases steps,
{
    if steps == 0 {
        cursor
    } else {
        walk(data, cursor, (steps - 1) as nat).stepped(data)
    }
}

/// The cursor of a query: down from `cursor` while the node is subdivided,
/// `steps` levels at most.
pub open spec fn descent(data: Seq<TreeNode>, cursor: Traverse, steps: nat) -> Traverse
    decreases steps,
{
    if steps == 0 || data[cursor.index as int].node_type != SUBDIVIDED {
        cursor
    } else {
        descent(data, cursor.stepped(data), (steps - 1) as nat)
    }
}

/// Store and cursor after `steps` levels of an insertion of `color` that
/// began at `cursor`. Each level splits the node if it is empty, goes down
/// into the child of the point, and gives that child its share of the
/// colour.
pub open spec fn insertion(
    data: Seq<TreeNode>,
    cursor: Traverse,
    color: Vector4<i64>,
    steps: nat,
) -> (Seq<TreeNode>, Traverse)
    decreases steps,
{
    if steps == 0 {
        (data, cursor)
    } else {
        let before = insertion(data, cursor, color, (steps - 1) as nat);
        let split = subdivided(before.0, before.1.index as int);
        let below = before.1.stepped(split);
        (tinted(split, below.index as int, color, below.span), below)
    }
}

/// The most nodes that one insertion adds: eight for each level below the
/// root.
pub open spec fn nodes_per_voxel() -> int {
    8 * (MAX_RECURSION - 1)
}

/// The cursor that an insertion at `pos` ends on.
pub open spec fn landing(data: Seq<TreeNode>, pos: Vector4<i64>, color: Vector4<i64>) -> Traverse {
    insertion(data, Traverse::seed(pos), color, (MAX_RECURSION - 1) as nat).1
}

/// The store after an insertion at `pos`: the path to the last level is
/// split and tinted, and the node at its end holds `node_type` and `color`.
pub open spec fn inserted(
    data: Seq<TreeNode>,
    pos: Vector4<i64>,
    color: Vector4<i64>,
    node_type: u32,
) -> Seq<TreeNode> {
    let walked = insertion(data, Traverse::seed(pos), color, (MAX_RECURSION - 1) as nat);
    sealed(walked.0, walked.1.index as int, color, node_type)
}

/// A voxel to insert: where, in which colour, of which type.
pub type Voxel = (Vector4<i64>, Vector4<i64>, u32);

/// The store after the voxels of a list were inserted, first to last.
pub open spec fn inserted_all(data: Seq<TreeNode>, voxels: Seq<Voxel>) -> Seq<TreeNode>
    decreases voxels.len(),
{
    if voxels.len() == 0 {
        data
    } else {
        let last = voxels.last();
        inserted(inserted_all(data, voxels.drop_last()), last.0, last.1, last.2)
    }
}

} // verus!
