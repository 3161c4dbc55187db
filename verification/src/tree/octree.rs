//! Nodes, the traversal cursor and the octree itself.
//!
//! A node's place in the store is its identity. The root is node 0; a
//! subdivided node names its eight children by their places, in the order
//! that `octant_place` gives to the child masks.

use crate::tree::model::{
    blank_node, child_block, child_mask, childless, children_linked, descent, inserted, insertion,
    landing, moved, no_children, node_depth, nodes_per_voxel, root_only, span_at, store_wf,
    subdivided, tinted, zero_vector,
};
use crate::tree::shape::{
    at_level, lemma_insertion, lemma_sealed, lemma_seed, lemma_span_values, lemma_stepped,
    lemma_subdivided,
};
use crate::vector::{quot_toward_zero, Mask, Vector3, Vector4};
use vstd::prelude::*;

verus! {

/// The number of levels of the tree, the root's included.
pub const MAX_RECURSION: usize = 17;

/// The edge of the root cell: two to the power `MAX_RECURSION`.
pub const ROOT_SPAN: i64 = 131072;

/// A colour channel at full strength. Colours are fixed-point numbers with
/// `MAX_RECURSION` fractional bits, so the share of a whole colour in a cell
/// of any level is exact.
pub const COLOR_ONE: i64 = 131072;

/// The bytes of one node in the buffer that the device reads: type, parent,
/// eight children and four colour channels, four bytes each.
pub const NODE_BYTES: u64 = 48;

/// A cell that holds nothing yet.
pub const EMPTY: u32 = 0;

/// A cell split into eight children.
pub const SUBDIVIDED: u32 = 1;

/// A filled voxel.
pub const FULL: u32 = 2;

/// A voxel that emits light.
pub const LIGHT: u32 = 3;

/// One cell of the tree, in the layout that the device reads.
#[derive(Clone, Copy, Debug, PartialEq, Eq)]
pub struct TreeNode {
    /// One of `EMPTY`, `SUBDIVIDED`, `FULL`, `LIGHT`.
    pub node_type: u32,
    pub parent: u32,
    /// The places of the eight children; read only while the node is
    /// subdivided.
    pub children: [u32; 8],
    /// Fixed-point, in units of one part in `ROOT_SPAN`.
    pub base_color: Vector4<i64>,
}

/// A ray, carried by the cursor for a later stage; no operation here reads
/// it.
#[derive(Clone, Copy, Debug, PartialEq, Eq)]
pub struct Ray {
    pub origin: Vector4<i64>,
    pub dir: Vector4<i64>,
}

/// Where a descent stands: a node, its cell, and the point in that cell's
/// own frame.
#[derive(Clone, Copy, Debug, PartialEq, Eq)]
pub struct Traverse {
    pub parent: u32,
    pub index: u32,
    /// The edge of the current cell.
    pub span: i64,
    pub depth: i32,
    /// The child mask taken at each depth.
    pub mask_in_parent: [Vector4<i32>; MAX_RECURSION],
    pub ray: Ray,
    pub dist: i64,
    /// The point, from the lower corner of the current cell.
    pub local_origin: Vector4<i64>,
    /// The lower corner of the current cell.
    pub origin_on_edge: Vector4<i64>,
}

/// The tree: the node store and the list of lights.
pub struct Octree {
    /// The node store; node 0 is the root.
    pub data: Vec<TreeNode>,
    /// The cursors that the inserted lights ended on.
    pub light_data: Vec<Traverse>,
}

impl Default for TreeNode {
    fn default() -> (r: Self)
        ensures
            r == blank_node(EMPTY, 0),
    {
        let r = TreeNode {
            node_type: EMPTY,
            parent: 0,
            children: [0; 8],
            base_color: Vector4::splat(0),
        };
        assert(r.children =~= no_children());
        r
    }
}

impl Default for Ray {
    fn default() -> (r: Self)
        ensures
            r == (Ray { origin: zero_vector(), dir: zero_vector() }),
    {
        Ray { origin: Vector4::splat(0), dir: Vector4::splat(0) }
    }
}

impl Default for Traverse {
    fn default() -> (r: Self)
        ensures
            r == Traverse::start(),
    {
        Traverse {
            parent: 0,
            index: 0,
            span: ROOT_SPAN,
            depth: 0,
            mask_in_parent: [Vector4 { x: 0i32, y: 0i32, z: 0i32, w: 0i32 }; MAX_RECURSION],
            ray: Ray::default(),
            dist: 0,
            local_origin: Vector4::splat(0),
            origin_on_edge: Vector4::splat(0),
        }
    }
}

impl TreeNode {
    /// A node of the given type under `parent`.
    pub fn new(node_type: u32, parent: usize) -> (r: TreeNode)
        requires
            parent <= u32::MAX,
        ensures
            r == blank_node(node_type, parent as u32),
    {
        let r = TreeNode {
            node_type,
            parent: parent as u32,
            children: [0; 8],
            base_color: Vector4::splat(0),
        };
        assert(r.children =~= no_children());
        r
    }

    /// Gives the node a type and a colour of its own; what it held is
    /// overwritten.
    pub fn set_full(&mut self, base_color: Vector4<i64>, node_type: u32)
        ensures
            *final(self) == (TreeNode { node_type, base_color, ..*old(self) }),
    {
        self.node_type = node_type;
        self.base_color = base_color;
    }

    /// The middle of the cell of edge `span` whose lower corner is
    /// `node_pos`.
    pub fn get_center(node_pos: Vector4<i64>, span: i64) -> (r: Vector4<i64>)
        requires
            node_pos.sum_fits(Vector4::splat_spec(quot_toward_zero(span as int, 2) as i64)),
        ensures
            r == node_pos.plus_spec(Vector4::splat_spec(quot_toward_zero(span as int, 2) as i64)),
    {
        node_pos.plus(Vector4::splat(span / 2))
    }

    /// The upper corner of the cell of edge `span` whose lower corner is
    /// `node_pos`.
    pub fn get_top_right(node_pos: Vector4<i64>, span: i64) -> (r: Vector4<i64>)
        requires
            node_pos.sum_fits(Vector4::splat_spec(span)),
        ensures
            r == node_pos.plus_spec(Vector4::splat_spec(span)),
    {
        node_pos.plus(Vector4::splat(span))
    }

    /// The child that holds the point: per axis, 1 where `local_origin`
    /// lies at or beyond `cur_span`, the edge of the children.
    pub fn get_child_mask(cur_span: i64, local_origin: Vector4<i64>) -> (r: Vector4<i32>)
        ensures
            r == child_mask(cur_span, local_origin),
    {
        Vector4 {
            x: if local_origin.x >= cur_span { 1 } else { 0 },
            y: if local_origin.y >= cur_span { 1 } else { 0 },
            z: if local_origin.z >= cur_span { 1 } else { 0 },
            w: if local_origin.w >= cur_span { 1 } else { 0 },
        }
    }
}

/// `point` moved by `span` along each axis that `mask` marks.
fn shift(point: Vector4<i64>, mask: Vector4<i32>, span: i64) -> (r: Vector4<i64>)
    requires
        0 <= mask.x <= 1 && 0 <= mask.y <= 1 && 0 <= mask.z <= 1 && 0 <= mask.w <= 1,
        mask.x == 1 ==> i64::MIN <= point.x + span <= i64::MAX,
        mask.y == 1 ==> i64::MIN <= point.y + span <= i64::MAX,
        mask.z == 1 ==> i64::MIN <= point.z + span <= i64::MAX,
        mask.w == 1 ==> i64::MIN <= point.w + span <= i64::MAX,
    ensures
        r == moved(point, mask, span as int),
{
    assert(forall|m: int| m == 0 ==> #[trigger] (m * span) == 0) by (nonlinear_arith);
    assert(forall|m: int| m == 1 ==> #[trigger] (m * span) == span) by (nonlinear_arith);
    Vector4 {
        x: if mask.x == 1 { point.x + span } else { point.x },
        y: if mask.y == 1 { point.y + span } else { point.y },
        z: if mask.z == 1 { point.z + span } else { point.z },
        w: if mask.w == 1 { point.w + span } else { point.w },
    }
}

impl Traverse {
    /// The place of the current node.
    pub fn index(&self) -> (r: usize)
        ensures
            r == self.index,
    {
        self.index as usize
    }

    /// The place of the node above the current one.
    pub fn parent(&self) -> (r: usize)
        ensures
            r == self.parent,
    {
        self.parent as usize
    }

    /// The type of the node that the cursor stands on.
    pub fn node_type(&self, data: &Vec<TreeNode>) -> (r: u32)
        requires
            self.index < data.len(),
        ensures
            r == data[self.index as int].node_type,
    {
        data[self.index()].node_type
    }

    /// Adds to the current node its share of `color`: the colour divided by
    /// the edge of the node's cell.
    pub fn update_color(&mut self, data: &mut Vec<TreeNode>, color: Vector4<i64>)
        requires
            old(self).index < old(data).len(),
            0 < old(self).span,
        ensures
            *final(self) == *old(self),
            final(data)@ == tinted(old(data)@, old(self).index as int, color, old(self).span),
    {
        let i = self.index();
        let share = color.quot(self.span);
        data[i].base_color = data[i].base_color.saturating_add(share);
        assert(data@ =~= tinted(old(data)@, old(self).index as int, color, old(self).span));
    }

    /// Splits the current node if it is empty: it becomes subdivided and
    /// gets eight empty children at the end of the store. On any other node
    /// nothing changes.
    pub fn try_child_creation(&mut self, data: &mut Vec<TreeNode>)
        requires
            old(self).index < old(data).len(),
            old(data)[old(self).index as int].node_type == EMPTY ==> old(data).len() + 8
                <= u32::MAX,
        ensures
            *final(self) == *old(self),
            final(data)@ == subdivided(old(data)@, old(self).index as int),
    {
        let i = self.index();
        if data[i].node_type == EMPTY {
            data[i].node_type = SUBDIVIDED;
            let base: usize = data.len();
            for k in 0..8usize
                invariant
                    i == self.index,
                    i < base,
                    base + 8 <= u32::MAX,
                    base == old(data).len(),
                    data.len() == base + k,
                    forall|j: int| 0 <= j < base && j != i ==> data[j] == old(data)[j],
                    data[i as int].node_type == SUBDIVIDED,
                    data[i as int].parent == old(data)[i as int].parent,
                    data[i as int].base_color == old(data)[i as int].base_color,
                    forall|j: int| 0 <= j < k ==> data[i as int].children[j] == base + j,
                    forall|j: int| base <= j < base + k ==> data[j] == blank_node(EMPTY, i as u32),
            {
                data[i].children[k] = data.len() as u32;
                data.push(TreeNode::new(EMPTY, i));
            }
            proof {
                let goal = subdivided(old(data)@, i as int);
                assert(data[i as int].children =~= child_block(base as int));
                assert(data@ =~= goal);
            }
        }
    }

    /// Goes one level down, into the child that holds the point.
    pub fn move_into_child(&mut self, data: &Vec<TreeNode>)
        requires
            old(self).can_step(data@),
        ensures
            *final(self) == old(self).stepped(data@),
    {
        self.span = self.span / 2;
        self.depth = self.depth + 1;
        let child_mask = TreeNode::get_child_mask(self.span, self.local_origin);
        self.origin_on_edge = shift(self.origin_on_edge, child_mask, self.span);
        self.local_origin = shift(self.local_origin, child_mask, -self.span);
        self.mask_in_parent[self.depth as usize] = child_mask;
        let space_index = Vector3 {
            x: child_mask.x as i64,
            y: child_mask.y as i64,
            z: child_mask.z as i64,
        }.to_index(2);
        self.parent = self.index;
        self.index = data[self.parent()].children[space_index];
        proof {
            let goal = old(self).stepped(data@);
            assert(self.mask_in_parent =~= goal.mask_in_parent);
        }
    }
}

impl Default for Octree {
    /// A tree of one node, the empty root, and no lights.
    fn default() -> (r: Self)
        ensures
            r.data@ == root_only(),
            r.light_data@ == Seq::<Traverse>::empty(),
            r.wf(),
    {
        let r = Octree { data: vec![TreeNode::default()], light_data: Vec::new() };
        assert(r.data@ =~= root_only());
        r
    }
}

impl Octree {
    /// The store has the shape that the operations of the tree keep.
    pub open spec fn wf(&self) -> bool {
        store_wf(self.data@)
    }

    /// Whether the store has room for `voxels` more insertions: places must
    /// fit in a `u32`.
    pub open spec fn has_room(&self, voxels: int) -> bool {
        self.data@.len() + voxels * nodes_per_voxel() <= u32::MAX
    }

    /// Whether the store has room for `voxels` more insertions.
    pub fn room_for(&self, voxels: u32) -> (r: bool)
        ensures
            r == self.has_room(voxels as int),
    {
        let each: u64 = 8 * (MAX_RECURSION as u64 - 1);
        let limit: u64 = u32::MAX as u64;
        let count = self.data.len() as u64;
        assert(voxels * nodes_per_voxel() == voxels * 128) by (nonlinear_arith)
            requires
                nodes_per_voxel() == 128,
        ;
        count <= limit && voxels as u64 * each <= limit - count
    }

    /// Whether the store has the shape that the operations of the tree
    /// keep, found out by going through it.
    pub fn is_well_formed(&self) -> (r: bool)
        ensures
            r == self.wf(),
    {
        let data = &self.data;
        let count = data.len();
        if count < 1 || count > u32::MAX as usize || data[0].parent != 0 {
            return false;
        }
        let mut depths: Vec<usize> = Vec::new();
        depths.push(0);
        let mut node: usize = 1;
        while node < count
            invariant
                1 <= node <= count,
                data@ == self.data@,
                count == data@.len(),
                count <= u32::MAX,
                depths@.len() == node,
                forall|i: int| 0 <= i < node ==> #[trigger] depths@[i] == node_depth(data@, i),
                forall|i: int| 0 <= i < node ==> #[trigger] node_depth(data@, i) < MAX_RECURSION,
                forall|i: int| 0 < i < node ==> (#[trigger] data@[i]).parent < i,
            decreases count - node,
        {
            let parent = data[node].parent as usize;
            if parent >= node {
                assert(!(data@[node as int].parent < node));
                return false;
            }
            let depth = depths[parent] + 1;
            assert(depth == node_depth(data@, node as int));
            if depth >= MAX_RECURSION {
                return false;
            }
            depths.push(depth);
            node += 1;
        }
        node = 0;
        while node < count
            invariant
                0 <= node <= count,
                data@ == self.data@,
                count == data@.len(),
                1 <= count <= u32::MAX,
                data@[0].parent == 0,
                depths@.len() == count,
                forall|i: int| 0 <= i < count ==> #[trigger] depths@[i] == node_depth(data@, i),
                forall|i: int| 0 <= i < count ==> #[trigger] node_depth(data@, i) < MAX_RECURSION,
                forall|i: int| 0 < i < count ==> (#[trigger] data@[i]).parent < i,
                forall|i: int|
                    0 <= i < node && #[trigger] node_depth(data@, i) < MAX_RECURSION - 1 ==> {
                        ||| (data@[i].node_type == EMPTY && childless(data@[i]))
                        ||| (data@[i].node_type == SUBDIVIDED && children_linked(data@, i))
                    },
                forall|i: int|
                    0 <= i < node && #[trigger] node_depth(data@, i) == MAX_RECURSION - 1
                        ==> childless(data@[i]),
            decreases count - node,
        {
            let here = &data[node];
            let inner = depths[node] < MAX_RECURSION - 1;
            if inner && here.node_type != EMPTY && here.node_type != SUBDIVIDED {
                assert(node_depth(data@, node as int) < MAX_RECURSION - 1);
                return false;
            }
            let linked = inner && here.node_type == SUBDIVIDED;
            let first = here.children[0] as u64;
            let mut place: usize = 0;
            while place < 8
                invariant
                    0 <= place <= 8,
                    0 <= node < count,
                    data@ == self.data@,
                    count == data@.len(),
                    count <= u32::MAX,
                    *here == data@[node as int],
                    first == here.children[0],
                    node_depth(data@, node as int) < MAX_RECURSION,
                    linked ==> node_depth(data@, node as int) < MAX_RECURSION - 1
                        && here.node_type == SUBDIVIDED,
                    !linked ==> here.node_type == EMPTY || node_depth(data@, node as int)
                        == MAX_RECURSION - 1,
                    linked ==> forall|k: int|
                        0 <= k < place ==> {
                            &&& node < (#[trigger] data@[node as int].children[k]) < count
                            &&& data@[node as int].children[k] == data@[node as int].children[0]
                                + k
                            &&& data@[data@[node as int].children[k] as int].parent == node
                        },
                    !linked ==> forall|k: int|
                        0 <= k < place ==> #[trigger] data@[node as int].children[k] == 0,
                decreases 8 - place,
            {
                let child = here.children[place] as usize;
                if linked {
                    if child <= node || child >= count || child as u64 != first + place as u64
                        || data[child].parent as usize != node {
                        assert(!children_linked(data@, node as int)) by {
                            let k = place as int;
                            assert(data@[node as int].children[k] == child);
                        }
                        assert(node_depth(data@, node as int) < MAX_RECURSION - 1);
                        return false;
                    }
                } else if child != 0 {
                    assert(!childless(data@[node as int])) by {
                        let k = place as int;
                        assert(data@[node as int].children[k] == child);
                    }
                    return false;
                }
                place += 1;
            }
            proof {
                if linked {
                    assert(children_linked(data@, node as int));
                } else {
                    assert(childless(data@[node as int]));
                }
            }
            node += 1;
        }
        true
    }

    /// The bytes of the node buffer: `NODE_BYTES` for each node.
    pub fn buffer_size(&self) -> (r: u64)
        requires
            self.wf(),
        ensures
            r == self.data@.len() * NODE_BYTES,
    {
        self.data.len() as u64 * NODE_BYTES
    }

    /// The cursor at the root for the point `pos`.
    fn seed(&self, pos: Vector4<i64>) -> (r: Traverse)
        requires
            self.wf(),
        ensures
            r == Traverse::seed(pos),
    {
        proof {
            lemma_seed(self.data@, pos);
        }
        let local_origin = pos.rem(ROOT_SPAN);
        Traverse {
            span: ROOT_SPAN,
            local_origin,
            origin_on_edge: pos.minus(local_origin),
            ..Traverse::default()
        }
    }

    /// The smallest cell of the tree that holds `pos`: the cursor goes down
    /// from the root while it stands on a subdivided node, and stops at the
    /// last level at the latest. The tree is left as it was.
    pub fn node_at_pos(&mut self, pos: Vector4<i64>) -> (r: Traverse)
        requires
            old(self).wf(),
        ensures
            *final(self) == *old(self),
            r == descent(old(self).data@, Traverse::seed(pos), (MAX_RECURSION - 1) as nat),
            r.index < old(self).data.len(),
            0 <= r.depth < MAX_RECURSION,
            r.depth == MAX_RECURSION - 1 || old(self).data[r.index as int].node_type != SUBDIVIDED,
            r.span == span_at(r.depth as nat),
            r.holds_point(pos),
    {
        let mut traverse = self.seed(pos);
        let mut level: usize = 1;
        proof {
            lemma_seed(self.data@, pos);
        }
        while level < MAX_RECURSION && traverse.node_type(&self.data) == SUBDIVIDED
            invariant
                *self == *old(self),
                self.wf(),
                1 <= level <= MAX_RECURSION,
                at_level(self.data@, traverse, (level - 1) as nat),
                traverse.holds_point(pos),
                descent(self.data@, Traverse::seed(pos), (MAX_RECURSION - 1) as nat) == descent(
                    self.data@,
                    traverse,
                    (MAX_RECURSION - level) as nat,
                ),
            decreases MAX_RECURSION - level,
        {
            proof {
                lemma_stepped(self.data@, traverse, (level - 1) as nat);
            }
            traverse.move_into_child(&self.data);
            level += 1;
        }
        traverse
    }

    /// Puts a voxel of the given type and colour at `insert_pos`. The path
    /// from the root to the last level is split where it was empty, each
    /// node below the root on it takes its share of the colour, and the node
    /// at its end is overwritten with the type and the colour.
    pub fn insert_node(
        &mut self,
        insert_pos: Vector4<i64>,
        base_color: Vector4<i64>,
        node_type: u32,
    ) -> (r: Traverse)
        requires
            old(self).wf(),
            old(self).has_room(1),
        ensures
            final(self).data@ == inserted(old(self).data@, insert_pos, base_color, node_type),
            r == landing(old(self).data@, insert_pos, base_color),
            final(self).light_data@ == old(self).light_data@,
            final(self).wf(),
            r.depth == MAX_RECURSION - 1,
            r.span == span_at((MAX_RECURSION - 1) as nat),
            r.holds_point(insert_pos),
            r.index < final(self).data.len(),
            final(self).data[r.index as int].node_type == node_type,
            final(self).data[r.index as int].base_color == base_color,
            old(self).data.len() <= final(self).data.len() <= old(self).data.len()
                + nodes_per_voxel(),
    {
        let mut traverse = self.seed(insert_pos);
        for level in 1..MAX_RECURSION
            invariant
                old(self).wf(),
                old(self).data.len() + 8 * (MAX_RECURSION - 1) <= u32::MAX,
                self.light_data@ == old(self).light_data@,
                (self.data@, traverse) == insertion(
                    old(self).data@,
                    Traverse::seed(insert_pos),
                    base_color,
                    (level - 1) as nat,
                ),
        {
            proof {
                lemma_insertion(old(self).data@, insert_pos, base_color, (level - 1) as nat);
                lemma_insertion(old(self).data@, insert_pos, base_color, level as nat);
                lemma_subdivided(self.data@, traverse.index as int);
                lemma_stepped(
                    subdivided(self.data@, traverse.index as int),
                    traverse,
                    (level - 1) as nat,
                );
                lemma_span_values(level as nat);
            }
            traverse.try_child_creation(&mut self.data);
            traverse.move_into_child(&self.data);
            traverse.update_color(&mut self.data, base_color)
        }
        proof {
            lemma_insertion(
                old(self).data@,
                insert_pos,
                base_color,
                (MAX_RECURSION - 1) as nat,
            );
            lemma_sealed(self.data@, traverse.index as int, base_color, node_type);
        }
        let terminal = traverse.index();
        self.data[terminal].set_full(base_color, node_type);
        assert(self.data@ =~= inserted(old(self).data@, insert_pos, base_color, node_type));
        traverse
    }

    /// Puts a light of the given colour at `insert_pos` and keeps the
    /// cursor that the insertion ended on.
    pub fn insert_light(&mut self, insert_pos: Vector4<i64>, light_color: Vector4<i64>)
        requires
            old(self).wf(),
            old(self).has_room(1),
        ensures
            final(self).data@ == inserted(old(self).data@, insert_pos, light_color, LIGHT),
            final(self).light_data@ == old(self).light_data@.push(
                landing(old(self).data@, insert_pos, light_color),
            ),
            final(self).wf(),
            old(self).data.len() <= final(self).data.len() <= old(self).data.len()
                + nodes_per_voxel(),
    {
        let traverse = self.insert_node(insert_pos, light_color, LIGHT);
        self.light_data.push(traverse);
    }
}

} // verus!
