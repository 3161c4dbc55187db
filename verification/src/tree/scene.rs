//! Bulk authoring: rows, sheets and blocks of voxels, and the demo room
//! built from them.

use crate::tree::laws::lemma_growth_bound;
use crate::tree::model::{inserted, inserted_all, landing, nodes_per_voxel, Voxel};
use crate::tree::octree::{Octree, TreeNode, COLOR_ONE, FULL, LIGHT};
use crate::vector::Vector4;
use vstd::prelude::*;

verus! {

/// One of the three axes of space.
#[derive(PartialEq, Eq, Structural, Clone, Copy, Debug)]
pub enum Axis {
    X,
    Y,
    Z,
}

/// `point` moved by `amount` along `axis`.
pub open spec fn nudged(point: Vector4<i64>, axis: Axis, amount: int) -> Vector4<i64> {
    match axis {
        Axis::X => Vector4 { x: (point.x + amount) as i64, ..point },
        Axis::Y => Vector4 { y: (point.y + amount) as i64, ..point },
        Axis::Z => Vector4 { z: (point.z + amount) as i64, ..point },
    }
}

/// The coordinate of `point` on `axis`.
pub open spec fn along(point: Vector4<i64>, axis: Axis) -> i64 {
    match axis {
        Axis::X => point.x,
        Axis::Y => point.y,
        Axis::Z => point.z,
    }
}

/// `count` voxels in a row along `axis`, from `corner` on.
pub open spec fn line(
    corner: Vector4<i64>,
    axis: Axis,
    count: nat,
    color: Vector4<i64>,
    node_type: u32,
) -> Seq<Voxel> {
    Seq::new(count, |i: int| (nudged(corner, axis, i), color, node_type))
}

/// `rows` lines side by side along `row_axis`, first to last.
pub open spec fn sheet(
    corner: Vector4<i64>,
    row_axis: Axis,
    rows: nat,
    axis: Axis,
    count: nat,
    color: Vector4<i64>,
    node_type: u32,
) -> Seq<Voxel>
    decreases rows,
{
    if rows == 0 {
        Seq::empty()
    } else {
        sheet(corner, row_axis, (rows - 1) as nat, axis, count, color, node_type) + line(
            nudged(corner, row_axis, rows - 1),
            axis,
            count,
            color,
            node_type,
        )
    }
}

/// `sheets` sheets stacked along `sheet_axis`, first to last.
pub open spec fn block(
    corner: Vector4<i64>,
    sheet_axis: Axis,
    sheets: nat,
    row_axis: Axis,
    rows: nat,
    axis: Axis,
    count: nat,
    color: Vector4<i64>,
    node_type: u32,
) -> Seq<Voxel>
    decreases sheets,
{
    if sheets == 0 {
        Seq::empty()
    } else {
        block(
            corner,
            sheet_axis,
            (sheets - 1) as nat,
            row_axis,
            rows,
            axis,
            count,
            color,
            node_type,
        ) + sheet(
            nudged(corner, sheet_axis, sheets - 1),
            row_axis,
            rows,
            axis,
            count,
            color,
            node_type,
        )
    }
}

/// A sheet holds `rows * count` voxels.
pub proof fn lemma_sheet_len(
    corner: Vector4<i64>,
    row_axis: Axis,
    rows: nat,
    axis: Axis,
    count: nat,
    color: Vector4<i64>,
    node_type: u32,
)
    ensures
        sheet(corner, row_axis, rows, axis, count, color, node_type).len() == rows * count,
    decreases rows,
{
    if rows > 0 {
        lemma_sheet_len(corner, row_axis, (rows - 1) as nat, axis, count, color, node_type);
        assert((rows - 1) * count + count == rows * count) by (nonlinear_arith);
    } else {
        assert(0 * count == 0) by (nonlinear_arith);
    }
}

/// A block holds `sheets * rows * count` voxels.
pub proof fn lemma_block_len(
    corner: Vector4<i64>,
    sheet_axis: Axis,
    sheets: nat,
    row_axis: Axis,
    rows: nat,
    axis: Axis,
    count: nat,
    color: Vector4<i64>,
    node_type: u32,
)
    ensures
        block(corner, sheet_axis, sheets, row_axis, rows, axis, count, color, node_type).len()
            == sheets * (rows * count),
    decreases sheets,
{
    if sheets > 0 {
        lemma_block_len(
            corner,
            sheet_axis,
            (sheets - 1) as nat,
            row_axis,
            rows,
            axis,
            count,
            color,
            node_type,
        );
        lemma_sheet_len(
            nudged(corner, sheet_axis, sheets - 1),
            row_axis,
            rows,
            axis,
            count,
            color,
            node_type,
        );
        assert((sheets - 1) * (rows * count) + rows * count == sheets * (rows * count))
            by (nonlinear_arith);
    } else {
        assert(0 * (rows * count) == 0) by (nonlinear_arith);
    }
}

/// Inserting one list and then another is inserting the two as one.
pub proof fn lemma_inserted_all_concat(data: Seq<TreeNode>, first: Seq<Voxel>, second: Seq<Voxel>)
    ensures
        inserted_all(data, first + second) == inserted_all(inserted_all(data, first), second),
    decreases second.len(),
{
    if second.len() == 0 {
        assert(first + second =~= first);
    } else {
        assert((first + second).drop_last() =~= first + second.drop_last());
        assert((first + second).last() == second.last());
        lemma_inserted_all_concat(data, first, second.drop_last());
    }
}

/// Inserting a list and then one voxel more is inserting the longer list.
pub proof fn lemma_inserted_all_push(data: Seq<TreeNode>, voxels: Seq<Voxel>, voxel: Voxel)
    ensures
        inserted_all(data, voxels.push(voxel)) == inserted(
            inserted_all(data, voxels),
            voxel.0,
            voxel.1,
            voxel.2,
        ),
{
    assert(voxels.push(voxel).drop_last() =~= voxels);
    assert(voxels.push(voxel).last() == voxel);
}

/// The colour with the given channels at full strength (1) or off (0).
pub open spec fn flat_color(red: int, green: int, blue: int) -> Vector4<i64> {
    Vector4 {
        x: (red * COLOR_ONE) as i64,
        y: (green * COLOR_ONE) as i64,
        z: (blue * COLOR_ONE) as i64,
        w: 0,
    }
}

/// The point `(x, y, z)` of space.
pub open spec fn at(x: i64, y: i64, z: i64) -> Vector4<i64> {
    Vector4 { x, y, z, w: 0 }
}

/// The floor.
pub open spec fn ground() -> Seq<Voxel> {
    sheet(at(100, 100, 100), Axis::X, 100, Axis::Z, 100, flat_color(1, 1, 1), FULL)
}

/// The wall at the low end of x.
pub open spec fn green_wall() -> Seq<Voxel> {
    sheet(at(100, 100, 100), Axis::Z, 100, Axis::Y, 100, flat_color(0, 1, 0), FULL)
}

/// The wall at the high end of x.
pub open spec fn red_wall() -> Seq<Voxel> {
    sheet(at(200, 100, 100), Axis::Z, 100, Axis::Y, 100, flat_color(1, 0, 0), FULL)
}

/// The wall at the high end of z.
pub open spec fn back_wall() -> Seq<Voxel> {
    sheet(at(100, 100, 200), Axis::X, 100, Axis::Y, 100, flat_color(1, 1, 1), FULL)
}

/// The ceiling.
pub open spec fn ceiling() -> Seq<Voxel> {
    sheet(at(100, 200, 100), Axis::X, 100, Axis::Z, 100, flat_color(1, 1, 1), FULL)
}

/// The box that stands on the floor.
pub open spec fn blue_box() -> Seq<Voxel> {
    block(
        at(140, 100, 140),
        Axis::X,
        20,
        Axis::Z,
        20,
        Axis::Y,
        20,
        flat_color(0, 0, 1),
        FULL,
    )
}

/// Where the light hangs.
pub open spec fn light_pos() -> Vector4<i64> {
    at(150, 180, 150)
}

/// The colour of the light.
pub open spec fn light_color() -> Vector4<i64> {
    flat_color(1, 1, 0)
}

/// The solid voxels of the demo room, in the order of their insertion.
pub open spec fn room() -> Seq<Voxel> {
    ground() + green_wall() + red_wall() + back_wall() + ceiling() + blue_box()
}

/// The demo room and its light.
pub open spec fn scene() -> Seq<Voxel> {
    room().push((light_pos(), light_color(), LIGHT))
}

/// The number of voxels of the demo room, its light included.
pub const SCENE_VOXELS: u32 = 58001;

/// The demo room holds `SCENE_VOXELS` voxels.
pub proof fn lemma_scene_len()
    ensures
        scene().len() == SCENE_VOXELS,
        room().len() == SCENE_VOXELS - 1,
{
    lemma_sheet_len(at(100, 100, 100), Axis::X, 100, Axis::Z, 100, flat_color(1, 1, 1), FULL);
    lemma_sheet_len(at(100, 100, 100), Axis::Z, 100, Axis::Y, 100, flat_color(0, 1, 0), FULL);
    lemma_sheet_len(at(200, 100, 100), Axis::Z, 100, Axis::Y, 100, flat_color(1, 0, 0), FULL);
    lemma_sheet_len(at(100, 100, 200), Axis::X, 100, Axis::Y, 100, flat_color(1, 1, 1), FULL);
    lemma_sheet_len(at(100, 200, 100), Axis::X, 100, Axis::Z, 100, flat_color(1, 1, 1), FULL);
    lemma_block_len(
        at(140, 100, 140),
        Axis::X,
        20,
        Axis::Z,
        20,
        Axis::Y,
        20,
        flat_color(0, 0, 1),
        FULL,
    );
}

fn nudge(point: Vector4<i64>, axis: Axis, amount: u32) -> (r: Vector4<i64>)
    requires
        along(point, axis) + amount <= i64::MAX,
    ensures
        r == nudged(point, axis, amount as int),
{
    match axis {
        Axis::X => Vector4 { x: point.x + amount as i64, ..point },
        Axis::Y => Vector4 { y: point.y + amount as i64, ..point },
        Axis::Z => Vector4 { z: point.z + amount as i64, ..point },
    }
}

impl Octree {
    /// Inserts `count` voxels of one colour and type in a row along `axis`,
    /// from `corner` on.
    pub fn insert_line(
        &mut self,
        corner: Vector4<i64>,
        axis: Axis,
        count: u32,
        color: Vector4<i64>,
        node_type: u32,
    )
        requires
            old(self).wf(),
            old(self).has_room(count as int),
            along(corner, axis) + count <= i64::MAX,
        ensures
            final(self).data@ == inserted_all(
                old(self).data@,
                line(corner, axis, count as nat, color, node_type),
            ),
            final(self).light_data@ == old(self).light_data@,
            final(self).wf(),
            old(self).data.len() <= final(self).data.len() <= old(self).data.len() + count
                * nodes_per_voxel(),
    {
        let ghost all = line(corner, axis, count as nat, color, node_type);
        assert(all.take(0) =~= Seq::<Voxel>::empty());
        for done in 0..count
            invariant
                old(self).wf(),
                old(self).has_room(count as int),
                along(corner, axis) + count <= i64::MAX,
                all == line(corner, axis, count as nat, color, node_type),
                self.data@ == inserted_all(old(self).data@, all.take(done as int)),
                self.light_data@ == old(self).light_data@,
        {
            proof {
                let so_far = all.take(done as int);
                assert(done * nodes_per_voxel() + nodes_per_voxel() <= count * nodes_per_voxel())
                    by (nonlinear_arith)
                    requires
                        done < count,
                        0 <= nodes_per_voxel(),
                ;
                lemma_growth_bound(old(self).data@, so_far);
                assert(all.take(done + 1) =~= so_far.push(all[done as int]));
                lemma_inserted_all_push(old(self).data@, so_far, all[done as int]);
            }
            self.insert_node(nudge(corner, axis, done), color, node_type);
        }
        proof {
            assert(all.take(count as int) =~= all);
            lemma_growth_bound(old(self).data@, all);
        }
    }

    /// Inserts `rows` lines of `count` voxels side by side along
    /// `row_axis`.
    pub fn insert_sheet(
        &mut self,
        corner: Vector4<i64>,
        row_axis: Axis,
        rows: u32,
        axis: Axis,
        count: u32,
        color: Vector4<i64>,
        node_type: u32,
    )
        requires
            old(self).wf(),
            old(self).has_room(rows * count),
            along(corner, row_axis) + rows <= i64::MAX,
            along(corner, axis) + count <= i64::MAX,
            row_axis != axis,
        ensures
            final(self).data@ == inserted_all(
                old(self).data@,
                sheet(corner, row_axis, rows as nat, axis, count as nat, color, node_type),
            ),
            final(self).light_data@ == old(self).light_data@,
            final(self).wf(),
            old(self).data.len() <= final(self).data.len() <= old(self).data.len() + rows * count
                * nodes_per_voxel(),
    {
        for done in 0..rows
            invariant
                old(self).wf(),
                old(self).has_room(rows * count),
                along(corner, row_axis) + rows <= i64::MAX,
                along(corner, axis) + count <= i64::MAX,
                row_axis != axis,
                self.data@ == inserted_all(
                    old(self).data@,
                    sheet(corner, row_axis, done as nat, axis, count as nat, color, node_type),
                ),
                self.light_data@ == old(self).light_data@,
        {
            proof {
                let so_far = sheet(
                    corner,
                    row_axis,
                    done as nat,
                    axis,
                    count as nat,
                    color,
                    node_type,
                );
                let next = line(
                    nudged(corner, row_axis, done as int),
                    axis,
                    count as nat,
                    color,
                    node_type,
                );
                lemma_sheet_len(corner, row_axis, done as nat, axis, count as nat, color, node_type);
                assert(done * count * nodes_per_voxel() + count * nodes_per_voxel() <= rows * count
                    * nodes_per_voxel() && 0 <= done * count) by (nonlinear_arith)
                    requires
                        done < rows,
                        0 <= count,
                        0 <= nodes_per_voxel(),
                ;
                lemma_growth_bound(old(self).data@, so_far);
                lemma_inserted_all_concat(old(self).data@, so_far, next);
            }
            self.insert_line(nudge(corner, row_axis, done), axis, count, color, node_type);
        }
        proof {
            let all = sheet(corner, row_axis, rows as nat, axis, count as nat, color, node_type);
            lemma_sheet_len(corner, row_axis, rows as nat, axis, count as nat, color, node_type);
            lemma_growth_bound(old(self).data@, all);
        }
    }

    /// Inserts `sheets` sheets of `rows` lines of `count` voxels, stacked
    /// along `sheet_axis`.
    pub fn insert_block(
        &mut self,
        corner: Vector4<i64>,
        sheet_axis: Axis,
        sheets: u32,
        row_axis: Axis,
        rows: u32,
        axis: Axis,
        count: u32,
        color: Vector4<i64>,
        node_type: u32,
    )
        requires
            old(self).wf(),
            old(self).has_room(sheets * (rows * count)),
            along(corner, sheet_axis) + sheets <= i64::MAX,
            along(corner, row_axis) + rows <= i64::MAX,
            along(corner, axis) + count <= i64::MAX,
            sheet_axis != row_axis && sheet_axis != axis && row_axis != axis,
        ensures
            final(self).data@ == inserted_all(
                old(self).data@,
                block(
                    corner,
                    sheet_axis,
                    sheets as nat,
                    row_axis,
                    rows as nat,
                    axis,
                    count as nat,
                    color,
                    node_type,
                ),
            ),
            final(self).light_data@ == old(self).light_data@,
            final(self).wf(),
            old(self).data.len() <= final(self).data.len() <= old(self).data.len() + sheets * (rows
                * count) * nodes_per_voxel(),
    {
        for done in 0..sheets
            invariant
                old(self).wf(),
                old(self).has_room(sheets * (rows * count)),
                along(corner, sheet_axis) + sheets <= i64::MAX,
                along(corner, row_axis) + rows <= i64::MAX,
                along(corner, axis) + count <= i64::MAX,
                sheet_axis != row_axis && sheet_axis != axis && row_axis != axis,
                self.data@ == inserted_all(
                    old(self).data@,
                    block(
                        corner,
                        sheet_axis,
                        done as nat,
                        row_axis,
                        rows as nat,
                        axis,
                        count as nat,
                        color,
                        node_type,
                    ),
                ),
                self.light_data@ == old(self).light_data@,
        {
            proof {
                let so_far = block(
                    corner,
                    sheet_axis,
                    done as nat,
                    row_axis,
                    rows as nat,
                    axis,
                    count as nat,
                    color,
                    node_type,
                );
                let next = sheet(
                    nudged(corner, sheet_axis, done as int),
                    row_axis,
                    rows as nat,
                    axis,
                    count as nat,
                    color,
                    node_type,
                );
                lemma_block_len(
                    corner,
                    sheet_axis,
                    done as nat,
                    row_axis,
                    rows as nat,
                    axis,
                    count as nat,
                    color,
                    node_type,
                );
                assert(done * (rows * count) * nodes_per_voxel() + rows * count * nodes_per_voxel()
                    <= sheets * (rows * count) * nodes_per_voxel() && 0 <= done * (rows * count))
                    by (nonlinear_arith)
                    requires
                        done < sheets,
                        0 <= rows,
                        0 <= count,
                        0 <= nodes_per_voxel(),
                ;
                lemma_growth_bound(old(self).data@, so_far);
                lemma_inserted_all_concat(old(self).data@, so_far, next);
            }
            self.insert_sheet(
                nudge(corner, sheet_axis, done),
                row_axis,
                rows,
                axis,
                count,
                color,
                node_type,
            );
        }
        proof {
            let all = block(
                corner,
                sheet_axis,
                sheets as nat,
                row_axis,
                rows as nat,
                axis,
                count as nat,
                color,
                node_type,
            );
            lemma_block_len(
                corner,
                sheet_axis,
                sheets as nat,
                row_axis,
                rows as nat,
                axis,
                count as nat,
                color,
                node_type,
            );
            lemma_growth_bound(old(self).data@, all);
        }
    }

    /// Builds the demo room: a floor, two side walls, a back wall and a
    /// ceiling of a hundred voxels a side, a blue box of twenty on the
    /// floor, and one light under the ceiling.
    pub fn test_scene(&mut self)
        requires
            old(self).wf(),
            old(self).has_room(SCENE_VOXELS as int),
        ensures
            final(self).data@ == inserted_all(old(self).data@, scene()),
            final(self).light_data@ == old(self).light_data@.push(
                landing(inserted_all(old(self).data@, room()), light_pos(), light_color()),
            ),
            final(self).wf(),
            old(self).data.len() <= final(self).data.len() <= old(self).data.len() + SCENE_VOXELS
                * nodes_per_voxel(),
    {
        let white = Vector4::new(COLOR_ONE, COLOR_ONE, COLOR_ONE, 0);
        let green = Vector4::new(0, COLOR_ONE, 0, 0);
        let red = Vector4::new(COLOR_ONE, 0, 0, 0);
        let blue = Vector4::new(0, 0, COLOR_ONE, 0);
        let ghost start = self.data@;
        proof {
            lemma_scene_len();
            assert(SCENE_VOXELS * nodes_per_voxel() == 58001 * 128) by (nonlinear_arith)
                requires
                    SCENE_VOXELS == 58001,
                    nodes_per_voxel() == 128,
            ;
        }
        // Ground
        self.insert_sheet(Vector4::new(100, 100, 100, 0), Axis::X, 100, Axis::Z, 100, white, FULL);
        // Green wall
        self.insert_sheet(Vector4::new(100, 100, 100, 0), Axis::Z, 100, Axis::Y, 100, green, FULL);
        proof {
            lemma_inserted_all_concat(start, ground(), green_wall());
        }
        // Red wall
        self.insert_sheet(Vector4::new(200, 100, 100, 0), Axis::Z, 100, Axis::Y, 100, red, FULL);
        proof {
            lemma_inserted_all_concat(start, ground() + green_wall(), red_wall());
        }
        // Back wall
        self.insert_sheet(Vector4::new(100, 100, 200, 0), Axis::X, 100, Axis::Y, 100, white, FULL);
        proof {
            lemma_inserted_all_concat(
                start,
                ground() + green_wall() + red_wall(),
                back_wall(),
            );
        }
        // Ceiling
        self.insert_sheet(Vector4::new(100, 200, 100, 0), Axis::X, 100, Axis::Z, 100, white, FULL);
        proof {
            lemma_inserted_all_concat(
                start,
                ground() + green_wall() + red_wall() + back_wall(),
                ceiling(),
            );
        }
        // Box
        self.insert_block(
            Vector4::new(140, 100, 140, 0),
            Axis::X,
            20,
            Axis::Z,
            20,
            Axis::Y,
            20,
            blue,
            FULL,
        );
        proof {
            lemma_inserted_all_concat(
                start,
                ground() + green_wall() + red_wall() + back_wall() + ceiling(),
                blue_box(),
            );
            lemma_inserted_all_push(start, room(), (light_pos(), light_color(), LIGHT));
        }
        // Light
        let light_color = Vector4::new(COLOR_ONE, COLOR_ONE, 0, 0);
        self.insert_light(Vector4::new(150, 180, 150, 0), light_color);
    }
}

} // verus!
