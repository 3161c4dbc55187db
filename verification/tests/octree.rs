use voxel_octree::tree::octree::{
    Octree, Traverse, TreeNode, COLOR_ONE, EMPTY, FULL, LIGHT, MAX_RECURSION, ROOT_SPAN, SUBDIVIDED,
};
use voxel_octree::vector::Vector4;

const LAST: usize = MAX_RECURSION - 1;

fn white() -> Vector4<i64> {
    Vector4::new(COLOR_ONE, COLOR_ONE, COLOR_ONE, 0)
}

fn zero() -> Vector4<i64> {
    Vector4::new(0, 0, 0, 0)
}

/// The nodes from the root to `cursor`, root first.
fn path_of(octree: &Octree, cursor: &Traverse) -> Vec<usize> {
    let mut path = vec![cursor.index()];
    let mut node = cursor.index();
    while node != 0 {
        node = octree.data[node].parent as usize;
        path.push(node);
    }
    path.reverse();
    path
}

#[test]
fn new_tree_is_one_empty_root() {
    let octree = Octree::default();
    assert_eq!(octree.data, vec![TreeNode::default()]);
    assert!(octree.light_data.is_empty());
}

#[test]
fn empty_tree_query_returns_root() {
    for pos in [
        Vector4::new(100, 100, 100, 0),
        zero(),
        Vector4::new(-1, -2, -3, 0),
        Vector4::new(ROOT_SPAN, ROOT_SPAN - 1, ROOT_SPAN + 1, 0),
        Vector4::new(i64::MAX, i64::MIN, 0, 0),
    ] {
        let mut octree = Octree::default();
        let cursor = octree.node_at_pos(pos);
        assert_eq!(cursor.index, 0);
        assert_eq!(cursor.depth, 0);
        assert_eq!(cursor.span, ROOT_SPAN);
        assert_eq!(cursor.node_type(&octree.data), EMPTY);
        assert_eq!(octree.data, vec![TreeNode::default()]);
        assert!(octree.light_data.is_empty());
    }
}

#[test]
fn query_seeds_the_frame_from_the_point() {
    let mut octree = Octree::default();
    let cursor = octree.node_at_pos(Vector4::new(131172, -131172, 5, -7));
    assert_eq!(cursor.local_origin, Vector4::new(100, -100, 5, -7));
    assert_eq!(cursor.origin_on_edge, Vector4::new(131072, -131072, 0, 0));
    let far = octree.node_at_pos(Vector4::new(i64::MAX, i64::MIN, 0, 0));
    assert_eq!(far.local_origin, Vector4::new(131071, 0, 0, 0));
    assert_eq!(far.origin_on_edge, Vector4::new(i64::MAX - 131071, i64::MIN, 0, 0));
}

#[test]
fn insertion_reaches_the_last_level() {
    for pos in [
        Vector4::new(100, 100, 100, 0),
        zero(),
        Vector4::new(-9, 5, 131071, 0),
        Vector4::new(i64::MAX, i64::MIN, 77, 3),
    ] {
        let mut octree = Octree::default();
        let cursor = octree.insert_node(pos, white(), FULL);
        assert_eq!(cursor.depth as usize, LAST);
        assert_eq!(cursor.span, ROOT_SPAN / (1 << LAST));
        assert_eq!(cursor.span, 2);
        assert_eq!(path_of(&octree, &cursor).len(), LAST + 1);
        assert_eq!(octree.data[cursor.index()].parent, cursor.parent);
    }
}

#[test]
fn insertion_into_a_new_tree_splits_every_level() {
    let mut octree = Octree::default();
    let cursor = octree.insert_node(Vector4::new(100, 100, 100, 0), white(), FULL);
    assert_eq!(octree.data.len(), 1 + 8 * LAST);
    // 100 = 64 + 32 + 4: the upper child at the levels of edge 64, 32 and 4
    let mut expected_path = vec![0usize];
    for level in 1..=LAST {
        let place = if level == 11 || level == 12 || level == 15 { 7 } else { 0 };
        expected_path.push(1 + 8 * (level - 1) + place);
    }
    assert_eq!(path_of(&octree, &cursor), expected_path);
    assert_eq!(cursor.index, 121);
    assert_eq!(cursor.parent, 120);
    assert_eq!(cursor.local_origin, zero());
    assert_eq!(cursor.origin_on_edge, Vector4::new(100, 100, 100, 0));
    for level in 0..MAX_RECURSION {
        let upper = level == 11 || level == 12 || level == 15;
        let mask = if upper { Vector4::new(1, 1, 1, 0) } else { Vector4::new(0, 0, 0, 0) };
        assert_eq!(cursor.mask_in_parent[level], mask);
    }
    for level in 0..LAST {
        let node = octree.data[expected_path[level]];
        assert_eq!(node.node_type, SUBDIVIDED);
        let base = (1 + 8 * level) as u32;
        assert_eq!(
            node.children,
            [base, base + 1, base + 2, base + 3, base + 4, base + 5, base + 6, base + 7]
        );
    }
    for (index, node) in octree.data.iter().enumerate() {
        if !expected_path.contains(&index) {
            let parent = expected_path[(index - 1) / 8] as usize;
            assert_eq!(*node, TreeNode::new(EMPTY, parent));
        }
    }
}

#[test]
fn insertion_overwrites_the_leaf_and_tints_the_way() {
    let mut octree = Octree::default();
    let pos = Vector4::new(100, 100, 100, 0);
    let cursor = octree.insert_node(pos, white(), FULL);
    let path = path_of(&octree, &cursor);
    assert_eq!(octree.data[path[LAST]].node_type, FULL);
    assert_eq!(octree.data[path[LAST]].base_color, white());
    assert_eq!(octree.data[path[LAST]].children, [0; 8]);
    // the root keeps its colour
    assert_eq!(octree.data[0].base_color, zero());
    for level in 1..LAST {
        let span = ROOT_SPAN >> level;
        let share = COLOR_ONE / span;
        assert_eq!(share, 1 << level);
        assert_eq!(octree.data[path[level]].base_color, Vector4::new(share, share, share, 0));
    }
}

#[test]
fn insertion_adds_to_what_the_way_held() {
    let mut octree = Octree::default();
    let pos = Vector4::new(100, 100, 100, 0);
    octree.insert_node(pos, white(), FULL);
    let before = octree.data.clone();
    let color = Vector4::new(3 * COLOR_ONE, -COLOR_ONE, 5, 131071);
    let cursor = octree.insert_node(pos, color, LIGHT);
    let path = path_of(&octree, &cursor);
    assert_eq!(octree.data.len(), before.len());
    assert_eq!(octree.data[0], before[0]);
    for level in 1..LAST {
        let span = ROOT_SPAN >> level;
        let node = path[level];
        let held = before[node].base_color;
        assert_eq!(
            octree.data[node].base_color,
            Vector4::new(
                held.x + 3 * COLOR_ONE / span,
                held.y - COLOR_ONE / span,
                held.z + 5 / span,
                held.w + 131071 / span
            )
        );
        assert_eq!(octree.data[node].node_type, SUBDIVIDED);
        assert_eq!(octree.data[node].children, before[node].children);
    }
    assert_eq!(octree.data[path[LAST]].base_color, color);
    assert_eq!(octree.data[path[LAST]].node_type, LIGHT);
    for (index, node) in octree.data.iter().enumerate() {
        if !path.contains(&index) {
            assert_eq!(*node, before[index]);
        }
    }
}

#[test]
fn repeated_insertion_doubles_the_way_and_keeps_the_leaf() {
    let mut octree = Octree::default();
    let pos = Vector4::new(100, 100, 100, 0);
    let first = octree.insert_node(pos, white(), FULL);
    let once = octree.data.clone();
    let second = octree.insert_node(pos, white(), FULL);
    assert_eq!(first, second);
    assert_eq!(octree.data.len(), once.len());
    let path = path_of(&octree, &second);
    for level in 1..LAST {
        let held = once[path[level]].base_color;
        assert_eq!(
            octree.data[path[level]].base_color,
            Vector4::new(2 * held.x, 2 * held.y, 2 * held.z, 0)
        );
    }
    assert_eq!(octree.data[path[LAST]].base_color, white());
    assert_eq!(octree.data[0].base_color, zero());
}

#[test]
fn query_after_insertion_finds_the_leaf() {
    let mut octree = Octree::default();
    let pos = Vector4::new(100, 100, 100, 0);
    let inserted = octree.insert_node(pos, white(), FULL);
    let snapshot = octree.data.clone();
    let found = octree.node_at_pos(pos);
    assert_eq!(found, inserted);
    assert_eq!(found.node_type(&octree.data), FULL);
    assert_eq!(octree.data[found.index()].base_color, white());
    assert_eq!(octree.data, snapshot);
    // the same cell of edge 2
    assert_eq!(octree.node_at_pos(Vector4::new(101, 101, 101, 0)).index, inserted.index);
}

#[test]
fn insert_full_voxel_scenario() {
    let mut octree = Octree::default();
    let pos = Vector4::new(100, 100, 100, 0);
    let color = Vector4::new(COLOR_ONE, COLOR_ONE, COLOR_ONE, 0);
    octree.insert_node(pos, color, FULL);
    let found = octree.node_at_pos(pos);
    let node = octree.data[found.index()];
    assert_eq!(node.node_type, FULL);
    assert_eq!(node.base_color, color);
    // colour is left on the way below the root: the root's child holds the
    // colour over its edge, the root itself nothing
    let below_root = octree.data[octree.data[0].children[0] as usize];
    assert_eq!(below_root.base_color, Vector4::new(2, 2, 2, 0));
    assert_eq!(below_root.base_color, color.quot(ROOT_SPAN / 2));
    assert_eq!(octree.data[0].base_color, zero());
    // in floating point
    let unit = COLOR_ONE as f64;
    assert_eq!(node.base_color.x as f64 / unit, 1.0);
    assert_eq!(below_root.base_color.x as f64 / unit, 1.0 / (ROOT_SPAN as f64 / 2.0));
}

#[test]
fn query_stops_at_the_first_node_that_is_not_subdivided() {
    let mut octree = Octree::default();
    octree.insert_node(Vector4::new(100, 100, 100, 0), white(), FULL);
    // leaves the way of the insertion at the first level
    let far = octree.node_at_pos(Vector4::new(70000, 0, 0, 0));
    assert_eq!(far.index, 2);
    assert_eq!(far.parent, 0);
    assert_eq!(far.depth, 1);
    assert_eq!(far.span, 65536);
    assert_eq!(far.node_type(&octree.data), EMPTY);
    assert_eq!(far.local_origin, Vector4::new(4464, 0, 0, 0));
    assert_eq!(far.origin_on_edge, Vector4::new(65536, 0, 0, 0));
    // leaves it at the level of edge 64
    let near = octree.node_at_pos(zero());
    assert_eq!(near.index, 81);
    assert_eq!(near.depth, 11);
    assert_eq!(near.span, 64);
    assert_eq!(near.node_type(&octree.data), EMPTY);
    // a sibling of the leaf, on the last level
    let sibling = octree.node_at_pos(Vector4::new(102, 100, 100, 0));
    assert_eq!(sibling.index, 122);
    assert_eq!(sibling.depth as usize, LAST);
    assert_eq!(sibling.node_type(&octree.data), EMPTY);
}

#[test]
fn query_stops_at_the_last_level_whatever_the_leaf_holds() {
    for node_type in [EMPTY, SUBDIVIDED, FULL, LIGHT, 77] {
        let mut octree = Octree::default();
        let pos = Vector4::new(5, 6, 7, 0);
        let inserted = octree.insert_node(pos, white(), node_type);
        let found = octree.node_at_pos(pos);
        assert_eq!(found, inserted);
        assert_eq!(found.node_type(&octree.data), node_type);
        // and a later insertion goes the same way
        let size = octree.data.len();
        let again = octree.insert_node(pos, white(), FULL);
        assert_eq!(again, inserted);
        assert_eq!(octree.data.len(), size);
    }
}

#[test]
fn growth_is_bounded_by_eight_nodes_a_level() {
    let mut octree = Octree::default();
    let points = [
        Vector4::new(100, 100, 100, 0),
        Vector4::new(70000, 70000, 70000, 0),
        Vector4::new(100, 70000, 100, 0),
        Vector4::new(70000, 100, 70000, 0),
    ];
    for (done, pos) in points.iter().enumerate() {
        let before = octree.data.len();
        octree.insert_node(*pos, white(), FULL);
        let grown = octree.data.len() - before;
        assert!(grown <= 8 * LAST);
        // the root is split by the first insertion only
        assert_eq!(grown, if done == 0 { 8 * LAST } else { 8 * (LAST - 1) });
    }
    assert!(octree.data.len() - 1 <= points.len() * 8 * LAST);
    assert_eq!(octree.data.len(), 1 + 8 * LAST + 3 * 8 * (LAST - 1));
}

#[test]
fn neighbours_share_the_way() {
    let mut octree = Octree::default();
    octree.insert_node(Vector4::new(100, 100, 100, 0), white(), FULL);
    let before = octree.data.len();
    // same cell of edge 4, other cell of edge 2
    let next = octree.insert_node(Vector4::new(102, 100, 100, 0), white(), LIGHT);
    assert_eq!(octree.data.len(), before);
    assert_eq!(next.index, 122);
    // other cell of edge 4: one split more
    octree.insert_node(Vector4::new(96, 100, 100, 0), white(), FULL);
    assert_eq!(octree.data.len(), before + 8);
    // other cell of edge 8: two splits more
    octree.insert_node(Vector4::new(104, 100, 100, 0), white(), FULL);
    assert_eq!(octree.data.len(), before + 24);
    assert_eq!(octree.node_at_pos(Vector4::new(100, 100, 100, 0)).node_type(&octree.data), FULL);
    assert_eq!(octree.node_at_pos(Vector4::new(102, 100, 100, 0)).node_type(&octree.data), LIGHT);
}

#[test]
fn reinsertion_adds_no_node() {
    let mut octree = Octree::default();
    let pos = Vector4::new(-40000, 90000, 12345, 6);
    octree.insert_node(pos, white(), FULL);
    let size = octree.data.len();
    for node_type in [EMPTY, SUBDIVIDED, FULL, LIGHT] {
        octree.insert_node(pos, Vector4::new(1, 2, 3, 4), node_type);
        assert_eq!(octree.data.len(), size);
    }
}

#[test]
fn every_subdivided_node_has_its_children_behind_it() {
    let mut octree = Octree::default();
    for step in 0..40i64 {
        let pos = Vector4::new(step * 3001, 131071 - step * 977, (step * step * 83) % 131072, 0);
        octree.insert_node(pos, white(), if step % 2 == 0 { FULL } else { LIGHT });
    }
    assert_eq!(octree.data[0].parent, 0);
    for (index, node) in octree.data.iter().enumerate() {
        if index > 0 {
            assert!((node.parent as usize) < index);
        }
        if node.node_type == SUBDIVIDED {
            for child in node.children {
                assert!(index < child as usize && (child as usize) < octree.data.len());
                assert_eq!(octree.data[child as usize].parent as usize, index);
            }
        } else {
            assert_eq!(node.children, [0; 8]);
        }
    }
}

#[test]
fn points_below_zero_go_into_the_first_child() {
    let mut octree = Octree::default();
    let cursor = octree.insert_node(Vector4::new(-5, -5, -5, 0), white(), FULL);
    assert_eq!(cursor.index as usize, 1 + 8 * (LAST - 1));
    assert_eq!(cursor.local_origin, Vector4::new(-5, -5, -5, 0));
    assert_eq!(cursor.origin_on_edge, zero());
    assert_eq!(octree.node_at_pos(Vector4::new(-5, -5, -5, 0)), cursor);
}

#[test]
fn points_a_root_edge_apart_share_a_leaf() {
    let mut octree = Octree::default();
    let near = octree.insert_node(Vector4::new(100, 100, 100, 0), white(), FULL);
    let size = octree.data.len();
    let far = octree.insert_node(Vector4::new(100 + ROOT_SPAN, 100, 100 + 3 * ROOT_SPAN, 0), white(), LIGHT);
    assert_eq!(far.index, near.index);
    assert_eq!(octree.data.len(), size);
    assert_eq!(far.origin_on_edge, Vector4::new(100 + ROOT_SPAN, 100, 100 + 3 * ROOT_SPAN, 0));
    assert_eq!(far.local_origin, zero());
}

#[test]
fn frame_adds_up_to_the_point() {
    let mut octree = Octree::default();
    for pos in [
        Vector4::new(12345, 54321, 99999, 7),
        Vector4::new(-12345, 131071, 0, -7),
        Vector4::new(i64::MAX, i64::MAX - 1, i64::MIN, i64::MIN + 1),
    ] {
        let cursor = octree.insert_node(pos, white(), FULL);
        assert_eq!(cursor.origin_on_edge.plus(cursor.local_origin), pos);
        let found = octree.node_at_pos(pos);
        assert_eq!(found.origin_on_edge.plus(found.local_origin), pos);
    }
}

#[test]
fn colour_on_the_way_stops_at_the_end_of_the_range() {
    let mut octree = Octree::default();
    let pos = Vector4::new(1, 1, 1, 0);
    let color = Vector4::new(i64::MAX, i64::MIN, 0, 0);
    let mut cursor = octree.insert_node(pos, color, FULL);
    for _ in 0..4 {
        cursor = octree.insert_node(pos, color, FULL);
    }
    // five shares of a quarter each
    let above = octree.data[cursor.parent()];
    assert_eq!(above.base_color, Vector4::new(i64::MAX, i64::MIN, 0, 0));
    let path = path_of(&octree, &cursor);
    let higher = octree.data[path[LAST - 2]];
    assert_eq!(higher.base_color, Vector4::new(5 * (i64::MAX / 8), 5 * (i64::MIN / 8), 0, 0));
    assert_eq!(octree.data[cursor.index()].base_color, color);
}

#[test]
fn insert_light_keeps_the_cursor() {
    let mut octree = Octree::default();
    let pos = Vector4::new(150, 180, 150, 0);
    let color = Vector4::new(COLOR_ONE, COLOR_ONE, 0, 0);
    octree.insert_light(pos, color);
    assert_eq!(octree.light_data.len(), 1);
    let kept = octree.light_data[0];
    assert_eq!(kept.depth as usize, LAST);
    assert_eq!(octree.data[kept.index()].node_type, LIGHT);
    assert_eq!(octree.data[kept.index()].base_color, color);
    let found = octree.node_at_pos(pos);
    assert_eq!(found, kept);
    assert_eq!(octree.data.len(), 1 + 8 * LAST);
    octree.insert_node(Vector4::new(0, 0, 0, 0), white(), FULL);
    assert_eq!(octree.light_data.len(), 1);
    octree.insert_light(Vector4::new(0, 0, 0, 0), color);
    assert_eq!(octree.light_data.len(), 2);
    assert_eq!(octree.light_data[0], kept);
    let found = octree.node_at_pos(Vector4::new(0, 0, 0, 0));
    assert_eq!(octree.light_data[1], found);
}

#[test]
fn stores_built_by_insertion_are_well_formed() {
    let mut octree = Octree::default();
    assert!(octree.is_well_formed());
    for step in 0..40i64 {
        let pos = Vector4::new(step * 3001, 131071 - step * 977, (step * step * 83) % 131072, 0);
        octree.insert_node(pos, white(), [EMPTY, SUBDIVIDED, FULL, LIGHT, 9][step as usize % 5]);
        assert!(octree.is_well_formed());
    }
    octree.insert_light(Vector4::new(-1, -1, -1, -1), white());
    assert!(octree.is_well_formed());
}

#[test]
fn broken_stores_are_not_well_formed() {
    let mut built = Octree::default();
    let cursor = built.insert_node(Vector4::new(100, 100, 100, 0), white(), FULL);
    let leaf = cursor.index();
    let above = cursor.parent();

    let empty = Octree { data: Vec::new(), light_data: Vec::new() };
    assert!(!empty.is_well_formed());

    let breakages: Vec<(&str, fn(&mut Vec<TreeNode>, usize, usize))> = vec![
        ("the root has a parent", |data, _, _| data[0].parent = 1),
        ("a parent lies behind its child", |data, _, above| data[above].parent = above as u32),
        ("a parent is the node itself", |data, leaf, _| data[leaf].parent = leaf as u32),
        ("a full node above the last level", |data, _, above| data[above].node_type = FULL),
        ("an empty node with children", |data, _, above| data[above].node_type = EMPTY),
        ("a subdivided node without children", |data, _, above| data[above - 1].node_type = SUBDIVIDED),
        ("a child out of the store", |data, _, above| data[above].children[7] = data.len() as u32),
        ("a child before its parent", |data, _, above| data[above].children[0] = 0),
        ("children out of order", |data, _, above| data[above].children.swap(2, 3)),
        ("a child of another parent", |data, leaf, _| data[leaf + 1].parent = 0),
        ("a leaf with a child", |data, leaf, _| data[leaf].children[3] = 5),
        ("an empty node with an entry", |data, _, above| data[above - 1].children[0] = 1),
        ("a node below the last level", |data, leaf, _| {
            data.push(TreeNode::new(EMPTY, leaf));
        }),
    ];
    for (what, breakage) in breakages {
        let mut broken = Octree { data: built.data.clone(), light_data: Vec::new() };
        assert!(broken.is_well_formed(), "{}", what);
        breakage(&mut broken.data, leaf, above);
        assert!(!broken.is_well_formed(), "{}", what);
    }

    // what the shape leaves open
    let mut open = Octree { data: built.data.clone(), light_data: Vec::new() };
    open.data[leaf].node_type = 77;
    open.data[leaf].base_color = Vector4::new(-1, -2, -3, -4);
    open.data[above].base_color = Vector4::new(i64::MAX, 0, 0, 0);
    assert!(open.is_well_formed());
}

#[test]
fn room_is_counted_in_nodes_per_voxel() {
    let octree = Octree::default();
    assert!(octree.room_for(0));
    assert!(octree.room_for(1));
    assert!(octree.room_for(58001));
    // 1 + n * 128 <= u32::MAX
    assert!(octree.room_for(33554431));
    assert!(!octree.room_for(33554432));
    assert!(!octree.room_for(u32::MAX));
    let mut grown = Octree::default();
    grown.insert_node(zero(), white(), FULL);
    assert!(grown.room_for(33554430));
    assert!(!grown.room_for(33554431));
}

#[test]
fn buffer_takes_forty_eight_bytes_a_node() {
    let mut octree = Octree::default();
    assert_eq!(octree.buffer_size(), 48);
    octree.insert_node(zero(), white(), FULL);
    assert_eq!(octree.buffer_size(), 48 * (1 + 8 * LAST as u64));
}

#[test]
fn query_returns_a_cell_that_holds_the_point() {
    let mut octree = Octree::default();
    for step in 0..30i64 {
        let pos = Vector4::new(step * 4099, (step * 7919) % 200000, 131071 - step, 0);
        octree.insert_node(pos, white(), FULL);
    }
    for step in 0..200i64 {
        let pos = Vector4::new((step * 2053) % 140000, (step * 977) % 1000, step * step, step);
        let found = octree.node_at_pos(pos);
        assert_eq!(found.span, ROOT_SPAN >> found.depth);
        assert_eq!(found.origin_on_edge.plus(found.local_origin), pos);
        for (corner, at) in [
            (found.origin_on_edge.x, pos.x),
            (found.origin_on_edge.y, pos.y),
            (found.origin_on_edge.z, pos.z),
            (found.origin_on_edge.w, pos.w),
        ] {
            assert!(corner <= at && at < corner + found.span);
        }
        let node = octree.data[found.index()];
        assert!(found.depth as usize == LAST || node.node_type != SUBDIVIDED);
    }
}
