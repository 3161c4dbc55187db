use voxel_octree::service::{index_to_pos, pos_to_index, step_vec_three};
use voxel_octree::vector::{Mask, Vector3};

#[test]
fn to_index_follows_the_formula() {
    // x + y * L^2 + z * L
    assert_eq!(Vector3::new(1i64, 2, 3).to_index(4), 1 + 2 * 16 + 3 * 4);
    assert_eq!(Vector3::new(0i64, 0, 0).to_index(4), 0);
    assert_eq!(Vector3::new(3i64, 3, 3).to_index(4), 63);
    assert_eq!(Vector3::new(1i64, 0, 0).to_index(2), 1);
    assert_eq!(Vector3::new(0i64, 1, 0).to_index(2), 4);
    assert_eq!(Vector3::new(0i64, 0, 1).to_index(2), 2);
}

#[test]
fn to_index_reduces_each_coordinate_by_the_edge() {
    assert_eq!(Vector3::new(5i64, 6, 7).to_index(4), 1 + 2 * 16 + 3 * 4);
    assert_eq!(Vector3::new(4i64, 4, 4).to_index(4), 0);
    assert_eq!(Vector3::new(9i64, 0, 0).to_index(1), 0);
}

#[test]
fn to_index_of_a_sum_below_zero_is_zero() {
    assert_eq!(Vector3::new(-1i64, 0, 0).to_index(2), 0);
    assert_eq!(Vector3::new(-3i64, -3, -3).to_index(4), 0);
    // -1 + 1 * 4 = 3: the sum counts, not the single coordinate
    assert_eq!(Vector3::new(-1i64, 1, 0).to_index(2), 3);
}

#[test]
fn from_index_follows_the_formula() {
    assert_eq!(Vector3::<i64>::from_index(45, 4), Vector3::new(1, 2, 3));
    assert_eq!(Vector3::<i64>::from_index(0, 4), Vector3::new(0, 0, 0));
    assert_eq!(Vector3::<i64>::from_index(63, 4), Vector3::new(3, 3, 3));
    assert_eq!(Vector3::<i64>::from_index(5, 2), Vector3::new(1, 1, 0));
    // beyond the grid the layer count goes on
    assert_eq!(Vector3::<i64>::from_index(64, 4), Vector3::new(0, 4, 0));
}

#[test]
fn to_index_undoes_from_index_on_every_place() {
    for side_len in 1..=9i64 {
        let places = (side_len * side_len * side_len) as usize;
        for index in 0..places {
            let cell = Vector3::<i64>::from_index(index, side_len);
            assert!(0 <= cell.x && cell.x < side_len);
            assert!(0 <= cell.y && cell.y < side_len);
            assert!(0 <= cell.z && cell.z < side_len);
            assert_eq!(cell.to_index(side_len), index);
        }
    }
}

#[test]
fn octants_and_places_correspond_one_to_one() {
    let mut seen = [false; 8];
    for x in 0..2i64 {
        for y in 0..2i64 {
            for z in 0..2i64 {
                let place = Vector3::new(x, y, z).to_index(2);
                assert_eq!(place as i64, x + 4 * y + 2 * z);
                assert!(place < 8);
                assert!(!seen[place]);
                seen[place] = true;
                assert_eq!(Vector3::<i64>::from_index(place, 2), Vector3::new(x, y, z));
            }
        }
    }
    assert!(seen.iter().all(|s| *s));
}

#[test]
fn add_dir_is_the_distance_per_axis() {
    let a = Vector3::new(1i64, 5, -3);
    let b = Vector3::new(4i64, 2, -3);
    assert_eq!(a.add_dir(b), Vector3::new(3, 3, 0));
    assert_eq!(b.add_dir(a), Vector3::new(3, 3, 0));
    assert_eq!(
        Vector3::new(i64::MAX, 0, 0).add_dir(Vector3::new(0, 0, -i64::MAX)),
        Vector3::new(i64::MAX, 0, i64::MAX)
    );
}

#[test]
fn pos_to_index_follows_the_formula() {
    assert_eq!(pos_to_index(Vector3::new(1, 2, 3), 4), 45);
    assert_eq!(pos_to_index(Vector3::new(5, 6, 7), 4), 45);
    assert_eq!(pos_to_index(Vector3::new(0, 1, 0), 2), 4);
    assert_eq!(pos_to_index(Vector3::new(7, 7, 7), 1), 0);
}

#[test]
fn pos_to_index_wraps_a_sum_below_zero() {
    assert_eq!(pos_to_index(Vector3::new(-1, 0, 0), 2), u32::MAX);
    assert_eq!(pos_to_index(Vector3::new(-1, -1, -1), 2), (-7i32) as u32);
}

#[test]
fn index_to_pos_follows_the_formula() {
    assert_eq!(index_to_pos(45, 4), Vector3::new(1, 2, 3));
    assert_eq!(index_to_pos(7, 2), Vector3::new(1, 1, 1));
    assert_eq!(index_to_pos(2, 2), Vector3::new(0, 0, 1));
    assert_eq!(index_to_pos(4, 2), Vector3::new(0, 1, 0));
    assert_eq!(index_to_pos(9, 1), Vector3::new(0, 9, 0));
}

#[test]
fn pos_to_index_undoes_index_to_pos() {
    for side_len in 1..=6u32 {
        for index in 0..side_len * side_len * side_len {
            let cell = index_to_pos(index, side_len);
            let signed = Vector3::new(cell.x as i32, cell.y as i32, cell.z as i32);
            assert_eq!(pos_to_index(signed, side_len as i32), index);
        }
    }
}

#[test]
fn step_vec_three_marks_where_the_edge_lies_below() {
    let edge = Vector3::new(1i64, 5, 3);
    let input = Vector3::new(2i64, 5, -3);
    assert_eq!(step_vec_three(edge, input), Vector3::new(1, 0, 0));
    assert_eq!(step_vec_three(input, edge), Vector3::new(0, 0, 1));
}
