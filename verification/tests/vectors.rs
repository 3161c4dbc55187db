use voxel_octree::vector::{
    saturating_sum, vec_three_dee, vec_two_dee, Vector, Vector2, Vector3, Vector4,
};

#[test]
fn constructors_keep_the_components() {
    let v = Vector4::new(1i64, 2, 3, 4);
    assert_eq!((v.x, v.y, v.z, v.w), (1, 2, 3, 4));
    let t = Vector3::new(5u32, 6, 7);
    assert_eq!((t.x, t.y, t.z), (5, 6, 7));
    let p = Vector2::new(8i32, 9);
    assert_eq!((p.x, p.y), (8, 9));
    assert_eq!(Vector4::splat(7), Vector4::new(7, 7, 7, 7));
    assert_eq!(v.truncate(), Vector3::new(1, 2, 3));
    assert_eq!(v.clone(), v);
}

#[test]
fn rem_keeps_the_sign_of_the_component() {
    let v = Vector4::new(7i64, -7, 131072, -131073);
    assert_eq!(v.rem(4), Vector4::new(3, -3, 0, -1));
    assert_eq!(v.rem(131072), Vector4::new(7, -7, 0, -1));
    assert_eq!(Vector4::new(i64::MIN, i64::MAX, 0, 1).rem(1), Vector4::splat(0));
}

#[test]
fn quot_rounds_toward_zero() {
    let v = Vector4::new(7i64, -7, 8, -8);
    assert_eq!(v.quot(2), Vector4::new(3, -3, 4, -4));
    assert_eq!(v.quot(1), v);
    assert_eq!(v.quot(16), Vector4::splat(0));
}

#[test]
fn saturating_sum_stops_at_the_ends() {
    assert_eq!(saturating_sum(1, 2), 3);
    assert_eq!(saturating_sum(-5, 2), -3);
    assert_eq!(saturating_sum(i64::MAX, 1), i64::MAX);
    assert_eq!(saturating_sum(i64::MAX - 1, 1), i64::MAX);
    assert_eq!(saturating_sum(i64::MIN, -1), i64::MIN);
    assert_eq!(saturating_sum(i64::MIN, i64::MAX), -1);
    assert_eq!(saturating_sum(i64::MAX, i64::MIN), -1);
}

#[test]
fn saturating_add_works_per_axis() {
    let a = Vector4::new(i64::MAX, i64::MIN, 1, -1);
    let b = Vector4::new(5, -5, 2, 1);
    assert_eq!(a.saturating_add(b), Vector4::new(i64::MAX, i64::MIN, 3, 0));
}

#[test]
fn plus_and_minus_work_per_axis() {
    let a = Vector4::new(1i64, 2, 3, 4);
    let b = Vector4::new(10i64, -20, 30, -40);
    assert_eq!(a.plus(b), Vector4::new(11, -18, 33, -36));
    assert_eq!(a.minus(b), Vector4::new(-9, 22, -27, 44));
    assert_eq!(a.plus(b).minus(b), a);
}

#[test]
fn step_marks_where_the_edge_lies_below() {
    let v = Vector4::new(1i64, 5, -3, 0);
    let edge = Vector4::new(0i64, 5, -4, 1);
    assert_eq!(v.step(edge), Vector4::new(1, 0, 1, 0));
    assert_eq!(Vector3::new(1i64, 5, -3).step(Vector3::new(0, 5, -4)), Vector3::new(1, 0, 1));
    assert_eq!(Vector2::new(1i64, 5).step(Vector2::new(2, 4)), Vector2::new(0, 1));
}

#[test]
fn sign_is_minus_one_zero_or_one() {
    assert_eq!(Vector4::new(9i64, -9, 0, i64::MIN).sign(), Vector4::new(1, -1, 0, -1));
    assert_eq!(Vector3::new(0i64, i64::MAX, -1).sign(), Vector3::new(0, 1, -1));
    assert_eq!(Vector2::new(-2i64, 2).sign(), Vector2::new(-1, 1));
}

#[test]
fn boundary_moves_components_back_inside() {
    let min = Vector4::splat(-2);
    let max = Vector4::splat(3);
    assert_eq!(Vector4::new(-5i64, 0, 3, 9).boundary(min, max), Vector4::new(-2, 0, 3, 3));
    assert_eq!(
        Vector3::new(-5i64, 0, 9).boundary(Vector3::new(-2, -2, -2), Vector3::new(3, 3, 3)),
        Vector3::new(-2, 0, 3)
    );
    assert_eq!(
        Vector2::new(-3i64, 4).boundary(Vector2::new(-2, -2), Vector2::new(3, 3)),
        Vector2::new(-2, 3)
    );
}

#[test]
fn boundary_with_crossed_ends() {
    // min 5, max 1: above max gives max, below min gives min
    let min = Vector2::new(5i64, 5);
    let max = Vector2::new(1i64, 1);
    assert_eq!(Vector2::new(3i64, 0).boundary(min, max), Vector2::new(1, 5));
    assert_eq!(Vector2::new(9i64, 1).boundary(min, max), Vector2::new(1, 5));
}

#[test]
fn default_is_the_vector_of_zeros() {
    assert_eq!(<Vector4<i64> as Vector>::default(), Vector4::new(0, 0, 0, 0));
    assert_eq!(<Vector3<i64> as Vector>::default(), Vector3::new(0, 0, 0));
    assert_eq!(<Vector2<i64> as Vector>::default(), Vector2::new(0, 0));
}

#[test]
fn any_asks_the_components() {
    let v = Vector4::new(1i64, 2, 3, -4);
    assert!(v.any(|c| c < 0));
    assert!(!v.any(|c| c > 3));
    assert!(Vector3::new(0i64, 7, 0).any(|c| c == 7));
    assert!(!Vector3::new(0i64, 7, 0).any(|c| c == 8));
    assert!(Vector2::new(0i64, 7).any(|c| c == 0));
    assert!(!Vector2::new(0i64, 7).any(|c| c < 0));
}

#[test]
fn any_stops_at_the_first_hit() {
    let asked = std::cell::Cell::new(0);
    let hit = Vector4::new(1i64, 2, 3, 4).any(|c| {
        asked.set(asked.get() + 1);
        c == 2
    });
    assert!(hit);
    assert_eq!(asked.get(), 2);
}

#[test]
fn vec_two_dee_is_a_square_of_clones() {
    let table = vec_two_dee(3, String::from("a"));
    assert_eq!(table.len(), 3);
    for row in &table {
        assert_eq!(row.len(), 3);
        for cell in row {
            assert_eq!(cell, "a");
        }
    }
    assert!(vec_two_dee(0, 1u8).is_empty());
}

#[test]
fn vec_three_dee_is_a_cube_of_clones() {
    let table = vec_three_dee(2, 7u32);
    assert_eq!(table, vec![vec![vec![7, 7], vec![7, 7]], vec![vec![7, 7], vec![7, 7]]]);
    assert!(vec_three_dee(0, 1u8).is_empty());
}
