use voxel_octree::interface::{
    acquire_outcome, choose_present_mode, choose_transform, find_memorytype_index, get_res,
    present_outcome, swap_image_count, Extent, ERROR_OUT_OF_DATE, MAX_MEMORY_TYPES,
    UNDEFINED_EXTENT,
};

const HOST_VISIBLE: u32 = 0x2;
const HOST_COHERENT: u32 = 0x4;
const DEVICE_LOCAL: u32 = 0x1;

#[test]
fn memory_type_is_the_first_that_suits() {
    let types = vec![DEVICE_LOCAL, HOST_VISIBLE, HOST_VISIBLE | HOST_COHERENT, 0x7];
    let wanted = HOST_VISIBLE | HOST_COHERENT;
    assert_eq!(find_memorytype_index(&types, 0b1111, wanted), Some(2));
    // type 2 is not allowed
    assert_eq!(find_memorytype_index(&types, 0b1011, wanted), Some(3));
    assert_eq!(find_memorytype_index(&types, 0b1111, HOST_VISIBLE), Some(1));
    assert_eq!(find_memorytype_index(&types, 0b1111, DEVICE_LOCAL), Some(0));
    // no property asked for: the first allowed type
    assert_eq!(find_memorytype_index(&types, 0b1100, 0), Some(2));
}

#[test]
fn memory_type_may_be_missing() {
    let types = vec![DEVICE_LOCAL, HOST_VISIBLE];
    assert_eq!(find_memorytype_index(&types, 0b11, HOST_VISIBLE | HOST_COHERENT), None);
    assert_eq!(find_memorytype_index(&types, 0b01, HOST_VISIBLE), None);
    assert_eq!(find_memorytype_index(&types, 0, 0), None);
    // bits beyond the list allow nothing
    assert_eq!(find_memorytype_index(&types, 0b100, 0), None);
    assert_eq!(find_memorytype_index(&Vec::new(), u32::MAX, 0), None);
}

#[test]
fn memory_type_of_a_full_list() {
    let mut types = vec![0u32; MAX_MEMORY_TYPES];
    types[31] = HOST_COHERENT;
    assert_eq!(find_memorytype_index(&types, u32::MAX, HOST_COHERENT), Some(31));
    assert_eq!(find_memorytype_index(&types, 0x7fff_ffff, HOST_COHERENT), None);
    assert_eq!(find_memorytype_index(&types, 0x8000_0000, 0), Some(31));
}

#[test]
fn swap_image_count_is_one_more_than_the_least() {
    assert_eq!(swap_image_count(2, 8), 3);
    assert_eq!(swap_image_count(2, 3), 3);
    assert_eq!(swap_image_count(3, 3), 3);
    assert_eq!(swap_image_count(5, 3), 3);
    // no most named
    assert_eq!(swap_image_count(2, 0), 3);
    assert_eq!(swap_image_count(0, 0), 1);
    assert_eq!(swap_image_count(u32::MAX - 1, 0), u32::MAX);
}

#[test]
fn transform_is_identity_where_supported() {
    assert_eq!(choose_transform(0b1011, 0b1000, 0b0001), 0b0001);
    assert_eq!(choose_transform(0b1010, 0b1000, 0b0001), 0b1000);
    assert_eq!(choose_transform(0, 4, 1), 4);
    assert_eq!(choose_transform(1, 1, 1), 1);
    // every bit of the identity is asked for
    assert_eq!(choose_transform(0b01, 0b100, 0b11), 0b100);
}

#[test]
fn present_mode_is_the_preferred_where_offered() {
    let offered = vec![2, 0, 3];
    assert_eq!(choose_present_mode(&offered, 0, 2), 0);
    assert_eq!(choose_present_mode(&offered, 3, 2), 3);
    assert_eq!(choose_present_mode(&offered, 1, 2), 2);
    assert_eq!(choose_present_mode(&offered, 1, 7), 7);
    assert_eq!(choose_present_mode(&Vec::new(), 0, 2), 2);
}

#[test]
fn resolution_follows_the_surface_or_the_window() {
    let window = Extent { width: 800, height: 600 };
    let fixed = Extent { width: 1024, height: 768 };
    let open = Extent { width: UNDEFINED_EXTENT, height: 1 };
    let wanted = Extent { width: 1920, height: 1080 };
    assert!(get_res(window, fixed, false, false, wanted) == (fixed, None));
    assert!(get_res(window, open, false, false, wanted) == (window, None));
    assert!(get_res(window, fixed, true, true, wanted) == (fixed, Some(wanted)));
    assert!(get_res(window, open, true, true, wanted) == (window, Some(wanted)));
    assert!(get_res(window, fixed, true, false, wanted) == (fixed, None));
    assert!(get_res(window, fixed, false, true, wanted) == (fixed, None));
    // only the width leaves the choice to the window
    let tall = Extent { width: 1, height: UNDEFINED_EXTENT };
    assert!(get_res(window, tall, false, false, wanted).0 == tall);
}

#[test]
fn acquire_outcome_tells_out_of_date_from_failure() {
    assert_eq!(ERROR_OUT_OF_DATE, -1000001004);
    assert_eq!(acquire_outcome(Ok(0)), Ok(Some(0)));
    assert_eq!(acquire_outcome(Ok(7)), Ok(Some(7)));
    assert_eq!(acquire_outcome(Err(ERROR_OUT_OF_DATE)), Ok(None));
    assert_eq!(acquire_outcome(Err(-4)), Err(-4));
    assert_eq!(acquire_outcome(Err(1000001003)), Err(1000001003));
}

#[test]
fn present_outcome_asks_for_a_new_swapchain() {
    assert_eq!(present_outcome(Ok(false)), Ok(false));
    assert_eq!(present_outcome(Ok(true)), Ok(true));
    assert_eq!(present_outcome(Err(ERROR_OUT_OF_DATE)), Ok(true));
    assert_eq!(present_outcome(Err(-4)), Err(-4));
}
