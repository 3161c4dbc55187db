use voxel_octree::data::{VoxelChunk, WorldData, CHUNK_LEN};
use voxel_octree::input::{Action, Input, KeyCodes, KEY_COUNT};
use voxel_octree::render::{FrameStep, RenderState};
use voxel_octree::tree::octant::{Octant, CHILD_BITS, LEAF_BIT, SUBDIV_BIT};

#[test]
fn vec_to_array_keeps_items_and_order() {
    let array: [u32; 4] = WorldData::vec_to_array(vec![9, 8, 7, 6]);
    assert_eq!(array, [9, 8, 7, 6]);
    let names: [String; 2] = WorldData::vec_to_array(vec![String::from("a"), String::from("b")]);
    assert_eq!(names, [String::from("a"), String::from("b")]);
    let none: [u8; 0] = WorldData::vec_to_array(Vec::new());
    assert_eq!(none.len(), 0);
}

#[test]
fn collect_numbers_the_voxels_of_one_chunk() {
    let world = WorldData::collect();
    assert_eq!(world.basic_data.len(), 1);
    let chunk: VoxelChunk = world.basic_data[0];
    assert_eq!(chunk.voxel_data.len(), CHUNK_LEN);
    for (i, voxel) in chunk.voxel_data.iter().enumerate() {
        assert_eq!(*voxel as usize, i);
    }
}

#[test]
fn octant_flags_are_read_back() {
    let word: u32 = 0x00ab_1234;
    for leaf in [false, true] {
        for subdiv in [false, true] {
            let packed = word.set(leaf, subdiv);
            assert_eq!(packed.is_leaf(), leaf);
            assert_eq!(packed.is_subdiv(), subdiv);
            assert_eq!(packed & 0x00ff_ffff, word);
        }
    }
}

#[test]
fn octant_set_overwrites_the_flags() {
    let both: u32 = 0u32.set(true, true);
    assert_eq!(both, LEAF_BIT | SUBDIV_BIT);
    assert_eq!(both.set(false, false), 0);
    assert_eq!(both.set(true, false), 0x0100_0000);
    assert_eq!(both.set(false, true), 0x0200_0000);
    assert_eq!(0xffff_ffffu32.set(false, false), 0xfcff_ffff);
}

#[test]
fn octant_has_children_reads_the_child_bits() {
    assert!(!0u32.has_children());
    assert!(!0xff00_ffffu32.has_children());
    assert!(0x0001_0000u32.has_children());
    assert!(0x0080_0000u32.has_children());
    assert!(CHILD_BITS.has_children());
    assert!(!(LEAF_BIT | SUBDIV_BIT).has_children());
}

fn keys() -> KeyCodes {
    KeyCodes {
        forward: 32,
        backward: 28,
        left: 10,
        right: 13,
        jump: 76,
        shift: 117,
        fullscreen: 15,
        escape: 36,
        reset: 27,
    }
}

#[test]
fn new_input_binds_the_given_keys() {
    let input = Input::new(keys());
    let bound = [
        (32, Action::FORWARD),
        (28, Action::BACKWARD),
        (10, Action::LEFT),
        (13, Action::RIGHT),
        (76, Action::JUMP),
        (117, Action::SHIFT),
        (15, Action::FULLSCREEN),
        (36, Action::ESCAPE),
        (27, Action::RESET),
    ];
    for key in 0..KEY_COUNT {
        let expected = bound
            .iter()
            .find(|(code, _)| *code == key)
            .map(|(_, action)| *action)
            .unwrap_or(Action::NONE);
        assert!(input.binding_list[key] == expected);
        assert!(input.action_of(key) == expected);
        assert!(!input.key_down[key]);
    }
}

#[test]
fn of_two_actions_on_one_key_the_later_holds() {
    let same = KeyCodes { forward: 7, backward: 7, reset: 255, escape: 255, ..keys() };
    let input = Input::new(same);
    assert!(input.action_of(7) == Action::BACKWARD);
    assert!(input.action_of(255) == Action::RESET);
    assert!(input.action_of(10) == Action::LEFT);
    assert!(input.action_of(36) == Action::NONE);
    assert!(input.action_of(0) == Action::NONE);
}

#[test]
fn bind_sets_one_key() {
    let mut input = Input::new(keys());
    input.bind(33, Action::FORWARD);
    input.bind(255, Action::RESET);
    assert!(input.action_of(33) == Action::FORWARD);
    assert!(input.action_of(32) == Action::FORWARD);
    assert!(input.action_of(255) == Action::RESET);
    assert!(input.action_of(31) == Action::NONE);
    input.bind(32, Action::JUMP);
    assert!(input.action_of(32) == Action::JUMP);
    input.bind(32, Action::NONE);
    assert!(input.action_of(32) == Action::NONE);
    assert!(input.key_down.iter().all(|down| !down));
}

#[test]
fn key_input_tracks_what_is_down() {
    let mut input = Input::new(keys());
    input.handle_key_input(10, true);
    input.handle_key_input(0, true);
    assert!(input.key_down[10] && input.key_down[0]);
    assert_eq!(input.key_down.iter().filter(|down| **down).count(), 2);
    input.handle_key_input(10, false);
    assert!(!input.key_down[10] && input.key_down[0]);
    input.handle_key_input(10, false);
    assert!(!input.key_down[10]);
    assert!(input.action_of(10) == Action::LEFT);
}

#[test]
fn a_surface_in_date_is_drawn_to() {
    let mut state = RenderState::new();
    assert!(!state.out_of_date && !state.idle && state.frame_time == 0);
    assert!(state.next_step(800, 600) == FrameStep::Draw);
    assert!(state.next_step(0, 0) == FrameStep::Draw);
    assert!(!state.out_of_date && !state.idle);
}

#[test]
fn a_surface_out_of_date_is_built_anew() {
    let mut state = RenderState::new();
    state.drawn(true, 1_500);
    assert!(state.out_of_date);
    assert_eq!(state.frame_time, 1_500);
    assert!(state.next_step(800, 600) == FrameStep::Recreate);
    assert!(!state.out_of_date && !state.idle);
    assert_eq!(state.frame_time, 1_500);
    assert!(state.next_step(800, 600) == FrameStep::Draw);
}

#[test]
fn a_window_without_area_waits() {
    let mut state = RenderState::new();
    state.drawn(true, 7);
    assert!(state.next_step(0, 600) == FrameStep::Wait);
    assert!(state.idle && state.out_of_date);
    assert!(state.next_step(800, 0) == FrameStep::Wait);
    assert!(state.idle && state.out_of_date);
    assert!(state.next_step(1, 1) == FrameStep::Recreate);
    assert!(!state.idle && !state.out_of_date);
}

#[test]
fn drawn_keeps_the_idle_flag() {
    let mut state = RenderState { out_of_date: true, idle: true, frame_time: 3 };
    state.drawn(false, 9);
    assert!(!state.out_of_date && state.idle);
    assert_eq!(state.frame_time, 9);
}
