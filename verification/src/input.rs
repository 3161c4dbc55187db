//! Key bindings and the keys that are held down.
//!
//! Keys are known by their code, a number below [`KEY_COUNT`].

use vstd::prelude::*;

verus! {

/// The number of key codes.
pub const KEY_COUNT: usize = 256;

/// What a key can be bound to.
#[derive(PartialEq, Eq, Structural, Clone, Copy, Debug)]
pub enum Action {
    NONE,
    FORWARD,
    BACKWARD,
    LEFT,
    RIGHT,
    JUMP,
    SHIFT,
    FULLSCREEN,
    ESCAPE,
    RESET,
}

/// The bindings and the state of the keys.
pub struct Input {
    /// The action bound to each key.
    pub binding_list: [Action; 256],
    /// Whether each key is held down.
    pub key_down: [bool; 256],
}

/// The codes of the keys that are bound from the start, as the window
/// system numbers them.
#[derive(Clone, Copy, Debug)]
pub struct KeyCodes {
    pub forward: usize,
    pub backward: usize,
    pub left: usize,
    pub right: usize,
    pub jump: usize,
    pub shift: usize,
    pub fullscreen: usize,
    pub escape: usize,
    pub reset: usize,
}

impl KeyCodes {
    /// Every code is a key code.
    pub open spec fn in_range(self) -> bool {
        &&& self.forward < KEY_COUNT
        &&& self.backward < KEY_COUNT
        &&& self.left < KEY_COUNT
        &&& self.right < KEY_COUNT
        &&& self.jump < KEY_COUNT
        &&& self.shift < KEY_COUNT
        &&& self.fullscreen < KEY_COUNT
        &&& self.escape < KEY_COUNT
        &&& self.reset < KEY_COUNT
    }

    /// The bindings that these keys start with: each key is bound to its
    /// action, in the order of the fields, so that of two actions on one
    /// key the later one holds.
    pub open spec fn bindings(self) -> Seq<Action> {
        Seq::new(KEY_COUNT as nat, |key: int| Action::NONE).update(
            self.forward as int,
            Action::FORWARD,
        ).update(self.backward as int, Action::BACKWARD).update(
            self.left as int,
            Action::LEFT,
        ).update(self.right as int, Action::RIGHT).update(self.jump as int, Action::JUMP).update(
            self.shift as int,
            Action::SHIFT,
        ).update(self.fullscreen as int, Action::FULLSCREEN).update(
            self.escape as int,
            Action::ESCAPE,
        ).update(self.reset as int, Action::RESET)
    }
}

impl Input {
    /// The keys of `keys` bound to their actions, every other key to none,
    /// and no key down.
    pub fn new(keys: KeyCodes) -> (r: Input)
        requires
            keys.in_range(),
        ensures
            r.binding_list@ == keys.bindings(),
            forall|key: int| 0 <= key < KEY_COUNT ==> !r.key_down@[key],
    {
        let mut binding_list = [Action::NONE; 256];

        binding_list[keys.forward] = Action::FORWARD;
        binding_list[keys.backward] = Action::BACKWARD;
        binding_list[keys.left] = Action::LEFT;
        binding_list[keys.right] = Action::RIGHT;

        binding_list[keys.jump] = Action::JUMP;
        binding_list[keys.shift] = Action::SHIFT;

        binding_list[keys.fullscreen] = Action::FULLSCREEN;
        binding_list[keys.escape] = Action::ESCAPE;

        binding_list[keys.reset] = Action::RESET;

        assert(binding_list@ =~= keys.bindings());
        Input { binding_list, key_down: [false; 256] }
    }

    /// Binds `action` to the key `keycode`, in place of what was bound to
    /// it.
    pub fn bind(&mut self, keycode: usize, action: Action)
        requires
            keycode < KEY_COUNT,
        ensures
            final(self).binding_list@ == old(self).binding_list@.update(keycode as int, action),
            final(self).key_down == old(self).key_down,
    {
        self.binding_list[keycode] = action;
    }

    /// The action bound to the key `keycode`.
    pub fn action_of(&self, keycode: usize) -> (r: Action)
        requires
            keycode < KEY_COUNT,
        ensures
            r == self.binding_list@[keycode as int],
    {
        self.binding_list[keycode]
    }

    /// Takes note that the key `keycode` went down (`pressed`) or came up.
    pub fn handle_key_input(&mut self, keycode: usize, pressed: bool)
        requires
            keycode < KEY_COUNT,
        ensures
            final(self).key_down@ == old(self).key_down@.update(keycode as int, pressed),
            final(self).binding_list == old(self).binding_list,
    {
        self.key_down[keycode] = pressed;
    }
}

} // verus!
