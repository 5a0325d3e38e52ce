use vstd::prelude::*;

verus! {

/// How many keys the keyboard state has room for.
pub const KEY_COUNT: usize = 163;

/// One key: whether it is down, and whether it went down or up since the
/// last reset.
#[derive(Copy, Clone, Debug, PartialEq, Eq, Structural)]
pub struct KeyState {
    pub state: bool,
    pub released: bool,
    pub pressed: bool,
}

impl KeyState {
    /// A key that is up and has not moved.
    pub open spec fn idle() -> KeyState {
        KeyState { state: false, released: false, pressed: false }
    }

    pub fn new() -> (r: KeyState)
        ensures
            r == KeyState::idle(),
    {
        KeyState { state: false, released: false, pressed: false }
    }

    /// Forgets that the key moved; whether it is down stays.
    pub fn reset(&mut self)
        ensures
            *final(self) == (KeyState { state: old(self).state, released: false, pressed: false }),
    {
        self.released = false;
        self.pressed = false;
    }

    /// The key after it went down (`down`) or up.
    pub open spec fn moved(self, down: bool) -> KeyState {
        if down {
            KeyState { state: true, pressed: true, released: self.released }
        } else {
            KeyState { state: false, released: true, pressed: self.pressed }
        }
    }
}

impl Default for KeyState {
    fn default() -> (r: KeyState)
        ensures
            r == KeyState::idle(),
    {
        KeyState::new()
    }
}

/// The state of every key, by key code.
#[derive(Clone, Debug)]
pub struct KeyboardInput {
    pub keys: [KeyState; 163],
}

impl KeyboardInput {
    pub fn new() -> (r: KeyboardInput)
        ensures
            forall|i: int| 0 <= i < KEY_COUNT ==> #[trigger] r.keys[i] == KeyState::idle(),
    {
        KeyboardInput { keys: [KeyState::new();163] }
    }

    /// Forgets which keys moved; which keys are down stays.
    pub fn reset(&mut self)
        ensures
            forall|i: int|
                0 <= i < KEY_COUNT ==> #[trigger] final(self).keys[i] == (KeyState {
                    state: old(self).keys[i].state,
                    released: false,
                    pressed: false,
                }),
    {
        let mut i: usize = 0;
        while i < 163
            invariant
                i <= 163,
                forall|k: int|
                    0 <= k < i ==> #[trigger] self.keys[k] == (KeyState {
                        state: old(self).keys[k].state,
                        released: false,
                        pressed: false,
                    }),
                forall|k: int| i <= k < 163 ==> #[trigger] self.keys[k] == old(self).keys[k],
            decreases 163 - i,
        {
            let mut key: KeyState = self.keys[i];
            key.reset();
            self.keys[i] = key;
            i += 1;
        }
    }

    /// Takes note that the key with code `key` went down (`down`) or up. A
    /// code that the state has no room for changes nothing.
    pub fn update(&mut self, key: usize, down: bool)
        ensures
            key >= KEY_COUNT ==> final(self).keys == old(self).keys,
            key < KEY_COUNT ==> final(self).keys[key as int] == old(self).keys[key as int].moved(
                down,
            ),
            forall|i: int|
                0 <= i < KEY_COUNT && i != key ==> #[trigger] final(self).keys[i] == old(
                    self,
                ).keys[i],
    {
        if key < 163 {
            let mut state: KeyState = self.keys[key];
            if down {
                state.pressed = true;
                state.state = true;
            } else {
                state.released = true;
                state.state = false;
            }
            self.keys[key] = state;
        }
    }
}

impl Default for KeyboardInput {
    fn default() -> (r: KeyboardInput)
        ensures
            forall|i: int| 0 <= i < KEY_COUNT ==> #[trigger] r.keys[i] == KeyState::idle(),
    {
        KeyboardInput::new()
    }
}

/// The state of a gamepad. Nothing of it is read yet.
#[derive(Clone, Copy, Debug, PartialEq, Eq, Structural)]
pub struct GamepadInput {}

} // verus!
