use vstd::prelude::*;

verus! {

/// Number of keys on the keypad.
pub const KEY_COUNT: u8 = 16;

/// What a keypad holds: which keys are down, whether the next release is
/// being watched for, and the key whose release was seen while watching.
pub struct KeyboardState {
    pub pressed: Seq<bool>,
    pub tracking: bool,
    pub last_released: Option<u8>,
}

impl KeyboardState {
    /// There are 16 keys, and a release is only on record, for one of
    /// them, while releases are watched for.
    pub open spec fn well_formed(self) -> bool {
        &&& self.pressed.len() == KEY_COUNT
        &&& self.last_released matches Some(key) ==> self.tracking && key < KEY_COUNT
    }

    /// The keypad at rest: no key down, nothing watched for.
    pub open spec fn idle() -> KeyboardState {
        KeyboardState {
            pressed: Seq::new(KEY_COUNT as nat, |i: int| false),
            tracking: false,
            last_released: None,
        }
    }

    /// Whether `key` is down. A number that names no key is never down.
    pub open spec fn is_pressed(self, key: u8) -> bool {
        key < KEY_COUNT && self.pressed[key as int]
    }

    /// The keypad after `key` went down or up. A key that goes from down
    /// to up while releases are watched for becomes the released key.
    pub open spec fn set_pressed(self, key: u8, pressed: bool) -> KeyboardState {
        KeyboardState {
            pressed: self.pressed.update(key as int, pressed),
            tracking: self.tracking,
            last_released: if self.tracking && self.pressed[key as int] && !pressed {
                Some(key)
            } else {
                self.last_released
            },
        }
    }

    /// The keypad after watching for releases was switched on or off.
    /// Either way no release is on record afterwards.
    pub open spec fn track(self, enabled: bool) -> KeyboardState {
        KeyboardState { pressed: self.pressed, tracking: enabled, last_released: None }
    }
}

/// The state of the 16 keys, with what is needed to wait for a key without
/// blocking: a flag that arms the watch for the next release, and the key
/// whose release was seen.
pub struct KeyboardInput {
    key_states: [bool; 16],
    tracking: bool,
    last_released: Option<u8>,
}

impl View for KeyboardInput {
    type V = KeyboardState;

    closed spec fn view(&self) -> KeyboardState {
        KeyboardState {
            pressed: self.key_states@,
            tracking: self.tracking,
            last_released: self.last_released,
        }
    }
}

impl KeyboardInput {
    /// A keypad at rest.
    pub fn new() -> (k: Self)
        ensures
            k@ == KeyboardState::idle(),
            k@.well_formed(),
    {
        let k = KeyboardInput { key_states: [false; 16], tracking: false, last_released: None };
        assert(k@.pressed =~= KeyboardState::idle().pressed);
        k
    }

    /// Sets a key state.
    pub fn set_key_pressed(&mut self, key: u8, pressed: bool)
        requires
            old(self)@.well_formed(),
            key < KEY_COUNT,
        ensures
            final(self)@ == old(self)@.set_pressed(key, pressed),
            final(self)@.well_formed(),
    {
        if self.tracking && self.key_states[key as usize] && !pressed {
            self.last_released = Some(key);
        }
        self.key_states[key as usize] = pressed;
    }

    /// Checks if a key is currently pressed.
    pub fn is_key_pressed(&self, key: u8) -> (pressed: bool)
        requires
            self@.well_formed(),
        ensures
            pressed == self@.is_pressed(key),
    {
        key < KEY_COUNT && self.key_states[key as usize]
    }

    /// Starts or stops watching for the next key release, and forgets any
    /// release seen so far.
    pub fn track_next_key_release(&mut self, enabled: bool)
        requires
            old(self)@.well_formed(),
        ensures
            final(self)@ == old(self)@.track(enabled),
            final(self)@.well_formed(),
    {
        self.tracking = enabled;
        self.last_released = None;
    }

    /// Checks if the next key release is being watched for.
    pub fn is_tracking_next_key_release(&self) -> (tracking: bool)
        ensures
            tracking == self@.tracking,
    {
        self.tracking
    }

    /// The key whose release was seen since the watch was armed, if any.
    pub fn get_last_released_key(&self) -> (key: Option<u8>)
        ensures
            key == self@.last_released,
    {
        self.last_released
    }
}

/// A key of the host's keyboard that stands for a key of the keypad.
#[derive(Debug, Clone, Copy, PartialEq, Eq, Structural)]
pub enum KeyCode {
    Key1,
    Key2,
    Key3,
    Key4,
    Q,
    W,
    E,
    R,
    A,
    S,
    D,
    F,
    Z,
    X,
    C,
    V,
}

/// The layout of the keypad on the host's keyboard: the block of four by
/// four keys whose top left corner is the key `1`.
///
/// ```text
/// |1|2|3|C|      |1|2|3|4|
/// |4|5|6|D|  is  |Q|W|E|R|
/// |7|8|9|E|      |A|S|D|F|
/// |A|0|B|F|      |Z|X|C|V|
/// ```
pub open spec fn keycode_of(key: u8) -> Option<KeyCode> {
    match key {
        0x0 => Some(KeyCode::X),
        0x1 => Some(KeyCode::Key1),
        0x2 => Some(KeyCode::Key2),
        0x3 => Some(KeyCode::Key3),
        0x4 => Some(KeyCode::Q),
        0x5 => Some(KeyCode::W),
        0x6 => Some(KeyCode::E),
        0x7 => Some(KeyCode::A),
        0x8 => Some(KeyCode::S),
        0x9 => Some(KeyCode::D),
        0xA => Some(KeyCode::Z),
        0xB => Some(KeyCode::C),
        0xC => Some(KeyCode::Key4),
        0xD => Some(KeyCode::R),
        0xE => Some(KeyCode::F),
        0xF => Some(KeyCode::V),
        _ => None,
    }
}

/// Gets the host key for a key of the keypad, or `None` for a number that
/// names no key.
pub fn get_keycode_from_key(key: u8) -> (code: Option<KeyCode>)
    ensures
        code == keycode_of(key),
        code is Some <==> key < KEY_COUNT,
{
    match key {
        0x0 => Some(KeyCode::X),
        0x1 => Some(KeyCode::Key1),
        0x2 => Some(KeyCode::Key2),
        0x3 => Some(KeyCode::Key3),
        0x4 => Some(KeyCode::Q),
        0x5 => Some(KeyCode::W),
        0x6 => Some(KeyCode::E),
        0x7 => Some(KeyCode::A),
        0x8 => Some(KeyCode::S),
        0x9 => Some(KeyCode::D),
        0xA => Some(KeyCode::Z),
        0xB => Some(KeyCode::C),
        0xC => Some(KeyCode::Key4),
        0xD => Some(KeyCode::R),
        0xE => Some(KeyCode::F),
        0xF => Some(KeyCode::V),
        _ => None,
    }
}

/// No two keys of the keypad share a host key.
pub proof fn lemma_keycodes_differ(a: u8, b: u8)
    requires
        a < KEY_COUNT,
        b < KEY_COUNT,
        a != b,
    ensures
        keycode_of(a) != keycode_of(b),
{
}

} // verus!
