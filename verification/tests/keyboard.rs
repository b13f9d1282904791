use chip8::keyboard::{get_keycode_from_key, KeyCode, KeyboardInput, KEY_COUNT};

#[test]
fn new_keypad_has_no_key_down() {
    let keys = KeyboardInput::new();
    for key in 0..KEY_COUNT {
        assert!(!keys.is_key_pressed(key));
    }
    assert!(!keys.is_tracking_next_key_release());
    assert_eq!(keys.get_last_released_key(), None);
}

#[test]
fn keys_go_down_and_up() {
    let mut keys = KeyboardInput::new();
    keys.set_key_pressed(0xA, true);
    assert!(keys.is_key_pressed(0xA));
    assert!(!keys.is_key_pressed(0xB));
    keys.set_key_pressed(0xA, false);
    assert!(!keys.is_key_pressed(0xA));
}

#[test]
fn a_number_that_names_no_key_is_not_pressed() {
    let mut keys = KeyboardInput::new();
    for key in 0..KEY_COUNT {
        keys.set_key_pressed(key, true);
    }
    assert!(keys.is_key_pressed(15));
    assert!(!keys.is_key_pressed(16));
    assert!(!keys.is_key_pressed(255));
}

#[test]
fn release_is_not_recorded_unless_armed() {
    let mut keys = KeyboardInput::new();
    keys.set_key_pressed(3, true);
    keys.set_key_pressed(3, false);
    assert_eq!(keys.get_last_released_key(), None);
}

#[test]
fn release_is_recorded_while_armed() {
    let mut keys = KeyboardInput::new();
    keys.track_next_key_release(true);
    assert!(keys.is_tracking_next_key_release());
    keys.set_key_pressed(3, true);
    assert_eq!(keys.get_last_released_key(), None);
    keys.set_key_pressed(3, false);
    assert_eq!(keys.get_last_released_key(), Some(3));
}

#[test]
fn key_that_went_down_before_arming_counts_when_released() {
    let mut keys = KeyboardInput::new();
    keys.set_key_pressed(9, true);
    keys.track_next_key_release(true);
    keys.set_key_pressed(9, false);
    assert_eq!(keys.get_last_released_key(), Some(9));
}

#[test]
fn releasing_a_key_that_is_up_is_no_release() {
    let mut keys = KeyboardInput::new();
    keys.track_next_key_release(true);
    keys.set_key_pressed(4, false);
    assert_eq!(keys.get_last_released_key(), None);
}

#[test]
fn latest_release_wins() {
    let mut keys = KeyboardInput::new();
    keys.track_next_key_release(true);
    keys.set_key_pressed(1, true);
    keys.set_key_pressed(2, true);
    keys.set_key_pressed(1, false);
    keys.set_key_pressed(2, false);
    assert_eq!(keys.get_last_released_key(), Some(2));
}

#[test]
fn arming_and_disarming_forget_the_release() {
    let mut keys = KeyboardInput::new();
    keys.track_next_key_release(true);
    keys.set_key_pressed(1, true);
    keys.set_key_pressed(1, false);
    keys.track_next_key_release(false);
    assert!(!keys.is_tracking_next_key_release());
    assert_eq!(keys.get_last_released_key(), None);
    keys.set_key_pressed(1, true);
    keys.set_key_pressed(1, false);
    assert_eq!(keys.get_last_released_key(), None);
    keys.track_next_key_release(true);
    assert_eq!(keys.get_last_released_key(), None);
}

#[test]
fn keypad_is_laid_out_on_the_left_of_the_keyboard() {
    let expected = [
        KeyCode::X,
        KeyCode::Key1,
        KeyCode::Key2,
        KeyCode::Key3,
        KeyCode::Q,
        KeyCode::W,
        KeyCode::E,
        KeyCode::A,
        KeyCode::S,
        KeyCode::D,
        KeyCode::Z,
        KeyCode::C,
        KeyCode::Key4,
        KeyCode::R,
        KeyCode::F,
        KeyCode::V,
    ];
    for key in 0..16u8 {
        assert_eq!(get_keycode_from_key(key), Some(expected[key as usize]));
    }
}

#[test]
fn no_host_key_for_a_number_that_names_no_key() {
    assert_eq!(get_keycode_from_key(16), None);
    assert_eq!(get_keycode_from_key(255), None);
}

#[test]
fn host_keys_differ() {
    for a in 0..16u8 {
        for b in 0..16u8 {
            if a != b {
                assert_ne!(get_keycode_from_key(a), get_keycode_from_key(b));
            }
        }
    }
}
