use kor_engine::input::{GamepadInput, KeyState, KeyboardInput, KEY_COUNT};
use kor_engine::skin::{Joint, SamplerMode};
use kor_engine::animation_system::hierarchy::NO_JOINT;

#[test]
fn new_key_is_up_and_still() {
    let key = KeyState::new();
    assert_eq!(key, KeyState { state: false, released: false, pressed: false });
    assert_eq!(KeyState::default(), key);
}

#[test]
fn key_reset_keeps_whether_the_key_is_down() {
    let mut key = KeyState { state: true, released: true, pressed: true };
    key.reset();
    assert_eq!(key, KeyState { state: true, released: false, pressed: false });
}

#[test]
fn new_keyboard_has_every_key_up() {
    let keyboard = KeyboardInput::new();
    assert_eq!(keyboard.keys.len(), KEY_COUNT);
    assert_eq!(KEY_COUNT, 163);
    assert!(keyboard.keys.iter().all(|k| *k == KeyState::new()));
    assert!(KeyboardInput::default().keys.iter().all(|k| *k == KeyState::new()));
}

#[test]
fn keyboard_update_marks_one_key() {
    let mut keyboard = KeyboardInput::new();
    keyboard.update(10, true);
    assert_eq!(keyboard.keys[10], KeyState { state: true, released: false, pressed: true });
    keyboard.update(10, false);
    assert_eq!(keyboard.keys[10], KeyState { state: false, released: true, pressed: true });
    keyboard.update(162, true);
    keyboard.update(163, true);
    keyboard.update(usize::MAX, false);
    let down: Vec<usize> = (0..KEY_COUNT).filter(|i| keyboard.keys[*i].state).collect();
    assert_eq!(down, vec![162]);
}

#[test]
fn keyboard_reset_forgets_the_moves_of_every_key() {
    let mut keyboard = KeyboardInput::new();
    keyboard.update(0, true);
    keyboard.update(5, true);
    keyboard.update(5, false);
    keyboard.update(162, true);
    keyboard.reset();
    for (i, key) in keyboard.keys.iter().enumerate() {
        let down = i == 0 || i == 162;
        assert_eq!(*key, KeyState { state: down, released: false, pressed: false });
    }
}

#[test]
fn gamepad_and_sampler_mode_exist() {
    assert_eq!(GamepadInput {}, GamepadInput {});
    assert_eq!(SamplerMode::Default, SamplerMode::Default);
}

#[test]
fn vertex_joints_go_through_the_mapping() {
    let mapping = [3, NO_JOINT, 0, 7];
    assert_eq!(Joint::remap([0, 1, 2, 3], &mapping), Some(Joint { joints: [3, 0, 0, 7] }));
    assert_eq!(Joint::remap([3, 3, 3, 3], &mapping), Some(Joint { joints: [7, 7, 7, 7] }));
    assert_eq!(Joint::remap([0, 1, 2, 4], &mapping), None);
    assert_eq!(Joint::remap([0, 0, 0, 0], &[]), None);
    assert_eq!(Joint::remap([0, 0, 0, 0], &[0x1_0000_0005]), Some(Joint { joints: [5, 5, 5, 5] }));
}
