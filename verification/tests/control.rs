use asterism::control::{
    find_action, next_values, Action, ControlReaction, InputType, InputWrapper, KeyInput, KeyboardControl, Values,
};
use asterism::Logic;

/// What the input device reports for one frame.
struct Frame {
    held: Vec<u8>,
    pressed: Vec<u8>,
    released: Vec<u8>,
}

struct Scripted;

impl InputWrapper for Scripted {
    type KeyCode = u8;
    type InputHelper = Frame;

    fn new() -> Self {
        Scripted
    }

    fn clear(&mut self) {}

    fn update_held(&mut self, key: &u8, events: &Frame) -> bool {
        events.held.contains(key)
    }

    fn is_pressed(&self, key: &u8, events: &Frame) -> bool {
        events.pressed.contains(key)
    }

    fn is_released(&self, key: &u8, events: &Frame) -> bool {
        events.released.contains(key)
    }
}

fn frame(held: &[u8], pressed: &[u8], released: &[u8]) -> Frame {
    Frame { held: held.to_vec(), pressed: pressed.to_vec(), released: released.to_vec() }
}

fn zero() -> Values {
    Values { changed_by: 0, value: 0 }
}

#[test]
fn add_key_map_adds_sets_up_to_the_index() {
    let mut c: KeyboardControl<u32, Scripted> = KeyboardControl::new();
    c.add_key_map(2, b'a', 7);
    assert_eq!(c.mapping.len(), 3);
    assert_eq!(c.values.len(), 3);
    assert!(c.mapping[0].is_empty() && c.mapping[1].is_empty());
    assert_eq!(c.mapping[2].len(), 1);
    assert_eq!(c.mapping[2][0].id, 7);
    assert!(c.mapping[2][0].is_valid);
    assert_eq!(c.mapping[2][0].input_type, InputType::Digital);
    assert_eq!(c.values[2], vec![zero()]);
}

#[test]
fn added_key_is_found_with_zero_values() {
    let mut c: KeyboardControl<u32, Scripted> = KeyboardControl::new();
    c.add_key_map(0, b'a', 1);
    c.add_key_map(1, b'b', 2);
    assert_eq!(c.get_action(2), Some(zero()));
    assert_eq!(c.get_action_in_set(1, 2), Some(zero()));
    assert_eq!(c.get_action_in_set(0, 2), None);
    assert_eq!(c.get_action(3), None);
}

#[test]
fn digital_key_press_hold_release() {
    let mut c: KeyboardControl<u32, Scripted> = KeyboardControl::new();
    c.add_key_map(0, b'a', 1);
    c.update_input(&frame(&[b'a'], &[b'a'], &[]));
    assert_eq!(c.get_action(1), Some(Values { changed_by: 1, value: 1 }));
    c.update_input(&frame(&[b'a'], &[], &[]));
    assert_eq!(c.get_action(1), Some(Values { changed_by: 0, value: 1 }));
    c.update_input(&frame(&[], &[], &[b'a']));
    assert_eq!(c.get_action(1), Some(Values { changed_by: -1, value: 0 }));
    c.update_input(&frame(&[], &[], &[]));
    assert_eq!(c.get_action(1), Some(zero()));
}

#[test]
fn release_of_a_key_at_zero_does_not_go_below_zero() {
    let mut c: KeyboardControl<u32, Scripted> = KeyboardControl::new();
    c.add_key_map(0, b'a', 1);
    c.update_input(&frame(&[], &[], &[b'a']));
    assert_eq!(c.get_action(1), Some(zero()));
}

#[test]
fn invalid_key_is_reset_and_not_read() {
    let mut c: KeyboardControl<u32, Scripted> = KeyboardControl::new();
    c.add_key_map(0, b'a', 1);
    c.update_input(&frame(&[b'a'], &[b'a'], &[]));
    c.handle_predicate(&ControlReaction::SetKeyInvalid(0, 1));
    assert!(!c.mapping[0][0].is_valid);
    c.update_input(&frame(&[b'a'], &[b'a'], &[]));
    assert_eq!(c.get_action(1), Some(zero()));
    c.handle_predicate(&ControlReaction::SetKeyValid(0, 1));
    c.update_input(&frame(&[b'a'], &[b'a'], &[]));
    assert_eq!(c.get_action(1), Some(Values { changed_by: 1, value: 1 }));
}

#[test]
fn reactions_add_and_remove_keys() {
    let mut c: KeyboardControl<u32, Scripted> = KeyboardControl::new();
    c.add_key_map(0, b'a', 1);
    c.handle_predicate(&ControlReaction::AddKeyToSet(0, 2, b'b', InputType::Digital));
    assert_eq!(c.mapping[0].len(), 2);
    assert_eq!(c.mapping[0][1].id, 2);
    // the new action gets its own values, at 0
    assert_eq!(c.values[0], vec![zero(), zero()]);
    c.handle_predicate(&ControlReaction::RemoveKeyFromSet(0, 1));
    assert_eq!(c.mapping[0].len(), 1);
    assert_eq!(c.mapping[0][0].id, 2);
    // the removed action's values go with it
    assert_eq!(c.values[0].len(), 1);
    c.handle_predicate(&ControlReaction::RemoveKeyFromSet(0, 9));
    assert_eq!(c.mapping[0].len(), 1);
    assert_eq!(c.values[0].len(), 1);
}

#[test]
fn actions_keep_their_own_values_after_a_removal() {
    let mut c: KeyboardControl<u32, Scripted> = KeyboardControl::new();
    c.add_key_map(0, b'a', 1);
    c.add_key_map(0, b'b', 2);
    c.update_input(&frame(&[b'b'], &[b'b'], &[]));
    assert_eq!(c.get_action(2), Some(Values { changed_by: 1, value: 1 }));
    c.handle_predicate(&ControlReaction::RemoveKeyFromSet(0, 1));
    assert_eq!(c.get_action(1), None);
    assert_eq!(c.get_action(2), Some(Values { changed_by: 1, value: 1 }));
    c.handle_predicate(&ControlReaction::AddKeyToSet(0, 3, b'c', InputType::Digital));
    assert_eq!(c.get_action(3), Some(zero()));
    assert_eq!(c.get_action(2), Some(Values { changed_by: 1, value: 1 }));
}

#[test]
fn action_keys_follow_the_mapping() {
    let mut c: KeyboardControl<u32, Scripted> = KeyboardControl::new();
    c.add_key_map(0, b'a', 1);
    c.add_key_map(0, b'b', 2);
    c.add_key_map(2, b'z', 3);
    assert_eq!(c.action_keys(), vec![vec![b'a', b'b'], vec![], vec![b'z']]);
}

#[test]
fn key_reports_apply_to_their_own_actions() {
    let mut c: KeyboardControl<u32, Scripted> = KeyboardControl::new();
    c.add_key_map(0, b'a', 1);
    c.add_key_map(0, b'b', 2);
    c.add_key_map(1, b'c', 3);
    c.handle_predicate(&ControlReaction::SetKeyInvalid(1, 3));
    c.values[1][0] = Values { changed_by: 1, value: 1 };
    let reports = vec![vec![(false, false, false), (true, true, false)], vec![(true, true, false)]];
    c.apply_key_reports(&reports);
    assert_eq!(c.values[0], vec![zero(), Values { changed_by: 1, value: 1 }]);
    // an invalid action is reset whatever was reported
    assert_eq!(c.values[1], vec![zero()]);
    let reports = vec![vec![(false, false, false), (false, false, true)], vec![(false, false, false)]];
    c.apply_key_reports(&reports);
    assert_eq!(c.values[0], vec![zero(), Values { changed_by: -1, value: 0 }]);
}

#[test]
fn next_values_exact() {
    assert_eq!(next_values(zero(), true, true, false), Values { changed_by: 1, value: 1 });
    assert_eq!(next_values(Values { changed_by: 1, value: 1 }, true, true, false), Values { changed_by: 1, value: 1 });
    assert_eq!(next_values(Values { changed_by: 0, value: 1 }, false, false, true), Values { changed_by: -1, value: 0 });
    assert_eq!(next_values(zero(), false, false, true), zero());
    assert_eq!(next_values(Values { changed_by: 0, value: 1 }, false, false, false), Values { changed_by: 0, value: 1 });
}

#[test]
fn find_action_gives_first_index() {
    let acts = vec![
        Action::new(3u32, b'x', InputType::Digital),
        Action::new(4u32, b'y', InputType::Digital),
        Action::new(3u32, b'z', InputType::Digital),
    ];
    assert_eq!(find_action(&acts, &3), Some(0));
    assert_eq!(find_action(&acts, &4), Some(1));
    assert_eq!(find_action(&acts, &5), None);
}

#[test]
fn key_input_range_is_zero_to_one() {
    let k = KeyInput { keycode: b'q' };
    assert_eq!(k.min(), 0);
    assert_eq!(k.max(), 1);
}
