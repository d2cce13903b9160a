use chip8rtic::keypad::Keypad;

#[test]
fn new_keypad_has_no_key_pressed() {
    let keypad = Keypad::new([1, 2, 3, 4, 5, 6, 7, 8]);
    assert_eq!(keypad.pressed_key(), None);
    for k in 0..16u8 {
        assert!(!keypad.is_pressed(k));
    }
}

#[test]
fn held_button_presses_its_key() {
    let mut keypad = Keypad::new([1, 2, 3, 4, 5, 6, 7, 8]);
    keypad.check([None, Some(true), None, None, None, None, None, Some(false)]);
    assert!(keypad.is_pressed(2));
    assert!(!keypad.is_pressed(8));
    assert_eq!(keypad.pressed_key(), Some(2));
}

#[test]
fn released_button_releases_its_key() {
    let mut keypad = Keypad::new([1, 2, 3, 4, 5, 6, 7, 8]);
    keypad.check([Some(true); 8]);
    assert_eq!(keypad.pressed_key(), Some(1));
    keypad.check([Some(false), None, None, None, None, None, None, None]);
    assert!(!keypad.is_pressed(1));
    assert!(keypad.is_pressed(2));
    assert_eq!(keypad.pressed_key(), Some(2));
}

#[test]
fn unreadable_button_keeps_its_key() {
    let mut keypad = Keypad::new([0xA, 2, 3, 4, 5, 6, 7, 8]);
    keypad.check([Some(true), None, None, None, None, None, None, None]);
    keypad.check([None; 8]);
    assert!(keypad.is_pressed(0xA));
}

#[test]
fn last_button_for_a_key_decides() {
    let mut keypad = Keypad::new([3, 3, 0, 0, 0, 0, 0, 0]);
    keypad.check([Some(true), Some(false), None, None, None, None, None, None]);
    assert!(!keypad.is_pressed(3));
    keypad.check([Some(false), Some(true), None, None, None, None, None, None]);
    assert!(keypad.is_pressed(3));
}

#[test]
fn pressed_key_reports_the_lowest() {
    let mut keypad = Keypad::new([15, 9, 12, 0, 0, 0, 0, 0]);
    keypad.check([Some(true), Some(true), Some(true), None, None, None, None, None]);
    assert_eq!(keypad.pressed_key(), Some(9));
}

#[test]
fn same_sampling_twice_changes_nothing_more() {
    let mut keypad = Keypad::new([1, 2, 3, 4, 5, 6, 7, 8]);
    let sample = [Some(true), Some(false), None, Some(true), None, None, Some(false), None];
    keypad.check(sample);
    let once: Vec<bool> = (0..16u8).map(|k| keypad.is_pressed(k)).collect();
    keypad.check(sample);
    let twice: Vec<bool> = (0..16u8).map(|k| keypad.is_pressed(k)).collect();
    assert_eq!(once, twice);
}
