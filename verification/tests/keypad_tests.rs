use chip8::keypad::Keypad;

#[test]
fn new_keypad_is_idle() {
    let k = Keypad::new();
    assert_eq!(k.state, vec![false; 16]);
    assert_eq!(k.last_released, 0);
    assert!(!k.just_released);
}

#[test]
fn press_then_release_detects_edge() {
    let mut k = Keypad::new();
    k.set_state(vec![5]);
    assert!(k.state[5]);
    assert!(!k.just_released);
    k.set_state(vec![]);
    assert!(!k.state[5]);
    assert!(k.just_released);
    assert_eq!(k.last_released, 5);
}

#[test]
fn holding_a_key_raises_no_edge() {
    let mut k = Keypad::new();
    k.set_state(vec![5]);
    k.set_state(vec![5]);
    assert!(!k.just_released);
    k.set_state(vec![5]);
    assert!(!k.just_released);
}

#[test]
fn edge_is_recomputed_each_update() {
    let mut k = Keypad::new();
    k.set_state(vec![3]);
    k.set_state(vec![]);
    assert!(k.just_released);
    // the next update sees no new transition, so the edge drops
    k.set_state(vec![]);
    assert!(!k.just_released);
    assert_eq!(k.last_released, 3);
}

#[test]
fn simultaneous_releases_report_the_last_scanned() {
    let mut k = Keypad::new();
    k.set_state(vec![2, 9, 11]);
    k.set_state(vec![]);
    assert!(k.just_released);
    assert_eq!(k.last_released, 11);
}

#[test]
fn release_of_the_final_key_is_never_seen() {
    let mut k = Keypad::new();
    // the scan stops short of key 15, exactly as the machine does
    k.set_state(vec![15]);
    assert!(k.state[15]);
    k.set_state(vec![]);
    assert!(!k.state[15]);
    assert!(!k.just_released);
}

#[test]
fn new_presses_do_not_raise_the_edge() {
    let mut k = Keypad::new();
    k.set_state(vec![1]);
    k.set_state(vec![1, 2]);
    assert!(!k.just_released);
    k.set_state(vec![2]);
    assert!(k.just_released);
    assert_eq!(k.last_released, 1);
}
