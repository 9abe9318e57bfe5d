use micromayhem::input::{Input, InputMask};

#[test]
fn test_input_test_new_inputmask() {
    let inputmask = InputMask::new();

    assert!(!inputmask.has_mask(Input::Up));
    assert!(!inputmask.has_mask(Input::Down));
    assert!(!inputmask.has_mask(Input::Left));
    assert!(!inputmask.has_mask(Input::Right));
}

#[test]
fn test_input_test_inputmask_mask() {
    let mut inputmask = InputMask::new();

    assert!(!inputmask.has_mask(Input::Up));

    inputmask.add_mask(Input::Up);

    assert!(inputmask.has_mask(Input::Up));
    assert!(!inputmask.has_mask(Input::Down));
}

#[test]
fn test_inputmask_double() {
    let mut inputmask = InputMask::new();

    inputmask.add_mask(Input::Up);
    inputmask.add_mask(Input::Up);

    assert!(inputmask.has_mask(Input::Up));
    assert!(!inputmask.has_mask(Input::Down));
}

#[test]
fn test_inputmask_remove() {
    let mut inputmask = InputMask::new();

    inputmask.add_mask(Input::Up);
    assert!(inputmask.has_mask(Input::Up));

    inputmask.remove_mask(Input::Up);
    assert!(!inputmask.has_mask(Input::Up));
}

#[test]
fn test_inputmask_double_remove() {
    let mut inputmask = InputMask::new();
    inputmask.remove_mask(Input::Up);

    assert!(!inputmask.has_mask(Input::Up));
}

#[test]
fn test_player_test_new_inputmask() {
    let inputmask = InputMask::new();

    assert!(!inputmask.has_mask(Input::Up));
    assert!(!inputmask.has_mask(Input::Down));
    assert!(!inputmask.has_mask(Input::Left));
    assert!(!inputmask.has_mask(Input::Right));
}

#[test]
fn test_player_test_inputmask_mask() {
    let mut inputmask = InputMask::new();

    assert!(!inputmask.has_mask(Input::Up));

    inputmask.add_mask(Input::Up);

    assert!(inputmask.has_mask(Input::Up));
    assert!(!inputmask.has_mask(Input::Down));
}

#[test]
fn inputmask_bits_follow_action_order() {
    let mut mask = InputMask::new();
    mask.add_mask(Input::Left);
    assert_eq!(mask.bits(), 0b1);
    mask.add_mask(Input::Throw);
    assert_eq!(mask.bits(), 0b100_0001);
    mask.add_mask(Input::Shoot);
    assert_eq!(mask.bits(), 0b101_0001);
    mask.remove_mask(Input::Left);
    assert_eq!(mask.bits(), 0b101_0000);
    assert!(mask.has_mask(Input::Shoot));
    assert!(!mask.has_mask(Input::Bomb));
}

#[test]
fn inputmask_from_bits_and_default() {
    let mask = InputMask::from_bits(0b10);
    assert!(mask.has_mask(Input::Right));
    assert!(!mask.has_mask(Input::Left));
    assert_eq!(InputMask::default().bits(), 0);
}
