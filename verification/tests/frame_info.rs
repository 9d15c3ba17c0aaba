use ggrs::frame_info::{GameInput, GameState, PlayerInput};

#[derive(Copy, Clone, PartialEq, Debug, Default)]
struct TestInput {
    inp: u8,
}

#[test]
fn test_input_equality() {
    let input1 = PlayerInput::new(0, TestInput { inp: 5 });
    let input2 = PlayerInput::new(0, TestInput { inp: 5 });
    assert!(input1.equal(&input2, false));
}

#[test]
fn test_input_equality_input_only() {
    let input1 = PlayerInput::new(0, TestInput { inp: 5 });
    let input2 = PlayerInput::new(5, TestInput { inp: 5 });
    assert!(input1.equal(&input2, true)); // different frames, but does not matter
}

#[test]
fn test_input_equality_fail() {
    let input1 = PlayerInput::new(0, TestInput { inp: 5 });
    let input2 = PlayerInput::new(0, TestInput { inp: 7 });
    assert!(!input1.equal(&input2, false)); // different bits
}

#[test]
fn test_input_equality_bits_only() {
    let fake_inputs: u32 = 5;
    let input_size = std::mem::size_of::<u32>();
    let serialized_inputs = bincode::serialize(&fake_inputs).unwrap();
    let mut input1 = GameInput::new(0, None, input_size);
    input1.copy_input(&serialized_inputs);
    let mut input2 = GameInput::new(5, None, input_size);
    input2.copy_input(&serialized_inputs);
    assert!(input1.equal(&input2, true)); // different frames, but does not matter
}

#[test]
fn frame_info_test_input_equality_fail() {
    let input_size = std::mem::size_of::<u32>();

    let fake_inputs: u32 = 5;
    let serialized_inputs = bincode::serialize(&fake_inputs).unwrap();
    let mut input1 = GameInput::new(0, None, input_size);
    input1.copy_input(&serialized_inputs);

    let fake_inputs: u32 = 7;
    let serialized_inputs = bincode::serialize(&fake_inputs).unwrap();
    let mut input2 = GameInput::new(0, None, input_size);
    input2.copy_input(&serialized_inputs);

    assert!(!input1.equal(&input2, false)); // different bits
}

#[test]
fn blank_player_input_is_the_default_input() {
    let blank: PlayerInput<TestInput> = PlayerInput::blank_input(3);
    assert_eq!(blank.frame, 3);
    assert_eq!(blank.input, TestInput::default());
}

#[test]
fn game_input_keeps_given_bytes_and_erases_them() {
    let bytes = [1u8, 2, 3, 4, 5, 6, 7, 8];
    let mut input = GameInput::new(2, Some(&bytes), 3);
    assert_eq!(input.input(), &[1u8, 2, 3][..]);
    input.erase_bits();
    assert_eq!(input.buffer, [0u8; 8]);
    assert_eq!(input.frame, 2);
}

#[test]
fn equality_respects_size_and_frame() {
    let a = GameInput::new(1, None, 2);
    let b = GameInput::new(1, None, 3);
    let c = GameInput::new(2, None, 2);
    assert!(!a.equal(&b, true));
    assert!(!a.equal(&c, false));
    assert!(a.equal(&c, true));
}

#[test]
fn new_game_state_belongs_to_no_frame() {
    let state: GameState<u8> = GameState::new();
    assert_eq!(state.frame, -1);
    assert!(state.data.is_none());
    assert!(state.checksum.is_none());
}
