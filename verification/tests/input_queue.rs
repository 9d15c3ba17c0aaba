use ggrs::frame_info::GameInput;
use ggrs::input_queue::InputQueue;

fn u32_input(frame: i32, value: u32) -> GameInput {
    let mut input = GameInput::new(frame, None, std::mem::size_of::<u32>());
    let serialized_inputs = bincode::serialize(&value).unwrap();
    input.copy_input(&serialized_inputs);
    input
}

#[test]
fn test_add_input_sequentially() {
    let mut queue = InputQueue::new(0, std::mem::size_of::<u32>());
    for i in 0..10 {
        let input = GameInput::new(i, None, std::mem::size_of::<u32>());
        queue.add_input(input);
        assert_eq!(queue.last_added_frame(), i);
        assert_eq!(queue.length(), (i + 1) as usize);
    }
}

#[test]
fn test_input_sequentially() {
    let mut queue = InputQueue::new(0, std::mem::size_of::<u32>());
    for i in 0..10 {
        let mut input = GameInput::new(i, None, std::mem::size_of::<u32>());
        let fake_inputs: u32 = i as u32;
        let serialized_inputs = bincode::serialize(&fake_inputs).unwrap();
        input.copy_input(&serialized_inputs);
        queue.add_input(input);
        assert_eq!(queue.last_added_frame(), i);
        assert_eq!(queue.length(), (i + 1) as usize);
        let input_in_queue = queue.input(i);
        assert!(input_in_queue.equal(&input, false));
    }
}

#[test]
fn test_delayed_inputs() {
    let mut queue = InputQueue::new(0, std::mem::size_of::<u32>());
    let delay: i32 = 2;
    queue.set_frame_delay(delay as u32);
    for i in 0..10 {
        let mut input = GameInput::new(i, None, std::mem::size_of::<u32>());
        let fake_inputs: u32 = i as u32;
        let serialized_inputs = bincode::serialize(&fake_inputs).unwrap();
        input.copy_input(&serialized_inputs);
        queue.add_input(input);
        assert_eq!(queue.last_added_frame(), i + delay);
        assert_eq!(queue.length(), (i + delay + 1) as usize);
        let input_in_queue = queue.input(i + delay);
        assert!(input_in_queue.equal(&input, true));
    }
}

#[test]
fn add_input_returns_the_delayed_frame() {
    let mut queue = InputQueue::new(0, 4);
    queue.set_frame_delay(3);
    assert_eq!(queue.add_input(u32_input(0, 7)), 3);
    assert_eq!(queue.length(), 4);
    // the delay fills the skipped frames with the previous (blank) input
    let filled = queue.input(1);
    assert_eq!(filled.frame, 1);
    assert_eq!(filled.input(), &[0u8, 0, 0, 0][..]);
}

#[test]
fn missing_input_is_predicted_from_the_last_one() {
    let mut queue = InputQueue::new(0, 4);
    queue.add_input(u32_input(0, 9));
    let predicted = queue.input(1);
    assert_eq!(predicted.frame, 1);
    assert_eq!(predicted.input(), &9u32.to_le_bytes()[..]);
    assert_eq!(queue.first_incorrect_frame(), -1);
}

#[test]
fn wrong_prediction_marks_the_first_incorrect_frame() {
    let mut queue = InputQueue::new(0, 4);
    queue.add_input(u32_input(0, 9));
    let _ = queue.input(1);
    queue.add_input(u32_input(1, 10));
    assert_eq!(queue.first_incorrect_frame(), 1);
    queue.reset_prediction(1);
    assert_eq!(queue.first_incorrect_frame(), -1);
}

#[test]
fn right_prediction_is_not_an_error() {
    let mut queue = InputQueue::new(0, 4);
    queue.add_input(u32_input(0, 9));
    let _ = queue.input(1);
    queue.add_input(u32_input(1, 9));
    assert_eq!(queue.first_incorrect_frame(), -1);
    let stored = queue.input(1);
    assert_eq!(stored.input(), &9u32.to_le_bytes()[..]);
}

#[test]
fn prediction_before_any_input_is_zeroed() {
    let mut queue = InputQueue::new(0, 4);
    let predicted = queue.input(0);
    assert_eq!(predicted.frame, 0);
    assert_eq!(predicted.input(), &[0u8, 0, 0, 0][..]);
}

#[test]
fn discarding_confirmed_frames_shrinks_the_queue() {
    let mut queue = InputQueue::new(0, 4);
    for i in 0..10 {
        queue.add_input(u32_input(i, i as u32));
    }
    let _ = queue.input(9);
    queue.discard_confirmed_frames(5);
    assert_eq!(queue.length(), 5);
    let kept = queue.input(6);
    assert_eq!(kept.input(), &6u32.to_le_bytes()[..]);
    assert_eq!(queue.confirmed_input(7).input(), &7u32.to_le_bytes()[..]);
}

#[test]
fn checkers_report_what_the_queue_takes() {
    let mut queue = InputQueue::new(0, 4);
    assert!(queue.accepts(&u32_input(0, 1)));
    queue.add_input(u32_input(0, 1));
    // the same frame twice, or a gap, is not taken
    assert!(!queue.accepts(&u32_input(0, 1)));
    assert!(!queue.accepts(&u32_input(3, 1)));
    assert!(queue.accepts(&u32_input(1, 1)));
    // a wrong input size is not taken
    assert!(!queue.accepts(&GameInput::new(1, None, 2)));
    assert!(queue.serves(0));
    assert!(queue.serves(5));
    assert!(!queue.serves(-3));
}
