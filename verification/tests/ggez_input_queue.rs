use ggrs::ggez::game_info::GameInput;
use ggrs::ggez::input_queue::InputQueue;

#[test]
fn test_add_input_sequentally() {
    let mut queue = InputQueue::new(0, std::mem::size_of::<u32>());
    for i in 0..10 {
        let input = GameInput::new(i, None, std::mem::size_of::<u32>());
        queue.add_input(&input);
        assert_eq!(queue.get_last_confirmed_frame(), i);
        assert_eq!(queue.length(), (i + 1) as usize);
    }
}

#[test]
fn test_get_input_sequentally() {
    let mut queue = InputQueue::new(0, std::mem::size_of::<u32>());
    for i in 0..10 {
        let input = GameInput::new(i, None, std::mem::size_of::<u32>());
        queue.add_input(&input);
        assert_eq!(queue.get_last_confirmed_frame(), i);
        assert_eq!(queue.length(), (i + 1) as usize);
        let input_in_queue = queue.get_input(i);
        assert!(input_in_queue.equal(&input, false));
    }
}

#[test]
fn ggez_prediction_repeats_the_last_input() {
    let mut queue = InputQueue::new(1, 2);
    let input = GameInput::new(0, Some(&[3, 4, 0, 0, 0, 0, 0, 0]), 2);
    queue.add_input(&input);
    let predicted = queue.get_input(1);
    assert_eq!(predicted.frame, 1);
    assert!(predicted.equal(&input, true));
    assert_eq!(queue.get_first_incorrect_frame(), -1);
}

#[test]
fn ggez_confirmed_input_is_the_stored_one() {
    let mut queue = InputQueue::new(0, 4);
    for j in 0..=3 {
        queue.add_input(&GameInput::new(j, None, 4));
    }
    assert_eq!(queue.get_first_incorrect_frame(), -1);
    let g = queue.get_confirmed_input(2).unwrap();
    assert_eq!(g.frame, 2);
    assert!(queue.get_confirmed_input(5).is_err());
}

#[test]
fn ggez_discard_keeps_later_frames_and_an_older_bound_discards_nothing() {
    let mut queue = InputQueue::new(0, 4);
    for j in 0..=5 {
        let b = [j as u8, 0, 0, 0, 0, 0, 0, 0];
        queue.add_input(&GameInput::new(j, Some(&b), 4));
    }
    queue.discard_confirmed_frames(3);
    queue.discard_confirmed_frames(1);
    for k in 3..=5 {
        let g = queue.get_input(k);
        assert_eq!(g.frame, k);
        assert_eq!(g.bits[0], k as u8);
    }
}

#[test]
fn ggez_a_larger_delay_fills_the_gap() {
    let mut queue = InputQueue::new(0, 4);
    queue.set_frame_delay(2);
    for i in 0..10 {
        let mut b = [0u8; 8];
        b[..4].copy_from_slice(&(i as u32).to_le_bytes());
        queue.add_input(&GameInput::new(i, Some(&b), 4));
        assert_eq!(queue.get_last_confirmed_frame(), i + 2);
    }
    for i in 0..10 {
        let mut b = [0u8; 8];
        b[..4].copy_from_slice(&(i as u32).to_le_bytes());
        assert_eq!(queue.get_input(i + 2).bits, b);
    }
    assert_eq!(queue.get_input(0).bits, [0u8; 8]);
}

#[test]
fn ggez_delayed_inputs_follow_each_other() {
    let mut queue = InputQueue::new(0, 4);
    queue.set_frame_delay(2);
    for i in 0..100 {
        let input = GameInput::new(i, None, 4);
        assert!(queue.accepts(&input));
        queue.add_input(&input);
        assert_eq!(queue.get_last_confirmed_frame(), i + 2);
        if i >= 2 {
            queue.discard_confirmed_frames(i - 2);
        }
    }
}
