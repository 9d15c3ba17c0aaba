use ggrs::classic::frame_info::{GameInput, GameState};
use ggrs::classic::sync_layer::{SavedStates, SyncLayer};

fn byte_input(frame: i32, value: u8) -> GameInput {
    let mut bytes = [0u8; 8];
    bytes[0] = value;
    GameInput::new(frame, Some(&bytes), 1)
}

#[test]
fn test_different_delays() {
    let mut sync_layer = SyncLayer::new(2, 1);
    let p1_delay = 2;
    let p2_delay = 0;
    sync_layer.set_frame_delay(0, p1_delay);
    sync_layer.set_frame_delay(1, p2_delay);

    for i in 0..20 {
        let game_input = byte_input(i, i as u8);
        // adding input as remote to avoid prediction threshold detection
        sync_layer.add_remote_input(0, game_input);
        sync_layer.add_remote_input(1, game_input);

        if i >= 3 {
            let sync_inputs = sync_layer.synchronized_inputs();
            let player0_inputs = sync_inputs[0].buffer[0];
            let player1_inputs = sync_inputs[1].buffer[0];
            assert_eq!(player0_inputs, i as u8 - p1_delay as u8);
            assert_eq!(player1_inputs, i as u8 - p2_delay as u8);
        }

        sync_layer.advance_frame();
    }
}

fn state(frame: i32, checksum: u32) -> GameState {
    GameState { frame, buffer: vec![frame as u8], checksum: Some(checksum) }
}

#[test]
fn load_frame_rolls_back_to_the_saved_state() {
    let mut layer = SyncLayer::new(1, 1);
    assert!(layer.last_saved_state().is_none());
    for f in 0..5 {
        layer.save_current_state(state(f, 100 + f as u32));
        layer.advance_frame();
    }
    assert_eq!(layer.current_frame(), 5);
    assert_eq!(layer.last_saved_state().unwrap().frame, 4);
    assert_eq!(layer.find_saved_frame_index(2), Some(3));
    assert_eq!(layer.find_saved_frame_index(9), None);
    let loaded = layer.load_frame(2);
    assert_eq!(loaded.frame, 2);
    assert_eq!(loaded.checksum, Some(102));
    assert_eq!(layer.current_frame(), 2);
}

#[test]
fn local_inputs_stop_at_the_prediction_threshold() {
    let mut layer = SyncLayer::new(1, 1);
    for f in 0..8 {
        assert!(layer.add_local_input(0, byte_input(f, 1)).is_ok());
        layer.advance_frame();
    }
    // frame 8 is more than eight frames past the last confirmed frame (none, -1)
    assert_eq!(
        layer.add_local_input(0, byte_input(8, 1)),
        Err(ggrs::classic::error::GGRSError::PredictionThreshold)
    );
    assert!(layer.can_confirm(5));
    layer.set_last_confirmed_frame(5);
    assert_eq!(layer.last_confirmed_frame(), 5);
    assert!(layer.add_local_input(0, byte_input(8, 1)).is_ok());
}

#[test]
fn confirmed_inputs_are_the_stored_ones() {
    let mut layer = SyncLayer::new(2, 1);
    layer.add_remote_input(0, byte_input(0, 7));
    layer.add_remote_input(1, byte_input(0, 8));
    assert!(layer.holds_confirmed(0));
    let inputs = layer.confirmed_inputs();
    assert_eq!(inputs[0].buffer[0], 7);
    assert_eq!(inputs[1].buffer[0], 8);
    assert!(layer.serves_all(0));
    assert!(layer.accepts_input(0, &byte_input(1, 1)));
    assert!(!layer.accepts_input(0, &byte_input(0, 1)));
}

#[test]
fn reset_prediction_ends_a_misprediction() {
    let mut layer = SyncLayer::new(1, 1);
    layer.add_remote_input(0, byte_input(0, 1));
    layer.advance_frame();
    // frame 1 is predicted as a repetition of frame 0
    let predicted = layer.synchronized_inputs();
    assert_eq!(predicted[0].buffer[0], 1);
    layer.add_remote_input(0, byte_input(1, 2));
    // the misprediction blocks further requests until it is handled
    assert!(!layer.serves_all(1));
    layer.reset_prediction(1);
    assert!(layer.serves_all(1));
    assert_eq!(layer.synchronized_inputs()[0].buffer[0], 2);
}

#[test]
fn saved_ring_returns_values_in_order() {
    let mut ring = SavedStates { states: vec![0u32; 8], head: 0 };
    for v in 1..=10u32 {
        ring.save_state(v);
    }
    assert_eq!(*ring.state_at_head(), 10);
    for k in 0..8usize {
        assert_eq!(*ring.state_in_past(k), 10 - k as u32);
    }
    assert_eq!(*ring.state_in_past(8), 10);
}
