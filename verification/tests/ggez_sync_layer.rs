use ggrs::ggez::game_info::{GameInput, GameState};
use ggrs::ggez::sync_layer::SyncLayer;
use ggrs::ggez::{GGEZError, GGEZEvent, GGEZInterface};

/// A game whose state is its frame number.
struct Counter {
    frame: i32,
    loaded: Vec<i32>,
}

impl GGEZInterface for Counter {
    fn save_game_state(&self) -> GameState {
        GameState { frame: self.frame, buffer: vec![self.frame as u8], checksum: None }
    }
    fn load_game_state(&mut self, state: &GameState) {
        self.frame = state.frame;
        self.loaded.push(state.frame);
    }
    fn advance_frame(&mut self, _inputs: Vec<GameInput>, _disconnect_flags: u8) {
        self.frame += 1;
    }
    fn on_event(&mut self, _info: GGEZEvent) {}
}

#[test]
fn ggez_layer_saves_and_loads_states() {
    let mut layer = SyncLayer::new(1, 4);
    let mut game = Counter { frame: 0, loaded: vec![] };
    assert!(layer.get_last_saved_state().is_none());
    for _ in 0..4 {
        layer.save_current_state(&game).unwrap();
        game.frame += 1;
        layer.advance_frame();
    }
    assert_eq!(layer.get_current_frame(), 4);
    assert_eq!(layer.get_last_saved_state().unwrap().frame, 3);
    layer.load_frame(&mut game, 1).unwrap();
    assert_eq!(game.loaded, vec![1]);
    assert_eq!(layer.get_last_saved_state().unwrap().frame, 1);
}

#[test]
fn ggez_layer_refuses_frames_outside_the_ring() {
    let mut layer = SyncLayer::new(1, 4);
    let mut game = Counter { frame: 0, loaded: vec![] };
    layer.save_current_state(&game).unwrap();
    layer.advance_frame();
    assert!(matches!(layer.load_frame(&mut game, 1), Err(GGEZError::InvalidRequest)));
    assert!(matches!(layer.load_frame(&mut game, -1), Err(GGEZError::InvalidRequest)));
    assert!(matches!(layer.load_frame(&mut game, 5), Err(GGEZError::InvalidRequest)));
    layer.advance_frame();
    // frame 1 was never saved
    assert!(matches!(layer.load_frame(&mut game, 1), Err(GGEZError::GeneralFailure(_))));
    assert!(layer.load_frame(&mut game, 0).is_ok());
}

#[test]
fn ggez_layer_refuses_a_state_for_no_frame() {
    let mut layer = SyncLayer::new(1, 4);
    let game = Counter { frame: -1, loaded: vec![] };
    assert!(matches!(layer.save_current_state(&game), Err(GGEZError::GeneralFailure(_))));
    assert!(layer.get_last_saved_state().is_none());
}

#[test]
fn ggez_layer_checks_delays_and_inputs() {
    let mut layer = SyncLayer::new(2, 4);
    assert!(matches!(layer.set_frame_delay(2, 1), Err(GGEZError::InvalidPlayerHandle)));
    assert!(matches!(layer.set_frame_delay(0, 11), Err(GGEZError::InvalidRequest)));
    assert!(layer.set_frame_delay(0, 0).is_ok());
    let input = GameInput::new(0, None, 4);
    assert!(layer.accepts_input(0, &input));
    assert!(layer.add_local_input(0, &input).is_ok());
    assert!(!layer.accepts_input(0, &input));
    let late = GameInput::new(3, None, 4);
    assert!(matches!(layer.add_local_input(1, &late), Err(GGEZError::GeneralFailure(_))));
    assert!(layer.add_remote_input(1, &input).is_ok());
}

#[test]
fn ggez_layer_stops_local_inputs_at_the_prediction_threshold() {
    let mut layer = SyncLayer::new(1, 4);
    for f in 0..7 {
        assert!(layer.add_local_input(0, &GameInput::new(f, None, 4)).is_ok());
        layer.advance_frame();
    }
    // frame 7 is eight frames past the last confirmed frame (none)
    assert!(matches!(
        layer.add_local_input(0, &GameInput::new(7, None, 4)),
        Err(GGEZError::PredictionThreshold)
    ));
}

#[test]
fn ggez_layer_keeps_a_given_state() {
    let mut layer = SyncLayer::new(1, 4);
    let state = GameState { frame: 7, buffer: vec![1, 2, 3], checksum: Some(9) };
    layer.save_state(state).unwrap();
    let kept = layer.get_last_saved_state().unwrap();
    assert_eq!(kept.frame, 7);
    assert_eq!(kept.buffer, vec![1, 2, 3]);
    assert_eq!(kept.checksum, Some(9));
    assert!(matches!(layer.save_state(GameState::new()), Err(GGEZError::GeneralFailure(_))));
    assert_eq!(layer.get_last_saved_state().unwrap().frame, 7);
}
