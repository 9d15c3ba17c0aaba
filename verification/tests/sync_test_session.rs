use ggrs::box_game::BoxGame;
use ggrs::classic::frame_info::{blank_input, FrameInfo, GameInput, GameState};
use ggrs::classic::player::Player;
use ggrs::classic::GGRSInterface;
use ggrs::classic::error::GGRSError;
use ggrs::classic::start_synctest_session;
use ggrs::classic::sync_test_session::check_resimulated;
use ggrs::PlayerType;

#[test]
fn test_synctest_session_test_create_session() {
    start_synctest_session(2, std::mem::size_of::<u32>(), 1).unwrap();
}

#[test]
fn test_synctest_session_test_add_player() {
    let mut sess = start_synctest_session(2, std::mem::size_of::<u32>(), 1).unwrap();

    // add players correctly
    let dummy_player_0 = Player::<String>::new(PlayerType::Local, 0);
    let dummy_player_1 = Player::<String>::new(PlayerType::Local, 1);

    assert!(sess.add_player(dummy_player_0.player_type, dummy_player_0.player_handle).is_ok());
    assert!(sess.add_player(dummy_player_1.player_type, dummy_player_1.player_handle).is_ok());
}

#[test]
fn test_synctest_session_test_add_player_invalid_handle() {
    let mut sess = start_synctest_session(2, std::mem::size_of::<u32>(), 1).unwrap();

    // add a player incorrectly
    let incorrect_player = Player::<String>::new(PlayerType::Local, 3);

    assert!(sess.add_player(incorrect_player.player_type, incorrect_player.player_handle).is_err());
}

#[test]
fn test_add_player_invalid_player_type_for_synctest() {
    let mut sess = start_synctest_session(2, std::mem::size_of::<u32>(), 1).unwrap();

    // add a player incorrectly
    let addr = String::from("127.0.0.1:8080");
    let incorrect_player = Player::new(PlayerType::Remote(addr), 0);

    assert!(sess.add_player(incorrect_player.player_type, incorrect_player.player_handle).is_err());
}

#[test]
fn test_synctest_session_test_add_local_input_not_running() {
    let mut sess = start_synctest_session(2, std::mem::size_of::<u32>(), 1).unwrap();

    // add 0 input for player 0
    let fake_inputs: u32 = 0;
    let serialized_inputs = bincode::serialize(&fake_inputs).unwrap();

    assert!(sess.add_local_input(0, &serialized_inputs).is_err());
}

#[test]
fn test_synctest_session_test_add_local_input_invalid_handle() {
    let mut sess = start_synctest_session(2, std::mem::size_of::<u32>(), 1).unwrap();
    sess.start_session().unwrap();

    // add 0 input for player 3
    let fake_inputs: u32 = 0;
    let serialized_inputs = bincode::serialize(&fake_inputs).unwrap();

    assert!(sess.add_local_input(3, &serialized_inputs).is_err());
}

#[test]
fn test_synctest_session_test_start_synctest_session() {
    let mut sess = start_synctest_session(2, std::mem::size_of::<u32>(), 1).unwrap();
    sess.add_player(PlayerType::<String>::Local, 1).unwrap();
    sess.start_session().unwrap();
}

#[test]
fn test_synctest_session_test_advance_frame() {
    let handle = 1;
    let check_distance = 7;
    let mut stub = BoxGame::new();
    let mut sess = start_synctest_session(2, std::mem::size_of::<u32>(), check_distance).unwrap();
    sess.add_player(PlayerType::<String>::Local, handle).unwrap();
    sess.start_session().unwrap();

    for i in 0..200 {
        let input: u32 = i;
        let serialized_input = bincode::serialize(&input).unwrap();
        sess.add_local_input(handle, &serialized_input).unwrap();
        sess.advance_frame(&mut stub).unwrap();
        assert_eq!(stub.gs.frame, i as i32 + 1); // frame should have advanced
    }
}

#[test]
fn test_synctest_session_test_advance_frames_with_delayed_input() {
    let handle = 1;
    let check_distance = 7;
    let mut stub = BoxGame::new();
    let mut sess = start_synctest_session(2, std::mem::size_of::<u32>(), check_distance).unwrap();
    sess.add_player(PlayerType::<String>::Local, 1).unwrap();
    sess.set_frame_delay(2, handle).unwrap();
    sess.start_session().unwrap();

    for i in 0..200 {
        let input: u32 = i;
        let serialized_input = bincode::serialize(&input).unwrap();
        sess.add_local_input(handle, &serialized_input).unwrap();
        sess.advance_frame(&mut stub).unwrap();
        assert_eq!(stub.gs.frame, i as i32 + 1); // frame should have advanced
    }
}

#[test]
fn start_refuses_sizes_past_the_maximum() {
    assert_eq!(start_synctest_session(5, 4, 1).err(), Some(GGRSError::InvalidRequest));
    assert_eq!(start_synctest_session(2, 9, 1).err(), Some(GGRSError::InvalidRequest));
    assert_eq!(start_synctest_session(2, 4, 9).err(), Some(GGRSError::InvalidRequest));
}

#[test]
fn starting_twice_is_an_invalid_request() {
    let mut sess = start_synctest_session(2, 4, 1).unwrap();
    assert_eq!(sess.current_frame(), -1);
    sess.start_session().unwrap();
    assert_eq!(sess.current_frame(), 0);
    assert_eq!(sess.start_session(), Err(GGRSError::InvalidRequest));
}

#[test]
fn add_local_input_error_kinds() {
    let mut sess = start_synctest_session(2, 4, 1).unwrap();
    assert_eq!(sess.add_local_input(0, &[0u8; 4]), Err(GGRSError::NotSynchronized));
    sess.start_session().unwrap();
    assert_eq!(sess.add_local_input(3, &[0u8; 4]), Err(GGRSError::InvalidHandle));
    assert!(sess.accepts_local_input(0, &[0u8; 4]));
    assert!(!sess.accepts_local_input(0, &[0u8; 3]));
    assert!(!sess.accepts_local_input(2, &[0u8; 4]));
    assert_eq!(sess.add_local_input(0, &[0u8; 4]), Ok(()));
    // the same frame twice is not taken by the queue
    assert!(!sess.accepts_local_input(0, &[0u8; 4]));
}

#[test]
fn set_frame_delay_checks_the_handle() {
    let mut sess = start_synctest_session(2, 4, 1).unwrap();
    assert_eq!(sess.set_frame_delay(1, 5), Err(GGRSError::InvalidHandle));
    assert_eq!(sess.set_frame_delay(1, 0), Ok(()));
}

/// A game whose checksum depends on how often it was saved, so resimulating it never gives
/// the same checksums.
struct Flaky {
    frame: i32,
    saves: std::cell::Cell<u32>,
}

impl GGRSInterface for Flaky {
    fn save_game_state(&self) -> GameState {
        self.saves.set(self.saves.get() + 1);
        GameState { frame: self.frame, buffer: vec![], checksum: Some(self.saves.get()) }
    }
    fn load_game_state(&mut self, state: &GameState) {
        self.frame = state.frame;
    }
    fn advance_frame(&mut self, _inputs: Vec<GameInput>) {
        self.frame += 1;
    }
}

#[test]
fn sync_test_detects_a_game_that_is_not_deterministic() {
    let mut game = Flaky { frame: 0, saves: std::cell::Cell::new(0) };
    let mut sess = start_synctest_session(1, 4, 1).unwrap();
    sess.start_session().unwrap();
    sess.add_local_input(0, &[0u8; 4]).unwrap();
    // frame 0 -> 1: nothing to roll back yet
    assert_eq!(sess.advance_frame(&mut game), Ok(()));
    sess.add_local_input(0, &[0u8; 4]).unwrap();
    // frame 1 -> 2: frame 1 is resimulated with a different checksum
    assert_eq!(sess.advance_frame(&mut game), Err(GGRSError::MismatchedChecksum));
}

/// A game that reports states for no frame.
struct Frameless;

impl GGRSInterface for Frameless {
    fn save_game_state(&self) -> GameState {
        GameState::new()
    }
    fn load_game_state(&mut self, _state: &GameState) {}
    fn advance_frame(&mut self, _inputs: Vec<GameInput>) {}
}

#[test]
fn a_state_for_no_frame_is_a_general_failure() {
    let mut sess = start_synctest_session(1, 4, 1).unwrap();
    sess.start_session().unwrap();
    sess.add_local_input(0, &[0u8; 4]).unwrap();
    assert_eq!(sess.advance_frame(&mut Frameless), Err(GGRSError::GeneralFailure));
}

#[test]
fn resimulated_states_are_checked() {
    let state = |frame, checksum| GameState { frame, buffer: vec![], checksum };
    let info = FrameInfo { frame: 4, state: state(4, Some(10)), input: blank_input() };
    assert_eq!(check_resimulated(&info, &state(4, Some(10)), 4), Ok(()));
    assert_eq!(check_resimulated(&info, &state(4, Some(11)), 4), Err(GGRSError::MismatchedChecksum));
    assert_eq!(check_resimulated(&info, &state(4, None), 4), Ok(()));
    assert_eq!(check_resimulated(&info, &state(5, Some(10)), 5), Err(GGRSError::GeneralFailure));
}
