use ggrs::box_game::{decode_state, BoxGame, BoxGameState};
use ggrs::classic::frame_info::GameInput;
use ggrs::classic::GGRSInterface;

fn u32_input(frame: i32, value: u32) -> GameInput {
    let mut input = GameInput::new(frame, None, 4);
    input.copy_input(&bincode::serialize(&value).unwrap());
    input
}

#[test]
fn box_game_starts_at_zero() {
    let game = BoxGame::new();
    assert_eq!(game.gs, BoxGameState { frame: 0, state: 0 });
    assert_eq!(BoxGameState::new(), BoxGameState::default());
}

#[test]
fn even_sum_moves_up_by_two_odd_sum_down_by_one() {
    let mut gs = BoxGameState::new();
    gs.advance_frame(&vec![u32_input(0, 1), u32_input(0, 3)]);
    assert_eq!(gs, BoxGameState { frame: 1, state: 2 });
    gs.advance_frame(&vec![u32_input(1, 1), u32_input(1, 2)]);
    assert_eq!(gs, BoxGameState { frame: 2, state: 1 });
}

#[test]
fn save_then_load_gives_the_state_back() {
    let mut game = BoxGame::new();
    game.gs = BoxGameState { frame: 7, state: -3 };
    let saved = game.save_game_state();
    assert_eq!(saved.frame, 7);
    // the state's bincode bytes: two little-endian i32
    assert_eq!(saved.buffer, vec![7, 0, 0, 0, 0xFD, 0xFF, 0xFF, 0xFF]);
    assert_eq!(saved.checksum, Some(adler::adler32_slice(&saved.buffer)));
    let mut other = BoxGame::new();
    other.load_game_state(&saved);
    assert_eq!(other.gs, game.gs);
}

#[test]
fn checksum_is_adler32_of_the_saved_bytes() {
    let mut game = BoxGame::new();
    game.gs = BoxGameState { frame: 1, state: 2 };
    let saved = game.save_game_state();
    // Adler-32 of [1,0,0,0,2,0,0,0]: the running sum `a` after each byte is
    // 2,2,2,2,4,4,4,4, so a = 4 and b = 2+2+2+2+4+4+4+4 = 24
    assert_eq!(saved.checksum, Some((24u32 << 16) | 4));
}

#[test]
fn a_too_short_buffer_leaves_the_game_unchanged() {
    let mut game = BoxGame::new();
    game.gs = BoxGameState { frame: 3, state: 4 };
    let short = ggrs::classic::frame_info::GameState { frame: 1, buffer: vec![1, 2, 3], checksum: None };
    game.load_game_state(&short);
    assert_eq!(game.gs, BoxGameState { frame: 3, state: 4 });
    assert_eq!(decode_state(&[1, 2, 3]), None);
    assert_eq!(decode_state(&[1, 0, 0, 0, 0xFF, 0xFF, 0xFF, 0xFF, 9]), Some((1, -1)));
}

#[test]
fn advance_without_two_players_changes_nothing() {
    let mut game = BoxGame::new();
    game.advance_frame(vec![u32_input(0, 1)]);
    assert_eq!(game.gs, BoxGameState { frame: 0, state: 0 });
    game.advance_frame(vec![u32_input(0, 2), u32_input(0, 2)]);
    assert_eq!(game.gs, BoxGameState { frame: 1, state: 2 });
}
