use ggrs::box_game::BoxGame;
use ggrs::classic::error::GGRSError;
use ggrs::classic::p2p_session::PlayerKind;
use ggrs::classic::{start_p2p_session, P2PSession, SessionState};
use ggrs::network::messages::Message;
use ggrs::PlayerType;

const INPUT_SIZE: usize = std::mem::size_of::<u32>();

fn addr(s: &str) -> String {
    s.to_string()
}

/// Hands the messages `from` sends to `to_addr` over to the session at that address, as sent
/// by `from_addr`.
fn inbox(from: &mut P2PSession<String>, from_addr: &str, to_addr: &str) -> Vec<(String, Message)> {
    from.take_messages()
        .into_iter()
        .filter(|(to, _)| to == to_addr)
        .map(|(_, m)| (addr(from_addr), m))
        .collect()
}

fn pair() -> (P2PSession<String>, P2PSession<String>) {
    let mut sess1 = start_p2p_session::<String>(2, INPUT_SIZE).unwrap();
    let mut sess2 = start_p2p_session::<String>(2, INPUT_SIZE).unwrap();
    assert!(sess1.add_player(PlayerType::Local, 0, 0).is_ok());
    assert!(sess1.add_player(PlayerType::Remote(addr("b")), 1, 0).is_ok());
    assert!(sess1.start_session(0).is_ok());
    assert!(sess2.add_player(PlayerType::Local, 1, 0).is_ok());
    assert!(sess2.add_player(PlayerType::Remote(addr("a")), 0, 0).is_ok());
    assert!(sess2.start_session(0).is_ok());
    (sess1, sess2)
}

fn exchange(sess1: &mut P2PSession<String>, sess2: &mut P2PSession<String>, now: u128) {
    let to2 = inbox(sess1, "a", "b");
    sess2.idle(&to2, now);
    let to1 = inbox(sess2, "b", "a");
    sess1.idle(&to1, now);
}

#[test]
fn test_p2p_session_test_create_session() {
    assert!(start_p2p_session::<String>(2, INPUT_SIZE).is_ok());
}

#[test]
fn test_p2p_session_test_add_player() {
    let mut sess = start_p2p_session::<String>(2, INPUT_SIZE).unwrap();
    assert!(sess.add_player(PlayerType::Local, 0, 0).is_ok());
    assert!(sess.add_player(PlayerType::Remote(addr("127.0.0.1:8080")), 1, 0).is_ok());
    // handle already registered
    assert!(sess.add_player(PlayerType::Remote(addr("127.0.0.1:8080")), 1, 0).is_err());
    // invalid handle
    assert!(sess.add_player(PlayerType::Remote(addr("127.0.0.1:8080")), 2, 0).is_err());
    assert!(sess.start_session(0).is_ok());
    // cannot add player after starting
    assert!(sess.add_player(PlayerType::Remote(addr("127.0.0.1:8080")), 1, 0).is_err());
}

#[test]
fn test_start_session() {
    let mut sess = start_p2p_session::<String>(2, INPUT_SIZE).unwrap();
    assert!(sess.add_player(PlayerType::Local, 0, 0).is_ok());
    // not enough players
    assert!(sess.start_session(0).is_err());
    assert!(sess.add_player(PlayerType::Remote(addr("127.0.0.1:8080")), 1, 0).is_ok());
    // works
    assert!(sess.start_session(0).is_ok());
    // cannot start twice
    assert!(sess.start_session(0).is_err());
}

#[test]
fn test_disconnect_player() {
    let mut sess = start_p2p_session::<String>(2, INPUT_SIZE).unwrap();
    assert!(sess.add_player(PlayerType::Local, 0, 0).is_ok());
    assert!(sess.add_player(PlayerType::Remote(addr("127.0.0.1:8080")), 1, 0).is_ok());
    assert!(sess.start_session(0).is_ok());
    // local players cannot be disconnected
    assert!(sess.disconnect_player(0, 0).is_err());
    assert!(sess.disconnect_player(1, 0).is_ok());
    // already disconnected
    assert!(sess.disconnect_player(1, 0).is_err());
    assert!(sess.local_connect_status()[1].disconnected);
}

#[test]
fn test_synchronize_p2p_sessions() {
    let mut sess1 = start_p2p_session::<String>(2, INPUT_SIZE).unwrap();
    let mut sess2 = start_p2p_session::<String>(2, INPUT_SIZE).unwrap();
    assert!(sess1.current_state() == SessionState::Initializing);
    assert!(sess2.current_state() == SessionState::Initializing);
    assert!(sess1.add_player(PlayerType::Local, 0, 0).is_ok());
    assert!(sess1.add_player(PlayerType::Remote(addr("b")), 1, 0).is_ok());
    assert!(sess1.start_session(0).is_ok());
    assert!(sess2.add_player(PlayerType::Local, 1, 0).is_ok());
    assert!(sess2.add_player(PlayerType::Remote(addr("a")), 0, 0).is_ok());
    assert!(sess2.start_session(0).is_ok());
    assert!(sess1.current_state() == SessionState::Synchronizing);
    assert!(sess2.current_state() == SessionState::Synchronizing);

    for _ in 0..10 {
        exchange(&mut sess1, &mut sess2, 0);
    }

    assert!(sess1.current_state() == SessionState::Running);
    assert!(sess2.current_state() == SessionState::Running);
}

#[test]
fn test_advance_frame_p2p_sessions() {
    let mut stub1 = BoxGame::new();
    let mut stub2 = BoxGame::new();
    let (mut sess1, mut sess2) = pair();
    for _ in 0..10 {
        exchange(&mut sess1, &mut sess2, 0);
    }
    assert!(sess1.current_state() == SessionState::Running);
    assert!(sess2.current_state() == SessionState::Running);

    let reps = 10;
    for i in 0..reps {
        let now = 10 + i as u128;
        let input: u32 = i;
        let serialized_input = bincode::serialize(&input).unwrap();
        assert!(sess1.add_local_input(0, &serialized_input, now).is_ok());
        assert!(sess2.add_local_input(1, &serialized_input, now).is_ok());

        exchange(&mut sess1, &mut sess2, now);

        let to2 = inbox(&mut sess1, "a", "b");
        assert!(sess1.advance_frame(&mut stub1, &[], now).is_ok());
        assert!(sess2.advance_frame(&mut stub2, &to2, now).is_ok());

        // gamestate evolves
        assert_eq!(stub1.gs.frame, i as i32 + 1);
        assert_eq!(stub2.gs.frame, i as i32 + 1);
    }
    // both sides saw the same inputs, so they agree
    assert_eq!(stub1.gs.state, stub2.gs.state);
    assert!(sess1.local_connect_status()[1].last_frame >= 0);
}

#[test]
fn start_p2p_session_refuses_sizes_past_the_maximum() {
    assert_eq!(start_p2p_session::<String>(5, 4).err(), Some(GGRSError::InvalidRequest));
    assert_eq!(start_p2p_session::<String>(2, 9).err(), Some(GGRSError::InvalidRequest));
}

#[test]
fn add_local_input_error_kinds_p2p() {
    let mut sess = start_p2p_session::<String>(2, 4).unwrap();
    assert!(sess.add_player(PlayerType::Local, 0, 0).is_ok());
    assert!(sess.add_player(PlayerType::Remote(addr("b")), 1, 0).is_ok());
    assert_eq!(sess.add_local_input(0, &[0u8; 4], 0), Err(GGRSError::NotSynchronized));
    assert_eq!(sess.add_local_input(3, &[0u8; 4], 0), Err(GGRSError::InvalidHandle));
    assert_eq!(sess.add_local_input(1, &[0u8; 4], 0), Err(GGRSError::InvalidRequest));
    assert_eq!(sess.add_local_input(2, &[0u8; 4], 0), Err(GGRSError::InvalidRequest));
    assert!(!sess.accepts_local_input(0, &[0u8; 4]) || sess.current_state() != SessionState::Running);
}

#[test]
fn advance_before_running_is_not_synchronized() {
    let mut stub = BoxGame::new();
    let (mut sess1, _sess2) = pair();
    assert_eq!(sess1.advance_frame(&mut stub, &[], 0), Err(GGRSError::NotSynchronized));
    assert_eq!(stub.gs.frame, 0);
}

#[test]
fn set_frame_delay_and_network_stats_check_the_handle() {
    let mut sess = start_p2p_session::<String>(2, 4).unwrap();
    assert!(sess.add_player(PlayerType::Local, 0, 0).is_ok());
    assert!(sess.add_player(PlayerType::Remote(addr("b")), 1, 0).is_ok());
    assert_eq!(sess.set_frame_delay(1, 3), Err(GGRSError::InvalidHandle));
    assert_eq!(sess.set_frame_delay(1, 2), Err(GGRSError::InvalidRequest));
    assert_eq!(sess.set_frame_delay(1, 1), Err(GGRSError::InvalidRequest));
    assert_eq!(sess.set_frame_delay(2, 0), Ok(()));
    assert_eq!(sess.network_stats(3, 0).err(), Some(GGRSError::InvalidHandle));
    assert_eq!(sess.network_stats(0, 0).err(), Some(GGRSError::InvalidRequest));
    // the endpoint has no statistics before the handshake
    assert_eq!(sess.network_stats(1, 0).err(), Some(GGRSError::InvalidRequest));
    assert!(sess.start_session(0).is_ok());
    assert!(sess.network_stats(1, 2000).is_ok());
}

#[test]
fn a_silent_remote_is_disconnected() {
    let (mut sess1, mut sess2) = pair();
    for _ in 0..10 {
        exchange(&mut sess1, &mut sess2, 0);
    }
    assert!(sess1.current_state() == SessionState::Running);
    // nothing arrives from the remote for longer than the disconnect timeout
    sess1.idle(&[], 6000);
    sess1.idle(&[], 6001);
    assert!(sess1.local_connect_status()[1].disconnected);
}

#[test]
fn player_kinds_start_vacant() {
    let _ = PlayerKind::Vacant;
    let sess = start_p2p_session::<String>(2, 4).unwrap();
    assert_eq!(sess.current_frame(), 0);
    assert_eq!(sess.local_connect_status().len(), 2);
}

#[test]
fn p2p_session_takes_empty_inputs() {
    assert!(start_p2p_session::<String>(2, 0).is_ok());
}
