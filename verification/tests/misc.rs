use ggrs::classic::error::GGRSError;
use ggrs::error::GgrsError;
use ggrs::ggez::player::{Player, PlayerType as GgezPlayerType};
use ggrs::ggez::sessions::p2p_spectator::Peer2PeerSpectatorSession;
use ggrs::ggpo::GGPOError;
use ggrs::init_pad::TransparentPad;
use ggrs::network::messages::{ConnectionStatus, Input, InputAck};
use ggrs::{InputPredictor, NetworkStats, PlayerType, PredictDefault, PredictRepeatLast};

#[test]
fn new_player() {
    let player = Player::<String>::new(GgezPlayerType::Local, 0);
    assert_eq!(player.player_handle, 0);
    assert!(matches!(player.player_type, GgezPlayerType::Local));
}

#[test]
fn error_messages() {
    assert_eq!(
        GgrsError::PredictionThreshold.message(),
        "Prediction threshold is reached, cannot proceed without catching up."
    );
    assert_eq!(GgrsError::InvalidRequest { info: String::from("x") }.message(), "Invalid Request: ");
    assert_eq!(
        GGRSError::InvalidHandle.message(),
        "The player handle you provided is invalid."
    );
    assert_eq!(GGRSError::MismatchedChecksum.message(), "Detected checksum mismatch during rollback.");
    assert_eq!(GGPOError::Okay.message(), "GGPO OK.");
    assert_eq!(GGPOError::InvalidRequest.message(), "GGPO invalid request.");
}

#[test]
fn transparent_pad_keeps_the_value_and_zero_padding() {
    let mut pad: TransparentPad<u32, 4> = TransparentPad::new(17);
    assert_eq!(*pad.as_ref(), 17);
    assert_eq!(pad.0, 17);
    *pad.as_mut() = 5;
    assert_eq!(*pad.as_ref(), 5);
}

#[test]
fn predictors() {
    assert_eq!(<PredictRepeatLast as InputPredictor<u8>>::predict(9), 9);
    assert_eq!(<PredictDefault as InputPredictor<u8>>::predict(9), 0);
}

#[test]
fn default_player_type_is_local() {
    let t: PlayerType<u16> = PlayerType::default();
    assert_eq!(t, PlayerType::Local);
}

#[test]
fn message_defaults_belong_to_no_frame() {
    let status = ConnectionStatus::default();
    assert!(!status.disconnected);
    assert_eq!(status.last_frame, -1);
    let input = Input::default();
    assert!(input.peer_connect_status.is_empty());
    assert_eq!(input.start_frame, -1);
    assert_eq!(InputAck::default().ack_frame, -1);
}

#[test]
fn fresh_network_stats_are_zero() {
    let stats = NetworkStats::new();
    assert_eq!(stats.ping, 0);
    assert_eq!(stats.send_queue_len, 0);
    let classic = ggrs::classic::network_stats::NetworkStats::new();
    assert_eq!(classic.network.ping, 0);
    assert_eq!(classic.timesync.local_frames_behind, 0);
}

#[test]
fn spectator_session_starts() {
    assert!(Peer2PeerSpectatorSession::start_p2p_spectator_session(2, 4, 7000).is_ok());
}

#[test]
fn ggez_spectator_session_starts() {
    assert!(ggrs::ggez::sessions::spectator::SpectatorSession::start_session(2, 4, 7000).is_ok());
}

#[test]
fn transparent_pad_derefs_and_compares_by_value() {
    let p: TransparentPad<u32, 3> = TransparentPad::new(9);
    assert_eq!(p.0, 9);
    assert_eq!(*p, 9);
    assert!(p == TransparentPad::new(9));
    assert!(p != TransparentPad::new(8));
}

#[test]
fn error_descriptions_hold_their_data() {
    assert_eq!(GgrsError::InvalidRequest { info: "x".to_owned() }.describe(), "Invalid Request: x");
    assert_eq!(
        GgrsError::NotSynchronized.describe(),
        "The session is not yet synchronized with all remote sessions."
    );
    assert_eq!(
        GgrsError::MismatchedChecksum { current_frame: 3, mismatched_frames: vec![1, 2] }.describe(),
        "Detected checksum mismatch during rollback on frame 3, mismatched frames: [1, 2]"
    );
    assert_eq!(
        GgrsError::MismatchedChecksum { current_frame: -12, mismatched_frames: vec![] }.describe(),
        "Detected checksum mismatch during rollback on frame -12, mismatched frames: []"
    );
}
