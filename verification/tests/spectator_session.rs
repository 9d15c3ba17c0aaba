use std::collections::HashMap;

use ggrs::network::messages::{ConnectionStatus, Message};
use ggrs::network::protocol::{InputBytes, UdpProtocol};
use ggrs::sessions::p2p_spectator_session::SpectatorSession;
use ggrs::{DesyncDetection, GgrsError, GgrsEvent, InputStatus, SessionState};

/// The spectator's endpoint towards the host, and the host's endpoint towards the spectator,
/// both for two players with one-byte inputs.
fn endpoints() -> (UdpProtocol<String>, UdpProtocol<String>) {
    let mut to_host = UdpProtocol::new(vec![0, 1], "host".to_string(), 2, 2, 1, 8, 2000, 500, 60, DesyncDetection::Off, 0);
    let mut to_spectator =
        UdpProtocol::new(vec![0, 1], "spectator".to_string(), 2, 2, 1, 8, 2000, 500, 60, DesyncDetection::Off, 0);
    to_host.synchronize(0);
    to_spectator.synchronize(0);
    (to_host, to_spectator)
}

fn from_host(host: &mut UdpProtocol<String>) -> Vec<(String, Message)> {
    host.take_messages().into_iter().map(|m| ("host".to_string(), m)).collect()
}

fn to_host(spectator: &mut SpectatorSession<String>, host: &mut UdpProtocol<String>, now: u128) {
    for (to, m) in spectator.take_messages() {
        assert_eq!(to, "host");
        host.handle_message(&m, now);
    }
}

fn synchronized() -> (SpectatorSession<String>, UdpProtocol<String>) {
    let (to_host_ep, mut host) = endpoints();
    let mut spectator = SpectatorSession::new(2, 1, to_host_ep, 10, 2);
    for _ in 0..20 {
        to_host(&mut spectator, &mut host, 0);
        let received = from_host(&mut host);
        spectator.poll_remote_clients(&received, 0);
    }
    let status = [ConnectionStatus::default(), ConnectionStatus::default()];
    host.poll(&status, 0);
    (spectator, host)
}

fn send_frame(host: &mut UdpProtocol<String>, frame: i32, a: u8, b: u8, now: u128) {
    let mut inputs = HashMap::new();
    inputs.insert(0, InputBytes { frame, bytes: vec![a] });
    inputs.insert(1, InputBytes { frame, bytes: vec![b] });
    let status = [ConnectionStatus::default(), ConnectionStatus::default()];
    host.queue_input(&inputs, &status, now);
}

#[test]
fn new_spectator_synchronizes_first() {
    let (to_host_ep, _host) = endpoints();
    let mut spectator = SpectatorSession::new(2, 1, to_host_ep, 10, 2);
    assert_eq!(spectator.current_state(), SessionState::Synchronizing);
    assert_eq!(spectator.num_players(), 2);
    assert_eq!(spectator.frames_behind_host(), 0);
    assert_eq!(spectator.advance_frame(&[], 1).err(), Some(GgrsError::NotSynchronized));
    assert!(spectator.events().is_empty());
}

#[test]
fn spectator_runs_after_the_handshake() {
    let (mut spectator, _host) = synchronized();
    assert_eq!(spectator.current_state(), SessionState::Running);
    let events = spectator.events();
    assert!(events.contains(&GgrsEvent::Synchronized { addr: "host".to_string() }));
    assert!(spectator.events().is_empty());
}

#[test]
fn spectator_hands_out_the_hosts_inputs() {
    let (mut spectator, mut host) = synchronized();
    send_frame(&mut host, 0, 1, 2, 1);
    let received = from_host(&mut host);
    let frames = spectator.advance_frame(&received, 1).unwrap();
    assert_eq!(
        frames,
        vec![vec![(vec![1], InputStatus::Confirmed), (vec![2], InputStatus::Confirmed)]]
    );
    assert_eq!(spectator.frames_behind_host(), 0);
    // the next frame's inputs did not arrive yet
    assert_eq!(spectator.advance_frame(&[], 2).err(), Some(GgrsError::PredictionThreshold));
}

#[test]
fn spectator_catches_up_when_far_behind() {
    let (mut spectator, mut host) = synchronized();
    for f in 0..13 {
        send_frame(&mut host, f, f as u8, 0, 1);
        to_host(&mut spectator, &mut host, 1);
    }
    let received = from_host(&mut host);
    spectator.poll_remote_clients(&received, 1);
    assert_eq!(spectator.frames_behind_host(), 13);
    // more than ten frames behind: two frames per step
    let frames = spectator.advance_frame(&[], 2).unwrap();
    assert_eq!(frames.len(), 2);
    assert_eq!(frames[0][0].0, vec![0]);
    assert_eq!(frames[1][0].0, vec![1]);
    assert_eq!(spectator.frames_behind_host(), 11);
    let frames = spectator.advance_frame(&[], 3).unwrap();
    assert_eq!(frames.len(), 2);
    // ten behind: one frame per step
    let frames = spectator.advance_frame(&[], 4).unwrap();
    assert_eq!(frames.len(), 1);
    assert_eq!(frames[0][0].0, vec![4]);
}

#[test]
fn spectator_network_stats_need_a_running_host() {
    let (to_host_ep, _host) = endpoints();
    let spectator = SpectatorSession::new(2, 1, to_host_ep, 10, 2);
    assert_eq!(spectator.network_stats(500).err(), Some(GgrsError::NotEnoughData));
    assert!(spectator.network_stats(1500).is_ok());
}
