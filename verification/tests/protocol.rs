use std::collections::HashMap;

use ggrs::network::messages::{ChecksumReport, ConnectionStatus, Message, MessageBody, MessageHeader, QualityReport};
use ggrs::network::protocol::{Event, InputBytes, ProtocolState, UdpProtocol, BROADCAST_MAGIC, NUM_SYNC_PACKETS};
use ggrs::{DesyncDetection, GgrsError, NULL_FRAME};

fn endpoint(addr: &str, handles: Vec<usize>, now: u128) -> UdpProtocol<String> {
    UdpProtocol::new(handles, addr.to_string(), 2, 1, 1, 8, 2000, 500, 60, DesyncDetection::Off, now)
}

fn deliver(from: &mut UdpProtocol<String>, to: &mut UdpProtocol<String>, now: u128) -> usize {
    let msgs = from.take_messages();
    let n = msgs.len();
    for m in &msgs {
        to.handle_message(m, now);
    }
    n
}

fn connected_pair(now: u128) -> (UdpProtocol<String>, UdpProtocol<String>) {
    let mut a = endpoint("b", vec![1], now);
    let mut b = endpoint("a", vec![0], now);
    a.synchronize(now);
    b.synchronize(now);
    for _ in 0..20 {
        deliver(&mut a, &mut b, now);
        deliver(&mut b, &mut a, now);
    }
    (a, b)
}

fn inputs_of(frame: i32, byte: u8) -> HashMap<usize, InputBytes> {
    let mut m = HashMap::new();
    m.insert(0, InputBytes { frame, bytes: vec![byte] });
    m
}

#[test]
fn test_new_endpoint_waits_for_synchronize() {
    let e = endpoint("peer", vec![3, 1, 2], 0);
    assert_eq!(e.state(), ProtocolState::Initializing);
    assert_eq!(e.handles(), &vec![1, 2, 3]);
    assert!(!e.is_synchronized());
    assert!(!e.is_running());
    assert_eq!(e.last_recv_frame(), NULL_FRAME);
    assert_eq!(e.peer_addr(), "peer".to_string());
    assert!(e.is_handling_message(&"peer".to_string()));
    assert!(!e.is_handling_message(&"other".to_string()));
    assert_eq!(e.peer_connect_status(1), ConnectionStatus { disconnected: false, last_frame: NULL_FRAME });
}

#[test]
fn test_synchronize_sends_sync_request() {
    let mut e = endpoint("peer", vec![1], 0);
    e.synchronize(0);
    assert_eq!(e.state(), ProtocolState::Synchronizing);
    let msgs = e.take_messages();
    assert_eq!(msgs.len(), 1);
    assert!(matches!(msgs[0].body, MessageBody::SyncRequest(_)));
    assert_ne!(msgs[0].header.magic, 0);
    assert!(e.take_messages().is_empty());
}

#[test]
fn test_handshake_reaches_running() {
    let (mut a, mut b) = connected_pair(0);
    assert!(a.is_running());
    assert!(b.is_running());
    assert!(a.is_synchronized());
    let (events, _) = a.poll(&[ConnectionStatus::default(), ConnectionStatus::default()], 0);
    let syncing = events.iter().filter(|e| matches!(e, Event::Synchronizing { .. })).count();
    assert_eq!(syncing as u32, NUM_SYNC_PACKETS - 1);
    assert_eq!(events.last(), Some(&Event::Synchronized));
    let (events_b, _) = b.poll(&[ConnectionStatus::default(), ConnectionStatus::default()], 0);
    assert!(events_b.contains(&Event::Synchronized));
}

#[test]
fn test_input_arrives_as_event() {
    let (mut a, mut b) = connected_pair(0);
    let status = [ConnectionStatus::default(), ConnectionStatus::default()];
    a.poll(&status, 0);
    b.poll(&status, 0);
    a.queue_input(&inputs_of(0, 7), &status, 1);
    a.queue_input(&inputs_of(1, 9), &status, 2);
    assert_eq!(deliver(&mut a, &mut b, 3), 2);
    assert_eq!(b.last_recv_frame(), 1);
    let (events, _) = b.poll(&status, 3);
    assert_eq!(
        events,
        vec![
            Event::Input { frame: 0, bytes: vec![7], player: 0 },
            Event::Input { frame: 1, bytes: vec![9], player: 0 },
        ]
    );
    // the acknowledgements reach the sender; later inputs are compressed against the last one
    deliver(&mut b, &mut a, 4);
    a.queue_input(&inputs_of(2, 11), &status, 5);
    let msgs = a.take_messages();
    let input = msgs.iter().find_map(|m| match &m.body {
        MessageBody::Input(i) => Some(i.clone()),
        _ => None,
    });
    assert_eq!(input.unwrap().start_frame, 2);
}

#[test]
fn test_input_not_running_is_ignored() {
    let mut a = endpoint("b", vec![1], 0);
    let status = [ConnectionStatus::default(), ConnectionStatus::default()];
    a.queue_input(&inputs_of(0, 1), &status, 1);
    assert!(a.take_messages().is_empty());
}

#[test]
fn test_foreign_magic_is_ignored() {
    let (mut a, _b) = connected_pair(0);
    let status = [ConnectionStatus::default(), ConnectionStatus::default()];
    a.poll(&status, 0);
    let stranger = Message {
        header: MessageHeader { magic: 0 },
        body: MessageBody::QualityReport(QualityReport { frame_advantage: 5, ping: 0 }),
    };
    // magic 0 is never a running endpoint's remote magic
    a.handle_message(&stranger, 10);
    assert!(a.take_messages().is_empty());
    let (events, _) = a.poll(&status, 10);
    assert!(events.is_empty());
}

#[test]
fn test_quality_report_is_answered() {
    let (mut a, mut b) = connected_pair(0);
    let status = [ConnectionStatus::default(), ConnectionStatus::default()];
    a.poll(&status, 0);
    b.poll(&status, 0);
    // a sends a quality report after the interval
    a.poll(&status, 300);
    let msgs = a.take_messages();
    assert!(msgs.iter().any(|m| matches!(m.body, MessageBody::QualityReport(_))));
    for m in &msgs {
        b.handle_message(m, 300);
    }
    let replies = b.take_messages();
    assert!(replies.iter().any(|m| matches!(m.body, MessageBody::QualityReply(r) if r.pong == 300)));
    for m in &replies {
        a.handle_message(m, 340);
    }
    let stats = a.network_stats(1340).unwrap();
    assert_eq!(stats.ping, 40);
}

#[test]
fn test_network_stats_needs_a_second() {
    let mut e = endpoint("peer", vec![1], 0);
    assert_eq!(e.network_stats(5000).unwrap_err(), GgrsError::NotSynchronized);
    e.synchronize(1000);
    assert_eq!(e.network_stats(1500).unwrap_err(), GgrsError::NotEnoughData);
    let stats = e.network_stats(3000).unwrap();
    assert_eq!(stats.send_queue_len, 0);
    assert_eq!(stats.ping, 0);
}

#[test]
fn test_silence_interrupts_then_disconnects() {
    let (mut a, _b) = connected_pair(0);
    let status = [ConnectionStatus::default(), ConnectionStatus::default()];
    a.poll(&status, 0);
    let (events, _) = a.poll(&status, 600);
    assert!(events.contains(&Event::NetworkInterrupted { disconnect_timeout: 1500 }));
    let (events, _) = a.poll(&status, 700);
    assert!(!events.iter().any(|e| matches!(e, Event::NetworkInterrupted { .. })));
    let (events, _) = a.poll(&status, 2100);
    assert!(events.contains(&Event::Disconnected));
}

#[test]
fn test_resumed_after_interruption() {
    let (mut a, mut b) = connected_pair(0);
    let status = [ConnectionStatus::default(), ConnectionStatus::default()];
    a.poll(&status, 0);
    a.poll(&status, 600);
    b.poll(&status, 600);
    deliver(&mut b, &mut a, 650);
    let (events, _) = a.poll(&status, 650);
    assert!(events.contains(&Event::NetworkResumed));
}

#[test]
fn test_disconnect_then_shutdown() {
    let (mut a, _b) = connected_pair(0);
    a.take_messages();
    a.disconnect(100);
    assert_eq!(a.state(), ProtocolState::Disconnected);
    assert!(a.is_synchronized());
    let status = [ConnectionStatus::default(), ConnectionStatus::default()];
    a.poll(&status, 5100);
    assert_eq!(a.state(), ProtocolState::Disconnected);
    a.poll(&status, 5101);
    assert_eq!(a.state(), ProtocolState::Shutdown);
    a.queue_checksum_report(3, 42, 5200);
    assert!(a.take_messages().is_empty());
    a.disconnect(6000);
    assert_eq!(a.state(), ProtocolState::Shutdown);
}

#[test]
fn test_checksum_reports_are_stored() {
    let (mut a, mut b) = connected_pair(0);
    b.queue_checksum_report(10, 1234, 1);
    let msgs = b.take_messages();
    assert!(msgs.iter().any(|m| m.body == MessageBody::ChecksumReport(ChecksumReport { checksum: 1234, frame: 10 })));
    for m in &msgs {
        a.handle_message(m, 1);
    }
    assert_eq!(a.pending_checksums().get(&10), Some(&1234));
}

#[test]
fn test_frame_advantage_estimate() {
    let (mut a, mut b) = connected_pair(0);
    let status = [ConnectionStatus::default(), ConnectionStatus::default()];
    a.poll(&status, 0);
    b.poll(&status, 0);
    // nothing received yet: unchanged
    b.update_local_frame_advantage(0);
    a.queue_input(&inputs_of(0, 1), &status, 1);
    a.queue_input(&inputs_of(1, 1), &status, 1);
    a.queue_input(&inputs_of(2, 1), &status, 1);
    deliver(&mut a, &mut b, 1);
    // ping 0: the remote is at frame 2, we are at frame 0
    b.update_local_frame_advantage(0);
    b.poll(&status, 300);
    let msgs = b.take_messages();
    let report = msgs.iter().find_map(|m| match m.body {
        MessageBody::QualityReport(q) => Some(q),
        _ => None,
    });
    assert_eq!(report.unwrap().frame_advantage, 2);
}

#[test]
fn test_input_bytes_split_per_player() {
    let data = InputBytes { frame: 4, bytes: vec![1, 2, 3, 4, 5, 6] };
    let parts = data.to_player_inputs(3);
    assert_eq!(parts, vec![(4, vec![1, 2]), (4, vec![3, 4]), (4, vec![5, 6])]);
    let z = InputBytes::zeroed(3);
    assert_eq!(z.frame, NULL_FRAME);
    assert_eq!(z.bytes, vec![0, 0, 0]);
}

#[test]
fn test_broadcast_magic_is_handled() {
    let (mut a, _b) = connected_pair(0);
    let status = [ConnectionStatus::default(), ConnectionStatus::default()];
    a.poll(&status, 0);
    a.take_messages();
    let broadcast = Message {
        header: MessageHeader { magic: BROADCAST_MAGIC },
        body: MessageBody::QualityReport(QualityReport { frame_advantage: 5, ping: 7 }),
    };
    a.handle_message(&broadcast, 10);
    let replies = a.take_messages();
    assert!(replies.iter().any(|m| matches!(m.body, MessageBody::QualityReply(r) if r.pong == 7)));
}

#[test]
fn test_new_accepts_any_configuration() {
    let e = UdpProtocol::new(vec![], "peer".to_string(), 2, 1, 0, 8, 1000, 3000, 60, DesyncDetection::Off, 0);
    assert_eq!(e.state(), ProtocolState::Initializing);
    assert!(e.handles().is_empty());
}

#[test]
fn test_late_notification_reports_no_time_left() {
    let mut a = UdpProtocol::new(vec![1], "b".to_string(), 2, 1, 1, 8, 2000, 3000, 60, DesyncDetection::Off, 0);
    let mut b = endpoint("a", vec![0], 0);
    a.synchronize(0);
    b.synchronize(0);
    for _ in 0..20 {
        deliver(&mut a, &mut b, 0);
        deliver(&mut b, &mut a, 0);
    }
    assert!(a.is_running());
    let status = [ConnectionStatus::default(), ConnectionStatus::default()];
    a.poll(&status, 0);
    let (events, _) = a.poll(&status, 3100);
    assert!(events.contains(&Event::NetworkInterrupted { disconnect_timeout: 0 }));
    assert!(events.contains(&Event::Disconnected));
}
