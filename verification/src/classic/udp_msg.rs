use vstd::prelude::*;

use super::FrameNumber;
use crate::NULL_FRAME;

verus! {

/// Identifies the sending endpoint and orders its messages.
#[derive(Copy, Clone, Debug, PartialEq, Eq, Default)]
pub struct MessageHeader {
    pub magic: u16,
    pub sequence_number: u16,
}

/// What a peer knows about one player's connection.
#[derive(Copy, Clone, Debug, PartialEq, Eq)]
pub struct ConnectionStatus {
    pub disconnected: bool,
    pub last_frame: FrameNumber,
}

impl Default for ConnectionStatus {
    fn default() -> (r: Self)
        ensures
            !r.disconnected,
            r.last_frame == NULL_FRAME,
    {
        ConnectionStatus { disconnected: false, last_frame: NULL_FRAME }
    }
}

/// Asks the peer to send back the random value.
#[derive(Copy, Clone, Debug, PartialEq, Eq, Default)]
pub struct SyncRequest {
    pub header: MessageHeader,
    pub random_request: u32,
    pub remote_magic: u16,
    pub remote_endpoint: u8,
}

/// Sends back the random value of a sync request.
#[derive(Copy, Clone, Debug, PartialEq, Eq, Default)]
pub struct SyncReply {
    pub header: MessageHeader,
    pub random_reply: u32,
}

/// Inputs from `start_frame` on, with the sender's view of every player's connection.
#[derive(Clone, Debug, PartialEq, Eq)]
pub struct Input {
    pub header: MessageHeader,
    pub peer_connect_status: Vec<ConnectionStatus>,
    pub disconnect_requested: bool,
    pub start_frame: FrameNumber,
    pub ack_frame: FrameNumber,
    pub bits: Vec<u8>,
}

impl Default for Input {
    fn default() -> (r: Self)
        ensures
            r.header == (MessageHeader { magic: 0, sequence_number: 0 }),
            r.peer_connect_status@.len() == 0,
            !r.disconnect_requested,
            r.start_frame == NULL_FRAME,
            r.ack_frame == NULL_FRAME,
            r.bits@.len() == 0,
    {
        Input {
            header: MessageHeader { magic: 0, sequence_number: 0 },
            peer_connect_status: Vec::new(),
            disconnect_requested: false,
            start_frame: NULL_FRAME,
            ack_frame: NULL_FRAME,
            bits: Vec::new(),
        }
    }
}

/// Acknowledges the inputs received up to `ack_frame`.
#[derive(Copy, Clone, Debug, PartialEq, Eq)]
pub struct InputAck {
    pub header: MessageHeader,
    pub ack_frame: FrameNumber,
}

impl Default for InputAck {
    fn default() -> (r: Self)
        ensures
            r.header == (MessageHeader { magic: 0, sequence_number: 0 }),
            r.ack_frame == NULL_FRAME,
    {
        InputAck { header: MessageHeader { magic: 0, sequence_number: 0 }, ack_frame: NULL_FRAME }
    }
}

/// The sender's frame advantage and a timestamp to be echoed back.
#[derive(Copy, Clone, Debug, PartialEq, Eq, Default)]
pub struct QualityReport {
    pub header: MessageHeader,
    pub frame_advantage: i8,
    pub ping: u128,
}

/// Echoes the timestamp of a quality report.
#[derive(Copy, Clone, Debug, PartialEq, Eq, Default)]
pub struct QualityReply {
    pub header: MessageHeader,
    pub pong: u128,
}

/// Keeps the connection alive.
#[derive(Copy, Clone, Debug, PartialEq, Eq, Default)]
pub struct KeepAlive {
    pub header: MessageHeader,
}

/// A message between endpoints.
#[derive(Clone, Debug, PartialEq, Eq)]
pub enum UdpMessage {
    SyncRequest(SyncRequest),
    SyncReply(SyncReply),
    Input(Input),
    InputAck(InputAck),
    QualityReport(QualityReport),
    QualityReply(QualityReply),
    KeepAlive(KeepAlive),
}

} // verus!
