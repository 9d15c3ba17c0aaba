use vstd::prelude::*;

use crate::{Frame, NULL_FRAME};

verus! {

/// What a peer knows about one player's connection: whether it disconnected and the last frame
/// of its input that arrived.
#[derive(Copy, Clone, Debug, PartialEq, Eq)]
pub struct ConnectionStatus {
    pub disconnected: bool,
    pub last_frame: Frame,
}

impl ConnectionStatus {
    /// A connected player of whom no input arrived yet.
    pub fn new() -> (r: Self)
        ensures
            !r.disconnected,
            r.last_frame == NULL_FRAME,
    {
        ConnectionStatus { disconnected: false, last_frame: NULL_FRAME }
    }
}

impl Default for ConnectionStatus {
    fn default() -> (r: Self)
        ensures
            !r.disconnected,
            r.last_frame == NULL_FRAME,
    {
        Self::new()
    }
}

/// Asks the peer to send back the random value.
#[derive(Copy, Clone, Debug, PartialEq, Eq, Default)]
pub struct SyncRequest {
    pub random_request: u32,
}

/// Sends back the random value of a sync request.
#[derive(Copy, Clone, Debug, PartialEq, Eq, Default)]
pub struct SyncReply {
    pub random_reply: u32,
}

/// Compressed inputs from `start_frame` on, with the sender's view of every player's connection.
#[derive(Clone, Debug, PartialEq, Eq)]
pub struct Input {
    pub peer_connect_status: Vec<ConnectionStatus>,
    pub disconnect_requested: bool,
    pub start_frame: Frame,
    pub ack_frame: Frame,
    pub bytes: Vec<u8>,
}

impl Input {
    /// An input message without inputs or connection status.
    pub fn new() -> (r: Self)
        ensures
            r.peer_connect_status@.len() == 0,
            !r.disconnect_requested,
            r.start_frame == NULL_FRAME,
            r.ack_frame == NULL_FRAME,
            r.bytes@.len() == 0,
    {
        Input {
            peer_connect_status: Vec::new(),
            disconnect_requested: false,
            start_frame: NULL_FRAME,
            ack_frame: NULL_FRAME,
            bytes: Vec::new(),
        }
    }
}

impl Default for Input {
    fn default() -> (r: Self)
        ensures
            r.peer_connect_status@.len() == 0,
            !r.disconnect_requested,
            r.start_frame == NULL_FRAME,
            r.ack_frame == NULL_FRAME,
            r.bytes@.len() == 0,
    {
        Self::new()
    }
}

/// Acknowledges the inputs received up to `ack_frame`.
#[derive(Copy, Clone, Debug, PartialEq, Eq)]
pub struct InputAck {
    pub ack_frame: Frame,
}

impl InputAck {
    /// An acknowledgement of no frame.
    pub fn new() -> (r: Self)
        ensures
            r.ack_frame == NULL_FRAME,
    {
        InputAck { ack_frame: NULL_FRAME }
    }
}

impl Default for InputAck {
    fn default() -> (r: Self)
        ensures
            r.ack_frame == NULL_FRAME,
    {
        Self::new()
    }
}

/// The sender's frame advantage and a timestamp to be echoed back.
#[derive(Copy, Clone, Debug, PartialEq, Eq, Default)]
pub struct QualityReport {
    /// Frame advantage of the other player.
    pub frame_advantage: i16,
    pub ping: u128,
}

/// Echoes the timestamp of a quality report.
#[derive(Copy, Clone, Debug, PartialEq, Eq, Default)]
pub struct QualityReply {
    pub pong: u128,
}

/// The checksum of the game state at a frame, for desync detection.
#[derive(Copy, Clone, Debug, PartialEq, Eq, Default)]
pub struct ChecksumReport {
    pub checksum: u128,
    pub frame: Frame,
}

/// Identifies the sending endpoint.
#[derive(Copy, Clone, Debug, PartialEq, Eq, Default)]
pub struct MessageHeader {
    pub magic: u16,
}

/// The payload of a message.
#[derive(Clone, Debug, PartialEq, Eq)]
pub enum MessageBody {
    SyncRequest(SyncRequest),
    SyncReply(SyncReply),
    Input(Input),
    InputAck(InputAck),
    QualityReport(QualityReport),
    QualityReply(QualityReply),
    ChecksumReport(ChecksumReport),
    KeepAlive,
}

/// A message that a socket sends and receives. A socket implementation deserializes received
/// messages into this type.
#[derive(Clone, Debug, PartialEq, Eq)]
pub struct Message {
    pub header: MessageHeader,
    pub body: MessageBody,
}

/// The contents of an [`Input`] message, with its vectors as sequences.
pub struct InputView {
    pub peer_connect_status: Seq<ConnectionStatus>,
    pub disconnect_requested: bool,
    pub start_frame: Frame,
    pub ack_frame: Frame,
    pub bytes: Seq<u8>,
}

impl View for Input {
    type V = InputView;

    open spec fn view(&self) -> InputView {
        InputView {
            peer_connect_status: self.peer_connect_status@,
            disconnect_requested: self.disconnect_requested,
            start_frame: self.start_frame,
            ack_frame: self.ack_frame,
            bytes: self.bytes@,
        }
    }
}

/// The contents of a [`MessageBody`], with its vectors as sequences.
pub enum MessageBodyView {
    SyncRequest(SyncRequest),
    SyncReply(SyncReply),
    Input(InputView),
    InputAck(InputAck),
    QualityReport(QualityReport),
    QualityReply(QualityReply),
    ChecksumReport(ChecksumReport),
    KeepAlive,
}

impl View for MessageBody {
    type V = MessageBodyView;

    open spec fn view(&self) -> MessageBodyView {
        match self {
            MessageBody::SyncRequest(b) => MessageBodyView::SyncRequest(*b),
            MessageBody::SyncReply(b) => MessageBodyView::SyncReply(*b),
            MessageBody::Input(b) => MessageBodyView::Input(b@),
            MessageBody::InputAck(b) => MessageBodyView::InputAck(*b),
            MessageBody::QualityReport(b) => MessageBodyView::QualityReport(*b),
            MessageBody::QualityReply(b) => MessageBodyView::QualityReply(*b),
            MessageBody::ChecksumReport(b) => MessageBodyView::ChecksumReport(*b),
            MessageBody::KeepAlive => MessageBodyView::KeepAlive,
        }
    }
}

/// The contents of a [`Message`], with its vectors as sequences.
pub struct MessageView {
    pub header: MessageHeader,
    pub body: MessageBodyView,
}

impl View for Message {
    type V = MessageView;

    open spec fn view(&self) -> MessageView {
        MessageView { header: self.header, body: self.body@ }
    }
}

} // verus!
