use vstd::prelude::*;

verus! {

/// All errors the GGPO-style interface can return.
#[derive(Debug, Clone, Copy, PartialEq, Eq, Hash)]
pub enum GGPOError {
    /// Reported when nothing went wrong.
    Okay,
    Success,
    GeneralFailure,
    InvalidSession,
    InvalidPlayerHandle,
    PlayerOutOfRange,
    PredictionThreshold,
    Unsupported,
    NotSynchronized,
    InRollback,
    InputDropped,
    PlayerDisconnected,
    TooManySpectators,
    InvalidRequest,
}

impl GGPOError {
    /// The human-readable description of the error.
    pub fn message(&self) -> (r: &'static str)
        ensures
            r@ == (match *self {
                GGPOError::Okay => "GGPO OK."@,
                GGPOError::Success => "GGPO Success."@,
                GGPOError::GeneralFailure => "GGPO general Failure."@,
                GGPOError::InvalidSession => "GGPO invalid session."@,
                GGPOError::InvalidPlayerHandle => "GGPO invalid player handle."@,
                GGPOError::PlayerOutOfRange => "GGPO player out of range."@,
                GGPOError::PredictionThreshold => "GGPO prediction threshold."@,
                GGPOError::Unsupported => "GGPO unsupported."@,
                GGPOError::NotSynchronized => "GGPO not synchronized."@,
                GGPOError::InRollback => "GGPO in rollback."@,
                GGPOError::InputDropped => "GGPO input dropped."@,
                GGPOError::PlayerDisconnected => "GGPO player disconnected."@,
                GGPOError::TooManySpectators => "GGPO too many spectators."@,
                GGPOError::InvalidRequest => "GGPO invalid request."@,
            }),
    {
        match self {
            GGPOError::Okay => "GGPO OK.",
            GGPOError::Success => "GGPO Success.",
            GGPOError::GeneralFailure => "GGPO general Failure.",
            GGPOError::InvalidSession => "GGPO invalid session.",
            GGPOError::InvalidPlayerHandle => "GGPO invalid player handle.",
            GGPOError::PlayerOutOfRange => "GGPO player out of range.",
            GGPOError::PredictionThreshold => "GGPO prediction threshold.",
            GGPOError::Unsupported => "GGPO unsupported.",
            GGPOError::NotSynchronized => "GGPO not synchronized.",
            GGPOError::InRollback => "GGPO in rollback.",
            GGPOError::InputDropped => "GGPO input dropped.",
            GGPOError::PlayerDisconnected => "GGPO player disconnected.",
            GGPOError::TooManySpectators => "GGPO too many spectators.",
            GGPOError::InvalidRequest => "GGPO invalid request.",
        }
    }
}

/// Describes what type of event just happened.
#[derive(Debug, Clone, Copy, PartialEq, Eq)]
pub enum Event {
    /// The handshake with the game on the other side of the network has been completed.
    ConnectedToPeer(ConnectedToPeer),
    /// Synchronization with the client on the other end has begun; `count` and `total` show the
    /// progress.
    SynchronizingWithPeer(SynchronizingWithPeer),
    /// The synchronization with this peer has finished.
    SynchronizedWithPeer(SynchronizedWithPeer),
    /// All the clients have synchronized; inputs may be sent.
    Running,
    /// The network connection on the other end has closed.
    DisconnectedFromPeer(DisconnectedFromPeer),
    /// This client is too far ahead of the other one and should slow down by `frames_ahead`
    /// frames.
    TimeSync(TimeSyncEvent),
    /// The network connection on the other end has been interrupted.
    ConnectionInterrupted(ConnectionInterrupted),
    /// The network connection on the other end has been resumed.
    ConnectionResumed(ConnectionResumed),
}

#[derive(Debug, Clone, Copy, PartialEq, Eq)]
pub struct ConnectedToPeer {
    pub player_handle: u32,
}

#[derive(Debug, Clone, Copy, PartialEq, Eq)]
pub struct SynchronizingWithPeer {
    pub count: u32,
    pub total: u32,
    pub player_handle: u32,
}

#[derive(Debug, Clone, Copy, PartialEq, Eq)]
pub struct SynchronizedWithPeer {
    pub player_handle: u32,
}

#[derive(Debug, Clone, Copy, PartialEq, Eq)]
pub struct DisconnectedFromPeer {
    pub player_handle: u32,
}

#[derive(Debug, Clone, Copy, PartialEq, Eq)]
pub struct TimeSyncEvent {
    pub frames_ahead: u32,
}

#[derive(Debug, Clone, Copy, PartialEq, Eq)]
pub struct ConnectionInterrupted {
    pub player_handle: u32,
    pub disconnect_timeout: u32,
}

#[derive(Debug, Clone, Copy, PartialEq, Eq)]
pub struct ConnectionResumed {
    pub player_handle: u32,
}

} // verus!
