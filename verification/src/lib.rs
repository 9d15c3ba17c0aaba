//! Rollback networking core: input queues with prediction, input compression
//! for the wire, frame-advantage based time synchronization, and the data types
//! a session hands to the game.
use vstd::prelude::*;

pub mod box_game;
pub mod classic;
pub mod error;
pub mod frame_info;
pub mod ggez;
pub mod ggpo;
pub mod init_pad;
pub mod input_queue;
pub mod network;
pub mod sessions;
pub mod time_sync;

pub use error::GgrsError;
pub use network::messages::Message;
pub use network::network_stats::NetworkStats;

verus! {

/// Internally, -1 represents no frame / invalid frame.
pub const NULL_FRAME: i32 = -1;

/// The maximum number of bytes the input of a single player can consist of.
pub const MAX_INPUT_BYTES: usize = 8;

/// A frame is a single step of execution.
pub type Frame = i32;

/// Each player is identified by a player handle.
pub type PlayerHandle = usize;

/// Desync detection by comparing checksums between peers.
#[derive(Debug, Copy, Clone, PartialEq, Eq)]
pub enum DesyncDetection {
    /// Desync detection is turned on with a specified interval rate given by the user.
    On {
        /// Interval rate given by the user. E.g. at 60hz an interval of 10 results in 6 reports a
        /// second.
        interval: u32,
    },
    /// Desync detection is turned off.
    Off,
}

/// The three types of players: local players, who play on the local device; remote players,
/// who play on other devices; and spectators, who are remote players that do not contribute to
/// the game input. Remote players and spectators are identified by an address.
#[derive(Debug, Copy, Clone, Hash, PartialEq, Eq)]
pub enum PlayerType<A> {
    /// This player plays on the local device.
    Local,
    /// This player plays on a remote device identified by the address.
    Remote(A),
    /// This player spectates on a remote device identified by the address.
    Spectator(A),
}

impl<A> Default for PlayerType<A> {
    fn default() -> (r: Self)
        ensures
            r is Local,
    {
        PlayerType::Local
    }
}

/// A session is always in one of these states.
#[derive(Debug, Copy, Clone, PartialEq, Eq, Structural)]
pub enum SessionState {
    /// The session attempts to establish a connection to the remote clients.
    Synchronizing,
    /// The session has synchronized and is ready to take and transmit player input.
    Running,
}

/// Given together with player inputs when the frame is advanced.
#[derive(Debug, Copy, Clone, PartialEq, Eq)]
pub enum InputStatus {
    /// The input of this player for this frame is an actual received input.
    Confirmed,
    /// The input of this player for this frame is predicted.
    Predicted,
    /// The player has disconnected at or prior to this frame, so this input is a dummy.
    Disconnected,
}

/// Notifications a session gives; handling them is up to the user. `A` is the type of the
/// remote endpoints' addresses.
#[derive(Debug, Copy, Clone, PartialEq, Eq)]
pub enum GgrsEvent<A> {
    /// The session made progress in synchronizing with the endpoint at `addr`; after `total`
    /// roundtrips the sessions are synchronized.
    Synchronizing { addr: A, total: u32, count: u32 },
    /// The session is now synchronized with the endpoint at `addr`.
    Synchronized { addr: A },
    /// The endpoint at `addr` has disconnected.
    Disconnected { addr: A },
    /// No packets arrived from `addr` for some time; it is disconnected in `disconnect_timeout`
    /// ms.
    NetworkInterrupted { addr: A, disconnect_timeout: u128 },
    /// Communication with `addr` resumed after an interruption.
    NetworkResumed { addr: A },
    /// Skipping `skip_frames` frames is recommended to let the other clients catch up.
    WaitRecommendation { skip_frames: u32 },
    /// The local and the remote checksum of `frame` differ.
    DesyncDetected { frame: Frame, local_checksum: u128, remote_checksum: u128, addr: A },
}

/// Predicts the next input of a player from the previous input received.
///
/// When no previous input is available (no input of a remote player arrived yet), the default
/// input is used instead of calling the predictor.
pub trait InputPredictor<I> {
    /// Predict the next input for a player based on a previous input.
    fn predict(previous: I) -> I;
}

/// Predicts that the next input of any player is identical to the last received input of that
/// player. A good default for inputs that capture the state of buttons held down.
pub struct PredictRepeatLast;

impl<I> InputPredictor<I> for PredictRepeatLast {
    fn predict(previous: I) -> (r: I)
        ensures
            r == previous,
    {
        previous
    }
}

/// Predicts that the next input of any player is the default input, whatever the previous
/// input was. Suited to inputs that capture transitions rather than states.
pub struct PredictDefault;

impl<I: Default> InputPredictor<I> for PredictDefault {
    fn predict(_previous: I) -> (r: I)
        ensures
            call_ensures(I::default, (), r),
    {
        I::default()
    }
}

} // verus!
