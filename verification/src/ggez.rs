//! The first rollback API: a session calls back into the game through [`GGEZInterface`]; inputs
//! are byte buffers of at most `MAX_INPUT_BYTES` bytes per player.
use vstd::prelude::*;

pub mod frame_info;
pub mod game_info;
pub mod input_queue;
pub mod network_stats;
pub mod player;
pub mod sessions;
pub mod sync_layer;

use game_info::{GameInput, GameState};
use network_stats::NetworkStats;
use player::Player;

verus! {

/// The maximum number of players allowed.
pub const MAX_PLAYERS: usize = 2;

/// The maximum number of spectators allowed.
pub const MAX_SPECTATORS: usize = 8;

/// The maximum number of frames that are rolled back.
pub const MAX_PREDICTION_FRAMES: usize = 8;

/// The maximum input delay that can be set.
pub const MAX_INPUT_DELAY: u32 = 10;

/// The maximum number of bytes the input of a single player can consist of.
pub const MAX_INPUT_BYTES: usize = 8;

/// The length of the input queue.
pub const INPUT_QUEUE_LENGTH: usize = 128;

/// Internally, -1 represents no frame / invalid frame.
pub const NULL_FRAME: i32 = -1;

/// The input bytes of one player.
pub type InputBuffer = [u8; 8];

/// A frame number.
pub type FrameNumber = i32;

/// Identifies a player.
pub type PlayerHandle = usize;

/// All errors this API can return.
#[derive(Debug)]
pub enum GGEZError {
    /// A catch-all error; usage should be limited.
    GeneralFailure(String),
    InvalidSession,
    /// The given player handle was invalid (usually `>= num_players`).
    InvalidPlayerHandle,
    /// The prediction threshold has been reached; no more local inputs are accepted.
    PredictionThreshold,
    Unsupported,
    NotSynchronized,
    InRollback,
    InputDropped,
    PlayerDisconnected,
    TooManySpectators,
    InvalidRequest,
    SyncTestFailed,
}

/// Describes some type of event that just happened.
#[derive(Debug)]
pub enum GGEZEvent {
    /// All the clients have synchronized; inputs may be sent.
    Running,
    /// The handshake with the game on the other side of the network has been completed.
    ConnectedToPeer(ConnectedToPeer),
    /// Synchronization with the client on the other end started; `count` and `total` show the
    /// progress.
    SynchronizingWithPeer(SynchronizingWithPeer),
    /// The synchronization with this peer has finished.
    SynchronizedWithPeer(SynchronizedWithPeer),
    /// The network connection on the other end has closed.
    DisconnectedFromPeer(DisconnectedFromPeer),
    /// This client is too far ahead of the other one and should slow down by `frames_ahead`.
    TimeSync(TimeSyncEvent),
    /// The network connection on the other end has been interrupted.
    ConnectionInterrupted(ConnectionInterrupted),
    /// The network connection on the other end has been resumed.
    ConnectionResumed(ConnectionResumed),
}

#[derive(Debug)]
pub struct ConnectedToPeer {
    pub player_handle: PlayerHandle,
}

#[derive(Debug)]
pub struct SynchronizingWithPeer {
    pub count: u32,
    pub total: u32,
    pub player_handle: PlayerHandle,
}

#[derive(Debug)]
pub struct SynchronizedWithPeer {
    pub player_handle: PlayerHandle,
}

#[derive(Debug)]
pub struct DisconnectedFromPeer {
    pub player_handle: PlayerHandle,
}

#[derive(Debug)]
pub struct TimeSyncEvent {
    pub frames_ahead: u32,
}

#[derive(Debug)]
pub struct ConnectionInterrupted {
    pub player_handle: PlayerHandle,
    pub disconnect_timeout: u32,
}

#[derive(Debug)]
pub struct ConnectionResumed {
    pub player_handle: PlayerHandle,
}

/// A call by which a session changes the game: loading a saved state, or advancing one frame
/// with the inputs of all players and the disconnect flags.
pub enum GGEZCall {
    Load(GameState),
    Advance(Seq<GameInput>, u8),
}

/// The functions the game provides to a session.
pub trait GGEZInterface {
    /// Whether this game keeps the record `calls` of the loads and advances made on it (a
    /// game keeps none unless it says so).
    open spec fn keeps_calls() -> bool {
        false
    }

    /// The loads and advances made on this game so far, oldest first (meaningful where
    /// `keeps_calls` holds).
    open spec fn calls(&self) -> Seq<GGEZCall> {
        Seq::empty()
    }

    /// Serializes the entire current game state, optionally with a checksum.
    fn save_game_state(&self) -> GameState;

    /// Makes the current game state match a previously saved state.
    fn load_game_state(&mut self, state: &GameState)
        ensures
            Self::keeps_calls() ==> final(self).calls() == old(self).calls().push(
                GGEZCall::Load(*state),
            ),
    ;

    /// Advances the game state by exactly one frame using the provided inputs.
    fn advance_frame(&mut self, inputs: Vec<GameInput>, disconnect_flags: u8)
        ensures
            Self::keeps_calls() ==> final(self).calls() == old(self).calls().push(
                GGEZCall::Advance(inputs@, disconnect_flags),
            ),
    ;

    /// Notifies the game that something has happened.
    fn on_event(&mut self, info: GGEZEvent)
        ensures
            Self::keeps_calls() ==> final(self).calls() == old(self).calls(),
    ;
}

/// The operations every session backend offers; `A` is the type of the remote players'
/// addresses.
pub trait GGEZSession<A>: Sized {
    /// Adds a player to the session and returns the handle that identifies it in later calls.
    /// Must be called once for each player.
    fn add_player(&mut self, player: &Player<A>) -> Result<PlayerHandle, GGEZError>;

    /// Starts the session once all players have been added.
    fn start_session(&mut self) -> Result<(), GGEZError>;

    /// Disconnects a remote player; `PlayerDisconnected` if that player is already
    /// disconnected.
    fn disconnect_player(&mut self, player_handle: PlayerHandle) -> Result<(), GGEZError>;

    /// Hands over the input of a local player for the coming frame. Must be called once every
    /// frame for every local player before `advance_frame`.
    fn add_local_input(&mut self, player_handle: PlayerHandle, input: &[u8]) -> Result<
        (),
        GGEZError,
    >;

    /// Advances the game state by a single frame, calling back into `interface`.
    fn advance_frame<I: GGEZInterface>(&mut self, interface: &mut I) -> Result<(), GGEZError>;

    /// Statistics about the quality of the network connection to a player.
    fn get_network_stats(&self, player_handle: PlayerHandle) -> Result<NetworkStats, GGEZError>;

    /// Changes the number of frames the local inputs of a player are delayed. Must be called
    /// before the first `advance_frame`.
    fn set_frame_delay(&mut self, frame_delay: u32, player_handle: PlayerHandle) -> Result<
        (),
        GGEZError,
    >;

    /// Sets the time after which a silent remote peer is disconnected.
    fn set_disconnect_timeout(&self, timeout: u32) -> Result<(), GGEZError>;

    /// Sets the time to wait before the first `ConnectionInterrupted` event.
    fn set_disconnect_notify_delay(&self, notify_delay: u32) -> Result<(), GGEZError>;

    /// Gives the session a chance to do internal work (packets, rollbacks).
    fn idle<I: GGEZInterface>(&self, interface: &mut I) -> Result<(), GGEZError>;
}

} // verus!
