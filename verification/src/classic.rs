//! The byte-buffer API: each player's input is serialized into at most `MAX_INPUT_BYTES` bytes,
//! game states are serialized byte buffers, and the game provides save, load and advance
//! through [`GGRSInterface`].
use vstd::prelude::*;

pub mod error;
pub mod frame_info;
pub mod network_stats;
pub mod p2p_session;
pub mod player;
pub mod sync_layer;
pub mod sync_test_session;
pub mod udp_msg;

use crate::PlayerHandle;
pub use p2p_session::{start_p2p_session, P2PSession};
pub use sync_test_session::{start_synctest_session, SyncTestSession};
use frame_info::{GameInput, GameState};

verus! {

/// The maximum number of players allowed.
pub const MAX_PLAYERS: u32 = 4;

/// The maximum number of spectators allowed.
pub const MAX_SPECTATORS: u32 = 8;

/// The maximum number of frames that are rolled back.
pub const MAX_PREDICTION_FRAMES: u32 = 8;

/// The maximum input delay that can be set.
pub const MAX_INPUT_DELAY: u32 = 10;

/// A frame number.
pub type FrameNumber = i32;

/// A session is always in one of these states.
#[derive(Debug, Copy, Clone, PartialEq, Eq, Structural)]
pub enum SessionState {
    /// All necessary players must be added and the session started to continue.
    Initializing,
    /// The session attempts to establish a connection to the remote clients.
    Synchronizing,
    /// The session has synchronized and is ready to take and transmit player input.
    Running,
}

/// The notifications a session gives.
#[derive(Debug, Copy, Clone, PartialEq, Eq)]
pub enum GGRSEvent {
    /// The session made progress in synchronizing. After `total` roundtrips, the sessions are
    /// synchronized.
    Synchronizing { player_handle: PlayerHandle, total: u32, count: u32 },
    /// The session is now synchronized with the remote client.
    Synchronized { player_handle: PlayerHandle },
    /// The remote client has disconnected.
    Disconnected { player_handle: PlayerHandle },
    /// No packets arrived from the remote client for a while; it is disconnected after
    /// `disconnect_timeout` ms.
    NetworkInterrupted { player_handle: PlayerHandle, disconnect_timeout: u128 },
    /// Communication resumed after a `NetworkInterrupted` event.
    NetworkResumed { player_handle: PlayerHandle },
}

/// A call by which a session changes the game: loading a saved state, or advancing one frame
/// with the inputs of all players.
pub enum GameCall {
    Load(GameState),
    Advance(Seq<GameInput>),
}

/// The functions the game provides to a session.
pub trait GGRSInterface {
    /// Whether this game keeps the record `calls` of the loads and advances made on it (a
    /// game keeps none unless it says so).
    open spec fn keeps_calls() -> bool {
        false
    }

    /// The loads and advances made on this game so far, oldest first (meaningful where
    /// `keeps_calls` holds).
    open spec fn calls(&self) -> Seq<GameCall> {
        Seq::empty()
    }

    /// Serializes the entire current game state into a `GameState`, optionally with a checksum.
    fn save_game_state(&self) -> GameState;

    /// Makes the current game state match a previously saved state.
    fn load_game_state(&mut self, state: &GameState)
        ensures
            Self::keeps_calls() ==> final(self).calls() == old(self).calls().push(
                GameCall::Load(*state),
            ),
    ;

    /// Advances the game state by exactly one frame using the given inputs.
    fn advance_frame(&mut self, inputs: Vec<GameInput>)
        ensures
            Self::keeps_calls() ==> final(self).calls() == old(self).calls().push(
                GameCall::Advance(inputs@),
            ),
    ;
}

} // verus!
