use vstd::prelude::*;

use crate::ggez::GGEZError;

verus! {

/// A spectator session of the first rollback API; it holds no state yet.
pub struct Peer2PeerSpectatorSession {}

impl Peer2PeerSpectatorSession {
    /// Starts a spectator session; this always succeeds.
    pub fn start_p2p_spectator_session(
        num_players: u32,
        input_size: usize,
        local_port: u32,
    ) -> (r: Result<Self, GGEZError>)
        ensures
            r is Ok,
    {
        Ok(Peer2PeerSpectatorSession {})
    }
}

} // verus!
