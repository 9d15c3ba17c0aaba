use vstd::prelude::*;

use crate::ggez::GGEZError;

verus! {

/// A spectator session of the first rollback API; it holds no state yet.
pub struct SpectatorSession {}

impl SpectatorSession {
    /// Starts a spectator session; this always succeeds.
    pub fn start_session(num_players: u32, input_size: usize, local_port: u32) -> (r: Result<
        Self,
        GGEZError,
    >)
        ensures
            r is Ok,
    {
        Ok(SpectatorSession {})
    }
}

} // verus!
