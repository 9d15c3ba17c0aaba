use vstd::prelude::*;

use crate::{PlayerHandle, PlayerType};

verus! {

/// A player of the byte-buffer API: its type and its handle, between 0 and the number of
/// players minus one. `A` is the type of remote addresses.
#[derive(Debug, Clone, Copy, PartialEq, Eq)]
pub struct Player<A> {
    /// The type of the player.
    pub player_type: PlayerType<A>,
    /// The player handle.
    pub player_handle: PlayerHandle,
}

impl<A> Player<A> {
    /// A player with the given type and handle.
    pub fn new(player_type: PlayerType<A>, player_handle: PlayerHandle) -> (r: Player<A>)
        ensures
            r.player_type == player_type,
            r.player_handle == player_handle,
    {
        Player { player_handle, player_type }
    }
}

impl<A> Default for Player<A> {
    fn default() -> (r: Self)
        ensures
            r.player_type is Local,
            r.player_handle == 0,
    {
        Player { player_type: PlayerType::Local, player_handle: 0 }
    }
}

} // verus!
