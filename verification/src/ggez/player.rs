use vstd::prelude::*;

verus! {

/// The three types of players: local players, who play on the local device; remote players,
/// who play on other devices; and spectators, remote players that do not contribute to the game
/// input. Remote players and spectators carry the address `A` of their device.
#[derive(Debug, Clone, Copy, PartialEq, Eq)]
pub enum PlayerType<A> {
    /// This player plays on the local device.
    Local,
    /// This player plays on a remote device identified by the address.
    Remote(A),
    /// This player spectates on a remote device identified by the address.
    Spectator(A),
}

/// A player in the game.
#[derive(Debug, Clone, Copy, PartialEq, Eq)]
pub struct Player<A> {
    /// The type of the player.
    pub player_type: PlayerType<A>,
    /// The player handle, between 0 and the number of players in the game minus one.
    pub player_handle: u32,
}

impl<A> Player<A> {
    /// A player with the given type and handle.
    pub fn new(player_type: PlayerType<A>, player_handle: u32) -> (r: Player<A>)
        ensures
            r.player_type == player_type,
            r.player_handle == player_handle,
    {
        Player { player_handle, player_type }
    }
}

} // verus!
