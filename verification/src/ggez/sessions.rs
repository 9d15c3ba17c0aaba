//! Session types of the first rollback API.
pub mod p2p_spectator;
pub mod spectator;
