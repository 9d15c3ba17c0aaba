//! Session set-up: the registry of players and the builder that collects a session's
//! configuration.
pub mod builder;
pub mod p2p_spectator_session;
pub mod player_registry;
