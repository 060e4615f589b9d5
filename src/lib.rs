//! Persistence of games and of the events recorded against them, in an
//! embedded key-value store, with the rule that an event is only recorded for
//! a game that exists.
pub mod codec;
pub mod error;
pub mod game;
pub mod game_event;
pub mod persistence_service;
pub mod settings;
pub mod tree;
