//! The failures of the whole program, one variant per source.
use vstd::prelude::*;
use crate::game::GamePersistenceError;
use crate::game_event::GameEventError;
use crate::persistence_service::PersistenceServiceError;
use crate::settings::SettingsError;

verus! {

/// A failure of the program, carrying the error of the part that failed.
#[derive(Debug)]
pub enum AppError {
    Settings(SettingsError),
    Persistence(sled::Error),
    GameEventStore(GameEventError),
    Service(PersistenceServiceError),
    GameStore(GamePersistenceError),
}

} // verus!
