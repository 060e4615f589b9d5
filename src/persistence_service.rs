//! The service that records an event only for a game that exists.
use vstd::prelude::*;
use crate::game::{decoded_game, game_key, GamePersistenceError, GameStore};
use crate::game_event::{
    event_key, event_record, put_event, GameEvent, GameEventError, GameEventStore, GameEventView,
};

verus! {

/// Why the service refused or failed to record an event.
#[derive(Debug)]
pub enum PersistenceServiceError {
    /// No game has the id that the event names; it carries that id.
    GameNotFound(String),
    /// Looking the game up failed.
    Game(GamePersistenceError),
    /// Writing the event failed.
    GameEvent(GameEventError),
}

/// The events collection after recording `e` under `key`, given the games
/// collection: `None` when no game has the event's id, and nothing is written.
pub open spec fn record_event(
    games: Map<Seq<u8>, Seq<u8>>,
    events: Map<Seq<u8>, Seq<u8>>,
    key: Seq<char>,
    e: GameEventView,
) -> Option<Map<Seq<u8>, Seq<u8>>> {
    if games.contains_key(game_key(e.game_id)) {
        Some(put_event(events, key, e))
    } else {
        None
    }
}

/// Whether every stored event is the record of an event whose game is held.
pub open spec fn events_name_games(games: Map<Seq<u8>, Seq<u8>>, events: Map<Seq<u8>, Seq<u8>>) -> bool {
    forall|k: Seq<u8>|
        #[trigger] events.contains_key(k) ==> exists|e: GameEventView|
            events[k] == #[trigger] event_record(e) && games.contains_key(game_key(e.game_id))
}

/// Recording an event keeps every stored event naming a held game.
pub proof fn lemma_record_keeps_references(
    games: Map<Seq<u8>, Seq<u8>>,
    events: Map<Seq<u8>, Seq<u8>>,
    key: Seq<char>,
    e: GameEventView,
)
    requires
        events_name_games(games, events),
        record_event(games, events, key, e) is Some,
    ensures
        events_name_games(games, record_event(games, events, key, e)->Some_0),
{
    let after = put_event(events, key, e);
    assert forall|k: Seq<u8>| #[trigger] after.contains_key(k) implies exists|x: GameEventView|
        after[k] == #[trigger] event_record(x) && games.contains_key(game_key(x.game_id)) by {
        if k == event_key(key) {
            assert(after[k] == event_record(e));
        } else {
            assert(events.contains_key(k));
        }
    }
}

/// Referential gate, admitting: when the event's game is held, the event is
/// written under its key, where a later scan finds it.
pub proof fn lemma_gate_admits(
    games: Map<Seq<u8>, Seq<u8>>,
    events: Map<Seq<u8>, Seq<u8>>,
    key: Seq<char>,
    e: GameEventView,
)
    requires
        games.contains_key(game_key(e.game_id)),
    ensures
        record_event(games, events, key, e) matches Some(after) && after.contains_key(
            event_key(key),
        ) && after[event_key(key)] == event_record(e) && (forall|k: Seq<u8>|
            k != event_key(key) ==> #[trigger] after.contains_key(k) == events.contains_key(k)),
{
}

/// Referential gate, refusing: when the event's game is not held, nothing is
/// recorded, so a key that was free stays free.
pub proof fn lemma_gate_refuses(
    games: Map<Seq<u8>, Seq<u8>>,
    events: Map<Seq<u8>, Seq<u8>>,
    key: Seq<char>,
    e: GameEventView,
)
    requires
        !games.contains_key(game_key(e.game_id)),
    ensures
        record_event(games, events, key, e) is None,
{
}

/// Both stores, borrowed: games to be read, events to be written.
pub struct PersistenceService<'a> {
    pub game_store: &'a GameStore,
    pub event_store: &'a mut GameEventStore,
}

impl<'a> PersistenceService<'a> {
    pub fn new(game_store: &'a GameStore, event_store: &'a mut GameEventStore) -> (r:
        PersistenceService<'a>)
        ensures
            r.game_store == game_store,
            *r.event_store == *old(event_store),
            *final(r.event_store) == *final(event_store),
    {
        PersistenceService { game_store, event_store }
    }

    /// Records the event under `key` if the game it names exists, and
    /// otherwise fails with `GameNotFound` and writes nothing.
    ///
    /// The lookup and the write are two steps on two collections, with no
    /// transaction around them: a game removed between them by another writer
    /// would go unnoticed. Nothing here removes games, and each store is its
    /// collection's only writer.
    pub fn insert_event_if_game_exists(&mut self, key: &str, event: &GameEvent) -> (r: Result<
        (),
        PersistenceServiceError,
    >)
        ensures
            final(self).game_store == old(self).game_store,
            *final(final(self).event_store) == *final(old(self).event_store),
            r is Ok ==> record_event(
                old(self).game_store@,
                old(self).event_store@,
                key@,
                event@,
            ) == Some(final(self).event_store@),
            r matches Err(PersistenceServiceError::GameNotFound(id)) ==> id@ == event.game_id@
                && record_event(old(self).game_store@, old(self).event_store@, key@, event@)
                is None,
            !old(self).game_store@.contains_key(game_key(event.game_id@)) ==> r is Err
                && final(self).event_store@ == old(self).event_store@,
            r matches Err(e) ==> (!(e is GameEvent) ==> final(self).event_store@ == old(
                self,
            ).event_store@),
            final(self).event_store@ == old(self).event_store@ || record_event(
                old(self).game_store@,
                old(self).event_store@,
                key@,
                event@,
            ) == Some(final(self).event_store@),
            !old(self).game_store@.contains_key(game_key(event.game_id@)) ==> (r matches Err(
                PersistenceServiceError::GameNotFound(_),
            ) || r matches Err(PersistenceServiceError::Game(GamePersistenceError::Sled(_)))),
            old(self).game_store@.contains_key(game_key(event.game_id@)) ==> (r is Ok || r matches Err(
                PersistenceServiceError::Game(GamePersistenceError::Sled(_)),
            ) || r matches Err(PersistenceServiceError::GameEvent(GameEventError::Sled(_))) || (r matches Err(
                PersistenceServiceError::Game(GamePersistenceError::Serialization(_)),
            ) && decoded_game(old(self).game_store@[game_key(event.game_id@)]) is None)),
            events_name_games(old(self).game_store@, old(self).event_store@) ==> events_name_games(
                old(self).game_store@,
                final(self).event_store@,
            ),
    {
        proof {
            if events_name_games(self.game_store@, self.event_store@) && self.game_store@.contains_key(
                game_key(event.game_id@),
            ) {
                lemma_record_keeps_references(self.game_store@, self.event_store@, key@, event@);
            }
        }
        let found = match self.game_store.get(event.game_id.as_str()) {
            Ok(found) => found,
            Err(e) => return Err(PersistenceServiceError::Game(e)),
        };
        if found.is_none() {
            return Err(PersistenceServiceError::GameNotFound(event.game_id.clone()));
        }
        match self.event_store.insert(key, event) {
            Ok(()) => Ok(()),
            Err(e) => Err(PersistenceServiceError::GameEvent(e)),
        }
    }
}

} // verus!
