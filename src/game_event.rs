//! Events recorded against games, and the store that keeps them under keys
//! that the caller chooses.
use vstd::prelude::*;
use vstd::utf8::*;
use crate::codec::{decode_event_fields, encode_event_fields, event_bytes, event_decoding};
use crate::game::Timestamp;
use crate::tree::{entry_keys, lemma_walk_keys, tree_contents, tree_entries, tree_insert, walks};

verus! {

/// What happened in a game.
#[derive(Clone, Copy, Debug, PartialEq, Eq, Structural)]
pub enum GameEventType {
    Start,
    Attempt,
    Solve,
    LevelUp,
}

/// The number an event type is encoded as: its position in the declaration.
pub open spec fn event_type_code(t: GameEventType) -> u32 {
    match t {
        GameEventType::Start => 0,
        GameEventType::Attempt => 1,
        GameEventType::Solve => 2,
        GameEventType::LevelUp => 3,
    }
}

/// The event type encoded as `c`, if there is one.
pub open spec fn event_type_of_code(c: u32) -> Option<GameEventType> {
    if c == 0 {
        Some(GameEventType::Start)
    } else if c == 1 {
        Some(GameEventType::Attempt)
    } else if c == 2 {
        Some(GameEventType::Solve)
    } else if c == 3 {
        Some(GameEventType::LevelUp)
    } else {
        None
    }
}

impl GameEventType {
    /// The number this type is encoded as.
    pub fn code(&self) -> (r: u32)
        ensures
            r == event_type_code(*self),
    {
        match self {
            GameEventType::Start => 0,
            GameEventType::Attempt => 1,
            GameEventType::Solve => 2,
            GameEventType::LevelUp => 3,
        }
    }

    /// The type encoded as `c`, if there is one.
    pub fn from_code(c: u32) -> (r: Option<GameEventType>)
        ensures
            r == event_type_of_code(c),
            r matches Some(t) ==> event_type_code(t) == c,
            r is None <==> c > 3,
    {
        match c {
            0 => Some(GameEventType::Start),
            1 => Some(GameEventType::Attempt),
            2 => Some(GameEventType::Solve),
            3 => Some(GameEventType::LevelUp),
            _ => None,
        }
    }
}

/// An event: what happened, when, in which game.
#[derive(Debug)]
pub struct GameEvent {
    pub game_id: String,
    pub event_type: GameEventType,
    pub timestamp: Timestamp,
}

/// An event as a mathematical value.
pub struct GameEventView {
    pub game_id: Seq<char>,
    pub event_type: GameEventType,
    pub timestamp: Timestamp,
}

impl View for GameEvent {
    type V = GameEventView;

    open spec fn view(&self) -> GameEventView {
        GameEventView {
            game_id: self.game_id@,
            event_type: self.event_type,
            timestamp: self.timestamp,
        }
    }
}

/// The key an event is stored under: the UTF-8 bytes of the caller's key.
pub open spec fn event_key(key: Seq<char>) -> Seq<u8> {
    encode_utf8(key)
}

/// The bytes an event is stored as.
pub open spec fn event_record(e: GameEventView) -> Seq<u8> {
    event_bytes(e.game_id, event_type_code(e.event_type), e.timestamp.fields())
}

/// The event that stored bytes decode to, if they decode to one.
pub open spec fn decoded_event(b: Seq<u8>) -> Option<GameEventView> {
    match event_decoding(b) {
        Some(t) => match event_type_of_code(t.1) {
            Some(event_type) => Some(
                GameEventView {
                    game_id: t.0,
                    event_type,
                    timestamp: Timestamp { secs: t.2.0, nanos: t.2.1 },
                },
            ),
            None => None,
        },
        None => None,
    }
}

/// Whether every value of the collection decodes as an event.
pub open spec fn all_events_decode(m: Map<Seq<u8>, Seq<u8>>) -> bool {
    forall|k: Seq<u8>| #[trigger] m.contains_key(k) ==> decoded_event(m[k]) is Some
}

/// Whether `v` holds the decoding of each entry of `m`, one per key.
pub open spec fn is_scan_of_events(m: Map<Seq<u8>, Seq<u8>>, v: Seq<GameEventView>) -> bool {
    exists|ks: Seq<Seq<u8>>|
        ks.len() == v.len() && ks.no_duplicates() && ks.to_set() == m.dom() && forall|i: int|
            0 <= i < ks.len() ==> decoded_event(m[#[trigger] ks[i]]) == Some(v[i])
}

/// Whether some event is stored as these bytes.
pub open spec fn is_event_record(b: Seq<u8>) -> bool {
    exists|e: GameEventView| b == #[trigger] event_record(e)
}

/// Whether every value of the collection is a stored event.
pub open spec fn all_event_records(m: Map<Seq<u8>, Seq<u8>>) -> bool {
    forall|k: Seq<u8>| #[trigger] m.contains_key(k) ==> is_event_record(m[k])
}

/// The collection after `e` is written under `key`.
pub open spec fn put_event(m: Map<Seq<u8>, Seq<u8>>, key: Seq<char>, e: GameEventView) -> Map<
    Seq<u8>,
    Seq<u8>,
> {
    m.insert(event_key(key), event_record(e))
}

/// The events of a sequence, as values.
pub open spec fn event_views(v: Seq<GameEvent>) -> Seq<GameEventView> {
    v.map_values(|e: GameEvent| e@)
}

/// Whether every event that the collection holds appears in `v`.
pub open spec fn lists_every_event(m: Map<Seq<u8>, Seq<u8>>, v: Seq<GameEventView>) -> bool {
    forall|k: Seq<u8>, e: GameEventView|
        #[trigger] m.contains_key(k) && m[k] == #[trigger] event_record(e) ==> v.contains(e)
}

/// Whether the collection holds event `e` under some key.
pub open spec fn stores_event(m: Map<Seq<u8>, Seq<u8>>, e: GameEventView) -> bool {
    exists|k: Seq<u8>| #[trigger] m.contains_key(k) && m[k] == event_record(e)
}

/// Whether each event of `v` is held by the collection under some key.
pub open spec fn lists_only_stored_events(m: Map<Seq<u8>, Seq<u8>>, v: Seq<GameEventView>) -> bool {
    forall|i: int| 0 <= i < v.len() ==> stores_event(m, #[trigger] v[i])
}

/// Why an operation of the event store failed.
#[derive(Debug)]
pub enum GameEventError {
    /// The store could not read or write the collection.
    Sled(sled::Error),
    /// An event could not be encoded, or stored bytes could not be decoded.
    Serialization(Box<bincode::ErrorKind>),
    /// Stored bytes name an event type that does not exist.
    UnknownEventType(u32),
}

/// The events, each under its own key, in one collection of the store.
pub struct GameEventStore {
    tree: sled::Tree,
}

impl View for GameEventStore {
    type V = Map<Seq<u8>, Seq<u8>>;

    closed spec fn view(&self) -> Map<Seq<u8>, Seq<u8>> {
        tree_contents(self.tree)
    }
}

/// Decodes stored bytes; bytes written for an event decode to that event.
fn decode_event(b: &[u8]) -> (r: Result<GameEvent, GameEventError>)
    ensures
        r is Err ==> !is_event_record(b@),
        r matches Err(e) ==> !(e is Sled),
        forall|e: GameEventView| b@ == #[trigger] event_record(e) ==> (r matches Ok(x) && x@ == e),
        r is Err <==> decoded_event(b@) is None,
        r matches Ok(x) ==> decoded_event(b@) == Some(x@),
{
    match decode_event_fields(b) {
        Ok(f) => {
            let (game_id, code, timestamp) = f;
            match GameEventType::from_code(code) {
                Some(event_type) => {
                    let x = GameEvent {
                        game_id,
                        event_type,
                        timestamp: Timestamp::from_fields(timestamp),
                    };
                    proof {
                        assert forall|e: GameEventView| b@ == #[trigger] event_record(e) implies x@
                            == e by {
                            assert(event_type_code(x.event_type) == event_type_code(e.event_type));
                        }
                    }
                    Ok(x)
                },
                None => Err(GameEventError::UnknownEventType(code)),
            }
        },
        Err(e) => Err(GameEventError::Serialization(e)),
    }
}

impl GameEventStore {
    /// A store over the given collection, with what it already holds. The
    /// store must be the collection's only writer.
    pub fn new(tree: sled::Tree) -> (r: GameEventStore)
        ensures
            r@ == tree_contents(tree),
    {
        GameEventStore { tree }
    }

    /// Writes the event under `key`, replacing whatever was there. Whether the
    /// event's game exists is not looked at.
    pub fn insert(&mut self, key: &str, event: &GameEvent) -> (r: Result<(), GameEventError>)
        ensures
            r is Ok ==> final(self)@ == put_event(old(self)@, key@, event@),
            r is Err ==> final(self)@ == old(self)@ || final(self)@ == put_event(
                old(self)@,
                key@,
                event@,
            ),
            r matches Err(e) ==> e is Sled,
    {
        let bytes = match encode_event_fields(
            &event.game_id,
            event.event_type.code(),
            event.timestamp.to_fields(),
        ) {
            Ok(b) => b,
            Err(e) => return Err(GameEventError::Serialization(e)),
        };
        match tree_insert(&mut self.tree, key.as_bytes(), bytes) {
            Ok(()) => Ok(()),
            Err(e) => Err(GameEventError::Sled(e)),
        }
    }

    /// Every event of the store, once each, in no particular order; fails on
    /// the first value that does not decode.
    pub fn all(&self) -> (r: Result<Vec<GameEvent>, GameEventError>)
        ensures
            r matches Ok(v) ==> v@.len() == self@.len(),
            r matches Ok(v) ==> lists_every_event(self@, event_views(v@)),
            r matches Ok(v) ==> (all_event_records(self@) ==> lists_only_stored_events(
                self@,
                event_views(v@),
            )),
            r matches Err(e) ==> (!(e is Sled) ==> !all_event_records(self@)),
            r matches Ok(v) ==> is_scan_of_events(self@, event_views(v@)),
            r is Ok ==> all_events_decode(self@),
    {
        let entries = match tree_entries(&self.tree) {
            Ok(es) => es,
            Err(e) => return Err(GameEventError::Sled(e)),
        };
        let ghost m = self@;
        let mut events: Vec<GameEvent> = Vec::new();
        let mut i: usize = 0;
        while i < entries.len()
            invariant
                i <= entries@.len(),
                events@.len() == i,
                m == self@,
                walks(m, entries@),
                forall|j: int| 0 <= j < i ==> decoded_event(entries@[j].1@) == Some((#[trigger] events@[j])@),
                forall|j: int, e: GameEventView|
                    0 <= j < i && entries@[j].1@ == #[trigger] event_record(e) ==> (
                    #[trigger] events@[j])@ == e,
            decreases entries@.len() - i,
        {
            match decode_event(entries[i].1.as_slice()) {
                Ok(e) => events.push(e),
                Err(e) => {
                    proof {
                        assert(m.contains_key(entries@[i as int].0@));
                    }
                    return Err(e);
                },
            }
            i += 1;
        }
        proof {
            let n = entries@.len();
            let keys = entry_keys(entries@);
            lemma_walk_keys(m, entries@);
            let vs = event_views(events@);
            assert forall|i: int| 0 <= i < keys.len() implies decoded_event(m[#[trigger] keys[i]])
                == Some(vs[i]) by {
                assert(m.contains_key(entries@[i].0@));
                assert(events@[i]@ == vs[i]);
            }
            assert(is_scan_of_events(m, vs));
            assert forall|k: Seq<u8>| #[trigger] m.contains_key(k) implies decoded_event(m[k]) is Some by {
                let j = choose|j: int| 0 <= j < n && #[trigger] entries@[j].0@ == k;
                assert(events@[j]@ == vs[j]);
            }
            assert forall|k: Seq<u8>, e: GameEventView|
                #[trigger] m.contains_key(k) && m[k] == #[trigger] event_record(
                    e,
                ) implies vs.contains(e) by {
                let j = choose|j: int| 0 <= j < n && #[trigger] entries@[j].0@ == k;
                assert(vs[j] == e);
            }
            if all_event_records(m) {
                assert forall|i: int| 0 <= i < vs.len() implies stores_event(
                    m,
                    #[trigger] vs[i],
                ) by {
                    let k = entries@[i].0@;
                    assert(m.contains_key(k));
                    let e = choose|e: GameEventView| m[k] == #[trigger] event_record(e);
                    assert(events@[i]@ == e);
                    assert(m.contains_key(k) && m[k] == event_record(vs[i]));
                }
            }
        }
        Ok(events)
    }
}

} // verus!
