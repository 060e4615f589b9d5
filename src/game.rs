//! Games and the store that keeps them, keyed by the bytes of their id.
use vstd::prelude::*;
use vstd::utf8::*;
use crate::codec::{decode_game_fields, encode_game_fields, game_bytes, game_decoding};
use crate::tree::{
    entry_keys, lemma_walk_keys, tree_contents, tree_entries, tree_get, tree_insert, walks,
};

verus! {

broadcast use vstd::utf8::encode_utf8_decode_utf8;

/// A point in time: whole seconds since the Unix epoch and the nanoseconds
/// past that second.
#[derive(Clone, Copy, Debug, PartialEq, Eq, Structural)]
pub struct Timestamp {
    pub secs: i64,
    pub nanos: u32,
}

impl Timestamp {
    pub open spec fn fields(self) -> (i64, u32) {
        (self.secs, self.nanos)
    }

    pub fn to_fields(&self) -> (r: (i64, u32))
        ensures
            r == self.fields(),
    {
        (self.secs, self.nanos)
    }

    pub fn from_fields(f: (i64, u32)) -> (r: Timestamp)
        ensures
            r.fields() == f,
    {
        Timestamp { secs: f.0, nanos: f.1 }
    }
}

pub open spec fn optional_fields(t: Option<Timestamp>) -> Option<(i64, u32)> {
    match t {
        Some(t) => Some(t.fields()),
        None => None,
    }
}

fn optional_to_fields(t: Option<Timestamp>) -> (r: Option<(i64, u32)>)
    ensures
        r == optional_fields(t),
{
    match t {
        Some(t) => Some(t.to_fields()),
        None => None,
    }
}

fn optional_from_fields(f: Option<(i64, u32)>) -> (r: Option<Timestamp>)
    ensures
        optional_fields(r) == f,
{
    match f {
        Some(f) => Some(Timestamp::from_fields(f)),
        None => None,
    }
}

/// A game: the entity that events are recorded against.
#[derive(Debug)]
pub struct Game {
    pub id: String,
    pub team_name: String,
    pub start_time: Option<Timestamp>,
    pub end_time: Option<Timestamp>,
    pub score: u32,
}

/// A game as a mathematical value.
pub struct GameView {
    pub id: Seq<char>,
    pub team_name: Seq<char>,
    pub start_time: Option<Timestamp>,
    pub end_time: Option<Timestamp>,
    pub score: u32,
}

impl View for Game {
    type V = GameView;

    open spec fn view(&self) -> GameView {
        GameView {
            id: self.id@,
            team_name: self.team_name@,
            start_time: self.start_time,
            end_time: self.end_time,
            score: self.score,
        }
    }
}

/// The key a game is stored under: the UTF-8 bytes of its id.
pub open spec fn game_key(id: Seq<char>) -> Seq<u8> {
    encode_utf8(id)
}

/// The bytes a game is stored as.
pub open spec fn game_record(g: GameView) -> Seq<u8> {
    game_bytes(
        g.id,
        g.team_name,
        optional_fields(g.start_time),
        optional_fields(g.end_time),
        g.score,
    )
}

/// The timestamp written as these fields, if any.
pub open spec fn optional_timestamp(f: Option<(i64, u32)>) -> Option<Timestamp> {
    match f {
        Some(p) => Some(Timestamp { secs: p.0, nanos: p.1 }),
        None => None,
    }
}

/// The game that stored bytes decode to, if they decode.
pub open spec fn decoded_game(b: Seq<u8>) -> Option<GameView> {
    match game_decoding(b) {
        Some(t) => Some(
            GameView {
                id: t.0,
                team_name: t.1,
                start_time: optional_timestamp(t.2),
                end_time: optional_timestamp(t.3),
                score: t.4,
            },
        ),
        None => None,
    }
}

/// Whether every value of the collection decodes as a game.
pub open spec fn all_games_decode(m: Map<Seq<u8>, Seq<u8>>) -> bool {
    forall|k: Seq<u8>| #[trigger] m.contains_key(k) ==> decoded_game(m[k]) is Some
}

/// Whether every value of the collection is the record of a game stored
/// under that game's own id.
pub open spec fn games_keyed_by_id(m: Map<Seq<u8>, Seq<u8>>) -> bool {
    forall|k: Seq<u8>|
        #[trigger] m.contains_key(k) ==> exists|g: GameView|
            m[k] == #[trigger] game_record(g) && k == game_key(g.id)
}

/// Whether `v` holds the decoding of each entry of `m`, one per key.
pub open spec fn is_scan_of_games(m: Map<Seq<u8>, Seq<u8>>, v: Seq<GameView>) -> bool {
    exists|ks: Seq<Seq<u8>>|
        ks.len() == v.len() && ks.no_duplicates() && ks.to_set() == m.dom() && forall|i: int|
            0 <= i < ks.len() ==> decoded_game(m[#[trigger] ks[i]]) == Some(v[i])
}

/// Whether each game of `v` is held under its own id, and no id repeats.
pub open spec fn games_match_keys(m: Map<Seq<u8>, Seq<u8>>, v: Seq<GameView>) -> bool {
    &&& forall|i: int| 0 <= i < v.len() ==> holds_game(m, (#[trigger] v[i]).id, v[i])
    &&& forall|i: int, j: int|
        0 <= i < v.len() && 0 <= j < v.len() && i != j ==> (#[trigger] v[i]).id != (#[trigger] v[j]).id
}

/// Writing a game keeps every record under its own id.
pub proof fn lemma_put_game_keeps_keys(m: Map<Seq<u8>, Seq<u8>>, g: GameView)
    requires
        games_keyed_by_id(m),
    ensures
        games_keyed_by_id(put_game(m, g)),
{
    let m2 = put_game(m, g);
    assert forall|k: Seq<u8>| #[trigger] m2.contains_key(k) implies exists|h: GameView|
        m2[k] == #[trigger] game_record(h) && k == game_key(h.id) by {
        if k == game_key(g.id) {
            assert(m2[k] == game_record(g));
        } else {
            assert(m.contains_key(k));
        }
    }
}

/// Whether some game is stored as these bytes.
pub open spec fn is_game_record(b: Seq<u8>) -> bool {
    exists|g: GameView| b == #[trigger] game_record(g)
}

/// Whether every value of the collection is a stored game.
pub open spec fn all_game_records(m: Map<Seq<u8>, Seq<u8>>) -> bool {
    forall|k: Seq<u8>| #[trigger] m.contains_key(k) ==> is_game_record(m[k])
}

/// Whether the collection holds game `g` under `id`.
pub open spec fn holds_game(m: Map<Seq<u8>, Seq<u8>>, id: Seq<char>, g: GameView) -> bool {
    m.contains_key(game_key(id)) && m[game_key(id)] == game_record(g)
}

/// The collection after `g` is written: it replaces whatever had its id.
pub open spec fn put_game(m: Map<Seq<u8>, Seq<u8>>, g: GameView) -> Map<Seq<u8>, Seq<u8>> {
    m.insert(game_key(g.id), game_record(g))
}

/// The collection after each game of `gs` is written, in order.
pub open spec fn put_games(m: Map<Seq<u8>, Seq<u8>>, gs: Seq<GameView>) -> Map<
    Seq<u8>,
    Seq<u8>,
>
    decreases gs.len(),
{
    if gs.len() == 0 {
        m
    } else {
        put_game(put_games(m, gs.drop_last()), gs.last())
    }
}

/// The games of a sequence, as values.
pub open spec fn game_views(v: Seq<Game>) -> Seq<GameView> {
    v.map_values(|g: Game| g@)
}

/// Whether every game that the collection holds appears in `v`.
pub open spec fn lists_every_game(m: Map<Seq<u8>, Seq<u8>>, v: Seq<GameView>) -> bool {
    forall|k: Seq<u8>, g: GameView|
        #[trigger] m.contains_key(k) && m[k] == #[trigger] game_record(g) ==> v.contains(g)
}

/// Whether each game of `v` is held by the collection under some key.
pub open spec fn lists_only_stored_games(m: Map<Seq<u8>, Seq<u8>>, v: Seq<GameView>) -> bool {
    forall|i: int| 0 <= i < v.len() ==> stores_game(m, #[trigger] v[i])
}

/// Whether the collection holds game `g` under some key.
#[verifier::opaque]
pub open spec fn stores_game(m: Map<Seq<u8>, Seq<u8>>, g: GameView) -> bool {
    exists|k: Seq<u8>| #[trigger] m.contains_key(k) && m[k] == game_record(g)
}

/// Distinct ids are stored under distinct keys.
pub proof fn lemma_game_key_injective(a: Seq<char>, b: Seq<char>)
    ensures
        game_key(a) == game_key(b) <==> a == b,
{
    assert(decode_utf8(encode_utf8(a)) == a);
    assert(decode_utf8(encode_utf8(b)) == b);
}

/// Round trip: once a game is written, its id holds exactly that game, so
/// looking the id up returns it.
pub proof fn lemma_insert_then_get(m: Map<Seq<u8>, Seq<u8>>, g: GameView)
    ensures
        holds_game(put_game(m, g), g.id, g),
{
}

/// Absence: an id that no written game had is not in the collection, so
/// looking it up finds nothing.
pub proof fn lemma_absent_unless_written(m: Map<Seq<u8>, Seq<u8>>, gs: Seq<GameView>, id: Seq<char>)
    requires
        !m.contains_key(game_key(id)),
        forall|i: int| 0 <= i < gs.len() ==> (#[trigger] gs[i]).id != id,
    ensures
        !put_games(m, gs).contains_key(game_key(id)),
    decreases gs.len(),
{
    if gs.len() > 0 {
        lemma_absent_unless_written(m, gs.drop_last(), id);
        lemma_game_key_injective(gs.last().id, id);
    }
}

/// Overwrite: writing two games with one id leaves the collection as if only
/// the second had been written, and the id holds the second.
pub proof fn lemma_overwrite(m: Map<Seq<u8>, Seq<u8>>, g1: GameView, g2: GameView)
    requires
        g1.id == g2.id,
    ensures
        put_game(put_game(m, g1), g2) == put_game(m, g2),
        holds_game(put_game(put_game(m, g1), g2), g2.id, g2),
{
    assert(put_game(put_game(m, g1), g2) =~= put_game(m, g2));
}

/// Writing games with distinct ids into an empty collection gives one entry
/// per game, each game held under its id.
pub proof fn lemma_put_distinct_games(gs: Seq<GameView>)
    requires
        forall|i: int, j: int|
            0 <= i < gs.len() && 0 <= j < gs.len() && i != j ==> (#[trigger] gs[i]).id != (
            #[trigger] gs[j]).id,
    ensures
        put_games(Map::empty(), gs).dom().finite(),
        put_games(Map::empty(), gs).len() == gs.len(),
        all_game_records(put_games(Map::empty(), gs)),
        forall|i: int| 0 <= i < gs.len() ==> holds_game(put_games(Map::empty(), gs), (#[trigger] gs[i]).id, gs[i]),
        forall|k: Seq<u8>|
            #[trigger] put_games(Map::empty(), gs).contains_key(k) ==> exists|i: int|
                0 <= i < gs.len() && put_games(Map::empty(), gs)[k] == game_record(#[trigger] gs[i]),
    decreases gs.len(),
{
    if gs.len() > 0 {
        let prefix = gs.drop_last();
        let g = gs.last();
        assert forall|i: int, j: int|
            0 <= i < prefix.len() && 0 <= j < prefix.len() && i != j implies (
            #[trigger] prefix[i]).id != (#[trigger] prefix[j]).id by {
            assert(prefix[i] == gs[i] && prefix[j] == gs[j]);
        }
        lemma_put_distinct_games(prefix);
        let m0 = put_games(Map::empty(), prefix);
        assert forall|i: int| 0 <= i < prefix.len() implies (#[trigger] prefix[i]).id != g.id by {
            assert(prefix[i] == gs[i]);
        }
        lemma_absent_unless_written(Map::empty(), prefix, g.id);
        let m = put_games(Map::empty(), gs);
        assert(m == put_game(m0, g));
        assert(!m0.contains_key(game_key(g.id)));
        assert(m.dom() =~= m0.dom().insert(game_key(g.id)));
        assert(m.len() == m0.len() + 1);
        assert forall|k: Seq<u8>| #[trigger] m.contains_key(k) implies is_game_record(m[k]) by {
            if k != game_key(g.id) {
                assert(m0.contains_key(k));
            }
        }
        assert forall|i: int| 0 <= i < gs.len() implies holds_game(m, (#[trigger] gs[i]).id, gs[i]) by {
            if i < prefix.len() {
                assert(gs[i] == prefix[i]);
                lemma_game_key_injective(gs[i].id, g.id);
                assert(holds_game(m0, prefix[i].id, prefix[i]));
            }
        }
        assert forall|k: Seq<u8>| #[trigger] m.contains_key(k) implies exists|i: int|
            0 <= i < gs.len() && m[k] == game_record(#[trigger] gs[i]) by {
            if k == game_key(g.id) {
                assert(m[k] == game_record(gs[gs.len() - 1]));
            } else {
                assert(m0.contains_key(k));
                let i = choose|i: int| 0 <= i < prefix.len() && m0[k] == game_record(#[trigger] prefix[i]);
                assert(prefix[i] == gs[i]);
            }
        }
    }
}

/// Scan completeness: after games with distinct ids are written into an empty
/// collection, a scan that meets what `GameStore::all` promises returns one
/// game per written game, every written game among them, and each of them
/// stored as one of the written games.
pub proof fn lemma_scan_complete(gs: Seq<GameView>, v: Seq<GameView>)
    requires
        forall|i: int, j: int|
            0 <= i < gs.len() && 0 <= j < gs.len() && i != j ==> (#[trigger] gs[i]).id != (
            #[trigger] gs[j]).id,
        v.len() == put_games(Map::empty(), gs).len(),
        lists_every_game(put_games(Map::empty(), gs), v),
        all_game_records(put_games(Map::empty(), gs)) ==> lists_only_stored_games(
            put_games(Map::empty(), gs),
            v,
        ),
    ensures
        v.len() == gs.len(),
        forall|i: int| 0 <= i < gs.len() ==> v.contains(#[trigger] gs[i]),
        forall|j: int|
            0 <= j < v.len() ==> exists|i: int|
                0 <= i < gs.len() && game_record(#[trigger] v[j]) == game_record(#[trigger] gs[i]),
{
    let m = put_games(Map::empty(), gs);
    lemma_put_distinct_games(gs);
    assert forall|i: int| 0 <= i < gs.len() implies v.contains(#[trigger] gs[i]) by {
        let k = game_key(gs[i].id);
        assert(holds_game(m, gs[i].id, gs[i]));
        assert(m.contains_key(k) && m[k] == game_record(gs[i]));
    }
    assert(lists_only_stored_games(m, v));
    assert forall|j: int| 0 <= j < v.len() implies exists|i: int|
        0 <= i < gs.len() && game_record(#[trigger] v[j]) == game_record(#[trigger] gs[i]) by {
        assert(stores_game(m, v[j]));
        reveal(stores_game);
        let k = choose|k: Seq<u8>| #[trigger] m.contains_key(k) && m[k] == game_record(v[j]);
        assert(m.contains_key(k));
        let i = choose|i: int| 0 <= i < gs.len() && m[k] == game_record(#[trigger] gs[i]);
        assert(game_record(v[j]) == game_record(gs[i]));
    }
}

/// Why an operation of the game store failed.
#[derive(Debug)]
pub enum GamePersistenceError {
    /// The store could not read or write the collection.
    Sled(sled::Error),
    /// A game could not be encoded, or stored bytes could not be decoded.
    Serialization(Box<bincode::ErrorKind>),
}

/// The games, one per id, in one collection of the store.
pub struct GameStore {
    tree: sled::Tree,
}

impl View for GameStore {
    type V = Map<Seq<u8>, Seq<u8>>;

    closed spec fn view(&self) -> Map<Seq<u8>, Seq<u8>> {
        tree_contents(self.tree)
    }
}

fn game_from_fields(f: (String, String, Option<(i64, u32)>, Option<(i64, u32)>, u32)) -> (r: Game)
    ensures
        r.id@ == f.0@,
        r.team_name@ == f.1@,
        optional_fields(r.start_time) == f.2,
        optional_fields(r.end_time) == f.3,
        r.score == f.4,
{
    let (id, team_name, start_time, end_time, score) = f;
    Game {
        id,
        team_name,
        start_time: optional_from_fields(start_time),
        end_time: optional_from_fields(end_time),
        score,
    }
}

proof fn lemma_optional_timestamp(a: Option<Timestamp>, f: Option<(i64, u32)>)
    requires
        optional_fields(a) == f,
    ensures
        a == optional_timestamp(f),
{
}

proof fn lemma_optional_fields_injective(a: Option<Timestamp>, b: Option<Timestamp>)
    requires
        optional_fields(a) == optional_fields(b),
    ensures
        a == b,
{
}

/// Decodes stored bytes; bytes written for a game decode to that game.
fn decode_game(b: &[u8]) -> (r: Result<Game, Box<bincode::ErrorKind>>)
    ensures
        r is Err ==> !is_game_record(b@),
        forall|g: GameView| b@ == #[trigger] game_record(g) ==> (r matches Ok(x) && x@ == g),
        r is Err <==> decoded_game(b@) is None,
        r matches Ok(x) ==> decoded_game(b@) == Some(x@),
{
    match decode_game_fields(b) {
        Ok(f) => {
            let x = game_from_fields(f);
            proof {
                lemma_optional_timestamp(x.start_time, f.2);
                lemma_optional_timestamp(x.end_time, f.3);
                assert forall|g: GameView| b@ == #[trigger] game_record(g) implies x@ == g by {
                    lemma_optional_fields_injective(x.start_time, g.start_time);
                    lemma_optional_fields_injective(x.end_time, g.end_time);
                }
            }
            Ok(x)
        },
        Err(e) => Err(e),
    }
}

impl GameStore {
    /// A store over the given collection, with what it already holds. The
    /// store must be the collection's only writer.
    pub fn new(tree: sled::Tree) -> (r: GameStore)
        ensures
            r@ == tree_contents(tree),
    {
        GameStore { tree }
    }

    /// Writes the game under its id, replacing any game with that id.
    pub fn insert(&mut self, game: &Game) -> (r: Result<(), GamePersistenceError>)
        ensures
            r is Ok ==> final(self)@ == put_game(old(self)@, game@),
            r is Err ==> final(self)@ == old(self)@ || final(self)@ == put_game(old(self)@, game@),
            !(r matches Err(GamePersistenceError::Serialization(_))),
            games_keyed_by_id(old(self)@) ==> games_keyed_by_id(final(self)@),
    {
        proof {
            if games_keyed_by_id(old(self)@) {
                lemma_put_game_keeps_keys(old(self)@, game@);
            }
        }
        let bytes = match encode_game_fields(
            &game.id,
            &game.team_name,
            optional_to_fields(game.start_time),
            optional_to_fields(game.end_time),
            game.score,
        ) {
            Ok(b) => b,
            Err(e) => return Err(GamePersistenceError::Serialization(e)),
        };
        match tree_insert(&mut self.tree, game.id.as_str().as_bytes(), bytes) {
            Ok(()) => Ok(()),
            Err(e) => Err(GamePersistenceError::Sled(e)),
        }
    }

    /// The game stored under `id`, or `None` when there is none.
    pub fn get(&self, id: &str) -> (r: Result<Option<Game>, GamePersistenceError>)
        ensures
            r matches Ok(found) ==> (found is Some <==> self@.contains_key(game_key(id@))),
            forall|g: GameView|
                #[trigger] holds_game(self@, id@, g) ==> (r is Ok ==> (r matches Ok(Some(x)) && x@
                    == g)),
            r matches Err(GamePersistenceError::Serialization(_)) ==> self@.contains_key(
                game_key(id@),
            ) && !is_game_record(self@[game_key(id@)]),
            r matches Ok(Some(x)) ==> decoded_game(self@[game_key(id@)]) == Some(x@),
            r matches Err(GamePersistenceError::Serialization(_)) ==> decoded_game(
                self@[game_key(id@)],
            ) is None,
            self@.contains_key(game_key(id@)) && decoded_game(self@[game_key(id@)]) is None
                ==> r is Err,
            games_keyed_by_id(self@) ==> (r matches Ok(Some(x)) ==> x@.id == id@ && holds_game(
                self@,
                id@,
                x@,
            )),
    {
        proof {
            let k = game_key(id@);
            if games_keyed_by_id(self@) && self@.contains_key(k) {
                let g = choose|g: GameView| self@[k] == #[trigger] game_record(g) && k == game_key(g.id);
                lemma_game_key_injective(id@, g.id);
                assert(holds_game(self@, id@, g));
            }
        }
        match tree_get(&self.tree, id.as_bytes()) {
            Ok(Some(bytes)) => match decode_game(bytes.as_slice()) {
                Ok(g) => Ok(Some(g)),
                Err(e) => Err(GamePersistenceError::Serialization(e)),
            },
            Ok(None) => Ok(None),
            Err(e) => Err(GamePersistenceError::Sled(e)),
        }
    }

    /// Every game of the store, once each, in no particular order; fails on
    /// the first value that does not decode.
    pub fn all(&self) -> (r: Result<Vec<Game>, GamePersistenceError>)
        ensures
            r matches Ok(v) ==> v@.len() == self@.len(),
            r matches Ok(v) ==> lists_every_game(self@, game_views(v@)),
            r matches Ok(v) ==> (all_game_records(self@) ==> lists_only_stored_games(
                self@,
                game_views(v@),
            )),
            r matches Err(GamePersistenceError::Serialization(_)) ==> !all_game_records(self@),
            r matches Ok(v) ==> is_scan_of_games(self@, game_views(v@)),
            r is Ok ==> all_games_decode(self@),
            r matches Ok(v) ==> (games_keyed_by_id(self@) ==> games_match_keys(
                self@,
                game_views(v@),
            )),
    {
        let entries = match tree_entries(&self.tree) {
            Ok(es) => es,
            Err(e) => return Err(GamePersistenceError::Sled(e)),
        };
        let ghost m = self@;
        let mut games: Vec<Game> = Vec::new();
        let mut i: usize = 0;
        while i < entries.len()
            invariant
                i <= entries@.len(),
                games@.len() == i,
                m == self@,
                walks(m, entries@),
                forall|j: int, g: GameView|
                    0 <= j < i && entries@[j].1@ == #[trigger] game_record(g) ==> (
                    #[trigger] games@[j])@ == g,
                forall|j: int| 0 <= j < i ==> decoded_game(entries@[j].1@) == Some((#[trigger] games@[j])@),
            decreases entries@.len() - i,
        {
            match decode_game(entries[i].1.as_slice()) {
                Ok(g) => games.push(g),
                Err(e) => {
                    proof {
                        assert(m.contains_key(entries@[i as int].0@));
                    }
                    return Err(GamePersistenceError::Serialization(e));
                },
            }
            i += 1;
        }
        proof {
            let n = entries@.len();
            let keys = entry_keys(entries@);
            lemma_walk_keys(m, entries@);
            let vs = game_views(games@);
            assert forall|i: int| 0 <= i < keys.len() implies decoded_game(m[#[trigger] keys[i]])
                == Some(vs[i]) by {
                assert(m.contains_key(entries@[i].0@));
                assert(games@[i]@ == vs[i]);
            }
            assert(is_scan_of_games(m, vs));
            assert forall|k: Seq<u8>| #[trigger] m.contains_key(k) implies decoded_game(m[k]) is Some by {
                let j = choose|j: int| 0 <= j < n && #[trigger] entries@[j].0@ == k;
                assert(games@[j]@ == vs[j]);
            }
            if games_keyed_by_id(m) {
                assert forall|i: int| 0 <= i < vs.len() implies holds_game(m, (#[trigger] vs[i]).id, vs[i]) by {
                    let k = entries@[i].0@;
                    assert(m.contains_key(k));
                    let g = choose|g: GameView| m[k] == #[trigger] game_record(g) && k == game_key(g.id);
                    assert(games@[i]@ == g);
                }
                assert forall|i: int, j: int|
                    0 <= i < vs.len() && 0 <= j < vs.len() && i != j implies (#[trigger] vs[i]).id
                        != (#[trigger] vs[j]).id by {
                    let ki = entries@[i].0@;
                    let kj = entries@[j].0@;
                    assert(m.contains_key(ki) && m.contains_key(kj));
                    let gi = choose|g: GameView| m[ki] == #[trigger] game_record(g) && ki == game_key(g.id);
                    let gj = choose|g: GameView| m[kj] == #[trigger] game_record(g) && kj == game_key(g.id);
                    assert(games@[i]@ == gi);
                    assert(games@[j]@ == gj);
                    assert(keys[i] != keys[j]);
                }
            }
            assert forall|k: Seq<u8>, g: GameView|
                #[trigger] m.contains_key(k) && m[k] == #[trigger] game_record(g) implies vs.contains(g) by {
                let j = choose|j: int| 0 <= j < n && #[trigger] entries@[j].0@ == k;
                assert(vs[j] == g);
            }
            if all_game_records(m) {
                assert forall|i: int| 0 <= i < vs.len() implies stores_game(m, #[trigger] vs[i]) by {
                    let k = entries@[i].0@;
                    assert(m.contains_key(k));
                    let g = choose|g: GameView| m[k] == #[trigger] game_record(g);
                    assert(games@[i]@ == g);
                    assert(m.contains_key(k) && m[k] == game_record(vs[i]));
                    reveal(stores_game);
                }
                assert(lists_only_stored_games(m, vs));
            }
        }
        Ok(games)
    }
}

} // verus!
