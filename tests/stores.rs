use chrono::Utc;
use game_persistence::game::{Game, GamePersistenceError, GameStore, Timestamp};
use game_persistence::game_event::{GameEvent, GameEventError, GameEventStore, GameEventType};
use game_persistence::persistence_service::{PersistenceService, PersistenceServiceError};
use tempfile::TempDir;
use uuid::Uuid;

fn now() -> Timestamp {
    let t = Utc::now();
    Timestamp { secs: t.timestamp(), nanos: t.timestamp_subsec_nanos() }
}

fn game(id: &str, team_name: &str, score: u32) -> Game {
    Game {
        id: id.to_string(),
        team_name: team_name.to_string(),
        start_time: Some(now()),
        end_time: None,
        score,
    }
}

fn event(game_id: &str, event_type: GameEventType) -> GameEvent {
    GameEvent { game_id: game_id.to_string(), event_type, timestamp: now() }
}

#[test]
fn gamestore_test() -> Result<(), Box<dyn std::error::Error>> {
    let temp_dir = TempDir::new()?;
    let db = sled::open(temp_dir.path())?;
    let tree = db.open_tree("games")?;
    let mut store = GameStore::new(tree);

    let game = Game {
        id: Uuid::new_v4().to_string(),
        team_name: "Test Team".into(),
        start_time: Some(now()),
        end_time: None,
        score: 42,
    };

    store.insert(&game).expect("insert game");
    let fetched = store.get(&game.id).expect("get game").expect("game not found");

    assert_eq!(fetched.id, game.id);
    assert_eq!(fetched.team_name, "Test Team");
    assert_eq!(fetched.score, 42);
    Ok(())
}

#[test]
fn test_insert_and_all_game_events() -> Result<(), Box<dyn std::error::Error>> {
    let temp_dir = TempDir::new()?;
    let db = sled::open(temp_dir.path())?;
    let tree = db.open_tree("game_events")?;
    let mut store = GameEventStore::new(tree);

    let event1 = event("game-1", GameEventType::Start);
    let event2 = event("game-2", GameEventType::Solve);

    store.insert(&Uuid::new_v4().to_string(), &event1).unwrap();
    store.insert(&Uuid::new_v4().to_string(), &event2).unwrap();

    let all_events = store.all().unwrap();
    assert_eq!(all_events.len(), 2);
    Ok(())
}

#[test]
fn test_insert_event_fails_when_game_missing() -> Result<(), Box<dyn std::error::Error>> {
    let temp_dir = TempDir::new()?;
    let db = sled::open(temp_dir.path())?;
    let game_tree = db.open_tree("games")?;
    let event_tree = db.open_tree("game_events")?;
    let game_store = GameStore::new(game_tree);
    let mut event_store = GameEventStore::new(event_tree);

    let mut service = PersistenceService::new(&game_store, &mut event_store);

    let event = GameEvent {
        game_id: "missing-game".to_string(),
        event_type: GameEventType::Attempt,
        timestamp: now(),
    };

    let result = service.insert_event_if_game_exists(&Uuid::new_v4().to_string(), &event);

    assert!(matches!(result, Err(PersistenceServiceError::GameNotFound(gid)) if gid == "missing-game"));
    Ok(())
}

#[test]
fn round_trip_keeps_every_field() {
    let dir = TempDir::new().unwrap();
    let db = sled::open(dir.path()).unwrap();
    let mut store = GameStore::new(db.open_tree("games").unwrap());
    let g = Game {
        id: "game-ü-7".to_string(),
        team_name: "Team Bravo".to_string(),
        start_time: Some(Timestamp { secs: 1_700_000_000, nanos: 123_456_789 }),
        end_time: Some(Timestamp { secs: -5, nanos: 0 }),
        score: u32::MAX,
    };
    store.insert(&g).unwrap();
    let back = store.get("game-ü-7").unwrap().unwrap();
    assert_eq!(back.id, g.id);
    assert_eq!(back.team_name, g.team_name);
    assert_eq!(back.start_time, g.start_time);
    assert_eq!(back.end_time, g.end_time);
    assert_eq!(back.score, g.score);
}

#[test]
fn get_of_unknown_id_is_absent() {
    let dir = TempDir::new().unwrap();
    let db = sled::open(dir.path()).unwrap();
    let mut store = GameStore::new(db.open_tree("games").unwrap());
    assert!(store.get("nobody").unwrap().is_none());
    store.insert(&game("somebody", "A", 0)).unwrap();
    assert!(store.get("nobody").unwrap().is_none());
    assert!(store.get("").unwrap().is_none());
}

#[test]
fn second_insert_with_same_id_wins() {
    let dir = TempDir::new().unwrap();
    let db = sled::open(dir.path()).unwrap();
    let mut store = GameStore::new(db.open_tree("games").unwrap());
    store.insert(&game("g1", "First", 1)).unwrap();
    store.insert(&game("g1", "Second", 2)).unwrap();
    let back = store.get("g1").unwrap().unwrap();
    assert_eq!(back.team_name, "Second");
    assert_eq!(back.score, 2);
    assert_eq!(store.all().unwrap().len(), 1);
}

#[test]
fn scan_returns_each_distinct_game_once() {
    let dir = TempDir::new().unwrap();
    let db = sled::open(dir.path()).unwrap();
    let mut store = GameStore::new(db.open_tree("games").unwrap());
    assert!(store.all().unwrap().is_empty());
    let ids = ["e", "a", "d", "b", "c"];
    for (i, id) in ids.iter().enumerate() {
        store.insert(&game(id, "Team", i as u32)).unwrap();
    }
    let all = store.all().unwrap();
    assert_eq!(all.len(), ids.len());
    let mut seen: Vec<String> = all.iter().map(|g| g.id.clone()).collect();
    seen.sort();
    assert_eq!(seen, vec!["a", "b", "c", "d", "e"]);
    for g in &all {
        let i = ids.iter().position(|id| *id == g.id).unwrap();
        assert_eq!(g.score, i as u32);
    }
}

#[test]
fn scan_fails_on_bytes_that_are_not_a_game() {
    let dir = TempDir::new().unwrap();
    let db = sled::open(dir.path()).unwrap();
    let tree = db.open_tree("games").unwrap();
    tree.insert("broken", vec![1u8, 2, 3]).unwrap();
    let mut store = GameStore::new(tree);
    store.insert(&game("fine", "Team", 3)).unwrap();
    assert!(matches!(store.all(), Err(GamePersistenceError::Serialization(_))));
    assert!(matches!(store.get("broken"), Err(GamePersistenceError::Serialization(_))));
    assert!(store.get("fine").unwrap().is_some());
}

#[test]
fn event_scan_fails_on_unknown_event_type() {
    let dir = TempDir::new().unwrap();
    let db = sled::open(dir.path()).unwrap();
    let tree = db.open_tree("game_events").unwrap();
    let bytes = bincode::serialize(&("g1".to_string(), 9u32, (0i64, 0u32))).unwrap();
    tree.insert("k", bytes).unwrap();
    let store = GameEventStore::new(tree);
    assert!(matches!(store.all(), Err(GameEventError::UnknownEventType(9))));
}

#[test]
fn event_scan_fails_on_truncated_bytes() {
    let dir = TempDir::new().unwrap();
    let db = sled::open(dir.path()).unwrap();
    let tree = db.open_tree("game_events").unwrap();
    tree.insert("k", vec![0u8]).unwrap();
    let store = GameEventStore::new(tree);
    assert!(matches!(store.all(), Err(GameEventError::Serialization(_))));
}

#[test]
fn events_round_trip_through_the_store() {
    let dir = TempDir::new().unwrap();
    let db = sled::open(dir.path()).unwrap();
    let mut store = GameEventStore::new(db.open_tree("game_events").unwrap());
    let at = Timestamp { secs: 86_400, nanos: 7 };
    let e = GameEvent { game_id: "game-9".to_string(), event_type: GameEventType::LevelUp, timestamp: at };
    store.insert("key-1", &e).unwrap();
    let all = store.all().unwrap();
    assert_eq!(all.len(), 1);
    assert_eq!(all[0].game_id, "game-9");
    assert_eq!(all[0].event_type, GameEventType::LevelUp);
    assert_eq!(all[0].timestamp, at);
    // The same key again replaces the event.
    store.insert("key-1", &event("game-10", GameEventType::Attempt)).unwrap();
    let all = store.all().unwrap();
    assert_eq!(all.len(), 1);
    assert_eq!(all[0].game_id, "game-10");
}

#[test]
fn gate_admits_event_of_existing_game() {
    let dir = TempDir::new().unwrap();
    let db = sled::open(dir.path()).unwrap();
    let mut game_store = GameStore::new(db.open_tree("games").unwrap());
    let mut event_store = GameEventStore::new(db.open_tree("game_events").unwrap());
    game_store.insert(&game("g1", "Team", 0)).unwrap();
    let e = event("g1", GameEventType::Solve);
    {
        let mut service = PersistenceService::new(&game_store, &mut event_store);
        service.insert_event_if_game_exists("event-key", &e).unwrap();
    }
    let all = event_store.all().unwrap();
    assert_eq!(all.len(), 1);
    assert_eq!(all[0].game_id, "g1");
    assert_eq!(all[0].event_type, GameEventType::Solve);
    assert_eq!(all[0].timestamp, e.timestamp);
}

#[test]
fn gate_refuses_event_of_missing_game_and_writes_nothing() {
    let dir = TempDir::new().unwrap();
    let db = sled::open(dir.path()).unwrap();
    let mut game_store = GameStore::new(db.open_tree("games").unwrap());
    let mut event_store = GameEventStore::new(db.open_tree("game_events").unwrap());
    game_store.insert(&game("g1", "Team", 0)).unwrap();
    let result = {
        let mut service = PersistenceService::new(&game_store, &mut event_store);
        service.insert_event_if_game_exists("event-key", &event("missing-game", GameEventType::Start))
    };
    match result {
        Err(PersistenceServiceError::GameNotFound(id)) => assert_eq!(id, "missing-game"),
        other => panic!("expected GameNotFound, got {:?}", other),
    }
    assert!(event_store.all().unwrap().is_empty());
}

#[test]
fn many_events_may_reference_one_game() {
    let dir = TempDir::new().unwrap();
    let db = sled::open(dir.path()).unwrap();
    let mut game_store = GameStore::new(db.open_tree("games").unwrap());
    let mut event_store = GameEventStore::new(db.open_tree("game_events").unwrap());
    game_store.insert(&game("g1", "Team", 0)).unwrap();
    {
        let mut service = PersistenceService::new(&game_store, &mut event_store);
        for (i, t) in [GameEventType::Start, GameEventType::Attempt, GameEventType::Solve].iter().enumerate() {
            service.insert_event_if_game_exists(&format!("k{}", i), &event("g1", *t)).unwrap();
        }
    }
    assert_eq!(event_store.all().unwrap().len(), 3);
}

#[test]
fn scan_keeps_equal_events_under_distinct_keys() {
    let dir = TempDir::new().unwrap();
    let db = sled::open(dir.path()).unwrap();
    let mut store = GameEventStore::new(db.open_tree("game_events").unwrap());
    let at = Timestamp { secs: 10, nanos: 20 };
    let e = GameEvent { game_id: "g1".to_string(), event_type: GameEventType::Attempt, timestamp: at };
    store.insert("k1", &e).unwrap();
    store.insert("k2", &e).unwrap();
    store.insert("k3", &event("g2", GameEventType::Solve)).unwrap();
    let all = store.all().unwrap();
    assert_eq!(all.len(), 3);
    assert_eq!(all.iter().filter(|x| x.game_id == "g1" && x.timestamp == at).count(), 2);
    assert_eq!(all.iter().filter(|x| x.game_id == "g2").count(), 1);
}

#[test]
fn stored_games_come_back_under_their_own_ids() {
    let dir = TempDir::new().unwrap();
    let db = sled::open(dir.path()).unwrap();
    let mut store = GameStore::new(db.open_tree("games").unwrap());
    for id in ["x", "y", "z"] {
        store.insert(&game(id, "T", 1)).unwrap();
    }
    for g in store.all().unwrap() {
        let back = store.get(&g.id).unwrap().unwrap();
        assert_eq!(back.id, g.id);
    }
}
