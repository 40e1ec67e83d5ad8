use scoreboard::accumulate_competitor;
use scoreboard::error_is_fatal;
use scoreboard::fetch_start;
use scoreboard::fetch_step;
use scoreboard::find_season;
use scoreboard::ApiCompetitionSeason;
use scoreboard::ApiCompetitionSeasons;
use scoreboard::ApiGamePlayers;
use scoreboard::ApiGameStatistic;
use scoreboard::ApiPlayerGameStatistic;
use scoreboard::ApiSeasonCompetitorStatistic;
use scoreboard::ApiSeasonCompetitorStatistics;
use scoreboard::CacheStore;
use scoreboard::Date;
use scoreboard::FetchAction;
use scoreboard::FetchError;
use scoreboard::FetchEvent;
use scoreboard::FetchState;
use scoreboard::PlayerDB;
use scoreboard::RunError;

fn stats_with_players(players: Vec<ApiGamePlayers>) -> ApiSeasonCompetitorStatistics {
    ApiSeasonCompetitorStatistics {
        competitor: ApiSeasonCompetitorStatistic {
            id: "sr:competitor:1".to_string(),
            statistics: ApiGameStatistic { goals_scored: 0 },
            players,
        },
    }
}

fn game_player(id: &str, name: &str, goals: u16, assists: u16) -> ApiGamePlayers {
    ApiGamePlayers {
        id: id.to_string(),
        name: name.to_string(),
        statistics: ApiPlayerGameStatistic { goals_scored: goals, assists },
    }
}

#[test]
fn cache_round_trip_returns_written_bytes() {
    let mut store = CacheStore::new();
    let key = "cache/stats_sr1.json".to_string();
    let payload: Vec<u8> = vec![1, 2, 3, 250];
    store.write_to_cache(&key, payload.clone());
    let back = store.read_from_cache(&key);
    assert_eq!(back, Some(&payload));
    assert!(store.has_entry(&key));
}

#[test]
fn cache_round_trip_encoded_value() {
    // Round trip through the codec collaborator: encode a document, cache
    // the bytes, read them back, decode, and compare.
    let mut map = serde_json::Map::new();
    map.insert("goals".to_string(), serde_json::Value::from(5u32));
    map.insert("name".to_string(), serde_json::Value::from("Alpha"));
    let doc = serde_json::Value::Object(map);
    let bytes = serde_json::to_vec_pretty(&doc).unwrap();

    let mut store = CacheStore::new();
    let key = "cache/competition_seasons.json".to_string();
    store.write_to_cache(&key, bytes);
    let back = store.read_from_cache(&key).unwrap();
    let decoded: serde_json::Value = serde_json::from_slice(back).unwrap();
    assert_eq!(decoded, doc);
}

#[test]
fn cache_miss_reads_none() {
    let store = CacheStore::new();
    let key = "cache/absent.json".to_string();
    assert_eq!(store.read_from_cache(&key), None);
    assert!(!store.has_entry(&key));
}

#[test]
fn cache_overwrite_keeps_latest() {
    let mut store = CacheStore::new();
    let key = "cache/stats.json".to_string();
    store.write_to_cache(&key, vec![1]);
    store.write_to_cache(&key, vec![2]);
    assert_eq!(store.read_from_cache(&key), Some(&vec![2]));
}

#[test]
fn cache_hit_sends_no_request() {
    // Drive one retrieval whose cache read succeeds; the transport stub
    // panics if the machine ever asks it to send.
    let (state, action) = fetch_start();
    assert_eq!(action, FetchAction::ReadCache);
    let (state, action) = fetch_step(true, state, FetchEvent::CacheDecoded);
    assert_eq!(action, FetchAction::UseCached);
    assert_eq!(state, FetchState::Done);
    // Feed further (out of turn) events: the machine stays done and idle.
    let mut s = state;
    for event in [FetchEvent::Delayed, FetchEvent::Persisted, FetchEvent::BodyDecoded] {
        let (next, action) = fetch_step(true, s, event);
        if action == FetchAction::Send {
            panic!("transport invoked on a cache hit");
        }
        assert_eq!(action, FetchAction::Idle);
        s = next;
    }
    assert_eq!(s, FetchState::Done);
}

#[test]
fn trial_tier_delays_before_send() {
    let (state, _) = fetch_start();
    let (state, action) = fetch_step(true, state, FetchEvent::CacheMissing);
    // On a cache miss the rate-limited tier must wait, not send.
    assert_eq!(action, FetchAction::Delay { seconds: 2 });
    assert_eq!(state, FetchState::AwaitDelay);
    let (state, action) = fetch_step(true, state, FetchEvent::Delayed);
    assert_eq!(action, FetchAction::Send);
    assert_eq!(state, FetchState::AwaitResponse);
}

#[test]
fn free_tier_sends_at_once() {
    let (state, _) = fetch_start();
    let (state, action) = fetch_step(false, state, FetchEvent::CacheMissing);
    assert_eq!(action, FetchAction::Send);
    assert_eq!(state, FetchState::AwaitResponse);
}

#[test]
fn fresh_fetch_persists_before_done() {
    let (state, _) = fetch_start();
    let (state, _) = fetch_step(false, state, FetchEvent::CacheMissing);
    let (state, action) = fetch_step(false, state, FetchEvent::Response { status: 200 });
    assert_eq!(action, FetchAction::DecodeBody);
    let (state, action) = fetch_step(false, state, FetchEvent::BodyDecoded);
    assert_eq!(action, FetchAction::Persist);
    assert_eq!(state, FetchState::AwaitPersist);
    let (state, action) = fetch_step(false, state, FetchEvent::Persisted);
    assert_eq!(action, FetchAction::Finish);
    assert_eq!(state, FetchState::Done);
}

#[test]
fn each_failure_event_yields_its_error() {
    let miss = |rl: bool| {
        let (state, _) = fetch_start();
        fetch_step(rl, state, FetchEvent::CacheMissing).0
    };

    let (state, _) = fetch_start();
    let (state, _) = fetch_step(false, state, FetchEvent::CacheUnreadable);
    assert_eq!(state, FetchState::Failed(FetchError::CacheReadFailed));

    let (state, _) = fetch_step(false, miss(false), FetchEvent::SendFailed);
    assert_eq!(state, FetchState::Failed(FetchError::TransportFailed));

    let (state, _) = fetch_step(false, miss(false), FetchEvent::Response { status: 404 });
    assert_eq!(state, FetchState::Failed(FetchError::RequestFailed { status: 404 }));

    let (after_status, _) = fetch_step(false, miss(false), FetchEvent::Response { status: 204 });
    let (state, _) = fetch_step(false, after_status, FetchEvent::BodyUndecodable);
    assert_eq!(state, FetchState::Failed(FetchError::DecodeFailed));

    let (after_body, _) = fetch_step(false, after_status, FetchEvent::BodyDecoded);
    let (state, _) = fetch_step(false, after_body, FetchEvent::PersistFailed);
    assert_eq!(state, FetchState::Failed(FetchError::CachePersistFailed));
}

#[test]
fn failed_unit_is_skipped_and_rest_ranked() {
    let mut db = PlayerDB::new();

    // First query unit succeeds and contributes players.
    let good = stats_with_players(vec![
        game_player("p1", "Striker", 4, 1),
        game_player("p2", "Defender", 0, 2), // no goals: skipped
        game_player("p3", "Winger", 2, 5),
    ]);
    accumulate_competitor(&mut db, &good);

    // Second unit's retrieval ends in a non-success status.
    let (state, _) = fetch_start();
    let (state, _) = fetch_step(true, state, FetchEvent::CacheMissing);
    let (state, _) = fetch_step(true, state, FetchEvent::Delayed);
    let (state, _) = fetch_step(true, state, FetchEvent::Response { status: 500 });
    let err = match state {
        FetchState::Failed(e) => e,
        _ => panic!("retrieval should have failed"),
    };
    assert_eq!(err, FetchError::RequestFailed { status: 500 });
    // The error is scoped to its unit: the run goes on.
    assert!(!error_is_fatal(RunError::Retrieval(err)));

    db.index_players();
    assert_eq!(db.top_scorers, vec!["p1", "p3"]);
    assert_eq!(db.top_assists, vec!["p3", "p1"]);
}

#[test]
fn missing_reference_season_is_fatal() {
    let seasons = ApiCompetitionSeasons {
        seasons: vec![ApiCompetitionSeason {
            id: "sr:season:1".to_string(),
            name: "Premier League 22/23".to_string(),
            year: "22/23".to_string(),
            start_date: Date { year: 2022, month: 8, day: 5 },
            end_date: Date { year: 2023, month: 5, day: 28 },
        }],
    };
    let wanted = "Premier League 23/24".to_string();
    assert_eq!(find_season(&seasons, &wanted), None);
    assert!(error_is_fatal(RunError::MissingReferenceSeason));

    let present = "Premier League 22/23".to_string();
    assert_eq!(find_season(&seasons, &present), Some(0));
}

#[test]
fn accumulate_skips_goalless_and_overwrites() {
    let mut db = PlayerDB::new();
    let first = stats_with_players(vec![game_player("p1", "Striker", 3, 0)]);
    accumulate_competitor(&mut db, &first);
    let second = stats_with_players(vec![
        game_player("p1", "Striker", 5, 1),
        game_player("p4", "Keeper", 0, 0),
    ]);
    accumulate_competitor(&mut db, &second);
    assert_eq!(db.players.len(), 1);
    assert_eq!(db.players[0].goals_scored, 5);
}
