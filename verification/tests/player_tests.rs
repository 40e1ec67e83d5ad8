use scoreboard::Player;
use scoreboard::PlayerDB;

#[test]
fn test_player_db() {
    let mut player_db = PlayerDB::new();

    let player1 = Player {
        id: "1".to_string(),
        name: "Player 1".to_string(),
        goals_scored: 10,
        assists: 5,
    };

    let player2 = Player {
        id: "2".to_string(),
        name: "Player 2".to_string(),
        goals_scored: 5,
        assists: 10,
    };

    player_db.add_player(player1);
    player_db.add_player(player2);

    player_db.index_players();

    assert_eq!(player_db.top_scorers.len(), 2);
    assert_eq!(player_db.top_assists.len(), 2);

    assert_eq!(player_db.top_scorers[0], "1");
    assert_eq!(player_db.top_assists[0], "2");
}

#[test]
fn test_player_db_limit() {
    let mut player_db = PlayerDB::new();

    for i in 0..20 {
        let player = Player {
            id: i.to_string(),
            name: format!("Player {}", i),
            goals_scored: i as u16,
            assists: i as u16,
        };

        player_db.add_player(player);
    }

    player_db.index_players();

    assert_eq!(player_db.top_scorers.len(), 10);
    assert_eq!(player_db.top_assists.len(), 10);
}

#[test]
fn add_player_overwrites_same_id() {
    let mut db = PlayerDB::new();
    db.add_player(Player {
        id: "p".to_string(),
        name: "First Observation".to_string(),
        goals_scored: 3,
        assists: 1,
    });
    db.add_player(Player {
        id: "p".to_string(),
        name: "Second Observation".to_string(),
        goals_scored: 7,
        assists: 2,
    });
    assert_eq!(db.players.len(), 1);
    assert_eq!(db.players[0].name, "Second Observation");
    assert_eq!(db.players[0].goals_scored, 7);
}

#[test]
fn rows_share_position_on_ties() {
    let mut db = PlayerDB::new();
    db.add_player(Player {
        id: "a".to_string(),
        name: "Alpha".to_string(),
        goals_scored: 5,
        assists: 0,
    });
    db.add_player(Player {
        id: "b".to_string(),
        name: "Beta".to_string(),
        goals_scored: 5,
        assists: 0,
    });
    db.add_player(Player {
        id: "c".to_string(),
        name: "Gamma".to_string(),
        goals_scored: 3,
        assists: 0,
    });
    db.index_players();
    let rows = db.top_scorer_rows().unwrap();
    assert_eq!(rows.len(), 3);
    // Competition ranking: the tied pair shares position 1 and the next
    // distinct value skips the tied count.
    assert_eq!(rows[0], (1, "Alpha".to_string(), 5));
    assert_eq!(rows[1], (1, "Beta".to_string(), 5));
    assert_eq!(rows[2], (3, "Gamma".to_string(), 3));
}

#[test]
fn positions_skip_tied_count() {
    let mut db = PlayerDB::new();
    for (id, name, goals) in [
        ("a", "Alpha", 7),
        ("b", "Beta", 7),
        ("c", "Gamma", 7),
        ("d", "Delta", 2),
    ] {
        db.add_player(Player {
            id: id.to_string(),
            name: name.to_string(),
            goals_scored: goals,
            assists: 0,
        });
    }
    db.index_players();
    let rows = db.top_scorer_rows().unwrap();
    let positions: Vec<usize> = rows.iter().map(|r| r.0).collect();
    assert_eq!(positions, vec![1, 1, 1, 4]);
}

#[test]
fn assist_rows_follow_assist_ranking() {
    let mut db = PlayerDB::new();
    db.add_player(Player {
        id: "a".to_string(),
        name: "Alpha".to_string(),
        goals_scored: 9,
        assists: 1,
    });
    db.add_player(Player {
        id: "b".to_string(),
        name: "Beta".to_string(),
        goals_scored: 1,
        assists: 8,
    });
    db.index_players();
    let rows = db.top_assist_rows().unwrap();
    assert_eq!(rows.len(), 2);
    assert_eq!(rows[0], (1, "Beta".to_string(), 8));
    assert_eq!(rows[1], (2, "Alpha".to_string(), 1));
}
