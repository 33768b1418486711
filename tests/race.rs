use reaction_race::race::{GameState, PlayerRoundResult, RaceError, RacingGame};

fn racing_room(players: u8, rounds: u8) -> RacingGame {
    let mut g = RacingGame::new_numbered(1, players, rounds, Vec::new());
    g.start_round();
    g.trigger_green_light();
    g
}

#[test]
fn false_start_and_winner_in_one_round() {
    let mut g = racing_room(2, 1);
    g.record_reaction(1, 150_000).unwrap();
    g.record_reaction(2, 90_000).unwrap();
    let r = g.finish_round();
    assert_eq!(r.round, 1);
    assert_eq!(r.player_results.len(), 2);
    let fast = r.player_results[0];
    let early = r.player_results[1];
    assert_eq!(early.player_id, 2);
    assert!(early.is_false_start);
    assert_eq!(early.points, -5);
    assert_eq!(early.rank, None);
    assert_eq!(early.reaction_time, None);
    assert_eq!(fast.player_id, 1);
    assert!(!fast.is_false_start);
    assert_eq!(fast.points, 25);
    assert_eq!(fast.rank, Some(1));
    assert_eq!(fast.reaction_time, Some(150_000));
    assert_eq!(g.players[0].score, 25);
    assert_eq!(g.players[1].score, -5);
    assert_eq!(g.game_state, GameState::GameOver);
}

#[test]
fn silent_player_still_gets_a_result() {
    let mut g = racing_room(3, 2);
    g.record_reaction(1, 250_000).unwrap();
    g.record_reaction(3, 180_000).unwrap();
    let r = g.finish_round();
    assert_eq!(r.player_results.len(), 3);
    let silent = r.player_results[1];
    assert_eq!(silent.player_id, 2);
    assert_eq!(silent.points, 0);
    assert_eq!(silent.reaction_time, None);
    assert_eq!(silent.rank, None);
    assert!(!silent.is_false_start);
    assert_eq!(r.player_results[2].rank, Some(1));
    assert_eq!(r.player_results[2].points, 15 + 10);
    assert_eq!(r.player_results[0].rank, Some(2));
    assert_eq!(r.player_results[0].points, 12 + 7);
    assert_eq!(g.game_state, GameState::Waiting);
}

#[test]
fn signal_from_waiting_goes_straight_to_racing() {
    let mut g = RacingGame::new_numbered(5, 2, 3, Vec::new());
    assert_eq!(g.game_state, GameState::Waiting);
    g.trigger_green_light();
    assert_eq!(g.game_state, GameState::Racing);
    assert!(g.green_light_time.is_some());
    assert!(g.record_reaction(1, 200_000).is_ok());
}

#[test]
fn round_counter_and_game_over() {
    let mut g = RacingGame::new_numbered(9, 2, 3, Vec::new());
    for expected in 1..=3u8 {
        g.start_round();
        assert_eq!(g.game_state, GameState::Countdown);
        g.trigger_green_light();
        let r = g.finish_round();
        assert_eq!(r.round, expected);
        assert_eq!(g.current_round, expected);
        assert_eq!(g.round_results.len(), expected as usize);
        if expected < 3 {
            assert_eq!(g.game_state, GameState::Waiting);
        } else {
            assert_eq!(g.game_state, GameState::GameOver);
        }
    }
}

#[test]
fn reactions_refused_outside_racing() {
    let mut g = RacingGame::new_numbered(3, 2, 3, Vec::new());
    assert_eq!(g.record_reaction(1, 200_000), Err(RaceError::InvalidState));
    g.start_round();
    assert_eq!(g.record_reaction(1, 200_000), Err(RaceError::InvalidState));
    assert!(g.reacted_players.is_empty());
    assert!(g.player_reactions.is_empty());
    g.trigger_green_light();
    g.record_reaction(2, 300_000).unwrap();
    g.finish_round();
    assert_eq!(g.record_reaction(1, 200_000), Err(RaceError::InvalidState));
    assert_eq!(g.reacted_players, vec![2]);
    assert_eq!(g.player_reactions, vec![(2, 300_000)]);
}

#[test]
fn second_reaction_is_refused() {
    let mut g = racing_room(2, 1);
    let first = g.record_reaction(1, 220_000).unwrap();
    assert_eq!(
        first,
        PlayerRoundResult {
            player_id: 1,
            reaction_time: Some(220_000),
            is_false_start: false,
            rank: None,
            points: 0,
        }
    );
    assert_eq!(g.record_reaction(1, 120_000), Err(RaceError::DuplicateReaction));
    assert_eq!(g.player_reactions, vec![(1, 220_000)]);
    let r = g.finish_round();
    assert_eq!(r.player_results[0].reaction_time, Some(220_000));
}

#[test]
fn unknown_player_is_refused() {
    let mut g = racing_room(2, 1);
    assert_eq!(g.record_reaction(0, 200_000), Err(RaceError::UnknownPlayer));
    assert_eq!(g.record_reaction(3, 200_000), Err(RaceError::UnknownPlayer));
    assert!(g.reacted_players.is_empty());
}

#[test]
fn false_start_acknowledgement_hides_the_time() {
    let mut g = racing_room(2, 1);
    let ack = g.record_reaction(2, 99_999).unwrap();
    assert!(ack.is_false_start);
    assert_eq!(ack.reaction_time, None);
    assert_eq!(ack.points, 0);
    assert_eq!(g.player_reactions, vec![(2, 99_999)]);
}

#[test]
fn scores_are_sums_of_round_points() {
    let mut g = RacingGame::new_numbered(2, 2, 3, Vec::new());
    let times = [(150_000u64, 450_000u64), (50_000, 320_000), (600_000, 100_000)];
    for (a, b) in times {
        g.start_round();
        g.trigger_green_light();
        g.record_reaction(1, a).unwrap();
        g.record_reaction(2, b).unwrap();
        g.finish_round();
    }
    for k in 0..2 {
        let sum: i32 = g.round_results.iter().map(|r| r.player_results[k].points).sum();
        assert_eq!(g.players[k].score, sum);
    }
    // round 1: 15+10 and 8+7; round 2: -5 and 10+10; round 3: 5+7 and 15+10
    assert_eq!(g.players[0].score, 25 - 5 + 12);
    assert_eq!(g.players[1].score, 15 + 20 + 25);
}

#[test]
fn ranks_are_dense_and_follow_time() {
    let mut g = racing_room(6, 1);
    g.record_reaction(1, 300_000).unwrap();
    g.record_reaction(2, 150_000).unwrap();
    g.record_reaction(3, 150_000).unwrap();
    g.record_reaction(4, 80_000).unwrap();
    g.record_reaction(5, 520_000).unwrap();
    let r = g.finish_round();
    let ranks: Vec<Option<u8>> = r.player_results.iter().map(|p| p.rank).collect();
    assert_eq!(ranks, vec![Some(3), Some(1), Some(2), None, Some(4), None]);
    let points: Vec<i32> = r.player_results.iter().map(|p| p.points).collect();
    assert_eq!(points, vec![10 + 5, 15 + 10, 15 + 7, -5, 5 + 3, 0]);
}

#[test]
fn point_bands() {
    let cases = [
        (100_000u64, 15),
        (199_999, 15),
        (200_000, 12),
        (299_999, 12),
        (300_000, 10),
        (400_000, 8),
        (499_999, 8),
        (500_000, 5),
        (2_000_000, 5),
    ];
    for (t, band) in cases {
        let mut g = racing_room(1, 1);
        g.record_reaction(1, t).unwrap();
        let r = g.finish_round();
        assert_eq!(r.player_results[0].points, band + 10);
        assert_eq!(r.player_results[0].rank, Some(1));
    }
}

#[test]
fn new_room_layout() {
    let g = RacingGame::new_numbered(42, 5, 3, vec!["Ann".to_string(), "Bo".to_string()]);
    assert_eq!(g.game_id, "game_42");
    assert_eq!(g.game_state, GameState::Waiting);
    assert_eq!(g.current_round, 0);
    assert_eq!(g.max_rounds, 3);
    let names: Vec<&str> = g.players.iter().map(|p| p.name.as_str()).collect();
    assert_eq!(names, vec!["Ann", "Bo", "玩家3", "玩家4", "玩家5"]);
    let keys: Vec<&str> = g.players.iter().map(|p| p.key.as_str()).collect();
    assert_eq!(keys, vec![" ", "Enter", "a", "l", " "]);
    let ids: Vec<u8> = g.players.iter().map(|p| p.id).collect();
    assert_eq!(ids, vec![1, 2, 3, 4, 5]);
    assert!(g.players.iter().all(|p| p.score == 0 && !p.is_ready));
}

#[test]
fn random_room_identifier_shape() {
    let g = RacingGame::new(2, 1, Vec::new());
    let digits = g.game_id.strip_prefix("game_").unwrap();
    assert!(!digits.is_empty());
    assert!(digits.parse::<u32>().is_ok());
    assert_eq!(g.players.len(), 2);
}

#[test]
fn start_round_clears_reactions() {
    let mut g = racing_room(2, 2);
    g.record_reaction(1, 200_000).unwrap();
    g.start_round();
    assert_eq!(g.game_state, GameState::Countdown);
    assert!(g.green_light_time.is_none());
    assert!(g.reacted_players.is_empty());
    assert!(g.player_reactions.is_empty());
}

#[test]
fn error_messages_are_not_empty() {
    for e in [
        RaceError::RoomNotFound,
        RaceError::InvalidState,
        RaceError::UnknownPlayer,
        RaceError::DuplicateReaction,
    ] {
        assert!(!e.message().is_empty());
    }
}
