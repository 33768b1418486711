use reaction_race::guess::GuessGameState;
use reaction_race::race::{GameState, RaceError};
use reaction_race::registry::{CreateGameRequest, GameStateStorage};
use reaction_race::text::with_number;

fn request(players: u8, rounds: u8) -> CreateGameRequest {
    CreateGameRequest {
        player_count: players,
        round_count: rounds,
        player_names: vec!["Ann".to_string()],
    }
}

#[test]
fn registry_runs_a_whole_game() {
    let mut storage = GameStateStorage::new();
    let created = storage.create_game(request(2, 1));
    let id = created.game_id.clone();
    assert!(id.starts_with("game_"));
    assert_eq!(created.game_state, GameState::Waiting);
    assert_eq!(created.players.len(), 2);
    assert_eq!(created.players[0].name, "Ann");
    assert_eq!(created.players[1].name, "玩家2");
    assert_eq!(created.max_rounds, 1);

    let started = storage.start_game(&id).unwrap();
    assert_eq!(started.game_state, GameState::Countdown);
    let racing = storage.trigger_green_light(&id).unwrap();
    assert_eq!(racing.game_state, GameState::Racing);
    storage.record_reaction(&id, 1, 150_000).unwrap();
    storage.record_reaction(&id, 2, 90_000).unwrap();
    assert_eq!(
        storage.record_reaction(&id, 2, 200_000),
        Err(RaceError::DuplicateReaction)
    );
    let result = storage.finish_round(&id).unwrap();
    assert_eq!(result.player_results[0].points, 25);
    assert_eq!(result.player_results[1].points, -5);

    let snapshot = storage.get_game(&id).unwrap();
    assert_eq!(snapshot.game_id, id);
    assert_eq!(snapshot.game_state, GameState::GameOver);
    assert_eq!(snapshot.current_round, 1);
    assert_eq!(snapshot.players[0].score, 25);
    assert_eq!(snapshot.players[1].score, -5);
    assert_eq!(snapshot.round_results.len(), 1);
    assert_eq!(snapshot.round_results[0].player_results, result.player_results);
}

#[test]
fn unknown_room_everywhere() {
    let mut storage = GameStateStorage::new();
    storage.create_game(request(2, 3));
    assert!(storage.start_game("nope").is_none());
    assert!(storage.trigger_green_light("nope").is_none());
    assert!(storage.finish_round("nope").is_none());
    assert!(storage.get_game("nope").is_none());
    assert_eq!(
        storage.record_reaction("nope", 1, 200_000),
        Err(RaceError::RoomNotFound)
    );
}

#[test]
fn rooms_are_independent() {
    let mut storage = GameStateStorage::new();
    let a = storage.create_game(request(2, 3)).game_id;
    let mut b = storage.create_game(request(3, 3)).game_id;
    while b == a {
        b = storage.create_game(request(3, 3)).game_id;
    }
    storage.trigger_green_light(&a).unwrap();
    assert_eq!(storage.get_game(&a).unwrap().game_state, GameState::Racing);
    assert_eq!(storage.get_game(&b).unwrap().game_state, GameState::Waiting);
    assert_eq!(
        storage.record_reaction(&b, 1, 200_000),
        Err(RaceError::InvalidState)
    );
    assert!(storage.record_reaction(&a, 1, 200_000).is_ok());
}

#[test]
fn number_text() {
    assert_eq!(with_number("game_", 0), "game_0");
    assert_eq!(with_number("game_", 4_294_967_295), "game_4294967295");
    assert_eq!(with_number("x", 1203), "x1203");
}

fn fixed(target: u32) -> GuessGameState {
    let mut g = GuessGameState::new();
    g.target_number = target;
    g
}

#[test]
fn guess_too_small_narrows_from_below() {
    let mut g = fixed(40);
    let r = g.guess(25);
    assert!(!r.correct);
    assert_eq!(r.attempts, 1);
    assert_eq!(r.range, (25, 100));
    assert_eq!(r.message, "太小了！试试 26 到 100 之间的数字");
    let r = g.guess(10);
    assert_eq!(r.range, (25, 100));
    assert_eq!(r.attempts, 2);
}

#[test]
fn guess_too_big_narrows_from_above() {
    let mut g = fixed(40);
    let r = g.guess(70);
    assert!(!r.correct);
    assert_eq!(r.range, (1, 70));
    assert_eq!(r.message, "太大了！试试 1 到 69 之间的数字");
}

#[test]
fn right_guess_starts_over() {
    let mut g = fixed(40);
    g.guess(70);
    let r = g.guess(40);
    assert!(r.correct);
    assert_eq!(r.attempts, 2);
    assert_eq!(r.range, (1, 70));
    assert_eq!(r.message, "🎉 恭喜你！数字就是 40！");
    assert_eq!(g.attempts, 0);
    assert!((1..=100).contains(&g.target_number));
    assert_eq!(g.max_number, 70);
}

#[test]
fn fresh_guessing_game() {
    let g = GuessGameState::new();
    assert!((1..=100).contains(&g.target_number));
    assert_eq!(g.attempts, 0);
    assert_eq!(g.max_attempts, 10);
    assert_eq!((g.min_number, g.max_number), (1, 100));
}
