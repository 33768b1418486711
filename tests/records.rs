use reaction_race::records::RecordLog;

fn sample() -> RecordLog {
    let mut log = RecordLog::new();
    log.save_game_record("game_1", "Ann", 30, Some(150_000));
    log.save_game_record("game_1", "Bo", 45, None);
    log.save_game_record("game_2", "Ann", 45, Some(210_500));
    log.save_game_record("game_2", "Cy", -5, None);
    log
}

#[test]
fn saved_records_are_numbered() {
    let log = sample();
    let board = log.get_leaderboard(-1);
    let mut ids: Vec<&str> = board.iter().map(|r| r.id.as_str()).collect();
    ids.sort();
    assert_eq!(ids, vec!["record_1", "record_2", "record_3", "record_4"]);
    assert!(board.iter().all(|r| r.created_at == "2024-01-01T00:00:00Z"));
}

#[test]
fn leaderboard_orders_by_score_then_age() {
    let log = sample();
    let board = log.get_leaderboard(10);
    let order: Vec<(&str, i32)> = board.iter().map(|r| (r.id.as_str(), r.score)).collect();
    assert_eq!(
        order,
        vec![("record_2", 45), ("record_3", 45), ("record_1", 30), ("record_4", -5)]
    );
}

#[test]
fn leaderboard_limit() {
    let log = sample();
    assert_eq!(log.get_leaderboard(2).len(), 2);
    assert_eq!(log.get_leaderboard(2)[1].id, "record_3");
    assert_eq!(log.get_leaderboard(0).len(), 0);
    assert_eq!(log.get_leaderboard(-3).len(), 4);
    assert_eq!(RecordLog::new().get_leaderboard(5).len(), 0);
}

#[test]
fn player_history_filters_by_name() {
    let log = sample();
    let ann = log.get_player_history("Ann", 10);
    let ids: Vec<&str> = ann.iter().map(|r| r.id.as_str()).collect();
    assert_eq!(ids, vec!["record_1", "record_3"]);
    assert_eq!(ann[1].reaction_time, Some(210_500));
    assert_eq!(ann[1].game_id, "game_2");
    assert_eq!(log.get_player_history("Ann", 1).len(), 1);
    assert_eq!(log.get_player_history("Ann", -1).len(), 2);
    assert!(log.get_player_history("Dee", 10).is_empty());
}

#[test]
fn stats_count_records_and_players() {
    assert_eq!(sample().get_stats(), (4, 3));
    assert_eq!(RecordLog::new().get_stats(), (0, 0));
}
