use snake::leaderboard::{record_score, Score, LEADERBOARD_CAP};

fn entry(name: &str, score: u64) -> Score {
    Score { name: name.to_string(), score }
}

fn scores(board: &[Score]) -> Vec<u64> {
    board.iter().map(|s| s.score).collect()
}

#[test]
fn leaderboard_sorts_descending() {
    let mut board: Vec<Score> = Vec::new();
    record_score(&mut board, entry("ada", 10));
    record_score(&mut board, entry("bob", 30));
    record_score(&mut board, entry("cleo", 20));
    assert_eq!(scores(&board), vec![30, 20, 10]);
    assert_eq!(board[0].name, "bob");
    assert_eq!(board[1].name, "cleo");
    assert_eq!(board[2].name, "ada");
}

#[test]
fn leaderboard_keeps_earlier_entry_on_a_tie() {
    let mut board: Vec<Score> = Vec::new();
    record_score(&mut board, entry("first", 5));
    record_score(&mut board, entry("second", 5));
    record_score(&mut board, entry("third", 9));
    assert_eq!(scores(&board), vec![9, 5, 5]);
    assert_eq!(board[1].name, "first");
    assert_eq!(board[2].name, "second");
}

#[test]
fn leaderboard_caps_at_ten_entries() {
    let mut board: Vec<Score> = Vec::new();
    for i in 0..12u64 {
        record_score(&mut board, entry("player", 100 + i));
    }
    assert_eq!(board.len(), LEADERBOARD_CAP);
    assert_eq!(scores(&board), vec![111, 110, 109, 108, 107, 106, 105, 104, 103, 102]);
}

#[test]
fn leaderboard_drops_a_low_new_entry_when_full() {
    let mut board: Vec<Score> = Vec::new();
    for i in 0..10u64 {
        record_score(&mut board, entry("seed", 50 + i));
    }
    record_score(&mut board, entry("late", 1));
    assert_eq!(board.len(), 10);
    assert!(board.iter().all(|s| s.name != "late"));
    record_score(&mut board, entry("strong", 55));
    assert_eq!(board.len(), 10);
    assert_eq!(scores(&board), vec![59, 58, 57, 56, 55, 55, 54, 53, 52, 51]);
    assert_eq!(board[4].name, "seed", "the older equal score keeps the higher place");
    assert_eq!(board[5].name, "strong");
}
