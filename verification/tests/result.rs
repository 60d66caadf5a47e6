use pijersi::position::Position;
use pijersi::result::GameResult;

#[test]
fn game_results() {
    let tests = [
        // None
        ("startpos", None),
        ("r-5/7/6/7/6/7/R-5 w 0 1", None),
        ("r-5/7/6/7/6/7/R-5 w 19 1", None),
        // Goal reached
        ("r-R-4/7/6/7/6/7/6 w 0 1", Some(GameResult::WhiteWin)),
        ("6/7/6/7/6/7/r-R-4 w 0 1", Some(GameResult::BlackWin)),
        // Material
        ("6/7/6/7/6/7/R-5 w 0 1", Some(GameResult::WhiteWin)),
        ("r-5/7/6/7/6/7/6 w 0 1", Some(GameResult::BlackWin)),
        // Halfmoves
        ("r-5/7/6/7/6/7/R-5 w 20 1", Some(GameResult::Draw)),
    ];

    for (fen, result) in tests {
        println!("{}", fen);
        let pos = Position::from_fen(fen);
        assert_eq!(pos.result(), result);
    }
}

#[test]
fn game_over_exactly_when_there_is_a_result() {
    let fens = [
        "startpos",
        "r-5/7/6/7/6/7/R-5 w 0 1",
        "r-5/7/6/7/6/7/R-5 w 19 1",
        "r-R-4/7/6/7/6/7/6 w 0 1",
        "6/7/6/7/6/7/r-R-4 w 0 1",
        "6/7/6/7/6/7/R-5 w 0 1",
        "r-5/7/6/7/6/7/6 w 0 1",
        "r-5/7/6/7/6/7/R-5 w 20 1",
        "6/7/6/7/6/7/6 w 0 1",
        "w-W-4/7/6/7/6/7/6 w 0 1",
    ];
    for fen in fens {
        let pos = Position::from_fen(fen);
        assert_eq!(pos.is_gameover(), pos.result().is_some(), "{}", fen);
    }
}

#[test]
fn result_precedence_and_edge_cases() {
    // Both sides eliminated: a draw.
    assert_eq!(
        Position::from_fen("6/7/6/7/6/7/6 w 0 1").result(),
        Some(GameResult::Draw)
    );
    // Elimination goes before the move limit.
    assert_eq!(
        Position::from_fen("6/7/6/7/6/7/R-5 w 20 1").result(),
        Some(GameResult::WhiteWin)
    );
    // A reached goal goes before the move limit.
    assert_eq!(
        Position::from_fen("6/7/6/7/6/7/r-R-4 w 25 1").result(),
        Some(GameResult::BlackWin)
    );
    // Both sides on their goal rows: the first player is looked at first.
    assert_eq!(
        Position::from_fen("R-5/7/6/7/6/7/r-5 w 0 1").result(),
        Some(GameResult::WhiteWin)
    );
    // A wise piece on the goal row wins nothing.
    assert_eq!(Position::from_fen("w-W-4/7/6/7/6/7/6 w 0 1").result(), None);
    // A capturing piece on top of a wise piece does.
    assert_eq!(
        Position::from_fen("w-WR4/7/6/7/6/7/6 w 0 1").result(),
        Some(GameResult::WhiteWin)
    );
}
