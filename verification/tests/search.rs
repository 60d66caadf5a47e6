use pijersi::alphabeta::root::{alphabeta, eval, max_depth, should_stop, INF_SCORE, MATE_SCORE};
use pijersi::ugi::go::{GoKind, GoSettings};
use pijersi::mv::Mv;
use pijersi::position::Position;
use pijersi::result::GameResult;
use pijersi::searchresult::SearchResult;
use pijersi::searchstats::SearchStats;
use pijersi::side::Side;
use pijersi::square::Square;

fn never(_: &SearchStats) -> bool {
    false
}

fn at_once(_: &SearchStats) -> bool {
    true
}

/// The score by plain search of every line of play.
fn negamax(pos: &Position, depth: i32, ply: i32) -> i32 {
    match pos.result() {
        Some(GameResult::WhiteWin) => {
            return if pos.turn == Side::White {
                MATE_SCORE - ply
            } else {
                -MATE_SCORE + ply
            }
        }
        Some(GameResult::BlackWin) => {
            return if pos.turn == Side::Black {
                MATE_SCORE - ply
            } else {
                -MATE_SCORE + ply
            }
        }
        Some(GameResult::Draw) => return 0,
        None => {}
    }
    if depth == 0 {
        return eval(pos);
    }
    let mut best = -INF_SCORE;
    for mv in pos.legal_moves() {
        let score = -negamax(&pos.after_move(&mv), depth - 1, ply + 1);
        if score > best {
            best = score;
        }
    }
    best
}

#[test]
fn eval_counts_cells() {
    assert_eq!(eval(&Position::from_fen("startpos")), 0);
    assert_eq!(eval(&Position::from_fen("s-5/7/6/7/6/7/RPS-4 w 0 1")), 100);
    assert_eq!(eval(&Position::from_fen("s-5/7/6/7/6/7/RPS-4 b 0 1")), -100);
    assert_eq!(eval(&Position::from_fen("6/7/6/7/6/7/6 w 0 1")), 0);
    assert_eq!(eval(&Position::from_fen("6/7/6/7/6/R-P-S-W-3/RPSRWW3 w 0 1")), 700);
}

#[test]
fn the_search_finds_the_win() {
    let pos = Position::from_fen("6/7/6/7/6/s-6/R-5 w 0 1");
    for depth in 1..4 {
        let mut stats = SearchStats::default();
        let score = alphabeta(&never, &mut stats, &pos, -INF_SCORE, INF_SCORE, depth, 0);
        assert_eq!(score, MATE_SCORE - 1);
        assert_eq!(stats.bestmove, Some(Mv::SoloMove(Square(0), Square(6))));
    }
    let mut stats = SearchStats::default();
    alphabeta(&never, &mut stats, &pos, -INF_SCORE, INF_SCORE, 1, 0);
    assert_eq!(stats.nodes, 4);
}

#[test]
fn the_search_of_a_finished_game_and_of_no_depth() {
    let mut stats = SearchStats::default();
    let won = Position::from_fen("6/7/6/7/6/7/R-5 w 0 1");
    assert_eq!(alphabeta(&never, &mut stats, &won, -INF_SCORE, INF_SCORE, 3, 0), MATE_SCORE);
    assert_eq!(alphabeta(&never, &mut stats, &won, -INF_SCORE, INF_SCORE, 3, 5), MATE_SCORE - 5);
    let lost = Position::from_fen("6/7/6/7/6/7/R-5 b 0 1");
    assert_eq!(alphabeta(&never, &mut stats, &lost, -INF_SCORE, INF_SCORE, 3, 2), -MATE_SCORE + 2);
    let drawn = Position::from_fen("r-5/7/6/7/6/7/RP5 w 20 1");
    assert_eq!(alphabeta(&never, &mut stats, &drawn, -INF_SCORE, INF_SCORE, 3, 0), 0);
    let open = Position::from_fen("r-5/7/6/7/6/7/RPS-4 w 0 1");
    assert_eq!(alphabeta(&never, &mut stats, &open, -INF_SCORE, INF_SCORE, 0, 0), 100);
    assert_eq!(stats.nodes, 5);
    assert_eq!(stats.bestmove, None);
}

#[test]
fn a_stopped_search_answers_zero() {
    let pos = Position::from_fen("startpos");
    let mut stats = SearchStats::default();
    assert_eq!(alphabeta(&at_once, &mut stats, &pos, -INF_SCORE, INF_SCORE, 3, 0), 0);
    assert_eq!(stats.nodes, 1);
    assert_eq!(stats.bestmove, None);
}

#[test]
fn the_widest_window_gives_the_negamax_score() {
    let fens = [
        "6/7/6/7/6/s-6/R-5 w 0 1",
        "r-5/7/6/7/6/7/RPS-4 w 0 1",
        "s-5/7/6/7/p-5/1R-5/RPS-4 b 17 1",
        "6/7/6/3ww3/6/2W-4/WW5 b 0 1",
        "2r-3/3sp3/6/7/6/3RP3/2S-3 w 0 1",
    ];
    for fen in fens {
        let pos = Position::from_fen(fen);
        for depth in 0..3 {
            let mut stats = SearchStats::default();
            let score = alphabeta(&never, &mut stats, &pos, -INF_SCORE, INF_SCORE, depth, 0);
            assert_eq!(score, negamax(&pos, depth, 0), "{} at depth {}", fen, depth);
            if let Some(mv) = stats.bestmove {
                assert!(pos.legal_moves().contains(&mv));
                assert_eq!(score, -negamax(&pos.after_move(&mv), depth - 1, 1));
            }
        }
    }
    // A narrow window bounds the score from the side on which it fails.
    let pos = Position::from_fen("r-5/7/6/7/6/7/RPS-4 w 0 1");
    let exact = negamax(&pos, 2, 0);
    let mut stats = SearchStats::default();
    let low = alphabeta(&never, &mut stats, &pos, exact, exact + 1, 2, 0);
    assert!(low <= exact);
    let high = alphabeta(&never, &mut stats, &pos, exact - 1, exact, 2, 0);
    assert!(high >= exact);
}

#[test]
fn the_rule_for_stopping() {
    let stats = SearchStats { nodes: 50, bestmove: None };
    assert!(!should_stop(&GoSettings::from_depth(3), &stats, 1_000_000));
    assert!(should_stop(&GoSettings::from_nodes(50), &stats, 0));
    assert!(should_stop(&GoSettings::from_nodes(51), &stats, 0));
    assert!(!should_stop(&GoSettings::from_nodes(49), &stats, 0));
    assert!(!should_stop(&GoSettings::from_movetime(100), &stats, 99));
    assert!(should_stop(&GoSettings::from_movetime(100), &stats, 100));
    assert!(!should_stop(&GoSettings::from_movetime(-1), &stats, 100));
    assert!(!should_stop(&GoSettings::from_time(1, 2, 3, 4), &stats, 100));
    assert!(!should_stop(&GoSettings::default(), &stats, 100));
    let mut both = GoSettings::from_nodes(10);
    both.movetime = Some(5);
    assert!(!should_stop(&both, &stats, 100));
    assert_eq!(max_depth(&GoSettings::from_depth(7)), 7);
    assert_eq!(max_depth(&GoSettings::from_nodes(7)), 128);
}

#[test]
fn go_settings() {
    let unlimited = GoSettings {
        kind: GoKind::Search,
        p1time: None,
        p2time: None,
        p1inc: None,
        p2inc: None,
        depth: None,
        nodes: None,
        movetime: None,
        movestogo: None,
    };
    assert_eq!(GoSettings::default(), unlimited);
    assert_eq!(GoKind::default(), GoKind::Search);
    assert_eq!(GoSettings::from_depth(3), GoSettings { depth: Some(3), ..unlimited });
    assert_eq!(GoSettings::from_movetime(4), GoSettings { movetime: Some(4), ..unlimited });
    assert_eq!(GoSettings::from_nodes(5), GoSettings { nodes: Some(5), ..unlimited });
    assert_eq!(
        GoSettings::from_time(1, 2, 3, 4),
        GoSettings {
            p1time: Some(1),
            p2time: Some(2),
            p1inc: Some(3),
            p2inc: Some(4),
            ..unlimited
        }
    );
    assert_eq!(SearchStats::default(), SearchStats { nodes: 0, bestmove: None });
}

#[test]
fn the_random_search_plays_a_legal_move() {
    let settings = GoSettings::from_depth(6);
    for fen in ["startpos", "s-5/7/6/7/6/7/RPS-4 w 0 1", "6/7/6/7/6/s-6/R-5 b 0 1"] {
        let pos = Position::from_fen(fen);
        let moves = pos.legal_moves();
        let mut seen = vec![];
        for _ in 0..200 {
            let result = pijersi::random::root::root(&pos, &settings);
            assert_eq!(result.ponder, None);
            assert_eq!(result.nodes, 1);
            let mv = result.bestmove.unwrap();
            assert!(moves.contains(&mv));
            if !seen.contains(&mv) {
                seen.push(mv);
            }
        }
        // Two hundred draws from three moves or more do not all give the same.
        assert!(seen.len() > 1, "{}", fen);
    }
    let pos = Position::from_fen("6/7/6/7/6/7/6 w 0 1");
    assert_eq!(
        pijersi::random::root::root(&pos, &settings),
        SearchResult { bestmove: None, ponder: None, nodes: 1 }
    );
    let mv = Mv::SoloMove(Square(0), Square(1));
    assert_eq!(
        pijersi::random::root::answer(Some(mv)),
        SearchResult { bestmove: Some(mv), ponder: None, nodes: 1 }
    );
}

#[test]
fn split_counts_the_lines_after_each_move() {
    let pos = Position::from_fen("startpos");
    let lines = pijersi::split::split(&pos, 2).unwrap();
    let moves = pos.legal_moves();
    assert_eq!(lines.len(), moves.len());
    let mut total = 0;
    for (i, (mv, nodes)) in lines.iter().enumerate() {
        assert_eq!(*mv, moves[i]);
        assert_eq!(*nodes, pos.after_move(mv).perft(1));
        total += nodes;
    }
    assert_eq!(total, 34054);
    let lines = pijersi::split::split(&pos, 1).unwrap();
    assert!(lines.iter().all(|(_, nodes)| *nodes == 1));
    assert_eq!(lines.len(), 186);
}

#[test]
fn moves_are_found_by_their_text() {
    let pos = Position::from_fen("startpos");
    assert_eq!(pos.find_move("b3c2"), Some(Mv::SoloMove(Square(8), Square(14))));
    assert_eq!(pos.find_move("b3c9"), None);
    assert_eq!(pos.find_move(""), None);
    assert_eq!(pos.find_move("b3c2 "), None);
    // Two shapes with one text: the piece cannot move there, so it joins.
    let pos = Position::from_fen("s-5/7/6/7/6/7/R-P-4 w 0 1");
    assert_eq!(pos.find_move("a1a2"), Some(Mv::SoloStack(Square(0), Square(1))));
    assert_eq!(pos.find_move("a1b1"), Some(Mv::SoloMove(Square(0), Square(6))));
    // Two shapes with one text, both legal: the first in the order of generation.
    let pos = Position::from_fen("s-5/7/6/7/6/7/RPS-4 w 0 1");
    assert_eq!(pos.find_move("a1a1a2"), Some(Mv::StackStack(Square(0), Square(1))));
    assert_eq!(
        pos.find_move("a1b1a1"),
        Some(Mv::StackMoveDestack(Square(0), Square(6), Square(0)))
    );
    for mv in pos.legal_moves() {
        let found = pos.find_move(&mv.to_string()).unwrap();
        assert_eq!(found.to_string(), mv.to_string());
    }
}
