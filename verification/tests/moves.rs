use pijersi::mv::Mv;
use pijersi::position::Position;
use pijersi::square::Square;

const FENS: [&str; 8] = [
    "startpos",
    "srp-r-s-2/p-1s-1r-1p-/4p-1/1RPw-3sr/2w-1RSP-/P-2WWS-2/R-S-S-1PR1 w 0 1",
    "1p-sr1p-r-/p-r-1w-w-s-p-/4r-1/3ss3/SPR-S-2R-/P-2WW2P-/R-2R-SPS- w 0 1",
    "1sp1rsp-1/p-2wwr-1pr/5s-/rs3R-2/1W-W-P-2/P-S-RP1S-2/R-1S-RP1S- w 0 1",
    "1p-r-1p-r-/1r-s-sr3/ps1W-w-2/SP1W-1w-S-s-/4R-1/P-4R-P-/R-1SR1P-S- b 3 1",
    "s-5/7/6/7/6/7/RPS-4 w 0 1",
    "6/7/6/3ww3/6/2W-4/WW5 b 0 1",
    "r-5/7/6/7/6/7/R-5 w 0 1",
];

fn after(fen: &str, mv: Mv) -> String {
    let pos = Position::from_fen(fen);
    assert!(pos.legal_moves().contains(&mv), "{:?} at {}", mv, fen);
    pos.after_move(&mv).get_fen()
}

#[test]
fn perft_of_the_starting_position() {
    let pos = Position::from_fen("startpos");
    assert_eq!(pos.perft(-1), 1);
    assert_eq!(pos.perft(0), 1);
    assert_eq!(pos.perft(1), 186);
    assert_eq!(pos.perft(2), 34054);
    assert_eq!(pos.perft_checked(2), Some(34054));
}

#[test]
fn perft_stops_where_the_game_is_over() {
    // Twenty half moves played: no line of play goes on.
    let pos = Position::from_fen("r-5/7/6/7/6/7/R-5 w 20 1");
    assert_eq!(pos.perft(0), 1);
    assert_eq!(pos.perft(1), 0);
    assert_eq!(pos.perft(3), 0);
    assert!(pos.count_moves() > 0);
    // One half move left: the lines of two moves end after the first.
    let pos = Position::from_fen("r-5/7/6/7/6/7/R-5 w 19 1");
    assert_eq!(pos.perft(1), 3);
    assert_eq!(pos.perft(2), 0);
    // Two half moves left.
    let pos = Position::from_fen("r-5/7/6/7/6/7/R-5 w 18 1");
    assert_eq!(pos.perft(1), 3);
    assert_eq!(pos.perft(2), 9);
    assert_eq!(pos.perft(3), 0);
}

#[test]
fn the_three_counts_agree() {
    for fen in FENS {
        let pos = Position::from_fen(fen);
        let listed = pos.legal_moves().len();
        assert_eq!(pos.count_moves() as usize, listed, "{}", fen);
        assert_eq!(pos.count_moves_sneaky() as usize, listed, "{}", fen);
        if !pos.is_gameover() {
            assert_eq!(pos.perft(1) as usize, listed, "{}", fen);
        }
        for mv in pos.legal_moves() {
            let npos = pos.after_move(&mv);
            assert_eq!(
                npos.count_moves_sneaky() as usize,
                npos.legal_moves().len(),
                "{} after {:?}",
                fen,
                mv
            );
        }
    }
}

#[test]
fn every_legal_move_leaves_a_valid_position() {
    for fen in FENS {
        let pos = Position::from_fen(fen);
        assert!(pos.is_valid());
        for mv in pos.legal_moves() {
            let npos = pos.after_move(&mv);
            assert!(npos.is_valid(), "{} after {:?}", fen, mv);
            assert_eq!(npos.halfmoves, pos.halfmoves + 1);
            assert_eq!(npos.fullmoves, pos.fullmoves);
            assert_eq!(npos.turn, !pos.turn);
            // The text of a reachable position reads back as the same position.
            let text = npos.get_fen();
            assert_eq!(Position::from_fen(&text).get_fen(), text);
            for reply in npos.legal_moves() {
                assert!(npos.after_move(&reply).is_valid());
            }
        }
    }
}

#[test]
fn moves_come_in_the_order_of_generation() {
    let pos = Position::from_fen("startpos");
    let moves = pos.legal_moves();
    assert_eq!(moves[0], Mv::SoloMove(Square(8), Square(14)));
    assert_eq!(moves[0].to_string(), "b3c2");
    assert_eq!(moves[1], Mv::SoloMove(Square(8), Square(15)));

    let pos = Position::from_fen("s-5/7/6/7/6/7/RPS-4 w 0 1");
    let moves = pos.legal_moves();
    // The paper on top of the stack moves; the scissors follow. The rock below
    // the paper does not move.
    let expected = vec![
        // The stack moves one step, then two steps.
        Mv::StackMove(Square(0), Square(6)),
        Mv::StackMove(Square(0), Square(7)),
        Mv::StackMove(Square(0), Square(14)),
        // The stack moves and its top piece goes on.
        Mv::StackMoveDestack(Square(0), Square(6), Square(0)),
        Mv::StackMoveDestack(Square(0), Square(6), Square(7)),
        Mv::StackMoveDestack(Square(0), Square(6), Square(13)),
        Mv::StackMoveDestack(Square(0), Square(7), Square(0)),
        Mv::StackMoveDestack(Square(0), Square(7), Square(1)),
        Mv::StackMoveDestack(Square(0), Square(7), Square(6)),
        Mv::StackMoveDestack(Square(0), Square(7), Square(8)),
        Mv::StackMoveDestack(Square(0), Square(7), Square(13)),
        Mv::StackMoveDestack(Square(0), Square(7), Square(14)),
        Mv::StackMoveDestack(Square(0), Square(14), Square(7)),
        Mv::StackMoveDestack(Square(0), Square(14), Square(8)),
        Mv::StackMoveDestack(Square(0), Square(14), Square(13)),
        Mv::StackMoveDestack(Square(0), Square(14), Square(15)),
        Mv::StackMoveDestack(Square(0), Square(14), Square(20)),
        Mv::StackMoveDestack(Square(0), Square(14), Square(21)),
        // The top piece leaves the stack.
        Mv::StackDestack(Square(0), Square(6)),
        Mv::StackDestack(Square(0), Square(7)),
        // The top piece joins the scissors, and the new stack moves on.
        Mv::StackStack(Square(0), Square(1)),
        Mv::StackStackMove(Square(0), Square(1), Square(2)),
        Mv::StackStackMove(Square(0), Square(1), Square(7)),
        Mv::StackStackMove(Square(0), Square(1), Square(8)),
        Mv::StackStackMove(Square(0), Square(1), Square(3)),
        Mv::StackStackMove(Square(0), Square(1), Square(13)),
        Mv::StackStackMove(Square(0), Square(1), Square(15)),
        // The scissors move alone.
        Mv::SoloMove(Square(1), Square(2)),
        Mv::SoloMove(Square(1), Square(7)),
        Mv::SoloMove(Square(1), Square(8)),
    ];
    for (i, mv) in expected.iter().enumerate() {
        assert!(i < moves.len(), "no move {}", i);
        assert_eq!(moves[i], *mv, "move {}", i);
    }
    assert_eq!(moves.len(), expected.len());
}

#[test]
fn the_callback_sees_the_moves_in_order_until_it_stops() {
    let pos = Position::from_fen("startpos");
    let moves = pos.legal_moves();

    let mut seen = vec![];
    let stopped = pos.move_generator(|mv| {
        seen.push(mv);
        false
    });
    assert!(!stopped);
    assert_eq!(seen, moves);

    let mut seen = vec![];
    let stopped = pos.move_generator(|mv| {
        seen.push(mv);
        seen.len() == 3
    });
    assert!(stopped);
    assert_eq!(seen, moves[..3].to_vec());

    let pos = Position::from_fen("6/7/6/7/6/7/6 w 0 1");
    assert!(pos.legal_moves().is_empty());
    assert!(!pos.move_generator(|_| true));
}

#[test]
fn a_single_piece_moves_joins_and_moves_on() {
    let fen = "s-5/7/6/7/6/7/R-P-4 w 0 1";
    assert_eq!(
        after(fen, Mv::SoloMove(Square(0), Square(6))),
        "s-5/7/6/7/6/R-6/1P-4 b 1 1"
    );
    assert_eq!(
        after(fen, Mv::SoloStack(Square(0), Square(1))),
        "s-5/7/6/7/6/7/1PR4 b 1 1"
    );
    assert_eq!(
        after(fen, Mv::SoloStackMove(Square(0), Square(1), Square(2))),
        "s-5/7/6/7/6/7/2PR3 b 1 1"
    );
    // Back onto the cell that the piece came from.
    assert_eq!(
        after(fen, Mv::SoloStackMove(Square(0), Square(1), Square(0))),
        "s-5/7/6/7/6/7/PR5 b 1 1"
    );
    // A jump of two cells.
    assert_eq!(
        after(fen, Mv::SoloStackMove(Square(0), Square(1), Square(3))),
        "s-5/7/6/7/6/7/3PR2 b 1 1"
    );
    // A jump over the cell that the piece came from.
    let fen = "s-5/7/6/7/6/7/1R-P-3 w 0 1";
    assert_eq!(
        after(fen, Mv::SoloStackMove(Square(1), Square(2), Square(0))),
        "s-5/7/6/7/6/7/PR5 b 1 1"
    );
}

#[test]
fn a_stack_moves_splits_and_joins() {
    let fen = "s-5/7/6/7/6/7/RP5 w 0 1";
    assert_eq!(
        after(fen, Mv::StackMove(Square(0), Square(2))),
        "s-5/7/6/7/6/7/2RP3 b 1 1"
    );
    assert_eq!(
        after(fen, Mv::StackMoveDestack(Square(0), Square(1), Square(2))),
        "s-5/7/6/7/6/7/1R-P-3 b 1 1"
    );
    // The top piece steps back onto the cell that the stack came from.
    assert_eq!(
        after(fen, Mv::StackMoveDestack(Square(0), Square(1), Square(0))),
        "s-5/7/6/7/6/7/P-R-4 b 1 1"
    );
    assert_eq!(
        after(fen, Mv::StackDestack(Square(0), Square(1))),
        "s-5/7/6/7/6/7/R-P-4 b 1 1"
    );
    let fen = "s-5/7/6/7/6/7/RPS-4 w 0 1";
    assert_eq!(
        after(fen, Mv::StackStack(Square(0), Square(1))),
        "s-5/7/6/7/6/7/R-SP4 b 1 1"
    );
    assert_eq!(
        after(fen, Mv::StackStackMove(Square(0), Square(1), Square(2))),
        "s-5/7/6/7/6/7/R-1SP3 b 1 1"
    );
    // The stack moves, and its top piece goes on top of a piece of its side.
    let fen = "s-5/7/6/7/6/7/RP1S-3 w 0 1";
    assert_eq!(
        after(fen, Mv::StackMoveDestack(Square(0), Square(1), Square(2))),
        "s-5/7/6/7/6/7/1R-SP3 b 1 1"
    );
}

#[test]
fn captures_follow_the_cycle() {
    // Rock takes scissors, single or stacked, by what lies on top.
    assert_eq!(
        after("6/7/6/7/6/s-6/R-5 w 0 1", Mv::SoloMove(Square(0), Square(6))),
        "6/7/6/7/6/R-6/6 b 1 1"
    );
    assert_eq!(
        after("p-5/7/6/7/6/ps6/R-5 w 4 9", Mv::SoloMove(Square(0), Square(6))),
        "p-5/7/6/7/6/R-6/6 b 5 9"
    );
    assert_eq!(
        after("r-5/7/6/7/6/7/s-P-4 b 0 1", Mv::SoloMove(Square(0), Square(1))),
        "r-5/7/6/7/6/7/1s-4 w 1 1"
    );
    // A stack takes with its top piece, and its top piece takes again.
    assert_eq!(
        after(
            "6/7/6/7/6/7/SRs-s-3 w 0 1",
            Mv::StackMoveDestack(Square(0), Square(1), Square(2))
        ),
        "6/7/6/7/6/7/1S-R-3 b 1 1"
    );
    // What a kind does not beat, it cannot take.
    for fen in [
        "6/7/6/7/6/p-6/R-5 w 0 1",
        "6/7/6/7/6/r-6/R-5 w 0 1",
        "6/7/6/7/6/w-6/R-5 w 0 1",
        "6/7/6/7/6/sp6/R-5 w 0 1",
        "6/7/6/7/6/s-6/W-5 w 0 1",
    ] {
        let pos = Position::from_fen(fen);
        assert!(!pos.legal_moves().contains(&Mv::SoloMove(Square(0), Square(6))), "{}", fen);
    }
}

#[test]
fn a_wise_piece_stacks_on_a_wise_piece_only() {
    let pos = Position::from_fen("s-5/7/6/7/6/7/W-R-4 w 0 1");
    let moves = pos.legal_moves();
    assert!(!moves.contains(&Mv::SoloStack(Square(0), Square(1))));
    assert!(moves.contains(&Mv::SoloStack(Square(1), Square(0))));
    let pos = Position::from_fen("s-5/7/6/7/6/7/W-W-4 w 0 1");
    let moves = pos.legal_moves();
    assert!(moves.contains(&Mv::SoloStack(Square(0), Square(1))));
    assert_eq!(
        pos.after_move(&Mv::SoloStack(Square(0), Square(1))).get_fen(),
        "s-5/7/6/7/6/7/1WW4 b 1 1"
    );
}

#[test]
fn a_jump_needs_a_free_cell_in_between() {
    let pos = Position::from_fen("s-5/7/6/7/6/7/RP5 w 0 1");
    assert!(pos.legal_moves().contains(&Mv::StackMove(Square(0), Square(2))));
    for fen in ["s-5/7/6/7/6/7/RPs-4 w 0 1", "s-5/7/6/7/6/7/RPS-4 w 0 1"] {
        let pos = Position::from_fen(fen);
        assert!(!pos.legal_moves().contains(&Mv::StackMove(Square(0), Square(2))), "{}", fen);
    }
}

#[test]
fn makemove_changes_the_position_in_place() {
    let mut pos = Position::from_fen("startpos");
    let mv = pos.legal_moves()[0];
    let expected = pos.after_move(&mv).get_fen();
    pos.makemove(&mv);
    assert_eq!(pos.get_fen(), expected);
    assert_eq!(
        expected,
        "s-p-r-s-p-r-/p-r-s-wwr-s-p-/6/7/1R-4/P-S-1WWS-R-P-/R-P-S-R-P-S- b 1 1"
    );
}
