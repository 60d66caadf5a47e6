use pijersi::layer::Layer;
use pijersi::position::{Piece, Position};
use pijersi::side::Side;
use pijersi::square::Square;

#[test]
fn startpos() {
    assert_eq!(
        Position::from_fen("startpos").get_fen(),
        "s-p-r-s-p-r-/p-r-s-wwr-s-p-/6/7/6/P-S-R-WWS-R-P-/R-P-S-R-P-S- w 0 1"
    );
}

#[test]
fn parsing() {
    let tests = [
        // Side to move
        "6/7/6/7/6/7/6 w 0 1",
        "6/7/6/7/6/7/6 b 0 1",
        // Halfmoves
        "6/7/6/7/6/7/6 w 10 1",
        "6/7/6/7/6/7/6 w 100 1",
        // Fullmoves
        "6/7/6/7/6/7/6 w 0 10",
        "6/7/6/7/6/7/6 w 0 100",
        // Basic
        "r-5/7/6/7/6/7/R-5 w 0 1",
        "p-5/7/6/7/6/7/P-5 w 0 1",
        "s-5/7/6/7/6/7/S-5 w 0 1",
        "w-5/7/6/7/6/7/W-5 w 0 1",
        // Basic stacks
        "rr5/7/6/7/6/7/RR5 w 0 1",
        "pp5/7/6/7/6/7/PP5 w 0 1",
        "ss5/7/6/7/6/7/SS5 w 0 1",
        "ww5/7/6/7/6/7/WW5 w 0 1",
        // Mixed stacks
        "rp5/7/6/7/6/7/RP5 w 0 1",
        "ps5/7/6/7/6/7/PS5 w 0 1",
        "sr5/7/6/7/6/7/SR5 w 0 1",
        "wr5/7/6/7/6/7/WR5 w 0 1",
        "wp5/7/6/7/6/7/WP5 w 0 1",
        "ws5/7/6/7/6/7/WS5 w 0 1",
        // General
        "s-p-r-s-p-r-/p-r-s-wwr-s-p-/6/7/6/P-S-R-WWS-R-P-/R-P-S-R-P-S- w 0 1",
        "srp-r-s-2/p-1s-1r-1p-/4p-1/1RPw-3sr/2w-1RSP-/P-2WWS-2/R-S-S-1PR1 w 0 1",
        "1p-sr1p-r-/p-r-1w-w-s-p-/4r-1/3ss3/SPR-S-2R-/P-2WW2P-/R-2R-SPS- w 0 1",
        "1sp1rsp-1/p-2wwr-1pr/5s-/rs3R-2/1W-W-P-2/P-S-RP1S-2/R-1S-RP1S- w 0 1",
        "1p-r-1p-r-/1r-s-sr3/ps1W-w-2/SP1W-1w-S-s-/4R-1/P-4R-P-/R-1SR1P-S- w 0 1",
    ];

    for fen in tests {
        println!("{}", fen);
        let pos = Position::from_fen(fen);
        assert_eq!(fen, pos.get_fen());
    }
}

#[test]
fn parsed_cells_sides_and_counters() {
    let pos =
        Position::from_fen("1sp1rsp-1/p-2wwr-1pr/5s-/rs3R-2/1W-W-P-2/P-S-RP1S-2/R-1S-RP1S- b 7 12");
    assert!(pos.is_valid());
    assert_eq!(pos.turn, Side::Black);
    assert_eq!(pos.halfmoves, 7);
    assert_eq!(pos.fullmoves, 12);
    // a1: a single white rock
    assert_eq!(pos.get_side_on(Square(0)), Some(Side::White));
    assert_eq!(pos.get_piece_on(Layer::Lower, Square(0)), Some(Piece::Rock));
    assert_eq!(pos.get_piece_on(Layer::Upper, Square(0)), None);
    // a2: empty
    assert_eq!(pos.get_side_on(Square(1)), None);
    assert_eq!(pos.get_piece_on(Layer::Lower, Square(1)), None);
    // a4: white rock with a paper on top
    assert_eq!(pos.get_piece_on(Layer::Lower, Square(3)), Some(Piece::Rock));
    assert_eq!(pos.get_piece_on(Layer::Upper, Square(3)), Some(Piece::Paper));
    // g2: black scissors with a paper on top
    assert_eq!(pos.get_side_on(Square(40)), Some(Side::Black));
    assert_eq!(pos.get_piece_on(Layer::Lower, Square(40)), Some(Piece::Scissors));
    assert_eq!(pos.get_piece_on(Layer::Upper, Square(40)), Some(Piece::Paper));
    // f4: two black wise pieces
    assert_eq!(pos.get_piece_on(Layer::Lower, Square(35)), Some(Piece::Wise));
    assert_eq!(pos.get_piece_on(Layer::Upper, Square(35)), Some(Piece::Wise));
}

#[test]
fn counters_may_be_left_out_or_signed() {
    let pos = Position::from_fen("6/7/6/7/6/7/R-5 B");
    assert_eq!(pos.turn, Side::Black);
    assert_eq!(pos.halfmoves, 0);
    assert_eq!(pos.fullmoves, 1);
    let pos = Position::from_fen("6/7/6/7/6/7/R-5 W 5");
    assert_eq!(pos.turn, Side::White);
    assert_eq!(pos.halfmoves, 5);
    assert_eq!(pos.fullmoves, 1);
    let pos = Position::from_fen("6/7/6/7/6/7/R-5 w -12 +30 and more");
    assert_eq!(pos.halfmoves, -12);
    assert_eq!(pos.fullmoves, 30);
    assert_eq!(pos.get_fen(), "6/7/6/7/6/7/R-5 w -12 30");
    let pos = Position::from_fen("6/7/6/7/6/7/R-5 w 2147483647 -2147483648");
    assert_eq!(pos.halfmoves, i32::MAX);
    assert_eq!(pos.fullmoves, i32::MIN);
    assert_eq!(pos.get_fen(), "6/7/6/7/6/7/R-5 w 2147483647 -2147483648");
}

#[test]
fn other_spellings_of_a_board_are_read_and_written_back_in_one_form() {
    // Empty cells one by one, a row passed over in two steps, an open last cell.
    let pos = Position::from_fen("111111/43/6/7/6/7/RPR w 0 1");
    assert_eq!(pos.get_fen(), "6/7/6/7/6/7/RPR-4 w 0 1");
    let pos = Position::from_fen("R-----/7/6/7/6/7/6 w 0 1");
    assert_eq!(pos.get_fen(), "R-5/7/6/7/6/7/6 w 0 1");
    let mut pos = Position::empty();
    pos.set_fen("6/7/6/3ww3/6/7/6 b 3 4");
    assert_eq!(pos.get_fen(), "6/7/6/3ww3/6/7/6 b 3 4");
}

#[test]
fn texts_that_describe_no_position() {
    let bad = [
        "",
        "startpos ",
        "6/7/6/7/6/7/6",
        "6/7/6/7/6/7/6 ",
        "6/7/6/7/6/7/6 x 0 1",
        "6/7/6/7/6/7/6 ww 0 1",
        "6/7/6/7/6/7/6  w 0 1",
        "6/7/6/7/6/7/6 w  0 1",
        "6/7/6/7/6/7/6 w 0 ",
        "6/7/6/7/6/7/6 w x 1",
        "6/7/6/7/6/7/6 w 0 1x",
        "6/7/6/7/6/7/6 w - 1",
        "6/7/6/7/6/7/6 w 2147483648 1",
        "6/7/6/7/6/7/6 w 0 -2147483649",
        "6/7/6/7/6/7/6 w 99999999999999999999999 1",
        // An unknown character on the board
        "6/7/6/7/6/7/5x w 0 1",
        "6/7/6/7/6/7/8 w 0 1",
        "6/7/6/7/6/7/0 w 0 1",
        // A piece beyond the end of its row, or below the last row
        "6R-/7/6/7/6/7/6 w 0 1",
        "7/7R-/6/7/6/7/6 w 0 1",
        "6/7/6/7/6/7/6/R- w 0 1",
        // Two sides in one cell
        "Rr5/7/6/7/6/7/6 w 0 1",
        // A wise piece on top of another kind
        "RW5/7/6/7/6/7/6 w 0 1",
        "pw5/7/6/7/6/7/6 w 0 1",
    ];
    for fen in bad {
        assert!(Position::try_from_fen(fen).is_none(), "{:?}", fen);
    }
    let pos = Position::try_from_fen("wr5/7/6/7/6/7/WW5 b 1 2").unwrap();
    assert_eq!(pos.get_fen(), "wr5/7/6/7/6/7/WW5 b 1 2");
    assert!(Position::try_from_fen("7/7/7/7/7/7/7 w 0 1").is_some());
}
