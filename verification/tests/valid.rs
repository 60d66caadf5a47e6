use pijersi::bitboard::Bitboard;
use pijersi::layer::Layer;
use pijersi::mv::Mv;
use pijersi::position::{Piece, Position};
use pijersi::side::Side;
use pijersi::square::Square;

const ROCK: usize = 0;
const PAPER: usize = 1;
const WISE: usize = 3;
const LOWER: usize = 0;
const UPPER: usize = 1;
const WHITE: usize = 0;
const BLACK: usize = 1;

fn with_white_rock_on_a1() -> Position {
    let mut pos = Position::empty();
    pos.sides[WHITE] = Bitboard(0x1);
    pos.pieces[ROCK][LOWER] = Bitboard(0x1);
    pos
}

#[test]
fn a_position_put_together_by_hand_can_be_valid() {
    let pos = with_white_rock_on_a1();
    assert!(pos.is_valid());
    assert_eq!(pos.get_fen(), "6/7/6/7/6/7/R-5 w 0 1");
    assert_eq!(Piece::Rock.index(), ROCK);
    assert_eq!(Piece::Paper.index(), PAPER);
    assert_eq!(Piece::Scissors.index(), 2);
    assert_eq!(Piece::Wise.index(), WISE);
    assert_eq!(Layer::Lower.index(), LOWER);
    assert_eq!(Side::White.index(), WHITE);
}

#[test]
fn each_broken_invariant_is_found() {
    // A cell of both sides
    let mut pos = with_white_rock_on_a1();
    pos.sides[BLACK] = Bitboard(0x1);
    assert!(!pos.is_valid());

    // Two kinds at the bottom of one cell
    let mut pos = with_white_rock_on_a1();
    pos.pieces[PAPER][LOWER] = Bitboard(0x1);
    assert!(!pos.is_valid());

    // Two kinds on top of one cell
    let mut pos = with_white_rock_on_a1();
    pos.pieces[ROCK][UPPER] = Bitboard(0x1);
    assert!(pos.is_valid());
    pos.pieces[PAPER][UPPER] = Bitboard(0x1);
    assert!(!pos.is_valid());

    // A piece on top of nothing
    let mut pos = with_white_rock_on_a1();
    pos.pieces[PAPER][UPPER] = Bitboard(0x2);
    assert!(!pos.is_valid());

    // A wise piece on top of a rock
    let mut pos = with_white_rock_on_a1();
    pos.pieces[WISE][UPPER] = Bitboard(0x1);
    assert!(!pos.is_valid());

    // A wise piece on top of a wise piece
    let mut pos = Position::empty();
    pos.sides[BLACK] = Bitboard(0x1);
    pos.pieces[WISE][LOWER] = Bitboard(0x1);
    pos.pieces[WISE][UPPER] = Bitboard(0x1);
    assert!(pos.is_valid());

    // A piece of no side
    let mut pos = with_white_rock_on_a1();
    pos.pieces[PAPER][LOWER] = Bitboard(0x2);
    assert!(!pos.is_valid());

    // A side without a piece
    let mut pos = with_white_rock_on_a1();
    pos.sides[BLACK] = Bitboard(0x2);
    assert!(!pos.is_valid());

    // A cell beyond the board
    let mut pos = with_white_rock_on_a1();
    pos.sides[WHITE] = Bitboard(0x1 | (1u64 << 45));
    pos.pieces[ROCK][LOWER] = Bitboard(0x1 | (1u64 << 45));
    assert!(!pos.is_valid());
}

#[test]
fn the_cells_that_moves_build_on() {
    let mut pos = Position::empty();
    pos.place(Square(3), Side::Black, Piece::Scissors);
    assert_eq!(pos.get_fen(), "6/7/6/7/6/7/3s-2 w 0 1");
    pos.stack_on(Square(3), Piece::Paper);
    assert_eq!(pos.get_fen(), "6/7/6/7/6/7/3sp2 w 0 1");
    assert!(pos.is_valid());
    pos.place(Square(44), Side::White, Piece::Wise);
    pos.clear(Square(3));
    pos.clear(Square(4));
    assert_eq!(pos.get_fen(), "5W-/7/6/7/6/7/6 w 0 1");
    assert!(pos.is_valid());
}

#[test]
fn a_move_between_distant_cells_is_not_legal() {
    let pos = Position::from_fen("s-5/7/6/7/6/7/R-5 w 0 1");
    let moves = pos.legal_moves();
    assert_eq!(
        moves,
        [
            Mv::SoloMove(Square(0), Square(1)),
            Mv::SoloMove(Square(0), Square(6)),
            Mv::SoloMove(Square(0), Square(7)),
        ]
    );
    assert_eq!(pos.find_move("a1c1"), None);
    assert_eq!(pos.find_move("a1g1"), None);
}
