use pijersi::bitboard::Bitboard;
use pijersi::position::Position;
use pijersi::side::Side;

#[test]
fn picture_of_the_starting_position() {
    let expected = "\
\x20   s.  p.  r.  s.  p.  r.
  p.  r.  s.  ww  r.  s.  p.
    ..  ..  ..  ..  ..  ..
  ..  ..  ..  ..  ..  ..  ..
    ..  ..  ..  ..  ..  ..
  P.  S.  R.  WW  S.  R.  P.
    R.  P.  S.  R.  P.  S.
Turn: white
Halfmoves: 0
";
    assert_eq!(Position::from_fen("startpos").to_string(), expected);
}

#[test]
fn picture_of_stacks_and_counters() {
    let expected = "\
\x20   ..  ..  ..  ..  ..  sr
  ..  ..  ..  ..  ..  ..  ..
    ..  ..  ..  ..  ..  ..
  ..  ..  ..  ..  ..  ..  ..
    ..  ..  ..  ..  ..  ..
  ..  ..  ..  ..  ..  ..  WP
    ..  ..  ..  ..  ..  ..
Turn: black
Halfmoves: -3
";
    assert_eq!(Position::from_fen("5sr/7/6/7/6/6WP/6 b -3 1").to_string(), expected);
}

#[test]
fn picture_of_a_set() {
    let expected = "\
\x20 0 0 0 0 0 1
 0 0 0 0 0 0 0
  0 0 0 0 0 0
 0 0 0 1 0 0 0
  0 0 0 0 0 0
 1 0 0 0 0 0 0
  1 0 0 0 0 0
";
    let bb = Bitboard((1u64 << 44) | (1u64 << 22) | (1u64 << 6) | 1u64);
    assert_eq!(bb.to_string(), expected);
    assert_eq!(Bitboard::default(), Bitboard(0));
}

#[test]
fn default_position() {
    let pos = Position::default();
    assert!(pos.is_valid());
    assert_eq!(pos.turn, Side::White);
    assert_eq!(pos.halfmoves, 0);
    assert_eq!(pos.fullmoves, 0);
    assert_eq!(pos.get_fen(), "6/7/6/7/6/7/6 w 0 0");
    let pos = Position::empty();
    assert_eq!(pos.get_fen(), "6/7/6/7/6/7/6 w 0 1");
    assert!(pos.get_occupied().is_empty());
    assert!(pos.legal_moves().is_empty());
}

#[test]
fn derived_sets_of_a_position() {
    let pos = Position::from_fen(
        "srp-r-s-2/p-1s-1r-1p-/4p-1/1RPw-3sr/2w-1RSP-/P-2WWS-2/R-S-S-1PR1 w 0 1",
    );
    assert_eq!(pos.get_us(), pos.get_white());
    assert_eq!(pos.get_them(), pos.get_black());
    assert_eq!(pos.get_white() & pos.get_black(), Bitboard(0));
    assert_eq!(pos.get_white() | pos.get_black(), pos.get_occupied());
    assert_eq!(pos.get_occupied(), pos.get_lower());
    assert_eq!(pos.get_tall(), pos.get_upper());
    assert_eq!(pos.get_short() | pos.get_tall(), pos.get_lower());
    assert_eq!(pos.get_short() & pos.get_tall(), Bitboard(0));
    assert_eq!(pos.get_rock() | pos.get_paper() | pos.get_scissors(), pos.get_rps());
    assert_eq!(pos.get_rps() | pos.get_wise(), pos.get_lower());
    // White: a1 rock, a2 scissors, a3 scissors, a5 paper with a rock on it,
    // b1 paper, b4 two wise, b5 scissors, c4 rock with scissors, c5 paper,
    // d2 rock with paper.
    assert_eq!(pos.get_white().count(), 10);
    assert_eq!(pos.get_tall().count(), 6);
    assert_eq!(pos.get_white().squares()[0].to_string(), "a1");
    let visible_rock = pos.get_visible(pijersi::position::Piece::Rock);
    let names: Vec<String> = visible_rock.squares().iter().map(|sq| sq.to_string()).collect();
    assert_eq!(names, ["a1", "a5", "d7", "f5", "g1", "g3"]);
    let visible_wise = pos.get_visible(pijersi::position::Piece::Wise);
    let names: Vec<String> = visible_wise.squares().iter().map(|sq| sq.to_string()).collect();
    assert_eq!(names, ["b4", "c3", "d3"]);
}
