use pijersi::layer::Layer;
use pijersi::side::Side;
use pijersi::square::Square;

#[test]
fn coords() {
    // a1 a2 a3
    assert_eq!(Square::from_coords(0, 0), Square(0));
    assert_eq!(Square::from_coords(1, 0), Square(1));
    assert_eq!(Square::from_coords(2, 0), Square(2));
    // b1 b2 b3
    assert_eq!(Square::from_coords(0, 1), Square(6));
    assert_eq!(Square::from_coords(1, 1), Square(7));
    assert_eq!(Square::from_coords(2, 1), Square(8));
    // c1 c2 c3
    assert_eq!(Square::from_coords(0, 2), Square(13));
    assert_eq!(Square::from_coords(1, 2), Square(14));
    assert_eq!(Square::from_coords(2, 2), Square(15));
}

#[test]
fn files() {
    assert_eq!(Square(0).file(), 0);
    assert_eq!(Square(1).file(), 1);
    assert_eq!(Square(5).file(), 5);
    assert_eq!(Square(6).file(), 0);
}

#[test]
fn ranks() {
    assert_eq!(Square(0).rank(), 0);
    assert_eq!(Square(1).rank(), 0);
    assert_eq!(Square(5).rank(), 0);
    assert_eq!(Square(6).rank(), 1);
}

#[test]
fn string() {
    assert_eq!(Square(0).to_string(), "a1");
    assert_eq!(Square(1).to_string(), "a2");
    assert_eq!(Square(5).to_string(), "a6");
    assert_eq!(Square(6).to_string(), "b1");
    assert_eq!(Square(22).to_string(), "d4");
    assert_eq!(Square(43).to_string(), "g5");
    assert_eq!(Square(44).to_string(), "g6");
}

#[test]
fn coords_round_trip_on_every_cell() {
    let mut seen = 0;
    for y in 0..7 {
        for x in 0..6 + y % 2 {
            let sq = Square::from_coords(x, y);
            assert_eq!(sq.0, seen);
            assert_eq!(sq.file(), x);
            assert_eq!(sq.rank(), y);
            seen += 1;
        }
    }
    assert_eq!(seen, 45);
    assert_eq!(Square(12).to_string(), "b7");
    assert_eq!(Square(38).to_string(), "f7");
}

#[test]
fn sides_and_layers() {
    assert_eq!(!Side::White, Side::Black);
    assert_eq!(!Side::Black, Side::White);
    assert_eq!(Side::default(), Side::White);
    assert_eq!(Side::White.to_string(), "white");
    assert_eq!(Side::Black.to_string(), "black");
    assert_eq!(Side::Black.index(), 1);
    assert_eq!(!Layer::Lower, Layer::Upper);
    assert_eq!(!Layer::Upper, Layer::Lower);
    assert_eq!(Layer::Lower.to_string(), "lower");
    assert_eq!(Layer::Upper.to_string(), "upper");
    assert_eq!(Layer::Upper.index(), 1);
}
