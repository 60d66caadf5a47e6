use pijersi::bitboard::{Bitboard, Bitmasks};
use pijersi::square::Square;

#[test]
fn bitor() {
    assert_eq!(Bitboard(0x0) | Bitboard(0x0), Bitboard(0x0));
    assert_eq!(Bitboard(0x0) | Bitboard(0x1), Bitboard(0x1));
    assert_eq!(Bitboard(0x1) | Bitboard(0x2), Bitboard(0x3));
}

#[test]
fn bitxor() {
    assert_eq!(Bitboard(0x0) ^ Bitboard(0x0), Bitboard(0x0));
    assert_eq!(Bitboard(0x0) ^ Bitboard(0x1), Bitboard(0x1));
    assert_eq!(Bitboard(0x1) ^ Bitboard(0x2), Bitboard(0x3));
}

#[test]
fn left() {
    let tests = [
        (Bitboard(0x0), Bitboard(0x0)),
        (Bitboard(1u64 << 22), Bitboard(1u64 << 21)),
        (Bitboard(0x1fffffffffffu64), Bitboard(0xfbf7dfbefdfu64)),
        // Left edge wrap
        (Bitboard(1u64 << 0), Bitboard(0x0)),
        (Bitboard(1u64 << 6), Bitboard(0x0)),
        (Bitboard(1u64 << 13), Bitboard(0x0)),
        (Bitboard(1u64 << 19), Bitboard(0x0)),
        (Bitboard(1u64 << 26), Bitboard(0x0)),
        (Bitboard(1u64 << 32), Bitboard(0x0)),
        (Bitboard(1u64 << 39), Bitboard(0x0)),
    ];

    for (a, b) in tests {
        assert_eq!(a.left(), b);
    }
}

#[test]
fn up_left() {
    let tests = [
        (Bitboard(0x0), Bitboard(0x0)),
        (Bitboard(1u64 << 22), Bitboard(1u64 << 28)),
        (Bitboard(0x1fffffffffffu64), Bitboard(0x1fbffdffefc0u64)),
        // Left edge wrap
        (Bitboard(1u64 << 0), Bitboard(1u64 << 6)),
        (Bitboard(1u64 << 6), Bitboard(0x0)),
        (Bitboard(1u64 << 13), Bitboard(1u64 << 19)),
        (Bitboard(1u64 << 19), Bitboard(0x0)),
        (Bitboard(1u64 << 26), Bitboard(1u64 << 32)),
        (Bitboard(1u64 << 32), Bitboard(0x0)),
        (Bitboard(1u64 << 39), Bitboard(0x0)),
    ];

    for (a, b) in tests {
        assert_eq!(a.up_left(), b);
    }
}

#[test]
fn down_left() {
    let tests = [
        (Bitboard(0x0), Bitboard(0x0)),
        (Bitboard(1u64 << 22), Bitboard(1u64 << 15)),
        (Bitboard(0x1fffffffffffu64), Bitboard(0x3ffdffefffu64)),
        // Left edge wrap
        (Bitboard(1u64 << 0), Bitboard(0x0)),
        (Bitboard(1u64 << 6), Bitboard(0x0)),
        (Bitboard(1u64 << 13), Bitboard(1u64 << 6)),
        (Bitboard(1u64 << 19), Bitboard(0x0)),
        (Bitboard(1u64 << 26), Bitboard(1u64 << 19)),
        (Bitboard(1u64 << 32), Bitboard(0x0)),
        (Bitboard(1u64 << 39), Bitboard(1u64 << 32)),
    ];

    for (a, b) in tests {
        assert_eq!(a.down_left(), b);
    }
}

#[test]
fn up_right() {
    let tests = [
        (Bitboard(0x0), Bitboard(0x0)),
        (Bitboard(1u64 << 22), Bitboard(1u64 << 29)),
        (Bitboard(0x1fffffffffffu64), Bitboard(0x1ffefff7ff80u64)),
        // Right edge wrap
        (Bitboard(1u64 << 5), Bitboard(1u64 << 12)),
        (Bitboard(1u64 << 12), Bitboard(0x0)),
        (Bitboard(1u64 << 18), Bitboard(1u64 << 25)),
        (Bitboard(1u64 << 25), Bitboard(0x0)),
        (Bitboard(1u64 << 31), Bitboard(1u64 << 38)),
        (Bitboard(1u64 << 38), Bitboard(0x0)),
        (Bitboard(1u64 << 44), Bitboard(0x0)),
    ];

    for (a, b) in tests {
        assert_eq!(a.up_right(), b);
    }
}

#[test]
fn down_right() {
    let tests = [
        (Bitboard(0x0), Bitboard(0x0)),
        (Bitboard(1u64 << 22), Bitboard(1u64 << 16)),
        (Bitboard(0x1fffffffffffu64), Bitboard(0x7efff7ffbfu64)),
        // Right edge wrap
        (Bitboard(1u64 << 5), Bitboard(0x0)),
        (Bitboard(1u64 << 12), Bitboard(0x0)),
        (Bitboard(1u64 << 18), Bitboard(1u64 << 12)),
        (Bitboard(1u64 << 25), Bitboard(0x0)),
        (Bitboard(1u64 << 31), Bitboard(1u64 << 25)),
        (Bitboard(1u64 << 38), Bitboard(0x0)),
        (Bitboard(1u64 << 44), Bitboard(1u64 << 38)),
    ];

    for (a, b) in tests {
        assert_eq!(a.down_right(), b);
    }
}

#[test]
fn adjacent() {
    let tests = [
        (Bitboard(0x0), Bitboard(0x0)),
        (Bitboard(1u64 << 22), Bitboard(0x30a18000u64)),
    ];

    for (a, b) in tests {
        assert_eq!(a.adjacent(), b);
    }
}

#[test]
fn right_moves_one_cell_and_stops_at_the_edge() {
    assert_eq!(Bitboard(0x0).right(), Bitboard(0x0));
    assert_eq!(Bitboard(1u64 << 22).right(), Bitboard(1u64 << 23));
    assert_eq!(Bitboard(0x1fffffffffffu64).right(), Bitboard(0x1f7efbf7dfbeu64));
    for edge in [5u64, 12, 18, 25, 31, 38, 44] {
        assert_eq!(Bitboard(1u64 << edge).right(), Bitboard(0x0));
    }
}

#[test]
fn bitand_and_complement() {
    assert_eq!(Bitboard(0x3) & Bitboard(0x6), Bitboard(0x2));
    assert_eq!(!Bitboard(0x0), Bitboard(0x1fffffffffffu64));
    assert_eq!(!Bitboard(0x1fffffffffffu64), Bitboard(0x0));
    assert_eq!(!Bitboard(0x1), Bitboard(0x1ffffffffffeu64));
}

#[test]
fn assigning_operators() {
    let mut bb = Bitboard(0x1);
    bb |= Bitboard(0x2);
    assert_eq!(bb, Bitboard(0x3));
    bb ^= Bitboard(0x6);
    assert_eq!(bb, Bitboard(0x5));
    bb &= Bitboard(0x4);
    assert_eq!(bb, Bitboard(0x4));
}

#[test]
fn doubles_jumps_over_free_cells_only() {
    let centre = Bitboard(1u64 << 22);
    // Two steps in each of the six directions from d4.
    let expected = (1u64 << 20) | (1u64 << 24) | (1u64 << 34) | (1u64 << 36) | (1u64 << 8)
        | (1u64 << 10);
    assert_eq!(centre.doubles(Bitboard(0x0)), Bitboard(expected));
    // A piece directly to the left blocks the jump to the left only.
    let blocked = centre.doubles(Bitboard(1u64 << 21));
    assert_eq!(blocked, Bitboard(expected & !(1u64 << 20)));
    // Blocked on all sides: no jump.
    assert_eq!(centre.doubles(centre.adjacent()), Bitboard(0x0));
    // From the corner only two jumps stay on the board.
    assert_eq!(Bitboard(0x1).doubles(Bitboard(0x0)), Bitboard((1u64 << 2) | (1u64 << 14)));
}

#[test]
fn count_lsb_and_membership() {
    assert_eq!(Bitboard::empty().count(), 0);
    assert_eq!(Bitboard::all().count(), 45);
    assert_eq!(Bitboard(0b1011_0000).count(), 3);
    assert_eq!(Bitboard(0b1011_0000).lsb(), Square(4));
    assert_eq!(Bitboard::empty().lsb(), Square(64));
    assert!(Bitboard::empty().is_empty());
    assert!(!Bitboard::empty().is_occupied());
    assert!(Bitboard(0x10).is_occupied());
    assert!(Bitboard(0x10).is_set(&Square(4)));
    assert!(!Bitboard(0x10).is_set(&Square(5)));
    assert_eq!(Bitboard::from_square(&Square(44)), Bitboard(1u64 << 44));
    assert_eq!(Bitboard::from_idx(&7), Bitboard(1u64 << 7));
}

#[test]
fn squares_come_out_in_ascending_order() {
    assert_eq!(Bitboard(0x0).squares(), vec![]);
    assert_eq!(
        Bitboard((1u64 << 44) | (1u64 << 3) | (1u64 << 17)).squares(),
        vec![Square(3), Square(17), Square(44)]
    );
    let mut bb = Bitboard(0b110);
    assert_eq!(bb.pop_lsb(), Square(1));
    assert_eq!(bb, Bitboard(0b100));
}

#[test]
fn masks_name_the_rows_and_edges() {
    assert_eq!(Bitmasks::All.bits(), 0x1fffffffffff);
    assert_eq!(Bitmasks::WhiteHome.board().squares().len(), 6);
    assert_eq!(Bitmasks::BlackHome.board().lsb(), Square(39));
    assert_eq!(Bitmasks::ShortRows.board() | Bitmasks::LongRows.board(), Bitboard::all());
    assert_eq!(Bitmasks::ShortRows.board() & Bitmasks::LongRows.board(), Bitboard::empty());
    assert_eq!(Bitmasks::Leftmost.board().count(), 7);
    assert_eq!(Bitmasks::Rightmost.board().count(), 7);
    assert!(Bitboard(0x3).is_subset_of(Bitboard(0x7)));
    assert!(!Bitboard(0x8).is_subset_of(Bitboard(0x7)));
    assert!(Bitboard(0x8).is_disjoint_from(Bitboard(0x7)));
    assert!(Bitboard(1u64 << 44).is_on_board());
    assert!(!Bitboard(1u64 << 45).is_on_board());
}
