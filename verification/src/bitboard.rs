use crate::bits::{
    bit, lemma_bit_and, lemma_bit_ext, lemma_bit_lowest, lemma_bit_not, lemma_bit_or, lemma_bit_shl,
    lemma_bit_shr, lemma_bit_single, lemma_bit_xor, lemma_bit_zero,
};
use crate::square::{
    is_row_end, is_row_start, lemma_step_offsets, rank_of, step, Direction, Square,
};
use core::ops::Not;
use vstd::prelude::*;

verus! {

/// A set of board cells, one bit per cell.
#[derive(Debug, Clone, Copy, PartialEq, Eq, Structural)]
pub struct Bitboard(pub u64);

/// Named cell sets of the board.
#[derive(Debug, Clone, Copy, PartialEq, Eq, Structural)]
pub enum Bitmasks {
    All,
    ShortRows,
    LongRows,
    Leftmost,
    Rightmost,
    WhiteHome,
    BlackHome,
}

impl Bitmasks {
    /// The mask as a machine word.
    pub open spec fn spec_bits(self) -> u64 {
        match self {
            Bitmasks::All => 0x1fffffffffff,
            Bitmasks::ShortRows => 0x1f80fc07e03f,
            Bitmasks::LongRows => 0x7f03f81fc0,
            Bitmasks::Leftmost => 0x8104082041,
            Bitmasks::Rightmost => 0x104082041020,
            Bitmasks::WhiteHome => 0x3f,
            Bitmasks::BlackHome => 0x1f8000000000,
        }
    }

    /// The cells that the mask names.
    pub open spec fn cells(self) -> Set<int> {
        match self {
            Bitmasks::All => Set::new(|i: int| 0 <= i < 45),
            Bitmasks::ShortRows => Set::new(|i: int| 0 <= i < 45 && rank_of(i) % 2 == 0),
            Bitmasks::LongRows => Set::new(|i: int| 0 <= i < 45 && rank_of(i) % 2 == 1),
            Bitmasks::Leftmost => Set::new(|i: int| is_row_start(i)),
            Bitmasks::Rightmost => Set::new(|i: int| is_row_end(i)),
            Bitmasks::WhiteHome => Set::new(|i: int| 0 <= i < 45 && rank_of(i) == 0),
            Bitmasks::BlackHome => Set::new(|i: int| 0 <= i < 45 && rank_of(i) == 6),
        }
    }

    /// The mask as a machine word.
    #[verifier::when_used_as_spec(spec_bits)]
    pub fn bits(self) -> (b: u64)
        ensures
            b == self.spec_bits(),
    {
        match self {
            Bitmasks::All => 0x1fffffffffff,
            Bitmasks::ShortRows => 0x1f80fc07e03f,
            Bitmasks::LongRows => 0x7f03f81fc0,
            Bitmasks::Leftmost => 0x8104082041,
            Bitmasks::Rightmost => 0x104082041020,
            Bitmasks::WhiteHome => 0x3f,
            Bitmasks::BlackHome => 0x1f8000000000,
        }
    }

    /// The mask as a cell set.
    pub fn board(self) -> (bb: Bitboard)
        ensures
            bb.0 == self.spec_bits(),
            bb@ == self.cells(),
            bb.wf(),
    {
        proof {
            lemma_mask_cells(self);
        }
        Bitboard(self.bits())
    }
}

/// The word of a mask holds the cells that the mask names, and no other bit.
pub proof fn lemma_mask_cells(m: Bitmasks)
    ensures
        Bitboard(m.spec_bits())@ == m.cells(),
        Bitboard(m.spec_bits()).wf(),
{
    let x = m.spec_bits();
    assert forall|i: int| bit(x, i) == m.cells().contains(i) by {
        if 0 <= i < 64 {
            let k = i as u64;
            assert(((0x1fffffffffffu64 >> k) & 1 == 1) == (k < 45)) by (bit_vector)
                requires
                    k < 64,
            ;
            assert(((0x1f80fc07e03fu64 >> k) & 1 == 1) == (k < 6 || 13 <= k < 19 || 26 <= k < 32
                || 39 <= k < 45)) by (bit_vector)
                requires
                    k < 64,
            ;
            assert(((0x7f03f81fc0u64 >> k) & 1 == 1) == (6 <= k < 13 || 19 <= k < 26 || 32 <= k
                < 39)) by (bit_vector)
                requires
                    k < 64,
            ;
            assert(((0x8104082041u64 >> k) & 1 == 1) == (k == 0 || k == 6 || k == 13 || k == 19
                || k == 26 || k == 32 || k == 39)) by (bit_vector)
                requires
                    k < 64,
            ;
            assert(((0x104082041020u64 >> k) & 1 == 1) == (k == 5 || k == 12 || k == 18 || k
                == 25 || k == 31 || k == 38 || k == 44)) by (bit_vector)
                requires
                    k < 64,
            ;
            assert(((0x3fu64 >> k) & 1 == 1) == (k < 6)) by (bit_vector)
                requires
                    k < 64,
            ;
            assert(((0x1f8000000000u64 >> k) & 1 == 1) == (39 <= k < 45)) by (bit_vector)
                requires
                    k < 64,
            ;
        }
    }
    assert(Bitboard(x)@ =~= m.cells());
}

impl View for Bitboard {
    type V = Set<int>;

    /// The cells of the set, by linear index.
    open spec fn view(&self) -> Set<int> {
        Set::new(|i: int| self.has(i))
    }
}

/// The cells one step in direction `dir` from a cell of `s`.
pub open spec fn shifted(s: Set<int>, dir: Direction) -> Set<int> {
    Set::new(
        |j: int|
            match step(j, dir.opposite()) {
                Some(i) => s.contains(i),
                None => false,
            },
    )
}

/// The cells one step in any direction from a cell of `s`.
pub open spec fn neighbours(s: Set<int>) -> Set<int> {
    shifted(s, Direction::Left) + shifted(s, Direction::Right) + shifted(s, Direction::UpLeft)
        + shifted(s, Direction::UpRight) + shifted(s, Direction::DownLeft) + shifted(
        s,
        Direction::DownRight,
    )
}

/// The cells two steps in direction `dir` from a cell of `s`, where the cell in
/// between is not in `blockers`.
pub open spec fn jumped(s: Set<int>, blockers: Set<int>, dir: Direction) -> Set<int> {
    shifted(shifted(s, dir).difference(blockers), dir)
}

/// The cells two steps in one direction from a cell of `s`, past a cell that is
/// not in `blockers`.
pub open spec fn jumps(s: Set<int>, blockers: Set<int>) -> Set<int> {
    jumped(s, blockers, Direction::Left) + jumped(s, blockers, Direction::Right) + jumped(
        s,
        blockers,
        Direction::UpLeft,
    ) + jumped(s, blockers, Direction::UpRight) + jumped(s, blockers, Direction::DownLeft)
        + jumped(s, blockers, Direction::DownRight)
}

impl Bitboard {
    /// Whether cell `i` is in the set.
    #[verifier::inline]
    pub open spec fn has(&self, i: int) -> bool {
        bit(self.0, i)
    }

    /// No bit beyond the 45 cells is set.
    pub open spec fn wf(&self) -> bool {
        forall|i: int| 45 <= i < 64 ==> !self.has(i)
    }

    /// The set without a cell.
    #[must_use]
    pub fn empty() -> (bb: Self)
        ensures
            bb.0 == 0,
            bb@ == Set::<int>::empty(),
            bb.wf(),
    {
        proof {
            lemma_bit_zero();
            assert(Bitboard(0)@ =~= Set::<int>::empty());
        }
        Bitboard(0)
    }

    /// The set of all 45 cells.
    #[must_use]
    pub fn all() -> (bb: Self)
        ensures
            bb@ == Set::new(|i: int| 0 <= i < 45),
            bb.wf(),
    {
        Bitmasks::All.board()
    }

    /// The set of the one cell `sq`.
    #[must_use]
    pub fn from_square(sq: &Square) -> (bb: Self)
        requires
            sq.0 < 64,
        ensures
            bb@ == set![sq.0 as int],
            sq.wf() ==> bb.wf(),
    {
        proof {
            lemma_bit_single(sq.0 as u64);
            assert(Bitboard(1u64 << sq.0)@ =~= set![sq.0 as int]);
        }
        Bitboard(1u64 << sq.0)
    }

    /// The set of the one cell with linear index `idx`.
    #[must_use]
    pub fn from_idx(idx: &i32) -> (bb: Self)
        requires
            0 <= *idx < 64,
        ensures
            bb@ == set![*idx as int],
            *idx < 45 ==> bb.wf(),
    {
        proof {
            lemma_bit_single(*idx as u64);
            assert(Bitboard(1u64 << *idx)@ =~= set![*idx as int]);
        }
        Bitboard(1u64 << *idx)
    }

    /// Whether the set has no cell.
    #[must_use]
    pub fn is_empty(&self) -> (b: bool)
        ensures
            b == (self@ == Set::<int>::empty()),
            b == (self.0 == 0),
    {
        proof {
            lemma_bit_zero();
            if self.0 != 0 {
                lemma_bit_lowest(self.0);
                assert(self@.contains(vstd::std_specs::bits::u64_trailing_zeros(self.0) as int));
            } else {
                assert(self@ =~= Set::<int>::empty());
            }
        }
        self.0 == 0
    }

    /// Whether the set has a cell.
    #[must_use]
    pub fn is_occupied(&self) -> (b: bool)
        ensures
            b == (self@ != Set::<int>::empty()),
            b == (self.0 != 0),
    {
        !self.is_empty()
    }

    /// Whether the cell `sq` is in the set.
    #[must_use]
    pub fn is_set(&self, sq: &Square) -> (b: bool)
        requires
            sq.0 < 64,
        ensures
            b == self@.contains(sq.0 as int),
    {
        ((self.0 >> sq.0) & 1) == 1
    }

    /// The lowest cell of the set; square 64 when the set is empty.
    #[must_use]
    pub fn lsb(&self) -> (sq: Square)
        ensures
            self@ == Set::<int>::empty() ==> sq.0 == 64,
            self@ != Set::<int>::empty() ==> self@.contains(sq.0 as int) && forall|i: int|
                self@.contains(i) ==> sq.0 <= i,
            self.wf() && self@ != Set::<int>::empty() ==> sq.wf(),
    {
        proof {
            vstd::std_specs::bits::axiom_u64_trailing_zeros(self.0);
            lemma_bit_zero();
            if self.0 != 0 {
                lemma_bit_lowest(self.0);
                assert(self@.contains(vstd::std_specs::bits::u64_trailing_zeros(self.0) as int));
            } else {
                assert(self@ =~= Set::<int>::empty());
            }
        }
        Square(self.0.trailing_zeros() as u8)
    }
}

/// Complement within the board.
impl core::ops::Not for Bitboard {
    type Output = Self;

    fn not(self) -> (r: Self)
        ensures
            r@ == Bitmasks::All.cells().difference(self@),
            r.wf(),
    {
        proof {
            lemma_bit_not(self.0);
            lemma_bit_and(!self.0, Bitmasks::All.spec_bits());
            lemma_mask_cells(Bitmasks::All);
            let r = Bitboard(!self.0 & Bitmasks::All.spec_bits());
            assert(r@ =~= Bitmasks::All.cells().difference(self@));
        }
        Bitboard(!self.0 & Bitmasks::All.bits())
    }
}

impl vstd::std_specs::ops::NotSpecImpl for Bitboard {
    open spec fn obeys_not_spec() -> bool {
        true
    }

    open spec fn not_req(self) -> bool {
        true
    }

    open spec fn not_spec(self) -> Self::Output {
        Bitboard(!self.0 & Bitmasks::All.spec_bits())
    }
}

/// Intersection.
impl core::ops::BitAnd for Bitboard {
    type Output = Self;

    fn bitand(self, rhs: Self) -> (r: Self)
        ensures
            r@ == self@.intersect(rhs@),
            self.wf() || rhs.wf() ==> r.wf(),
    {
        proof {
            lemma_bit_and(self.0, rhs.0);
            assert(Bitboard(self.0 & rhs.0)@ =~= self@.intersect(rhs@));
        }
        Bitboard(self.0 & rhs.0)
    }
}

impl vstd::std_specs::ops::BitAndSpecImpl for Bitboard {
    open spec fn obeys_bitand_spec() -> bool {
        true
    }

    open spec fn bitand_req(self, rhs: Self) -> bool {
        true
    }

    open spec fn bitand_spec(self, rhs: Self) -> Self::Output {
        Bitboard(self.0 & rhs.0)
    }
}

/// Union.
impl core::ops::BitOr for Bitboard {
    type Output = Self;

    fn bitor(self, rhs: Self) -> (r: Self)
        ensures
            r@ == self@.union(rhs@),
            self.wf() && rhs.wf() ==> r.wf(),
    {
        proof {
            lemma_bit_or(self.0, rhs.0);
            assert(Bitboard(self.0 | rhs.0)@ =~= self@.union(rhs@));
        }
        Bitboard(self.0 | rhs.0)
    }
}

impl vstd::std_specs::ops::BitOrSpecImpl for Bitboard {
    open spec fn obeys_bitor_spec() -> bool {
        true
    }

    open spec fn bitor_req(self, rhs: Self) -> bool {
        true
    }

    open spec fn bitor_spec(self, rhs: Self) -> Self::Output {
        Bitboard(self.0 | rhs.0)
    }
}

/// Symmetric difference.
impl core::ops::BitXor for Bitboard {
    type Output = Self;

    fn bitxor(self, rhs: Self) -> (r: Self)
        ensures
            r@ == self@.difference(rhs@).union(rhs@.difference(self@)),
            self.wf() && rhs.wf() ==> r.wf(),
    {
        proof {
            lemma_bit_xor(self.0, rhs.0);
            assert(Bitboard(self.0 ^ rhs.0)@ =~= self@.difference(rhs@).union(
                rhs@.difference(self@),
            ));
        }
        Bitboard(self.0 ^ rhs.0)
    }
}

impl vstd::std_specs::ops::BitXorSpecImpl for Bitboard {
    open spec fn obeys_bitxor_spec() -> bool {
        true
    }

    open spec fn bitxor_req(self, rhs: Self) -> bool {
        true
    }

    open spec fn bitxor_spec(self, rhs: Self) -> Self::Output {
        Bitboard(self.0 ^ rhs.0)
    }
}

impl core::ops::BitOrAssign for Bitboard {
    fn bitor_assign(&mut self, rhs: Self)
        ensures
            final(self)@ == old(self)@.union(rhs@),
            final(self).0 == old(self).0 | rhs.0,
    {
        *self = *self | rhs;
    }
}

impl core::ops::BitXorAssign for Bitboard {
    fn bitxor_assign(&mut self, rhs: Self)
        ensures
            final(self)@ == old(self)@.difference(rhs@).union(rhs@.difference(old(self)@)),
            final(self).0 == old(self).0 ^ rhs.0,
    {
        *self = *self ^ rhs;
    }
}

impl core::ops::BitAndAssign for Bitboard {
    fn bitand_assign(&mut self, rhs: Self)
        ensures
            final(self)@ == old(self)@.intersect(rhs@),
            final(self).0 == old(self).0 & rhs.0,
    {
        *self = *self & rhs;
    }
}

/// The change of the linear index that a step in direction `dir` makes.
pub open spec fn step_offset(dir: Direction) -> int {
    match dir {
        Direction::Left => -1,
        Direction::Right => 1,
        Direction::UpLeft => 6,
        Direction::UpRight => 7,
        Direction::DownLeft => -7,
        Direction::DownRight => -6,
    }
}

/// Whether no step in direction `dir` ends on cell `j`, because the cell that
/// lies the offset of the step before it is in another row than a step allows.
pub open spec fn step_barred(dir: Direction, j: int) -> bool {
    match dir {
        Direction::Left => is_row_end(j),
        Direction::Right => is_row_start(j),
        Direction::UpLeft | Direction::DownLeft => j == 12 || j == 25 || j == 38,
        Direction::UpRight | Direction::DownRight => j == 6 || j == 19 || j == 32,
    }
}

/// The cells of the board that lie the offset of a step in direction `dir`
/// after a member of `s`, but for the cells on which no such step ends. For a
/// set on the board these are the cells one step from it.
pub open spec fn slid(s: Set<int>, dir: Direction) -> Set<int> {
    Set::new(|j: int| 0 <= j < 45 && !step_barred(dir, j) && s.contains(j - step_offset(dir)))
}

/// The cells that `slid` gives for any of the six directions.
pub open spec fn slid_any(s: Set<int>) -> Set<int> {
    slid(s, Direction::Left) + slid(s, Direction::Right) + slid(s, Direction::UpLeft) + slid(
        s,
        Direction::UpRight,
    ) + slid(s, Direction::DownLeft) + slid(s, Direction::DownRight)
}

/// The cells that `slid` gives twice in direction `dir`, the first time onto a
/// cell outside `blockers`.
pub open spec fn slid_twice(s: Set<int>, blockers: Set<int>, dir: Direction) -> Set<int> {
    slid(slid(s, dir).difference(blockers), dir)
}

/// The cells that `slid_twice` gives for any of the six directions.
pub open spec fn slid_twice_any(s: Set<int>, blockers: Set<int>) -> Set<int> {
    slid_twice(s, blockers, Direction::Left) + slid_twice(s, blockers, Direction::Right)
        + slid_twice(s, blockers, Direction::UpLeft) + slid_twice(
        s,
        blockers,
        Direction::UpRight,
    ) + slid_twice(s, blockers, Direction::DownLeft) + slid_twice(
        s,
        blockers,
        Direction::DownRight,
    )
}

/// For a set on the board, the cells that lie the offset of a step after it are
/// the cells one step from it.
pub proof fn lemma_slid_is_shifted(s: Set<int>, dir: Direction)
    requires
        s.subset_of(Bitmasks::All.cells()),
    ensures
        slid(s, dir) == shifted(s, dir),
{
    assert forall|j: int| slid(s, dir).contains(j) == shifted(s, dir).contains(j) by {
        lemma_step_offsets(j);
        let i = j - step_offset(dir);
        assert(s.contains(i) ==> Bitmasks::All.cells().contains(i));
    }
    assert(slid(s, dir) =~= shifted(s, dir));
}

/// Last cells of the long rows.
pub const LONG_ROW_ENDS: u64 = 0x4002001000;

/// First cells of the long rows.
pub const LONG_ROW_STARTS: u64 = 0x100080040;

proof fn lemma_long_row_edges()
    ensures
        forall|i: int| #[trigger] bit(LONG_ROW_ENDS, i) == (i == 12 || i == 25 || i == 38),
        forall|i: int| #[trigger] bit(LONG_ROW_STARTS, i) == (i == 6 || i == 19 || i == 32),
{
    assert forall|i: int| #[trigger] bit(LONG_ROW_ENDS, i) == (i == 12 || i == 25 || i == 38) by {
        if 0 <= i < 64 {
            let k = i as u64;
            assert(((0x4002001000u64 >> k) & 1 == 1) == (k == 12 || k == 25 || k == 38))
                by (bit_vector)
                requires
                    k < 64,
            ;
        }
    }
    assert forall|i: int| #[trigger] bit(LONG_ROW_STARTS, i) == (i == 6 || i == 19 || i == 32) by {
        if 0 <= i < 64 {
            let k = i as u64;
            assert(((0x100080040u64 >> k) & 1 == 1) == (k == 6 || k == 19 || k == 32))
                by (bit_vector)
                requires
                    k < 64,
            ;
        }
    }
}

impl Bitboard {
    /// Every cell one step to the left of a cell of the set.
    #[must_use]
    pub fn left(&self) -> (r: Self)
        ensures
            r.wf(),
            r@ == slid(self@, Direction::Left),
            self.wf() ==> r@ == shifted(self@, Direction::Left),
    {
        let r = Bitboard(self.0 >> 1) & Bitmasks::Rightmost.board().not();
        proof {
            lemma_bit_shr(self.0, 1);
            assert(r@ =~= slid(self@, Direction::Left));
            if self.wf() {
                lemma_slid_is_shifted(self@, Direction::Left);
            }
        }
        r
    }

    /// Every cell one step to the right of a cell of the set.
    #[must_use]
    pub fn right(&self) -> (r: Self)
        ensures
            r.wf(),
            r@ == slid(self@, Direction::Right),
            self.wf() ==> r@ == shifted(self@, Direction::Right),
    {
        let r = Bitboard(self.0 << 1) & Bitmasks::Leftmost.board().not();
        proof {
            lemma_bit_shl(self.0, 1);
            assert(r@ =~= slid(self@, Direction::Right));
            if self.wf() {
                lemma_slid_is_shifted(self@, Direction::Right);
            }
        }
        r
    }

    /// Every cell one step up and to the left of a cell of the set.
    #[must_use]
    pub fn up_left(&self) -> (r: Self)
        ensures
            r.wf(),
            r@ == slid(self@, Direction::UpLeft),
            self.wf() ==> r@ == shifted(self@, Direction::UpLeft),
    {
        let r = Bitboard(self.0 << 6) & Bitboard(LONG_ROW_ENDS).not();
        proof {
            lemma_bit_shl(self.0, 6);
            lemma_long_row_edges();
            assert(r@ =~= slid(self@, Direction::UpLeft));
            if self.wf() {
                lemma_slid_is_shifted(self@, Direction::UpLeft);
            }
        }
        r
    }

    /// Every cell one step up and to the right of a cell of the set.
    #[must_use]
    pub fn up_right(&self) -> (r: Self)
        ensures
            r.wf(),
            r@ == slid(self@, Direction::UpRight),
            self.wf() ==> r@ == shifted(self@, Direction::UpRight),
    {
        let r = Bitboard(self.0 << 7) & Bitboard(LONG_ROW_STARTS).not();
        proof {
            lemma_bit_shl(self.0, 7);
            lemma_long_row_edges();
            assert(r@ =~= slid(self@, Direction::UpRight));
            if self.wf() {
                lemma_slid_is_shifted(self@, Direction::UpRight);
            }
        }
        r
    }

    /// Every cell one step down and to the left of a cell of the set.
    #[must_use]
    pub fn down_left(&self) -> (r: Self)
        ensures
            r.wf(),
            r@ == slid(self@, Direction::DownLeft),
            self.wf() ==> r@ == shifted(self@, Direction::DownLeft),
    {
        let r = Bitboard(self.0 >> 7) & Bitboard(LONG_ROW_ENDS).not();
        proof {
            lemma_bit_shr(self.0, 7);
            lemma_long_row_edges();
            assert(r@ =~= slid(self@, Direction::DownLeft));
            if self.wf() {
                lemma_slid_is_shifted(self@, Direction::DownLeft);
            }
        }
        r
    }

    /// Every cell one step down and to the right of a cell of the set.
    #[must_use]
    pub fn down_right(&self) -> (r: Self)
        ensures
            r.wf(),
            r@ == slid(self@, Direction::DownRight),
            self.wf() ==> r@ == shifted(self@, Direction::DownRight),
    {
        let r = Bitboard(self.0 >> 6) & Bitboard(LONG_ROW_STARTS).not();
        proof {
            lemma_bit_shr(self.0, 6);
            lemma_long_row_edges();
            assert(r@ =~= slid(self@, Direction::DownRight));
            if self.wf() {
                lemma_slid_is_shifted(self@, Direction::DownRight);
            }
        }
        r
    }

    /// Every cell one step from a cell of the set.
    #[must_use]
    pub fn adjacent(&self) -> (r: Self)
        ensures
            r.wf(),
            r@ == slid_any(self@),
            self.wf() ==> r@ == neighbours(self@),
    {
        self.left() | self.right() | self.up_left() | self.up_right() | self.down_left()
            | self.down_right()
    }

    /// Every cell two steps in one direction from a cell of the set, where the
    /// cell in between is not in `blockers`.
    #[must_use]
    pub fn doubles(&self, blockers: Self) -> (r: Self)
        ensures
            r.wf(),
            r@ == slid_twice_any(self@, blockers@),
            self.wf() ==> r@ == jumps(self@, blockers@),
    {
        let open = blockers.not();
        proof {
            assert forall|s: Set<int>| s.subset_of(Bitmasks::All.cells()) implies (
            #[trigger] s.intersect(open@)) =~= s.difference(blockers@) by {}
            if self.wf() {
                lemma_shifted_on_board(self@, Direction::Left);
                lemma_shifted_on_board(self@, Direction::Right);
                lemma_shifted_on_board(self@, Direction::UpLeft);
                lemma_shifted_on_board(self@, Direction::UpRight);
                lemma_shifted_on_board(self@, Direction::DownLeft);
                lemma_shifted_on_board(self@, Direction::DownRight);
            }
        }
        (self.left() & open).left() | (self.right() & open).right() | (self.up_left()
            & open).up_left() | (self.up_right() & open).up_right() | (self.down_left()
            & open).down_left() | (self.down_right() & open).down_right()
    }
}

/// A shifted set lies on the board.
pub proof fn lemma_shifted_on_board(s: Set<int>, dir: Direction)
    ensures
        shifted(s, dir).subset_of(Bitmasks::All.cells()),
{
    assert forall|j: int| shifted(s, dir).contains(j) implies Bitmasks::All.cells().contains(
        j,
    ) by {
        lemma_step_offsets(j);
    }
}

/// The cells of `s` from index `k` on, in ascending order.
pub open spec fn ascending_from(s: Set<int>, k: int) -> Seq<Square>
    decreases 64 - k,
{
    if k < 0 || k >= 64 {
        Seq::empty()
    } else if s.contains(k) {
        seq![Square(k as u8)] + ascending_from(s, k + 1)
    } else {
        ascending_from(s, k + 1)
    }
}

/// The cells of `s` in ascending order.
pub open spec fn ascending(s: Set<int>) -> Seq<Square> {
    ascending_from(s, 0)
}

/// Where no cell of `s` lies in `k..t`, listing from `k` gives what listing from `t` gives.
pub proof fn lemma_ascending_gap(s: Set<int>, k: int, t: int)
    requires
        0 <= k <= t <= 64,
        forall|i: int| k <= i < t ==> !s.contains(i),
    ensures
        ascending_from(s, k) == ascending_from(s, t),
    decreases t - k,
{
    if k < t {
        lemma_ascending_gap(s, k + 1, t);
    }
}

/// Two sets that agree from `k` on list the same cells from `k` on.
pub proof fn lemma_ascending_agree(a: Set<int>, b: Set<int>, k: int)
    requires
        0 <= k <= 64,
        forall|i: int| k <= i < 64 ==> a.contains(i) == b.contains(i),
    ensures
        ascending_from(a, k) == ascending_from(b, k),
    decreases 64 - k,
{
    if k < 64 {
        lemma_ascending_agree(a, b, k + 1);
    }
}

/// The list of a set starts with its lowest cell and goes on with the list of
/// the set without it.
pub proof fn lemma_ascending_head(s: Set<int>, t: int)
    requires
        0 <= t < 64,
        s.contains(t),
        forall|i: int| 0 <= i < t ==> !s.contains(i),
    ensures
        ascending(s) == seq![Square(t as u8)] + ascending(s.remove(t)),
{
    lemma_ascending_gap(s, 0, t);
    lemma_ascending_agree(s, s.remove(t), t + 1);
    lemma_ascending_gap(s.remove(t), 0, t + 1);
}

/// The list holds cells of the set only, and where the set lies on the board,
/// cells of the board only, at most 45.
pub proof fn lemma_ascending(s: Set<int>)
    ensures
        ascending(s).len() <= 64,
        forall|j: int|
            0 <= j < ascending(s).len() ==> (#[trigger] ascending(s)[j]).0 < 64 && s.contains(
                ascending(s)[j].0 as int,
            ),
        s.subset_of(Bitmasks::All.cells()) ==> ascending(s).len() <= 45 && forall|j: int|
            0 <= j < ascending(s).len() ==> (#[trigger] ascending(s)[j]).wf(),
{
    lemma_ascending_from(s, 0);
    if s.subset_of(Bitmasks::All.cells()) {
        assert forall|i: int| 45 <= i < 64 implies !s.contains(i) by {
            assert(s.contains(i) ==> Bitmasks::All.cells().contains(i));
        }
        lemma_ascending_gap(s, 45, 64);
        lemma_ascending_board(s, 0);
    }
}

proof fn lemma_ascending_from(s: Set<int>, k: int)
    requires
        0 <= k <= 64,
    ensures
        ascending_from(s, k).len() <= 64 - k,
        forall|j: int|
            0 <= j < ascending_from(s, k).len() ==> k <= (#[trigger] ascending_from(s, k)[j]).0
                < 64 && s.contains(ascending_from(s, k)[j].0 as int),
    decreases 64 - k,
{
    if k < 64 {
        lemma_ascending_from(s, k + 1);
    }
}

proof fn lemma_ascending_board(s: Set<int>, k: int)
    requires
        0 <= k <= 45,
        ascending_from(s, 45).len() == 0,
    ensures
        ascending_from(s, k).len() <= 45 - k,
        forall|j: int|
            0 <= j < ascending_from(s, k).len() ==> (#[trigger] ascending_from(s, k)[j]).wf(),
    decreases 45 - k,
{
    if k < 45 {
        lemma_ascending_board(s, k + 1);
    }
}

/// The list holds each cell of the set.
pub proof fn lemma_ascending_has(s: Set<int>, c: Square)
    requires
        c.0 < 64,
        s.contains(c.0 as int),
    ensures
        ascending(s).contains(c),
{
    lemma_ascending_from_has(s, 0, c);
}

proof fn lemma_ascending_from_has(s: Set<int>, k: int, c: Square)
    requires
        0 <= k <= c.0 < 64,
        s.contains(c.0 as int),
    ensures
        ascending_from(s, k).contains(c),
    decreases 64 - k,
{
    let all = ascending_from(s, k);
    if k == c.0 {
        assert(all[0] == c);
    } else {
        lemma_ascending_from_has(s, k + 1, c);
        let tail = ascending_from(s, k + 1);
        let j = choose|j: int| 0 <= j < tail.len() && tail[j] == c;
        if s.contains(k) {
            assert(all[j + 1] == c);
        }
    }
}

/// The list is as long as the set has cells below 64.
pub proof fn lemma_ascending_count(s: Set<int>, k: int)
    requires
        0 <= k <= 64,
    ensures
        s.filter(|i: int| k <= i < 64).finite(),
        s.filter(|i: int| k <= i < 64).len() == ascending_from(s, k).len(),
    decreases 64 - k,
{
    let here = s.filter(|i: int| k <= i < 64);
    if k < 64 {
        lemma_ascending_count(s, k + 1);
        let above = s.filter(|i: int| k + 1 <= i < 64);
        if s.contains(k) {
            assert(here =~= above.insert(k));
        } else {
            assert(here =~= above);
        }
    } else {
        assert(here =~= Set::<int>::empty());
    }
}

/// A set has as many cells as its list is long, and on the board at most 45.
pub proof fn lemma_len_on_board(bb: Bitboard)
    ensures
        bb@.finite(),
        bb@.len() == ascending(bb@).len(),
        bb.wf() ==> bb@.len() <= 45,
{
    lemma_ascending_count(bb@, 0);
    assert(bb@ =~= bb@.filter(|i: int| 0 <= i < 64));
    if bb.wf() {
        assert(bb@.subset_of(Bitmasks::All.cells()));
        lemma_ascending(bb@);
    }
}

/// The empty set lists no cell.
pub proof fn lemma_squares_of_empty(bb: Bitboard)
    requires
        bb.0 == 0,
    ensures
        bb.spec_squares() == Seq::<Square>::empty(),
{
    lemma_bit_zero();
    lemma_ascending_gap(bb@, 0, 64);
}

impl Bitboard {
    /// The cells of the set in ascending order.
    pub open spec fn spec_squares(&self) -> Seq<Square> {
        ascending(self@)
    }

    /// Takes the lowest cell out of a set that is not empty.
    pub fn pop_lsb(&mut self) -> (sq: Square)
        requires
            old(self).0 != 0,
        ensures
            sq.0 < 64,
            old(self).spec_squares() == seq![sq] + final(self).spec_squares(),
            final(self)@ == old(self)@.remove(sq.0 as int),
            old(self)@.contains(sq.0 as int),
            old(self).wf() ==> final(self).wf() && sq.wf(),
    {
        let sq = self.lsb();
        proof {
            assert(self@ != Set::<int>::empty()) by {
                lemma_bit_lowest(self.0);
                assert(self@.contains(vstd::std_specs::bits::u64_trailing_zeros(self.0) as int));
            }
            lemma_ascending_head(self@, sq.0 as int);
            lemma_bit_single(sq.0 as u64);
            lemma_bit_xor(self.0, 1u64 << sq.0);
            assert(Bitboard(self.0 ^ (1u64 << sq.0))@ =~= self@.remove(sq.0 as int));
        }
        *self = Bitboard(self.0 ^ (1u64 << sq.0));
        sq
    }

    /// Takes the next cell out of what is left of a set whose cells are listed in
    /// `all`, the first `done` of which were taken before.
    pub(crate) fn next_square(
        &mut self,
        Ghost(all): Ghost<Seq<Square>>,
        Ghost(done): Ghost<int>,
    ) -> (sq: Square)
        requires
            old(self).0 != 0,
            0 <= done <= all.len(),
            old(self).spec_squares() == all.skip(done),
        ensures
            done < all.len(),
            sq == all[done],
            sq.0 < 64,
            final(self).spec_squares() == all.skip(done + 1),
            old(self).wf() ==> final(self).wf() && sq.wf(),
    {
        let ghost before = self.spec_squares();
        let sq = self.pop_lsb();
        proof {
            assert(before[0] == sq);
            assert(self.spec_squares() =~= before.skip(1));
            assert(before.skip(1) =~= all.skip(done + 1));
        }
        sq
    }

    /// Number of cells in the set.
    #[must_use]
    pub fn count(&self) -> (n: i32)
        ensures
            self@.finite(),
            n == self@.len(),
            n == self.spec_squares().len(),
            0 <= n <= 64,
            self.wf() ==> n <= 45,
    {
        let mut rest = *self;
        let mut n: i32 = 0;
        proof {
            lemma_ascending(self@);
            lemma_len_on_board(*self);
        }
        while rest.0 != 0
            invariant
                0 <= n,
                n + rest.spec_squares().len() == self.spec_squares().len(),
                self.spec_squares().len() <= 64,
            decreases rest.spec_squares().len(),
        {
            let _ = rest.pop_lsb();
            n += 1;
        }
        proof {
            lemma_squares_of_empty(rest);
        }
        n
    }

    /// The cells of the set in ascending order.
    pub fn squares(&self) -> (v: Vec<Square>)
        ensures
            v@ == self.spec_squares(),
    {
        let mut rest = *self;
        let mut v: Vec<Square> = Vec::new();
        while rest.0 != 0
            invariant
                v@ + rest.spec_squares() == self.spec_squares(),
            decreases rest.spec_squares().len(),
        {
            let ghost before = rest.spec_squares();
            let sq = rest.pop_lsb();
            v.push(sq);
            assert(v@ + rest.spec_squares() =~= v@.drop_last() + before);
        }
        proof {
            lemma_squares_of_empty(rest);
            assert(v@ + Seq::<Square>::empty() =~= v@);
        }
        v
    }
}

/// Two sets with the same cells are the same value.
pub proof fn lemma_view_injective(a: Bitboard, b: Bitboard)
    ensures
        (a@ == b@) == (a == b),
{
    if a@ == b@ {
        assert forall|i: int| 0 <= i < 64 implies bit(a.0, i) == bit(b.0, i) by {
            assert(a@.contains(i) == b@.contains(i));
        }
        lemma_bit_ext(a.0, b.0);
    }
}

impl Bitboard {
    /// Whether every cell of the set is a cell of `other`.
    pub fn is_subset_of(&self, other: Self) -> (b: bool)
        ensures
            b == self@.subset_of(other@),
    {
        let both = *self & other;
        proof {
            lemma_view_injective(both, *self);
            if self@.subset_of(other@) {
                assert(both@ =~= self@);
            }
        }
        both == *self
    }

    /// Whether the set has no cell in common with `other`.
    pub fn is_disjoint_from(&self, other: Self) -> (b: bool)
        ensures
            b == self@.disjoint(other@),
    {
        let both = *self & other;
        proof {
            if self@.disjoint(other@) {
                assert(both@ =~= Set::<int>::empty());
            }
            if both@ == Set::<int>::empty() {
                assert forall|i: int| !(self@.contains(i) && other@.contains(i)) by {
                    assert(!both@.contains(i));
                }
            }
        }
        both.is_empty()
    }

    /// Whether the set lies on the board.
    pub fn is_on_board(&self) -> (b: bool)
        ensures
            b == self.wf(),
    {
        let all = Bitboard::all();
        let b = self.is_subset_of(all);
        proof {
            if b {
                assert forall|i: int| 45 <= i < 64 implies !self.has(i) by {
                    assert(self@.contains(i) ==> all@.contains(i));
                }
            }
        }
        b
    }
}

impl Default for Bitboard {
    /// The empty set.
    fn default() -> (bb: Self)
        ensures
            bb.0 == 0,
            bb@ == Set::<int>::empty(),
    {
        Bitboard::empty()
    }
}

} // verus!
