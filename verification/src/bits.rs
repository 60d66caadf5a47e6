use vstd::prelude::*;

verus! {

/// Whether bit `i` of `x` is set; false for every `i` outside `0..64`.
pub open spec fn bit(x: u64, i: int) -> bool {
    0 <= i < 64 && (x >> (i as u64)) & 1 == 1
}

/// Zero has no bit set.
pub proof fn lemma_bit_zero()
    ensures
        forall|i: int| !#[trigger] bit(0, i),
{
    assert forall|i: int| !#[trigger] bit(0, i) by {
        if 0 <= i < 64 {
            let k = i as u64;
            assert((0u64 >> k) & 1 == 0) by (bit_vector);
        }
    }
}

/// A bit of `x & y` is set where it is set in both.
pub proof fn lemma_bit_and(x: u64, y: u64)
    ensures
        forall|i: int| #[trigger] bit(x & y, i) == (bit(x, i) && bit(y, i)),
{
    assert forall|i: int| #[trigger] bit(x & y, i) == (bit(x, i) && bit(y, i)) by {
        if 0 <= i < 64 {
            let k = i as u64;
            assert((((x & y) >> k) & 1 == 1) == ((x >> k) & 1 == 1 && (y >> k) & 1 == 1))
                by (bit_vector);
        }
    }
}

/// A bit of `x | y` is set where it is set in one of the two.
pub proof fn lemma_bit_or(x: u64, y: u64)
    ensures
        forall|i: int| #[trigger] bit(x | y, i) == (bit(x, i) || bit(y, i)),
{
    assert forall|i: int| #[trigger] bit(x | y, i) == (bit(x, i) || bit(y, i)) by {
        if 0 <= i < 64 {
            let k = i as u64;
            assert((((x | y) >> k) & 1 == 1) == ((x >> k) & 1 == 1 || (y >> k) & 1 == 1))
                by (bit_vector);
        }
    }
}

/// A bit of `x ^ y` is set where it is set in exactly one of the two.
pub proof fn lemma_bit_xor(x: u64, y: u64)
    ensures
        forall|i: int| #[trigger] bit(x ^ y, i) == (bit(x, i) != bit(y, i)),
{
    assert forall|i: int| #[trigger] bit(x ^ y, i) == (bit(x, i) != bit(y, i)) by {
        if 0 <= i < 64 {
            let k = i as u64;
            assert((((x ^ y) >> k) & 1 == 1) == (((x >> k) & 1 == 1) != ((y >> k) & 1 == 1)))
                by (bit_vector);
        }
    }
}

/// A bit of `!x` is set where it is clear in `x`.
pub proof fn lemma_bit_not(x: u64)
    ensures
        forall|i: int| 0 <= i < 64 ==> #[trigger] bit(!x, i) == !bit(x, i),
{
    assert forall|i: int| 0 <= i < 64 implies #[trigger] bit(!x, i) == !bit(x, i) by {
        let k = i as u64;
        assert((((!x) >> k) & 1 == 1) == !((x >> k) & 1 == 1)) by (bit_vector)
            requires
                k < 64,
        ;
    }
}

/// Bit `i` of `x >> n` is bit `i + n` of `x`.
pub proof fn lemma_bit_shr(x: u64, n: u64)
    requires
        n < 64,
    ensures
        forall|i: int| 0 <= i ==> #[trigger] bit(x >> n, i) == bit(x, i + n),
{
    assert forall|i: int| 0 <= i implies #[trigger] bit(x >> n, i) == bit(x, i + n) by {
        if i < 64 {
            let k = i as u64;
            if i + n < 64 {
                let j = (i + n) as u64;
                assert((((x >> n) >> k) & 1 == 1) == ((x >> j) & 1 == 1)) by (bit_vector)
                    requires
                        n < 64,
                        k < 64,
                        j == k + n,
                        j < 64,
                ;
            } else {
                assert(((x >> n) >> k) & 1 == 0) by (bit_vector)
                    requires
                        n < 64,
                        k < 64,
                        k + n >= 64,
                ;
            }
        }
    }
}

/// Bit `i` of `x << n` is bit `i - n` of `x`.
pub proof fn lemma_bit_shl(x: u64, n: u64)
    requires
        n < 64,
    ensures
        forall|i: int| i < 64 ==> #[trigger] bit(x << n, i) == bit(x, i - n),
{
    assert forall|i: int| i < 64 implies #[trigger] bit(x << n, i) == bit(x, i - n) by {
        if 0 <= i {
            let k = i as u64;
            if i >= n {
                let j = (i - n) as u64;
                assert((((x << n) >> k) & 1 == 1) == ((x >> j) & 1 == 1)) by (bit_vector)
                    requires
                        n < 64,
                        k < 64,
                        k >= n,
                        j == k - n,
                ;
            } else {
                assert(((x << n) >> k) & 1 == 0) by (bit_vector)
                    requires
                        n < 64,
                        k < n,
                ;
            }
        }
    }
}

/// The word `1 << s` has bit `s` set and no other.
pub proof fn lemma_bit_single(s: u64)
    requires
        s < 64,
    ensures
        forall|i: int| #[trigger] bit(1u64 << s, i) == (i == s),
{
    assert forall|i: int| #[trigger] bit(1u64 << s, i) == (i == s) by {
        if 0 <= i < 64 {
            let k = i as u64;
            assert((((1u64 << s) >> k) & 1 == 1) == (k == s)) by (bit_vector)
                requires
                    s < 64,
                    k < 64,
            ;
        }
    }
}

/// Two words with the same bits are the same word.
pub proof fn lemma_bit_ext(x: u64, y: u64)
    requires
        forall|i: int| 0 <= i < 64 ==> bit(x, i) == bit(y, i),
    ensures
        x == y,
{
    if x != y {
        let z = x ^ y;
        assert(z != 0) by (bit_vector)
            requires
                z == x ^ y,
                x != y,
        ;
        vstd::std_specs::bits::axiom_u64_trailing_zeros(z);
        let t = vstd::std_specs::bits::u64_trailing_zeros(z);
        lemma_bit_xor(x, y);
        assert(bit(z, t as int));
        assert(bit(x, t as int) == bit(y, t as int));
    }
}

/// The lowest set bit of a non-zero word sits at its count of trailing zeros.
pub proof fn lemma_bit_lowest(x: u64)
    requires
        x != 0,
    ensures
        vstd::std_specs::bits::u64_trailing_zeros(x) < 64,
        bit(x, vstd::std_specs::bits::u64_trailing_zeros(x) as int),
        forall|i: int|
            0 <= i < vstd::std_specs::bits::u64_trailing_zeros(x) ==> !#[trigger] bit(x, i),
{
    vstd::std_specs::bits::axiom_u64_trailing_zeros(x);
    let t = vstd::std_specs::bits::u64_trailing_zeros(x);
    assert forall|i: int| 0 <= i < t implies !#[trigger] bit(x, i) by {
        let j = i as u64;
        assert((x >> j) & 1u64 == 0u64);
    }
}

} // verus!
