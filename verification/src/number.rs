use vstd::prelude::*;

verus! {

/// The value of a decimal digit.
pub open spec fn digit_value(c: char) -> Option<int> {
    if c == '0' {
        Some(0)
    } else if c == '1' {
        Some(1)
    } else if c == '2' {
        Some(2)
    } else if c == '3' {
        Some(3)
    } else if c == '4' {
        Some(4)
    } else if c == '5' {
        Some(5)
    } else if c == '6' {
        Some(6)
    } else if c == '7' {
        Some(7)
    } else if c == '8' {
        Some(8)
    } else if c == '9' {
        Some(9)
    } else {
        None
    }
}

/// The decimal digit of a value below ten.
pub open spec fn digit_char(d: int) -> char {
    if d == 0 {
        '0'
    } else if d == 1 {
        '1'
    } else if d == 2 {
        '2'
    } else if d == 3 {
        '3'
    } else if d == 4 {
        '4'
    } else if d == 5 {
        '5'
    } else if d == 6 {
        '6'
    } else if d == 7 {
        '7'
    } else if d == 8 {
        '8'
    } else {
        '9'
    }
}

/// The value of a string of decimal digits; none for the empty string and for
/// a string that holds anything else.
pub open spec fn digits_value(s: Seq<char>) -> Option<int>
    decreases s.len(),
{
    if s.len() == 0 {
        None
    } else if s.len() == 1 {
        digit_value(s[0])
    } else {
        match (digits_value(s.drop_last()), digit_value(s.last())) {
            (Some(high), Some(low)) => Some(high * 10 + low),
            _ => None,
        }
    }
}

/// The value of a decimal number as text: an optional sign, then digits, within
/// the range of an `i32`.
pub open spec fn parse_int(s: Seq<char>) -> Option<int> {
    let (negative, digits) = if s.len() > 0 && s[0] == '-' {
        (true, s.skip(1))
    } else if s.len() > 0 && s[0] == '+' {
        (false, s.skip(1))
    } else {
        (false, s)
    };
    signed_value(negative, digits)
}

/// The value of a string of digits with or without a minus sign before it,
/// within the range of an `i32`.
pub open spec fn signed_value(negative: bool, digits: Seq<char>) -> Option<int> {
    match digits_value(digits) {
        Some(v) => if negative && -v >= i32::MIN {
            Some(-v)
        } else if !negative && v <= i32::MAX {
            Some(v)
        } else {
            None
        },
        None => None,
    }
}

/// A natural number in decimal digits, without leading zeros.
pub open spec fn digits_text(n: nat) -> Seq<char>
    decreases n,
{
    if n < 10 {
        seq![digit_char(n as int)]
    } else {
        digits_text(n / 10) + seq![digit_char((n % 10) as int)]
    }
}

/// A whole number in decimal digits, with a minus sign where it is negative.
pub open spec fn int_text(n: int) -> Seq<char> {
    if n < 0 {
        seq!['-'] + digits_text((-n) as nat)
    } else {
        digits_text(n as nat)
    }
}

/// The digits of a number hold nothing but digits, and give the number back.
pub proof fn lemma_digits_round_trip(n: nat)
    ensures
        digits_text(n).len() > 0,
        digits_value(digits_text(n)) == Some(n as int),
        forall|i: int| 0 <= i < digits_text(n).len() ==> digit_value(
            #[trigger] digits_text(n)[i],
        ) is Some,
    decreases n,
{
    if n >= 10 {
        lemma_digits_round_trip(n / 10);
        let high = digits_text(n / 10);
        let all = digits_text(n);
        assert(all.drop_last() =~= high);
        assert(all.last() == digit_char((n % 10) as int));
    }
}

/// A number within the range of an `i32` is read back from its text.
pub proof fn lemma_int_round_trip(n: int)
    requires
        i32::MIN <= n <= i32::MAX,
    ensures
        parse_int(int_text(n)) == Some(n),
        int_text(n).len() > 0,
        forall|i: int| 0 <= i < int_text(n).len() ==> #[trigger] int_text(n)[i] != ' ',
{
    if n < 0 {
        lemma_digits_round_trip((-n) as nat);
        assert(int_text(n).skip(1) =~= digits_text((-n) as nat));
    } else {
        lemma_digits_round_trip(n as nat);
        assert(digit_value(digits_text(n as nat)[0]) is Some);
    }
}

/// The text of the digit `d`.
fn digit_str(d: u64) -> (s: &'static str)
    requires
        d < 10,
    ensures
        s@ == seq![digit_char(d as int)],
{
    proof {
        reveal_strlit("0");
        reveal_strlit("1");
        reveal_strlit("2");
        reveal_strlit("3");
        reveal_strlit("4");
        reveal_strlit("5");
        reveal_strlit("6");
        reveal_strlit("7");
        reveal_strlit("8");
        reveal_strlit("9");
    }
    let s = if d == 0 {
        "0"
    } else if d == 1 {
        "1"
    } else if d == 2 {
        "2"
    } else if d == 3 {
        "3"
    } else if d == 4 {
        "4"
    } else if d == 5 {
        "5"
    } else if d == 6 {
        "6"
    } else if d == 7 {
        "7"
    } else if d == 8 {
        "8"
    } else {
        "9"
    };
    assert(s@ =~= seq![digit_char(d as int)]);
    s
}

/// Appends the decimal digits of `n` to `out`.
pub fn push_digits(out: &mut String, n: u64)
    ensures
        final(out)@ == old(out)@ + digits_text(n as nat),
    decreases n,
{
    if n >= 10 {
        push_digits(out, n / 10);
    }
    out.append(digit_str(n % 10));
    proof {
        assert(out@ =~= old(out)@ + digits_text(n as nat));
    }
}

/// Appends the decimal text of `n` to `out`.
pub fn push_int(out: &mut String, n: i32)
    ensures
        final(out)@ == old(out)@ + int_text(n as int),
{
    if n < 0 {
        proof {
            reveal_strlit("-");
        }
        out.append("-");
        let magnitude: i64 = -(n as i64);
        push_digits(out, magnitude as u64);
        proof {
            assert(out@ =~= old(out)@ + int_text(n as int));
        }
    } else {
        push_digits(out, n as u64);
    }
}

/// The value of the digit `c`.
pub fn digit_of(c: char) -> (d: Option<i64>)
    ensures
        match d {
            Some(v) => digit_value(c) == Some(v as int),
            None => digit_value(c) is None,
        },
{
    if c == '0' {
        Some(0)
    } else if c == '1' {
        Some(1)
    } else if c == '2' {
        Some(2)
    } else if c == '3' {
        Some(3)
    } else if c == '4' {
        Some(4)
    } else if c == '5' {
        Some(5)
    } else if c == '6' {
        Some(6)
    } else if c == '7' {
        Some(7)
    } else if c == '8' {
        Some(8)
    } else if c == '9' {
        Some(9)
    } else {
        None
    }
}

/// The value of a string of digits is not negative, and no smaller than the
/// value of any string of digits that it begins with.
pub proof fn lemma_digits_grow(s: Seq<char>, k: int)
    requires
        1 <= k <= s.len(),
        digits_value(s) is Some,
    ensures
        digits_value(s.take(k)) matches Some(v) && 0 <= v <= digits_value(s).unwrap(),
    decreases s.len() - k,
{
    if k < s.len() {
        assert(s.len() > 1);
        lemma_digits_grow(s.drop_last(), k);
        assert(s.drop_last().take(k) =~= s.take(k));
    } else {
        assert(s.take(k) =~= s);
        lemma_digits_nonnegative(s);
    }
}

proof fn lemma_digits_nonnegative(s: Seq<char>)
    requires
        digits_value(s) is Some,
    ensures
        digits_value(s).unwrap() >= 0,
    decreases s.len(),
{
    if s.len() > 1 {
        lemma_digits_nonnegative(s.drop_last());
    }
}

/// Reads the decimal number that the characters of `v` from `start` up to `end`
/// spell.
pub fn read_int(v: &Vec<char>, start: usize, end: usize) -> (n: Option<i32>)
    requires
        start <= end <= v.len(),
    ensures
        match n {
            Some(value) => parse_int(v@.subrange(start as int, end as int)) == Some(value as int),
            None => parse_int(v@.subrange(start as int, end as int)) is None,
        },
{
    let ghost s = v@.subrange(start as int, end as int);
    let negative = start < end && v[start] == '-';
    let signed = start < end && (v[start] == '-' || v[start] == '+');
    let first = if signed {
        start + 1
    } else {
        start
    };
    let ghost digits = v@.subrange(first as int, end as int);
    proof {
        if signed {
            assert(s.skip(1) =~= digits);
        } else {
            assert(s =~= digits);
        }
    }
    if first == end {
        return None;
    }
    assert(parse_int(s) == signed_value(negative, digits));
    let mut acc: i64 = 0;
    let mut i = first;
    while i < end
        invariant
            first <= i <= end <= v.len(),
            first < end,
            digits == v@.subrange(first as int, end as int),
            parse_int(v@.subrange(start as int, end as int)) == signed_value(negative, digits),
            0 <= acc <= 2147483648,
            i > first ==> digits_value(digits.take(i - first)) == Some(acc as int),
            i == first ==> acc == 0,
        decreases end - i,
    {
        let ghost before = digits.take(i - first);
        let ghost now = digits.take(i + 1 - first);
        proof {
            assert(now.drop_last() =~= before);
            assert(now.last() == v@[i as int]);
            assert(now.len() == i + 1 - first);
            if digits_value(digits) is Some {
                lemma_digits_grow(digits, i + 1 - first);
            }
        }
        match digit_of(v[i]) {
            Some(d) => {
                let next = acc * 10 + d;
                proof {
                    if i == first {
                        assert(now.len() == 1);
                        assert(now[0] == v@[i as int]);
                    }
                    assert(digits_value(now) == Some(next as int));
                }
                if next > 2147483648 {
                    return None;
                }
                acc = next;
            },
            None => {
                proof {
                    if i == first {
                        assert(now.len() == 1);
                        assert(now[0] == v@[i as int]);
                    }
                    assert(digits_value(now) is None);
                }
                return None;
            },
        }
        i += 1;
    }
    proof {
        assert(digits.take(end - first) =~= digits);
    }
    if negative {
        Some((-acc) as i32)
    } else if acc <= 2147483647 {
        Some(acc as i32)
    } else {
        None
    }
}

/// The value of a decimal number without a minus sign as text: an optional
/// plus sign, then digits, within the range of a `u64`.
pub open spec fn parse_u64(s: Seq<char>) -> Option<int> {
    let digits = if s.len() > 0 && s[0] == '+' {
        s.skip(1)
    } else {
        s
    };
    match digits_value(digits) {
        Some(v) => if v <= u64::MAX {
            Some(v)
        } else {
            None
        },
        None => None,
    }
}

/// Reads the decimal number without a minus sign that the characters of `v`
/// spell.
pub fn read_u64(v: &Vec<char>) -> (n: Option<u64>)
    ensures
        match n {
            Some(value) => parse_u64(v@) == Some(value as int),
            None => parse_u64(v@) is None,
        },
{
    let end = v.len();
    let first: usize = if 0 < end && v[0] == '+' {
        1
    } else {
        0
    };
    let ghost digits = v@.subrange(first as int, end as int);
    proof {
        if first == 1 {
            assert(v@.skip(1) =~= digits);
        } else {
            assert(v@ =~= digits);
        }
    }
    if first == end {
        return None;
    }
    let mut acc: u128 = 0;
    let mut i = first;
    while i < end
        invariant
            first <= i <= end == v.len(),
            first < end,
            digits == v@.subrange(first as int, end as int),
            parse_u64(v@) == match digits_value(digits) {
                Some(value) => if value <= u64::MAX {
                    Some(value)
                } else {
                    None
                },
                None => None,
            },
            0 <= acc <= u64::MAX,
            i > first ==> digits_value(digits.take(i - first)) == Some(acc as int),
            i == first ==> acc == 0,
        decreases end - i,
    {
        let ghost before = digits.take(i - first);
        let ghost now = digits.take(i + 1 - first);
        proof {
            assert(now.drop_last() =~= before);
            assert(now.last() == v@[i as int]);
            assert(now.len() == i + 1 - first);
            if digits_value(digits) is Some {
                lemma_digits_grow(digits, i + 1 - first);
            }
            if i == first {
                assert(now.len() == 1);
                assert(now[0] == v@[i as int]);
            }
        }
        match digit_of(v[i]) {
            Some(d) => {
                let next = acc * 10 + (d as u128);
                proof {
                    assert(digits_value(now) == Some(next as int));
                }
                if next > 0xffff_ffff_ffff_ffff {
                    return None;
                }
                acc = next;
            },
            None => {
                proof {
                    assert(digits_value(now) is None);
                }
                return None;
            },
        }
        i += 1;
    }
    proof {
        assert(digits.take(end - first) =~= digits);
    }
    Some(acc as u64)
}

} // verus!
