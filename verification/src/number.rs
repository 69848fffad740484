//! Decimal numbers: their text, and the number that a text stands for.

use vstd::prelude::*;
use vstd::slice::slice_subrange;

verus! {

/// A decimal digit.
pub open spec fn is_digit(c: char) -> bool {
    '0' <= c <= '9'
}

/// The value of a decimal digit.
pub open spec fn digit_value(c: char) -> int {
    c as int - '0' as int
}

/// A text of decimal digits alone.
pub open spec fn all_digits(s: Seq<char>) -> bool {
    forall|i: int| 0 <= i < s.len() ==> is_digit(#[trigger] s[i])
}

/// The value of a row of decimal digits.
pub open spec fn decimal_value(s: Seq<char>) -> int
    decreases s.len(),
{
    if s.len() == 0 {
        0
    } else {
        10 * decimal_value(s.drop_last()) + digit_value(s.last())
    }
}

/// The number up to `max` that a text of one or more digits stands for.
pub open spec fn digits_number(s: Seq<char>, max: int) -> Option<int> {
    if s.len() > 0 && all_digits(s) && decimal_value(s) <= max {
        Some(decimal_value(s))
    } else {
        None
    }
}

/// The number that a text stands for as a `u64`: digits, with a plus sign before
/// them or none.
pub open spec fn u64_number(s: Seq<char>) -> Option<int> {
    if s.len() > 0 && s.first() == '+' {
        digits_number(s.drop_first(), u64::MAX as int)
    } else {
        digits_number(s, u64::MAX as int)
    }
}

/// The number that a text stands for as an `i32`: digits, with a plus sign or a
/// minus sign before them or none.
pub open spec fn i32_number(s: Seq<char>) -> Option<int> {
    if s.len() > 0 && s.first() == '-' {
        match digits_number(s.drop_first(), -(i32::MIN as int)) {
            Some(n) => Some(-n),
            None => None,
        }
    } else if s.len() > 0 && s.first() == '+' {
        digits_number(s.drop_first(), i32::MAX as int)
    } else {
        digits_number(s, i32::MAX as int)
    }
}

proof fn lemma_decimal_value_grows(s: Seq<char>, i: int)
    requires
        0 <= i <= s.len(),
        all_digits(s),
    ensures
        0 <= decimal_value(s.take(i)) <= decimal_value(s),
    decreases s.len(),
{
    if s.len() == 0 {
        assert(s.take(i) == s);
    } else if i == s.len() {
        assert(s.take(i) == s);
        lemma_decimal_value_grows(s.drop_last(), 0);
        assert(is_digit(s[s.len() - 1]));
    } else {
        assert(s.take(i) == s.drop_last().take(i));
        lemma_decimal_value_grows(s.drop_last(), i);
        assert(is_digit(s[s.len() - 1]));
    }
}

/// A text that stands for a `u64` stands for a number that a `u64` can hold.
pub proof fn lemma_u64_number_range(s: Seq<char>)
    ensures
        u64_number(s) matches Some(n) ==> 0 <= n <= u64::MAX,
{
    if u64_number(s) is Some {
        let digits = if s.first() == '+' {
            s.drop_first()
        } else {
            s
        };
        lemma_decimal_value_grows(digits, 0);
    }
}

fn parse_digits(s: &[char], max: u64) -> (r: Option<u64>)
    ensures
        match r {
            Some(n) => digits_number(s@, max as int) == Some(n as int),
            None => digits_number(s@, max as int) is None,
        },
{
    if s.len() == 0 {
        return None;
    }
    let mut n: u64 = 0;
    let mut i: usize = 0;
    while i < s.len()
        invariant
            i <= s@.len(),
            n <= max,
            forall|j: int| 0 <= j < i ==> is_digit(#[trigger] s@[j]),
            n == decimal_value(s@.take(i as int)),
        decreases s.len() - i,
    {
        let c: char = s[i];
        if !('0' <= c && c <= '9') {
            assert(!is_digit(s@[i as int]));
            return None;
        }
        let d: u64 = (c as u32 - '0' as u32) as u64;
        assert(s@.take(i + 1).drop_last() == s@.take(i as int));
        assert(decimal_value(s@.take(i + 1)) == 10 * n + d);
        if n > max / 10 || d > max - n * 10 {
            proof {
                if all_digits(s@) {
                    lemma_decimal_value_grows(s@, i + 1);
                }
            }
            return None;
        }
        n = n * 10 + d;
        i = i + 1;
    }
    assert(s@.take(s@.len() as int) == s@);
    Some(n)
}

/// Reads a `u64`.
pub fn parse_u64(s: &[char]) -> (r: Option<u64>)
    ensures
        match r {
            Some(n) => u64_number(s@) == Some(n as int),
            None => u64_number(s@) is None,
        },
{
    if s.len() > 0 && s[0] == '+' {
        let rest = slice_subrange(s, 1, s.len());
        assert(rest@ == s@.drop_first());
        parse_digits(rest, u64::MAX)
    } else {
        parse_digits(s, u64::MAX)
    }
}

/// Reads an `i32`.
pub fn parse_i32(s: &[char]) -> (r: Option<i32>)
    ensures
        match r {
            Some(n) => i32_number(s@) == Some(n as int),
            None => i32_number(s@) is None,
        },
{
    if s.len() > 0 && s[0] == '-' {
        let rest = slice_subrange(s, 1, s.len());
        assert(rest@ == s@.drop_first());
        match parse_digits(rest, 2147483648) {
            Some(n) => Some((-(n as i64)) as i32),
            None => None,
        }
    } else {
        let rest = if s.len() > 0 && s[0] == '+' {
            slice_subrange(s, 1, s.len())
        } else {
            s
        };
        assert(s@.len() > 0 && s@[0] == '+' ==> rest@ == s@.drop_first());
        match parse_digits(rest, 2147483647) {
            Some(n) => Some(n as i32),
            None => None,
        }
    }
}

/// The decimal text of a number.
pub open spec fn decimal_text(n: nat) -> Seq<char>
    decreases n,
{
    if n < 10 {
        seq![('0' as int + n) as char]
    } else {
        decimal_text(n / 10).push(('0' as int + n % 10) as char)
    }
}

/// The decimal text of an integer, with a minus sign where it is below zero.
pub open spec fn integer_text(n: int) -> Seq<char> {
    if n < 0 {
        seq!['-'] + decimal_text((-n) as nat)
    } else {
        decimal_text(n as nat)
    }
}

fn push_digits(out: &mut String, n: u64)
    ensures
        final(out)@ == old(out)@ + decimal_text(n as nat),
    decreases n,
{
    if n < 10 {
        out.push((48u8 + n as u8) as char);
        assert(old(out)@.push(('0' as int + n) as char) == old(out)@ + decimal_text(n as nat));
    } else {
        push_digits(out, n / 10);
        out.push((48u8 + (n % 10) as u8) as char);
        assert((old(out)@ + decimal_text(n as nat / 10)).push(('0' as int + n % 10) as char) == old(
            out,
        )@ + decimal_text(n as nat));
    }
}

/// The text of a `u64`.
pub fn u64_text(n: u64) -> (r: String)
    ensures
        r@ == decimal_text(n as nat),
{
    let mut out = String::new();
    push_digits(&mut out, n);
    assert(Seq::<char>::empty() + decimal_text(n as nat) == decimal_text(n as nat));
    out
}

/// The text of an `i32`.
pub fn i32_text(n: i32) -> (r: String)
    ensures
        r@ == integer_text(n as int),
{
    let mut out = String::new();
    if n < 0 {
        out.push('-');
        push_digits(&mut out, (-(n as i64)) as u64);
        assert(Seq::<char>::empty().push('-') == seq!['-']);
    } else {
        push_digits(&mut out, n as u64);
        assert(Seq::<char>::empty() + decimal_text(n as nat) == decimal_text(n as nat));
    }
    out
}

/// The decimal text of a number is one or more digits, and stands for that number.
pub proof fn lemma_decimal_text(n: nat)
    ensures
        decimal_text(n).len() > 0,
        all_digits(decimal_text(n)),
        decimal_value(decimal_text(n)) == n,
    decreases n,
{
    let s = decimal_text(n);
    if n < 10 {
        assert(s.drop_last() == Seq::<char>::empty());
        assert(decimal_value(Seq::<char>::empty()) == 0);
    } else {
        lemma_decimal_text(n / 10);
        assert(s.drop_last() == decimal_text(n / 10));
    }
}

/// Reading the text of a `u64` gives the number back.
pub proof fn lemma_u64_round_trip(n: u64)
    ensures
        u64_number(decimal_text(n as nat)) == Some(n as int),
{
    lemma_decimal_text(n as nat);
    assert(is_digit(decimal_text(n as nat)[0]));
}

/// Reading the text of an `i32` gives the number back.
pub proof fn lemma_i32_round_trip(n: i32)
    ensures
        i32_number(integer_text(n as int)) == Some(n as int),
{
    let s = integer_text(n as int);
    if n < 0 {
        lemma_decimal_text((-n) as nat);
        assert(s.drop_first() == decimal_text((-n) as nat));
    } else {
        lemma_decimal_text(n as nat);
        assert(is_digit(decimal_text(n as nat)[0]));
    }
}

/// The decimal text of a number is its digits, the highest first and none before it.
pub proof fn lemma_decimal_digits(n: nat, d: nat)
    requires
        d < 10,
    ensures
        decimal_text(d) == seq![(48 + d) as char],
        n > 0 ==> decimal_text(10 * n + d) == decimal_text(n).push((48 + d) as char),
{
    if n > 0 {
        assert((10 * n + d) / 10 == n);
        assert((10 * n + d) % 10 == d);
    }
}

/// The value of a row of digits: each digit more makes it ten times as much, and adds
/// that digit.
pub proof fn lemma_decimal_value(s: Seq<char>, c: char)
    ensures
        decimal_value(Seq::<char>::empty()) == 0,
        decimal_value(s.push(c)) == 10 * decimal_value(s) + (c as int - 48),
{
    assert(s.push(c).drop_last() == s);
}

/// The texts that stand for a `u64`: digits, with a plus sign before them or none, of
/// a value that it can hold.
pub proof fn lemma_u64_number(s: Seq<char>)
    requires
        s.len() > 0,
        forall|i: int| 0 <= i < s.len() ==> '0' <= #[trigger] s[i] <= '9',
    ensures
        u64_number(s) == if decimal_value(s) <= 18446744073709551615 {
            Some(decimal_value(s))
        } else {
            None
        },
        u64_number(seq!['+'] + s) == u64_number(s),
        u64_number(seq!['-'] + s) is None,
{
    assert(!is_digit((seq!['-'] + s)[0]));
    assert(is_digit(s[0]));
    assert((seq!['+'] + s).drop_first() == s);
    assert(all_digits(s));
}

/// The texts that stand for an `i32`: digits, with a sign before them or none, of a
/// value that it can hold.
pub proof fn lemma_i32_number(s: Seq<char>)
    requires
        s.len() > 0,
        forall|i: int| 0 <= i < s.len() ==> '0' <= #[trigger] s[i] <= '9',
    ensures
        i32_number(s) == if decimal_value(s) <= 2147483647 {
            Some(decimal_value(s))
        } else {
            None
        },
        i32_number(seq!['+'] + s) == i32_number(s),
        i32_number(seq!['-'] + s) == if decimal_value(s) <= 2147483648 {
            Some(-decimal_value(s))
        } else {
            None
        },
{
    assert(is_digit(s[0]));
    assert((seq!['+'] + s).drop_first() == s);
    assert((seq!['-'] + s).drop_first() == s);
    assert(all_digits(s));
}

/// Other texts stand for no number: the empty one, and any with a character that is
/// neither a digit nor a sign before all others.
pub proof fn lemma_no_number(s: Seq<char>, k: int)
    requires
        s.len() == 0 || (0 <= k < s.len() && !('0' <= s[k] <= '9') && (k > 0 || s.len() == 1
            || (s[0] != '+' && s[0] != '-'))),
    ensures
        u64_number(s) is None,
        i32_number(s) is None,
{
    if s.len() > 0 {
        assert(!is_digit(s[k]));
        if s.len() > 1 && (s[0] == '+' || s[0] == '-') {
            assert(!is_digit(s.drop_first()[k - 1]));
        }
        assert(!all_digits(s));
    }
}

/// The text of an integer has a minus sign just where it is below zero.
pub proof fn lemma_integer_text(n: nat)
    ensures
        integer_text(n as int) == decimal_text(n),
        n > 0 ==> integer_text(-(n as int)) == seq!['-'] + decimal_text(n),
{
}

} // verus!
