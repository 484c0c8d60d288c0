//! Numeric atoms: classifying a token as a 64-bit number and rendering a
//! number back to text.

use vstd::prelude::*;
use crate::text::push_char;

verus! {

/// A decimal digit.
pub open spec fn is_digit(c: char) -> bool {
    c == '0' || c == '1' || c == '2' || c == '3' || c == '4' || c == '5' || c == '6' || c == '7'
        || c == '8' || c == '9'
}

/// The value of a decimal digit; 0 for any other character.
pub open spec fn digit_val(c: char) -> int {
    if c == '1' {
        1
    } else if c == '2' {
        2
    } else if c == '3' {
        3
    } else if c == '4' {
        4
    } else if c == '5' {
        5
    } else if c == '6' {
        6
    } else if c == '7' {
        7
    } else if c == '8' {
        8
    } else if c == '9' {
        9
    } else {
        0
    }
}

/// The digit character for a value between 0 and 9.
pub open spec fn digit_char(d: int) -> char {
    if d == 1 {
        '1'
    } else if d == 2 {
        '2'
    } else if d == 3 {
        '3'
    } else if d == 4 {
        '4'
    } else if d == 5 {
        '5'
    } else if d == 6 {
        '6'
    } else if d == 7 {
        '7'
    } else if d == 8 {
        '8'
    } else if d == 9 {
        '9'
    } else {
        '0'
    }
}

/// Every character of the sequence is a decimal digit.
pub open spec fn all_digits(s: Seq<char>) -> bool {
    forall|i: int| 0 <= i < s.len() ==> is_digit(#[trigger] s[i])
}

/// The value of a digit sequence read most-significant-first.
pub open spec fn digits_val(s: Seq<char>) -> int
    decreases s.len(),
{
    if s.len() == 0 {
        0
    } else {
        10 * digits_val(s.drop_last()) + digit_val(s.last())
    }
}

/// The token with a leading sign removed.
pub open spec fn num_body(t: Seq<char>) -> Seq<char> {
    if t.len() > 0 && (t[0] == '-' || t[0] == '+') {
        t.drop_first()
    } else {
        t
    }
}

/// The token carries a leading minus sign.
pub open spec fn num_is_neg(t: Seq<char>) -> bool {
    t.len() > 0 && t[0] == '-'
}

/// The numeric value a token denotes when it is numeric.
pub open spec fn num_val(t: Seq<char>) -> int {
    if num_is_neg(t) {
        -digits_val(num_body(t))
    } else {
        digits_val(num_body(t))
    }
}

/// A numeric token: an optional sign, then at least one digit, denoting a
/// value within the 64-bit signed range.  Anything else is not a number.
pub open spec fn is_num_token(t: Seq<char>) -> bool {
    num_body(t).len() > 0 && all_digits(num_body(t)) && i64::MIN <= num_val(t) <= i64::MAX
}

/// A digit sequence never denotes a negative value.
pub proof fn lemma_digits_val_nonneg(s: Seq<char>)
    ensures
        digits_val(s) >= 0,
    decreases s.len(),
{
    if s.len() > 0 {
        lemma_digits_val_nonneg(s.drop_last());
    }
}

/// Reading more digits never shrinks the value.
pub proof fn lemma_digits_val_take_le(s: Seq<char>, k: int)
    requires
        0 <= k <= s.len(),
    ensures
        digits_val(s.take(k)) <= digits_val(s),
    decreases s.len() - k,
{
    if k == s.len() {
        assert(s.take(k) =~= s);
    } else {
        lemma_digits_val_take_le(s, k + 1);
        assert(s.take(k + 1).drop_last() =~= s.take(k));
        lemma_digits_val_nonneg(s.take(k));
    }
}

/// The value of a digit, executably.
fn digit_value(c: char) -> (r: Option<u64>)
    ensures
        match r {
            Some(d) => is_digit(c) && d as int == digit_val(c) && d <= 9,
            None => !is_digit(c),
        },
{
    match c {
        '0' => Some(0),
        '1' => Some(1),
        '2' => Some(2),
        '3' => Some(3),
        '4' => Some(4),
        '5' => Some(5),
        '6' => Some(6),
        '7' => Some(7),
        '8' => Some(8),
        '9' => Some(9),
        _ => None,
    }
}

/// Classifies a token: `Some` exactly when the token is numeric, carrying
/// the value it denotes.
pub fn parse_number_token(t: &str) -> (r: Option<i64>)
    ensures
        match r {
            Some(v) => is_num_token(t@) && v as int == num_val(t@),
            None => !is_num_token(t@),
        },
{
    let n = t.unicode_len();
    if n == 0 {
        return None;
    }
    let first = t.get_char(0);
    let neg = first == '-';
    let signed = neg || first == '+';
    let start: usize = if signed {
        1
    } else {
        0
    };
    let ghost body = num_body(t@);
    proof {
        assert(body =~= t@.subrange(start as int, n as int));
    }
    if start == n {
        return None;
    }
    let mut acc: u64 = 0;
    let mut i: usize = start;
    proof {
        assert(body.take(0) =~= Seq::<char>::empty());
    }
    while i < n
        invariant
            start <= i <= n,
            n == t@.len(),
            body == num_body(t@),
            body =~= t@.subrange(start as int, n as int),
            body.len() == n - start,
            forall|j: int| 0 <= j < i - start ==> is_digit(#[trigger] body[j]),
            acc as int == digits_val(body.take(i - start)),
            acc <= 0x8000_0000_0000_0000u64,
        decreases n - i,
    {
        let c = t.get_char(i);
        proof {
            assert(body[i - start] == t@[i as int]);
        }
        match digit_value(c) {
            None => {
                proof {
                    assert(!all_digits(body));
                }
                return None;
            },
            Some(d) => {
                let wide: u128 = acc as u128 * 10 + d as u128;
                proof {
                    assert(body.take(i - start + 1).drop_last() =~= body.take(i - start));
                    assert(body.take(i - start + 1).last() == body[i - start]);
                }
                if wide > 0x8000_0000_0000_0000u128 {
                    proof {
                        lemma_digits_val_take_le(body, i - start + 1);
                        assert(digits_val(body) > 0x8000_0000_0000_0000);
                        lemma_digits_val_nonneg(body);
                    }
                    return None;
                }
                acc = wide as u64;
            },
        }
        i = i + 1;
    }
    proof {
        assert(body.take(n - start) =~= body);
        assert(all_digits(body));
        lemma_digits_val_nonneg(body);
    }
    if neg {
        if acc == 0x8000_0000_0000_0000u64 {
            Some(i64::MIN)
        } else {
            Some(-(acc as i64))
        }
    } else {
        if acc <= 0x7FFF_FFFF_FFFF_FFFFu64 {
            Some(acc as i64)
        } else {
            None
        }
    }
}

/// The decimal digits of a nonnegative value, most significant first.
pub open spec fn dec_digits(v: int) -> Seq<char>
    decreases v,
{
    if v < 10 {
        seq![digit_char(v)]
    } else {
        dec_digits(v / 10).push(digit_char(v % 10))
    }
}

/// The textual form of an integer: a minus sign for negative values, then
/// the decimal digits.
pub open spec fn int_str(v: int) -> Seq<char> {
    if v < 0 {
        seq!['-'] + dec_digits(-v)
    } else {
        dec_digits(v)
    }
}

/// The digit character for a value between 0 and 9, executably.
fn digit_char_of(d: u64) -> (r: char)
    requires
        d <= 9,
    ensures
        r == digit_char(d as int),
{
    match d {
        1u64 => '1',
        2u64 => '2',
        3u64 => '3',
        4u64 => '4',
        5u64 => '5',
        6u64 => '6',
        7u64 => '7',
        8u64 => '8',
        9u64 => '9',
        _ => '0',
    }
}

/// Appends the decimal digits of a nonnegative value.
fn push_digits(s: &mut String, v: u64)
    ensures
        final(s)@ == old(s)@ + dec_digits(v as int),
    decreases v,
{
    if v < 10 {
        push_char(s, digit_char_of(v));
        proof {
            assert(final(s)@ =~= old(s)@ + dec_digits(v as int));
        }
    } else {
        push_digits(s, v / 10);
        push_char(s, digit_char_of(v % 10));
        proof {
            assert(final(s)@ =~= old(s)@ + dec_digits(v as int));
        }
    }
}

/// Appends the textual form of a number.
pub fn push_int(s: &mut String, v: i64)
    ensures
        final(s)@ == old(s)@ + int_str(v as int),
{
    if v < 0 {
        push_char(s, '-');
        let mag: u64 = if v == i64::MIN {
            0x8000_0000_0000_0000u64
        } else {
            (-v) as u64
        };
        push_digits(s, mag);
        proof {
            assert(final(s)@ =~= old(s)@ + int_str(v as int));
        }
    } else {
        push_digits(s, v as u64);
    }
}

} // verus!
