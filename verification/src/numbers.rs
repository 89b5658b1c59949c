//! Decimal numbers: parsing command arguments into integers, and
//! rendering integers back into digit strings.

use vstd::arithmetic::mul::*;
use vstd::prelude::*;

use crate::strutil::chars_to_string;

verus! {

/// A decimal digit.
pub open spec fn is_digit(c: char) -> bool {
    48 <= c as u32 <= 57
}

/// The numeric value of one digit character.
pub open spec fn digit_val(c: char) -> int {
    c as u32 - 48
}

/// The sequence consists of digits only.
pub open spec fn all_digits(s: Seq<char>) -> bool {
    forall|i: int| 0 <= i < s.len() ==> is_digit(#[trigger] s[i])
}

/// The value of a digit string, most significant digit first.
pub open spec fn digits_val(s: Seq<char>) -> int
    decreases s.len(),
{
    if s.len() == 0 {
        0
    } else {
        digits_val(s.drop_last()) * 10 + digit_val(s.last())
    }
}

/// `10^k` for `k >= 0`.
pub open spec fn pow10(k: int) -> int
    decreases k,
{
    if k <= 0 {
        1
    } else {
        10 * pow10(k - 1)
    }
}

/// The shape of an integer literal: an optional sign followed by at
/// least one digit.
pub open spec fn is_int_literal(s: Seq<char>) -> bool {
    if s.len() == 0 {
        false
    } else if s[0] == '+' || s[0] == '-' {
        s.len() > 1 && all_digits(s.skip(1))
    } else {
        all_digits(s)
    }
}

/// The mathematical value of an integer literal.
pub open spec fn int_literal_val(s: Seq<char>) -> int {
    if s.len() > 0 && s[0] == '-' {
        -digits_val(s.skip(1))
    } else if s.len() > 0 && s[0] == '+' {
        digits_val(s.skip(1))
    } else {
        digits_val(s)
    }
}

proof fn lemma_digits_val_nonneg(s: Seq<char>)
    requires
        all_digits(s),
    ensures
        digits_val(s) >= 0,
    decreases s.len(),
{
    if s.len() > 0 {
        assert(all_digits(s.drop_last())) by {
            assert forall|i: int| 0 <= i < s.len() - 1 implies is_digit(#[trigger] s.drop_last()[i])
                by {
                assert(s.drop_last()[i] == s[i]);
            }
        }
        lemma_digits_val_nonneg(s.drop_last());
    }
}

proof fn lemma_pow10_pos(k: int)
    ensures
        pow10(k) >= 1,
    decreases k,
{
    if k > 0 {
        lemma_pow10_pos(k - 1);
    }
}

/// The value of a digit string is at least the value of any prefix.
proof fn lemma_digits_prefix_le(s: Seq<char>, i: int)
    requires
        all_digits(s),
        0 <= i <= s.len(),
    ensures
        digits_val(s) >= digits_val(s.take(i)),
    decreases s.len() - i,
{
    if i < s.len() {
        lemma_digits_prefix_le(s, i + 1);
        // one more digit multiplies the prefix by ten and adds a digit
        assert(s.take(i + 1).drop_last() =~= s.take(i));
        assert(s.take(i + 1).last() == s[i]);
        assert(digits_val(s.take(i + 1)) == digits_val(s.take(i)) * 10 + digit_val(s[i]));
        lemma_digits_val_take_nonneg(s, i);
        assert(digits_val(s.take(i)) * 10 >= digits_val(s.take(i))) by {
            lemma_mul_inequality(1, 10, digits_val(s.take(i)));
        }
    } else {
        assert(s.take(i) =~= s);
    }
}

proof fn lemma_digits_val_take_nonneg(s: Seq<char>, i: int)
    requires
        all_digits(s),
        0 <= i <= s.len(),
    ensures
        digits_val(s.take(i)) >= 0,
{
    assert(all_digits(s.take(i))) by {
        assert forall|j: int| 0 <= j < i implies is_digit(#[trigger] s.take(i)[j]) by {
            assert(s.take(i)[j] == s[j]);
        }
    }
    lemma_digits_val_nonneg(s.take(i));
}

/// Whether a character is a decimal digit.
pub fn digit_char(c: char) -> (b: bool)
    ensures
        b == is_digit(c),
{
    let u = c as u32;
    48 <= u && u <= 57
}

/// Parses a signed decimal integer exactly as the shell's argument
/// grammar allows it: an optional `+` or `-`, then digits.  Returns
/// `None` when the text is not such a literal or its value does not
/// fit in an `i64`.
pub fn parse_i64(s: &str) -> (r: Option<i64>)
    ensures
        r.is_some() == (is_int_literal(s@) && i64::MIN <= int_literal_val(s@) <= i64::MAX),
        (r matches Some(v) ==> v as int == int_literal_val(s@)),
{
    let n = s.unicode_len();
    if n == 0 {
        return None;
    }
    let first = s.get_char(0);
    let neg = first == '-';
    let has_sign = first == '-' || first == '+';
    let start: usize = if has_sign {
        1
    } else {
        0
    };
    if start == n {
        return None;
    }
    let ghost digits = s@.skip(start as int);
    proof {
        assert(s@.skip(0) =~= s@);
    }
    let mut acc: u64 = 0;
    let mut i = start;
    while i < n
        invariant
            n == s@.len(),
            start <= i <= n,
            start <= 1,
            n > start,
            digits == s@.skip(start as int),
            has_sign == (s@[0] == '-' || s@[0] == '+'),
            neg == (s@[0] == '-'),
            (has_sign ==> start == 1),
            (!has_sign ==> start == 0),
            all_digits(digits.take(i - start)),
            acc == digits_val(digits.take(i - start)),
        decreases n - i,
    {
        let c = s.get_char(i);
        assert(digits[i - start] == s@[i as int]);
        if !digit_char(c) {
            proof {
                assert(!all_digits(digits));
                assert(!is_int_literal(s@));
            }
            return None;
        }
        let d = (c as u32 - 48) as u64;
        proof {
            assert(digits.take(i + 1 - start).drop_last() =~= digits.take(i - start));
            assert(digits.take(i + 1 - start).last() == digits[i - start]);
            assert forall|j: int| 0 <= j < i + 1 - start implies is_digit(
                #[trigger] digits.take(i + 1 - start)[j],
            ) by {
                assert(digits.take(i + 1 - start)[j] == digits[j]);
            }
        }
        let next = match acc.checked_mul(10) {
            Some(x) => x.checked_add(d),
            None => None,
        };
        match next {
            Some(x) => {
                acc = x;
            },
            None => {
                proof {
                    // the prefix alone is already out of range
                    let pre = digits.take(i + 1 - start);
                    assert(digits_val(pre) == acc * 10 + d);
                    assert(digits_val(pre) > u64::MAX);
                    if is_int_literal(s@) {
                        assert(all_digits(digits));
                        lemma_digits_prefix_le(digits, i + 1 - start);
                        assert(digits_val(digits) >= digits_val(pre));
                        assert(digits_val(digits) > u64::MAX);
                        if neg {
                            assert(int_literal_val(s@) == -digits_val(digits));
                        } else if has_sign {
                            assert(s@[0] == '+');
                            assert(start == 1);
                            assert(digits == s@.skip(1));
                            assert(int_literal_val(s@) == digits_val(digits));
                        } else {
                            assert(digits == s@);
                            assert(int_literal_val(s@) == digits_val(digits));
                        }
                        assert(int_literal_val(s@) > i64::MAX || int_literal_val(s@) < i64::MIN);
                    }
                }
                return None;
            },
        }
        i = i + 1;
    }
    proof {
        assert(digits.take(n - start) =~= digits);
        assert(is_int_literal(s@));
    }
    if neg {
        if acc > 9223372036854775808 {
            proof {
                assert(int_literal_val(s@) < i64::MIN);
            }
            None
        } else if acc == 9223372036854775808 {
            Some(i64::MIN)
        } else {
            Some(-(acc as i64))
        }
    } else {
        if acc > 9223372036854775807 {
            proof {
                assert(int_literal_val(s@) > i64::MAX);
            }
            None
        } else {
            Some(acc as i64)
        }
    }
}

/// Parses a signed decimal integer that must fit in an `i32`.
pub fn parse_i32(s: &str) -> (r: Option<i32>)
    ensures
        r.is_some() == (is_int_literal(s@) && i32::MIN <= int_literal_val(s@) <= i32::MAX),
        (r matches Some(v) ==> v as int == int_literal_val(s@)),
{
    match parse_i64(s) {
        None => None,
        Some(v) => {
            if v < -2147483648 || v > 2147483647 {
                None
            } else {
                Some(v as i32)
            }
        },
    }
}

/// The digit character of one digit value.
pub open spec fn digit_char_of(d: int) -> char {
    if d == 0 {
        '0'
    } else if d == 1 {
        '1'
    } else if d == 2 {
        '2'
    } else if d == 3 {
        '3'
    } else if d == 4 {
        '4'
    } else if d == 5 {
        '5'
    } else if d == 6 {
        '6'
    } else if d == 7 {
        '7'
    } else if d == 8 {
        '8'
    } else {
        '9'
    }
}

/// The decimal rendering of a nonnegative number, without sign or
/// leading zeros (`0` renders as `"0"`).
pub open spec fn dec_digits(n: int) -> Seq<char>
    decreases n,
{
    if n < 10 {
        seq![digit_char_of(n)]
    } else {
        dec_digits(n / 10).push(digit_char_of(n % 10))
    }
}

/// How many digits the decimal rendering has.
pub open spec fn dec_len(n: int) -> int {
    dec_digits(n).len() as int
}

fn digit_char_for(d: u64) -> (c: char)
    requires
        d < 10,
    ensures
        c == digit_char_of(d as int),
{
    if d == 0 {
        '0'
    } else if d == 1 {
        '1'
    } else if d == 2 {
        '2'
    } else if d == 3 {
        '3'
    } else if d == 4 {
        '4'
    } else if d == 5 {
        '5'
    } else if d == 6 {
        '6'
    } else if d == 7 {
        '7'
    } else if d == 8 {
        '8'
    } else {
        '9'
    }
}

fn dec_chars(n: u64) -> (r: Vec<char>)
    ensures
        r@ == dec_digits(n as int),
        r@.len() >= 1,
    decreases n,
{
    if n < 10 {
        let mut v: Vec<char> = Vec::new();
        v.push(digit_char_for(n));
        assert(v@ =~= seq![digit_char_of(n as int)]);
        v
    } else {
        let mut v = dec_chars(n / 10);
        v.push(digit_char_for(n % 10));
        v
    }
}

/// Renders a number in decimal.
pub fn format_u64(n: u64) -> (r: String)
    ensures
        r@ == dec_digits(n as int),
{
    chars_to_string(&dec_chars(n))
}

/// The number of digits in the decimal rendering of `n`.
pub fn dec_width(n: u64) -> (w: usize)
    ensures
        w == dec_len(n as int),
{
    let chars = dec_chars(n);
    chars.len()
}

} // verus!
