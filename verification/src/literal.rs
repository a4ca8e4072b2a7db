//! Integer literals.
//!
//! A token is a literal when it is an optional sign, `+` or `-`, followed by
//! one or more decimal digits, and the number so written fits in 32 bits.
//! Nothing else is a literal: no blanks, no separators, no other digits than
//! the ASCII ones.
use vstd::prelude::*;
use vstd::string::*;

verus! {

/// The ASCII code of `-`.
const MINUS: u8 = 45;

/// The ASCII code of `+`.
const PLUS: u8 = 43;

/// The ASCII code of `0`.
const ZERO: u8 = 48;

/// The ASCII code of `9`.
const NINE: u8 = 57;

/// `c` is one of the ten ASCII digits.
pub open spec fn is_digit(c: char) -> bool {
    '0' <= c <= '9'
}

/// The number that a digit stands for.
pub open spec fn digit_value(c: char) -> int {
    c as int - '0' as int
}

/// Every element of `s` is a digit.
pub open spec fn all_digits(s: Seq<char>) -> bool {
    forall|i: int| 0 <= i < s.len() ==> is_digit(#[trigger] s[i])
}

/// The number that a run of digits writes in base ten; `0` for the empty run.
pub open spec fn digits_value(s: Seq<char>) -> int
    decreases s.len(),
{
    if s.len() == 0 {
        0
    } else {
        10 * digits_value(s.drop_last()) + digit_value(s.last())
    }
}

/// `s` begins with a sign.
pub open spec fn has_sign(s: Seq<char>) -> bool {
    s.len() > 0 && (s[0] == '-' || s[0] == '+')
}

/// The digits of `s`: all of it but a leading sign.
pub open spec fn digits_of(s: Seq<char>) -> Seq<char> {
    if has_sign(s) {
        s.skip(1)
    } else {
        s
    }
}

/// `s` has the shape of a literal: an optional sign, then at least one digit.
pub open spec fn well_shaped(s: Seq<char>) -> bool {
    digits_of(s).len() > 0 && all_digits(digits_of(s))
}

/// The number that a well-shaped `s` writes, of any size.
pub open spec fn written_value(s: Seq<char>) -> int {
    if s.len() > 0 && s[0] == '-' {
        -digits_value(digits_of(s))
    } else {
        digits_value(digits_of(s))
    }
}

/// The value of `s` as a literal, or `None` when `s` is not one.
pub open spec fn literal(s: Seq<char>) -> Option<i32> {
    if well_shaped(s) && i32::MIN <= written_value(s) <= i32::MAX {
        Some(written_value(s) as i32)
    } else {
        None
    }
}

/// A run of digits writes no less than any of its prefixes does.
pub proof fn lemma_digits_grow(s: Seq<char>, k: int)
    requires
        all_digits(s),
        0 <= k <= s.len(),
    ensures
        0 <= digits_value(s.take(k)) <= digits_value(s),
    decreases s.len() - k,
{
    if k == s.len() {
        assert(s.take(k) =~= s);
        lemma_digits_nonnegative(s);
    } else {
        lemma_digits_grow(s, k + 1);
        let longer = s.take(k + 1);
        assert(longer.drop_last() =~= s.take(k));
        assert(is_digit(s[k]));
        assert(longer.last() == s[k]);
        lemma_digits_nonnegative(s.take(k));
    }
}

/// A run of digits writes a number that is not negative.
pub proof fn lemma_digits_nonnegative(s: Seq<char>)
    requires
        all_digits(s),
    ensures
        0 <= digits_value(s),
    decreases s.len(),
{
    if s.len() > 0 {
        assert(is_digit(s.last()));
        lemma_digits_nonnegative(s.drop_last());
    }
}

/// Reads `token` as an integer literal.
///
/// Returns the value when `token` is a literal, `None` when it is not:
/// when it is empty, a bare sign, holds anything but digits after the
/// optional sign, or writes a number outside the 32-bit range.
pub fn parse_i32(token: &str) -> (r: Option<i32>)
    ensures
        r == literal(token@),
{
    if !token.is_ascii() {
        proof {
            let i: int = choose|i: int|
                0 <= i < token@.len() && !('\0' <= #[trigger] token@[i] <= '\u{7f}');
            if has_sign(token@) {
                if i > 0 {
                    assert(token@.skip(1)[i - 1] == token@[i]);
                }
            }
        }
        return None;
    }
    let n: usize = token.unicode_len();
    if n == 0 {
        return None;
    }
    let first: u8 = token.get_ascii(0);
    let negative: bool = first == MINUS;
    let start: usize = if first == MINUS || first == PLUS {
        1
    } else {
        0
    };
    let ghost digits: Seq<char> = digits_of(token@);
    assert(digits =~= token@.skip(start as int));
    if start == n {
        return None;
    }
    let mut acc: i64 = 0;
    let mut i: usize = start;
    while i < n
        invariant
            start <= i <= n,
            n == token@.len(),
            is_ascii(token),
            digits == digits_of(token@),
            digits == token@.skip(start as int),
            negative == (token@[0] == '-'),
            all_digits(digits.take(i - start)),
            acc == digits_value(digits.take(i - start)),
            0 <= acc <= 2147483648,
        decreases n - i,
    {
        let b: u8 = token.get_ascii(i);
        let ghost c: char = token@[i as int];
        assert(digits[i - start] == c);
        if b < ZERO || b > NINE {
            assert(!is_digit(c));
            return None;
        }
        assert(is_digit(c));
        let d: i64 = (b - ZERO) as i64;
        assert(d == digit_value(c));
        let ghost longer: Seq<char> = digits.take(i - start + 1);
        assert(longer.drop_last() =~= digits.take(i - start));
        assert(longer.last() == c);
        acc = acc * 10 + d;
        assert(acc == digits_value(longer));
        assert(all_digits(longer)) by {
            assert forall|j: int| 0 <= j < longer.len() implies is_digit(#[trigger] longer[j]) by {
                if j < i - start {
                    assert(digits.take(i - start)[j] == longer[j]);
                }
            }
        }
        if acc > 2147483648 {
            proof {
                if all_digits(digits) {
                    lemma_digits_grow(digits, i - start + 1);
                }
            }
            return None;
        }
        i += 1;
    }
    assert(digits.take(n - start) =~= digits);
    if negative {
        Some((-acc) as i32)
    } else if acc <= 2147483647 {
        Some(acc as i32)
    } else {
        None
    }
}

} // verus!
