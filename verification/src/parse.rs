//! Parsing of human-readable size specifications.
//!
//! A size specification is a non-empty string of decimal digits followed by
//! an optional one-letter unit suffix: none for bytes, `k`/`K` for KiB,
//! `m`/`M` for MiB, `g`/`G` for GiB. `parse_size` turns such a string into a
//! byte count and reports exactly why a malformed one is rejected.

use vstd::prelude::*;
use vstd::string::StrSliceExecFns;

verus! {

/// Why a size specification was rejected.
#[derive(Clone, Copy, Debug, PartialEq, Eq, Structural)]
pub enum SizeSpecError {
    /// The specification is the empty string.
    Empty,
    /// The specification does not begin with a decimal digit.
    InvalidNumber,
    /// The text after the leading digits is not a recognised unit suffix.
    InvalidUnit,
    /// The denoted byte count does not fit in `usize`.
    Overflow,
}

/// Whether `c` is one of the decimal digits `'0'` to `'9'`.
pub open spec fn is_decimal_digit(c: char) -> bool {
    48 <= c as int && c as int <= 57
}

/// The numeric value of a decimal digit.
pub open spec fn digit_value(c: char) -> int {
    c as int - 48
}

/// The value of a string of decimal digits read in base ten; `0` for the
/// empty string.
pub open spec fn digits_value(s: Seq<char>) -> int
    decreases s.len(),
{
    if s.len() == 0 {
        0
    } else {
        digits_value(s.drop_last()) * 10 + digit_value(s.last())
    }
}

/// The length of the longest prefix of `s` made of decimal digits.
pub open spec fn digit_prefix_len(s: Seq<char>) -> int
    decreases s.len(),
{
    if s.len() == 0 || !is_decimal_digit(s[0]) {
        0
    } else {
        1 + digit_prefix_len(s.subrange(1, s.len() as int))
    }
}

/// The multiplier a unit suffix denotes: 1 for no suffix, 1024 for `k`/`K`,
/// 1024² for `m`/`M`, 1024³ for `g`/`G`, and nothing for any other text.
pub open spec fn unit_factor(unit: Seq<char>) -> Option<int> {
    if unit.len() == 0 {
        Some(1)
    } else if unit.len() == 1 && (unit[0] == 'k' || unit[0] == 'K') {
        Some(1024)
    } else if unit.len() == 1 && (unit[0] == 'm' || unit[0] == 'M') {
        Some(1048576)
    } else if unit.len() == 1 && (unit[0] == 'g' || unit[0] == 'G') {
        Some(1073741824)
    } else {
        None
    }
}

/// What `parse_size` returns for a specification `s`: the digit prefix read
/// in base ten times the suffix's multiplier, or the error naming the first
/// thing wrong with `s` — emptiness, a missing number, a byte count over
/// `usize::MAX`, or an unknown suffix.
pub open spec fn spec_parse_size(s: Seq<char>) -> Result<usize, SizeSpecError> {
    let n = digit_prefix_len(s);
    if s.len() == 0 {
        Err(SizeSpecError::Empty)
    } else if n == 0 {
        Err(SizeSpecError::InvalidNumber)
    } else if digits_value(s.take(n)) > usize::MAX as int {
        Err(SizeSpecError::Overflow)
    } else {
        match unit_factor(s.skip(n)) {
            None => Err(SizeSpecError::InvalidUnit),
            Some(factor) => {
                let total = digits_value(s.take(n)) * factor;
                if total > usize::MAX as int {
                    Err(SizeSpecError::Overflow)
                } else {
                    Ok(total as usize)
                }
            },
        }
    }
}

/// A scan that saw digits at every index below `n` and stopped at the end or
/// at a non-digit found exactly the digit prefix.
proof fn lemma_digit_prefix_len_from_scan(s: Seq<char>, n: int)
    requires
        0 <= n <= s.len(),
        forall|j: int| 0 <= j < n ==> is_decimal_digit(#[trigger] s[j]),
        n == s.len() || !is_decimal_digit(s[n]),
    ensures
        digit_prefix_len(s) == n,
    decreases s.len(),
{
    if n == 0 {
    } else {
        let tail = s.subrange(1, s.len() as int);
        assert(forall|j: int| 0 <= j < n - 1 ==> is_decimal_digit(#[trigger] tail[j]));
        assert(n - 1 == tail.len() || !is_decimal_digit(tail[n - 1]));
        lemma_digit_prefix_len_from_scan(tail, n - 1);
    }
}

/// A string of digits denotes a non-negative value.
proof fn lemma_digits_value_nonneg(s: Seq<char>)
    requires
        forall|j: int| 0 <= j < s.len() ==> is_decimal_digit(#[trigger] s[j]),
    ensures
        digits_value(s) >= 0,
    decreases s.len(),
{
    if s.len() > 0 {
        lemma_digits_value_nonneg(s.drop_last());
    }
}

/// Reading one more digit never shrinks the value: the value of a shorter
/// digit prefix is at most the value of a longer one.
proof fn lemma_digits_value_prefix_monotone(s: Seq<char>, i: int, j: int)
    requires
        0 <= i <= j <= s.len(),
        forall|k: int| 0 <= k < j ==> is_decimal_digit(#[trigger] s[k]),
    ensures
        digits_value(s.take(i)) <= digits_value(s.take(j)),
    decreases j - i,
{
    if i < j {
        lemma_digits_value_prefix_monotone(s, i, j - 1);
        assert(s.take(j).drop_last() =~= s.take(j - 1));
        assert(forall|k: int|
            0 <= k < j - 1 ==> is_decimal_digit(#[trigger] s.take(j - 1)[k]));
        lemma_digits_value_nonneg(s.take(j - 1));
    }
}

/// Whether `c` is a decimal digit, decided on its code point.
fn is_digit_char(c: char) -> (r: bool)
    ensures
        r == is_decimal_digit(c),
{
    let code: u32 = c as u32;
    48 <= code && code <= 57
}

/// The byte count a size specification denotes: its leading decimal digits
/// times the multiplier of its unit suffix, exactly as `spec_parse_size`
/// states, with each malformed input mapped to the error that names its
/// defect.
pub fn parse_size(size_spec: &str) -> (r: Result<usize, SizeSpecError>)
    ensures
        r == spec_parse_size(size_spec@),
{
    let ghost s: Seq<char> = size_spec@;
    let len: usize = size_spec.unicode_len();
    if len == 0 {
        return Err(SizeSpecError::Empty);
    }
    let mut n: usize = 0;
    while n < len && is_digit_char(size_spec.get_char(n))
        invariant
            n <= len,
            len == s.len(),
            s == size_spec@,
            forall|j: int| 0 <= j < n ==> is_decimal_digit(#[trigger] s[j]),
        decreases len - n,
    {
        n += 1;
    }
    proof {
        lemma_digit_prefix_len_from_scan(s, n as int);
    }
    if n == 0 {
        return Err(SizeSpecError::InvalidNumber);
    }
    let mut value: usize = 0;
    let mut i: usize = 0;
    while i < n
        invariant
            i <= n,
            0 < n <= len,
            len == s.len(),
            s == size_spec@,
            digit_prefix_len(s) == n,
            forall|j: int| 0 <= j < n ==> is_decimal_digit(#[trigger] s[j]),
            value == digits_value(s.take(i as int)),
        decreases n - i,
    {
        let c: char = size_spec.get_char(i);
        let d: usize = (c as u32 - 48) as usize;
        if value > (usize::MAX - d) / 10 {
            proof {
                assert((value as int <= (usize::MAX as int - d) / 10) == (value as int * 10 + d
                    <= usize::MAX as int)) by (nonlinear_arith)
                    requires
                        0 <= value as int,
                        0 <= d <= 9,
                        d <= usize::MAX as int,
                ;
                assert(s.take(i + 1).drop_last() =~= s.take(i as int));
                assert(s.take(i + 1).last() == s[i as int]);
                assert(digit_value(s[i as int]) == d);
                assert(digits_value(s.take(i + 1)) == digits_value(s.take(i as int)) * 10
                    + digit_value(s[i as int]));
                assert(digits_value(s.take(i + 1)) > usize::MAX as int);
                lemma_digits_value_prefix_monotone(s, i + 1, n as int);
                assert(digits_value(s.take(n as int)) > usize::MAX as int);
            }
            return Err(SizeSpecError::Overflow);
        }
        proof {
            assert((value as int <= (usize::MAX as int - d) / 10) == (value as int * 10 + d
                <= usize::MAX as int)) by (nonlinear_arith)
                requires
                    0 <= value as int,
                    0 <= d <= 9,
                    d <= usize::MAX as int,
            ;
            assert(s.take(i + 1).drop_last() =~= s.take(i as int));
        }
        value = value * 10 + d;
        i += 1;
    }
    assert(s.take(n as int) == s.take(i as int));
    let factor: usize = if n == len {
        1
    } else if n + 1 == len {
        let c: char = size_spec.get_char(n);
        proof {
            assert(s.skip(n as int).len() == 1);
            assert(s.skip(n as int)[0] == s[n as int]);
        }
        if c == 'k' || c == 'K' {
            1024
        } else if c == 'm' || c == 'M' {
            1048576
        } else if c == 'g' || c == 'G' {
            1073741824
        } else {
            return Err(SizeSpecError::InvalidUnit);
        }
    } else {
        proof {
            assert(s.skip(n as int).len() >= 2);
        }
        return Err(SizeSpecError::InvalidUnit);
    };
    proof {
        assert((value as int <= usize::MAX as int / factor as int) == (value as int * factor as int
            <= usize::MAX as int)) by (nonlinear_arith)
            requires
                0 <= value as int,
                0 < factor as int,
        ;
    }
    if value > usize::MAX / factor {
        return Err(SizeSpecError::Overflow);
    }
    Ok(value * factor)
}

} // verus!
