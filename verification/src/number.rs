//! Decimal numbers in text: where a number stands and what it is worth.

use crate::text::{
    has_at_caseless, is_digit, lemma_run_end, lemma_run_end_advances, run_end, scan, skip_caseless,
    Class, DOT, MINUS, NINE, PLUS, ZERO,
};
use vstd::prelude::*;
use vstd::string::StringSliceAdditionalSpecFns;

verus! {

/// What a run of digits is worth in base ten.
pub open spec fn digits_value(s: Seq<u8>) -> nat
    decreases s.len(),
{
    if s.len() == 0 {
        0
    } else {
        (digits_value(s.drop_last()) * 10 + (s.last() - ZERO)) as nat
    }
}

/// A longer run of digits is worth no less than its beginning.
pub proof fn lemma_digits_value_grows(s: Seq<u8>, n: int)
    requires
        0 <= n <= s.len(),
        forall|i: int| 0 <= i < s.len() ==> is_digit(#[trigger] s[i]),
    ensures
        digits_value(s.subrange(0, n)) <= digits_value(s),
    decreases s.len() - n,
{
    if n == s.len() {
        assert(s.subrange(0, n) =~= s);
    } else {
        lemma_digits_value_grows(s, n + 1);
        assert(s.subrange(0, n + 1).drop_last() =~= s.subrange(0, n));
    }
}

/// A single digit is worth itself.
pub proof fn lemma_single_digit(s: Seq<u8>)
    requires
        s.len() == 1,
        is_digit(s[0]),
    ensures
        digits_value(s) == s[0] - ZERO,
{
    assert(s.drop_last() =~= Seq::<u8>::empty());
    assert(digits_value(s.drop_last()) == 0);
}

/// Where the unsigned number that starts at `at` ends: a digit other than `0`
/// with all the digits that follow it, or a single `0`.
pub open spec fn unsigned_end(s: Seq<u8>, at: int) -> Option<int> {
    if 0 <= at < s.len() && is_digit(s[at]) && s[at] != ZERO {
        Some(run_end(s, at, Class::Digit))
    } else if 0 <= at < s.len() && s[at] == ZERO {
        Some(at + 1)
    } else {
        None
    }
}

/// The unsigned number at `at` and where it ends, if one stands there and is
/// at most `max`.
pub open spec fn unsigned_at(s: Seq<u8>, at: int, max: int) -> Option<(int, int)> {
    match unsigned_end(s, at) {
        Some(end) => {
            let value = digits_value(s.subrange(at, end));
            if value <= max {
                Some((value as int, end))
            } else {
                None
            }
        },
        None => None,
    }
}

/// Where the digits of the signed number at `at` start: after its sign, if
/// it has one.
pub open spec fn after_sign(s: Seq<u8>, at: int) -> int {
    if 0 <= at < s.len() && (s[at] == PLUS || s[at] == MINUS) {
        at + 1
    } else {
        at
    }
}

/// Where the signed number that starts at `at` ends: an optional sign, a
/// digit other than `0` and all the digits that follow it; or a single `0`
/// without sign.
pub open spec fn signed_end(s: Seq<u8>, at: int) -> Option<int> {
    let digits = after_sign(s, at);
    if 0 <= digits < s.len() && is_digit(s[digits]) && s[digits] != ZERO {
        Some(run_end(s, digits, Class::Digit))
    } else if 0 <= at < s.len() && s[at] == ZERO {
        Some(at + 1)
    } else {
        None
    }
}

/// The signed number at `at` and where it ends, if one stands there and fits
/// 32 bits.
pub open spec fn signed_at(s: Seq<u8>, at: int) -> Option<(int, int)> {
    match signed_end(s, at) {
        Some(end) => {
            let digits = after_sign(s, at);
            let magnitude = digits_value(s.subrange(digits, end)) as int;
            let value = if s[at] == MINUS {
                -magnitude
            } else {
                magnitude
            };
            if i32::MIN <= value <= i32::MAX {
                Some((value, end))
            } else {
                None
            }
        },
        None => None,
    }
}

/// Reads the digits of `s` from `from` up to `to`. Returns their worth where
/// it is at most `max`.
fn read_digits(s: &[u8], from: usize, to: usize, max: u64) -> (r: Option<u64>)
    requires
        from <= to <= s@.len(),
        forall|i: int| from <= i < to ==> is_digit(#[trigger] s@[i]),
        max <= u32::MAX,
    ensures
        r matches Some(v) ==> v == digits_value(s@.subrange(from as int, to as int)) && v <= max,
        r is None ==> digits_value(s@.subrange(from as int, to as int)) > max,
{
    let mut acc: u64 = 0;
    let mut i: usize = from;
    assert(s@.subrange(from as int, from as int) =~= Seq::<u8>::empty());
    while i < to
        invariant
            from <= i <= to <= s@.len(),
            forall|j: int| from <= j < to ==> is_digit(#[trigger] s@[j]),
            max <= u32::MAX,
            acc == digits_value(s@.subrange(from as int, i as int)),
            acc <= max,
        decreases to - i,
    {
        let digit: u64 = (s[i] - ZERO) as u64;
        let next: u64 = acc * 10 + digit;
        proof {
            assert(s@.subrange(from as int, i + 1).drop_last() =~= s@.subrange(
                from as int,
                i as int,
            ));
            assert(next == digits_value(s@.subrange(from as int, i + 1)));
        }
        if next > max {
            proof {
                let all = s@.subrange(from as int, to as int);
                assert(all.subrange(0, i + 1 - from) =~= s@.subrange(from as int, i + 1));
                lemma_digits_value_grows(all, i + 1 - from);
            }
            return None;
        }
        acc = next;
        i += 1;
    }
    Some(acc)
}

/// Reads the unsigned number that stands at `at`.
pub fn read_unsigned(s: &[u8], at: usize, max: u32) -> (r: Option<(u32, usize)>)
    requires
        at <= s@.len(),
    ensures
        match r {
            Some((value, end)) => unsigned_at(s@, at as int, max as int) == Some(
                (value as int, end as int),
            ) && at < end <= s@.len(),
            None => unsigned_at(s@, at as int, max as int) is None,
        },
{
    if at >= s.len() {
        return None;
    }
    let first = s[at];
    if first == ZERO {
        proof {
            lemma_single_digit(s@.subrange(at as int, at + 1));
        }
        return Some((0, at + 1));
    }
    if !(ZERO < first && first <= NINE) {
        return None;
    }
    let end = scan(s, at, Class::Digit);
    proof {
        lemma_run_end(s@, at as int, Class::Digit);
    }
    match read_digits(s, at, end, max as u64) {
        Some(v) => Some((v as u32, end)),
        None => None,
    }
}

/// Reads the signed number that stands at `at`.
pub fn read_signed(s: &[u8], at: usize) -> (r: Option<(i32, usize)>)
    requires
        at <= s@.len(),
    ensures
        match r {
            Some((value, end)) => signed_at(s@, at as int) == Some((value as int, end as int))
                && at < end <= s@.len(),
            None => signed_at(s@, at as int) is None,
        },
{
    if at >= s.len() {
        return None;
    }
    let first = s[at];
    let negative = first == MINUS;
    let digits: usize = if first == PLUS || first == MINUS {
        at + 1
    } else {
        at
    };
    if digits < s.len() && ZERO < s[digits] && s[digits] <= NINE {
        let end = scan(s, digits, Class::Digit);
        proof {
            lemma_run_end(s@, digits as int, Class::Digit);
        }
        let limit: u64 = if negative {
            0x8000_0000
        } else {
            0x7fff_ffff
        };
        match read_digits(s, digits, end, limit) {
            Some(magnitude) => {
                let value: i64 = if negative {
                    -(magnitude as i64)
                } else {
                    magnitude as i64
                };
                Some((value as i32, end))
            },
            None => None,
        }
    } else if first == ZERO {
        proof {
            lemma_single_digit(s@.subrange(at as int, at + 1));
        }
        Some((0, at + 1))
    } else {
        None
    }
}

/// A digit stands at `at`.
pub open spec fn digit_at(s: Seq<u8>, at: int) -> bool {
    0 <= at < s.len() && is_digit(s[at])
}

/// The byte `b` stands at `at`.
pub open spec fn byte_at(s: Seq<u8>, at: int, b: u8) -> bool {
    0 <= at < s.len() && s[at] == b
}

/// Where the digits and the point of the number at `at` end: digits, with
/// an optional point and optional digits after it; or a point and digits.
pub open spec fn mantissa_end(s: Seq<u8>, at: int) -> Option<int> {
    if digit_at(s, at) {
        let whole = run_end(s, at, Class::Digit);
        if byte_at(s, whole, DOT) {
            Some(run_end(s, whole + 1, Class::Digit))
        } else {
            Some(whole)
        }
    } else if byte_at(s, at, DOT) && digit_at(s, at + 1) {
        Some(run_end(s, at + 1, Class::Digit))
    } else {
        None
    }
}

/// Where the number whose digits end at `at` ends with its exponent: an `e`
/// in either case, an optional sign and digits. An `e` without digits spoils
/// the number.
pub open spec fn exponent_end(s: Seq<u8>, at: int) -> Option<int> {
    if byte_at(s, at, 101) || byte_at(s, at, 69) {
        let digits = after_sign(s, at + 1);
        if digit_at(s, digits) {
            Some(run_end(s, digits, Class::Digit))
        } else {
            None
        }
    } else {
        Some(at)
    }
}

/// Where the word for a number that is no number, or for an endless one,
/// ends: `nan`, or `infinity` or `inf` after an optional sign, in either
/// case.
pub open spec fn special_end(s: Seq<u8>, at: int) -> Option<int> {
    let word = after_sign(s, at);
    if has_at_caseless(s, at, "nan".spec_bytes()) {
        Some(at + "nan".spec_bytes().len())
    } else if has_at_caseless(s, word, "infinity".spec_bytes()) {
        Some(word + "infinity".spec_bytes().len())
    } else if has_at_caseless(s, word, "inf".spec_bytes()) {
        Some(word + "inf".spec_bytes().len())
    } else {
        None
    }
}

/// Where the decimal number with fraction that starts at `at` ends: an
/// optional sign, digits and point, and an optional exponent; or one of the
/// words of `special_end`.
pub open spec fn float_end(s: Seq<u8>, at: int) -> Option<int> {
    match mantissa_end(s, after_sign(s, at)) {
        Some(digits) => exponent_end(s, digits),
        None => special_end(s, at),
    }
}

fn skip_sign(s: &[u8], at: usize) -> (r: usize)
    requires
        at <= s@.len(),
    ensures
        r == after_sign(s@, at as int),
        at <= r <= s@.len(),
{
    if at < s.len() && (s[at] == PLUS || s[at] == MINUS) {
        at + 1
    } else {
        at
    }
}

fn has_digit(s: &[u8], at: usize) -> (r: bool)
    requires
        at <= s@.len(),
    ensures
        r == digit_at(s@, at as int),
{
    at < s.len() && ZERO <= s[at] && s[at] <= NINE
}

/// Finds the end of the decimal number with fraction that starts at `at`.
pub fn read_float(s: &[u8], at: usize) -> (r: Option<usize>)
    requires
        at <= s@.len(),
    ensures
        match r {
            Some(end) => float_end(s@, at as int) == Some(end as int) && at < end <= s@.len(),
            None => float_end(s@, at as int) is None,
        },
{
    let start = skip_sign(s, at);
    let digits: usize;
    if has_digit(s, start) {
        let whole = scan(s, start, Class::Digit);
        proof {
            lemma_run_end_advances(s@, start as int, Class::Digit);
        }
        if whole < s.len() && s[whole] == DOT {
            digits = scan(s, whole + 1, Class::Digit);
        } else {
            digits = whole;
        }
    } else if start < s.len() && s[start] == DOT && has_digit(s, start + 1) {
        digits = scan(s, start + 1, Class::Digit);
    } else {
        if let Some(end) = skip_caseless(s, at, "nan".as_bytes()) {
            assert(end > at) by {
                reveal_strlit("nan");
                vstd::string::is_ascii_spec_bytes("nan");
            }
            return Some(end);
        }
        if let Some(end) = skip_caseless(s, start, "infinity".as_bytes()) {
            assert(end > at) by {
                reveal_strlit("infinity");
                vstd::string::is_ascii_spec_bytes("infinity");
            }
            return Some(end);
        }
        if let Some(end) = skip_caseless(s, start, "inf".as_bytes()) {
            assert(end > at) by {
                reveal_strlit("inf");
                vstd::string::is_ascii_spec_bytes("inf");
            }
            return Some(end);
        }
        return None;
    }
    if digits < s.len() && (s[digits] == 101 || s[digits] == 69) {
        let power = skip_sign(s, digits + 1);
        if has_digit(s, power) {
            Some(scan(s, power, Class::Digit))
        } else {
            None
        }
    } else {
        Some(digits)
    }
}

} // verus!
