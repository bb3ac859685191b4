//! The acknowledgements of a device: `ok`, with or without the number of the
//! line it confirms, and `Resend:`, with or without the number of the line
//! it asks for again.

use crate::encoder::{decimal, decimal_digits, lemma_decimal_digits, lemma_leading_digit};
use crate::number::{after_sign, lemma_single_digit, read_signed, signed_at, signed_end};
use crate::text::{
    has_at_caseless, lemma_run_end_is, run_end, scan, skip_caseless, upper_seq, Class, COLON,
    NEWLINE, UPPER_N,
};
use vstd::prelude::*;
use vstd::string::StringSliceAdditionalSpecFns;

verus! {

/// What a device says of a line it was sent: that it has run it, or that it
/// wants it again.
#[derive(Debug, Clone, Copy, PartialEq, Eq, Structural)]
pub enum Response {
    Okay(Option<i32>),
    Resend(Option<i32>),
}

/// The word that opens a confirmation.
pub open spec fn ok_word() -> Seq<u8> {
    "ok".spec_bytes()
}

/// The word that opens a request to send a line again.
pub open spec fn resend_word() -> Seq<u8> {
    "Resend:".spec_bytes()
}

/// The position after one optional byte `b` at `at`.
pub open spec fn after_optional(s: Seq<u8>, at: int, b: u8) -> int {
    if 0 <= at < s.len() && s[at] == b {
        at + 1
    } else {
        at
    }
}

/// The line number at `at`, if one stands there, and the position after it
/// and the whitespace that follows.
pub open spec fn line_number(s: Seq<u8>, at: int) -> (Option<i32>, int) {
    match signed_at(s, at) {
        Some((value, end)) => (Some(value as i32), run_end(s, end, Class::Whitespace)),
        None => (None, run_end(s, at, Class::Whitespace)),
    }
}

/// A confirmation at the start of `s`, and how much of `s` it takes: blanks,
/// `ok` in either case, an optional `:`, blanks, an optional `N`, an optional
/// line number and whitespace.
pub open spec fn ok_response_at(s: Seq<u8>) -> Option<(Response, int)> {
    let word = run_end(s, 0, Class::Blank);
    if has_at_caseless(s, word, ok_word()) {
        let colon = word + ok_word().len();
        let blanks = after_optional(s, colon, COLON);
        let letter = run_end(s, blanks, Class::Blank);
        let number = after_optional(s, letter, UPPER_N);
        let (n, end) = line_number(s, number);
        Some((Response::Okay(n), end))
    } else {
        None
    }
}

/// A request to send again at the start of `s`, and how much of `s` it takes:
/// blanks, `Resend:` in either case, blanks, an optional `N`, an optional
/// line number and whitespace.
pub open spec fn resend_response_at(s: Seq<u8>) -> Option<(Response, int)> {
    let word = run_end(s, 0, Class::Blank);
    if has_at_caseless(s, word, resend_word()) {
        let blanks = word + resend_word().len();
        let letter = run_end(s, blanks, Class::Blank);
        let number = after_optional(s, letter, UPPER_N);
        let (n, end) = line_number(s, number);
        Some((Response::Resend(n), end))
    } else {
        None
    }
}

/// The acknowledgement at the start of `s`, and how much of `s` it takes.
pub open spec fn response_at(s: Seq<u8>) -> Option<(Response, int)> {
    match ok_response_at(s) {
        Some(found) => Some(found),
        None => resend_response_at(s),
    }
}

/// What a whole line acknowledges: the acknowledgement at its start, where
/// that takes all of the line.
pub open spec fn acknowledged(line: Seq<u8>) -> Option<Response> {
    match response_at(line) {
        Some((response, end)) => if end == line.len() {
            Some(response)
        } else {
            None
        },
        None => None,
    }
}

fn skip_optional(s: &[u8], at: usize, b: u8) -> (r: usize)
    requires
        at <= s@.len(),
    ensures
        r == after_optional(s@, at as int, b),
        at <= r <= s@.len(),
{
    if at < s.len() && s[at] == b {
        at + 1
    } else {
        at
    }
}

fn read_line_number(s: &[u8], at: usize) -> (r: (Option<i32>, usize))
    requires
        at <= s@.len(),
    ensures
        (r.0, r.1 as int) == line_number(s@, at as int),
        at <= r.1 <= s@.len(),
{
    match read_signed(s, at) {
        Some((value, end)) => (Some(value), scan(s, end, Class::Whitespace)),
        None => (None, scan(s, at, Class::Whitespace)),
    }
}

/// Reads a confirmation from the start of `input`. Returns it with the
/// number of bytes it takes.
pub fn ok_response(input: &[u8]) -> (r: Option<(Response, usize)>)
    ensures
        match r {
            Some((response, end)) => ok_response_at(input@) == Some((response, end as int))
                && end <= input@.len(),
            None => ok_response_at(input@) is None,
        },
{
    let word = scan(input, 0, Class::Blank);
    if let Some(colon) = skip_caseless(input, word, "ok".as_bytes()) {
        let blanks = skip_optional(input, colon, COLON);
        let letter = scan(input, blanks, Class::Blank);
        let number = skip_optional(input, letter, UPPER_N);
        let (n, end) = read_line_number(input, number);
        Some((Response::Okay(n), end))
    } else {
        None
    }
}

/// Reads a request to send again from the start of `input`. Returns it with
/// the number of bytes it takes.
pub fn resend_response(input: &[u8]) -> (r: Option<(Response, usize)>)
    ensures
        match r {
            Some((response, end)) => resend_response_at(input@) == Some((response, end as int))
                && end <= input@.len(),
            None => resend_response_at(input@) is None,
        },
{
    let word = scan(input, 0, Class::Blank);
    if let Some(blanks) = skip_caseless(input, word, "Resend:".as_bytes()) {
        let letter = scan(input, blanks, Class::Blank);
        let number = skip_optional(input, letter, UPPER_N);
        let (n, end) = read_line_number(input, number);
        Some((Response::Resend(n), end))
    } else {
        None
    }
}

/// Reads an acknowledgement from the start of `input`. Returns it with the
/// number of bytes it takes; what follows them is left alone.
pub fn response(input: &[u8]) -> (r: Option<(Response, usize)>)
    ensures
        match r {
            Some((response, end)) => response_at(input@) == Some((response, end as int)) && end
                <= input@.len(),
            None => response_at(input@) is None,
        },
{
    match ok_response(input) {
        Some(found) => Some(found),
        None => resend_response(input),
    }
}

/// Reads a whole line as an acknowledgement.
pub fn acknowledgement(line: &[u8]) -> (r: Option<Response>)
    ensures
        r == acknowledged(line@),
{
    match response(line) {
        Some((response, end)) => if end == line.len() {
            Some(response)
        } else {
            None
        },
        None => None,
    }
}

/// The line by which a device confirms the line with sequence number `k`.
pub open spec fn ok_line(k: i32) -> Seq<u8> {
    "ok N".spec_bytes() + decimal(k as int) + seq![NEWLINE]
}

/// The line by which a device asks for the line with sequence number `k`
/// again.
pub open spec fn resend_line(k: i32) -> Seq<u8> {
    "Resend: N".spec_bytes() + decimal(k as int) + seq![NEWLINE]
}

/// The number that a line carries behind its opening is read back whole:
/// where `s` holds the decimal notation of `k` at `at` and a line feed
/// after it, and ends there, the line number at `at` is `k`, and with the
/// line feed it takes the rest of the line.
pub proof fn lemma_line_number_reads_back(s: Seq<u8>, at: int, k: i32)
    requires
        0 <= at,
        s.len() == at + decimal(k as int).len() + 1,
        s.subrange(at, s.len() - 1) == decimal(k as int),
        s.last() == NEWLINE,
    ensures
        line_number(s, at) == (Some(k), s.len() as int),
{
    let d = decimal(k as int);
    let end = s.len() - 1;
    let magnitude: nat = if k < 0 {
        (-k) as nat
    } else {
        k as nat
    };
    let digits = decimal_digits(magnitude);
    lemma_decimal_digits(magnitude);
    let first = if k < 0 {
        at + 1
    } else {
        at
    };
    assert(s.subrange(first, end) =~= digits) by {
        if k < 0 {
            assert(d =~= seq![45u8] + digits);
            assert forall|j: int| 0 <= j < digits.len() implies s[first + j] == digits[j] by {
                assert(s.subrange(at, end)[j + 1] == d[j + 1]);
            }
        } else {
            assert(d == digits);
        }
    }
    assert forall|i: int| first <= i < end implies Class::Digit.holds(#[trigger] s[i]) by {
        assert(s[i] == s.subrange(first, end)[i - first]);
    }
    assert(s[first] == digits[0]) by {
        assert(s[first] == s.subrange(first, end)[0]);
    }
    if k < 0 {
        assert(s[at] == 45) by {
            assert(s[at] == s.subrange(at, end)[0]);
        }
    }
    assert(after_sign(s, at) == first);
    if k == 0 {
        assert(digits =~= seq![48u8]);
        assert(signed_end(s, at) == Some(at + 1));
        lemma_single_digit(s.subrange(at, at + 1));
    } else {
        lemma_leading_digit(magnitude);
        lemma_run_end_is(s, first, Class::Digit, end);
        assert(signed_end(s, at) == Some(end));
    }
    assert(signed_at(s, at) == Some((k as int, end)));
    lemma_run_end_is(s, end, Class::Whitespace, end + 1);
}

/// A device that confirms line `k` in the usual form is understood: the line
/// `ok N<k>` acknowledges `k`.
pub proof fn lemma_ok_line(k: i32)
    ensures
        acknowledged(ok_line(k)) == Some(Response::Okay(Some(k))),
{
    reveal_strlit("ok N");
    reveal_strlit("ok");
    reveal_strlit("Resend:");
    vstd::string::is_ascii_spec_bytes("ok N");
    vstd::string::is_ascii_spec_bytes("ok");
    vstd::string::is_ascii_spec_bytes("Resend:");
    let s = ok_line(k);
    let opening = "ok N".spec_bytes();
    assert(opening =~= seq![111u8, 107u8, 32u8, 78u8]);
    assert(ok_word() =~= seq![111u8, 107u8]);
    lemma_decimal_digits(0);
    assert(decimal(k as int).len() > 0) by {
        if k < 0 {
            lemma_decimal_digits((-k) as nat);
        } else {
            lemma_decimal_digits(k as nat);
        }
    }
    assert(s[0] == 111 && s[1] == 107 && s[2] == 32 && s[3] == 78);
    lemma_run_end_is(s, 0, Class::Blank, 0);
    assert(s.subrange(0, 2) =~= ok_word());
    assert(has_at_caseless(s, 0, ok_word()));
    lemma_run_end_is(s, 2, Class::Blank, 3);
    assert(s.subrange(4, s.len() - 1) =~= decimal(k as int));
    lemma_line_number_reads_back(s, 4, k);
    assert(ok_response_at(s) == Some((Response::Okay(Some(k)), s.len() as int)));
}

/// A device that asks for line `k` again in the usual form is understood:
/// the line `Resend: N<k>` asks for `k`.
pub proof fn lemma_resend_line(k: i32)
    ensures
        acknowledged(resend_line(k)) == Some(Response::Resend(Some(k))),
{
    reveal_strlit("Resend: N");
    reveal_strlit("ok");
    reveal_strlit("Resend:");
    vstd::string::is_ascii_spec_bytes("Resend: N");
    vstd::string::is_ascii_spec_bytes("ok");
    vstd::string::is_ascii_spec_bytes("Resend:");
    let s = resend_line(k);
    let opening = "Resend: N".spec_bytes();
    assert(opening =~= seq![82u8, 101u8, 115u8, 101u8, 110u8, 100u8, 58u8, 32u8, 78u8]);
    assert(resend_word() =~= seq![82u8, 101u8, 115u8, 101u8, 110u8, 100u8, 58u8]);
    assert(ok_word() =~= seq![111u8, 107u8]);
    assert(decimal(k as int).len() > 0) by {
        if k < 0 {
            lemma_decimal_digits((-k) as nat);
        } else {
            lemma_decimal_digits(k as nat);
        }
    }
    assert(s[0] == 82 && s[1] == 101 && s[7] == 32 && s[8] == 78);
    lemma_run_end_is(s, 0, Class::Blank, 0);
    assert(!has_at_caseless(s, 0, ok_word())) by {
        if has_at_caseless(s, 0, ok_word()) {
            assert(upper_seq(s.subrange(0, 2))[0] == upper_seq(ok_word())[0]);
        }
    }
    assert(s.subrange(0, 7) =~= resend_word());
    assert(has_at_caseless(s, 0, resend_word()));
    lemma_run_end_is(s, 7, Class::Blank, 8);
    assert(s.subrange(9, s.len() - 1) =~= decimal(k as int));
    lemma_line_number_reads_back(s, 9, k);
    assert(resend_response_at(s) == Some((Response::Resend(Some(k)), s.len() as int)));
}

} // verus!
