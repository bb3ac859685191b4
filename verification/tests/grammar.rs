use print3rs::connect::parse_serial_connection;
use print3rs::connect::Connection;
use print3rs::number::{read_float, read_signed, read_unsigned};
use print3rs::response::{ok_response, resend_response, Response};
use winnow::ascii::{dec_int, dec_uint, float, multispace0, space0, Caseless};
use winnow::combinator::{opt, preceded, terminated};
use winnow::error::ContextError;
use winnow::token::take_till;
use winnow::{PResult, Parser};

const NUMBERS: [&str; 40] = [
    "", "0", "7", "42", "007", "-0", "+0", "-5", "+5", "--5", "+-5", "12abc", "abc", " 1", "1 ",
    "2147483647", "2147483648", "-2147483648", "-2147483649", "4294967295", "4294967296",
    "65535", "65536", "99999999999999999999", "1.5", ".5", "5.", ".", "-.5", "+1.25e3", "1e5",
    "1e", "1e+", "1E-2x", "1.e1", "nan", "NaN", "-inf", "+Infinity", "infx",
];

fn winnow_signed(text: &str) -> Option<(i32, usize)> {
    let mut input = text.as_bytes();
    let value: PResult<i32> = dec_int.parse_next(&mut input);
    value.ok().map(|v| (v, text.len() - input.len()))
}

fn winnow_unsigned(text: &str) -> Option<(u32, usize)> {
    let mut input = text.as_bytes();
    let value: PResult<u32> = dec_uint.parse_next(&mut input);
    value.ok().map(|v| (v, text.len() - input.len()))
}

fn winnow_small(text: &str) -> Option<(u32, usize)> {
    let mut input = text.as_bytes();
    let value: PResult<u16> = dec_uint.parse_next(&mut input);
    value.ok().map(|v| (v as u32, text.len() - input.len()))
}

fn winnow_float(text: &str) -> Option<usize> {
    let mut input = text.as_bytes();
    let value: PResult<f32> = float.parse_next(&mut input);
    value.ok().map(|_| text.len() - input.len())
}

#[test]
fn signed_numbers_are_read_as_winnow_reads_them() {
    for text in NUMBERS {
        assert_eq!(read_signed(text.as_bytes(), 0), winnow_signed(text), "{text:?}");
    }
}

#[test]
fn unsigned_numbers_are_read_as_winnow_reads_them() {
    for text in NUMBERS {
        assert_eq!(read_unsigned(text.as_bytes(), 0, u32::MAX), winnow_unsigned(text), "{text:?}");
        assert_eq!(read_unsigned(text.as_bytes(), 0, 0xffff), winnow_small(text), "{text:?}");
    }
}

#[test]
fn numbers_with_fraction_end_where_winnow_ends_them() {
    for text in NUMBERS {
        assert_eq!(read_float(text.as_bytes(), 0), winnow_float(text), "{text:?}");
    }
    for text in ["100,and", "1234.5,pos", "-4.0,current", "3.14.15", "6.02e23e", "infinity!"] {
        assert_eq!(read_float(text.as_bytes(), 0), winnow_float(text), "{text:?}");
    }
}

#[test]
fn every_number_with_fraction_reads_as_a_float() {
    for text in NUMBERS {
        if let Some(end) = read_float(text.as_bytes(), 0) {
            assert!(text[..end].parse::<f32>().is_ok(), "{text:?}");
        }
    }
}

fn winnow_ok(text: &str) -> Option<(Response, usize)> {
    let mut input = text.as_bytes();
    let number: PResult<Option<i32>> = preceded(
        (space0, Caseless("ok"), opt(":"), space0, opt(b'N')),
        terminated(opt(dec_int), multispace0),
    )
    .parse_next(&mut input);
    number.ok().map(|n| (Response::Okay(n), text.len() - input.len()))
}

fn winnow_resend(text: &str) -> Option<(Response, usize)> {
    let mut input = text.as_bytes();
    let number: PResult<Option<i32>> = preceded(
        (space0, Caseless("Resend:"), space0),
        terminated(opt(dec_int), multispace0),
    )
    .parse_next(&mut input);
    number.ok().map(|n| (Response::Resend(n), text.len() - input.len()))
}

#[test]
fn confirmations_are_read_as_winnow_reads_them() {
    let lines = [
        "ok", "ok\n", "ok N7\n", "ok: 100", "OK:N5 \r\n", "  ok 12", "\tOk -3\n\n", "ok T:210",
        "okay", "o k", "ok N", "ok :5", "ok:: 5", "ok n5", "ok 2147483648", "ok 007", "", " ",
        "Resend: 4", "ok NN5", "ok:\t+9 rest",
    ];
    for line in lines {
        assert_eq!(ok_response(line.as_bytes()), winnow_ok(line), "{line:?}");
    }
}

#[test]
fn requests_to_send_again_are_read_as_winnow_reads_them() {
    let lines = [
        "Resend: 4", "Resend:4\n", "resend:  17 \n", "RESEND:", "Resend:\n", "Resend 4",
        "  Resend: -2", "Resend: x", "ok", "", "Resend: 2147483648",
    ];
    for line in lines {
        assert_eq!(resend_response(line.as_bytes()), winnow_resend(line), "{line:?}");
    }
}

fn winnow_serial(text: &str) -> Option<(Vec<u8>, Option<u32>, usize)> {
    let mut input = text;
    let parsed: PResult<(&str, Option<u32>)> = (
        preceded(space0, take_till(1.., ' ')),
        preceded(space0, opt(dec_uint::<_, u32, ContextError>)),
    )
        .parse_next(&mut input);
    parsed.ok().map(|(port, baud)| (port.as_bytes().to_vec(), baud, text.len() - input.len()))
}

#[test]
fn serial_arguments_are_read_as_winnow_reads_them() {
    for text in ["  /dev/ttyS0  9600", "COM1", "COM1 ", " COM1 x", "", "   ", "a\t7", "a 0115200"] {
        let mine = parse_serial_connection(text.as_bytes(), 0).map(|(connection, end)| {
            match connection {
                Connection::Serial { port, baud } => (port.to_vec(), baud, end),
                other => panic!("unexpected {:?}", other),
            }
        });
        assert_eq!(mine, winnow_serial(text), "{text:?}");
    }
}
