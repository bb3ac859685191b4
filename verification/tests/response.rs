use print3rs::response::{acknowledgement, ok_response, resend_response, response, Response};

#[test]
fn test_ok_response() {
    let ok = acknowledgement(b"ok").unwrap();
    assert_eq!(ok, Response::Okay(None));
    assert_eq!(ok_response(b"ok"), Some((Response::Okay(None), 2)));
}

#[test]
fn test_ok_num_response() {
    let ok = ok_response(b"ok: 100").unwrap();
    assert_eq!(ok, (Response::Okay(Some(100)), 7));
}

#[test]
fn test_resend_response() {
    let ok = resend_response(b"Resend: 100").unwrap();
    assert_eq!(ok, (Response::Resend(Some(100)), 11));
}

#[test]
fn test_response() {
    let ok = acknowledgement(b"ok").unwrap();
    assert_eq!(ok, Response::Okay(None));
    let ok = acknowledgement(b"ok: 100").unwrap();
    assert_eq!(ok, Response::Okay(Some(100)));
    let ok = acknowledgement(b"Resend: 100").unwrap();
    assert_eq!(ok, Response::Resend(Some(100)));
}

#[test]
fn acknowledgement_forms() {
    assert_eq!(acknowledgement(b"ok\n"), Some(Response::Okay(None)));
    assert_eq!(acknowledgement(b"ok N7\n"), Some(Response::Okay(Some(7))));
    assert_eq!(acknowledgement(b"ok: 7\r\n"), Some(Response::Okay(Some(7))));
    assert_eq!(acknowledgement(b"  \tOK N12"), Some(Response::Okay(Some(12))));
    assert_eq!(acknowledgement(b"ok -3"), Some(Response::Okay(Some(-3))));
    assert_eq!(acknowledgement(b"ok +3"), Some(Response::Okay(Some(3))));
    assert_eq!(acknowledgement(b"ok 0"), Some(Response::Okay(Some(0))));
    assert_eq!(acknowledgement(b"Resend: 4\n"), Some(Response::Resend(Some(4))));
    assert_eq!(acknowledgement(b"Resend: N4\n"), Some(Response::Resend(Some(4))));
    assert_eq!(acknowledgement(b"resend:4"), Some(Response::Resend(Some(4))));
    assert_eq!(acknowledgement(b"Resend:\n"), Some(Response::Resend(None)));
    assert_eq!(acknowledgement(b"RESEND:"), Some(Response::Resend(None)));
}

#[test]
fn other_lines_are_no_acknowledgement() {
    assert_eq!(acknowledgement(b""), None);
    assert_eq!(acknowledgement(b"echo: busy"), None);
    assert_eq!(acknowledgement(b"ok T:210.0 /210.0"), None);
    assert_eq!(acknowledgement(b"okay"), None);
    assert_eq!(acknowledgement(b"Resend 4"), None);
    assert_eq!(acknowledgement(b"ok n7"), None);
    assert_eq!(acknowledgement(b"ok 007"), None);
    assert_eq!(acknowledgement(b"ok -0"), None);
    assert_eq!(acknowledgement(b"\nok"), None);
}

#[test]
fn parser_leaves_what_follows_alone() {
    assert_eq!(response(b"ok T:210"), Some((Response::Okay(None), 3)));
    assert_eq!(response(b"ok 12 B3 X"), Some((Response::Okay(Some(12)), 6)));
    assert_eq!(response(b"Resend: 9 again"), Some((Response::Resend(Some(9)), 10)));
    assert_eq!(response(b"ok 007"), Some((Response::Okay(Some(0)), 4)));
    assert_eq!(response(b"start"), None);
    assert_eq!(ok_response(b"Resend: 1"), None);
    assert_eq!(resend_response(b"ok 1"), None);
}

#[test]
fn line_numbers_beyond_32_bits_are_not_taken() {
    assert_eq!(acknowledgement(b"ok 2147483647"), Some(Response::Okay(Some(i32::MAX))));
    assert_eq!(acknowledgement(b"ok -2147483648"), Some(Response::Okay(Some(i32::MIN))));
    assert_eq!(response(b"ok 2147483648"), Some((Response::Okay(None), 3)));
    assert_eq!(acknowledgement(b"ok 2147483648"), None);
    assert_eq!(acknowledgement(b"ok 99999999999999999999999999"), None);
}
