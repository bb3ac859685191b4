use print3rs::encoder::{Field, Sequenced, Value};
use print3rs::printer::{prompt_string, Error, Printer};
use print3rs::session::{
    raw_request, sequenced_request, unsequenced_request, Pending, Reaction, SendContent,
    BROADCAST_CAPACITY, MAX_PENDING, QUEUE_CAPACITY,
};

fn fired(reaction: Reaction<u32>) -> Option<u32> {
    match reaction {
        Reaction::Complete(responder) => Some(responder),
        _ => None,
    }
}

fn rewritten(reaction: Reaction<u32>) -> Option<Vec<Vec<u8>>> {
    match reaction {
        Reaction::Rewrite(lines) => Some(lines),
        _ => None,
    }
}

fn is_nothing(reaction: Reaction<u32>) -> bool {
    matches!(reaction, Reaction::Nothing)
}

#[test]
fn disconnected_is_disconnected() {
    let disconnected: Printer<u8, u8> = Printer::Disconnected;
    assert!(matches!(disconnected.socket(), Err(Error::Disconnected)));
    assert!(disconnected.background_task().is_none());
    assert!(!disconnected.is_connected());
}

#[test]
fn lib_conversion() {
    let disconnected: Printer<u8, u8> = Printer::from_option(None);
    assert!(!disconnected.is_connected());
    let maybe_socket: Option<&u8> = disconnected.socket().ok();
    assert!(maybe_socket.is_none());
}

#[test]
fn session_states() {
    let mut printer: Printer<&str, u32> = Printer::default();
    assert!(!printer.is_connected());
    let former = printer.connect("socket", 1);
    assert!(matches!(former, Printer::Disconnected));
    assert!(printer.is_connected());
    assert_eq!(printer.socket(), Ok(&"socket"));
    assert_eq!(printer.background_task(), Some(&1));
    let former = printer.connect("other", 2);
    assert!(matches!(former, Printer::Connected { socket: "socket", com_task: 1 }));
    assert_eq!(printer.socket(), Ok(&"other"));
    let former = printer.disconnect();
    assert!(matches!(former, Printer::Connected { socket: "other", com_task: 2 }));
    assert!(!printer.is_connected());
    assert_eq!(printer.socket(), Err(Error::Disconnected));
    let connected = Printer::from_option(Some(Printer::new("s", 3)));
    assert!(connected.is_connected());
    assert_eq!(Error::Disconnected.message(), "Not connected to a printer");
    assert_eq!(Error::WontRespond.message(), "Ok not received");
}

#[test]
fn ack_correlation() {
    let mut encoder = Sequenced::new();
    encoder.set_sequence(7);
    let mut pending: Pending<u32> = Pending::new();
    let request = sequenced_request(&mut encoder, &Value::Text(b"G28".to_vec()), 70);
    assert!(request.content.starts_with(b"N7G28*"));
    assert!(pending.track(request).is_none());
    assert!(is_nothing(pending.receive(b"ok N6\n")));
    assert_eq!(pending.len(), 1);
    assert_eq!(fired(pending.receive(b"ok N7\n")), Some(70));
    assert_eq!(pending.len(), 0);
    assert!(is_nothing(pending.receive(b"ok N7\n")));
}

#[test]
fn resend() {
    let mut encoder = Sequenced::new();
    encoder.set_sequence(4);
    let mut pending: Pending<u32> = Pending::new();
    let request = sequenced_request(&mut encoder, &Value::Text(b"G1 X5".to_vec()), 40);
    let sent = request.content.clone();
    assert!(sent.starts_with(b"N4G1 X5*"));
    assert!(pending.track(request).is_none());
    assert_eq!(rewritten(pending.receive(b"Resend: N4\n")), Some(vec![sent.clone()]));
    assert_eq!(pending.retained(Some(4)), Some(&sent));
    assert_eq!(fired(pending.receive(b"ok N4\n")), Some(40));
    assert_eq!(pending.len(), 0);
}

#[test]
fn usual_lines_of_a_device_are_understood() {
    for k in [0, 1, 7, 10, 99, 100, 12345, i32::MAX, -1, -10, i32::MIN] {
        let mut pending: Pending<i32> = Pending::new();
        pending.insert(Some(k), k, vec![1, 2, 3]);
        let line = format!("Resend: N{k}\n");
        assert_eq!(
            match pending.receive(line.as_bytes()) {
                Reaction::Rewrite(lines) => Some(lines),
                _ => None,
            },
            Some(vec![vec![1, 2, 3]])
        );
        let line = format!("ok N{k}\n");
        assert!(matches!(pending.receive(line.as_bytes()), Reaction::Complete(h) if h == k));
        assert_eq!(pending.len(), 0);
    }
}

#[test]
fn acknowledgement_touches_no_other_entry() {
    let mut pending: Pending<u32> = Pending::new();
    pending.insert(Some(3), 30, b"three".to_vec());
    pending.insert(None, 0, b"none".to_vec());
    pending.insert(Some(1), 10, b"one".to_vec());
    pending.insert(Some(2), 20, b"two".to_vec());
    assert!(pending.is_full());
    assert_eq!(fired(pending.receive(b"ok 2")), Some(20));
    assert!(!pending.is_full());
    assert_eq!(pending.retained(Some(1)), Some(&b"one".to_vec()));
    assert_eq!(pending.retained(Some(3)), Some(&b"three".to_vec()));
    assert_eq!(pending.retained(None), Some(&b"none".to_vec()));
    assert_eq!(pending.retained(Some(2)), None);
    assert_eq!(fired(pending.receive(b"ok\n")), Some(0));
    assert_eq!(pending.retained(None), None);
    assert_eq!(pending.len(), 2);
}

#[test]
fn resend_keeps_the_entry() {
    let mut pending: Pending<u32> = Pending::new();
    pending.insert(Some(4), 40, b"N4G1X5*99\n".to_vec());
    assert_eq!(rewritten(pending.receive(b"Resend: N4\n")), Some(vec![b"N4G1X5*99\n".to_vec()]));
    assert_eq!(pending.len(), 1);
    assert_eq!(rewritten(pending.receive(b"Resend: 4\n")), Some(vec![b"N4G1X5*99\n".to_vec()]));
    assert_eq!(pending.retained(Some(4)), Some(&b"N4G1X5*99\n".to_vec()));
    assert!(is_nothing(pending.receive(b"Resend: 5\n")));
    assert_eq!(fired(pending.receive(b"ok N4\n")), Some(40));
    assert!(is_nothing(pending.receive(b"Resend: 4\n")));
}

#[test]
fn resend_without_number_replays_numbered_lines_in_order() {
    let mut pending: Pending<u32> = Pending::new();
    pending.insert(Some(9), 90, b"nine".to_vec());
    pending.insert(None, 0, b"plain".to_vec());
    pending.insert(Some(-2), 20, b"minus two".to_vec());
    pending.insert(Some(5), 50, b"five".to_vec());
    assert_eq!(
        rewritten(pending.receive(b"Resend:\n")),
        Some(vec![b"minus two".to_vec(), b"five".to_vec(), b"nine".to_vec()])
    );
    assert_eq!(pending.retained_numbered().len(), 3);
    assert_eq!(pending.len(), 4);
    let mut empty: Pending<u32> = Pending::new();
    assert_eq!(rewritten(empty.receive(b"resend:")), Some(vec![]));
}

#[test]
fn other_lines_do_nothing() {
    let mut pending: Pending<u32> = Pending::new();
    pending.insert(Some(1), 10, b"one".to_vec());
    assert!(is_nothing(pending.receive(b"T:210.0 /210.0 B:60.0 /60.0\n")));
    assert!(is_nothing(pending.receive(b"ok T:210\n")));
    assert!(is_nothing(pending.receive(b"")));
    assert_eq!(pending.len(), 1);
}

#[test]
fn a_key_holds_one_entry() {
    let mut pending: Pending<u32> = Pending::new();
    assert_eq!(pending.insert(None, 1, b"first".to_vec()), None);
    assert_eq!(pending.insert(None, 2, b"second".to_vec()), Some(1));
    assert_eq!(pending.len(), 1);
    assert_eq!(pending.retained(None), Some(&b"second".to_vec()));
    assert_eq!(pending.remove(None), Some((2, b"second".to_vec())));
    assert_eq!(pending.remove(None), None);
}

#[test]
fn disconnect_flush() {
    let mut pending: Pending<u32> = Pending::new();
    pending.insert(Some(2), 20, b"two".to_vec());
    pending.insert(None, 0, b"none".to_vec());
    pending.insert(Some(1), 10, b"one".to_vec());
    assert_eq!(pending.close(), vec![0, 10, 20]);
    assert_eq!(pending.len(), 0);
    assert_eq!(pending.close(), Vec::<u32>::new());
}

#[test]
fn only_awaited_requests_are_tracked() {
    let mut pending: Pending<u32> = Pending::new();
    assert_eq!(pending.track(raw_request(b"M112\n")), None);
    assert_eq!(pending.len(), 0);
    let mut encoder = Sequenced::new();
    let request = sequenced_request(&mut encoder, &Value::Text(b"G28".to_vec()), 5);
    assert_eq!(request.sequence, Some(1));
    let line = request.content.clone();
    assert_eq!(pending.track(request), None);
    assert_eq!(pending.retained(Some(1)), Some(&line));
    let request = unsequenced_request(&Value::Text(b"M105".to_vec()), 6);
    assert_eq!(request.content, b"M105\n".to_vec());
    assert_eq!(request.sequence, None);
    assert_eq!(pending.track(request), None);
    assert_eq!(pending.track(SendContent::new(b"M105\n".to_vec(), None, Some(7))), Some(6));
    assert_eq!(pending.len(), 2);
}

#[test]
fn requests_carry_what_was_encoded() {
    let mut encoder = Sequenced::new();
    encoder.set_sequence(7);
    let value = Value::Group {
        tag: b"G1".to_vec(),
        fields: vec![Field { key: b"x".to_vec(), value: Value::Int(10) }],
    };
    let request = sequenced_request(&mut encoder, &value, "waiter");
    assert_eq!(request.sequence, Some(7));
    assert!(request.content.starts_with(b"N7G1X10*"));
    assert_eq!(request.responder, Some("waiter"));
    assert_eq!(encoder.sequence(), 8);
    let raw: SendContent<u8> = raw_request(b"\x18");
    assert_eq!(raw.content, vec![0x18]);
    assert_eq!(raw.sequence, None);
    assert_eq!(raw.responder, None);
}

#[test]
fn capacities() {
    assert_eq!(MAX_PENDING, 4);
    assert_eq!(QUEUE_CAPACITY, 16);
    assert_eq!(BROADCAST_CAPACITY, 64);
}

#[test]
fn prompt_tells_of_the_session() {
    let mut printer: Printer<u8, u8> = Printer::default();
    assert_eq!(prompt_string(&printer), "[Disconnected]> ");
    assert!(matches!(printer.socket_mut(), Err(Error::Disconnected)));
    printer.connect(1, 2);
    assert_eq!(prompt_string(&printer), "[Connected]> ");
    *printer.socket_mut().unwrap() = 9;
    assert_eq!(printer.socket(), Ok(&9));
    assert_eq!(printer.background_task(), Some(&2));
}
