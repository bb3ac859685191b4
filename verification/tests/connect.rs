use print3rs::commands::{parse_command, Command};
use print3rs::connect::{
    answers_probe, baud_or_default, parse_connection, parse_hostname_port, parse_mqtt_connection,
    parse_serial_connection, parse_tcp_connection, probe_line, tcp_address, Connection,
    OwnedConnection, DEFAULT_BAUD,
};

fn whole<T>(parsed: Option<(T, usize)>, input: &[u8]) -> T {
    let (value, end) = parsed.unwrap();
    assert_eq!(end, input.len());
    value
}

#[test]
fn serial_space_parsing() {
    let input = b"  /dev/ttyS0  9600";
    let serial = whole(parse_serial_connection(input, 0), input);
    assert_eq!(serial, Connection::Serial { port: b"/dev/ttyS0", baud: Some(9600) });
}

#[test]
fn serial_baudless_parsing() {
    let input = b"COM1";
    let serial = whole(parse_serial_connection(input, 0), input);
    assert_eq!(serial, Connection::Serial { port: b"COM1", baud: None });
}

#[test]
fn ip_space_parsing() {
    let input = b"  1.1.1.1  8080";
    let (host, port, end) = parse_hostname_port(input, 0).unwrap();
    assert_eq!(end, input.len());
    assert_eq!((host, port), (&b"1.1.1.1"[..], Some(8080)));
}

#[test]
fn ip_colon_parsing() {
    let input = b"google.com:80";
    let (host, port, end) = parse_hostname_port(input, 0).unwrap();
    assert_eq!(end, input.len());
    assert_eq!((host, port), (&b"google.com"[..], Some(80)));
}

#[test]
fn tcp_parsing() {
    let input = b" dopewebsite.biz:10000 ";
    let tcp = whole(parse_tcp_connection(input, 0), input);
    assert_eq!(tcp, Connection::Tcp { hostname: b"dopewebsite.biz", port: Some(10000) });
}

#[test]
fn tcp_portless_parsing() {
    let input = b" 8.8.8.8 ";
    let tcp = whole(parse_tcp_connection(input, 0), input);
    assert_eq!(tcp, Connection::Tcp { hostname: b"8.8.8.8", port: None });
}

#[test]
fn mqtt_default_parsing() {
    let input = b"printer.local";
    let mqtt = whole(parse_mqtt_connection(input, 0), input);
    assert_eq!(
        mqtt,
        Connection::Mqtt { hostname: b"printer.local", port: None, in_topic: None, out_topic: None }
    );
}

#[test]
fn mqtt_in_parsing() {
    let input = b"printer.local /control/gcode";
    let mqtt = whole(parse_mqtt_connection(input, 0), input);
    assert_eq!(
        mqtt,
        Connection::Mqtt {
            hostname: b"printer.local",
            port: None,
            in_topic: Some(b"/control/gcode"),
            out_topic: None
        }
    );
}

#[test]
fn mqtt_all_parsing() {
    let input = b"printer.local:1963 /control/gcode /printer/log";
    let mqtt = whole(parse_mqtt_connection(input, 0), input);
    assert_eq!(
        mqtt,
        Connection::Mqtt {
            hostname: b"printer.local",
            port: Some(1963),
            in_topic: Some(b"/control/gcode"),
            out_topic: Some(b"/printer/log")
        }
    );
}

#[test]
fn connect_conversion() {
    let borrowed = Connection::Mqtt {
        hostname: b"test",
        port: None,
        in_topic: Some(b"thing"),
        out_topic: Some(b"thing2"),
    };
    let owned = borrowed.clone().into_owned();
    assert_eq!(borrowed, owned.to_borrowed());
    assert_eq!(
        owned,
        OwnedConnection::Mqtt {
            hostname: b"test".to_vec(),
            port: None,
            in_topic: Some(b"thing".to_vec()),
            out_topic: Some(b"thing2".to_vec()),
        }
    );
}

#[test]
fn command_parse() {
    let input = b"serial COM1 9600";
    let connection = whole(parse_connection(input, 0), input);
    assert_eq!(connection, Connection::Serial { port: b"COM1", baud: Some(9600) });
    assert_eq!(
        parse_command(b"connect serial COM1 9600"),
        Command::Connect(Connection::Serial { port: b"COM1", baud: Some(9600) })
    );
}

#[test]
fn connect_without_a_kind_tries_the_serial_ports() {
    assert_eq!(parse_connection(b"", 0), Some((Connection::Auto, 0)));
    assert_eq!(parse_connection(b" auto", 0), Some((Connection::Auto, 5)));
    assert_eq!(parse_command(b"connect"), Command::Connect(Connection::Auto));
    assert_eq!(parse_command(b"connect auto"), Command::Connect(Connection::Auto));
}

#[test]
fn ip_is_another_word_for_tcp() {
    let input = b"ip 10.0.0.2:23";
    assert_eq!(
        whole(parse_connection(input, 0), input),
        Connection::Tcp { hostname: b"10.0.0.2", port: Some(23) }
    );
    let input = b"tcp printer";
    assert_eq!(
        whole(parse_connection(input, 0), input),
        Connection::Tcp { hostname: b"printer", port: None }
    );
}

#[test]
fn a_kind_without_its_arguments_is_no_connection() {
    assert_eq!(parse_connection(b"serial", 0), None);
    assert_eq!(parse_connection(b"tcp  ", 0), None);
    assert_eq!(parse_connection(b"mqtt", 0), None);
    assert_eq!(parse_command(b"connect serial"), Command::Unrecognized);
}

#[test]
fn numbers_that_do_not_fit_are_left_alone() {
    let input = b"COM1 4294967295";
    assert_eq!(
        whole(parse_serial_connection(input, 0), input),
        Connection::Serial { port: b"COM1", baud: Some(u32::MAX) }
    );
    assert_eq!(
        parse_serial_connection(b"COM1 4294967296", 0),
        Some((Connection::Serial { port: b"COM1", baud: None }, 5))
    );
    assert_eq!(parse_hostname_port(b"host:65535", 0), Some((&b"host"[..], Some(65535), 10)));
    assert_eq!(parse_hostname_port(b"host:65536", 0), Some((&b"host"[..], None, 5)));
    assert_eq!(parse_hostname_port(b"host:007", 0), Some((&b"host"[..], Some(0), 6)));
}

#[test]
fn baud_defaults_to_115200() {
    assert_eq!(DEFAULT_BAUD, 115200);
    assert_eq!(baud_or_default(None), 115200);
    assert_eq!(baud_or_default(Some(250000)), 250000);
}

#[test]
fn address_is_host_and_port() {
    assert_eq!(tcp_address(b"printer.local", Some(8080)), b"printer.local:8080".to_vec());
    assert_eq!(tcp_address(b"printer.local", None), b"printer.local".to_vec());
}

#[test]
fn probe_is_answered_by_ok_in_either_case() {
    assert_eq!(probe_line(), b"M115\n");
    assert!(answers_probe(b"ok\n"));
    assert!(answers_probe(b"FIRMWARE_NAME:Marlin Ok"));
    assert!(answers_probe(b"xxOKxx"));
    assert!(!answers_probe(b"o k"));
    assert!(!answers_probe(b"k"));
    assert!(!answers_probe(b""));
}
