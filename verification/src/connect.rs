//! How to reach a device: the arguments of the `connect` command, and what
//! tells a device that answers from one that does not.

use crate::encoder::{decimal, format_integer};
use crate::number::{read_unsigned, unsigned_at};
use crate::text::{
    append, bytes_eq, has_at_caseless, own, run_end, scan, slice, starts_at_caseless, Class, COLON,
    SPACE,
};
use vstd::prelude::*;
use vstd::string::StringSliceAdditionalSpecFns;

verus! {

/// The speed of a serial line where the command names none.
pub const DEFAULT_BAUD: u32 = 115200;

/// How long a serial port is given to answer the probe, in seconds.
pub const PROBE_TIMEOUT_SECONDS: u64 = 5;

/// How long a read on a probed serial port may take, in seconds.
pub const PROBE_READ_TIMEOUT_SECONDS: u64 = 10;

/// A way to reach a device, as a plain value.
#[allow(inconsistent_fields)]
pub enum ConnectionView {
    Auto,
    Serial { port: Seq<u8>, baud: Option<u32> },
    Tcp { hostname: Seq<u8>, port: Option<u16> },
    Mqtt { hostname: Seq<u8>, port: Option<u16>, in_topic: Option<Seq<u8>>, out_topic: Option<
        Seq<u8>,
    > },
}

/// A way to reach a device, borrowed from the text of the command.
#[derive(Debug, Clone, PartialEq, Eq)]
#[allow(inconsistent_fields)]
pub enum Connection<'a> {
    /// Try the serial ports of this machine in turn.
    Auto,
    Serial { port: &'a [u8], baud: Option<u32> },
    Tcp { hostname: &'a [u8], port: Option<u16> },
    Mqtt { hostname: &'a [u8], port: Option<u16>, in_topic: Option<&'a [u8]>, out_topic: Option<
        &'a [u8],
    > },
}

/// A way to reach a device that owns its text.
#[derive(Debug, Clone, PartialEq, Eq)]
#[allow(inconsistent_fields)]
pub enum OwnedConnection {
    Auto,
    Serial { port: Vec<u8>, baud: Option<u32> },
    Tcp { hostname: Vec<u8>, port: Option<u16> },
    Mqtt { hostname: Vec<u8>, port: Option<u16>, in_topic: Option<Vec<u8>>, out_topic: Option<
        Vec<u8>,
    > },
}

/// The bytes of an optional borrowed text.
pub open spec fn optional_slice(text: Option<&[u8]>) -> Option<Seq<u8>> {
    match text {
        Some(t) => Some(t@),
        None => None,
    }
}

/// The bytes of an optional owned text.
pub open spec fn optional_text(text: Option<Vec<u8>>) -> Option<Seq<u8>> {
    match text {
        Some(t) => Some(t@),
        None => None,
    }
}

impl<'a> View for Connection<'a> {
    type V = ConnectionView;

    open spec fn view(&self) -> ConnectionView {
        match *self {
            Connection::Auto => ConnectionView::Auto,
            Connection::Serial { port, baud } => ConnectionView::Serial { port: port@, baud },
            Connection::Tcp { hostname, port } => ConnectionView::Tcp { hostname: hostname@, port },
            Connection::Mqtt { hostname, port, in_topic, out_topic } => ConnectionView::Mqtt {
                hostname: hostname@,
                port,
                in_topic: optional_slice(in_topic),
                out_topic: optional_slice(out_topic),
            },
        }
    }
}

impl View for OwnedConnection {
    type V = ConnectionView;

    open spec fn view(&self) -> ConnectionView {
        match *self {
            OwnedConnection::Auto => ConnectionView::Auto,
            OwnedConnection::Serial { port, baud } => ConnectionView::Serial { port: port@, baud },
            OwnedConnection::Tcp { hostname, port } => ConnectionView::Tcp {
                hostname: hostname@,
                port,
            },
            OwnedConnection::Mqtt { hostname, port, in_topic, out_topic } => ConnectionView::Mqtt {
                hostname: hostname@,
                port,
                in_topic: optional_text(in_topic),
                out_topic: optional_text(out_topic),
            },
        }
    }
}

fn own_optional(text: Option<&[u8]>) -> (r: Option<Vec<u8>>)
    ensures
        optional_text(r) == optional_slice(text),
{
    match text {
        Some(t) => Some(own(t)),
        None => None,
    }
}

fn borrow_optional<'a>(text: &'a Option<Vec<u8>>) -> (r: Option<&'a [u8]>)
    ensures
        optional_slice(r) == optional_text(*text),
{
    match text {
        Some(t) => Some(t.as_slice()),
        None => None,
    }
}

impl<'a> Connection<'a> {
    /// The same connection, owning its text.
    pub fn into_owned(self) -> (r: OwnedConnection)
        ensures
            r@ == self@,
    {
        match self {
            Connection::Auto => OwnedConnection::Auto,
            Connection::Serial { port, baud } => OwnedConnection::Serial { port: own(port), baud },
            Connection::Tcp { hostname, port } => OwnedConnection::Tcp {
                hostname: own(hostname),
                port,
            },
            Connection::Mqtt { hostname, port, in_topic, out_topic } => OwnedConnection::Mqtt {
                hostname: own(hostname),
                port,
                in_topic: own_optional(in_topic),
                out_topic: own_optional(out_topic),
            },
        }
    }
}

impl OwnedConnection {
    /// The same connection, borrowing its text.
    pub fn to_borrowed<'a>(&'a self) -> (r: Connection<'a>)
        ensures
            r@ == self@,
    {
        match self {
            OwnedConnection::Auto => Connection::Auto,
            OwnedConnection::Serial { port, baud } => Connection::Serial {
                port: port.as_slice(),
                baud: *baud,
            },
            OwnedConnection::Tcp { hostname, port } => Connection::Tcp {
                hostname: hostname.as_slice(),
                port: *port,
            },
            OwnedConnection::Mqtt { hostname, port, in_topic, out_topic } => Connection::Mqtt {
                hostname: hostname.as_slice(),
                port: *port,
                in_topic: borrow_optional(in_topic),
                out_topic: borrow_optional(out_topic),
            },
        }
    }
}

/// The unsigned number at `at`, if one stands there and is at most `max`,
/// and the position after it.
pub open spec fn optional_number(s: Seq<u8>, at: int, max: int) -> (Option<int>, int) {
    match unsigned_at(s, at, max) {
        Some((value, end)) => (Some(value), end),
        None => (None, at),
    }
}

/// The word at `at`, if one stands there, and the position after it: every
/// byte up to the next space, at least one.
pub open spec fn optional_word(s: Seq<u8>, at: int) -> (Option<Seq<u8>>, int) {
    let end = run_end(s, at, Class::Until(SPACE));
    if 0 <= at < end {
        (Some(s.subrange(at, end)), end)
    } else {
        (None, at)
    }
}

/// A serial connection at `at`: blanks, the name of the port up to the next
/// space, blanks, and an optional speed.
pub open spec fn serial_at(s: Seq<u8>, at: int) -> Option<(ConnectionView, int)> {
    let port = run_end(s, at, Class::Blank);
    let (name, blanks) = optional_word(s, port);
    match name {
        Some(name) => {
            let (baud, end) = optional_number(s, run_end(s, blanks, Class::Blank), u32::MAX as int);
            let baud = match baud {
                Some(b) => Some(b as u32),
                None => None,
            };
            Some((ConnectionView::Serial { port: name, baud }, end))
        },
        None => None,
    }
}

/// A host and an optional port at `at`: blanks, the name of the host up to
/// the next space or colon, then a colon or blanks, and an optional number.
pub open spec fn hostname_port_at(s: Seq<u8>, at: int) -> Option<(Seq<u8>, Option<u16>, int)> {
    let host = run_end(s, at, Class::Blank);
    let end = run_end(s, host, Class::UntilEither(SPACE, COLON));
    if 0 <= host < end {
        let number = if end < s.len() && s[end] == COLON {
            end + 1
        } else {
            run_end(s, end, Class::Blank)
        };
        let (port, after) = optional_number(s, number, u16::MAX as int);
        let port = match port {
            Some(p) => Some(p as u16),
            None => None,
        };
        Some((s.subrange(host, end), port, after))
    } else {
        None
    }
}

/// A network connection at `at`: a host, an optional port, and blanks.
pub open spec fn tcp_at(s: Seq<u8>, at: int) -> Option<(ConnectionView, int)> {
    match hostname_port_at(s, at) {
        Some((hostname, port, end)) => Some(
            (ConnectionView::Tcp { hostname, port }, run_end(s, end, Class::Blank)),
        ),
        None => None,
    }
}

/// A connection through a message broker at `at`: a host, an optional port,
/// and up to two topics, each after blanks; then blanks.
pub open spec fn mqtt_at(s: Seq<u8>, at: int) -> Option<(ConnectionView, int)> {
    match hostname_port_at(s, at) {
        Some((hostname, port, end)) => {
            let (in_topic, first) = optional_word(s, run_end(s, end, Class::Blank));
            let (out_topic, second) = optional_word(s, run_end(s, first, Class::Blank));
            Some(
                (
                    ConnectionView::Mqtt { hostname, port, in_topic, out_topic },
                    run_end(s, second, Class::Blank),
                ),
            )
        },
        None => None,
    }
}

/// The connection that the arguments at `at` name: blanks and a word that
/// chooses the kind, `serial`, `tcp` or `ip`, or `mqtt`, each with its own
/// arguments; after any other word, or none, the serial ports are tried.
pub open spec fn connection_at(s: Seq<u8>, at: int) -> Option<(ConnectionView, int)> {
    let start = run_end(s, at, Class::Blank);
    let end = run_end(s, start, Class::Letter);
    let word = s.subrange(start, end);
    if word == "serial".spec_bytes() {
        serial_at(s, end)
    } else if word == "tcp".spec_bytes() || word == "ip".spec_bytes() {
        tcp_at(s, end)
    } else if word == "mqtt".spec_bytes() {
        mqtt_at(s, end)
    } else {
        Some((ConnectionView::Auto, end))
    }
}

fn read_optional_number(s: &[u8], at: usize, max: u32) -> (r: (Option<u32>, usize))
    requires
        at <= s@.len(),
    ensures
        r.1 == optional_number(s@, at as int, max as int).1,
        match r.0 {
            Some(v) => optional_number(s@, at as int, max as int).0 == Some(v as int) && v <= max,
            None => optional_number(s@, at as int, max as int).0 is None,
        },
        at <= r.1 <= s@.len(),
{
    match read_unsigned(s, at, max) {
        Some((value, end)) => (Some(value), end),
        None => (None, at),
    }
}

fn read_optional_word<'a>(s: &'a [u8], at: usize) -> (r: (Option<&'a [u8]>, usize))
    requires
        at <= s@.len(),
    ensures
        (optional_slice(r.0), r.1 as int) == optional_word(s@, at as int),
        at <= r.1 <= s@.len(),
{
    let end = scan(s, at, Class::Until(SPACE));
    if end > at {
        (Some(slice(s, at, end)), end)
    } else {
        (None, at)
    }
}

/// Reads the arguments of a serial connection at `at`.
pub fn parse_serial_connection<'a>(s: &'a [u8], at: usize) -> (r: Option<(Connection<'a>, usize)>)
    requires
        at <= s@.len(),
    ensures
        match r {
            Some((connection, end)) => serial_at(s@, at as int) == Some((connection@, end as int))
                && end <= s@.len(),
            None => serial_at(s@, at as int) is None,
        },
{
    let port = scan(s, at, Class::Blank);
    let (name, blanks) = read_optional_word(s, port);
    match name {
        Some(name) => {
            let number = scan(s, blanks, Class::Blank);
            let (baud, end) = read_optional_number(s, number, u32::MAX);
            Some((Connection::Serial { port: name, baud }, end))
        },
        None => None,
    }
}

/// Reads a host and an optional port at `at`.
pub fn parse_hostname_port<'a>(s: &'a [u8], at: usize) -> (r: Option<
    (&'a [u8], Option<u16>, usize),
>)
    requires
        at <= s@.len(),
    ensures
        match r {
            Some((hostname, port, end)) => hostname_port_at(s@, at as int) == Some(
                (hostname@, port, end as int),
            ) && end <= s@.len(),
            None => hostname_port_at(s@, at as int) is None,
        },
{
    let host = scan(s, at, Class::Blank);
    let end = scan(s, host, Class::UntilEither(SPACE, COLON));
    if end > host {
        let number = if end < s.len() && s[end] == COLON {
            end + 1
        } else {
            scan(s, end, Class::Blank)
        };
        let (port, after) = read_optional_number(s, number, 0xffff);
        let port = match port {
            Some(p) => Some(p as u16),
            None => None,
        };
        Some((slice(s, host, end), port, after))
    } else {
        None
    }
}

/// Reads the arguments of a network connection at `at`.
pub fn parse_tcp_connection<'a>(s: &'a [u8], at: usize) -> (r: Option<(Connection<'a>, usize)>)
    requires
        at <= s@.len(),
    ensures
        match r {
            Some((connection, end)) => tcp_at(s@, at as int) == Some((connection@, end as int))
                && end <= s@.len(),
            None => tcp_at(s@, at as int) is None,
        },
{
    match parse_hostname_port(s, at) {
        Some((hostname, port, end)) => Some(
            (Connection::Tcp { hostname, port }, scan(s, end, Class::Blank)),
        ),
        None => None,
    }
}

/// Reads the arguments of a connection through a message broker at `at`.
pub fn parse_mqtt_connection<'a>(s: &'a [u8], at: usize) -> (r: Option<(Connection<'a>, usize)>)
    requires
        at <= s@.len(),
    ensures
        match r {
            Some((connection, end)) => mqtt_at(s@, at as int) == Some((connection@, end as int))
                && end <= s@.len(),
            None => mqtt_at(s@, at as int) is None,
        },
{
    match parse_hostname_port(s, at) {
        Some((hostname, port, end)) => {
            let (in_topic, first) = read_optional_word(s, scan(s, end, Class::Blank));
            let (out_topic, second) = read_optional_word(s, scan(s, first, Class::Blank));
            Some(
                (
                    Connection::Mqtt { hostname, port, in_topic, out_topic },
                    scan(s, second, Class::Blank),
                ),
            )
        },
        None => None,
    }
}

/// Reads the arguments of the `connect` command at `at`.
pub fn parse_connection<'a>(s: &'a [u8], at: usize) -> (r: Option<(Connection<'a>, usize)>)
    requires
        at <= s@.len(),
    ensures
        match r {
            Some((connection, end)) => connection_at(s@, at as int) == Some(
                (connection@, end as int),
            ) && end <= s@.len(),
            None => connection_at(s@, at as int) is None,
        },
{
    let start = scan(s, at, Class::Blank);
    let end = scan(s, start, Class::Letter);
    let word = slice(s, start, end);
    if bytes_eq(word, "serial".as_bytes()) {
        parse_serial_connection(s, end)
    } else if bytes_eq(word, "tcp".as_bytes()) || bytes_eq(word, "ip".as_bytes()) {
        parse_tcp_connection(s, end)
    } else if bytes_eq(word, "mqtt".as_bytes()) {
        parse_mqtt_connection(s, end)
    } else {
        Some((Connection::Auto, end))
    }
}

/// The speed at which a serial line is opened: the one that the command
/// names, or `DEFAULT_BAUD`.
pub fn baud_or_default(baud: Option<u32>) -> (r: u32)
    ensures
        r == match baud {
            Some(b) => b,
            None => DEFAULT_BAUD,
        },
{
    match baud {
        Some(b) => b,
        None => DEFAULT_BAUD,
    }
}

/// The address of a host: its name, and after a colon its port, where one
/// is given.
pub open spec fn address(hostname: Seq<u8>, port: Option<u16>) -> Seq<u8> {
    match port {
        Some(p) => hostname + seq![COLON] + decimal(p as int),
        None => hostname,
    }
}

/// Writes the address of a host.
pub fn tcp_address(hostname: &[u8], port: Option<u16>) -> (r: Vec<u8>)
    ensures
        r@ == address(hostname@, port),
{
    let mut out: Vec<u8> = Vec::new();
    append(&mut out, hostname);
    match port {
        Some(p) => {
            out.push(COLON);
            let number = format_integer(p as i128);
            append(&mut out, number.as_slice());
        },
        None => {},
    }
    assert(out@ =~= address(hostname@, port));
    out
}

/// The line that asks a device what it is.
pub open spec fn probe() -> Seq<u8> {
    "M115\n".spec_bytes()
}

/// The line that a serial port is sent to find out whether a device listens
/// on it.
pub fn probe_line() -> (line: &'static [u8])
    ensures
        line@ == probe(),
{
    "M115\n".as_bytes()
}

/// `ok` stands somewhere in `line`, in either case.
pub open spec fn mentions_ok(line: Seq<u8>) -> bool {
    exists|i: int| 0 <= i <= line.len() && #[trigger] has_at_caseless(line, i, "ok".spec_bytes())
}

/// Whether a line that came back from a probed port shows that a device
/// listens on it: whether it holds `ok`, in either case.
pub fn answers_probe(line: &[u8]) -> (r: bool)
    ensures
        r == mentions_ok(line@),
{
    let mut i: usize = 0;
    while i < line.len()
        invariant
            i <= line@.len(),
            forall|j: int| 0 <= j < i ==> !#[trigger] has_at_caseless(line@, j, "ok".spec_bytes()),
        decreases line@.len() - i,
    {
        if starts_at_caseless(line, i, "ok".as_bytes()) {
            return true;
        }
        i += 1;
    }
    proof {
        reveal_strlit("ok");
        vstd::string::is_ascii_spec_bytes("ok");
        assert(!has_at_caseless(line@, line@.len() as int, "ok".spec_bytes()));
    }
    false
}

} // verus!
