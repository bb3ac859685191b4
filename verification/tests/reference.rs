use print3rs::commands::{parse_command, parse_gcodes, Command};
use print3rs::connect::{parse_connection, Connection};
use print3rs::log::{identifier, parse_segments, Segment};
use winnow::ascii::{alpha0, alpha1, dec_uint, digit1, space0, space1};
use winnow::combinator::{alt, delimited, opt, preceded, repeat, rest, separated, terminated};
use winnow::error::{ContextError, ErrMode};
use winnow::stream::{AsChar, Stream};
use winnow::token::{take, take_till, take_while};
use winnow::{PResult, Parser};

fn backtrack<T>() -> PResult<T> {
    Err(ErrMode::Backtrack(ContextError::new()))
}

fn w_plausible<'a>(input: &mut &'a str) -> PResult<&'a str> {
    let checkpoint = input.checkpoint();
    let _ = preceded(space0, (take_while(1, AsChar::is_alpha), digit1)).parse_next(input)?;
    input.reset(&checkpoint);
    take_till(2.., ';').parse_next(input)
}

fn w_gcodes<'a>(input: &mut &'a str) -> PResult<Vec<&'a [u8]>> {
    let codes: Vec<&'a str> =
        terminated(separated(0.., w_plausible, ';'), opt(";")).parse_next(input)?;
    Ok(codes.into_iter().map(|c| c.as_bytes()).collect())
}

fn w_identifier<'a>(input: &mut &'a str) -> PResult<&'a str> {
    take_while(1.., ('a'..='z', 'A'..='Z', '0'..='9', ['-', '_', '.']))
        .verify(|ident: &str| w_plausible.parse(ident).is_err())
        .parse_next(input)
}

fn w_tag<'a>(input: &mut &'a str) -> PResult<Segment<'a>> {
    let tag: &str = take_till(1.., ('{', '}')).parse_next(input)?;
    Ok(Segment::Tag(tag.as_bytes()))
}

fn w_escape<'a>(input: &mut &'a str) -> PResult<Segment<'a>> {
    let two: &str = take(2usize).parse_next(input)?;
    match two {
        "{{" => Ok(Segment::Escaped(b'{')),
        "}}" => Ok(Segment::Escaped(b'}')),
        _ => backtrack(),
    }
}

fn w_value<'a>(input: &mut &'a str) -> PResult<Segment<'a>> {
    let label: &str = delimited("{", w_identifier, "}").parse_next(input)?;
    Ok(Segment::Value(label.as_bytes()))
}

fn w_segments<'a>(input: &mut &'a str) -> PResult<Vec<Segment<'a>>> {
    repeat(1.., alt((w_tag, w_escape, w_value))).parse_next(input)
}

fn w_serial<'a>(input: &mut &'a str) -> PResult<Connection<'a>> {
    let (port, baud): (&str, Option<u32>) =
        (preceded(space0, take_till(1.., ' ')), preceded(space0, opt(dec_uint))).parse_next(input)?;
    Ok(Connection::Serial { port: port.as_bytes(), baud })
}

fn w_hostname_port<'a>(input: &mut &'a str) -> PResult<(&'a str, Option<u16>)> {
    (preceded(space0, take_till(1.., [' ', ':'])), preceded(alt((":", space0)), opt(dec_uint)))
        .parse_next(input)
}

fn w_tcp<'a>(input: &mut &'a str) -> PResult<Connection<'a>> {
    let (hostname, port) = terminated(w_hostname_port, space0).parse_next(input)?;
    Ok(Connection::Tcp { hostname: hostname.as_bytes(), port })
}

fn w_mqtt<'a>(input: &mut &'a str) -> PResult<Connection<'a>> {
    let (hostname, port) = w_hostname_port.parse_next(input)?;
    let (in_topic, out_topic): (Option<&str>, Option<&str>) = terminated(
        (preceded(space0, opt(take_till(1.., ' '))), preceded(space0, opt(take_till(1.., ' ')))),
        space0,
    )
    .parse_next(input)?;
    Ok(Connection::Mqtt {
        hostname: hostname.as_bytes(),
        port,
        in_topic: in_topic.map(|s| s.as_bytes()),
        out_topic: out_topic.map(|s| s.as_bytes()),
    })
}

fn w_connection<'a>(input: &mut &'a str) -> PResult<Connection<'a>> {
    let word: &str = preceded(space0, alpha0).parse_next(input)?;
    match word {
        "serial" => w_serial(input),
        "tcp" | "ip" => w_tcp(input),
        "mqtt" => w_mqtt(input),
        _ => Ok(Connection::Auto),
    }
}

fn w_named<'a>(input: &mut &'a str) -> PResult<(&'a [u8], Vec<&'a [u8]>)> {
    let (name, codes): (&str, Vec<&[u8]>) =
        (preceded(space0, w_identifier), preceded(space1, w_gcodes)).parse_next(input)?;
    Ok((name.as_bytes(), codes))
}

fn w_rest<'a>(input: &mut &'a str) -> PResult<&'a [u8]> {
    let text: &str = preceded(space0, rest).parse_next(input)?;
    Ok(text.as_bytes())
}

fn w_inner<'a>(input: &mut &'a str) -> PResult<Command<'a>> {
    let word: &str = preceded(space0, alpha1).parse_next(input)?;
    match word {
        "log" => {
            let (name, segments): (&str, Vec<Segment>) =
                (preceded(space0, w_identifier), preceded(space1, w_segments)).parse_next(input)?;
            Ok(Command::Log(name.as_bytes(), segments))
        }
        "repeat" => w_named(input).map(|(name, codes)| Command::Repeat(name, codes)),
        "print" => w_rest(input).map(Command::Print),
        "tasks" => Ok(Command::Tasks),
        "stop" => w_rest(input).map(Command::Stop),
        "help" => {
            let text: &str = rest.parse_next(input)?;
            Ok(Command::Help(text.as_bytes()))
        }
        "version" => Ok(Command::Version),
        "disconnect" => Ok(Command::Disconnect),
        "connect" => w_connection(input).map(Command::Connect),
        "macro" => w_named(input).map(|(name, steps)| Command::Macro(name, steps)),
        "macros" => Ok(Command::Macros),
        "delmacro" => w_rest(input).map(Command::DeleteMacro),
        "clear" => Ok(Command::Clear),
        "quit" | "exit" => Ok(Command::Quit),
        _ => backtrack(),
    }
}

fn w_command<'a>(input: &mut &'a str) -> PResult<Command<'a>> {
    alt((w_inner, w_gcodes.map(Command::Gcodes))).parse_next(input)
}

fn prefix<'a, T>(
    mut parser: impl Parser<&'a str, T, ContextError>,
    text: &'a str,
) -> Option<(T, usize)> {
    let mut input = text;
    parser.parse_next(&mut input).ok().map(|value| (value, text.len() - input.len()))
}

const PIECES: [&str; 46] = [
    "", " ", "\t", "G1", "g28", " G1 X5", "G", "1G", "GG1", "G1;", ";G1", "G1;G2", "G1;;G2",
    "G1; G2 ;", "G1;home", "home", "home;G1", "a", "ab", "a1", "a1b", "1a", "-_.", "x-y_z.9",
    "T0", "t0x", "temps_1 rest", "{a}", "{a}{b}", "{{", "}}", "{", "}", "{}", "{G1}", "{a b}",
    "a{b}c", "a{{b}}c", "a{b", "a}b", "{a}}", "{{{a}}}", "é{ü}", "{é}", " serial COM1", "x;y",
];

#[test]
fn gcode_lists_are_read_as_winnow_reads_them() {
    for text in PIECES {
        assert_eq!(Some(parse_gcodes(text.as_bytes(), 0)), prefix(w_gcodes, text), "{text:?}");
    }
}

#[test]
fn identifiers_are_read_as_winnow_reads_them() {
    for text in PIECES {
        assert_eq!(
            identifier(text.as_bytes(), 0),
            prefix(w_identifier, text).map(|(_, end)| end),
            "{text:?}"
        );
    }
}

#[test]
fn patterns_are_read_as_winnow_reads_them() {
    for text in PIECES {
        assert_eq!(parse_segments(text.as_bytes(), 0), prefix(w_segments, text), "{text:?}");
    }
    for text in [
        "millis: {millis},pos:{pos},current:{current}",
        ",millis:{millis},PBT:{PBT} {{PBT0:{PBT0},PBT1:{PBT1}}}",
        "T:{T0}",
        "{a.b}{c-d}{e_f}x",
    ] {
        assert_eq!(parse_segments(text.as_bytes(), 0), prefix(w_segments, text), "{text:?}");
    }
}

#[test]
fn connections_are_read_as_winnow_reads_them() {
    let texts = [
        "", " ", "auto", "serial", "serial ", "serial COM1", "serial  /dev/ttyS0  9600",
        "serial COM1 9600 ", "serial COM1 x", "serial\tCOM1", "serialCOM1", "serial.COM1",
        "tcp", "tcp ", "tcp host", "tcp host:80", "tcp host: 80", "tcp host :80", "tcp host 80 ",
        "tcp  1.1.1.1  8080", "tcp host:99999", "tcp :80", "ip 10.0.0.1:23", "ip", "mqtt",
        "mqtt broker", "mqtt broker:1883", "mqtt broker in", "mqtt broker:1 in out ",
        "mqtt broker in out more", "mqtt broker  in\tout", "wifi", "wifi home", "Serial COM1",
        " tcp x", "7", "tcp host:0080",
    ];
    for text in texts {
        assert_eq!(parse_connection(text.as_bytes(), 0), prefix(w_connection, text), "{text:?}");
    }
}

#[test]
fn commands_are_read_as_winnow_reads_them() {
    let lines = [
        "", " ", "G28", "G1 X10 Y20;M105;", "m105", "hello", "print", "print a.gcode",
        "print  a b ", "printer", "print3rs", "tasks", "tasks ", " tasks", "stop", "stop x",
        "help", "help print", "helpprint", "version", "versions", "disconnect", "connect",
        "connect serial COM1 9600", "connect tcp host:80 ", "connect mqtt b in out",
        "connect serial", "connect wifi", "connect  ", "macro", "macro home G28;G90",
        "macro home G28;home", "macro G1 G28", "macro home", "macro home  G1;", "macros",
        "macros ", "delmacro home", "delmacro", "clear", "quit", "exit", "quit now",
        "repeat r M105", "repeat rr M105;M114;", "repeat rr", "repeat rr x", "log t T:{t}",
        "log t T:{t}{", "log t", "log T0 x", "log  temps_1 ,millis:{millis} {{P:{p}}}",
        "frobnicate", "G28;quit", "quit;G28", ";", "g1;", "a1", "1a",
    ];
    for line in lines {
        let mine = parse_command(line.as_bytes());
        match w_command.parse(line) {
            Ok(Command::Gcodes(codes)) if codes.is_empty() => {
                assert_eq!(mine, Command::Unrecognized, "{line:?}")
            }
            Ok(command) => assert_eq!(mine, command, "{line:?}"),
            Err(_) => assert_eq!(mine, Command::Unrecognized, "{line:?}"),
        }
    }
}
