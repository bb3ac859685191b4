//! The command language of the console: a line is one of the named commands
//! or a list of G-codes.

use crate::connect::{connection_at, parse_connection, Connection, ConnectionView, OwnedConnection};
use crate::log::{
    identifier, identifier_end, parse_segments, pattern_at, segments_into_owned,
    segments_to_borrowed, OwnedSegment, Segment, SegmentView,
};
use crate::response::after_optional;
use crate::text::{
    bytes_eq, is_alpha, is_digit, lemma_views_push, own, run_end, scan, slice, slices, texts,
    views, Class, SEMICOLON,
};
use vstd::prelude::*;
use vstd::string::StringSliceAdditionalSpecFns;

verus! {

/// A command, as a plain value.
pub enum CommandView {
    Gcodes(Seq<Seq<u8>>),
    Print(Seq<u8>),
    Log(Seq<u8>, Seq<SegmentView>),
    Repeat(Seq<u8>, Seq<Seq<u8>>),
    Tasks,
    Stop(Seq<u8>),
    Connect(ConnectionView),
    Disconnect,
    Macro(Seq<u8>, Seq<Seq<u8>>),
    Macros,
    DeleteMacro(Seq<u8>),
    Help(Seq<u8>),
    Version,
    Clear,
    Quit,
    Unrecognized,
}

/// A command, borrowed from the line that was typed.
#[derive(Debug, Clone, PartialEq, Eq)]
pub enum Command<'a> {
    /// Send these G-codes.
    Gcodes(Vec<&'a [u8]>),
    /// Send the lines of this file.
    Print(&'a [u8]),
    /// Write the numbers that this pattern takes from the lines of the device
    /// into a table, as a task of this name.
    Log(&'a [u8], Vec<Segment<'a>>),
    /// Send these G-codes over and over, as a task of this name.
    Repeat(&'a [u8], Vec<&'a [u8]>),
    /// List the tasks.
    Tasks,
    /// End the task of this name.
    Stop(&'a [u8]),
    /// Reach a device in this way.
    Connect(Connection<'a>),
    /// Let go of the device.
    Disconnect,
    /// Let this name stand for these G-codes.
    Macro(&'a [u8], Vec<&'a [u8]>),
    /// List the macros.
    Macros,
    /// Forget the macro of this name.
    DeleteMacro(&'a [u8]),
    /// Explain this command, or all of them.
    Help(&'a [u8]),
    /// Tell the version.
    Version,
    /// Clear the screen.
    Clear,
    /// Leave.
    Quit,
    /// The line is no command.
    Unrecognized,
}

/// A command that owns its text.
#[derive(Debug, Clone, PartialEq, Eq)]
pub enum OwnedCommand {
    Gcodes(Vec<Vec<u8>>),
    Print(Vec<u8>),
    Log(Vec<u8>, Vec<OwnedSegment>),
    Repeat(Vec<u8>, Vec<Vec<u8>>),
    Tasks,
    Stop(Vec<u8>),
    Connect(OwnedConnection),
    Disconnect,
    Macro(Vec<u8>, Vec<Vec<u8>>),
    Macros,
    DeleteMacro(Vec<u8>),
    Help(Vec<u8>),
    Version,
    Clear,
    Quit,
    Unrecognized,
}

impl<'a> View for Command<'a> {
    type V = CommandView;

    open spec fn view(&self) -> CommandView {
        match *self {
            Command::Gcodes(codes) => CommandView::Gcodes(slices(codes@)),
            Command::Print(file) => CommandView::Print(file@),
            Command::Log(name, pattern) => CommandView::Log(name@, views(pattern@)),
            Command::Repeat(name, codes) => CommandView::Repeat(name@, slices(codes@)),
            Command::Tasks => CommandView::Tasks,
            Command::Stop(name) => CommandView::Stop(name@),
            Command::Connect(connection) => CommandView::Connect(connection@),
            Command::Disconnect => CommandView::Disconnect,
            Command::Macro(name, codes) => CommandView::Macro(name@, slices(codes@)),
            Command::Macros => CommandView::Macros,
            Command::DeleteMacro(name) => CommandView::DeleteMacro(name@),
            Command::Help(topic) => CommandView::Help(topic@),
            Command::Version => CommandView::Version,
            Command::Clear => CommandView::Clear,
            Command::Quit => CommandView::Quit,
            Command::Unrecognized => CommandView::Unrecognized,
        }
    }
}

impl View for OwnedCommand {
    type V = CommandView;

    open spec fn view(&self) -> CommandView {
        match *self {
            OwnedCommand::Gcodes(codes) => CommandView::Gcodes(texts(codes)),
            OwnedCommand::Print(file) => CommandView::Print(file@),
            OwnedCommand::Log(name, pattern) => CommandView::Log(name@, views(pattern@)),
            OwnedCommand::Repeat(name, codes) => CommandView::Repeat(name@, texts(codes)),
            OwnedCommand::Tasks => CommandView::Tasks,
            OwnedCommand::Stop(name) => CommandView::Stop(name@),
            OwnedCommand::Connect(connection) => CommandView::Connect(connection@),
            OwnedCommand::Disconnect => CommandView::Disconnect,
            OwnedCommand::Macro(name, codes) => CommandView::Macro(name@, texts(codes)),
            OwnedCommand::Macros => CommandView::Macros,
            OwnedCommand::DeleteMacro(name) => CommandView::DeleteMacro(name@),
            OwnedCommand::Help(topic) => CommandView::Help(topic@),
            OwnedCommand::Version => CommandView::Version,
            OwnedCommand::Clear => CommandView::Clear,
            OwnedCommand::Quit => CommandView::Quit,
            OwnedCommand::Unrecognized => CommandView::Unrecognized,
        }
    }
}

fn own_all(items: &Vec<&[u8]>) -> (r: Vec<Vec<u8>>)
    ensures
        texts(r) == slices(items@),
{
    let mut out: Vec<Vec<u8>> = Vec::new();
    let mut i: usize = 0;
    while i < items.len()
        invariant
            i <= items@.len(),
            out@.len() == i,
            forall|j: int| 0 <= j < i ==> out@[j]@ == items@[j]@,
        decreases items@.len() - i,
    {
        out.push(own(items[i]));
        i += 1;
    }
    assert(texts(out) =~= slices(items@));
    out
}

/// The items of a list of byte strings, borrowed.
pub fn borrow_all<'a>(items: &'a Vec<Vec<u8>>) -> (r: Vec<&'a [u8]>)
    ensures
        slices(r@) == texts(*items),
{
    let mut out: Vec<&'a [u8]> = Vec::new();
    let mut i: usize = 0;
    while i < items.len()
        invariant
            i <= items@.len(),
            out@.len() == i,
            forall|j: int| 0 <= j < i ==> out@[j]@ == items@[j]@,
        decreases items@.len() - i,
    {
        out.push(items[i].as_slice());
        i += 1;
    }
    assert(slices(out@) =~= texts(*items));
    out
}

impl<'a> Command<'a> {
    /// The same command, owning its text.
    pub fn into_owned(self) -> (r: OwnedCommand)
        ensures
            r@ == self@,
    {
        match self {
            Command::Gcodes(codes) => OwnedCommand::Gcodes(own_all(&codes)),
            Command::Print(file) => OwnedCommand::Print(own(file)),
            Command::Log(name, pattern) => OwnedCommand::Log(
                own(name),
                segments_into_owned(&pattern),
            ),
            Command::Repeat(name, codes) => OwnedCommand::Repeat(own(name), own_all(&codes)),
            Command::Tasks => OwnedCommand::Tasks,
            Command::Stop(name) => OwnedCommand::Stop(own(name)),
            Command::Connect(connection) => OwnedCommand::Connect(connection.into_owned()),
            Command::Disconnect => OwnedCommand::Disconnect,
            Command::Macro(name, codes) => OwnedCommand::Macro(own(name), own_all(&codes)),
            Command::Macros => OwnedCommand::Macros,
            Command::DeleteMacro(name) => OwnedCommand::DeleteMacro(own(name)),
            Command::Help(topic) => OwnedCommand::Help(own(topic)),
            Command::Version => OwnedCommand::Version,
            Command::Clear => OwnedCommand::Clear,
            Command::Quit => OwnedCommand::Quit,
            Command::Unrecognized => OwnedCommand::Unrecognized,
        }
    }
}

impl OwnedCommand {
    /// The same command, borrowing its text.
    pub fn to_borrowed<'a>(&'a self) -> (r: Command<'a>)
        ensures
            r@ == self@,
    {
        match self {
            OwnedCommand::Gcodes(codes) => Command::Gcodes(borrow_all(codes)),
            OwnedCommand::Print(file) => Command::Print(file.as_slice()),
            OwnedCommand::Log(name, pattern) => Command::Log(
                name.as_slice(),
                segments_to_borrowed(pattern),
            ),
            OwnedCommand::Repeat(name, codes) => Command::Repeat(
                name.as_slice(),
                borrow_all(codes),
            ),
            OwnedCommand::Tasks => Command::Tasks,
            OwnedCommand::Stop(name) => Command::Stop(name.as_slice()),
            OwnedCommand::Connect(connection) => Command::Connect(connection.to_borrowed()),
            OwnedCommand::Disconnect => Command::Disconnect,
            OwnedCommand::Macro(name, codes) => Command::Macro(name.as_slice(), borrow_all(codes)),
            OwnedCommand::Macros => Command::Macros,
            OwnedCommand::DeleteMacro(name) => Command::DeleteMacro(name.as_slice()),
            OwnedCommand::Help(topic) => Command::Help(topic.as_slice()),
            OwnedCommand::Version => Command::Version,
            OwnedCommand::Clear => Command::Clear,
            OwnedCommand::Quit => Command::Quit,
            OwnedCommand::Unrecognized => Command::Unrecognized,
        }
    }
}

/// Where the G-code that starts at `at` ends: what stands there looks like a
/// G-code if, after blanks, a letter comes and then a digit; it runs from
/// `at` to the next `;`.
pub open spec fn plausible_end(s: Seq<u8>, at: int) -> Option<int> {
    let letter = run_end(s, at, Class::Blank);
    if 0 <= at && letter + 1 < s.len() && is_alpha(s[letter]) && is_digit(s[letter + 1]) {
        Some(run_end(s, at, Class::Until(SEMICOLON)))
    } else {
        None
    }
}

/// The G-codes that follow one another from `at`, each after a `;`, and where
/// the last of them ends.
pub open spec fn more_gcodes(s: Seq<u8>, at: int) -> (Seq<Seq<u8>>, int)
    decreases s.len() - at,
{
    if 0 <= at < s.len() && s[at] == SEMICOLON {
        match plausible_end(s, at + 1) {
            Some(end) => if at + 1 < end <= s.len() {
                let (more, last) = more_gcodes(s, end);
                (seq![s.subrange(at + 1, end)] + more, last)
            } else {
                (Seq::empty(), at)
            },
            None => (Seq::empty(), at),
        }
    } else {
        (Seq::empty(), at)
    }
}

/// The list of G-codes at `at` and where it ends: G-codes with a `;` between
/// each two, none at all where the first does not look like one, and an
/// optional `;` at the end.
pub open spec fn gcodes_at(s: Seq<u8>, at: int) -> (Seq<Seq<u8>>, int) {
    match plausible_end(s, at) {
        Some(end) => {
            let (more, last) = more_gcodes(s, end);
            (seq![s.subrange(at, end)] + more, after_optional(s, last, SEMICOLON))
        },
        None => (Seq::empty(), after_optional(s, at, SEMICOLON)),
    }
}

/// A name at `at`, after blanks, and the position after the blanks that
/// follow it, of which there is at least one.
pub open spec fn name_at(s: Seq<u8>, at: int) -> Option<(Seq<u8>, int)> {
    let start = run_end(s, at, Class::Blank);
    match identifier_end(s, start) {
        Some(end) => {
            let next = run_end(s, end, Class::Blank);
            if end < next {
                Some((s.subrange(start, end), next))
            } else {
                None
            }
        },
        None => None,
    }
}

/// What stands in `s` from `at`, after blanks, to the end.
pub open spec fn rest_at(s: Seq<u8>, at: int) -> Seq<u8> {
    s.subrange(run_end(s, at, Class::Blank), s.len() as int)
}

/// The arguments of `repeat` at `at`: a name and a list of G-codes.
pub open spec fn repeater_at(s: Seq<u8>, at: int) -> Option<(CommandView, int)> {
    match name_at(s, at) {
        Some((name, codes)) => Some(
            (CommandView::Repeat(name, gcodes_at(s, codes).0), gcodes_at(s, codes).1),
        ),
        None => None,
    }
}

/// The arguments of `macro` at `at`: a name and a list of G-codes.
pub open spec fn macro_at(s: Seq<u8>, at: int) -> Option<(CommandView, int)> {
    match name_at(s, at) {
        Some((name, codes)) => Some(
            (CommandView::Macro(name, gcodes_at(s, codes).0), gcodes_at(s, codes).1),
        ),
        None => None,
    }
}

/// The arguments of `log` at `at`: a name and a pattern.
pub open spec fn logger_at(s: Seq<u8>, at: int) -> Option<(CommandView, int)> {
    match name_at(s, at) {
        Some((name, pattern)) => match pattern_at(s, pattern) {
            Some((segments, end)) => Some((CommandView::Log(name, segments), end)),
            None => None,
        },
        None => None,
    }
}

/// The named command at the start of `s` and where it ends: blanks, a word
/// of letters that is the name of a command, and the arguments of that
/// command.
pub open spec fn inner_command_at(s: Seq<u8>) -> Option<(CommandView, int)> {
    let start = run_end(s, 0, Class::Blank);
    let end = run_end(s, start, Class::Letter);
    let word = s.subrange(start, end);
    let whole = s.len() as int;
    if word == "log".spec_bytes() {
        logger_at(s, end)
    } else if word == "repeat".spec_bytes() {
        repeater_at(s, end)
    } else if word == "print".spec_bytes() {
        Some((CommandView::Print(rest_at(s, end)), whole))
    } else if word == "tasks".spec_bytes() {
        Some((CommandView::Tasks, end))
    } else if word == "stop".spec_bytes() {
        Some((CommandView::Stop(rest_at(s, end)), whole))
    } else if word == "help".spec_bytes() {
        Some((CommandView::Help(s.subrange(end, whole)), whole))
    } else if word == "version".spec_bytes() {
        Some((CommandView::Version, end))
    } else if word == "disconnect".spec_bytes() {
        Some((CommandView::Disconnect, end))
    } else if word == "connect".spec_bytes() {
        match connection_at(s, end) {
            Some((connection, after)) => Some((CommandView::Connect(connection), after)),
            None => None,
        }
    } else if word == "macro".spec_bytes() {
        macro_at(s, end)
    } else if word == "macros".spec_bytes() {
        Some((CommandView::Macros, end))
    } else if word == "delmacro".spec_bytes() {
        Some((CommandView::DeleteMacro(rest_at(s, end)), whole))
    } else if word == "send".spec_bytes() {
        let codes = gcodes_at(s, run_end(s, end, Class::Blank));
        Some((CommandView::Gcodes(codes.0), codes.1))
    } else if word == "clear".spec_bytes() {
        Some((CommandView::Clear, end))
    } else if word == "quit".spec_bytes() || word == "exit".spec_bytes() {
        Some((CommandView::Quit, end))
    } else {
        None
    }
}

/// The command that a line is: the named command that takes all of it, or
/// the list of G-codes, one at least, that takes all of it. Any other line
/// is no command.
pub open spec fn command_of(line: Seq<u8>) -> CommandView {
    match inner_command_at(line) {
        Some((command, end)) => if end == line.len() {
            command
        } else {
            CommandView::Unrecognized
        },
        None => {
            let (codes, end) = gcodes_at(line, 0);
            if end == line.len() && codes.len() > 0 {
                CommandView::Gcodes(codes)
            } else {
                CommandView::Unrecognized
            }
        },
    }
}

/// Reads a G-code at `at`. Returns where it ends.
pub fn plausible_code(s: &[u8], at: usize) -> (r: Option<usize>)
    requires
        at <= s@.len(),
    ensures
        r matches Some(end) ==> plausible_end(s@, at as int) == Some(end as int) && at + 1 < end
            <= s@.len(),
        r is None ==> plausible_end(s@, at as int) is None,
{
    let letter = scan(s, at, Class::Blank);
    if s.len() - letter >= 2 && Class::Letter.test(s[letter]) && Class::Digit.test(s[letter + 1]) {
        let end = scan(s, at, Class::Until(SEMICOLON));
        proof {
            lemma_plausible_length(s@, at as int);
        }
        Some(end)
    } else {
        None
    }
}

/// What looks like a G-code is at least two bytes long.
pub proof fn lemma_plausible_length(s: Seq<u8>, at: int)
    requires
        0 <= at <= s.len(),
        plausible_end(s, at) is Some,
    ensures
        at + 1 < plausible_end(s, at)->0 <= s.len(),
{
    let letter = run_end(s, at, Class::Blank);
    crate::text::lemma_run_end(s, at, Class::Blank);
    crate::text::lemma_run_end(s, at, Class::Until(SEMICOLON));
    let end = run_end(s, at, Class::Until(SEMICOLON));
    if end <= letter + 1 {
        assert(end < s.len());
        assert(s[end] == SEMICOLON);
        if end < letter {
            assert(Class::Blank.holds(s[end]));
        }
    }
}

/// Reads a list of G-codes at `at`. Returns them with the position after
/// the list.
pub fn parse_gcodes<'a>(s: &'a [u8], at: usize) -> (r: (Vec<&'a [u8]>, usize))
    requires
        at <= s@.len(),
    ensures
        (slices(r.0@), r.1 as int) == gcodes_at(s@, at as int),
        at <= r.1 <= s@.len(),
{
    let mut codes: Vec<&'a [u8]> = Vec::new();
    let mut here: usize = at;
    match plausible_code(s, at) {
        Some(end) => {
            codes.push(slice(s, at, end));
            here = end;
            proof {
                assert(slices(codes@) =~= seq![s@.subrange(at as int, end as int)]);
            }
        },
        None => {
            let end = skip_semicolon(s, at);
            assert(slices(codes@) =~= Seq::<Seq<u8>>::empty());
            return (codes, end);
        },
    }
    let ghost first = here;
    loop
        invariant
            at < first <= here <= s@.len(),
            plausible_end(s@, at as int) == Some(first as int),
            slices(codes@) + more_gcodes(s@, here as int).0 == seq![
                s@.subrange(at as int, first as int),
            ] + more_gcodes(s@, first as int).0,
            more_gcodes(s@, here as int).1 == more_gcodes(s@, first as int).1,
        decreases s@.len() - here,
    {
        let next = if here < s.len() && s[here] == SEMICOLON {
            plausible_code(s, here + 1)
        } else {
            None
        };
        match next {
            Some(end) => {
                let code = slice(s, here + 1, end);
                proof {
                    lemma_views_push(codes@, code);
                    assert(slices(codes@).push(code@) + more_gcodes(s@, end as int).0
                        =~= slices(codes@) + (seq![code@] + more_gcodes(s@, end as int).0));
                }
                codes.push(code);
                here = end;
            },
            None => {
                proof {
                    assert(more_gcodes(s@, here as int).0 =~= Seq::<Seq<u8>>::empty());
                    assert(slices(codes@) + Seq::<Seq<u8>>::empty() =~= slices(codes@));
                }
                let end = skip_semicolon(s, here);
                return (codes, end);
            },
        }
    }
}

fn skip_semicolon(s: &[u8], at: usize) -> (r: usize)
    requires
        at <= s@.len(),
    ensures
        r == after_optional(s@, at as int, SEMICOLON),
        at <= r <= s@.len(),
{
    if at < s.len() && s[at] == SEMICOLON {
        at + 1
    } else {
        at
    }
}

fn parse_name<'a>(s: &'a [u8], at: usize) -> (r: Option<(&'a [u8], usize)>)
    requires
        at <= s@.len(),
    ensures
        match r {
            Some((name, next)) => name_at(s@, at as int) == Some((name@, next as int)) && next
                <= s@.len(),
            None => name_at(s@, at as int) is None,
        },
{
    let start = scan(s, at, Class::Blank);
    match identifier(s, start) {
        Some(end) => {
            let next = scan(s, end, Class::Blank);
            if end < next {
                Some((slice(s, start, end), next))
            } else {
                None
            }
        },
        None => None,
    }
}

fn rest<'a>(s: &'a [u8], at: usize) -> (r: &'a [u8])
    requires
        at <= s@.len(),
    ensures
        r@ == rest_at(s@, at as int),
{
    let start = scan(s, at, Class::Blank);
    slice(s, start, s.len())
}

/// Reads the arguments of `repeat` at `at`.
pub fn parse_repeater<'a>(s: &'a [u8], at: usize) -> (r: Option<(Command<'a>, usize)>)
    requires
        at <= s@.len(),
    ensures
        match r {
            Some((command, end)) => repeater_at(s@, at as int) == Some((command@, end as int))
                && end <= s@.len(),
            None => repeater_at(s@, at as int) is None,
        },
{
    match parse_name(s, at) {
        Some((name, codes)) => {
            let (gcodes, end) = parse_gcodes(s, codes);
            Some((Command::Repeat(name, gcodes), end))
        },
        None => None,
    }
}

/// Reads the arguments of `macro` at `at`.
pub fn parse_macro<'a>(s: &'a [u8], at: usize) -> (r: Option<(Command<'a>, usize)>)
    requires
        at <= s@.len(),
    ensures
        match r {
            Some((command, end)) => macro_at(s@, at as int) == Some((command@, end as int))
                && end <= s@.len(),
            None => macro_at(s@, at as int) is None,
        },
{
    match parse_name(s, at) {
        Some((name, codes)) => {
            let (steps, end) = parse_gcodes(s, codes);
            Some((Command::Macro(name, steps), end))
        },
        None => None,
    }
}

/// Reads the arguments of `log` at `at`.
pub fn parse_logger<'a>(s: &'a [u8], at: usize) -> (r: Option<(Command<'a>, usize)>)
    requires
        at <= s@.len(),
    ensures
        match r {
            Some((command, end)) => logger_at(s@, at as int) == Some((command@, end as int))
                && end <= s@.len(),
            None => logger_at(s@, at as int) is None,
        },
{
    match parse_name(s, at) {
        Some((name, pattern)) => match parse_segments(s, pattern) {
            Some((segments, end)) => Some((Command::Log(name, segments), end)),
            None => None,
        },
        None => None,
    }
}

/// Reads a named command from the start of `s`. Returns it with the position
/// after it.
pub fn inner_command<'a>(s: &'a [u8]) -> (r: Option<(Command<'a>, usize)>)
    ensures
        match r {
            Some((command, end)) => inner_command_at(s@) == Some((command@, end as int)) && end
                <= s@.len(),
            None => inner_command_at(s@) is None,
        },
{
    let start = scan(s, 0, Class::Blank);
    let end = scan(s, start, Class::Letter);
    let word = slice(s, start, end);
    let whole = s.len();
    if bytes_eq(word, "log".as_bytes()) {
        parse_logger(s, end)
    } else if bytes_eq(word, "repeat".as_bytes()) {
        parse_repeater(s, end)
    } else if bytes_eq(word, "print".as_bytes()) {
        Some((Command::Print(rest(s, end)), whole))
    } else if bytes_eq(word, "tasks".as_bytes()) {
        Some((Command::Tasks, end))
    } else if bytes_eq(word, "stop".as_bytes()) {
        Some((Command::Stop(rest(s, end)), whole))
    } else if bytes_eq(word, "help".as_bytes()) {
        Some((Command::Help(slice(s, end, whole)), whole))
    } else if bytes_eq(word, "version".as_bytes()) {
        Some((Command::Version, end))
    } else if bytes_eq(word, "disconnect".as_bytes()) {
        Some((Command::Disconnect, end))
    } else if bytes_eq(word, "connect".as_bytes()) {
        match parse_connection(s, end) {
            Some((connection, after)) => Some((Command::Connect(connection), after)),
            None => None,
        }
    } else if bytes_eq(word, "macro".as_bytes()) {
        parse_macro(s, end)
    } else if bytes_eq(word, "macros".as_bytes()) {
        Some((Command::Macros, end))
    } else if bytes_eq(word, "delmacro".as_bytes()) {
        Some((Command::DeleteMacro(rest(s, end)), whole))
    } else if bytes_eq(word, "send".as_bytes()) {
        let (codes, after) = parse_gcodes(s, scan(s, end, Class::Blank));
        Some((Command::Gcodes(codes), after))
    } else if bytes_eq(word, "clear".as_bytes()) {
        Some((Command::Clear, end))
    } else if bytes_eq(word, "quit".as_bytes()) || bytes_eq(word, "exit".as_bytes()) {
        Some((Command::Quit, end))
    } else {
        None
    }
}

/// Reads a line as a command.
pub fn parse_command<'a>(line: &'a [u8]) -> (command: Command<'a>)
    ensures
        command@ == command_of(line@),
{
    match inner_command(line) {
        Some((command, end)) => if end == line.len() {
            command
        } else {
            Command::Unrecognized
        },
        None => {
            let (codes, end) = parse_gcodes(line, 0);
            if end == line.len() && codes.len() > 0 {
                Command::Gcodes(codes)
            } else {
                Command::Unrecognized
            }
        },
    }
}

} // verus!
