//! The command engine: what each command does to the macros and the tasks,
//! and what it asks of the program around it.
//!
//! The engine owns the macro table and the registry of tasks. It starts
//! nothing and writes nothing itself: `dispatch` answers with the actions that
//! the program is to carry out.

use crate::commands::{borrow_all, Command, CommandView};
use crate::connect::{Connection, ConnectionView, OwnedConnection};
use crate::encoder::{decimal, format_integer};
use crate::help::{help, help_for};
use crate::log::{get_headers, labels, make_parser, row, LogParser};
use crate::macros::{expand_first, substitute, Macros};
use crate::tasks::{task_line, BackgroundTask, Tasks};
use crate::text::{
    append, join, joined, own, slices, texts, trimmed, upper_seq, views, COLON, NEWLINE, SEMICOLON,
    SPACE,
};
use crate::version::{version, VERSION};
use vstd::prelude::*;
use vstd::string::StringSliceAdditionalSpecFns;

verus! {

/// What a command that needs a device says where there is none.
pub const NOT_CONNECTED: &'static str = "Not connected to a printer";

/// What is said of a macro whose expansion would never end.
pub const INFINITE_MACRO: &'static str = "Infinite macro detected! Macro not added.\n";

/// What is said where a macro is to be forgotten that does not exist.
pub const NO_SUCH_MACRO: &'static str = "No such macro";

/// What is said of a connection through a message broker.
pub const NO_MQTT: &'static str = "Connections through a message broker are not supported";

/// What is said of a line that is no command.
pub const UNSUPPORTED: &'static str = "Unsupported command!\n";

/// What is said while the serial ports are tried.
pub const CONNECTING: &'static str = "Connecting...\n";

/// What went wrong with a command, in words.
#[derive(Debug, Clone)]
pub struct ErrorKindOf(pub Vec<u8>);

/// What the engine tells the one who gave a command.
#[derive(Debug, Clone)]
pub enum Response {
    /// Text to show.
    Output(Vec<u8>),
    /// An error to show.
    Error(ErrorKindOf),
    /// Clear the screen.
    Clear,
    /// Leave.
    Quit,
}

/// What the program is to do for a command.
#[derive(Debug)]
pub enum Action<H> {
    /// Hand this response to the one who gave the command.
    Respond(Response),
    /// Start a task of this name that sends these G-codes once, each without
    /// sequence number, and waits for each to be confirmed.
    SendGcodes { name: Vec<u8>, codes: Vec<Vec<u8>> },
    /// Start a task that sends the G-codes of the file of this name, each
    /// with a sequence number.
    PrintFile { name: Vec<u8> },
    /// Start a task of this name that writes a table with this header and a
    /// row for each line of the device that the parser accepts.
    StartLog { name: Vec<u8>, header: Vec<u8>, parser: LogParser },
    /// Start a task of this name that sends these G-codes over and over.
    StartRepeat { name: Vec<u8>, codes: Vec<Vec<u8>> },
    /// End these tasks: they have left the registry.
    Abort(Vec<BackgroundTask<H>>),
    /// Reach a device in this way, in the place of the one that is connected.
    Connect(OwnedConnection),
    /// Let go of the device.
    Disconnect,
}

/// `action` shows this text.
pub open spec fn is_output<H>(action: Action<H>, text: Seq<u8>) -> bool {
    action matches Action::Respond(Response::Output(shown)) && shown@ == text
}

/// What a command comes to: the actions that are left for the program, or
/// the reason why it failed.
pub type Outcome<H> = Result<Vec<Action<H>>, ErrorKindOf>;

/// `action` reports this error.
pub open spec fn is_error<H>(action: Action<H>, text: Seq<u8>) -> bool {
    action matches Action::Respond(Response::Error(e)) && e.0@ == text
}

/// The command failed, for this reason.
pub open spec fn failed<H>(r: Outcome<H>, reason: Seq<u8>) -> bool {
    r matches Err(e) && e.0@ == reason
}

/// The command leaves one thing to do: to show this text.
pub open spec fn shows<H>(r: Outcome<H>, text: Seq<u8>) -> bool {
    r matches Ok(actions) && actions@.len() == 1 && is_output(actions@[0], text)
}

/// The name of the task that sends a list of G-codes once: `gcodes_` and the
/// count of such tasks before it.
pub open spec fn batch_name(count: usize) -> Seq<u8> {
    "gcodes_".spec_bytes() + decimal(count as int)
}

/// The line that tells of a macro: its name, a colon and a space, its steps
/// with a `;` between each two, and a line feed.
pub open spec fn macro_line(name: Seq<u8>, steps: Seq<Seq<u8>>) -> Seq<u8> {
    name + seq![COLON, SPACE] + joined(steps, steps.len(), SEMICOLON) + seq![NEWLINE]
}

/// The count after `count`; it starts over at the end of its range.
pub open spec fn next_count(count: usize) -> usize {
    if count == usize::MAX {
        0
    } else {
        (count + 1) as usize
    }
}

/// The command engine.
#[derive(Debug)]
pub struct Commander<H> {
    pub tasks: Tasks<H>,
    pub macros: Macros,
    /// How many lists of G-codes were sent as a task of their own.
    pub batches: usize,
}

impl<H> Commander<H> {
    /// How many lists of G-codes were sent as a task of their own.
    pub open spec fn count(&self) -> usize {
        self.batches
    }

    /// The registry and the macro table are well formed.
    pub open spec fn wf(&self) -> bool {
        self.tasks.wf() && self.macros.wf()
    }

    /// The tasks are those of `other`.
    pub open spec fn same_tasks(&self, other: &Self) -> bool {
        self.tasks.names() == other.tasks.names() && self.tasks.tasks() == other.tasks.tasks()
    }

    /// Nothing differs from `other`.
    pub open spec fn same(&self, other: &Self) -> bool {
        self.same_tasks(other) && self.macros@ == other.macros@ && self.count() == other.count()
    }

    /// An engine without tasks and macros.
    pub fn new() -> (engine: Self)
        ensures
            engine.wf(),
            engine.tasks.tasks().len() == 0,
            engine.macros@ == Map::<Seq<u8>, Seq<Seq<u8>>>::empty(),
            engine.count() == 0,
    {
        Commander { tasks: Tasks::new(), macros: Macros::new(), batches: 0 }
    }

    /// Takes the tasks out of the registry when another device takes the
    /// place of the one that is connected. Returns them, to be ended.
    pub fn set_printer(&mut self) -> (ended: Vec<BackgroundTask<H>>)
        requires
            old(self).wf(),
        ensures
            final(self).wf(),
            final(self).tasks.tasks().len() == 0,
            final(self).macros@ == old(self).macros@,
            final(self).count() == old(self).count(),
            ended@ == old(self).tasks.tasks(),
    {
        self.tasks.clear()
    }

    /// `clear` and `quit` change nothing and hand on their response.
    pub open spec fn responded(&self, before: &Self, r: Outcome<H>, quit: bool) -> bool {
        &&& self.same(before)
        &&& r matches Ok(actions)
        &&& actions@.len() == 1
        &&& if quit {
            actions@[0] matches Action::Respond(Response::Quit)
        } else {
            actions@[0] matches Action::Respond(Response::Clear)
        }
    }

    /// A list of G-codes is expanded under the macros and sent as a task of
    /// its own, which is named by the count of such tasks.
    pub open spec fn sent(
        &self,
        before: &Self,
        r: Outcome<H>,
        connected: bool,
        codes: Seq<Seq<u8>>,
    ) -> bool {
        if connected {
            &&& self.same_tasks(before)
            &&& self.macros@ == before.macros@
            &&& self.count() == next_count(before.count())
            &&& r matches Ok(actions)
            &&& actions@.len() == 1
            &&& actions@[0] matches Action::SendGcodes { name, codes: expanded }
            &&& name@ == batch_name(before.count())
            &&& texts(expanded) == substitute(before.macros@, codes, codes.len())
        } else {
            self.same(before) && failed(r, NOT_CONNECTED.spec_bytes())
        }
    }

    /// A file is printed by a task that bears its name.
    pub open spec fn printed(
        &self,
        before: &Self,
        r: Outcome<H>,
        connected: bool,
        file: Seq<u8>,
    ) -> bool {
        &&& self.same(before)
        &&& if connected {
            &&& r matches Ok(actions)
            &&& actions@.len() == 1
            &&& actions@[0] matches Action::PrintFile { name }
            &&& name@ == file
        } else {
            failed(r, NOT_CONNECTED.spec_bytes())
        }
    }

    /// A logger gets the header of its table and the pattern, ready to run.
    pub open spec fn logged(
        &self,
        before: &Self,
        r: Outcome<H>,
        connected: bool,
        task: Seq<u8>,
        pattern: Seq<crate::log::SegmentView>,
    ) -> bool {
        &&& self.same(before)
        &&& if connected {
            &&& r matches Ok(actions)
            &&& actions@.len() == 1
            &&& actions@[0] matches Action::StartLog { name, header, parser }
            &&& name@ == task
            &&& header@ == row(labels(pattern, pattern.len()))
            &&& parser.pattern() == pattern
        } else {
            failed(r, NOT_CONNECTED.spec_bytes())
        }
    }

    /// A list of G-codes is expanded under the macros, once, and repeated by
    /// a task of the given name.
    pub open spec fn repeated(
        &self,
        before: &Self,
        r: Outcome<H>,
        connected: bool,
        task: Seq<u8>,
        codes: Seq<Seq<u8>>,
    ) -> bool {
        &&& self.same(before)
        &&& if connected {
            &&& r matches Ok(actions)
            &&& actions@.len() == 1
            &&& actions@[0] matches Action::StartRepeat { name, codes: expanded }
            &&& name@ == task
            &&& texts(expanded) == substitute(before.macros@, codes, codes.len())
        } else {
            failed(r, NOT_CONNECTED.spec_bytes())
        }
    }

    /// Every task is told of in a line of its own.
    pub open spec fn listed_tasks(&self, before: &Self, r: Outcome<H>) -> bool {
        &&& self.same(before)
        &&& r matches Ok(actions)
        &&& actions@.len() == before.tasks.tasks().len()
        &&& forall|i: int|
            0 <= i < actions@.len() ==> is_output(
                #[trigger] actions@[i],
                task_line(before.tasks.names()[i], before.tasks.tasks()[i].description),
            )
    }

    /// The task of the given name leaves the registry and is to be ended;
    /// every other task stays.
    pub open spec fn stopped(&self, before: &Self, r: Outcome<H>, task: Seq<u8>) -> bool {
        &&& self.macros@ == before.macros@
        &&& self.count() == before.count()
        &&& !self.tasks.has(task)
        &&& r matches Ok(actions)
        &&& if before.tasks.has(task) {
            &&& actions@.len() == 1
            &&& actions@[0] matches Action::Abort(ended)
            &&& ended@.len() == 1
            &&& exists|i: int|
                0 <= i < before.tasks.names().len() && #[trigger] before.tasks.names()[i] == task
                    && before.tasks.tasks()[i] == ended@[0] && self.tasks.names()
                    == before.tasks.names().remove(i) && self.tasks.tasks()
                    == before.tasks.tasks().remove(i)
        } else {
            actions@.len() == 0 && self.same_tasks(before)
        }
    }

    /// A macro is stored with its full expansion; one whose expansion would
    /// never end is not stored, and an error says so.
    pub open spec fn defined(
        &self,
        before: &Self,
        r: Outcome<H>,
        name: Seq<u8>,
        steps: Seq<Seq<u8>>,
    ) -> bool {
        &&& self.same_tasks(before)
        &&& self.count() == before.count()
        &&& r matches Ok(actions)
        &&& match expand_first(before.macros@, Set::empty(), steps, steps.len()) {
            Some(flat) => actions@.len() == 0 && self.macros@ == before.macros@.insert(
                upper_seq(name),
                flat,
            ),
            None => actions@.len() == 1 && is_error(actions@[0], INFINITE_MACRO.spec_bytes())
                && self.macros@ == before.macros@,
        }
    }

    /// Every macro is told of in a line of its own, in the order of the
    /// listing.
    pub open spec fn listed_macros(&self, before: &Self, r: Outcome<H>) -> bool {
        &&& self.same(before)
        &&& r matches Ok(actions)
        &&& actions@.len() == before.macros.listing().len()
        &&& forall|i: int|
            0 <= i < actions@.len() ==> is_output(
                #[trigger] actions@[i],
                macro_line(before.macros.listing()[i].0, before.macros.listing()[i].1),
            )
    }

    /// The macro of the given name is forgotten; to name none is an error.
    pub open spec fn deleted(&self, before: &Self, r: Outcome<H>, name: Seq<u8>) -> bool {
        &&& self.same_tasks(before)
        &&& self.count() == before.count()
        &&& self.macros@ == before.macros@.remove(upper_seq(name))
        &&& if before.macros@.contains_key(upper_seq(name)) {
            r matches Ok(actions) && actions@.len() == 0
        } else {
            failed(r, NO_SUCH_MACRO.spec_bytes())
        }
    }

    /// Every task leaves the registry and is to be ended.
    pub open spec fn cleared(&self, before: &Self, actions: Seq<Action<H>>) -> bool {
        &&& self.tasks.tasks().len() == 0
        &&& self.macros@ == before.macros@
        &&& self.count() == before.count()
        &&& actions.len() > 0
        &&& actions[0] matches Action::Abort(ended)
        &&& ended@ == before.tasks.tasks()
    }

    /// Before another device is reached, every task is ended. A search among
    /// the serial ports is announced. There is no way through a message
    /// broker.
    pub open spec fn connected(
        &self,
        before: &Self,
        r: Outcome<H>,
        connection: ConnectionView,
    ) -> bool {
        match connection {
            ConnectionView::Mqtt { .. } => self.same(before) && failed(r, NO_MQTT.spec_bytes()),
            ConnectionView::Auto => {
                &&& r matches Ok(actions)
                &&& self.cleared(before, actions@)
                &&& actions@.len() == 3
                &&& is_output(actions@[1], CONNECTING.spec_bytes())
                &&& actions@[2] matches Action::Connect(chosen)
                &&& chosen@ == connection
            },
            _ => {
                &&& r matches Ok(actions)
                &&& self.cleared(before, actions@)
                &&& actions@.len() == 2
                &&& actions@[1] matches Action::Connect(chosen)
                &&& chosen@ == connection
            },
        }
    }

    /// Every task is ended and the device let go.
    pub open spec fn disconnected(&self, before: &Self, r: Outcome<H>) -> bool {
        &&& r matches Ok(actions)
        &&& self.cleared(before, actions@)
        &&& actions@.len() == 2
        &&& actions@[1] is Disconnect
    }

    /// What is no command is answered with an error.
    pub open spec fn refused(&self, before: &Self, r: Outcome<H>) -> bool {
        &&& self.same(before)
        &&& r matches Ok(actions)
        &&& actions@.len() == 1
        &&& is_error(actions@[0], UNSUPPORTED.spec_bytes())
    }

    /// What a command comes to, by its kind.
    pub open spec fn dispatched(
        &self,
        before: &Self,
        r: Outcome<H>,
        command: CommandView,
        connected: bool,
    ) -> bool {
        match command {
            CommandView::Clear => self.responded(before, r, false),
            CommandView::Quit => self.responded(before, r, true),
            CommandView::Gcodes(codes) => self.sent(before, r, connected, codes),
            CommandView::Print(file) => self.printed(before, r, connected, file),
            CommandView::Log(task, pattern) => self.logged(before, r, connected, task, pattern),
            CommandView::Repeat(task, codes) => self.repeated(before, r, connected, task, codes),
            CommandView::Tasks => self.listed_tasks(before, r),
            CommandView::Stop(task) => self.stopped(before, r, task),
            CommandView::Macro(name, steps) => self.defined(before, r, name, steps),
            CommandView::Macros => self.listed_macros(before, r),
            CommandView::DeleteMacro(name) => self.deleted(before, r, name),
            CommandView::Connect(connection) => self.connected(before, r, connection),
            CommandView::Disconnect => self.disconnected(before, r),
            CommandView::Help(topic) => self.same(before) && shows(
                r,
                help_for(trimmed(topic)).spec_bytes(),
            ),
            CommandView::Version => self.same(before) && shows(r, VERSION.spec_bytes()),
            CommandView::Unrecognized => self.refused(before, r),
        }
    }

    fn send(&mut self, codes: &[&[u8]], connected: bool) -> (r: Outcome<H>)
        requires
            old(self).wf(),
        ensures
            final(self).wf(),
            final(self).sent(old(self), r, connected, slices(codes@)),
    {
        if !connected {
            return Err(not_connected());
        }
        let expanded = self.macros.expand(codes);
        let mut name = own("gcodes_".as_bytes());
        let number = format_integer(self.batches as i128);
        append(&mut name, number.as_slice());
        self.batches = self.batches.wrapping_add(1);
        let mut actions: Vec<Action<H>> = Vec::new();
        actions.push(Action::SendGcodes { name, codes: expanded });
        Ok(actions)
    }

    fn log(&self, name: &[u8], pattern: &Vec<crate::log::Segment<'_>>, connected: bool) -> (r:
        Outcome<H>)
        ensures
            self.logged(self, r, connected, name@, views(pattern@)),
    {
        if !connected {
            return Err(not_connected());
        }
        let header = get_headers(pattern.as_slice());
        let parser = make_parser(copy_segments(pattern));
        let mut actions: Vec<Action<H>> = Vec::new();
        actions.push(Action::StartLog { name: own(name), header, parser });
        Ok(actions)
    }

    fn repeat(&self, name: &[u8], codes: &[&[u8]], connected: bool) -> (r: Outcome<H>)
        requires
            self.wf(),
        ensures
            self.repeated(self, r, connected, name@, slices(codes@)),
    {
        if !connected {
            return Err(not_connected());
        }
        let expanded = self.macros.expand(codes);
        let mut actions: Vec<Action<H>> = Vec::new();
        actions.push(Action::StartRepeat { name: own(name), codes: expanded });
        Ok(actions)
    }

    fn list_tasks(&self) -> (r: Outcome<H>)
        requires
            self.wf(),
        ensures
            self.listed_tasks(self, r),
    {
        let mut actions: Vec<Action<H>> = Vec::new();
        let lines = self.tasks.list();
        let mut i: usize = 0;
        while i < lines.len()
            invariant
                i <= lines@.len(),
                actions@.len() == i,
                forall|j: int| 0 <= j < i ==> is_output(#[trigger] actions@[j], lines@[j]@),
            decreases lines@.len() - i,
        {
            actions.push(output(lines[i].as_slice()));
            i += 1;
        }
        Ok(actions)
    }

    fn stop(&mut self, name: &[u8]) -> (r: Outcome<H>)
        requires
            old(self).wf(),
        ensures
            final(self).wf(),
            final(self).stopped(old(self), r, name@),
    {
        let mut actions: Vec<Action<H>> = Vec::new();
        match self.tasks.remove(name) {
            Some(task) => {
                let mut ended: Vec<BackgroundTask<H>> = Vec::new();
                ended.push(task);
                actions.push(Action::Abort(ended));
            },
            None => {},
        }
        Ok(actions)
    }

    fn define(&mut self, name: &[u8], steps: &[&[u8]]) -> (r: Outcome<H>)
        requires
            old(self).wf(),
        ensures
            final(self).wf(),
            final(self).defined(old(self), r, name@, slices(steps@)),
    {
        let mut actions: Vec<Action<H>> = Vec::new();
        if self.macros.add(name, steps).is_err() {
            actions.push(error(INFINITE_MACRO.as_bytes()));
        }
        Ok(actions)
    }

    fn list_macros(&self) -> (r: Outcome<H>)
        ensures
            self.listed_macros(self, r),
    {
        let mut actions: Vec<Action<H>> = Vec::new();
        let all = self.macros.iter();
        let mut i: usize = 0;
        while i < all.len()
            invariant
                i <= all@.len(),
                actions@.len() == i,
                forall|j: int|
                    0 <= j < i ==> is_output(
                        #[trigger] actions@[j],
                        macro_line(all@[j].0@, texts(*all@[j].1)),
                    ),
            decreases all@.len() - i,
        {
            let (name, steps) = all[i];
            actions.push(output(write_macro(name.as_slice(), steps).as_slice()));
            i += 1;
        }
        Ok(actions)
    }

    fn delete(&mut self, name: &[u8]) -> (r: Outcome<H>)
        requires
            old(self).wf(),
        ensures
            final(self).wf(),
            final(self).deleted(old(self), r, name@),
    {
        if self.macros.remove(name).is_none() {
            return Err(ErrorKindOf(own(NO_SUCH_MACRO.as_bytes())));
        }
        Ok(Vec::new())
    }

    fn connect(&mut self, connection: &Connection<'_>) -> (r: Outcome<H>)
        requires
            old(self).wf(),
        ensures
            final(self).wf(),
            final(self).connected(old(self), r, connection@),
    {
        let mut actions: Vec<Action<H>> = Vec::new();
        match connection {
            Connection::Mqtt { .. } => {
                return Err(ErrorKindOf(own(NO_MQTT.as_bytes())));
            },
            Connection::Auto => {
                actions.push(Action::Abort(self.tasks.clear()));
                actions.push(output(CONNECTING.as_bytes()));
                actions.push(Action::Connect(OwnedConnection::Auto));
            },
            Connection::Serial { port, baud } => {
                actions.push(Action::Abort(self.tasks.clear()));
                actions.push(
                    Action::Connect((Connection::Serial { port: *port, baud: *baud }).into_owned()),
                );
            },
            Connection::Tcp { hostname, port } => {
                actions.push(Action::Abort(self.tasks.clear()));
                actions.push(
                    Action::Connect(
                        (Connection::Tcp { hostname: *hostname, port: *port }).into_owned(),
                    ),
                );
            },
        }
        Ok(actions)
    }

    fn disconnect(&mut self) -> (r: Outcome<H>)
        requires
            old(self).wf(),
        ensures
            final(self).wf(),
            final(self).disconnected(old(self), r),
    {
        let mut actions: Vec<Action<H>> = Vec::new();
        actions.push(Action::Abort(self.tasks.clear()));
        actions.push(Action::Disconnect);
        Ok(actions)
    }

    /// Carries out a command, as far as the engine itself can, and returns
    /// what is left for the program to do, in order. `connected` says whether
    /// a device is connected; a command that needs one fails without.
    pub fn dispatch(&mut self, command: &Command<'_>, connected: bool) -> (r: Outcome<H>)
        requires
            old(self).wf(),
        ensures
            final(self).wf(),
            final(self).dispatched(old(self), r, command@, connected),
    {
        match command {
            Command::Clear => Ok(one(Action::Respond(Response::Clear))),
            Command::Quit => Ok(one(Action::Respond(Response::Quit))),
            Command::Gcodes(codes) => self.send(codes.as_slice(), connected),
            Command::Print(file) => {
                if connected {
                    Ok(one(Action::PrintFile { name: own(file) }))
                } else {
                    Err(not_connected())
                }
            },
            Command::Log(name, pattern) => self.log(name, pattern, connected),
            Command::Repeat(name, codes) => self.repeat(name, codes.as_slice(), connected),
            Command::Tasks => self.list_tasks(),
            Command::Stop(name) => self.stop(name),
            Command::Macro(name, steps) => self.define(name, steps.as_slice()),
            Command::Macros => self.list_macros(),
            Command::DeleteMacro(name) => self.delete(name),
            Command::Connect(connection) => self.connect(connection),
            Command::Disconnect => self.disconnect(),
            Command::Help(topic) => Ok(one(output(help(topic).as_bytes()))),
            Command::Version => Ok(one(output(version().as_bytes()))),
            Command::Unrecognized => Ok(one(error(UNSUPPORTED.as_bytes()))),
        }
    }
}

/// Writes the line that tells of a macro.
pub fn write_macro(name: &[u8], steps: &Vec<Vec<u8>>) -> (line: Vec<u8>)
    ensures
        line@ == macro_line(name@, texts(*steps)),
{
    let borrowed = borrow_all(steps);
    let mut line = own(name);
    line.push(COLON);
    line.push(SPACE);
    let list = join(borrowed.as_slice(), SEMICOLON);
    append(&mut line, list.as_slice());
    line.push(NEWLINE);
    assert(line@ =~= macro_line(name@, texts(*steps)));
    line
}

fn one<H>(action: Action<H>) -> (actions: Vec<Action<H>>)
    ensures
        actions@.len() == 1,
        actions@[0] == action,
{
    let mut actions: Vec<Action<H>> = Vec::new();
    actions.push(action);
    actions
}

fn copy_segments<'a>(pattern: &Vec<crate::log::Segment<'a>>) -> (r: Vec<crate::log::Segment<'a>>)
    ensures
        views(r@) == views(pattern@),
{
    let mut out: Vec<crate::log::Segment<'a>> = Vec::new();
    let mut i: usize = 0;
    while i < pattern.len()
        invariant
            i <= pattern@.len(),
            out@.len() == i,
            forall|j: int| 0 <= j < i ==> out@[j] == pattern@[j],
        decreases pattern@.len() - i,
    {
        out.push(pattern[i]);
        i += 1;
    }
    assert(views(out@) =~= views(pattern@));
    out
}

impl<H> Default for Commander<H> {
    fn default() -> (engine: Self)
        ensures
            engine.wf(),
            engine.tasks.tasks().len() == 0,
            engine.macros@ == Map::<Seq<u8>, Seq<Seq<u8>>>::empty(),
            engine.count() == 0,
    {
        Commander::new()
    }
}

fn output<H>(text: &[u8]) -> (action: Action<H>)
    ensures
        is_output(action, text@),
{
    Action::Respond(Response::Output(own(text)))
}

fn error<H>(text: &[u8]) -> (action: Action<H>)
    ensures
        is_error(action, text@),
{
    Action::Respond(Response::Error(ErrorKindOf(own(text))))
}

fn not_connected() -> (e: ErrorKindOf)
    ensures
        e.0@ == NOT_CONNECTED.spec_bytes(),
{
    ErrorKindOf(own(NOT_CONNECTED.as_bytes()))
}

} // verus!
