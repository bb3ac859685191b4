//! The state of a session: connected to a device, with a socket to talk
//! through and the task that serves it in the background, or not.

use vstd::prelude::*;

verus! {

/// What can go wrong between a caller and a device.
#[derive(Debug, Clone, Copy, PartialEq, Eq, Structural)]
pub enum Error {
    /// The stream to the device failed.
    IO,
    /// No one listens to the lines of the device any more.
    ResponseSender,
    /// The outbound queue is full.
    Sender,
    /// The outbound queue is closed.
    SendReserve,
    /// No device is connected.
    Disconnected,
    /// The acknowledgement of a line will not come.
    WontRespond,
    /// No line of the device is waiting to be read.
    TryReadLine,
    /// The lines of the device have come to an end, or some were missed.
    ReadLine,
}

/// What an error says of itself.
pub open spec fn message_of(error: Error) -> &'static str {
    match error {
        Error::IO => "IO error",
        Error::ResponseSender => "Printer sent a bad message",
        Error::Sender => "Failed to send command, try again",
        Error::SendReserve => "Failed to send command, printer may have disconnected",
        Error::Disconnected => "Not connected to a printer",
        Error::WontRespond => "Ok not received",
        Error::TryReadLine => "No responses recieved, try again",
        Error::ReadLine => "No responses received, printer may have disconnected",
    }
}

impl Error {
    /// What this error says of itself.
    pub fn message(&self) -> (text: &'static str)
        ensures
            text == message_of(*self),
    {
        match self {
            Error::IO => "IO error",
            Error::ResponseSender => "Printer sent a bad message",
            Error::Sender => "Failed to send command, try again",
            Error::SendReserve => "Failed to send command, printer may have disconnected",
            Error::Disconnected => "Not connected to a printer",
            Error::WontRespond => "Ok not received",
            Error::TryReadLine => "No responses recieved, try again",
            Error::ReadLine => "No responses received, printer may have disconnected",
        }
    }
}

/// A session with a device: either there is none, or there is a socket to
/// talk through and a task in the background that owns the stream.
#[derive(Debug)]
pub enum Printer<S, T> {
    Disconnected,
    Connected { socket: S, com_task: T },
}

impl<S, T> Printer<S, T> {
    /// A session over `socket`, served by `com_task`.
    pub fn new(socket: S, com_task: T) -> (printer: Self)
        ensures
            printer == (Printer::Connected { socket, com_task }),
    {
        Printer::Connected { socket, com_task }
    }

    /// Starts a session over `socket`, served by `com_task`. Returns the
    /// session that was there before, whose task is to be ended.
    pub fn connect(&mut self, socket: S, com_task: T) -> (former: Self)
        ensures
            former == *old(self),
            *final(self) == (Printer::Connected { socket, com_task }),
    {
        let mut former = Printer::Connected { socket, com_task };
        core::mem::swap(self, &mut former);
        former
    }

    /// The socket of the session, if there is one.
    pub fn socket(&self) -> (r: Result<&S, Error>)
        ensures
            match *self {
                Printer::Connected { socket, .. } => r == Ok::<&S, Error>(&socket),
                Printer::Disconnected => r == Err::<&S, Error>(Error::Disconnected),
            },
    {
        match self {
            Printer::Disconnected => Err(Error::Disconnected),
            Printer::Connected { socket, .. } => Ok(socket),
        }
    }

    /// The socket of the session, if there is one, to read from.
    pub fn socket_mut(&mut self) -> (r: Result<&mut S, Error>)
        ensures
            match *old(self) {
                Printer::Connected { socket, com_task } => r matches Ok(s) && *s == socket
                    && *final(self) == (Printer::Connected { socket: *final(s), com_task }),
                Printer::Disconnected => r matches Err(e) && e == Error::Disconnected
                    && *final(self) == *old(self),
            },
    {
        match self {
            Printer::Disconnected => Err(Error::Disconnected),
            Printer::Connected { socket, .. } => Ok(socket),
        }
    }

    /// Ends the session. Returns the session that was there before, whose
    /// task is to be ended.
    pub fn disconnect(&mut self) -> (former: Self)
        ensures
            former == *old(self),
            *final(self) == Printer::<S, T>::Disconnected,
    {
        let mut former = Printer::Disconnected;
        core::mem::swap(self, &mut former);
        former
    }

    /// Whether there is a session.
    pub fn is_connected(&self) -> (connected: bool)
        ensures
            connected == (*self is Connected),
    {
        match self {
            Printer::Disconnected => false,
            Printer::Connected { .. } => true,
        }
    }

    /// The task that serves the session, if there is one.
    pub fn background_task(&self) -> (task: Option<&T>)
        ensures
            match *self {
                Printer::Connected { com_task, .. } => task == Some(&com_task),
                Printer::Disconnected => task is None,
            },
    {
        match self {
            Printer::Disconnected => None,
            Printer::Connected { com_task, .. } => Some(com_task),
        }
    }

    /// The session that `value` holds, or none.
    pub fn from_option(value: Option<Self>) -> (printer: Self)
        ensures
            printer == match value {
                Some(p) => p,
                None => Printer::Disconnected,
            },
    {
        match value {
            Some(printer) => printer,
            None => Printer::Disconnected,
        }
    }
}

/// The prompt of the console, which tells whether there is a session.
pub open spec fn prompt_of(connected: bool) -> &'static str {
    if connected {
        "[Connected]> "
    } else {
        "[Disconnected]> "
    }
}

/// The prompt of the console for this state of the session.
pub fn prompt_string<S, T>(printer: &Printer<S, T>) -> (prompt: &'static str)
    ensures
        prompt == prompt_of(*printer is Connected),
{
    match printer {
        Printer::Disconnected => "[Disconnected]> ",
        Printer::Connected { .. } => "[Connected]> ",
    }
}

impl<S, T> Default for Printer<S, T> {
    fn default() -> (printer: Self)
        ensures
            printer == Printer::<S, T>::Disconnected,
    {
        Printer::Disconnected
    }
}

} // verus!
