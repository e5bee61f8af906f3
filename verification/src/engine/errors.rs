//! What can go wrong between a client and the session that serves it.
use crate::outside::io_error_text;
use std::io;
use vstd::prelude::*;

verus! {

/// A description followed by what caused it.
pub open spec fn with_cause(description: Seq<char>, cause: Seq<char>) -> Seq<char> {
    description + ": "@ + cause
}

/// Writes a description followed by what caused it.
pub fn join_cause(description: &str, cause: &str) -> (text: String)
    ensures
        text@ == with_cause(description@, cause@),
{
    let mut text: String = description.to_owned();
    text.append(": ");
    text.append(cause);
    text
}

/// The text of an error: its description, followed by its cause where it has one.
pub open spec fn is_message(text: Seq<char>, description: Seq<char>, caused: bool) -> bool {
    if caused {
        exists|cause: Seq<char>| text == #[trigger] with_cause(description, cause)
    } else {
        text == description
    }
}

/// An error of the operating system says this of itself.
pub closed spec fn says_of_itself(e: io::Error, told: Seq<char>) -> bool {
    exists|text: String| #[trigger] call_ensures(io_error_text, (&e,), text) && text@ == told
}

/// What an error of the operating system says of itself is what it is asked for.
pub(crate) proof fn law_an_error_is_asked_for_its_text(e: io::Error, told: Seq<char>)
    requires
        says_of_itself(e, told),
    ensures
        exists|text: String| #[trigger] call_ensures(io_error_text, (&e,), text) && text@ == told,
{
}

/// Writes the text of an error from its description and its cause.
pub fn message(description: &str, cause: Option<&io::Error>) -> (text: String)
    ensures
        is_message(text@, description@, cause is Some),
        cause matches Some(e) ==> exists|told: Seq<char>|
            #[trigger] says_of_itself(*e, told) && text@ == description@ + ": "@ + told,
{
    match cause {
        Some(e) => {
            let cause_text: String = io_error_text(e);
            assert(says_of_itself(*e, cause_text@));
            join_cause(description, cause_text.as_str())
        },
        None => description.to_owned(),
    }
}

/// An error returned when the event loop that runs the sessions cannot be started.
#[derive(Debug)]
pub enum InitError {
    /// Failed to start the event loop that manages the expect sessions
    Reactor(io::Error),
    /// Failed to start the thread in which the event loop runs
    SpawnWorker(io::Error),
}

impl InitError {
    /// What the error is.
    pub open spec fn describes(self) -> Seq<char> {
        match self {
            InitError::Reactor(_) => "failed to start the event loop"@,
            InitError::SpawnWorker(_) => "failed to spawn an expect thread"@,
        }
    }

    /// Describes the error, without its cause.
    pub fn description(&self) -> (text: &'static str)
        ensures
            text@ == self.describes(),
    {
        match self {
            InitError::Reactor(_) => "failed to start the event loop",
            InitError::SpawnWorker(_) => "failed to spawn an expect thread",
        }
    }

    /// The error of the operating system behind this one.
    pub fn cause(&self) -> (cause: Option<&io::Error>)
        ensures
            cause == Some(
                &(match *self {
                    InitError::Reactor(e) => e,
                    InitError::SpawnWorker(e) => e,
                }),
            ),
    {
        match self {
            InitError::Reactor(e) => Some(e),
            InitError::SpawnWorker(e) => Some(e),
        }
    }

    /// The text of the error.
    pub fn message(&self) -> (text: String)
        ensures
            is_message(text@, self.describes(), true),
            *self matches InitError::Reactor(e) ==> exists|told: Seq<char>|
                #[trigger] says_of_itself(e, told) && text@ == self.describes() + ": "@ + told,
            *self matches InitError::SpawnWorker(e) ==> exists|told: Seq<char>|
                #[trigger] says_of_itself(e, told) && text@ == self.describes() + ": "@ + told,
    {
        message(self.description(), self.cause())
    }
}

/// An error returned when sending input to the spawned process fails.
#[derive(Debug, Clone, Copy, PartialEq, Eq, Structural)]
pub enum SendError {
    ChanError,
}

/// What is said where one end of a channel between a client and its session is gone.
pub open spec fn channel_failure() -> Seq<char> {
    "failed to share data between the expect session running in the event loop and the client"@
}

impl SendError {
    /// What the error is.
    pub open spec fn describes(self) -> Seq<char> {
        channel_failure()
    }

    /// Describes the error.
    pub fn description(&self) -> (text: &'static str)
        ensures
            text@ == self.describes(),
    {
        "failed to share data between the expect session running in the event loop and the client"
    }

    /// The error of the operating system behind this one: there is none.
    pub fn cause(&self) -> (cause: Option<&io::Error>)
        ensures
            cause is None,
    {
        None
    }

    /// The text of the error.
    pub fn message(&self) -> (text: String)
        ensures
            text@ == self.describes(),
    {
        self.description().to_owned()
    }
}

/// An error returned when no match is found for a request.
#[derive(Debug)]
pub enum ExpectError {
    /// No match found, and EOF reached while reading from the PTY
    Eof,
    /// No match found, and timeout reached for the given match request
    Timeout,
    /// The timeout of the request could not be started or checked
    Io(io::Error),
    /// The session is gone
    ChanError,
}

impl ExpectError {
    /// What the error is.
    pub open spec fn describes(self) -> Seq<char> {
        match self {
            ExpectError::Eof => "met unexpected EOF while reading output"@,
            ExpectError::Timeout => "timeout while trying to find matches output"@,
            ExpectError::Io(_) => "internal IO error"@,
            ExpectError::ChanError => channel_failure(),
        }
    }

    /// Describes the error, without its cause.
    pub fn description(&self) -> (text: &'static str)
        ensures
            text@ == self.describes(),
    {
        match self {
            ExpectError::Eof => "met unexpected EOF while reading output",
            ExpectError::Timeout => "timeout while trying to find matches output",
            ExpectError::Io(_) => "internal IO error",
            ExpectError::ChanError =>
            "failed to share data between the expect session running in the event loop and the client",
        }
    }

    /// The error of the operating system behind this one.
    pub fn cause(&self) -> (cause: Option<&io::Error>)
        ensures
            cause == (match *self {
                ExpectError::Io(e) => Some(&e),
                _ => None,
            }),
    {
        match self {
            ExpectError::Io(e) => Some(e),
            _ => None,
        }
    }

    /// The text of the error.
    pub fn message(&self) -> (text: String)
        ensures
            is_message(text@, self.describes(), self is Io),
            *self matches ExpectError::Io(e) ==> exists|told: Seq<char>|
                #[trigger] says_of_itself(e, told) && text@ == self.describes() + ": "@ + told,
    {
        message(self.description(), self.cause())
    }
}

/// An error returned when a process cannot be spawned.
#[derive(Debug)]
pub enum SpawnError {
    /// Failed to created a PTY for the spawned process
    Pty(io::Error),
    /// Failed to spawn the process
    SpawnCommand(io::Error),
    /// Failed to communicate with the worker that should have spawned the process. This is an
    /// internal error that is not recoverable: no more session can be spawned with the handle.
    NoEventLoop,
}

impl SpawnError {
    /// What the error is.
    pub open spec fn describes(self) -> Seq<char> {
        match self {
            SpawnError::Pty(_) => "failed to spawn a pty"@,
            SpawnError::SpawnCommand(_) => "failed to spawn the command"@,
            SpawnError::NoEventLoop => "failed to send the spawn request to the event loop"@,
        }
    }

    /// Describes the error, without its cause.
    pub fn description(&self) -> (text: &'static str)
        ensures
            text@ == self.describes(),
    {
        match self {
            SpawnError::Pty(_) => "failed to spawn a pty",
            SpawnError::SpawnCommand(_) => "failed to spawn the command",
            SpawnError::NoEventLoop => "failed to send the spawn request to the event loop",
        }
    }

    /// The error of the operating system behind this one.
    pub fn cause(&self) -> (cause: Option<&io::Error>)
        ensures
            cause == (match *self {
                SpawnError::Pty(e) => Some(&e),
                SpawnError::SpawnCommand(e) => Some(&e),
                SpawnError::NoEventLoop => None,
            }),
    {
        match self {
            SpawnError::Pty(e) => Some(e),
            SpawnError::SpawnCommand(e) => Some(e),
            SpawnError::NoEventLoop => None,
        }
    }

    /// The text of the error.
    pub fn message(&self) -> (text: String)
        ensures
            is_message(text@, self.describes(), !(self is NoEventLoop)),
            *self matches SpawnError::Pty(e) ==> exists|told: Seq<char>|
                #[trigger] says_of_itself(e, told) && text@ == self.describes() + ": "@ + told,
            *self matches SpawnError::SpawnCommand(e) ==> exists|told: Seq<char>|
                #[trigger] says_of_itself(e, told) && text@ == self.describes() + ": "@ + told,
    {
        message(self.description(), self.cause())
    }
}

/// The text of an error is what it says of itself, and where it has a cause, a colon and the cause
/// follow.
pub proof fn law_a_cause_follows_a_colon(text: Seq<char>, description: Seq<char>, cause: Seq<char>)
    ensures
        with_cause(description, cause) == description + ": "@ + cause,
        is_message(text, description, false) <==> text == description,
        is_message(text, description, true) <==> exists|behind: Seq<char>|
            text == #[trigger] with_cause(description, behind),
{
}

} // verus!
