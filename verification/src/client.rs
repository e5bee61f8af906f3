//! A client for a specific expect session. It can be used to send input and look for specific
//! output from the spawned process.
use crate::engine::client::Client as SessionClient;
use crate::engine::errors::{
    is_message, says_of_itself, with_cause, ExpectError as SessionError,
};
use crate::engine::match_request::{
    InputRequest, MatchOutcome, MatchRequest, MatchRequestBuilder, Timeout,
};
use crate::engine::matching::{Match, MatchMode};
use crate::outside::{ack_receiver, duration_of_millis, from_utf8_lossy, outcome_receiver};
use crate::text::{lemma_encode_concat, text_of, NEWLINE};
use futures::sync::oneshot;
use regex::Regex;
use std::io;
use std::time::Duration;
use vstd::prelude::*;
use vstd::utf8::{encode_utf8, is_ascii_chars_encode_utf8};

verus! {

/// How long a request waits for a match where nothing else is said, in milliseconds.
pub const DEFAULT_TIMEOUT_MILLIS: u64 = 10_000;

/// A client for a specific expect session.
///
/// The default mode is to match against lines. By default, if no match is found, the requests time
/// out after 10 seconds; without a timeout they wait until a match is found.
pub struct Client {
    pub inner: SessionClient,
    pub mode: MatchMode,
    pub timeout: Option<Duration>,
}

/// A request with its channel, as it is handed to the event loop.
pub type Submission = (MatchRequest, oneshot::Receiver<MatchOutcome>);

impl Client {
    /// The timeout of the requests.
    pub open spec fn request_timeout(self) -> Timeout {
        match self.timeout {
            Some(duration) => Timeout::Inactive(duration),
            None => Timeout::Never,
        }
    }

    /// A request of this client that waits for some patterns, and the end of the channel on which
    /// it is answered.
    pub open spec fn asks(
        self,
        request: MatchRequest,
        response_rx: oneshot::Receiver<MatchOutcome>,
        matches: Seq<Match>,
    ) -> bool {
        &&& request.matches@ =~= matches
        &&& request.mode == self.mode
        &&& request.timeout == self.request_timeout()
        &&& response_rx == outcome_receiver(request.response_tx)
    }

    /// Send the given byte sequence to the spawned process.
    pub fn send_bytes(&mut self, bytes: Vec<u8>) -> (request: (InputRequest, oneshot::Receiver<()>))
        ensures
            request.0.0@ == bytes@,
            request.1 == ack_receiver(request.0.1),
            *final(self) == *old(self),
    {
        self.inner.send(bytes)
    }

    /// Send the given string to the spawned process.
    pub fn send(&mut self, string: &str) -> (request: (InputRequest, oneshot::Receiver<()>))
        ensures
            request.0.0@ == encode_utf8(string@),
            request.1 == ack_receiver(request.0.1),
            *final(self) == *old(self),
    {
        self.inner.send(string.as_bytes_vec())
    }

    /// Send the given string to the spawned process followed by the newline character (`\n`).
    pub fn send_line(&mut self, string: String) -> (request: (InputRequest, oneshot::Receiver<()>))
        ensures
            request.0.0@ == encode_utf8(string@ + "\n"@),
            request.1 == ack_receiver(request.0.1),
            *final(self) == *old(self),
    {
        let mut string: String = string;
        string.append("\n");
        self.send(string.as_str())
    }

    /// Set the "match" mode to "line" for this expect session (this is the default).
    pub fn set_line_mode(&mut self)
        ensures
            *final(self) == (Client { mode: MatchMode::Line, ..*old(self) }),
    {
        self.mode = MatchMode::Line;
    }

    /// Set the "match" mode to "raw" for this expect session.
    pub fn set_raw_mode(&mut self)
        ensures
            *final(self) == (Client { mode: MatchMode::Raw, ..*old(self) }),
    {
        self.mode = MatchMode::Raw;
    }

    /// Set a custom timeout for all match requests. By default, it is set to 10 seconds.
    pub fn set_timeout(&mut self, timeout: Option<Duration>)
        ensures
            *final(self) == (Client { timeout, ..*old(self) }),
    {
        self.timeout = timeout;
    }

    /// Match the given string in the spawned process output.
    pub fn match_string(&mut self, string: String) -> (request: Submission)
        ensures
            old(self).asks(request.0, request.1, seq![Match::Utf8(string)]),
            *final(self) == *old(self),
    {
        self.expect(vec![Match::Utf8(string)])
    }

    /// Match the given pattern in the spawned process output.
    pub fn match_regex(&mut self, re: Regex) -> (request: Submission)
        ensures
            old(self).asks(request.0, request.1, seq![Match::Regex(re)]),
            *final(self) == *old(self),
    {
        self.expect(vec![Match::Regex(re)])
    }

    /// Match all the spawned process output for the given duration.
    pub fn match_timeout(&mut self, duration: Duration) -> (request: Submission)
        ensures
            request.0.matches@ == seq![Match::Timeout],
            request.0.mode == old(self).mode,
            request.0.timeout == Timeout::Inactive(duration),
            request.1 == outcome_receiver(request.0.response_tx),
            *final(self) == *old(self),
    {
        let builder: MatchRequestBuilder = self.get_request().set_matches(
            vec![Match::Timeout],
        ).set_timeout(duration);
        self.inner.expect(builder)
    }

    /// Match EOF in the spawned process PTY. That usually means the process exited.
    pub fn match_eof(&mut self) -> (request: Submission)
        ensures
            old(self).asks(request.0, request.1, seq![Match::Eof]),
            *final(self) == *old(self),
    {
        self.expect(vec![Match::Eof])
    }

    /// Try to match against a list of possible match patterns.
    pub fn expect(&mut self, matches: Vec<Match>) -> (request: Submission)
        ensures
            old(self).asks(request.0, request.1, matches@),
            *final(self) == *old(self),
    {
        let builder: MatchRequestBuilder = self.get_request().set_matches(matches);
        self.inner.expect(builder)
    }

    /// A request that waits for nothing yet, with the mode and the timeout of this client.
    pub fn get_request(&self) -> (builder: MatchRequestBuilder)
        ensures
            self.asks(builder.0, builder.1, Seq::empty()),
    {
        MatchRequestBuilder::new().set_opt_timeout(self.timeout).set_mode(self.mode)
    }
}

impl vstd::std_specs::convert::FromSpecImpl<SessionClient> for Client {
    open spec fn obeys_from_spec() -> bool {
        false
    }

    open spec fn from_spec(inner: SessionClient) -> Client {
        arbitrary()
    }
}

impl From<SessionClient> for Client {
    /// A client of a session, with the defaults.
    fn from(inner: SessionClient) -> (client: Self)
        ensures
            client.inner == inner,
            client.mode == MatchMode::Line,
            client.timeout == Some(duration_of_millis(DEFAULT_TIMEOUT_MILLIS)),
    {
        Client {
            inner,
            mode: MatchMode::Line,
            timeout: Some(Duration::from_millis(DEFAULT_TIMEOUT_MILLIS)),
        }
    }
}

/// What a client gets: the index of the pattern that matched first, along with the output that
/// precedes the match as text.
pub fn expected(outcome: MatchOutcome) -> (result: Result<(usize, String), ExpectError>)
    ensures
        match outcome {
            Ok((index, output)) => result matches Ok((i, text)) && i == index && text@ == text_of(
                output@,
            ),
            Err(e) => result matches Err(error) && tells(error, e),
        },
        outcome matches Err(SessionError::Io(io)) ==> (result matches Err(
            ExpectError::Internal(text),
        ) && exists|told: Seq<char>|
            {
                &&& #[trigger] says_of_itself(io, told)
                &&& text@ == "Internal error: "@ + (SessionError::Io(io).describes() + ": "@ + told)
            }),
{
    match outcome {
        Ok((index, output)) => Ok((index, from_utf8_lossy(output.as_slice()))),
        Err(e) => Err(ExpectError::from(e)),
    }
}

/// What a client gets that waits for one pattern: the output that precedes the match.
pub fn single(result: Result<(usize, String), ExpectError>) -> (output: Result<String, ExpectError>)
    requires
        result matches Ok((index, _)) ==> index == 0,
    ensures
        output == (match result {
            Ok((_, text)) => Ok::<String, ExpectError>(text),
            Err(e) => Err(e),
        }),
{
    match result {
        Ok((_, text)) => Ok(text),
        Err(e) => Err(e),
    }
}

/// An error returned when failing to match output from the spawned process.
#[derive(Debug)]
pub enum ExpectError {
    /// An internal error occured. These errors are usually not recoverable and mean the expect
    /// session is doomed.
    Internal(String),
    /// No match found, and EOF reached while reading from the PTY. That usually means the spawned
    /// process exited.
    Eof,
    /// Failed to find a match in time.
    Timeout,
}

impl ExpectError {
    /// Return `true` if this error is `ExpectError::Eof`
    pub fn is_eof(&self) -> (b: bool)
        ensures
            b == (*self is Eof),
    {
        match self {
            ExpectError::Eof => true,
            _ => false,
        }
    }

    /// Return `true` if this error is `ExpectError::Timeout`
    pub fn is_timeout(&self) -> (b: bool)
        ensures
            b == (*self is Timeout),
    {
        match self {
            ExpectError::Timeout => true,
            _ => false,
        }
    }

    /// Return `true` if this error is `ExpectError::Internal`
    pub fn is_internal(&self) -> (b: bool)
        ensures
            b == (*self is Internal),
    {
        match self {
            ExpectError::Internal(_) => true,
            _ => false,
        }
    }

    /// What the error is.
    pub open spec fn describes(self) -> Seq<char> {
        match self {
            ExpectError::Internal(_) => "an internal error occured"@,
            ExpectError::Eof => "EOF while reading process output"@,
            ExpectError::Timeout => "time out while trying to find a match"@,
        }
    }

    /// Describes the error.
    pub fn description(&self) -> (text: &'static str)
        ensures
            text@ == self.describes(),
    {
        match self {
            ExpectError::Internal(_) => "an internal error occured",
            ExpectError::Eof => "EOF while reading process output",
            ExpectError::Timeout => "time out while trying to find a match",
        }
    }

    /// The error of the operating system behind this one: it is not kept.
    pub fn cause(&self) -> (cause: Option<&io::Error>)
        ensures
            cause is None,
    {
        None
    }

    /// The text of the error.
    pub fn message(&self) -> (text: String)
        ensures
            text@ == self.describes(),
    {
        self.description().to_owned()
    }
}

/// What a client is told where its session fails: the end of the output and the end of the time as
/// they are, and all else as an internal error with its text.
pub open spec fn tells(error: ExpectError, cause: SessionError) -> bool {
    match cause {
        SessionError::Eof => error == ExpectError::Eof,
        SessionError::Timeout => error == ExpectError::Timeout,
        _ => error matches ExpectError::Internal(text) && exists|message: Seq<char>|
            {
                &&& text@ == "Internal error: "@ + message
                &&& #[trigger] is_message(message, cause.describes(), cause is Io)
            },
    }
}

/// A client is told of the end of the output where its session has met it, of the end of the time
/// where that was over, and of an internal error in all other cases.
pub proof fn law_errors_keep_their_kind(error: ExpectError, cause: SessionError)
    requires
        tells(error, cause),
    ensures
        error is Eof <==> cause is Eof,
        error is Timeout <==> cause is Timeout,
        error is Internal <==> (cause is Io || cause is ChanError),
{
}

/// A line is sent as the bytes of the string followed by one newline.
pub proof fn law_a_line_ends_with_a_newline(string: Seq<char>)
    ensures
        encode_utf8(string + "\n"@) == encode_utf8(string).push(NEWLINE),
{
    reveal_strlit("\n");
    lemma_encode_concat(string, "\n"@);
    is_ascii_chars_encode_utf8("\n"@);
    assert(encode_utf8("\n"@) =~= seq![NEWLINE]);
    assert(encode_utf8(string) + seq![NEWLINE] =~= encode_utf8(string).push(NEWLINE));
}

impl vstd::std_specs::convert::FromSpecImpl<SessionError> for ExpectError {
    open spec fn obeys_from_spec() -> bool {
        false
    }

    open spec fn from_spec(e: SessionError) -> ExpectError {
        arbitrary()
    }
}

impl From<SessionError> for ExpectError {
    fn from(e: SessionError) -> (error: ExpectError)
        ensures
            tells(error, e),
            e matches SessionError::Io(io) ==> (error matches ExpectError::Internal(text)
                && exists|told: Seq<char>|
                {
                    &&& #[trigger] says_of_itself(io, told)
                    &&& text@ == "Internal error: "@ + (e.describes() + ": "@ + told)
                }),
    {
        match e {
            SessionError::Eof => ExpectError::Eof,
            SessionError::Timeout => ExpectError::Timeout,
            e => {
                let message: String = e.message();
                let mut text: String = "Internal error: ".to_owned();
                text.append(message.as_str());
                ExpectError::Internal(text)
            },
        }
    }
}

/// A request of a client waits for the patterns that were given to it, in the mode and for the time
/// that the client has set, and is answered on the channel that was handed out with it.
pub proof fn law_a_client_asks_for_what_it_is_given(
    client: Client,
    request: MatchRequest,
    response_rx: oneshot::Receiver<MatchOutcome>,
    matches: Seq<Match>,
)
    ensures
        client.asks(request, response_rx, matches) <==> {
            &&& request.matches@ == matches
            &&& request.mode == client.mode
            &&& match client.timeout {
                Some(duration) => request.timeout == Timeout::Inactive(duration),
                None => request.timeout is Never,
            }
            &&& response_rx == outcome_receiver(request.response_tx)
        },
{
}

/// An internal error tells what has failed: behind the words that it is internal stands what the
/// error of the session says.
pub proof fn law_an_internal_error_tells_what_has_failed(error: ExpectError, cause: SessionError)
    requires
        tells(error, cause),
    ensures
        cause is Io ==> (error matches ExpectError::Internal(text) && exists|behind: Seq<char>|
            text@ == "Internal error: "@ + ("internal IO error"@ + ": "@ + behind)),
        cause is ChanError ==> (error matches ExpectError::Internal(text) && text@
            == "Internal error: "@
            + "failed to share data between the expect session running in the event loop and the client"@),
{
    if cause is Io {
        if let ExpectError::Internal(text) = error {
            let message = choose|message: Seq<char>|
                {
                    &&& text@ == "Internal error: "@ + message
                    &&& #[trigger] is_message(message, cause.describes(), cause is Io)
                };
            let behind = choose|behind: Seq<char>|
                message == #[trigger] with_cause(cause.describes(), behind);
            assert(text@ == "Internal error: "@ + ("internal IO error"@ + ": "@ + behind));
        }
    }
}

} // verus!
