//! A worker: one session with an event loop of its own. It serves one client, and where it fails,
//! the client is told why.
use crate::engine::client::Reply;
use crate::engine::errors::{is_message, message, says_of_itself};
use crate::engine::laws::{lemma_conclusion_names_a_pattern, lemma_conclusion_splits};
use crate::engine::match_request::{
    fault_of, find_eof, find_timeout, take_match, InputRequest, Outcome, Timeout, TimerPoll,
};
use crate::engine::matching::{
    find_buffer_match, fits, found_view, hit, scan_buffer, Found, Hit, Match, MatchFault, MatchMode,
};
use crate::engine::session::{conclusion, drain_all, ChannelEvent, MatchStep};
use crate::engine::transfer::{
    input_state, input_step, read_output, InputPass, InputStep, ReadStep,
};
use crate::outside::{
    ack_channel, ack_receiver, io_kind, io_would_block, worker_channel, worker_receiver,
};
use crate::text::{is_end_of, lemma_end_of_end, lemma_end_of_itself};
use futures::sync::oneshot;
use std::collections::VecDeque;
use std::io;
use std::time::Duration;
use tokio_core::reactor::Timeout as Timer;
use vstd::prelude::*;

verus! {

/// An error returned when a worker cannot be started.
#[derive(Debug)]
pub enum InitError {
    Reactor(io::Error),
    Pty(io::Error),
    SpawnCommand(io::Error),
    SpawnWorker(io::Error),
}

impl InitError {
    /// What the error is.
    pub open spec fn describes(self) -> Seq<char> {
        match self {
            InitError::Reactor(_) => "failed to start the event loop"@,
            InitError::Pty(_) => "failed to spawn a pty"@,
            InitError::SpawnCommand(_) => "failed to spawn the command"@,
            InitError::SpawnWorker(_) => "failed to spawn an expect thread"@,
        }
    }

    /// Describes the error, without its cause.
    pub fn description(&self) -> (text: &'static str)
        ensures
            text@ == self.describes(),
    {
        match self {
            InitError::Reactor(_) => "failed to start the event loop",
            InitError::Pty(_) => "failed to spawn a pty",
            InitError::SpawnCommand(_) => "failed to spawn the command",
            InitError::SpawnWorker(_) => "failed to spawn an expect thread",
        }
    }

    /// The error of the operating system behind this one.
    pub fn cause(&self) -> (cause: Option<&io::Error>)
        ensures
            cause == Some(
                &(match *self {
                    InitError::Reactor(e) => e,
                    InitError::Pty(e) => e,
                    InitError::SpawnCommand(e) => e,
                    InitError::SpawnWorker(e) => e,
                }),
            ),
    {
        match self {
            InitError::Reactor(e) => Some(e),
            InitError::Pty(e) => Some(e),
            InitError::SpawnCommand(e) => Some(e),
            InitError::SpawnWorker(e) => Some(e),
        }
    }

    /// The text of the error.
    pub fn message(&self) -> (text: String)
        ensures
            is_message(text@, self.describes(), true),
            *self matches InitError::Reactor(e) ==> exists|told: Seq<char>|
                #[trigger] says_of_itself(e, told) && text@ == self.describes() + ": "@ + told,
            *self matches InitError::Pty(e) ==> exists|told: Seq<char>|
                #[trigger] says_of_itself(e, told) && text@ == self.describes() + ": "@ + told,
            *self matches InitError::SpawnCommand(e) ==> exists|told: Seq<char>|
                #[trigger] says_of_itself(e, told) && text@ == self.describes() + ": "@ + told,
            *self matches InitError::SpawnWorker(e) ==> exists|told: Seq<char>|
                #[trigger] says_of_itself(e, told) && text@ == self.describes() + ": "@ + told,
    {
        message(self.description(), self.cause())
    }
}

/// Whether a worker has what it works with: there may have been no event loop, with one there may
/// have been no terminal, and in that one the command may not have been started.
pub fn init_result<S>(
    started: Result<Result<Result<S, io::Error>, io::Error>, io::Error>,
) -> (result: Result<S, InitError>)
    ensures
        result == (match started {
            Ok(Ok(Ok(session))) => Ok::<S, InitError>(session),
            Ok(Ok(Err(e))) => Err(InitError::SpawnCommand(e)),
            Ok(Err(e)) => Err(InitError::Pty(e)),
            Err(e) => Err(InitError::Reactor(e)),
        }),
{
    match started {
        Ok(Ok(Ok(session))) => Ok(session),
        Ok(Ok(Err(e))) => Err(InitError::SpawnCommand(e)),
        Ok(Err(e)) => Err(InitError::Pty(e)),
        Err(e) => Err(InitError::Reactor(e)),
    }
}

/// Whether there is a client, from the thread of its worker: there is one as soon as the thread
/// runs. What the worker has come to in it shows with the first request.
pub fn spawn_result<T>(thread: Result<T, io::Error>) -> (result: Result<T, InitError>)
    ensures
        result == (match thread {
            Ok(t) => Ok::<T, InitError>(t),
            Err(e) => Err(InitError::SpawnWorker(e)),
        }),
{
    match thread {
        Ok(t) => Ok(t),
        Err(e) => Err(InitError::SpawnWorker(e)),
    }
}

/// An error returned when no match is found for a request.
#[derive(Debug, Clone, Copy, PartialEq, Eq, Structural, Hash)]
pub enum ExpectError {
    /// No match found, and EOF reached while reading from the PTY
    Eof,
    /// No match found, and timeout reached for the given match request
    Timeout,
}

impl ExpectError {
    /// What the error is.
    pub open spec fn describes(self) -> Seq<char> {
        match self {
            ExpectError::Eof => "met unexpected EOF while reading output"@,
            ExpectError::Timeout => "timeout while trying to find matches output"@,
        }
    }

    /// Describes the error.
    pub fn description(&self) -> (text: &'static str)
        ensures
            text@ == self.describes(),
    {
        match self {
            ExpectError::Eof => "met unexpected EOF while reading output",
            ExpectError::Timeout => "timeout while trying to find matches output",
        }
    }

    /// The error of the operating system behind this one: there is none.
    pub fn cause(&self) -> (cause: Option<&io::Error>)
        ensures
            cause is None,
    {
        None
    }

    /// The text of the error.
    pub fn message(&self) -> (text: String)
        ensures
            text@ == self.describes(),
    {
        self.description().to_owned()
    }
}

/// Type used signal errors while the session is running
#[derive(Debug)]
pub enum InternalError {
    SpawnTimeout(io::Error),
    ReadOutput(io::Error),
    NoEventLoop,
    ChanError,
}

impl InternalError {
    /// What the error is.
    pub open spec fn describes(self) -> Seq<char> {
        match self {
            InternalError::SpawnTimeout(_) => "failed to start a match request timeout future"@,
            InternalError::ReadOutput(_) => "failed to read output from the pty"@,
            InternalError::NoEventLoop => "the expect session already errored out"@,
            InternalError::ChanError =>
            "failed to send or receive data via a channel, probably because one end got dropped"@,
        }
    }

    /// Describes the error, without its cause.
    pub fn description(&self) -> (text: &'static str)
        ensures
            text@ == self.describes(),
    {
        match self {
            InternalError::SpawnTimeout(_) => "failed to start a match request timeout future",
            InternalError::ReadOutput(_) => "failed to read output from the pty",
            InternalError::NoEventLoop => "the expect session already errored out",
            InternalError::ChanError =>
            "failed to send or receive data via a channel, probably because one end got dropped",
        }
    }

    /// The error of the operating system behind this one.
    pub fn cause(&self) -> (cause: Option<&io::Error>)
        ensures
            cause == (match *self {
                InternalError::SpawnTimeout(e) => Some(&e),
                InternalError::ReadOutput(e) => Some(&e),
                InternalError::NoEventLoop => None,
                InternalError::ChanError => None,
            }),
    {
        match self {
            InternalError::SpawnTimeout(e) => Some(e),
            InternalError::ReadOutput(e) => Some(e),
            InternalError::NoEventLoop => None,
            InternalError::ChanError => None,
        }
    }

    /// The text of the error.
    pub fn message(&self) -> (text: String)
        ensures
            is_message(text@, self.describes(), self is SpawnTimeout || self is ReadOutput),
            *self matches InternalError::SpawnTimeout(e) ==> exists|told: Seq<char>|
                #[trigger] says_of_itself(e, told) && text@ == self.describes() + ": "@ + told,
            *self matches InternalError::ReadOutput(e) ==> exists|told: Seq<char>|
                #[trigger] says_of_itself(e, told) && text@ == self.describes() + ": "@ + told,
    {
        message(self.description(), self.cause())
    }
}

/// What a client is answered: the index of the pattern that matched along with the output that
/// precedes the match, or why there is none.
pub type MatchOutcome = Result<(usize, Vec<u8>), ExpectError>;

/// The value of an answer.
pub open spec fn outcome_view(outcome: MatchOutcome) -> Outcome {
    match outcome {
        Ok((index, output)) => Outcome::Matched { index: index as nat, output: output@ },
        Err(ExpectError::Eof) => Outcome::Eof,
        Err(ExpectError::Timeout) => Outcome::Timeout,
    }
}

/// A request to wait for some output.
#[derive(Debug)]
pub struct MatchRequest {
    /// A list of potential matches. The matches are tried sequentially.
    pub matches: Vec<Match>,
    /// A channel used to transmit the matching results back to the expect handle.
    pub response_tx: oneshot::Sender<MatchOutcome>,
    /// Optional timeout for a match to be found.
    pub timeout: Option<Duration>,
    /// How the output is cut before it is searched.
    pub mode: MatchMode,
}

/// An active match request is a match request which timeout future started running.
#[derive(Debug)]
pub struct ActiveMatchRequest {
    /// A list of potential matches. The matches are tried sequentially.
    pub matches: Vec<Match>,
    /// A channel used to transmit the matching results back to the expect handle.
    pub response_tx: oneshot::Sender<MatchOutcome>,
    /// Optional timeout for a match to be found.
    pub timeout: Option<Timer>,
    /// How the output is cut before it is searched.
    pub mode: MatchMode,
}

impl MatchRequest {
    /// Goes on with the timer that was started for the request, where it has a timeout.
    pub fn activate(self, started: Option<Result<Timer, io::Error>>) -> (active: Result<
        ActiveMatchRequest,
        InternalError,
    >)
        requires
            started is Some <==> self.timeout is Some,
        ensures
            active == (match started {
                Some(Err(e)) => Err::<ActiveMatchRequest, InternalError>(
                    InternalError::SpawnTimeout(e),
                ),
                Some(Ok(timer)) => Ok(
                    ActiveMatchRequest {
                        matches: self.matches,
                        response_tx: self.response_tx,
                        timeout: Some(timer),
                        mode: self.mode,
                    },
                ),
                None => Ok(
                    ActiveMatchRequest {
                        matches: self.matches,
                        response_tx: self.response_tx,
                        timeout: None,
                        mode: self.mode,
                    },
                ),
            }),
    {
        let timeout: Option<Timer> = match started {
            Some(Ok(timer)) => Some(timer),
            Some(Err(e)) => {
                return Err(InternalError::SpawnTimeout(e));
            },
            None => None,
        };
        Ok(
            ActiveMatchRequest {
                matches: self.matches,
                response_tx: self.response_tx,
                timeout,
                mode: self.mode,
            },
        )
    }
}

impl ActiveMatchRequest {
    /// What a search of some output for the patterns of the request comes to.
    pub open spec fn hit(self, output: Seq<u8>) -> Hit {
        hit(self.matches@, self.mode, output)
    }

    /// How long the request waits.
    pub open spec fn waits(self) -> Timeout {
        match self.timeout {
            Some(timer) => Timeout::Active(timer),
            None => Timeout::Never,
        }
    }

    /// What comes of holding the request against the output.
    pub open spec fn step(self, buffer: Seq<u8>, eof: bool, poll: TimerPoll) -> MatchStep {
        conclusion(self.matches@, self.waits(), self.hit(buffer), buffer, eof, poll)
    }

    /// Looks for a match in the output.
    pub fn try_match(&self, buffer: &[u8]) -> (found: Option<Found>)
        requires
            fault_of(self.hit(buffer@)) is None,
        ensures
            found_view(found) == self.hit(buffer@),
            fits(found, self.matches@.len(), buffer@.len()),
    {
        find_buffer_match(&self.matches, self.mode, buffer)
    }
}

/// Why a worker cannot go on.
#[derive(Debug)]
pub enum WorkerFault {
    /// A request cannot be held against the output.
    Match(MatchFault),
    /// The timer of a request does not work.
    Timer(io::Error),
}

/// Why a worker cannot go on, as a value.
pub enum Stop {
    /// The search came to a pattern for which there is none.
    Unsupported { index: nat },
    /// The timer of a request does not work.
    Timer(io::Error),
}

/// The value of a fault, if there is one.
pub open spec fn stop_view(fault: Option<WorkerFault>) -> Option<Stop> {
    match fault {
        Some(WorkerFault::Match(MatchFault::Unsupported { index })) => Some(
            Stop::Unsupported { index: index as nat },
        ),
        Some(WorkerFault::Timer(e)) => Some(Stop::Timer(e)),
        None => None,
    }
}

/// An answer, no answer yet, or the failure of a timer, as values.
pub open spec fn pending_view(pending: Result<Option<MatchOutcome>, io::Error>) -> Option<Outcome> {
    match pending {
        Ok(Some(outcome)) => Some(outcome_view(outcome)),
        Ok(None) => None,
        Err(e) => Some(Outcome::Io(e)),
    }
}

/// Concludes what comes of a request from the result of the search in the output.
pub fn conclude_pending(
    req: &ActiveMatchRequest,
    found: Option<Found>,
    buffer: &mut Vec<u8>,
    eof: bool,
    poll: TimerPoll,
) -> (pending: Result<Option<MatchOutcome>, io::Error>)
    requires
        found matches Some((_, start, end)) ==> start <= end <= old(buffer)@.len(),
    ensures
        ({
            let step = conclusion(
                req.matches@,
                req.waits(),
                found_view(found),
                old(buffer)@,
                eof,
                poll,
            );
            &&& pending_view(pending) == step.outcome
            &&& final(buffer)@ == step.buffer
        }),
{
    if let Some(taken) = take_match(found, buffer) {
        return Ok(Some(Ok(taken)));
    }
    if eof {
        // Maybe we were expecting EOF.
        return match find_eof(&req.matches) {
            Some(index) => Ok(Some(Ok((index, drain_all(buffer))))),
            None => Ok(Some(Err(ExpectError::Eof))),
        };
    }
    if req.timeout.is_none() {
        // if there's not timeout, just return that we're not ready yet
        return Ok(None);
    }
    match poll {
        TimerPoll::Ready => match find_timeout(&req.matches) {
            Some(index) => Ok(Some(Ok((index, drain_all(buffer))))),
            None => Ok(Some(Err(ExpectError::Timeout))),
        },
        TimerPoll::NotReady => Ok(None),
        TimerPoll::Failed(e) => Err(e),
    }
}

/// An answer to a request.
pub struct Answer {
    pub request: ActiveMatchRequest,
    pub outcome: MatchOutcome,
}

/// The values of some answers, each with the request that it is for.
pub open spec fn answers_view(answers: Seq<Answer>) -> Seq<(ActiveMatchRequest, Outcome)> {
    answers.map_values(|a: Answer| (a.request, outcome_view(a.outcome)))
}

/// What comes of holding the requests of a queue against the output, one after the other.
pub struct Pass {
    /// The requests that are answered, and their answers.
    pub answers: Seq<(ActiveMatchRequest, Outcome)>,
    /// The requests that are left.
    pub queue: Seq<ActiveMatchRequest>,
    /// The output that is left.
    pub buffer: Seq<u8>,
    /// Why the pass could not go on, if it could not.
    pub fault: Option<Stop>,
}

/// Holds the requests of a queue against the output, one after the other, until one of them is not
/// answered: that one and those behind it stay in the queue. `polls` holds what the timer of each
/// request shows.
pub open spec fn pass(
    requests: Seq<ActiveMatchRequest>,
    polls: Seq<TimerPoll>,
    buffer: Seq<u8>,
    eof: bool,
) -> Pass
    decreases requests.len(),
{
    let stays = Pass { answers: Seq::empty(), queue: requests, buffer, fault: None };
    if requests.len() == 0 {
        stays
    } else {
        match fault_of(requests[0].hit(buffer)) {
            Some(index) => Pass { fault: Some(Stop::Unsupported { index }), ..stays },
            None => {
                let step = requests[0].step(buffer, eof, polls[0]);
                match step.outcome {
                    None => stays,
                    Some(Outcome::Io(e)) => Pass { fault: Some(Stop::Timer(e)), ..stays },
                    Some(outcome) => {
                        let rest = pass(requests.skip(1), polls.skip(1), step.buffer, eof);
                        Pass { answers: seq![(requests[0], outcome)] + rest.answers, ..rest }
                    },
                }
            },
        }
    }
}

/// The session of a worker.
pub struct EventLoop {
    /// buffer where we store bytes read from stdout
    pub buffer: Vec<u8>,
    /// FIFO storage for the input requests. Requests are processed one after another, not
    /// concurrently.
    pub input_requests: VecDeque<InputRequest>,
    /// FIFO storage for the matching requests. Requests are processed one after another, not
    /// concurrently.
    pub match_requests: VecDeque<ActiveMatchRequest>,
}

impl EventLoop {
    /// A session without output and without requests.
    pub fn new() -> (session: Self)
        ensures
            session.buffer@ == Seq::<u8>::empty(),
            session.input_requests@ == Seq::<InputRequest>::empty(),
            session.match_requests@ == Seq::<ActiveMatchRequest>::empty(),
    {
        EventLoop {
            buffer: Vec::new(),
            input_requests: VecDeque::new(),
            match_requests: VecDeque::new(),
        }
    }

    /// Tries to answer a request.
    pub fn poll_pending_match(
        req: &ActiveMatchRequest,
        buffer: &mut Vec<u8>,
        eof: bool,
        poll: TimerPoll,
    ) -> (pending: Result<Option<MatchOutcome>, io::Error>)
        requires
            fault_of(req.hit(old(buffer)@)) is None,
        ensures
            pending_view(pending) == req.step(old(buffer)@, eof, poll).outcome,
            final(buffer)@ == req.step(old(buffer)@, eof, poll).buffer,
    {
        let found: Option<Found> = req.try_match(buffer.as_slice());
        conclude_pending(req, found, buffer, eof, poll)
    }

    /// As `poll_pending_match`, for any request. Where the search comes to a pattern for which
    /// there is none, the output is left as it is.
    pub fn try_pending_match(
        req: &ActiveMatchRequest,
        buffer: &mut Vec<u8>,
        eof: bool,
        poll: TimerPoll,
    ) -> (pending: Result<Option<MatchOutcome>, WorkerFault>)
        ensures
            match fault_of(req.hit(old(buffer)@)) {
                Some(index) => {
                    &&& pending matches Err(fault) && stop_view(Some(fault)) == Some(
                        Stop::Unsupported { index },
                    )
                    &&& final(buffer)@ == old(buffer)@
                },
                None => {
                    let step = req.step(old(buffer)@, eof, poll);
                    &&& match pending {
                        Ok(Some(outcome)) => step.outcome == Some(outcome_view(outcome)),
                        Ok(None) => step.outcome is None,
                        Err(WorkerFault::Timer(e)) => step.outcome == Some(Outcome::Io(e)),
                        Err(WorkerFault::Match(_)) => false,
                    }
                    &&& final(buffer)@ == step.buffer
                },
            },
    {
        match scan_buffer(&req.matches, req.mode, buffer.as_slice()) {
            Err(fault) => Err(WorkerFault::Match(fault)),
            Ok(_) => match Self::poll_pending_match(req, buffer, eof, poll) {
                Ok(pending) => Ok(pending),
                Err(e) => Err(WorkerFault::Timer(e)),
            },
        }
    }

    /// Takes the result of a read, where `size` bytes were read already in this pass.
    pub fn read_output(&mut self, size: usize, chunk: Result<&[u8], io::Error>) -> (step: ReadStep)
        requires
            size <= old(self).buffer@.len(),
        ensures
            match chunk {
                Ok(bytes) => if bytes@.len() == 0 {
                    &&& step matches ReadStep::Failed(e) && io_kind(e) is UnexpectedEof
                    &&& final(self).buffer@ == old(self).buffer@
                } else {
                    &&& step matches ReadStep::Again(k) && k == size + bytes@.len() && k
                        <= final(self).buffer@.len()
                    &&& final(self).buffer@ == old(self).buffer@ + bytes@
                },
                Err(e) => {
                    &&& step == if io_would_block(e) {
                        ReadStep::Done(size)
                    } else {
                        ReadStep::Failed(e)
                    }
                    &&& final(self).buffer@ == old(self).buffer@
                },
            },
            final(self).input_requests == old(self).input_requests,
            final(self).match_requests == old(self).match_requests,
    {
        read_output(&mut self.buffer, size, chunk)
    }

    /// Takes what a look at the channel of the match requests shows, each request with the timer
    /// that was started for it, and says whether to look again. Where the timer could not be
    /// started, the worker is at its end.
    pub fn get_match_requests(
        &mut self,
        event: ChannelEvent<(MatchRequest, Option<Result<Timer, io::Error>>)>,
    ) -> (again: Result<bool, InternalError>)
        requires
            event matches ChannelEvent::Item((request, started)) ==> (started is Some
                <==> request.timeout is Some),
        ensures
            match event {
                ChannelEvent::Item((request, started)) => match started {
                    Some(Err(e)) => {
                        &&& again == Err::<bool, InternalError>(InternalError::SpawnTimeout(e))
                        &&& final(self).match_requests@ == old(self).match_requests@
                    },
                    _ => {
                        &&& again == Ok::<bool, InternalError>(true)
                        &&& final(self).match_requests@ == old(self).match_requests@.push(
                            ActiveMatchRequest {
                                matches: request.matches,
                                response_tx: request.response_tx,
                                timeout: match started {
                                    Some(Ok(timer)) => Some(timer),
                                    _ => None,
                                },
                                mode: request.mode,
                            },
                        )
                    },
                },
                ChannelEvent::Empty => {
                    &&& again == Ok::<bool, InternalError>(false)
                    &&& final(self).match_requests@ == old(self).match_requests@
                },
            },
            final(self).buffer == old(self).buffer,
            final(self).input_requests == old(self).input_requests,
    {
        match event {
            ChannelEvent::Item((request, started)) => match request.activate(started) {
                Ok(active) => {
                    self.match_requests.push_back(active);
                    Ok(true)
                },
                Err(e) => Err(e),
            },
            ChannelEvent::Empty => Ok(false),
        }
    }

    /// Takes what a look at the channel of the input requests shows, and says whether to look
    /// again.
    pub fn get_input_requests(&mut self, event: ChannelEvent<InputRequest>) -> (again: bool)
        ensures
            match event {
                ChannelEvent::Item(req) => again && final(self).input_requests@
                    == old(self).input_requests@.push(req),
                ChannelEvent::Empty => !again && final(self).input_requests@
                    == old(self).input_requests@,
            },
            final(self).buffer == old(self).buffer,
            final(self).match_requests == old(self).match_requests,
    {
        match event {
            ChannelEvent::Item(req) => {
                self.input_requests.push_back(req);
                true
            },
            ChannelEvent::Empty => false,
        }
    }

    /// The input to write next in a pass, if there is any left.
    pub fn next_write(&self, pass: &InputPass) -> (bytes: Option<&[u8]>)
        requires
            input_state(self.input_requests@, *pass).valid(),
        ensures
            match bytes {
                Some(b) => self.input_requests@.len() > 0 && b@
                    == self.input_requests@[0].0@.skip(pass.size as int),
                None => self.input_requests@.len() == 0,
            },
    {
        pass.next_write(&self.input_requests)
    }

    /// Takes the result of a write of that input, and says whether to write on. The client is told
    /// of the requests that the pass has written with `InputPass::acknowledge`.
    pub fn process_input(
        &mut self,
        pass: &mut InputPass,
        written: Result<usize, io::Error>,
    ) -> (step: InputStep)
        requires
            input_state(old(self).input_requests@, *old(pass)).valid(),
            input_state(old(self).input_requests@, *old(pass)).admits(written),
        ensures
            input_state(final(self).input_requests@, *final(pass)) == input_state(
                old(self).input_requests@,
                *old(pass),
            ).after(written),
            input_state(final(self).input_requests@, *final(pass)).valid(),
            step == input_step(written),
            final(self).buffer == old(self).buffer,
            final(self).match_requests == old(self).match_requests,
    {
        pass.take_written(&mut self.input_requests, written)
    }

    /// Holds the requests in the queue against the output, and gives the answers to those that
    /// have one.
    pub fn settle_matches(&mut self, eof: bool, polls: VecDeque<TimerPoll>) -> (settled: (
        Vec<Answer>,
        Option<WorkerFault>,
    ))
        requires
            polls@.len() == old(self).match_requests@.len(),
        ensures
            ({
                let p = pass(old(self).match_requests@, polls@, old(self).buffer@, eof);
                &&& answers_view(settled.0@) == p.answers
                &&& stop_view(settled.1) == p.fault
                &&& final(self).match_requests@ == p.queue
                &&& final(self).buffer@ == p.buffer
            }),
            final(self).input_requests == old(self).input_requests,
    {
        let ghost whole = pass(self.match_requests@, polls@, self.buffer@, eof);
        let mut left: VecDeque<TimerPoll> = polls;
        let mut answers: Vec<Answer> = Vec::new();
        assert(answers_view(answers@) =~= Seq::empty());
        while self.match_requests.len() > 0
            invariant
                left@.len() == self.match_requests@.len(),
                self.input_requests == old(self).input_requests,
                ({
                    let p = pass(self.match_requests@, left@, self.buffer@, eof);
                    &&& whole.answers =~= answers_view(answers@) + p.answers
                    &&& whole.queue == p.queue
                    &&& whole.buffer == p.buffer
                    &&& whole.fault == p.fault
                }),
                whole == pass(old(self).match_requests@, polls@, old(self).buffer@, eof),
            decreases self.match_requests@.len(),
        {
            let ghost requests = self.match_requests@;
            let ghost looks = left@;
            let (req, poll) = match (self.match_requests.pop_front(), left.pop_front()) {
                (Some(req), Some(poll)) => (req, poll),
                _ => {
                    return (answers, None);
                },
            };
            assert(self.match_requests@ =~= requests.skip(1));
            assert(left@ =~= looks.skip(1));
            let found: Option<Found> = match scan_buffer(
                &req.matches,
                req.mode,
                self.buffer.as_slice(),
            ) {
                Ok(found) => found,
                Err(fault) => {
                    self.match_requests.push_front(req);
                    assert(self.match_requests@ =~= requests);
                    return (answers, Some(WorkerFault::Match(fault)));
                },
            };
            match conclude_pending(&req, found, &mut self.buffer, eof, poll) {
                Ok(Some(outcome)) => {
                    let answer: Answer = Answer { request: req, outcome };
                    proof {
                        assert(answers_view(answers@.push(answer)) =~= answers_view(answers@).push(
                            (answer.request, outcome_view(answer.outcome)),
                        ));
                    }
                    answers.push(answer);
                },
                Ok(None) => {
                    self.match_requests.push_front(req);
                    assert(self.match_requests@ =~= requests);
                    return (answers, None);
                },
                Err(e) => {
                    self.match_requests.push_front(req);
                    assert(self.match_requests@ =~= requests);
                    return (answers, Some(WorkerFault::Timer(e)));
                },
            }
        }
        (answers, None)
    }

    /// Holds the requests in the queue against the output, and answers those that have an answer.
    /// Where the worker cannot go on, none is answered.
    pub fn process_matches(&mut self, eof: bool, polls: VecDeque<TimerPoll>) -> (processed: Result<
        (),
        WorkerFault,
    >)
        requires
            polls@.len() == old(self).match_requests@.len(),
        ensures
            ({
                let p = pass(old(self).match_requests@, polls@, old(self).buffer@, eof);
                &&& match processed {
                    Ok(()) => p.fault is None,
                    Err(fault) => stop_view(Some(fault)) == p.fault,
                }
                &&& forall|i: int|
                    p.fault is None && 0 <= i < p.answers.len() ==> exists|
                        outcome: MatchOutcome,
                        sent: Result<(), MatchOutcome>,
                    |
                        {
                            &&& #[trigger] call_ensures(
                                oneshot::Sender::<MatchOutcome>::send,
                                ((#[trigger] p.answers[i]).0.response_tx, outcome),
                                sent,
                            )
                            &&& outcome_view(outcome) == p.answers[i].1
                        }
                &&& final(self).match_requests@ == p.queue
                &&& final(self).buffer@ == p.buffer
            }),
            final(self).input_requests == old(self).input_requests,
    {
        let (answers, fault) = self.settle_matches(eof, polls);
        match fault {
            Some(fault) => Err(fault),
            None => {
                let ghost settled = answers@;
                send_answers(answers);
                proof {
                    let given = answers_view(settled);
                    assert forall|i: int| 0 <= i < given.len() implies exists|
                        outcome: MatchOutcome,
                        sent: Result<(), MatchOutcome>,
                    |
                        {
                            &&& #[trigger] call_ensures(
                                oneshot::Sender::<MatchOutcome>::send,
                                ((#[trigger] given[i]).0.response_tx, outcome),
                                sent,
                            )
                            &&& outcome_view(outcome) == given[i].1
                        } by {
                        assert(given[i] == (settled[i].request, outcome_view(settled[i].outcome)));
                    }
                }
                Ok(())
            },
        }
    }
}

/// Sends each answer to the client, in order. If the client is gone, it does not care.
fn send_answers(answers: Vec<Answer>)
    ensures
        forall|i: int|
            0 <= i < answers@.len() ==> exists|sent: Result<(), MatchOutcome>|
                call_ensures(
                    oneshot::Sender::<MatchOutcome>::send,
                    ((#[trigger] answers@[i]).request.response_tx, answers@[i].outcome),
                    sent,
                ),
{
    for answer in iter: answers
        invariant
            iter.seq() == answers@,
            forall|i: int|
                0 <= i < iter.index() ==> exists|sent: Result<(), MatchOutcome>|
                    call_ensures(
                        oneshot::Sender::<MatchOutcome>::send,
                        ((#[trigger] answers@[i]).request.response_tx, answers@[i].outcome),
                        sent,
                    ),
    {
        let _sent: Result<(), MatchOutcome> = answer.request.response_tx.send(answer.outcome);
    }
}

/// What a client holds of its worker besides the channels for its requests.
#[derive(Debug)]
pub struct Client {
    /// Channel to send a shutdown signal to the expect session
    pub shutdown_tx: Option<oneshot::Sender<()>>,
}

/// Why a request failed: what the worker has failed with, if that is known.
pub open spec fn worker_error(failure: Option<InternalError>) -> InternalError {
    match failure {
        Some(e) => e,
        None => InternalError::ChanError,
    }
}

impl Client {
    /// A client of a worker that runs.
    pub fn new(shutdown_tx: oneshot::Sender<()>) -> (client: Self)
        ensures
            client.shutdown_tx == Some(shutdown_tx),
    {
        Client { shutdown_tx: Some(shutdown_tx) }
    }

    /// A request to send some bytes, and the channel on which it is acknowledged.
    pub fn send(&mut self, bytes: Vec<u8>) -> (request: (InputRequest, oneshot::Receiver<()>))
        ensures
            request.0.0 == bytes,
            request.1 == ack_receiver(request.0.1),
            *final(self) == *old(self),
    {
        let (response_tx, response_rx) = ack_channel();
        (InputRequest(bytes, response_tx), response_rx)
    }

    /// What a client is told of the bytes that it has sent. `failure` is what the worker has failed
    /// with, as far as that is known.
    pub fn sent(reply: Reply<()>, failure: Option<InternalError>) -> (result: Result<
        (),
        InternalError,
    >)
        ensures
            result == (match reply {
                Reply::Answered(()) => Ok::<(), InternalError>(()),
                _ => Err(worker_error(failure)),
            }),
    {
        match reply {
            Reply::Answered(()) => Ok(()),
            _ => Err(failure.unwrap_or(InternalError::ChanError)),
        }
    }

    /// A request to wait for some output, and the channel on which it is answered.
    pub fn expect(
        &mut self,
        matches: Vec<Match>,
        timeout: Option<Duration>,
        mode: MatchMode,
    ) -> (request: (MatchRequest, oneshot::Receiver<MatchOutcome>))
        ensures
            request.0.matches == matches,
            request.0.timeout == timeout,
            request.0.mode == mode,
            request.1 == worker_receiver(request.0.response_tx),
            *final(self) == *old(self),
    {
        let (response_tx, response_rx) = worker_channel();
        (MatchRequest { matches, response_tx, timeout, mode }, response_rx)
    }

    /// What a client is told of the output that it has waited for. `failure` is what the worker has
    /// failed with, as far as that is known.
    pub fn expected(reply: Reply<MatchOutcome>, failure: Option<InternalError>) -> (result: Result<
        MatchOutcome,
        InternalError,
    >)
        ensures
            result == (match reply {
                Reply::Answered(outcome) => Ok::<MatchOutcome, InternalError>(outcome),
                _ => Err(worker_error(failure)),
            }),
    {
        match reply {
            Reply::Answered(outcome) => Ok(outcome),
            _ => Err(failure.unwrap_or(InternalError::ChanError)),
        }
    }

    /// Asks the worker to end. If it has ended already, that is just what is wanted.
    pub fn close(&mut self)
        ensures
            final(self).shutdown_tx is None,
            old(self).shutdown_tx matches Some(tx) ==> exists|sent: Result<(), ()>|
                call_ensures(oneshot::Sender::<()>::send, (tx, ()), sent),
    {
        if let Some(shutdown_tx) = self.shutdown_tx.take() {
            let _sent: Result<(), ()> = shutdown_tx.send(());
        }
    }
}

/// The requests are served first come first served: those that are answered are the first in the
/// queue, in their order, and those that are left are the others, in theirs.
pub proof fn law_first_come_first_served(
    requests: Seq<ActiveMatchRequest>,
    polls: Seq<TimerPoll>,
    buffer: Seq<u8>,
    eof: bool,
)
    ensures
        ({
            let p = pass(requests, polls, buffer, eof);
            p.answers.map_values(|a: (ActiveMatchRequest, Outcome)| a.0) + p.queue == requests
        }),
    decreases requests.len(),
{
    let p = pass(requests, polls, buffer, eof);
    let answered = p.answers.map_values(|a: (ActiveMatchRequest, Outcome)| a.0);
    if p.answers.len() == 0 {
        assert(answered + p.queue =~= requests);
    } else {
        let step = requests[0].step(buffer, eof, polls[0]);
        let rest = pass(requests.skip(1), polls.skip(1), step.buffer, eof);
        law_first_come_first_served(requests.skip(1), polls.skip(1), step.buffer, eof);
        assert(answered =~= seq![requests[0]] + rest.answers.map_values(
            |a: (ActiveMatchRequest, Outcome)| a.0,
        ));
        assert(answered + p.queue =~= seq![requests[0]] + requests.skip(1));
        assert(seq![requests[0]] + requests.skip(1) =~= requests);
    }
}

/// What a request leaves is the end of the output.
proof fn lemma_step_leaves_the_end(
    req: ActiveMatchRequest,
    buffer: Seq<u8>,
    eof: bool,
    poll: TimerPoll,
)
    ensures
        is_end_of(req.step(buffer, eof, poll).buffer, buffer),
{
    lemma_conclusion_splits(req.matches@, req.mode, req.waits(), buffer, eof, poll);
}

/// No output is lost and none comes up twice: what a pass leaves is the end of the output that it
/// was given.
#[verifier::spinoff_prover]
pub proof fn law_a_pass_leaves_the_end_of_the_output(
    requests: Seq<ActiveMatchRequest>,
    polls: Seq<TimerPoll>,
    buffer: Seq<u8>,
    eof: bool,
)
    ensures
        is_end_of(pass(requests, polls, buffer, eof).buffer, buffer),
    decreases requests.len(),
{
    let p = pass(requests, polls, buffer, eof);
    if p.answers.len() == 0 {
        lemma_end_of_itself(buffer);
    } else {
        let left = requests[0].step(buffer, eof, polls[0]).buffer;
        lemma_step_leaves_the_end(requests[0], buffer, eof, polls[0]);
        law_a_pass_leaves_the_end_of_the_output(requests.skip(1), polls.skip(1), left, eof);
        lemma_end_of_end(p.buffer, left, buffer);
    }
}

/// The index in an answer is that of a pattern of the request.
pub proof fn law_answers_name_a_pattern(
    req: ActiveMatchRequest,
    buffer: Seq<u8>,
    eof: bool,
    poll: TimerPoll,
)
    ensures
        req.step(buffer, eof, poll).outcome matches Some(Outcome::Matched { index, .. }) ==> index
            < req.matches@.len(),
{
    lemma_conclusion_names_a_pattern(req.matches@, req.mode, req.waits(), buffer, eof, poll);
}

/// At the end of the output no request is left.
pub proof fn law_eof_leaves_no_request(
    requests: Seq<ActiveMatchRequest>,
    polls: Seq<TimerPoll>,
    buffer: Seq<u8>,
)
    requires
        pass(requests, polls, buffer, true).fault is None,
    ensures
        pass(requests, polls, buffer, true).queue.len() == 0,
        pass(requests, polls, buffer, true).answers.len() == requests.len(),
    decreases requests.len(),
{
    if requests.len() > 0 {
        let step = requests[0].step(buffer, true, polls[0]);
        law_eof_leaves_no_request(requests.skip(1), polls.skip(1), step.buffer);
    }
}

/// What comes of a request is what comes of the search for its patterns in its mode, with its timer
/// where it has one and without end where it has none.
pub proof fn law_a_request_is_held_against_the_output(
    req: ActiveMatchRequest,
    buffer: Seq<u8>,
    eof: bool,
    poll: TimerPoll,
)
    ensures
        req.hit(buffer) == hit(req.matches@, req.mode, buffer),
        req.waits() == (match req.timeout {
            Some(timer) => Timeout::Active(timer),
            None => Timeout::Never,
        }),
        req.step(buffer, eof, poll) == conclusion(
            req.matches@,
            req.waits(),
            hit(req.matches@, req.mode, buffer),
            buffer,
            eof,
            poll,
        ),
{
}

/// The values of answers tell each of them apart from all others.
pub proof fn law_answers_are_told_apart(outcome: MatchOutcome, e: io::Error)
    ensures
        outcome matches Ok((index, output)) ==> outcome_view(outcome) == (Outcome::Matched {
            index: index as nat,
            output: output@,
        }),
        outcome matches Err(ExpectError::Eof) ==> outcome_view(outcome) == Outcome::Eof,
        outcome matches Err(ExpectError::Timeout) ==> outcome_view(outcome) == Outcome::Timeout,
        pending_view(Ok(Some(outcome))) == Some(outcome_view(outcome)),
        pending_view(Ok(None)) is None,
        pending_view(Err(e)) == Some(Outcome::Io(e)),
{
}

/// Each answer stands at its place, with the request that it is for.
pub proof fn law_answers_go_with_their_requests(answers: Seq<Answer>, i: int)
    requires
        0 <= i < answers.len(),
    ensures
        answers_view(answers).len() == answers.len(),
        answers_view(answers)[i].0 == answers[i].request,
        answers_view(answers)[i].1 == outcome_view(answers[i].outcome),
{
}

/// A fault says what stopped the worker, and a client is told what its worker has failed with, or
/// that the channel is gone where that is not known.
pub proof fn law_failures_are_told(index: usize, e: io::Error, failure: Option<InternalError>)
    ensures
        stop_view(Some(WorkerFault::Match(MatchFault::Unsupported { index }))) == Some(
            Stop::Unsupported { index: index as nat },
        ),
        stop_view(Some(WorkerFault::Timer(e))) == Some(Stop::Timer(e)),
        stop_view(None) is None,
        failure matches Some(error) ==> worker_error(failure) == error,
        failure is None ==> worker_error(failure) is ChanError,
{
}

/// A pass answers request after request, each with what comes of it on the output that the answers
/// before have left, and stops at the first that has no answer, cannot be searched for or whose
/// timer fails: that one and those behind it stay as they are. `outputs` is the output before each
/// answer, and at last what is left.
#[verifier::spinoff_prover]
pub proof fn law_each_request_gets_its_own_answer(
    requests: Seq<ActiveMatchRequest>,
    polls: Seq<TimerPoll>,
    buffer: Seq<u8>,
    eof: bool,
) -> (outputs: Seq<Seq<u8>>)
    requires
        polls.len() == requests.len(),
    ensures
        ({
            let p = pass(requests, polls, buffer, eof);
            let n = p.answers.len() as int;
            &&& n <= requests.len()
            &&& outputs.len() == n + 1
            &&& outputs[0] == buffer
            &&& outputs[n] == p.buffer
            &&& p.queue == requests.skip(n)
            &&& forall|i: int|
                0 <= i < n ==> {
                    let step = requests[i].step(outputs[i], eof, polls[i]);
                    &&& !(hit(requests[i].matches@, requests[i].mode, outputs[i]) is Unsupported)
                    &&& step.outcome == Some((#[trigger] p.answers[i]).1)
                    &&& !(p.answers[i].1 is Io)
                    &&& outputs[i + 1] == step.buffer
                    &&& p.answers[i].0 == requests[i]
                }
            &&& n == requests.len() ==> p.fault is None
            &&& n < requests.len() ==> match hit(
                requests[n].matches@,
                requests[n].mode,
                p.buffer,
            ) {
                Hit::Unsupported { index } => p.fault == Some(Stop::Unsupported { index }),
                _ => match requests[n].step(p.buffer, eof, polls[n]).outcome {
                    None => p.fault is None,
                    Some(Outcome::Io(e)) => p.fault == Some(Stop::Timer(e)),
                    Some(_) => false,
                },
            }
        }),
    decreases requests.len(),
{
    let p = pass(requests, polls, buffer, eof);
    assert(requests.skip(0) =~= requests);
    if p.answers.len() == 0 {
        lemma_pass_without_answers(requests, polls, buffer, eof);
        seq![buffer]
    } else {
        let step = requests[0].step(buffer, eof, polls[0]);
        let rest = pass(requests.skip(1), polls.skip(1), step.buffer, eof);
        let others = law_each_request_gets_its_own_answer(
            requests.skip(1),
            polls.skip(1),
            step.buffer,
            eof,
        );
        let outputs = seq![buffer] + others;
        let n = p.answers.len() as int;
        assert forall|i: int| 0 <= i < n implies {
            let step = requests[i].step(outputs[i], eof, polls[i]);
            &&& !(hit(requests[i].matches@, requests[i].mode, outputs[i]) is Unsupported)
            &&& step.outcome == Some((#[trigger] p.answers[i]).1)
            &&& !(p.answers[i].1 is Io)
            &&& outputs[i + 1] == step.buffer
            &&& p.answers[i].0 == requests[i]
        } by {
            if i > 0 {
                assert(p.answers[i] == rest.answers[i - 1]);
                assert(requests.skip(1)[i - 1] == requests[i]);
                assert(polls.skip(1)[i - 1] == polls[i]);
                assert(outputs[i] == others[i - 1]);
                assert(outputs[i + 1] == others[i]);
            }
        }
        assert(outputs[n] == others[n - 1]);
        assert(requests.skip(1).skip(n - 1) =~= requests.skip(n));
        if n < requests.len() {
            assert(requests.skip(1)[n - 1] == requests[n]);
            assert(polls.skip(1)[n - 1] == polls[n]);
        }
        outputs
    }
}

/// Where a pass gives no answer, all is as it was.
proof fn lemma_pass_without_answers(
    requests: Seq<ActiveMatchRequest>,
    polls: Seq<TimerPoll>,
    buffer: Seq<u8>,
    eof: bool,
)
    requires
        pass(requests, polls, buffer, eof).answers.len() == 0,
    ensures
        ({
            let p = pass(requests, polls, buffer, eof);
            &&& p.buffer == buffer
            &&& p.queue == requests
            &&& requests.len() == 0 ==> p.fault is None
            &&& requests.len() > 0 ==> match hit(requests[0].matches@, requests[0].mode, buffer) {
                Hit::Unsupported { index } => p.fault == Some(Stop::Unsupported { index }),
                _ => match requests[0].step(buffer, eof, polls[0]).outcome {
                    None => p.fault is None,
                    Some(Outcome::Io(e)) => p.fault == Some(Stop::Timer(e)),
                    Some(_) => false,
                },
            }
        }),
{
    if requests.len() > 0 {
        let p = pass(requests, polls, buffer, eof);
        match requests[0].step(buffer, eof, polls[0]).outcome {
            None => {},
            Some(Outcome::Io(e)) => {},
            Some(outcome) => {
                if fault_of(requests[0].hit(buffer)) is None {
                    assert(p.answers[0] == (requests[0], outcome));
                }
            },
        }
    }
}

} // verus!
