//! A session: the output of one process that is not consumed yet, and the requests that wait for
//! their turn. The event loop reads, writes and keeps the time; what it sees is handed to the
//! session, which decides what comes of it.
use super::errors::ExpectError;
use super::match_request::{
    eof_index, fault_of, fault_view, outcome_view, take_match, timeout_index, InputRequest,
    MatchOutcome, MatchRequest, Outcome, Timeout, TimerPoll,
};
use super::matching::{found_view, scan_buffer, Found, Hit, Match, MatchFault};
use super::transfer::{input_state, input_step, read_output, InputPass, InputStep, ReadStep};
use crate::outside::{io_kind, io_would_block};
use futures::sync::oneshot;
use std::collections::VecDeque;
use std::io;
use tokio_core::reactor::Timeout as Timer;
use vstd::prelude::*;

verus! {

/// What comes of holding one request against the output.
pub struct MatchStep {
    /// The answer, if there is one already.
    pub outcome: Option<Outcome>,
    /// The output that is left.
    pub buffer: Seq<u8>,
    /// The timeout that is left.
    pub timeout: Timeout,
}

/// What comes of a request, given the result of the search in the output, whether the end of the
/// output is reached, and what its timer shows. A match in the output comes first. Without one, the
/// end of the output answers the request; without that, the end of its time does. A request that
/// waits for either takes all the output there is.
pub open spec fn conclusion(
    matches: Seq<Match>,
    timeout: Timeout,
    h: Hit,
    buffer: Seq<u8>,
    eof: bool,
    poll: TimerPoll,
) -> MatchStep {
    let rest = Seq::<u8>::empty();
    match h {
        Hit::Found { index, start, end } => MatchStep {
            outcome: Some(Outcome::Matched { index, output: buffer.take(start as int) }),
            buffer: buffer.skip(end as int),
            timeout,
        },
        _ => if eof {
            match eof_index(matches) {
                Some(index) => MatchStep {
                    outcome: Some(Outcome::Matched { index, output: buffer }),
                    buffer: rest,
                    timeout,
                },
                None => MatchStep { outcome: Some(Outcome::Eof), buffer, timeout },
            }
        } else {
            let left = timeout.after(poll);
            match timeout.over(poll) {
                Ok(true) => match timeout_index(matches) {
                    Some(index) => MatchStep {
                        outcome: Some(Outcome::Matched { index, output: buffer }),
                        buffer: rest,
                        timeout: left,
                    },
                    None => MatchStep { outcome: Some(Outcome::Timeout), buffer, timeout: left },
                },
                Ok(false) => MatchStep { outcome: None, buffer, timeout: left },
                Err(e) => MatchStep { outcome: Some(Outcome::Io(e)), buffer, timeout: left },
            }
        },
    }
}

/// What comes of holding a request against the output.
pub open spec fn match_step(
    req: MatchRequest,
    buffer: Seq<u8>,
    eof: bool,
    poll: TimerPoll,
) -> MatchStep {
    conclusion(req.matches@, req.timeout, req.hit(buffer), buffer, eof, poll)
}

/// The value of an answer, if there is one.
pub open spec fn opt_outcome(outcome: Option<MatchOutcome>) -> Option<Outcome> {
    match outcome {
        Some(o) => Some(outcome_view(o)),
        None => None,
    }
}

/// Takes all the output there is.
pub(crate) fn drain_all(buffer: &mut Vec<u8>) -> (output: Vec<u8>)
    ensures
        output@ == old(buffer)@,
        final(buffer)@ == Seq::<u8>::empty(),
{
    let mut output: Vec<u8> = Vec::new();
    std::mem::swap(&mut output, buffer);
    output
}

/// Hands each request what its timer shows.
fn poll_timers(requests: &mut VecDeque<MatchRequest>, polls: VecDeque<TimerPoll>)
    requires
        polls@.len() == old(requests)@.len(),
    ensures
        final(requests)@ == polled(old(requests)@, polls@),
{
    let ghost all = requests@;
    let ghost looks = polls@;
    let mut polls: VecDeque<TimerPoll> = polls;
    let mut after: VecDeque<MatchRequest> = VecDeque::new();
    while requests.len() > 0
        invariant
            polls@.len() == requests@.len(),
            all.len() == looks.len(),
            after@.len() + requests@.len() == all.len(),
            requests@ =~= all.skip(after@.len() as int),
            polls@ =~= looks.skip(after@.len() as int),
            after@ =~= polled(all, looks).take(after@.len() as int),
        decreases requests@.len(),
    {
        if let (Some(mut req), Some(poll)) = (requests.pop_front(), polls.pop_front()) {
            let _over: Result<bool, io::Error> = req.timed_out(poll);
            after.push_back(req);
        }
    }
    *requests = after;
}

/// An answer to a request.
pub struct Answer {
    pub request: MatchRequest,
    pub outcome: MatchOutcome,
}

/// The values of some answers, each with the request that it is for.
pub open spec fn answers_view(answers: Seq<Answer>) -> Seq<(MatchRequest, Outcome)> {
    answers.map_values(|a: Answer| (a.request, outcome_view(a.outcome)))
}

/// What comes of holding the requests of a queue against the output, one after the other.
pub struct Pass {
    /// The requests that are answered, and their answers.
    pub answers: Seq<(MatchRequest, Outcome)>,
    /// The requests that are left.
    pub queue: Seq<MatchRequest>,
    /// The output that is left.
    pub buffer: Seq<u8>,
    /// The index of the pattern at which the pass could not go on, if it could not.
    pub fault: Option<nat>,
}

/// Requests after a look at their timers.
pub open spec fn polled(requests: Seq<MatchRequest>, polls: Seq<TimerPoll>) -> Seq<MatchRequest> {
    Seq::new(
        requests.len(),
        |i: int| requests[i].with_timeout(requests[i].timeout.after(polls[i])),
    )
}

/// Holds the requests of a queue against the output, one after the other, until one of them is not
/// answered: that one and those behind it stay in the queue. `polls` holds what the timer of each
/// request shows.
pub open spec fn pass(
    requests: Seq<MatchRequest>,
    polls: Seq<TimerPoll>,
    buffer: Seq<u8>,
    eof: bool,
) -> Pass
    decreases requests.len(),
{
    if requests.len() == 0 {
        Pass { answers: Seq::empty(), queue: Seq::empty(), buffer, fault: None }
    } else {
        let first = requests[0];
        match fault_of(first.hit(buffer)) {
            Some(fault) => Pass {
                answers: Seq::empty(),
                queue: requests,
                buffer,
                fault: Some(fault),
            },
            None => {
                let step = match_step(first, buffer, eof, polls[0]);
                let after = first.with_timeout(step.timeout);
                match step.outcome {
                    Some(outcome) => {
                        let rest = pass(requests.skip(1), polls.skip(1), step.buffer, eof);
                        Pass { answers: seq![(after, outcome)] + rest.answers, ..rest }
                    },
                    None => Pass {
                        answers: Seq::empty(),
                        queue: seq![after] + polled(requests.skip(1), polls.skip(1)),
                        buffer: step.buffer,
                        fault: None,
                    },
                }
            },
        }
    }
}

/// A look at the channel on which requests come.
pub enum ChannelEvent<T> {
    /// A request.
    Item(T),
    /// No more requests for now.
    Empty,
}

/// A session.
pub struct Session {
    /// buffer where we store bytes read from stdout
    pub buffer: Vec<u8>,
    /// FIFO storage for the input requests. Requests are processed one after another, not
    /// concurrently.
    pub input_requests: VecDeque<InputRequest>,
    /// FIFO storage for the matching requests. Requests are processed one after another, not
    /// concurrently.
    pub match_requests: VecDeque<MatchRequest>,
    /// Channel to tell the client that the session is over
    pub exit_status_tx: Option<oneshot::Sender<()>>,
}

impl Session {
    /// A session without output and without requests.
    pub fn new(exit_status_tx: oneshot::Sender<()>) -> (session: Self)
        ensures
            session.buffer@ == Seq::<u8>::empty(),
            session.input_requests@ == Seq::<InputRequest>::empty(),
            session.match_requests@ == Seq::<MatchRequest>::empty(),
            session.exit_status_tx == Some(exit_status_tx),
    {
        Session {
            buffer: Vec::new(),
            input_requests: VecDeque::new(),
            match_requests: VecDeque::new(),
            exit_status_tx: Some(exit_status_tx),
        }
    }

    /// Concludes what comes of a request from the result of the search in the output.
    pub fn conclude(
        req: &mut MatchRequest,
        found: Option<Found>,
        buffer: &mut Vec<u8>,
        eof: bool,
        poll: TimerPoll,
    ) -> (outcome: Option<MatchOutcome>)
        requires
            found matches Some((_, start, end)) ==> start <= end <= old(buffer)@.len(),
        ensures
            ({
                let step = conclusion(
                    old(req).matches@,
                    old(req).timeout,
                    found_view(found),
                    old(buffer)@,
                    eof,
                    poll,
                );
                &&& opt_outcome(outcome) == step.outcome
                &&& final(buffer)@ == step.buffer
                &&& *final(req) == old(req).with_timeout(step.timeout)
            }),
    {
        // Check whether a match can be found in the buffer
        if let Some(taken) = take_match(found, buffer) {
            return Some(Ok(taken));
        }
        if eof {
            // Check whether we were expecting this EOF. If so, return successfully,
            // otherwise, error out.
            return match req.get_eof_match_index() {
                Some(index) => Some(Ok((index, drain_all(buffer)))),
                None => Some(Err(ExpectError::Eof)),
            };
        }
        match req.timed_out(poll) {
            Ok(over) => {
                if !over {
                    return None;
                }
                match req.get_timeout_match_index() {
                    Some(index) => Some(Ok((index, drain_all(buffer)))),
                    None => Some(Err(ExpectError::Timeout)),
                }
            },
            Err(e) => Some(Err(ExpectError::Io(e))),
        }
    }

    /// Try to find a match for the given request
    pub fn find_match(
        req: &mut MatchRequest,
        buffer: &mut Vec<u8>,
        eof: bool,
        poll: TimerPoll,
    ) -> (outcome: Option<MatchOutcome>)
        requires
            fault_of(old(req).hit(old(buffer)@)) is None,
        ensures
            ({
                let step = match_step(*old(req), old(buffer)@, eof, poll);
                &&& opt_outcome(outcome) == step.outcome
                &&& final(buffer)@ == step.buffer
                &&& *final(req) == old(req).with_timeout(step.timeout)
            }),
    {
        let found: Option<Found> = req.find_buffer_match(buffer.as_slice());
        Self::conclude(req, found, buffer, eof, poll)
    }

    /// As `find_match`, for any request. Where the search comes to a pattern for which there is
    /// none, neither the request nor the output is changed.
    pub fn try_find_match(
        req: &mut MatchRequest,
        buffer: &mut Vec<u8>,
        eof: bool,
        poll: TimerPoll,
    ) -> (outcome: Result<Option<MatchOutcome>, MatchFault>)
        ensures
            match fault_of(old(req).hit(old(buffer)@)) {
                Some(index) => {
                    &&& outcome matches Err(MatchFault::Unsupported { index: i }) && i == index
                    &&& final(buffer)@ == old(buffer)@
                    &&& *final(req) == *old(req)
                },
                None => {
                    let step = match_step(*old(req), old(buffer)@, eof, poll);
                    &&& outcome matches Ok(o) && opt_outcome(o) == step.outcome
                    &&& final(buffer)@ == step.buffer
                    &&& *final(req) == old(req).with_timeout(step.timeout)
                },
            },
    {
        match scan_buffer(&req.matches, req.mode, buffer.as_slice()) {
            Err(fault) => Err(fault),
            Ok(_) => Ok(Self::find_match(req, buffer, eof, poll)),
        }
    }

    /// Holds the requests in the queue against the output, and gives the answers to those that
    /// have one.
    pub fn settle_match_requests(&mut self, eof: bool, polls: VecDeque<TimerPoll>) -> (settled: (
        Vec<Answer>,
        Option<MatchFault>,
    ))
        requires
            polls@.len() == old(self).match_requests@.len(),
        ensures
            ({
                let p = pass(old(self).match_requests@, polls@, old(self).buffer@, eof);
                &&& answers_view(settled.0@) == p.answers
                &&& fault_view(settled.1) == p.fault
                &&& final(self).match_requests@ == p.queue
                &&& final(self).buffer@ == p.buffer
            }),
            final(self).input_requests == old(self).input_requests,
            final(self).exit_status_tx == old(self).exit_status_tx,
    {
        let ghost whole = pass(self.match_requests@, polls@, self.buffer@, eof);
        let mut left: VecDeque<TimerPoll> = polls;
        let mut answers: Vec<Answer> = Vec::new();
        assert(answers_view(answers@) =~= Seq::empty());
        while self.match_requests.len() > 0
            invariant
                left@.len() == self.match_requests@.len(),
                self.input_requests == old(self).input_requests,
                self.exit_status_tx == old(self).exit_status_tx,
                ({
                    let p = pass(self.match_requests@, left@, self.buffer@, eof);
                    &&& whole.answers =~= answers_view(answers@) + p.answers
                    &&& whole.queue == p.queue
                    &&& whole.buffer == p.buffer
                    &&& whole.fault == p.fault
                }),
                whole == pass(old(self).match_requests@, polls@, old(self).buffer@, eof),
            decreases self.match_requests@.len(),
        {
            let ghost requests = self.match_requests@;
            let ghost looks = left@;
            let (mut req, poll) = match (self.match_requests.pop_front(), left.pop_front()) {
                (Some(req), Some(poll)) => (req, poll),
                _ => {
                    return (answers, None);
                },
            };
            assert(self.match_requests@ =~= requests.skip(1));
            assert(left@ =~= looks.skip(1));
            let found: Option<Found> = match scan_buffer(
                &req.matches,
                req.mode,
                self.buffer.as_slice(),
            ) {
                Ok(found) => found,
                Err(fault) => {
                    self.match_requests.push_front(req);
                    assert(self.match_requests@ =~= requests);
                    return (answers, Some(fault));
                },
            };
            match Self::conclude(&mut req, found, &mut self.buffer, eof, poll) {
                Some(outcome) => {
                    let answer: Answer = Answer { request: req, outcome };
                    proof {
                        assert(answers_view(answers@.push(answer)) =~= answers_view(answers@).push(
                            (answer.request, outcome_view(answer.outcome)),
                        ));
                    }
                    answers.push(answer);
                },
                None => {
                    // For the remaining requests, only look at the timers. We don't even care if
                    // they timed out.
                    poll_timers(&mut self.match_requests, left);
                    self.match_requests.push_front(req);
                    return (answers, None);
                },
            }
        }
        (answers, None)
    }

    /// Holds the requests in the queue against the output, and answers those that have an answer.
    /// Where a request cannot be held against the output, those before it are answered all the
    /// same.
    pub fn process_match_requests(&mut self, eof: bool, polls: VecDeque<TimerPoll>) -> (processed:
        Result<(), MatchFault>)
        requires
            polls@.len() == old(self).match_requests@.len(),
        ensures
            ({
                let p = pass(old(self).match_requests@, polls@, old(self).buffer@, eof);
                &&& match p.fault {
                    Some(index) => processed matches Err(MatchFault::Unsupported { index: i }) && i
                        == index,
                    None => processed == Ok::<(), MatchFault>(()),
                }
                &&& forall|i: int|
                    0 <= i < p.answers.len() ==> exists|
                        outcome: MatchOutcome,
                        sent: Result<(), MatchOutcome>,
                    |
                        {
                            &&& #[trigger] call_ensures(
                                oneshot::Sender::<MatchOutcome>::send,
                                ((#[trigger] p.answers[i]).0.response_tx, outcome),
                                sent,
                            )
                            &&& outcome_view(outcome) == p.answers[i].1
                        }
                &&& final(self).match_requests@ == p.queue
                &&& final(self).buffer@ == p.buffer
            }),
            final(self).input_requests == old(self).input_requests,
            final(self).exit_status_tx == old(self).exit_status_tx,
    {
        let (answers, fault) = self.settle_match_requests(eof, polls);
        let ghost settled = answers@;
        send_answers(answers);
        proof {
            let given = answers_view(settled);
            assert forall|i: int| 0 <= i < given.len() implies exists|
                outcome: MatchOutcome,
                sent: Result<(), MatchOutcome>,
            |
                {
                    &&& #[trigger] call_ensures(
                        oneshot::Sender::<MatchOutcome>::send,
                        ((#[trigger] given[i]).0.response_tx, outcome),
                        sent,
                    )
                    &&& outcome_view(outcome) == given[i].1
                } by {
                assert(given[i] == (settled[i].request, outcome_view(settled[i].outcome)));
            }
        }
        match fault {
            Some(fault) => Err(fault),
            None => Ok(()),
        }
    }

    /// Takes the result of a read, where `size` bytes were read already in this pass.
    pub fn read_output(&mut self, size: usize, chunk: Result<&[u8], io::Error>) -> (step: ReadStep)
        requires
            size <= old(self).buffer@.len(),
        ensures
            match chunk {
                Ok(bytes) => if bytes@.len() == 0 {
                    &&& step matches ReadStep::Failed(e) && io_kind(e) is UnexpectedEof
                    &&& final(self).buffer@ == old(self).buffer@
                } else {
                    &&& step matches ReadStep::Again(k) && k == size + bytes@.len() && k
                        <= final(self).buffer@.len()
                    &&& final(self).buffer@ == old(self).buffer@ + bytes@
                },
                Err(e) => {
                    &&& step == if io_would_block(e) {
                        ReadStep::Done(size)
                    } else {
                        ReadStep::Failed(e)
                    }
                    &&& final(self).buffer@ == old(self).buffer@
                },
            },
            final(self).input_requests == old(self).input_requests,
            final(self).match_requests == old(self).match_requests,
            final(self).exit_status_tx == old(self).exit_status_tx,
    {
        read_output(&mut self.buffer, size, chunk)
    }

    /// Keeps track of a new request, whose timer was to be started where it has one. Where that
    /// failed, the request is not kept: it is answered at once.
    pub fn admit_request(
        &mut self,
        request: MatchRequest,
        started: Option<Result<Timer, io::Error>>,
    ) -> (refused: Option<Answer>)
        requires
            started is Some <==> request.timeout is Inactive,
        ensures
            match started {
                Some(Ok(timer)) => refused is None && final(self).match_requests@
                    == old(self).match_requests@.push(request.with_timeout(Timeout::Active(timer))),
                Some(Err(e)) => {
                    &&& refused == Some(
                        Answer { request, outcome: Err::<(usize, Vec<u8>), _>(ExpectError::Io(e)) },
                    )
                    &&& final(self).match_requests@ == old(self).match_requests@
                },
                None => refused is None && final(self).match_requests@
                    == old(self).match_requests@.push(request),
            },
            final(self).buffer == old(self).buffer,
            final(self).input_requests == old(self).input_requests,
            final(self).exit_status_tx == old(self).exit_status_tx,
    {
        let mut request: MatchRequest = request;
        // Try to start the timeout on the new request
        match request.activate(started) {
            Err(e) => Some(Answer { request, outcome: Err(ExpectError::Io(e)) }),
            Ok(()) => {
                // Timeout started. Keep track of the request
                self.match_requests.push_back(request);
                None
            },
        }
    }

    /// Keeps track of a new request, or answers it with the error by which its timer could not be
    /// started.
    pub fn handle_new_request(
        &mut self,
        request: MatchRequest,
        started: Option<Result<Timer, io::Error>>,
    )
        requires
            started is Some <==> request.timeout is Inactive,
        ensures
            final(self).match_requests@ == (match started {
                Some(Ok(timer)) => old(self).match_requests@.push(
                    request.with_timeout(Timeout::Active(timer)),
                ),
                Some(Err(_)) => old(self).match_requests@,
                None => old(self).match_requests@.push(request),
            }),
            started matches Some(Err(e)) ==> exists|sent: Result<(), MatchOutcome>|
                call_ensures(
                    oneshot::Sender::<MatchOutcome>::send,
                    (request.response_tx, Err::<(usize, Vec<u8>), _>(ExpectError::Io(e))),
                    sent,
                ),
            final(self).buffer == old(self).buffer,
            final(self).input_requests == old(self).input_requests,
            final(self).exit_status_tx == old(self).exit_status_tx,
    {
        if let Some(answer) = self.admit_request(request, started) {
            answer.request.send_outcome(answer.outcome);
        }
    }

    /// Takes what a look at the channel of the input requests shows, and says whether to look
    /// again.
    pub fn get_input_requests(&mut self, event: ChannelEvent<InputRequest>) -> (again: bool)
        ensures
            match event {
                ChannelEvent::Item(req) => again && final(self).input_requests@
                    == old(self).input_requests@.push(req),
                ChannelEvent::Empty => !again && final(self).input_requests@
                    == old(self).input_requests@,
            },
            final(self).buffer == old(self).buffer,
            final(self).match_requests == old(self).match_requests,
            final(self).exit_status_tx == old(self).exit_status_tx,
    {
        match event {
            ChannelEvent::Item(req) => {
                self.input_requests.push_back(req);
                true
            },
            ChannelEvent::Empty => false,
        }
    }

    /// Takes what a look at the channel of the match requests shows, each request with the timer
    /// that was started for it, and says whether to look again.
    pub fn get_match_requests(
        &mut self,
        event: ChannelEvent<(MatchRequest, Option<Result<Timer, io::Error>>)>,
    ) -> (again: bool)
        requires
            event matches ChannelEvent::Item((request, started)) ==> (started is Some
                <==> request.timeout is Inactive),
        ensures
            match event {
                ChannelEvent::Item((request, started)) => {
                    &&& again
                    &&& final(self).match_requests@ == (match started {
                        Some(Ok(timer)) => old(self).match_requests@.push(
                            request.with_timeout(Timeout::Active(timer)),
                        ),
                        Some(Err(_)) => old(self).match_requests@,
                        None => old(self).match_requests@.push(request),
                    })
                    &&& started matches Some(Err(e)) ==> exists|sent: Result<(), MatchOutcome>|
                        call_ensures(
                            oneshot::Sender::<MatchOutcome>::send,
                            (request.response_tx, Err::<(usize, Vec<u8>), _>(ExpectError::Io(e))),
                            sent,
                        )
                },
                ChannelEvent::Empty => !again && final(self).match_requests@
                    == old(self).match_requests@,
            },
            final(self).buffer == old(self).buffer,
            final(self).input_requests == old(self).input_requests,
            final(self).exit_status_tx == old(self).exit_status_tx,
    {
        match event {
            ChannelEvent::Item((request, started)) => {
                self.handle_new_request(request, started);
                true
            },
            ChannelEvent::Empty => false,
        }
    }

    /// The input to write next in a pass, if there is any left.
    pub fn next_write(&self, pass: &InputPass) -> (bytes: Option<&[u8]>)
        requires
            input_state(self.input_requests@, *pass).valid(),
        ensures
            match bytes {
                Some(b) => self.input_requests@.len() > 0 && b@
                    == self.input_requests@[0].0@.skip(pass.size as int),
                None => self.input_requests@.len() == 0,
            },
    {
        pass.next_write(&self.input_requests)
    }

    /// Takes the result of a write of that input, and says whether to write on. The clients of the
    /// requests that the pass has written are told with `InputPass::acknowledge`.
    pub fn process_input_requests(
        &mut self,
        pass: &mut InputPass,
        written: Result<usize, io::Error>,
    ) -> (step: InputStep)
        requires
            input_state(old(self).input_requests@, *old(pass)).valid(),
            input_state(old(self).input_requests@, *old(pass)).admits(written),
        ensures
            input_state(final(self).input_requests@, *final(pass)) == input_state(
                old(self).input_requests@,
                *old(pass),
            ).after(written),
            input_state(final(self).input_requests@, *final(pass)).valid(),
            step == input_step(written),
            final(self).buffer == old(self).buffer,
            final(self).match_requests == old(self).match_requests,
            final(self).exit_status_tx == old(self).exit_status_tx,
    {
        pass.take_written(&mut self.input_requests, written)
    }

    /// Tells the client that the session is over, unless it was told already. Returns `false` if
    /// the client did not wait for that.
    pub fn exit(&mut self) -> (told: bool)
        ensures
            match old(self).exit_status_tx {
                Some(tx) => exists|sent: Result<(), ()>|
                    {
                        &&& #[trigger] call_ensures(
                            oneshot::Sender::<()>::send,
                            (tx, ()),
                            sent,
                        )
                        &&& told == (sent is Ok)
                    },
                None => told,
            },
            old(self).exit_status_tx is None ==> told,
            final(self).exit_status_tx is None,
            final(self).buffer == old(self).buffer,
            final(self).input_requests == old(self).input_requests,
            final(self).match_requests == old(self).match_requests,
    {
        match self.exit_status_tx.take() {
            Some(tx) => tx.send(()).is_ok(),
            None => true,
        }
    }
}

/// Sends each answer to the client that waits for it, in order.
fn send_answers(answers: Vec<Answer>)
    ensures
        forall|i: int|
            0 <= i < answers@.len() ==> exists|sent: Result<(), MatchOutcome>|
                call_ensures(
                    oneshot::Sender::<MatchOutcome>::send,
                    ((#[trigger] answers@[i]).request.response_tx, answers@[i].outcome),
                    sent,
                ),
{
    for answer in iter: answers
        invariant
            iter.seq() == answers@,
            forall|i: int|
                0 <= i < iter.index() ==> exists|sent: Result<(), MatchOutcome>|
                    call_ensures(
                        oneshot::Sender::<MatchOutcome>::send,
                        ((#[trigger] answers@[i]).request.response_tx, answers@[i].outcome),
                        sent,
                    ),
    {
        answer.request.send_outcome(answer.outcome);
    }
}

} // verus!
