//! Requests to wait for some output, and the requests to send some input.
use super::errors::ExpectError;
use super::matching::{
    find_buffer_match, fits, found_view, hit, scan_buffer, Found, Hit, Match, MatchFault, MatchMode,
};
use crate::outside::{outcome_channel, outcome_receiver};
use futures::sync::oneshot;
use std::io;
use std::time::Duration;
use tokio_core::reactor::Timeout as Timer;
use vstd::prelude::*;

verus! {

/// What a client is answered: the index of the pattern that matched along with the output that
/// precedes the match, or why there is none.
pub type MatchOutcome = Result<(usize, Vec<u8>), ExpectError>;

/// What a client is answered, as a value.
pub enum Outcome {
    Matched { index: nat, output: Seq<u8> },
    Eof,
    Timeout,
    Io(io::Error),
    ChanError,
}

/// The value of an answer.
pub open spec fn outcome_view(outcome: MatchOutcome) -> Outcome {
    match outcome {
        Ok((index, output)) => Outcome::Matched { index: index as nat, output: output@ },
        Err(ExpectError::Eof) => Outcome::Eof,
        Err(ExpectError::Timeout) => Outcome::Timeout,
        Err(ExpectError::Io(e)) => Outcome::Io(e),
        Err(ExpectError::ChanError) => Outcome::ChanError,
    }
}

/// Bytes to write to the process, and where to say that they are written.
#[derive(Debug)]
pub struct InputRequest(pub Vec<u8>, pub oneshot::Sender<()>);

/// How long a request waits for a match.
#[derive(Debug)]
pub enum Timeout {
    /// The time is known, but does not run yet.
    Inactive(Duration),
    /// The time runs.
    Active(Timer),
    /// The time is over.
    Finished,
    /// The request waits for ever.
    Never,
}

/// What a look at a running timer shows.
#[derive(Debug)]
pub enum TimerPoll {
    /// The time is over.
    Ready,
    /// The time still runs.
    NotReady,
    /// The timer does not work.
    Failed(io::Error),
}

impl Timeout {
    /// What is left of the timeout after a look at its timer. A timer that does not run is not
    /// looked at.
    pub open spec fn after(self, poll: TimerPoll) -> Timeout {
        match (self, poll) {
            (Timeout::Active(_), TimerPoll::Ready) => Timeout::Finished,
            _ => self,
        }
    }

    /// Whether the time is over, as far as a look at the timer shows it.
    pub open spec fn over(self, poll: TimerPoll) -> Result<bool, io::Error> {
        match (self, poll) {
            (Timeout::Active(_), TimerPoll::Ready) => Ok(true),
            (Timeout::Active(_), TimerPoll::NotReady) => Ok(false),
            (Timeout::Active(_), TimerPoll::Failed(e)) => Err(e),
            (Timeout::Finished, _) => Ok(true),
            _ => Ok(false),
        }
    }

    /// The time to start a timer for, where there is one to start.
    pub fn pending(&self) -> (duration: Option<Duration>)
        ensures
            duration == (match *self {
                Timeout::Inactive(d) => Some(d),
                _ => None,
            }),
    {
        match self {
            Timeout::Inactive(duration) => Some(*duration),
            _ => None,
        }
    }

    /// Goes from the time to wait to the timer that was started for it.
    pub fn activate(&mut self, started: Option<Result<Timer, io::Error>>) -> (activated: Result<
        (),
        io::Error,
    >)
        requires
            started is Some <==> *old(self) is Inactive,
        ensures
            match started {
                Some(Ok(timer)) => activated == Ok::<(), io::Error>(()) && *final(self)
                    == Timeout::Active(timer),
                Some(Err(e)) => activated == Err::<(), io::Error>(e) && *final(self) == *old(self),
                None => activated == Ok::<(), io::Error>(()) && *final(self) == *old(self),
            },
    {
        match started {
            Some(Ok(timer)) => {
                *self = Timeout::Active(timer);
                Ok(())
            },
            Some(Err(e)) => Err(e),
            None => Ok(()),
        }
    }

    /// Returns `true` if the time is over already, `false` otherwise.
    pub fn timed_out(&mut self, poll: TimerPoll) -> (over: Result<bool, io::Error>)
        ensures
            over == old(self).over(poll),
            *final(self) == old(self).after(poll),
    {
        match self {
            Timeout::Active(_) => match poll {
                TimerPoll::Ready => {},
                TimerPoll::NotReady => {
                    return Ok(false);
                },
                TimerPoll::Failed(e) => {
                    return Err(e);
                },
            },
            Timeout::Finished => {
                return Ok(true);
            },
            _ => {
                return Ok(false);
            },
        }
        *self = Timeout::Finished;
        Ok(true)
    }
}

impl vstd::std_specs::convert::FromSpecImpl<Option<Duration>> for Timeout {
    open spec fn obeys_from_spec() -> bool {
        true
    }

    open spec fn from_spec(duration: Option<Duration>) -> Timeout {
        match duration {
            Some(d) => Timeout::Inactive(d),
            None => Timeout::Never,
        }
    }
}

impl From<Option<Duration>> for Timeout {
    fn from(duration: Option<Duration>) -> (timeout: Timeout)
        ensures
            duration matches Some(d) ==> timeout == Timeout::Inactive(d),
            duration is None ==> timeout is Never,
    {
        match duration {
            Some(d) => Timeout::Inactive(d),
            None => Timeout::Never,
        }
    }
}

/// The index of the pattern at which a search cannot go on, if it comes to one.
pub open spec fn fault_of(h: Hit) -> Option<nat> {
    match h {
        Hit::Unsupported { index } => Some(index),
        _ => None,
    }
}

/// The index of the pattern that a fault names, if there is one.
pub open spec fn fault_view(fault: Option<MatchFault>) -> Option<nat> {
    match fault {
        Some(MatchFault::Unsupported { index }) => Some(index as nat),
        None => None,
    }
}

/// Removes from the output all that precedes `end`, and returns what precedes `start`: the match
/// itself is dropped.
pub fn extract_match(buffer: &mut Vec<u8>, start: usize, end: usize) -> (output: Vec<u8>)
    requires
        start <= end <= old(buffer)@.len(),
    ensures
        output@ == old(buffer)@.take(start as int),
        final(buffer)@ == old(buffer)@.skip(end as int),
{
    let rest: Vec<u8> = buffer.split_off(end);
    let _matched: Vec<u8> = buffer.split_off(start);
    let mut output: Vec<u8> = rest;
    std::mem::swap(&mut output, buffer);
    assert(output@ =~= old(buffer)@.take(start as int));
    assert(buffer@ =~= old(buffer)@.skip(end as int));
    output
}

/// Takes the match that a search has found out of the output.
pub fn take_match(found: Option<Found>, buffer: &mut Vec<u8>) -> (taken: Option<(usize, Vec<u8>)>)
    requires
        found matches Some((_, start, end)) ==> start <= end <= old(buffer)@.len(),
    ensures
        match found {
            Some((index, start, end)) => {
                &&& taken matches Some((i, output)) && i == index && output@
                    == old(buffer)@.take(start as int)
                &&& final(buffer)@ == old(buffer)@.skip(end as int)
            },
            None => taken is None && final(buffer)@ == old(buffer)@,
        },
{
    match found {
        Some((index, start, end)) => Some((index, extract_match(buffer, start, end))),
        None => None,
    }
}

/// The index of the first pattern that waits for a timeout.
pub open spec fn timeout_index(matches: Seq<Match>) -> Option<nat> {
    first_index(matches, |m: Match| m is Timeout)
}

/// The index of the first pattern that waits for EOF.
pub open spec fn eof_index(matches: Seq<Match>) -> Option<nat> {
    first_index(matches, |m: Match| m is Eof)
}

/// The smallest index of an item that meets a condition.
pub open spec fn first_index<A>(items: Seq<A>, wanted: spec_fn(A) -> bool) -> Option<nat>
    decreases items.len(),
{
    if items.len() == 0 {
        None
    } else if wanted(items[0]) {
        Some(0)
    } else {
        match first_index(items.skip(1), wanted) {
            Some(i) => Some(i + 1),
            None => None,
        }
    }
}

/// What `first_index` gives is an index, its item meets the condition, and none before it does.
pub proof fn lemma_first_index<A>(items: Seq<A>, wanted: spec_fn(A) -> bool)
    ensures
        match first_index(items, wanted) {
            Some(i) => {
                &&& i < items.len()
                &&& wanted(items[i as int])
                &&& forall|j: int| 0 <= j < i ==> !wanted(#[trigger] items[j])
            },
            None => forall|j: int| 0 <= j < items.len() ==> !wanted(#[trigger] items[j]),
        },
    decreases items.len(),
{
    if items.len() > 0 && !wanted(items[0]) {
        let rest = items.skip(1);
        lemma_first_index(rest, wanted);
        assert(forall|j: int| 0 < j < items.len() ==> #[trigger] items[j] == rest[j - 1]);
    }
}

/// The first index is the only one of its kind.
proof fn lemma_first_index_is<A>(items: Seq<A>, wanted: spec_fn(A) -> bool, i: nat)
    requires
        i < items.len(),
        wanted(items[i as int]),
        forall|j: int| 0 <= j < i ==> !wanted(#[trigger] items[j]),
    ensures
        first_index(items, wanted) == Some(i),
{
    lemma_first_index(items, wanted);
}

/// The position of the first pattern that waits for a timeout.
pub fn find_timeout(matches: &Vec<Match>) -> (index: Option<usize>)
    ensures
        timeout_index(matches@) == (match index {
            Some(i) => Some(i as nat),
            None => None,
        }),
        index matches Some(i) ==> i < matches@.len(),
{
    let ghost wanted = |m: Match| m is Timeout;
    let mut i: usize = 0;
    while i < matches.len()
        invariant
            i <= matches@.len(),
            wanted == (|m: Match| m is Timeout),
            forall|j: int| 0 <= j < i ==> !wanted(#[trigger] matches@[j]),
        decreases matches@.len() - i,
    {
        if let Match::Timeout = &matches[i] {
            proof {
                lemma_first_index_is(matches@, wanted, i as nat);
            }
            return Some(i);
        }
        i += 1;
    }
    proof {
        lemma_first_index(matches@, wanted);
    }
    None
}

/// The position of the first pattern that waits for EOF.
pub fn find_eof(matches: &Vec<Match>) -> (index: Option<usize>)
    ensures
        eof_index(matches@) == (match index {
            Some(i) => Some(i as nat),
            None => None,
        }),
        index matches Some(i) ==> i < matches@.len(),
{
    let ghost wanted = |m: Match| m is Eof;
    let mut i: usize = 0;
    while i < matches.len()
        invariant
            i <= matches@.len(),
            wanted == (|m: Match| m is Eof),
            forall|j: int| 0 <= j < i ==> !wanted(#[trigger] matches@[j]),
        decreases matches@.len() - i,
    {
        if let Match::Eof = &matches[i] {
            proof {
                lemma_first_index_is(matches@, wanted, i as nat);
            }
            return Some(i);
        }
        i += 1;
    }
    proof {
        lemma_first_index(matches@, wanted);
    }
    None
}

/// A request to wait for some output.
#[derive(Debug)]
pub struct MatchRequest {
    /// A list of potential matches. The matches are tried sequentially.
    pub matches: Vec<Match>,
    /// A channel used to transmit the matching results back to the expect handle.
    pub response_tx: oneshot::Sender<MatchOutcome>,
    /// Optional timeout for a match to be found.
    pub timeout: Timeout,
    /// How the output is cut before it is searched.
    pub mode: MatchMode,
}

impl MatchRequest {
    /// What a search of some output for the patterns of the request comes to.
    pub open spec fn hit(self, output: Seq<u8>) -> Hit {
        hit(self.matches@, self.mode, output)
    }

    /// The request with another timeout.
    pub open spec fn with_timeout(self, timeout: Timeout) -> MatchRequest {
        MatchRequest { timeout, ..self }
    }

    /// Starts the timeout of the request, effectively "activating" it.
    pub fn activate(&mut self, started: Option<Result<Timer, io::Error>>) -> (activated: Result<
        (),
        io::Error,
    >)
        requires
            started is Some <==> old(self).timeout is Inactive,
        ensures
            match started {
                Some(Ok(timer)) => activated == Ok::<(), io::Error>(()) && *final(self)
                    == old(self).with_timeout(Timeout::Active(timer)),
                Some(Err(e)) => activated == Err::<(), io::Error>(e) && *final(self) == *old(self),
                None => activated == Ok::<(), io::Error>(()) && *final(self) == *old(self),
            },
    {
        self.timeout.activate(started)
    }

    /// Returns `true` if the request timed out already, `false` otherwise.
    pub fn timed_out(&mut self, poll: TimerPoll) -> (over: Result<bool, io::Error>)
        ensures
            over == old(self).timeout.over(poll),
            *final(self) == old(self).with_timeout(old(self).timeout.after(poll)),
    {
        self.timeout.timed_out(poll)
    }

    /// Looks for a match in the output.
    pub fn find_buffer_match(&self, buffer: &[u8]) -> (found: Option<Found>)
        requires
            fault_of(self.hit(buffer@)) is None,
        ensures
            found_view(found) == self.hit(buffer@),
            fits(found, self.matches@.len(), buffer@.len()),
    {
        find_buffer_match(&self.matches, self.mode, buffer)
    }

    /// Looks for a match in the output and takes it out: all up to the end of the match leaves the
    /// output, and what precedes the match is returned along with the index of the pattern.
    pub fn match_buffer(&self, buffer: &mut Vec<u8>) -> (found: Option<(usize, Vec<u8>)>)
        requires
            fault_of(self.hit(old(buffer)@)) is None,
        ensures
            match self.hit(old(buffer)@) {
                Hit::Found { index, start, end } => {
                    &&& start <= end <= old(buffer)@.len()
                    &&& found matches Some((i, output)) && i == index && i < self.matches@.len()
                        && output@ == old(buffer)@.take(start as int)
                    &&& final(buffer)@ == old(buffer)@.skip(end as int)
                },
                _ => found is None && final(buffer)@ == old(buffer)@,
            },
    {
        let found: Option<Found> = self.find_buffer_match(buffer.as_slice());
        take_match(found, buffer)
    }

    /// As `match_buffer`, for any patterns. Where the search comes to a pattern for which there is
    /// none, the output is left as it is.
    pub fn try_match_buffer(&self, buffer: &mut Vec<u8>) -> (found: Result<
        Option<(usize, Vec<u8>)>,
        MatchFault,
    >)
        ensures
            match self.hit(old(buffer)@) {
                Hit::Unsupported { index } => {
                    &&& found matches Err(MatchFault::Unsupported { index: i }) && i == index
                    &&& final(buffer)@ == old(buffer)@
                },
                Hit::Found { index, start, end } => {
                    &&& start <= end <= old(buffer)@.len()
                    &&& found matches Ok(Some((i, output))) && i == index && i
                        < self.matches@.len() && output@ == old(buffer)@.take(start as int)
                    &&& final(buffer)@ == old(buffer)@.skip(end as int)
                },
                Hit::NotFound => {
                    &&& found == Ok::<Option<(usize, Vec<u8>)>, MatchFault>(None)
                    &&& final(buffer)@ == old(buffer)@
                },
            },
    {
        match scan_buffer(&self.matches, self.mode, buffer.as_slice()) {
            Err(fault) => Err(fault),
            Ok(_) => Ok(self.match_buffer(buffer)),
        }
    }

    /// The position of the first pattern that waits for a timeout.
    pub fn get_timeout_match_index(&self) -> (index: Option<usize>)
        ensures
            timeout_index(self.matches@) == (match index {
                Some(i) => Some(i as nat),
                None => None,
            }),
            index matches Some(i) ==> i < self.matches@.len(),
    {
        find_timeout(&self.matches)
    }

    /// The position of the first pattern that waits for EOF.
    pub fn get_eof_match_index(&self) -> (index: Option<usize>)
        ensures
            eof_index(self.matches@) == (match index {
                Some(i) => Some(i as nat),
                None => None,
            }),
            index matches Some(i) ==> i < self.matches@.len(),
    {
        find_eof(&self.matches)
    }

    /// Answers the request: the outcome is what is handed to its channel. If the client is gone, it
    /// does not care about the answer anyway.
    pub fn send_outcome(self, outcome: MatchOutcome)
        ensures
            exists|sent: Result<(), MatchOutcome>|
                call_ensures(
                    oneshot::Sender::<MatchOutcome>::send,
                    (self.response_tx, outcome),
                    sent,
                ),
    {
        let _sent: Result<(), MatchOutcome> = self.response_tx.send(outcome);
    }
}

/// Builds a request, and keeps the end of the channel on which it is answered.
pub struct MatchRequestBuilder(pub MatchRequest, pub oneshot::Receiver<MatchOutcome>);

impl MatchRequestBuilder {
    /// A request that waits for nothing, line by line and for ever.
    pub fn new() -> (builder: Self)
        ensures
            builder.0.matches@ == Seq::<Match>::empty(),
            builder.0.timeout == Timeout::Never,
            builder.0.mode == MatchMode::Line,
            builder.1 == outcome_receiver(builder.0.response_tx),
    {
        let (response_tx, response_rx) = outcome_channel();
        let request: MatchRequest = MatchRequest {
            matches: Vec::new(),
            response_tx,
            timeout: Timeout::Never,
            mode: MatchMode::Line,
        };
        MatchRequestBuilder(request, response_rx)
    }

    /// Sets the mode.
    pub fn set_mode(self, mode: MatchMode) -> (builder: Self)
        ensures
            builder.0 == (MatchRequest { mode, ..self.0 }),
            builder.1 == self.1,
    {
        let MatchRequestBuilder(mut request, response_rx) = self;
        request.mode = mode;
        MatchRequestBuilder(request, response_rx)
    }

    /// Sets or removes the timeout.
    pub fn set_opt_timeout(self, timeout: Option<Duration>) -> (builder: Self)
        ensures
            builder.0 == self.0.with_timeout(
                match timeout {
                    Some(duration) => Timeout::Inactive(duration),
                    None => Timeout::Never,
                },
            ),
            builder.1 == self.1,
    {
        match timeout {
            Some(duration) => self.set_timeout(duration),
            None => self.unset_timeout(),
        }
    }

    /// Makes the request match against lines.
    pub fn set_line_mode(self) -> (builder: Self)
        ensures
            builder.0 == (MatchRequest { mode: MatchMode::Line, ..self.0 }),
            builder.1 == self.1,
    {
        self.set_mode(MatchMode::Line)
    }

    /// Makes the request match against the output as a whole.
    pub fn set_raw_mode(self) -> (builder: Self)
        ensures
            builder.0 == (MatchRequest { mode: MatchMode::Raw, ..self.0 }),
            builder.1 == self.1,
    {
        self.set_mode(MatchMode::Raw)
    }

    /// Sets the time that the request waits.
    pub fn set_timeout(self, duration: Duration) -> (builder: Self)
        ensures
            builder.0 == self.0.with_timeout(Timeout::Inactive(duration)),
            builder.1 == self.1,
    {
        let MatchRequestBuilder(mut request, response_rx) = self;
        request.timeout = Timeout::Inactive(duration);
        MatchRequestBuilder(request, response_rx)
    }

    /// Makes the request wait for ever.
    pub fn unset_timeout(self) -> (builder: Self)
        ensures
            builder.0 == self.0.with_timeout(Timeout::Never),
            builder.1 == self.1,
    {
        let MatchRequestBuilder(mut request, response_rx) = self;
        request.timeout = Timeout::Never;
        MatchRequestBuilder(request, response_rx)
    }

    /// Sets the patterns that the request waits for.
    pub fn set_matches(self, matches: Vec<Match>) -> (builder: Self)
        ensures
            builder.0 == (MatchRequest { matches, ..self.0 }),
            builder.1 == self.1,
    {
        let MatchRequestBuilder(mut request, response_rx) = self;
        request.matches = matches;
        MatchRequestBuilder(request, response_rx)
    }

    /// Gives the request and the end of the channel on which it is answered.
    pub fn build(self) -> (built: (MatchRequest, oneshot::Receiver<MatchOutcome>))
        ensures
            built.0 == self.0,
            built.1 == self.1,
    {
        (self.0, self.1)
    }
}

} // verus!
