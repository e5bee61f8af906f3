//! The end of a session that its client holds.
use super::errors::{ExpectError, SendError};
use super::match_request::{InputRequest, MatchOutcome, MatchRequest, MatchRequestBuilder};
use crate::outside::{ack_channel, ack_receiver};
use futures::sync::oneshot;
use vstd::prelude::*;

verus! {

/// What became of a request to the event loop.
pub enum Reply<T> {
    /// The request could not be handed over.
    Refused,
    /// The request was handed over, but its answer will never come.
    Dropped,
    /// The answer.
    Answered(T),
}

/// What a client holds of its session besides the channels for its requests.
#[derive(Debug)]
pub struct Client {
    /// Channel to send a shutdown signal to the expect session
    pub shutdown_tx: Option<oneshot::Sender<()>>,
    /// Channel to receive the exit status from the expect session.
    pub exit_status_rx: Option<oneshot::Receiver<()>>,
}

impl Client {
    /// The exit status is waited for only after the signal was sent: as long as the one channel is
    /// there, so is the other.
    pub open spec fn valid(self) -> bool {
        self.shutdown_tx is Some ==> self.exit_status_rx is Some
    }

    /// A client of a session that runs.
    pub fn new(shutdown_tx: oneshot::Sender<()>, exit_status_rx: oneshot::Receiver<()>) -> (client:
        Self)
        ensures
            client.shutdown_tx == Some(shutdown_tx),
            client.exit_status_rx == Some(exit_status_rx),
            client.valid(),
    {
        Client { shutdown_tx: Some(shutdown_tx), exit_status_rx: Some(exit_status_rx) }
    }

    /// A request to send some bytes, and the channel on which it is acknowledged.
    pub fn send(&mut self, bytes: Vec<u8>) -> (request: (InputRequest, oneshot::Receiver<()>))
        ensures
            request.0.0 == bytes,
            request.1 == ack_receiver(request.0.1),
            *final(self) == *old(self),
    {
        let (response_tx, response_rx) = ack_channel();
        (InputRequest(bytes, response_tx), response_rx)
    }

    /// What a client is told of the bytes that it has sent.
    pub fn sent(reply: Reply<()>) -> (result: Result<(), SendError>)
        ensures
            result == (match reply {
                Reply::Answered(()) => Ok::<(), SendError>(()),
                _ => Err(SendError::ChanError),
            }),
    {
        match reply {
            Reply::Answered(()) => Ok(()),
            _ => Err(SendError::ChanError),
        }
    }

    /// A request to wait for some output, and the channel on which it is answered.
    pub fn expect(&mut self, builder: MatchRequestBuilder) -> (request: (
        MatchRequest,
        oneshot::Receiver<MatchOutcome>,
    ))
        ensures
            request.0 == builder.0,
            request.1 == builder.1,
            *final(self) == *old(self),
    {
        builder.build()
    }

    /// What a client is told of the output that it has waited for.
    pub fn expected(reply: Reply<MatchOutcome>) -> (result: MatchOutcome)
        ensures
            result == (match reply {
                Reply::Answered(outcome) => outcome,
                _ => Err::<(usize, Vec<u8>), ExpectError>(ExpectError::ChanError),
            }),
    {
        match reply {
            Reply::Answered(outcome) => outcome,
            _ => Err(ExpectError::ChanError),
        }
    }

    /// Asks the session to end, unless it was asked already. Returns the channel on which the end
    /// of the session is to be waited for, if it is. To close a client again changes nothing and
    /// waits for nothing.
    pub fn close(&mut self) -> (exit_status_rx: Option<oneshot::Receiver<()>>)
        requires
            old(self).valid(),
        ensures
            final(self).valid(),
            final(self).shutdown_tx is None,
            old(self).shutdown_tx is None ==> exit_status_rx is None && *final(self) == *old(self),
            match exit_status_rx {
                Some(rx) => {
                    &&& old(self).shutdown_tx is Some
                    &&& old(self).exit_status_rx == Some(rx)
                    &&& final(self).exit_status_rx is None
                },
                None => final(self).exit_status_rx == old(self).exit_status_rx,
            },
            old(self).shutdown_tx matches Some(tx) ==> exists|sent: Result<(), ()>|
                {
                    &&& #[trigger] call_ensures(oneshot::Sender::<()>::send, (tx, ()), sent)
                    &&& exit_status_rx is Some <==> sent is Ok
                },
    {
        match self.shutdown_tx.take() {
            Some(shutdown_tx) => {
                let sent: Result<(), ()> = shutdown_tx.send(());
                self.closed(sent)
            },
            None => None,
        }
    }

    /// Takes what became of the signal that asks the session to end. Where it could be sent, the
    /// end of the session is to be waited for on the channel that is returned; where it could not,
    /// the session has ended already.
    pub fn closed(&mut self, sent: Result<(), ()>) -> (exit_status_rx: Option<
        oneshot::Receiver<()>,
    >)
        requires
            old(self).shutdown_tx is None,
            sent is Ok ==> old(self).exit_status_rx is Some,
        ensures
            final(self).shutdown_tx is None,
            match sent {
                Ok(()) => {
                    &&& exit_status_rx == old(self).exit_status_rx
                    &&& final(self).exit_status_rx is None
                },
                Err(()) => exit_status_rx is None && *final(self) == *old(self),
            },
    {
        match sent {
            Ok(()) => self.exit_status_rx.take(),
            Err(()) => None,
        }
    }
}

} // verus!
