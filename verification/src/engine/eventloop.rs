//! The handle of the event loop that runs the sessions.
use super::client::Reply;
use super::errors::{InitError, SpawnError};
use futures::sync::oneshot;
use std::io;
use vstd::prelude::*;

verus! {

/// What holds the event loop: the channels by which it is ended.
#[derive(Debug)]
pub struct ExpectHandle {
    /// Channel to send a shutdown signal to the event loop
    pub shutdown_tx: Option<oneshot::Sender<()>>,
    /// Channel to receive the end of the event loop
    pub exit_rx: Option<oneshot::Receiver<()>>,
}

impl ExpectHandle {
    /// Whether the event loop can still be asked to end.
    pub open spec fn running(self) -> bool {
        self.shutdown_tx is Some && self.exit_rx is Some
    }

    /// The handle of an event loop that runs.
    pub fn new(shutdown_tx: oneshot::Sender<()>, exit_rx: oneshot::Receiver<()>) -> (handle: Self)
        ensures
            handle.shutdown_tx == Some(shutdown_tx),
            handle.exit_rx == Some(exit_rx),
            handle.running(),
    {
        ExpectHandle { shutdown_tx: Some(shutdown_tx), exit_rx: Some(exit_rx) }
    }

    /// Asks the event loop to end. Returns the channel on which its end is to be waited for, unless
    /// it has ended already.
    pub fn close(&mut self) -> (exit_rx: Option<oneshot::Receiver<()>>)
        requires
            old(self).running(),
        ensures
            final(self).shutdown_tx is None,
            match exit_rx {
                Some(rx) => old(self).exit_rx == Some(rx) && final(self).exit_rx is None,
                None => final(self).exit_rx == old(self).exit_rx,
            },
            old(self).shutdown_tx matches Some(tx) ==> exists|sent: Result<(), ()>|
                {
                    &&& #[trigger] call_ensures(oneshot::Sender::<()>::send, (tx, ()), sent)
                    &&& exit_rx is Some <==> sent is Ok
                },
    {
        match self.shutdown_tx.take() {
            Some(shutdown_tx) => {
                let sent: Result<(), ()> = shutdown_tx.send(());
                self.closed(sent)
            },
            None => None,
        }
    }

    /// Takes what became of the signal that asks the event loop to end. Where it could be sent, the
    /// end of the event loop is to be waited for on the channel that is returned; where it could
    /// not, the event loop has ended already.
    pub fn closed(&mut self, sent: Result<(), ()>) -> (exit_rx: Option<oneshot::Receiver<()>>)
        requires
            old(self).shutdown_tx is None,
            sent is Ok ==> old(self).exit_rx is Some,
        ensures
            final(self).shutdown_tx is None,
            match sent {
                Ok(()) => exit_rx == old(self).exit_rx && final(self).exit_rx is None,
                Err(()) => exit_rx is None && *final(self) == *old(self),
            },
    {
        match sent {
            Ok(()) => self.exit_rx.take(),
            Err(()) => None,
        }
    }
}

/// Whether the event loop runs: the thread may not have been started, and where it was, it may not
/// have been able to start the event loop.
pub fn init_result(worker: Result<Result<(), io::Error>, io::Error>) -> (result: Result<
    (),
    InitError,
>)
    ensures
        result == (match worker {
            Ok(Ok(())) => Ok::<(), InitError>(()),
            Ok(Err(e)) => Err(InitError::Reactor(e)),
            Err(e) => Err(InitError::SpawnWorker(e)),
        }),
{
    match worker {
        Ok(Ok(())) => Ok(()),
        Ok(Err(e)) => Err(InitError::Reactor(e)),
        Err(e) => Err(InitError::SpawnWorker(e)),
    }
}

/// Whether a process runs: there may have been no terminal for it, and where there was one, the
/// process may not have been started.
pub fn spawn_result<C>(child: Result<Result<C, io::Error>, io::Error>) -> (result: Result<
    C,
    SpawnError,
>)
    ensures
        result == (match child {
            Ok(Ok(c)) => Ok::<C, SpawnError>(c),
            Ok(Err(e)) => Err(SpawnError::SpawnCommand(e)),
            Err(e) => Err(SpawnError::Pty(e)),
        }),
{
    match child {
        Ok(Ok(c)) => Ok(c),
        Ok(Err(e)) => Err(SpawnError::SpawnCommand(e)),
        Err(e) => Err(SpawnError::Pty(e)),
    }
}

/// What the event loop has answered to a request to spawn a process. The event loop answers every
/// request that it takes.
pub fn spawned<C>(reply: Reply<Result<C, SpawnError>>) -> (result: Result<C, SpawnError>)
    requires
        !(reply is Dropped),
    ensures
        result == (match reply {
            Reply::Answered(answer) => answer,
            _ => Err::<C, SpawnError>(SpawnError::NoEventLoop),
        }),
{
    match reply {
        Reply::Answered(answer) => answer,
        _ => Err(SpawnError::NoEventLoop),
    }
}

} // verus!
