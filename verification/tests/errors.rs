use expect::engine::errors::{join_cause, message, ExpectError, InitError, SendError, SpawnError};
use expect::worker;
use std::io;

const CHANNEL: &str =
    "failed to share data between the expect session running in the event loop and the client";

fn cause() -> io::Error {
    io::Error::new(io::ErrorKind::Other, "no more files")
}

#[test]
fn a_cause_follows_a_colon() {
    assert_eq!(join_cause("it failed", "no luck"), "it failed: no luck");
    assert_eq!(message("it failed", None), "it failed");
    assert_eq!(message("it failed", Some(&cause())), "it failed: no more files");
}

#[test]
fn init_errors() {
    let e = InitError::Reactor(cause());
    assert_eq!(e.description(), "failed to start the event loop");
    assert_eq!(e.message(), "failed to start the event loop: no more files");
    let e = InitError::SpawnWorker(cause());
    assert_eq!(e.description(), "failed to spawn an expect thread");
    assert_eq!(e.cause().unwrap().to_string(), "no more files");
}

#[test]
fn send_errors() {
    assert_eq!(SendError::ChanError.description(), CHANNEL);
    assert_eq!(SendError::ChanError.message(), CHANNEL);
    assert!(SendError::ChanError.cause().is_none());
}

#[test]
fn expect_errors() {
    assert_eq!(ExpectError::Eof.message(), "met unexpected EOF while reading output");
    assert_eq!(ExpectError::Timeout.message(), "timeout while trying to find matches output");
    assert_eq!(ExpectError::ChanError.message(), CHANNEL);
    assert_eq!(ExpectError::Io(cause()).message(), "internal IO error: no more files");
    assert!(ExpectError::Io(cause()).cause().is_some());
    assert!(ExpectError::Eof.cause().is_none());
}

#[test]
fn spawn_errors() {
    assert_eq!(SpawnError::Pty(cause()).message(), "failed to spawn a pty: no more files");
    assert_eq!(
        SpawnError::SpawnCommand(cause()).message(),
        "failed to spawn the command: no more files"
    );
    assert_eq!(
        SpawnError::NoEventLoop.message(),
        "failed to send the spawn request to the event loop"
    );
    assert!(SpawnError::NoEventLoop.cause().is_none());
}

#[test]
fn client_errors() {
    let e = expect::ExpectError::Internal("x".to_string());
    assert_eq!(e.message(), "an internal error occured");
    assert_eq!(expect::ExpectError::Eof.message(), "EOF while reading process output");
    assert_eq!(expect::ExpectError::Timeout.message(), "time out while trying to find a match");
    assert!(e.cause().is_none());
}

#[test]
fn errors_of_a_worker() {
    let e = worker::InitError::Reactor(cause());
    assert_eq!(e.message(), "failed to start the event loop: no more files");
    let e = worker::InitError::Pty(cause());
    assert_eq!(e.message(), "failed to spawn a pty: no more files");
    let e = worker::InitError::SpawnCommand(cause());
    assert_eq!(e.message(), "failed to spawn the command: no more files");
    let e = worker::InitError::SpawnWorker(cause());
    assert_eq!(e.message(), "failed to spawn an expect thread: no more files");
    assert_eq!(worker::ExpectError::Eof.message(), "met unexpected EOF while reading output");
    let text = "timeout while trying to find matches output";
    assert_eq!(worker::ExpectError::Timeout.message(), text);
    assert!(worker::ExpectError::Timeout.cause().is_none());
}

#[test]
fn internal_errors_of_a_worker() {
    let e = worker::InternalError::SpawnTimeout(cause());
    assert_eq!(e.message(), "failed to start a match request timeout future: no more files");
    let e = worker::InternalError::ReadOutput(cause());
    assert_eq!(e.message(), "failed to read output from the pty: no more files");
    let e = worker::InternalError::NoEventLoop;
    assert_eq!(e.message(), "the expect session already errored out");
    let e = worker::InternalError::ChanError;
    assert_eq!(
        e.message(),
        "failed to send or receive data via a channel, probably because one end got dropped"
    );
    assert!(e.cause().is_none());
}
