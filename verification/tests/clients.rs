use expect::client::{expected, single, Client, ExpectError, DEFAULT_TIMEOUT_MILLIS};
use expect::engine::client::{Client as SessionClient, Reply};
use expect::engine::errors::{ExpectError as SessionError, SendError};
use expect::engine::eventloop::{init_result, spawn_result, spawned, ExpectHandle};
use expect::engine::match_request::{MatchRequestBuilder, Timeout, TimerPoll};
use expect::engine::matching::{Match, MatchMode};
use expect::engine::session::Session;
use expect::{InitError, SpawnError};
use futures::sync::oneshot;
use regex::Regex;
use std::io;
use std::time::Duration;

fn failure() -> io::Error {
    io::Error::from(io::ErrorKind::Other)
}

fn session_client() -> (SessionClient, oneshot::Receiver<()>, oneshot::Sender<()>) {
    let (shutdown_tx, shutdown_rx) = oneshot::channel::<()>();
    let (exit_tx, exit_rx) = oneshot::channel::<()>();
    (SessionClient::new(shutdown_tx, exit_rx), shutdown_rx, exit_tx)
}

fn client() -> Client {
    Client::from(session_client().0)
}

#[test]
fn a_client_matches_lines_for_ten_seconds() {
    let client = client();
    assert_eq!(client.mode, MatchMode::Line);
    assert_eq!(client.timeout, Some(Duration::from_secs(10)));
    assert_eq!(DEFAULT_TIMEOUT_MILLIS, 10_000);
}

#[test]
fn bytes_are_sent_as_they_are() {
    let (request, _rx) = client().send_bytes(vec![0, 255, 10]);
    assert_eq!(request.0, [0, 255, 10]);
}

#[test]
fn a_string_is_sent_as_utf8() {
    let (request, _rx) = client().send("é");
    assert_eq!(request.0, [0xc3, 0xa9]);
}

#[test]
fn a_line_ends_with_a_newline() {
    let (request, _rx) = client().send_line("whoami".to_string());
    assert_eq!(request.0, b"whoami\n");
    let (request, _rx) = client().send_line(String::new());
    assert_eq!(request.0, b"\n");
}

#[test]
fn input_is_acknowledged_on_its_channel() {
    let (request, mut rx) = client().send("x");
    assert_eq!(request.1.send(()), Ok(()));
    assert_eq!(rx.try_recv(), Ok(Some(())));
}

#[test]
fn requests_take_the_settings_of_the_client() {
    let mut client = client();
    client.set_raw_mode();
    client.set_timeout(Some(Duration::from_millis(500)));
    let (request, _rx) = client.match_string("$".to_string());
    assert!(request.matches == vec![Match::Utf8("$".to_string())]);
    assert_eq!(request.mode, MatchMode::Raw);
    assert_eq!(request.timeout.pending(), Some(Duration::from_millis(500)));
    client.set_line_mode();
    client.set_timeout(None);
    let (request, _rx) = client.match_eof();
    assert!(request.matches == vec![Match::Eof]);
    assert_eq!(request.mode, MatchMode::Line);
    assert!(matches!(request.timeout, Timeout::Never));
}

#[test]
fn a_client_asks_for_a_regular_expression() {
    let (request, _rx) = client().match_regex(Regex::new("[#$] ").unwrap());
    assert!(request.matches == vec![Match::Regex(Regex::new("[#$] ").unwrap())]);
    assert_eq!(request.timeout.pending(), Some(Duration::from_secs(10)));
}

#[test]
fn a_client_waits_for_the_time_it_is_given() {
    let mut client = client();
    let (request, _rx) = client.match_timeout(Duration::from_millis(5000));
    assert!(request.matches == vec![Match::Timeout]);
    assert_eq!(request.timeout.pending(), Some(Duration::from_millis(5000)));
    // The time of the other requests stays what it was.
    assert_eq!(client.timeout, Some(Duration::from_secs(10)));
}

#[test]
fn a_client_asks_for_several_patterns() {
    let matches = vec![Match::Utf8(">>>".to_string()), Match::Timeout, Match::Eof];
    let (request, _rx) = client().expect(matches.clone());
    assert!(request.matches == matches);
}

#[test]
fn a_client_prepares_a_request() {
    let (request, _rx) = client().get_request().build();
    assert!(request.matches.is_empty());
    assert_eq!(request.mode, MatchMode::Line);
    assert_eq!(request.timeout.pending(), Some(Duration::from_secs(10)));
}

#[test]
fn a_client_gets_text() {
    assert_eq!(expected(Ok((1, b"out".to_vec()))).unwrap(), (1, "out".to_string()));
    assert_eq!(expected(Ok((0, b"\xffx".to_vec()))).unwrap(), (0, "\u{fffd}x".to_string()));
}

#[test]
fn errors_keep_their_kind() {
    assert!(expected(Err(SessionError::Eof)).unwrap_err().is_eof());
    assert!(expected(Err(SessionError::Timeout)).unwrap_err().is_timeout());
    assert!(expected(Err(SessionError::ChanError)).unwrap_err().is_internal());
    assert!(expected(Err(SessionError::Io(failure()))).unwrap_err().is_internal());
}

#[test]
fn an_error_is_of_one_kind() {
    let e = ExpectError::Eof;
    assert_eq!((e.is_eof(), e.is_timeout(), e.is_internal()), (true, false, false));
    let e = ExpectError::Timeout;
    assert_eq!((e.is_eof(), e.is_timeout(), e.is_internal()), (false, true, false));
    let e = ExpectError::Internal(String::new());
    assert_eq!((e.is_eof(), e.is_timeout(), e.is_internal()), (false, false, true));
}

#[test]
fn an_internal_error_tells_its_cause() {
    let error = ExpectError::from(SessionError::ChanError);
    let text = "Internal error: failed to share data between the expect session running in the \
                event loop and the client";
    assert!(matches!(error, ExpectError::Internal(t) if t == text));
    let cause = io::Error::new(io::ErrorKind::Other, "no clock");
    let error = ExpectError::from(SessionError::Io(cause));
    let text = "Internal error: internal IO error: no clock";
    assert!(matches!(error, ExpectError::Internal(t) if t == text));
}

#[test]
fn one_pattern_gives_its_output() {
    assert_eq!(single(Ok((0, "out".to_string()))).unwrap(), "out");
    assert!(single(Err(ExpectError::Eof)).unwrap_err().is_eof());
}

#[test]
fn one_pattern_is_answered_with_the_first_index() {
    let (mut request, _rx) = client().match_string("$".to_string());
    let mut buffer = b"out $".to_vec();
    let outcome = Session::find_match(&mut request, &mut buffer, false, TimerPoll::NotReady);
    assert_eq!(single(expected(outcome.unwrap())).unwrap(), "out ");
}

#[test]
fn a_client_gets_the_text_before_a_string_in_any_output() {
    let (mut request, _rx) = client().match_string("a".to_string());
    let mut buffer = b"\xffa".to_vec();
    let outcome = Session::find_match(&mut request, &mut buffer, false, TimerPoll::NotReady);
    assert_eq!(single(expected(outcome.unwrap())).unwrap(), "\u{fffd}");
    assert!(buffer.is_empty());
}

#[test]
fn a_session_that_is_gone_is_told() {
    assert_eq!(SessionClient::sent(Reply::Answered(())), Ok(()));
    assert_eq!(SessionClient::sent(Reply::Refused), Err(SendError::ChanError));
    assert_eq!(SessionClient::sent(Reply::Dropped), Err(SendError::ChanError));
    let answer = SessionClient::expected(Reply::Answered(Ok((2, vec![1]))));
    assert_eq!(answer.unwrap(), (2, vec![1]));
    let refused = SessionClient::expected(Reply::Refused);
    assert!(matches!(refused, Err(SessionError::ChanError)));
    let dropped = SessionClient::expected(Reply::Dropped);
    assert!(matches!(dropped, Err(SessionError::ChanError)));
}

#[test]
fn a_request_is_handed_over_as_it_is_built() {
    let (mut client, _shutdown_rx, _exit_tx) = session_client();
    let builder = MatchRequestBuilder::new().set_raw_mode().set_matches(vec![Match::Eof]);
    let (request, mut rx) = client.expect(builder);
    assert!(request.matches == vec![Match::Eof]);
    assert_eq!(request.mode, MatchMode::Raw);
    request.send_outcome(Ok((0, Vec::new())));
    assert!(rx.try_recv().unwrap().is_some());
}

#[test]
fn a_client_is_closed_once() {
    let (mut client, mut shutdown_rx, exit_tx) = session_client();
    let mut exit_rx = client.close().unwrap();
    assert_eq!(shutdown_rx.try_recv(), Ok(Some(())));
    assert_eq!(exit_tx.send(()), Ok(()));
    assert_eq!(exit_rx.try_recv(), Ok(Some(())));
    assert!(client.close().is_none());
}

#[test]
fn the_end_of_a_session_that_is_gone_is_not_waited_for() {
    let (mut client, shutdown_rx, _exit_tx) = session_client();
    drop(shutdown_rx);
    assert!(client.close().is_none());
    assert!(client.shutdown_tx.is_none());
    assert!(client.exit_status_rx.is_some());
}

#[test]
fn a_client_waits_where_the_signal_was_sent() {
    let (mut client, _shutdown_rx, _exit_tx) = session_client();
    client.shutdown_tx = None;
    assert!(client.closed(Err(())).is_none());
    assert!(client.exit_status_rx.is_some());
    assert!(client.closed(Ok(())).is_some());
    assert!(client.exit_status_rx.is_none());
}

#[test]
fn an_event_loop_is_waited_for_where_the_signal_was_sent() {
    let (shutdown_tx, _shutdown_rx) = oneshot::channel::<()>();
    let (_exit_tx, exit_rx) = oneshot::channel::<()>();
    let mut handle = ExpectHandle::new(shutdown_tx, exit_rx);
    handle.shutdown_tx = None;
    assert!(handle.closed(Err(())).is_none());
    assert!(handle.exit_rx.is_some());
    assert!(handle.closed(Ok(())).is_some());
    assert!(handle.exit_rx.is_none());
}

#[test]
fn an_event_loop_is_ended() {
    let (shutdown_tx, mut shutdown_rx) = oneshot::channel::<()>();
    let (_exit_tx, exit_rx) = oneshot::channel::<()>();
    let mut handle = ExpectHandle::new(shutdown_tx, exit_rx);
    assert!(handle.close().is_some());
    assert_eq!(shutdown_rx.try_recv(), Ok(Some(())));
    assert!(handle.exit_rx.is_none());
}

#[test]
fn an_event_loop_that_is_gone_is_not_waited_for() {
    let (shutdown_tx, shutdown_rx) = oneshot::channel::<()>();
    let (_exit_tx, exit_rx) = oneshot::channel::<()>();
    drop(shutdown_rx);
    let mut handle = ExpectHandle::new(shutdown_tx, exit_rx);
    assert!(handle.close().is_none());
    assert!(handle.shutdown_tx.is_none());
}

#[test]
fn an_event_loop_may_not_start() {
    assert!(init_result(Ok(Ok(()))).is_ok());
    assert!(matches!(init_result(Ok(Err(failure()))), Err(InitError::Reactor(_))));
    assert!(matches!(init_result(Err(failure())), Err(InitError::SpawnWorker(_))));
}

#[test]
fn a_process_may_not_start() {
    assert_eq!(spawn_result(Ok(Ok(7))).unwrap(), 7);
    assert!(matches!(spawn_result::<u8>(Ok(Err(failure()))), Err(SpawnError::SpawnCommand(_))));
    assert!(matches!(spawn_result::<u8>(Err(failure())), Err(SpawnError::Pty(_))));
}

#[test]
fn there_may_be_no_event_loop() {
    assert_eq!(spawned(Reply::Answered(Ok(7))).unwrap(), 7);
    assert!(matches!(spawned::<u8>(Reply::Refused), Err(SpawnError::NoEventLoop)));
    let answer = spawned::<u8>(Reply::Answered(Err(SpawnError::Pty(failure()))));
    assert!(matches!(answer, Err(SpawnError::Pty(_))));
}
