use expect::engine::errors::ExpectError;
use expect::engine::match_request::{
    InputRequest, MatchOutcome, MatchRequest, MatchRequestBuilder, Timeout, TimerPoll,
};
use expect::engine::matching::{Match, MatchFault};
use expect::engine::session::{ChannelEvent, Session};
use expect::engine::transfer::{InputPass, InputStep, ReadStep};
use futures::sync::oneshot;
use std::collections::VecDeque;
use std::io;
use std::time::Duration;
use tokio_core::reactor::{Core, Timeout as Timer};

fn utf8(s: &str) -> Match {
    Match::Utf8(s.to_string())
}

fn timer() -> Timer {
    let core = Core::new().unwrap();
    Timer::new(Duration::from_secs(60), &core.handle()).unwrap()
}

fn failure() -> io::Error {
    io::Error::from(io::ErrorKind::Other)
}

/// A request that waits for ever, and one whose time runs.
fn waiting(matches: Vec<Match>) -> (MatchRequest, oneshot::Receiver<MatchOutcome>) {
    MatchRequestBuilder::new().set_matches(matches).build()
}

fn timed(matches: Vec<Match>) -> (MatchRequest, oneshot::Receiver<MatchOutcome>) {
    let (mut req, rx) = waiting(matches);
    req.timeout = Timeout::Active(timer());
    (req, rx)
}

fn session(output: &[u8]) -> (Session, oneshot::Receiver<()>) {
    let (tx, rx) = oneshot::channel::<()>();
    let mut session = Session::new(tx);
    assert!(matches!(session.read_output(0, Ok(output)), ReadStep::Again(_)));
    (session, rx)
}

fn not_ready(n: usize) -> VecDeque<TimerPoll> {
    (0..n).map(|_| TimerPoll::NotReady).collect()
}

fn matched(rx: &mut oneshot::Receiver<MatchOutcome>) -> (usize, Vec<u8>) {
    rx.try_recv().unwrap().unwrap().unwrap()
}

#[test]
fn a_new_session_is_empty() {
    let (tx, _rx) = oneshot::channel::<()>();
    let session = Session::new(tx);
    assert!(session.buffer.is_empty());
    assert!(session.input_requests.is_empty());
    assert!(session.match_requests.is_empty());
    assert!(session.exit_status_tx.is_some());
}

#[test]
fn a_match_answers() {
    let (mut req, _rx) = waiting(vec![utf8("$ ")]);
    let mut buffer = b"hello\n$ ".to_vec();
    let outcome = Session::find_match(&mut req, &mut buffer, false, TimerPoll::NotReady);
    assert_eq!(outcome.unwrap().unwrap(), (0, b"hello\n".to_vec()));
    assert!(buffer.is_empty());
}

#[test]
fn a_match_comes_before_the_end() {
    let (mut req, _rx) = waiting(vec![Match::Eof, utf8("b")]);
    let mut buffer = b"abc".to_vec();
    let outcome = Session::find_match(&mut req, &mut buffer, true, TimerPoll::NotReady);
    assert_eq!(outcome.unwrap().unwrap(), (1, b"a".to_vec()));
    assert_eq!(buffer, b"c");
}

#[test]
fn the_end_answers_with_all_the_output() {
    let (mut req, _rx) = timed(vec![utf8("x"), Match::Eof]);
    let mut buffer = b"abc".to_vec();
    let outcome = Session::find_match(&mut req, &mut buffer, true, TimerPoll::Ready);
    assert_eq!(outcome.unwrap().unwrap(), (1, b"abc".to_vec()));
    assert!(buffer.is_empty());
}

#[test]
fn an_unexpected_end_is_an_error() {
    let (mut req, _rx) = timed(vec![utf8("x"), Match::Timeout]);
    let mut buffer = b"abc".to_vec();
    let outcome = Session::find_match(&mut req, &mut buffer, true, TimerPoll::Ready);
    assert!(matches!(outcome, Some(Err(ExpectError::Eof))));
    assert_eq!(buffer, b"abc");
}

#[test]
fn the_timeout_answers_with_all_the_output() {
    let (mut req, _rx) = timed(vec![utf8("x"), Match::Timeout]);
    let mut buffer = b"abc".to_vec();
    let outcome = Session::find_match(&mut req, &mut buffer, false, TimerPoll::Ready);
    assert_eq!(outcome.unwrap().unwrap(), (1, b"abc".to_vec()));
    assert!(buffer.is_empty());
    assert!(matches!(req.timeout, Timeout::Finished));
}

#[test]
fn an_unexpected_timeout_is_an_error() {
    let (mut req, _rx) = timed(vec![utf8("x"), Match::Eof]);
    let mut buffer = b"abc".to_vec();
    let outcome = Session::find_match(&mut req, &mut buffer, false, TimerPoll::Ready);
    assert!(matches!(outcome, Some(Err(ExpectError::Timeout))));
    assert_eq!(buffer, b"abc");
}

#[test]
fn a_timer_that_fails_is_an_error() {
    let (mut req, _rx) = timed(vec![utf8("x"), Match::Timeout]);
    let mut buffer = b"abc".to_vec();
    let outcome = Session::find_match(&mut req, &mut buffer, false, TimerPoll::Failed(failure()));
    assert!(matches!(outcome, Some(Err(ExpectError::Io(e))) if e.kind() == io::ErrorKind::Other));
    assert_eq!(buffer, b"abc");
}

#[test]
fn without_a_timeout_a_request_waits() {
    let (mut req, _rx) = waiting(vec![utf8("x"), Match::Timeout]);
    let mut buffer = b"abc".to_vec();
    assert!(Session::find_match(&mut req, &mut buffer, false, TimerPoll::Ready).is_none());
    assert_eq!(buffer, b"abc");
    assert!(matches!(req.timeout, Timeout::Never));
}

#[test]
fn any_request_can_be_tried() {
    let (mut req, _rx) = waiting(vec![Match::Bytes(vec![97])]);
    let mut buffer = b"abc".to_vec();
    let tried = Session::try_find_match(&mut req, &mut buffer, true, TimerPoll::NotReady);
    assert_eq!(tried.unwrap_err(), MatchFault::Unsupported { index: 0 });
    let (mut req, _rx) = waiting(vec![utf8("b"), Match::Bytes(vec![97])]);
    let tried = Session::try_find_match(&mut req, &mut buffer, true, TimerPoll::NotReady);
    assert_eq!(tried.unwrap().unwrap().unwrap(), (0, b"a".to_vec()));
    assert_eq!(buffer, b"c");
}

#[test]
fn requests_are_served_in_order() {
    let (mut session, _exit) = session(b"one two three");
    let (a, mut a_rx) = waiting(vec![utf8("one")]);
    let (b, mut b_rx) = waiting(vec![utf8("three")]);
    let (c, mut c_rx) = waiting(vec![utf8("two")]);
    for req in vec![a, b, c] {
        assert!(session.get_match_requests(ChannelEvent::Item((req, None))));
    }
    assert_eq!(session.process_match_requests(false, not_ready(3)), Ok(()));
    assert_eq!(matched(&mut a_rx), (0, b"".to_vec()));
    // The third request comes too late: what it waits for was cut off by the second.
    assert_eq!(matched(&mut b_rx), (0, b" two ".to_vec()));
    assert!(c_rx.try_recv().unwrap().is_none());
    assert_eq!(session.match_requests.len(), 1);
    assert!(session.buffer.is_empty());
}

#[test]
fn a_request_that_waits_holds_up_those_behind_it() {
    let (mut session, _exit) = session(b"two");
    let (a, mut a_rx) = timed(vec![utf8("one")]);
    let (b, mut b_rx) = timed(vec![utf8("two"), Match::Timeout]);
    session.match_requests.push_back(a);
    session.match_requests.push_back(b);
    let mut polls = not_ready(1);
    polls.push_back(TimerPoll::Ready);
    assert_eq!(session.process_match_requests(false, polls), Ok(()));
    assert!(a_rx.try_recv().unwrap().is_none());
    assert!(b_rx.try_recv().unwrap().is_none());
    // But the timer of the one behind was looked at.
    assert!(matches!(session.match_requests[0].timeout, Timeout::Active(_)));
    assert!(matches!(session.match_requests[1].timeout, Timeout::Finished));
    assert_eq!(session.buffer, b"two");
}

#[test]
fn nothing_new_changes_nothing() {
    let (mut session, _exit) = session(b"one two");
    let (a, _a_rx) = waiting(vec![utf8("one")]);
    let (b, _b_rx) = timed(vec![utf8("three")]);
    session.match_requests.push_back(a);
    session.match_requests.push_back(b);
    let (answers, fault) = session.settle_match_requests(false, not_ready(2));
    assert_eq!((answers.len(), fault), (1, None));
    let (answers, fault) = session.settle_match_requests(false, not_ready(1));
    assert_eq!((answers.len(), fault), (0, None));
    assert_eq!(session.match_requests.len(), 1);
    assert_eq!(session.buffer, b" two");
}

#[test]
fn at_the_end_no_request_is_left() {
    let (mut session, _exit) = session(b"rest");
    let (a, mut a_rx) = waiting(vec![utf8("x")]);
    let (b, mut b_rx) = waiting(vec![Match::Eof]);
    let (c, mut c_rx) = waiting(vec![Match::Timeout, Match::Eof]);
    for req in vec![a, b, c] {
        session.match_requests.push_back(req);
    }
    assert_eq!(session.process_match_requests(true, not_ready(3)), Ok(()));
    assert!(matches!(a_rx.try_recv(), Ok(Some(Err(ExpectError::Eof)))));
    assert_eq!(matched(&mut b_rx), (0, b"rest".to_vec()));
    assert_eq!(matched(&mut c_rx), (1, b"".to_vec()));
    assert!(session.match_requests.is_empty());
}

#[test]
fn those_before_a_fault_are_answered() {
    let (mut session, _exit) = session(b"one two");
    let (a, mut a_rx) = waiting(vec![utf8("one")]);
    let (b, mut b_rx) = waiting(vec![Match::Bytes(vec![1])]);
    session.match_requests.push_back(a);
    session.match_requests.push_back(b);
    let processed = session.process_match_requests(false, not_ready(2));
    assert_eq!(processed, Err(MatchFault::Unsupported { index: 0 }));
    assert_eq!(matched(&mut a_rx), (0, b"".to_vec()));
    assert!(b_rx.try_recv().unwrap().is_none());
    assert_eq!(session.match_requests.len(), 1);
}

#[test]
fn the_output_is_split_between_the_requests() {
    let output = "user: name\r\npassword: ****\r\n$ ";
    let (mut session, _exit) = session(output.as_bytes());
    let mut answers: Vec<oneshot::Receiver<MatchOutcome>> = Vec::new();
    for word in ["user", "password", "$"] {
        let (req, rx) = waiting(vec![utf8(word)]);
        session.match_requests.push_back(req);
        answers.push(rx);
    }
    assert_eq!(session.process_match_requests(false, not_ready(3)), Ok(()));
    let mut whole: Vec<u8> = Vec::new();
    for (rx, word) in answers.iter_mut().zip(["user", "password", "$"]) {
        whole.extend(matched(rx).1);
        whole.extend(word.as_bytes());
    }
    whole.extend(&session.buffer);
    assert_eq!(whole, output.as_bytes());
    assert_eq!(session.buffer, b" ");
}

#[test]
fn output_that_is_no_text_is_split_like_any_other() {
    let (mut session, _exit) = session(b"\xff\xfea\xe2\x82\nb\x80c");
    let (a, mut a_rx) = waiting(vec![utf8("a")]);
    let (b, mut b_rx) = waiting(vec![utf8("b")]);
    session.match_requests.push_back(a);
    session.match_requests.push_back(b);
    assert_eq!(session.process_match_requests(false, not_ready(2)), Ok(()));
    assert_eq!(matched(&mut a_rx), (0, b"\xff\xfe".to_vec()));
    assert_eq!(matched(&mut b_rx), (0, b"\xe2\x82\n".to_vec()));
    assert_eq!(session.buffer, b"\x80c");
}

#[test]
fn a_replacement_takes_what_it_stands_for() {
    let (mut session, _exit) = session(b"a\xe2\x82bc");
    let (req, mut rx) = waiting(vec![utf8("\u{fffd}b")]);
    session.match_requests.push_back(req);
    assert_eq!(session.process_match_requests(false, not_ready(1)), Ok(()));
    assert_eq!(matched(&mut rx), (0, b"a".to_vec()));
    assert_eq!(session.buffer, b"c");
}

#[test]
fn a_new_request_starts_its_time() {
    let (mut session, _exit) = session(b"x");
    let (req, _rx) = MatchRequestBuilder::new().set_timeout(Duration::from_secs(60)).build();
    assert!(session.get_match_requests(ChannelEvent::Item((req, Some(Ok(timer()))))));
    assert!(matches!(session.match_requests[0].timeout, Timeout::Active(_)));
    assert!(!session.get_match_requests(ChannelEvent::Empty));
    assert_eq!(session.match_requests.len(), 1);
}

#[test]
fn a_request_whose_time_cannot_start_is_answered_at_once() {
    let (mut session, _exit) = session(b"x");
    let (req, mut rx) = MatchRequestBuilder::new().set_timeout(Duration::from_secs(60)).build();
    session.handle_new_request(req, Some(Err(failure())));
    assert!(session.match_requests.is_empty());
    assert!(matches!(rx.try_recv(), Ok(Some(Err(ExpectError::Io(_))))));
    let (req, _rx) = MatchRequestBuilder::new().set_timeout(Duration::from_secs(60)).build();
    let refused = session.admit_request(req, Some(Err(failure()))).unwrap();
    assert!(matches!(refused.outcome, Err(ExpectError::Io(_))));
}

#[test]
fn input_comes_in_and_goes_out() {
    let (mut session, _exit) = session(b"x");
    let (tx, mut rx) = oneshot::channel::<()>();
    assert!(session.get_input_requests(ChannelEvent::Item(InputRequest(b"ls\n".to_vec(), tx))));
    assert!(!session.get_input_requests(ChannelEvent::Empty));
    let mut pass = InputPass::start();
    assert_eq!(session.next_write(&pass), Some(&b"ls\n"[..]));
    assert!(matches!(session.process_input_requests(&mut pass, Ok(3)), InputStep::Write));
    assert_eq!(session.next_write(&pass), None);
    pass.acknowledge();
    assert_eq!(rx.try_recv(), Ok(Some(())));
    assert!(session.input_requests.is_empty());
}

#[test]
fn the_client_is_told_of_the_end_once() {
    let (mut session, mut rx) = session(b"x");
    assert!(session.exit());
    assert_eq!(rx.try_recv(), Ok(Some(())));
    assert!(session.exit_status_tx.is_none());
    assert!(session.exit());
}

#[test]
fn a_client_that_is_gone_misses_the_end() {
    let (mut session, rx) = session(b"x");
    drop(rx);
    assert!(!session.exit());
}
