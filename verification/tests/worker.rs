use expect::engine::client::Reply;
use expect::engine::match_request::{InputRequest, TimerPoll};
use expect::engine::matching::{Match, MatchFault, MatchMode};
use expect::engine::session::ChannelEvent;
use expect::engine::transfer::{InputPass, InputStep, ReadStep};
use expect::worker::{
    conclude_pending, init_result, spawn_result, ActiveMatchRequest, Client, EventLoop, ExpectError,
    InitError, InternalError, MatchOutcome, MatchRequest, WorkerFault,
};
use futures::sync::oneshot;
use std::collections::VecDeque;
use std::io;
use std::time::Duration;
use tokio_core::reactor::{Core, Timeout as Timer};

fn utf8(s: &str) -> Match {
    Match::Utf8(s.to_string())
}

fn timer() -> Timer {
    let core = Core::new().unwrap();
    Timer::new(Duration::from_secs(60), &core.handle()).unwrap()
}

fn failure() -> io::Error {
    io::Error::from(io::ErrorKind::Other)
}

fn request(
    matches: Vec<Match>,
    timeout: Option<Duration>,
) -> (MatchRequest, oneshot::Receiver<MatchOutcome>) {
    let (shutdown_tx, _shutdown_rx) = oneshot::channel::<()>();
    Client::new(shutdown_tx).expect(matches, timeout, MatchMode::Line)
}

fn waiting(matches: Vec<Match>) -> (ActiveMatchRequest, oneshot::Receiver<MatchOutcome>) {
    let (req, rx) = request(matches, None);
    (req.activate(None).unwrap(), rx)
}

fn timed(matches: Vec<Match>) -> (ActiveMatchRequest, oneshot::Receiver<MatchOutcome>) {
    let (req, rx) = request(matches, Some(Duration::from_secs(60)));
    (req.activate(Some(Ok(timer()))).unwrap(), rx)
}

fn worker(output: &[u8]) -> EventLoop {
    let mut worker = EventLoop::new();
    assert!(matches!(worker.read_output(0, Ok(output)), ReadStep::Again(_)));
    worker
}

fn not_ready(n: usize) -> VecDeque<TimerPoll> {
    (0..n).map(|_| TimerPoll::NotReady).collect()
}

fn matched(rx: &mut oneshot::Receiver<MatchOutcome>) -> (usize, Vec<u8>) {
    rx.try_recv().unwrap().unwrap().unwrap()
}

#[test]
fn a_new_worker_is_empty() {
    let worker = EventLoop::new();
    assert!(worker.buffer.is_empty());
    assert!(worker.input_requests.is_empty());
    assert!(worker.match_requests.is_empty());
}

#[test]
fn a_request_of_a_worker_is_activated() {
    let (req, _rx) = timed(vec![Match::Eof]);
    assert!(req.timeout.is_some());
    assert!(req.matches == vec![Match::Eof]);
    assert_eq!(req.mode, MatchMode::Line);
    let (req, _rx) = waiting(vec![Match::Eof]);
    assert!(req.timeout.is_none());
}

#[test]
fn a_request_of_a_worker_may_not_be_activated() {
    let (req, _rx) = request(vec![Match::Eof], Some(Duration::from_secs(60)));
    let error = req.activate(Some(Err(failure()))).unwrap_err();
    assert!(matches!(error, InternalError::SpawnTimeout(e) if e.kind() == io::ErrorKind::Other));
}

#[test]
fn a_worker_finds_a_match() {
    let (req, _rx) = timed(vec![utf8("x"), utf8("$")]);
    assert_eq!(req.try_match(b"a $"), Some((1, 2, 3)));
    let mut buffer = b"a $ b".to_vec();
    let pending = EventLoop::poll_pending_match(&req, &mut buffer, true, TimerPoll::Ready);
    assert_eq!(pending.unwrap().unwrap().unwrap(), (1, b"a ".to_vec()));
    assert_eq!(buffer, b" b");
}

#[test]
fn a_worker_meets_the_end() {
    let (req, _rx) = timed(vec![utf8("x"), Match::Eof]);
    let mut buffer = b"abc".to_vec();
    let pending = EventLoop::poll_pending_match(&req, &mut buffer, true, TimerPoll::Ready);
    assert_eq!(pending.unwrap().unwrap().unwrap(), (1, b"abc".to_vec()));
    assert!(buffer.is_empty());
    let (req, _rx) = timed(vec![Match::Timeout]);
    let pending = EventLoop::poll_pending_match(&req, &mut buffer, true, TimerPoll::Ready);
    assert_eq!(pending.unwrap(), Some(Err(ExpectError::Eof)));
}

#[test]
fn a_worker_meets_a_timeout() {
    let (req, _rx) = timed(vec![utf8("x"), Match::Timeout]);
    let mut buffer = b"abc".to_vec();
    let pending = EventLoop::poll_pending_match(&req, &mut buffer, false, TimerPoll::NotReady);
    assert_eq!(pending.unwrap(), None);
    assert_eq!(buffer, b"abc");
    let pending = EventLoop::poll_pending_match(&req, &mut buffer, false, TimerPoll::Ready);
    assert_eq!(pending.unwrap().unwrap().unwrap(), (1, b"abc".to_vec()));
    let (req, _rx) = timed(vec![Match::Eof]);
    let pending = EventLoop::poll_pending_match(&req, &mut buffer, false, TimerPoll::Ready);
    assert_eq!(pending.unwrap(), Some(Err(ExpectError::Timeout)));
}

#[test]
fn a_worker_waits_for_ever_without_a_timeout() {
    let (req, _rx) = waiting(vec![Match::Timeout]);
    let mut buffer = b"abc".to_vec();
    let pending = EventLoop::poll_pending_match(&req, &mut buffer, false, TimerPoll::Ready);
    assert_eq!(pending.unwrap(), None);
    assert_eq!(buffer, b"abc");
}

#[test]
fn a_worker_tells_of_a_timer_that_fails() {
    let (req, _rx) = timed(vec![utf8("x")]);
    let mut buffer = b"abc".to_vec();
    let poll = TimerPoll::Failed(failure());
    let error = EventLoop::poll_pending_match(&req, &mut buffer, false, poll).unwrap_err();
    assert_eq!(error.kind(), io::ErrorKind::Other);
    let poll = TimerPoll::Failed(failure());
    let fault = EventLoop::try_pending_match(&req, &mut buffer, false, poll).unwrap_err();
    assert!(matches!(fault, WorkerFault::Timer(_)));
}

#[test]
fn a_worker_can_try_any_request() {
    let (req, _rx) = waiting(vec![Match::Bytes(vec![1])]);
    let mut buffer = b"abc".to_vec();
    let fault = EventLoop::try_pending_match(&req, &mut buffer, false, TimerPoll::NotReady);
    let expected = MatchFault::Unsupported { index: 0 };
    assert!(matches!(fault, Err(WorkerFault::Match(f)) if f == expected));
    let (req, _rx) = waiting(vec![utf8("ab")]);
    let mut buffer = b"\xffabc".to_vec();
    let found = EventLoop::try_pending_match(&req, &mut buffer, false, TimerPoll::NotReady);
    assert_eq!(found.unwrap().unwrap().unwrap(), (0, b"\xff".to_vec()));
    assert_eq!(buffer, b"c");
    let mut buffer = b"xab".to_vec();
    let found = EventLoop::try_pending_match(&req, &mut buffer, false, TimerPoll::NotReady);
    assert_eq!(found.unwrap().unwrap().unwrap(), (0, b"x".to_vec()));
}

#[test]
fn what_comes_of_a_search_is_concluded() {
    let (req, _rx) = waiting(vec![utf8("x"), Match::Eof]);
    let mut buffer = b"abc".to_vec();
    let pending = conclude_pending(&req, Some((0, 1, 2)), &mut buffer, true, TimerPoll::NotReady);
    assert_eq!(pending.unwrap().unwrap().unwrap(), (0, b"a".to_vec()));
    let pending = conclude_pending(&req, None, &mut buffer, true, TimerPoll::NotReady);
    assert_eq!(pending.unwrap().unwrap().unwrap(), (1, b"c".to_vec()));
}

#[test]
fn a_worker_serves_in_order() {
    let mut worker = worker(b"one two");
    let (a, mut a_rx) = request(vec![utf8("one")], None);
    let (b, mut b_rx) = request(vec![utf8("three")], None);
    let (c, mut c_rx) = request(vec![utf8("two")], None);
    for req in vec![a, b, c] {
        let again = worker.get_match_requests(ChannelEvent::Item((req, None)));
        assert!(again.unwrap());
    }
    assert!(!worker.get_match_requests(ChannelEvent::Empty).unwrap());
    assert!(worker.process_matches(false, not_ready(3)).is_ok());
    assert_eq!(matched(&mut a_rx), (0, b"".to_vec()));
    assert!(b_rx.try_recv().unwrap().is_none());
    assert!(c_rx.try_recv().unwrap().is_none());
    assert_eq!(worker.match_requests.len(), 2);
    assert_eq!(worker.buffer, b" two");
}

#[test]
fn a_worker_leaves_no_request_at_the_end() {
    let mut worker = worker(b"rest");
    let (a, mut a_rx) = waiting(vec![utf8("x")]);
    let (b, mut b_rx) = waiting(vec![Match::Timeout, Match::Eof]);
    worker.match_requests.push_back(a);
    worker.match_requests.push_back(b);
    assert!(worker.process_matches(true, not_ready(2)).is_ok());
    assert!(matches!(a_rx.try_recv(), Ok(Some(Err(ExpectError::Eof)))));
    assert_eq!(matched(&mut b_rx), (1, b"rest".to_vec()));
    assert!(worker.match_requests.is_empty());
}

#[test]
fn a_worker_that_cannot_go_on_answers_nobody() {
    let mut worker = worker(b"one two");
    let (a, mut a_rx) = waiting(vec![utf8("one")]);
    let (b, _b_rx) = timed(vec![utf8("x")]);
    worker.match_requests.push_back(a);
    worker.match_requests.push_back(b);
    let mut polls = not_ready(1);
    polls.push_back(TimerPoll::Failed(failure()));
    let fault = worker.process_matches(false, polls).unwrap_err();
    assert!(matches!(fault, WorkerFault::Timer(_)));
    assert!(a_rx.try_recv().is_err());
    assert_eq!(worker.match_requests.len(), 1);
}

#[test]
fn the_answers_of_a_worker_go_with_their_requests() {
    let mut worker = worker(b"one two");
    let (a, _a_rx) = waiting(vec![utf8("one")]);
    let (b, _b_rx) = waiting(vec![Match::Bytes(vec![1])]);
    worker.match_requests.push_back(a);
    worker.match_requests.push_back(b);
    let (answers, fault) = worker.settle_matches(false, not_ready(2));
    assert_eq!(answers.len(), 1);
    assert!(answers[0].request.matches == vec![utf8("one")]);
    assert_eq!(answers[0].outcome, Ok((0, b"".to_vec())));
    let expected = MatchFault::Unsupported { index: 0 };
    assert!(matches!(fault, Some(WorkerFault::Match(f)) if f == expected));
}

#[test]
fn a_worker_ends_where_a_timer_cannot_start() {
    let mut worker = worker(b"x");
    let (req, _rx) = request(vec![utf8("x")], Some(Duration::from_secs(60)));
    let error = worker.get_match_requests(ChannelEvent::Item((req, Some(Err(failure())))));
    assert!(matches!(error, Err(InternalError::SpawnTimeout(_))));
    assert!(worker.match_requests.is_empty());
}

#[test]
fn a_worker_writes_input() {
    let mut worker = worker(b"x");
    let (tx, mut rx) = oneshot::channel::<()>();
    assert!(worker.get_input_requests(ChannelEvent::Item(InputRequest(b"ls\n".to_vec(), tx))));
    assert!(!worker.get_input_requests(ChannelEvent::Empty));
    let mut pass = InputPass::start();
    assert_eq!(worker.next_write(&pass), Some(&b"ls\n"[..]));
    assert!(matches!(worker.process_input(&mut pass, Ok(1)), InputStep::Write));
    assert_eq!(worker.next_write(&pass), Some(&b"s\n"[..]));
    assert!(matches!(worker.process_input(&mut pass, Ok(2)), InputStep::Write));
    assert_eq!(worker.next_write(&pass), None);
    pass.acknowledge();
    assert_eq!(rx.try_recv(), Ok(Some(())));
}

#[test]
fn a_client_of_a_worker_sends() {
    let (shutdown_tx, _shutdown_rx) = oneshot::channel::<()>();
    let mut client = Client::new(shutdown_tx);
    let (request, _rx) = client.send(b"ls\n".to_vec());
    assert_eq!(request.0, b"ls\n");
    assert!(Client::sent(Reply::Answered(()), None).is_ok());
    assert!(matches!(Client::sent(Reply::Refused, None), Err(InternalError::ChanError)));
    let failure = Some(InternalError::NoEventLoop);
    assert!(matches!(Client::sent(Reply::Dropped, failure), Err(InternalError::NoEventLoop)));
}

#[test]
fn a_client_of_a_worker_expects() {
    let answer = Client::expected(Reply::Answered(Ok((1, vec![7]))), None);
    assert_eq!(answer.unwrap(), Ok((1, vec![7])));
    let answer = Client::expected(Reply::Answered(Err(ExpectError::Timeout)), None);
    assert_eq!(answer.unwrap(), Err(ExpectError::Timeout));
    assert!(matches!(Client::expected(Reply::Refused, None), Err(InternalError::ChanError)));
    let failure = Some(InternalError::SpawnTimeout(failure()));
    let answer = Client::expected(Reply::Dropped, failure);
    assert!(matches!(answer, Err(InternalError::SpawnTimeout(_))));
}

#[test]
fn a_worker_is_ended() {
    let (shutdown_tx, mut shutdown_rx) = oneshot::channel::<()>();
    let mut client = Client::new(shutdown_tx);
    client.close();
    assert_eq!(shutdown_rx.try_recv(), Ok(Some(())));
    client.close();
    assert!(client.shutdown_tx.is_none());
}

#[test]
fn a_worker_may_not_start() {
    assert_eq!(init_result(Ok(Ok(Ok(7)))).unwrap(), 7);
    let error = init_result::<u8>(Ok(Ok(Err(failure()))));
    assert!(matches!(error, Err(InitError::SpawnCommand(_))));
    assert!(matches!(init_result::<u8>(Ok(Err(failure()))), Err(InitError::Pty(_))));
    assert!(matches!(init_result::<u8>(Err(failure())), Err(InitError::Reactor(_))));
}

#[test]
fn a_worker_needs_a_thread() {
    assert_eq!(spawn_result(Ok(7)).unwrap(), 7);
    assert!(matches!(spawn_result::<u8>(Err(failure())), Err(InitError::SpawnWorker(_))));
}
