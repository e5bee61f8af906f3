use expect::engine::match_request::InputRequest;
use expect::engine::transfer::{read_output, write_input, InputPass, InputStep, ReadStep, WriteStep};
use futures::sync::oneshot;
use std::collections::VecDeque;
use std::io;

fn not_ready() -> io::Error {
    io::Error::from(io::ErrorKind::WouldBlock)
}

fn broken() -> io::Error {
    io::Error::from(io::ErrorKind::BrokenPipe)
}

fn input(bytes: &[u8]) -> (InputRequest, oneshot::Receiver<()>) {
    let (tx, rx) = oneshot::channel::<()>();
    (InputRequest(bytes.to_vec(), tx), rx)
}

#[test]
fn a_write_goes_on_until_all_is_written() {
    let (mut req, _rx) = input(b"abcdef");
    assert!(matches!(write_input(&mut req, 0, Ok(2)), WriteStep::Again(2)));
    assert!(matches!(write_input(&mut req, 2, Ok(0)), WriteStep::Again(2)));
    assert!(matches!(write_input(&mut req, 2, Ok(4)), WriteStep::Ready));
    assert_eq!(req.0, b"abcdef");
}

#[test]
fn what_is_written_is_not_written_again() {
    let (mut req, _rx) = input(b"abcdef");
    assert!(matches!(write_input(&mut req, 2, Err(not_ready())), WriteStep::NotReady));
    assert_eq!(req.0, b"cdef");
}

#[test]
fn a_write_can_fail() {
    let (mut req, _rx) = input(b"abc");
    let step = write_input(&mut req, 1, Err(broken()));
    assert!(matches!(step, WriteStep::Failed(e) if e.kind() == io::ErrorKind::BrokenPipe));
    assert_eq!(req.0, b"abc");
}

#[test]
fn empty_input_is_written_with_one_write() {
    let (mut req, _rx) = input(b"");
    assert!(matches!(write_input(&mut req, 0, Ok(0)), WriteStep::Ready));
}

#[test]
fn input_is_written_in_order() {
    let (a, mut a_rx) = input(b"one");
    let (b, mut b_rx) = input(b"two");
    let mut queue: VecDeque<InputRequest> = VecDeque::new();
    queue.push_back(a);
    queue.push_back(b);
    let mut pass = InputPass::start();
    let mut written: Vec<u8> = Vec::new();
    // The terminal takes two bytes at a time.
    while let Some(bytes) = pass.next_write(&queue) {
        let n = bytes.len().min(2);
        written.extend_from_slice(&bytes[..n]);
        assert!(matches!(pass.take_written(&mut queue, Ok(n)), InputStep::Write));
    }
    assert_eq!(written, b"onetwo");
    assert_eq!(a_rx.try_recv(), Ok(None));
    assert_eq!(pass.done.len(), 2);
    pass.acknowledge();
    assert_eq!(a_rx.try_recv(), Ok(Some(())));
    assert_eq!(b_rx.try_recv(), Ok(Some(())));
}

#[test]
fn input_survives_a_terminal_that_is_not_ready() {
    let (a, mut a_rx) = input(b"one");
    let (b, mut b_rx) = input(b"two");
    let mut queue: VecDeque<InputRequest> = VecDeque::new();
    queue.push_back(a);
    queue.push_back(b);
    let mut pass = InputPass::start();
    assert_eq!(pass.next_write(&queue), Some(&b"one"[..]));
    assert!(matches!(pass.take_written(&mut queue, Ok(3)), InputStep::Write));
    assert_eq!(pass.next_write(&queue), Some(&b"two"[..]));
    assert!(matches!(pass.take_written(&mut queue, Ok(1)), InputStep::Write));
    assert_eq!(pass.next_write(&queue), Some(&b"wo"[..]));
    assert!(matches!(pass.take_written(&mut queue, Err(not_ready())), InputStep::Stop));
    pass.acknowledge();
    assert_eq!(a_rx.try_recv(), Ok(Some(())));
    assert_eq!(b_rx.try_recv(), Ok(None));
    // The next pass goes on where this one has stopped.
    let mut pass = InputPass::start();
    assert_eq!(pass.next_write(&queue), Some(&b"wo"[..]));
    assert!(matches!(pass.take_written(&mut queue, Ok(2)), InputStep::Write));
    assert_eq!(pass.next_write(&queue), None);
    pass.acknowledge();
    assert_eq!(b_rx.try_recv(), Ok(Some(())));
}

#[test]
fn a_terminal_that_fails_is_reported() {
    let (a, _rx) = input(b"one");
    let mut queue: VecDeque<InputRequest> = VecDeque::new();
    queue.push_back(a);
    let mut pass = InputPass::start();
    let step = pass.take_written(&mut queue, Err(broken()));
    assert!(matches!(step, InputStep::Failed(e) if e.kind() == io::ErrorKind::BrokenPipe));
    assert_eq!(queue.len(), 1);
    assert_eq!(queue[0].0, b"one");
}

#[test]
fn a_client_that_is_gone_is_not_told() {
    let (a, rx) = input(b"one");
    drop(rx);
    let mut queue: VecDeque<InputRequest> = VecDeque::new();
    queue.push_back(a);
    let mut pass = InputPass::start();
    assert!(matches!(pass.take_written(&mut queue, Ok(3)), InputStep::Write));
    pass.acknowledge();
}

#[test]
fn output_is_put_behind_what_is_there() {
    let mut buffer = b"ab".to_vec();
    let step = read_output(&mut buffer, 0, Ok(&b"cd"[..]));
    assert!(matches!(step, ReadStep::Again(2)));
    assert_eq!(step.eof(), None);
    assert!(matches!(read_output(&mut buffer, 2, Ok(&b"e"[..])), ReadStep::Again(3)));
    assert_eq!(buffer, b"abcde");
}

#[test]
fn reading_is_done_when_the_terminal_is_not_ready() {
    let mut buffer = b"abc".to_vec();
    let step = read_output(&mut buffer, 3, Err(not_ready()));
    assert!(matches!(step, ReadStep::Done(3)));
    assert_eq!(step.eof(), Some(false));
    assert_eq!(buffer, b"abc");
}

#[test]
fn a_read_of_nothing_is_the_end() {
    let mut buffer = b"abc".to_vec();
    let step = read_output(&mut buffer, 3, Ok(&b""[..]));
    assert_eq!(step.eof(), Some(true));
    assert!(matches!(step, ReadStep::Failed(e) if e.kind() == io::ErrorKind::UnexpectedEof));
    assert_eq!(buffer, b"abc");
}

#[test]
fn a_read_that_fails_is_the_end() {
    let mut buffer = b"abc".to_vec();
    let step = read_output(&mut buffer, 0, Err(broken()));
    assert_eq!(step.eof(), Some(true));
    assert!(matches!(step, ReadStep::Failed(e) if e.kind() == io::ErrorKind::BrokenPipe));
    assert_eq!(buffer, b"abc");
}
