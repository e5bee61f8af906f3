//! Bytes on their way to the process and from it. The terminal is read and written by the event
//! loop, which does not block: each call here takes the result of one read or one write.
use super::match_request::InputRequest;
use crate::outside::{io_kind, io_would_block, unexpected_eof, would_block};
use crate::text::join;
use futures::sync::oneshot;
use std::collections::VecDeque;
use std::io;
use vstd::prelude::*;
use vstd::slice::slice_subrange;

verus! {

/// A request to send input, as a value.
pub struct InputView {
    pub bytes: Seq<u8>,
    pub ack: oneshot::Sender<()>,
}

/// The values of some requests.
pub open spec fn inputs(requests: Seq<InputRequest>) -> Seq<InputView> {
    requests.map_values(|r: InputRequest| InputView { bytes: r.0@, ack: r.1 })
}

/// Where the writing of the requests in a queue stands.
pub struct InputState {
    /// The requests that are not written yet, or not to their end.
    pub queue: Seq<InputView>,
    /// The requests that are written to their end.
    pub done: Seq<InputView>,
    /// How much of the first request in the queue is written.
    pub size: nat,
}

impl InputState {
    /// No more of the first request is written than there is.
    pub open spec fn valid(self) -> bool {
        if self.queue.len() == 0 {
            self.size == 0
        } else {
            self.size <= self.queue[0].bytes.len()
        }
    }

    /// The bytes of all the requests in the queue.
    pub open spec fn queued(self) -> Seq<u8> {
        join(self.queue.map_values(|r: InputView| r.bytes))
    }

    /// The bytes that are still to be written.
    pub open spec fn unwritten(self) -> Seq<u8> {
        self.queued().skip(self.size as int)
    }

    /// The bytes that the next write is offered.
    pub open spec fn offered(self) -> Seq<u8> {
        self.queue[0].bytes.skip(self.size as int)
    }

    /// Where the requests are acknowledged, in the order in which they are.
    pub open spec fn acks(self) -> Seq<oneshot::Sender<()>> {
        (self.done + self.queue).map_values(|r: InputView| r.ack)
    }

    /// A write may say that it took at most the bytes that it was offered.
    pub open spec fn admits(self, written: Result<usize, io::Error>) -> bool {
        &&& self.queue.len() > 0
        &&& written matches Ok(n) ==> self.size + n <= self.queue[0].bytes.len()
    }

    /// Where the writing stands after one more write. A request that is written to its end leaves
    /// the queue. Where the terminal is not ready, the request keeps what is left of it.
    pub open spec fn after(self, written: Result<usize, io::Error>) -> InputState {
        let first = self.queue[0];
        match written {
            Ok(n) => if self.size + n == first.bytes.len() {
                InputState { queue: self.queue.skip(1), done: self.done.push(first), size: 0 }
            } else {
                InputState { size: self.size + n as nat, ..self }
            },
            Err(e) => if io_would_block(e) {
                let left = InputView { bytes: first.bytes.skip(self.size as int), ..first };
                InputState { queue: seq![left] + self.queue.skip(1), size: 0, ..self }
            } else {
                self
            },
        }
    }

    /// Several writes, one after the other, may say what they say.
    pub open spec fn admits_all(self, results: Seq<Result<usize, io::Error>>) -> bool
        decreases results.len(),
    {
        results.len() > 0 ==> self.admits(results[0]) && self.after(results[0]).admits_all(
            results.skip(1),
        )
    }

    /// Where the writing stands after several writes.
    pub open spec fn after_all(self, results: Seq<Result<usize, io::Error>>) -> InputState
        decreases results.len(),
    {
        if results.len() == 0 {
            self
        } else {
            self.after(results[0]).after_all(results.skip(1))
        }
    }
}

/// How many bytes several writes have taken.
pub open spec fn taken(results: Seq<Result<usize, io::Error>>) -> nat
    decreases results.len(),
{
    if results.len() == 0 {
        0
    } else {
        (match results[0] {
            Ok(n) => n as nat,
            Err(_) => 0,
        }) + taken(results.skip(1))
    }
}

/// What is to be done after a write.
#[derive(Debug)]
pub enum WriteStep {
    /// The request is written up to this index: write on.
    Again(usize),
    /// The whole request is written.
    Ready,
    /// The terminal is not ready.
    NotReady,
    /// The terminal cannot be written to.
    Failed(io::Error),
}

/// Takes the result of a write of what follows index `size` in a request.
pub fn write_input(req: &mut InputRequest, size: usize, written: Result<usize, io::Error>) -> (step:
    WriteStep)
    requires
        size <= old(req).0@.len(),
        written matches Ok(n) ==> size + n <= old(req).0@.len(),
    ensures
        final(req).1 == old(req).1,
        match written {
            Ok(n) => {
                &&& final(req).0@ == old(req).0@
                &&& if size + n == old(req).0@.len() {
                    step == WriteStep::Ready
                } else {
                    step matches WriteStep::Again(k) && k == size + n
                }
            },
            Err(e) => if io_would_block(e) {
                step == WriteStep::NotReady && final(req).0@ == old(req).0@.skip(size as int)
            } else {
                step == WriteStep::Failed(e) && final(req).0@ == old(req).0@
            },
        },
{
    match written {
        Ok(n) => {
            let len: usize = req.0.len();
            if size + n == len {
                // The whole buffer has been written, we're done.
                WriteStep::Ready
            } else {
                WriteStep::Again(size + n)
            }
        },
        Err(e) => {
            if would_block(&e) {
                // The file descriptor is not ready at the moment: stop trying to write.
                let left: Vec<u8> = req.0.split_off(size);
                req.0 = left;
                assert(req.0@ =~= old(req).0@.skip(size as int));
                WriteStep::NotReady
            } else {
                WriteStep::Failed(e)
            }
        },
    }
}

/// A pass over the requests in a queue that writes as much of them as the terminal takes.
pub struct InputPass {
    /// The requests that are written to their end, in the order in which they were.
    pub done: VecDeque<InputRequest>,
    /// How much of the first request in the queue is written.
    pub size: usize,
}

/// Where a pass over a queue stands.
pub open spec fn input_state(queue: Seq<InputRequest>, pass: InputPass) -> InputState {
    InputState { queue: inputs(queue), done: inputs(pass.done@), size: pass.size as nat }
}

/// What is to be done next in a pass.
#[derive(Debug)]
pub enum InputStep {
    /// Write on.
    Write,
    /// The terminal is not ready: the pass is over.
    Stop,
    /// The terminal cannot be written to.
    Failed(io::Error),
}

/// What a pass comes to after a write.
pub open spec fn input_step(written: Result<usize, io::Error>) -> InputStep {
    match written {
        Ok(_) => InputStep::Write,
        Err(e) => if io_would_block(e) {
            InputStep::Stop
        } else {
            InputStep::Failed(e)
        },
    }
}

impl InputPass {
    /// Starts a pass.
    pub fn start() -> (pass: Self)
        ensures
            pass.done@ == Seq::<InputRequest>::empty(),
            pass.size == 0,
    {
        InputPass { done: VecDeque::new(), size: 0 }
    }

    /// The bytes to write next, if there are requests left.
    pub fn next_write<'a>(&self, queue: &'a VecDeque<InputRequest>) -> (bytes: Option<&'a [u8]>)
        requires
            input_state(queue@, *self).valid(),
        ensures
            match bytes {
                Some(b) => queue@.len() > 0 && b@ == queue@[0].0@.skip(self.size as int),
                None => queue@.len() == 0,
            },
    {
        if queue.len() == 0 {
            return None;
        }
        let first: &InputRequest = &queue[0];
        assert(inputs(queue@)[0].bytes == first.0@);
        let rest: &[u8] = slice_subrange(first.0.as_slice(), self.size, first.0.len());
        assert(rest@ =~= queue@[0].0@.skip(self.size as int));
        Some(rest)
    }

    /// Takes the result of a write of those bytes.
    pub fn take_written(
        &mut self,
        queue: &mut VecDeque<InputRequest>,
        written: Result<usize, io::Error>,
    ) -> (step: InputStep)
        requires
            input_state(old(queue)@, *old(self)).valid(),
            input_state(old(queue)@, *old(self)).admits(written),
        ensures
            input_state(final(queue)@, *final(self)) == input_state(
                old(queue)@,
                *old(self),
            ).after(written),
            input_state(final(queue)@, *final(self)).valid(),
            step == input_step(written),
    {
        let ghost before = input_state(queue@, *self);
        let ghost requests = queue@;
        let ghost done = self.done@;
        assert(before.queue[0] == InputView { bytes: requests[0].0@, ack: requests[0].1 });
        let mut first: InputRequest = match queue.pop_front() {
            Some(first) => first,
            None => {
                return InputStep::Stop;
            },
        };
        assert(inputs(queue@) =~= before.queue.skip(1));
        match write_input(&mut first, self.size, written) {
            WriteStep::Again(size) => {
                queue.push_front(first);
                self.size = size;
                assert(inputs(queue@) =~= before.queue);
                InputStep::Write
            },
            WriteStep::Ready => {
                proof {
                    assert(inputs(done.push(first)) =~= inputs(done).push(before.queue[0]));
                }
                self.done.push_back(first);
                self.size = 0;
                InputStep::Write
            },
            WriteStep::NotReady => {
                queue.push_front(first);
                self.size = 0;
                proof {
                    let left = InputView {
                        bytes: before.queue[0].bytes.skip(before.size as int),
                        ..before.queue[0]
                    };
                    assert(inputs(queue@) =~= seq![left] + before.queue.skip(1));
                }
                InputStep::Stop
            },
            WriteStep::Failed(e) => {
                queue.push_front(first);
                assert(inputs(queue@) =~= before.queue);
                InputStep::Failed(e)
            },
        }
    }

    /// Tells the clients, first come first served, that their requests are written. If a client is
    /// gone, it does not care.
    pub fn acknowledge(self)
        ensures
            forall|i: int|
                0 <= i < self.done@.len() ==> acknowledged((#[trigger] self.done@[i]).1),
    {
        acknowledge_all(self.done)
    }
}

/// The word that a request is written was handed to its channel.
pub open spec fn acknowledged(tx: oneshot::Sender<()>) -> bool {
    exists|sent: Result<(), ()>| call_ensures(oneshot::Sender::<()>::send, (tx, ()), sent)
}

/// A client is told on its own channel.
pub proof fn law_acknowledged_is_sent(tx: oneshot::Sender<()>)
    requires
        acknowledged(tx),
    ensures
        exists|sent: Result<(), ()>| call_ensures(oneshot::Sender::<()>::send, (tx, ()), sent),
{
}

/// Tells the clients of some requests, first come first served, that they are written.
fn acknowledge_all(done: VecDeque<InputRequest>)
    ensures
        forall|i: int|
            0 <= i < done@.len() ==> acknowledged((#[trigger] done@[i]).1),
{
    let ghost all = done@;
    let mut left: VecDeque<InputRequest> = done;
    let ghost mut told: int = 0;
    while left.len() > 0
        invariant
            0 <= told <= all.len(),
            left@ =~= all.skip(told),
            forall|i: int|
                0 <= i < told ==> acknowledged((#[trigger] all[i]).1),
        decreases left@.len(),
    {
        if let Some(req) = left.pop_front() {
            let _sent: Result<(), ()> = req.1.send(());
            proof {
                assert(req == all[told]);
                told = told + 1;
            }
        }
    }
    assert(told == all.len());
}

/// What is to be done after a read.
#[derive(Debug)]
pub enum ReadStep {
    /// So many bytes were read: read on.
    Again(usize),
    /// So many bytes were read, and there is no more for now.
    Done(usize),
    /// There is nothing to be read any more.
    Failed(io::Error),
}

impl ReadStep {
    /// Whether the end of the output is reached, once there is nothing to read on: any failure of
    /// a read counts as the end.
    pub fn eof(&self) -> (eof: Option<bool>)
        ensures
            eof == (match *self {
                ReadStep::Again(_) => None,
                ReadStep::Done(_) => Some(false),
                ReadStep::Failed(_) => Some(true),
            }),
    {
        match self {
            ReadStep::Again(_) => None,
            ReadStep::Done(_) => Some(false),
            ReadStep::Failed(_) => Some(true),
        }
    }
}

/// Takes the result of a read, where `size` bytes were read already. What was read is put at the
/// end of the buffer; a read of nothing is the end of the output.
pub fn read_output(buffer: &mut Vec<u8>, size: usize, chunk: Result<&[u8], io::Error>) -> (step:
    ReadStep)
    requires
        size <= old(buffer)@.len(),
    ensures
        match chunk {
            Ok(bytes) => if bytes@.len() == 0 {
                &&& step matches ReadStep::Failed(e) && io_kind(e) is UnexpectedEof
                &&& final(buffer)@ == old(buffer)@
            } else {
                &&& step matches ReadStep::Again(k) && k == size + bytes@.len() && k <= final(
                    buffer)@.len()
                &&& final(buffer)@ == old(buffer)@ + bytes@
            },
            Err(e) => {
                &&& step == if io_would_block(e) {
                    ReadStep::Done(size)
                } else {
                    ReadStep::Failed(e)
                }
                &&& final(buffer)@ == old(buffer)@
            },
        },
{
    match chunk {
        Ok(bytes) => {
            if bytes.len() == 0 {
                return ReadStep::Failed(unexpected_eof());
            }
            buffer.extend_from_slice(bytes);
            assert(buffer@ =~= old(buffer)@ + bytes@);
            let _len: usize = buffer.len();
            ReadStep::Again(size + bytes.len())
        },
        Err(e) => {
            // The file descriptor is non-blocking, so it is expected to get this error once there
            // are no more bytes left to read.
            if would_block(&e) {
                ReadStep::Done(size)
            } else {
                ReadStep::Failed(e)
            }
        },
    }
}

} // verus!
