//! What the library takes from other crates and from `std`: the declared types, and the functions
//! whose contracts are believed rather than proved.
use crate::engine::match_request::MatchOutcome;
use crate::text::text_of;
use crate::worker::MatchOutcome as WorkerOutcome;
use futures::sync::oneshot;
use regex::Regex;
use std::io;
use std::time::Duration;
use tokio_core::reactor::Timeout as Timer;
use vstd::prelude::*;
use vstd::utf8::{encode_utf8, valid_utf8};

verus! {

/// `std::io::Error`, carried as it is from the operating system to the client.
#[verifier::external_type_specification]
#[verifier::external_body]
pub struct ExIoError(io::Error);

/// `regex::Regex`, a compiled regular expression.
#[verifier::external_type_specification]
#[verifier::external_body]
pub struct ExRegex(regex::Regex);

/// `tokio_core::reactor::Timeout`, a running timer. It is polled by the event loop only.
#[verifier::external_type_specification]
#[verifier::external_body]
pub struct ExTimer(Timer);

/// `futures::sync::oneshot::Sender`, the end of a channel that takes one value.
#[verifier::external_type_specification]
#[verifier::external_body]
#[verifier::reject_recursive_types(T)]
pub struct ExSender<T>(oneshot::Sender<T>);

/// `futures::sync::oneshot::Receiver`, the end of a channel that yields one value.
#[verifier::external_type_specification]
#[verifier::external_body]
#[verifier::reject_recursive_types(T)]
pub struct ExReceiver<T>(oneshot::Receiver<T>);

/// Where `regex::Regex::find` sees the leftmost-first match of an expression in a text, as byte
/// offsets of its start and its end, if there is one.
pub uninterp spec fn regex_find(re: Regex, text: Seq<char>) -> Option<(nat, nat)>;

/// The text that `regex::Regex::as_str` gives back for an expression: what it was compiled from.
pub uninterp spec fn regex_source(re: Regex) -> Seq<char>;

/// The error that `std::str::from_utf8` finds in some bytes, if it finds one: its
/// `Utf8Error::valid_up_to` and its `Utf8Error::error_len`.
pub uninterp spec fn utf8_error(bytes: Seq<u8>) -> Option<(nat, Option<nat>)>;

/// The kind of an error, as far as the library tells kinds apart.
#[derive(Debug, Clone, Copy, PartialEq, Eq, Structural)]
pub enum IoKind {
    WouldBlock,
    UnexpectedEof,
    Other,
}

/// What `std::io::Error::kind` says of an error.
pub uninterp spec fn io_kind(e: io::Error) -> IoKind;

/// An error says that a file descriptor is not ready.
pub open spec fn io_would_block(e: io::Error) -> bool {
    io_kind(e) is WouldBlock
}

/// The span of time that `std::time::Duration::from_millis` makes of some milliseconds.
pub uninterp spec fn duration_of_millis(millis: u64) -> Duration;

/// A span of byte offsets, as numbers.
pub open spec fn span_view(span: Option<(usize, usize)>) -> Option<(nat, nat)> {
    match span {
        Some((start, end)) => Some((start as nat, end as nat)),
        None => None,
    }
}

/// Calls `regex::Regex::find`. The span depends on the expression and on the text alone, and it
/// lies inside the text. That its ends are boundaries between characters is not claimed: an
/// expression with a word boundary of single bytes, such as `(?-u:\B)`, need not match at one.
#[verifier::external_body]
pub(crate) fn find_regex(re: &Regex, text: &str) -> (span: Option<(usize, usize)>)
    ensures
        span_view(span) == regex_find(*re, text@),
        span matches Some((start, end)) ==> start <= end <= encode_utf8(text@).len(),
{
    re.find(text).map(|found| (found.start(), found.end()))
}

/// `regex::Regex::as_str` gives back the text that the expression was compiled from.
pub assume_specification[ regex::Regex::as_str ](re: &regex::Regex) -> (source: &str)
    ensures
        source@ == regex_source(*re),
;

/// `regex::Regex::clone` shares what was compiled: the copy has the same text and finds the same
/// matches.
pub assume_specification[ <regex::Regex as Clone>::clone ](re: &regex::Regex) -> (copy:
    regex::Regex)
    ensures
        regex_source(copy) == regex_source(*re),
        forall|text: Seq<char>| #[trigger] regex_find(copy, text) == regex_find(*re, text),
;

/// The error of a look at some bytes, as numbers.
pub open spec fn utf8_error_view(error: Option<(usize, Option<usize>)>) -> Option<
    (nat, Option<nat>),
> {
    match error {
        Some((start, Some(len))) => Some((start as nat, Some(len as nat))),
        Some((start, None)) => Some((start as nat, None)),
        None => None,
    }
}

/// Calls `std::str::from_utf8`, and on its error `Utf8Error::valid_up_to` and
/// `Utf8Error::error_len`. There is an error exactly where the bytes are not valid UTF-8. It stands
/// behind the longest valid start of the bytes, it takes one byte at least where its length is
/// given, and it lies inside the bytes. How long it is depends on the bytes alone.
#[verifier::external_body]
pub(crate) fn find_utf8_error(bytes: &[u8]) -> (error: Option<(usize, Option<usize>)>)
    ensures
        utf8_error_view(error) == utf8_error(bytes@),
        error is None <==> valid_utf8(bytes@),
        error matches Some((start, len)) ==> {
            &&& start < bytes@.len()
            &&& valid_utf8(bytes@.take(start as int))
            &&& forall|n: int| start < n <= bytes@.len() ==> !valid_utf8(#[trigger] bytes@.take(n))
            &&& len matches Some(k) ==> 0 < k && start + k <= bytes@.len()
        },
{
    match std::str::from_utf8(bytes) {
        Ok(_) => None,
        Err(e) => Some((e.valid_up_to(), e.error_len())),
    }
}

/// Calls `String::from_utf8_lossy`. Bytes that are valid UTF-8 are decoded as they are. In others,
/// what `std::str::from_utf8` calls the error becomes one U+FFFD, and decoding resumes behind it,
/// as `Utf8Error::error_len` documents it; an error that reaches the end of the bytes is the last.
#[verifier::external_body]
pub(crate) fn from_utf8_lossy(bytes: &[u8]) -> (text: String)
    ensures
        text@ == text_of(bytes@),
{
    String::from_utf8_lossy(bytes).into_owned()
}

/// Calls `std::io::Error::kind`, and tells apart the kind by which a non-blocking file descriptor
/// says that it is not ready, and the one by which a reader says that there is nothing left.
#[verifier::external_body]
pub(crate) fn kind_of(e: &io::Error) -> (kind: IoKind)
    ensures
        kind == io_kind(*e),
{
    match e.kind() {
        io::ErrorKind::WouldBlock => IoKind::WouldBlock,
        io::ErrorKind::UnexpectedEof => IoKind::UnexpectedEof,
        _ => IoKind::Other,
    }
}

/// Whether an error says that a file descriptor is not ready.
pub(crate) fn would_block(e: &io::Error) -> (b: bool)
    ensures
        b == io_would_block(*e),
{
    match kind_of(e) {
        IoKind::WouldBlock => true,
        _ => false,
    }
}

/// Calls `std::io::Error::from` on `ErrorKind::UnexpectedEof`: the error is of that kind.
#[verifier::external_body]
pub(crate) fn unexpected_eof() -> (e: io::Error)
    ensures
        io_kind(e) is UnexpectedEof,
{
    io::Error::from(io::ErrorKind::UnexpectedEof)
}

/// Calls `to_string` on a `std::io::Error`. The text may come from the operating system, so nothing
/// is said of it.
#[verifier::external_body]
pub(crate) fn io_error_text(e: &io::Error) -> (text: String) {
    e.to_string()
}

/// `std::time::Duration::from_millis` makes a span of time of as many milliseconds as it is given:
/// the same number makes the same span.
pub assume_specification[ Duration::from_millis ](millis: u64) -> (duration: Duration)
    ensures
        duration == duration_of_millis(millis),
;

/// The other end of a channel on which input is acknowledged, as
/// `futures::sync::oneshot::channel` makes it.
pub uninterp spec fn ack_receiver(tx: oneshot::Sender<()>) -> oneshot::Receiver<()>;

/// The other end of a channel on which a request to a session is answered, as
/// `futures::sync::oneshot::channel` makes it.
pub uninterp spec fn outcome_receiver(tx: oneshot::Sender<MatchOutcome>) -> oneshot::Receiver<
    MatchOutcome,
>;

/// The other end of a channel on which a request to a worker is answered, as
/// `futures::sync::oneshot::channel` makes it.
pub uninterp spec fn worker_receiver(tx: oneshot::Sender<WorkerOutcome>) -> oneshot::Receiver<
    WorkerOutcome,
>;

/// Calls `futures::sync::oneshot::channel` for an acknowledgement. The two ends are those of one
/// channel, and a sender has no other receiver.
#[verifier::external_body]
pub(crate) fn ack_channel() -> (ends: (oneshot::Sender<()>, oneshot::Receiver<()>))
    ensures
        ends.1 == ack_receiver(ends.0),
{
    oneshot::channel::<()>()
}

/// Calls `futures::sync::oneshot::channel` for the answer of a session. The two ends are those of
/// one channel, and a sender has no other receiver.
#[verifier::external_body]
pub(crate) fn outcome_channel() -> (ends: (
    oneshot::Sender<MatchOutcome>,
    oneshot::Receiver<MatchOutcome>,
))
    ensures
        ends.1 == outcome_receiver(ends.0),
{
    oneshot::channel::<MatchOutcome>()
}

/// Calls `futures::sync::oneshot::channel` for the answer of a worker. The two ends are those of
/// one channel, and a sender has no other receiver.
#[verifier::external_body]
pub(crate) fn worker_channel() -> (ends: (
    oneshot::Sender<WorkerOutcome>,
    oneshot::Receiver<WorkerOutcome>,
))
    ensures
        ends.1 == worker_receiver(ends.0),
{
    oneshot::channel::<WorkerOutcome>()
}

/// `futures::sync::oneshot::Sender::send` takes the one value of the channel. Where the other end
/// is gone, the very value that was to be sent comes back. Whether the other end is gone is up to
/// its holder, so nothing says when that happens; nor is it said that the value is received.
pub assume_specification<T>[ oneshot::Sender::<T>::send ](
    tx: oneshot::Sender<T>,
    t: T,
) -> (sent: Result<(), T>)
    ensures
        sent matches Err(back) ==> back == t,
;

/// Spans and errors are told by their numbers as they are.
pub proof fn law_numbers_stay_what_they_are(
    span: Option<(usize, usize)>,
    error: Option<(usize, Option<usize>)>,
)
    ensures
        span matches Some((start, end)) ==> span_view(span) == Some((start as nat, end as nat)),
        span is None ==> span_view(span) is None,
        error matches Some((start, Some(len))) ==> utf8_error_view(error) == Some(
            (start as nat, Some(len as nat)),
        ),
        error matches Some((start, None)) ==> utf8_error_view(error) == Some(
            (start as nat, None::<nat>),
        ),
        error is None ==> utf8_error_view(error) is None,
{
}

} // verus!
