//! Drive interactive programs: send input to a process that runs in a terminal of its own, and wait
//! for the output that is expected of it.
//!
//! Nothing in here reads, writes or keeps the time. The library decides: which pattern of which
//! request matches where, what a request is answered and when, which bytes are written next and
//! which are left. What a read, a write or a timer has shown is handed in as a value.
pub mod client;
pub mod engine;
pub mod outside;
pub mod text;
pub mod worker;

pub use client::{Client, ExpectError};
pub use engine::errors::{InitError, SendError, SpawnError};
pub use engine::match_request::MatchRequestBuilder as MatchRequest;
pub use engine::matching::Match;
