//! The sessions that an event loop runs, and the requests that clients put to them.
pub mod client;
pub mod errors;
pub mod eventloop;
pub mod laws;
pub mod match_request;
pub mod matching;
pub mod meaning;
pub mod session;
pub mod transfer;
