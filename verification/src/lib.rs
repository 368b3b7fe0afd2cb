//! A relay that fans short text datagrams from many senders out to live
//! subscriber sessions, with per-session filtering and repeat suppression.
//!
//! The crate holds the relay's rules as verified functions on plain values.
//! Sockets, threads and timers are the caller's business: the caller performs
//! the sends that the relay asks for and reports back which of them failed.

pub mod error;
pub mod guarantees;
pub mod message;
pub mod reader;
pub mod request;
pub mod scale_listener;
pub mod scale_server;
pub mod session;
