//! A protocol bounce: one session with an upstream chat server, relayed to
//! any number of downstream clients and other sinks.
//!
//! - `irc::grammar` states the line grammar; `irc::message` parses and
//!   writes lines against it.
//! - `irc::client` is the upstream session's logic, `irc::server` the
//!   downstream listener's, `irc::registry` its connection registry.
//! - `message` holds the canonical messages, `bouncer` the orchestrator's
//!   decisions, `history` and `auth` the two opaque collaborators.
pub mod auth;
pub mod bouncer;
pub mod error;
pub mod history;
pub mod irc;
pub mod message;
