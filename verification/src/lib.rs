//! A room-based chat engine: sessions, bounded room and private logs,
//! reactions, edits, soft deletion, rate limiting and directive dispatch,
//! with the transport layer kept outside. The engine is a pure core: every
//! operation takes the server state and plain values, mutates the state,
//! and returns the envelopes to deliver, each addressed to a session, a
//! room or everyone.
pub mod auth;
pub mod client;
pub mod commands;
pub mod helpers;
pub mod metrics;
pub mod rate_limit;
pub mod room;
pub mod text;
pub mod types;
pub mod typing;
