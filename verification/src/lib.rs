//! A small directive service, kept apart from its sockets so that its rules are proved.
//!
//! * `frame`: the wire format, a four-byte big-endian length and the payload.
//! * `dispatch`: the table of directives, and outcomes for what their handlers bring back.
//! * `connection`: one connection's protocol, from event to action.
//! * `supervisor`: the table of open connections, each untouched by the others.
//! * `actor`: the single owner of shared cells, which answers one request at a time.
//! * `auth`, `error`: the web front's tokens, sign-in and errors.
//! * `text`: text and the bytes that spell it.
pub mod actor;
pub mod auth;
pub mod connection;
pub mod dispatch;
pub mod error;
pub mod frame;
pub mod supervisor;
pub mod text;
