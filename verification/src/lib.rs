//! Core of a small multi-user chat service.
//!
//! The server side models the connection lifecycle: a registry of connected
//! sessions, a bounded message history with replay on join, the credential
//! handshake, the command dispatcher, the broadcast router and the single-shot
//! teardown path.  The client side models the screen state machine that reacts
//! to incoming envelopes, plus the text-wrapping helpers of the terminal view.
//! The runtime shell (sockets, tasks, timers) lives outside this crate and
//! drives these functions with plain values.

pub mod app;
pub mod client_app;
pub mod codec;
pub mod commander;
pub mod envelope;
pub mod history;
pub mod laws;
pub mod router;
pub mod session;
pub mod text;
pub mod ui_text;
