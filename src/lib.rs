//! The verified core of a small terminal-sharing server: one shell on a
//! pseudo-terminal, any number of attached clients.
//!
//! - `broadcast`: the single reader's fan-out of terminal output to every
//!   subscriber, each through a bounded queue of its own.
//! - `input`: the queue that gathers every client's input, and the writing
//!   of each chunk to the terminal whole and in order.
//! - `connection`: a client connection's life, the registry of connections,
//!   and the accept loop's decisions.
//! - `pty`: the terminal's size and its one-time write handle.
//! - `fd`: what descriptor calls return, and which descriptors a spawned
//!   shell closes.

pub mod broadcast;
pub mod connection;
pub mod fd;
pub mod input;
pub mod pty;
