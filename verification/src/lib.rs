//! The logic of a small point-to-point datagram transfer: a fixed-size
//! header announces a short text message or a small file, the receiver
//! answers with a one-byte readiness signal, and the payload follows in a
//! datagram of its own.
//!
//! - [`header`] encodes and decodes the header.
//! - [`sender`] and [`receiver`] are the two sides, each a state machine
//!   that is told what happened and says what to do next.
//! - [`rename`] finds the name under which a received file is stored
//!   without writing over another one.
//! - [`transfer`] states what holds of the two sides together.
//!
//! Everything here computes on plain values. Sockets and files belong to
//! the program that drives the two state machines.

pub mod endpoint;
pub mod error;
pub mod header;
pub mod receiver;
pub mod rename;
pub mod sender;
pub mod signal;
pub mod transfer;
mod text;
