//! Socket handling for running a lightning peer manager within a synchronous, multi-threaded
//! runtime.
//!
//! Reads and writes block, so every connection has two threads of its own, one that reads from
//! the peer and one that writes to it. This library holds what those threads decide; performing
//! it (socket calls, calls into the peer manager, spawning) is left to the program around it.
//!
//! - [`descriptor`]: the handle through which the peer manager sends data. It passes commands on
//!   to the two threads over crossbeam channels, by way of its [`outbox`], and never blocks.
//! - [`reader`]: what the reading thread does next, and when reads pause.
//! - [`writer`]: what the writing thread does next, and which bytes are still to be written.
//! - [`session`]: what holds over many sends through a descriptor and its clones, up to what the
//!   writing thread makes of them.
//! - [`connection`]: setting a connection up, with its identity and its channels.
//! - [`channel`]: the channels themselves; everything that is taken on trust of crossbeam is
//!   stated there.
//! - [`commands`] and [`address`]: the values that are passed around.

pub mod address;
pub mod channel;
pub mod commands;
pub mod connection;
pub mod descriptor;
pub mod outbox;
pub mod reader;
pub mod session;
pub mod writer;

pub use connection::setup_inbound;
pub use descriptor::SyncSocketDescriptor;
