//! An in-memory key-value store that speaks a line-framed wire protocol and
//! replicates from a master to its replicas, as a library of verified
//! functions on plain values.
//!
//! - [`resp`] holds the values of the protocol and how they are written;
//!   [`deser`] holds the grammar by which they are read and the readers.
//!   [`round_trip`] and [`streaming`] state what reading and writing have to
//!   do with one another.
//! - [`commands`] holds the commands, how they are parsed from values and how
//!   they are sent as values.
//! - [`db`] holds the store as a state machine: what it does with one query
//!   at one time. [`db_laws`] states what follows for runs of queries, for
//!   replication and for `WAIT`.
//! - [`svc`] holds what a session decides between reading a request and
//!   writing the answer.
//!
//! Sockets, tasks, channels and timers are not part of the library: whoever
//! uses it reads bytes and the clock, hands them in, and carries out what
//! comes back.

pub mod cmd_parsing;
pub mod cmd_proc;
pub mod commands;
pub mod common;
pub mod config;
pub mod db;
pub mod db_laws;
pub mod debug_util;
pub mod decimal;
pub mod deser;
pub mod misc_util;
pub mod resp;
pub mod round_trip;
pub mod streaming;
pub mod svc;
