//! The core of an in-memory key-value server that speaks a Redis-like wire protocol.
//!
//! - [`resp`] holds the protocol values, their wire format with its parser, and the
//!   command engine that runs a value on the store.
//! - [`storage`] holds the store with its lazy expiry, and the replication state.
//! - [`replication`] holds the replica's side of the handshake with its master.
//! - [`config`] reads the configuration from the command line.
//! - [`decimal`], [`text`] and [`utils`] hold what these share: decimal numbers, texts
//!   and hexadecimal digits.

pub mod config;
pub mod decimal;
pub mod replication;
pub mod resp;
pub mod storage;
pub mod text;
pub mod utils;
