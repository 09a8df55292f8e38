//! Native backend core of a desktop application: the verified in-memory
//! secure key-value store and the command handlers that carry real logic.
//! Host I/O and the surrounding plugin host stay outside this crate.

pub mod db;
pub mod secure_store;
