//! The logic of an online testing server: requests are uploaded over HTTP,
//! wait in one queue, are run by workers, and are followed by monitors.
//!
//! Everything here is a function of plain values. Sockets, files, child
//! processes, channels and threads belong to the program around the library.

pub mod config;
pub mod server;
pub mod table;
pub mod text;
