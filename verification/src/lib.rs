//! A local credential vault for a backup command-line tool: password-based
//! key derivation, authenticated encryption of stored credentials, a
//! password-protected store of object-storage destinations, a short-lived
//! on-disk session cache, and the decisions of the detached watchdog that
//! expires stale sessions.

pub mod backup;
pub mod beacon;
pub mod cli;
pub mod commands;
pub mod config;
pub mod encryption;
pub mod session;
