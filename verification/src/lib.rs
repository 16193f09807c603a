//! Enforcement core of a focus blocker.
//!
//! - `hosts` keeps one fenced block of redirect lines in the text of the hosts
//!   file; `sync_laws` proves that doing so again changes nothing and that
//!   doing so with no domains gives the old text back.
//! - `server` reads the host out of the first bytes of a redirected
//!   connection, from a TLS ClientHello or an HTTP request, and decides what
//!   to log and what to answer.
//! - `processes` decides which running processes a blocklist condemns, never
//!   one on the whitelist, and terminates them; `process_list` sorts the list
//!   of processes for display.
//! - `session` owns the active session, the hardcore lock and the Pomodoro
//!   timer of `pomodoro`; `schedule` finds the rule that is due;
//!   `session_laws` proves what holds of every state.
//! - `heartbeat` tells the periodic driver what to do at each second.
//! - `security` hashes and checks the master password.
//! - `storage` holds the records that the persistent store hands over.
//! - `clock` and `text` serve the others.
//!
//! Reading files and sockets, the database and the window are the caller's
//! part: this library computes on plain values.

pub mod clock;
pub mod heartbeat;
pub mod hosts;
pub mod pomodoro;
pub mod process_list;
pub mod processes;
pub mod schedule;
pub mod security;
pub mod server;
pub mod session;
pub mod session_laws;
pub mod storage;
pub mod sync_laws;
pub mod text;
