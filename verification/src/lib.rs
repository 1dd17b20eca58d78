//! Verified session registry and bidirectional I/O bridge for interactive
//! terminal sessions.
//!
//! The library models the lifecycle of many concurrent interactive shell
//! sessions, local (pseudo-terminal) and remote (shell channel on an
//! authenticated network session), under a uniform registry: entries are
//! created on spawn, fed by write, adjusted by resize, and destroyed either
//! by the session's own worker on end-of-stream or by an explicit kill.
//! Every lifecycle decision is made here, with a contract; the surrounding
//! runtime performs the actual process, terminal and network calls and
//! feeds their outcomes back in as plain values.

pub mod connections;
pub mod errors;
pub mod files;
pub mod git;
pub mod registry;
pub mod session;
pub mod text;
