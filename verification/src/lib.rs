//! Penguin is a development HTTP server combining a static file server for a
//! set of mount points, a reverse proxy for everything else, and a control
//! plane that pushes reload/message events to connected browser tabs.
//!
//! This crate holds the verified core: configuration and its validation, the
//! request router, the HTML injector, the file-server and proxy decision
//! logic (header filtering, body sniffing, re-encoding, CSP rewriting), and
//! the WebSocket session state machine. The asynchronous plumbing around it
//! (sockets, timers, the event loop) lives outside the library.

#![verifier::loop_isolation(false)]

use vstd::prelude::*;

pub mod strutil;
pub mod config;
pub mod csp;
pub mod fileserver;
pub mod inject;
pub mod proxy;
pub mod routing;
pub mod uri;
pub mod ws;

pub use config::Builder;
pub use config::Config;
pub use config::ConfigError;
pub use config::Mount;
pub use config::ProxyTarget;
pub use config::ProxyTargetParseError;
pub use config::Scheme;
pub use config::DEFAULT_CONTROL_PATH;
pub use config::normalize_path;

verus! {

/// An event pushed to all connected browser sessions: either a page reload or
/// a message to display as an overlay.
#[derive(Debug, Clone)]
pub enum Action {
    Reload,
    Message(String),
}

} // verus!
