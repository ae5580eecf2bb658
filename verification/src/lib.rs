//! Request-dispatch core for a reverse-proxy server.
//!
//! Given an inbound request, this library decides which virtual-host
//! configuration applies, rewrites the request path when the match is a
//! sub-path mount with prefix stripping, and keeps that routing decision
//! recoverable across the independent processing phases a proxied request
//! passes through, including a response phase that may run without the
//! per-request dispatch context.
//!
//! The pieces, leaves first:
//! - [`router`]: an immutable lookup structure mapping `(host, path)` pairs
//!   to route entries, with longest-prefix matching per host.
//! - [`session`]: the request-scoped state the phases read and write: the
//!   request target, the host information, and the session-attached slots
//!   that mirror the routing decision.
//! - [`handler`]: the phase coordinator, resolving hosts through aliases and
//!   a default host and driving the per-phase handler resolution.
//! - [`configuration`]: the build-time configuration that a router and its
//!   alias table are constructed from.
//! - [`static_files`]: configuration data for a static-files handler, with
//!   command-line option merging.
//! - [`startup`]: a minimal application wrapper delegating every phase to a
//!   contained handler.

pub mod router;
pub mod session;
pub mod handler;
pub mod configuration;
pub mod startup;
pub mod static_files;
