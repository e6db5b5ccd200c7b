//! Core logic of a localtunnel-style reverse tunneling system.
//!
//! A client keeps a pool of outbound TCP connections to a rendezvous server;
//! the server maps public HTTP requests to a registered subdomain, borrows one
//! of that subdomain's idle tunnel sockets and splices the streams. This crate
//! holds the verified state and decision logic of both sides: the per-tenant
//! socket pool, the tenant registry, subdomain validation and extraction, the
//! registration flow, the proxy handler's decisions, and the dialer's
//! connection accounting. All network I/O lives outside, handing plain values
//! (ports, socket identifiers, header strings, clock readings) in and out.

use vstd::prelude::*;

pub mod api;
pub mod auth;
pub mod client;
pub mod error;
pub mod proxy;
pub mod state;
pub mod text;

verus! {

/// TCP keepalive idle time, in seconds, set on every tunnel socket.
pub const TCP_KEEPALIVE_TIME_SECS: u64 = 30;

/// TCP keepalive probe interval, in seconds.
pub const TCP_KEEPALIVE_INTERVAL_SECS: u64 = 10;

/// Number of keepalive probes before a peer is declared dead.
pub const TCP_KEEPALIVE_RETRIES: u32 = 5;

/// Timeout of one accept call in the tenant's acceptor loop, in seconds;
/// an expiry doubles as the trigger for the pool's liveness sweep.
pub const ACCEPT_TIMEOUT_SECS: u64 = 20;

/// How long a tenant may sit with an empty pool and no borrow before the
/// cleanup sweep may evict it, in milliseconds (one hour).
pub const CLEANUP_TIMEOUT_MS: u64 = 60 * 60 * 1000;

/// How long a dialer worker sleeps after a failed dial before releasing its
/// permit, in seconds.
pub const DIAL_RETRY_DELAY_SECS: u64 = 10;

/// Server-side configuration, as handed over by the command line.
pub struct ServerConfig {
    pub domain: String,
    pub api_port: u16,
    pub secure: bool,
    pub max_sockets: u8,
    pub proxy_port: u16,
    pub require_auth: bool,
}

} // verus!
