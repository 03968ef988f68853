//! The policy and protocol core of a small forward proxy for HTTP and HTTPS:
//! request parsing, access control, Basic authentication, URL filtering,
//! admission control and the decisions of the per-connection state machine.

pub mod acl;
pub mod addr;
pub mod auth;
pub mod config;
pub mod connection;
pub mod error;
pub mod filter;
pub mod headers;
pub mod origin;
pub mod proxy;
pub mod pump;
pub mod server;
pub mod stats;
pub mod text;
pub mod utils;
