//! Core logic of an authenticating forward HTTP proxy node.
//!
//! The crate verifies the node's decision logic: HMAC request
//! authentication with a replay window, the destination policy filter,
//! dual-stack stream classification, request dispatch and header
//! sanitation, the control-plane reconciliation rules, and the dynamic
//! configuration snapshot. Network and file I/O live outside the crate;
//! callers hand the functions here plain values and act on the returned
//! decisions.

pub mod auth;
pub mod config;
pub mod controller;
pub mod crypto;
pub mod filter;
pub mod gauge;
pub mod hardware;
pub mod proxy;
pub mod text;
