//! An authorization service: it issues, validates and lazily rotates
//! session credentials, and decides whether a caller, identified by a
//! role and a set of group memberships, may act on a protected route or
//! on an external origin submitted by a forward-auth proxy.
//!
//! The pieces: a pure claims codec (`codec`), the signing boundary and
//! other outside calls (`trusted`), the token lifecycle over a liveness
//! registry (`jwt`, `registry`), the closed role hierarchy (`roles`),
//! the wildcard rule engine (`origin`, `rules`), the record tables
//! (`models`, `stores`), and the request-processing stages that compose
//! them (`pipeline`).

pub mod errors;
pub mod strutil;
pub mod roles;
pub mod models;
pub mod registry;
pub mod trusted;
pub mod codec;
pub mod jwt;
pub mod origin;
pub mod stores;
pub mod rules;
pub mod pipeline;
