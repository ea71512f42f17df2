//! Capability-scoped command channel between a host application and an
//! embedded script runtime: the ring log buffer, the shared-memory handshake,
//! the module registry, the decoding of host-supplied data and the error
//! representation of script failures.

pub mod logger;
pub mod text;
pub mod foreign;
pub mod error;
pub mod modules;
pub mod layout;
pub mod handshake;
pub mod commands;
pub mod state;
pub mod dispatch;
