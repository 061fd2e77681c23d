//! Simulation and synchronisation core of a small real-time multiplayer
//! shooter.
//!
//! - [`message`] and [`codec`]: the protocol's messages and their wire form.
//! - [`connection`]: per-peer ordering and acknowledgment of reliable
//!   messages.
//! - [`entity`]: local entity handles and the translation of network ids.
//! - [`dispatch`] and [`net`]: what a received datagram does, by role.
//! - [`collision`] and [`projectile`]: the decisions of the two physics
//!   engines, over magnitudes that the caller measures.
//! - [`magnitude`]: which bit patterns are magnitudes, and why comparing
//!   them compares the numbers.
//! - [`actions`], [`input`] and [`arguments`]: what an actor can be told to
//!   do, and what the keyboard and the command line ask for.
//!
//! Nothing here blocks, reads a socket or computes with real numbers: state
//! goes in, and decisions come out as data for a single writer to apply.

pub mod actions;
pub mod arguments;
pub mod codec;
pub mod collision;
pub mod connection;
pub mod dispatch;
pub mod entity;
pub mod input;
pub mod magnitude;
pub mod message;
pub mod net;
pub mod projectile;
