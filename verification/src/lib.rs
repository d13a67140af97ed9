//! Attendance tracking backend: geofenced check-ins over an embedded
//! key-value store.
//!
//! The library owns the domain logic: entity model, a character-level
//! codec for durable entity records, great-circle distance in fixed-point
//! integer arithmetic, the storage layer over `sled`, and the command
//! surface (login, user/location management, check-in). The surrounding
//! process shell (IPC dispatch, window plumbing) lives outside the
//! library and calls in with plain values.

pub mod models;
pub mod geo;
pub mod codec;
pub mod store;
pub mod database;
pub mod commands;
