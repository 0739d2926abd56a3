//! A small widget execution platform.
//!
//! A fixed catalogue of declarative widget definitions, each paired with a
//! backend computation, is executed on demand; each execution's timing,
//! output, and errors are recorded as an immutable run record, and an
//! append-only store exposes the run history per widget.

pub mod api;
pub mod config;
pub mod database;
pub mod encode;
pub mod widget;
