//! An in-memory store for display settings and live aircraft positions.
//!
//! The store keeps one [`models::Settings`] record and the most recent
//! observation of every aircraft, keyed by name. Observations that have not
//! been refreshed within the visibility window are hidden from reads but are
//! kept in storage and can still be updated in place.
//!
//! The store reads no clock. Every operation that depends on time takes the
//! current reading of a monotonic clock as an argument, in nanoseconds; the
//! caller chooses where the clock starts and uses one clock throughout.
//!
//! * [`models`]: the data and their views.
//! * [`semantics`]: what the operations mean, as functions on views.
//! * [`handlers`]: the operations themselves.
//! * [`theorems`]: what follows for whole runs of operations.

pub mod handlers;
pub mod models;
pub mod semantics;
pub mod theorems;
