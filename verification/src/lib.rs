//! Core logic of a meeting-scheduling service: an organizer proposes
//! candidate time windows, participants submit their availability, and
//! the service reconciles the submissions into a shared overlap view.
//!
//! The verified pieces are the interval merge applied to every
//! submitted range set, the aggregation of joined participant rows, the
//! per-event participant cap, the per-client rate limiter with its
//! identity derivation, and the request validation around them. All
//! times are absolute instants carried as plain integers; the transport
//! and persistence boundary lives outside this crate and converts at
//! the edges.

pub mod admission;
pub mod aggregate;
pub mod clock;
pub mod config;
pub mod error;
pub mod interval;
pub mod middleware;
pub mod models;
pub mod parse;
pub mod rate_limit;
pub mod token;
pub mod validation;
