//! The entry points that a request layer calls.

pub mod api;
