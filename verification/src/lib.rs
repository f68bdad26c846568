//! Storage core of a personal cloud drive: a per-user forest of folders and
//! files with quota accounting, a blob store for file contents, a session
//! store with sliding expiry, and the account lifecycle that ties them
//! together.

pub mod errors;
pub mod models;
pub mod routes;
pub mod text;
