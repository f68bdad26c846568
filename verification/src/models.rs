//! The stores and the operations on them.

pub mod blobs;
pub mod checked;
pub mod file;
pub mod files_model;
pub mod folder;
pub mod folders_model;
pub mod laws;
pub mod preserve;
pub mod quota;
pub mod sessions_model;
pub mod store;
pub mod tree;
pub mod user;
pub mod users_model;
