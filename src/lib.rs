//! Versioned storage for datasets: a commit graph, a content-addressed blob
//! store, a row-level index over tabular files and the decisions of the
//! chunked, retrying transfer that pushes commits to a remote.

pub mod hashing;
pub mod error;
pub mod commit;
pub mod commit_reader;
pub mod text;
pub mod frame;
pub mod row_index;
pub mod row_laws;
pub mod sync;
pub mod content_store;
pub mod paths;
pub mod commit_entry;
pub mod local_repository;
pub mod remote_status;
pub mod staged_data;
