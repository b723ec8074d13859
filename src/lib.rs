//! A size cache for watched filesystem subtrees, kept current from change
//! notifications, and the operations that query and steer it.

pub mod cache;
pub mod error;
pub mod laws;
pub mod path;
pub mod varlink;
pub mod watcher;
