//! Change detection for watched source repositories.
//!
//! A pass over a repository pulls the commits that are new since the last
//! one (`sync`), and puts each to the repository's notification rule
//! (`evaluate`), whose patterns match in substring-inclusive mode
//! (`pattern`). The last-synced commit of each repository is kept in a
//! ledger (`history`).
pub mod commit;
pub mod config;
pub mod evaluate;
pub mod history;
pub mod pattern;
pub mod repository;
pub mod sync;
