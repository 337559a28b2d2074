//! Keeps an installed file tree in step with a remote manifest: which entries
//! to skip, check or fetch, what the run adds up to, and how revision-numbered
//! backups of the installed tree are listed, rotated and restored.

pub mod text;

pub mod args;
pub mod backup;
pub mod classify;
pub mod http;
pub mod manifest;
pub mod stats;
pub mod tree;

pub use classify::{classify, classify_with_digest, is_skipped, Action, SyncOptions};
pub use manifest::{check_exit_code, download_url, load_local, needs_update, FileEntry, Manifest};
pub use stats::{start_sync, SyncStats, SyncTally};
pub use backup::{expired_backups, list_backups, version_files};
pub use args::{get, Args};
pub use http::get_body_string;
