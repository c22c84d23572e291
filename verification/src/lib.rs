//! Eksplora: the verified core of a search-oriented file manager.
//!
//! Everything the app decides and computes is here, stated over plain values:
//! paths as text, the in-memory index, search and listing, what a scan adds
//! up to, file operations, the Recycle Bin, the change journal. What is read
//! from the disk or from the system comes in as values.

pub mod bin_laws;
pub mod bytes;
pub mod cache_laws;
pub mod cancel;
pub mod complete;
pub mod completion_laws;
pub mod copy_laws;
pub mod counts;
pub mod file_path;
pub mod fs_ops;
pub mod fuzzy;
pub mod index_laws;
pub mod index_model;
pub mod indexer;
pub mod listing_laws;
pub mod live_counts;
pub mod operation_laws;
pub mod order_laws;
pub mod parallel;
pub mod path_laws;
pub mod paths;
pub mod prune_laws;
pub mod query;
pub mod query_laws;
pub mod record_laws;
pub mod recycle;
pub mod saving;
pub mod scan_laws;
pub mod scanner;
pub mod search_laws;
pub mod session;
pub mod shallow;
pub mod sort;
pub mod spelling_laws;
pub mod state_laws;
pub mod system_laws;
pub mod text;
pub mod text_laws;
pub mod tree;
pub mod tree_laws;
pub mod types;
pub mod usn;
pub mod usn_laws;
pub mod walk;
pub mod walk_laws;
pub mod watcher;
pub mod windows_integration;

pub use complete::{complete_path, Completion};
pub use file_path::FilePath;
pub use indexer::Index;
pub use live_counts::LiveDirCounts;
pub use query::{
    list_dir, search, search_cancelable, search_tree_cancelable, ListOptions, ListedEntry,
    MatchedEntry, QueryOptions, TreeEntry,
};
pub use scanner::ScanOptions;
pub use shallow::scan_shallow;
pub use types::FileEntry;
pub use walk::{
    scan, scan_with, scan_with_full, scan_with_full_streaming, stat_one, ScanStats, STREAM_BATCH,
};
