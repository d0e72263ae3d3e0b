//! A read-only disk usage scanner: from the entries read below a path it
//! reports the total size, the largest files and directories, likely
//! cleanup candidates (temporary, cache, log, dump and backup data) and the
//! places that could not be read. It never changes anything on disk.
pub mod cleanup;
pub mod cli;
pub mod env_expand;
pub mod order;
pub mod render;
pub mod scan;
pub mod size_format;
pub mod text;
pub mod tree_counts;
pub mod tree_paths;

pub use cleanup::{CleanupReason, PathInfo};
pub use scan::{
    analyze, CleanupCandidate, DirEntry, DirListing, EntryKind, ScanError, ScanNode, ScanReport,
    SizedEntry,
};
pub use size_format::format_bytes;
