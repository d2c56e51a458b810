//! What the local transcripts and the cached history say about the last days.
pub mod cache_laws;
pub mod collect;
pub mod days;
pub mod figure_laws;
pub mod file_cache;
pub mod history;
pub mod laws;
pub mod summary;
pub mod transcripts;
pub mod walk;

pub use collect::collect_local_stats;
pub use days::{bucket_by_day, DayAgg};
pub use file_cache::{load_recent_entries, FileCache};
pub use history::{read_stats_cache, CachedDay};
pub use transcripts::{parse_jsonl_file, Entry, Usage};
pub use walk::recent_transcripts;
