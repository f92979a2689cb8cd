//! Segmented, compressed backups of a working directory: naming of the
//! archive parts, the settings of a run, and the rollover rules that split
//! the stream of file content into parts.

pub mod config;
pub mod date;
pub mod naming;
pub mod segment;

pub use config::{parse_segment_size, resolve_config, BackupConfig, ConfigError};
pub use date::CalendarDate;
pub use naming::{base_filename, segment_file_name};
pub use segment::{plan_entry, Action, BackupSession, EntryPlan, Phase, CHUNK_SIZE, DEFAULT_SEGMENT_SIZE};
