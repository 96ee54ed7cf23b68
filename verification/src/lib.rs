//! Verified core of a CPU frequency-scaling settings tool.
//!
//! The library discovers per-core frequency-scaling settings from the text
//! of sysfs-style attribute files, represents them as typed `Core` records,
//! validates proposed changes against the records' invariants, and plans
//! batches of attribute writes in a fixed, deterministic order. All file
//! system access is left to the (unverified) caller: the library works on
//! plain values and states exactly what it does with them.

pub mod batch;
pub mod discovery;
pub mod errors;
pub mod record;
pub mod text;

pub use batch::Batch;
pub use batch::lemma_batch_history_complete;
pub use batch::lemma_batch_history_ordered;
pub use batch::BatchFailure;
pub use batch::ChangeKind;
pub use batch::WriteCmd;
pub use discovery::CoreEntry;
pub use discovery::core_number_from_name;
pub use discovery::cores_missing_governor;
pub use discovery::discover_cores;
pub use discovery::is_core_entry;
pub use discovery::sort_cores_by_num;
pub use discovery::select_core_entries;
pub use errors::CoreError;
pub use record::Core;
pub use record::CoreView;
pub use record::lemma_set_governor_idempotent;
pub use record::lemma_set_max_idempotent;
pub use record::lemma_set_min_idempotent;
pub use text::parse_freq;
pub use text::strip_control_chars;
