//! A polling-based directory watcher.
//!
//! The watcher observes a validated target (an absolute root directory and a
//! set of glob patterns), keeps a sorted, duplicate-free snapshot of the
//! matching paths, and records every observed change in an append-only event
//! log.  A manual `refresh` performs one poll; a background loop driven by a
//! host program repeats polls while the watcher is running, guided by the
//! verified control state machine.

mod error;
mod event;
mod order;
mod snapshot;
mod target;
mod watcher;

pub use error::InitTargetError;
pub use error::WatchingError;

pub use order::lemma_lex_lt_asymmetric;
pub use order::lemma_lex_lt_irreflexive;
pub use order::lemma_lex_lt_transitive;
pub use order::lemma_lex_lt_trichotomy;
pub use order::lemma_sorted_distinct_unique;
pub use order::lex_lt;
pub use order::sorted_distinct;
pub use order::str_lt;

pub use snapshot::diff;
pub use snapshot::lemma_diff_partition;
pub use snapshot::lemma_seq_diff_contains;
pub use snapshot::lemma_seq_diff_self;
pub use snapshot::normalize;
pub use snapshot::seq_diff;

pub use target::PathKind;
pub use target::_Target;
pub use target::is_absolute_path;
pub use target::spec_is_absolute;
pub use target::target_of_probe;

pub use event::Event;
pub use event::EventView;
pub use event::diff_events;
pub use event::log_wf;
pub use event::paths_of;
pub use event::stamp_of;

pub use watcher::DEFAULT_SYNC_IDLE;
pub use watcher::DirWatcher;
pub use watcher::LoopCommand;
pub use watcher::LoopState;
pub use watcher::spec_effective_idle;
