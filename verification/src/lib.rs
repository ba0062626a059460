//! Classification and safe-move engine for tidying a single directory.
//!
//! The crate decides; it never touches the file system. A caller lists the
//! directory, hands the listing to [`scan_and_sort`], and then performs each
//! [`Action`] that the [`SortEngine`] asks for, answering with an [`Event`].

pub mod classify;
pub mod defaults;
pub mod engine;
pub mod error;
pub mod mapping;
pub mod plan;
pub mod report;
pub mod resolve;
pub mod scan;
pub mod text;

pub use classify::{classify, Entry, EntryKind};
pub use defaults::{default_mappings, init_db};
pub use engine::{Action, Event, MoveOutcome, SortEngine};
pub use error::Error;
pub use mapping::{
    find_path_mapping, get_all_mappings, get_path_mapping, set_path_mapping, AppState, PathMapping,
};
pub use plan::Job;
pub use report::SortResult;
pub use resolve::candidate_target;
pub use scan::{get_db_path, get_desktop_path, scan_and_sort};
