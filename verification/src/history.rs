//! Cell-based history state and domain events.
use vstd::prelude::*;

pub mod events;
pub mod laws;
pub mod state;

pub use events::{parse_unified_diff, DiffHunk, DiffLine, HistoryEvent};
pub use state::{HistoryId, HistoryRecord, HistoryState};

verus! {

} // verus!
