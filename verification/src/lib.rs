//! A per-task duration report over a chronologically ordered time log.
//!
//! A log is a sequence of timestamped boundary records ([`Entry`]): each
//! record's timestamp ends the interval that the previous record's timestamp
//! opened, and its task label names what was being done during that interval.
//! [`Activities::new_from_entries`] folds such a sequence into one
//! [`Activity`] per distinct task label, in first-occurrence order, together
//! with a work total and a slack total, and the result can be rendered as a
//! fixed-format text report.

use vstd::prelude::*;

pub mod activity;
pub mod duration;
pub mod entry;
pub mod text;

verus! {

pub use activity::Activities;
pub use activity::Activity;
pub use duration::Duration;
pub use entry::Entry;

} // verus!
