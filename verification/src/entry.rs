//! One timestamped task-boundary record from the log.

use vstd::prelude::*;

verus! {

/// The largest magnitude a timestamp may have, in minutes.
///
/// Timestamps come from a calendar date and time of day, whose range is
/// bounded; two raised to the fiftieth power of minutes is over two billion
/// years either side of the epoch, so every interval between two timestamps
/// and every total over a log fits comfortably in an `i64`.
pub const MAX_ABS_STOP: i64 = 0x4_0000_0000_0000;

/// One record of the log: a task label and the minute at which work on it
/// stopped.
///
/// The timestamp is kept as signed minutes from an arbitrary fixed epoch.
/// The record whose timestamp is `stop` closes the interval opened by the
/// previous record's timestamp; `task` names what was being done during that
/// interval. The first record of a log only opens the first interval, so its
/// own label is never charged.
pub struct Entry {
    /// Minutes from the epoch at which the interval ended.
    pub stop: i64,
    /// The label of the task active up to `stop`; compared by exact
    /// character equality, the slack marker included.
    pub task: String,
}

/// The assumed shape of a log: timestamps in calendar range and in
/// chronological (non-decreasing) order. Enforcing the order is the log
/// store's business, not this crate's; the aggregation simply assumes it.
pub open spec fn entries_wf(s: Seq<Entry>) -> bool {
    &&& forall|i: int|
        0 <= i < s.len() ==> -MAX_ABS_STOP <= (#[trigger] s[i]).stop <= MAX_ABS_STOP
    &&& forall|i: int| 1 <= i < s.len() ==> s[i - 1].stop <= (#[trigger] s[i]).stop
}

/// A prefix of a well-formed log is itself well-formed.
pub proof fn lemma_entries_wf_take(s: Seq<Entry>, n: int)
    requires
        entries_wf(s),
        0 <= n <= s.len(),
    ensures
        entries_wf(s.take(n)),
{
    assert forall|i: int| 0 <= i < s.take(n).len() implies -MAX_ABS_STOP <= (#[trigger] s.take(
        n,
    )[i]).stop <= MAX_ABS_STOP by {
        assert(s.take(n)[i] == s[i]);
    }
    assert forall|i: int| 1 <= i < s.take(n).len() implies s.take(n)[i - 1].stop <= (#[trigger] s.take(
        n,
    )[i]).stop by {
        assert(s.take(n)[i] == s[i]);
        assert(s.take(n)[i - 1] == s[i - 1]);
    }
}

} // verus!
