//! Aggregation of a log into per-task durations and work/slack totals.

use vstd::prelude::*;

use crate::duration::Duration;
use crate::entry::Entry;
use crate::text::append_decimal;
use crate::text::append_padded2;
use crate::text::dec_digits;
use crate::text::padded2;

verus! {

/// A task label designates slack (break) time when it starts with the
/// two-character marker `**`; every other label designates work.
pub open spec fn is_slack(name: Seq<char>) -> bool {
    name.len() >= 2 && name[0] == '*' && name[1] == '*'
}

/// One task's accumulated duration across every interval charged to its
/// label.
pub struct Activity {
    /// The task label, exactly as it appears in the log.
    pub name: String,
    /// The elapsed time accumulated over every interval sharing the label.
    pub duration: Duration,
}

/// The report computed from one log: the per-task durations in
/// first-occurrence order and the two classification totals.
pub struct Activities {
    /// One record per distinct task label, ordered by the label's first
    /// appearance among the charged entries.
    pub activities: Vec<Activity>,
    /// The summed length of every interval whose label is not marked as
    /// slack.
    pub total_work: Duration,
    /// The summed length of every interval whose label is marked as slack.
    pub total_slack: Duration,
}

/// The length in minutes of the interval that entry `i` closes: the gap
/// from the previous entry's timestamp to its own.
pub open spec fn interval_at(s: Seq<Entry>, i: int) -> int
    recommends
        1 <= i < s.len(),
{
    s[i].stop - s[i - 1].stop
}

/// The summed length of every interval of the log. The first entry closes
/// no interval, so a log of at most one entry sums to zero.
pub open spec fn intervals_total(s: Seq<Entry>) -> int
    decreases s.len(),
{
    if s.len() <= 1 {
        0
    } else {
        intervals_total(s.drop_last()) + interval_at(s, s.len() - 1)
    }
}

/// The summed length of every interval charged to a label not marked as
/// slack.
pub open spec fn work_total(s: Seq<Entry>) -> int
    decreases s.len(),
{
    if s.len() <= 1 {
        0
    } else {
        work_total(s.drop_last()) + if is_slack(s.last().task@) {
            0
        } else {
            interval_at(s, s.len() - 1)
        }
    }
}

/// The summed length of every interval charged to a label marked as slack.
pub open spec fn slack_total(s: Seq<Entry>) -> int
    decreases s.len(),
{
    if s.len() <= 1 {
        0
    } else {
        slack_total(s.drop_last()) + if is_slack(s.last().task@) {
            interval_at(s, s.len() - 1)
        } else {
            0
        }
    }
}

/// The mathematical model of an activity list: each activity as its label
/// and its duration in minutes.
pub open spec fn acts_model(v: Seq<Activity>) -> Seq<(Seq<char>, int)> {
    v.map_values(|a: Activity| (a.name@, a.duration.minutes as int))
}

/// The labels of an activity list, in list order.
pub open spec fn act_names(acts: Seq<(Seq<char>, int)>) -> Seq<Seq<char>> {
    acts.map_values(|a: (Seq<char>, int)| a.0)
}

/// No label appears twice in the list.
pub open spec fn distinct_names(acts: Seq<(Seq<char>, int)>) -> bool {
    forall|j: int, k: int| 0 <= j < k < acts.len() ==> (#[trigger] acts[j]).0 != (#[trigger] acts[k]).0
}

/// Charges an interval of `d` minutes under `name`: added to the duration
/// of the activity already carrying that label, or, for a label not seen
/// before, recorded as a fresh activity at the end of the list.
pub open spec fn record_interval(acts: Seq<(Seq<char>, int)>, name: Seq<char>, d: int) -> Seq<
    (Seq<char>, int),
> {
    if exists|j: int| 0 <= j < acts.len() && (#[trigger] acts[j]).0 == name {
        let j = choose|j: int| 0 <= j < acts.len() && (#[trigger] acts[j]).0 == name;
        acts.update(j, (name, acts[j].1 + d))
    } else {
        acts.push((name, d))
    }
}

/// The activity list computed from a log: each entry after the first
/// charges its interval under its label, in log order.
pub open spec fn agg_acts(s: Seq<Entry>) -> Seq<(Seq<char>, int)>
    decreases s.len(),
{
    if s.len() <= 1 {
        Seq::empty()
    } else {
        record_interval(agg_acts(s.drop_last()), s.last().task@, interval_at(s, s.len() - 1))
    }
}

/// A log of at most one entry charges nothing: no activity is recorded and
/// both totals are zero, since the first entry only opens the first interval.
pub proof fn lemma_trivial_log(s: Seq<Entry>)
    requires
        s.len() <= 1,
    ensures
        agg_acts(s) == Seq::<(Seq<char>, int)>::empty(),
        work_total(s) == 0,
        slack_total(s) == 0,
{
}

/// The intervals of a log telescope: they sum to the gap between the last
/// and the first timestamp.
pub proof fn lemma_intervals_telescope(s: Seq<Entry>)
    ensures
        s.len() >= 1 ==> intervals_total(s) == s.last().stop - s[0].stop,
        s.len() == 0 ==> intervals_total(s) == 0,
    decreases s.len(),
{
    if s.len() > 1 {
        lemma_intervals_telescope(s.drop_last());
    }
}

/// Every interval is classified as exactly one of work or slack, so the two
/// totals together account for the whole log.
pub proof fn lemma_totals_decompose(s: Seq<Entry>)
    ensures
        work_total(s) + slack_total(s) == intervals_total(s),
    decreases s.len(),
{
    if s.len() > 1 {
        lemma_totals_decompose(s.drop_last());
    }
}

/// Over a chronologically ordered log every interval is non-negative, so
/// both totals are.
pub proof fn lemma_totals_nonneg(s: Seq<Entry>)
    requires
        crate::entry::entries_wf(s),
    ensures
        0 <= work_total(s),
        0 <= slack_total(s),
    decreases s.len(),
{
    if s.len() > 1 {
        assert(s.drop_last() =~= s.take(s.len() - 1));
        crate::entry::lemma_entries_wf_take(s, s.len() - 1);
        lemma_totals_nonneg(s.drop_last());
        assert(s[s.len() - 2].stop <= s[s.len() - 1].stop);
    }
}

/// Recording an interval never duplicates a label.
proof fn lemma_record_distinct(acts: Seq<(Seq<char>, int)>, name: Seq<char>, d: int)
    requires
        distinct_names(acts),
    ensures
        distinct_names(record_interval(acts, name, d)),
{
    if exists|j: int| 0 <= j < acts.len() && (#[trigger] acts[j]).0 == name {
        let j = choose|j: int| 0 <= j < acts.len() && (#[trigger] acts[j]).0 == name;
        let r = acts.update(j, (name, acts[j].1 + d));
        assert forall|p: int, q: int| 0 <= p < q < r.len() implies (#[trigger] r[p]).0 != (
        #[trigger] r[q]).0 by {
            assert(r[p].0 == acts[p].0);
            assert(r[q].0 == acts[q].0);
        }
    }
}

/// An aggregated activity list carries each label at most once.
pub proof fn lemma_agg_distinct(s: Seq<Entry>)
    ensures
        distinct_names(agg_acts(s)),
    decreases s.len(),
{
    if s.len() > 1 {
        lemma_agg_distinct(s.drop_last());
        lemma_record_distinct(agg_acts(s.drop_last()), s.last().task@, interval_at(s, s.len() - 1));
    }
}

/// On a list without duplicate labels, recording under a label already at
/// position `j` updates exactly that position.
proof fn lemma_record_at(acts: Seq<(Seq<char>, int)>, name: Seq<char>, d: int, j: int)
    requires
        distinct_names(acts),
        0 <= j < acts.len(),
        acts[j].0 == name,
    ensures
        record_interval(acts, name, d) == acts.update(j, (name, acts[j].1 + d)),
{
    assert(exists|k: int| 0 <= k < acts.len() && (#[trigger] acts[k]).0 == name);
    let k = choose|k: int| 0 <= k < acts.len() && (#[trigger] acts[k]).0 == name;
    if k != j {
        if k < j {
            assert(acts[k].0 != acts[j].0);
        } else {
            assert(acts[j].0 != acts[k].0);
        }
    }
}

/// Recording under a label the list does not carry appends a fresh activity.
proof fn lemma_record_fresh(acts: Seq<(Seq<char>, int)>, name: Seq<char>, d: int)
    requires
        forall|j: int| 0 <= j < acts.len() ==> (#[trigger] acts[j]).0 != name,
    ensures
        record_interval(acts, name, d) == acts.push((name, d)),
{
}

/// The sum of the durations of an activity list.
pub open spec fn acts_sum(acts: Seq<(Seq<char>, int)>) -> int
    decreases acts.len(),
{
    if acts.len() == 0 {
        0
    } else {
        acts_sum(acts.drop_last()) + acts.last().1
    }
}

/// The sum of the durations of the activities whose label is not marked as
/// slack.
pub open spec fn work_acts_sum(acts: Seq<(Seq<char>, int)>) -> int
    decreases acts.len(),
{
    if acts.len() == 0 {
        0
    } else {
        work_acts_sum(acts.drop_last()) + if is_slack(acts.last().0) {
            0
        } else {
            acts.last().1
        }
    }
}

/// The sum of the durations of the activities whose label is marked as
/// slack.
pub open spec fn slack_acts_sum(acts: Seq<(Seq<char>, int)>) -> int
    decreases acts.len(),
{
    if acts.len() == 0 {
        0
    } else {
        slack_acts_sum(acts.drop_last()) + if is_slack(acts.last().0) {
            acts.last().1
        } else {
            0
        }
    }
}

/// Raising one activity's duration by `d` raises each sum it belongs to by
/// `d` and leaves the other sum unchanged.
proof fn lemma_sums_update(acts: Seq<(Seq<char>, int)>, j: int, d: int)
    requires
        0 <= j < acts.len(),
    ensures
        acts_sum(acts.update(j, (acts[j].0, acts[j].1 + d))) == acts_sum(acts) + d,
        work_acts_sum(acts.update(j, (acts[j].0, acts[j].1 + d))) == work_acts_sum(acts) + if is_slack(
            acts[j].0,
        ) {
            0
        } else {
            d
        },
        slack_acts_sum(acts.update(j, (acts[j].0, acts[j].1 + d))) == slack_acts_sum(acts)
            + if is_slack(acts[j].0) {
            d
        } else {
            0
        },
    decreases acts.len(),
{
    let r = acts.update(j, (acts[j].0, acts[j].1 + d));
    if j == acts.len() - 1 {
        assert(r.drop_last() =~= acts.drop_last());
        assert(r.last() == (acts[j].0, acts[j].1 + d));
    } else {
        assert(r.drop_last() =~= acts.drop_last().update(j, (acts[j].0, acts[j].1 + d)));
        assert(acts.drop_last()[j] == acts[j]);
        lemma_sums_update(acts.drop_last(), j, d);
        assert(r.last() == acts.last());
    }
}

/// The duration sums over an aggregated activity list equal the interval
/// totals of the log it came from: every interval lands in exactly one
/// activity, and in the sum matching its classification.
pub proof fn lemma_agg_sums(s: Seq<Entry>)
    ensures
        acts_sum(agg_acts(s)) == intervals_total(s),
        acts_sum(agg_acts(s)) == work_total(s) + slack_total(s),
        work_acts_sum(agg_acts(s)) == work_total(s),
        slack_acts_sum(agg_acts(s)) == slack_total(s),
    decreases s.len(),
{
    lemma_totals_decompose(s);
    if s.len() > 1 {
        lemma_agg_sums(s.drop_last());
        lemma_agg_distinct(s.drop_last());
        let acts = agg_acts(s.drop_last());
        let name = s.last().task@;
        let d = interval_at(s, s.len() - 1);
        if exists|j: int| 0 <= j < acts.len() && (#[trigger] acts[j]).0 == name {
            let j = choose|j: int| 0 <= j < acts.len() && (#[trigger] acts[j]).0 == name;
            lemma_record_at(acts, name, d, j);
            assert(acts.update(j, (name, acts[j].1 + d)) =~= acts.update(
                j,
                (acts[j].0, acts[j].1 + d),
            ));
            lemma_sums_update(acts, j, d);
        } else {
            lemma_record_fresh(acts, name, d);
            assert(acts.push((name, d)).drop_last() =~= acts);
        }
    }
}

/// Over a chronologically ordered log every recorded duration is
/// non-negative.
pub proof fn lemma_agg_durations_nonneg(s: Seq<Entry>)
    requires
        crate::entry::entries_wf(s),
    ensures
        forall|j: int| 0 <= j < agg_acts(s).len() ==> 0 <= (#[trigger] agg_acts(s)[j]).1,
    decreases s.len(),
{
    if s.len() > 1 {
        assert(s.drop_last() =~= s.take(s.len() - 1));
        crate::entry::lemma_entries_wf_take(s, s.len() - 1);
        lemma_agg_durations_nonneg(s.drop_last());
        let acts = agg_acts(s.drop_last());
        let name = s.last().task@;
        let d = interval_at(s, s.len() - 1);
        assert(s[s.len() - 2].stop <= s[s.len() - 1].stop);
        if exists|j: int| 0 <= j < acts.len() && (#[trigger] acts[j]).0 == name {
            let j = choose|j: int| 0 <= j < acts.len() && (#[trigger] acts[j]).0 == name;
            lemma_agg_distinct(s.drop_last());
            lemma_record_at(acts, name, d, j);
        } else {
            lemma_record_fresh(acts, name, d);
        }
    }
}

/// When every duration is non-negative, each one is at most the whole sum.
proof fn lemma_duration_le_sum(acts: Seq<(Seq<char>, int)>, j: int)
    requires
        0 <= j < acts.len(),
        forall|k: int| 0 <= k < acts.len() ==> 0 <= (#[trigger] acts[k]).1,
    ensures
        acts[j].1 <= acts_sum(acts),
    decreases acts.len(),
{
    if j < acts.len() - 1 {
        assert(acts.drop_last()[j] == acts[j]);
        assert(forall|k: int|
            0 <= k < acts.drop_last().len() ==> 0 <= (#[trigger] acts.drop_last()[k]).1);
        lemma_duration_le_sum(acts.drop_last(), j);
    } else {
        lemma_acts_sum_nonneg(acts.drop_last());
    }
}

/// A sum of non-negative durations is non-negative.
proof fn lemma_acts_sum_nonneg(acts: Seq<(Seq<char>, int)>)
    requires
        forall|k: int| 0 <= k < acts.len() ==> 0 <= (#[trigger] acts[k]).1,
    ensures
        0 <= acts_sum(acts),
    decreases acts.len(),
{
    if acts.len() > 0 {
        lemma_acts_sum_nonneg(acts.drop_last());
    }
}

/// The labels charged by a log, in log order: one per entry after the
/// first.
pub open spec fn tasks_charged(s: Seq<Entry>) -> Seq<Seq<char>> {
    if s.len() <= 1 {
        Seq::empty()
    } else {
        s.subrange(1, s.len() as int).map_values(|e: Entry| e.task@)
    }
}

/// The distinct values of a sequence, each at the position of its first
/// occurrence.
pub open spec fn first_occurrences(names: Seq<Seq<char>>) -> Seq<Seq<char>>
    decreases names.len(),
{
    if names.len() == 0 {
        Seq::empty()
    } else {
        let p = first_occurrences(names.drop_last());
        if p.contains(names.last()) {
            p
        } else {
            p.push(names.last())
        }
    }
}

/// The aggregated activities stand in first-occurrence order: their labels,
/// read off in list order, are the distinct charged labels in the order in
/// which each first appears in the log.
pub proof fn lemma_first_occurrence_order(s: Seq<Entry>)
    ensures
        act_names(agg_acts(s)) == first_occurrences(tasks_charged(s)),
    decreases s.len(),
{
    if s.len() <= 1 {
        assert(act_names(agg_acts(s)) =~= first_occurrences(tasks_charged(s)));
    } else {
        lemma_first_occurrence_order(s.drop_last());
        assert(tasks_charged(s).drop_last() =~= tasks_charged(s.drop_last()));
        let acts = agg_acts(s.drop_last());
        let name = s.last().task@;
        let d = interval_at(s, s.len() - 1);
        let p = first_occurrences(tasks_charged(s.drop_last()));
        assert(tasks_charged(s).last() == name);
        if exists|j: int| 0 <= j < acts.len() && (#[trigger] acts[j]).0 == name {
            let j = choose|j: int| 0 <= j < acts.len() && (#[trigger] acts[j]).0 == name;
            lemma_agg_distinct(s.drop_last());
            lemma_record_at(acts, name, d, j);
            assert(act_names(acts)[j] == name);
            assert(p.contains(name));
            assert(act_names(acts.update(j, (name, acts[j].1 + d))) =~= act_names(acts));
        } else {
            if p.contains(name) {
                let j = choose|j: int| 0 <= j < p.len() && p[j] == name;
                assert(acts[j].0 == name);
                assert(false);
            }
            assert(act_names(acts.push((name, d))) =~= act_names(acts).push(name));
        }
    }
}

/// The report line for one activity: total hours and minutes past the
/// hour, each right-aligned in a field of width two, then the label.
/// Minutes below the hour boundary are truncated, never rounded.
pub open spec fn activity_line(name: Seq<char>, mins: int) -> Seq<char> {
    padded2(mins / 60) + " h "@ + padded2(mins % 60) + " min: "@ + name
}

/// A summary line: the label, then hours and minutes past the hour as
/// plain unpadded numerals.
pub open spec fn total_line(label: Seq<char>, mins: int) -> Seq<char> {
    label + dec_digits(mins / 60) + " h "@ + dec_digits(mins % 60) + " min"@
}

/// The newline-terminated report lines of an activity list, in list order.
pub open spec fn activity_lines(acts: Seq<(Seq<char>, int)>) -> Seq<char>
    decreases acts.len(),
{
    if acts.len() == 0 {
        Seq::empty()
    } else {
        activity_lines(acts.drop_last()) + activity_line(acts.last().0, acts.last().1) + "\n"@
    }
}

/// The full report: every activity line, a seven-dash separator line, then
/// the work and slack summary lines, each line newline-terminated.
pub open spec fn report_text(acts: Seq<(Seq<char>, int)>, work: int, slack: int) -> Seq<char> {
    activity_lines(acts) + "-------\n"@ + total_line("Total work done: "@, work) + "\n"@
        + total_line("Total slacking: "@, slack) + "\n"@
}

impl Activity {
    /// Renders this activity's report line, without a newline.
    pub fn render(&self) -> (r: String)
        requires
            0 <= self.duration.minutes,
        ensures
            r@ == activity_line(self.name@, self.duration.minutes as int),
    {
        let m = self.duration.minutes as u64;
        let mut out = String::new();
        append_padded2(&mut out, m / 60);
        out.append(" h ");
        append_padded2(&mut out, m % 60);
        out.append(" min: ");
        out.append(self.name.as_str());
        proof {
            assert((m / 60) as int == self.duration.minutes as int / 60);
            assert((m % 60) as int == self.duration.minutes as int % 60);
            assert(out@ =~= activity_line(self.name@, self.duration.minutes as int));
        }
        out
    }
}

/// Appends a newline-terminated summary line to `out`.
fn append_total_line(out: &mut String, label: &str, mins: i64)
    requires
        0 <= mins,
    ensures
        final (out)@ == old(out)@ + total_line(label@, mins as int) + "\n"@,
{
    out.append(label);
    let m = mins as u64;
    append_decimal(out, m / 60);
    out.append(" h ");
    append_decimal(out, m % 60);
    out.append(" min\n");
    proof {
        reveal_strlit(" min\n");
        reveal_strlit(" min");
        reveal_strlit("\n");
        assert(" min\n"@ =~= " min"@ + "\n"@);
        assert((m / 60) as int == mins as int / 60);
        assert((m % 60) as int == mins as int % 60);
        assert(final (out)@ =~= old(out)@ + total_line(label@, mins as int) + "\n"@);
    }
}

/// Whether `name` is slack, decided on the executable label.
fn is_slack_task(name: &str) -> (r: bool)
    ensures
        r == is_slack(name@),
{
    let n = name.unicode_len();
    if n < 2 {
        false
    } else {
        name.get_char(0) == '*' && name.get_char(1) == '*'
    }
}

/// The position of the activity carrying `name`, if the list has one.
fn find_activity(activities: &Vec<Activity>, name: &String) -> (r: Option<usize>)
    ensures
        match r {
            Some(j) => j < activities@.len() && activities@[j as int].name@ == name@,
            None => forall|k: int|
                0 <= k < activities@.len() ==> (#[trigger] activities@[k]).name@ != name@,
        },
{
    let mut j: usize = 0;
    while j < activities.len()
        invariant
            j <= activities@.len(),
            forall|k: int| 0 <= k < j ==> (#[trigger] activities@[k]).name@ != name@,
        decreases activities@.len() - j,
    {
        if activities[j].name == *name {
            return Some(j);
        }
        j = j + 1;
    }
    None
}

impl Activities {
    /// Aggregates a chronologically ordered log into the per-task report.
    ///
    /// The first entry only opens the first interval; every later entry
    /// charges the gap since its predecessor under its own label — to the
    /// activity already carrying that label, or to a fresh activity appended
    /// at the end of the list, and to whichever of the two totals matches
    /// the label's classification.
    pub fn new_from_entries(entries: &Vec<Entry>) -> (r: Activities)
        requires
            crate::entry::entries_wf(entries@),
        ensures
            acts_model(r.activities@) == agg_acts(entries@),
            r.total_work.minutes == work_total(entries@),
            r.total_slack.minutes == slack_total(entries@),
            r.renderable(),
    {
        let mut activities: Vec<Activity> = Vec::new();
        let mut total_work: i64 = 0;
        let mut total_slack: i64 = 0;

        if entries.len() == 0 {
            proof {
                assert(acts_model(activities@) =~= agg_acts(entries@));
            }
            return Activities {
                activities,
                total_work: Duration { minutes: total_work },
                total_slack: Duration { minutes: total_slack },
            };
        }
        let mut i: usize = 1;
        while i < entries.len()
            invariant
                1 <= i <= entries@.len(),
                crate::entry::entries_wf(entries@),
                acts_model(activities@) == agg_acts(entries@.take(i as int)),
                total_work as int == work_total(entries@.take(i as int)),
                total_slack as int == slack_total(entries@.take(i as int)),
            decreases entries@.len() - i,
        {
            let ghost pre = entries@.take(i as int);
            let ghost post = entries@.take(i as int + 1);
            proof {
                assert(post.drop_last() =~= pre);
                assert(post.last() == entries@[i as int]);
                crate::entry::lemma_entries_wf_take(entries@, i as int);
                crate::entry::lemma_entries_wf_take(entries@, i as int + 1);
                assert(-crate::entry::MAX_ABS_STOP <= entries@[i as int].stop
                    <= crate::entry::MAX_ABS_STOP);
                assert(-crate::entry::MAX_ABS_STOP <= entries@[i as int - 1].stop
                    <= crate::entry::MAX_ABS_STOP);
                assert(entries@[i as int - 1].stop <= entries@[i as int].stop);
                assert(-crate::entry::MAX_ABS_STOP <= entries@[0].stop
                    <= crate::entry::MAX_ABS_STOP);
                lemma_totals_nonneg(pre);
                lemma_totals_nonneg(post);
                lemma_totals_decompose(pre);
                lemma_totals_decompose(post);
                lemma_intervals_telescope(pre);
                lemma_intervals_telescope(post);
                assert(pre.last() == entries@[i as int - 1]);
                assert(pre[0] == entries@[0]);
            }
            let prev = entries[i - 1].stop;
            let d: i64 = entries[i].stop - prev;

            if is_slack_task(entries[i].task.as_str()) {
                total_slack = total_slack + d;
            } else {
                total_work = total_work + d;
            }

            proof {
                lemma_agg_distinct(pre);
                lemma_agg_durations_nonneg(pre);
                lemma_agg_sums(pre);
            }
            match find_activity(&activities, &entries[i].task) {
                Some(j) => {
                    proof {
                        let av = activities@;
                        assert(acts_model(av)[j as int] == (av[j as int].name@, av[j as int].duration.minutes as int));
                        lemma_duration_le_sum(acts_model(activities@), j as int);
                        lemma_record_at(
                            acts_model(activities@),
                            entries@[i as int].task@,
                            d as int,
                            j as int,
                        );
                    }
                    let nm = activities[j].duration.minutes + d;
                    activities[j].duration = Duration { minutes: nm };
                    proof {
                        assert(acts_model(activities@) =~= agg_acts(post));
                    }
                },
                None => {
                    proof {
                        assert forall|k: int| 0 <= k < acts_model(activities@).len() implies (
                        #[trigger] acts_model(activities@)[k]).0 != entries@[i as int].task@ by {
                            assert(acts_model(activities@)[k].0 == activities@[k].name@);
                        }
                        lemma_record_fresh(
                            acts_model(activities@),
                            entries@[i as int].task@,
                            d as int,
                        );
                    }
                    let name = entries[i].task.clone();
                    activities.push(Activity { name, duration: Duration { minutes: d } });
                    proof {
                        assert(acts_model(activities@) =~= agg_acts(post));
                    }
                },
            }
            i = i + 1;
        }
        proof {
            assert(entries@.take(entries@.len() as int) =~= entries@);
            lemma_agg_durations_nonneg(entries@);
            lemma_totals_nonneg(entries@);
            assert(forall|j: int|
                0 <= j < activities@.len() ==> acts_model(activities@)[j] == ((
                #[trigger] activities@[j]).name@, activities@[j].duration.minutes as int));
        }
        Activities {
            activities,
            total_work: Duration { minutes: total_work },
            total_slack: Duration { minutes: total_slack },
        }
    }

    /// Whether every duration of the report is non-negative, as aggregating
    /// a chronologically ordered log guarantees; rendering asks for it.
    pub open spec fn renderable(&self) -> bool {
        &&& forall|j: int|
            0 <= j < self.activities@.len() ==> 0 <= (
            #[trigger] self.activities@[j]).duration.minutes
        &&& 0 <= self.total_work.minutes
        &&& 0 <= self.total_slack.minutes
    }

    /// Renders the full report: one line per activity in list order, a
    /// seven-dash separator, then the work and slack summary lines.
    pub fn render(&self) -> (r: String)
        requires
            self.renderable(),
        ensures
            r@ == report_text(
                acts_model(self.activities@),
                self.total_work.minutes as int,
                self.total_slack.minutes as int,
            ),
    {
        let mut out = String::new();
        let mut j: usize = 0;
        while j < self.activities.len()
            invariant
                j <= self.activities@.len(),
                self.renderable(),
                out@ == activity_lines(acts_model(self.activities@.take(j as int))),
            decreases self.activities@.len() - j,
        {
            let line = self.activities[j].render();
            out.append(line.as_str());
            out.append("\n");
            proof {
                let av = self.activities@;
                assert(acts_model(av.take(j as int + 1)).drop_last() =~= acts_model(
                    av.take(j as int),
                ));
                assert(acts_model(av.take(j as int + 1)).last() == (av[j as int].name@, av[
                    j as int
                ].duration.minutes as int));
                assert(out@ =~= activity_lines(acts_model(av.take(j as int + 1))));
            }
            j = j + 1;
        }
        out.append("-------\n");
        append_total_line(&mut out, "Total work done: ", self.total_work.minutes);
        append_total_line(&mut out, "Total slacking: ", self.total_slack.minutes);
        proof {
            assert(self.activities@.take(self.activities@.len() as int) =~= self.activities@);
            assert(out@ =~= report_text(
                acts_model(self.activities@),
                self.total_work.minutes as int,
                self.total_slack.minutes as int,
            ));
        }
        out
    }
}

} // verus!
