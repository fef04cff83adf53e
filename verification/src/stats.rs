//! Command statistics and failure tracking.
//!
//! `CommandStats` keeps one row of counters per command name, in the order
//! in which the names were first seen, and a window of the most recent
//! failures. The bot shares one value of it between its command hooks.

use std::collections::VecDeque;
use std::time::Duration;
use std::time::Instant;
use std::time::SystemTime;
use vstd::pervasive::VecAdditionalExecFns;
use vstd::prelude::*;

use crate::stats_history::records;
use crate::stats_history::StatsCall;
use crate::text::decimal;
use crate::text::owned;
use crate::text::push_decimal;
use crate::text::push_str;

verus! {

broadcast use {
    vstd::std_specs::vecdeque::group_vec_dequeue_axioms,
    vstd::seq_lib::group_to_multiset_ensures,
};

/// Maximum number of recent failures to keep.
pub const MAX_RECENT_FAILURES: usize = 50;

/// How many recent failures a summary reports, newest first.
pub const SUMMARY_FAILURES: usize = 10;

#[verifier::external_type_specification]
#[verifier::external_body]
pub struct ExInstant(Instant);

#[verifier::external_type_specification]
#[verifier::external_body]
pub struct ExSystemTime(SystemTime);

/// Calls `Instant::now`. The reading depends on the clock: nothing is stated
/// of it.
#[verifier::external_body]
fn instant_now() -> (t: Instant) {
    Instant::now()
}

/// Calls `Instant::elapsed`. The result depends on the clock: nothing is
/// stated of it.
#[verifier::external_body]
fn instant_elapsed(start: &Instant) -> (d: Duration) {
    start.elapsed()
}

/// What `Duration::as_secs` returns for `d`: its whole seconds.
pub uninterp spec fn duration_whole_secs(d: Duration) -> u64;

/// Calls `Duration::as_secs`; the result is named `duration_whole_secs(d)`.
#[verifier::external_body]
pub(crate) fn duration_as_secs(d: &Duration) -> (secs: u64)
    ensures
        secs == duration_whole_secs(*d),
{
    d.as_secs()
}

/// Calls `SystemTime::now`. The reading depends on the clock: nothing is
/// stated of it.
#[verifier::external_body]
fn system_time_now() -> (t: SystemTime) {
    SystemTime::now()
}

/// Counters of one command.
#[derive(Debug, Clone, Copy, PartialEq, Eq, Structural)]
pub struct CommandStat {
    /// Total invocations.
    pub invocations: u64,
    /// Successful completions.
    pub successes: u64,
    /// Failed executions.
    pub failures: u64,
    /// Total response time in milliseconds.
    pub total_latency_ms: u64,
    /// Minimum response time.
    pub min_latency_ms: Option<u64>,
    /// Maximum response time.
    pub max_latency_ms: Option<u64>,
}

/// `Some` of the smaller of a previous extreme and `ms`.
pub open spec fn new_min(prev: Option<u64>, ms: u64) -> Option<u64> {
    match prev {
        Some(m) => Some(if m <= ms { m } else { ms }),
        None => Some(ms),
    }
}

/// `Some` of the larger of a previous extreme and `ms`.
pub open spec fn new_max(prev: Option<u64>, ms: u64) -> Option<u64> {
    match prev {
        Some(m) => Some(if m >= ms { m } else { ms }),
        None => Some(ms),
    }
}

impl CommandStat {
    /// The counters of a command that was never seen.
    pub open spec fn zero() -> CommandStat {
        CommandStat {
            invocations: 0,
            successes: 0,
            failures: 0,
            total_latency_ms: 0,
            min_latency_ms: None,
            max_latency_ms: None,
        }
    }

    /// The counters after one more invocation.
    pub open spec fn after_invocation(self) -> CommandStat {
        CommandStat { invocations: (self.invocations + 1) as u64, ..self }
    }

    /// The counters after one more success that took `ms` milliseconds.
    pub open spec fn after_success(self, ms: u64) -> CommandStat {
        CommandStat {
            successes: (self.successes + 1) as u64,
            total_latency_ms: (self.total_latency_ms + ms) as u64,
            min_latency_ms: new_min(self.min_latency_ms, ms),
            max_latency_ms: new_max(self.max_latency_ms, ms),
            ..self
        }
    }

    /// The counters after one more failure that took `ms` milliseconds.
    pub open spec fn after_failure(self, ms: u64) -> CommandStat {
        CommandStat {
            failures: (self.failures + 1) as u64,
            total_latency_ms: (self.total_latency_ms + ms) as u64,
            min_latency_ms: new_min(self.min_latency_ms, ms),
            max_latency_ms: new_max(self.max_latency_ms, ms),
            ..self
        }
    }

    /// Minimum and maximum latency are set together, exactly once a success
    /// or a failure has been recorded, and in order.
    pub open spec fn latency_consistent(self) -> bool {
        &&& self.min_latency_ms is Some <==> self.max_latency_ms is Some
        &&& self.min_latency_ms is Some <==> self.successes + self.failures > 0
        &&& self.min_latency_ms is Some ==> self.min_latency_ms->0 <= self.max_latency_ms->0
    }

    fn zero_exec() -> (r: CommandStat)
        ensures
            r == CommandStat::zero(),
    {
        CommandStat {
            invocations: 0,
            successes: 0,
            failures: 0,
            total_latency_ms: 0,
            min_latency_ms: None,
            max_latency_ms: None,
        }
    }
}

fn min_update(prev: Option<u64>, ms: u64) -> (r: Option<u64>)
    ensures
        r == new_min(prev, ms),
{
    match prev {
        Some(m) => Some(if m <= ms { m } else { ms }),
        None => Some(ms),
    }
}

fn max_update(prev: Option<u64>, ms: u64) -> (r: Option<u64>)
    ensures
        r == new_max(prev, ms),
{
    match prev {
        Some(m) => Some(if m >= ms { m } else { ms }),
        None => Some(ms),
    }
}

/// Record of a command failure.
#[derive(Debug)]
pub struct FailureRecord {
    /// Command name.
    pub command: String,
    /// Error message.
    pub error: String,
    /// User who triggered it (ID as string).
    pub user_id: String,
    /// When it happened.
    pub timestamp: SystemTime,
    /// How long the command ran before failing.
    pub duration_ms: u64,
}

impl Clone for FailureRecord {
    fn clone(&self) -> (r: FailureRecord)
        ensures
            r == *self,
    {
        FailureRecord {
            command: self.command.clone(),
            error: self.error.clone(),
            user_id: self.user_id.clone(),
            timestamp: self.timestamp,
            duration_ms: self.duration_ms,
        }
    }
}

// ---------------------------------------------------------------------------
// The table of command rows
// ---------------------------------------------------------------------------

/// Some row of `rows` is named `name`.
pub open spec fn has_name(rows: Seq<(String, CommandStat)>, name: Seq<char>) -> bool {
    exists|i: int| 0 <= i < rows.len() && (#[trigger] rows[i]).0@ == name
}

/// The index of the row named `name` (meaningful where `has_name`).
pub open spec fn index_of(rows: Seq<(String, CommandStat)>, name: Seq<char>) -> int {
    choose|i: int| 0 <= i < rows.len() && (#[trigger] rows[i]).0@ == name
}

/// The counters of `name`: its row's, or zero for a name never seen.
pub open spec fn stat_of(rows: Seq<(String, CommandStat)>, name: Seq<char>) -> CommandStat {
    if has_name(rows, name) {
        rows[index_of(rows, name)].1
    } else {
        CommandStat::zero()
    }
}

/// No two rows share a name.
pub open spec fn names_unique(rows: Seq<(String, CommandStat)>) -> bool {
    forall|i: int, j: int|
        0 <= i < rows.len() && 0 <= j < rows.len() && i != j ==> (#[trigger] rows[i]).0@ != (
        #[trigger] rows[j]).0@
}

/// `new` is `old` with the row of `name` set to `st`: in place where the name
/// was seen, appended at the end where it was not.
pub open spec fn upserted(
    old: Seq<(String, CommandStat)>,
    new: Seq<(String, CommandStat)>,
    name: Seq<char>,
    st: CommandStat,
) -> bool {
    if has_name(old, name) {
        let i = index_of(old, name);
        new == old.update(i, (old[i].0, st))
    } else {
        &&& new.len() == old.len() + 1
        &&& new.drop_last() == old
        &&& new.last().0@ == name
        &&& new.last().1 == st
    }
}

/// Sum of one counter over all rows.
pub open spec fn column_sum(rows: Seq<(String, CommandStat)>, col: spec_fn(CommandStat) -> u64) -> nat
    decreases rows.len(),
{
    if rows.len() == 0 {
        0
    } else {
        column_sum(rows.drop_last(), col) + col(rows.last().1) as nat
    }
}

pub open spec fn invocations_col() -> spec_fn(CommandStat) -> u64 {
    |s: CommandStat| s.invocations
}

pub open spec fn successes_col() -> spec_fn(CommandStat) -> u64 {
    |s: CommandStat| s.successes
}

pub open spec fn failures_col() -> spec_fn(CommandStat) -> u64 {
    |s: CommandStat| s.failures
}

/// `failures` after `rec` is appended and the oldest ones beyond
/// `MAX_RECENT_FAILURES` are dropped.
pub open spec fn failure_window(failures: Seq<FailureRecord>, rec: FailureRecord) -> Seq<
    FailureRecord,
> {
    let all = failures.push(rec);
    if all.len() > MAX_RECENT_FAILURES {
        all.skip(all.len() - MAX_RECENT_FAILURES)
    } else {
        all
    }
}

/// The last `min(n, len)` entries of `s`, newest first.
pub open spec fn newest_first<T>(s: Seq<T>, n: nat) -> Seq<T> {
    let k = if s.len() < n { s.len() } else { n };
    Seq::new(k, |i: int| s[s.len() - 1 - i])
}

/// Tracks command execution statistics.
#[derive(Debug)]
pub struct CommandStats {
    commands: Vec<(String, CommandStat)>,
    recent_failures: VecDeque<FailureRecord>,
    start_time: Instant,
}

impl CommandStats {
    /// The rows, in the order in which their names were first seen.
    pub closed spec fn rows(&self) -> Seq<(String, CommandStat)> {
        self.commands@
    }

    /// The kept failures, oldest first.
    pub closed spec fn failures(&self) -> Seq<FailureRecord> {
        self.recent_failures@
    }

    /// The instant from which uptime is counted.
    pub closed spec fn started(&self) -> Instant {
        self.start_time
    }

    /// Names are unique, every row's latency extremes are consistent, and
    /// at most `MAX_RECENT_FAILURES` failures are kept.
    pub open spec fn well_formed(&self) -> bool {
        &&& names_unique(self.rows())
        &&& forall|i: int| 0 <= i < self.rows().len() ==> (#[trigger] self.rows()[i]).1.latency_consistent()
        &&& self.failures().len() <= MAX_RECENT_FAILURES
    }

    /// Creates a new stats tracker.
    pub fn new() -> (s: Self)
        ensures
            s.well_formed(),
            s.rows() == Seq::<(String, CommandStat)>::empty(),
            s.failures() == Seq::<FailureRecord>::empty(),
    {
        CommandStats {
            commands: Vec::new(),
            recent_failures: VecDeque::new(),
            start_time: instant_now(),
        }
    }

    /// The index of the row named `key`, if any.
    fn find(&self, key: &String) -> (r: Option<usize>)
        requires
            self.well_formed(),
        ensures
            r is None <==> !has_name(self.rows(), key@),
            r matches Some(i) ==> i < self.rows().len() && i == index_of(self.rows(), key@),
    {
        let n = self.commands.len();
        let mut i: usize = 0;
        while i < n
            invariant
                n == self.commands@.len(),
                names_unique(self.rows()),
                i <= n,
                forall|j: int| 0 <= j < i ==> (#[trigger] self.commands@[j]).0@ != key@,
            decreases n - i,
        {
            if self.commands[i].0 == *key {
                proof {
                    let k = index_of(self.rows(), key@);
                    assert(self.rows()[i as int].0@ == key@);
                    assert(has_name(self.rows(), key@));
                    assert(names_unique(self.rows()));
                    if k != i {
                        assert(self.rows()[k].0@ == key@);
                        assert(self.rows()[k].0@ != self.rows()[i as int].0@);
                    }
                    assert(k == i);
                }
                return Some(i);
            }
            i = i + 1;
        }
        None
    }

    /// The counters of `command`: zero where it was never seen.
    pub fn stat(&self, command: &str) -> (r: CommandStat)
        requires
            self.well_formed(),
        ensures
            r == stat_of(self.rows(), command@),
            r.latency_consistent(),
    {
        let key = owned(command);
        match self.find(&key) {
            Some(i) => self.commands[i].1,
            None => CommandStat::zero_exec(),
        }
    }

    /// Stores `st` as the counters of `key`.
    fn store(&mut self, key: String, st: CommandStat)
        requires
            old(self).well_formed(),
            st.latency_consistent(),
        ensures
            final(self).well_formed(),
            upserted(old(self).rows(), final(self).rows(), key@, st),
            final(self).failures() == old(self).failures(),
            final(self).started() == old(self).started(),
    {
        match self.find(&key) {
            Some(i) => {
                let name = self.commands[i].0.clone();
                self.commands.set(i, (name, st));
                proof {
                    assert forall|a: int, b: int|
                        0 <= a < self.rows().len() && 0 <= b < self.rows().len() && a != b
                        implies (#[trigger] self.rows()[a]).0@ != (#[trigger] self.rows()[b]).0@ by {
                        assert(old(self).rows()[a].0@ == self.rows()[a].0@);
                        assert(old(self).rows()[b].0@ == self.rows()[b].0@);
                    }
                    assert forall|a: int| 0 <= a < self.rows().len() implies (
                    #[trigger] self.rows()[a]).1.latency_consistent() by {
                        if a != i {
                            assert(old(self).rows()[a] == self.rows()[a]);
                        }
                    }
                }
            },
            None => {
                self.commands.push((key, st));
                proof {
                    assert(self.rows().drop_last() =~= old(self).rows());
                    assert forall|a: int, b: int|
                        0 <= a < self.rows().len() && 0 <= b < self.rows().len() && a != b
                        implies (#[trigger] self.rows()[a]).0@ != (#[trigger] self.rows()[b]).0@ by {
                        let n = old(self).rows().len();
                        if a < n && b < n {
                            assert(old(self).rows()[a] == self.rows()[a]);
                            assert(old(self).rows()[b] == self.rows()[b]);
                        } else if a == n {
                            assert(old(self).rows()[b] == self.rows()[b]);
                        } else {
                            assert(old(self).rows()[a] == self.rows()[a]);
                        }
                    }
                    assert forall|a: int| 0 <= a < self.rows().len() implies (
                    #[trigger] self.rows()[a]).1.latency_consistent() by {
                        if a < old(self).rows().len() {
                            assert(old(self).rows()[a] == self.rows()[a]);
                        }
                    }
                }
            },
        }
    }

    /// Records the start of a command execution.
    pub fn record_invocation(&mut self, command: &str)
        requires
            old(self).well_formed(),
            stat_of(old(self).rows(), command@).invocations < u64::MAX,
        ensures
            final(self).well_formed(),
            upserted(
                old(self).rows(),
                final(self).rows(),
                command@,
                stat_of(old(self).rows(), command@).after_invocation(),
            ),
            final(self).failures() == old(self).failures(),
            records(
                old(self).rows(),
                old(self).failures(),
                final(self).rows(),
                final(self).failures(),
                StatsCall::Invocation { command: command@ },
            ),
            final(self).started() == old(self).started(),
    {
        let mut st = self.stat(command);
        st.invocations = st.invocations + 1;
        self.store(owned(command), st);
    }

    /// Records a successful command completion that took `duration_ms`
    /// milliseconds.
    pub fn record_success(&mut self, command: &str, duration_ms: u64)
        requires
            old(self).well_formed(),
            stat_of(old(self).rows(), command@).successes < u64::MAX,
            stat_of(old(self).rows(), command@).total_latency_ms + duration_ms <= u64::MAX,
        ensures
            final(self).well_formed(),
            upserted(
                old(self).rows(),
                final(self).rows(),
                command@,
                stat_of(old(self).rows(), command@).after_success(duration_ms),
            ),
            final(self).failures() == old(self).failures(),
            records(
                old(self).rows(),
                old(self).failures(),
                final(self).rows(),
                final(self).failures(),
                StatsCall::Success { command: command@, duration_ms },
            ),
            final(self).started() == old(self).started(),
    {
        let mut st = self.stat(command);
        st.successes = st.successes + 1;
        let ms = duration_ms;
        st.total_latency_ms = st.total_latency_ms + ms;
        st.min_latency_ms = min_update(st.min_latency_ms, ms);
        st.max_latency_ms = max_update(st.max_latency_ms, ms);
        self.store(owned(command), st);
    }

    /// Records a command failure that took `duration_ms` milliseconds, and
    /// keeps it among the recent failures, stamped with the clock's reading
    /// at this call (`record_failure_at` with `SystemTime::now()`).
    pub fn record_failure(&mut self, command: &str, error: &str, user_id: &str, duration_ms: u64)
        requires
            old(self).well_formed(),
            stat_of(old(self).rows(), command@).failures < u64::MAX,
            stat_of(old(self).rows(), command@).total_latency_ms + duration_ms <= u64::MAX,
        ensures
            final(self).well_formed(),
            upserted(
                old(self).rows(),
                final(self).rows(),
                command@,
                stat_of(old(self).rows(), command@).after_failure(duration_ms),
            ),
            final(self).failures() == failure_window(old(self).failures(), final(self).failures().last()),
            final(self).failures().last().command@ == command@,
            final(self).failures().last().error@ == error@,
            final(self).failures().last().user_id@ == user_id@,
            final(self).failures().last().duration_ms == duration_ms,
            records(
                old(self).rows(),
                old(self).failures(),
                final(self).rows(),
                final(self).failures(),
                StatsCall::Failure {
                    command: command@,
                    error: error@,
                    user_id: user_id@,
                    duration_ms,
                },
            ),
            final(self).started() == old(self).started(),
    {
        let now = system_time_now();
        self.record_failure_at(command, error, user_id, duration_ms, now);
    }

    /// Records a command failure that took `duration_ms` milliseconds and
    /// happened at `timestamp`, and keeps it among the recent failures.
    pub fn record_failure_at(
        &mut self,
        command: &str,
        error: &str,
        user_id: &str,
        duration_ms: u64,
        timestamp: SystemTime,
    )
        requires
            old(self).well_formed(),
            stat_of(old(self).rows(), command@).failures < u64::MAX,
            stat_of(old(self).rows(), command@).total_latency_ms + duration_ms <= u64::MAX,
        ensures
            final(self).well_formed(),
            upserted(
                old(self).rows(),
                final(self).rows(),
                command@,
                stat_of(old(self).rows(), command@).after_failure(duration_ms),
            ),
            final(self).failures() == failure_window(old(self).failures(), final(self).failures().last()),
            final(self).failures().last().command@ == command@,
            final(self).failures().last().error@ == error@,
            final(self).failures().last().user_id@ == user_id@,
            final(self).failures().last().duration_ms == duration_ms,
            final(self).failures().last().timestamp == timestamp,
            records(
                old(self).rows(),
                old(self).failures(),
                final(self).rows(),
                final(self).failures(),
                StatsCall::Failure {
                    command: command@,
                    error: error@,
                    user_id: user_id@,
                    duration_ms,
                },
            ),
            final(self).started() == old(self).started(),
    {
        let mut st = self.stat(command);
        st.failures = st.failures + 1;
        let ms = duration_ms;
        st.total_latency_ms = st.total_latency_ms + ms;
        st.min_latency_ms = min_update(st.min_latency_ms, ms);
        st.max_latency_ms = max_update(st.max_latency_ms, ms);
        self.store(owned(command), st);

        let record = FailureRecord {
            command: owned(command),
            error: owned(error),
            user_id: owned(user_id),
            timestamp,
            duration_ms: ms,
        };
        let ghost before = self.recent_failures@;
        let ghost rec = record;
        let ghost rows_after = self.commands@;
        let ghost start = self.start_time;
        self.recent_failures.push_back(record);
        while self.recent_failures.len() > MAX_RECENT_FAILURES
            invariant
                self.commands@ == rows_after,
                self.start_time == start,
                before.len() <= MAX_RECENT_FAILURES,
                self.recent_failures@ == failure_window(before, rec) || self.recent_failures@
                    == before.push(rec),
            decreases self.recent_failures@.len(),
        {
            let _ = self.recent_failures.pop_front();
            assert(self.recent_failures@ =~= failure_window(before, rec));
        }
        assert(self.recent_failures@ =~= failure_window(before, rec));
    }

    /// Returns the bot's uptime. It depends on the clock: nothing is stated
    /// of it.
    pub fn uptime(&self) -> (d: Duration) {
        instant_elapsed(&self.start_time)
    }
}

/// Per-command statistics summary.
#[derive(Debug)]
pub struct CommandStatSummary {
    pub name: String,
    pub invocations: u64,
    pub successes: u64,
    pub failures: u64,
    pub avg_latency_ms: u64,
    pub min_latency_ms: u64,
    pub max_latency_ms: u64,
}

/// Summary of command statistics.
#[derive(Debug)]
pub struct StatsSummary {
    pub uptime: Duration,
    pub total_invocations: u64,
    pub total_successes: u64,
    pub total_failures: u64,
    pub commands: Vec<CommandStatSummary>,
    pub recent_failures: Vec<FailureRecord>,
}

/// The summary line of one row: its counters, the total latency divided by
/// the invocations (0 before any), and the extremes (0 before any).
pub open spec fn row_summary(row: (String, CommandStat)) -> CommandStatSummary {
    let st = row.1;
    CommandStatSummary {
        name: row.0,
        invocations: st.invocations,
        successes: st.successes,
        failures: st.failures,
        avg_latency_ms: if st.invocations > 0 {
            (st.total_latency_ms / st.invocations) as u64
        } else {
            0
        },
        min_latency_ms: match st.min_latency_ms {
            Some(m) => m,
            None => 0,
        },
        max_latency_ms: match st.max_latency_ms {
            Some(m) => m,
            None => 0,
        },
    }
}

/// The summary lines of all rows, in row order.
pub open spec fn row_summaries(rows: Seq<(String, CommandStat)>) -> Seq<CommandStatSummary> {
    rows.map_values(|r: (String, CommandStat)| row_summary(r))
}

/// Invocations never increase along `lines`.
pub open spec fn sorted_by_invocations(lines: Seq<CommandStatSummary>) -> bool {
    forall|i: int, j: int|
        0 <= i < j < lines.len() ==> (#[trigger] lines[i]).invocations >= (
        #[trigger] lines[j]).invocations
}

/// A column sum over a prefix is at most the sum over all rows.
pub proof fn lemma_column_sum_prefix(
    rows: Seq<(String, CommandStat)>,
    col: spec_fn(CommandStat) -> u64,
    i: int,
)
    requires
        0 <= i <= rows.len(),
    ensures
        column_sum(rows.take(i), col) <= column_sum(rows, col),
    decreases rows.len(),
{
    if i == rows.len() {
        assert(rows.take(i) =~= rows);
    } else {
        lemma_column_sum_prefix(rows.drop_last(), col, i);
        assert(rows.drop_last().take(i) =~= rows.take(i));
    }
}

/// Adding the next row to a prefix adds its counter to the sum.
pub proof fn lemma_column_sum_next(
    rows: Seq<(String, CommandStat)>,
    col: spec_fn(CommandStat) -> u64,
    i: int,
)
    requires
        0 <= i < rows.len(),
    ensures
        column_sum(rows.take(i + 1), col) == column_sum(rows.take(i), col) + col(rows[i].1),
{
    assert(rows.take(i + 1).drop_last() =~= rows.take(i));
}

/// Inserts `line` after every line with at least as many invocations.
fn insert_sorted(lines: &mut Vec<CommandStatSummary>, line: CommandStatSummary)
    requires
        sorted_by_invocations(old(lines)@),
    ensures
        sorted_by_invocations(final(lines)@),
        final(lines)@.to_multiset() == old(lines)@.to_multiset().insert(line),
{
    let n = lines.len();
    let mut pos: usize = 0;
    while pos < n && lines[pos].invocations >= line.invocations
        invariant
            n == lines@.len(),
            pos <= n,
            forall|j: int| 0 <= j < pos ==> (#[trigger] lines@[j]).invocations >= line.invocations,
        decreases n - pos,
    {
        pos = pos + 1;
    }
    let ghost before = lines@;
    lines.insert(pos, line);
    proof {
        vstd::seq_lib::to_multiset_insert(before, pos as int, line);
        assert forall|i: int, j: int|
            0 <= i < j < lines@.len() implies (#[trigger] lines@[i]).invocations >= (
            #[trigger] lines@[j]).invocations by {
            if j < pos {
                assert(lines@[i] == before[i]);
                assert(lines@[j] == before[j]);
            } else if j == pos {
                assert(lines@[i] == before[i]);
            } else if i < pos {
                assert(lines@[i] == before[i]);
                assert(lines@[j] == before[j - 1]);
            } else if i == pos {
                assert(lines@[j] == before[j - 1]);
                assert(before[pos as int].invocations < line.invocations);
                if j - 1 > pos {
                    assert(before[pos as int].invocations >= before[j - 1].invocations);
                }
            } else {
                assert(lines@[i] == before[i - 1]);
                assert(lines@[j] == before[j - 1]);
            }
        }
    }
}

impl CommandStats {
    /// Whether the three column totals of `summary` fit in a `u64`.
    pub fn totals_fit(&self) -> (b: bool)
        ensures
            b == (column_sum(self.rows(), invocations_col()) <= u64::MAX && column_sum(
                self.rows(),
                successes_col(),
            ) <= u64::MAX && column_sum(self.rows(), failures_col()) <= u64::MAX),
    {
        let n = self.commands.len();
        let mut ti: u64 = 0;
        let mut ts: u64 = 0;
        let mut tf: u64 = 0;
        let ghost rows = self.rows();
        assert(rows.take(0) =~= Seq::<(String, CommandStat)>::empty());
        let mut i: usize = 0;
        while i < n
            invariant
                n == rows.len(),
                rows == self.rows(),
                i <= n,
                ti == column_sum(rows.take(i as int), invocations_col()),
                ts == column_sum(rows.take(i as int), successes_col()),
                tf == column_sum(rows.take(i as int), failures_col()),
            decreases n - i,
        {
            proof {
                lemma_column_sum_next(rows, invocations_col(), i as int);
                lemma_column_sum_next(rows, successes_col(), i as int);
                lemma_column_sum_next(rows, failures_col(), i as int);
            }
            let st = self.commands[i].1;
            let ci = ti.checked_add(st.invocations);
            let cs = ts.checked_add(st.successes);
            let cf = tf.checked_add(st.failures);
            if ci.is_none() || cs.is_none() || cf.is_none() {
                proof {
                    lemma_column_sum_prefix(rows, invocations_col(), i + 1);
                    lemma_column_sum_prefix(rows, successes_col(), i + 1);
                    lemma_column_sum_prefix(rows, failures_col(), i + 1);
                }
                return false;
            }
            ti = ci.unwrap();
            ts = cs.unwrap();
            tf = cf.unwrap();
            i = i + 1;
        }
        assert(rows.take(n as int) =~= rows);
        true
    }

    /// Gets a summary of all stats: the totals, one line per command with
    /// the most invoked first, and the newest failures first.
    pub fn summary(&self) -> (s: StatsSummary)
        requires
            self.well_formed(),
            column_sum(self.rows(), invocations_col()) <= u64::MAX,
            column_sum(self.rows(), successes_col()) <= u64::MAX,
            column_sum(self.rows(), failures_col()) <= u64::MAX,
        ensures
            s.total_invocations == column_sum(self.rows(), invocations_col()),
            s.total_successes == column_sum(self.rows(), successes_col()),
            s.total_failures == column_sum(self.rows(), failures_col()),
            sorted_by_invocations(s.commands@),
            s.commands@.to_multiset() == row_summaries(self.rows()).to_multiset(),
            s.recent_failures@ == newest_first(self.failures(), SUMMARY_FAILURES as nat),
    {
        let n = self.commands.len();
        let mut total_invocations: u64 = 0;
        let mut total_successes: u64 = 0;
        let mut total_failures: u64 = 0;
        let mut command_stats: Vec<CommandStatSummary> = Vec::new();
        let ghost rows = self.rows();
        assert(rows.take(0) =~= Seq::<(String, CommandStat)>::empty());
        assert(row_summaries(rows.take(0)) =~= Seq::<CommandStatSummary>::empty());
        let mut i: usize = 0;
        while i < n
            invariant
                n == rows.len(),
                rows == self.rows(),
                i <= n,
                column_sum(rows, invocations_col()) <= u64::MAX,
                column_sum(rows, successes_col()) <= u64::MAX,
                column_sum(rows, failures_col()) <= u64::MAX,
                total_invocations == column_sum(rows.take(i as int), invocations_col()),
                total_successes == column_sum(rows.take(i as int), successes_col()),
                total_failures == column_sum(rows.take(i as int), failures_col()),
                sorted_by_invocations(command_stats@),
                command_stats@.to_multiset() == row_summaries(rows.take(i as int)).to_multiset(),
            decreases n - i,
        {
            proof {
                lemma_column_sum_next(rows, invocations_col(), i as int);
                lemma_column_sum_next(rows, successes_col(), i as int);
                lemma_column_sum_next(rows, failures_col(), i as int);
                lemma_column_sum_prefix(rows, invocations_col(), i + 1);
                lemma_column_sum_prefix(rows, successes_col(), i + 1);
                lemma_column_sum_prefix(rows, failures_col(), i + 1);
            }
            let name = self.commands[i].0.clone();
            let stat = self.commands[i].1;
            total_invocations = total_invocations + stat.invocations;
            total_successes = total_successes + stat.successes;
            total_failures = total_failures + stat.failures;
            let avg_latency = if stat.invocations > 0 {
                stat.total_latency_ms / stat.invocations
            } else {
                0
            };
            let line = CommandStatSummary {
                name,
                invocations: stat.invocations,
                successes: stat.successes,
                failures: stat.failures,
                avg_latency_ms: avg_latency,
                min_latency_ms: match stat.min_latency_ms {
                    Some(m) => m,
                    None => 0,
                },
                max_latency_ms: match stat.max_latency_ms {
                    Some(m) => m,
                    None => 0,
                },
            };
            assert(line == row_summary(rows[i as int]));
            insert_sorted(&mut command_stats, line);
            assert(row_summaries(rows.take(i + 1)) =~= row_summaries(rows.take(i as int)).push(line));
            i = i + 1;
        }
        assert(rows.take(n as int) =~= rows);

        let len = self.recent_failures.len();
        let k: usize = if len < SUMMARY_FAILURES { len } else { SUMMARY_FAILURES };
        let mut recent: Vec<FailureRecord> = Vec::new();
        let mut j: usize = 0;
        while j < k
            invariant
                len == self.recent_failures@.len(),
                k <= len,
                j <= k,
                recent@ =~= newest_first(self.recent_failures@, SUMMARY_FAILURES as nat).take(j as int),
                k == newest_first(self.recent_failures@, SUMMARY_FAILURES as nat).len(),
            decreases k - j,
        {
            let rec = self.recent_failures[len - 1 - j].clone();
            recent.push(rec);
            j = j + 1;
        }
        StatsSummary {
            uptime: self.uptime(),
            total_invocations,
            total_successes,
            total_failures,
            commands: command_stats,
            recent_failures: recent,
        }
    }
}

/// The uptime text for `secs` seconds: days, hours, minutes and seconds,
/// leaving out the leading units that are zero.
pub open spec fn uptime_text(secs: nat) -> Seq<char> {
    let days = secs / 86400;
    let hours = (secs % 86400) / 3600;
    let mins = (secs % 3600) / 60;
    let s = secs % 60;
    if days > 0 {
        decimal(days) + "d "@ + decimal(hours) + "h "@ + decimal(mins) + "m "@ + decimal(s) + "s"@
    } else if hours > 0 {
        decimal(hours) + "h "@ + decimal(mins) + "m "@ + decimal(s) + "s"@
    } else if mins > 0 {
        decimal(mins) + "m "@ + decimal(s) + "s"@
    } else {
        decimal(s) + "s"@
    }
}

impl StatsSummary {
    /// Formats the uptime as a human-readable string.
    pub fn uptime_display(&self) -> (r: String)
        ensures
            r@ == uptime_text(duration_whole_secs(self.uptime) as nat),
    {
        format_uptime(duration_as_secs(&self.uptime))
    }
}

/// Formats `secs` seconds as a human-readable uptime.
pub fn format_uptime(secs: u64) -> (r: String)
    ensures
        r@ == uptime_text(secs as nat),
{
    let days = secs / 86400;
    let hours = (secs % 86400) / 3600;
    let mins = (secs % 3600) / 60;
    let s = secs % 60;
    let mut out = String::new();
    if days > 0 {
        push_decimal(&mut out, days);
        push_str(&mut out, "d ");
    }
    if days > 0 || hours > 0 {
        push_decimal(&mut out, hours);
        push_str(&mut out, "h ");
    }
    if days > 0 || hours > 0 || mins > 0 {
        push_decimal(&mut out, mins);
        push_str(&mut out, "m ");
    }
    push_decimal(&mut out, s);
    push_str(&mut out, "s");
    assert(out@ =~= uptime_text(secs as nat));
    out
}

impl Default for CommandStats {
    fn default() -> (s: Self)
        ensures
            s.well_formed(),
            s.rows() == Seq::<(String, CommandStat)>::empty(),
            s.failures() == Seq::<FailureRecord>::empty(),
    {
        Self::new()
    }
}

} // verus!

verus! {

// ---------------------------------------------------------------------------
// Laws
// ---------------------------------------------------------------------------

/// Appending a row adds its counter to a column sum.
pub proof fn lemma_column_sum_push(
    rows: Seq<(String, CommandStat)>,
    row: (String, CommandStat),
    col: spec_fn(CommandStat) -> u64,
)
    ensures
        column_sum(rows.push(row), col) == column_sum(rows, col) + col(row.1),
{
    assert(rows.push(row).drop_last() =~= rows);
}

/// Replacing a row's counters changes a column sum by the difference.
pub proof fn lemma_column_sum_update(
    rows: Seq<(String, CommandStat)>,
    i: int,
    row: (String, CommandStat),
    col: spec_fn(CommandStat) -> u64,
)
    requires
        0 <= i < rows.len(),
    ensures
        column_sum(rows.update(i, row), col) == column_sum(rows, col) - col(rows[i].1) + col(
            row.1,
        ),
    decreases rows.len(),
{
    if i == rows.len() - 1 {
        assert(rows.update(i, row).drop_last() =~= rows.drop_last());
    } else {
        lemma_column_sum_update(rows.drop_last(), i, row, col);
        assert(rows.update(i, row).drop_last() =~= rows.drop_last().update(i, row));
    }
}

/// Recording for one command sets that command's counters and leaves the
/// counters of every other command as they were.
pub proof fn law_record_touches_only_its_command(
    old: Seq<(String, CommandStat)>,
    new: Seq<(String, CommandStat)>,
    name: Seq<char>,
    st: CommandStat,
    other: Seq<char>,
)
    requires
        names_unique(old),
        names_unique(new),
        upserted(old, new, name, st),
    ensures
        stat_of(new, name) == st,
        has_name(new, name),
        other != name ==> stat_of(new, other) == stat_of(old, other),
        other != name ==> has_name(new, other) == has_name(old, other),
{
    if has_name(old, name) {
        let i = index_of(old, name);
        assert(new[i].0@ == name);
        assert(has_name(new, name));
        let k = index_of(new, name);
        if k != i {
            assert(new[k].0@ != new[i].0@);
        }
        if other != name {
            if has_name(old, other) {
                let j = index_of(old, other);
                assert(new[j].0@ == other);
                assert(has_name(new, other));
                let m = index_of(new, other);
                if m != j {
                    assert(new[m].0@ != new[j].0@);
                }
            } else if has_name(new, other) {
                let m = index_of(new, other);
                assert(old[m].0@ == new[m].0@);
            }
        }
    } else {
        let n = old.len();
        assert(new[n as int].0@ == name);
        assert(has_name(new, name));
        let k = index_of(new, name);
        if k != n {
            assert(new[k].0@ != new[n as int].0@);
        }
        if other != name {
            if has_name(old, other) {
                let j = index_of(old, other);
                assert(new[j] == old[j]);
                assert(has_name(new, other));
                let m = index_of(new, other);
                if m != j {
                    assert(new[m].0@ != new[j].0@);
                }
            } else if has_name(new, other) {
                let m = index_of(new, other);
                if m < n {
                    assert(old[m] == new[m]);
                }
            }
        }
    }
}

/// Applying `st` to `name` changes a column sum by the difference between
/// the new and the previous counters of `name`.
pub proof fn lemma_upsert_column_sum(
    old: Seq<(String, CommandStat)>,
    new: Seq<(String, CommandStat)>,
    name: Seq<char>,
    st: CommandStat,
    col: spec_fn(CommandStat) -> u64,
)
    requires
        upserted(old, new, name, st),
        col(CommandStat::zero()) == 0,
    ensures
        column_sum(new, col) == column_sum(old, col) - col(stat_of(old, name)) + col(st),
{
    if has_name(old, name) {
        let i = index_of(old, name);
        lemma_column_sum_update(old, i, (old[i].0, st), col);
    } else {
        assert(new =~= old.push(new.last()));
        lemma_column_sum_push(old, new.last(), col);
    }
}

/// Each recorded invocation adds one to the total invocations and leaves
/// the totals of successes and failures as they were.
pub proof fn law_invocation_adds_one(
    old: Seq<(String, CommandStat)>,
    new: Seq<(String, CommandStat)>,
    name: Seq<char>,
)
    requires
        stat_of(old, name).invocations < u64::MAX,
        upserted(old, new, name, stat_of(old, name).after_invocation()),
    ensures
        column_sum(new, invocations_col()) == column_sum(old, invocations_col()) + 1,
        column_sum(new, successes_col()) == column_sum(old, successes_col()),
        column_sum(new, failures_col()) == column_sum(old, failures_col()),
{
    let st = stat_of(old, name).after_invocation();
    lemma_upsert_column_sum(old, new, name, st, invocations_col());
    lemma_upsert_column_sum(old, new, name, st, successes_col());
    lemma_upsert_column_sum(old, new, name, st, failures_col());
}

/// Each recorded success adds one to the total successes and leaves the
/// totals of invocations and failures as they were.
pub proof fn law_success_adds_one(
    old: Seq<(String, CommandStat)>,
    new: Seq<(String, CommandStat)>,
    name: Seq<char>,
    ms: u64,
)
    requires
        stat_of(old, name).successes < u64::MAX,
        upserted(old, new, name, stat_of(old, name).after_success(ms)),
    ensures
        column_sum(new, invocations_col()) == column_sum(old, invocations_col()),
        column_sum(new, successes_col()) == column_sum(old, successes_col()) + 1,
        column_sum(new, failures_col()) == column_sum(old, failures_col()),
{
    let st = stat_of(old, name).after_success(ms);
    lemma_upsert_column_sum(old, new, name, st, invocations_col());
    lemma_upsert_column_sum(old, new, name, st, successes_col());
    lemma_upsert_column_sum(old, new, name, st, failures_col());
}

/// Each recorded failure adds one to the total failures and leaves the
/// totals of invocations and successes as they were.
pub proof fn law_failure_adds_one(
    old: Seq<(String, CommandStat)>,
    new: Seq<(String, CommandStat)>,
    name: Seq<char>,
    ms: u64,
)
    requires
        stat_of(old, name).failures < u64::MAX,
        upserted(old, new, name, stat_of(old, name).after_failure(ms)),
    ensures
        column_sum(new, invocations_col()) == column_sum(old, invocations_col()),
        column_sum(new, successes_col()) == column_sum(old, successes_col()),
        column_sum(new, failures_col()) == column_sum(old, failures_col()) + 1,
{
    let st = stat_of(old, name).after_failure(ms);
    lemma_upsert_column_sum(old, new, name, st, invocations_col());
    lemma_upsert_column_sum(old, new, name, st, successes_col());
    lemma_upsert_column_sum(old, new, name, st, failures_col());
}

/// After a completion that took `ms`, the minimum latency is at most `ms`,
/// the maximum is at least `ms`, and the extremes stay consistent.
pub proof fn law_latency_extremes_bracket(st: CommandStat, ms: u64)
    requires
        st.latency_consistent(),
        st.successes < u64::MAX,
        st.failures < u64::MAX,
    ensures
        st.after_success(ms).latency_consistent(),
        st.after_failure(ms).latency_consistent(),
        st.after_success(ms).min_latency_ms->0 <= ms <= st.after_success(ms).max_latency_ms->0,
        st.after_failure(ms).min_latency_ms->0 <= ms <= st.after_failure(ms).max_latency_ms->0,
        st.after_success(ms).min_latency_ms == st.after_failure(ms).min_latency_ms,
        st.after_success(ms).max_latency_ms == st.after_failure(ms).max_latency_ms,
        st.after_success(ms).min_latency_ms == Some(
            if st.successes + st.failures == 0 {
                ms
            } else if st.min_latency_ms->0 <= ms {
                st.min_latency_ms->0
            } else {
                ms
            },
        ),
        st.after_success(ms).max_latency_ms == Some(
            if st.successes + st.failures == 0 {
                ms
            } else if st.max_latency_ms->0 >= ms {
                st.max_latency_ms->0
            } else {
                ms
            },
        ),
{
}

/// The failure window keeps at most `MAX_RECENT_FAILURES` records, ends with
/// the newest one, and is the newest part of everything recorded.
pub proof fn law_failure_window(failures: Seq<FailureRecord>, rec: FailureRecord)
    requires
        failures.len() <= MAX_RECENT_FAILURES,
    ensures
        failure_window(failures, rec).len() <= MAX_RECENT_FAILURES,
        failure_window(failures, rec).last() == rec,
        failure_window(failures, rec) == failures.push(rec).skip(
            failures.len() + 1 - failure_window(failures, rec).len(),
        ),
        failures.len() < MAX_RECENT_FAILURES ==> failure_window(failures, rec) == failures.push(
            rec,
        ),
{
    let all = failures.push(rec);
    if all.len() > MAX_RECENT_FAILURES {
        assert(all.skip(all.len() - MAX_RECENT_FAILURES).last() == all.last());
    } else {
        assert(all.skip(0) =~= all);
    }
}

/// Each failure keeps the time of its own recording: after a failure
/// recorded at `t1` and then one recorded at `t2` (each as
/// `record_failure_at` leaves the window), the newest record carries `t2`
/// and the one before it `t1`.
pub proof fn law_failures_keep_their_times(
    f0: Seq<FailureRecord>,
    f1: Seq<FailureRecord>,
    f2: Seq<FailureRecord>,
    t1: SystemTime,
    t2: SystemTime,
)
    requires
        f0.len() <= MAX_RECENT_FAILURES,
        f1 == failure_window(f0, f1.last()),
        f1.last().timestamp == t1,
        f2 == failure_window(f1, f2.last()),
        f2.last().timestamp == t2,
    ensures
        f2.len() >= 2,
        f2.last().timestamp == t2,
        f2[f2.len() - 2].timestamp == t1,
{
    law_failure_window(f0, f1.last());
    let all = f1.push(f2.last());
    if all.len() > MAX_RECENT_FAILURES {
        let d = all.len() - MAX_RECENT_FAILURES;
        assert(f2 =~= all.skip(d));
        assert(f2[f2.len() - 2] == all[all.len() - 2]);
    } else {
        assert(f2 =~= all);
    }
    assert(all[all.len() - 2] == f1.last());
}

/// A summary lists every command exactly once: as many lines as rows, and
/// each row's line among them.
pub proof fn law_summary_lists_every_command(
    lines: Seq<CommandStatSummary>,
    rows: Seq<(String, CommandStat)>,
    i: int,
)
    requires
        lines.to_multiset() == row_summaries(rows).to_multiset(),
        0 <= i < rows.len(),
    ensures
        lines.len() == rows.len(),
        lines.contains(row_summary(rows[i])),
{
    broadcast use vstd::seq_lib::group_to_multiset_ensures;

    let sums = row_summaries(rows);
    let x = row_summary(rows[i]);
    assert(sums[i] == x);
    assert(sums.contains(x));
    vstd::seq_lib::to_multiset_len(lines);
    vstd::seq_lib::to_multiset_len(sums);
    vstd::seq_lib::to_multiset_contains(sums, x);
    vstd::seq_lib::to_multiset_contains(lines, x);
}

/// The first failure a summary lists is the newest one kept.
pub proof fn law_newest_failure_first(failures: Seq<FailureRecord>, n: nat)
    requires
        failures.len() > 0,
        n > 0,
    ensures
        newest_first(failures, n).len() > 0,
        newest_first(failures, n)[0] == failures.last(),
{
}

/// The uptime text shows the days, hours, minutes and seconds that make up
/// the total: for any split of `secs` into whole days and hours, minutes and
/// seconds below a day, an hour and a minute, those are the numbers shown.
pub proof fn law_uptime_shows_split(secs: nat, d: nat, h: nat, m: nat, s: nat)
    requires
        d * 86400 + h * 3600 + m * 60 + s == secs,
        h < 24,
        m < 60,
        s < 60,
    ensures
        d > 0 ==> uptime_text(secs) == decimal(d) + "d "@ + decimal(h) + "h "@ + decimal(m) + "m "@
            + decimal(s) + "s"@,
        d == 0 && h > 0 ==> uptime_text(secs) == decimal(h) + "h "@ + decimal(m) + "m "@ + decimal(
            s,
        ) + "s"@,
        d == 0 && h == 0 && m > 0 ==> uptime_text(secs) == decimal(m) + "m "@ + decimal(s) + "s"@,
        d == 0 && h == 0 && m == 0 ==> uptime_text(secs) == decimal(s) + "s"@,
{
    let r = h * 3600 + m * 60 + s;
    assert(r < 86400);
    assert(d == secs / 86400 && r == secs % 86400) by (nonlinear_arith)
        requires
            secs == d * 86400 + r,
            0 <= r < 86400,
    ;
    let q = m * 60 + s;
    assert(q < 3600);
    assert(h == r / 3600 && q == r % 3600) by (nonlinear_arith)
        requires
            r == h * 3600 + q,
            0 <= q < 3600,
    ;
    assert(secs % 3600 == q) by (nonlinear_arith)
        requires
            secs == d * 86400 + h * 3600 + q,
            0 <= q < 3600,
    ;
    assert(m == q / 60 && s == q % 60) by (nonlinear_arith)
        requires
            q == m * 60 + s,
            0 <= s < 60,
    ;
    assert(secs % 60 == s) by (nonlinear_arith)
        requires
            secs == d * 86400 + h * 3600 + m * 60 + s,
            0 <= s < 60,
    ;
}

/// The uptime text's days, hours, minutes and seconds recompose the total.
pub proof fn law_uptime_parts(secs: nat)
    ensures
        (secs / 86400) * 86400 + ((secs % 86400) / 3600) * 3600 + ((secs % 3600) / 60) * 60 + secs
            % 60 == secs,
        (secs % 86400) / 3600 < 24,
        (secs % 3600) / 60 < 60,
{
    let d = secs / 86400;
    let r = secs % 86400;
    let h = r / 3600;
    let q = r % 3600;
    assert(secs == d * 86400 + r) by (nonlinear_arith)
        requires d == secs / 86400, r == secs % 86400;
    assert(r == h * 3600 + q) by (nonlinear_arith)
        requires h == r / 3600, q == r % 3600;
    assert(secs % 3600 == q) by (nonlinear_arith)
        requires secs == d * 86400 + r, r == h * 3600 + q, 0 <= q < 3600, d >= 0, h >= 0;
    let m = q / 60;
    let s = q % 60;
    assert(q == m * 60 + s) by (nonlinear_arith)
        requires m == q / 60, s == q % 60;
    assert(secs % 60 == s) by (nonlinear_arith)
        requires secs == d * 86400 + h * 3600 + m * 60 + s, 0 <= s < 60, d >= 0, h >= 0, m >= 0;
    assert(h < 24) by (nonlinear_arith)
        requires h == r / 3600, 0 <= r < 86400;
}

} // verus!
