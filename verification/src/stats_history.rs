//! What the statistics hold after a whole history of recorded calls.
//!
//! Each `record_*` method of `CommandStats` ensures `records` for the call it
//! makes; `is_history` chains those steps from a new tracker. The laws here
//! state, for any such history, each command's counters, which names are
//! listed, the totals, and which failures are kept.

use vstd::prelude::*;

use crate::stats::column_sum;
use crate::stats::failure_window;
use crate::stats::failures_col;
use crate::stats::has_name;
use crate::stats::index_of;
use crate::stats::invocations_col;
use crate::stats::law_failure_adds_one;
use crate::stats::law_invocation_adds_one;
use crate::stats::law_record_touches_only_its_command;
use crate::stats::law_success_adds_one;
use crate::stats::names_unique;
use crate::stats::newest_first;
use crate::stats::row_summaries;
use crate::stats::row_summary;
use crate::stats::stat_of;
use crate::stats::successes_col;
use crate::stats::upserted;
use crate::stats::CommandStat;
use crate::stats::CommandStatSummary;
use crate::stats::SUMMARY_FAILURES;
use crate::stats::FailureRecord;
use crate::stats::MAX_RECENT_FAILURES;

verus! {

broadcast use {
    vstd::seq_lib::group_to_multiset_ensures,
    vstd::multiset::group_multiset_axioms,
};

/// One call of a `record_*` method, by the values its contract speaks of.
pub enum StatsCall {
    Invocation { command: Seq<char> },
    Success { command: Seq<char>, duration_ms: u64 },
    Failure { command: Seq<char>, error: Seq<char>, user_id: Seq<char>, duration_ms: u64 },
}

/// The command a call records for.
pub open spec fn call_name(c: StatsCall) -> Seq<char> {
    match c {
        StatsCall::Invocation { command } => command,
        StatsCall::Success { command, .. } => command,
        StatsCall::Failure { command, .. } => command,
    }
}

/// `r` is the record of the failure call `c`.
pub open spec fn failure_matches(r: FailureRecord, c: StatsCall) -> bool {
    match c {
        StatsCall::Failure { command, error, user_id, duration_ms } => {
            &&& r.command@ == command
            &&& r.error@ == error
            &&& r.user_id@ == user_id
            &&& r.duration_ms == duration_ms
        },
        _ => false,
    }
}

/// The rows and kept failures `new` follow from `old` by the call `c`, made
/// where its `requires` held.
pub open spec fn records(
    old_rows: Seq<(String, CommandStat)>,
    old_failures: Seq<FailureRecord>,
    new_rows: Seq<(String, CommandStat)>,
    new_failures: Seq<FailureRecord>,
    c: StatsCall,
) -> bool {
    match c {
        StatsCall::Invocation { command } => {
            &&& stat_of(old_rows, command).invocations < u64::MAX
            &&& upserted(
                old_rows,
                new_rows,
                command,
                stat_of(old_rows, command).after_invocation(),
            )
            &&& new_failures == old_failures
        },
        StatsCall::Success { command, duration_ms } => {
            &&& stat_of(old_rows, command).successes < u64::MAX
            &&& stat_of(old_rows, command).total_latency_ms + duration_ms <= u64::MAX
            &&& upserted(
                old_rows,
                new_rows,
                command,
                stat_of(old_rows, command).after_success(duration_ms),
            )
            &&& new_failures == old_failures
        },
        StatsCall::Failure { command, duration_ms, .. } => {
            &&& stat_of(old_rows, command).failures < u64::MAX
            &&& stat_of(old_rows, command).total_latency_ms + duration_ms <= u64::MAX
            &&& upserted(
                old_rows,
                new_rows,
                command,
                stat_of(old_rows, command).after_failure(duration_ms),
            )
            &&& new_failures == failure_window(old_failures, new_failures.last())
            &&& failure_matches(new_failures.last(), c)
        },
    }
}

/// `rows[i]` and `failures[i]` are what a new tracker holds after the first
/// `i` calls of `calls`.
pub open spec fn is_history(
    calls: Seq<StatsCall>,
    rows: Seq<Seq<(String, CommandStat)>>,
    failures: Seq<Seq<FailureRecord>>,
) -> bool {
    &&& rows.len() == calls.len() + 1
    &&& failures.len() == calls.len() + 1
    &&& rows[0].len() == 0
    &&& failures[0].len() == 0
    &&& forall|i: int| 0 <= i < rows.len() ==> names_unique(#[trigger] rows[i])
    &&& forall|i: int|
        0 <= i < calls.len() ==> records(
            rows[i],
            failures[i],
            rows[i + 1],
            failures[i + 1],
            #[trigger] calls[i],
        )
}

/// Some call records for `n`.
pub open spec fn mentioned(calls: Seq<StatsCall>, n: Seq<char>) -> bool {
    exists|i: int| 0 <= i < calls.len() && call_name(#[trigger] calls[i]) == n
}

/// Number of invocations recorded for `n`.
pub open spec fn invocations_in(calls: Seq<StatsCall>, n: Seq<char>) -> nat
    decreases calls.len(),
{
    if calls.len() == 0 {
        0
    } else {
        invocations_in(calls.drop_last(), n) + if calls.last() is Invocation && call_name(
            calls.last(),
        ) == n {
            1nat
        } else {
            0nat
        }
    }
}

/// Number of successes recorded for `n`.
pub open spec fn successes_in(calls: Seq<StatsCall>, n: Seq<char>) -> nat
    decreases calls.len(),
{
    if calls.len() == 0 {
        0
    } else {
        successes_in(calls.drop_last(), n) + if calls.last() is Success && call_name(
            calls.last(),
        ) == n {
            1nat
        } else {
            0nat
        }
    }
}

/// Number of failures recorded for `n`.
pub open spec fn failures_in(calls: Seq<StatsCall>, n: Seq<char>) -> nat
    decreases calls.len(),
{
    if calls.len() == 0 {
        0
    } else {
        failures_in(calls.drop_last(), n) + if calls.last() is Failure && call_name(
            calls.last(),
        ) == n {
            1nat
        } else {
            0nat
        }
    }
}

/// The latencies of the successes and failures recorded for `n`, in order.
pub open spec fn latencies_in(calls: Seq<StatsCall>, n: Seq<char>) -> Seq<u64>
    decreases calls.len(),
{
    if calls.len() == 0 {
        Seq::empty()
    } else {
        let prev = latencies_in(calls.drop_last(), n);
        match calls.last() {
            StatsCall::Success { command, duration_ms } => if command == n {
                prev.push(duration_ms)
            } else {
                prev
            },
            StatsCall::Failure { command, duration_ms, .. } => if command == n {
                prev.push(duration_ms)
            } else {
                prev
            },
            _ => prev,
        }
    }
}

/// Sum of `s`.
pub open spec fn seq_sum(s: Seq<u64>) -> nat
    decreases s.len(),
{
    if s.len() == 0 {
        0
    } else {
        seq_sum(s.drop_last()) + s.last() as nat
    }
}

/// Least element of a non-empty `s`.
pub open spec fn seq_min(s: Seq<u64>) -> u64
    decreases s.len(),
{
    if s.len() <= 1 {
        s[0]
    } else {
        let m = seq_min(s.drop_last());
        if m <= s.last() {
            m
        } else {
            s.last()
        }
    }
}

/// Greatest element of a non-empty `s`.
pub open spec fn seq_max(s: Seq<u64>) -> u64
    decreases s.len(),
{
    if s.len() <= 1 {
        s[0]
    } else {
        let m = seq_max(s.drop_last());
        if m >= s.last() {
            m
        } else {
            s.last()
        }
    }
}

/// The counters of `n` after `calls`: the numbers of its invocations,
/// successes and failures, the sum of its latencies, and their least and
/// greatest (none before any success or failure).
pub open spec fn history_stat(calls: Seq<StatsCall>, n: Seq<char>) -> CommandStat {
    let l = latencies_in(calls, n);
    CommandStat {
        invocations: invocations_in(calls, n) as u64,
        successes: successes_in(calls, n) as u64,
        failures: failures_in(calls, n) as u64,
        total_latency_ms: seq_sum(l) as u64,
        min_latency_ms: if l.len() == 0 {
            None
        } else {
            Some(seq_min(l))
        },
        max_latency_ms: if l.len() == 0 {
            None
        } else {
            Some(seq_max(l))
        },
    }
}

/// The counts and the latency sum of `n` fit in a `u64`.
pub open spec fn history_fits(calls: Seq<StatsCall>, n: Seq<char>) -> bool {
    &&& invocations_in(calls, n) <= u64::MAX
    &&& successes_in(calls, n) <= u64::MAX
    &&& failures_in(calls, n) <= u64::MAX
    &&& seq_sum(latencies_in(calls, n)) <= u64::MAX
}

/// Number of calls of each kind, over all commands.
pub open spec fn kind_count(calls: Seq<StatsCall>, kind: int) -> nat
    decreases calls.len(),
{
    if calls.len() == 0 {
        0
    } else {
        kind_count(calls.drop_last(), kind) + if call_kind(calls.last()) == kind {
            1nat
        } else {
            0nat
        }
    }
}

/// 0 for an invocation, 1 for a success, 2 for a failure.
pub open spec fn call_kind(c: StatsCall) -> int {
    match c {
        StatsCall::Invocation { .. } => 0,
        StatsCall::Success { .. } => 1,
        StatsCall::Failure { .. } => 2,
    }
}

/// The failure calls among `calls`, in order.
pub open spec fn failure_calls(calls: Seq<StatsCall>) -> Seq<StatsCall>
    decreases calls.len(),
{
    if calls.len() == 0 {
        Seq::empty()
    } else if calls.last() is Failure {
        failure_calls(calls.drop_last()).push(calls.last())
    } else {
        failure_calls(calls.drop_last())
    }
}

/// `kept` holds the records of the last `MAX_RECENT_FAILURES` (or fewer)
/// failure calls of `fcs`, oldest first.
pub open spec fn is_failure_window(kept: Seq<FailureRecord>, fcs: Seq<StatsCall>) -> bool {
    &&& kept.len() == if fcs.len() < MAX_RECENT_FAILURES {
        fcs.len()
    } else {
        MAX_RECENT_FAILURES as nat
    }
    &&& forall|i: int|
        0 <= i < kept.len() ==> failure_matches(
            #[trigger] kept[i],
            fcs[fcs.len() - kept.len() + i],
        )
}

/// What holds after the first `k` calls of a history, for every name.
pub open spec fn holds_after(
    calls: Seq<StatsCall>,
    rows: Seq<Seq<(String, CommandStat)>>,
    failures: Seq<Seq<FailureRecord>>,
    k: int,
) -> bool {
    let t = calls.take(k);
    &&& forall|n: Seq<char>|
        #![trigger stat_of(rows[k], n)]
        #![trigger history_stat(t, n)]
        stat_of(rows[k], n) == history_stat(t, n) && history_fits(t, n)
    &&& forall|n: Seq<char>|
        #![trigger has_name(rows[k], n)]
        #![trigger mentioned(t, n)]
        has_name(rows[k], n) == mentioned(t, n)
    &&& column_sum(rows[k], invocations_col()) == kind_count(t, 0)
    &&& column_sum(rows[k], successes_col()) == kind_count(t, 1)
    &&& column_sum(rows[k], failures_col()) == kind_count(t, 2)
    &&& is_failure_window(failures[k], failure_calls(t))
}

/// The latencies after one more of `n`'s completions.
proof fn lemma_latencies_push(l: Seq<u64>, ms: u64)
    ensures
        seq_sum(l.push(ms)) == seq_sum(l) + ms,
        seq_min(l.push(ms)) == (if l.len() == 0 {
            ms
        } else if seq_min(l) <= ms {
            seq_min(l)
        } else {
            ms
        }),
        seq_max(l.push(ms)) == (if l.len() == 0 {
            ms
        } else if seq_max(l) >= ms {
            seq_max(l)
        } else {
            ms
        }),
{
    assert(l.push(ms).drop_last() =~= l);
}

/// One step of a history keeps `holds_after` for the name `n`.
proof fn lemma_step_stat(
    calls: Seq<StatsCall>,
    rows: Seq<Seq<(String, CommandStat)>>,
    failures: Seq<Seq<FailureRecord>>,
    j: int,
    n: Seq<char>,
)
    requires
        is_history(calls, rows, failures),
        0 <= j < calls.len(),
        holds_after(calls, rows, failures, j),
    ensures
        stat_of(rows[j + 1], n) == history_stat(calls.take(j + 1), n),
        history_fits(calls.take(j + 1), n),
        has_name(rows[j + 1], n) == mentioned(calls.take(j + 1), n),
{
    let c = calls[j];
    let old = rows[j];
    let new = rows[j + 1];
    let t0 = calls.take(j);
    let t1 = calls.take(j + 1);
    assert(t1.drop_last() =~= t0);
    assert(t1.last() == c);
    assert(records(rows[j], failures[j], rows[j + 1], failures[j + 1], calls[j]));
    assert(names_unique(rows[j]));
    assert(names_unique(rows[j + 1]));
    let name = call_name(c);
    assert(stat_of(old, name) == history_stat(t0, name) && history_fits(t0, name));
    assert(stat_of(old, n) == history_stat(t0, n) && history_fits(t0, n));
    assert(has_name(old, n) == mentioned(t0, n));
    assert(mentioned(t1, n) == (mentioned(t0, n) || name == n)) by {
        if mentioned(t1, n) {
            let i = choose|i: int| 0 <= i < t1.len() && call_name(#[trigger] t1[i]) == n;
            if i < j {
                assert(t0[i] == t1[i]);
            }
        }
        if mentioned(t0, n) {
            let i = choose|i: int| 0 <= i < t0.len() && call_name(#[trigger] t0[i]) == n;
            assert(t1[i] == t0[i]);
        }
        if name == n {
            assert(call_name(t1[j]) == n);
        }
    }
    let l0 = latencies_in(t0, n);
    match c {
        StatsCall::Invocation { command } => {
            let st = stat_of(old, command).after_invocation();
            law_record_touches_only_its_command(old, new, command, st, n);
            assert(latencies_in(t1, n) == l0);
        },
        StatsCall::Success { command, duration_ms } => {
            let st = stat_of(old, command).after_success(duration_ms);
            law_record_touches_only_its_command(old, new, command, st, n);
            if command == n {
                assert(latencies_in(t1, n) == l0.push(duration_ms));
                lemma_latencies_push(l0, duration_ms);
            } else {
                assert(latencies_in(t1, n) == l0);
            }
        },
        StatsCall::Failure { command, duration_ms, .. } => {
            let st = stat_of(old, command).after_failure(duration_ms);
            law_record_touches_only_its_command(old, new, command, st, n);
            if command == n {
                assert(latencies_in(t1, n) == l0.push(duration_ms));
                lemma_latencies_push(l0, duration_ms);
            } else {
                assert(latencies_in(t1, n) == l0);
            }
        },
    }
}

/// One step of a history keeps the column totals equal to the numbers of
/// calls of each kind.
proof fn lemma_step_sums(
    calls: Seq<StatsCall>,
    rows: Seq<Seq<(String, CommandStat)>>,
    failures: Seq<Seq<FailureRecord>>,
    j: int,
)
    requires
        is_history(calls, rows, failures),
        0 <= j < calls.len(),
        column_sum(rows[j], invocations_col()) == kind_count(calls.take(j), 0),
        column_sum(rows[j], successes_col()) == kind_count(calls.take(j), 1),
        column_sum(rows[j], failures_col()) == kind_count(calls.take(j), 2),
    ensures
        column_sum(rows[j + 1], invocations_col()) == kind_count(calls.take(j + 1), 0),
        column_sum(rows[j + 1], successes_col()) == kind_count(calls.take(j + 1), 1),
        column_sum(rows[j + 1], failures_col()) == kind_count(calls.take(j + 1), 2),
{
    let c = calls[j];
    let t0 = calls.take(j);
    let t1 = calls.take(j + 1);
    assert(t1.drop_last() =~= t0);
    assert(t1.last() == c);
    assert(records(rows[j], failures[j], rows[j + 1], failures[j + 1], calls[j]));
    match c {
        StatsCall::Invocation { command } => {
            law_invocation_adds_one(rows[j], rows[j + 1], command);
        },
        StatsCall::Success { command, duration_ms } => {
            law_success_adds_one(rows[j], rows[j + 1], command, duration_ms);
        },
        StatsCall::Failure { command, duration_ms, .. } => {
            law_failure_adds_one(rows[j], rows[j + 1], command, duration_ms);
        },
    }
}

/// One step of a history keeps the failure window.
proof fn lemma_step_window(
    calls: Seq<StatsCall>,
    rows: Seq<Seq<(String, CommandStat)>>,
    failures: Seq<Seq<FailureRecord>>,
    j: int,
)
    requires
        is_history(calls, rows, failures),
        0 <= j < calls.len(),
        is_failure_window(failures[j], failure_calls(calls.take(j))),
    ensures
        is_failure_window(failures[j + 1], failure_calls(calls.take(j + 1))),
{
    let c = calls[j];
    let t0 = calls.take(j);
    let t1 = calls.take(j + 1);
    assert(t1.drop_last() =~= t0);
    assert(t1.last() == c);
    assert(records(rows[j], failures[j], rows[j + 1], failures[j + 1], calls[j]));
    let f0 = failures[j];
    let f1 = failures[j + 1];
    let fc0 = failure_calls(t0);
    if c is Failure {
        let fc1 = fc0.push(c);
        assert(failure_calls(t1) == fc1);
        let rec = f1.last();
        let all = f0.push(rec);
        if f0.len() < MAX_RECENT_FAILURES {
            assert(f1 == all);
            assert forall|i: int| 0 <= i < f1.len() implies failure_matches(
                #[trigger] f1[i],
                fc1[fc1.len() - f1.len() + i],
            ) by {
                if i < f0.len() {
                    assert(f1[i] == f0[i]);
                    assert(failure_matches(f0[i], fc0[fc0.len() - f0.len() + i]));
                }
            }
        } else {
            assert(f1 == all.skip(1));
            assert forall|i: int| 0 <= i < f1.len() implies failure_matches(
                #[trigger] f1[i],
                fc1[fc1.len() - f1.len() + i],
            ) by {
                assert(f1[i] == all[i + 1]);
                if i + 1 < f0.len() {
                    assert(f1[i] == f0[i + 1]);
                    assert(failure_matches(f0[i + 1], fc0[fc0.len() - f0.len() + i + 1]));
                }
            }
        }
    } else {
        assert(failure_calls(t1) == fc0);
        assert(f1 == f0);
    }
}

/// After the first `k` calls of a history, each command's counters are
/// those its calls give, the listed names are those mentioned, the totals
/// count the calls of each kind, and the kept failures are the newest ones.
pub proof fn lemma_holds_after(
    calls: Seq<StatsCall>,
    rows: Seq<Seq<(String, CommandStat)>>,
    failures: Seq<Seq<FailureRecord>>,
    k: int,
)
    requires
        is_history(calls, rows, failures),
        0 <= k <= calls.len(),
    ensures
        holds_after(calls, rows, failures, k),
    decreases k,
{
    if k == 0 {
        let t = calls.take(0);
        assert(t =~= Seq::<StatsCall>::empty());
        assert(latencies_in(t, Seq::<char>::empty()) == Seq::<u64>::empty());
        assert forall|n: Seq<char>|
            stat_of(rows[0], n) == history_stat(t, n) && history_fits(t, n) by {
            assert(!has_name(rows[0], n));
            assert(latencies_in(t, n) =~= Seq::<u64>::empty());
        }
        assert forall|n: Seq<char>| has_name(rows[0], n) == mentioned(t, n) by {}
        assert(failure_calls(t) =~= Seq::<StatsCall>::empty());
    } else {
        let j = k - 1;
        lemma_holds_after(calls, rows, failures, j);
        assert forall|n: Seq<char>|
            stat_of(rows[k], n) == history_stat(calls.take(k), n) && history_fits(
                calls.take(k),
                n,
            ) by {
            lemma_step_stat(calls, rows, failures, j, n);
        }
        assert forall|n: Seq<char>| has_name(rows[k], n) == mentioned(calls.take(k), n) by {
            lemma_step_stat(calls, rows, failures, j, n);
        }
        lemma_step_sums(calls, rows, failures, j);
        lemma_step_window(calls, rows, failures, j);
    }
}

// ---------------------------------------------------------------------------
// Summaries of a history
// ---------------------------------------------------------------------------

/// Number of indices of `s` that hold `x`.
pub open spec fn occurrences<A>(s: Seq<A>, x: A) -> nat
    decreases s.len(),
{
    if s.len() == 0 {
        0
    } else {
        occurrences(s.drop_last(), x) + if s.last() == x {
            1nat
        } else {
            0nat
        }
    }
}

/// A multiset count is the number of occurrences.
proof fn lemma_occurrences_count<A>(s: Seq<A>, x: A)
    ensures
        s.to_multiset().count(x) == occurrences(s, x),
    decreases s.len(),
{
    if s.len() > 0 {
        lemma_occurrences_count(s.drop_last(), x);
        assert(s =~= s.drop_last().push(s.last()));
        vstd::seq_lib::to_multiset_build(s.drop_last(), s.last());
    } else {
        assert(s.to_multiset() =~= vstd::multiset::Multiset::<A>::empty());
    }
}

/// Two indices holding `x` make two occurrences.
proof fn lemma_occurrences_two<A>(s: Seq<A>, x: A, i: int, j: int)
    requires
        0 <= i < j < s.len(),
        s[i] == x,
        s[j] == x,
    ensures
        occurrences(s, x) >= 2,
    decreases s.len(),
{
    if j < s.len() - 1 {
        assert(s.drop_last()[i] == x && s.drop_last()[j] == x);
        lemma_occurrences_two(s.drop_last(), x, i, j);
    } else {
        assert(s.drop_last()[i] == x);
        lemma_occurrences_pos(s.drop_last(), x, i);
    }
}

/// An index holding `x` makes an occurrence.
proof fn lemma_occurrences_pos<A>(s: Seq<A>, x: A, i: int)
    requires
        0 <= i < s.len(),
        s[i] == x,
    ensures
        occurrences(s, x) >= 1,
    decreases s.len(),
{
    if i < s.len() - 1 {
        assert(s.drop_last()[i] == x);
        lemma_occurrences_pos(s.drop_last(), x, i);
    }
}

/// Where no two indices hold `x`, it occurs at most once.
proof fn lemma_occurrences_at_most_one<A>(s: Seq<A>, x: A)
    requires
        forall|p: int, q: int| 0 <= p < q < s.len() && s[p] == x ==> s[q] != x,
    ensures
        occurrences(s, x) <= 1,
    decreases s.len(),
{
    if s.len() > 0 {
        let d = s.drop_last();
        assert forall|p: int, q: int| 0 <= p < q < d.len() && d[p] == x implies d[q] != x by {
            assert(d[p] == s[p] && d[q] == s[q]);
        }
        lemma_occurrences_at_most_one(d, x);
        if s.last() == x {
            if occurrences(d, x) > 0 {
                lemma_occurrences_some(d, x);
                let p = choose|p: int| 0 <= p < d.len() && d[p] == x;
                assert(s[p] == x);
            }
        }
    }
}

/// An occurrence is at some index.
proof fn lemma_occurrences_some<A>(s: Seq<A>, x: A)
    requires
        occurrences(s, x) > 0,
    ensures
        exists|p: int| 0 <= p < s.len() && s[p] == x,
    decreases s.len(),
{
    if s.last() != x {
        lemma_occurrences_some(s.drop_last(), x);
        let p = choose|p: int| 0 <= p < s.drop_last().len() && s.drop_last()[p] == x;
        assert(s[p] == x);
    } else {
        assert(s[s.len() - 1] == x);
    }
}

/// Sum of a column over summary lines.
pub open spec fn line_sum(lines: Seq<CommandStatSummary>, col: spec_fn(CommandStatSummary) -> u64) -> nat
    decreases lines.len(),
{
    if lines.len() == 0 {
        0
    } else {
        line_sum(lines.drop_last(), col) + col(lines.last()) as nat
    }
}

pub open spec fn line_invocations() -> spec_fn(CommandStatSummary) -> u64 {
    |l: CommandStatSummary| l.invocations
}

pub open spec fn line_successes() -> spec_fn(CommandStatSummary) -> u64 {
    |l: CommandStatSummary| l.successes
}

pub open spec fn line_failures() -> spec_fn(CommandStatSummary) -> u64 {
    |l: CommandStatSummary| l.failures
}

proof fn lemma_line_sum_remove(s: Seq<CommandStatSummary>, j: int, col: spec_fn(CommandStatSummary) -> u64)
    requires
        0 <= j < s.len(),
    ensures
        line_sum(s, col) == line_sum(s.remove(j), col) + col(s[j]),
    decreases s.len(),
{
    if j == s.len() - 1 {
        assert(s.remove(j) =~= s.drop_last());
    } else {
        assert(s.remove(j).drop_last() =~= s.drop_last().remove(j));
        assert(s.remove(j).last() == s.last());
        lemma_line_sum_remove(s.drop_last(), j, col);
    }
}

/// Lines with the same multiset have the same column sums.
proof fn lemma_line_sum_perm(
    s: Seq<CommandStatSummary>,
    t: Seq<CommandStatSummary>,
    col: spec_fn(CommandStatSummary) -> u64,
)
    requires
        s.to_multiset() == t.to_multiset(),
    ensures
        line_sum(s, col) == line_sum(t, col),
    decreases s.len(),
{
    if s.len() == 0 {
        assert(t.to_multiset().len() == 0);
        assert(t.len() == 0);
    } else {
        let x = s.last();
        assert(s.contains(x)) by {
            assert(s[s.len() - 1] == x);
        }
        assert(t.to_multiset().count(x) > 0);
        assert(t.contains(x));
        let j = choose|j: int| 0 <= j < t.len() && t[j] == x;
        assert(s.remove(s.len() - 1) =~= s.drop_last());
        assert(s.drop_last().to_multiset() == t.remove(j).to_multiset());
        lemma_line_sum_perm(s.drop_last(), t.remove(j), col);
        lemma_line_sum_remove(t, j, col);
    }
}

/// The summary lines of the rows add up to the column sums of the rows.
proof fn lemma_line_sum_rows(rows: Seq<(String, CommandStat)>)
    ensures
        line_sum(row_summaries(rows), line_invocations()) == column_sum(rows, invocations_col()),
        line_sum(row_summaries(rows), line_successes()) == column_sum(rows, successes_col()),
        line_sum(row_summaries(rows), line_failures()) == column_sum(rows, failures_col()),
    decreases rows.len(),
{
    if rows.len() > 0 {
        assert(row_summaries(rows).drop_last() =~= row_summaries(rows.drop_last()));
        lemma_line_sum_rows(rows.drop_last());
    }
}

/// A summary line shows what the calls recorded for its command: the
/// numbers of invocations, successes and failures; the total of the
/// latencies of its successes and failures divided by its invocations (0
/// without invocations); and the least and greatest of those latencies (0
/// without any).
pub open spec fn line_reflects_calls(line: CommandStatSummary, calls: Seq<StatsCall>) -> bool {
    let n = line.name@;
    let inv = invocations_in(calls, n);
    let lat = latencies_in(calls, n);
    &&& line.invocations == inv
    &&& line.successes == successes_in(calls, n)
    &&& line.failures == failures_in(calls, n)
    &&& line.avg_latency_ms == (if inv > 0 {
        seq_sum(lat) / inv
    } else {
        0
    })
    &&& line.min_latency_ms == (if lat.len() == 0 {
        0
    } else {
        seq_min(lat)
    })
    &&& line.max_latency_ms == (if lat.len() == 0 {
        0
    } else {
        seq_max(lat)
    })
}

/// After a history, the summary reflects it: each line is the summary of
/// the counters its command's calls give; the lines name each command
/// called exactly once; the totals, and the sums over the lines, count the
/// calls of each kind; the recent failures are the newest `SUMMARY_FAILURES`
/// failure calls, newest first.
pub proof fn law_summary_of_history(
    calls: Seq<StatsCall>,
    rows: Seq<Seq<(String, CommandStat)>>,
    failures: Seq<Seq<FailureRecord>>,
    lines: Seq<CommandStatSummary>,
    recent: Seq<FailureRecord>,
)
    requires
        is_history(calls, rows, failures),
        lines.to_multiset() == row_summaries(rows.last()).to_multiset(),
        recent == newest_first(failures.last(), SUMMARY_FAILURES as nat),
    ensures
        forall|i: int|
            0 <= i < lines.len() ==> mentioned(calls, (#[trigger] lines[i]).name@) && lines[i]
                == row_summary((lines[i].name, history_stat(calls, lines[i].name@))),
        forall|i: int| 0 <= i < lines.len() ==> line_reflects_calls(#[trigger] lines[i], calls),
        forall|i: int, j: int|
            0 <= i < lines.len() && 0 <= j < lines.len() && i != j ==> (#[trigger] lines[i]).name@
                != (#[trigger] lines[j]).name@,
        forall|n: Seq<char>|
            mentioned(calls, n) ==> exists|i: int|
                0 <= i < lines.len() && (#[trigger] lines[i]).name@ == n,
        column_sum(rows.last(), invocations_col()) == kind_count(calls, 0),
        column_sum(rows.last(), successes_col()) == kind_count(calls, 1),
        column_sum(rows.last(), failures_col()) == kind_count(calls, 2),
        line_sum(lines, line_invocations()) == kind_count(calls, 0),
        line_sum(lines, line_successes()) == kind_count(calls, 1),
        line_sum(lines, line_failures()) == kind_count(calls, 2),
        recent.len() == (if failure_calls(calls).len() < SUMMARY_FAILURES {
            failure_calls(calls).len()
        } else {
            SUMMARY_FAILURES as nat
        }),
        forall|i: int|
            0 <= i < recent.len() ==> failure_matches(
                #[trigger] recent[i],
                failure_calls(calls)[failure_calls(calls).len() - 1 - i],
            ),
{
    let k = calls.len() as int;
    lemma_holds_after(calls, rows, failures, k);
    assert(calls.take(k) =~= calls);
    let rf = rows[k];
    assert(rows.last() == rf);
    assert(names_unique(rows[k]));
    let sums = row_summaries(rf);
    // Each line is the summary of a row.
    assert forall|i: int| 0 <= i < lines.len() implies exists|a: int|
        0 <= a < rf.len() && #[trigger] lines[i] == row_summary(rf[a]) by {
        let x = lines[i];
        assert(lines.contains(x)) by {
            assert(lines[i] == x);
        }
        assert(lines.to_multiset().count(x) > 0);
        assert(sums.to_multiset().count(x) > 0);
        assert(sums.contains(x));
        let a = choose|a: int| 0 <= a < sums.len() && sums[a] == x;
        assert(sums[a] == row_summary(rf[a]));
    }
    assert forall|i: int| 0 <= i < lines.len() implies mentioned(
        calls,
        (#[trigger] lines[i]).name@,
    ) && lines[i] == row_summary((lines[i].name, history_stat(calls, lines[i].name@))) by {
        let a = choose|a: int| 0 <= a < rf.len() && lines[i] == row_summary(rf[a]);
        let name = rf[a].0@;
        assert(has_name(rf, name));
        let b = index_of(rf, name);
        if a != b {
            assert(rf[a].0@ != rf[b].0@);
        }
        assert(stat_of(rf, name) == rf[a].1);
        assert(stat_of(rf, name) == history_stat(calls, name));
        assert(history_fits(calls, name));
        assert(has_name(rf, name) == mentioned(calls, name));
    }
    assert forall|i: int| 0 <= i < lines.len() implies line_reflects_calls(
        #[trigger] lines[i],
        calls,
    ) by {
        let name = lines[i].name@;
        assert(lines[i] == row_summary((lines[i].name, history_stat(calls, name))));
        assert(history_stat(calls, name) == stat_of(rf, name));
        assert(history_fits(calls, name));
    }
    // Names are distinct.
    assert forall|i: int, j: int|
        0 <= i < lines.len() && 0 <= j < lines.len() && i != j implies (
        #[trigger] lines[i]).name@ != (#[trigger] lines[j]).name@ by {
        if lines[i].name@ == lines[j].name@ {
            let a = choose|a: int| 0 <= a < rf.len() && lines[i] == row_summary(rf[a]);
            let b = choose|b: int| 0 <= b < rf.len() && lines[j] == row_summary(rf[b]);
            if a != b {
                assert(rf[a].0@ != rf[b].0@);
            }
            let x = lines[i];
            assert(lines[j] == x);
            if i < j {
                lemma_occurrences_two(lines, x, i, j);
            } else {
                lemma_occurrences_two(lines, x, j, i);
            }
            assert forall|p: int, q: int| 0 <= p < q < sums.len() && sums[p] == x implies sums[q]
                != x by {
                assert(sums[p] == row_summary(rf[p]));
                assert(sums[q] == row_summary(rf[q]));
                assert(rf[p].0@ != rf[q].0@);
            }
            lemma_occurrences_at_most_one(sums, x);
            lemma_occurrences_count(lines, x);
            lemma_occurrences_count(sums, x);
        }
    }
    // Every called command has a line.
    assert forall|n: Seq<char>| mentioned(calls, n) implies exists|i: int|
        0 <= i < lines.len() && (#[trigger] lines[i]).name@ == n by {
        assert(has_name(rf, n));
        let a = index_of(rf, n);
        let x = sums[a];
        assert(x == row_summary(rf[a]));
        assert(sums.contains(x));
        assert(lines.to_multiset().count(x) > 0);
        assert(lines.contains(x));
        let i = choose|i: int| 0 <= i < lines.len() && lines[i] == x;
        assert(lines[i].name@ == n);
    }
    // Sums.
    lemma_line_sum_rows(rf);
    lemma_line_sum_perm(lines, sums, line_invocations());
    lemma_line_sum_perm(lines, sums, line_successes());
    lemma_line_sum_perm(lines, sums, line_failures());
    // Recent failures.
    let fk = failures[k];
    assert(failures.last() == fk);
    let fc = failure_calls(calls);
    assert forall|i: int| 0 <= i < recent.len() implies failure_matches(
        #[trigger] recent[i],
        fc[fc.len() - 1 - i],
    ) by {
        let p = fk.len() - 1 - i;
        assert(recent[i] == fk[p]);
        assert(failure_matches(fk[p], fc[fc.len() - fk.len() + p]));
    }
}

} // verus!
