//! `/bot-status`: the dashboard of uptime, model, command statistics and
//! recent failures.

use std::time::Duration;
use vstd::prelude::*;

use crate::stats::duration_as_secs;
use crate::stats::duration_whole_secs;
use crate::stats::uptime_text;
use crate::stats::CommandStatSummary;
use crate::stats::FailureRecord;
use crate::stats::StatsSummary;
use crate::text::clip;
use crate::text::clipped;
use crate::text::decimal;
use crate::text::is_byte_boundary;
use crate::text::owned;
use crate::text::pad_left;
use crate::text::pad_right;
use crate::text::push_decimal;
use crate::text::push_number_padded_left;
use crate::text::push_repeat;
use crate::text::push_str;
use crate::text::repeat;
use crate::text::utf8_len;

verus! {

/// Where `truncate` cuts: three bytes before `max_len`, for the "...".
pub open spec fn cut_point(max_len: int) -> int {
    if max_len >= 3 {
        max_len - 3
    } else {
        0
    }
}

/// `s` where it fits in `max_len` bytes; otherwise its first
/// `max_len - 3` bytes (saturating) and "...".
pub open spec fn truncate_text(s: Seq<char>, max_len: int) -> Seq<char> {
    clipped(s, max_len, cut_point(max_len), "..."@)
}

/// `truncate` can cut `s` at `max_len` without splitting a character.
pub open spec fn truncatable(s: Seq<char>, max_len: int) -> bool {
    utf8_len(s) > max_len ==> is_byte_boundary(s, cut_point(max_len))
}

/// Shortens `s` to `max_len` bytes, marking the cut with "...".
pub fn truncate(s: &str, max_len: usize) -> (r: String)
    requires
        truncatable(s@, max_len as int),
    ensures
        r@ == truncate_text(s@, max_len as int),
{
    let cut = if max_len >= 3 { max_len - 3 } else { 0 };
    clip(owned(s), max_len, cut, "...")
}

/// How long ago, for `secs` seconds: in seconds under a minute, in whole
/// minutes under an hour, else in whole hours.
pub open spec fn ago_text(secs: nat) -> Seq<char> {
    if secs < 60 {
        decimal(secs) + "s ago"@
    } else if secs < 3600 {
        decimal(secs / 60) + "m ago"@
    } else {
        decimal(secs / 3600) + "h ago"@
    }
}

/// Formats how long ago something happened, `d` before now.
pub fn format_duration(d: Duration) -> (r: String)
    ensures
        r@ == ago_text(duration_whole_secs(d) as nat),
{
    let secs = duration_as_secs(&d);
    let mut r = String::new();
    if secs < 60 {
        push_decimal(&mut r, secs);
        push_str(&mut r, "s ago");
    } else if secs < 3600 {
        push_decimal(&mut r, secs / 60);
        push_str(&mut r, "m ago");
    } else {
        push_decimal(&mut r, secs / 3600);
        push_str(&mut r, "h ago");
    }
    r
}

/// The first `n` entries of `s` (all of them where there are fewer).
pub open spec fn first_n<T>(s: Seq<T>, n: nat) -> Seq<T> {
    if s.len() <= n {
        s
    } else {
        s.take(n as int)
    }
}

/// The column titles of the per-command table.
pub open spec fn header_line() -> Seq<char> {
    pad_right("Command"@, 15) + " "@ + pad_left("Calls"@, 6) + " "@ + pad_left("OK"@, 6) + " "@
        + pad_left("Fail"@, 6) + " "@ + pad_left("Avg(ms)"@, 8) + "\n"@
}

/// One row of the per-command table.
pub open spec fn breakdown_line(c: CommandStatSummary) -> Seq<char> {
    pad_right(truncate_text(c.name@, 15), 15) + " "@ + pad_left(decimal(c.invocations as nat), 6)
        + " "@ + pad_left(decimal(c.successes as nat), 6) + " "@ + pad_left(
        decimal(c.failures as nat),
        6,
    ) + " "@ + pad_left(decimal(c.avg_latency_ms as nat), 8) + "\n"@
}

/// The rows of the per-command table, in order.
pub open spec fn breakdown_lines(cs: Seq<CommandStatSummary>) -> Seq<char>
    decreases cs.len(),
{
    if cs.len() == 0 {
        Seq::empty()
    } else {
        breakdown_lines(cs.drop_last()) + breakdown_line(cs.last())
    }
}

/// The per-command table for the five most invoked commands; nothing when
/// no command was seen.
pub open spec fn breakdown_section(cs: Seq<CommandStatSummary>) -> Seq<char> {
    if cs.len() == 0 {
        Seq::empty()
    } else {
        "**Per-Command Breakdown**\n```\n"@ + header_line() + repeat('-', 45) + "\n"@
            + breakdown_lines(first_n(cs, 5)) + "```\n"@
    }
}

/// The age of a failure, or "?" where the clock could not tell it.
pub open spec fn age_text(age: Option<Duration>) -> Seq<char> {
    match age {
        Some(d) => ago_text(duration_whole_secs(d) as nat),
        None => "?"@,
    }
}

/// One line of the recent-failures list.
pub open spec fn failure_line(f: FailureRecord, age: Option<Duration>) -> Seq<char> {
    "["@ + age_text(age) + "] /"@ + f.command@ + ": "@ + truncate_text(f.error@, 40) + "\n"@
}

/// The lines of the recent-failures list; `ages[i]` is the age of `fs[i]`.
pub open spec fn failure_lines(fs: Seq<FailureRecord>, ages: Seq<Option<Duration>>) -> Seq<char>
    decreases fs.len(),
{
    if fs.len() == 0 {
        Seq::empty()
    } else {
        failure_lines(fs.drop_last(), ages) + failure_line(fs.last(), ages[fs.len() - 1])
    }
}

/// The five newest failures, or a note that there are none.
pub open spec fn failures_section(fs: Seq<FailureRecord>, ages: Seq<Option<Duration>>) -> Seq<char> {
    if fs.len() == 0 {
        "**Recent Failures:** None\n"@
    } else {
        "**Recent Failures** (last 5)\n```\n"@ + failure_lines(first_n(fs, 5), ages) + "```\n"@
    }
}

/// The dashboard before it is cut to its limit. `rate` is the success rate
/// as printed with one decimal; `ages[i]` is how long ago the i-th failure
/// happened, where the clock could tell.
pub open spec fn status_text(
    s: StatsSummary,
    model_id: Seq<char>,
    model_quant: Seq<char>,
    model_info: Seq<char>,
    rate: Seq<char>,
    ages: Seq<Option<Duration>>,
) -> Seq<char> {
    "**Bot Status Dashboard**\n\n"@ + "**System**\n"@ + "Uptime: `"@ + uptime_text(
        duration_whole_secs(s.uptime) as nat,
    ) + "`\n"@ + "Model: `"@ + model_id + " ("@ + model_quant + ")`\n"@ + "Model Info: "@
        + model_info + "\n\n"@ + "**Command Statistics**\n"@ + "Total: "@ + decimal(
        s.total_invocations as nat,
    ) + " | Success: "@ + decimal(s.total_successes as nat) + " | Failed: "@ + decimal(
        s.total_failures as nat,
    ) + " | Rate: "@ + rate + "%\n\n"@ + breakdown_section(s.commands@) + failures_section(
        s.recent_failures@,
        ages,
    )
}

/// The names in the table and the errors in the list can be cut without
/// splitting a character.
pub open spec fn status_cuttable(s: StatsSummary) -> bool {
    &&& forall|i: int|
        0 <= i < first_n(s.commands@, 5).len() ==> truncatable(
            (#[trigger] s.commands@[i]).name@,
            15,
        )
    &&& forall|i: int|
        0 <= i < first_n(s.recent_failures@, 5).len() ==> truncatable(
            (#[trigger] s.recent_failures@[i]).error@,
            40,
        )
}

/// The column titles of the per-command table.
fn header_line_string() -> (r: String)
    ensures
        r@ == header_line(),
{
    let mut r = crate::text::padded_right("Command", 15);
    push_str(&mut r, " ");
    crate::text::push_padded_left(&mut r, "Calls", 6);
    push_str(&mut r, " ");
    crate::text::push_padded_left(&mut r, "OK", 6);
    push_str(&mut r, " ");
    crate::text::push_padded_left(&mut r, "Fail", 6);
    push_str(&mut r, " ");
    crate::text::push_padded_left(&mut r, "Avg(ms)", 8);
    push_str(&mut r, "\n");
    r
}

/// One row of the per-command table.
fn breakdown_line_string(c: &CommandStatSummary) -> (r: String)
    requires
        truncatable(c.name@, 15),
    ensures
        r@ == breakdown_line(*c),
{
    let name = truncate(c.name.as_str(), 15);
    let mut r = crate::text::padded_right(name.as_str(), 15);
    push_str(&mut r, " ");
    push_number_padded_left(&mut r, c.invocations, 6);
    push_str(&mut r, " ");
    push_number_padded_left(&mut r, c.successes, 6);
    push_str(&mut r, " ");
    push_number_padded_left(&mut r, c.failures, 6);
    push_str(&mut r, " ");
    push_number_padded_left(&mut r, c.avg_latency_ms, 8);
    push_str(&mut r, "\n");
    r
}

/// The per-command table.
fn breakdown_section_string(cs: &Vec<CommandStatSummary>) -> (r: String)
    requires
        forall|i: int|
            0 <= i < first_n(cs@, 5).len() ==> truncatable((#[trigger] cs@[i]).name@, 15),
    ensures
        r@ == breakdown_section(cs@),
{
    if cs.len() == 0 {
        return String::new();
    }
    let n = cs.len();
    let k: usize = if n < 5 { n } else { 5 };
    let ghost shown = first_n(cs@, 5);
    assert(shown.len() == k);
    assert(shown.take(0) =~= Seq::<CommandStatSummary>::empty());
    let mut rows = String::new();
    let mut i: usize = 0;
    while i < k
        invariant
            n == cs@.len(),
            k == shown.len(),
            shown == first_n(cs@, 5),
            i <= k,
            forall|j: int|
                0 <= j < first_n(cs@, 5).len() ==> truncatable((#[trigger] cs@[j]).name@, 15),
            rows@ == breakdown_lines(shown.take(i as int)),
        decreases k - i,
    {
        assert(shown[i as int] == cs@[i as int]);
        let line = breakdown_line_string(&cs[i]);
        push_str(&mut rows, line.as_str());
        assert(shown.take(i + 1).drop_last() =~= shown.take(i as int));
        i = i + 1;
    }
    assert(shown.take(k as int) =~= shown);
    let mut r = owned("**Per-Command Breakdown**\n```\n");
    let header = header_line_string();
    push_str(&mut r, header.as_str());
    push_repeat(&mut r, '-', 45);
    push_str(&mut r, "\n");
    push_str(&mut r, rows.as_str());
    push_str(&mut r, "```\n");
    r
}

/// The age of a failure, or "?".
fn age_string(age: Option<Duration>) -> (r: String)
    ensures
        r@ == age_text(age),
{
    match age {
        Some(d) => format_duration(d),
        None => owned("?"),
    }
}

/// One line of the recent-failures list.
fn failure_line_string(f: &FailureRecord, age: Option<Duration>) -> (r: String)
    requires
        truncatable(f.error@, 40),
    ensures
        r@ == failure_line(*f, age),
{
    let mut r = owned("[");
    let a = age_string(age);
    push_str(&mut r, a.as_str());
    push_str(&mut r, "] /");
    push_str(&mut r, f.command.as_str());
    push_str(&mut r, ": ");
    let e = truncate(f.error.as_str(), 40);
    push_str(&mut r, e.as_str());
    push_str(&mut r, "\n");
    r
}

/// The recent-failures list.
fn failures_section_string(fs: &Vec<FailureRecord>, ages: &Vec<Option<Duration>>) -> (r: String)
    requires
        ages@.len() == fs@.len(),
        forall|i: int|
            0 <= i < first_n(fs@, 5).len() ==> truncatable((#[trigger] fs@[i]).error@, 40),
    ensures
        r@ == failures_section(fs@, ages@),
{
    if fs.len() == 0 {
        return owned("**Recent Failures:** None\n");
    }
    let n = fs.len();
    let k: usize = if n < 5 { n } else { 5 };
    let ghost shown = first_n(fs@, 5);
    assert(shown.len() == k);
    assert(shown.take(0) =~= Seq::<FailureRecord>::empty());
    let mut lines = String::new();
    let mut i: usize = 0;
    while i < k
        invariant
            n == fs@.len(),
            ages@.len() == n,
            k == shown.len(),
            shown == first_n(fs@, 5),
            i <= k,
            forall|j: int|
                0 <= j < first_n(fs@, 5).len() ==> truncatable((#[trigger] fs@[j]).error@, 40),
            lines@ == failure_lines(shown.take(i as int), ages@),
        decreases k - i,
    {
        assert(shown[i as int] == fs@[i as int]);
        let line = failure_line_string(&fs[i], ages[i]);
        push_str(&mut lines, line.as_str());
        assert(shown.take(i + 1).drop_last() =~= shown.take(i as int));
        i = i + 1;
    }
    assert(shown.take(k as int) =~= shown);
    let mut r = owned("**Recent Failures** (last 5)\n```\n");
    push_str(&mut r, lines.as_str());
    push_str(&mut r, "```\n");
    r
}

/// Builds the dashboard text of `/bot-status`, before it is cut to its
/// limit.
pub fn status_report(
    summary: &StatsSummary,
    model_id: &str,
    model_quant: &str,
    model_info: &str,
    rate: &str,
    ages: &Vec<Option<Duration>>,
) -> (r: String)
    requires
        ages@.len() == summary.recent_failures@.len(),
        status_cuttable(*summary),
    ensures
        r@ == status_text(*summary, model_id@, model_quant@, model_info@, rate@, ages@),
{
    let up = summary.uptime_display();
    let breakdown = breakdown_section_string(&summary.commands);
    let failures = failures_section_string(&summary.recent_failures, ages);
    let mut msg = owned("**Bot Status Dashboard**\n\n");
    push_str(&mut msg, "**System**\n");
    push_str(&mut msg, "Uptime: `");
    push_str(&mut msg, up.as_str());
    push_str(&mut msg, "`\n");
    push_str(&mut msg, "Model: `");
    push_str(&mut msg, model_id);
    push_str(&mut msg, " (");
    push_str(&mut msg, model_quant);
    push_str(&mut msg, ")`\n");
    push_str(&mut msg, "Model Info: ");
    push_str(&mut msg, model_info);
    push_str(&mut msg, "\n\n");
    push_str(&mut msg, "**Command Statistics**\n");
    push_str(&mut msg, "Total: ");
    push_decimal(&mut msg, summary.total_invocations);
    push_str(&mut msg, " | Success: ");
    push_decimal(&mut msg, summary.total_successes);
    push_str(&mut msg, " | Failed: ");
    push_decimal(&mut msg, summary.total_failures);
    push_str(&mut msg, " | Rate: ");
    push_str(&mut msg, rate);
    push_str(&mut msg, "%\n\n");
    push_str(&mut msg, breakdown.as_str());
    push_str(&mut msg, failures.as_str());
    msg
}

/// The dashboard cut to 1850 bytes and marked, where it is over 1900 bytes.
pub open spec fn status_clip_text(message: Seq<char>) -> Seq<char> {
    clipped(message, 1900, 1850, "\n\n*[truncated]*"@)
}

/// Cuts the dashboard to its limit.
pub fn status_clip(message: String) -> (r: String)
    requires
        utf8_len(message@) > 1900 ==> is_byte_boundary(message@, 1850),
    ensures
        r@ == status_clip_text(message@),
{
    clip(message, 1900, 1850, "\n\n*[truncated]*")
}

/// The age shows the whole number of elapsed units: seconds under a
/// minute, whole minutes under an hour, whole hours beyond (never wrapped
/// into days).
pub proof fn law_ago_whole_units(secs: nat, m: nat, h: nat)
    ensures
        secs < 60 ==> ago_text(secs) == decimal(secs) + "s ago"@,
        60 <= secs < 3600 && m * 60 <= secs < (m + 1) * 60 ==> ago_text(secs) == decimal(m)
            + "m ago"@,
        3600 <= secs && h * 3600 <= secs < (h + 1) * 3600 ==> ago_text(secs) == decimal(h)
            + "h ago"@,
{
    if 60 <= secs < 3600 && m * 60 <= secs < (m + 1) * 60 {
        assert(m == secs / 60) by (nonlinear_arith)
            requires
                m * 60 <= secs < (m + 1) * 60,
        ;
    }
    if 3600 <= secs && h * 3600 <= secs < (h + 1) * 3600 {
        assert(h == secs / 3600) by (nonlinear_arith)
            requires
                h * 3600 <= secs < (h + 1) * 3600,
        ;
    }
}

/// A cut dashboard stays within 1900 bytes.
pub proof fn law_status_fits(message: Seq<char>)
    requires
        utf8_len(message) > 1900 ==> is_byte_boundary(message, 1850),
    ensures
        utf8_len(status_clip_text(message)) <= 1900,
{
    reveal_strlit("\n\n*[truncated]*");
    crate::text::lemma_ascii_utf8_len("\n\n*[truncated]*"@);
    crate::text::law_clipped_fits(message, 1900, 1850, "\n\n*[truncated]*"@);
}

/// A truncated text fits in `max_len` bytes whenever `max_len` leaves room
/// for the "...".
pub proof fn law_truncate_fits(s: Seq<char>, max_len: int)
    requires
        max_len >= 3,
        truncatable(s, max_len),
    ensures
        utf8_len(truncate_text(s, max_len)) <= max_len,
{
    reveal_strlit("...");
    crate::text::lemma_ascii_utf8_len("..."@);
    crate::text::law_clipped_fits(s, max_len, max_len - 3, "..."@);
}

/// Text that fits is left as it is.
pub proof fn law_truncate_keeps_short(s: Seq<char>, max_len: int)
    requires
        utf8_len(s) <= max_len,
    ensures
        truncate_text(s, max_len) == s,
{
}

} // verus!
