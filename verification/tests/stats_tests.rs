use qwobot::stats::format_uptime;
use qwobot::stats::CommandStats;
use qwobot::stats::MAX_RECENT_FAILURES;

#[test]
fn new_tracker_is_empty() {
    let stats = CommandStats::new();
    let s = stats.summary();
    assert_eq!(s.total_invocations, 0);
    assert_eq!(s.total_successes, 0);
    assert_eq!(s.total_failures, 0);
    assert!(s.commands.is_empty());
    assert!(s.recent_failures.is_empty());
}

#[test]
fn default_tracker_is_empty() {
    let stats = CommandStats::default();
    assert!(stats.summary().commands.is_empty());
}

#[test]
fn invocation_counts_only_its_command() {
    let mut stats = CommandStats::new();
    stats.record_invocation("complete");
    stats.record_invocation("complete");
    stats.record_invocation("model");
    assert_eq!(stats.stat("complete").invocations, 2);
    assert_eq!(stats.stat("model").invocations, 1);
    assert_eq!(stats.stat("unseen").invocations, 0);
    let s = stats.summary();
    assert_eq!(s.total_invocations, 3);
    assert_eq!(s.commands.len(), 2);
}

#[test]
fn success_tracks_latency_extremes() {
    let mut stats = CommandStats::new();
    stats.record_invocation("complete");
    stats.record_invocation("complete");
    stats.record_success("complete", 30);
    stats.record_success("complete", 10);
    let st = stats.stat("complete");
    assert_eq!(st.successes, 2);
    assert_eq!(st.total_latency_ms, 40);
    assert_eq!(st.min_latency_ms, Some(10));
    assert_eq!(st.max_latency_ms, Some(30));
    let s = stats.summary();
    let line = &s.commands[0];
    assert_eq!(line.name, "complete");
    assert_eq!(line.avg_latency_ms, 20);
    assert_eq!(line.min_latency_ms, 10);
    assert_eq!(line.max_latency_ms, 30);
}

#[test]
fn average_is_zero_without_invocations() {
    let mut stats = CommandStats::new();
    stats.record_success("model", 50);
    let s = stats.summary();
    assert_eq!(s.commands[0].invocations, 0);
    assert_eq!(s.commands[0].avg_latency_ms, 0);
    assert_eq!(s.commands[0].min_latency_ms, 50);
    assert_eq!(s.total_successes, 1);
}

#[test]
fn average_counts_failures_latency_over_invocations() {
    let mut stats = CommandStats::new();
    stats.record_invocation("x");
    stats.record_invocation("x");
    stats.record_invocation("x");
    stats.record_success("x", 10);
    stats.record_failure("x", "boom", "42", 20);
    let s = stats.summary();
    assert_eq!(s.commands[0].avg_latency_ms, 10);
    assert_eq!(s.commands[0].failures, 1);
    assert_eq!(s.total_failures, 1);
}

#[test]
fn summary_sorts_by_invocations_descending() {
    let mut stats = CommandStats::new();
    stats.record_invocation("a");
    for _ in 0..3 {
        stats.record_invocation("b");
    }
    stats.record_invocation("c");
    stats.record_invocation("c");
    let s = stats.summary();
    let names: Vec<&str> = s.commands.iter().map(|c| c.name.as_str()).collect();
    assert_eq!(names, vec!["b", "c", "a"]);
    assert_eq!(s.commands[0].invocations, 3);
    assert_eq!(s.commands[2].invocations, 1);
}

#[test]
fn failures_are_recorded_with_context() {
    let mut stats = CommandStats::new();
    stats.record_failure("spweeboard", "Inference failed: x", "1234", 7);
    let s = stats.summary();
    assert_eq!(s.recent_failures.len(), 1);
    let f = &s.recent_failures[0];
    assert_eq!(f.command, "spweeboard");
    assert_eq!(f.error, "Inference failed: x");
    assert_eq!(f.user_id, "1234");
    assert_eq!(f.duration_ms, 7);
    let st = stats.stat("spweeboard");
    assert_eq!(st.failures, 1);
    assert_eq!(st.min_latency_ms, Some(7));
}

#[test]
fn recent_failures_keep_the_newest_fifty() {
    let mut stats = CommandStats::new();
    for i in 0..60 {
        stats.record_failure("cmd", &format!("error {}", i), "u", 0);
    }
    assert_eq!(stats.stat("cmd").failures, 60);
    let s = stats.summary();
    assert_eq!(s.recent_failures.len(), 10);
    assert_eq!(s.recent_failures[0].error, "error 59");
    assert_eq!(s.recent_failures[9].error, "error 50");
    assert_eq!(MAX_RECENT_FAILURES, 50);
}

#[test]
fn summary_lists_newest_failure_first() {
    let mut stats = CommandStats::new();
    stats.record_failure("a", "first", "u", 0);
    stats.record_failure("b", "second", "u", 0);
    let s = stats.summary();
    assert_eq!(s.recent_failures[0].error, "second");
    assert_eq!(s.recent_failures[1].error, "first");
}

#[test]
fn totals_fit_for_small_counts() {
    let mut stats = CommandStats::new();
    stats.record_invocation("a");
    assert!(stats.totals_fit());
}

#[test]
fn uptime_display_formats_units() {
    assert_eq!(format_uptime(0), "0s");
    assert_eq!(format_uptime(59), "59s");
    assert_eq!(format_uptime(61), "1m 1s");
    assert_eq!(format_uptime(3600), "1h 0m 0s");
    assert_eq!(format_uptime(3661), "1h 1m 1s");
    assert_eq!(format_uptime(86400), "1d 0h 0m 0s");
    assert_eq!(format_uptime(90061), "1d 1h 1m 1s");
    assert_eq!(format_uptime(200000), "2d 7h 33m 20s");
}

#[test]
fn uptime_display_of_fresh_summary() {
    let stats = CommandStats::new();
    let s = stats.summary();
    assert_eq!(s.uptime_display(), format_uptime(s.uptime.as_secs()));
    assert!(s.uptime_display().ends_with('s'));
}

#[test]
fn uptime_is_small_for_new_tracker() {
    let stats = CommandStats::new();
    assert!(stats.uptime().as_secs() < 60);
}

#[test]
fn summary_reflects_history() {
    let mut stats = CommandStats::new();
    let calls: Vec<(&str, u8, u64)> = vec![
        ("a", 0, 0),
        ("b", 0, 0),
        ("a", 0, 0),
        ("a", 1, 40),
        ("b", 2, 5),
        ("a", 2, 10),
        ("c", 1, 7),
        ("a", 1, 25),
    ];
    for (name, kind, ms) in &calls {
        match kind {
            0 => stats.record_invocation(name),
            1 => stats.record_success(name, *ms),
            _ => stats.record_failure(name, "err", "u", *ms),
        }
    }
    let s = stats.summary();
    assert_eq!(s.total_invocations, 3);
    assert_eq!(s.total_successes, 3);
    assert_eq!(s.total_failures, 2);
    let mut names: Vec<&str> = s.commands.iter().map(|c| c.name.as_str()).collect();
    names.sort();
    assert_eq!(names, vec!["a", "b", "c"]);
    for c in &s.commands {
        let inv = calls.iter().filter(|(n, k, _)| *n == c.name && *k == 0).count() as u64;
        let ok = calls.iter().filter(|(n, k, _)| *n == c.name && *k == 1).count() as u64;
        let fail = calls.iter().filter(|(n, k, _)| *n == c.name && *k == 2).count() as u64;
        let lat: Vec<u64> = calls
            .iter()
            .filter(|(n, k, _)| *n == c.name && *k != 0)
            .map(|(_, _, ms)| *ms)
            .collect();
        let sum: u64 = lat.iter().sum();
        assert_eq!(c.invocations, inv);
        assert_eq!(c.successes, ok);
        assert_eq!(c.failures, fail);
        assert_eq!(c.avg_latency_ms, if inv > 0 { sum / inv } else { 0 });
        assert_eq!(c.min_latency_ms, lat.iter().copied().min().unwrap_or(0));
        assert_eq!(c.max_latency_ms, lat.iter().copied().max().unwrap_or(0));
    }
    let sum_inv: u64 = s.commands.iter().map(|c| c.invocations).sum();
    assert_eq!(sum_inv, s.total_invocations);
}

#[test]
fn first_completion_sets_both_extremes() {
    let mut stats = CommandStats::new();
    stats.record_invocation("x");
    let st = stats.stat("x");
    assert_eq!(st.min_latency_ms, None);
    assert_eq!(st.max_latency_ms, None);
    stats.record_failure("x", "e", "u", 12);
    let st = stats.stat("x");
    assert_eq!(st.min_latency_ms, Some(12));
    assert_eq!(st.max_latency_ms, Some(12));
}
