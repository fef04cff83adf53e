use qwobot::commands::bot_status::format_duration;
use qwobot::commands::bot_status::status_clip;
use qwobot::commands::bot_status::status_report;
use qwobot::commands::bot_status::truncate;
use qwobot::commands::generate::complete_message;
use qwobot::commands::generate::discord_clip;
use qwobot::commands::generate::prompt_preview;
use qwobot::commands::generate::strip_thinking;
use qwobot::commands::generate::strip_thinking_with;
use qwobot::commands::generate::thinking_filter;
use qwobot::commands::model::model_reply;
use qwobot::config::default_max_tokens;
use qwobot::config::default_prompt_poll_interval;
use qwobot::config::default_prompt_url;
use qwobot::error::QwobotError;
use qwobot::error_replies::argument_error_reply;
use qwobot::error_replies::command_failure_reply;
use qwobot::error_replies::format_user_error;
use qwobot::error_replies::permission_denied_reply;
use qwobot::stats::CommandStats;
use std::time::Duration;

#[test]
fn strip_removes_closed_thinking() {
    let r = strip_thinking("<think>let me see</think>\n\nHello there").unwrap();
    assert_eq!(r, "Hello there");
}

#[test]
fn strip_removes_unclosed_thinking() {
    let r = strip_thinking("Answer first <think>still thinking").unwrap();
    assert_eq!(r, "Answer first");
}

#[test]
fn strip_removes_every_block_across_lines() {
    let f = thinking_filter().unwrap();
    let r = strip_thinking_with(&f, "  a<think>x\ny</think>b<think>z</think>c  ");
    assert_eq!(r, "abc");
}

#[test]
fn strip_trims_unicode_white_space() {
    let r = strip_thinking("\u{3000}\u{a0} text \t\n").unwrap();
    assert_eq!(r, "text");
}

#[test]
fn preview_keeps_short_prompt() {
    assert_eq!(prompt_preview("short".to_string()), "short");
    let exact = "x".repeat(100);
    assert_eq!(prompt_preview(exact.clone()), exact);
}

#[test]
fn preview_cuts_long_prompt() {
    let long = "y".repeat(150);
    let p = prompt_preview(long);
    assert_eq!(p, format!("{}...", "y".repeat(100)));
    assert_eq!(p.len(), 103);
}

#[test]
fn complete_message_frames_prompt_and_response() {
    assert_eq!(
        complete_message("Tell me a joke", "Why?"),
        "**Prompt:** Tell me a joke\n\n**Response:**\nWhy?"
    );
}

#[test]
fn discord_clip_keeps_short_reply() {
    let m = "z".repeat(1950);
    assert_eq!(discord_clip(m.clone()), m);
}

#[test]
fn discord_clip_cuts_long_reply() {
    let m = "z".repeat(1951);
    let r = discord_clip(m);
    assert_eq!(r, format!("{}...\n\n*[truncated]*", "z".repeat(1900)));
    assert!(r.len() <= 1950);
}

#[test]
fn truncate_short_and_long() {
    assert_eq!(truncate("abc", 15), "abc");
    assert_eq!(truncate("a_very_long_command_name", 15), "a_very_long_...");
    assert_eq!(truncate("a_very_long_command_name", 15).len(), 15);
    assert_eq!(truncate("abcdef", 2), "...");
}

#[test]
fn truncate_counts_bytes() {
    // 14 characters, 16 bytes: cut 12 bytes in.
    let s = "ééabcdefghijkl";
    assert_eq!(s.len(), 16);
    assert_eq!(truncate(s, 15), "ééabcdefgh...");
}

#[test]
fn format_duration_units() {
    assert_eq!(format_duration(Duration::from_secs(0)), "0s ago");
    assert_eq!(format_duration(Duration::from_millis(59_999)), "59s ago");
    assert_eq!(format_duration(Duration::from_secs(60)), "1m ago");
    assert_eq!(format_duration(Duration::from_secs(3599)), "59m ago");
    assert_eq!(format_duration(Duration::from_secs(3600)), "1h ago");
    assert_eq!(format_duration(Duration::from_secs(7300)), "2h ago");
}

#[test]
fn status_report_of_empty_stats() {
    let stats = CommandStats::new();
    let s = stats.summary();
    let r = status_report(&s, "Qwen/Qwen3-0.6B", "Q8_0", "info", "100.0", &vec![]);
    let expected = format!(
        "**Bot Status Dashboard**\n\n**System**\nUptime: `{}`\nModel: `Qwen/Qwen3-0.6B (Q8_0)`\nModel Info: info\n\n**Command Statistics**\nTotal: 0 | Success: 0 | Failed: 0 | Rate: 100.0%\n\n**Recent Failures:** None\n",
        s.uptime_display()
    );
    assert_eq!(r, expected);
}

#[test]
fn status_report_with_commands_and_failures() {
    let mut stats = CommandStats::new();
    stats.record_invocation("complete");
    stats.record_invocation("complete");
    stats.record_success("complete", 0);
    stats.record_invocation("a_very_long_command_name");
    stats.record_failure("a_very_long_command_name", "oops", "7", 0);
    let s = stats.summary();
    let r = status_report(&s, "m", "q", "i", "50.0", &vec![Some(Duration::from_secs(125))]);
    let table = format!(
        "{:<15} {:>6} {:>6} {:>6} {:>8}\n{}\n{:<15} {:>6} {:>6} {:>6} {:>8}\n{:<15} {:>6} {:>6} {:>6} {:>8}\n",
        "Command", "Calls", "OK", "Fail", "Avg(ms)",
        "-".repeat(45),
        "complete", 2, 1, 0, 0,
        "a_very_long_...", 1, 0, 1, 0
    );
    assert!(r.contains(&format!("**Per-Command Breakdown**\n```\n{}```\n", table)));
    assert!(r.contains("Total: 3 | Success: 1 | Failed: 1 | Rate: 50.0%"));
    assert!(r.ends_with("**Recent Failures** (last 5)\n```\n[2m ago] /a_very_long_command_name: oops\n```\n"));
}

#[test]
fn status_report_unknown_age() {
    let mut stats = CommandStats::new();
    stats.record_failure("c", "e", "u", 0);
    let s = stats.summary();
    let r = status_report(&s, "m", "q", "i", "0.0", &vec![None]);
    assert!(r.contains("[?] /c: e\n"));
}

#[test]
fn status_clip_cuts_long_dashboard() {
    let m = "s".repeat(1901);
    let r = status_clip(m);
    assert_eq!(r, format!("{}\n\n*[truncated]*", "s".repeat(1850)));
    assert!(r.len() <= 1900);
    assert_eq!(status_clip("ok".to_string()), "ok");
}

#[test]
fn friendly_errors_in_order() {
    assert_eq!(
        format_user_error("ModelLoad and Inference"),
        "The AI model failed to load. The bot may need to be restarted."
    );
    assert_eq!(
        format_user_error("Inference failed"),
        "The AI failed to generate a response. This might be a temporary issue - please try again."
    );
    assert_eq!(
        format_user_error("request timeout"),
        "The request took too long and timed out. Try a shorter prompt or try again later."
    );
    assert_eq!(
        format_user_error("RateLimit hit"),
        "Too many requests. Please wait a moment before trying again."
    );
    assert_eq!(
        format_user_error("Missing Permission"),
        "You don't have permission to use this command."
    );
    assert_eq!(format_user_error("something else"), "something else");
}

#[test]
fn friendly_error_cuts_long_unknown_error() {
    let e = "e".repeat(250);
    assert_eq!(format_user_error(&e), format!("{}...", "e".repeat(200)));
}

#[test]
fn displayed_model_load_error_is_not_the_keyword() {
    let shown = QwobotError::ModelLoad("no file".to_string()).message();
    assert_eq!(shown, "Model loading failed: no file");
    assert_eq!(format_user_error(&shown), "Model loading failed: no file");
}

#[test]
fn command_failure_reply_text() {
    assert_eq!(
        command_failure_reply("complete", "Inference failed: x"),
        "**Command failed:** `/complete`\n\nThe AI failed to generate a response. This might be a temporary issue - please try again.\n\n*If this keeps happening, try `/bot-status` to check system health.*"
    );
}

#[test]
fn argument_and_permission_replies() {
    assert_eq!(
        argument_error_reply("bad int"),
        "**Invalid argument:** bad int\n\nPlease check the command syntax and try again."
    );
    assert_eq!(permission_denied_reply("owners only"), "**Permission denied:** owners only");
}

#[test]
fn error_messages() {
    assert_eq!(QwobotError::Inference("x".to_string()).message(), "Inference failed: x");
    assert_eq!(QwobotError::Config("bad".to_string()).message(), "Configuration error: bad");
    assert_eq!(QwobotError::ModelBusy.message(), "Model is busy, please try again");
    assert_eq!(QwobotError::Discord("d".to_string()).message(), "Discord error: d");
    assert_eq!(QwobotError::SpwParse("p".to_string()).message(), "SPW parse failed: p");
}

#[test]
fn model_reply_text() {
    assert_eq!(model_reply("Qwen3"), "**Model Information**\nQwen3");
}

#[test]
fn config_defaults() {
    assert_eq!(default_max_tokens(), 1024);
    assert_eq!(default_prompt_poll_interval(), 60);
    assert_eq!(
        default_prompt_url(),
        "https://raw.githubusercontent.com/spwplace/spweeboard/refs/heads/dev/crates/spweeboard-core/src/compiler/prompt.txt"
    );
}
