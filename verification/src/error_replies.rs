//! What the bot answers when a command fails.

use vstd::prelude::*;

use crate::text::chars_of;
use crate::text::clip;
use crate::text::clipped;
use crate::text::contains;
use crate::text::is_byte_boundary;
use crate::text::owned;
use crate::text::push_str;
use crate::text::seq_contains;
use crate::text::utf8_len;

verus! {

/// The error names one of the failures that have a friendly message.
pub open spec fn has_known_cause(e: Seq<char>) -> bool {
    ||| seq_contains(e, "ModelLoad"@)
    ||| seq_contains(e, "Inference"@)
    ||| seq_contains(e, "timeout"@)
    ||| seq_contains(e, "Timeout"@)
    ||| seq_contains(e, "rate limit"@)
    ||| seq_contains(e, "RateLimit"@)
    ||| seq_contains(e, "permission"@)
    ||| seq_contains(e, "Permission"@)
}

/// The friendly message for an error text: the first known cause it names,
/// in this order, or else the error itself cut to 200 bytes and "...".
pub open spec fn friendly_error(e: Seq<char>) -> Seq<char> {
    if seq_contains(e, "ModelLoad"@) {
        "The AI model failed to load. The bot may need to be restarted."@
    } else if seq_contains(e, "Inference"@) {
        "The AI failed to generate a response. This might be a temporary issue - please try again."@
    } else if seq_contains(e, "timeout"@) || seq_contains(e, "Timeout"@) {
        "The request took too long and timed out. Try a shorter prompt or try again later."@
    } else if seq_contains(e, "rate limit"@) || seq_contains(e, "RateLimit"@) {
        "Too many requests. Please wait a moment before trying again."@
    } else if seq_contains(e, "permission"@) || seq_contains(e, "Permission"@) {
        "You don't have permission to use this command."@
    } else {
        clipped(e, 200, 200, "..."@)
    }
}

/// `format_user_error` can cut `e` without splitting a character.
pub open spec fn error_cuttable(e: Seq<char>) -> bool {
    !has_known_cause(e) && utf8_len(e) > 200 ==> is_byte_boundary(e, 200)
}

/// Whether the error names one of the failures that have a friendly
/// message.
pub fn names_known_cause(error: &str) -> (b: bool)
    ensures
        b == has_known_cause(error@),
{
    let v = chars_of(error);
    contains(&v, "ModelLoad") || contains(&v, "Inference") || contains(&v, "timeout")
        || contains(&v, "Timeout") || contains(&v, "rate limit") || contains(&v, "RateLimit")
        || contains(&v, "permission") || contains(&v, "Permission")
}

/// Formats an error message to be more user-friendly.
pub fn format_user_error(error: &str) -> (r: String)
    requires
        error_cuttable(error@),
    ensures
        r@ == friendly_error(error@),
{
    let v = chars_of(error);
    if contains(&v, "ModelLoad") {
        return owned("The AI model failed to load. The bot may need to be restarted.");
    }
    if contains(&v, "Inference") {
        return owned(
            "The AI failed to generate a response. This might be a temporary issue - please try again.",
        );
    }
    if contains(&v, "timeout") || contains(&v, "Timeout") {
        return owned(
            "The request took too long and timed out. Try a shorter prompt or try again later.",
        );
    }
    if contains(&v, "rate limit") || contains(&v, "RateLimit") {
        return owned("Too many requests. Please wait a moment before trying again.");
    }
    if contains(&v, "permission") || contains(&v, "Permission") {
        return owned("You don't have permission to use this command.");
    }
    clip(owned(error), 200, 200, "...")
}

/// The reply to a failed command.
pub open spec fn command_failure_text(command: Seq<char>, error: Seq<char>) -> Seq<char> {
    "**Command failed:** `/"@ + command + "`\n\n"@ + friendly_error(error)
        + "\n\n*If this keeps happening, try `/bot-status` to check system health.*"@
}

/// The reply to a failed command `command` whose error reads `error`.
pub fn command_failure_reply(command: &str, error: &str) -> (r: String)
    requires
        error_cuttable(error@),
    ensures
        r@ == command_failure_text(command@, error@),
{
    let friendly = format_user_error(error);
    let mut r = owned("**Command failed:** `/");
    push_str(&mut r, command);
    push_str(&mut r, "`\n\n");
    push_str(&mut r, friendly.as_str());
    push_str(&mut r, "\n\n*If this keeps happening, try `/bot-status` to check system health.*");
    r
}

/// The reply to an argument that could not be parsed.
pub open spec fn argument_error_text(error: Seq<char>) -> Seq<char> {
    "**Invalid argument:** "@ + error + "\n\nPlease check the command syntax and try again."@
}

/// The reply to an argument that could not be parsed.
pub fn argument_error_reply(error: &str) -> (r: String)
    ensures
        r@ == argument_error_text(error@),
{
    let mut r = owned("**Invalid argument:** ");
    push_str(&mut r, error);
    push_str(&mut r, "\n\nPlease check the command syntax and try again.");
    r
}

/// The reply to a command check that failed with an error.
pub open spec fn permission_denied_text(error: Seq<char>) -> Seq<char> {
    "**Permission denied:** "@ + error
}

/// The reply to a command check that failed with an error.
pub fn permission_denied_reply(error: &str) -> (r: String)
    ensures
        r@ == permission_denied_text(error@),
{
    let mut r = owned("**Permission denied:** ");
    push_str(&mut r, error);
    r
}

/// An error without a known cause is shown in at most 203 bytes.
pub proof fn law_unknown_error_fits(e: Seq<char>)
    requires
        error_cuttable(e),
        !has_known_cause(e),
    ensures
        utf8_len(friendly_error(e)) <= 203,
{
    reveal_strlit("...");
    crate::text::lemma_ascii_utf8_len("..."@);
    if utf8_len(e) > 200 {
        let k = choose|k: int| 0 <= k <= e.len() && utf8_len(#[trigger] e.take(k)) == 200;
        crate::text::lemma_byte_prefix(e, 200, k);
        crate::text::lemma_utf8_len_concat(crate::text::byte_prefix(e, 200), "..."@);
    }
}

} // verus!
