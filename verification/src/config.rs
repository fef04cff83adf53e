//! Defaults of the bot's configuration.

use vstd::prelude::*;

use crate::text::owned;

verus! {

/// Default number of tokens a generation may produce.
pub fn default_max_tokens() -> (n: u32)
    ensures
        n == 1024,
{
    1024
}

/// The address of the SPW prompt template that the watcher polls by
/// default.
pub open spec fn default_prompt_url_text() -> Seq<char> {
    "https://raw.githubusercontent.com/spwplace/spweeboard/refs/heads/dev/crates/spweeboard-core/src/compiler/prompt.txt"@
}

/// Default URL to fetch the SPW prompt template from.
pub fn default_prompt_url() -> (url: String)
    ensures
        url@ == default_prompt_url_text(),
{
    owned(
        "https://raw.githubusercontent.com/spwplace/spweeboard/refs/heads/dev/crates/spweeboard-core/src/compiler/prompt.txt",
    )
}

/// Default number of seconds between checks for prompt changes.
pub fn default_prompt_poll_interval() -> (secs: u64)
    ensures
        secs == 60,
{
    60
}

} // verus!
