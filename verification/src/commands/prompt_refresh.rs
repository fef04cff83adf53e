//! `/prompt-refresh`: offers the fetched template to the prompt state and
//! says what happened.

use vstd::prelude::*;

use crate::prompt_watcher::kept_template;
use crate::prompt_watcher::template_hash;
use crate::prompt_watcher::PromptState;
use crate::text::owned;
use crate::text::push_str;

verus! {

/// The reply to a manual refresh, given what the fetch of the template
/// returned (its error as text): the template is offered to `state`.
pub open spec fn refresh_text(fetched: Result<Seq<char>, Seq<char>>, updated: bool) -> Seq<char> {
    match fetched {
        Ok(_) => if updated {
            "Prompt template refreshed successfully."@
        } else {
            "Prompt template is already up to date."@
        },
        Err(e) => "Failed to refresh prompt: "@ + e,
    }
}

/// Applies the outcome of a manual refresh to `state` and returns the reply.
pub fn prompt_refresh_reply(state: &mut PromptState, fetched: Result<String, String>) -> (reply:
    String)
    requires
        old(state).well_formed(),
    ensures
        final(state).well_formed(),
        match fetched {
            Ok(t) => {
                &&& final(state).current() == kept_template(old(state).current(), t@)
                &&& reply@ == refresh_text(
                    Ok(t@),
                    template_hash(t@) != template_hash(old(state).current()),
                )
            },
            Err(e) => {
                &&& final(state).current() == old(state).current()
                &&& reply@ == refresh_text(Err(e@), false)
            },
        },
{
    match fetched {
        Ok(template) => {
            let updated = state.update_if_changed(template);
            if updated {
                owned("Prompt template refreshed successfully.")
            } else {
                owned("Prompt template is already up to date.")
            }
        },
        Err(e) => {
            let mut reply = owned("Failed to refresh prompt: ");
            push_str(&mut reply, e.as_str());
            reply
        },
    }
}

} // verus!
