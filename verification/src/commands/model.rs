//! `/model`: the description of the loaded model.

use vstd::prelude::*;

use crate::text::owned;
use crate::text::push_str;

verus! {

/// The reply to `/model` for the model description `info`.
pub open spec fn model_text(info: Seq<char>) -> Seq<char> {
    "**Model Information**\n"@ + info
}

/// Frames the model description.
pub fn model_reply(info: &str) -> (r: String)
    ensures
        r@ == model_text(info@),
{
    let mut r = owned("**Model Information**\n");
    push_str(&mut r, info);
    r
}

} // verus!
