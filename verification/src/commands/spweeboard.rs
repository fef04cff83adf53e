//! `/spweeboard`: the adapter that lends the bot's model to the SPW engine.
//! The reply is the engine's interpretation with the thinking stripped
//! (`generate::strip_thinking_with`) and cut to Discord's limit
//! (`generate::discord_clip`).

use std::sync::Arc;
use vstd::prelude::*;

verus! {

/// Adapter to use the bot's model engine with spweeboard.
pub struct LlamaInference<E> {
    llm: Arc<E>,
}

impl<E> LlamaInference<E> {
    /// The engine the adapter generates with.
    pub closed spec fn engine(&self) -> Arc<E> {
        self.llm
    }

    /// Wraps `llm`.
    pub fn new(llm: Arc<E>) -> (r: Self)
        ensures
            r.engine() == llm,
    {
        LlamaInference { llm }
    }

    /// The engine the adapter generates with.
    pub fn llm(&self) -> (r: &Arc<E>)
        ensures
            *r == self.engine(),
    {
        &self.llm
    }
}

} // verus!
