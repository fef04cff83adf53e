//! Errors of the bot and the text each one is shown as.

use vstd::prelude::*;

use crate::text::owned;
use crate::text::push_str;

verus! {

/// Errors of the bot.
#[derive(Debug)]
pub enum QwobotError {
    ModelLoad(String),
    Inference(String),
    /// A configuration error, as its text.
    Config(String),
    ModelBusy,
    Discord(String),
    SpwParse(String),
}

/// The text an error is shown as.
pub open spec fn error_text(e: QwobotError) -> Seq<char> {
    match e {
        QwobotError::ModelLoad(s) => "Model loading failed: "@ + s@,
        QwobotError::Inference(s) => "Inference failed: "@ + s@,
        QwobotError::Config(s) => "Configuration error: "@ + s@,
        QwobotError::ModelBusy => "Model is busy, please try again"@,
        QwobotError::Discord(s) => "Discord error: "@ + s@,
        QwobotError::SpwParse(s) => "SPW parse failed: "@ + s@,
    }
}

fn prefixed(prefix: &str, detail: &String) -> (r: String)
    ensures
        r@ == prefix@ + detail@,
{
    let mut r = owned(prefix);
    push_str(&mut r, detail.as_str());
    r
}

impl QwobotError {
    /// The text the error is shown as.
    pub fn message(&self) -> (r: String)
        ensures
            r@ == error_text(*self),
    {
        match self {
            QwobotError::ModelLoad(s) => prefixed("Model loading failed: ", s),
            QwobotError::Inference(s) => prefixed("Inference failed: ", s),
            QwobotError::Config(s) => prefixed("Configuration error: ", s),
            QwobotError::ModelBusy => owned("Model is busy, please try again"),
            QwobotError::Discord(s) => prefixed("Discord error: ", s),
            QwobotError::SpwParse(s) => prefixed("SPW parse failed: ", s),
        }
    }
}

} // verus!
