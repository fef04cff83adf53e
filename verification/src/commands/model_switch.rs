//! `/model-switch`: what the command shows while the model is switched.
//!
//! The command edits one message as progress arrives. `progress_step` says,
//! for each progress report (or the end of the reports), what the message
//! becomes and whether the command is done; `outcome_reply` says what the
//! message becomes once the switching task has ended.

use vstd::prelude::*;

use crate::text::byte_tail;
use crate::text::chars_of;
use crate::text::decimal;
use crate::text::is_tail_boundary;
use crate::text::longer_than;
use crate::text::owned;
use crate::text::push_decimal;
use crate::text::push_range;
use crate::text::push_str;
use crate::text::tail_start;
use crate::text::utf8_len;

verus! {

/// A progress report of the model switch.
#[derive(Debug)]
pub enum ModelLoadProgress {
    /// The model is being looked up.
    Resolving { model_id: String },
    /// A model file is being downloaded.
    Downloading { model_id: String, filename: String },
    /// The model is being loaded from `path`.
    Loading { path: String },
    /// The new model is loaded; `params_display` is its parameter count as
    /// shown to the user.
    Loaded { vocab: u64, params_display: String },
    /// Loading failed; the previous model stays.
    Failed { error: String },
}

/// The models involved in a switch.
#[derive(Debug)]
pub struct SwitchRequest {
    pub current_model: String,
    pub current_quant: String,
    pub model_id: String,
    pub quantization: String,
}

/// What the command does with its message after a progress report.
#[derive(Debug)]
pub enum SwitchStep {
    /// Show this text and wait for the next report.
    Edit(String),
    /// Show this text; the command is done.
    Finish(String),
    /// The reports have ended: wait for the switching task.
    AwaitTask,
}

/// How the switching task ended.
#[derive(Debug)]
pub enum SwitchOutcome {
    /// The switch succeeded.
    Completed,
    /// The switch returned this error.
    Failed(String),
    /// The task panicked; this is the join error.
    Panicked(String),
}

/// The message while switching: the header and the current `status`.
/// `header_model` is the target shown in the header.
pub open spec fn switching_text(req: SwitchRequest, header_model: Seq<char>, status: Seq<char>) -> Seq<
    char,
> {
    "Switching model from `"@ + req.current_model@ + " ("@ + req.current_quant@ + ")` to `"@
        + header_model + " ("@ + req.quantization@ + ")`...\n\n"@ + status
}

/// The first message of a switch.
pub open spec fn start_text(req: SwitchRequest) -> Seq<char> {
    switching_text(req, req.model_id@, "Resolving model..."@)
}

/// A path as shown: its last 47 bytes after "..." where it is over 50 bytes.
pub open spec fn display_path(path: Seq<char>) -> Seq<char> {
    if utf8_len(path) > 50 {
        "..."@ + byte_tail(path, 47)
    } else {
        path
    }
}

/// The message after the switch failed with `error`.
pub open spec fn failed_text(req: SwitchRequest, error: Seq<char>) -> Seq<char> {
    "Model switch failed! Keeping original model.\n\n**Current model:** `"@ + req.current_model@
        + " ("@ + req.current_quant@ + ")`\n\n**Error:** "@ + error
}

/// The message after the switching task panicked.
pub open spec fn panicked_text(req: SwitchRequest, error: Seq<char>) -> Seq<char> {
    "Model switch failed unexpectedly! Keeping original model.\n\n**Current model:** `"@
        + req.current_model@ + " ("@ + req.current_quant@ + ")`\n\n**Error:** Task panicked: "@
        + error
}

/// The message after the new model is loaded.
pub open spec fn loaded_text(req: SwitchRequest, vocab: u64, params: Seq<char>) -> Seq<char> {
    "Model switched successfully!\n\n**From:** `"@ + req.current_model@ + " ("@
        + req.current_quant@ + ")`\n**To:** `"@ + req.model_id@ + " ("@ + req.quantization@
        + ")`\n\n**Vocab:** "@ + decimal(vocab as nat) + "\n**Params:** "@ + params
}

/// The message shown for a progress report. While resolving or
/// downloading, the header names the model of the report.
pub open spec fn progress_text(req: SwitchRequest, p: ModelLoadProgress) -> Seq<char> {
    match p {
        ModelLoadProgress::Resolving { model_id } => switching_text(
            req,
            model_id@,
            "Resolving `"@ + model_id@ + "`..."@,
        ),
        ModelLoadProgress::Downloading { model_id, filename } => switching_text(
            req,
            model_id@,
            "Downloading `"@ + model_id@ + "/"@ + filename@ + "`..."@,
        ),
        ModelLoadProgress::Loading { path } => switching_text(
            req,
            req.model_id@,
            "Loading model from `"@ + display_path(path@) + "`..."@,
        ),
        ModelLoadProgress::Loaded { vocab, params_display } => loaded_text(
            req,
            vocab,
            params_display@,
        ),
        ModelLoadProgress::Failed { error } => failed_text(req, error@),
    }
}

/// A report after which the command is done.
pub open spec fn is_final(p: ModelLoadProgress) -> bool {
    p is Loaded || p is Failed
}

/// A report whose text can be built: a long path can be cut 47 bytes
/// before its end without splitting a character.
pub open spec fn displayable(p: ModelLoadProgress) -> bool {
    p matches ModelLoadProgress::Loading { path } ==> (utf8_len(path@) > 50 ==> is_tail_boundary(
        path@,
        47,
    ))
}

fn switching_string(req: &SwitchRequest, header_model: &str, status: &str) -> (r: String)
    ensures
        r@ == switching_text(*req, header_model@, status@),
{
    let mut r = owned("Switching model from `");
    push_str(&mut r, req.current_model.as_str());
    push_str(&mut r, " (");
    push_str(&mut r, req.current_quant.as_str());
    push_str(&mut r, ")` to `");
    push_str(&mut r, header_model);
    push_str(&mut r, " (");
    push_str(&mut r, req.quantization.as_str());
    push_str(&mut r, ")`...\n\n");
    push_str(&mut r, status);
    r
}

/// The first message of a switch.
pub fn start_message(req: &SwitchRequest) -> (r: String)
    ensures
        r@ == start_text(*req),
{
    switching_string(req, req.model_id.as_str(), "Resolving model...")
}

/// Shortens a path for display.
pub fn shorten_path(path: &str) -> (r: String)
    requires
        utf8_len(path@) > 50 ==> is_tail_boundary(path@, 47),
    ensures
        r@ == display_path(path@),
{
    let v = chars_of(path);
    if longer_than(&v, 50) {
        let k = tail_start(&v, 47);
        let mut r = owned("...");
        push_range(&mut r, &v, k, v.len());
        assert(v@.subrange(k as int, v.len() as int) =~= v@.skip(k as int));
        r
    } else {
        owned(path)
    }
}

fn failed_string(req: &SwitchRequest, error: &str) -> (r: String)
    ensures
        r@ == failed_text(*req, error@),
{
    let mut r = owned("Model switch failed! Keeping original model.\n\n**Current model:** `");
    push_str(&mut r, req.current_model.as_str());
    push_str(&mut r, " (");
    push_str(&mut r, req.current_quant.as_str());
    push_str(&mut r, ")`\n\n**Error:** ");
    push_str(&mut r, error);
    r
}

fn loaded_string(req: &SwitchRequest, vocab: u64, params: &str) -> (r: String)
    ensures
        r@ == loaded_text(*req, vocab, params@),
{
    let mut r = owned("Model switched successfully!\n\n**From:** `");
    push_str(&mut r, req.current_model.as_str());
    push_str(&mut r, " (");
    push_str(&mut r, req.current_quant.as_str());
    push_str(&mut r, ")`\n**To:** `");
    push_str(&mut r, req.model_id.as_str());
    push_str(&mut r, " (");
    push_str(&mut r, req.quantization.as_str());
    push_str(&mut r, ")`\n\n**Vocab:** ");
    push_decimal(&mut r, vocab);
    push_str(&mut r, "\n**Params:** ");
    push_str(&mut r, params);
    r
}

/// What the command does after receiving `progress` (`None`: the reports
/// have ended).
pub fn progress_step(req: &SwitchRequest, progress: Option<ModelLoadProgress>) -> (r: SwitchStep)
    requires
        progress matches Some(p) ==> displayable(p),
    ensures
        match progress {
            None => r is AwaitTask,
            Some(p) => if is_final(p) {
                r matches SwitchStep::Finish(t) && t@ == progress_text(*req, p)
            } else {
                r matches SwitchStep::Edit(t) && t@ == progress_text(*req, p)
            },
        },
{
    match progress {
        None => SwitchStep::AwaitTask,
        Some(ModelLoadProgress::Resolving { model_id }) => {
            let mut status = owned("Resolving `");
            push_str(&mut status, model_id.as_str());
            push_str(&mut status, "`...");
            SwitchStep::Edit(switching_string(req, model_id.as_str(), status.as_str()))
        },
        Some(ModelLoadProgress::Downloading { model_id, filename }) => {
            let mut status = owned("Downloading `");
            push_str(&mut status, model_id.as_str());
            push_str(&mut status, "/");
            push_str(&mut status, filename.as_str());
            push_str(&mut status, "`...");
            SwitchStep::Edit(switching_string(req, model_id.as_str(), status.as_str()))
        },
        Some(ModelLoadProgress::Loading { path }) => {
            let shown = shorten_path(path.as_str());
            let mut status = owned("Loading model from `");
            push_str(&mut status, shown.as_str());
            push_str(&mut status, "`...");
            SwitchStep::Edit(switching_string(req, req.model_id.as_str(), status.as_str()))
        },
        Some(ModelLoadProgress::Loaded { vocab, params_display }) => {
            SwitchStep::Finish(loaded_string(req, vocab, params_display.as_str()))
        },
        Some(ModelLoadProgress::Failed { error }) => {
            SwitchStep::Finish(failed_string(req, error.as_str()))
        },
    }
}

/// What the message becomes once the switching task has ended: nothing
/// more after a success, else the failure.
pub fn outcome_reply(req: &SwitchRequest, outcome: SwitchOutcome) -> (r: Option<String>)
    ensures
        match outcome {
            SwitchOutcome::Completed => r is None,
            SwitchOutcome::Failed(e) => r matches Some(t) && t@ == failed_text(*req, e@),
            SwitchOutcome::Panicked(e) => r matches Some(t) && t@ == panicked_text(*req, e@),
        },
{
    match outcome {
        SwitchOutcome::Completed => None,
        SwitchOutcome::Failed(e) => Some(failed_string(req, e.as_str())),
        SwitchOutcome::Panicked(e) => {
            let mut r = owned(
                "Model switch failed unexpectedly! Keeping original model.\n\n**Current model:** `",
            );
            push_str(&mut r, req.current_model.as_str());
            push_str(&mut r, " (");
            push_str(&mut r, req.current_quant.as_str());
            push_str(&mut r, ")`\n\n**Error:** Task panicked: ");
            push_str(&mut r, e.as_str());
            Some(r)
        },
    }
}

/// A shortened path takes at most 50 bytes.
pub proof fn law_display_path_fits(path: Seq<char>)
    requires
        utf8_len(path) > 50 ==> is_tail_boundary(path, 47),
    ensures
        utf8_len(display_path(path)) <= 50,
{
    if utf8_len(path) > 50 {
        reveal_strlit("...");
        crate::text::lemma_ascii_utf8_len("..."@);
        let k = choose|k: int| 0 <= k <= path.len() && utf8_len(#[trigger] path.skip(k)) == 47;
        crate::text::law_tail_is_suffix_after_prefix(path, 47, k);
        crate::text::lemma_utf8_len_concat("..."@, byte_tail(path, 47));
    }
}

} // verus!
