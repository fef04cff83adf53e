use qwobot::commands::model_switch::outcome_reply;
use qwobot::commands::model_switch::progress_step;
use qwobot::commands::model_switch::shorten_path;
use qwobot::commands::model_switch::start_message;
use qwobot::commands::model_switch::ModelLoadProgress;
use qwobot::commands::model_switch::SwitchOutcome;
use qwobot::commands::model_switch::SwitchRequest;
use qwobot::commands::model_switch::SwitchStep;
use qwobot::commands::spweeboard::LlamaInference;
use std::sync::Arc;

fn request() -> SwitchRequest {
    SwitchRequest {
        current_model: "A".to_string(),
        current_quant: "Q8_0".to_string(),
        model_id: "B".to_string(),
        quantization: "Q4_K_M".to_string(),
    }
}

fn edit_text(step: SwitchStep) -> String {
    match step {
        SwitchStep::Edit(t) => t,
        other => panic!("expected an edit, got {:?}", other),
    }
}

fn finish_text(step: SwitchStep) -> String {
    match step {
        SwitchStep::Finish(t) => t,
        other => panic!("expected a finish, got {:?}", other),
    }
}

#[test]
fn start_message_text() {
    assert_eq!(
        start_message(&request()),
        "Switching model from `A (Q8_0)` to `B (Q4_K_M)`...\n\nResolving model..."
    );
}

#[test]
fn resolving_shows_the_reported_model_in_the_header() {
    let t = edit_text(progress_step(
        &request(),
        Some(ModelLoadProgress::Resolving { model_id: "B-GGUF".to_string() }),
    ));
    assert_eq!(
        t,
        "Switching model from `A (Q8_0)` to `B-GGUF (Q4_K_M)`...\n\nResolving `B-GGUF`..."
    );
}

#[test]
fn downloading_text() {
    let t = edit_text(progress_step(
        &request(),
        Some(ModelLoadProgress::Downloading {
            model_id: "B-GGUF".to_string(),
            filename: "b.gguf".to_string(),
        }),
    ));
    assert_eq!(
        t,
        "Switching model from `A (Q8_0)` to `B-GGUF (Q4_K_M)`...\n\nDownloading `B-GGUF/b.gguf`..."
    );
}

#[test]
fn loading_shortens_long_paths() {
    let path = format!("/models/{}", "p".repeat(60));
    let t = edit_text(progress_step(&request(), Some(ModelLoadProgress::Loading { path: path.clone() })));
    let shown = format!("...{}", &path[path.len() - 47..]);
    assert_eq!(
        t,
        format!("Switching model from `A (Q8_0)` to `B (Q4_K_M)`...\n\nLoading model from `{}`...", shown)
    );
}

#[test]
fn short_path_is_kept() {
    assert_eq!(shorten_path("/m/b.gguf"), "/m/b.gguf");
    let fifty = "q".repeat(50);
    assert_eq!(shorten_path(&fifty), fifty);
    let long = "r".repeat(51);
    assert_eq!(shorten_path(&long).len(), 50);
}

#[test]
fn loaded_finishes_the_command() {
    let t = finish_text(progress_step(
        &request(),
        Some(ModelLoadProgress::Loaded { vocab: 151936, params_display: "1.7B".to_string() }),
    ));
    assert_eq!(
        t,
        "Model switched successfully!\n\n**From:** `A (Q8_0)`\n**To:** `B (Q4_K_M)`\n\n**Vocab:** 151936\n**Params:** 1.7B"
    );
}

#[test]
fn failed_progress_finishes_the_command() {
    let t = finish_text(progress_step(
        &request(),
        Some(ModelLoadProgress::Failed { error: "no such file".to_string() }),
    ));
    assert_eq!(
        t,
        "Model switch failed! Keeping original model.\n\n**Current model:** `A (Q8_0)`\n\n**Error:** no such file"
    );
}

#[test]
fn end_of_reports_awaits_the_task() {
    assert!(matches!(progress_step(&request(), None), SwitchStep::AwaitTask));
}

#[test]
fn task_outcomes() {
    assert!(outcome_reply(&request(), SwitchOutcome::Completed).is_none());
    assert_eq!(
        outcome_reply(&request(), SwitchOutcome::Failed("bad".to_string())).unwrap(),
        "Model switch failed! Keeping original model.\n\n**Current model:** `A (Q8_0)`\n\n**Error:** bad"
    );
    assert_eq!(
        outcome_reply(&request(), SwitchOutcome::Panicked("join".to_string())).unwrap(),
        "Model switch failed unexpectedly! Keeping original model.\n\n**Current model:** `A (Q8_0)`\n\n**Error:** Task panicked: join"
    );
}

#[test]
fn llama_inference_wraps_engine() {
    let engine = Arc::new(5u32);
    let adapter = LlamaInference::new(engine.clone());
    assert!(Arc::ptr_eq(adapter.llm(), &engine));
}
