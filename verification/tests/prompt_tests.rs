use qwobot::commands::prompt_refresh::prompt_refresh_reply;
use qwobot::prompt_watcher::encode;
use qwobot::prompt_watcher::hash_template;
use qwobot::prompt_watcher::PromptState;

#[test]
fn hash_of_abc_is_sha256() {
    let h = hash_template("abc");
    assert_eq!(
        encode(h),
        "ba7816bf8f01cfea414140de5dae2223b00361a396177a9cb410ff61f20015ad"
    );
}

#[test]
fn hash_of_empty_template() {
    assert_eq!(
        encode(hash_template("")),
        "e3b0c44298fc1c149afbf4c8996fb92427ae41e4649b934ca495991b7852b855"
    );
}

#[test]
fn encode_is_lower_case_two_digits_per_byte() {
    let mut bytes = [0u8; 32];
    bytes[0] = 0x0f;
    bytes[1] = 0xa0;
    bytes[31] = 0xff;
    let s = encode(bytes);
    assert_eq!(s.len(), 64);
    assert!(s.starts_with("0fa0"));
    assert!(s.ends_with("ff"));
}

#[test]
fn new_state_holds_its_template() {
    let state = PromptState::new("hello".to_string());
    assert_eq!(state.template(), "hello");
}

#[test]
fn changed_template_replaces_the_old_one() {
    let mut state = PromptState::new("one".to_string());
    assert!(state.update_if_changed("two".to_string()));
    assert_eq!(state.template(), "two");
}

#[test]
fn same_template_is_not_an_update() {
    let mut state = PromptState::new("same".to_string());
    assert!(!state.update_if_changed("same".to_string()));
    assert_eq!(state.template(), "same");
}

#[test]
fn offering_twice_updates_once() {
    let mut state = PromptState::new("a".to_string());
    assert!(state.update_if_changed("b".to_string()));
    assert!(!state.update_if_changed("b".to_string()));
    assert_eq!(state.template(), "b");
}

#[test]
fn refresh_reports_update() {
    let mut state = PromptState::new("old".to_string());
    let r = prompt_refresh_reply(&mut state, Ok("new".to_string()));
    assert_eq!(r, "Prompt template refreshed successfully.");
    assert_eq!(state.template(), "new");
}

#[test]
fn refresh_reports_unchanged() {
    let mut state = PromptState::new("same".to_string());
    let r = prompt_refresh_reply(&mut state, Ok("same".to_string()));
    assert_eq!(r, "Prompt template is already up to date.");
}

#[test]
fn refresh_reports_fetch_error() {
    let mut state = PromptState::new("kept".to_string());
    let r = prompt_refresh_reply(&mut state, Err("connection refused".to_string()));
    assert_eq!(r, "Failed to refresh prompt: connection refused");
    assert_eq!(state.template(), "kept");
}

#[test]
fn hex_digits_read_back_as_bytes() {
    let mut bytes = [0u8; 32];
    for (i, b) in bytes.iter_mut().enumerate() {
        *b = (i as u8).wrapping_mul(37).wrapping_add(11);
    }
    let s = encode(bytes);
    assert!(s.chars().all(|c| "0123456789abcdef".contains(c)));
    for i in 0..32 {
        assert_eq!(u8::from_str_radix(&s[2 * i..2 * i + 2], 16), Ok(bytes[i]));
    }
}
