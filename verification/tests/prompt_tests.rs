use llm_base::prompt::process_prompt;

#[test]
fn process_prompt_replaces_placeholder() {
    let raw = b"Say: {{PROMPT}}!".to_vec();
    let p = b"hi".to_vec();
    assert_eq!(process_prompt(&raw, &p), b"Say: hi!".to_vec());
}

#[test]
fn process_prompt_replaces_every_occurrence() {
    let raw = b"{{PROMPT}}-{{PROMPT}}".to_vec();
    let p = b"x".to_vec();
    assert_eq!(process_prompt(&raw, &p), b"x-x".to_vec());
}

#[test]
fn process_prompt_without_placeholder_is_identity() {
    let raw = b"no placeholder here".to_vec();
    let p = b"hi".to_vec();
    assert_eq!(process_prompt(&raw, &p), raw);
}

#[test]
fn process_prompt_does_not_rescan_replacement() {
    // The spliced-in prompt is not scanned again.
    let raw = b"{{PROMPT}}".to_vec();
    let p = b"{{PROMPT}}".to_vec();
    assert_eq!(process_prompt(&raw, &p), b"{{PROMPT}}".to_vec());
}
