use llm_base::session::{
    EvaluateOutputRequest, InferenceError, InferenceParameters,
    InferenceSession, InferenceSessionParameters, KernelOutput, ModelKVMemoryType, TokenBias,
};
use llm_base::vocabulary::Vocabulary;

fn new_session(n_ctx: usize) -> InferenceSession {
    InferenceSession::new(InferenceSessionParameters::default(), n_ctx, 1, 2, 3)
}

fn kernel_output(n: usize) -> KernelOutput {
    // n_layer = 1, n_embd = 2, n_vocab = 3, f32 cache elements (8 bytes/row)
    KernelOutput {
        logits: (0..3 * n as u32).collect(),
        embeddings: vec![0; 2 * n],
        k_rows: vec![0xAA; 8 * n],
        v_rows: vec![0xBB; 8 * n],
        used_bytes: 100 * n,
    }
}

fn abc_vocab() -> Vocabulary {
    let mut v = Vocabulary::new();
    v.push_token(0, b"a".to_vec(), 0);
    v.push_token(1, b"b".to_vec(), 0);
    v.push_token(2, b"c".to_vec(), 0);
    v
}

#[test]
fn session_defaults() {
    let p = InferenceSessionParameters::default();
    assert_eq!(p.repetition_penalty_last_n, 512);
    assert_eq!(p.memory_k_type, ModelKVMemoryType::Float32);
    let ip = InferenceParameters::default();
    assert_eq!(ip.n_threads, 8);
    assert_eq!(ip.n_batch, 8);
    assert_eq!(ip.top_k, 40);
    assert_eq!(ip.top_p, 950);
    assert_eq!(ip.repeat_penalty, 1300);
    assert_eq!(ip.temp, 800);
    assert!(!ip.play_back_previous_tokens);
    assert!(ip.increased_determinism);
}

#[test]
fn evaluate_commits_batch() {
    let mut s = new_session(8);
    assert_eq!(s.memory_k.len(), 1 * 8 * 2 * 4);
    let out = kernel_output(2);
    let mut req = EvaluateOutputRequest::default();
    s.evaluate(&vec![5, 6], &out, &mut req);
    assert_eq!(s.n_past, 2);
    assert_eq!(s.tokens, vec![5, 6]);
    assert_eq!(s.last_logits, vec![3, 4, 5]);
    assert_eq!(s.mem_per_token, 100);
    // the two key rows landed at positions 0 and 1 of layer 0
    assert_eq!(&s.memory_k[0..16], &[0xAA; 16]);
    assert_eq!(&s.memory_k[16..], &[0u8; 48][..]);
    assert_eq!(&s.memory_v[0..16], &[0xBB; 16]);
}

#[test]
fn evaluate_fills_requested_sinks() {
    let mut s = new_session(8);
    let out = kernel_output(1);
    let mut req = EvaluateOutputRequest {
        all_logits: Some(Vec::new()),
        embeddings: None,
    };
    s.evaluate(&vec![1], &out, &mut req);
    assert_eq!(req.all_logits, Some(vec![0, 1, 2]));
    assert_eq!(req.embeddings, None);
}

#[test]
fn feed_prompt_stops_at_full_context() {
    // n_ctx = 8; the prompt tokenizes to 9 ids plus the BOS token: 10 in all.
    let mut s = new_session(8);
    let v = abc_vocab();
    let params = InferenceParameters::default();
    let outputs = vec![kernel_output(8)];
    let r = s.feed_prompt(&v, &params, &b"aaaaaaaaa".to_vec(), &outputs);
    assert_eq!(r, Err(InferenceError::ContextFull));
    assert_eq!(s.tokens.len(), 8);
    assert_eq!(s.n_past, 8);
    assert_eq!(s.tokens, vec![1, 0, 0, 0, 0, 0, 0, 0]);
}

#[test]
fn feed_prompt_feeds_whole_prompt() {
    let mut s = new_session(8);
    let v = abc_vocab();
    let params = InferenceParameters::default();
    // "abc" tokenizes to [0, 1, 2]; BOS makes it [1, 0, 1, 2]
    let outputs = vec![kernel_output(4)];
    let r = s.feed_prompt(&v, &params, &b"abc".to_vec(), &outputs);
    assert_eq!(r, Ok(()));
    assert_eq!(s.tokens, vec![1, 0, 1, 2]);
    assert_eq!(s.n_past, 4);
}

#[test]
fn feed_prompt_batches_match_one_shot() {
    // Feeding with a small batch size leaves the same history and position
    // as feeding with one big batch.
    let v = abc_vocab();
    let mut small = InferenceParameters::default();
    small.n_batch = 2;
    let big = InferenceParameters::default();
    let mut s1 = new_session(8);
    let outs1 = vec![kernel_output(2), kernel_output(2)];
    s1.feed_prompt(&v, &small, &b"abc".to_vec(), &outs1).unwrap();
    let mut s2 = new_session(8);
    let outs2 = vec![kernel_output(4)];
    s2.feed_prompt(&v, &big, &b"abc".to_vec(), &outs2).unwrap();
    assert_eq!(s1.tokens, s2.tokens);
    assert_eq!(s1.n_past, s2.n_past);
}

#[test]
fn tokenization_failure_reported() {
    let mut s = new_session(8);
    let v = abc_vocab();
    let params = InferenceParameters::default();
    let r = s.feed_prompt(&v, &params, &b"zzz".to_vec(), &Vec::new());
    assert_eq!(r, Err(InferenceError::TokenizationFailed));
    assert_eq!(s.n_past, 0);
}

#[test]
fn infer_next_token_commits_and_flags_eot() {
    let mut s = new_session(8);
    let out = kernel_output(1);
    let r = s.infer_next_token(2, &out, 0).unwrap();
    assert!(!r);
    assert_eq!(s.tokens, vec![2]);
    assert_eq!(s.n_past, 1);
    let out2 = kernel_output(1);
    let r2 = s.infer_next_token(0, &out2, 0).unwrap();
    assert!(r2);
}

#[test]
fn infer_next_token_reports_full_context() {
    let mut s = new_session(1);
    let out = kernel_output(1);
    s.infer_next_token(2, &out, 0).unwrap();
    let out2 = kernel_output(1);
    assert_eq!(s.infer_next_token(1, &out2, 0), Err(InferenceError::ContextFull));
    assert_eq!(s.tokens, vec![2]);
}

#[test]
fn repetition_penalty_window() {
    let mut params = InferenceSessionParameters::default();
    params.repetition_penalty_last_n = 2;
    let mut s = InferenceSession::new(params, 8, 1, 2, 3);
    let out = kernel_output(3);
    let mut req = EvaluateOutputRequest::default();
    s.evaluate(&vec![4, 5, 6], &out, &mut req);
    assert_eq!(s.repetition_penalty_tokens(), vec![5, 6]);
}

#[test]
fn token_bias_lookup() {
    let b = TokenBias(vec![(3, -100), (7, 42)]);
    assert_eq!(b.get(3), Some(-100));
    assert_eq!(b.get(7), Some(42));
    assert_eq!(b.get(5), None);
}

#[test]
fn inference_stats_default_is_zeroed() {
    let s = llm_base::session::InferenceStats::default();
    assert_eq!(s.feed_prompt_duration, 0);
    assert_eq!(s.prompt_tokens, 0);
    assert_eq!(s.predict_duration, 0);
    assert_eq!(s.predict_tokens, 0);
}

#[test]
fn inference_with_prompt_runs_to_end_of_text() {
    let mut s = new_session(8);
    let v = abc_vocab();
    let params = InferenceParameters::default();
    let pp = llm_base::session::InferenceWithPromptParameters::default();
    // "ab" tokenizes to [0, 1]; BOS makes the fed prompt [1, 0, 1]
    let prompt_outputs = vec![kernel_output(3)];
    // draw token 2, then the end-of-text token 0; a further pair is ignored
    let sampled = vec![
        (2, kernel_output(1)),
        (0, kernel_output(1)),
        (2, kernel_output(1)),
    ];
    let (seen, stats) = s
        .inference_with_prompt(&v, &params, &pp, &b"ab".to_vec(), &prompt_outputs, &sampled, 0)
        .unwrap();
    assert_eq!(s.tokens, vec![1, 0, 1, 2, 0]);
    assert_eq!(s.n_past, 5);
    assert_eq!(seen, vec![1, 0, 1, 2, 0]);
    assert_eq!(stats.prompt_tokens, 3);
    assert_eq!(stats.predict_tokens, 5);
}

#[test]
fn inference_with_prompt_honors_token_cap() {
    let mut s = new_session(8);
    let v = abc_vocab();
    let params = InferenceParameters::default();
    let mut pp = llm_base::session::InferenceWithPromptParameters::default();
    pp.maximum_token_count = Some(1);
    let prompt_outputs = vec![kernel_output(3)];
    let sampled = vec![(2, kernel_output(1)), (2, kernel_output(1))];
    let (seen, stats) = s
        .inference_with_prompt(&v, &params, &pp, &b"ab".to_vec(), &prompt_outputs, &sampled, 0)
        .unwrap();
    assert_eq!(s.tokens, vec![1, 0, 1, 2]);
    assert_eq!(seen, vec![1, 0, 1, 2]);
    assert_eq!(stats.predict_tokens, 4);
}

#[test]
fn inference_with_prompt_replays_history() {
    let mut s = new_session(8);
    let v = abc_vocab();
    let params = InferenceParameters::default();
    // prime some history first
    let outputs = vec![kernel_output(3)];
    s.feed_prompt(&v, &params, &b"ab".to_vec(), &outputs).unwrap();
    let mut pp = llm_base::session::InferenceWithPromptParameters::default();
    pp.play_back_previous_tokens = true;
    // no BOS this time (n_past > 0): "c" tokenizes to [2]
    let prompt_outputs = vec![kernel_output(1)];
    let sampled = vec![(0, kernel_output(1))];
    let (seen, _stats) = s
        .inference_with_prompt(&v, &params, &pp, &b"c".to_vec(), &prompt_outputs, &sampled, 0)
        .unwrap();
    // replayed history, then the fed prompt, then the committed draw
    assert_eq!(seen, vec![1, 0, 1, 2, 0]);
}

#[test]
fn inference_with_prompt_reports_full_context() {
    let mut s = new_session(4);
    let v = abc_vocab();
    let params = InferenceParameters::default();
    let pp = llm_base::session::InferenceWithPromptParameters::default();
    let prompt_outputs = vec![kernel_output(3)];
    // the fed prompt takes 3 of 4 positions; the second draw finds no space
    let sampled = vec![(2, kernel_output(1)), (2, kernel_output(1))];
    let r = s.inference_with_prompt(&v, &params, &pp, &b"ab".to_vec(), &prompt_outputs, &sampled, 0);
    assert_eq!(r, Err(InferenceError::ContextFull));
    assert_eq!(s.tokens, vec![1, 0, 1, 2]);
    assert_eq!(s.n_past, 4);
}
