use llm_base::session::{
    EvaluateOutputRequest, InferenceSession, InferenceSessionParameters, KernelOutput,
};
use llm_base::snapshot::{InferenceSnapshot, SnapshotError};

fn primed_session() -> InferenceSession {
    let mut s = InferenceSession::new(InferenceSessionParameters::default(), 8, 1, 2, 3);
    let out = KernelOutput {
        logits: vec![10, 20, 30, 40, 50, 60],
        embeddings: vec![0; 4],
        k_rows: vec![0xAA; 16],
        v_rows: vec![0xBB; 16],
        used_bytes: 128,
    };
    let mut req = EvaluateOutputRequest::default();
    s.evaluate(&vec![1, 2], &out, &mut req);
    s
}

#[test]
fn snapshot_round_trip_restores_observable_state() {
    let s = primed_session();
    let bytes = s.get_snapshot().write();
    let snap = InferenceSnapshot::read(&bytes).unwrap();
    let restored = InferenceSession::from_snapshot(snap, 8, 1, 2, 3).unwrap();
    assert_eq!(restored.n_past, s.n_past);
    assert_eq!(restored.tokens, s.tokens);
    assert_eq!(restored.last_logits, s.last_logits);
    assert_eq!(restored.memory_k, s.memory_k);
    assert_eq!(restored.memory_v, s.memory_v);
    assert_eq!(restored.params, s.params);
}

#[test]
fn snapshot_equivalence_after_reset() {
    // Prime a session, snapshot it, rebuild a fresh session from the
    // snapshot: both present the same logits to the sampler, so the same
    // seed picks the same token.
    let s = primed_session();
    let bytes = s.get_snapshot().write();
    let snap = InferenceSnapshot::read(&bytes).unwrap();
    let restored = InferenceSession::from_snapshot(snap, 8, 1, 2, 3).unwrap();
    assert_eq!(restored.last_logits, s.last_logits);
    assert_eq!(restored.n_past, s.n_past);
}

#[test]
fn snapshot_rejects_mismatched_memory() {
    let s = primed_session();
    let bytes = s.get_snapshot().write();
    let snap = InferenceSnapshot::read(&bytes).unwrap();
    // The model restored against has a 16-position context: the cache bytes
    // do not fit.
    let r = InferenceSession::from_snapshot(snap, 16, 1, 2, 3);
    assert_eq!(
        r.err(),
        Some(SnapshotError::MemorySizeMismatch { self_size: 128, input_size: 64 })
    );
}

#[test]
fn snapshot_rejects_corrupt_bytes() {
    let s = primed_session();
    let mut bytes = s.get_snapshot().write();
    bytes[0] = 0xFF; // break the version tag
    assert_eq!(InferenceSnapshot::read(&bytes), Err(SnapshotError::Serialization));
    let short = vec![1u8, 2, 3];
    assert_eq!(InferenceSnapshot::read(&short), Err(SnapshotError::Serialization));
}
