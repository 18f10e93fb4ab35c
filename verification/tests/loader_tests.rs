use llm_base::bloom::{scratch_buffer_size, Bloom};
use llm_base::container::{BrokenInvariant, ContainerType, FormatError};
use llm_base::loader::{load, LoadError, LoadProgress, ModelParameters, TensorData};
use llm_base::session::{
    EvaluateOutputRequest, InferenceParameters, InferenceSessionParameters, KernelOutput,
};

fn w32(out: &mut Vec<u8>, x: u32) {
    out.extend_from_slice(&x.to_le_bytes());
}

fn tensor_record(out: &mut Vec<u8>, name: &str, dims: &[u32], etype: u32, payload: &[u8]) {
    w32(out, dims.len() as u32);
    w32(out, name.len() as u32);
    w32(out, etype);
    for d in dims {
        w32(out, *d);
    }
    out.extend_from_slice(name.as_bytes());
    out.extend_from_slice(payload);
}

/// A zero-layer model with the six base tensors.
fn base_model_bytes(with_output: bool) -> Vec<u8> {
    let mut d = Vec::new();
    w32(&mut d, 0x67676d6c);
    w32(&mut d, 1); // n_vocab
    w32(&mut d, 2); // n_embd
    w32(&mut d, 1); // n_mult
    w32(&mut d, 1); // n_head
    w32(&mut d, 0); // n_layer
    w32(&mut d, 0); // file_type f32
    // one vocabulary entry
    w32(&mut d, 1);
    d.push(b'a');
    w32(&mut d, 0);
    tensor_record(&mut d, "tok_embeddings.weight", &[2, 1], 0, &[1u8; 8]);
    tensor_record(&mut d, "norm.weight", &[2], 0, &[2u8; 8]);
    tensor_record(&mut d, "norm.bias", &[2], 0, &[3u8; 8]);
    tensor_record(&mut d, "output_norm.weight", &[2], 0, &[4u8; 8]);
    tensor_record(&mut d, "output_norm.bias", &[2], 0, &[5u8; 8]);
    if with_output {
        tensor_record(&mut d, "output.weight", &[2, 1], 0, &[6u8; 8]);
    }
    d
}

#[test]
fn load_rejects_multipart_models() {
    let d = base_model_bytes(true);
    let siblings = vec!["model.bin".to_string(), "model.bin.1".to_string()];
    let r = load(&d, "model.bin".to_string(), siblings.clone(), ModelParameters::default());
    match r {
        Err(LoadError::MultipartNotSupported { paths }) => assert_eq!(paths, siblings),
        other => panic!("expected MultipartNotSupported, got {:?}", other.is_ok()),
    }
}

#[test]
fn load_builds_model_from_single_part() {
    let d = base_model_bytes(true);
    let (model, events) = load(
        &d,
        "model.bin".to_string(),
        vec!["model.bin".to_string()],
        ModelParameters::default(),
    )
    .unwrap();
    assert_eq!(model.hyperparameters.n_embd, 2);
    assert_eq!(model.hyperparameters.n_layer, 0);
    assert_eq!(model.n_context_tokens(), 2048);
    assert_eq!(model.vocabulary().id_to_token.len(), 1);
    assert_eq!(model.eot_token_id(), 0);
    assert!(matches!(events[0], LoadProgress::HyperparametersLoaded));
    assert!(matches!(events.last(), Some(LoadProgress::Loaded { .. })));
    // the legacy container does not support mapping, so tensors own buffers
    match &model.norm.data {
        TensorData::Owned(b) => assert_eq!(b, &vec![2u8; 8]),
        TensorData::Mapped { .. } => panic!("expected an owned buffer"),
    }
}

#[test]
fn load_reports_missing_tensor() {
    let d = base_model_bytes(false);
    let r = load(
        &d,
        "model.bin".to_string(),
        vec!["model.bin".to_string()],
        ModelParameters::default(),
    );
    match r {
        Err(LoadError::UnknownTensor { tensor_name, .. }) => {
            assert_eq!(tensor_name, "output.weight");
        },
        _ => panic!("expected UnknownTensor"),
    }
}

#[test]
fn load_surfaces_codec_errors_with_path() {
    let d = vec![0u8, 1, 2, 3];
    let r = load(
        &d,
        "m.bin".to_string(),
        vec!["m.bin".to_string()],
        ModelParameters::default(),
    );
    match r {
        Err(LoadError::InvalidMagic { path, magic }) => {
            assert_eq!(path, "m.bin");
            assert_eq!(magic, 0x03020100);
        },
        _ => panic!("expected InvalidMagic"),
    }
}

#[test]
fn scratch_budget_policy() {
    // First call: the measured use is zero, the default budget applies.
    assert_eq!(scratch_buffer_size(0, 8), 0x4000_0000);
    // Small measured use stays within the default.
    assert_eq!(scratch_buffer_size(1000, 8), 0x4000_0000);
    // A need beyond the default grows it by one tenth.
    let need = 0x4000_0000usize + 10;
    assert_eq!(scratch_buffer_size(need, 1), need + need / 10);
    // Stable token count, stable measure: the budget does not change between
    // calls, so the second evaluation never re-allocates.
    assert_eq!(scratch_buffer_size(1000, 8), scratch_buffer_size(1000, 8));
}

/// A one-layer model: the six base tensors plus the twelve layer tensors.
fn one_layer_model_bytes() -> Vec<u8> {
    let mut d = Vec::new();
    w32(&mut d, 0x67676d6c);
    w32(&mut d, 1); // n_vocab
    w32(&mut d, 2); // n_embd
    w32(&mut d, 1); // n_mult
    w32(&mut d, 1); // n_head
    w32(&mut d, 1); // n_layer
    w32(&mut d, 0); // file_type f32
    w32(&mut d, 1);
    d.push(b'a');
    w32(&mut d, 0);
    let names = [
        "tok_embeddings.weight",
        "norm.weight",
        "norm.bias",
        "output_norm.weight",
        "output_norm.bias",
        "output.weight",
        "layers.0.attention_norm.weight",
        "layers.0.attention_norm.bias",
        "layers.0.attention.query_key_value.weight",
        "layers.0.attention.query_key_value.bias",
        "layers.0.attention.wo.weight",
        "layers.0.attention.wo.bias",
        "layers.0.ffn_norm.weight",
        "layers.0.ffn_norm.bias",
        "layers.0.feed_forward.w1.weight",
        "layers.0.feed_forward.w1.bias",
        "layers.0.feed_forward.w2.weight",
        "layers.0.feed_forward.w2.bias",
    ];
    for n in names {
        tensor_record(&mut d, n, &[2], 0, &[0u8; 8]);
    }
    d
}

#[test]
fn bloom_evaluate_plans_cache_geometry() {
    let d = one_layer_model_bytes();
    let mut mp = ModelParameters::default();
    mp.n_context_tokens = 8;
    let (model, _events) =
        Bloom::load(&d, "m.bin".to_string(), vec!["m.bin".to_string()], mp).unwrap();
    let mut session = model.start_session(InferenceSessionParameters::default());
    // one position committed, then another: the second write lands one row in
    let params = InferenceParameters::default();
    let out = KernelOutput {
        logits: vec![7],
        embeddings: vec![0; 2],
        k_rows: vec![1; 8],
        v_rows: vec![2; 8],
        used_bytes: 64,
    };
    let mut req = EvaluateOutputRequest::default();
    let plan0 = model.evaluate(&mut session, &params, &vec![0], &out, &mut req);
    assert_eq!(plan0.n, 1);
    assert_eq!(plan0.n_past, 0);
    assert_eq!(plan0.head_dim, 2);
    assert_eq!(plan0.attention_rows, 1);
    assert_eq!(plan0.scratch_bytes, 0x4000_0000);
    assert_eq!(plan0.layers.len(), 1);
    assert_eq!(plan0.layers[0].k_cache_write_offset, 0);
    let out2 = KernelOutput {
        logits: vec![9],
        embeddings: vec![0; 2],
        k_rows: vec![3; 8],
        v_rows: vec![4; 8],
        used_bytes: 64,
    };
    let plan1 = model.evaluate(&mut session, &params, &vec![0], &out2, &mut req);
    // offset of position 1 of layer 0: (0 * n_ctx + 1) * n_embd * 4 bytes
    assert_eq!(plan1.layers[0].k_cache_write_offset, 8);
    assert_eq!(plan1.layers[0].k_view_offset, 0);
    assert_eq!(plan1.attention_rows, 2);
    assert_eq!(session.n_past, 2);
    assert_eq!(session.last_logits, vec![9]);
    assert_eq!(&session.memory_k[0..16], &[1, 1, 1, 1, 1, 1, 1, 1, 3, 3, 3, 3, 3, 3, 3, 3][..]);
}

#[test]
fn load_binds_to_mapping_when_supported() {
    // An aligned container with the six base tensors, loaded with mapping
    // preferred: tensors reference their file spans instead of owning copies.
    let mut d = Vec::new();
    w32(&mut d, 0x67676a74);
    w32(&mut d, 1);
    w32(&mut d, 1); // n_vocab
    w32(&mut d, 2); // n_embd
    w32(&mut d, 1); // n_mult
    w32(&mut d, 1); // n_head
    w32(&mut d, 0); // n_layer
    w32(&mut d, 0); // f32
    w32(&mut d, 1);
    d.push(b'a');
    w32(&mut d, 0);
    let names = [
        "tok_embeddings.weight",
        "norm.weight",
        "norm.bias",
        "output_norm.weight",
        "output_norm.bias",
        "output.weight",
    ];
    let mut offsets = Vec::new();
    for n in names {
        w32(&mut d, 1);
        w32(&mut d, n.len() as u32);
        w32(&mut d, 0);
        w32(&mut d, 2);
        d.extend_from_slice(n.as_bytes());
        while d.len() % 32 != 0 {
            d.push(0);
        }
        offsets.push(d.len());
        d.extend_from_slice(&[0u8; 8]);
    }
    let (model, _events) = load(
        &d,
        "m.bin".to_string(),
        vec!["m.bin".to_string()],
        ModelParameters::default(),
    )
    .unwrap();
    match model.tok_embeddings.data {
        TensorData::Mapped { offset, len } => {
            assert_eq!(offset, offsets[0]);
            assert_eq!(len, 8);
        },
        TensorData::Owned(_) => panic!("expected a mapped tensor"),
    }
}

#[test]
fn codec_errors_map_to_load_errors() {
    let e = LoadError::from_format_error(FormatError::UnexpectedEof(17), "p".to_string());
    assert_eq!(e, LoadError::ReadExactFailed { offset: 17 });
    let e = LoadError::from_format_error(FormatError::InvalidMagic(7), "p".to_string());
    assert_eq!(e, LoadError::InvalidMagic { path: "p".to_string(), magic: 7 });
    let e = LoadError::from_format_error(
        FormatError::InvalidFormatVersion(ContainerType::Ggjt, 3),
        "p".to_string(),
    );
    assert_eq!(
        e,
        LoadError::InvalidFormatVersion { container_type: ContainerType::Ggjt, version: 3 }
    );
    let e = LoadError::from_format_error(FormatError::UnsupportedFileType(6), "p".to_string());
    assert_eq!(e, LoadError::UnsupportedFileType(6));
    let e = LoadError::from_format_error(
        FormatError::InvariantBroken(BrokenInvariant::DimCount(4)),
        "p".to_string(),
    );
    assert_eq!(
        e,
        LoadError::InvariantBroken {
            path: Some("p".to_string()),
            broken: BrokenInvariant::DimCount(4)
        }
    );
}

#[test]
fn load_reports_documented_progress_events() {
    let d = base_model_bytes(true);
    let (_model, events) = load(
        &d,
        "model.bin".to_string(),
        vec!["model.bin".to_string()],
        ModelParameters::default(),
    )
    .unwrap();
    // hyperparameters, arena size, one binding event per tensor, then done
    assert_eq!(events.len(), 2 + 6 + 1);
    assert!(matches!(events[0], LoadProgress::HyperparametersLoaded));
    // owned buffers: six payloads of 8 bytes plus the object headers
    assert!(matches!(events[1], LoadProgress::ContextSize { bytes } if bytes == 6 * (224 + 32 + 8)));
    for j in 0..6 {
        match events[2 + j] {
            LoadProgress::TensorLoaded { current_tensor, tensor_count } => {
                assert_eq!(current_tensor, j + 1);
                assert_eq!(tensor_count, 6);
            },
            _ => panic!("expected a binding event"),
        }
    }
    assert!(matches!(
        events[8],
        LoadProgress::Loaded { file_size, tensor_count: 6 } if file_size == d.len() as u64
    ));
}
