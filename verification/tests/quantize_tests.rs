use llm_base::container::{load as codec_load, ElementType};
use llm_base::filetype::FileType;
use llm_base::loader::Loader;
use llm_base::quantize::{quantize, QuantizeError, QuantizeProgress};

fn w32(out: &mut Vec<u8>, x: u32) {
    out.extend_from_slice(&x.to_le_bytes());
}

fn tensor_record(out: &mut Vec<u8>, name: &str, dims: &[u32], etype: u32, payload: &[u8]) {
    w32(out, dims.len() as u32);
    w32(out, name.len() as u32);
    w32(out, etype);
    for d in dims {
        w32(out, *d);
    }
    out.extend_from_slice(name.as_bytes());
    out.extend_from_slice(payload);
}

/// An f32 model with a 2-D embedding tensor and a 1-D norm tensor.
fn f32_model() -> Vec<u8> {
    let mut d = Vec::new();
    w32(&mut d, 0x67676d6c);
    w32(&mut d, 1); // n_vocab
    w32(&mut d, 32); // n_embd
    w32(&mut d, 1); // n_mult
    w32(&mut d, 1); // n_head
    w32(&mut d, 1); // n_layer
    w32(&mut d, 0); // file_type f32
    w32(&mut d, 1);
    d.push(b'a');
    w32(&mut d, 0x3f80_0000);
    tensor_record(&mut d, "emb", &[32, 2], 0, &[1u8; 256]);
    tensor_record(&mut d, "norm", &[32], 0, &[2u8; 128]);
    d
}

#[test]
fn quantize_skips_norm_and_rewrites_emb() {
    let d = f32_model();
    // Q4_0: 32 elements per 20-byte block; the 32x2 tensor takes 40 bytes.
    let payloads = vec![vec![9u8; 40]];
    let (out, events) = quantize(&d, FileType::MostlyQ4_0, &payloads).unwrap();

    assert!(events.iter().any(|e| matches!(
        e,
        QuantizeProgress::TensorSkipped { name, size: 128 } if name == "norm"
    )));
    assert!(events.iter().any(|e| matches!(
        e,
        QuantizeProgress::TensorQuantized { name, original_size: 256, reduced_size: 40 }
            if name == "emb"
    )));
    assert!(matches!(
        events.last(),
        Some(QuantizeProgress::Finished { original_size: 384, reduced_size: 168 })
    ));

    // Re-load the rewritten container: names, shapes and the vocabulary are
    // reproduced exactly; the embedding carries the new encoding.
    let mut loader = Loader::new();
    codec_load(&out, &mut loader).unwrap();
    assert_eq!(loader.hyperparameters.file_type, FileType::MostlyQ4_0);
    assert_eq!(loader.hyperparameters.n_embd, 32);
    assert_eq!(loader.vocabulary.id_to_token[0], b"a".to_vec());
    assert_eq!(loader.tensors.len(), 2);
    assert_eq!(loader.tensors[0].name, "emb");
    assert_eq!(loader.tensors[0].dims, vec![32, 2]);
    assert_eq!(loader.tensors[0].element_type, ElementType::Q4_0);
    assert_eq!(loader.tensors[1].name, "norm");
    assert_eq!(loader.tensors[1].dims, vec![32]);
    assert_eq!(loader.tensors[1].element_type, ElementType::F32);
    // the skipped tensor's payload is copied verbatim
    let off = loader.tensors[1].start_offset;
    assert_eq!(&out[off..off + 128], &[2u8; 128][..]);
    // the quantized tensor's payload is the supplied encoding
    let qoff = loader.tensors[0].start_offset;
    assert_eq!(&out[qoff..qoff + 40], &[9u8; 40][..]);
}

#[test]
fn quantize_rejects_non_quantized_target() {
    let d = f32_model();
    assert_eq!(
        quantize(&d, FileType::F32, &Vec::new()),
        Err(QuantizeError::UnsupportedTargetType(FileType::F32))
    );
}

#[test]
fn quantize_rejects_wrong_payload_size() {
    let d = f32_model();
    let payloads = vec![vec![9u8; 39]];
    assert_eq!(
        quantize(&d, FileType::MostlyQ4_0, &payloads),
        Err(QuantizeError::PayloadSizeMismatch)
    );
}

#[test]
fn quantize_rejects_wrong_payload_count() {
    let d = f32_model();
    assert_eq!(
        quantize(&d, FileType::MostlyQ4_0, &Vec::new()),
        Err(QuantizeError::PayloadCountMismatch)
    );
    let payloads = vec![vec![9u8; 40], vec![1u8; 4]];
    assert_eq!(
        quantize(&d, FileType::MostlyQ4_0, &payloads),
        Err(QuantizeError::PayloadCountMismatch)
    );
}

/// An aligned-variant f32 model: payloads sit at 32-byte boundaries.
fn aligned_f32_model() -> Vec<u8> {
    let mut d = Vec::new();
    w32(&mut d, 0x67676a74); // aligned magic
    w32(&mut d, 1); // version
    w32(&mut d, 1); // n_vocab
    w32(&mut d, 32); // n_embd
    w32(&mut d, 1); // n_mult
    w32(&mut d, 1); // n_head
    w32(&mut d, 1); // n_layer
    w32(&mut d, 0); // file_type f32
    w32(&mut d, 1);
    d.push(b'a');
    w32(&mut d, 0);
    // emb record header, then padding to 32, then the payload
    w32(&mut d, 2);
    w32(&mut d, 3);
    w32(&mut d, 0);
    w32(&mut d, 32);
    w32(&mut d, 2);
    d.extend_from_slice(b"emb");
    while d.len() % 32 != 0 {
        d.push(0);
    }
    d.extend_from_slice(&[1u8; 256]);
    // norm record
    w32(&mut d, 1);
    w32(&mut d, 4);
    w32(&mut d, 0);
    w32(&mut d, 32);
    d.extend_from_slice(b"norm");
    while d.len() % 32 != 0 {
        d.push(0);
    }
    d.extend_from_slice(&[2u8; 128]);
    d
}

#[test]
fn quantize_aligned_container_keeps_alignment() {
    let d = aligned_f32_model();
    // sanity: the source parses
    let mut src_loader = Loader::new();
    codec_load(&d, &mut src_loader).unwrap();
    let payloads = vec![vec![9u8; 40]];
    let (out, _events) = quantize(&d, FileType::MostlyQ4_0, &payloads).unwrap();
    let mut loader = Loader::new();
    codec_load(&out, &mut loader).unwrap();
    assert_eq!(loader.tensors.len(), 2);
    assert_eq!(loader.tensors[0].name, "emb");
    assert_eq!(loader.tensors[0].element_type, ElementType::Q4_0);
    assert_eq!(loader.tensors[0].start_offset % 32, 0);
    assert_eq!(loader.tensors[1].name, "norm");
    assert_eq!(loader.tensors[1].start_offset % 32, 0);
    let qoff = loader.tensors[0].start_offset;
    assert_eq!(&out[qoff..qoff + 40], &[9u8; 40][..]);
    let noff = loader.tensors[1].start_offset;
    assert_eq!(&out[noff..noff + 128], &[2u8; 128][..]);
}

#[test]
fn quantize_rejects_unparseable_source() {
    let d = vec![1u8, 2, 3, 4];
    match quantize(&d, FileType::MostlyQ4_0, &Vec::new()) {
        Err(QuantizeError::Format(_)) => {},
        _ => panic!("expected a codec error"),
    }
}

#[test]
fn quantize_rejects_block_misaligned_candidate() {
    let mut d = Vec::new();
    w32(&mut d, 0x67676d6c);
    w32(&mut d, 0); // n_vocab
    w32(&mut d, 16); // n_embd
    w32(&mut d, 1);
    w32(&mut d, 1);
    w32(&mut d, 1);
    w32(&mut d, 0);
    // a 16x2 f32 tensor: 16 is no multiple of Q4_0's 32-block
    tensor_record(&mut d, "emb", &[16, 2], 0, &[1u8; 128]);
    let payloads = vec![vec![9u8; 20]];
    assert_eq!(
        quantize(&d, FileType::MostlyQ4_0, &payloads),
        Err(QuantizeError::LeadingDimNotBlockMultiple)
    );
}
