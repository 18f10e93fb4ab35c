use llm_base::container::{load, BrokenInvariant, ContainerType, ElementType, FormatError};
use llm_base::filetype::FileType;
use llm_base::loader::Loader;

fn w32(out: &mut Vec<u8>, x: u32) {
    out.extend_from_slice(&x.to_le_bytes());
}

fn hparams(out: &mut Vec<u8>, n_vocab: u32, n_layer: u32, ftype: u32) {
    w32(out, n_vocab); // n_vocab
    w32(out, 4); // n_embd
    w32(out, 1); // n_mult
    w32(out, 2); // n_head
    w32(out, n_layer); // n_layer
    w32(out, ftype); // file_type
}

fn vocab_entry(out: &mut Vec<u8>, token: &[u8], score_bits: u32) {
    w32(out, token.len() as u32);
    out.extend_from_slice(token);
    w32(out, score_bits);
}

fn tensor_record(out: &mut Vec<u8>, name: &str, dims: &[u32], etype: u32, payload: &[u8]) {
    w32(out, dims.len() as u32);
    w32(out, name.len() as u32);
    w32(out, etype);
    for d in dims {
        w32(out, *d);
    }
    out.extend_from_slice(name.as_bytes());
    out.extend_from_slice(payload);
}

fn small_container() -> Vec<u8> {
    let mut d = Vec::new();
    w32(&mut d, 0x67676d6c); // unversioned magic
    hparams(&mut d, 2, 0, 0);
    vocab_entry(&mut d, b"a", 0);
    vocab_entry(&mut d, b"b", 0x3f80_0000);
    // one 1-D f32 tensor of 4 elements
    tensor_record(&mut d, "norm.weight", &[4], 0, &[7u8; 16]);
    d
}

#[test]
fn parse_small_container() {
    let data = small_container();
    let mut loader = Loader::new();
    load(&data, &mut loader).unwrap();
    assert_eq!(loader.container_type, ContainerType::Ggml);
    assert_eq!(loader.hyperparameters.n_vocab, 2);
    assert_eq!(loader.hyperparameters.n_embd, 4);
    assert_eq!(loader.hyperparameters.file_type, FileType::F32);
    assert_eq!(loader.vocabulary.id_to_token.len(), 2);
    assert_eq!(loader.vocabulary.id_to_token[0], b"a".to_vec());
    assert_eq!(loader.vocabulary.id_to_token_score[1], 0x100_0000);
    assert_eq!(loader.tensors.len(), 1);
    assert_eq!(loader.tensors[0].name, "norm.weight");
    assert_eq!(loader.tensors[0].dims, vec![4]);
    assert_eq!(loader.tensors[0].element_type, ElementType::F32);
    // payload sits right after the record header: 4 + 24 + (4+1+4)+(4+1+4) + 12 + 4 + 11
    assert_eq!(loader.tensors[0].start_offset, data.len() - 16);
    assert_eq!(loader.tensors[0].calc_size(), 16);
}

#[test]
fn parse_is_deterministic() {
    let data = small_container();
    let mut l1 = Loader::new();
    let mut l2 = Loader::new();
    load(&data, &mut l1).unwrap();
    load(&data, &mut l2).unwrap();
    assert_eq!(l1.container_type, l2.container_type);
    assert_eq!(l1.hyperparameters, l2.hyperparameters);
    assert_eq!(l1.vocabulary.id_to_token, l2.vocabulary.id_to_token);
    assert_eq!(l1.vocabulary.id_to_token_score, l2.vocabulary.id_to_token_score);
    assert_eq!(l1.tensors.len(), l2.tensors.len());
    for i in 0..l1.tensors.len() {
        assert_eq!(l1.tensors[i].name, l2.tensors[i].name);
        assert_eq!(l1.tensors[i].dims, l2.tensors[i].dims);
        assert_eq!(l1.tensors[i].element_type, l2.tensors[i].element_type);
        assert_eq!(l1.tensors[i].start_offset, l2.tensors[i].start_offset);
    }
}

#[test]
fn parse_rejects_bad_magic() {
    let mut d = Vec::new();
    w32(&mut d, 0xdeadbeef);
    let mut loader = Loader::new();
    assert_eq!(load(&d, &mut loader), Err(FormatError::InvalidMagic(0xdeadbeef)));
}

#[test]
fn parse_rejects_bad_version() {
    let mut d = Vec::new();
    w32(&mut d, 0x67676d66); // versioned unaligned magic
    w32(&mut d, 9);
    let mut loader = Loader::new();
    assert_eq!(
        load(&d, &mut loader),
        Err(FormatError::InvalidFormatVersion(ContainerType::Ggmf, 9))
    );
}

#[test]
fn parse_rejects_truncated_file() {
    let mut d = small_container();
    // the last tensor record starts after the header and the two vocab entries
    let record_start = 4 + 24 + (4 + 1 + 4) + (4 + 1 + 4);
    d.truncate(d.len() - 1);
    let mut loader = Loader::new();
    assert_eq!(load(&d, &mut loader), Err(FormatError::UnexpectedEof(record_start)));
}

#[test]
fn parse_rejects_unknown_file_type() {
    let mut d = Vec::new();
    w32(&mut d, 0x67676d6c);
    hparams(&mut d, 0, 0, 6); // reserved profile code
    let mut loader = Loader::new();
    assert_eq!(load(&d, &mut loader), Err(FormatError::UnsupportedFileType(6)));
}

#[test]
fn parse_rejects_bad_dim_count() {
    let mut d = Vec::new();
    w32(&mut d, 0x67676d6c);
    hparams(&mut d, 0, 0, 0);
    tensor_record(&mut d, "x", &[1, 1, 1, 1], 0, &[]);
    let mut loader = Loader::new();
    assert_eq!(
        load(&d, &mut loader),
        Err(FormatError::InvariantBroken(BrokenInvariant::DimCount(4)))
    );
}

#[test]
fn parse_rejects_unaligned_block_dim() {
    let mut d = Vec::new();
    w32(&mut d, 0x67676d6c);
    hparams(&mut d, 0, 0, 0);
    // Q4_0 payload whose fastest dim is not a multiple of the 32-block
    tensor_record(&mut d, "x", &[16], 2, &[]);
    let mut loader = Loader::new();
    assert_eq!(
        load(&d, &mut loader),
        Err(FormatError::InvariantBroken(BrokenInvariant::LeadingDimNotBlockMultiple))
    );
}

#[test]
fn parse_aligned_container_pads_payload() {
    let mut d = Vec::new();
    w32(&mut d, 0x67676a74); // aligned magic
    w32(&mut d, 1); // version
    hparams(&mut d, 0, 0, 0);
    // record header ends at 32 + 12 + 4 + 1 = 49; payload starts at 64
    w32(&mut d, 1); // n_dims
    w32(&mut d, 1); // name_len
    w32(&mut d, 0); // f32
    w32(&mut d, 2); // dim 0
    d.push(b'x');
    while d.len() % 32 != 0 {
        d.push(0);
    }
    let payload_at = d.len();
    d.extend_from_slice(&[9u8; 8]);
    let mut loader = Loader::new();
    load(&d, &mut loader).unwrap();
    assert_eq!(loader.container_type, ContainerType::Ggjt);
    assert_eq!(loader.tensors[0].start_offset, payload_at);
}

#[test]
fn parse_rejects_negative_count_field() {
    let mut d = Vec::new();
    w32(&mut d, 0x67676d6c);
    w32(&mut d, 0x8000_0000); // n_vocab reads back negative
    for _ in 0..5 {
        w32(&mut d, 0);
    }
    let mut loader = Loader::new();
    assert_eq!(load(&d, &mut loader), Err(FormatError::InvalidIntegerConversion));
}

#[test]
fn parse_rejects_unknown_element_type() {
    let mut d = Vec::new();
    w32(&mut d, 0x67676d6c);
    hparams(&mut d, 0, 0, 0);
    tensor_record(&mut d, "x", &[4], 6, &[]);
    let mut loader = Loader::new();
    assert_eq!(load(&d, &mut loader), Err(FormatError::UnsupportedElementType(6)));
}

#[test]
fn parse_rejects_invalid_utf8_name() {
    let mut d = Vec::new();
    w32(&mut d, 0x67676d6c);
    hparams(&mut d, 0, 0, 0);
    w32(&mut d, 1); // n_dims
    w32(&mut d, 1); // name_len
    w32(&mut d, 0); // f32
    w32(&mut d, 0); // dim 0
    d.push(0xFF); // not UTF-8
    let mut loader = Loader::new();
    assert_eq!(load(&d, &mut loader), Err(FormatError::InvalidUtf8));
}

#[test]
fn element_type_block_shapes() {
    assert_eq!(ElementType::F32.block_size(), 1);
    assert_eq!(ElementType::F32.type_size(), 4);
    assert!(!ElementType::F16.is_quantized());
    assert!(ElementType::Q4_0.is_quantized());
    assert_eq!(ElementType::Q4_0.block_size(), 32);
    assert_eq!(ElementType::Q4_0.type_size(), 20);
    assert_eq!(ElementType::Q4_2.block_size(), 16);
    assert_eq!(ElementType::Q8_0.type_size(), 36);
}
