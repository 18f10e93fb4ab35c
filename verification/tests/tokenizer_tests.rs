use llm_base::session::InferenceError;
use llm_base::vocabulary::{score_from_f32_bits, Vocabulary, SCORE_ONE};

fn tiny_vocab() -> Vocabulary {
    let mut v = Vocabulary::new();
    v.push_token(0, b"a".to_vec(), 0);
    v.push_token(1, b"b".to_vec(), 0);
    v.push_token(2, b"ab".to_vec(), SCORE_ONE);
    v
}

#[test]
fn tokenize_tiny_vocab_ab() {
    let v = tiny_vocab();
    let r = v.tokenize(&b"ab".to_vec(), false).unwrap();
    assert_eq!(r, vec![2]);
}

#[test]
fn tokenize_tiny_vocab_aab() {
    let v = tiny_vocab();
    let r = v.tokenize(&b"aab".to_vec(), false).unwrap();
    assert_eq!(r, vec![0, 2]);
}

#[test]
fn tokenize_uncovered_byte_fails() {
    let v = tiny_vocab();
    let r = v.tokenize(&b"c".to_vec(), false);
    assert_eq!(r, Err(InferenceError::TokenizationFailed));
}

#[test]
fn tokenize_empty_input() {
    let v = tiny_vocab();
    assert_eq!(v.tokenize(&Vec::new(), false).unwrap(), Vec::<i32>::new());
}

#[test]
fn tokenize_prepends_bos() {
    let v = tiny_vocab();
    let r = v.tokenize(&b"ab".to_vec(), true).unwrap();
    assert_eq!(r, vec![1, 2]);
}

#[test]
fn tokenize_ties_prefer_longest_piece() {
    // "a" and "ab" both end a cover of "ab" with equal total score; the
    // longer last piece wins.
    let mut v = Vocabulary::new();
    v.push_token(0, b"a".to_vec(), 0);
    v.push_token(1, b"b".to_vec(), 0);
    v.push_token(2, b"ab".to_vec(), 0);
    assert_eq!(v.tokenize(&b"ab".to_vec(), false).unwrap(), vec![2]);
}

#[test]
fn score_from_float_bits_values() {
    // 1.0f32 is one whole unit of the fixed-point scale.
    assert_eq!(score_from_f32_bits(0x3f80_0000), SCORE_ONE);
    // -2.0f32.
    assert_eq!(score_from_f32_bits(0xc000_0000), -2 * SCORE_ONE);
    // 0.0 and -0.0.
    assert_eq!(score_from_f32_bits(0), 0);
    assert_eq!(score_from_f32_bits(0x8000_0000), 0);
    // 0.5f32.
    assert_eq!(score_from_f32_bits(0x3f00_0000), SCORE_ONE / 2);
    // Positive infinity saturates.
    assert_eq!(score_from_f32_bits(0x7f80_0000), i64::MAX);
}
