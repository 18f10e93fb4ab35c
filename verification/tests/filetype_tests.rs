use llm_base::filetype::FileType;

#[test]
fn file_type_codes_round_trip() {
    let cases: Vec<(i32, FileType)> = vec![
        (0, FileType::F32),
        (1, FileType::MostlyF16),
        (2, FileType::MostlyQ4_0),
        (3, FileType::MostlyQ4_1),
        (4, FileType::MostlyQ4_1SomeF16),
        (5, FileType::MostlyQ4_2),
        (7, FileType::MostlyQ8_0),
        (8, FileType::MostlyQ5_0),
        (9, FileType::MostlyQ5_1),
    ];
    for (code, ft) in cases {
        assert_eq!(FileType::try_from(code), Ok(ft));
        assert_eq!(i32::from(ft), code);
    }
}

#[test]
fn file_type_reserved_codes_fail() {
    assert_eq!(FileType::try_from(6), Err(()));
    assert_eq!(FileType::try_from(10), Err(()));
    assert_eq!(FileType::try_from(-1), Err(()));
}

#[test]
fn file_type_default_and_labels() {
    let d: FileType = Default::default();
    assert_eq!(d, FileType::MostlyF16);
    assert_eq!(FileType::F32.label(), "f32");
    assert_eq!(FileType::MostlyQ4_1SomeF16.label(), "q4_1_with_f16");
    assert_eq!(FileType::MostlyQ8_0.label(), "q8_0");
}
