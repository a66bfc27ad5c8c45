use ext_infer::embedding::{check_same_dimensions, pack_le};

#[test]
fn packs_words_little_endian() {
    let words = vec![1.0f32.to_bits(), (-2.5f32).to_bits(), 0x01020304];
    let bytes = pack_le(&words);
    let expected: Vec<u8> = words.iter().flat_map(|w| w.to_le_bytes()).collect();
    assert_eq!(bytes, expected);
    assert_eq!(&bytes[0..4], &[0x00, 0x00, 0x80, 0x3f]);
    assert_eq!(&bytes[8..12], &[0x04, 0x03, 0x02, 0x01]);
    assert!(pack_le(&vec![]).is_empty());
}

#[test]
fn dimensions_must_agree() {
    assert!(check_same_dimensions(384, 384).is_ok());
    assert_eq!(
        check_same_dimensions(384, 768).unwrap_err().to_string(),
        "inference failed: cannot compare embeddings of different dimensions: 384 vs 768"
    );
}
