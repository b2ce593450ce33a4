use primitive_engineering::plugins::game_world::utils::saves::{decode_saved, encode_for_save};

#[test]
fn uncompressed_save_keeps_bytes() {
    let bytes = vec![1u8, 2, 3, 250];
    let written = encode_for_save(&bytes, false).unwrap();
    assert_eq!(written, bytes);
    assert_eq!(decode_saved(&written, false), Some(bytes));
}

#[test]
fn compressed_save_round_trip() {
    let bytes: Vec<u8> = (0..1000u32).map(|i| (i % 7) as u8).collect();
    let written = encode_for_save(&bytes, true).unwrap();
    assert_ne!(written, bytes);
    assert!(written.len() < bytes.len());
    assert_eq!(written, zstd::stream::encode_all(&bytes[..], 0).unwrap());
    assert_eq!(decode_saved(&written, true), Some(bytes));
}

#[test]
fn compressed_empty_save_round_trip() {
    let written = encode_for_save(&[], true).unwrap();
    assert!(!written.is_empty());
    assert_eq!(decode_saved(&written, true), Some(vec![]));
}

#[test]
fn corrupt_compressed_save_is_refused() {
    assert_eq!(decode_saved(&[1, 2, 3, 4, 5], true), None);
    assert_eq!(decode_saved(&[1, 2, 3, 4, 5], false), Some(vec![1, 2, 3, 4, 5]));
}
