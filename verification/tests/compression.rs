use ethos_protocol::compression::{
    compress_metadata, decompress_metadata, is_compressed, CompressionError, COMPRESSION_MAGIC,
};

#[test]
fn test_compression_magic() {
    assert_eq!(COMPRESSION_MAGIC, 0xC1);
}

#[test]
fn compress_then_decompress_gives_back_the_metadata() {
    let metadata = br#"{"name":"badge","level":3,"tags":["a","b"]}"#.to_vec();
    let compressed = compress_metadata(&metadata, 4096).unwrap();
    assert!(is_compressed(&compressed));
    assert_eq!(compressed[0], 0xC1);
    assert_eq!(compressed[1], 1);
    assert_eq!(compressed.len(), metadata.len() + 2);
    let restored = decompress_metadata(&compressed, 4096).unwrap();
    assert_eq!(restored, metadata);
}

#[test]
fn delta_encoding_stores_byte_differences() {
    let compressed = compress_metadata(&[10, 12, 9], 4096).unwrap();
    assert_eq!(compressed, vec![0xC1, 1, 10, 2, 0xFD]);
}

#[test]
fn empty_metadata_is_refused() {
    assert_eq!(compress_metadata(&[], 4096), Err(CompressionError::EmptyMetadata));
}

#[test]
fn run_length_fallback_when_delta_is_too_large() {
    let metadata = vec![7u8; 100];
    let compressed = compress_metadata(&metadata, 50).unwrap();
    assert_eq!(compressed, vec![0xC1, 0, 100, 7]);
    assert_eq!(decompress_metadata(&compressed, 4096).unwrap(), metadata);
}

#[test]
fn output_too_large_when_both_encodings_overflow() {
    let metadata: Vec<u8> = (0..100u8).collect();
    assert_eq!(compress_metadata(&metadata, 10), Err(CompressionError::OutputTooLarge));
}

#[test]
fn decompress_rejects_unmarked_or_truncated_data() {
    assert_eq!(decompress_metadata(&[], 4096), Err(CompressionError::InvalidCompressedData));
    assert_eq!(decompress_metadata(&[0x00, 1, 2], 4096), Err(CompressionError::InvalidCompressedData));
    assert_eq!(decompress_metadata(&[0xC1], 4096), Err(CompressionError::InvalidCompressedData));
    assert_eq!(decompress_metadata(&[0xC1, 0, 3], 4096), Err(CompressionError::InvalidCompressedData));
}

#[test]
fn decompress_respects_the_size_limit() {
    assert_eq!(decompress_metadata(&[0xC1, 0, 10, 1], 5), Err(CompressionError::OutputTooLarge));
    assert_eq!(decompress_metadata(&[0xC1, 1, 1, 1, 1], 2), Err(CompressionError::OutputTooLarge));
}

#[test]
fn an_output_of_exactly_the_limit_is_allowed() {
    assert_eq!(decompress_metadata(&[0xC1, 0x00, 0x04, 0x41], 4), Ok(b"AAAA".to_vec()));
    assert_eq!(decompress_metadata(&[0xC1, 1, 1, 1, 1], 3), Ok(vec![1, 2, 3]));
    assert_eq!(decompress_metadata(&[0xC1, 0x00, 0x05, 0x41], 4), Err(CompressionError::OutputTooLarge));
    // The compressed form may be exactly the limit too.
    assert_eq!(compress_metadata(&[10, 12, 9], 5), Ok(vec![0xC1, 1, 10, 2, 0xFD]));
    assert_eq!(compress_metadata(&[7, 7, 7], 4), Ok(vec![0xC1, 0, 3, 7]));
    assert_eq!(compress_metadata(&[7, 7, 7], 3), Err(CompressionError::OutputTooLarge));
}

#[test]
fn is_compressed_checks_the_first_byte() {
    assert!(!is_compressed(&[]));
    assert!(!is_compressed(b"{}"));
    assert!(is_compressed(&[0xC1]));
}

#[test]
fn compression_error_codes() {
    assert_eq!(CompressionError::EmptyMetadata.code(), 200);
    assert_eq!(CompressionError::InvalidCompressedData.code(), 201);
    assert_eq!(CompressionError::OutputTooLarge.code(), 202);
}
