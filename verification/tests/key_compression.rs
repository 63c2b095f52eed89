use graphdb::compression::{
    CompressionConfig, CompressionType, DeltaCompressor, DictionaryCompressor, IndexCompressor, PrefixCompressor,
};
use graphdb::error::StorageError;

#[test]
fn test_prefix_compressor() {
    let keys = vec![b"prefix_key1".to_vec(), b"prefix_key2".to_vec(), b"prefix_key3".to_vec()];

    let compressor = PrefixCompressor::train(&keys).expect("Training failed");
    assert_eq!(compressor.prefix(), b"prefix_key");

    let compressed = compressor.compress(b"prefix_key4");
    assert!(compressed.len() < b"prefix_key4".len());

    let decompressed = compressor.decompress(&compressed).expect("Decompression failed");
    assert_eq!(decompressed, b"prefix_key4".to_vec());
}

#[test]
fn test_dictionary_compressor() {
    let values = vec![
        b"value1".to_vec(),
        b"value2".to_vec(),
        b"value1".to_vec(),
        b"value1".to_vec(),
        b"value2".to_vec(),
    ];

    let compressor = DictionaryCompressor::train(&values, 2);
    assert!(compressor.dictionary_size() >= 2);

    let compressed = compressor.compress(b"value1");
    assert!(compressed.len() < b"value1".len());

    let decompressed = compressor.decompress(&compressed).expect("Decompression failed");
    assert_eq!(decompressed, b"value1".to_vec());
}

#[test]
fn test_delta_compressor() {
    let compressor = DeltaCompressor::with_base(b"key_prefix_001".to_vec());

    let compressed = compressor.compress(b"key_prefix_002");

    let decompressed = compressor.decompress(&compressed).expect("Decompression failed");
    assert_eq!(decompressed, b"key_prefix_002".to_vec());
}

fn ratio(original: &[Vec<u8>], compressed: &[Vec<u8>]) -> f64 {
    let o: usize = original.iter().map(|v| v.len()).sum();
    let c: usize = compressed.iter().map(|v| v.len()).sum();
    1.0 - (c as f64 / o as f64)
}

#[test]
fn test_index_compressor() {
    let config = CompressionConfig {
        compression_type: CompressionType::Prefix,
        min_prefix_length: 4,
        dictionary_threshold: 100,
    };

    let mut compressor = IndexCompressor::new(config);

    let keys = vec![b"index_key_001".to_vec(), b"index_key_002".to_vec(), b"index_key_003".to_vec()];

    compressor.train_keys(&keys).expect("Training failed");

    let compressed: Vec<Vec<u8>> = keys.iter().map(|k| compressor.compress_key(k)).collect();
    assert!(ratio(&keys, &compressed) > 0.0, "Compression should reduce size");
    for (k, c) in keys.iter().zip(compressed.iter()) {
        assert_eq!(&compressor.decompress_key(c).unwrap(), k);
    }
}

#[test]
fn test_compression_config() {
    let config = CompressionConfig::default();
    assert_eq!(config.compression_type, CompressionType::Prefix);
    assert!(config.is_enabled());

    let disabled_config = CompressionConfig::new().with_compression_type(CompressionType::Disabled);
    assert!(!disabled_config.is_enabled());
}

#[test]
fn prefix_compressor_exact_bytes() {
    let keys = vec![b"abcd1".to_vec(), b"abcd2".to_vec()];
    let c = PrefixCompressor::train(&keys).unwrap();
    assert_eq!(c.prefix_len(), 4);
    assert_eq!(c.compress(b"abcdZ"), vec![0x01, b'Z']);
    assert_eq!(c.compress(b"xyzw1"), vec![0x00, b'x', b'y', b'z', b'w', b'1']);
    assert_eq!(c.compress(b"xyz"), b"xyz".to_vec());
    assert_eq!(c.decompress(&[0x00, b'x']).unwrap(), b"x".to_vec());
}

#[test]
fn prefix_training_edge_cases() {
    let keys = vec![b"ab1".to_vec(), b"ab2".to_vec()];
    assert_eq!(PrefixCompressor::train(&keys).unwrap().prefix(), b"ab");
    assert_eq!(PrefixCompressor::train(&[]).unwrap().prefix_len(), 0);
    let disjoint = vec![b"x1".to_vec(), b"y1".to_vec()];
    assert_eq!(PrefixCompressor::train(&disjoint).unwrap().prefix_len(), 0);
}

#[test]
fn prefix_decompress_flags() {
    let keys = vec![b"prefix_a".to_vec(), b"prefix_b".to_vec()];
    let c = PrefixCompressor::train(&keys).unwrap();
    assert!(c.decompress(&[]).unwrap().is_empty());
    assert!(matches!(c.decompress(&[7, 1]), Err(StorageError::InvalidInput(_))));
}

#[test]
fn dictionary_ids_follow_first_appearance() {
    let values = vec![b"b".to_vec(), b"a".to_vec(), b"b".to_vec(), b"a".to_vec(), b"c".to_vec()];
    let d = DictionaryCompressor::train(&values, 2);
    assert_eq!(d.dictionary_size(), 2);
    assert_eq!(d.compress(b"b"), vec![0x01, 0, 0, 0, 0]);
    assert_eq!(d.compress(b"a"), vec![0x01, 1, 0, 0, 0]);
    assert_eq!(d.compress(b"c"), vec![0x00, 1, 0, b'c']);
    assert!(d.decompress(&[0x01, 9, 0, 0, 0]).is_err());
}

#[test]
fn delta_compressor_without_common_base() {
    let d = DeltaCompressor::with_base(b"abc".to_vec());
    let c = d.compress(b"xy");
    assert_eq!(d.decompress(&c).unwrap(), b"xy".to_vec());
    let mut e = DeltaCompressor::new();
    e.set_base(b"ab".to_vec());
    assert_eq!(e.base(), b"ab");
    let c2 = e.compress(b"abcd");
    assert_eq!(e.decompress(&c2).unwrap(), b"abcd".to_vec());
}

#[test]
fn disabled_index_compressor_keeps_keys() {
    let c = IndexCompressor::disabled();
    assert!(!c.is_enabled());
    assert_eq!(c.compress_key(b"k1"), b"k1".to_vec());
    assert_eq!(c.decompress_key(b"k1").unwrap(), b"k1".to_vec());
}

#[test]
fn dictionary_index_compressor_roundtrip() {
    let config = CompressionConfig::new()
        .with_compression_type(CompressionType::Dictionary)
        .with_dictionary_threshold(2);
    let mut c = IndexCompressor::new(config);
    let keys = vec![b"v1".to_vec(), b"v1".to_vec(), b"v2".to_vec()];
    c.train_keys(&keys).unwrap();
    let packed = c.compress_key(b"v1");
    assert_eq!(packed, vec![0x01, 0, 0, 0, 0]);
    assert_eq!(c.decompress_key(&packed).unwrap(), b"v1".to_vec());
    assert_eq!(c.config().dictionary_threshold, 2);
}
