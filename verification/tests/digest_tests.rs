use nydus_dedup::ChunkDigest;
use nydus_dedup::DigestAlgorithm;
use nydus_dedup::bytes_to_hex;

#[test]
fn test_digest_zero() {
    let zero = ChunkDigest::zero(DigestAlgorithm::Sha256);
    assert!(zero.is_zero());
    assert_eq!(zero, ChunkDigest::default());

    let nonzero = ChunkDigest::new(DigestAlgorithm::Sha256, [1u8; 32]);
    assert!(!nonzero.is_zero());
    assert_ne!(zero, nonzero);
}

#[test]
fn test_digest_algorithm_distinguishes() {
    // Digests of different algorithms are never equal, even with the
    // same raw bytes.
    let a = ChunkDigest::new(DigestAlgorithm::Sha256, [7u8; 32]);
    let b = ChunkDigest::new(DigestAlgorithm::Blake3, [7u8; 32]);
    assert_ne!(a, b);
}

#[test]
fn test_digest_hex() {
    let mut data = [0u8; 32];
    data[0] = 0x01;
    data[1] = 0xab;
    data[31] = 0xff;
    let digest = ChunkDigest::new(DigestAlgorithm::Sha256, data);
    let hex = digest.to_hex();
    assert_eq!(hex.len(), 64);
    assert!(hex.starts_with("01ab"));
    assert!(hex.ends_with("ff"));
    assert_eq!(&hex[4..62], &"00".repeat(29));
}

#[test]
fn test_bytes_to_hex_zero() {
    assert_eq!(bytes_to_hex(&[0u8; 32]), "00".repeat(32));
}

#[test]
fn test_algorithm_names() {
    assert_eq!(DigestAlgorithm::Sha256.name(), "sha256");
    assert_eq!(DigestAlgorithm::Blake3.name(), "blake3");
}
