use nydus_dedup::Algorithm;
use nydus_dedup::Crc32;

#[test]
fn test_algorithm_display() {
    assert_eq!(Algorithm::NoChecksum.name(), "None");
    assert_eq!(Algorithm::Crc32Iscsi.name(), "Crc32Iscsi");
}

#[test]
fn test_algorithm_default() {
    let algo = Algorithm::default();
    assert_eq!(algo, Algorithm::Crc32Iscsi);
}

#[test]
fn test_algorithm_try_from_u32() {
    assert_eq!(Algorithm::try_from(0u32), Ok(Algorithm::NoChecksum));
    assert_eq!(Algorithm::try_from(1u32), Ok(Algorithm::Crc32Iscsi));
    assert_eq!(Algorithm::try_from(2u32), Err(()));
    assert_eq!(Algorithm::try_from(999u32), Err(()));
}

#[test]
fn test_algorithm_try_from_u64() {
    assert_eq!(Algorithm::try_from(0u64), Ok(Algorithm::NoChecksum));
    assert_eq!(Algorithm::try_from(1u64), Ok(Algorithm::Crc32Iscsi));
    assert_eq!(Algorithm::try_from(2u64), Err(()));
    assert_eq!(Algorithm::try_from(999u64), Err(()));
}

#[test]
fn test_algorithm_code_round_trip() {
    assert_eq!(Algorithm::try_from(Algorithm::NoChecksum.code()), Ok(Algorithm::NoChecksum));
    assert_eq!(Algorithm::try_from(Algorithm::Crc32Iscsi.code()), Ok(Algorithm::Crc32Iscsi));
}

#[test]
fn test_crc32_default() {
    let crc32 = Crc32::default();
    let data = b"123456789";
    let expected_checksum = 0xe3069283;
    assert_eq!(crc32.from_buf(data), expected_checksum);
}

#[test]
fn test_crc32_new_with_none_algorithm() {
    // Algorithm::NoChecksum falls back to Crc32Iscsi.
    let crc32 = Crc32::new(Algorithm::NoChecksum);
    let data = b"123456789";
    let expected_checksum = 0xe3069283;
    assert_eq!(crc32.from_buf(data), expected_checksum);
}

#[test]
fn test_crc32_from_buf() {
    let crc32 = Crc32::new(Algorithm::Crc32Iscsi);
    let data = b"123456789";
    let expected_checksum = 0xe3069283;
    let crc32_result = crc32.from_buf(data);
    assert_eq!(crc32_result, expected_checksum);
}

#[test]
fn test_crc32_from_buf_empty() {
    let crc32 = Crc32::new(Algorithm::Crc32Iscsi);
    let data = b"";
    let crc32_result = crc32.from_buf(data);
    assert_eq!(crc32_result, 0);
}
