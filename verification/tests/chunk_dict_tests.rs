use nydus_dedup::BlobDescriptor;
use nydus_dedup::BootstrapSource;
use nydus_dedup::ChunkDict;
use nydus_dedup::ChunkDigest;
use nydus_dedup::ChunkRecord;
use nydus_dedup::CompressionAlgorithm;
use nydus_dedup::DictError;
use nydus_dedup::DigestAlgorithm;
use nydus_dedup::DigestWithBlobIndex;
use nydus_dedup::HashChunkDict;
use nydus_dedup::RafsConfig;
use nydus_dedup::RafsVersion;
use nydus_dedup::parse_chunk_dict_arg;

fn chunk_with(byte: u8, size: u32) -> ChunkRecord {
    ChunkRecord::new(
        ChunkDigest::new(DigestAlgorithm::Sha256, [byte; 32]),
        size,
        0,
        0,
    )
}

#[test]
fn test_null_dict() {
    let mut dict = ();

    let chunk = ChunkRecord::new(ChunkDigest::default(), 0, 0, 0);
    dict.add_chunk(chunk, DigestAlgorithm::Sha256);
    assert!(dict.get_chunk(&chunk.digest, 0).is_none());
    assert_eq!(dict.get_blobs().len(), 0);
    assert_eq!(dict.get_real_blob_idx(5).unwrap(), 5);
}

#[test]
fn test_null_dict_digester() {
    let dict = ();
    assert_eq!(dict.digester(), DigestAlgorithm::Sha256);
}

#[test]
fn test_null_dict_set_blob_idx_fails() {
    let mut dict = ();
    let r = dict.set_real_blob_idx(0, 5);
    assert!(matches!(r, Err(DictError::DisabledDictUpdate)));
}

#[test]
fn test_parse_chunk_dict_arg() {
    let result = parse_chunk_dict_arg("bootstrap=/path/to/file").unwrap();
    assert_eq!(result, "/path/to/file");

    let result = parse_chunk_dict_arg("/path/to/file").unwrap();
    assert_eq!(result, "/path/to/file");

    let result = parse_chunk_dict_arg("~/image/image.boot").unwrap();
    assert_eq!(result, "~/image/image.boot");

    let result = parse_chunk_dict_arg("boltdb=/var/db/dict.db");
    assert!(result.is_err());
    assert!(result
        .unwrap_err()
        .message()
        .contains("invalid chunk dict type"));
}

#[test]
fn test_hash_chunk_dict_new() {
    let dict = HashChunkDict::new(DigestAlgorithm::Blake3);
    assert_eq!(dict.digester(), DigestAlgorithm::Blake3);
    assert_eq!(dict.entry_count(), 0);
    assert_eq!(dict.get_blobs().len(), 0);
}

#[test]
fn test_hash_chunk_dict_add_chunk() {
    let mut dict = HashChunkDict::new(DigestAlgorithm::Sha256);
    let chunk1 = ChunkRecord::new(ChunkDigest::default(), 0, 0, 0);

    dict.add_chunk(chunk1, DigestAlgorithm::Sha256);
    assert_eq!(dict.entry_count(), 1);
    assert_eq!(dict.ref_count(&chunk1.digest), Some(1));

    dict.add_chunk(chunk1, DigestAlgorithm::Sha256);
    assert_eq!(dict.entry_count(), 1);
    assert_eq!(dict.ref_count(&chunk1.digest), Some(2));

    let chunk2 = ChunkRecord::new(
        ChunkDigest::new(DigestAlgorithm::Blake3, [7u8; 32]),
        0,
        0,
        0,
    );
    dict.add_chunk(chunk2, DigestAlgorithm::Blake3);
    assert_eq!(dict.entry_count(), 1);
}

#[test]
fn test_hash_chunk_dict_get_chunk() {
    let mut dict = HashChunkDict::new(DigestAlgorithm::Sha256);
    let chunk = ChunkRecord::new(ChunkDigest::default(), 0, 0, 0);

    assert!(dict.get_chunk(&chunk.digest, 0).is_none());

    dict.add_chunk(chunk, DigestAlgorithm::Sha256);
    assert!(dict.get_chunk(&chunk.digest, 0).is_some());
    assert!(dict.get_chunk(&chunk.digest, chunk.uncompressed_size).is_some());
}

#[test]
fn test_get_chunk_size_rules() {
    // A stored size of 0 is the size-agnostic wildcard: any queried size
    // hits.  A non-zero stored size hits only on an exact match.
    let mut dict = HashChunkDict::new(DigestAlgorithm::Sha256);
    let wildcard = chunk_with(1, 0);
    let sized = chunk_with(2, 8192);
    dict.add_chunk(wildcard, DigestAlgorithm::Sha256);
    dict.add_chunk(sized, DigestAlgorithm::Sha256);

    assert!(dict.get_chunk(&wildcard.digest, 0).is_some());
    assert!(dict.get_chunk(&wildcard.digest, 4096).is_some());
    assert!(dict.get_chunk(&wildcard.digest, u32::MAX).is_some());
    assert!(dict.get_chunk(&sized.digest, 8192).is_some());
    assert!(dict.get_chunk(&sized.digest, 4096).is_none());
    assert!(dict.get_chunk(&sized.digest, 0).is_none());
}

#[test]
fn test_hash_chunk_dict_blob_management() {
    let mut dict = HashChunkDict::new(DigestAlgorithm::Sha256);

    assert_eq!(dict.get_blobs().len(), 0);
    assert!(dict.get_blob_by_inner_idx(0).is_none());

    dict.set_real_blob_idx(0, 5).unwrap();
    assert_eq!(dict.get_real_blob_idx(0), Some(5));

    dict.set_real_blob_idx(1, 10).unwrap();
    assert_eq!(dict.get_real_blob_idx(1), Some(10));

    assert_eq!(dict.get_real_blob_idx(99), None);
}

#[test]
fn test_digest_with_blob_index() {
    let digest = ChunkDigest::default();
    let d1 = DigestWithBlobIndex(digest, 0, None);
    let d2 = DigestWithBlobIndex(digest, 1, None);
    let d3 = DigestWithBlobIndex(digest, 0, Some(5));

    assert_ne!(d1, d2);
    assert_ne!(d1, d3);
    assert!(d1 != d2);
}

fn blob(id: &str, index: u32, digester: DigestAlgorithm) -> BlobDescriptor {
    BlobDescriptor::new(
        String::from(id),
        index,
        digester,
        CompressionAlgorithm::Lz4Block,
        0,
    )
}

#[test]
fn test_from_bootstrap_incompatible() {
    let source = BootstrapSource {
        version: RafsVersion::V5,
        digester: DigestAlgorithm::Sha256,
        has_inlined_chunk_digest: false,
        chunk_table_size: 0,
        blobs: vec![],
        tree_chunks: vec![],
        table_chunks: vec![],
    };
    let config = RafsConfig { version: RafsVersion::V6, digester: DigestAlgorithm::Sha256 };
    let r = HashChunkDict::from_bootstrap(source, &config);
    assert!(matches!(r, Err(DictError::IncompatibleBootstrap)));

    let source = BootstrapSource {
        version: RafsVersion::V6,
        digester: DigestAlgorithm::Blake3,
        has_inlined_chunk_digest: false,
        chunk_table_size: 0,
        blobs: vec![],
        tree_chunks: vec![],
        table_chunks: vec![],
    };
    let config = RafsConfig { version: RafsVersion::V6, digester: DigestAlgorithm::Sha256 };
    let r = HashChunkDict::from_bootstrap(source, &config);
    assert!(matches!(r, Err(DictError::IncompatibleBootstrap)));
}

#[test]
fn test_from_bootstrap_bad_table_size() {
    // 100 bytes is not a multiple of the 80-byte record size.
    let source = BootstrapSource {
        version: RafsVersion::V6,
        digester: DigestAlgorithm::Sha256,
        has_inlined_chunk_digest: false,
        chunk_table_size: 100,
        blobs: vec![],
        tree_chunks: vec![],
        table_chunks: vec![],
    };
    let config = RafsConfig { version: RafsVersion::V6, digester: DigestAlgorithm::Sha256 };
    let r = HashChunkDict::from_bootstrap(source, &config);
    assert!(matches!(r, Err(DictError::InvalidChunkTableSize)));
}

#[test]
fn test_from_bootstrap_v6_table() {
    let source = BootstrapSource {
        version: RafsVersion::V6,
        digester: DigestAlgorithm::Sha256,
        has_inlined_chunk_digest: false,
        chunk_table_size: 160,
        blobs: vec![blob("blob-1", 0, DigestAlgorithm::Sha256)],
        tree_chunks: vec![],
        table_chunks: vec![chunk_with(1, 4096), chunk_with(2, 4096)],
    };
    let config = RafsConfig { version: RafsVersion::V6, digester: DigestAlgorithm::Sha256 };
    let dict = HashChunkDict::from_bootstrap(source, &config).unwrap();
    assert_eq!(dict.entry_count(), 2);
    assert_eq!(dict.get_blobs().len(), 1);
    assert_eq!(dict.get_blob_by_inner_idx(0).unwrap().blob_id, "blob-1");
    assert!(dict.get_chunk(&chunk_with(1, 0).digest, 4096).is_some());
}

#[test]
fn test_from_commandline_arg() {
    let source = || BootstrapSource {
        version: RafsVersion::V6,
        digester: DigestAlgorithm::Sha256,
        has_inlined_chunk_digest: false,
        chunk_table_size: 80,
        blobs: vec![],
        tree_chunks: vec![],
        table_chunks: vec![chunk_with(4, 1024)],
    };
    let config = RafsConfig { version: RafsVersion::V6, digester: DigestAlgorithm::Sha256 };

    let dict = HashChunkDict::from_commandline_arg("bootstrap=/a/b", source(), &config).unwrap();
    assert_eq!(dict.entry_count(), 1);

    let r = HashChunkDict::from_commandline_arg("boltdb=/a/b", source(), &config);
    assert!(matches!(r, Err(DictError::InvalidDictType(_))));
}

#[test]
fn test_from_bootstrap_v5_tree() {
    let source = BootstrapSource {
        version: RafsVersion::V5,
        digester: DigestAlgorithm::Blake3,
        has_inlined_chunk_digest: false,
        chunk_table_size: 0,
        blobs: vec![],
        tree_chunks: vec![
            ChunkRecord::new(ChunkDigest::new(DigestAlgorithm::Blake3, [9u8; 32]), 512, 0, 0),
        ],
        table_chunks: vec![],
    };
    let config = RafsConfig { version: RafsVersion::V5, digester: DigestAlgorithm::Blake3 };
    let dict = HashChunkDict::from_bootstrap(source, &config).unwrap();
    assert_eq!(dict.entry_count(), 1);
    let digest = ChunkDigest::new(DigestAlgorithm::Blake3, [9u8; 32]);
    assert_eq!(dict.ref_count(&digest), Some(1));
}
