use nydus_dedup::BlobDescriptor;
use nydus_dedup::CasError;
use nydus_dedup::CasMgr;
use nydus_dedup::ChunkDigest;
use nydus_dedup::ChunkRecord;
use nydus_dedup::CompressionAlgorithm;
use nydus_dedup::DedupPlan;
use nydus_dedup::DigestAlgorithm;
use nydus_dedup::chunk_key;

fn test_blob(id: &str) -> BlobDescriptor {
    BlobDescriptor::new(
        String::from(id),
        1,
        DigestAlgorithm::Sha256,
        CompressionAlgorithm::Lz4Block,
        0,
    )
}

fn test_chunk(byte: u8, size: u32, offset: u64) -> ChunkRecord {
    ChunkRecord::new(
        ChunkDigest::new(DigestAlgorithm::Sha256, [byte; 32]),
        size,
        offset,
        1,
    )
}

fn zero_chunk(size: u32) -> ChunkRecord {
    ChunkRecord::new(ChunkDigest::default(), size, 0, 1)
}

#[test]
fn test_cas_error_display() {
    let io_err = CasError::Io(String::from("test"));
    assert!(io_err.message().contains("test"));

    let db_err = CasError::Db(String::from("query failed"));
    assert!(!db_err.message().is_empty());
}

#[test]
fn test_cas_mgr_new() {
    let mgr = CasMgr::new();
    assert!(mgr.gc_candidates().is_empty());
}

#[test]
fn test_chunk_key_with_default_digest() {
    let blob = test_blob("test");
    let chunk = zero_chunk(8192);

    let key = chunk_key(&blob, &chunk);
    assert!(key.is_empty());
}

#[test]
fn test_chunk_key_with_valid_digest() {
    let blob = test_blob("test");
    let chunk = test_chunk(0xAA, 8192, 0);

    let key = chunk_key(&blob, &chunk);
    assert!(!key.is_empty());
    assert!(key.contains(":"));
}

#[test]
fn test_chunk_key_format() {
    let blob = test_blob("test");
    let chunk = test_chunk(0xAA, 8192, 0);

    let key = chunk_key(&blob, &chunk);
    let expected = format!("sha256:{}", "aa".repeat(32));
    assert_eq!(key, expected);
}

#[test]
fn test_chunk_key_distinguishes_algorithms() {
    // The algorithm-name prefix keeps keys of different digest
    // algorithms apart even for identical digest bytes.
    let sha_blob = test_blob("a");
    let blake_blob = BlobDescriptor::new(
        String::from("a"),
        1,
        DigestAlgorithm::Blake3,
        CompressionAlgorithm::Lz4Block,
        0,
    );
    let chunk = test_chunk(0x11, 64, 0);
    let k1 = chunk_key(&sha_blob, &chunk);
    let k2 = chunk_key(&blake_blob, &chunk);
    assert_ne!(k1, k2);
    assert!(k1.starts_with("sha256:"));
    assert!(k2.starts_with("blake3:"));
}

#[test]
fn test_record_chunk_raw() {
    let mut mgr = CasMgr::new();

    let chunk_id = "test_chunk_id";
    let path = "/tmp/test_blob";
    let offset = 4096u64;

    let result = mgr.record_chunk_raw(chunk_id, path, offset);
    assert!(result.is_ok());
}

#[test]
fn test_cas_chunk_op() {
    // Recording a chunk and preparing its dedup yields a copy plan of
    // exactly the chunk's uncompressed size, from the recorded offset of
    // the recorded path to the chunk's own uncompressed offset.
    let mut mgr = CasMgr::new();
    let src_path = "/cache/blobs/blob-3";
    let blob = test_blob(src_path);
    let chunk = test_chunk(3, 8192, 0);

    mgr.record_chunk(&blob, &chunk, src_path).unwrap();

    match mgr.dedup_prepare(&blob, &chunk) {
        DedupPlan::Copy { path, src_offset, dst_offset, size, cached } => {
            assert_eq!(path, src_path);
            assert_eq!(src_offset, 0);
            assert_eq!(dst_offset, 0);
            assert_eq!(size, 8192);
            assert!(!cached);
        }
        DedupPlan::Skip => panic!("expected a copy plan"),
    }
}

#[test]
fn test_cas_dedup_chunk_failed() {
    // A chunk whose digest is the zero value is never served locally.
    let mgr = CasMgr::new();
    let blob = test_blob("test_blob");
    let chunk = zero_chunk(8192);

    assert!(matches!(mgr.dedup_prepare(&blob, &chunk), DedupPlan::Skip));
}

#[test]
fn test_dedup_zero_digest_after_record() {
    // Even over a populated index, the zero digest is skipped without a
    // lookup, and recording it is a successful no-op.
    let mut mgr = CasMgr::new();
    let blob = test_blob("blob");
    mgr.record_chunk_raw("sha256:ff", "/data/blob", 0).unwrap();

    let chunk = zero_chunk(4096);
    assert!(mgr.record_chunk(&blob, &chunk, "/data/blob2").is_ok());
    assert!(matches!(mgr.dedup_prepare(&blob, &chunk), DedupPlan::Skip));
    assert_eq!(mgr.gc_candidates().len(), 1);
}

#[test]
fn test_cas_dedup_chunk_with_nonexistent_source() {
    let mut mgr = CasMgr::new();

    mgr.record_chunk_raw("test:chunk123", "/nonexistent/path", 0).unwrap();

    let blob = test_blob("test_blob");
    let chunk = test_chunk(0x42, 8192, 0);

    // The chunk's own key is not recorded, so no local copy is offered.
    assert!(matches!(mgr.dedup_prepare(&blob, &chunk), DedupPlan::Skip));
}

#[test]
fn test_invalidate_path_heals_index() {
    // When a recorded file turns out to be gone, its rows are deleted
    // and the next dedup of the same chunk misses.
    let mut mgr = CasMgr::new();
    let src_path = "/cache/blobs/gone";
    let blob = test_blob(src_path);
    let chunk = test_chunk(5, 4096, 0);

    mgr.record_chunk(&blob, &chunk, src_path).unwrap();
    assert!(matches!(mgr.dedup_prepare(&blob, &chunk), DedupPlan::Copy { .. }));

    mgr.invalidate_path(src_path);
    assert!(matches!(mgr.dedup_prepare(&blob, &chunk), DedupPlan::Skip));
    assert!(mgr.gc_candidates().is_empty());
}

#[test]
fn test_record_chunk_with_empty_key() {
    let mut mgr = CasMgr::new();

    let blob = test_blob("test");
    let chunk = zero_chunk(8192);

    let result = mgr.record_chunk(&blob, &chunk, "/tmp/file");
    assert!(result.is_ok());
    assert!(mgr.gc_candidates().is_empty());
}

#[test]
fn test_cas_gc() {
    let mut mgr = CasMgr::new();
    let blob_path = "/cache/blobs/deleted";
    let blob = test_blob(blob_path);
    let chunk = test_chunk(3, 8192, 0);
    mgr.record_chunk(&blob, &chunk, blob_path).unwrap();

    let all_blobs_before_gc = mgr.gc_candidates();
    assert_eq!(all_blobs_before_gc.len(), 1);

    // The backing file is gone: garbage collection removes every row
    // that references it.
    mgr.gc_apply(&all_blobs_before_gc).unwrap();

    let all_blobs_after_gc = mgr.gc_candidates();
    assert_eq!(all_blobs_after_gc.len(), 0);
    assert!(matches!(mgr.dedup_prepare(&blob, &chunk), DedupPlan::Skip));
}

#[test]
fn test_cas_gc_with_existing_files() {
    let mut mgr = CasMgr::new();
    let blob_path = "/cache/blobs/alive";
    let blob = test_blob(blob_path);
    let chunk = test_chunk(5, 8192, 0);
    mgr.record_chunk(&blob, &chunk, blob_path).unwrap();

    // Nothing is missing on disk, so the index keeps its rows.
    let missing: Vec<String> = Vec::new();
    mgr.gc_apply(&missing).unwrap();

    let all_blobs_after_gc = mgr.gc_candidates();
    assert_eq!(all_blobs_after_gc.len(), 1);
    assert!(matches!(mgr.dedup_prepare(&blob, &chunk), DedupPlan::Copy { .. }));
}

#[test]
fn test_gc_keeps_other_paths() {
    // Collecting one missing path leaves rows of other paths untouched.
    let mut mgr = CasMgr::new();
    let gone = test_blob("/cache/blobs/gone");
    let alive = test_blob("/cache/blobs/alive");
    let c1 = test_chunk(1, 4096, 0);
    let c2 = test_chunk(2, 4096, 512);
    mgr.record_chunk(&gone, &c1, "/cache/blobs/gone").unwrap();
    mgr.record_chunk(&alive, &c2, "/cache/blobs/alive").unwrap();

    mgr.gc_apply(&vec![String::from("/cache/blobs/gone")]).unwrap();

    assert!(matches!(mgr.dedup_prepare(&gone, &c1), DedupPlan::Skip));
    match mgr.dedup_prepare(&alive, &c2) {
        DedupPlan::Copy { path, src_offset, dst_offset, size, .. } => {
            assert_eq!(path, "/cache/blobs/alive");
            assert_eq!(src_offset, 512);
            assert_eq!(dst_offset, 512);
            assert_eq!(size, 4096);
        }
        DedupPlan::Skip => panic!("expected a copy plan"),
    }
    assert_eq!(mgr.gc_candidates(), vec![String::from("/cache/blobs/alive")]);
}

#[test]
fn test_export_rows() {
    let mut mgr = CasMgr::new();
    mgr.record_chunk_raw("sha256:01", "/data/a", 16).unwrap();
    mgr.record_chunk_raw("sha256:02", "/data/b", 32).unwrap();
    // Re-recording a key keeps one row with the newest location.
    mgr.record_chunk_raw("sha256:01", "/data/c", 48).unwrap();

    let mut rows = mgr.export_rows();
    rows.sort();
    assert_eq!(
        rows,
        vec![
            (String::from("sha256:01"), String::from("/data/c"), 48),
            (String::from("sha256:02"), String::from("/data/b"), 32),
        ]
    );
}

#[test]
fn test_handle_cache_noted() {
    let mut mgr = CasMgr::new();
    let src_path = "/cache/blobs/blob-7";
    let blob = test_blob(src_path);
    let chunk = test_chunk(7, 1024, 64);
    mgr.record_chunk(&blob, &chunk, src_path).unwrap();

    match mgr.dedup_prepare(&blob, &chunk) {
        DedupPlan::Copy { cached, .. } => assert!(!cached),
        DedupPlan::Skip => panic!("expected a copy plan"),
    }
    mgr.note_handle_opened(String::from(src_path));
    match mgr.dedup_prepare(&blob, &chunk) {
        DedupPlan::Copy { cached, .. } => assert!(cached),
        DedupPlan::Skip => panic!("expected a copy plan"),
    }
}
