//! Per-chunk metadata and blob descriptors: the value types shared by the
//! build-time dictionary and the runtime store manager.

use vstd::prelude::*;

use crate::digest::ChunkDigest;
use crate::digest::DigestAlgorithm;

verus! {

/// Compression applied to a blob's chunk data.  The dedup subsystem never
/// inspects compressed bytes; this tag travels with blob metadata only.
#[derive(Clone, Copy, Debug, PartialEq, Eq, Structural)]
pub enum CompressionAlgorithm {
    Uncompressed,
    Lz4Block,
    Gzip,
    Zstd,
}

/// Immutable metadata of one chunk: its content digest, its uncompressed
/// size, the ordinal of the blob it came from, and its byte offset in the
/// uncompressed view of that blob.
#[derive(Clone, Copy, Debug, Eq)]
pub struct ChunkRecord {
    pub digest: ChunkDigest,
    pub uncompressed_size: u32,
    pub uncompressed_offset: u64,
    pub blob_index: u32,
}

impl PartialEq for ChunkRecord {
    fn eq(&self, other: &ChunkRecord) -> (r: bool) {
        self.digest == other.digest && self.uncompressed_size == other.uncompressed_size
            && self.uncompressed_offset == other.uncompressed_offset && self.blob_index
            == other.blob_index
    }
}

impl vstd::std_specs::cmp::PartialEqSpecImpl for ChunkRecord {
    open spec fn obeys_eq_spec() -> bool {
        true
    }

    open spec fn eq_spec(&self, other: &ChunkRecord) -> bool {
        self.digest == other.digest && self.uncompressed_size == other.uncompressed_size
            && self.uncompressed_offset == other.uncompressed_offset && self.blob_index
            == other.blob_index
    }
}

impl ChunkRecord {
    /// Creates a chunk record.
    pub fn new(digest: ChunkDigest, uncompressed_size: u32, uncompressed_offset: u64, blob_index: u32) -> (r: ChunkRecord)
        ensures
            r.digest == digest,
            r.uncompressed_size == uncompressed_size,
            r.uncompressed_offset == uncompressed_offset,
            r.blob_index == blob_index,
    {
        ChunkRecord { digest, uncompressed_size, uncompressed_offset, blob_index }
    }
}

/// Metadata of a content-addressed container of chunk data: a stable
/// identifier (typically a path or blob id), the digest and compression
/// algorithms its chunks use, feature flags, and its ordinal index.
#[derive(Debug)]
pub struct BlobDescriptor {
    pub blob_id: String,
    pub blob_index: u32,
    pub digester: DigestAlgorithm,
    pub compressor: CompressionAlgorithm,
    pub features: u32,
}

/// Field-wise equality of blob descriptors, comparing the identifier by
/// its characters.
pub open spec fn blob_eq(a: BlobDescriptor, b: BlobDescriptor) -> bool {
    a.blob_id@ == b.blob_id@ && a.blob_index == b.blob_index && a.digester == b.digester
        && a.compressor == b.compressor && a.features == b.features
}

impl BlobDescriptor {
    /// Returns a field-wise copy of this descriptor.
    pub fn duplicate(&self) -> (r: BlobDescriptor)
        ensures
            blob_eq(r, *self),
    {
        BlobDescriptor {
            blob_id: self.blob_id.clone(),
            blob_index: self.blob_index,
            digester: self.digester,
            compressor: self.compressor,
            features: self.features,
        }
    }

    /// Creates a blob descriptor.
    pub fn new(
        blob_id: String,
        blob_index: u32,
        digester: DigestAlgorithm,
        compressor: CompressionAlgorithm,
        features: u32,
    ) -> (r: BlobDescriptor)
        ensures
            r.blob_id == blob_id,
            r.blob_index == blob_index,
            r.digester == digester,
            r.compressor == compressor,
            r.features == features,
    {
        BlobDescriptor { blob_id, blob_index, digester, compressor, features }
    }
}

/// A chunk digest paired with the ordinal of the blob holding the chunk
/// and, optionally, the chunk's index inside a batch.  Orders chunks for
/// deterministic emission.
#[derive(Clone, Copy, Debug, Eq, Hash)]
pub struct DigestWithBlobIndex(pub ChunkDigest, pub u32, pub Option<u32>);

impl PartialEq for DigestWithBlobIndex {
    fn eq(&self, other: &DigestWithBlobIndex) -> (r: bool) {
        self.0 == other.0 && self.1 == other.1 && match (self.2, other.2) {
            (Some(a), Some(b)) => a == b,
            (None, None) => true,
            _ => false,
        }
    }
}

impl vstd::std_specs::cmp::PartialEqSpecImpl for DigestWithBlobIndex {
    open spec fn obeys_eq_spec() -> bool {
        true
    }

    open spec fn eq_spec(&self, other: &DigestWithBlobIndex) -> bool {
        self.0 == other.0 && self.1 == other.1 && self.2 == other.2
    }
}

} // verus!
