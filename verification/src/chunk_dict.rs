//! The build-time chunk dictionary: digest-keyed records of chunks seen
//! in a prior image, letting a builder reuse their storage instead of
//! emitting new copies.

use vstd::prelude::*;
use vstd::string::StrSliceExecFns;
use vstd::string::StringExecFns;

use std::collections::HashMap;

use crate::chunk::blob_eq;
use crate::chunk::BlobDescriptor;
use crate::chunk::ChunkRecord;
use crate::digest::ChunkDigest;
use crate::digest::DigestAlgorithm;

verus! {

broadcast use vstd::std_specs::hash::group_hash_axioms;

/// Byte size of one record in the dense on-disk chunk table.
pub const CHUNK_TABLE_ENTRY_SIZE: u64 = 80;

/// Errors of dictionary parsing and loading.
#[derive(Debug)]
pub enum DictError {
    /// The dictionary argument named a source type that is not supported.
    InvalidDictType(String),
    /// A blob-index mapping was set on the disabled dictionary, which
    /// cannot store one; the caller assumed a populated dictionary.
    DisabledDictUpdate,
    /// The target image's digest algorithm or format version does not
    /// match the configuration the dictionary was requested with.
    IncompatibleBootstrap,
    /// The dense chunk table's byte length is not an exact multiple of
    /// the per-record size, indicating corruption.
    InvalidChunkTableSize,
}

impl DictError {
    /// A human-readable description of the error.
    pub fn message(&self) -> (r: String)
        ensures
            self matches DictError::InvalidDictType(t) ==> r@ == "invalid chunk dict type "@
                + t@,
    {
        match self {
            DictError::InvalidDictType(t) => String::from_str("invalid chunk dict type ").concat(
                t.as_str(),
            ),
            DictError::DisabledDictUpdate => String::from_str(
                "cannot set blob index on a disabled chunk dictionary",
            ),
            DictError::IncompatibleBootstrap => String::from_str(
                "chunk dictionary is not compatible with the target image",
            ),
            DictError::InvalidChunkTableSize => String::from_str("invalid chunk table size"),
        }
    }
}

/// A reference count bumped by one, saturating at the maximum.
pub open spec fn spec_sat_inc(c: u32) -> u32 {
    if c == u32::MAX {
        c
    } else {
        (c + 1) as u32
    }
}

/// The effect of one `add_chunk` call on a dictionary's chunk map: a
/// non-matching digester leaves the map unchanged; a known digest keeps
/// its record and gains a reference; a new digest is stored with count 1.
pub open spec fn spec_add_chunk(
    m: Map<ChunkDigest, (ChunkRecord, u32)>,
    chunk: ChunkRecord,
    digester: DigestAlgorithm,
    dict_digester: DigestAlgorithm,
) -> Map<ChunkDigest, (ChunkRecord, u32)> {
    if digester != dict_digester {
        m
    } else if m.dom().contains(chunk.digest) {
        m.insert(chunk.digest, (m[chunk.digest].0, spec_sat_inc(m[chunk.digest].1)))
    } else {
        m.insert(chunk.digest, (chunk, 1u32))
    }
}

/// The result of a `get_chunk` query on a chunk map: a hit requires the
/// digest to be present and the stored size to be the size-agnostic
/// wildcard 0 or to equal the queried size.
pub open spec fn spec_get_chunk(
    m: Map<ChunkDigest, (ChunkRecord, u32)>,
    digest: ChunkDigest,
    uncompressed_size: u32,
) -> Option<ChunkRecord> {
    if m.dom().contains(digest) {
        if m[digest].0.uncompressed_size == 0 || m[digest].0.uncompressed_size
            == uncompressed_size {
            Some(m[digest].0)
        } else {
            None
        }
    } else {
        None
    }
}

/// The effect of adding a sequence of chunks in order, all with the
/// dictionary's own digester.
pub open spec fn spec_add_chunk_seq(
    m: Map<ChunkDigest, (ChunkRecord, u32)>,
    chunks: Seq<ChunkRecord>,
    dict_digester: DigestAlgorithm,
) -> Map<ChunkDigest, (ChunkRecord, u32)>
    decreases chunks.len(),
{
    if chunks.len() == 0 {
        m
    } else {
        spec_add_chunk(
            spec_add_chunk_seq(m, chunks.drop_last(), dict_digester),
            chunks.last(),
            dict_digester,
            dict_digester,
        )
    }
}

/// The effect of adding the same chunk `n` times with a matching
/// digester.
pub open spec fn spec_add_chunk_repeat(
    m: Map<ChunkDigest, (ChunkRecord, u32)>,
    chunk: ChunkRecord,
    dict_digester: DigestAlgorithm,
    n: nat,
) -> Map<ChunkDigest, (ChunkRecord, u32)>
    decreases n,
{
    if n == 0 {
        m
    } else {
        spec_add_chunk(
            spec_add_chunk_repeat(m, chunk, dict_digester, (n - 1) as nat),
            chunk,
            dict_digester,
            dict_digester,
        )
    }
}

/// Law: adding the same chunk digest twice to a dictionary that does not
/// yet hold it, with a matching digester, yields a stored reference count
/// of 2 and exactly one stored record for that digest.
pub proof fn lemma_add_chunk_twice(
    m: Map<ChunkDigest, (ChunkRecord, u32)>,
    chunk: ChunkRecord,
    dict_digester: DigestAlgorithm,
)
    requires
        !m.dom().contains(chunk.digest),
    ensures
        spec_add_chunk(
            spec_add_chunk(m, chunk, dict_digester, dict_digester),
            chunk,
            dict_digester,
            dict_digester,
        ) == m.insert(chunk.digest, (chunk, 2u32)),
{
    let m1 = spec_add_chunk(m, chunk, dict_digester, dict_digester);
    let m2 = spec_add_chunk(m1, chunk, dict_digester, dict_digester);
    assert(m2 =~= m.insert(chunk.digest, (chunk, 2u32)));
}

/// Law: `n` repeated additions of one chunk, from a dictionary that does
/// not hold its digest, never lose an increment: the stored count is
/// exactly `n`, under one record, with all other entries untouched.
pub proof fn lemma_add_chunk_repeat_counts(
    m: Map<ChunkDigest, (ChunkRecord, u32)>,
    chunk: ChunkRecord,
    dict_digester: DigestAlgorithm,
    n: nat,
)
    requires
        !m.dom().contains(chunk.digest),
        1 <= n <= u32::MAX,
    ensures
        spec_add_chunk_repeat(m, chunk, dict_digester, n) == m.insert(
            chunk.digest,
            (chunk, n as u32),
        ),
    decreases n,
{
    if n == 1 {
        assert(spec_add_chunk_repeat(m, chunk, dict_digester, 0) == m);
        assert(spec_add_chunk_repeat(m, chunk, dict_digester, 1) =~= m.insert(
            chunk.digest,
            (chunk, 1u32),
        ));
    } else {
        lemma_add_chunk_repeat_counts(m, chunk, dict_digester, (n - 1) as nat);
        assert(spec_add_chunk_repeat(m, chunk, dict_digester, n) =~= m.insert(
            chunk.digest,
            (chunk, n as u32),
        ));
    }
}

/// The capability set of a chunk dictionary: add a chunk, look one up by
/// digest and size, list the blobs it was populated from, and maintain
/// the inner-to-external blob-index table.
pub trait ChunkDict: Sized {
    /// The digest-keyed chunk map this dictionary holds: each stored
    /// digest maps to its canonical record and reference count.
    spec fn chunks(&self) -> Map<ChunkDigest, (ChunkRecord, u32)>;

    /// The ordered blob descriptors captured when the dictionary was
    /// populated.
    spec fn blobs_view(&self) -> Seq<BlobDescriptor>;

    /// The inner-ordinal to external-ordinal blob index table.
    spec fn idx_view(&self) -> Map<u32, u32>;

    /// The digest algorithm this dictionary is configured with.
    spec fn dict_digester(&self) -> DigestAlgorithm;

    /// False for the disabled no-op variant, true for a populated one.
    spec fn is_enabled(&self) -> bool;

    /// Adds a chunk: ignored when the digester does not match or the
    /// dictionary is disabled; otherwise stores the record or bumps the
    /// reference count of the digest already present.
    fn add_chunk(&mut self, chunk: ChunkRecord, digester: DigestAlgorithm)
        ensures
            final(self).is_enabled() == old(self).is_enabled(),
            final(self).dict_digester() == old(self).dict_digester(),
            final(self).blobs_view() == old(self).blobs_view(),
            final(self).idx_view() == old(self).idx_view(),
            final(self).chunks() == if old(self).is_enabled() {
                spec_add_chunk(old(self).chunks(), chunk, digester, old(self).dict_digester())
            } else {
                old(self).chunks()
            },
    ;

    /// Looks up a chunk by digest; a hit requires the stored size to be
    /// the wildcard 0 or to equal `uncompressed_size`.
    fn get_chunk(&self, digest: &ChunkDigest, uncompressed_size: u32) -> (r: Option<ChunkRecord>)
        ensures
            r == spec_get_chunk(self.chunks(), *digest, uncompressed_size),
    ;

    /// Returns copies of all blob descriptors referenced by this
    /// dictionary, in capture order.
    fn get_blobs(&self) -> (r: Vec<BlobDescriptor>)
        ensures
            r@.len() == self.blobs_view().len(),
            forall|i: int| 0 <= i < r@.len() ==> blob_eq(r@[i], self.blobs_view()[i]),
    ;

    /// Returns the blob descriptor with inner ordinal `idx`, if any.
    fn get_blob_by_inner_idx(&self, idx: u32) -> (r: Option<&BlobDescriptor>)
        ensures
            match r {
                Some(b) => idx < self.blobs_view().len() && *b == self.blobs_view()[idx as int],
                None => idx >= self.blobs_view().len(),
            },
    ;

    /// Associates an external blob ordinal with an inner one; last write
    /// wins.  Fails on the disabled dictionary, whose caller assumed a
    /// populated one.
    fn set_real_blob_idx(&mut self, inner_idx: u32, out_idx: u32) -> (r: Result<(), DictError>)
        ensures
            final(self).is_enabled() == old(self).is_enabled(),
            final(self).dict_digester() == old(self).dict_digester(),
            final(self).blobs_view() == old(self).blobs_view(),
            final(self).chunks() == old(self).chunks(),
            r is Ok <==> old(self).is_enabled(),
            r matches Err(e) ==> e is DisabledDictUpdate,
            final(self).idx_view() == if old(self).is_enabled() {
                old(self).idx_view().insert(inner_idx, out_idx)
            } else {
                old(self).idx_view()
            },
    ;

    /// Returns the external ordinal associated with `inner_idx`.  The
    /// disabled dictionary is the identity mapping.
    fn get_real_blob_idx(&self, inner_idx: u32) -> (r: Option<u32>)
        ensures
            r == if self.is_enabled() {
                if self.idx_view().contains_key(inner_idx) {
                    Some(self.idx_view()[inner_idx])
                } else {
                    None::<u32>
                }
            } else {
                Some(inner_idx)
            },
    ;

    /// Returns the digest algorithm this dictionary is configured with.
    fn digester(&self) -> (r: DigestAlgorithm)
        ensures
            r == self.dict_digester(),
    ;
}

/// The disabled dictionary: adds are no-ops, lookups always miss, the
/// blob list is empty, the blob-index mapping cannot be set, and the
/// inner-to-external mapping is the identity.
impl ChunkDict for () {
    closed spec fn chunks(&self) -> Map<ChunkDigest, (ChunkRecord, u32)> {
        Map::empty()
    }

    closed spec fn blobs_view(&self) -> Seq<BlobDescriptor> {
        Seq::empty()
    }

    closed spec fn idx_view(&self) -> Map<u32, u32> {
        Map::empty()
    }

    closed spec fn dict_digester(&self) -> DigestAlgorithm {
        DigestAlgorithm::Sha256
    }

    closed spec fn is_enabled(&self) -> bool {
        false
    }

    fn add_chunk(&mut self, chunk: ChunkRecord, digester: DigestAlgorithm) {
    }

    fn get_chunk(&self, digest: &ChunkDigest, uncompressed_size: u32) -> (r: Option<ChunkRecord>) {
        None
    }

    fn get_blobs(&self) -> (r: Vec<BlobDescriptor>) {
        Vec::new()
    }

    fn get_blob_by_inner_idx(&self, idx: u32) -> (r: Option<&BlobDescriptor>) {
        None
    }

    fn set_real_blob_idx(&mut self, inner_idx: u32, out_idx: u32) -> (r: Result<(), DictError>) {
        Err(DictError::DisabledDictUpdate)
    }

    fn get_real_blob_idx(&self, inner_idx: u32) -> (r: Option<u32>) {
        Some(inner_idx)
    }

    fn digester(&self) -> (r: DigestAlgorithm) {
        DigestAlgorithm::Sha256
    }
}

/// One stored dictionary entry: the canonical chunk record and its
/// reference count.
struct DictEntry {
    record: ChunkRecord,
    count: u32,
}

/// The chunk map denoted by a sequence of stored entries.
spec fn entries_map(s: Seq<DictEntry>) -> Map<ChunkDigest, (ChunkRecord, u32)>
    decreases s.len(),
{
    if s.len() == 0 {
        Map::empty()
    } else {
        entries_map(s.drop_last()).insert(
            s.last().record.digest,
            (s.last().record, s.last().count),
        )
    }
}

/// No two stored entries share a digest.
spec fn distinct_digests(s: Seq<DictEntry>) -> bool {
    forall|i: int, j: int|
        0 <= i < j < s.len() ==> s[i].record.digest != s[j].record.digest
}

proof fn lemma_entries_map_dom(s: Seq<DictEntry>)
    ensures
        forall|d: ChunkDigest|
            entries_map(s).dom().contains(d) <==> exists|i: int|
                0 <= i < s.len() && s[i].record.digest == d,
    decreases s.len(),
{
    if s.len() > 0 {
        let sd = s.drop_last();
        lemma_entries_map_dom(sd);
        assert forall|d: ChunkDigest| entries_map(s).dom().contains(d) implies exists|i: int|
            0 <= i < s.len() && s[i].record.digest == d by {
            if d == s.last().record.digest {
                assert(s[s.len() - 1].record.digest == d);
            } else {
                assert(entries_map(sd).dom().contains(d));
                let i = choose|i: int| 0 <= i < sd.len() && sd[i].record.digest == d;
                assert(s[i] == sd[i]);
                assert(s[i].record.digest == d);
            }
        }
        assert forall|d: ChunkDigest|
            (exists|i: int| 0 <= i < s.len() && s[i].record.digest == d) implies entries_map(
            s,
        ).dom().contains(d) by {
            let i = choose|i: int| 0 <= i < s.len() && s[i].record.digest == d;
            if i == s.len() - 1 {
            } else {
                assert(sd[i] == s[i]);
                assert(sd[i].record.digest == d);
                assert(entries_map(sd).dom().contains(d));
            }
        }
    }
}

proof fn lemma_entries_map_get(s: Seq<DictEntry>, i: int)
    requires
        distinct_digests(s),
        0 <= i < s.len(),
    ensures
        entries_map(s).dom().contains(s[i].record.digest),
        entries_map(s)[s[i].record.digest] == (s[i].record, s[i].count),
    decreases s.len(),
{
    if i == s.len() - 1 {
    } else {
        assert(distinct_digests(s.drop_last()));
        assert(s.drop_last()[i] == s[i]);
        lemma_entries_map_get(s.drop_last(), i);
        assert(s[i].record.digest != s.last().record.digest);
    }
}

proof fn lemma_entries_map_len(s: Seq<DictEntry>)
    requires
        distinct_digests(s),
    ensures
        entries_map(s).dom().finite(),
        entries_map(s).dom().len() == s.len(),
    decreases s.len(),
{
    if s.len() > 0 {
        assert(distinct_digests(s.drop_last()));
        lemma_entries_map_len(s.drop_last());
        lemma_entries_map_dom(s.drop_last());
        assert(!entries_map(s.drop_last()).dom().contains(s.last().record.digest));
    }
}

proof fn lemma_entries_map_update(s: Seq<DictEntry>, i: int, e: DictEntry)
    requires
        distinct_digests(s),
        0 <= i < s.len(),
        e.record.digest == s[i].record.digest,
    ensures
        entries_map(s.update(i, e)) == entries_map(s).insert(
            e.record.digest,
            (e.record, e.count),
        ),
    decreases s.len(),
{
    if i == s.len() - 1 {
        assert(s.update(i, e).drop_last() =~= s.drop_last());
        assert(s.update(i, e).last() == e);
        assert(entries_map(s.update(i, e)) =~= entries_map(s).insert(
            e.record.digest,
            (e.record, e.count),
        ));
    } else {
        assert(distinct_digests(s.drop_last()));
        assert(s.drop_last()[i] == s[i]);
        lemma_entries_map_update(s.drop_last(), i, e);
        assert(s.update(i, e).drop_last() =~= s.drop_last().update(i, e));
        assert(s.update(i, e).last() == s.last());
        assert(s[i].record.digest != s.last().record.digest);
        assert(entries_map(s.update(i, e)) =~= entries_map(s).insert(
            e.record.digest,
            (e.record, e.count),
        ));
    }
}

/// The populated, hash-based chunk dictionary: a digest-keyed record
/// store with per-entry reference counts, the blob descriptors it was
/// populated from, and the inner-to-external blob index table.
pub struct HashChunkDict {
    entries: Vec<DictEntry>,
    blobs: Vec<BlobDescriptor>,
    blob_idx_map: HashMap<u32, u32>,
    digester: DigestAlgorithm,
}

impl HashChunkDict {
    #[verifier::type_invariant]
    spec fn wf(self) -> bool {
        distinct_digests(self.entries@)
    }

    /// Creates an empty dictionary configured for `digester`.
    pub fn new(digester: DigestAlgorithm) -> (r: HashChunkDict)
        ensures
            r.chunks() == Map::<ChunkDigest, (ChunkRecord, u32)>::empty(),
            r.blobs_view() == Seq::<BlobDescriptor>::empty(),
            r.idx_view() == Map::<u32, u32>::empty(),
            r.dict_digester() == digester,
            r.is_enabled(),
    {
        HashChunkDict {
            entries: Vec::new(),
            blobs: Vec::new(),
            blob_idx_map: HashMap::new(),
            digester,
        }
    }

    /// Finds the position of the entry holding `digest`, if any.
    fn find_idx(&self, digest: &ChunkDigest) -> (r: Option<usize>)
        ensures
            match r {
                Some(i) => i < self.entries@.len() && self.entries@[i as int].record.digest
                    == *digest,
                None => forall|i: int|
                    0 <= i < self.entries@.len() ==> self.entries@[i].record.digest != *digest,
            },
    {
        let n = self.entries.len();
        let mut i: usize = 0;
        while i < n
            invariant
                i <= n,
                n == self.entries@.len(),
                forall|j: int| 0 <= j < i ==> self.entries@[j].record.digest != *digest,
            decreases n - i,
        {
            if self.entries[i].record.digest == *digest {
                return Some(i);
            }
            i += 1;
        }
        None
    }

    /// Number of distinct digests stored.
    pub fn entry_count(&self) -> (r: usize)
        ensures
            r == self.chunks().dom().len(),
    {
        proof {
            use_type_invariant(self);
            lemma_entries_map_len(self.entries@);
        }
        self.entries.len()
    }

    /// The stored reference count of `digest`, if it is present.
    pub fn ref_count(&self, digest: &ChunkDigest) -> (r: Option<u32>)
        ensures
            r == if self.chunks().dom().contains(*digest) {
                Some(self.chunks()[*digest].1)
            } else {
                None::<u32>
            },
    {
        proof {
            use_type_invariant(self);
            lemma_entries_map_dom(self.entries@);
        }
        match self.find_idx(digest) {
            Some(i) => {
                proof {
                    lemma_entries_map_get(self.entries@, i as int);
                }
                Some(self.entries[i].count)
            },
            None => None,
        }
    }
}

impl ChunkDict for HashChunkDict {
    closed spec fn chunks(&self) -> Map<ChunkDigest, (ChunkRecord, u32)> {
        entries_map(self.entries@)
    }

    closed spec fn blobs_view(&self) -> Seq<BlobDescriptor> {
        self.blobs@
    }

    closed spec fn idx_view(&self) -> Map<u32, u32> {
        self.blob_idx_map@
    }

    closed spec fn dict_digester(&self) -> DigestAlgorithm {
        self.digester
    }

    closed spec fn is_enabled(&self) -> bool {
        true
    }

    fn add_chunk(&mut self, chunk: ChunkRecord, digester: DigestAlgorithm) {
        proof {
            use_type_invariant(&*self);
        }
        if digester != self.digester {
            return ;
        }
        match self.find_idx(&chunk.digest) {
            Some(i) => {
                proof {
                    lemma_entries_map_get(self.entries@, i as int);
                }
                let c = self.entries[i].count;
                let newc = if c == u32::MAX {
                    c
                } else {
                    c + 1
                };
                let ghost olds = self.entries@;
                let rec = self.entries[i].record;
                let mut entries: Vec<DictEntry> = Vec::new();
                core::mem::swap(&mut self.entries, &mut entries);
                entries[i] = DictEntry { record: rec, count: newc };
                proof {
                    let e = DictEntry { record: rec, count: newc };
                    let s2 = olds.update(i as int, e);
                    assert forall|a: int, b: int|
                        0 <= a < b < s2.len() implies s2[a].record.digest
                        != s2[b].record.digest by {
                        assert(olds[a].record.digest != olds[b].record.digest);
                        assert(s2[a].record == olds[a].record);
                        assert(s2[b].record == olds[b].record);
                    }
                    assert(distinct_digests(s2));
                    lemma_entries_map_update(olds, i as int, e);
                }
                core::mem::swap(&mut self.entries, &mut entries);
            },
            None => {
                let ghost olds = self.entries@;
                let mut entries: Vec<DictEntry> = Vec::new();
                core::mem::swap(&mut self.entries, &mut entries);
                entries.push(DictEntry { record: chunk, count: 1 });
                core::mem::swap(&mut self.entries, &mut entries);
                proof {
                    assert(forall|j: int|
                        0 <= j < olds.len() ==> self.entries@[j] == olds[j]);
                    assert(distinct_digests(self.entries@));
                    assert(self.entries@.drop_last() =~= olds);
                    lemma_entries_map_dom(olds);
                }
            },
        }
    }

    fn get_chunk(&self, digest: &ChunkDigest, uncompressed_size: u32) -> (r: Option<ChunkRecord>) {
        proof {
            use_type_invariant(self);
            lemma_entries_map_dom(self.entries@);
        }
        match self.find_idx(digest) {
            Some(i) => {
                proof {
                    lemma_entries_map_get(self.entries@, i as int);
                }
                let rec = self.entries[i].record;
                if rec.uncompressed_size == 0 || rec.uncompressed_size == uncompressed_size {
                    Some(rec)
                } else {
                    None
                }
            },
            None => None,
        }
    }

    fn get_blobs(&self) -> (r: Vec<BlobDescriptor>) {
        let n = self.blobs.len();
        let mut r: Vec<BlobDescriptor> = Vec::new();
        let mut i: usize = 0;
        while i < n
            invariant
                i <= n,
                n == self.blobs@.len(),
                r@.len() == i,
                forall|j: int| 0 <= j < i ==> blob_eq(r@[j], self.blobs@[j]),
            decreases n - i,
        {
            r.push(self.blobs[i].duplicate());
            i += 1;
        }
        r
    }

    fn get_blob_by_inner_idx(&self, idx: u32) -> (r: Option<&BlobDescriptor>) {
        if (idx as usize) < self.blobs.len() {
            Some(&self.blobs[idx as usize])
        } else {
            None
        }
    }

    fn set_real_blob_idx(&mut self, inner_idx: u32, out_idx: u32) -> (r: Result<(), DictError>) {
        proof {
            use_type_invariant(&*self);
        }
        let mut m: HashMap<u32, u32> = HashMap::new();
        core::mem::swap(&mut self.blob_idx_map, &mut m);
        m.insert(inner_idx, out_idx);
        core::mem::swap(&mut self.blob_idx_map, &mut m);
        Ok(())
    }

    fn get_real_blob_idx(&self, inner_idx: u32) -> (r: Option<u32>) {
        match self.blob_idx_map.get(&inner_idx) {
            Some(v) => Some(*v),
            None => None,
        }
    }

    fn digester(&self) -> (r: DigestAlgorithm) {
        self.digester
    }
}

/// On-disk format generation of a serialized image's metadata.
#[derive(Clone, Copy, Debug, PartialEq, Eq, Structural)]
pub enum RafsVersion {
    V5,
    V6,
}

/// The filesystem configuration a dictionary is requested with; a target
/// image must match it to be loaded.
#[derive(Clone, Copy, Debug, PartialEq, Eq, Structural)]
pub struct RafsConfig {
    pub version: RafsVersion,
    pub digester: DigestAlgorithm,
}

/// Plain-value model of an opened image's serialized metadata: what the
/// dictionary loader reads from the bootstrap layer.  `tree_chunks` are
/// the chunks enumerated by a full directory-tree walk; `table_chunks`
/// are the records decoded from the dense chunk table, whose raw byte
/// length is `chunk_table_size`.
#[derive(Debug)]
pub struct BootstrapSource {
    pub version: RafsVersion,
    pub digester: DigestAlgorithm,
    pub has_inlined_chunk_digest: bool,
    pub chunk_table_size: u64,
    pub blobs: Vec<BlobDescriptor>,
    pub tree_chunks: Vec<ChunkRecord>,
    pub table_chunks: Vec<ChunkRecord>,
}

impl BootstrapSource {
    /// The image matches the requested configuration: same format
    /// version and same digest algorithm.
    pub open spec fn spec_compatible(self, config: RafsConfig) -> bool {
        self.version == config.version && self.digester == config.digester
    }

    /// Loading walks the full directory tree (early metadata generation,
    /// or inlined chunk digests) rather than reading the dense table.
    pub open spec fn spec_walks_tree(self) -> bool {
        self.version is V5 || self.has_inlined_chunk_digest
    }

    /// The chunks a successful load adds to the dictionary, in order.
    pub open spec fn spec_loaded_chunks(self) -> Seq<ChunkRecord> {
        if self.spec_walks_tree() {
            self.tree_chunks@
        } else if self.chunk_table_size == 0 {
            Seq::empty()
        } else {
            self.table_chunks@
        }
    }
}

impl HashChunkDict {
    /// Populates a dictionary from an opened image's metadata.
    ///
    /// A digest-algorithm or format-version mismatch aborts the load;
    /// with a dense chunk table, a byte length that is not an exact
    /// multiple of the record size is rejected as corrupt.  On success
    /// the dictionary holds every loaded chunk, reference-counted, and
    /// the image's blob list.
    pub fn from_bootstrap(source: BootstrapSource, config: &RafsConfig) -> (r: Result<
        HashChunkDict,
        DictError,
    >)
        ensures
            match r {
                Ok(d) => source.spec_compatible(*config) && (source.spec_walks_tree()
                    || source.chunk_table_size == 0 || source.chunk_table_size
                    % CHUNK_TABLE_ENTRY_SIZE == 0) && d.dict_digester() == config.digester
                    && d.is_enabled() && d.blobs_view() == source.blobs@ && d.idx_view()
                    == Map::<u32, u32>::empty() && d.chunks() == spec_add_chunk_seq(
                    Map::empty(),
                    source.spec_loaded_chunks(),
                    config.digester,
                ),
                Err(e) => match e {
                    DictError::IncompatibleBootstrap => !source.spec_compatible(*config),
                    DictError::InvalidChunkTableSize => source.spec_compatible(*config)
                        && !source.spec_walks_tree() && source.chunk_table_size != 0
                        && source.chunk_table_size % CHUNK_TABLE_ENTRY_SIZE != 0,
                    _ => false,
                },
            },
    {
        if source.version != config.version || source.digester != config.digester {
            return Err(DictError::IncompatibleBootstrap);
        }
        let walks = matches!(source.version, RafsVersion::V5) || source.has_inlined_chunk_digest;
        let BootstrapSource { chunk_table_size, blobs, tree_chunks, table_chunks, .. } = source;
        let to_add: Vec<ChunkRecord> = if walks {
            tree_chunks
        } else if chunk_table_size == 0 {
            Vec::new()
        } else if chunk_table_size % CHUNK_TABLE_ENTRY_SIZE != 0 {
            return Err(DictError::InvalidChunkTableSize);
        } else {
            table_chunks
        };
        let mut d = HashChunkDict {
            entries: Vec::new(),
            blobs,
            blob_idx_map: HashMap::new(),
            digester: config.digester,
        };
        proof {
            assert(to_add@ =~= source.spec_loaded_chunks());
        }
        let n = to_add.len();
        let mut i: usize = 0;
        while i < n
            invariant
                i <= n,
                n == to_add@.len(),
                d.is_enabled(),
                d.dict_digester() == config.digester,
                d.blobs_view() == source.blobs@,
                d.idx_view() == Map::<u32, u32>::empty(),
                d.chunks() == spec_add_chunk_seq(
                    Map::empty(),
                    to_add@.take(i as int),
                    config.digester,
                ),
            decreases n - i,
        {
            let chunk = to_add[i];
            d.add_chunk(chunk, config.digester);
            proof {
                assert(to_add@.take(i + 1).drop_last() =~= to_add@.take(i as int));
                assert(to_add@.take(i + 1).last() == to_add@[i as int]);
            }
            i += 1;
        }
        proof {
            assert(to_add@.take(n as int) =~= to_add@);
        }
        Ok(d)
    }

    /// Populates a dictionary from a command-line argument naming its
    /// source image.  The argument must parse as a supported source
    /// type; the caller opens the image's metadata at the parsed path
    /// and hands it in as `source`.
    pub fn from_commandline_arg(arg: &str, source: BootstrapSource, config: &RafsConfig) -> (r:
        Result<HashChunkDict, DictError>)
        ensures
            match r {
                Ok(d) => spec_parse_dict_arg(arg@) is Ok && source.spec_compatible(*config) && (
                source.spec_walks_tree() || source.chunk_table_size == 0 || source.chunk_table_size
                    % CHUNK_TABLE_ENTRY_SIZE == 0) && d.dict_digester() == config.digester
                    && d.is_enabled() && d.blobs_view() == source.blobs@ && d.idx_view()
                    == Map::<u32, u32>::empty() && d.chunks() == spec_add_chunk_seq(
                    Map::empty(),
                    source.spec_loaded_chunks(),
                    config.digester,
                ),
                Err(e) => match e {
                    DictError::InvalidDictType(_) => spec_parse_dict_arg(arg@) is Err,
                    DictError::IncompatibleBootstrap => spec_parse_dict_arg(arg@) is Ok
                        && !source.spec_compatible(*config),
                    DictError::InvalidChunkTableSize => spec_parse_dict_arg(arg@) is Ok
                        && source.spec_compatible(*config) && !source.spec_walks_tree()
                        && source.chunk_table_size != 0 && source.chunk_table_size
                        % CHUNK_TABLE_ENTRY_SIZE != 0,
                    _ => false,
                },
            },
    {
        let _path = parse_chunk_dict_arg(arg)?;
        HashChunkDict::from_bootstrap(source, config)
    }
}

/// What a dictionary argument denotes: with no `'='` the whole string is
/// the path; otherwise the part before the first `'='` must be the one
/// supported source type, `bootstrap`, and the rest is the path.  An
/// unsupported type token is returned as the error value.
pub open spec fn spec_parse_dict_arg(s: Seq<char>) -> Result<Seq<char>, Seq<char>> {
    if forall|j: int| 0 <= j < s.len() ==> s[j] != '=' {
        Ok(s)
    } else {
        let i = choose|i: int| crate::strutil::spec_first_at(s, '=', i);
        if s.take(i) == "bootstrap"@ {
            Ok(s.skip(i + 1))
        } else {
            Err(s.take(i))
        }
    }
}

/// Parses a chunk dictionary argument: either `<type>=<path>` or a bare
/// path whose type defaults to `bootstrap`.  Any other type token is
/// rejected with an invalid-type error naming the token.
pub fn parse_chunk_dict_arg(arg: &str) -> (r: Result<String, DictError>)
    ensures
        match r {
            Ok(p) => spec_parse_dict_arg(arg@) matches Ok(s) && p@ == s,
            Err(e) => spec_parse_dict_arg(arg@) matches Err(t) && (e matches
                DictError::InvalidDictType(tok) && tok@ == t),
        },
{
    match crate::strutil::find_char(arg, '=') {
        None => Ok(arg.to_owned()),
        Some(i) => {
            proof {
                assert(crate::strutil::spec_first_at(arg@, '=', i as int));
                let k = choose|k: int| crate::strutil::spec_first_at(arg@, '=', k);
                crate::strutil::lemma_first_at_unique(arg@, '=', k, i as int);
            }
            let ty = arg.substring_char(0, i);
            let n = arg.unicode_len();
            let path = arg.substring_char(i + 1, n);
            proof {
                assert(ty@ =~= arg@.take(i as int));
                assert(path@ =~= arg@.skip(i + 1));
            }
            if crate::strutil::str_eq(ty, "bootstrap") {
                Ok(path.to_owned())
            } else {
                Err(DictError::InvalidDictType(ty.to_owned()))
            }
        },
    }
}

} // verus!
