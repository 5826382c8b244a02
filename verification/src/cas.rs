//! The runtime content-addressable store manager: a durable index of
//! which local file and byte offset hold each known chunk's content,
//! plus a model of the open-handle cache, driving the chunk-fetch
//! pipeline's dedup, record and garbage-collection operations.

use vstd::prelude::*;
use vstd::string::StrSliceExecFns;
use vstd::string::StringExecFns;

use crate::chunk::BlobDescriptor;
use crate::chunk::ChunkRecord;
use crate::digest::hex_of;
use crate::digest::lemma_hex_of_len;
use crate::pathset::paths_set;
use crate::pathset::PathSet;

verus! {

/// Errors of the store manager that are reported to callers.  Failures
/// on the dedup fast path are never reported: they degrade to a miss.
#[derive(Debug)]
pub enum CasError {
    /// An input/output failure, described in text.
    Io(String),
    /// A failure of the durable index, described in text.
    Db(String),
}

impl CasError {
    /// A human-readable description of the error.
    pub fn message(&self) -> (r: String)
        ensures
            self matches CasError::Io(m) ==> r@ == m@,
            self matches CasError::Db(m) ==> r@ == m@,
    {
        match self {
            CasError::Io(m) => m.clone(),
            CasError::Db(m) => m.clone(),
        }
    }
}

/// One row of the chunk table: a chunk key, the canonical path of the
/// file holding the chunk's uncompressed bytes, and the byte offset of
/// those bytes in that file.
struct ChunkRow {
    key: String,
    path: String,
    offset: u64,
}

/// The key-to-location map a sequence of rows denotes.
spec fn rows_map(s: Seq<ChunkRow>) -> Map<Seq<char>, (Seq<char>, u64)>
    decreases s.len(),
{
    if s.len() == 0 {
        Map::empty()
    } else {
        rows_map(s.drop_last()).insert(s.last().key@, (s.last().path@, s.last().offset))
    }
}

/// No two rows share a chunk key.
spec fn distinct_keys(s: Seq<ChunkRow>) -> bool {
    forall|i: int, j: int| 0 <= i < j < s.len() ==> s[i].key@ != s[j].key@
}

proof fn lemma_rows_map_dom(s: Seq<ChunkRow>)
    ensures
        forall|k: Seq<char>|
            rows_map(s).dom().contains(k) <==> exists|i: int| 0 <= i < s.len() && s[i].key@ == k,
    decreases s.len(),
{
    if s.len() > 0 {
        let sd = s.drop_last();
        lemma_rows_map_dom(sd);
        assert forall|k: Seq<char>| rows_map(s).dom().contains(k) implies exists|i: int|
            0 <= i < s.len() && s[i].key@ == k by {
            if k == s.last().key@ {
                assert(s[s.len() - 1].key@ == k);
            } else {
                assert(rows_map(sd).dom().contains(k));
                let i = choose|i: int| 0 <= i < sd.len() && sd[i].key@ == k;
                assert(s[i] == sd[i]);
                assert(s[i].key@ == k);
            }
        }
        assert forall|k: Seq<char>|
            (exists|i: int| 0 <= i < s.len() && s[i].key@ == k) implies rows_map(
            s,
        ).dom().contains(k) by {
            let i = choose|i: int| 0 <= i < s.len() && s[i].key@ == k;
            if i == s.len() - 1 {
            } else {
                assert(sd[i] == s[i]);
                assert(sd[i].key@ == k);
                assert(rows_map(sd).dom().contains(k));
            }
        }
    }
}

proof fn lemma_rows_map_get(s: Seq<ChunkRow>, i: int)
    requires
        distinct_keys(s),
        0 <= i < s.len(),
    ensures
        rows_map(s).dom().contains(s[i].key@),
        rows_map(s)[s[i].key@] == (s[i].path@, s[i].offset),
    decreases s.len(),
{
    if i == s.len() - 1 {
    } else {
        assert(distinct_keys(s.drop_last()));
        assert(s.drop_last()[i] == s[i]);
        lemma_rows_map_get(s.drop_last(), i);
        assert(s[i].key@ != s.last().key@);
    }
}

proof fn lemma_rows_map_update(s: Seq<ChunkRow>, i: int, r: ChunkRow)
    requires
        distinct_keys(s),
        0 <= i < s.len(),
        r.key@ == s[i].key@,
    ensures
        rows_map(s.update(i, r)) == rows_map(s).insert(r.key@, (r.path@, r.offset)),
    decreases s.len(),
{
    if i == s.len() - 1 {
        assert(s.update(i, r).drop_last() =~= s.drop_last());
        assert(s.update(i, r).last() == r);
        assert(rows_map(s.update(i, r)) =~= rows_map(s).insert(r.key@, (r.path@, r.offset)));
    } else {
        assert(distinct_keys(s.drop_last()));
        assert(s.drop_last()[i] == s[i]);
        lemma_rows_map_update(s.drop_last(), i, r);
        assert(s.update(i, r).drop_last() =~= s.drop_last().update(i, r));
        assert(s.update(i, r).last() == s.last());
        assert(s[i].key@ != s.last().key@);
        assert(rows_map(s.update(i, r)) =~= rows_map(s).insert(r.key@, (r.path@, r.offset)));
    }
}

/// The chunk rows left after deleting every row whose path is in `ps`:
/// all other rows are untouched.
pub open spec fn spec_drop_paths(
    m: Map<Seq<char>, (Seq<char>, u64)>,
    ps: Set<Seq<char>>,
) -> Map<Seq<char>, (Seq<char>, u64)> {
    Map::new(|k: Seq<char>| m.dom().contains(k) && !ps.contains(m[k].0), |k: Seq<char>| m[k])
}

/// Law: deleting the rows of a set of paths removes exactly the rows
/// whose recorded path is in the set; every row recorded under a path
/// outside the set keeps its location unchanged.
pub proof fn lemma_drop_paths_effect(
    m: Map<Seq<char>, (Seq<char>, u64)>,
    ps: Set<Seq<char>>,
    k: Seq<char>,
)
    ensures
        m.dom().contains(k) && ps.contains(m[k].0) ==> !spec_drop_paths(m, ps).dom().contains(k),
        m.dom().contains(k) && !ps.contains(m[k].0) ==> spec_drop_paths(m, ps).dom().contains(k)
            && spec_drop_paths(m, ps)[k] == m[k],
        !m.dom().contains(k) ==> !spec_drop_paths(m, ps).dom().contains(k),
{
}

/// The durable dedup index: a chunk table keyed by chunk key and a
/// deduplicated blob table of canonical paths, with the schema
/// operations the store manager relies on.
pub struct CasDb {
    rows: Vec<ChunkRow>,
    blobs: PathSet,
}

impl CasDb {
    #[verifier::type_invariant]
    spec fn wf(self) -> bool {
        distinct_keys(self.rows@)
    }

    /// The chunk table: each known chunk key to its path and offset.
    pub closed spec fn chunk_rows(self) -> Map<Seq<char>, (Seq<char>, u64)> {
        rows_map(self.rows@)
    }

    /// The blob table: the set of recorded canonical paths.
    pub closed spec fn blob_paths(self) -> Set<Seq<char>> {
        self.blobs.paths()
    }

    /// Creates an empty index.
    pub fn new() -> (r: CasDb)
        ensures
            r.chunk_rows() == Map::<Seq<char>, (Seq<char>, u64)>::empty(),
            r.blob_paths() == Set::<Seq<char>>::empty(),
    {
        CasDb { rows: Vec::new(), blobs: PathSet::new() }
    }

    /// Finds the position of the row holding `key`, if any.
    fn find_row(&self, key: &str) -> (r: Option<usize>)
        ensures
            match r {
                Some(i) => i < self.rows@.len() && self.rows@[i as int].key@ == key@,
                None => forall|i: int| 0 <= i < self.rows@.len() ==> self.rows@[i].key@ != key@,
            },
    {
        let n = self.rows.len();
        let mut i: usize = 0;
        while i < n
            invariant
                i <= n,
                n == self.rows@.len(),
                forall|j: int| 0 <= j < i ==> self.rows@[j].key@ != key@,
            decreases n - i,
        {
            if crate::strutil::str_eq(self.rows[i].key.as_str(), key) {
                return Some(i);
            }
            i += 1;
        }
        None
    }

    /// Records a blob path in the blob table; recording a path twice
    /// keeps one row.
    pub fn add_blob(&mut self, path: &str)
        ensures
            final(self).chunk_rows() == old(self).chunk_rows(),
            final(self).blob_paths() == old(self).blob_paths().insert(path@),
    {
        proof {
            use_type_invariant(&*self);
        }
        let mut blobs = PathSet::new();
        core::mem::swap(&mut self.blobs, &mut blobs);
        blobs.insert(path.to_owned());
        core::mem::swap(&mut self.blobs, &mut blobs);
    }

    /// Records where a chunk's bytes live: a row already holding the key
    /// is overwritten with the new location.
    pub fn add_chunk(&mut self, chunk_id: &str, offset: u64, path: &str)
        ensures
            final(self).blob_paths() == old(self).blob_paths(),
            final(self).chunk_rows() == old(self).chunk_rows().insert(
                chunk_id@,
                (path@, offset),
            ),
    {
        proof {
            use_type_invariant(&*self);
        }
        let row = ChunkRow { key: chunk_id.to_owned(), path: path.to_owned(), offset };
        let ghost olds = self.rows@;
        match self.find_row(chunk_id) {
            Some(i) => {
                let mut rows: Vec<ChunkRow> = Vec::new();
                core::mem::swap(&mut self.rows, &mut rows);
                let ghost rowg = row;
                rows[i] = row;
                proof {
                    let s2 = olds.update(i as int, rowg);
                    assert forall|a: int, b: int|
                        0 <= a < b < s2.len() implies s2[a].key@ != s2[b].key@ by {
                        assert(olds[a].key@ != olds[b].key@);
                    }
                    assert(distinct_keys(s2));
                    lemma_rows_map_update(olds, i as int, rowg);
                }
                core::mem::swap(&mut self.rows, &mut rows);
            },
            None => {
                let mut rows: Vec<ChunkRow> = Vec::new();
                core::mem::swap(&mut self.rows, &mut rows);
                rows.push(row);
                proof {
                    assert(forall|j: int| 0 <= j < olds.len() ==> rows@[j] == olds[j]);
                    assert(distinct_keys(rows@));
                    assert(rows@.drop_last() =~= olds);
                }
                core::mem::swap(&mut self.rows, &mut rows);
            },
        }
    }

    /// Looks up the recorded location of a chunk key.
    pub fn get_chunk_info(&self, chunk_id: &str) -> (r: Option<(String, u64)>)
        ensures
            match r {
                Some(info) => self.chunk_rows().dom().contains(chunk_id@)
                    && self.chunk_rows()[chunk_id@] == (info.0@, info.1),
                None => !self.chunk_rows().dom().contains(chunk_id@),
            },
    {
        proof {
            use_type_invariant(self);
            lemma_rows_map_dom(self.rows@);
        }
        match self.find_row(chunk_id) {
            Some(i) => {
                proof {
                    lemma_rows_map_get(self.rows@, i as int);
                }
                Some((self.rows[i].path.clone(), self.rows[i].offset))
            },
            None => None,
        }
    }

    /// Enumerates the recorded blob paths, each once.
    pub fn get_all_blobs(&self) -> (r: Vec<String>)
        ensures
            paths_set(r@) == self.blob_paths(),
            forall|a: int, b: int| 0 <= a < b < r@.len() ==> r@[a]@ != r@[b]@,
    {
        self.blobs.to_vec()
    }

    /// Enumerates every chunk row as `(key, path, offset)`, one row per
    /// key, so that a caller can persist the index.
    pub fn export_rows(&self) -> (r: Vec<(String, String, u64)>)
        ensures
            forall|a: int|
                0 <= a < r@.len() ==> self.chunk_rows().dom().contains(#[trigger] r@[a].0@)
                    && self.chunk_rows()[r@[a].0@] == (r@[a].1@, r@[a].2),
            forall|k: Seq<char>|
                #[trigger] self.chunk_rows().dom().contains(k) ==> exists|a: int|
                    0 <= a < r@.len() && r@[a].0@ == k,
    {
        proof {
            use_type_invariant(self);
            lemma_rows_map_dom(self.rows@);
        }
        let n = self.rows.len();
        let mut r: Vec<(String, String, u64)> = Vec::new();
        let mut i: usize = 0;
        while i < n
            invariant
                i <= n,
                n == self.rows@.len(),
                r@.len() == i,
                forall|j: int|
                    0 <= j < i ==> r@[j].0@ == self.rows@[j].key@ && r@[j].1@
                        == self.rows@[j].path@ && r@[j].2 == self.rows@[j].offset,
            decreases n - i,
        {
            r.push((self.rows[i].key.clone(), self.rows[i].path.clone(), self.rows[i].offset));
            i += 1;
        }
        proof {
            assert forall|a: int|
                0 <= a < r@.len() implies self.chunk_rows().dom().contains(#[trigger] r@[a].0@)
                && self.chunk_rows()[r@[a].0@] == (r@[a].1@, r@[a].2) by {
                lemma_rows_map_get(self.rows@, a);
            }
            assert forall|k: Seq<char>| #[trigger]
                self.chunk_rows().dom().contains(k) implies exists|a: int|
                0 <= a < r@.len() && r@[a].0@ == k by {
                let j = choose|j: int| 0 <= j < self.rows@.len() && self.rows@[j].key@ == k;
                assert(r@[j].0@ == k);
            }
        }
        r
    }

    /// Deletes the blob rows of the given paths together with every
    /// chunk row that references one of them.
    pub fn delete_blobs(&mut self, paths: &Vec<String>)
        ensures
            final(self).chunk_rows() == spec_drop_paths(old(self).chunk_rows(), paths_set(paths@)),
            final(self).blob_paths() == old(self).blob_paths().difference(paths_set(paths@)),
    {
        proof {
            use_type_invariant(&*self);
        }
        let ghost olds = self.rows@;
        let ghost ps = paths_set(paths@);
        let n = self.rows.len();
        let mut kept: Vec<ChunkRow> = Vec::new();
        let mut i: usize = 0;
        while i < n
            invariant
                i <= n,
                n == self.rows@.len(),
                self.rows@ == olds,
                distinct_keys(olds),
                distinct_keys(kept@),
                ps == paths_set(paths@),
                forall|a: int|
                    0 <= a < kept@.len() ==> !ps.contains(kept@[a].path@) && exists|l: int|
                        0 <= l < i && olds[l].key@ == kept@[a].key@ && olds[l].path@
                            == kept@[a].path@ && olds[l].offset == kept@[a].offset,
                forall|l: int|
                    0 <= l < i && !ps.contains(olds[l].path@) ==> exists|a: int|
                        0 <= a < kept@.len() && kept@[a].key@ == olds[l].key@,
            decreases n - i,
        {
            let ghost prev = kept@;
            if !crate::pathset::vec_contains_str(paths, self.rows[i].path.as_str()) {
                kept.push(
                    ChunkRow {
                        key: self.rows[i].key.clone(),
                        path: self.rows[i].path.clone(),
                        offset: self.rows[i].offset,
                    },
                );
            }
            proof {
                assert forall|a: int, b: int|
                    0 <= a < b < kept@.len() implies kept@[a].key@ != kept@[b].key@ by {
                    if b < prev.len() {
                    } else if a < prev.len() {
                        let l = choose|l: int|
                            0 <= l < i && olds[l].key@ == prev[a].key@ && olds[l].path@
                                == prev[a].path@ && olds[l].offset == prev[a].offset;
                        assert(olds[l].key@ != olds[i as int].key@);
                    }
                }
                assert forall|l: int|
                    0 <= l < i + 1 && !ps.contains(olds[l].path@) implies exists|a: int|
                    0 <= a < kept@.len() && kept@[a].key@ == olds[l].key@ by {
                    if l == i {
                        assert(kept@[kept@.len() - 1].key@ == olds[l].key@);
                    } else {
                        let a = choose|a: int|
                            0 <= a < prev.len() && prev[a].key@ == olds[l].key@;
                        assert(kept@[a].key@ == olds[l].key@);
                    }
                }
            }
            i += 1;
        }
        let mut rows = kept;
        core::mem::swap(&mut self.rows, &mut rows);
        proof {
            lemma_rows_map_dom(self.rows@);
            lemma_rows_map_dom(olds);
            assert forall|k: Seq<char>| self.chunk_rows().dom().contains(k) implies spec_drop_paths(
                rows_map(olds),
                ps,
            ).dom().contains(k) && self.chunk_rows()[k] == rows_map(olds)[k] by {
                let a = choose|a: int| 0 <= a < self.rows@.len() && self.rows@[a].key@ == k;
                lemma_rows_map_get(self.rows@, a);
                let l = choose|l: int|
                    0 <= l < n && olds[l].key@ == self.rows@[a].key@ && olds[l].path@
                        == self.rows@[a].path@ && olds[l].offset == self.rows@[a].offset;
                lemma_rows_map_get(olds, l);
            }
            assert forall|k: Seq<char>|
                spec_drop_paths(rows_map(olds), ps).dom().contains(k) implies self
                .chunk_rows().dom().contains(k) by {
                let l = choose|l: int| 0 <= l < n && olds[l].key@ == k;
                lemma_rows_map_get(olds, l);
                let a = choose|a: int|
                    0 <= a < self.rows@.len() && self.rows@[a].key@ == olds[l].key@;
                assert(self.rows@[a].key@ == k);
            }
            assert(self.chunk_rows() =~= spec_drop_paths(rows_map(olds), ps));
        }
        let mut blobs = PathSet::new();
        core::mem::swap(&mut self.blobs, &mut blobs);
        blobs.remove_all(paths);
        core::mem::swap(&mut self.blobs, &mut blobs);
    }
}

/// The key under which a chunk's content is indexed:
/// `<digest-algorithm-name>:<hex-digest>`, or the empty string for the
/// zero ("no digest") value, which is never recorded or looked up.
/// Prefixing the algorithm name rules out cross-algorithm collisions.
pub open spec fn spec_chunk_key(blob: BlobDescriptor, chunk: ChunkRecord) -> Seq<char> {
    if chunk.digest.spec_is_zero() {
        Seq::empty()
    } else {
        blob.digester.spec_name() + ":"@ + hex_of(chunk.digest.data@)
    }
}

/// Law: the chunk key is empty exactly when the chunk's digest is the
/// zero value.
pub proof fn lemma_chunk_key_empty_iff_zero(blob: BlobDescriptor, chunk: ChunkRecord)
    ensures
        spec_chunk_key(blob, chunk).len() == 0 <==> chunk.digest.spec_is_zero(),
{
    if !chunk.digest.spec_is_zero() {
        reveal_strlit("blake3");
        reveal_strlit("sha256");
        lemma_hex_of_len(chunk.digest.data@);
    }
}

/// Law: chunk keys never collide across digest algorithms: two chunks
/// with non-zero digests and the same key were indexed under the same
/// algorithm and carry the same digest bytes.
pub proof fn lemma_chunk_key_no_collision(
    b1: BlobDescriptor,
    c1: ChunkRecord,
    b2: BlobDescriptor,
    c2: ChunkRecord,
)
    requires
        !c1.digest.spec_is_zero(),
        !c2.digest.spec_is_zero(),
        spec_chunk_key(b1, c1) == spec_chunk_key(b2, c2),
    ensures
        b1.digester == b2.digester,
        c1.digest.data@ == c2.digest.data@,
{
    reveal_strlit("blake3");
    reveal_strlit("sha256");
    reveal_strlit(":");
    let k = spec_chunk_key(b1, c1);
    let n1 = b1.digester.spec_name();
    let n2 = b2.digester.spec_name();
    let h1 = hex_of(c1.digest.data@);
    let h2 = hex_of(c2.digest.data@);
    lemma_hex_of_len(c1.digest.data@);
    lemma_hex_of_len(c2.digest.data@);
    assert(n1.len() == 6);
    assert(n2.len() == 6);
    assert forall|i: int| 0 <= i < 6 implies n1[i] == n2[i] by {
        assert(n1[i] == k[i]);
        assert(n2[i] == k[i]);
    }
    assert(n1 =~= n2);
    if b1.digester != b2.digester {
        assert(("blake3"@)[0] != ("sha256"@)[0]);
        assert(false);
    }
    assert(h1.len() == k.len() - 7);
    assert(h2.len() == k.len() - 7);
    assert(c1.digest.data@.len() == c2.digest.data@.len());
    assert forall|i: int| 0 <= i < h1.len() implies h1[i] == h2[i] by {
        assert(h1[i] == k[7 + i]);
        assert(h2[i] == k[7 + i]);
    }
    assert(h1 =~= h2);
    crate::digest::lemma_hex_of_injective(c1.digest.data@, c2.digest.data@);
}

/// Builds the chunk key of `chunk` within `blob`.
pub fn chunk_key(blob: &BlobDescriptor, chunk: &ChunkRecord) -> (r: String)
    ensures
        r@ == spec_chunk_key(*blob, *chunk),
{
    if chunk.digest.is_zero() {
        String::new()
    } else {
        let hexs = chunk.digest.to_hex();
        let r = String::from_str(blob.digester.name()).concat(":").concat(hexs.as_str());
        proof {
            assert(r@ =~= spec_chunk_key(*blob, *chunk));
        }
        r
    }
}

/// What `dedup_chunk` decides before any file is touched: either there
/// is no local copy to use, or the byte range to copy and whether a
/// handle for the source path is already cached.
#[derive(Debug)]
pub enum DedupPlan {
    /// No local copy is available: the chunk's digest is the zero value
    /// or the index holds no row for its key.  The caller falls back to
    /// the ordinary fetch path.
    Skip,
    /// Copy `size` bytes starting at `src_offset` of the file at `path`
    /// into the destination at `dst_offset`.  `cached` tells whether a
    /// shared handle for `path` is already open.
    Copy { path: String, src_offset: u64, dst_offset: u64, size: u32, cached: bool },
}

/// The store manager: the durable index plus the set of paths whose
/// shared read handles are currently cached.  The handles themselves
/// live with the caller; the manager decides when one is opened,
/// reused, or evicted.
pub struct CasMgr {
    db: CasDb,
    fds: PathSet,
}

impl CasMgr {
    /// The chunk table of the durable index.
    pub closed spec fn chunk_rows(self) -> Map<Seq<char>, (Seq<char>, u64)> {
        self.db.chunk_rows()
    }

    /// The blob table of the durable index.
    pub closed spec fn blob_paths(self) -> Set<Seq<char>> {
        self.db.blob_paths()
    }

    /// The paths with a cached open handle.
    pub closed spec fn cached_paths(self) -> Set<Seq<char>> {
        self.fds.paths()
    }

    /// Creates a manager over an empty index, with no cached handles.
    pub fn new() -> (r: CasMgr)
        ensures
            r.chunk_rows() == Map::<Seq<char>, (Seq<char>, u64)>::empty(),
            r.blob_paths() == Set::<Seq<char>>::empty(),
            r.cached_paths() == Set::<Seq<char>>::empty(),
    {
        CasMgr { db: CasDb::new(), fds: PathSet::new() }
    }

    /// Decides whether a chunk can be served from a local copy.
    ///
    /// A chunk whose digest is the zero value is skipped without
    /// touching the index; so is a key the index does not hold.  On a
    /// hit, the returned range copies exactly the chunk's uncompressed
    /// size from the recorded offset of the recorded path to the
    /// chunk's own uncompressed offset in the destination.
    pub fn dedup_prepare(&self, blob: &BlobDescriptor, chunk: &ChunkRecord) -> (r: DedupPlan)
        ensures
            match r {
                DedupPlan::Skip => chunk.digest.spec_is_zero() || !self.chunk_rows().dom().contains(
                    spec_chunk_key(*blob, *chunk),
                ),
                DedupPlan::Copy { path, src_offset, dst_offset, size, cached } => !chunk
                    .digest.spec_is_zero() && self.chunk_rows().dom().contains(
                    spec_chunk_key(*blob, *chunk),
                ) && self.chunk_rows()[spec_chunk_key(*blob, *chunk)] == (path@, src_offset)
                    && dst_offset == chunk.uncompressed_offset && size == chunk.uncompressed_size
                    && cached == self.cached_paths().contains(path@),
            },
    {
        if chunk.digest.is_zero() {
            return DedupPlan::Skip;
        }
        let key = chunk_key(blob, chunk);
        match self.db.get_chunk_info(key.as_str()) {
            None => DedupPlan::Skip,
            Some(info) => {
                let (path, offset) = info;
                let cached = self.fds.contains(path.as_str());
                DedupPlan::Copy {
                    path,
                    src_offset: offset,
                    dst_offset: chunk.uncompressed_offset,
                    size: chunk.uncompressed_size,
                    cached,
                }
            },
        }
    }

    /// Notes that a shared read handle for `path` is now cached.  Two
    /// racing openers converge on one entry: inserting an already
    /// cached path keeps the existing one.
    pub fn note_handle_opened(&mut self, path: String)
        ensures
            final(self).chunk_rows() == old(self).chunk_rows(),
            final(self).blob_paths() == old(self).blob_paths(),
            final(self).cached_paths() == old(self).cached_paths().insert(path@),
    {
        self.fds.insert(path);
    }

    /// Heals the index after the file at `path` turned out to be gone:
    /// evicts its cached handle and deletes every index row that
    /// references it.
    pub fn invalidate_path(&mut self, path: &str)
        ensures
            final(self).chunk_rows() == spec_drop_paths(
                old(self).chunk_rows(),
                Set::<Seq<char>>::empty().insert(path@),
            ),
            final(self).blob_paths() == old(self).blob_paths().difference(
                Set::<Seq<char>>::empty().insert(path@),
            ),
            final(self).cached_paths() == old(self).cached_paths().difference(
                Set::<Seq<char>>::empty().insert(path@),
            ),
    {
        let mut v: Vec<String> = Vec::new();
        v.push(path.to_owned());
        proof {
            assert forall|q: Seq<char>| paths_set(v@).contains(q) implies Set::<
                Seq<char>,
            >::empty().insert(path@).contains(q) by {
                let i = choose|i: int| 0 <= i < v@.len() && v@[i]@ == q;
                assert(v@[0]@ == q);
            }
            assert forall|q: Seq<char>|
                Set::<Seq<char>>::empty().insert(path@).contains(q) implies paths_set(
                v@,
            ).contains(q) by {
                assert(v@[0]@ == q);
            }
            assert(paths_set(v@) =~= Set::<Seq<char>>::empty().insert(path@));
        }
        self.db.delete_blobs(&v);
        self.fds.remove_all(&v);
    }

    /// Records an available chunk's location in the index.  A chunk
    /// whose digest is the zero value is not recorded; the call still
    /// succeeds.  `path` must already be canonical.
    pub fn record_chunk(&mut self, blob: &BlobDescriptor, chunk: &ChunkRecord, path: &str) -> (r:
        Result<(), CasError>)
        ensures
            r is Ok,
            final(self).cached_paths() == old(self).cached_paths(),
            chunk.digest.spec_is_zero() ==> final(self).chunk_rows() == old(self).chunk_rows()
                && final(self).blob_paths() == old(self).blob_paths(),
            !chunk.digest.spec_is_zero() ==> final(self).chunk_rows() == old(
                self,
            ).chunk_rows().insert(
                spec_chunk_key(*blob, *chunk),
                (path@, chunk.uncompressed_offset),
            ) && final(self).blob_paths() == old(self).blob_paths().insert(path@),
    {
        if chunk.digest.is_zero() {
            return Ok(());
        }
        let key = chunk_key(blob, chunk);
        self.record_chunk_raw(key.as_str(), path, chunk.uncompressed_offset)
    }

    /// Records that the chunk with key `chunk_id` lives at byte
    /// `offset` of the file at `path`.
    pub fn record_chunk_raw(&mut self, chunk_id: &str, path: &str, offset: u64) -> (r: Result<
        (),
        CasError,
    >)
        ensures
            r is Ok,
            final(self).cached_paths() == old(self).cached_paths(),
            final(self).blob_paths() == old(self).blob_paths().insert(path@),
            final(self).chunk_rows() == old(self).chunk_rows().insert(chunk_id@, (path@, offset)),
    {
        self.db.add_blob(path);
        self.db.add_chunk(chunk_id, offset, path);
        Ok(())
    }

    /// Enumerates every chunk row as `(key, path, offset)`, so that the
    /// index can be persisted and re-recorded on the next start.
    pub fn export_rows(&self) -> (r: Vec<(String, String, u64)>)
        ensures
            forall|a: int|
                0 <= a < r@.len() ==> self.chunk_rows().dom().contains(#[trigger] r@[a].0@)
                    && self.chunk_rows()[r@[a].0@] == (r@[a].1@, r@[a].2),
            forall|k: Seq<char>|
                #[trigger] self.chunk_rows().dom().contains(k) ==> exists|a: int|
                    0 <= a < r@.len() && r@[a].0@ == k,
    {
        self.db.export_rows()
    }

    /// Enumerates every distinct path the index references, for the
    /// caller to check against the filesystem.
    pub fn gc_candidates(&self) -> (r: Vec<String>)
        ensures
            paths_set(r@) == self.blob_paths(),
            forall|a: int, b: int| 0 <= a < b < r@.len() ==> r@[a]@ != r@[b]@,
    {
        self.db.get_all_blobs()
    }

    /// Completes garbage collection for the paths found missing on
    /// disk: deletes all their index rows and evicts their cached
    /// handles; rows of paths that still exist are untouched.
    pub fn gc_apply(&mut self, missing: &Vec<String>) -> (r: Result<(), CasError>)
        ensures
            r is Ok,
            final(self).chunk_rows() == spec_drop_paths(
                old(self).chunk_rows(),
                paths_set(missing@),
            ),
            final(self).blob_paths() == old(self).blob_paths().difference(paths_set(missing@)),
            final(self).cached_paths() == old(self).cached_paths().difference(
                paths_set(missing@),
            ),
    {
        self.db.delete_blobs(missing);
        self.fds.remove_all(missing);
        Ok(())
    }
}

/// Law: a chunk just recorded is found again under its key.  After
/// recording `(blob, chunk)` at `path`, the index maps the chunk's key
/// to exactly `(path, chunk.uncompressed_offset)` — the source of the
/// following dedup copy, whose destination offset and byte count
/// `dedup_prepare` fixes to the chunk's own uncompressed offset and
/// size.
pub proof fn lemma_record_then_lookup(
    m: Map<Seq<char>, (Seq<char>, u64)>,
    blob: BlobDescriptor,
    chunk: ChunkRecord,
    path: Seq<char>,
)
    requires
        !chunk.digest.spec_is_zero(),
    ensures
        ({
            let key = spec_chunk_key(blob, chunk);
            let m2 = m.insert(key, (path, chunk.uncompressed_offset));
            m2.dom().contains(key) && m2[key] == (path, chunk.uncompressed_offset)
        }),
{
}

} // verus!
