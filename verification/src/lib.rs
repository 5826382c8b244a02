//! Chunk deduplication for a content-addressed, chunked blob store.
//!
//! The crate has three parts: a model of chunk digests and per-chunk
//! metadata, a build-time chunk dictionary that lets a builder reuse
//! chunks already present in a prior image, and a runtime
//! content-addressable store manager that substitutes a local byte-range
//! copy for a network fetch when the same content is already on disk.
//! A per-path attribute overlay and a CRC-32 checksum helper round out
//! what the builder consumes.

mod attributes;
mod cas;
mod chunk;
mod chunk_dict;
mod crc32;
mod digest;
mod pathset;
mod strutil;

pub use attributes::AttrError;
pub use attributes::AttrLine;
pub use attributes::Attributes;
pub use attributes::Item;
pub use attributes::Parser;
pub use attributes::attr_lines_of;
pub use attributes::crcs_map;
pub use attributes::items_map;
pub use attributes::line_views;
pub use attributes::pair_views;
pub use attributes::path_starts_with;
pub use attributes::spec_add_parents;
pub use attributes::spec_apply_line;
pub use attributes::spec_apply_lines;
pub use attributes::spec_assign_map;
pub use attributes::spec_external;
pub use attributes::spec_line_crcs;
pub use attributes::spec_normalize_path;
pub use attributes::spec_parent;
pub use attributes::spec_parse_crc_list;
pub use attributes::spec_path_starts_with;

pub use cas::CasDb;
pub use cas::CasError;
pub use cas::CasMgr;
pub use cas::DedupPlan;
pub use cas::chunk_key;
pub use cas::lemma_chunk_key_empty_iff_zero;
pub use cas::lemma_chunk_key_no_collision;
pub use cas::lemma_drop_paths_effect;
pub use cas::lemma_record_then_lookup;
pub use cas::spec_chunk_key;
pub use cas::spec_drop_paths;

pub use chunk::BlobDescriptor;
pub use chunk::ChunkRecord;
pub use chunk::CompressionAlgorithm;
pub use chunk::DigestWithBlobIndex;
pub use chunk::blob_eq;

pub use chunk_dict::BootstrapSource;
pub use chunk_dict::CHUNK_TABLE_ENTRY_SIZE;
pub use chunk_dict::ChunkDict;
pub use chunk_dict::DictError;
pub use chunk_dict::HashChunkDict;
pub use chunk_dict::RafsConfig;
pub use chunk_dict::RafsVersion;
pub use chunk_dict::lemma_add_chunk_repeat_counts;
pub use chunk_dict::lemma_add_chunk_twice;
pub use chunk_dict::parse_chunk_dict_arg;
pub use chunk_dict::spec_add_chunk;
pub use chunk_dict::spec_add_chunk_repeat;
pub use chunk_dict::spec_add_chunk_seq;
pub use chunk_dict::spec_get_chunk;
pub use chunk_dict::spec_parse_dict_arg;
pub use chunk_dict::spec_sat_inc;

pub use crc32::Algorithm;
pub use crc32::Crc32;
pub use crc32::crc32_iscsi_of;

pub use digest::ChunkDigest;
pub use digest::DigestAlgorithm;
pub use digest::bytes_to_hex;
pub use digest::hex_digit;
pub use digest::hex_of;
pub use digest::lemma_hex_of_injective;
pub use digest::lemma_hex_of_len;

pub use pathset::PathSet;
pub use pathset::paths_set;

pub use strutil::spec_first_at;
