//! CRC-32 checksums of chunk data, computed with the iSCSI (Castagnoli)
//! polynomial.

use vstd::prelude::*;

verus! {

/// The checksum algorithm a chunk's attribute metadata may select.
/// `NoChecksum` selects no checksumming; every other selector computes
/// CRC-32/iSCSI.
#[derive(Clone, Copy, Debug, PartialEq, Eq, Structural)]
pub enum Algorithm {
    NoChecksum,
    Crc32Iscsi,
}

impl Algorithm {
    /// The selector's name, as shown to users.
    pub open spec fn spec_name(self) -> Seq<char> {
        match self {
            Algorithm::NoChecksum => "None"@,
            Algorithm::Crc32Iscsi => "Crc32Iscsi"@,
        }
    }

    /// Returns the selector's name.
    pub fn name(&self) -> (r: &'static str)
        ensures
            r@ == self.spec_name(),
    {
        match self {
            Algorithm::NoChecksum => "None",
            Algorithm::Crc32Iscsi => "Crc32Iscsi",
        }
    }

    /// The numeric code the selector is stored as.
    pub open spec fn spec_code(self) -> u32 {
        match self {
            Algorithm::NoChecksum => 0u32,
            Algorithm::Crc32Iscsi => 1u32,
        }
    }

    /// Returns the numeric code the selector is stored as.
    pub fn code(&self) -> (r: u32)
        ensures
            r == self.spec_code(),
    {
        match self {
            Algorithm::NoChecksum => 0u32,
            Algorithm::Crc32Iscsi => 1u32,
        }
    }
}

impl Default for Algorithm {
    /// The default selector computes CRC-32/iSCSI.
    fn default() -> (r: Algorithm)
        ensures
            r == Algorithm::Crc32Iscsi,
    {
        Algorithm::Crc32Iscsi
    }
}

impl TryFrom<u32> for Algorithm {
    type Error = ();

    /// Reads a selector back from its numeric code; an unknown code is
    /// rejected.
    fn try_from(value: u32) -> (r: Result<Algorithm, ()>) {
        if value == 0 {
            Ok(Algorithm::NoChecksum)
        } else if value == 1 {
            Ok(Algorithm::Crc32Iscsi)
        } else {
            Err(())
        }
    }
}

impl vstd::std_specs::convert::TryFromSpecImpl<u32> for Algorithm {
    open spec fn obeys_try_from_spec() -> bool {
        true
    }

    open spec fn try_from_spec(v: u32) -> Result<Algorithm, ()> {
        if v == 0 {
            Ok(Algorithm::NoChecksum)
        } else if v == 1 {
            Ok(Algorithm::Crc32Iscsi)
        } else {
            Err(())
        }
    }
}

impl TryFrom<u64> for Algorithm {
    type Error = ();

    /// Reads a selector back from its numeric code; an unknown code is
    /// rejected.
    fn try_from(value: u64) -> (r: Result<Algorithm, ()>) {
        if value == 0 {
            Ok(Algorithm::NoChecksum)
        } else if value == 1 {
            Ok(Algorithm::Crc32Iscsi)
        } else {
            Err(())
        }
    }
}

impl vstd::std_specs::convert::TryFromSpecImpl<u64> for Algorithm {
    open spec fn obeys_try_from_spec() -> bool {
        true
    }

    open spec fn try_from_spec(v: u64) -> Result<Algorithm, ()> {
        if v == 0 {
            Ok(Algorithm::NoChecksum)
        } else if v == 1 {
            Ok(Algorithm::Crc32Iscsi)
        } else {
            Err(())
        }
    }
}

/// The CRC-32/iSCSI checksum of a byte sequence, as the crc crate
/// computes it: a function of the bytes alone.
pub uninterp spec fn crc32_iscsi_of(bytes: Seq<u8>) -> u32;

/// Relies on crc::Crc::checksum over the crc::CRC_32_ISCSI parameters:
/// the CRC-32/iSCSI checksum of the bytes, a deterministic function of
/// the bytes alone.
#[verifier::external_body]
fn crc32_iscsi_checksum(bytes: &[u8]) -> (r: u32)
    ensures
        r == crc32_iscsi_of(bytes@),
{
    crc::Crc::<u32, crc::Table<16>>::new(&crc::CRC_32_ISCSI).checksum(bytes)
}

/// A CRC-32 hasher.  Every selector computes CRC-32/iSCSI; `NoChecksum` falls
/// back to it as well.
pub struct Crc32 {
    algorithm: Algorithm,
}

impl Crc32 {
    /// The selector this hasher was built with.
    pub closed spec fn spec_algorithm(self) -> Algorithm {
        self.algorithm
    }

    /// Creates a hasher for the given selector.
    pub fn new(algorithm: Algorithm) -> (r: Crc32)
        ensures
            r.spec_algorithm() == algorithm,
    {
        Crc32 { algorithm }
    }

    /// The checksum of a byte buffer.
    pub fn from_buf(&self, bytes: &[u8]) -> (r: u32)
        ensures
            r == crc32_iscsi_of(bytes@),
    {
        crc32_iscsi_checksum(bytes)
    }
}

impl Default for Crc32 {
    /// The default hasher computes CRC-32/iSCSI.
    fn default() -> (r: Crc32)
        ensures
            r.spec_algorithm() == Algorithm::Crc32Iscsi,
    {
        Crc32::new(Algorithm::Crc32Iscsi)
    }
}

} // verus!
