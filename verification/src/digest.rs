//! Chunk digests: a content fingerprint tagged with the algorithm that
//! produced it.

use vstd::prelude::*;

verus! {

broadcast use vstd::array::group_array_axioms;

/// The hash algorithm a chunk digest was produced with.
///
/// Two digests produced by different algorithms are never equal, even if
/// their raw bytes coincide.
#[derive(Clone, Copy, Debug, PartialEq, Eq, Hash, Structural)]
pub enum DigestAlgorithm {
    Blake3,
    Sha256,
}

impl DigestAlgorithm {
    /// The lower-case name of the algorithm, used when composing chunk keys.
    pub open spec fn spec_name(self) -> Seq<char> {
        match self {
            DigestAlgorithm::Blake3 => "blake3"@,
            DigestAlgorithm::Sha256 => "sha256"@,
        }
    }

    /// Returns the lower-case name of the algorithm.
    pub fn name(&self) -> (r: &'static str)
        ensures
            r@ == self.spec_name(),
    {
        match self {
            DigestAlgorithm::Blake3 => "blake3",
            DigestAlgorithm::Sha256 => "sha256",
        }
    }
}

/// A chunk content fingerprint: raw digest bytes plus the algorithm that
/// produced them.  The all-zero byte string is the "no digest" value.
#[derive(Clone, Copy, Debug, Eq, Hash)]
pub struct ChunkDigest {
    pub algorithm: DigestAlgorithm,
    pub data: [u8; 32],
}

impl PartialEq for ChunkDigest {
    fn eq(&self, other: &ChunkDigest) -> (r: bool) {
        if self.algorithm != other.algorithm {
            return false;
        }
        let mut i: usize = 0;
        while i < 32
            invariant
                i <= 32,
                self.algorithm == other.algorithm,
                forall|j: int| 0 <= j < i ==> self.data@[j] == other.data@[j],
            decreases 32 - i,
        {
            if self.data[i] != other.data[i] {
                return false;
            }
            i += 1;
        }
        proof {
            assert(self.data =~= other.data);
        }
        true
    }
}

impl vstd::std_specs::cmp::PartialEqSpecImpl for ChunkDigest {
    open spec fn obeys_eq_spec() -> bool {
        true
    }

    open spec fn eq_spec(&self, other: &ChunkDigest) -> bool {
        self.algorithm == other.algorithm && self.data == other.data
    }
}

impl Default for ChunkDigest {
    /// The zero ("no digest") value.
    fn default() -> (r: ChunkDigest)
        ensures
            r.spec_is_zero(),
            r.algorithm == DigestAlgorithm::Sha256,
    {
        ChunkDigest { algorithm: DigestAlgorithm::Sha256, data: [0u8; 32] }
    }
}

impl ChunkDigest {
    /// True when every digest byte is zero: the "no digest" placeholder
    /// that identifies no content.
    pub open spec fn spec_is_zero(self) -> bool {
        forall|i: int| 0 <= i < self.data@.len() ==> self.data@[i] == 0
    }

    /// Creates the zero digest of the given algorithm.
    pub fn zero(algorithm: DigestAlgorithm) -> (r: ChunkDigest)
        ensures
            r.spec_is_zero(),
            r.algorithm == algorithm,
    {
        ChunkDigest { algorithm, data: [0u8; 32] }
    }

    /// Creates a digest from raw bytes.
    pub fn new(algorithm: DigestAlgorithm, data: [u8; 32]) -> (r: ChunkDigest)
        ensures
            r.algorithm == algorithm,
            r.data == data,
    {
        ChunkDigest { algorithm, data }
    }

    /// Reports whether this is the zero ("no digest") value.
    pub fn is_zero(&self) -> (r: bool)
        ensures
            r == self.spec_is_zero(),
    {
        let mut i: usize = 0;
        while i < 32
            invariant
                i <= 32,
                forall|j: int| 0 <= j < i ==> self.data@[j] == 0,
            decreases 32 - i,
        {
            if self.data[i] != 0 {
                return false;
            }
            i += 1;
        }
        true
    }

    /// The lower-case hexadecimal rendering of the digest bytes.
    pub open spec fn spec_hex(self) -> Seq<char> {
        hex_of(self.data@)
    }

    /// Renders the digest bytes as a lower-case hexadecimal string.
    pub fn to_hex(&self) -> (r: String)
        ensures
            r@ == self.spec_hex(),
    {
        bytes_to_hex(&self.data)
    }
}

/// The sixteen lower-case hexadecimal digits, indexed by value.
pub open spec fn hex_digit(v: int) -> char {
    if v == 0 {
        '0'
    } else if v == 1 {
        '1'
    } else if v == 2 {
        '2'
    } else if v == 3 {
        '3'
    } else if v == 4 {
        '4'
    } else if v == 5 {
        '5'
    } else if v == 6 {
        '6'
    } else if v == 7 {
        '7'
    } else if v == 8 {
        '8'
    } else if v == 9 {
        '9'
    } else if v == 10 {
        'a'
    } else if v == 11 {
        'b'
    } else if v == 12 {
        'c'
    } else if v == 13 {
        'd'
    } else if v == 14 {
        'e'
    } else {
        'f'
    }
}

/// Distinct digit values render as distinct characters.
pub proof fn lemma_hex_digit_injective(x: int, y: int)
    requires
        0 <= x < 16,
        0 <= y < 16,
        hex_digit(x) == hex_digit(y),
    ensures
        x == y,
{
}

/// Lower-case hexadecimal rendering of a byte sequence, two digits per
/// byte, high nibble first.
pub open spec fn hex_of(bytes: Seq<u8>) -> Seq<char>
    decreases bytes.len(),
{
    if bytes.len() == 0 {
        Seq::<char>::empty()
    } else {
        hex_of(bytes.drop_last()) + seq![
            hex_digit(bytes.last() as int / 16),
            hex_digit(bytes.last() as int % 16),
        ]
    }
}

/// The hexadecimal rendering of a byte sequence holds two digits per
/// byte.
pub proof fn lemma_hex_of_len(bytes: Seq<u8>)
    ensures
        hex_of(bytes).len() == 2 * bytes.len(),
    decreases bytes.len(),
{
    if bytes.len() > 0 {
        lemma_hex_of_len(bytes.drop_last());
    }
}

/// Equal hexadecimal renderings of equally long byte sequences come
/// from equal bytes.
pub proof fn lemma_hex_of_injective(a: Seq<u8>, b: Seq<u8>)
    requires
        a.len() == b.len(),
        hex_of(a) == hex_of(b),
    ensures
        a == b,
    decreases a.len(),
{
    if a.len() > 0 {
        lemma_hex_of_len(a.drop_last());
        lemma_hex_of_len(b.drop_last());
        let ha = hex_of(a);
        let hb = hex_of(b);
        assert(ha[ha.len() - 2] == hex_digit(a.last() as int / 16));
        assert(ha[ha.len() - 1] == hex_digit(a.last() as int % 16));
        assert(hb[hb.len() - 2] == hex_digit(b.last() as int / 16));
        assert(hb[hb.len() - 1] == hex_digit(b.last() as int % 16));
        lemma_hex_digit_injective(a.last() as int / 16, b.last() as int / 16);
        lemma_hex_digit_injective(a.last() as int % 16, b.last() as int % 16);
        assert(a.last() == b.last());
        assert forall|i: int| 0 <= i < hex_of(a.drop_last()).len() implies hex_of(
            a.drop_last(),
        )[i] == hex_of(b.drop_last())[i] by {
            assert(hex_of(a.drop_last())[i] == ha[i]);
            assert(hex_of(b.drop_last())[i] == hb[i]);
        }
        assert(hex_of(a.drop_last()) =~= hex_of(b.drop_last()));
        lemma_hex_of_injective(a.drop_last(), b.drop_last());
        assert forall|i: int| 0 <= i < a.len() implies a[i] == b[i] by {
            if i < a.len() - 1 {
                assert(a[i] == a.drop_last()[i]);
                assert(b[i] == b.drop_last()[i]);
            }
        }
        assert(a =~= b);
    } else {
        assert(a =~= b);
    }
}

/// Renders a byte array as a lower-case hexadecimal string.
pub fn bytes_to_hex(bytes: &[u8; 32]) -> (r: String)
    ensures
        r@ == hex_of(bytes@),
{
    let digits: [char; 16] = [
        '0', '1', '2', '3', '4', '5', '6', '7', '8', '9', 'a', 'b', 'c', 'd', 'e', 'f',
    ];
    let mut r = String::new();
    let mut i: usize = 0;
    while i < 32
        invariant
            i <= 32,
            bytes@.len() == 32,
            digits@.len() == 16,
            forall|v: int| 0 <= v < 16 ==> digits@[v] == hex_digit(v),
            r@ == hex_of(bytes@.take(i as int)),
        decreases 32 - i,
    {
        let b = bytes[i];
        crate::strutil::push_char(&mut r, digits[(b / 16) as usize]);
        crate::strutil::push_char(&mut r, digits[(b % 16) as usize]);
        proof {
            assert(bytes@.take(i + 1).drop_last() =~= bytes@.take(i as int));
            assert(bytes@.take(i + 1).last() == bytes@[i as int]);
        }
        i += 1;
    }
    proof {
        assert(bytes@.take(32) =~= bytes@);
    }
    r
}

} // verus!
