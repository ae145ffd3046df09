//! Content hashes and the per-path record kept for each hashed file.

use vstd::prelude::*;
use vstd::array::{spec_array_fill_for_copy_type, spec_array_update};

verus! {

/// Number of bytes in a [`Hash`].
pub const HASH_LEN: usize = 32;

/// A fixed-width content hash.
///
/// Sparse and full hashes share this representation; a value only has
/// meaning next to other values of the same tier.
#[derive(Clone, Copy, Debug)]
pub struct Hash {
    bytes: [u8; 32],
}

impl View for Hash {
    type V = Seq<u8>;

    closed spec fn view(&self) -> Seq<u8> {
        self.bytes@
    }
}

/// An array whose first `n` places hold the first `n` of the given bytes.
spec fn filled(bytes: Seq<u8>, n: nat) -> [u8; 32]
    decreases n,
{
    if n == 0 {
        spec_array_fill_for_copy_type(0u8)
    } else {
        spec_array_update(filled(bytes, (n - 1) as nat), n - 1, bytes[n - 1])
    }
}

proof fn lemma_filled(bytes: Seq<u8>, n: nat)
    requires
        n <= 32,
    ensures
        forall|i: int| 0 <= i < n ==> filled(bytes, n)@[i] == bytes[i],
    decreases n,
{
    if n > 0 {
        lemma_filled(bytes, (n - 1) as nat);
    }
}

impl Hash {
    /// The hash with the given bytes, which must be 32.
    pub closed spec fn of(bytes: Seq<u8>) -> Hash {
        Hash { bytes: filled(bytes, 32) }
    }

    /// The hash made of 32 bytes has those bytes.
    pub proof fn lemma_of(bytes: Seq<u8>)
        requires
            bytes.len() == 32,
        ensures
            Hash::of(bytes)@ == bytes,
    {
        lemma_filled(bytes, 32);
        assert(Hash::of(bytes)@ =~= bytes);
    }

    /// Wraps raw digest bytes.
    pub fn from_bytes(bytes: [u8; 32]) -> (hash: Hash)
        ensures
            hash@ == bytes@,
    {
        Hash { bytes }
    }

    /// Reads a hash from a slice, which must hold exactly 32 bytes.
    pub fn from_slice(bytes: &[u8]) -> (hash: Option<Hash>)
        ensures
            match hash {
                Some(hash) => bytes@.len() == 32 && hash@ == bytes@ && hash == Hash::of(bytes@),
                None => bytes@.len() != 32,
            },
    {
        if bytes.len() != 32 {
            return None;
        }
        let mut array = [0u8;32];
        let mut i: usize = 0;
        while i < 32
            invariant
                i <= 32,
                bytes@.len() == 32,
                forall|j: int| 0 <= j < i ==> array@[j] == bytes@[j],
            decreases 32 - i,
        {
            array[i] = bytes[i];
            i += 1;
        }
        let hash = Hash { bytes: array };
        proof {
            Hash::lemma_of(bytes@);
            assert(hash@ =~= bytes@);
            hash.lemma_ext_equal(Hash::of(bytes@));
        }
        Some(hash)
    }

    /// The raw digest bytes.
    pub fn as_bytes(&self) -> (bytes: &[u8; 32])
        ensures
            bytes@ == self@,
    {
        &self.bytes
    }

    /// Every hash is exactly [`HASH_LEN`] bytes wide.
    pub proof fn lemma_view(self)
        ensures
            self@.len() == HASH_LEN,
    {
    }

    /// Hashes are determined by their bytes.
    pub proof fn lemma_ext_equal(self, other: Hash)
        ensures
            self == other <==> self@ == other@,
    {
        if self@ == other@ {
            assert(self.bytes =~= other.bytes);
        }
    }
}

impl PartialEq for Hash {
    fn eq(&self, other: &Hash) -> (r: bool) {
        let mut i: usize = 0;
        while i < 32
            invariant
                i <= 32,
                forall|j: int| 0 <= j < i ==> self.bytes@[j] == other.bytes@[j],
            decreases 32 - i,
        {
            if self.bytes[i] != other.bytes[i] {
                return false;
            }
            i += 1;
        }
        assert(self.bytes@ =~= other.bytes@);
        true
    }
}

impl vstd::std_specs::cmp::PartialEqSpecImpl for Hash {
    open spec fn obeys_eq_spec() -> bool {
        true
    }

    open spec fn eq_spec(&self, other: &Hash) -> bool {
        self@ == other@
    }
}

impl Eq for Hash {

}

/// What is remembered about a path once its content has been hashed in
/// full: enough to tell on a later scan whether the file has changed.
#[derive(Clone, Copy, Debug)]
pub struct FileMetadata {
    /// Length of the file in bytes.
    pub size: u64,
    /// Modification time, in whole seconds since the epoch.
    pub modified: u64,
    /// Full content hash.
    pub hash: Hash,
}

impl PartialEq for FileMetadata {
    fn eq(&self, other: &FileMetadata) -> (r: bool) {
        self.size == other.size && self.modified == other.modified && self.hash == other.hash
    }
}

impl vstd::std_specs::cmp::PartialEqSpecImpl for FileMetadata {
    open spec fn obeys_eq_spec() -> bool {
        true
    }

    open spec fn eq_spec(&self, other: &FileMetadata) -> bool {
        &&& self.size == other.size
        &&& self.modified == other.modified
        &&& self.hash@ == other.hash@
    }
}

impl Eq for FileMetadata {

}

/// ASCII code of the digit `0`.
pub const ASCII_ZERO: u8 = 0x30;

/// ASCII code of the letter `a`.
pub const ASCII_LOWER_A: u8 = 0x61;

/// The lowercase hexadecimal digit for a value below sixteen.
pub open spec fn hex_digit(nibble: u8) -> u8 {
    if nibble < 10 {
        (ASCII_ZERO + nibble) as u8
    } else {
        (ASCII_LOWER_A + (nibble - 10)) as u8
    }
}

/// The lowercase hexadecimal rendering of a byte string: two digits per
/// byte, high nibble first.
pub open spec fn hex_of(bytes: Seq<u8>) -> Seq<u8> {
    Seq::new(
        2 * bytes.len(),
        |i: int|
            if i % 2 == 0 {
                hex_digit(bytes[i / 2] / 16)
            } else {
                hex_digit(bytes[i / 2] % 16)
            },
    )
}

fn hex_digit_of(nibble: u8) -> (digit: u8)
    requires
        nibble < 16,
    ensures
        digit == hex_digit(nibble),
{
    if nibble < 10 {
        ASCII_ZERO + nibble
    } else {
        ASCII_LOWER_A + (nibble - 10)
    }
}

/// Renders a hash as 64 lowercase hexadecimal digits.
pub fn hash_to_hex(hash: &Hash) -> (hex: Vec<u8>)
    ensures
        hex@ == hex_of(hash@),
{
    let mut hex: Vec<u8> = Vec::with_capacity(64);
    let mut i: usize = 0;
    while i < 32
        invariant
            i <= 32,
            hex@.len() == 2 * i,
            forall|j: int| 0 <= j < 2 * i ==> hex@[j] == hex_of(hash@)[j],
        decreases 32 - i,
    {
        let byte = hash.bytes[i];
        hex.push(hex_digit_of(byte / 16));
        hex.push(hex_digit_of(byte % 16));
        i += 1;
    }
    assert(hex@ =~= hex_of(hash@));
    hex
}

} // verus!
