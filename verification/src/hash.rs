//! Digests and the two truncated hashes the wire carries.
//!
//! Reticulum hashes with SHA-256 and keeps either 16 bytes (an address) or 10 bytes (a
//! name) of the digest.

use sha2::Digest;
use vstd::prelude::*;

use crate::bytes;
use crate::text::{hex, hex_of};

verus! {

/// Bytes of an address hash.
pub const ADDRESS_HASH_LEN: usize = 16;

/// Bytes of a name hash.
pub const NAME_HASH_LEN: usize = 10;

/// The SHA-256 digest of a byte string.
pub uninterp spec fn sha256(data: Seq<u8>) -> [u8; 32];

/// `sha2::Sha256::digest`: the 32-byte SHA-256 digest of `data`, which is a function of
/// the bytes alone. What the digest is of given bytes is left to the name [`sha256`].
#[verifier::external_body]
pub(crate) fn sha256_digest(data: &[u8]) -> (digest: [u8; 32])
    ensures
        digest == sha256(data@),
{
    sha2::Sha256::digest(data).into()
}

/// The full 32-byte SHA-256 digest of `data`.
pub fn full_hash(data: &[u8]) -> (digest: [u8; 32])
    ensures
        digest == sha256(data@),
{
    sha256_digest(data)
}

/// A truncated SHA-256 digest naming an identity, a destination, a link or a packet.
#[derive(Clone, Copy, Debug, Eq, PartialOrd, Ord, Hash)]
pub struct AddressHash {
    bytes: [u8; 16],
}

impl View for AddressHash {
    type V = Seq<u8>;

    closed spec fn view(&self) -> Seq<u8> {
        self.bytes@
    }
}

/// The first 16 bytes of the SHA-256 digest of `data`.
pub open spec fn address_of(data: Seq<u8>) -> Seq<u8> {
    sha256(data)@.subrange(0, 16)
}

/// The first 10 bytes of the SHA-256 digest of `data`.
pub open spec fn name_of(data: Seq<u8>) -> Seq<u8> {
    sha256(data)@.subrange(0, 10)
}

impl AddressHash {
    /// A hash holds exactly its 16 bytes: its length is 16, and equal bytes are equal hashes.
    pub broadcast proof fn lemma_bytes_decide(a: AddressHash, b: AddressHash)
        ensures
            #![trigger a@, b@]
            a@.len() == 16,
            a@ == b@ ==> a == b,
    {
        if a@ == b@ {
            assert forall|i: int| 0 <= i < 16 implies a.bytes[i] == b.bytes[i] by {
                assert(a@[i] == b@[i]);
            }
            assert(a.bytes =~= b.bytes);
        }
    }

    /// The hash with given bytes.
    pub open spec fn with(bytes: Seq<u8>) -> AddressHash {
        choose|hash: AddressHash| hash@ == bytes
    }

    /// The hash with some bytes is the one that has them.
    pub proof fn lemma_with(hash: AddressHash)
        ensures
            AddressHash::with(hash@) == hash,
    {
        AddressHash::lemma_bytes_decide(AddressHash::with(hash@), hash);
    }

    /// Take 16 bytes as they stand.
    pub fn from_bytes(bytes: [u8; 16]) -> (hash: Self)
        ensures
            hash@ == bytes@,
    {
        AddressHash { bytes }
    }

    /// `trunc16(SHA256(data))`.
    pub fn of(data: &[u8]) -> (hash: Self)
        ensures
            hash@ == address_of(data@),
    {
        let digest = sha256_digest(data);
        let slice: &[u8] = &digest;
        AddressHash { bytes: bytes::array_at::<16>(slice, 0) }
    }

    /// The 16 bytes.
    pub fn as_bytes(&self) -> (bytes: &[u8; 16])
        ensures
            bytes@ == self@,
    {
        &self.bytes
    }

    /// The 16 bytes as a slice.
    pub fn as_slice(&self) -> (bytes: &[u8])
        ensures
            bytes@ == self@,
    {
        &self.bytes
    }

    /// The bytes in hexadecimal.
    pub fn to_hex(&self) -> (out: String)
        ensures
            out@ == hex(self@),
    {
        hex_of(self.as_slice())
    }

    /// The hash as one number, which orders hashes as their bytes do.
    pub fn as_number(&self) -> (key: u128)
        ensures
            key as nat == bytes::be_value(self@),
    {
        let mut key: u128 = 0;
        let mut i: usize = 0;
        assert(bytes::be_value(self.bytes@.subrange(0, 0)) == 0);
        while i < 16
            invariant
                i <= 16,
                key as nat == bytes::be_value(self.bytes@.subrange(0, i as int)),
            decreases 16 - i,
        {
            proof {
                let head = self.bytes@.subrange(0, i as int);
                let next = self.bytes@.subrange(0, i + 1);
                assert(next.drop_last() =~= head);
                assert(next.last() == self.bytes@[i as int]);
                bytes::lemma_be_value_bound(next);
                bytes::lemma_pow256_monotone((i + 1) as nat, 16);
                assert(bytes::pow256(16) == 0x1_0000_0000_0000_0000_0000_0000_0000_0000nat) by {
                    reveal_with_fuel(bytes::pow256, 17);
                }
            }
            key = key * 256 + self.bytes[i] as u128;
            i += 1;
        }
        assert(self.bytes@.subrange(0, 16) =~= self.bytes@);
        key
    }
}

impl PartialEq for AddressHash {
    fn eq(&self, other: &Self) -> (same: bool) {
        proof {
            AddressHash::lemma_bytes_decide(*self, *other);
        }
        bytes::equal(&self.bytes, &other.bytes)
    }
}

impl vstd::std_specs::cmp::PartialEqSpecImpl for AddressHash {
    open spec fn obeys_eq_spec() -> bool {
        true
    }

    open spec fn eq_spec(&self, other: &Self) -> bool {
        *self == *other
    }
}

/// A truncated SHA-256 digest of a destination's dotted name.
#[derive(Clone, Copy, Debug, Eq, PartialOrd, Ord, Hash)]
pub struct NameHash {
    bytes: [u8; 10],
}

impl View for NameHash {
    type V = Seq<u8>;

    closed spec fn view(&self) -> Seq<u8> {
        self.bytes@
    }
}

impl NameHash {
    /// A hash holds exactly its 10 bytes: its length is 10, and equal bytes are equal hashes.
    pub broadcast proof fn lemma_bytes_decide(a: NameHash, b: NameHash)
        ensures
            #![trigger a@, b@]
            a@.len() == 10,
            a@ == b@ ==> a == b,
    {
        if a@ == b@ {
            assert forall|i: int| 0 <= i < 10 implies a.bytes[i] == b.bytes[i] by {
                assert(a@[i] == b@[i]);
            }
            assert(a.bytes =~= b.bytes);
        }
    }

    /// Take 10 bytes as they stand.
    pub fn from_bytes(bytes: [u8; 10]) -> (hash: Self)
        ensures
            hash@ == bytes@,
    {
        NameHash { bytes }
    }

    /// `trunc10(SHA256(data))`.
    pub fn of(data: &[u8]) -> (hash: Self)
        ensures
            hash@ == name_of(data@),
    {
        let digest = sha256_digest(data);
        let slice: &[u8] = &digest;
        NameHash { bytes: bytes::array_at::<10>(slice, 0) }
    }

    /// The 10 bytes.
    pub fn as_bytes(&self) -> (bytes: &[u8; 10])
        ensures
            bytes@ == self@,
    {
        &self.bytes
    }

    /// The 10 bytes as a slice.
    pub fn as_slice(&self) -> (bytes: &[u8])
        ensures
            bytes@ == self@,
    {
        &self.bytes
    }
}

impl PartialEq for NameHash {
    fn eq(&self, other: &Self) -> (same: bool) {
        proof {
            NameHash::lemma_bytes_decide(*self, *other);
        }
        bytes::equal(&self.bytes, &other.bytes)
    }
}

impl vstd::std_specs::cmp::PartialEqSpecImpl for NameHash {
    open spec fn obeys_eq_spec() -> bool {
        true
    }

    open spec fn eq_spec(&self, other: &Self) -> bool {
        *self == *other
    }
}

} // verus!
