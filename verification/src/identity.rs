//! Dual-key identities.
//!
//! A Reticulum identity is two keypairs: X25519 for ECDH and Ed25519 for signing. On the
//! wire the public form is always the two public keys concatenated, X25519 first:
//!
//! ```text
//! public  = x25519_public(32)  || ed25519_verifying(32)   = 64 bytes
//! private = x25519_secret(32)  || ed25519_seed(32)        = 64 bytes
//! ```
//!
//! The identity hash is `trunc16(SHA256(public))`.

use ed25519_dalek::Signer;
use vstd::prelude::*;

use crate::bytes;
use crate::hash::{address_of, AddressHash};
use crate::Error;

verus! {

/// Length of one key, public or secret. Both curves use 32 bytes.
pub const KEY_LEN: usize = 32;

/// Length of a full public or private identity: two keys.
pub const IDENTITY_LEN: usize = 64;

/// Length of an Ed25519 signature.
pub const SIGNATURE_LEN: usize = 64;

/// Whether 32 bytes are the compressed form of a point on the Edwards curve.
pub uninterp spec fn ed25519_point(key: Seq<u8>) -> bool;

/// The verifying key that belongs to an Ed25519 seed.
pub uninterp spec fn ed25519_public(seed: Seq<u8>) -> [u8; 32];

/// The signature over `message` under the key that belongs to an Ed25519 seed.
pub uninterp spec fn ed25519_signature(seed: Seq<u8>, message: Seq<u8>) -> [u8; 64];

/// Whether `signature` over `message` stands under a verifying key, strictly.
pub uninterp spec fn ed25519_verifies(
    key: Seq<u8>,
    message: Seq<u8>,
    signature: Seq<u8>,
) -> bool;

/// The public key that belongs to an X25519 secret.
pub uninterp spec fn x25519_public(secret: Seq<u8>) -> [u8; 32];

/// What an X25519 secret and a peer's public key agree on.
pub uninterp spec fn x25519_shared(secret: Seq<u8>, peer: Seq<u8>) -> [u8; 32];

/// `ed25519_dalek::VerifyingKey::from_bytes`: whether the bytes decompress to a point. It
/// is a function of the bytes alone.
#[verifier::external_body]
fn key_decompresses(key: &[u8; 32]) -> (valid: bool)
    ensures
        valid == ed25519_point(key@),
{
    ed25519_dalek::VerifyingKey::from_bytes(key).is_ok()
}

/// `ed25519_dalek::SigningKey::verifying_key`: the public half of a seed, which is a
/// function of the seed alone. The crate computes it by compressing a point, so it
/// decompresses again.
#[verifier::external_body]
fn verifying_key_of(seed: &[u8; 32]) -> (key: [u8; 32])
    ensures
        key == ed25519_public(seed@),
        ed25519_point(key@),
{
    ed25519_dalek::SigningKey::from_bytes(seed).verifying_key().to_bytes()
}

/// Whether a signature commits to the neutral point: its first half is the compressed form of
/// that point, a one and zeros. Strict verification refuses such a signature.
pub open spec fn commits_to_nothing(signature: Seq<u8>) -> bool {
    signature.subrange(0, 32) == seq![1u8] + Seq::new(31, |i: int| 0u8)
}

/// `ed25519_dalek::SigningKey::sign`: the signature over a message, which is a function of
/// the seed and the message, since Ed25519 takes its nonce from both.
///
/// A signature stands under the key of its seed. `verify_strict` checks what `verify` does,
/// and refuses beyond that only a key or a committed point of small order. The key is none: it
/// is the base point times a clamped scalar, which is a multiple of eight below 2^255 and not
/// zero, so the odd group order above 2^252 does not divide it. The committed point is a
/// multiple of the base point too, so it is of small order only where it is the neutral point.
/// Nothing is claimed of that signature.
#[verifier::external_body]
pub(crate) fn sign_with(seed: &[u8; 32], message: &[u8]) -> (signature: [u8; 64])
    ensures
        signature == ed25519_signature(seed@, message@),
        commits_to_nothing(signature@) || ed25519_verifies(
            ed25519_public(seed@)@,
            message@,
            signature@,
        ),
{
    ed25519_dalek::SigningKey::from_bytes(seed).sign(message).to_bytes()
}

/// `ed25519_dalek::VerifyingKey::verify_strict`: whether a signature stands. Bytes that are
/// no key verify nothing.
#[verifier::external_body]
fn verify_with(key: &[u8; 32], message: &[u8], signature: &[u8; 64]) -> (stands: bool)
    ensures
        stands == ed25519_verifies(key@, message@, signature@),
{
    let signature = ed25519_dalek::Signature::from_bytes(signature);
    match ed25519_dalek::VerifyingKey::from_bytes(key) {
        Ok(key) => key.verify_strict(message, &signature).is_ok(),
        Err(_) => false,
    }
}

/// `x25519_dalek::PublicKey::from` a `StaticSecret`: the public half of a secret.
#[verifier::external_body]
fn x25519_public_of(secret: &[u8; 32]) -> (key: [u8; 32])
    ensures
        key == x25519_public(secret@),
{
    x25519_dalek::PublicKey::from(&x25519_dalek::StaticSecret::from(*secret)).to_bytes()
}

/// `x25519_dalek::StaticSecret::diffie_hellman`: the agreed secret.
#[verifier::external_body]
fn x25519_agree(secret: &[u8; 32], peer: &[u8; 32]) -> (shared: [u8; 32])
    ensures
        shared == x25519_shared(secret@, peer@),
{
    let secret = x25519_dalek::StaticSecret::from(*secret);
    secret.diffie_hellman(&x25519_dalek::PublicKey::from(*peer)).to_bytes()
}

/// Two 32-byte halves in one array.
fn joined(first: &[u8; 32], second: &[u8; 32]) -> (out: [u8; 64])
    ensures
        out@ == first@ + second@,
{
    let mut out = [0u8; 64];
    let mut i: usize = 0;
    while i < 32
        invariant
            i <= 32,
            forall|j: int| 0 <= j < i ==> out@[j] == first@[j],
            forall|j: int| 0 <= j < i ==> out@[32 + j] == second@[j],
        decreases 32 - i,
    {
        out[i] = first[i];
        out[32 + i] = second[i];
        i += 1;
    }
    assert(out@ =~= first@ + second@);
    out
}

/// A peer's public identity: the two public keys, and the hash they imply.
#[derive(Clone, Copy, Debug, Eq)]
pub struct Identity {
    x25519: [u8; 32],
    ed25519: [u8; 32],
}

impl View for Identity {
    type V = Seq<u8>;

    /// The 64 bytes of the wire form.
    closed spec fn view(&self) -> Seq<u8> {
        self.x25519@ + self.ed25519@
    }
}

impl Identity {
    /// An identity is exactly its 64 bytes.
    pub proof fn lemma_bytes_decide(a: Identity, b: Identity)
        ensures
            a@.len() == 64,
            a@ == b@ ==> a == b,
    {
        if a@ == b@ {
            assert forall|i: int| 0 <= i < 32 implies a.x25519[i] == b.x25519[i] by {
                assert(a@[i] == b@[i]);
            }
            assert forall|i: int| 0 <= i < 32 implies a.ed25519[i] == b.ed25519[i] by {
                assert(a@[32 + i] == b@[32 + i]);
            }
            assert(a.x25519 =~= b.x25519);
            assert(a.ed25519 =~= b.ed25519);
        }
    }

    /// Build an identity from its two public keys, of which the Ed25519 one has to be a
    /// point on its curve.
    pub fn new(x25519: &[u8; KEY_LEN], ed25519: &[u8; KEY_LEN]) -> (result: Result<Self, Error>)
        ensures
            match result {
                Ok(identity) => ed25519_point(ed25519@) && identity@ == x25519@ + ed25519@,
                Err(e) => !ed25519_point(ed25519@) && e == Error::BadKey,
            },
    {
        if !key_decompresses(ed25519) {
            return Err(Error::BadKey);
        }
        Ok(Identity { x25519: *x25519, ed25519: *ed25519 })
    }

    /// Parse the 64-byte wire form: `x25519_public(32) || ed25519_verifying(32)`.
    ///
    /// Fails exactly if the Ed25519 half is not a valid point.
    pub fn from_public_bytes(bytes: &[u8; IDENTITY_LEN]) -> (result: Result<Self, Error>)
        ensures
            match result {
                Ok(identity) => ed25519_point(bytes@.subrange(32, 64)) && identity@ == bytes@,
                Err(e) => !ed25519_point(bytes@.subrange(32, 64)) && e == Error::BadKey,
            },
    {
        let slice: &[u8] = bytes;
        let x = bytes::array_at::<32>(slice, 0);
        let e = bytes::array_at::<32>(slice, 32);
        assert(bytes@ =~= x@ + e@);
        Identity::new(&x, &e)
    }

    /// The 64-byte wire form.
    pub fn to_public_bytes(&self) -> (bytes: [u8; IDENTITY_LEN])
        ensures
            bytes@ == self@,
    {
        joined(&self.x25519, &self.ed25519)
    }

    /// The X25519 public key: the ECDH half.
    pub fn x25519_bytes(&self) -> (key: &[u8; KEY_LEN])
        ensures
            key@ == self@.subrange(0, 32),
    {
        assert(self@.subrange(0, 32) =~= self.x25519@);
        &self.x25519
    }

    /// The Ed25519 verifying key: the signing half.
    pub fn ed25519_bytes(&self) -> (key: &[u8; KEY_LEN])
        ensures
            key@ == self@.subrange(32, 64),
    {
        assert(self@.subrange(32, 64) =~= self.ed25519@);
        &self.ed25519
    }

    /// `trunc16(SHA256(public))`.
    pub fn hash(&self) -> (hash: AddressHash)
        ensures
            hash@ == address_of(self@),
    {
        let public = self.to_public_bytes();
        AddressHash::of(&public)
    }

    /// Verify an Ed25519 signature over `message`.
    ///
    /// Uses strict verification, which rejects small-order and non-canonical points.
    pub fn verify(&self, message: &[u8], signature: &[u8; SIGNATURE_LEN]) -> (stands: bool)
        ensures
            stands == ed25519_verifies(self@.subrange(32, 64), message@, signature@),
    {
        assert(self@.subrange(32, 64) =~= self.ed25519@);
        verify_with(&self.ed25519, message, signature)
    }
}

impl PartialEq for Identity {
    fn eq(&self, other: &Self) -> (same: bool) {
        proof {
            Identity::lemma_bytes_decide(*self, *other);
            assert(self@.subrange(0, 32) =~= self.x25519@);
            assert(self@.subrange(32, 64) =~= self.ed25519@);
            assert(other@.subrange(0, 32) =~= other.x25519@);
            assert(other@.subrange(32, 64) =~= other.ed25519@);
        }
        bytes::equal(&self.x25519, &other.x25519) && bytes::equal(&self.ed25519, &other.ed25519)
    }
}

impl vstd::std_specs::cmp::PartialEqSpecImpl for Identity {
    open spec fn obeys_eq_spec() -> bool {
        true
    }

    open spec fn eq_spec(&self, other: &Self) -> bool {
        *self == *other
    }
}

/// The public bytes that belong to 64 private bytes.
pub open spec fn public_of(secret: Seq<u8>) -> Seq<u8> {
    x25519_public(secret.subrange(0, 32))@ + ed25519_public(secret.subrange(32, 64))@
}

/// A local identity, holding both secret keys.
pub struct PrivateIdentity {
    x25519: [u8; 32],
    ed25519: [u8; 32],
    public: Identity,
}

impl View for PrivateIdentity {
    type V = Seq<u8>;

    /// The 64 private bytes.
    closed spec fn view(&self) -> Seq<u8> {
        self.x25519@ + self.ed25519@
    }
}

impl PrivateIdentity {
    /// The public half is the one the secret keys imply, and its Ed25519 key is a point.
    #[verifier::type_invariant]
    spec fn halves_match(self) -> bool {
        &&& self.public.x25519 == x25519_public(self.x25519@)
        &&& self.public.ed25519 == ed25519_public(self.ed25519@)
        &&& ed25519_point(self.public.ed25519@)
    }

    /// Build from the 64-byte private form: `x25519_secret(32) || ed25519_seed(32)`.
    pub fn from_secret_bytes(bytes: &[u8; IDENTITY_LEN]) -> (identity: Self)
        ensures
            identity@ == bytes@,
    {
        let slice: &[u8] = bytes;
        let x = bytes::array_at::<32>(slice, 0);
        let e = bytes::array_at::<32>(slice, 32);
        assert(bytes@ =~= x@ + e@);
        let public = Identity { x25519: x25519_public_of(&x), ed25519: verifying_key_of(&e) };
        PrivateIdentity { x25519: x, ed25519: e, public }
    }

    /// The 64-byte private form.
    pub fn to_secret_bytes(&self) -> (bytes: [u8; IDENTITY_LEN])
        ensures
            bytes@ == self@,
    {
        joined(&self.x25519, &self.ed25519)
    }

    /// The public half.
    pub fn public(&self) -> (identity: &Identity)
        ensures
            identity@ == public_of(self@),
            ed25519_point(identity@.subrange(32, 64)),
    {
        proof {
            use_type_invariant(self);
            assert(self@.subrange(0, 32) =~= self.x25519@);
            assert(self@.subrange(32, 64) =~= self.ed25519@);
            assert(self.public@.subrange(32, 64) =~= self.public.ed25519@);
        }
        &self.public
    }

    /// Shorthand for `self.public().hash()`.
    pub fn hash(&self) -> (hash: AddressHash)
        ensures
            hash@ == address_of(public_of(self@)),
    {
        self.public().hash()
    }

    /// Sign a message with the Ed25519 half. The signature stands under the public half, unless
    /// it commits to the neutral point.
    pub fn sign(&self, message: &[u8]) -> (signature: [u8; SIGNATURE_LEN])
        ensures
            signature == ed25519_signature(self@.subrange(32, 64), message@),
            commits_to_nothing(signature@) || ed25519_verifies(
                public_of(self@).subrange(32, 64),
                message@,
                signature@,
            ),
    {
        assert(self@.subrange(32, 64) =~= self.ed25519@);
        assert(public_of(self@).subrange(32, 64) =~= ed25519_public(self.ed25519@)@);
        sign_with(&self.ed25519, message)
    }

    /// X25519 ECDH against a peer's public key.
    pub fn diffie_hellman(&self, peer: &[u8; KEY_LEN]) -> (shared: [u8; KEY_LEN])
        ensures
            shared == x25519_shared(self@.subrange(0, 32), peer@),
    {
        assert(self@.subrange(0, 32) =~= self.x25519@);
        x25519_agree(&self.x25519, peer)
    }
}

impl Clone for PrivateIdentity {
    fn clone(&self) -> (copy: Self)
        ensures
            copy@ == self@,
    {
        proof {
            use_type_invariant(self);
        }
        PrivateIdentity { x25519: self.x25519, ed25519: self.ed25519, public: self.public }
    }
}
/// An identity's public bytes are the keys its two secrets imply, each 32 bytes: the one for
/// agreement first, and then the one for signatures.
pub proof fn law_public_halves_belong_to_the_secrets(agreement: Seq<u8>, signing: Seq<u8>)
    requires
        agreement.len() == 32,
        signing.len() == 32,
    ensures
        public_of(agreement + signing).len() == 64,
        public_of(agreement + signing).subrange(0, 32) == x25519_public(agreement)@,
        public_of(agreement + signing).subrange(32, 64) == ed25519_public(signing)@,
{
    let secret = agreement + signing;
    assert(secret.subrange(0, 32) =~= agreement);
    assert(secret.subrange(32, 64) =~= signing);
    assert(public_of(secret).subrange(0, 32) =~= x25519_public(agreement)@);
    assert(public_of(secret).subrange(32, 64) =~= ed25519_public(signing)@);
}

} // verus!
