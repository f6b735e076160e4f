//! Per-interface authentication and virtual-network separation.
//!
//! IFAC is a carrier envelope, not part of a logical Reticulum packet. An ingress
//! interface unmasks and verifies it before [`crate::packet::Packet::decode`]; an
//! egress interface signs and masks the logical packet again with its own
//! credentials.

use vstd::prelude::*;
use vstd::utf8::encode_utf8;

use crate::bytes;
use crate::hash::{full_hash, sha256};
use crate::identity::{ed25519_signature, sign_with};
use crate::packet::MTU;
use crate::Error;

verus! {

/// Smallest supported access code.
pub const MIN_SIZE: usize = 1;

/// Largest supported access code: one complete Ed25519 signature.
pub const MAX_SIZE: usize = 64;

/// Reticulum's usual access-code size for stream interfaces.
pub const DEFAULT_SIZE: usize = 8;

/// The salt interface keys are derived with.
pub open spec fn ifac_salt() -> Seq<u8> {
    seq![
        0xad, 0xf5, 0x4d, 0x88, 0x2c, 0x9a, 0x9b, 0x80, 0x77, 0x1e, 0xb4, 0x99, 0x5d, 0x70, 0x2d,
        0x4a, 0x3e, 0x73, 0x33, 0x91, 0xb2, 0xa0, 0xf5, 0x3f, 0x41, 0x6d, 0x9f, 0x90, 0x7e, 0x55,
        0xcf, 0xf8,
    ]
}

/// HKDF-SHA256 without info: `length` bytes expanded from what is extracted from a salt and
/// input key material.
pub uninterp spec fn hkdf_sha256(salt: Seq<u8>, input: Seq<u8>, length: nat) -> Seq<u8>;

/// `hkdf::Hkdf::<Sha256>::new` and `expand` with empty info: `length` bytes, which are a
/// function of the salt, the input and the length. The crate expands at most 255 digests,
/// which is 8160 bytes.
#[verifier::external_body]
fn hkdf_expand(salt: &[u8], input: &[u8], length: usize) -> (out: Vec<u8>)
    requires
        length <= 8160,
    ensures
        out@ == hkdf_sha256(salt@, input@, length as nat),
        out@.len() == length,
{
    let mut out = vec![0u8; length];
    let derived = hkdf::Hkdf::<sha2::Sha256>::new(Some(salt), input).expand(&[], &mut out);
    derived.expect("the length was checked");
    out
}

/// Invalid IFAC configuration.
#[derive(Clone, Copy, Debug, PartialEq, Eq, Structural)]
pub enum ConfigError {
    /// Neither a network name nor a passphrase was supplied.
    MissingCredentials,
    /// The access code was outside the protocol's 1-64-byte range.
    InvalidSize,
}

impl ConfigError {
    /// The error in words.
    pub fn message(&self) -> (text: &'static str)
        ensures
            text@ == match *self {
                ConfigError::MissingCredentials =>
                    "IFAC needs a network name, a passphrase, or both"@,
                ConfigError::InvalidSize => "IFAC size must be between 1 and 64 bytes"@,
            },
    {
        match self {
            ConfigError::MissingCredentials => "IFAC needs a network name, a passphrase, or both",
            ConfigError::InvalidSize => "IFAC size must be between 1 and 64 bytes",
        }
    }
}

/// The digest of a credential, or nothing.
pub open spec fn credential_digest(credential: Option<&str>) -> Seq<u8> {
    match credential {
        Some(text) => sha256(encode_utf8(text@))@,
        None => Seq::empty(),
    }
}

/// The interface key that a network name and a passphrase imply.
pub open spec fn ifac_key(network_name: Option<&str>, passphrase: Option<&str>) -> Seq<u8> {
    let origin = credential_digest(network_name) + credential_digest(passphrase);
    hkdf_sha256(ifac_salt(), sha256(origin)@, 64)
}

/// A byte with its highest bit cleared.
pub open spec fn flag_cleared(b: u8) -> u8 {
    b & 0x7f
}

/// A packet with the access-code flag cleared.
pub open spec fn plain(packet: Seq<u8>) -> Seq<u8> {
    packet.update(0, flag_cleared(packet[0]))
}

/// Shared credentials and code length for one authenticated interface.
pub struct Ifac {
    key: [u8; 64],
    seed: [u8; 32],
    size: usize,
}

/// What an interface's credentials are.
pub struct IfacModel {
    pub key: Seq<u8>,
    pub size: nat,
}

impl IfacModel {
    /// Whether the code length is one the protocol has, and the key has its length.
    pub open spec fn wf(self) -> bool {
        MIN_SIZE <= self.size <= MAX_SIZE && self.key.len() == 64
    }

    /// The access code of a logical packet: the end of its signature.
    pub open spec fn code(self, logical: Seq<u8>) -> Seq<u8> {
        ed25519_signature(self.key.subrange(32, 64), logical)@.subrange(64 - self.size, 64)
    }

    /// A frame with everything but the access code masked, or unmasked, by what the key and
    /// the code imply.
    pub open spec fn masked(self, frame: Seq<u8>, code: Seq<u8>) -> Seq<u8> {
        let mask = hkdf_sha256(self.key, code, frame.len());
        Seq::new(
            frame.len(),
            |i: int|
                if i <= 1 || i >= 2 + self.size {
                    frame[i] ^ mask[i]
                } else {
                    frame[i]
                },
        )
    }

    /// A logical packet with its access code in it, before masking.
    pub open spec fn coded(self, logical: Seq<u8>) -> Seq<u8> {
        seq![logical[0] | 0x80, logical[1]] + self.code(logical) + logical.subrange(
            2,
            logical.len() as int,
        )
    }

    /// What is sent for a packet.
    pub open spec fn sealed(self, packet: Seq<u8>) -> Seq<u8> {
        self.masked(self.coded(plain(packet)), self.code(plain(packet)))
    }

    /// The access code a frame carries.
    pub open spec fn carried_code(self, frame: Seq<u8>) -> Seq<u8> {
        frame.subrange(2, 2 + self.size as int)
    }

    /// The packet inside a frame.
    pub open spec fn inner(self, frame: Seq<u8>) -> Seq<u8> {
        let unmasked = self.masked(frame, self.carried_code(frame));
        seq![flag_cleared(unmasked[0]), unmasked[1]] + unmasked.subrange(
            2 + self.size as int,
            unmasked.len() as int,
        )
    }

    /// Why a frame is not let in, if it is not.
    pub open spec fn refusal(self, frame: Seq<u8>) -> Option<Error> {
        let code = self.carried_code(frame);
        if frame.len() < 2 + self.size {
            Some(Error::Truncated)
        } else if frame.len() > MTU + self.size {
            Some(Error::Oversize)
        } else if self.masked(frame, code)[0] & 0x80 == 0 {
            Some(Error::BadIfac)
        } else if self.code(self.inner(frame)) != code {
            Some(Error::BadIfac)
        } else {
            None
        }
    }
}

impl View for Ifac {
    type V = IfacModel;

    closed spec fn view(&self) -> IfacModel {
        IfacModel { key: self.key@, size: self.size as nat }
    }
}

/// The digest of a credential appended to what there is.
fn append_credential(origin: &mut Vec<u8>, credential: Option<&str>)
    ensures
        final(origin)@ == old(origin)@ + credential_digest(credential),
{
    match credential {
        Some(text) => {
            let digest = full_hash(text.as_bytes());
            bytes::append(origin, &digest);
        },
        None => {
            assert(origin@ + Seq::<u8>::empty() =~= origin@);
        },
    }
}

impl Ifac {
    /// The code length is one the protocol has, and the seed is the second half of the key.
    #[verifier::type_invariant]
    spec fn sized(self) -> bool {
        &&& MIN_SIZE <= self.size <= MAX_SIZE
        &&& self.seed@ == self.key@.subrange(32, 64)
    }

    /// Derive an interface identity from a network name and/or passphrase.
    ///
    /// `size` is measured in bytes. Reticulum configuration files express the same value in
    /// bits.
    pub fn new(network_name: Option<&str>, passphrase: Option<&str>, size: usize) -> (result: Result<
        Self,
        ConfigError,
    >)
        ensures
            match result {
                Ok(ifac) => (network_name is Some || passphrase is Some) && MIN_SIZE <= size
                    <= MAX_SIZE && ifac@ == (IfacModel {
                    key: ifac_key(network_name, passphrase),
                    size: size as nat,
                }) && ifac@.wf(),
                Err(ConfigError::MissingCredentials) => network_name is None && passphrase is None,
                Err(ConfigError::InvalidSize) => (network_name is Some || passphrase is Some) && !(
                MIN_SIZE <= size <= MAX_SIZE),
            },
    {
        if network_name.is_none() && passphrase.is_none() {
            return Err(ConfigError::MissingCredentials);
        }
        if size < MIN_SIZE || size > MAX_SIZE {
            return Err(ConfigError::InvalidSize);
        }
        let mut origin: Vec<u8> = Vec::new();
        append_credential(&mut origin, network_name);
        append_credential(&mut origin, passphrase);
        assert(origin@ =~= credential_digest(network_name) + credential_digest(passphrase));
        let origin_hash = full_hash(origin.as_slice());
        let salt: [u8; 32] = [
            0xad, 0xf5, 0x4d, 0x88, 0x2c, 0x9a, 0x9b, 0x80, 0x77, 0x1e, 0xb4, 0x99, 0x5d, 0x70,
            0x2d, 0x4a, 0x3e, 0x73, 0x33, 0x91, 0xb2, 0xa0, 0xf5, 0x3f, 0x41, 0x6d, 0x9f, 0x90,
            0x7e, 0x55, 0xcf, 0xf8,
        ];
        assert(salt@ =~= ifac_salt());
        let derived = hkdf_expand(&salt, &origin_hash, 64);
        let key = bytes::array_at::<64>(derived.as_slice(), 0);
        let seed = bytes::array_at::<32>(derived.as_slice(), 32);
        assert(key@ =~= derived@);
        Ok(Ifac { key, seed, size })
    }

    /// Derive credentials using the usual eight-byte access code.
    pub fn with_default_size(network_name: Option<&str>, passphrase: Option<&str>) -> (result: Result<
        Self,
        ConfigError,
    >)
        ensures
            match result {
                Ok(ifac) => (network_name is Some || passphrase is Some) && ifac@ == (IfacModel {
                    key: ifac_key(network_name, passphrase),
                    size: DEFAULT_SIZE as nat,
                }) && ifac@.wf(),
                Err(e) => network_name is None && passphrase is None && e
                    == ConfigError::MissingCredentials,
            },
    {
        Ifac::new(network_name, passphrase, DEFAULT_SIZE)
    }

    /// Number of bytes this envelope adds to every packet.
    pub fn size(&self) -> (size: usize)
        ensures
            size == self@.size,
            self@.wf(),
    {
        proof {
            use_type_invariant(self);
        }
        self.size
    }

    /// The access code of a logical packet.
    fn code(&self, packet: &[u8]) -> (code: Vec<u8>)
        ensures
            code@ == self@.code(packet@),
            code@.len() == self@.size,
    {
        proof {
            use_type_invariant(self);
        }
        let signature = sign_with(&self.seed, packet);
        bytes::copy_range(&signature, 64 - self.size, 64)
    }

    /// Mask or unmask everything but the access code.
    fn apply_mask(&self, packet: &Vec<u8>, code: &[u8]) -> (out: Vec<u8>)
        requires
            packet@.len() <= 8160,
        ensures
            out@ == self@.masked(packet@, code@),
    {
        proof {
            use_type_invariant(self);
        }
        let mask = hkdf_expand(&self.key, code, packet.len());
        let mut out: Vec<u8> = Vec::new();
        let mut i: usize = 0;
        while i < packet.len()
            invariant
                i <= packet@.len(),
                packet@.len() <= 8160,
                self.size <= 64,
                mask@ == hkdf_sha256(self@.key, code@, packet@.len()),
                mask@.len() == packet@.len(),
                out@ == self@.masked(packet@, code@).subrange(0, i as int),
            decreases packet@.len() - i,
        {
            if i <= 1 || i >= 2 + self.size {
                out.push(packet[i] ^ mask[i]);
            } else {
                out.push(packet[i]);
            }
            i += 1;
            assert(out@ =~= self@.masked(packet@, code@).subrange(0, i as int));
        }
        assert(self@.masked(packet@, code@).subrange(0, i as int) =~= self@.masked(
            packet@,
            code@,
        ));
        out
    }

    /// Sign and mask one logical packet for this interface.
    pub fn seal(&self, packet: &[u8]) -> (result: Result<Vec<u8>, Error>)
        ensures
            match result {
                Ok(wire) => 2 <= packet@.len() <= MTU && wire@ == self@.sealed(packet@),
                Err(e) => if packet@.len() < 2 {
                    e == Error::Truncated
                } else {
                    packet@.len() > MTU && e == Error::Oversize
                },
            },
    {
        proof {
            use_type_invariant(self);
        }
        if packet.len() < 2 {
            return Err(Error::Truncated);
        }
        if packet.len() > MTU {
            return Err(Error::Oversize);
        }
        let mut logical = bytes::copy_all(packet);
        logical.set(0, packet[0] & 0x7f);
        assert(logical@ =~= plain(packet@));
        let code = self.code(logical.as_slice());
        let mut wire: Vec<u8> = Vec::new();
        wire.push(logical[0] | 0x80);
        wire.push(logical[1]);
        bytes::append(&mut wire, code.as_slice());
        let tail = bytes::copy_range(logical.as_slice(), 2, logical.len());
        bytes::append(&mut wire, tail.as_slice());
        assert(wire@ =~= self@.coded(logical@));
        Ok(self.apply_mask(&wire, code.as_slice()))
    }

    /// Unmask and authenticate one interface frame.
    ///
    /// Successful output is the original logical packet with the IFAC flag cleared and the
    /// access-code field removed.
    pub fn open(&self, frame: &[u8]) -> (result: Result<Vec<u8>, Error>)
        ensures
            match result {
                Ok(logical) => self@.refusal(frame@) is None && logical@ == self@.inner(frame@),
                Err(e) => self@.refusal(frame@) == Some(e),
            },
    {
        proof {
            use_type_invariant(self);
        }
        if frame.len() < 2 + self.size {
            return Err(Error::Truncated);
        }
        if frame.len() > MTU + self.size {
            return Err(Error::Oversize);
        }
        let code = bytes::copy_range(frame, 2, 2 + self.size);
        let whole = bytes::copy_all(frame);
        let unmasked = self.apply_mask(&whole, code.as_slice());
        if unmasked[0] & 0x80 == 0 {
            return Err(Error::BadIfac);
        }
        let mut logical: Vec<u8> = Vec::new();
        logical.push(unmasked[0] & 0x7f);
        logical.push(unmasked[1]);
        let tail = bytes::copy_range(unmasked.as_slice(), 2 + self.size, unmasked.len());
        bytes::append(&mut logical, tail.as_slice());
        assert(logical@ =~= self@.inner(frame@));
        let expected = self.code(logical.as_slice());
        if !bytes::equal(expected.as_slice(), code.as_slice()) {
            return Err(Error::BadIfac);
        }
        Ok(logical)
    }
}

impl Clone for Ifac {
    fn clone(&self) -> (copy: Self)
        ensures
            copy@ == self@,
    {
        proof {
            use_type_invariant(self);
        }
        Ifac { key: self.key, seed: self.seed, size: self.size }
    }
}

/// Masking is undone by masking again under the same code.
pub proof fn law_mask_is_an_involution(ifac: IfacModel, frame: Seq<u8>, code: Seq<u8>)
    ensures
        ifac.masked(ifac.masked(frame, code), code) == frame,
{
    let mask = hkdf_sha256(ifac.key, code, frame.len());
    let once = ifac.masked(frame, code);
    assert(once.len() == frame.len());
    assert forall|i: int| 0 <= i < frame.len() implies ifac.masked(once, code)[i] == frame[i] by {
        let f = frame[i];
        let m = mask[i];
        assert((f ^ m) ^ m == f) by (bit_vector);
    }
    assert(ifac.masked(once, code) =~= frame);
}

/// What is sealed opens: under the same credentials, a sealed packet is let in, and what
/// comes out is the packet with its access-code flag cleared. The envelope adds exactly the
/// code's length.
pub proof fn law_sealed_packet_opens(ifac: IfacModel, packet: Seq<u8>)
    requires
        ifac.wf(),
        2 <= packet.len() <= MTU,
    ensures
        ifac.sealed(packet).len() == packet.len() + ifac.size,
        ifac.refusal(ifac.sealed(packet)) is None,
        ifac.inner(ifac.sealed(packet)) == plain(packet),
{
    let logical = plain(packet);
    let code = ifac.code(logical);
    let coded = ifac.coded(logical);
    let frame = ifac.sealed(packet);
    assert(code.len() == ifac.size);
    assert(coded.len() == packet.len() + ifac.size);
    assert(frame.len() == coded.len());
    assert(ifac.carried_code(frame) =~= code) by {
        assert forall|i: int| 0 <= i < ifac.size implies ifac.carried_code(frame)[i] == code[i] by {
            assert(frame[2 + i] == coded[2 + i]);
        }
    }
    law_mask_is_an_involution(ifac, coded, code);
    let unmasked = ifac.masked(frame, code);
    assert(unmasked == coded);
    let b = packet[0];
    assert((b & 0x7f) | 0x80 == 0x80u8 | (b & 0x7f)) by (bit_vector);
    assert(((b & 0x7f) | 0x80) & 0x80 == 0x80) by (bit_vector);
    assert(((b & 0x7f) | 0x80) & 0x7f == b & 0x7f) by (bit_vector);
    assert(unmasked.subrange(2 + ifac.size as int, unmasked.len() as int) =~= logical.subrange(
        2,
        logical.len() as int,
    ));
    assert(ifac.inner(frame) =~= logical);
}

/// Where everything stands in a sealed frame: the packet's two first bytes with the access-code
/// flag set, then the code, which is the end of the signature over the packet without the flag,
/// and then the rest of the packet. All but the code is masked by what the key and the code
/// expand to.
pub proof fn law_sealed_frame_layout(ifac: IfacModel, packet: Seq<u8>, i: int)
    requires
        ifac.wf(),
        2 <= packet.len() <= MTU,
        0 <= i < packet.len() + ifac.size,
    ensures
        ({
            let frame = ifac.sealed(packet);
            let clear = packet.update(0, packet[0] & 0x7f);
            let signature = ed25519_signature(ifac.key.subrange(32, 64), clear)@;
            let code = signature.subrange(64 - ifac.size, 64);
            let mask = hkdf_sha256(ifac.key, code, packet.len() + ifac.size);
            &&& frame.len() == packet.len() + ifac.size
            &&& i == 0 ==> frame[i] == ((packet[0] & 0x7f) | 0x80) ^ mask[0]
            &&& i == 1 ==> frame[i] == packet[1] ^ mask[1]
            &&& 2 <= i < 2 + ifac.size ==> frame[i] == code[i - 2]
            &&& i >= 2 + ifac.size ==> frame[i] == packet[i - ifac.size] ^ mask[i]
        }),
{
    law_sealed_packet_opens(ifac, packet);
    let logical = plain(packet);
    assert(logical =~= packet.update(0, packet[0] & 0x7f));
    assert(ifac.code(logical).len() == ifac.size);
    assert(ifac.coded(logical).len() == packet.len() + ifac.size);
}

/// A frame is let in exactly where it is as long as a code and a packet's first bytes, no
/// longer than a packet with a code, flagged once unmasked, and its code is the end of the
/// signature over the packet in it. That packet is the frame unmasked, without code and flag.
pub proof fn law_frame_is_let_in_by_its_code(ifac: IfacModel, frame: Seq<u8>)
    requires
        ifac.wf(),
    ensures
        ({
            let size = ifac.size as int;
            let code = frame.subrange(2, 2 + size);
            let mask = hkdf_sha256(ifac.key, code, frame.len());
            let inside = Seq::new(
                (frame.len() - size) as nat,
                |i: int|
                    if i == 0 {
                        (frame[0] ^ mask[0]) & 0x7f
                    } else if i == 1 {
                        frame[1] ^ mask[1]
                    } else {
                        frame[i + size] ^ mask[i + size]
                    },
            );
            let signature = ed25519_signature(ifac.key.subrange(32, 64), inside)@;
            &&& frame.len() < 2 + size ==> ifac.refusal(frame) == Some(Error::Truncated)
            &&& frame.len() > 500 + size ==> ifac.refusal(frame) == Some(Error::Oversize)
            &&& 2 + size <= frame.len() <= 500 + size ==> {
                &&& ifac.inner(frame) == inside
                &&& ifac.refusal(frame) is None <==> (frame[0] ^ mask[0]) & 0x80 != 0
                    && signature.subrange(64 - size, 64) == code
                &&& ifac.refusal(frame) is None || ifac.refusal(frame) == Some(Error::BadIfac)
            }
        }),
{
    let size = ifac.size as int;
    if 2 + size <= frame.len() <= 500 + size {
        let code = frame.subrange(2, 2 + size);
        let mask = hkdf_sha256(ifac.key, code, frame.len());
        let inside = Seq::new(
            (frame.len() - size) as nat,
            |i: int|
                if i == 0 {
                    (frame[0] ^ mask[0]) & 0x7f
                } else if i == 1 {
                    frame[1] ^ mask[1]
                } else {
                    frame[i + size] ^ mask[i + size]
                },
        );
        assert(ifac.inner(frame) =~= inside);
    }
}

/// The interface key is expanded from the digests of the network name and the passphrase, in
/// that order, each where there is one.
pub proof fn law_key_is_drawn_from_both_credentials(name: &str, phrase: &str)
    ensures
        ({
            let a = sha256(encode_utf8(name@))@;
            let b = sha256(encode_utf8(phrase@))@;
            &&& ifac_key(Some(name), Some(phrase)) == hkdf_sha256(
                ifac_salt(),
                sha256(a + b)@,
                64,
            )
            &&& ifac_key(Some(name), None) == hkdf_sha256(ifac_salt(), sha256(a)@, 64)
            &&& ifac_key(None, Some(phrase)) == hkdf_sha256(ifac_salt(), sha256(b)@, 64)
        }),
{
    let a = sha256(encode_utf8(name@))@;
    let b = sha256(encode_utf8(phrase@))@;
    assert(a + Seq::<u8>::empty() =~= a);
    assert(Seq::<u8>::empty() + b =~= b);
}

} // verus!
