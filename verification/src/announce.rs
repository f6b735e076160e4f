//! Announces: building them, and validating them.
//!
//! # Layout
//!
//! The announce payload, in wire order:
//!
//! ```text
//! x25519_pub(32) || ed25519_pub(32) || name_hash(10) || rand_hash(10)
//!                || [ratchet(32)]   || signature(64) || app_data(*)
//! ```
//!
//! The ratchet is present exactly when the packet's context flag is set.
//!
//! # The signed message is not the payload
//!
//! The Ed25519 signature covers:
//!
//! ```text
//! dest_hash(16) || x25519_pub(32) || ed25519_pub(32) || name_hash(10) || rand_hash(10)
//!               || [ratchet(32)]  || app_data(*)
//! ```
//!
//! So the destination hash is prepended, and it *is not in the payload at all* (it lives in
//! the packet header); and the signature itself is spliced out, which moves `app_data`.

use vstd::prelude::*;

use crate::bytes;
use crate::destination::{destination_hash, destination_of};
use crate::hash::{address_of, name_of, AddressHash, NameHash};
use crate::identity::{
    commits_to_nothing, ed25519_point, ed25519_signature, ed25519_verifies, public_of, Identity,
    PrivateIdentity,
};
use crate::packet::{
    DestinationType, HeaderType, Packet, PacketModel, PacketType, Propagation,
};
use crate::Error;

verus! {

/// Length of the random hash carried in an announce.
pub const RAND_HASH_LEN: usize = 10;

/// Bytes of per-announce unpredictable nonce material in an announce blob.
pub const ANNOUNCE_NONCE_LEN: usize = 5;

/// Largest value that fits in the announce blob's 40-bit timebase field.
pub const ANNOUNCE_TIMEBASE_MAX: u64 = 0xff_ffff_ffff;

/// Length of a ratchet public key. An X25519 public key.
pub const RATCHET_LEN: usize = 32;

/// Smallest valid announce payload: both keys, both hashes, a signature, no app data.
pub const MIN_PAYLOAD_LEN: usize = 148;

/// Why a timebase value or its ordinal state cannot be used.
#[derive(Clone, Copy, Debug, PartialEq, Eq, Structural)]
pub enum TimebaseError {
    /// A value cannot be represented in the wire's 40-bit field.
    OutOfRange,
    /// The last emitted value is above the reserved ceiling.
    InvalidBounds,
    /// The next strictly newer value would exceed the reserved ceiling.
    Exhausted,
}

/// The ten-byte nonce-and-timebase field carried by an announce.
///
/// [`Self::from_wire`] preserves bytes decoded from an existing packet. It does not imply
/// that the sender minted a fresh value. [`Self::mint`] is for emission: it accepts the
/// nonce and checked whole-second timebase separately, then writes the exact wire layout
/// `nonce[5] || timebase_be[5]`.
#[derive(Clone, Copy, Debug, Eq, Hash)]
pub struct AnnounceBlob {
    bytes: [u8; 10],
}

impl View for AnnounceBlob {
    type V = Seq<u8>;

    closed spec fn view(&self) -> Seq<u8> {
        self.bytes@
    }
}

/// The timebase that ten blob bytes carry: the number their last five spell.
pub open spec fn timebase_of(blob: Seq<u8>) -> nat {
    bytes::be_value(blob.subrange(5, 10))
}

/// Five bytes spell what their digits add up to.
proof fn lemma_five_digits(s: Seq<u8>)
    requires
        s.len() == 5,
    ensures
        bytes::be_value(s) == s[0] * 0x1_0000_0000 + s[1] * 0x100_0000 + s[2] * 0x1_0000 + s[3]
            * 0x100 + s[4],
        bytes::be_value(s) <= ANNOUNCE_TIMEBASE_MAX,
{
    reveal_with_fuel(bytes::be_value, 6);
    let s4 = s.drop_last();
    let s3 = s4.drop_last();
    let s2 = s3.drop_last();
    let s1 = s2.drop_last();
    assert(s4.last() == s[3]);
    assert(s3.last() == s[2]);
    assert(s2.last() == s[1]);
    assert(s1.last() == s[0]);
    assert(bytes::be_value(s1.drop_last()) == 0);
}

/// A 40-bit number is what its five digits add up to.
proof fn lemma_timebase_digits(t: u64)
    requires
        t <= ANNOUNCE_TIMEBASE_MAX,
    ensures
        t / 0x1_0000_0000 < 0x100,
        t == t / 0x1_0000_0000 * 0x1_0000_0000 + t / 0x100_0000 % 0x100 * 0x100_0000 + t / 0x1_0000
            % 0x100 * 0x1_0000 + t / 0x100 % 0x100 * 0x100 + t % 0x100,
{
    assert(t / 0x1_0000_0000 < 0x100 && t == t / 0x1_0000_0000 * 0x1_0000_0000 + t / 0x100_0000
        % 0x100 * 0x100_0000 + t / 0x1_0000 % 0x100 * 0x1_0000 + t / 0x100 % 0x100 * 0x100 + t
        % 0x100) by (bit_vector)
        requires
            t <= 0xff_ffff_ffff,
    ;
}

/// Every blob's timebase fits the 40-bit field.
pub proof fn lemma_timebase_fits(blob: Seq<u8>)
    requires
        blob.len() == 10,
    ensures
        timebase_of(blob) <= ANNOUNCE_TIMEBASE_MAX,
{
    lemma_five_digits(blob.subrange(5, 10));
}

impl AnnounceBlob {
    /// A blob is exactly its ten bytes.
    pub broadcast proof fn lemma_bytes_decide(a: AnnounceBlob, b: AnnounceBlob)
        ensures
            #![trigger a@, b@]
            a@.len() == 10,
            a@ == b@ ==> a == b,
    {
        if a@ == b@ {
            assert forall|i: int| 0 <= i < 10 implies a.bytes[i] == b.bytes[i] by {
                assert(a@[i] == b@[i]);
            }
            assert(a.bytes =~= b.bytes);
        }
    }

    /// The timebase half as a number.
    pub open spec fn ordinal(self) -> nat {
        timebase_of(self@)
    }

    /// The blob with given bytes.
    pub open spec fn of(bytes: Seq<u8>) -> AnnounceBlob {
        choose|blob: AnnounceBlob| blob@ == bytes
    }

    /// The blob with a given nonce and timebase.
    pub open spec fn minted(nonce: Seq<u8>, timebase: u64) -> AnnounceBlob {
        choose|blob: AnnounceBlob|
            blob@.subrange(0, 5) == nonce && #[trigger] blob.ordinal() == timebase
    }

    /// Preserve a blob decoded from the wire exactly as received.
    pub fn from_wire(bytes: [u8; RAND_HASH_LEN]) -> (blob: Self)
        ensures
            blob@ == bytes@,
            blob == AnnounceBlob::of(bytes@),
    {
        let blob = AnnounceBlob { bytes };
        proof {
            assert(blob@ == bytes@);
            AnnounceBlob::lemma_bytes_decide(AnnounceBlob::of(bytes@), blob);
        }
        blob
    }

    /// Mint a blob from a five-byte nonce and a checked 40-bit whole-second timebase.
    pub fn mint(nonce: [u8; ANNOUNCE_NONCE_LEN], timebase: u64) -> (result: Result<
        Self,
        TimebaseError,
    >)
        ensures
            match result {
                Ok(blob) => timebase <= ANNOUNCE_TIMEBASE_MAX && blob@.subrange(0, 5) == nonce@
                    && blob.ordinal() == timebase && blob == AnnounceBlob::minted(nonce@, timebase),
                Err(e) => timebase > ANNOUNCE_TIMEBASE_MAX && e == TimebaseError::OutOfRange,
            },
    {
        if timebase > ANNOUNCE_TIMEBASE_MAX {
            return Err(TimebaseError::OutOfRange);
        }
        let d0: u8 = (timebase / 0x1_0000_0000) as u8;
        let d1: u8 = (timebase / 0x100_0000 % 0x100) as u8;
        let d2: u8 = (timebase / 0x1_0000 % 0x100) as u8;
        let d3: u8 = (timebase / 0x100 % 0x100) as u8;
        let d4: u8 = (timebase % 0x100) as u8;
        let bytes = [nonce[0], nonce[1], nonce[2], nonce[3], nonce[4], d0, d1, d2, d3, d4];
        let blob = AnnounceBlob { bytes };
        proof {
            assert(blob@.subrange(0, 5) =~= nonce@);
            lemma_timebase_digits(timebase);
            let tail = blob@.subrange(5, 10);
            assert(tail[0] == d0 && tail[1] == d1 && tail[2] == d2 && tail[3] == d3 && tail[4]
                == d4);
            lemma_five_digits(tail);
            assert(blob.ordinal() == timebase);
            law_blob_is_nonce_and_timebase(blob, AnnounceBlob::minted(nonce@, timebase));
        }
        Ok(blob)
    }

    /// The nonce half, in its exact wire order.
    pub fn nonce(&self) -> (nonce: [u8; ANNOUNCE_NONCE_LEN])
        ensures
            nonce@ == self@.subrange(0, 5),
    {
        let nonce = [self.bytes[0], self.bytes[1], self.bytes[2], self.bytes[3], self.bytes[4]];
        assert(nonce@ =~= self@.subrange(0, 5));
        nonce
    }

    /// The big-endian, 40-bit whole-second timebase half.
    pub fn timebase(&self) -> (timebase: u64)
        ensures
            timebase == self.ordinal(),
            timebase <= ANNOUNCE_TIMEBASE_MAX,
    {
        proof {
            lemma_five_digits(self@.subrange(5, 10));
        }
        self.bytes[5] as u64 * 0x1_0000_0000 + self.bytes[6] as u64 * 0x100_0000
            + self.bytes[7] as u64 * 0x1_0000 + self.bytes[8] as u64 * 0x100
            + self.bytes[9] as u64
    }

    /// The exact ten bytes.
    pub fn into_bytes(self) -> (bytes: [u8; RAND_HASH_LEN])
        ensures
            bytes@ == self@,
    {
        self.bytes
    }

    /// Borrow the exact ten wire bytes.
    pub fn as_bytes(&self) -> (bytes: &[u8; RAND_HASH_LEN])
        ensures
            bytes@ == self@,
    {
        &self.bytes
    }
}

impl PartialEq for AnnounceBlob {
    fn eq(&self, other: &Self) -> (same: bool) {
        proof {
            AnnounceBlob::lemma_bytes_decide(*self, *other);
        }
        bytes::equal(&self.bytes, &other.bytes)
    }
}

impl vstd::std_specs::cmp::PartialEqSpecImpl for AnnounceBlob {
    open spec fn obeys_eq_spec() -> bool {
        true
    }

    open spec fn eq_spec(&self, other: &Self) -> bool {
        *self == *other
    }
}

/// A blob is decided by the nonce and the timebase it was minted from: minting what a blob
/// carries gives the blob back.
pub proof fn law_blob_is_nonce_and_timebase(a: AnnounceBlob, b: AnnounceBlob)
    requires
        a@.subrange(0, 5) == b@.subrange(0, 5),
        a.ordinal() == b.ordinal(),
    ensures
        a == b,
{
    AnnounceBlob::lemma_bytes_decide(a, b);
    AnnounceBlob::lemma_bytes_decide(b, a);
    bytes::lemma_be_value_injective(a@.subrange(5, 10), b@.subrange(5, 10));
    assert(a@ =~= a@.subrange(0, 5) + a@.subrange(5, 10));
    assert(b@ =~= b@.subrange(0, 5) + b@.subrange(5, 10));
}

/// A pure ordinal generator for an announcing identity's whole-second timebase.
///
/// The caller owns clock acquisition, durable storage, and reservation policy. A desktop
/// process can reserve through [`ANNOUNCE_TIMEBASE_MAX`] with [`Self::host`]. On firmware
/// reboot, `last_emitted` must be the prior durable reservation ceiling, not a checkpoint of
/// the last actual emission. Persist a higher ceiling first, then construct
/// [`Self::firmware_lease`] from that floor and new lease.
#[derive(Clone, Copy, Debug, PartialEq, Eq, Structural)]
pub struct TimebaseGenerator {
    last_emitted: u64,
    reserved_through: u64,
}

impl TimebaseGenerator {
    /// The most recent emitted ordinal.
    pub closed spec fn emitted(self) -> u64 {
        self.last_emitted
    }

    /// The ceiling of what may be emitted.
    pub closed spec fn ceiling(self) -> u64 {
        self.reserved_through
    }

    /// What was emitted is within the ceiling, and the ceiling within the wire's field.
    pub open spec fn inv(self) -> bool {
        self.emitted() <= self.ceiling() <= ANNOUNCE_TIMEBASE_MAX
    }

    /// What the next ordinal is for a source clock that reads `source_seconds`: the later of
    /// the clock and the successor of what was emitted, as far as the reservation goes.
    pub open spec fn following(self, source_seconds: u64) -> Result<u64, TimebaseError> {
        let next = if source_seconds > self.emitted() {
            source_seconds as int
        } else {
            self.emitted() + 1
        };
        if source_seconds > ANNOUNCE_TIMEBASE_MAX {
            Err(TimebaseError::OutOfRange)
        } else if next > self.ceiling() {
            Err(TimebaseError::Exhausted)
        } else {
            Ok(next as u64)
        }
    }

    /// Initialize from the last emitted value and the inclusive durable reservation ceiling.
    pub fn new(last_emitted: u64, reserved_through: u64) -> (result: Result<Self, TimebaseError>)
        ensures
            match result {
                Ok(g) => last_emitted <= reserved_through <= ANNOUNCE_TIMEBASE_MAX && g.emitted()
                    == last_emitted && g.ceiling() == reserved_through && g.inv(),
                Err(TimebaseError::OutOfRange) => last_emitted > ANNOUNCE_TIMEBASE_MAX
                    || reserved_through > ANNOUNCE_TIMEBASE_MAX,
                Err(TimebaseError::InvalidBounds) => reserved_through < last_emitted
                    <= ANNOUNCE_TIMEBASE_MAX,
                Err(TimebaseError::Exhausted) => false,
            },
    {
        if last_emitted > ANNOUNCE_TIMEBASE_MAX || reserved_through > ANNOUNCE_TIMEBASE_MAX {
            return Err(TimebaseError::OutOfRange);
        }
        if last_emitted > reserved_through {
            return Err(TimebaseError::InvalidBounds);
        }
        Ok(TimebaseGenerator { last_emitted, reserved_through })
    }

    /// A host generator whose reservation extends to the wire's maximum value.
    pub fn host(last_emitted: u64) -> (result: Result<Self, TimebaseError>)
        ensures
            match result {
                Ok(g) => last_emitted <= ANNOUNCE_TIMEBASE_MAX && g.emitted() == last_emitted
                    && g.ceiling() == ANNOUNCE_TIMEBASE_MAX && g.inv(),
                Err(e) => last_emitted > ANNOUNCE_TIMEBASE_MAX && e == TimebaseError::OutOfRange,
            },
    {
        TimebaseGenerator::new(last_emitted, ANNOUNCE_TIMEBASE_MAX)
    }

    /// A firmware generator constrained to an already durable inclusive lease.
    pub fn firmware_lease(last_emitted: u64, reserved_through: u64) -> (result: Result<
        Self,
        TimebaseError,
    >)
        ensures
            match result {
                Ok(g) => last_emitted <= reserved_through <= ANNOUNCE_TIMEBASE_MAX && g.emitted()
                    == last_emitted && g.ceiling() == reserved_through && g.inv(),
                Err(TimebaseError::OutOfRange) => last_emitted > ANNOUNCE_TIMEBASE_MAX
                    || reserved_through > ANNOUNCE_TIMEBASE_MAX,
                Err(TimebaseError::InvalidBounds) => reserved_through < last_emitted
                    <= ANNOUNCE_TIMEBASE_MAX,
                Err(TimebaseError::Exhausted) => false,
            },
    {
        TimebaseGenerator::new(last_emitted, reserved_through)
    }

    /// The most recent emitted ordinal.
    pub fn last_emitted(&self) -> (last: u64)
        ensures
            last == self.emitted(),
    {
        self.last_emitted
    }

    /// The inclusive ceiling this generator may emit without another reservation.
    pub fn reserved_through(&self) -> (ceiling: u64)
        ensures
            ceiling == self.ceiling(),
    {
        self.reserved_through
    }

    /// Produce a strictly newer ordinal from a whole-second source.
    ///
    /// The next value is `max(source_seconds, last_emitted + 1)`. It never silently wraps and
    /// never emits beyond `reserved_through`.
    pub fn next(&mut self, source_seconds: u64) -> (result: Result<u64, TimebaseError>)
        requires
            old(self).inv(),
        ensures
            final(self).inv(),
            result == old(self).following(source_seconds),
            final(self).ceiling() == old(self).ceiling(),
            final(self).emitted() == match result {
                Ok(ordinal) => ordinal,
                Err(_) => old(self).emitted(),
            },
    {
        if source_seconds > ANNOUNCE_TIMEBASE_MAX {
            return Err(TimebaseError::OutOfRange);
        }
        let after_last: u64 = self.last_emitted + 1;
        let next: u64 = if source_seconds > after_last {
            source_seconds
        } else {
            after_last
        };
        if next > self.reserved_through {
            return Err(TimebaseError::Exhausted);
        }
        self.last_emitted = next;
        Ok(next)
    }
}

/// A generator never repeats or goes back: an ordinal drawn after another is larger,
/// whatever the source clock did in between, and neither leaves the reservation.
pub proof fn law_ordinals_strictly_increase(
    before: TimebaseGenerator,
    first_seconds: u64,
    first: u64,
    after: TimebaseGenerator,
    second_seconds: u64,
    second: u64,
)
    requires
        before.inv(),
        before.following(first_seconds) == Ok::<u64, TimebaseError>(first),
        after.emitted() >= first,
        after.ceiling() == before.ceiling(),
        after.following(second_seconds) == Ok::<u64, TimebaseError>(second),
    ensures
        before.emitted() < first < second <= before.ceiling() <= ANNOUNCE_TIMEBASE_MAX,
{
}

/// A validated announce.
///
/// [`Announce::decode`] verifies before it returns: an `Announce` it handed out is an
/// announce that verified.
#[derive(Debug)]
pub struct Announce {
    /// The announcing peer's identity, recovered from the payload.
    pub identity: Identity,
    /// The destination hash, taken from the packet header.
    pub destination: AddressHash,
    /// The hash of the destination's name.
    pub name_hash: NameHash,
    /// The nonce and the timebase.
    pub rand_hash: [u8; 10],
    /// The peer's current ratchet public key, if it advertised one.
    pub ratchet: Option<[u8; 32]>,
    /// What the application said.
    pub app_data: Vec<u8>,
}

/// What an announce says, with its byte strings as sequences.
pub struct AnnounceModel {
    pub identity: Seq<u8>,
    pub destination: Seq<u8>,
    pub name_hash: Seq<u8>,
    pub rand_hash: Seq<u8>,
    pub ratchet: Option<Seq<u8>>,
    pub app_data: Seq<u8>,
}

impl View for Announce {
    type V = AnnounceModel;

    open spec fn view(&self) -> AnnounceModel {
        AnnounceModel {
            identity: self.identity@,
            destination: self.destination@,
            name_hash: self.name_hash@,
            rand_hash: self.rand_hash@,
            ratchet: match self.ratchet {
                Some(r) => Some(r@),
                None => None,
            },
            app_data: self.app_data@,
        }
    }
}

impl AnnounceModel {
    /// The bytes of the ratchet, if there is one.
    pub open spec fn ratchet_bytes(self) -> Seq<u8> {
        match self.ratchet {
            Some(r) => r,
            None => Seq::empty(),
        }
    }

    /// The message the signature covers.
    pub open spec fn signed_message(self) -> Seq<u8> {
        self.destination + self.identity + self.name_hash + self.rand_hash + self.ratchet_bytes()
            + self.app_data
    }

    /// The payload with a given signature.
    pub open spec fn payload(self, signature: Seq<u8>) -> Seq<u8> {
        self.identity + self.name_hash + self.rand_hash + self.ratchet_bytes() + signature
            + self.app_data
    }
}

/// Where the signature starts: behind the ratchet, if there is one.
pub open spec fn signature_offset(p: PacketModel) -> int {
    if p.context_flag {
        116
    } else {
        84
    }
}

/// What an announce packet says, field by field.
pub open spec fn announced(p: PacketModel) -> AnnounceModel {
    let at = signature_offset(p);
    AnnounceModel {
        identity: p.payload.subrange(0, 64),
        destination: p.destination@,
        name_hash: p.payload.subrange(64, 74),
        rand_hash: p.payload.subrange(74, 84),
        ratchet: if p.context_flag {
            Some(p.payload.subrange(84, 116))
        } else {
            None
        },
        app_data: p.payload.subrange(at + 64, p.payload.len() as int),
    }
}

/// The signature an announce packet carries.
pub open spec fn announced_signature(p: PacketModel) -> Seq<u8> {
    let at = signature_offset(p);
    p.payload.subrange(at, at + 64)
}

/// Why a packet is no valid announce, if it is none: the first of the checks that fails.
pub open spec fn announce_error(p: PacketModel) -> Option<Error> {
    let a = announced(p);
    if p.packet_type != PacketType::Announce {
        Some(Error::NotAnAnnounce)
    } else if p.payload.len() < signature_offset(p) + 64 {
        Some(Error::Truncated)
    } else if !ed25519_point(a.identity.subrange(32, 64)) {
        Some(Error::BadKey)
    } else if !ed25519_verifies(
        a.identity.subrange(32, 64),
        a.signed_message(),
        announced_signature(p),
    ) {
        Some(Error::BadSignature)
    } else if destination_of(a.name_hash, address_of(a.identity)) != a.destination {
        Some(Error::DestinationMismatch)
    } else {
        None
    }
}

impl Announce {
    /// Assemble the message the signature covers.
    ///
    /// Shared by build and validate so the two cannot drift apart.
    fn signed_message(
        destination: AddressHash,
        identity_public: &[u8; 64],
        name_hash: NameHash,
        rand_hash: &[u8; 10],
        ratchet: Option<[u8; 32]>,
        app_data: &[u8],
    ) -> (message: Vec<u8>)
        ensures
            message@ == (AnnounceModel {
                identity: identity_public@,
                destination: destination@,
                name_hash: name_hash@,
                rand_hash: rand_hash@,
                ratchet: match ratchet {
                    Some(r) => Some(r@),
                    None => None,
                },
                app_data: app_data@,
            }).signed_message(),
    {
        let mut message: Vec<u8> = Vec::new();
        bytes::append(&mut message, destination.as_slice());
        bytes::append(&mut message, identity_public);
        bytes::append(&mut message, name_hash.as_slice());
        bytes::append(&mut message, rand_hash);
        if let Some(r) = &ratchet {
            bytes::append(&mut message, r);
        }
        bytes::append(&mut message, app_data);
        assert(message@ =~= (AnnounceModel {
            identity: identity_public@,
            destination: destination@,
            name_hash: name_hash@,
            rand_hash: rand_hash@,
            ratchet: match ratchet {
                Some(r) => Some(r@),
                None => None,
            },
            app_data: app_data@,
        }).signed_message());
        message
    }

    /// Decode and validate an announce packet.
    ///
    /// Returns [`Error::BadSignature`] if the signature does not check out, which is the
    /// only thing standing between us and a peer that announces someone else's identity.
    pub fn decode(packet: &Packet) -> (result: Result<Self, Error>)
        ensures
            match result {
                Ok(a) => announce_error(packet@) is None && a@ == announced(packet@)
                    && a.destination == packet.destination,
                Err(e) => announce_error(packet@) == Some(e),
            },
    {
        if packet.packet_type != PacketType::Announce {
            return Err(Error::NotAnAnnounce);
        }
        let p: &[u8] = packet.payload.as_slice();
        let at: usize = if packet.context_flag {
            116
        } else {
            84
        };
        if p.len() < at + 64 {
            return Err(Error::Truncated);
        }
        let public = bytes::array_at::<64>(p, 0);
        let identity = match Identity::from_public_bytes(&public) {
            Ok(identity) => identity,
            Err(e) => {
                return Err(e);
            },
        };
        let name_hash = NameHash::from_bytes(bytes::array_at::<10>(p, 64));
        let rand_hash = bytes::array_at::<10>(p, 74);
        let ratchet: Option<[u8; 32]> = if packet.context_flag {
            Some(bytes::array_at::<32>(p, 84))
        } else {
            None
        };
        let signature = bytes::array_at::<64>(p, at);
        let app_data = bytes::copy_range(p, at + 64, p.len());

        // The destination hash comes from the header, and it is part of the signed message,
        // so a peer cannot replay one destination's announce under another.
        let destination = packet.destination;
        let message = Announce::signed_message(
            destination,
            &public,
            name_hash,
            &rand_hash,
            ratchet,
            app_data.as_slice(),
        );
        if !identity.verify(message.as_slice(), &signature) {
            return Err(Error::BadSignature);
        }

        // The destination hash must actually be the one this identity and name imply.
        // Without this a valid signature over an unrelated destination hash would pass.
        let implied = destination_hash(name_hash, identity.hash());
        proof {
            AddressHash::lemma_bytes_decide(implied, destination);
        }
        if implied != destination {
            return Err(Error::DestinationMismatch);
        }
        Ok(Announce { identity, destination, name_hash, rand_hash, ratchet, app_data })
    }

    /// The ratchet id a peer would use to refer to this announce's ratchet:
    /// `trunc10(SHA256(ratchet_public_key))`.
    pub fn ratchet_id(&self) -> (id: Option<NameHash>)
        ensures
            match self.ratchet {
                Some(r) => id matches Some(hash) && hash@ == name_of(r@),
                None => id is None,
            },
    {
        match &self.ratchet {
            Some(r) => Some(NameHash::of(r)),
            None => None,
        }
    }
}

impl Clone for Announce {
    fn clone(&self) -> (copy: Self)
        ensures
            copy@ == self@,
            copy.destination == self.destination,
            copy.identity == self.identity,
    {
        Announce {
            identity: self.identity,
            destination: self.destination,
            name_hash: self.name_hash,
            rand_hash: self.rand_hash,
            ratchet: self.ratchet,
            app_data: bytes::copy_all(self.app_data.as_slice()),
        }
    }
}

/// What an identity announces under a name hash.
pub open spec fn announcement(
    secret: Seq<u8>,
    name_hash: Seq<u8>,
    rand_hash: Seq<u8>,
    ratchet: Option<Seq<u8>>,
    app_data: Seq<u8>,
) -> AnnounceModel {
    AnnounceModel {
        identity: public_of(secret),
        destination: destination_of(name_hash, address_of(public_of(secret))),
        name_hash,
        rand_hash,
        ratchet,
        app_data,
    }
}

/// The signature an identity puts under an announcement.
pub open spec fn announcement_signature(secret: Seq<u8>, a: AnnounceModel) -> Seq<u8> {
    ed25519_signature(secret.subrange(32, 64), a.signed_message())@
}

/// Whether `p` is the packet that carries announcement `a` under `signature`, fresh from
/// its sender.
pub open spec fn carries(p: PacketModel, a: AnnounceModel, signature: Seq<u8>) -> bool {
    &&& !p.ifac
    &&& p.header_type == HeaderType::Type1
    &&& p.context_flag == (a.ratchet is Some)
    &&& p.propagation == Propagation::Broadcast
    &&& p.destination_type == DestinationType::Single
    &&& p.packet_type == PacketType::Announce
    &&& p.hops == 0
    &&& p.transport is None
    &&& p.destination@ == a.destination
    &&& p.context == 0
    &&& p.payload == a.payload(signature)
}

/// Build a signed announce packet.
///
/// `rand_hash` is supplied by the caller rather than generated here, which keeps this module
/// free of any RNG. The runtime layer is responsible for producing a fresh random one per
/// announce.
pub fn build(
    identity: &PrivateIdentity,
    name_hash: NameHash,
    rand_hash: &[u8; RAND_HASH_LEN],
    ratchet: Option<[u8; RATCHET_LEN]>,
    app_data: &[u8],
) -> (packet: Packet)
    ensures
        ({
            let a = announcement(
                identity@,
                name_hash@,
                rand_hash@,
                match ratchet {
                    Some(r) => Some(r@),
                    None => None,
                },
                app_data@,
            );
            &&& carries(packet@, a, announcement_signature(identity@, a))
            &&& ed25519_point(a.identity.subrange(32, 64))
            &&& announced(packet@) == a
            &&& commits_to_nothing(announcement_signature(identity@, a)) || announce_error(
                packet@,
            ) is None
        }),
{
    let public = identity.public().to_public_bytes();
    let destination = destination_hash(name_hash, identity.hash());
    let message = Announce::signed_message(
        destination,
        &public,
        name_hash,
        rand_hash,
        ratchet,
        app_data,
    );
    let signature = identity.sign(message.as_slice());
    let mut payload: Vec<u8> = Vec::new();
    bytes::append(&mut payload, &public);
    bytes::append(&mut payload, name_hash.as_slice());
    bytes::append(&mut payload, rand_hash);
    if let Some(r) = &ratchet {
        bytes::append(&mut payload, r);
    }
    bytes::append(&mut payload, &signature);
    bytes::append(&mut payload, app_data);
    proof {
        let a = announcement(
            identity@,
            name_hash@,
            rand_hash@,
            match ratchet {
                Some(r) => Some(r@),
                None => None,
            },
            app_data@,
        );
        assert(payload@ =~= a.payload(signature@));
        AddressHash::lemma_bytes_decide(destination, destination);
        NameHash::lemma_bytes_decide(name_hash, name_hash);
    }
    let packet = Packet {
        ifac: false,
        header_type: HeaderType::Type1,
        context_flag: ratchet.is_some(),
        propagation: Propagation::Broadcast,
        destination_type: DestinationType::Single,
        packet_type: PacketType::Announce,
        hops: 0,
        transport: None,
        destination,
        context: 0,
        payload,
    };
    proof {
        law_built_announce_decodes(
            identity@,
            name_hash@,
            rand_hash@,
            ratchet,
            app_data@,
            packet@,
            packet@,
        );
    }
    packet
}

/// What is announced is what is heard: a packet that carries an identity's announcement
/// under its own signature says exactly that announcement, and it is valid whenever the
/// signature stands. Neither hops, a transport node nor another context change that.
pub proof fn law_built_announce_decodes(
    secret: Seq<u8>,
    name_hash: Seq<u8>,
    rand_hash: Seq<u8>,
    ratchet: Option<[u8; 32]>,
    app_data: Seq<u8>,
    sent: PacketModel,
    received: PacketModel,
)
    requires
        name_hash.len() == 10,
        rand_hash.len() == 10,
        ({
            let a = announcement(
                secret,
                name_hash,
                rand_hash,
                match ratchet {
                    Some(r) => Some(r@),
                    None => None,
                },
                app_data,
            );
            carries(sent, a, announcement_signature(secret, a))
        }),
        received.packet_type == sent.packet_type,
        received.context_flag == sent.context_flag,
        received.destination == sent.destination,
        received.payload == sent.payload,
    ensures
        ({
            let a = announcement(
                secret,
                name_hash,
                rand_hash,
                match ratchet {
                    Some(r) => Some(r@),
                    None => None,
                },
                app_data,
            );
            &&& announced(received) == a
            &&& ed25519_point(a.identity.subrange(32, 64)) && ed25519_verifies(
                a.identity.subrange(32, 64),
                a.signed_message(),
                announcement_signature(secret, a),
            ) ==> announce_error(received) is None
        }),
{
    let a = announcement(
        secret,
        name_hash,
        rand_hash,
        match ratchet {
            Some(r) => Some(r@),
            None => None,
        },
        app_data,
    );
    let signature = announcement_signature(secret, a);
    let payload = received.payload;
    let heard = announced(received);
    assert(payload == a.payload(signature));
    let at = signature_offset(received);
    assert(a.ratchet_bytes().len() == at - 84);
    assert(heard.identity =~= a.identity);
    assert(heard.name_hash =~= a.name_hash);
    assert(heard.rand_hash =~= a.rand_hash);
    if a.ratchet is Some {
        assert(payload.subrange(84, 116) =~= a.ratchet->0);
    }
    assert(heard.ratchet == a.ratchet);
    assert(heard.app_data =~= a.app_data);
    assert(announced_signature(received) =~= signature);
}

/// An announce cannot be redirected or passed off as something else: what an identity announced
/// is refused under any other destination, and is no announce in a packet of another type.
pub proof fn law_altered_announce_is_refused(
    secret: Seq<u8>,
    name_hash: Seq<u8>,
    rand_hash: Seq<u8>,
    ratchet: Option<[u8; 32]>,
    app_data: Seq<u8>,
    sent: PacketModel,
    received: PacketModel,
)
    requires
        name_hash.len() == 10,
        rand_hash.len() == 10,
        ({
            let a = announcement(
                secret,
                name_hash,
                rand_hash,
                match ratchet {
                    Some(r) => Some(r@),
                    None => None,
                },
                app_data,
            );
            carries(sent, a, announcement_signature(secret, a)) && ed25519_point(
                a.identity.subrange(32, 64),
            )
        }),
        received.payload == sent.payload,
        received.context_flag == sent.context_flag,
    ensures
        received.packet_type != PacketType::Announce ==> announce_error(received) == Some(
            Error::NotAnAnnounce,
        ),
        received.packet_type == PacketType::Announce && received.destination != sent.destination
            ==> announce_error(received) == Some(Error::BadSignature) || announce_error(received)
            == Some(Error::DestinationMismatch),
{
    let straight = PacketModel { destination: sent.destination, ..received };
    if received.packet_type == PacketType::Announce {
        law_built_announce_decodes(
            secret,
            name_hash,
            rand_hash,
            ratchet,
            app_data,
            sent,
            straight,
        );
        assert(announced(received).identity == announced(straight).identity);
        assert(announced(received).name_hash == announced(straight).name_hash);
        AddressHash::lemma_bytes_decide(received.destination, sent.destination);
    }
}

/// Where everything stands in an announce: the identity's 64 bytes, ten of the name hash, ten
/// of the random blob, the ratchet's 32 where the context flag says there is one, the
/// signature's 64, and the application data. The signature covers the destination and all of
/// that but itself.
pub proof fn law_announce_layout(
    p: PacketModel,
    identity: Seq<u8>,
    name_hash: Seq<u8>,
    rand_hash: Seq<u8>,
    ratchet: Seq<u8>,
    signature: Seq<u8>,
    app_data: Seq<u8>,
)
    requires
        identity.len() == 64,
        name_hash.len() == 10,
        rand_hash.len() == 10,
        ratchet.len() == (if p.context_flag {
            32int
        } else {
            0
        }),
        signature.len() == 64,
        p.payload == identity + name_hash + rand_hash + ratchet + signature + app_data,
    ensures
        ({
            let said = announced(p);
            &&& said.identity == identity
            &&& said.destination == p.destination@
            &&& said.name_hash == name_hash
            &&& said.rand_hash == rand_hash
            &&& said.ratchet is Some <==> p.context_flag
            &&& said.ratchet is Some ==> said.ratchet->0 == ratchet
            &&& said.app_data == app_data
            &&& announced_signature(p) == signature
            &&& said.payload(signature) == p.payload
            &&& said.signed_message() == p.destination@ + identity + name_hash + rand_hash
                + ratchet + app_data
        }),
{
    let said = announced(p);
    assert(said.identity =~= identity);
    assert(said.name_hash =~= name_hash);
    assert(said.rand_hash =~= rand_hash);
    if p.context_flag {
        assert(said.ratchet->0 =~= ratchet);
    } else {
        assert(ratchet =~= Seq::empty());
    }
    assert(said.ratchet_bytes() =~= ratchet);
    assert(said.app_data =~= app_data);
    assert(announced_signature(p) =~= signature);
}

/// A packet is a valid announce exactly where it is one, holds every field, has a key that is
/// a point, a signature that stands under that key, and a destination that is its own.
pub proof fn law_valid_announce_is_genuine(p: PacketModel)
    ensures
        ({
            let at: int = if p.context_flag {
                116
            } else {
                84
            };
            let key = p.payload.subrange(0, 64).subrange(32, 64);
            let said = announced(p);
            let stands = ed25519_verifies(
                key,
                said.signed_message(),
                p.payload.subrange(at, at + 64),
            );
            let own = crate::hash::address_of(
                p.payload.subrange(64, 74) + crate::hash::address_of(p.payload.subrange(0, 64)),
            ) == p.destination@;
            let kind = p.packet_type == PacketType::Announce;
            let whole = p.payload.len() >= at + 64;
            &&& announce_error(p) is None <==> kind && whole && ed25519_point(key) && stands && own
            &&& !kind ==> announce_error(p) == Some(Error::NotAnAnnounce)
            &&& kind && !whole ==> announce_error(p) == Some(Error::Truncated)
            &&& kind && whole && !ed25519_point(key) ==> announce_error(p) == Some(Error::BadKey)
            &&& kind && whole && ed25519_point(key) && !stands ==> announce_error(p) == Some(
                Error::BadSignature,
            )
            &&& kind && whole && ed25519_point(key) && stands && !own ==> announce_error(p) == Some(
                Error::DestinationMismatch,
            )
        }),
{
}

/// A blob's ordinal is what its last five bytes spell, the highest first, and a minted blob is
/// the one with its nonce in front and its timebase behind.
pub proof fn law_ordinal_is_the_last_five_bytes(blob: AnnounceBlob)
    ensures
        blob@.len() == 10,
        blob.ordinal() == blob@[5] * 0x1_0000_0000 + blob@[6] * 0x100_0000 + blob@[7] * 0x1_0000
            + blob@[8] * 0x100 + blob@[9],
        AnnounceBlob::minted(blob@.subrange(0, 5), blob.ordinal() as u64) == blob,
        AnnounceBlob::of(blob@) == blob,
{
    AnnounceBlob::lemma_bytes_decide(blob, blob);
    lemma_five_digits(blob@.subrange(5, 10));
    let nonce = blob@.subrange(0, 5);
    let timebase = blob.ordinal() as u64;
    assert(blob.ordinal() <= ANNOUNCE_TIMEBASE_MAX);
    let other = AnnounceBlob::minted(nonce, timebase);
    assert(blob@.subrange(0, 5) == nonce && blob.ordinal() == timebase);
    law_blob_is_nonce_and_timebase(other, blob);
    AnnounceBlob::lemma_bytes_decide(AnnounceBlob::of(blob@), blob);
}

/// The next ordinal follows the clock where it is ahead of what was emitted, and else what was
/// emitted. It is refused where the clock does not fit the field or the reservation is spent.
pub proof fn law_next_ordinal_is_the_least_that_follows(
    generator: TimebaseGenerator,
    source_seconds: u64,
)
    requires
        generator.inv(),
    ensures
        generator.following(source_seconds) matches Ok(next) ==> {
            &&& next > generator.emitted()
            &&& next >= source_seconds
            &&& next <= generator.ceiling()
            &&& next == source_seconds || next == generator.emitted() + 1
        },
        generator.following(source_seconds) == Err::<u64, TimebaseError>(TimebaseError::OutOfRange)
            <==> source_seconds > 0xff_ffff_ffff,
        generator.following(source_seconds) == Err::<u64, TimebaseError>(TimebaseError::Exhausted)
            <==> source_seconds <= 0xff_ffff_ffff && (generator.emitted() == generator.ceiling()
            || source_seconds > generator.ceiling()),
{
}

} // verus!
