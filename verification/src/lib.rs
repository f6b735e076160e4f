//! An endpoint-scoped implementation of the Reticulum protocol, verified with Verus.

use vstd::prelude::*;

pub mod address_book;
pub mod announce;
pub mod announce_admission;
pub mod announce_freshness;
pub mod artifact;
pub mod bounded;
pub mod bytes;
pub mod capacity;
pub mod channel;
pub mod command;
pub mod destination;
pub mod endpoint;
pub mod hash;
pub mod identity;
pub mod ifac;
pub mod iface;
pub mod instance;
pub mod lossy;
pub mod msgpack;
pub mod node;
pub mod nomadnet;
pub mod packet;
pub mod random;
pub mod recent;
pub mod table;
pub mod text;
pub mod time;

pub use address_book::{AddressBook, Peer};
pub use announce::Announce;
pub use destination::DestinationName;
pub use hash::{AddressHash, NameHash};
pub use identity::{Identity, PrivateIdentity};
pub use ifac::Ifac;
pub use packet::Packet;

verus! {

/// Anything that can go wrong decoding or validating.
#[derive(Debug, Clone, Copy, PartialEq, Eq, Structural)]
pub enum Error {
    /// The input ended before a required field did.
    Truncated,
    /// A packet is larger than the wire MTU. Such packets are rejected at the decoder, so a
    /// peer cannot hand us an over-sized buffer.
    Oversize,
    /// A public key is not a valid point on its curve.
    BadKey,
    /// The Ed25519 signature did not verify. For an announce this means the peer does not
    /// hold the private key for the identity it is announcing.
    BadSignature,
    /// An interface frame did not carry the expected access code.
    BadIfac,
    /// The destination hash in the header is not the one the announced identity and name
    /// imply: a correctly signed announce for a destination that is not the one claimed.
    DestinationMismatch,
    /// The HMAC on a token did not verify.
    BadMac,
    /// PKCS7 padding was malformed after decryption.
    BadPadding,
    /// An announce decoder was handed a packet that is not an announce.
    NotAnAnnounce,
    /// A link trailer named a cipher mode we do not know.
    BadLinkMode,
    /// A proof decoder was handed a packet that is not a proof.
    NotAProof,
    /// An accept was handed a packet that is not a link request.
    NotALinkRequest,
    /// A proof was addressed to a different link than the one it is being matched against.
    LinkMismatch,
    /// A request or response could not be parsed from its msgpack.
    BadRequest,
    /// A reassembled resource did not match its advertised hash.
    ResourceCorrupt,
    /// The operation needs a feature that is not enabled (e.g. compression).
    Unsupported,
}

impl Error {
    /// The error in words.
    pub fn message(&self) -> (text: &'static str)
        ensures
            text@ == match *self {
                Error::Truncated => "input ended mid-field"@,
                Error::Oversize => "packet exceeds the wire MTU"@,
                Error::BadKey => "invalid public key"@,
                Error::BadSignature => "signature did not verify"@,
                Error::BadIfac => "interface access code did not verify"@,
                Error::DestinationMismatch => "destination hash does not match the announced identity"@,
                Error::BadMac => "token HMAC did not verify"@,
                Error::BadPadding => "malformed padding"@,
                Error::NotAnAnnounce => "packet is not an announce"@,
                Error::BadLinkMode => "unknown link cipher mode"@,
                Error::NotAProof => "packet is not a proof"@,
                Error::NotALinkRequest => "packet is not a link request"@,
                Error::LinkMismatch => "proof is for a different link"@,
                Error::BadRequest => "malformed request or response"@,
                Error::ResourceCorrupt => "reassembled resource does not match its hash"@,
                Error::Unsupported => "operation needs a disabled feature"@,
            },
    {
        match self {
            Error::Truncated => "input ended mid-field",
            Error::Oversize => "packet exceeds the wire MTU",
            Error::BadKey => "invalid public key",
            Error::BadSignature => "signature did not verify",
            Error::BadIfac => "interface access code did not verify",
            Error::DestinationMismatch => "destination hash does not match the announced identity",
            Error::BadMac => "token HMAC did not verify",
            Error::BadPadding => "malformed padding",
            Error::NotAnAnnounce => "packet is not an announce",
            Error::BadLinkMode => "unknown link cipher mode",
            Error::NotAProof => "packet is not a proof",
            Error::NotALinkRequest => "packet is not a link request",
            Error::LinkMismatch => "proof is for a different link",
            Error::BadRequest => "malformed request or response",
            Error::ResourceCorrupt => "reassembled resource does not match its hash",
            Error::Unsupported => "operation needs a disabled feature",
        }
    }
}

} // verus!
