//! The packet: one header and one payload.
//!
//! ```text
//! flags(1) || hops(1) || [transport(16)] || destination(16) || context(1) || payload
//! ```
//!
//! The transport address is there exactly when the flags announce the second header type.

use vstd::prelude::*;

use crate::bytes;
use crate::hash::AddressHash;
use crate::Error;

verus! {

/// The most bytes one packet may take on the wire.
pub const MTU: usize = 500;

/// Bytes of the shorter header.
pub const HEADER_MIN_LEN: usize = 19;

/// Bytes of the longer header, which names a transport node.
pub const HEADER_MAX_LEN: usize = 35;

/// The most payload bytes a packet may carry: the MTU less the longest header and the
/// shortest access code.
pub const MDU: usize = 464;

/// The most plaintext bytes one encrypted packet may carry.
pub const ENCRYPTED_MDU: usize = 383;

/// Whether the header names a transport node.
#[derive(Clone, Copy, Debug, PartialEq, Eq, Structural)]
pub enum HeaderType {
    /// No transport node.
    Type1,
    /// A transport node stands before the destination.
    Type2,
}

/// How the packet travels.
#[derive(Clone, Copy, Debug, PartialEq, Eq, Structural)]
pub enum Propagation {
    /// To whoever hears it.
    Broadcast,
    /// Through a transport node.
    Transport,
}

/// What the destination hash names.
#[derive(Clone, Copy, Debug, PartialEq, Eq, Structural)]
pub enum DestinationType {
    /// One identity's destination.
    Single,
    /// A group.
    Group,
    /// A destination without an identity.
    Plain,
    /// A link.
    Link,
}

/// What the packet is for.
#[derive(Clone, Copy, Debug, PartialEq, Eq, Structural)]
pub enum PacketType {
    /// Payload for a destination or a link.
    Data,
    /// An announce.
    Announce,
    /// A request to open a link.
    LinkRequest,
    /// A proof.
    Proof,
}

/// One packet.
#[derive(Debug, PartialEq, Eq)]
pub struct Packet {
    /// Whether an access code follows the first two bytes.
    pub ifac: bool,
    /// Whether a transport node is named.
    pub header_type: HeaderType,
    /// A flag whose meaning the context gives.
    pub context_flag: bool,
    /// How the packet travels.
    pub propagation: Propagation,
    /// What the destination hash names.
    pub destination_type: DestinationType,
    /// What the packet is for.
    pub packet_type: PacketType,
    /// How many nodes have passed it on.
    pub hops: u8,
    /// The transport node it is addressed through.
    pub transport: Option<AddressHash>,
    /// The destination.
    pub destination: AddressHash,
    /// What kind of payload this is.
    pub context: u8,
    /// The payload.
    pub payload: Vec<u8>,
}

/// What a packet says, with its payload as a sequence.
pub struct PacketModel {
    pub ifac: bool,
    pub header_type: HeaderType,
    pub context_flag: bool,
    pub propagation: Propagation,
    pub destination_type: DestinationType,
    pub packet_type: PacketType,
    pub hops: u8,
    pub transport: Option<AddressHash>,
    pub destination: AddressHash,
    pub context: u8,
    pub payload: Seq<u8>,
}

impl View for Packet {
    type V = PacketModel;

    open spec fn view(&self) -> PacketModel {
        PacketModel {
            ifac: self.ifac,
            header_type: self.header_type,
            context_flag: self.context_flag,
            propagation: self.propagation,
            destination_type: self.destination_type,
            packet_type: self.packet_type,
            hops: self.hops,
            transport: self.transport,
            destination: self.destination,
            context: self.context,
            payload: self.payload@,
        }
    }
}

/// The number of a destination type on the wire.
pub open spec fn destination_code(t: DestinationType) -> int {
    match t {
        DestinationType::Single => 0,
        DestinationType::Group => 1,
        DestinationType::Plain => 2,
        DestinationType::Link => 3,
    }
}

/// The number of a packet type on the wire.
pub open spec fn packet_code(t: PacketType) -> int {
    match t {
        PacketType::Data => 0,
        PacketType::Announce => 1,
        PacketType::LinkRequest => 2,
        PacketType::Proof => 3,
    }
}

impl PacketModel {
    /// Whether a transport node is named exactly when the header type says so.
    pub open spec fn well_formed(self) -> bool {
        self.header_type == HeaderType::Type2 <==> self.transport is Some
    }

    /// The low four bits of the flags: the destination type and the packet type.
    pub open spec fn kind_bits(self) -> int {
        destination_code(self.destination_type) * 4 + packet_code(self.packet_type)
    }

    /// The flags byte.
    pub open spec fn flags(self) -> int {
        (if self.ifac {
            128int
        } else {
            0
        }) + (if self.header_type == HeaderType::Type2 {
            64int
        } else {
            0
        }) + (if self.context_flag {
            32int
        } else {
            0
        }) + (if self.propagation == Propagation::Transport {
            16int
        } else {
            0
        }) + self.kind_bits()
    }

    /// The transport address, if there is one.
    pub open spec fn transport_bytes(self) -> Seq<u8> {
        match self.transport {
            Some(t) => t@,
            None => Seq::empty(),
        }
    }

    /// What stands behind the hops and the transport address.
    pub open spec fn tail(self) -> Seq<u8> {
        self.destination@ + seq![self.context] + self.payload
    }

    /// The packet on the wire.
    pub open spec fn wire(self) -> Seq<u8> {
        seq![self.flags() as u8, self.hops] + self.transport_bytes() + self.tail()
    }

    /// How many bytes the packet takes on the wire.
    pub open spec fn wire_len(self) -> int {
        19 + (if self.transport is Some {
            16int
        } else {
            0
        }) + self.payload.len()
    }

    /// That number as far as a machine word holds it.
    pub open spec fn counted_len(self) -> usize {
        if self.wire_len() <= usize::MAX {
            self.wire_len() as usize
        } else {
            usize::MAX
        }
    }

    /// The packet's address: what is hashed leaves out all that changes on the way, which
    /// is the hops, the transport node and the upper half of the flags.
    pub open spec fn address(self) -> Seq<u8> {
        crate::hash::address_of(seq![self.kind_bits() as u8] + self.tail())
    }
}

/// Where the destination starts, given the flags.
pub open spec fn destination_offset(flags: u8) -> int {
    if flags / 64 % 2 == 1 {
        18
    } else {
        2
    }
}

/// The destination type with a given number.
pub open spec fn destination_type_of(code: int) -> DestinationType {
    if code == 0 {
        DestinationType::Single
    } else if code == 1 {
        DestinationType::Group
    } else if code == 2 {
        DestinationType::Plain
    } else {
        DestinationType::Link
    }
}

/// The packet type with a given number.
pub open spec fn packet_type_of(code: int) -> PacketType {
    if code == 0 {
        PacketType::Data
    } else if code == 1 {
        PacketType::Announce
    } else if code == 2 {
        PacketType::LinkRequest
    } else {
        PacketType::Proof
    }
}

/// Why `raw` is no packet, if it is none.
pub open spec fn decode_error(raw: Seq<u8>) -> Option<Error> {
    if raw.len() > MTU {
        Some(Error::Oversize)
    } else if raw.len() < HEADER_MIN_LEN || raw.len() < destination_offset(raw[0]) + 17 {
        Some(Error::Truncated)
    } else {
        None
    }
}

/// Whether `p` is the packet that `raw` spells.
pub open spec fn decodes_to(raw: Seq<u8>, p: PacketModel) -> bool {
    let flags = raw[0];
    let at = destination_offset(flags);
    &&& p.ifac == (flags / 128 == 1)
    &&& p.header_type == (if at == 18 {
        HeaderType::Type2
    } else {
        HeaderType::Type1
    })
    &&& p.context_flag == (flags / 32 % 2 == 1)
    &&& p.propagation == (if flags / 16 % 2 == 1 {
        Propagation::Transport
    } else {
        Propagation::Broadcast
    })
    &&& p.destination_type == destination_type_of((flags / 4 % 4) as int)
    &&& p.packet_type == packet_type_of((flags % 4) as int)
    &&& p.hops == raw[1]
    &&& if at == 18 {
        p.transport matches Some(t) && t@ == raw.subrange(2, 18)
    } else {
        p.transport is None
    }
    &&& p.destination@ == raw.subrange(at, at + 16)
    &&& p.context == raw[at + 16]
    &&& p.payload == raw.subrange(at + 17, raw.len() as int)
}

/// A well-formed packet that fits the MTU is read back as it was written.
pub proof fn law_decode_inverts_encode(p: PacketModel)
    requires
        p.well_formed(),
        p.wire_len() <= MTU,
    ensures
        decode_error(p.wire()) is None,
        decodes_to(p.wire(), p),
{
    broadcast use AddressHash::lemma_bytes_decide;

    AddressHash::lemma_bytes_decide(p.destination, p.destination);
    if let Some(t) = p.transport {
        AddressHash::lemma_bytes_decide(t, t);
    }
    let raw = p.wire();
    let flags = p.flags();
    assert(0 <= flags < 256);
    assert(raw[0] == flags as u8);
    assert(raw[1] == p.hops);
    let at = destination_offset(raw[0]);
    assert(at == 2 + p.transport_bytes().len());
    assert(raw.len() == p.wire_len());
    assert(raw.subrange(at, at + 16) =~= p.destination@);
    assert(raw.subrange(at + 17, raw.len() as int) =~= p.payload);
    assert(raw[at + 16] == p.context);
    if let Some(t) = p.transport {
        assert(raw.subrange(2, 18) =~= t@);
    }
}

/// A flags byte is the sum of its digits.
proof fn lemma_flag_digits(f: u8)
    ensures
        f == f / 128 * 128 + f / 64 % 2 * 64 + f / 32 % 2 * 32 + f / 16 % 2 * 16 + f / 4 % 4 * 4
            + f % 4,
        f / 128 < 2,
        f / 4 % 4 < 4,
{
    assert(f == f / 128 * 128 + f / 64 % 2 * 64 + f / 32 % 2 * 32 + f / 16 % 2 * 16 + f / 4 % 4 * 4
        + f % 4) by (bit_vector);
}

/// Bytes that spell a packet are what that packet encodes to: there is one spelling.
pub proof fn law_encode_inverts_decode(raw: Seq<u8>, p: PacketModel)
    requires
        decode_error(raw) is None,
        decodes_to(raw, p),
    ensures
        p.well_formed(),
        p.wire() == raw,
{
    AddressHash::lemma_bytes_decide(p.destination, p.destination);
    if let Some(t) = p.transport {
        AddressHash::lemma_bytes_decide(t, t);
    }
    let at = destination_offset(raw[0]);
    lemma_flag_digits(raw[0]);
    assert(destination_code(p.destination_type) == raw[0] / 4 % 4);
    assert(packet_code(p.packet_type) == raw[0] % 4);
    assert(p.flags() == raw[0]);
    assert(p.transport_bytes() =~= raw.subrange(2, at));
    assert(p.wire() =~= raw);
}

impl Packet {
    /// How many bytes [`Packet::encode`] produces.
    pub fn encoded_len(&self) -> (n: usize)
        ensures
            n == self@.counted_len(),
    {
        let head: usize = if self.transport.is_some() {
            HEADER_MAX_LEN
        } else {
            HEADER_MIN_LEN
        };
        self.payload.len().saturating_add(head)
    }

    /// Whether the packet fits the wire MTU.
    pub fn within_mtu(&self) -> (fits: bool)
        ensures
            fits == (self@.wire_len() <= MTU),
    {
        self.encoded_len() <= MTU
    }

    /// The number in the low four bits of the flags.
    fn kind_byte(&self) -> (bits: u8)
        ensures
            bits == self@.kind_bits(),
            bits < 16,
    {
        let destination: u8 = match self.destination_type {
            DestinationType::Single => 0,
            DestinationType::Group => 1,
            DestinationType::Plain => 2,
            DestinationType::Link => 3,
        };
        let kind: u8 = match self.packet_type {
            PacketType::Data => 0,
            PacketType::Announce => 1,
            PacketType::LinkRequest => 2,
            PacketType::Proof => 3,
        };
        destination * 4 + kind
    }

    /// The wire form.
    pub fn encode(&self) -> (raw: Vec<u8>)
        ensures
            raw@ == self@.wire(),
    {
        let ifac: u8 = if self.ifac {
            128
        } else {
            0
        };
        let header: u8 = if self.header_type == HeaderType::Type2 {
            64
        } else {
            0
        };
        let context: u8 = if self.context_flag {
            32
        } else {
            0
        };
        let propagation: u8 = if self.propagation == Propagation::Transport {
            16
        } else {
            0
        };
        let flags: u8 = ifac + header + context + propagation + self.kind_byte();
        let mut raw: Vec<u8> = Vec::new();
        raw.push(flags);
        raw.push(self.hops);
        if let Some(t) = &self.transport {
            bytes::append(&mut raw, t.as_slice());
        }
        bytes::append(&mut raw, self.destination.as_slice());
        raw.push(self.context);
        bytes::append(&mut raw, self.payload.as_slice());
        assert(raw@ =~= self@.wire());
        raw
    }

    /// Read one packet.
    pub fn decode(raw: &[u8]) -> (result: Result<Packet, Error>)
        ensures
            match result {
                Ok(p) => decode_error(raw@) is None && decodes_to(raw@, p@),
                Err(e) => decode_error(raw@) == Some(e),
            },
    {
        if raw.len() > MTU {
            return Err(Error::Oversize);
        }
        if raw.len() < HEADER_MIN_LEN {
            return Err(Error::Truncated);
        }
        let flags: u8 = raw[0];
        let long: bool = flags / 64 % 2 == 1;
        let at: usize = if long {
            18
        } else {
            2
        };
        if raw.len() < at + 17 {
            return Err(Error::Truncated);
        }
        let transport = if long {
            Some(AddressHash::from_bytes(bytes::array_at::<16>(raw, 2)))
        } else {
            None
        };
        let destination_type = match flags / 4 % 4 {
            0 => DestinationType::Single,
            1 => DestinationType::Group,
            2 => DestinationType::Plain,
            _ => DestinationType::Link,
        };
        let packet_type = match flags % 4 {
            0 => PacketType::Data,
            1 => PacketType::Announce,
            2 => PacketType::LinkRequest,
            _ => PacketType::Proof,
        };
        Ok(
            Packet {
                ifac: flags / 128 == 1,
                header_type: if long {
                    HeaderType::Type2
                } else {
                    HeaderType::Type1
                },
                context_flag: flags / 32 % 2 == 1,
                propagation: if flags / 16 % 2 == 1 {
                    Propagation::Transport
                } else {
                    Propagation::Broadcast
                },
                destination_type,
                packet_type,
                hops: raw[1],
                transport,
                destination: AddressHash::from_bytes(bytes::array_at::<16>(raw, at)),
                context: raw[at + 16],
                payload: bytes::copy_range(raw, at + 17, raw.len()),
            },
        )
    }

    /// The packet's address, which stays the same while it travels.
    pub fn hash(&self) -> (hash: AddressHash)
        ensures
            hash@ == self@.address(),
    {
        let mut hashed: Vec<u8> = Vec::new();
        hashed.push(self.kind_byte());
        bytes::append(&mut hashed, self.destination.as_slice());
        hashed.push(self.context);
        bytes::append(&mut hashed, self.payload.as_slice());
        assert(hashed@ =~= seq![self@.kind_bits() as u8] + self@.tail());
        AddressHash::of(hashed.as_slice())
    }
}

impl Clone for Packet {
    fn clone(&self) -> (copy: Self)
        ensures
            copy@ == self@,
    {
        Packet {
            ifac: self.ifac,
            header_type: self.header_type,
            context_flag: self.context_flag,
            propagation: self.propagation,
            destination_type: self.destination_type,
            packet_type: self.packet_type,
            hops: self.hops,
            transport: self.transport,
            destination: self.destination,
            context: self.context,
            payload: bytes::copy_all(self.payload.as_slice()),
        }
    }
}

/// Where everything stands on the wire. The flags are, from the top: access code, transport
/// header, context flag and transport propagation, a bit each, and two bits each for the
/// destination type and the packet type. The hops follow, the transport node where there is
/// one, the destination, the context, and the payload.
pub proof fn law_packet_layout(p: PacketModel)
    requires
        p.well_formed(),
    ensures
        ({
            let raw = p.wire();
            let flags = raw[0] as int;
            let at: int = if p.transport is Some {
                18
            } else {
                2
            };
            &&& raw.len() == p.wire_len()
            &&& raw.len() == at + 17 + p.payload.len()
            &&& p.ifac <==> flags / 128 % 2 == 1
            &&& p.transport is Some <==> flags / 64 % 2 == 1
            &&& p.context_flag <==> flags / 32 % 2 == 1
            &&& p.propagation == Propagation::Transport <==> flags / 16 % 2 == 1
            &&& p.destination_type == DestinationType::Single <==> flags / 4 % 4 == 0
            &&& p.destination_type == DestinationType::Group <==> flags / 4 % 4 == 1
            &&& p.destination_type == DestinationType::Plain <==> flags / 4 % 4 == 2
            &&& p.destination_type == DestinationType::Link <==> flags / 4 % 4 == 3
            &&& p.packet_type == PacketType::Data <==> flags % 4 == 0
            &&& p.packet_type == PacketType::Announce <==> flags % 4 == 1
            &&& p.packet_type == PacketType::LinkRequest <==> flags % 4 == 2
            &&& p.packet_type == PacketType::Proof <==> flags % 4 == 3
            &&& raw[1] == p.hops
            &&& p.transport matches Some(t) ==> raw.subrange(2, 18) == t@
            &&& raw.subrange(at, at + 16) == p.destination@
            &&& raw[at + 16] == p.context
            &&& raw.subrange(at + 17, raw.len() as int) == p.payload
        }),
{
    AddressHash::lemma_bytes_decide(p.destination, p.destination);
    if let Some(t) = p.transport {
        AddressHash::lemma_bytes_decide(t, t);
        assert(p.wire().subrange(2, 18) =~= t@);
    }
    let raw = p.wire();
    let at: int = if p.transport is Some {
        18
    } else {
        2
    };
    assert(raw.subrange(at, at + 16) =~= p.destination@);
    assert(raw.subrange(at + 17, raw.len() as int) =~= p.payload);
}

/// A packet keeps its address on its way: hops, transport node and the upper flags do not
/// enter it. What does is the types, the destination, the context and the payload.
pub proof fn law_address_stays_on_the_way(p: PacketModel, later: PacketModel)
    requires
        later.destination_type == p.destination_type,
        later.packet_type == p.packet_type,
        later.destination == p.destination,
        later.context == p.context,
        later.payload == p.payload,
    ensures
        later.address() == p.address(),
        p.well_formed() ==> p.address() == crate::hash::address_of(
            seq![(p.wire()[0] % 16) as u8] + p.destination@ + seq![p.context] + p.payload,
        ),
{
    if p.well_formed() {
        let flags = p.wire()[0];
        assert(p.kind_bits() == flags % 16);
        assert(seq![p.kind_bits() as u8] + p.tail() =~= seq![(flags % 16) as u8]
            + p.destination@ + seq![p.context] + p.payload);
    }
}

/// Bytes are no packet exactly where they are more than an MTU, or fewer than the header that
/// they announce takes.
pub proof fn law_bytes_are_a_packet_by_their_length(raw: Seq<u8>)
    ensures
        raw.len() > 500 ==> decode_error(raw) == Some(Error::Oversize),
        raw.len() < 19 ==> decode_error(raw) == Some(Error::Truncated),
        19 <= raw.len() < 35 && raw[0] / 64 % 2 == 1 ==> decode_error(raw) == Some(
            Error::Truncated,
        ),
        19 <= raw.len() <= 500 && raw[0] / 64 % 2 == 0 ==> decode_error(raw) is None,
        35 <= raw.len() <= 500 ==> decode_error(raw) is None,
{
}

} // verus!
