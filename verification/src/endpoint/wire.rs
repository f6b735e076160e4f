//! Packets to carrier frames and back.

use vstd::prelude::*;

use crate::ifac::{law_sealed_packet_opens, plain, Ifac, IfacModel};
use crate::iface::hdlc::{contents, Deframer};
use crate::packet::{
    decode_error, decodes_to, law_decode_inverts_encode, Packet, PacketModel, MTU,
};
use crate::Error;

verus! {

/// The credentials of an interface that has some.
pub open spec fn credentials(ifac: Option<Ifac>) -> Option<IfacModel> {
    match ifac {
        Some(i) => Some(i@),
        None => None,
    }
}

/// The logical packet in a frame.
pub open spec fn logical(ifac: Option<IfacModel>, frame: Seq<u8>) -> Seq<u8> {
    match ifac {
        Some(i) => i.inner(frame),
        None => frame,
    }
}

/// Why a frame holds no packet for an interface, if it holds none.
pub open spec fn frame_error(ifac: Option<IfacModel>, frame: Seq<u8>) -> Option<Error> {
    let refused = match ifac {
        Some(i) => i.refusal(frame),
        None => None,
    };
    match refused {
        Some(e) => Some(e),
        None => decode_error(logical(ifac, frame)),
    }
}

/// The logical packets in those of a list of frames that hold one.
pub open spec fn heard(ifac: Option<IfacModel>, frames: Seq<Seq<u8>>) -> Seq<Seq<u8>>
    decreases frames.len(),
{
    if frames.len() == 0 {
        frames
    } else {
        let rest = heard(ifac, frames.drop_last());
        if frame_error(ifac, frames.last()) is None {
            rest.push(logical(ifac, frames.last()))
        } else {
            rest
        }
    }
}

/// The frame of a packet, or why it has none.
pub open spec fn frame_of(ifac: Option<IfacModel>, packet: PacketModel) -> Result<Seq<u8>, Error> {
    match ifac {
        Some(i) => if packet.wire().len() > MTU {
            Err(Error::Oversize)
        } else {
            Ok(i.sealed(packet.wire()))
        },
        None => Ok(packet.wire()),
    }
}

/// Authenticate and decode one complete carrier frame.
///
/// An IFAC-configured interface rejects open, incorrectly keyed, and modified frames.
pub fn open_frame(ifac: &Option<Ifac>, frame: &[u8]) -> (result: Result<Packet, Error>)
    ensures
        match result {
            Ok(p) => frame_error(credentials(*ifac), frame@) is None && decodes_to(
                logical(credentials(*ifac), frame@),
                p@,
            ),
            Err(e) => frame_error(credentials(*ifac), frame@) == Some(e),
        },
{
    match ifac {
        Some(ifac) => match ifac.open(frame) {
            Ok(inside) => Packet::decode(inside.as_slice()),
            Err(e) => Err(e),
        },
        None => Packet::decode(frame),
    }
}

/// Encode one queued packet for an interface, applying IFAC when configured.
pub fn encode_frame(ifac: &Option<Ifac>, packet: &Packet) -> (result: Result<Vec<u8>, Error>)
    ensures
        match result {
            Ok(frame) => frame_of(credentials(*ifac), packet@) == Ok::<Seq<u8>, Error>(frame@),
            Err(e) => frame_of(credentials(*ifac), packet@) == Err::<Seq<u8>, Error>(e),
        },
{
    let encoded = packet.encode();
    assert(encoded@.len() >= 2);
    match ifac {
        Some(ifac) => ifac.seal(encoded.as_slice()),
        None => Ok(encoded),
    }
}

/// Why a packet cannot go out over a radio.
#[derive(Clone, Copy, Debug, PartialEq, Eq)]
pub enum RadioRefusal {
    /// It has no frame.
    Encode(Error),
    /// Its frame is longer than the radio sends.
    TooLong { len: usize, limit: usize },
}

/// The frame of a packet for a radio that sends frames of up to `limit` bytes. Queues refuse an
/// oversized packet before this; it remains for what was queued before the limit was known.
pub fn radio_frame(ifac: &Option<Ifac>, packet: &Packet, limit: usize) -> (result: Result<
    Vec<u8>,
    RadioRefusal,
>)
    ensures
        match (result, frame_of(credentials(*ifac), packet@)) {
            (Ok(out), Ok(frame)) => out@ == frame && frame.len() <= limit,
            (Err(RadioRefusal::TooLong { len, limit: most }), Ok(frame)) => len == frame.len()
                && most == limit && frame.len() > limit,
            (Err(RadioRefusal::Encode(e)), Err(why)) => e == why,
            _ => false,
        },
{
    match encode_frame(ifac, packet) {
        Err(e) => Err(RadioRefusal::Encode(e)),
        Ok(frame) => {
            if frame.len() > limit {
                Err(RadioRefusal::TooLong { len: frame.len(), limit })
            } else {
                Ok(frame)
            }
        },
    }
}

/// Take one chunk of a stream apart into the packets it completes. Frames that do not
/// authenticate or decode are left out.
pub fn read_stream(deframer: &mut Deframer, ifac: &Option<Ifac>, chunk: &[u8]) -> (packets: Vec<
    Packet,
>)
    ensures
        final(deframer)@ == old(deframer)@.after_all(chunk@),
        ({
            let inside = heard(credentials(*ifac), old(deframer)@.frames(chunk@));
            &&& packets@.len() == inside.len()
            &&& forall|i: int|
                0 <= i < inside.len() ==> decodes_to(inside[i], (#[trigger] packets@[i])@)
        }),
{
    let frames = deframer.push(chunk);
    let ghost all = contents(frames@);
    let ghost keys = credentials(*ifac);
    let mut packets: Vec<Packet> = Vec::new();
    let mut i: usize = 0;
    assert(all.subrange(0, 0) =~= Seq::<Seq<u8>>::empty());
    while i < frames.len()
        invariant
            i <= frames@.len(),
            all == contents(frames@),
            keys == credentials(*ifac),
            packets@.len() == heard(keys, all.subrange(0, i as int)).len(),
            forall|j: int|
                0 <= j < packets@.len() ==> decodes_to(
                    heard(keys, all.subrange(0, i as int))[j],
                    (#[trigger] packets@[j])@,
                ),
        decreases frames@.len() - i,
    {
        proof {
            let next = all.subrange(0, i + 1);
            assert(next.drop_last() =~= all.subrange(0, i as int));
            assert(next.last() == frames@[i as int]@);
        }
        match open_frame(ifac, frames[i].as_slice()) {
            Ok(packet) => {
                packets.push(packet);
            },
            Err(_) => {},
        }
        i += 1;
    }
    assert(all.subrange(0, i as int) =~= all);
    packets
}

/// What is sent is what is heard: the frame of a packet opens under the same credentials, and
/// what comes out is the packet. On an authenticated interface the packet's own access-code
/// flag does not travel.
pub proof fn law_frame_opens(ifac: Option<IfacModel>, packet: PacketModel)
    requires
        packet.well_formed(),
        packet.wire_len() <= MTU,
        ifac matches Some(i) ==> i.wf() && !packet.ifac,
    ensures
        frame_of(ifac, packet) matches Ok(frame) && frame_error(ifac, frame) is None
            && logical(ifac, frame) == packet.wire() && decodes_to(logical(ifac, frame), packet),
{
    law_decode_inverts_encode(packet);
    if let Some(i) = ifac {
        law_sealed_packet_opens(i, packet.wire());
        let wire = packet.wire();
        let b = wire[0];
        assert(b < 128 ==> b & 0x7f == b) by (bit_vector);
        assert(b / 128 == 0);
        assert(plain(wire) =~= wire);
    }
}

} // verus!
