//! What an endpoint sends of its own.

use vstd::prelude::*;

use crate::announce::{
    announced, announcement, announcement_signature, law_announce_layout,
    law_ordinal_is_the_last_five_bytes, AnnounceBlob, TimebaseError,
};
use crate::destination::{destination_of, name_hash_of};
use crate::endpoint::carriers::{all_outcomes, iface_index};
use crate::endpoint::laws::dispatch::{first_registered, is_ours, law_registration_is_found};
use crate::endpoint::laws::queueing::{
    can_take, first_with, gained, law_interface_is_found, law_offer_is_queued_or_dropped,
    law_offer_to_one_touches_one, nowhere,
};
use crate::endpoint::laws::transit::has_live_route;
use crate::endpoint::policy::{InterfaceId, TrafficClass};
use crate::endpoint::queues::{IfaceModel, QueueAdmission, SingleQueueResult};
use crate::endpoint::router::{
    registers, single_failure, EndpointError, EndpointModel, Lifecycle, LinkFactKind,
    RegisteredModel,
};
use crate::hash::{address_of, AddressHash};
use crate::identity::public_of;
use crate::packet::{
    DestinationType, HeaderType, PacketModel, PacketType, Propagation,
};

verus! {

/// A packet sent on an interface is queued there in its class, addressed to the transport node
/// its destination is reached through, and nowhere else.
pub proof fn law_sent_packet_is_queued_on_its_interface(
    endpoint: EndpointModel,
    iface: InterfaceId,
    packet: PacketModel,
    class: TrafficClass,
    k: int,
)
    ensures
        ({
            let after = endpoint.sent(iface, packet, class);
            let d = packet.destination;
            let via = endpoint.paths.contains_key(d) && endpoint.paths[d].transport is Some;
            let form = if via {
                PacketModel {
                    header_type: HeaderType::Type2,
                    transport: endpoint.paths[d].transport,
                    ..packet
                }
            } else {
                packet
            };
            &&& first_with(endpoint.interfaces, iface, k) ==> {
                &&& after.interfaces.len() == endpoint.interfaces.len()
                &&& endpoint.interfaces[k].outbound.wf() && can_take(
                    endpoint.interfaces[k],
                    form,
                    class,
                ) ==> gained(endpoint.interfaces[k], after.interfaces[k], form, class)
                &&& forall|j: int|
                    0 <= j < endpoint.interfaces.len() && j != k ==> #[trigger] after.interfaces[j]
                        == endpoint.interfaces[j]
            }
            &&& nowhere(endpoint.interfaces, iface) ==> after.interfaces == endpoint.interfaces
            &&& after == (EndpointModel { interfaces: after.interfaces, ..endpoint })
        }),
{
    let d = packet.destination;
    let form = if endpoint.paths.contains_key(d) && endpoint.paths[d].transport is Some {
        PacketModel {
            header_type: HeaderType::Type2,
            transport: endpoint.paths[d].transport,
            ..packet
        }
    } else {
        packet
    };
    law_offer_to_one_touches_one(endpoint.interfaces, iface, form, class, k);
    if first_with(endpoint.interfaces, iface, k) && endpoint.interfaces[k].outbound.wf()
        && can_take(endpoint.interfaces[k], form, class) {
        law_offer_is_queued_or_dropped(endpoint.interfaces[k], form, class);
    }
}

/// A broadcast is queued as control traffic, as it is, on every interface that takes it.
pub proof fn law_broadcast_is_queued_everywhere(
    endpoint: EndpointModel,
    packet: PacketModel,
    k: int,
)
    requires
        0 <= k < endpoint.interfaces.len(),
        endpoint.interfaces[k].outbound.wf(),
        can_take(endpoint.interfaces[k], packet, TrafficClass::Control),
    ensures
        ({
            let after = endpoint.broadcast(packet);
            &&& after.interfaces.len() == endpoint.interfaces.len()
            &&& gained(
                endpoint.interfaces[k],
                after.interfaces[k],
                packet,
                TrafficClass::Control,
            )
            &&& after == (EndpointModel { interfaces: after.interfaces, ..endpoint })
        }),
{
    law_offer_is_queued_or_dropped(endpoint.interfaces[k], packet, TrafficClass::Control);
}

/// A route is known while it is younger than routes live, and looking one up forgets it exactly
/// if it is not.
pub proof fn law_lookup_forgets_what_expired(
    endpoint: EndpointModel,
    destination: AddressHash,
    now: u64,
)
    ensures
        endpoint.has_route(destination, now) <==> has_live_route(endpoint, destination, now),
        ({
            let after = endpoint.after_lookup(destination, now);
            let stale = endpoint.paths.contains_key(destination) && !has_live_route(
                endpoint,
                destination,
                now,
            );
            &&& !stale ==> after == endpoint
            &&& stale ==> after == (EndpointModel {
                paths: endpoint.paths.remove(destination),
                generation: endpoint.generation.wrapping_add(1),
                ..endpoint
            })
        }),
{
}

/// The next ordinal of a destination is after the last, and not before the clock: it is the
/// clock where that has moved on, and else the next number. A clock that cannot be written, and
/// numbers that have run out, are errors.
pub proof fn law_next_ordinal_follows_the_last(
    endpoint: EndpointModel,
    destination: AddressHash,
    source_seconds: u64,
)
    ensures
        ({
            let next = endpoint.next_ordinal(destination, source_seconds);
            let last: int = if endpoint.ordinals.contains_key(destination) {
                endpoint.ordinals[destination] as int
            } else {
                0
            };
            &&& source_seconds > 0xff_ffff_ffff <==> next == Err::<u64, TimebaseError>(
                TimebaseError::OutOfRange,
            )
            &&& source_seconds <= 0xff_ffff_ffff && source_seconds <= last && last
                >= 0xff_ffff_ffff <==> next == Err::<u64, TimebaseError>(TimebaseError::Exhausted)
            &&& next matches Ok(n) ==> n > last && n >= source_seconds && (n == source_seconds
                || n == last + 1)
        }),
{
}

/// An ordinal that was drawn is the destination's last.
pub proof fn law_drawn_ordinal_is_the_last(
    endpoint: EndpointModel,
    destination: AddressHash,
    ordinal: u64,
    other: AddressHash,
)
    ensures
        ({
            let after = endpoint.with_ordinal(destination, ordinal);
            &&& after.ordinals.contains_key(destination)
            &&& after.ordinals[destination] == ordinal
            &&& other != destination ==> (after.ordinals.contains_key(other)
                <==> endpoint.ordinals.contains_key(other))
            &&& other != destination && endpoint.ordinals.contains_key(other)
                ==> after.ordinals[other] == endpoint.ordinals[other]
            &&& after == (EndpointModel { ordinals: after.ordinals, ..endpoint })
        }),
{
}

/// Announcing a name broadcasts one announce of it: a fresh broadcast for the name's destination
/// under this identity, signed by it, with the ratchet the destination is registered with, the
/// data, and the ordinal under the nonce. The ordinal is then the destination's last.
pub proof fn law_announcing_broadcasts_the_announce(
    endpoint: EndpointModel,
    name: Seq<char>,
    app_data: Seq<u8>,
    nonce: Seq<u8>,
    ordinal: u64,
    i: int,
)
    requires
        first_registered(endpoint.registered, endpoint.destination_of(name), i)
            || !is_ours(endpoint.registered, endpoint.destination_of(name)),
    ensures
        ({
            let after = endpoint.announced(name, app_data, nonce, ordinal);
            let destination = endpoint.destination_of(name);
            let ratchet = if is_ours(endpoint.registered, destination) {
                endpoint.registered[i].ratchet
            } else {
                None
            };
            let a = announcement(
                endpoint.secret,
                name_hash_of(name),
                AnnounceBlob::minted(nonce, ordinal)@,
                match ratchet {
                    Some(r) => Some(r@),
                    None => None,
                },
                app_data,
            );
            let packet = PacketModel {
                ifac: false,
                header_type: HeaderType::Type1,
                context_flag: ratchet is Some,
                propagation: Propagation::Broadcast,
                destination_type: DestinationType::Single,
                packet_type: PacketType::Announce,
                hops: 0,
                transport: None,
                destination,
                context: 0,
                payload: a.payload(announcement_signature(endpoint.secret, a)),
            };
            &&& after.interfaces == endpoint.broadcast(packet).interfaces
            &&& after.ordinals == endpoint.ordinals.insert(destination, ordinal)
            &&& after == (EndpointModel {
                interfaces: after.interfaces,
                ordinals: after.ordinals,
                ..endpoint
            })
        }),
{
    law_registration_is_found(endpoint.registered, endpoint.destination_of(name));
}

/// An announce of ours says what it was made of, under the context it was made for: an ordinary
/// one, or the answer to a path request.
pub proof fn law_own_announce_says_what_it_was_made_of(
    endpoint: EndpointModel,
    name: Seq<char>,
    ratchet: Option<[u8; 32]>,
    app_data: Seq<u8>,
    blob: AnnounceBlob,
    context: u8,
    hash: AddressHash,
)
    requires
        hash@ == destination_of(name_hash_of(name), address_of(public_of(endpoint.secret))),
    ensures
        ({
            let packet = endpoint.own_announce(
                name,
                ratchet,
                app_data,
                blob@.subrange(0, 5),
                blob.ordinal() as u64,
                context,
            );
            let said = announced(packet);
            &&& packet.packet_type == PacketType::Announce
            &&& packet.context == context
            &&& packet.destination == hash
            &&& packet.hops == 0
            &&& packet.transport is None
            &&& packet.context_flag <==> ratchet is Some
            &&& said.identity == public_of(endpoint.secret)
            &&& said.name_hash == name_hash_of(name)
            &&& said.rand_hash == blob@
            &&& said.app_data == app_data
            &&& said.ratchet is Some <==> ratchet is Some
            &&& ratchet matches Some(r) ==> said.ratchet->0 == r@
        }),
{
    AddressHash::lemma_with(hash);
    law_ordinal_is_the_last_five_bytes(blob);
    let packet = endpoint.own_announce(
        name,
        ratchet,
        app_data,
        blob@.subrange(0, 5),
        blob.ordinal() as u64,
        context,
    );
    let a = announcement(
        endpoint.secret,
        name_hash_of(name),
        blob@,
        match ratchet {
            Some(r) => Some(r@),
            None => None,
        },
        app_data,
    );
    law_announce_layout(
        packet,
        public_of(endpoint.secret),
        name_hash_of(name),
        blob@,
        a.ratchet_bytes(),
        announcement_signature(endpoint.secret, a),
        app_data,
    );
}

/// The destination of a name is that of the name and this endpoint's identity.
pub proof fn law_own_destination_is_name_and_identity(
    endpoint: EndpointModel,
    name: Seq<char>,
    hash: AddressHash,
)
    requires
        hash@ == destination_of(name_hash_of(name), address_of(public_of(endpoint.secret))),
    ensures
        endpoint.destination_of(name) == hash,
{
    AddressHash::lemma_with(hash);
}

/// Registering a destination takes it up behind the others, as it was given, and announces it;
/// where the clock does not allow the announce, the error says so and nothing is sent.
pub proof fn law_registered_destination_is_taken_up_and_announced(
    before: EndpointModel,
    after: EndpointModel,
    result: Result<(), EndpointError>,
    name: Seq<char>,
    app_data: Seq<u8>,
    kind: LinkFactKind,
    ratchet: Option<[u8; 32]>,
    source_seconds: u64,
    nonce: Seq<u8>,
)
    requires
        registers(
            before,
            after,
            result,
            name,
            app_data,
            kind,
            ratchet,
            source_seconds,
            nonce,
        ),
    ensures
        ({
            let destination = before.destination_of(name);
            let n = before.registered.len() as int;
            let next = before.next_ordinal(destination, source_seconds);
            &&& after.registered.len() == n + 1
            &&& after.registered[n] == (RegisteredModel {
                dest: destination,
                kind,
                name,
                app_data,
                ratchet,
            })
            &&& forall|j: int|
                0 <= j < n ==> #[trigger] after.registered[j] == before.registered[j]
            &&& result is Ok <==> next is Ok
            &&& next matches Err(e) ==> result == Err::<(), EndpointError>(
                EndpointError::Timebase(e),
            ) && after.interfaces == before.interfaces && after.ordinals == before.ordinals
            &&& next matches Ok(ordinal) ==> after.ordinals == before.ordinals.insert(
                destination,
                ordinal,
            ) && after == (EndpointModel { registered: after.registered, ..before }).announced(
                name,
                app_data,
                nonce,
                ordinal,
            )
        }),
{
}

/// A registration's ratchet is replaced in its place, and nothing else is.
pub proof fn law_ratchet_is_replaced_in_place(endpoint: EndpointModel, i: int, ratchet: [u8; 32])
    requires
        0 <= i < endpoint.registered.len(),
    ensures
        ({
            let after = endpoint.with_ratchet(i, ratchet);
            &&& after.registered.len() == endpoint.registered.len()
            &&& after.registered[i].ratchet == Some(ratchet)
            &&& after.registered[i] == (RegisteredModel {
                ratchet: after.registered[i].ratchet,
                ..endpoint.registered[i]
            })
            &&& forall|j: int|
                0 <= j < endpoint.registered.len() && j != i ==> #[trigger] after.registered[j]
                    == endpoint.registered[j]
            &&& after == (EndpointModel { registered: after.registered, ..endpoint })
        }),
{
}

/// A single packet can go to a destination that announced itself with a ratchet, if it fits one
/// packet and the endpoint runs; what is in the way is said, the endpoint first.
pub proof fn law_single_packet_needs_a_ratchet(
    endpoint: EndpointModel,
    destination: AddressHash,
    len: nat,
)
    ensures
        ({
            let refusal = endpoint.single_refusal(destination, len);
            let running = endpoint.lifecycle == Lifecycle::Running;
            let known = endpoint.book.peers.contains_key(destination);
            let keyed = endpoint.book.peers[destination].ratchet is Some;
            &&& refusal is None <==> running && len <= 383 && known && keyed
            &&& !running ==> refusal == Some(EndpointError::Closed)
            &&& running && len > 383 ==> refusal == Some(EndpointError::PlaintextTooLong)
            &&& running && len <= 383 && !known ==> refusal == Some(EndpointError::NotAnnounced)
            &&& running && len <= 383 && known && !keyed ==> refusal == Some(
                EndpointError::NoRatchet,
            )
        }),
{
}

/// A single packet goes out on the live route to its destination, once, and else on every
/// interface, as interactive traffic. How many took it is what comes back.
pub proof fn law_single_packet_goes_by_the_route_or_everywhere(
    endpoint: EndpointModel,
    destination: AddressHash,
    payload: Seq<u8>,
    now: u64,
    k: int,
)
    requires
        0 <= k < endpoint.interfaces.len(),
        endpoint.interfaces[k].outbound.wf(),
    ensures
        ({
            let packet = EndpointModel::single_packet(destination, payload);
            let after = endpoint.single_queued(destination, packet, now);
            let outcome = endpoint.single_outcome(destination, packet, now);
            let live = has_live_route(endpoint, destination, now);
            let out = endpoint.paths[destination].iface;
            let via = endpoint.paths[destination].transport;
            let form = if live && via is Some {
                PacketModel { header_type: HeaderType::Type2, transport: via, ..packet }
            } else {
                packet
            };
            &&& packet.destination == destination
            &&& packet.payload == payload
            &&& packet.packet_type == PacketType::Data
            &&& packet.destination_type == DestinationType::Single
            &&& packet.hops == 0
            &&& packet.context == 0
            &&& packet.transport is None
            &&& packet.header_type == HeaderType::Type1
            &&& packet.propagation == Propagation::Broadcast
            &&& !packet.context_flag
            &&& !packet.ifac
            &&& after.interfaces.len() == endpoint.interfaces.len()
            &&& after == (EndpointModel {
                interfaces: after.interfaces,
                ..endpoint.after_lookup(destination, now)
            })
            &&& live && first_with(endpoint.interfaces, out, k) && can_take(
                endpoint.interfaces[k],
                form,
                TrafficClass::Interactive,
            ) ==> outcome.queued == 1 && gained(
                endpoint.interfaces[k],
                after.interfaces[k],
                form,
                TrafficClass::Interactive,
            )
            &&& live && endpoint.interfaces[k].id != out ==> after.interfaces[k]
                == endpoint.interfaces[k]
            &&& live && nowhere(endpoint.interfaces, out) ==> outcome.queued == 0
                && outcome.frame_capable
            &&& !live && can_take(
                endpoint.interfaces[k],
                form,
                TrafficClass::Interactive,
            ) ==> outcome.queued > 0 && gained(
                endpoint.interfaces[k],
                after.interfaces[k],
                form,
                TrafficClass::Interactive,
            )
        }),
{
    let packet = EndpointModel::single_packet(destination, payload);
    let live = has_live_route(endpoint, destination, now);
    let out = endpoint.paths[destination].iface;
    let via = endpoint.paths[destination].transport;
    let form = if live && via is Some {
        PacketModel { header_type: HeaderType::Type2, transport: via, ..packet }
    } else {
        packet
    };
    law_interface_is_found(endpoint.interfaces, out);
    law_offer_to_one_touches_one(
        endpoint.interfaces,
        out,
        form,
        TrafficClass::Interactive,
        k,
    );
    if can_take(endpoint.interfaces[k], form, TrafficClass::Interactive) {
        law_offer_is_queued_or_dropped(endpoint.interfaces[k], form, TrafficClass::Interactive);
    }
    if live {
        if let Some(f) = iface_index(endpoint.interfaces, out) {
            if endpoint.interfaces[k].id != out {
                assert(f != k);
            }
        }
    } else {
        law_every_taker_counts(endpoint.interfaces, form, TrafficClass::Interactive, k);
    }
}

/// Of a packet offered to every interface, each that takes it counts once, and no other does.
pub proof fn law_every_taker_counts(
    interfaces: Seq<IfaceModel>,
    packet: PacketModel,
    class: TrafficClass,
    k: int,
)
    ensures
        interfaces.len() < usize::MAX ==> all_outcomes(interfaces, packet, class).queued
            == interfaces.filter(
            |i: IfaceModel| i.admission(packet, class) == QueueAdmission::Queued,
        ).len(),
        0 <= k < interfaces.len() && interfaces[k].admission(packet, class)
            == QueueAdmission::Queued ==> all_outcomes(interfaces, packet, class).queued > 0,
        all_outcomes(interfaces, packet, class).frame_capable <==> exists|j: int|
            0 <= j < interfaces.len() && !((#[trigger] interfaces[j]).admission(packet, class)
                is FrameLimit),
    decreases interfaces.len(),
{
    reveal(Seq::filter);
    if interfaces.len() > 0 {
        let front = interfaces.drop_last();
        law_every_taker_counts(front, packet, class, k);
        let n = interfaces.len() - 1;
        interfaces.lemma_filter_len(
            |i: IfaceModel| i.admission(packet, class) == QueueAdmission::Queued,
        );
        front.lemma_filter_len(
            |i: IfaceModel| i.admission(packet, class) == QueueAdmission::Queued,
        );
        if 0 <= k < n {
            assert(front[k] == interfaces[k]);
        }
        if exists|j: int|
            0 <= j < interfaces.len() && !((#[trigger] interfaces[j]).admission(packet, class)
                is FrameLimit) {
            let j = choose|j: int|
                0 <= j < interfaces.len() && !((#[trigger] interfaces[j]).admission(packet, class)
                    is FrameLimit);
            if j < n {
                assert(front[j] == interfaces[j]);
            }
        }
        if all_outcomes(front, packet, class).frame_capable {
            let j = choose|j: int|
                0 <= j < front.len() && !((#[trigger] front[j]).admission(packet, class)
                    is FrameLimit);
            assert(interfaces[j] == front[j]);
        }
        assert(interfaces[n] == interfaces.last());
    }
}

/// A single packet that nobody took says why: its length against the limit where no interface
/// could have carried it, and else that none had room.
pub proof fn law_untaken_single_says_why(outcome: SingleQueueResult, actual: usize, limit: usize)
    ensures
        !outcome.frame_capable && outcome.frame_limit_rejection == Some((actual, limit))
            ==> single_failure(outcome) == (EndpointError::FrameLimit { actual, limit }),
        outcome.frame_capable || outcome.frame_limit_rejection is None ==> single_failure(outcome)
            == EndpointError::WouldBlock,
{
}

} // verus!
