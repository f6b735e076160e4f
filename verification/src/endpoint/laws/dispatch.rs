//! Where an endpoint hands the packets that are for it.

use vstd::prelude::*;

use crate::endpoint::laws::queueing::{
    can_take, first_with, gained, law_offer_is_queued_or_dropped, law_offer_to_one_touches_one,
};
use crate::endpoint::laws::transit::{has_bridge, is_path_request, names_us};
use crate::endpoint::policy::{InterfaceId, TrafficClass};
use crate::endpoint::router::{
    registration_index, DispatchModel, EndpointModel, Lifecycle, LinkFactKind, Reading,
    RegisteredModel,
};
use crate::hash::AddressHash;
use crate::packet::{DestinationType, HeaderType, PacketModel, PacketType};
use crate::table::age;

verus! {

/// The first registration of a destination.
pub open spec fn first_registered(
    registered: Seq<RegisteredModel>,
    destination: AddressHash,
    i: int,
) -> bool {
    &&& 0 <= i < registered.len()
    &&& registered[i].dest == destination
    &&& forall|j: int| 0 <= j < i ==> (#[trigger] registered[j]).dest != destination
}

/// Whether a destination is registered here.
pub open spec fn is_ours(registered: Seq<RegisteredModel>, destination: AddressHash) -> bool {
    exists|i: int| 0 <= i < registered.len() && (#[trigger] registered[i]).dest == destination
}

/// Whether a packet is for this endpoint to deal with: it asks for no path, crosses no bridge,
/// and does not name this node as a hop.
pub open spec fn is_local(
    endpoint: EndpointModel,
    packet: PacketModel,
    reading: Reading,
    now: u64,
) -> bool {
    !is_path_request(packet, reading) && !has_bridge(endpoint, packet, now) && !names_us(
        endpoint,
        packet,
    )
}

/// A registration is found by its destination: the first of several, and none where there is
/// none.
pub proof fn law_registration_is_found(registered: Seq<RegisteredModel>, destination: AddressHash)
    ensures
        forall|i: int|
            first_registered(registered, destination, i) ==> #[trigger] registration_index(
                registered,
                destination,
            ) == Some(i),
        registration_index(registered, destination) matches Some(i) ==> first_registered(
            registered,
            destination,
            i,
        ),
        registration_index(registered, destination) is Some <==> is_ours(registered, destination),
    decreases registered.len(),
{
    if registered.len() > 0 {
        let front = registered.drop_last();
        law_registration_is_found(front, destination);
        if let Some(i) = registration_index(front, destination) {
            assert(registered[i] == front[i]);
            assert forall|j: int| 0 <= j < i implies (#[trigger] registered[j]).dest
                != destination by {
                assert(front[j].dest != destination);
            }
        } else {
            assert forall|j: int| 0 <= j < front.len() implies (#[trigger] registered[j]).dest
                != destination by {
                assert(front[j].dest != destination);
            }
            if registered.last().dest == destination {
                assert(registered[registered.len() - 1].dest == destination);
            }
        }
        assert forall|i: int|
            first_registered(
                registered,
                destination,
                i,
            ) implies #[trigger] registration_index(registered, destination) == Some(i) by {
            assert(registered[i].dest == destination);
            let f = registration_index(registered, destination)->0;
            if f < i {
                assert(registered[f].dest != destination);
            } else if i < f {
                assert(registered[i].dest != destination);
            }
        }
    }
}

/// Data for a live link goes where the link's kind says: raw to the driver of a reliable or
/// resource link, which orders and proves it, and to be decrypted for a best-effort stream.
/// Nothing of the endpoint changes.
pub proof fn law_link_data_goes_to_its_handler(
    endpoint: EndpointModel,
    iface: InterfaceId,
    packet: PacketModel,
    reading: Reading,
    now: u64,
)
    requires
        packet.packet_type == PacketType::Data,
        is_local(endpoint, packet, reading, now),
        endpoint.links.contains_key(packet.destination),
    ensures
        ({
            let (after, dispatch) = endpoint.routed(iface, packet, reading, now);
            let kind = endpoint.links[packet.destination].kind;
            &&& after == endpoint
            &&& kind == LinkFactKind::Reliable ==> dispatch == DispatchModel::Deliver { packet }
            &&& kind == LinkFactKind::Resource ==> dispatch == DispatchModel::Deliver { packet }
            &&& kind == LinkFactKind::BestEffort ==> dispatch == DispatchModel::Decrypt { packet }
        }),
{
}

/// Data for a destination registered here, of no link, is opened while the endpoint runs: with
/// the destination's ratchets exactly if it has one. Any other data is dropped.
pub proof fn law_single_data_is_opened_for_its_destination(
    endpoint: EndpointModel,
    iface: InterfaceId,
    packet: PacketModel,
    reading: Reading,
    now: u64,
    i: int,
)
    requires
        packet.packet_type == PacketType::Data,
        is_local(endpoint, packet, reading, now),
        !endpoint.links.contains_key(packet.destination),
    ensures
        ({
            let (after, dispatch) = endpoint.routed(iface, packet, reading, now);
            let ours = packet.destination_type == DestinationType::Single && endpoint.lifecycle
                == Lifecycle::Running;
            &&& after == endpoint
            &&& ours && first_registered(endpoint.registered, packet.destination, i) ==> dispatch
                == (DispatchModel::OpenSingle {
                packet,
                ratcheted: endpoint.registered[i].ratchet is Some,
            })
            &&& !ours || !is_ours(endpoint.registered, packet.destination) ==> dispatch
                == DispatchModel::Done
        }),
{
    law_registration_is_found(endpoint.registered, packet.destination);
}

/// A proof that verifies completes the pending link it is for, which waits no longer.
pub proof fn law_genuine_proof_establishes_its_link(
    endpoint: EndpointModel,
    iface: InterfaceId,
    packet: PacketModel,
    reading: Reading,
    now: u64,
)
    requires
        packet.packet_type == PacketType::Proof,
        is_local(endpoint, packet, reading, now),
        reading.proves_pending,
        endpoint.pending.contains_key(packet.destination),
    ensures
        ({
            let (after, dispatch) = endpoint.routed(iface, packet, reading, now);
            &&& dispatch == DispatchModel::Established { packet }
            &&& !after.pending.contains_key(packet.destination)
            &&& forall|other: AddressHash|
                other != packet.destination ==> (#[trigger] after.pending.contains_key(other)
                    <==> endpoint.pending.contains_key(other))
            &&& after == (EndpointModel { pending: after.pending, ..endpoint })
        }),
{
}

/// A proof that completes no pending link goes to the driver of its link, which a reliable and
/// a resource link have; any other is dropped. Nothing changes.
pub proof fn law_other_proof_goes_to_its_driver(
    endpoint: EndpointModel,
    iface: InterfaceId,
    packet: PacketModel,
    reading: Reading,
    now: u64,
)
    requires
        packet.packet_type == PacketType::Proof,
        is_local(endpoint, packet, reading, now),
        !reading.proves_pending || !endpoint.pending.contains_key(packet.destination),
    ensures
        ({
            let (after, dispatch) = endpoint.routed(iface, packet, reading, now);
            let known = endpoint.links.contains_key(packet.destination);
            let kind = endpoint.links[packet.destination].kind;
            &&& after == endpoint
            &&& known && (kind == LinkFactKind::Reliable || kind == LinkFactKind::Resource)
                ==> dispatch == DispatchModel::Deliver { packet }
            &&& !known || kind == LinkFactKind::BestEffort ==> dispatch == DispatchModel::Done
        }),
{
}

/// A link request for a destination registered here is accepted as the kind it was registered
/// for, while the endpoint runs and the request was not proved within the last half minute.
/// Nothing is queued for it.
pub proof fn law_link_request_is_accepted_as_registered(
    endpoint: EndpointModel,
    iface: InterfaceId,
    packet: PacketModel,
    reading: Reading,
    now: u64,
    i: int,
)
    requires
        packet.packet_type == PacketType::LinkRequest,
        is_local(endpoint, packet, reading, now),
        endpoint.lifecycle == Lifecycle::Running,
        first_registered(endpoint.registered, packet.destination, i),
        reading.link_id matches Some(id) ==> !(endpoint.proofs.contains_key(id) && age(
            now,
            endpoint.proofs[id].at,
        ) < 30_000),
    ensures
        ({
            let (after, dispatch) = endpoint.routed(iface, packet, reading, now);
            &&& dispatch == (DispatchModel::Accept { kind: endpoint.registered[i].kind, packet })
            &&& after == (EndpointModel { proofs: after.proofs, ..endpoint })
            &&& forall|id: AddressHash| #[trigger]
                endpoint.proofs.contains_key(id) && age(now, endpoint.proofs[id].at) < 30_000
                    ==> after.proofs.contains_key(id) && after.proofs[id] == endpoint.proofs[id]
            &&& forall|id: AddressHash| #[trigger]
                after.proofs.contains_key(id) ==> endpoint.proofs.contains_key(id)
                    && after.proofs[id] == endpoint.proofs[id]
            &&& reading.link_id is Some ==> forall|id: AddressHash| #[trigger]
                after.proofs.contains_key(id) ==> age(now, after.proofs[id].at) < 30_000
        }),
{
    law_registration_is_found(endpoint.registered, packet.destination);
}

/// A link request whose proof was given within the last half minute is answered by that proof
/// again, out the interface it came in on, and opens nothing.
pub proof fn law_repeated_link_request_is_proved_again(
    endpoint: EndpointModel,
    iface: InterfaceId,
    packet: PacketModel,
    reading: Reading,
    now: u64,
    k: int,
)
    requires
        packet.packet_type == PacketType::LinkRequest,
        is_local(endpoint, packet, reading, now),
        endpoint.lifecycle == Lifecycle::Running,
        is_ours(endpoint.registered, packet.destination),
        reading.link_id matches Some(id) && endpoint.proofs.contains_key(id) && age(
            now,
            endpoint.proofs[id].at,
        ) < 30_000,
        first_with(endpoint.interfaces, iface, k),
        endpoint.interfaces[k].outbound.wf(),
        can_take(
            endpoint.interfaces[k],
            sent_toward(endpoint.proofs[reading.link_id->0].proof_packet, endpoint),
            TrafficClass::Interactive,
        ),
    ensures
        ({
            let (after, dispatch) = endpoint.routed(iface, packet, reading, now);
            let again = endpoint.proofs[reading.link_id->0].proof_packet;
            &&& dispatch == DispatchModel::Done
            &&& after.links == endpoint.links
            &&& after.interfaces.len() == endpoint.interfaces.len()
            &&& gained(
                endpoint.interfaces[k],
                after.interfaces[k],
                sent_toward(again, endpoint),
                TrafficClass::Interactive,
            )
            &&& forall|j: int|
                0 <= j < endpoint.interfaces.len() && j != k ==> #[trigger] after.interfaces[j]
                    == endpoint.interfaces[j]
            &&& after == (EndpointModel {
                interfaces: after.interfaces,
                proofs: after.proofs,
                ..endpoint
            })
        }),
{
    law_registration_is_found(endpoint.registered, packet.destination);
    let again = endpoint.proofs[reading.link_id->0].proof_packet;
    let moved = sent_toward(again, endpoint);
    law_offer_to_one_touches_one(
        endpoint.interfaces,
        iface,
        moved,
        TrafficClass::Interactive,
        k,
    );
    law_offer_is_queued_or_dropped(endpoint.interfaces[k], moved, TrafficClass::Interactive);
}

/// A packet as it is sent toward its destination: for the transport node the destination is
/// reached through, if it is, and as it is otherwise.
pub open spec fn sent_toward(packet: PacketModel, endpoint: EndpointModel) -> PacketModel {
    let d = packet.destination;
    if endpoint.paths.contains_key(d) && endpoint.paths[d].transport is Some {
        PacketModel {
            header_type: HeaderType::Type2,
            transport: endpoint.paths[d].transport,
            ..packet
        }
    } else {
        packet
    }
}

/// A link request for no destination of this endpoint, or while it does not run, does nothing.
pub proof fn law_link_request_for_another_is_dropped(
    endpoint: EndpointModel,
    iface: InterfaceId,
    packet: PacketModel,
    reading: Reading,
    now: u64,
)
    requires
        packet.packet_type == PacketType::LinkRequest,
        is_local(endpoint, packet, reading, now),
        !is_ours(endpoint.registered, packet.destination) || endpoint.lifecycle
            != Lifecycle::Running,
    ensures
        endpoint.routed(iface, packet, reading, now) == (endpoint, DispatchModel::Done),
{
    law_registration_is_found(endpoint.registered, packet.destination);
}

/// A path request is answered exactly for a destination registered here, and changes nothing.
pub proof fn law_path_request_is_answered_for_ours(
    endpoint: EndpointModel,
    iface: InterfaceId,
    packet: PacketModel,
    reading: Reading,
    now: u64,
)
    requires
        is_path_request(packet, reading),
    ensures
        ({
            let (after, dispatch) = endpoint.routed(iface, packet, reading, now);
            let target = reading.path_target->0;
            &&& after == endpoint
            &&& is_ours(endpoint.registered, target) ==> dispatch == DispatchModel::AnswerPath {
                target,
            }
            &&& !is_ours(endpoint.registered, target) ==> dispatch == DispatchModel::Done
        }),
{
    law_registration_is_found(endpoint.registered, reading.path_target->0);
}

} // verus!
