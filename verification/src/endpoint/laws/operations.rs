//! What calls of an endpoint do, from what it was before to what it is after.

use vstd::prelude::*;

use crate::announce::Announce;
use crate::announce_admission::DestinationVerdict;
use crate::endpoint::laws::announces::{
    is_accepted, law_accepted_announce_is_passed_on, stamped,
};
use crate::endpoint::laws::dispatch::{is_local, law_link_data_goes_to_its_handler};
use crate::endpoint::laws::queueing::{
    can_take, first_with, gained, law_interface_is_found,
};
use crate::endpoint::laws::transit::{
    carried_on, has_bridge, has_live_route, is_path_request, law_transit_goes_by_the_route,
    names_us,
};
use crate::endpoint::paths::{LearnedPath, PathEntry, PathTable};
use crate::endpoint::policy::{InterfaceId, TrafficClass};
use crate::endpoint::queues::law_pop_is_first_in_first_out;
use crate::endpoint::router::{
    AnnounceOutcome, Dispatch, DispatchModel, Endpoint, EndpointModel, Lifecycle, LinkFactKind,
    Quiesce, Reading, RelayModel,
};
use crate::hash::AddressHash;
use crate::packet::{Packet, PacketType};
use crate::table::age;

verus! {

/// Routing a packet that names this endpoint as its hop queues it, one hop further, on the
/// interface of the live route and on no other, and leaves nothing more to do.
pub proof fn law_route_carries_transit_toward_its_destination(
    endpoint: &mut Endpoint,
    iface: InterfaceId,
    packet: Packet,
    reading: Reading,
    now: u64,
    dispatch: Dispatch,
    k: int,
)
    requires
        call_ensures(Endpoint::route, (endpoint, iface, packet, reading, now), dispatch),
        !is_path_request(packet@, reading),
        packet.packet_type != PacketType::Announce,
        names_us(old(endpoint)@, packet@),
        !has_bridge(old(endpoint)@, packet@, now),
        old(endpoint)@.policy.forward_packets,
        old(endpoint)@.policy.ingress.contains(iface),
        packet.hops < old(endpoint)@.policy.max_hops,
        has_live_route(old(endpoint)@, packet.destination, now),
        old(endpoint)@.policy.egress.contains(old(endpoint)@.paths[packet.destination].iface),
        first_with(
            old(endpoint)@.interfaces,
            old(endpoint)@.paths[packet.destination].iface,
            k,
        ),
        old(endpoint)@.interfaces[k].outbound.wf(),
        can_take(
            old(endpoint)@.interfaces[k],
            carried_on(packet@, old(endpoint)@.paths),
            TrafficClass::Transit,
        ),
    ensures
        dispatch@ == DispatchModel::Done,
        gained(
            old(endpoint)@.interfaces[k],
            final(endpoint)@.interfaces[k],
            carried_on(packet@, old(endpoint)@.paths),
            TrafficClass::Transit,
        ),
        final(endpoint)@.interfaces.len() == old(endpoint)@.interfaces.len(),
        forall|j: int|
            0 <= j < old(endpoint)@.interfaces.len() && j != k
                ==> #[trigger] final(endpoint)@.interfaces[j] == old(endpoint)@.interfaces[j],
{
    law_transit_goes_by_the_route(old(endpoint)@, iface, packet@, reading, now, k);
}

/// Routing data of a link hands the packet on as it is, to the link's own driver or to be
/// decrypted, as the link's kind says, and changes nothing.
pub proof fn law_route_hands_link_data_on(
    endpoint: &mut Endpoint,
    iface: InterfaceId,
    packet: Packet,
    reading: Reading,
    now: u64,
    dispatch: Dispatch,
)
    requires
        call_ensures(Endpoint::route, (endpoint, iface, packet, reading, now), dispatch),
        packet.packet_type == PacketType::Data,
        is_local(old(endpoint)@, packet@, reading, now),
        old(endpoint)@.links.contains_key(packet.destination),
    ensures
        final(endpoint)@ == old(endpoint)@,
        old(endpoint)@.links[packet.destination].kind == LinkFactKind::BestEffort ==> dispatch@ == (
        DispatchModel::Decrypt { packet: packet@ }),
        old(endpoint)@.links[packet.destination].kind != LinkFactKind::BestEffort ==> dispatch@ == (
        DispatchModel::Deliver { packet: packet@ }),
{
    law_link_data_goes_to_its_handler(old(endpoint)@, iface, packet@, reading, now);
}

/// Processing an accepted announce on a transport endpoint relays it, stamped by this node, to
/// wherever egress permits.
pub proof fn law_accepted_announce_leaves_a_relay(
    endpoint: &mut Endpoint,
    iface: InterfaceId,
    packet: Packet,
    announce: Announce,
    now: u64,
    outcome: AnnounceOutcome,
    hash: AddressHash,
)
    requires
        call_ensures(
            Endpoint::process_verified_announce,
            (endpoint, iface, packet, announce, now),
            outcome,
        ),
        hash@ == packet@.address(),
        is_accepted(old(endpoint)@, packet@, announce.destination, announce@, now),
        old(endpoint)@.policy.forward_announces,
        old(endpoint)@.policy.ingress.contains(iface),
        !old(endpoint)@.seen.contains(hash),
        old(endpoint)@.admission.after_destination(announce.destination, now).1
            == DestinationVerdict::Relay,
        packet.hops < old(endpoint)@.policy.max_hops,
    ensures
        outcome@.relay == Some(
            RelayModel {
                from: iface,
                packet: stamped(packet@, old(endpoint)@.own),
                egress: old(endpoint)@.policy.egress,
            },
        ),
{
    AddressHash::lemma_with(hash);
    law_accepted_announce_is_passed_on(
        old(endpoint)@,
        iface,
        packet@,
        hash,
        announce.destination,
        announce@,
        now,
    );
}

/// What an interface sends next is the first packet of one of its queues, which is gone from
/// that queue then and in flight; the other queues and the other interfaces stay. Nothing is
/// sent exactly where nothing waits, or no such interface is there.
pub proof fn law_next_outbound_is_the_first_of_a_queue(
    endpoint: &mut Endpoint,
    id: InterfaceId,
    packet: Option<Packet>,
    k: int,
)
    requires
        call_ensures(Endpoint::next_outbound, (endpoint, id), packet),
        first_with(old(endpoint)@.interfaces, id, k),
        old(endpoint)@.interfaces[k].outbound.wf(),
    ensures
        ({
            let before = old(endpoint)@.interfaces[k].outbound;
            let after = final(endpoint)@.interfaces[k].outbound;
            &&& packet is None <==> (forall|c: int|
                0 <= c < 4 ==> (#[trigger] before.queues[c]).len() == 0)
            &&& packet matches Some(p) ==> exists|c: int|
                0 <= c < 4 && (#[trigger] before.queues[c]).len() > 0 && p@ == before.queues[c][0]
                    && after.queues[c] == before.queues[c].drop_first() && (forall|d: int|
                    0 <= d < 4 && d != c ==> #[trigger] after.queues[d] == before.queues[d])
            &&& forall|j: int|
                0 <= j < old(endpoint)@.interfaces.len() && j != k
                    ==> #[trigger] final(endpoint)@.interfaces[j] == old(endpoint)@.interfaces[j]
            &&& packet is None ==> final(endpoint)@ == old(endpoint)@
        }),
{
    law_interface_is_found(old(endpoint)@.interfaces, id);
    let before = old(endpoint)@.interfaces[k].outbound;
    if packet is Some {
        let c = before.next_class();
        law_pop_is_first_in_first_out(before);
        assert(final(endpoint)@.interfaces[k].outbound == before.after_pop());
        assert(before.after_pop().queues[c] =~= before.queues[c].drop_first());
    }
}

/// Settling a delivery takes one packet out of flight on that interface, and changes nothing
/// else.
pub proof fn law_settled_delivery_leaves_flight(
    endpoint: &mut Endpoint,
    id: InterfaceId,
    k: int,
    j: int,
)
    requires
        call_ensures(Endpoint::delivery_complete, (endpoint, id), ()),
        first_with(old(endpoint)@.interfaces, id, k),
    ensures
        ({
            let before = old(endpoint)@.interfaces[k];
            let after = final(endpoint)@.interfaces[k];
            &&& final(endpoint)@.interfaces.len() == old(endpoint)@.interfaces.len()
            &&& 0 <= j < old(endpoint)@.interfaces.len() && j != k
                ==> final(endpoint)@.interfaces[j] == old(endpoint)@.interfaces[j]
            &&& after.id == before.id
            &&& after.outbound.queues == before.outbound.queues
            &&& before.outbound.in_flight > 0 ==> after.outbound.in_flight
                == before.outbound.in_flight - 1
            &&& before.outbound.in_flight == 0 ==> after.outbound.in_flight == 0
            &&& after.outbound.closed == before.outbound.closed
            &&& after.frame_limit == before.frame_limit
        }),
{
    law_interface_is_found(old(endpoint)@.interfaces, id);
}

/// Closing an interface closes it and leaves what it holds, and every other interface, as it
/// is.
pub proof fn law_closed_interface_keeps_what_it_holds(
    endpoint: &mut Endpoint,
    id: InterfaceId,
    k: int,
    j: int,
)
    requires
        call_ensures(Endpoint::close_interface, (endpoint, id), ()),
        first_with(old(endpoint)@.interfaces, id, k),
    ensures
        ({
            let before = old(endpoint)@.interfaces[k];
            let after = final(endpoint)@.interfaces[k];
            &&& final(endpoint)@.interfaces.len() == old(endpoint)@.interfaces.len()
            &&& 0 <= j < old(endpoint)@.interfaces.len() && j != k
                ==> final(endpoint)@.interfaces[j] == old(endpoint)@.interfaces[j]
            &&& after.id == before.id
            &&& after.outbound.queues == before.outbound.queues
            &&& after.outbound.closed
            &&& after.outbound.in_flight == before.outbound.in_flight
            &&& after.frame_limit == before.frame_limit
        }),
{
    law_interface_is_found(old(endpoint)@.interfaces, id);
}

/// Limiting an interface's frames lowers its limit where it is higher, and never raises it.
pub proof fn law_frame_limit_only_shrinks(
    endpoint: &mut Endpoint,
    id: InterfaceId,
    limit: usize,
    k: int,
    j: int,
)
    requires
        call_ensures(Endpoint::constrain_frame_limit, (endpoint, id, limit), ()),
        first_with(old(endpoint)@.interfaces, id, k),
    ensures
        ({
            let before = old(endpoint)@.interfaces[k];
            let after = final(endpoint)@.interfaces[k];
            &&& final(endpoint)@.interfaces.len() == old(endpoint)@.interfaces.len()
            &&& 0 <= j < old(endpoint)@.interfaces.len() && j != k
                ==> final(endpoint)@.interfaces[j] == old(endpoint)@.interfaces[j]
            &&& after.id == before.id
            &&& after.outbound.queues == before.outbound.queues
            &&& after.frame_limit <= before.frame_limit
            &&& after.frame_limit <= limit
            &&& after.frame_limit == before.frame_limit || after.frame_limit == limit
            &&& after.outbound == before.outbound
        }),
{
    law_interface_is_found(old(endpoint)@.interfaces, id);
}

/// Quiescing begins once, on a running endpoint, and changes nothing else.
pub proof fn law_quiescing_begins_once(endpoint: &mut Endpoint, found: Quiesce)
    requires
        call_ensures(Endpoint::begin_quiesce, (endpoint,), found),
    ensures
        found == Quiesce::Started <==> old(endpoint)@.lifecycle == Lifecycle::Running,
        found == Quiesce::InProgress <==> old(endpoint)@.lifecycle == Lifecycle::Quiescing,
        found == Quiesce::Closed <==> old(endpoint)@.lifecycle == Lifecycle::Closed,
        found == Quiesce::Started ==> final(endpoint)@ == (EndpointModel {
            lifecycle: Lifecycle::Quiescing,
            ..old(endpoint)@
        }),
        found != Quiesce::Started ==> final(endpoint)@ == old(endpoint)@,
{
}

/// A resource begins only on a running endpoint, and counts as active from then on.
pub proof fn law_resource_begins_while_running(endpoint: &mut Endpoint, begun: bool)
    requires
        call_ensures(Endpoint::begin_resource, (endpoint,), begun),
        old(endpoint)@.active_resources < usize::MAX,
    ensures
        begun <==> old(endpoint)@.lifecycle == Lifecycle::Running,
        final(endpoint)@.active_resources == old(endpoint)@.active_resources + (if begun {
            1int
        } else {
            0
        }),
        final(endpoint)@ == (EndpointModel {
            active_resources: final(endpoint)@.active_resources,
            ..old(endpoint)@
        }),
{
}

/// A learned route is the destination's from then on, and it is told whether it is another than
/// before.
pub proof fn law_learned_route_is_the_destinations(
    table: &mut PathTable,
    destination: AddressHash,
    next: PathEntry,
    now: u64,
    ttl: u64,
    outcome: LearnedPath,
)
    requires
        call_ensures(PathTable::learn, (table, destination, next, now, ttl), outcome),
    ensures
        final(table).view().contains_key(destination),
        final(table).view()[destination] == next,
        !outcome.changed <==> old(table).view().contains_key(destination)
            && old(table).view()[destination] == next,
        old(table).view().contains_key(destination) ==> !outcome.evicted,
{
}

/// A route that is looked up is found while it is younger than routes live, as it was learned;
/// one that has expired is told and goes, and no other is touched.
pub proof fn law_lookup_finds_live_routes(
    table: &mut PathTable,
    destination: AddressHash,
    now: u64,
    ttl: u64,
    found: (Option<PathEntry>, bool),
    other: AddressHash,
)
    requires
        call_ensures(PathTable::lookup, (table, destination, now, ttl), found),
    ensures
        ({
            let before = old(table).view();
            let after = final(table).view();
            let live = age(now, before[destination].learned) < ttl;
            &&& found.0 is Some <==> before.contains_key(destination) && live
            &&& found.0 matches Some(entry) ==> entry == before[destination]
            &&& found.1 <==> before.contains_key(destination) && !live
            &&& after.contains_key(destination) <==> found.0 is Some
            &&& other != destination ==> (after.contains_key(other) <==> before.contains_key(other))
                && (before.contains_key(other) ==> after[other] == before[other])
        }),
{
}

} // verus!
