//! What an endpoint does with packets it carries for others.

use vstd::prelude::*;

use crate::endpoint::laws::queueing::{
    can_take, first_with, gained, law_offer_is_queued_or_dropped, law_offer_to_one_touches_one,
    nowhere,
};
use crate::endpoint::memory::Bridge;
use crate::endpoint::paths::PathEntry;
use crate::endpoint::policy::{InterfaceId, RoutingCounters, TrafficClass};
use crate::endpoint::router::{DispatchModel, EndpointModel, Reading};
use crate::hash::AddressHash;
use crate::packet::{DestinationType, HeaderType, PacketModel, PacketType};
use crate::table::age;
use crate::time::whole_millis;

verus! {

/// Whether a packet asks for a path: plain data in which a destination was read.
pub open spec fn is_path_request(packet: PacketModel, reading: Reading) -> bool {
    packet.packet_type == PacketType::Data && packet.destination_type == DestinationType::Plain
        && reading.path_target is Some
}

/// Whether the link a packet is for is bridged here, by a bridge used within the hour.
pub open spec fn has_bridge(endpoint: EndpointModel, packet: PacketModel, now: u64) -> bool {
    endpoint.bridges.contains_key(packet.destination) && age(
        now,
        endpoint.bridges[packet.destination].seen,
    ) < 3_600_000
}

/// Whether a packet names this node as the one to carry it on.
pub open spec fn names_us(endpoint: EndpointModel, packet: PacketModel) -> bool {
    packet.header_type == HeaderType::Type2 && packet.transport == Some(endpoint.own)
}

/// Whether a route to a destination is known that is younger than routes live.
pub open spec fn has_live_route(
    endpoint: EndpointModel,
    destination: AddressHash,
    now: u64,
) -> bool {
    let learned = endpoint.paths[destination].learned;
    &&& endpoint.paths.contains_key(destination)
    &&& age(now, learned) < whole_millis(endpoint.freshness_policy.route_ttl)
    &&& age(now, learned) < u64::MAX
}

/// A packet as it is carried on by a route: one hop further, for the route's next transport
/// node if it has one, and the same in all else.
pub open spec fn carried_on(
    packet: PacketModel,
    routes: Map<AddressHash, PathEntry>,
) -> PacketModel {
    let next = if routes.contains_key(packet.destination) {
        routes[packet.destination].transport
    } else {
        None
    };
    PacketModel {
        hops: (packet.hops + 1) as u8,
        header_type: if next is Some {
            HeaderType::Type2
        } else {
            HeaderType::Type1
        },
        transport: next,
        ifac: packet.ifac,
        context_flag: packet.context_flag,
        propagation: packet.propagation,
        destination_type: packet.destination_type,
        packet_type: packet.packet_type,
        destination: packet.destination,
        context: packet.context,
        payload: packet.payload,
    }
}

/// A packet that names this node as its hop goes toward its destination: it is queued as
/// transit on the interface of the live route, one hop further and otherwise the same, and no
/// other interface is touched. It counts as forwarded. A link request leaves a bridge behind
/// between where it came from and where it went, and nothing else of the endpoint changes.
pub proof fn law_transit_goes_by_the_route(
    endpoint: EndpointModel,
    iface: InterfaceId,
    packet: PacketModel,
    reading: Reading,
    now: u64,
    k: int,
)
    requires
        !is_path_request(packet, reading),
        packet.packet_type != PacketType::Announce,
        names_us(endpoint, packet),
        !has_bridge(endpoint, packet, now),
        endpoint.policy.forward_packets,
        endpoint.policy.ingress.contains(iface),
        packet.hops < endpoint.policy.max_hops,
        has_live_route(endpoint, packet.destination, now),
        endpoint.policy.egress.contains(endpoint.paths[packet.destination].iface),
        first_with(endpoint.interfaces, endpoint.paths[packet.destination].iface, k),
        endpoint.interfaces[k].outbound.wf(),
        can_take(
            endpoint.interfaces[k],
            carried_on(packet, endpoint.paths),
            TrafficClass::Transit,
        ),
    ensures
        ({
            let (after, dispatch) = endpoint.routed(iface, packet, reading, now);
            let out = endpoint.paths[packet.destination].iface;
            &&& dispatch == DispatchModel::Done
            &&& after.interfaces.len() == endpoint.interfaces.len()
            &&& gained(
                endpoint.interfaces[k],
                after.interfaces[k],
                carried_on(packet, endpoint.paths),
                TrafficClass::Transit,
            )
            &&& forall|j: int|
                0 <= j < endpoint.interfaces.len() && j != k ==> #[trigger] after.interfaces[j]
                    == endpoint.interfaces[j]
            &&& after.stats == (RoutingCounters {
                forwarded_packets: endpoint.stats.forwarded_packets.wrapping_add(1),
                ..endpoint.stats
            })
            &&& packet.packet_type == PacketType::LinkRequest && reading.link_id is Some ==> {
                let id = reading.link_id->0;
                &&& after.bridges.contains_key(id)
                &&& after.bridges[id].from == iface
                &&& after.bridges[id].out == out
                &&& after.bridges[id].seen == now
                &&& forall|other: AddressHash| #[trigger]
                    after.bridges.contains_key(other) && other != id
                        ==> endpoint.bridges.contains_key(other) && after.bridges[other]
                        == endpoint.bridges[other]
                &&& forall|other: AddressHash| #[trigger]
                    endpoint.bridges.contains_key(other) && other != id && age(
                        now,
                        endpoint.bridges[other].seen,
                    ) < 3_600_000 ==> after.bridges.contains_key(other)
            }
            &&& packet.packet_type != PacketType::LinkRequest || reading.link_id is None
                ==> after.bridges == endpoint.bridges
            &&& after == (EndpointModel {
                interfaces: after.interfaces,
                stats: after.stats,
                bridges: after.bridges,
                ..endpoint
            })
        }),
{
    let out = endpoint.paths[packet.destination].iface;
    let moved = carried_on(packet, endpoint.paths);
    law_offer_to_one_touches_one(
        endpoint.interfaces,
        out,
        moved,
        TrafficClass::Transit,
        k,
    );
    law_offer_is_queued_or_dropped(endpoint.interfaces[k], moved, TrafficClass::Transit);
}

/// A packet for a link that is bridged here crosses its bridge: what came in on one side is
/// queued as transit on the other, one hop further, whatever route is known. The bridge is kept
/// alive by it.
pub proof fn law_bridged_packet_crosses(
    endpoint: EndpointModel,
    iface: InterfaceId,
    packet: PacketModel,
    reading: Reading,
    now: u64,
    k: int,
)
    requires
        !is_path_request(packet, reading),
        packet.packet_type != PacketType::Announce,
        has_bridge(endpoint, packet, now),
        endpoint.policy.forward_packets,
        endpoint.policy.ingress.contains(iface),
        packet.hops < endpoint.policy.max_hops,
        ({
            let bridge = endpoint.bridges[packet.destination];
            let far = if iface == bridge.from {
                bridge.out
            } else {
                bridge.from
            };
            endpoint.policy.egress.contains(far) && first_with(endpoint.interfaces, far, k)
        }),
        endpoint.interfaces[k].outbound.wf(),
        can_take(
            endpoint.interfaces[k],
            carried_on(packet, endpoint.paths),
            TrafficClass::Transit,
        ),
    ensures
        ({
            let (after, dispatch) = endpoint.routed(iface, packet, reading, now);
            let bridge = endpoint.bridges[packet.destination];
            &&& dispatch == DispatchModel::Done
            &&& after.interfaces.len() == endpoint.interfaces.len()
            &&& gained(
                endpoint.interfaces[k],
                after.interfaces[k],
                carried_on(packet, endpoint.paths),
                TrafficClass::Transit,
            )
            &&& forall|j: int|
                0 <= j < endpoint.interfaces.len() && j != k ==> #[trigger] after.interfaces[j]
                    == endpoint.interfaces[j]
            &&& after.stats == (RoutingCounters {
                forwarded_packets: endpoint.stats.forwarded_packets.wrapping_add(1),
                ..endpoint.stats
            })
            &&& after.bridges == endpoint.bridges.insert(
                packet.destination,
                Bridge { from: bridge.from, out: bridge.out, seen: now },
            )
            &&& after == (EndpointModel {
                interfaces: after.interfaces,
                stats: after.stats,
                bridges: after.bridges,
                ..endpoint
            })
        }),
{
    let moved = carried_on(packet, endpoint.paths);
    let bridge = endpoint.bridges[packet.destination];
    let far = if iface == bridge.from {
        bridge.out
    } else {
        bridge.from
    };
    law_offer_to_one_touches_one(
        endpoint.interfaces,
        far,
        moved,
        TrafficClass::Transit,
        k,
    );
    law_offer_is_queued_or_dropped(endpoint.interfaces[k], moved, TrafficClass::Transit);
}

/// Whether a packet is someone else's.
pub open spec fn is_others(
    endpoint: EndpointModel,
    packet: PacketModel,
    reading: Reading,
    now: u64,
) -> bool {
    !is_path_request(packet, reading) && packet.packet_type != PacketType::Announce && (has_bridge(
        endpoint,
        packet,
        now,
    ) || names_us(endpoint, packet))
}

/// The bridges after a packet for one of them came: that one was used now.
pub open spec fn used_bridges(
    endpoint: EndpointModel,
    packet: PacketModel,
    now: u64,
) -> Map<AddressHash, Bridge> {
    let bridge = endpoint.bridges[packet.destination];
    if has_bridge(endpoint, packet, now) {
        endpoint.bridges.insert(
            packet.destination,
            Bridge { from: bridge.from, out: bridge.out, seen: now },
        )
    } else {
        endpoint.bridges
    }
}

/// A packet that a route or a bridge carries on counts as forwarded, whether or not the queue
/// of its way out has room for it.
pub proof fn law_carried_packet_counts_as_forwarded(
    endpoint: EndpointModel,
    iface: InterfaceId,
    packet: PacketModel,
    reading: Reading,
    now: u64,
)
    requires
        is_others(endpoint, packet, reading, now),
        endpoint.policy.forward_packets,
        endpoint.policy.ingress.contains(iface),
        packet.hops < endpoint.policy.max_hops,
        ({
            let bridge = endpoint.bridges[packet.destination];
            let out = if !has_bridge(endpoint, packet, now) {
                endpoint.paths[packet.destination].iface
            } else if iface == bridge.from {
                bridge.out
            } else {
                bridge.from
            };
            &&& has_bridge(endpoint, packet, now) || has_live_route(
                endpoint,
                packet.destination,
                now,
            )
            &&& endpoint.policy.egress.contains(out)
        }),
    ensures
        ({
            let (after, dispatch) = endpoint.routed(iface, packet, reading, now);
            &&& dispatch == DispatchModel::Done
            &&& after.stats == (RoutingCounters {
                forwarded_packets: endpoint.stats.forwarded_packets.wrapping_add(1),
                ..endpoint.stats
            })
            &&& after.paths == endpoint.paths
            &&& after.generation == endpoint.generation
        }),
{
}

/// What policy does not let in or out goes nowhere and is counted: no queue changes.
pub proof fn law_transit_against_policy_is_refused(
    endpoint: EndpointModel,
    iface: InterfaceId,
    packet: PacketModel,
    reading: Reading,
    now: u64,
)
    requires
        is_others(endpoint, packet, reading, now),
        ({
            let bridge = endpoint.bridges[packet.destination];
            let far = if iface == bridge.from {
                bridge.out
            } else {
                bridge.from
            };
            ||| !endpoint.policy.forward_packets
            ||| !endpoint.policy.ingress.contains(iface)
            ||| has_bridge(endpoint, packet, now) && !endpoint.policy.egress.contains(far)
            ||| !has_bridge(endpoint, packet, now) && packet.hops < endpoint.policy.max_hops
                && has_live_route(endpoint, packet.destination, now)
                && !endpoint.policy.egress.contains(endpoint.paths[packet.destination].iface)
        }),
    ensures
        ({
            let (after, dispatch) = endpoint.routed(iface, packet, reading, now);
            &&& dispatch == DispatchModel::Done
            &&& after.interfaces == endpoint.interfaces
            &&& after.paths == endpoint.paths
            &&& after.stats == (RoutingCounters {
                policy_rejected: endpoint.stats.policy_rejected.wrapping_add(1),
                ..endpoint.stats
            })
            &&& after.bridges == used_bridges(endpoint, packet, now)
            &&& after == (EndpointModel {
                stats: after.stats,
                bridges: after.bridges,
                ..endpoint
            })
        }),
{
}

/// What has reached the hop ceiling goes nowhere and is counted as that.
pub proof fn law_transit_at_the_ceiling_is_dropped(
    endpoint: EndpointModel,
    iface: InterfaceId,
    packet: PacketModel,
    reading: Reading,
    now: u64,
)
    requires
        is_others(endpoint, packet, reading, now),
        endpoint.policy.forward_packets,
        endpoint.policy.ingress.contains(iface),
        packet.hops >= endpoint.policy.max_hops,
        ({
            let bridge = endpoint.bridges[packet.destination];
            let far = if iface == bridge.from {
                bridge.out
            } else {
                bridge.from
            };
            has_bridge(endpoint, packet, now) ==> endpoint.policy.egress.contains(far)
        }),
    ensures
        ({
            let (after, dispatch) = endpoint.routed(iface, packet, reading, now);
            &&& dispatch == DispatchModel::Done
            &&& after.interfaces == endpoint.interfaces
            &&& after.paths == endpoint.paths
            &&& after.stats == (RoutingCounters {
                hop_limit_dropped: endpoint.stats.hop_limit_dropped.wrapping_add(1),
                ..endpoint.stats
            })
            &&& after.bridges == used_bridges(endpoint, packet, now)
            &&& after == (EndpointModel {
                stats: after.stats,
                bridges: after.bridges,
                ..endpoint
            })
        }),
{
}

/// What has no live route goes nowhere: an expired route is forgotten, which is a change to
/// observe, and nothing else changes.
pub proof fn law_transit_without_a_route_goes_nowhere(
    endpoint: EndpointModel,
    iface: InterfaceId,
    packet: PacketModel,
    reading: Reading,
    now: u64,
)
    requires
        is_others(endpoint, packet, reading, now),
        !has_bridge(endpoint, packet, now),
        endpoint.policy.forward_packets,
        endpoint.policy.ingress.contains(iface),
        packet.hops < endpoint.policy.max_hops,
        !has_live_route(endpoint, packet.destination, now),
    ensures
        ({
            let (after, dispatch) = endpoint.routed(iface, packet, reading, now);
            &&& dispatch == DispatchModel::Done
            &&& after.interfaces == endpoint.interfaces
            &&& after.stats == endpoint.stats
            &&& after.bridges == endpoint.bridges
            &&& after.paths == endpoint.paths.remove(packet.destination)
            &&& after.generation == (if endpoint.paths.contains_key(packet.destination) {
                endpoint.generation.wrapping_add(1)
            } else {
                endpoint.generation
            })
        }),
{
    let d = packet.destination;
    if !endpoint.paths.contains_key(d) {
        assert(endpoint.paths.remove(d) =~= endpoint.paths);
    }
}

/// A carried packet whose way out has no interface, or one that does not take it, is queued
/// nowhere.
pub proof fn law_transit_is_queued_only_where_it_is_taken(
    endpoint: EndpointModel,
    iface: InterfaceId,
    packet: PacketModel,
    reading: Reading,
    now: u64,
)
    requires
        is_others(endpoint, packet, reading, now),
        !has_bridge(endpoint, packet, now),
        nowhere(endpoint.interfaces, endpoint.paths[packet.destination].iface),
    ensures
        endpoint.routed(iface, packet, reading, now).0.interfaces == endpoint.interfaces,
{
    law_offer_to_one_touches_one(
        endpoint.interfaces,
        endpoint.paths[packet.destination].iface,
        carried_on(packet, endpoint.paths),
        TrafficClass::Transit,
        0,
    );
}

/// Time between two moments is their difference, and none where the second is not later.
pub proof fn law_age_is_the_difference(now: u64, then: u64)
    ensures
        now >= then ==> age(now, then) == now - then,
        now < then ==> age(now, then) == 0,
{
}

} // verus!
