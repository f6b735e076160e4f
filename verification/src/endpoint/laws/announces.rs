//! What an endpoint makes of announces, and passes on of them.

use vstd::prelude::*;

use crate::announce::{announce_error, announced, AnnounceBlob, AnnounceModel};
use crate::announce_admission::{DestinationVerdict, InterfaceVerdict};
use crate::announce_freshness::{
    AnnounceFreshnessCandidate, AnnounceFreshnessDecision, AnnounceFreshnessReject,
};
use crate::endpoint::laws::queueing::law_relay_is_offered_onward;
use crate::endpoint::memory::{
    after_hold, can_hold, first_of, remembered, slot_of, HeldModel,
};
use crate::endpoint::paths::{after_learn, must_evict, PathEntry};
use crate::endpoint::policy::{InterfaceId, RoutingCounters, TrafficClass};
use crate::endpoint::queues::QueueAdmission;
use crate::endpoint::router::{
    DispatchModel, EndpointModel, Lifecycle, Reading, ReleaseModel, RelayModel,
};
use crate::hash::AddressHash;
use crate::packet::{HeaderType, PacketModel, PacketType};
use crate::time::whole_millis;

verus! {

/// What freshness is asked about an announce: its destination, its blob, and how far it came.
pub open spec fn asked_of(
    packet: PacketModel,
    destination: AddressHash,
    announce: AnnounceModel,
) -> AnnounceFreshnessCandidate {
    AnnounceFreshnessCandidate {
        destination,
        blob: AnnounceBlob::of(announce.rand_hash),
        hops: packet.hops,
    }
}

/// How long a route is current, in milliseconds.
pub open spec fn route_life(endpoint: EndpointModel) -> u64 {
    let millis = whole_millis(endpoint.freshness_policy.route_ttl);
    if millis <= u64::MAX {
        millis as u64
    } else {
        u64::MAX
    }
}

/// Whether an announce is fresh, and its destination is known or fits the address book.
pub open spec fn is_accepted(
    endpoint: EndpointModel,
    packet: PacketModel,
    destination: AddressHash,
    announce: AnnounceModel,
    now: u64,
) -> bool {
    &&& endpoint.freshness.decision(
        asked_of(packet, destination, announce),
        now,
        route_life(endpoint),
    ) is Accept
    &&& endpoint.book.peers.contains_key(destination) || endpoint.book.peers.dom().len()
        < endpoint.book.max_peers
}

/// An announce as it is passed on: one hop further, naming the node that passes it on, and the
/// same in all else.
pub open spec fn stamped(packet: PacketModel, by: AddressHash) -> PacketModel {
    PacketModel {
        hops: (packet.hops + 1) as u8,
        header_type: HeaderType::Type2,
        transport: Some(by),
        ifac: packet.ifac,
        context_flag: packet.context_flag,
        propagation: packet.propagation,
        destination_type: packet.destination_type,
        packet_type: packet.packet_type,
        destination: packet.destination,
        context: packet.context,
        payload: packet.payload,
    }
}

/// A transport node passes accepted announces on: one that came in where relaying is allowed,
/// that was not passed on lately, whose destination may be relayed now, and that is below the
/// hop ceiling, is relayed, stamped by this node, to wherever egress permits. It is remembered
/// as passed on.
pub proof fn law_accepted_announce_is_passed_on(
    endpoint: EndpointModel,
    iface: InterfaceId,
    packet: PacketModel,
    hash: AddressHash,
    destination: AddressHash,
    announce: AnnounceModel,
    now: u64,
)
    requires
        is_accepted(endpoint, packet, destination, announce, now),
        endpoint.policy.forward_announces,
        endpoint.policy.ingress.contains(iface),
        !endpoint.seen.contains(hash),
        endpoint.admission.after_destination(destination, now).1 == DestinationVerdict::Relay,
        packet.hops < endpoint.policy.max_hops,
    ensures
        ({
            let (after, outcome) = endpoint.processed(
                iface,
                packet,
                hash,
                destination,
                announce,
                now,
            );
            &&& outcome.relay == Some(
                RelayModel {
                    from: iface,
                    packet: stamped(packet, endpoint.own),
                    egress: endpoint.policy.egress,
                },
            )
            &&& endpoint.seen_limit > 0 ==> after.seen.len() > 0 && after.seen.last() == hash
            &&& after.admission == endpoint.admission.after_destination(destination, now).0
            &&& after.stats.relay_rate_limited_announces
                == endpoint.stats.relay_rate_limited_announces
            &&& after.stats.hop_limit_dropped == endpoint.stats.hop_limit_dropped
        }),
{
}

/// An announce that may not be passed on is not: one that came in where nothing is relayed, or
/// was passed on before, counts for nothing; one whose destination comes too fast, and one at
/// the hop ceiling, are counted as that.
pub proof fn law_announce_is_not_passed_on_against_the_rules(
    endpoint: EndpointModel,
    iface: InterfaceId,
    packet: PacketModel,
    hash: AddressHash,
    destination: AddressHash,
    announce: AnnounceModel,
    now: u64,
)
    requires
        is_accepted(endpoint, packet, destination, announce, now),
    ensures
        ({
            let (after, outcome) = endpoint.processed(
                iface,
                packet,
                hash,
                destination,
                announce,
                now,
            );
            let closed = !endpoint.policy.forward_announces || !endpoint.policy.ingress.contains(
                iface,
            ) || endpoint.seen.contains(hash);
            let blocked = endpoint.admission.after_destination(destination, now).1
                == DestinationVerdict::BlockRelay;
            let far = packet.hops >= endpoint.policy.max_hops;
            let stats = endpoint.stats;
            &&& closed ==> outcome.relay is None && after.seen == endpoint.seen
                && after.admission == endpoint.admission
                && after.stats.relay_rate_limited_announces == stats.relay_rate_limited_announces
                && after.stats.hop_limit_dropped == stats.hop_limit_dropped
            &&& !closed && blocked ==> outcome.relay is None
                && after.stats.relay_rate_limited_announces
                == stats.relay_rate_limited_announces.wrapping_add(1)
                && after.stats.hop_limit_dropped == stats.hop_limit_dropped
            &&& !closed && !blocked && far ==> outcome.relay is None
                && after.stats.hop_limit_dropped == stats.hop_limit_dropped.wrapping_add(1)
                && after.stats.relay_rate_limited_announces == stats.relay_rate_limited_announces
            &&& !closed && (blocked || far) ==> after.admission
                == endpoint.admission.after_destination(destination, now).0 && (endpoint.seen_limit
                > 0 ==> after.seen.len() > 0 && after.seen.last() == hash)
        }),
{
}

/// An accepted announce takes effect here: its peer is known as it announced itself, the way it
/// came is the route to it, freshness has it on record, and it is published with where it came
/// from and the next number. No packet is queued for it.
pub proof fn law_accepted_announce_takes_effect(
    endpoint: EndpointModel,
    iface: InterfaceId,
    packet: PacketModel,
    hash: AddressHash,
    destination: AddressHash,
    announce: AnnounceModel,
    now: u64,
)
    requires
        is_accepted(endpoint, packet, destination, announce, now),
    ensures
        ({
            let (after, outcome) = endpoint.processed(
                iface,
                packet,
                hash,
                destination,
                announce,
                now,
            );
            let route = PathEntry {
                iface,
                transport: packet.transport,
                hops: packet.hops,
                learned: now,
            };
            let peer = after.book.peers[destination];
            &&& after.book.peers.contains_key(destination)
            &&& peer.identity == announce.identity
            &&& peer.app_data == announce.app_data
            &&& peer.ratchet == announce.ratchet
            &&& peer.name_hash == announce.name_hash
            &&& after.paths.contains_key(destination)
            &&& after.paths[destination] == route
            &&& after.freshness == endpoint.freshness.after_record(
                asked_of(packet, destination, announce),
                now,
            )
            &&& after.sequence == endpoint.sequence.wrapping_add(1)
            &&& outcome.fact matches Some(fact) && fact.destination == destination
                && fact.identity == announce.identity && fact.app_data == announce.app_data
                && fact.interface == iface && fact.hops == packet.hops && fact.transport
                == packet.transport && fact.sequence == after.sequence
            &&& after.generation == (if endpoint.paths.contains_key(destination)
                && endpoint.paths[destination] == route {
                endpoint.generation
            } else {
                endpoint.generation.wrapping_add(1)
            })
            &&& after.book == endpoint.book.after_ingest(destination, announce)
            &&& after.paths == after_learn(
                endpoint.paths,
                destination,
                route,
                endpoint.path_limit,
                now,
                route_life(endpoint),
            )
            &&& after == (EndpointModel {
                book: after.book,
                paths: after.paths,
                freshness: after.freshness,
                sequence: after.sequence,
                generation: after.generation,
                stats: after.stats,
                seen: after.seen,
                admission: after.admission,
                ..endpoint
            })
        }),
{
}

/// What freshness says of a record is counted: rows and blobs that expired as many as they
/// were, and one for each that had to leave. A route that had to leave is counted too.
pub proof fn law_accepted_announce_is_accounted_for(
    endpoint: EndpointModel,
    iface: InterfaceId,
    packet: PacketModel,
    hash: AddressHash,
    destination: AddressHash,
    announce: AnnounceModel,
    now: u64,
)
    requires
        is_accepted(endpoint, packet, destination, announce, now),
    ensures
        ({
            let (after, outcome) = endpoint.processed(
                iface,
                packet,
                hash,
                destination,
                announce,
                now,
            );
            let record = endpoint.freshness.record_of(
                asked_of(packet, destination, announce),
                now,
            );
            let stats = endpoint.stats;
            &&& after.stats.freshness_rows_expired == stats.freshness_rows_expired.wrapping_add(
                record.expired_destinations as u64,
            )
            &&& after.stats.freshness_blobs_expired == stats.freshness_blobs_expired.wrapping_add(
                record.expired_blobs as u64,
            )
            &&& after.stats.freshness_rows_evicted == stats.freshness_rows_evicted.wrapping_add(
                if record.evicted_destination is Some {
                    1
                } else {
                    0
                },
            )
            &&& after.stats.freshness_blobs_evicted == stats.freshness_blobs_evicted.wrapping_add(
                if record.evicted_blob is Some {
                    1
                } else {
                    0
                },
            )
            &&& endpoint.paths.contains_key(destination) || endpoint.paths.dom().len()
                < endpoint.path_limit ==> after.stats.paths_evicted == stats.paths_evicted
                && after.paths == endpoint.paths.insert(destination, after.paths[destination])
            &&& must_evict(
                endpoint.paths,
                destination,
                endpoint.path_limit,
                now,
                route_life(endpoint),
            ) ==> after.stats.paths_evicted == stats.paths_evicted.wrapping_add(1)
            &&& after.stats.held_announces_dropped == stats.held_announces_dropped
            &&& after.stats.refused_announces == stats.refused_announces
            &&& after.stats.freshness_replays_rejected == stats.freshness_replays_rejected
            &&& after.stats.freshness_stale_rejected == stats.freshness_stale_rejected
            &&& after.stats.forwarded_announces == stats.forwarded_announces
            &&& after.stats.forwarded_packets == stats.forwarded_packets
            &&& after.stats.policy_rejected == stats.policy_rejected
            &&& after.stats.held_announces == stats.held_announces
        }),
{
}

/// An announce that freshness rejects is counted under its reason, and one of a new peer that
/// the full book has no room for as refused; neither does anything else.
pub proof fn law_unaccepted_announce_is_only_counted(
    endpoint: EndpointModel,
    iface: InterfaceId,
    packet: PacketModel,
    hash: AddressHash,
    destination: AddressHash,
    announce: AnnounceModel,
    now: u64,
)
    requires
        !is_accepted(endpoint, packet, destination, announce, now),
    ensures
        ({
            let (after, outcome) = endpoint.processed(
                iface,
                packet,
                hash,
                destination,
                announce,
                now,
            );
            let decision = endpoint.freshness.decision(
                asked_of(packet, destination, announce),
                now,
                route_life(endpoint),
            );
            let stats = endpoint.stats;
            &&& outcome.fact is None
            &&& outcome.relay is None
            &&& decision == AnnounceFreshnessDecision::Reject(AnnounceFreshnessReject::Replay)
                ==> after == (EndpointModel {
                stats: RoutingCounters {
                    freshness_replays_rejected: stats.freshness_replays_rejected.wrapping_add(1),
                    ..stats
                },
                ..endpoint
            })
            &&& decision == AnnounceFreshnessDecision::Reject(
                AnnounceFreshnessReject::StaleTimebase,
            ) ==> after == (EndpointModel {
                stats: RoutingCounters {
                    freshness_stale_rejected: stats.freshness_stale_rejected.wrapping_add(1),
                    ..stats
                },
                ..endpoint
            })
            &&& decision is Accept ==> after == (EndpointModel {
                stats: RoutingCounters {
                    refused_announces: stats.refused_announces.wrapping_add(1),
                    ..stats
                },
                book: after.book,
                ..endpoint
            }) && after.book.peers == endpoint.book.peers
        }),
{
}

/// An announce that does not verify does nothing at all. One that does is processed under its
/// own hash and destination where its interface is not in a burst, which is asked with whether
/// a route to the destination is known.
pub proof fn law_announce_packet_is_checked_and_processed(
    endpoint: EndpointModel,
    iface: InterfaceId,
    packet: PacketModel,
    reading: Reading,
    now: u64,
)
    requires
        packet.packet_type == PacketType::Announce,
    ensures
        ({
            let (after, dispatch) = endpoint.routed(iface, packet, reading, now);
            let (admission, verdict) = endpoint.admission.after_interface(
                iface,
                endpoint.paths.contains_key(packet.destination),
                now,
            );
            let processed = (EndpointModel { admission, ..endpoint }).processed(
                iface,
                packet,
                AddressHash::with(packet.address()),
                packet.destination,
                announced(packet),
                now,
            );
            &&& announce_error(packet) is Some ==> after == endpoint && dispatch
                == DispatchModel::Done
            &&& announce_error(packet) is None && verdict == InterfaceVerdict::Process ==> after
                == processed.0 && dispatch == DispatchModel::Announced { outcome: processed.1 }
        }),
{
}

/// Whether a held announce takes the place of an older copy: one of the same destination that
/// came in over the same interface.
pub open spec fn has_older_copy(
    held: Seq<HeldModel>,
    iface: InterfaceId,
    destination: AddressHash,
) -> bool {
    exists|i: int|
        0 <= i < held.len() && (#[trigger] held[i]).interface == iface && held[i].destination
            == destination
}

/// A valid announce that its interface's burst holds up is kept, as it came, with where it came
/// from, behind those kept before, and the caller is told when to look; nothing is learned of
/// it. Where there is no room and no older copy it is dropped and counted as that.
pub proof fn law_announce_in_a_burst_is_held(
    endpoint: EndpointModel,
    iface: InterfaceId,
    packet: PacketModel,
    reading: Reading,
    now: u64,
    release_at_ms: u64,
)
    requires
        packet.packet_type == PacketType::Announce,
        announce_error(packet) is None,
        endpoint.admission.after_interface(
            iface,
            endpoint.paths.contains_key(packet.destination),
            now,
        ).1 == (InterfaceVerdict::Hold { release_at_ms }),
    ensures
        ({
            let (after, dispatch) = endpoint.routed(iface, packet, reading, now);
            let copy = has_older_copy(endpoint.held, iface, packet.destination);
            let room = endpoint.held.len() < endpoint.admission.policy.held_capacity;
            let admission = endpoint.admission.after_interface(
                iface,
                endpoint.paths.contains_key(packet.destination),
                now,
            ).0;
            let kept = HeldModel {
                interface: iface,
                destination: packet.destination,
                packet,
                announce: announced(packet),
            };
            &&& copy || room ==> {
                &&& dispatch == DispatchModel::Held { release_at_ms }
                &&& after.held.contains(kept)
                &&& after.stats == (RoutingCounters {
                    held_announces: endpoint.stats.held_announces.wrapping_add(1),
                    ..endpoint.stats
                })
                &&& after.admission == admission.after_held(iface)
            }
            &&& !copy && room ==> after.held == endpoint.held.push(kept)
            &&& copy ==> after.held.len() == endpoint.held.len()
            &&& !copy && !room ==> {
                &&& dispatch == DispatchModel::Done
                &&& after.held == endpoint.held
                &&& after.stats == (RoutingCounters {
                    held_announces_dropped: endpoint.stats.held_announces_dropped.wrapping_add(1),
                    ..endpoint.stats
                })
                &&& after.admission == admission.after_held_dropped(iface)
            }
            &&& after == (EndpointModel {
                held: after.held,
                stats: after.stats,
                admission: after.admission,
                ..endpoint
            })
        }),
{
    let kept = HeldModel {
        interface: iface,
        destination: packet.destination,
        packet,
        announce: announced(packet),
    };
    law_older_copy_is_replaced(endpoint.held, kept, endpoint.admission.policy.held_capacity as nat);
    let after = endpoint.routed(iface, packet, reading, now).0;
    if !has_older_copy(endpoint.held, iface, packet.destination) && endpoint.held.len()
        < endpoint.admission.policy.held_capacity {
        assert(after.held[endpoint.held.len() as int] == kept);
    }
}

/// Holding an announce replaces the first older copy of it in its place, and every other one
/// stays where it is.
pub proof fn law_older_copy_is_replaced(queue: Seq<HeldModel>, held: HeldModel, capacity: nat)
    ensures
        ({
            let after = after_hold(queue, held, capacity);
            let copy = has_older_copy(queue, held.interface, held.destination);
            &&& can_hold(queue, held, capacity) <==> copy || queue.len()
                < capacity
            &&& copy ==> after.len() == queue.len() && exists|i: int|
                0 <= i < queue.len() && #[trigger] queue[i].interface == held.interface
                    && queue[i].destination == held.destination && after == queue.update(i, held)
            &&& copy ==> after.contains(held)
            &&& !copy && queue.len() < capacity ==> after == queue.push(held)
            &&& !copy && queue.len() >= capacity ==> after == queue
        }),
{
    lemma_slot_is_first(queue, held);
    if let Some(i) = slot_of(queue, held) {
        assert(queue.update(i, held)[i] == held);
        assert(queue[i].interface == held.interface);
    }
}

/// A slot is found where there is an older copy.
proof fn lemma_slot_is_first(queue: Seq<HeldModel>, held: HeldModel)
    ensures
        match slot_of(queue, held) {
            Some(i) => 0 <= i < queue.len() && queue[i].interface == held.interface
                && queue[i].destination == held.destination,
            None => !has_older_copy(queue, held.interface, held.destination),
        },
    decreases queue.len(),
{
    if queue.len() > 0 {
        let front = queue.drop_last();
        lemma_slot_is_first(front, held);
        if slot_of(front, held) is None {
            assert forall|i: int| 0 <= i < front.len() implies !((
            #[trigger] queue[i]).interface == held.interface && queue[i].destination
                == held.destination) by {
                assert(front[i] == queue[i]);
            }
        }
    }
}

/// Whether the first announce held of an interface stands at a place.
pub open spec fn first_held(held: Seq<HeldModel>, iface: InterfaceId, i: int) -> bool {
    &&& 0 <= i < held.len()
    &&& held[i].interface == iface
    &&& forall|j: int| 0 <= j < i ==> (#[trigger] held[j]).interface != iface
}

/// The first announce held of an interface is found, and none where none is held.
pub proof fn law_first_held_is_found(held: Seq<HeldModel>, iface: InterfaceId)
    ensures
        forall|i: int| first_held(held, iface, i) ==> #[trigger] first_of(held, iface) == Some(i),
        first_of(held, iface) matches Some(i) ==> first_held(held, iface, i),
        first_of(held, iface) is None <==> forall|j: int|
            0 <= j < held.len() ==> (#[trigger] held[j]).interface != iface,
    decreases held.len(),
{
    if held.len() > 0 {
        let front = held.drop_last();
        law_first_held_is_found(front, iface);
        if let Some(i) = first_of(front, iface) {
            assert(held[i] == front[i]);
            assert forall|j: int| 0 <= j < i implies (#[trigger] held[j]).interface != iface by {
                assert(front[j].interface != iface);
            }
        } else {
            assert forall|j: int| 0 <= j < front.len() implies (#[trigger] held[j]).interface
                != iface by {
                assert(front[j].interface != iface);
            }
            if held.last().interface == iface {
                assert(held[held.len() - 1].interface == iface);
            }
        }
        assert forall|i: int| first_held(held, iface, i) implies #[trigger] first_of(held, iface)
            == Some(i) by {
            assert(held[i].interface == iface);
            let f = first_of(held, iface)->0;
            if f < i {
                assert(held[f].interface != iface);
            } else if i < f {
                assert(held[i].interface != iface);
            }
        }
    }
}

/// Releasing takes the first announce held of an interface, once the interface lets it, and
/// processes it as if it came in now where it came in then. The others of the interface and
/// those of other interfaces stay. Until then the caller is told when to look again, and where
/// there is nothing to release, or nobody to release it for, to stop.
pub proof fn law_first_held_announce_is_released(
    endpoint: EndpointModel,
    iface: InterfaceId,
    now: u64,
    i: int,
)
    requires
        endpoint.lifecycle == Lifecycle::Running,
        first_held(endpoint.held, iface, i),
        endpoint.admission.interfaces.contains_key(iface),
    ensures
        ({
            let (after, step) = endpoint.release_step(iface, now);
            let (row, until_ms) = crate::announce_admission::release_of(
                endpoint.admission.interfaces[iface],
                now,
                endpoint.admission.policy,
            );
            let admission = crate::announce_admission::AdmissionModel {
                interfaces: endpoint.admission.interfaces.insert(iface, row),
                ..endpoint.admission
            };
            let held = endpoint.held[i];
            &&& until_ms > now ==> step == ReleaseModel::Wait { until_ms } && after
                == (EndpointModel { admission, ..endpoint })
            &&& until_ms <= now ==> {
                let processed = (EndpointModel {
                    admission: admission.after_released(iface),
                    held: endpoint.held.remove(i),
                    ..endpoint
                }).processed(
                    iface,
                    held.packet,
                    AddressHash::with(held.packet.address()),
                    held.destination,
                    held.announce,
                    now,
                );
                step == (ReleaseModel::Released { outcome: processed.1, until_ms }) && after
                    == processed.0
            }
        }),
{
    law_first_held_is_found(endpoint.held, iface);
}

/// Nothing held, no such interface, or no running endpoint: releasing stops and changes
/// nothing.
pub proof fn law_release_stops_without_anything_to_release(
    endpoint: EndpointModel,
    iface: InterfaceId,
    now: u64,
)
    requires
        endpoint.lifecycle != Lifecycle::Running || !endpoint.admission.interfaces.contains_key(
            iface,
        ) || forall|j: int|
            0 <= j < endpoint.held.len() ==> (#[trigger] endpoint.held[j]).interface != iface,
    ensures
        endpoint.release_step(iface, now) == (endpoint, ReleaseModel::Stop),
{
    law_first_held_is_found(endpoint.held, iface);
}

/// A relay is offered as transit, as it is, to every interface that egress permits but the one
/// it came in on, and to no other; it counts as one announce forwarded where any of them took
/// it, and as none where none did.
pub proof fn law_relay_goes_out_everywhere_else(endpoint: EndpointModel, relay: RelayModel)
    ensures
        ({
            let after = endpoint.after_relay(relay);
            let taken = exists|j: int|
                0 <= j < endpoint.interfaces.len() && (#[trigger] endpoint.interfaces[j]).id
                    != relay.from && relay.egress.contains(endpoint.interfaces[j].id)
                    && endpoint.interfaces[j].admission(relay.packet, TrafficClass::Transit)
                    == QueueAdmission::Queued;
            &&& after.interfaces.len() == endpoint.interfaces.len()
            &&& forall|j: int|
                0 <= j < endpoint.interfaces.len() && endpoint.interfaces[j].id != relay.from
                    && relay.egress.contains(endpoint.interfaces[j].id)
                    ==> #[trigger] after.interfaces[j] == endpoint.interfaces[j].after_push(
                    relay.packet,
                    TrafficClass::Transit,
                )
            &&& forall|j: int|
                0 <= j < endpoint.interfaces.len() && (endpoint.interfaces[j].id == relay.from
                    || !relay.egress.contains(endpoint.interfaces[j].id))
                    ==> #[trigger] after.interfaces[j] == endpoint.interfaces[j]
            &&& after.stats == (RoutingCounters {
                forwarded_announces: if taken {
                    endpoint.stats.forwarded_announces.wrapping_add(1)
                } else {
                    endpoint.stats.forwarded_announces
                },
                ..endpoint.stats
            })
            &&& after == (EndpointModel {
                interfaces: after.interfaces,
                stats: after.stats,
                ..endpoint
            })
        }),
{
    law_relay_is_offered_onward(endpoint.interfaces, relay.packet, relay.from, relay.egress);
}

/// A packet hash is remembered as the latest; the oldest leaves where there are more than may
/// be kept, and the others keep their order.
pub proof fn law_latest_hash_is_remembered(
    order: Seq<AddressHash>,
    hash: AddressHash,
    capacity: nat,
)
    requires
        order.len() <= capacity,
        capacity > 0,
    ensures
        ({
            let after = remembered(order, hash, capacity);
            &&& after.len() <= capacity
            &&& after.last() == hash
            &&& order.len() < capacity ==> after == order.push(hash)
            &&& order.len() == capacity ==> after.drop_last() == order.drop_first()
        }),
{
    let after = remembered(order, hash, capacity);
    if order.len() == capacity {
        assert(after.drop_last() =~= order.drop_first());
    }
}

/// A packet's hash does not depend on what changes on the way: hops, transport node and the
/// flags that say so. So a relayed copy of an announce is known as the same packet.
pub proof fn law_relayed_copy_has_the_same_hash(packet: PacketModel, by: AddressHash)
    ensures
        stamped(packet, by).address() == packet.address(),
{
}

} // verus!
