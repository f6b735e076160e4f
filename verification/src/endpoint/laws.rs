//! What holds of an endpoint over more than one call.

pub mod announces;
pub mod dispatch;
pub mod lifecycle;
pub mod operations;
pub mod queueing;
pub mod sending;
pub mod storage;
pub mod streams;
pub mod transit;

use vstd::prelude::*;

use crate::address_book::Ingested;
use crate::announce::{
    announce_error, announced, announcement, announcement_signature, law_built_announce_decodes,
    AnnounceBlob, AnnounceModel, ANNOUNCE_TIMEBASE_MAX,
};
use crate::announce_freshness::{
    law_recorded_blob_is_a_replay, retained, AnnounceFreshnessDecision, AnnounceFreshnessReject,
};
use crate::destination::{destination_of, name_hash_of};
use crate::endpoint::carriers::{iface_index, ids_of, lemma_iface_index_in, offered_one};
use crate::endpoint::memory::{LINK_REQUEST_CACHE_TTL, LINK_TRANSPORT_TTL};
use crate::endpoint::paths::{addressed, law_latest_route_wins};
use crate::endpoint::policy::{InterfaceId, PolicyModel, TrafficClass};
use crate::endpoint::queues::IfaceModel;
use crate::endpoint::router::{
    hash_of, link_facts_of, DispatchModel, EndpointModel, Lifecycle, LinkEntry, OutcomeModel,
    Reading, RelayModel,
};
use crate::hash::{address_of, AddressHash};
use crate::identity::{ed25519_point, ed25519_verifies, public_of};
use crate::packet::{PacketModel, PacketType};
use crate::table::age;

verus! {

/// A replayed or stale announce has no effect but its count: no peer, route, freshness row,
/// observation or relay comes of it.
pub proof fn law_rejected_announce_has_no_effect(
    endpoint: EndpointModel,
    iface: InterfaceId,
    packet: PacketModel,
    destination: AddressHash,
    announce: AnnounceModel,
    now: u64,
)
    requires
        endpoint.freshness.decision(
            EndpointModel::candidate(packet, destination, announce),
            now,
            endpoint.route_ttl(),
        ) is Reject,
    ensures
        ({
            let (after, outcome) = endpoint.processed(
                iface,
                packet,
                hash_of(packet),
                destination,
                announce,
                now,
            );
            &&& outcome == OutcomeModel::nothing()
            &&& after == (EndpointModel { stats: after.stats, ..endpoint })
        }),
{
}

/// A peer the address book refuses leaves no freshness and no route behind, so a later
/// announce is judged as if this one had not come.
pub proof fn law_refused_peer_leaves_no_trace(
    endpoint: EndpointModel,
    iface: InterfaceId,
    packet: PacketModel,
    destination: AddressHash,
    announce: AnnounceModel,
    now: u64,
)
    requires
        endpoint.book.verdict(destination) == Ingested::Refused,
    ensures
        ({
            let (after, outcome) = endpoint.processed(
                iface,
                packet,
                hash_of(packet),
                destination,
                announce,
                now,
            );
            &&& outcome == OutcomeModel::nothing()
            &&& after.freshness == endpoint.freshness
            &&& after.paths == endpoint.paths
            &&& after.book.peers == endpoint.book.peers
            &&& after.sequence == endpoint.sequence
            &&& after.seen == endpoint.seen
        }),
{
}

/// An accepted announce is learned, becomes the route to its destination whatever the old
/// one was, and is published with the next sequence number and where it came from.
pub proof fn law_accepted_announce_is_learned(
    endpoint: EndpointModel,
    iface: InterfaceId,
    packet: PacketModel,
    destination: AddressHash,
    announce: AnnounceModel,
    now: u64,
)
    requires
        endpoint.freshness.decision(
            EndpointModel::candidate(packet, destination, announce),
            now,
            endpoint.route_ttl(),
        ) is Accept,
        endpoint.book.verdict(destination) != Ingested::Refused,
    ensures
        ({
            let (after, outcome) = endpoint.processed(
                iface,
                packet,
                hash_of(packet),
                destination,
                announce,
                now,
            );
            &&& after.paths.contains_key(destination)
            &&& after.paths[destination] == EndpointModel::route_of(iface, packet, now)
            &&& after.book.peers.contains_key(destination)
            &&& after.book.peers[destination].identity == announce.identity
            &&& after.sequence == endpoint.sequence.wrapping_add(1)
            &&& outcome.fact matches Some(fact) && fact.destination == destination
                && fact.identity == announce.identity && fact.app_data == announce.app_data
                && fact.interface == iface && fact.hops == packet.hops && fact.transport
                == packet.transport && fact.sequence == after.sequence
        }),
{
    law_latest_route_wins(
        endpoint.paths,
        destination,
        EndpointModel::route_of(iface, packet, now),
        endpoint.path_limit,
        now,
        endpoint.route_ttl(),
    );
}

/// What was accepted is not accepted twice: while its blob is retained, another copy of the
/// announce, over whatever interface and at whatever hops, has no effect.
pub proof fn law_accepted_announce_is_then_a_replay(
    endpoint: EndpointModel,
    iface: InterfaceId,
    packet: PacketModel,
    destination: AddressHash,
    announce: AnnounceModel,
    now: u64,
    copy: PacketModel,
    later: u64,
)
    requires
        endpoint.freshness.wf(),
        endpoint.freshness.decision(
            EndpointModel::candidate(packet, destination, announce),
            now,
            endpoint.route_ttl(),
        ) is Accept,
        endpoint.book.verdict(destination) != Ingested::Refused,
        retained(later, now, endpoint.freshness.config.retention_ticks),
    ensures
        ({
            let (after, _) = endpoint.processed(
                iface,
                packet,
                hash_of(packet),
                destination,
                announce,
                now,
            );
            after.freshness.decision(
                EndpointModel::candidate(copy, destination, announce),
                later,
                after.route_ttl(),
            ) == AnnounceFreshnessDecision::Reject(AnnounceFreshnessReject::Replay)
        }),
{
    law_recorded_blob_is_a_replay(
        endpoint.freshness,
        EndpointModel::candidate(packet, destination, announce),
        now,
        EndpointModel::candidate(copy, destination, announce),
        later,
        endpoint.route_ttl(),
    );
}

/// A relayed announce never goes back the way it came, and never out an interface that the
/// policy does not permit.
pub proof fn law_relay_respects_egress(endpoint: EndpointModel, relay: RelayModel, i: int)
    requires
        0 <= i < endpoint.interfaces.len(),
        endpoint.interfaces[i].id == relay.from || !relay.egress.contains(
            endpoint.interfaces[i].id,
        ),
    ensures
        endpoint.after_relay(relay).interfaces[i] == endpoint.interfaces[i],
{
}

/// A relay names this node as the way back and is one hop further than it came, below the
/// policy's ceiling.
pub proof fn law_relay_is_stamped(
    endpoint: EndpointModel,
    iface: InterfaceId,
    packet: PacketModel,
    destination: AddressHash,
    announce: AnnounceModel,
    now: u64,
)
    ensures
        ({
            let (after, outcome) = endpoint.processed(
                iface,
                packet,
                hash_of(packet),
                destination,
                announce,
                now,
            );
            outcome.relay matches Some(relay) ==> relay.from == iface && relay.packet.hops
                == packet.hops + 1 && relay.packet.hops <= endpoint.policy.max_hops
                && relay.packet.transport == Some(endpoint.own) && relay.packet.payload
                == packet.payload && relay.packet.destination == packet.destination
                && relay.egress == endpoint.policy.egress && endpoint.policy.relays_from(iface)
        }),
{
}

/// A relayed announce is the announce: it is valid exactly if it was, and says the same.
pub proof fn law_relayed_announce_says_the_same(endpoint: EndpointModel, packet: PacketModel)
    ensures
        announce_error(endpoint.passed_on(packet)) == announce_error(packet),
        announced(endpoint.passed_on(packet)) == announced(packet),
{
}

/// An endpoint that carries nothing sends nothing of others': a transit packet changes no
/// queue, and is counted as refused.
pub proof fn law_default_carries_no_transit(
    endpoint: EndpointModel,
    iface: InterfaceId,
    packet: PacketModel,
    reading: Reading,
    now: u64,
)
    requires
        endpoint.policy == PolicyModel::nothing(),
        endpoint.is_transit(packet, now),
        !EndpointModel::asks_path(packet, reading),
    ensures
        ({
            let (after, dispatch) = endpoint.routed(iface, packet, reading, now);
            &&& dispatch == DispatchModel::Done
            &&& after.interfaces == endpoint.interfaces
            &&& after.stats.policy_rejected == endpoint.stats.policy_rejected.wrapping_add(1)
        }),
{
}

/// What is carried leaves only where egress is permitted: every other interface keeps its
/// queues.
pub proof fn law_transit_respects_egress(
    endpoint: EndpointModel,
    out: InterfaceId,
    packet: PacketModel,
    i: int,
)
    requires
        0 <= i < endpoint.interfaces.len(),
        !endpoint.policy.egress.contains(endpoint.interfaces[i].id),
    ensures
        endpoint.forwarded_on(out, packet).interfaces[i] == endpoint.interfaces[i],
{
    lemma_iface_index_in(endpoint.interfaces, out);
}

/// A packet at the hop ceiling is not carried any further, whoever asks.
pub proof fn law_hop_ceiling_bounds_transit(
    endpoint: EndpointModel,
    iface: InterfaceId,
    packet: PacketModel,
    link_id: Option<AddressHash>,
    now: u64,
)
    requires
        packet.hops >= endpoint.policy.max_hops,
    ensures
        endpoint.transited(iface, packet, link_id, now).interfaces == endpoint.interfaces,
{
}

/// The bridge a forwarded link request records carries what comes back: a packet for the link
/// that arrives on the far side crosses to the near side, and the other way round.
pub proof fn law_bridge_goes_both_ways(
    endpoint: EndpointModel,
    link_id: AddressHash,
    from: InterfaceId,
    out: InterfaceId,
    now: u64,
    later: u64,
)
    requires
        age(later, now) < LINK_TRANSPORT_TTL,
    ensures
        ({
            let bridge = endpoint.bridged(link_id, from, out, now).bridge_for(link_id, later);
            &&& bridge matches Some(b) && b.other_side(from) == out && (from != out
                ==> b.other_side(out) == from)
        }),
{
}

/// A proof that does not verify evicts nothing: the pending link stays for the genuine one.
pub proof fn law_forged_proof_evicts_nothing(
    endpoint: EndpointModel,
    iface: InterfaceId,
    packet: PacketModel,
    reading: Reading,
    now: u64,
)
    requires
        !reading.proves_pending || packet.packet_type != PacketType::Proof,
    ensures
        endpoint.routed(iface, packet, reading, now).0.pending == endpoint.pending,
{
}

/// A link request that is retried after its proof was lost is answered with the same proof,
/// and opens no second link.
pub proof fn law_retried_request_gets_the_same_proof(
    endpoint: EndpointModel,
    request: PacketModel,
    link_id: AddressHash,
    proof_packet: PacketModel,
    iface: InterfaceId,
    now: u64,
    later: u64,
)
    requires
        age(later, now) < LINK_REQUEST_CACHE_TTL,
        endpoint.lifecycle == Lifecycle::Running,
        endpoint.registration(request.destination) is Some,
    ensures
        ({
            let proved = endpoint.link_proved(link_id, proof_packet, iface, now);
            let (after, dispatch) = proved.request_routed(iface, request, Some(link_id), later);
            &&& dispatch == DispatchModel::Done
            &&& after.interfaces == offered_one(
                proved.interfaces,
                iface,
                addressed(proof_packet, proved.paths),
                TrafficClass::Interactive,
            )
            &&& after.links == proved.links
        }),
{
}

/// An endpoint that winds down opens no link and no single packet for its peers.
pub proof fn law_quiescing_takes_no_new_work(
    endpoint: EndpointModel,
    iface: InterfaceId,
    packet: PacketModel,
    reading: Reading,
    now: u64,
)
    requires
        endpoint.lifecycle != Lifecycle::Running,
    ensures
        ({
            let dispatch = endpoint.routed(iface, packet, reading, now).1;
            !(dispatch is Accept) && !(dispatch is OpenSingle)
        }),
{
}

/// A path request is answered only for a destination of ours.
pub proof fn law_answers_only_for_own_destinations(
    endpoint: EndpointModel,
    iface: InterfaceId,
    packet: PacketModel,
    reading: Reading,
    now: u64,
)
    ensures
        endpoint.routed(iface, packet, reading, now).1 matches DispatchModel::AnswerPath {
            target,
        } ==> endpoint.registration(target) is Some && reading.path_target == Some(target),
{
}

/// Announces of one destination carry strictly increasing ordinals, whatever the clock does.
pub proof fn law_own_ordinals_strictly_increase(
    endpoint: EndpointModel,
    destination: AddressHash,
    first_seconds: u64,
    second_seconds: u64,
)
    requires
        endpoint.next_ordinal(destination, first_seconds) is Ok,
    ensures
        ({
            let first = endpoint.next_ordinal(destination, first_seconds)->Ok_0;
            let second = endpoint.with_ordinal(destination, first).next_ordinal(
                destination,
                second_seconds,
            );
            first <= ANNOUNCE_TIMEBASE_MAX && (second matches Ok(n) ==> first < n)
        }),
{
}

/// A destination's ordinals are its own: drawing one for another leaves its next as it was.
pub proof fn law_ordinals_are_per_destination(
    endpoint: EndpointModel,
    destination: AddressHash,
    other: AddressHash,
    ordinal: u64,
    source_seconds: u64,
)
    requires
        destination != other,
    ensures
        endpoint.with_ordinal(destination, ordinal).next_ordinal(other, source_seconds)
            == endpoint.next_ordinal(other, source_seconds),
{
}

/// A path response is the same announcement as the announce it answers with, in another
/// context: whoever hears it learns the same of the destination.
pub proof fn law_path_response_is_an_announce(
    endpoint: EndpointModel,
    name: Seq<char>,
    ratchet: Option<[u8; 32]>,
    app_data: Seq<u8>,
    nonce: Seq<u8>,
    ordinal: u64,
    context: u8,
)
    ensures
        ({
            let plain = endpoint.own_announce(name, ratchet, app_data, nonce, ordinal, 0);
            let response = endpoint.own_announce(name, ratchet, app_data, nonce, ordinal, context);
            &&& announce_error(response) == announce_error(plain)
            &&& announced(response) == announced(plain)
            &&& response == (PacketModel { context, ..plain })
        }),
{
}

/// What this endpoint announces is what is heard: its name under its identity, its ratchet,
/// its data, and a blob of the nonce and the ordinal; and it is valid wherever its signature
/// stands.
pub proof fn law_own_announce_is_heard(
    endpoint: EndpointModel,
    name: Seq<char>,
    ratchet: Option<[u8; 32]>,
    app_data: Seq<u8>,
    nonce: Seq<u8>,
    ordinal: u64,
    context: u8,
)
    requires
        endpoint.destination_of(name)@ == destination_of(
            name_hash_of(name),
            address_of(public_of(endpoint.secret)),
        ),
    ensures
        ({
            let a = announcement(
                endpoint.secret,
                name_hash_of(name),
                AnnounceBlob::minted(nonce, ordinal)@,
                match ratchet {
                    Some(r) => Some(r@),
                    None => None,
                },
                app_data,
            );
            let packet = endpoint.own_announce(name, ratchet, app_data, nonce, ordinal, context);
            &&& announced(packet) == a
            &&& ed25519_point(a.identity.subrange(32, 64)) && ed25519_verifies(
                a.identity.subrange(32, 64),
                a.signed_message(),
                announcement_signature(endpoint.secret, a),
            ) ==> announce_error(packet) is None
        }),
{
    let blob = AnnounceBlob::minted(nonce, ordinal);
    AnnounceBlob::lemma_bytes_decide(blob, blob);
    law_built_announce_decodes(
        endpoint.secret,
        name_hash_of(name),
        blob@,
        ratchet,
        app_data,
        endpoint.own_announce(name, ratchet, app_data, nonce, ordinal, 0),
        endpoint.own_announce(name, ratchet, app_data, nonce, ordinal, context),
    );
}

/// Stopping is final: a second stop changes nothing, and a stopped endpoint has no links and
/// takes no packet.
pub proof fn law_stopping_is_final(
    endpoint: EndpointModel,
    packet: PacketModel,
    class: TrafficClass,
    i: int,
)
    requires
        endpoint.lifecycle != Lifecycle::Closed,
        0 <= i < endpoint.interfaces.len(),
    ensures
        endpoint.stopped().stopped() == endpoint.stopped(),
        endpoint.stopped().links == Map::<AddressHash, LinkEntry>::empty(),
        endpoint.stopped().interfaces[i].after_push(packet, class)
            == endpoint.stopped().interfaces[i],
{
}

/// A snapshot never names an interface that is not in the same capture.
pub proof fn law_link_facts_name_captured_interfaces(
    rows: Seq<(AddressHash, LinkEntry)>,
    interfaces: Seq<InterfaceId>,
    i: int,
)
    requires
        0 <= i < link_facts_of(rows, interfaces).len(),
    ensures
        interfaces.contains(link_facts_of(rows, interfaces)[i].interface),
    decreases rows.len(),
{
    if rows.len() > 0 {
        let rest = link_facts_of(rows.drop_last(), interfaces);
        if i < rest.len() {
            law_link_facts_name_captured_interfaces(rows.drop_last(), interfaces, i);
        }
    }
}

/// A detached interface is forgotten: where its id was its own, no interface has it, nothing
/// is held of it, and its ingress is not remembered.
pub proof fn law_detached_interface_is_forgotten(endpoint: EndpointModel, id: InterfaceId)
    requires
        ids_of(endpoint.interfaces).no_duplicates(),
    ensures
        !ids_of(endpoint.detached(id).interfaces).contains(id),
        !endpoint.detached(id).admission.interfaces.contains_key(id),
{
    lemma_iface_index_in(endpoint.interfaces, id);
    let after = endpoint.detached(id).interfaces;
    if ids_of(after).contains(id) {
        let j = choose|j: int| 0 <= j < after.len() && ids_of(after)[j] == id;
        match iface_index(endpoint.interfaces, id) {
            Some(i) => {
                let n = endpoint.interfaces.len() - 1;
                let from = if j == i {
                    n
                } else {
                    j
                };
                assert(ids_of(endpoint.interfaces)[from] == id);
                assert(ids_of(endpoint.interfaces)[i] == id);
                assert(from == i);
                assert(i == n && j == i);
            },
            None => {
                assert(ids_of(endpoint.interfaces)[j] == id);
            },
        }
    }
}

/// Local traffic is not for transit to displace: offering transit to an interface leaves
/// every other class's queue as it was.
pub proof fn law_transit_leaves_local_queues(
    iface: IfaceModel,
    packet: PacketModel,
    class: TrafficClass,
)
    requires
        iface.outbound.wf(),
        class != TrafficClass::Transit,
    ensures
        iface.after_push(packet, TrafficClass::Transit).outbound.queues[class.number()]
            == iface.outbound.queues[class.number()],
{
}

} // verus!
