//! How interfaces and links come and go, and how an endpoint ends.

use vstd::prelude::*;

use crate::endpoint::carriers::{all_closed, all_with_policy};
use crate::endpoint::laws::queueing::{
    first_with, law_interface_is_found, law_taking_one_out_keeps_the_rest, nowhere,
};
use crate::endpoint::laws::storage::law_held_announces_leave_with_their_interface;
use crate::endpoint::memory::{proof_room, HeldModel};
use crate::endpoint::policy::{InterfaceId, QueueDepths, QueueWeights, TrafficClass};
use crate::endpoint::queues::{IfaceModel, QueueModel};
use crate::endpoint::router::{
    clamped, link_facts_of, EndpointModel, Lifecycle, LinkEntry, LinkFact, ShutdownStep,
};
use crate::hash::{address_of, AddressHash};
use crate::identity::{public_of, Identity};
use crate::packet::PacketModel;

verus! {

/// A running endpoint takes an interface up under the next id: empty and open, under the queue
/// policy, with the limit it was given as far as the protocol's own with the carrier's overhead
/// allows. One that does not run only counts the id.
pub proof fn law_attached_interface_is_open_and_empty(
    endpoint: EndpointModel,
    max_frame_len: usize,
    wire_overhead: usize,
    now: u64,
)
    requires
        wire_overhead <= 64,
    ensures
        ({
            let after = endpoint.attached(max_frame_len, wire_overhead, now);
            let n = endpoint.interfaces.len() as int;
            let running = endpoint.lifecycle == Lifecycle::Running;
            &&& after.next_iface_id == endpoint.next_iface_id.wrapping_add(1)
            &&& !running ==> after == (EndpointModel {
                next_iface_id: after.next_iface_id,
                ..endpoint
            })
            &&& running ==> {
                let iface = after.interfaces[n];
                &&& after.interfaces.len() == n + 1
                &&& forall|j: int|
                    0 <= j < n ==> #[trigger] after.interfaces[j] == endpoint.interfaces[j]
                &&& iface.id == endpoint.next_iface_id
                &&& iface.wire_overhead == wire_overhead
                &&& iface.frame_limit == (if max_frame_len <= 500 + wire_overhead {
                    max_frame_len as int
                } else {
                    500 + wire_overhead
                })
                &&& !iface.outbound.closed
                &&& iface.outbound.in_flight == 0
                &&& iface.outbound.queues.len() == 4
                &&& forall|c: int|
                    0 <= c < 4 ==> (#[trigger] iface.outbound.queues[c]).len() == 0
                &&& forall|c: int| 0 <= c < 4 ==> #[trigger] iface.outbound.sent[c] == 0
                &&& forall|c: int| 0 <= c < 4 ==> #[trigger] iface.outbound.dropped[c] == 0
                &&& forall|c: int| 0 <= c < 4 ==> #[trigger] iface.outbound.turn.deficit[c] == 0
                &&& iface.outbound.turn.cursor == 0
                &&& !iface.outbound.turn.credited
                &&& iface.outbound.weights == endpoint.policy.queue_weights
                &&& iface.outbound.depths == endpoint.policy.queue_depths
                &&& after.generation == endpoint.generation.wrapping_add(1)
                &&& after.admission.interfaces.contains_key(endpoint.next_iface_id)
                &&& after == (EndpointModel {
                    interfaces: after.interfaces,
                    next_iface_id: after.next_iface_id,
                    generation: after.generation,
                    admission: after.admission,
                    ..endpoint
                })
            }
        }),
{
}

/// Detaching an interface takes it and what was held of it away, and leaves every other one and
/// what was held of those.
pub proof fn law_detaching_leaves_the_others(
    endpoint: EndpointModel,
    id: InterfaceId,
    k: int,
    other: int,
)
    requires
        first_with(endpoint.interfaces, id, k),
        0 <= other < endpoint.interfaces.len(),
        other != k,
    ensures
        ({
            let after = endpoint.detached(id);
            &&& after.interfaces.len() == endpoint.interfaces.len() - 1
            &&& after.interfaces.contains(endpoint.interfaces[other])
            &&& after.held == endpoint.held.filter(|h: HeldModel| h.interface != id)
            &&& !after.admission.interfaces.contains_key(id)
            &&& forall|i: InterfaceId|
                i != id && endpoint.admission.interfaces.contains_key(i)
                    ==> #[trigger] after.admission.interfaces.contains_key(i)
                    && after.admission.interfaces[i] == endpoint.admission.interfaces[i]
            &&& after.admission.destinations == endpoint.admission.destinations
            &&& after.generation == endpoint.generation.wrapping_add(1)
            &&& after.links == endpoint.links
            &&& after.paths == endpoint.paths
            &&& after.book == endpoint.book
        }),
{
    law_interface_is_found(endpoint.interfaces, id);
    law_taking_one_out_keeps_the_rest(endpoint.interfaces, k, other);
    law_held_announces_leave_with_their_interface(endpoint.held, id);
}

/// Detaching an id that is nowhere takes no interface away.
pub proof fn law_detaching_nothing_keeps_all(endpoint: EndpointModel, id: InterfaceId)
    requires
        nowhere(endpoint.interfaces, id),
    ensures
        endpoint.detached(id).interfaces == endpoint.interfaces,
        endpoint.detached(id).generation == endpoint.generation,
{
    law_interface_is_found(endpoint.interfaces, id);
}

/// A link that is registered is there as it was given, one that is removed is not, and the
/// others stay. Each change is one to observe.
pub proof fn law_links_are_what_was_registered(
    endpoint: EndpointModel,
    id: AddressHash,
    entry: LinkEntry,
    other: AddressHash,
)
    requires
        other != id,
    ensures
        ({
            let with = endpoint.with_link(id, entry);
            &&& with.links.contains_key(id)
            &&& with.links[id] == entry
            &&& with.links.contains_key(other) == endpoint.links.contains_key(other)
            &&& endpoint.links.contains_key(other) ==> with.links[other] == endpoint.links[other]
            &&& with.generation == endpoint.generation.wrapping_add(1)
            &&& with == (EndpointModel {
                links: with.links,
                generation: with.generation,
                ..endpoint
            })
        }),
        ({
            let less = endpoint.without_link(id);
            &&& !less.links.contains_key(id)
            &&& less.links.contains_key(other) == endpoint.links.contains_key(other)
            &&& endpoint.links.contains_key(other) ==> less.links[other] == endpoint.links[other]
            &&& less.generation == (if endpoint.links.contains_key(id) {
                endpoint.generation.wrapping_add(1)
            } else {
                endpoint.generation
            })
            &&& less == (EndpointModel {
                links: less.links,
                generation: less.generation,
                ..endpoint
            })
        }),
{
}

/// A peer that identifies itself on a link is known for that link from then on; only that is
/// changed, and only where it was not known before.
pub proof fn law_identified_peer_is_kept(
    endpoint: EndpointModel,
    id: AddressHash,
    identity: Identity,
)
    ensures
        ({
            let after = endpoint.with_peer(id, identity);
            let known = endpoint.links.contains_key(id);
            let before = endpoint.links[id];
            let same = before.remote.identity == Some(identity);
            &&& !known || same ==> after == endpoint
            &&& known && !same ==> {
                let entry = after.links[id];
                &&& entry.remote.identity == Some(identity)
                &&& entry.remote.destination == before.remote.destination
                &&& entry.kind == before.kind
                &&& entry.iface == before.iface
                &&& entry.direction == before.direction
                &&& after.links == endpoint.links.insert(id, entry)
                &&& after.generation == endpoint.generation.wrapping_add(1)
            }
        }),
{
}

/// A proof that is given is kept under its link, as given now.
pub proof fn law_given_proof_is_kept(
    endpoint: EndpointModel,
    link_id: AddressHash,
    proof_packet: PacketModel,
    iface: InterfaceId,
    now: u64,
)
    ensures
        ({
            let after = endpoint.link_proved(link_id, proof_packet, iface, now);
            &&& after.proofs.contains_key(link_id)
            &&& after.proofs.remove(link_id) == proof_room(
                endpoint.proofs,
                now,
            ).remove(link_id)
            &&& after.proofs[link_id].proof_packet == proof_packet
            &&& after.proofs[link_id].at == now
            &&& after.interfaces == endpoint.sent(
                iface,
                proof_packet,
                TrafficClass::Interactive,
            ).interfaces
            &&& after == (EndpointModel {
                proofs: after.proofs,
                interfaces: after.interfaces,
                ..endpoint
            })
        }),
{
    let after = endpoint.link_proved(link_id, proof_packet, iface, now);
    assert(after.proofs.remove(link_id) =~= proof_room(
        endpoint.proofs,
        now,
    ).remove(link_id));
}

/// A new endpoint runs, knows nobody, has nothing to carry anything over and carries nothing
/// for others; its tables are empty and its settings the ordinary ones.
pub proof fn law_new_endpoint_knows_nothing(endpoint: EndpointModel, secret: Seq<u8>)
    requires
        endpoint.is_new(secret),
    ensures
        endpoint.lifecycle == Lifecycle::Running,
        endpoint.secret == secret,
        endpoint.own@ == address_of(public_of(secret)),
        endpoint.interfaces.len() == 0,
        endpoint.registered.len() == 0,
        endpoint.held.len() == 0,
        endpoint.seen.len() == 0,
        endpoint.book.refused == 0 && endpoint.book.max_peers == 4096,
        forall|id: AddressHash|
            {
                &&& !#[trigger] endpoint.links.contains_key(id)
                &&& !endpoint.paths.contains_key(id)
                &&& !endpoint.bridges.contains_key(id)
                &&& !endpoint.pending.contains_key(id)
                &&& !endpoint.proofs.contains_key(id)
                &&& !endpoint.book.peers.contains_key(id)
                &&& !endpoint.ordinals.contains_key(id)
            },
        !endpoint.policy.forward_packets,
        !endpoint.policy.forward_announces,
        endpoint.policy.max_hops == 0,
        endpoint.path_limit == 4096,
        endpoint.seen_limit == 4096,
        endpoint.budget.min_interval == 20_000,
        endpoint.budget.window_max == 8,
        endpoint.settings.relay_jitter_ms == 0,
        endpoint.settings.reliable_initial_rtt_ms == 750,
        endpoint.settings.reliable_max_window == 48,
        endpoint.settings.link_setup_retry_ms == 2_000,
        endpoint.settings.link_mtu == 500,
        endpoint.stats.forwarded_packets == 0,
        endpoint.stats.forwarded_announces == 0,
        endpoint.active_resources == 0,
        endpoint.generation == 0,
        endpoint.next_iface_id == 0,
{
}

/// An endpoint that is stopped is closed, has no links, and every interface is closed with what
/// it holds; stopping again changes nothing.
pub proof fn law_stopped_endpoint_is_closed(endpoint: EndpointModel)
    requires
        endpoint.lifecycle != Lifecycle::Closed,
        endpoint.links.dom().finite(),
    ensures
        ({
            let after = endpoint.stopped();
            &&& after.lifecycle == Lifecycle::Closed
            &&& forall|id: AddressHash| !#[trigger] after.links.contains_key(id)
            &&& after.interfaces.len() == endpoint.interfaces.len()
            &&& forall|j: int|
                0 <= j < endpoint.interfaces.len() ==> (
                #[trigger] after.interfaces[j]).outbound.closed
                    && after.interfaces[j].outbound.queues
                    == endpoint.interfaces[j].outbound.queues && after.interfaces[j].id
                    == endpoint.interfaces[j].id
            &&& after.generation == (if exists|id: AddressHash|
                #[trigger] endpoint.links.contains_key(id) {
                endpoint.generation.wrapping_add(1)
            } else {
                endpoint.generation
            })
            &&& after.stopped() == after
        }),
{
    let after = endpoint.stopped();
    if exists|id: AddressHash| #[trigger] endpoint.links.contains_key(id) {
        let id = choose|id: AddressHash| #[trigger] endpoint.links.contains_key(id);
        if endpoint.links.dom().len() == 0 {
            assert(endpoint.links.dom() =~= Set::empty());
            assert(endpoint.links.dom().contains(id));
        }
    } else {
        assert(endpoint.links.dom() =~= Set::empty());
    }
}

/// An orderly shutdown waits for resource sessions first, then for everything queued or in
/// flight to leave, and no longer than the deadline.
pub proof fn law_shutdown_waits_in_order(endpoint: EndpointModel, now: u64, deadline: u64)
    ensures
        ({
            let step = endpoint.shutdown_step(now, deadline);
            let busy = exists|j: int|
                0 <= j < endpoint.interfaces.len() && ((
                #[trigger] endpoint.interfaces[j]).outbound.in_flight > 0 || exists|c: int|
                    0 <= c < 4 && (#[trigger] endpoint.interfaces[j].outbound.queues[c]).len()
                        > 0);
            &&& now >= deadline ==> step == ShutdownStep::Stop
            &&& now < deadline && endpoint.active_resources > 0 ==> (step
                matches ShutdownStep::AwaitResources { remaining_ms } && remaining_ms == deadline
                - now)
            &&& now < deadline && endpoint.active_resources == 0 && busy ==> step
                == ShutdownStep::AwaitDrain
            &&& now < deadline && endpoint.active_resources == 0 && !busy ==> step
                == ShutdownStep::Stop
        }),
{
    let busy = exists|j: int|
        0 <= j < endpoint.interfaces.len() && ((
        #[trigger] endpoint.interfaces[j]).outbound.in_flight > 0 || exists|c: int|
            0 <= c < 4 && (#[trigger] endpoint.interfaces[j].outbound.queues[c]).len() > 0);
    if busy {
        let j = choose|j: int|
            0 <= j < endpoint.interfaces.len() && ((
            #[trigger] endpoint.interfaces[j]).outbound.in_flight > 0 || exists|c: int|
                0 <= c < 4 && (#[trigger] endpoint.interfaces[j].outbound.queues[c]).len() > 0);
        assert(endpoint.interfaces[j].outbound.in_flight > 0
            || !endpoint.interfaces[j].outbound.all_empty());
    } else {
        assert forall|j: int| 0 <= j < endpoint.interfaces.len() implies (
        #[trigger] endpoint.interfaces[j]).outbound.in_flight == 0
            && endpoint.interfaces[j].outbound.all_empty() by {
            assert forall|c: int| 0 <= c < 4 implies (
            #[trigger] endpoint.interfaces[j].outbound.queues[c]).len() == 0 by {}
        }
    }
}

/// A queue policy reaches every interface and changes nothing they hold; closing them all
/// closes each, and changes nothing else.
pub proof fn law_policy_reaches_every_interface(
    interfaces: Seq<IfaceModel>,
    weights: QueueWeights,
    depths: QueueDepths,
    j: int,
)
    requires
        0 <= j < interfaces.len(),
    ensures
        all_with_policy(interfaces, weights, depths).len() == interfaces.len(),
        all_with_policy(interfaces, weights, depths)[j] == (IfaceModel {
            outbound: QueueModel { weights, depths, ..interfaces[j].outbound },
            ..interfaces[j]
        }),
        all_closed(interfaces).len() == interfaces.len(),
        all_closed(interfaces)[j] == (IfaceModel {
            outbound: QueueModel { closed: true, ..interfaces[j].outbound },
            ..interfaces[j]
        }),
{
}

/// Links are observed whose interface is there, each as it is, in their order.
pub proof fn law_observed_links_are_those_on_interfaces(
    rows: Seq<(AddressHash, LinkEntry)>,
    interfaces: Seq<InterfaceId>,
)
    ensures
        link_facts_of(rows, interfaces) == rows.filter(
            |r: (AddressHash, LinkEntry)| interfaces.contains(r.1.iface),
        ).map_values(
            |r: (AddressHash, LinkEntry)|
                LinkFact {
                    id: r.0,
                    interface: r.1.iface,
                    kind: r.1.kind,
                    direction: r.1.direction,
                    remote: r.1.remote,
                },
        ),
    decreases rows.len(),
{
    reveal(Seq::filter);
    if rows.len() > 0 {
        law_observed_links_are_those_on_interfaces(rows.drop_last(), interfaces);
    }
    assert(link_facts_of(rows, interfaces) =~= rows.filter(
        |r: (AddressHash, LinkEntry)| interfaces.contains(r.1.iface),
    ).map_values(
        |r: (AddressHash, LinkEntry)|
            LinkFact {
                id: r.0,
                interface: r.1.iface,
                kind: r.1.kind,
                direction: r.1.direction,
                remote: r.1.remote,
            },
    ));
}

/// A setting is moved into its range: to the nearer end where it is outside.
pub proof fn law_setting_is_moved_into_its_range(n: int, low: int, high: int)
    requires
        low <= high,
    ensures
        low <= clamped(n, low, high) <= high,
        low <= n <= high ==> clamped(n, low, high) == n,
        n < low ==> clamped(n, low, high) == low,
        n > high ==> clamped(n, low, high) == high,
{
}

} // verus!
