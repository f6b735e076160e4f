//! What holds of a node as a whole.

pub mod links;
pub mod operations;
pub mod transit;
pub mod upkeep;

use vstd::prelude::*;

use crate::address_book::Ingested;
use crate::announce::{announce_error, AnnounceBlob};
use crate::hash::AddressHash;
use crate::node::actions::{ActionModel, ActionsModel, InterfaceId};
use crate::node::policy::{LINK_IDLE_TIMEOUT, TRANSPORT_DEDUP_TIMEOUT};
use crate::node::state::{
    forwarded, iv_input, of_resource, LinkModel, NodeModel, ReadingModel, Redrive, Route,
    SeenPacket, Step, TransferSlot,
};
use crate::packet::{PacketModel, PacketType};
use crate::recent::{
    index_of, is_aged, lemma_index_is, lemma_index_of, lemma_oldest, lemma_without_aged,
    law_remembering_is_bounded, not_under, still_fresh, without_aged, Filed,
};
use crate::table::{age, Stamped};

verus! {

impl NodeModel {
    /// Every table is within the size it was declared with.
    pub open spec fn bounded(self) -> bool {
        &&& self.routes.len() <= self.max_routes
        &&& self.bridges.len() <= self.max_routes
        &&& self.seen_transit.len() <= self.max_routes
        &&& self.links.len() <= self.max_links
        &&& self.pending.len() <= self.max_links
        &&& self.receivers.len() <= self.max_links
        &&& self.senders.len() <= self.max_links
    }
}

/// Filtering never makes a list longer.
proof fn lemma_filters_shrink<T: Filed>(s: Seq<T>, key: AddressHash)
    ensures
        not_under(s, key).len() <= s.len(),
        forall|i: int|
            0 <= i < not_under(s, key).len() ==> (#[trigger] not_under(s, key)[i]).filed_under()
                != key,
    decreases s.len(),
{
    if s.len() > 0 {
        lemma_filters_shrink(s.drop_last(), key);
        let before = not_under(s.drop_last(), key);
        assert forall|i: int| 0 <= i < not_under(s, key).len() implies (#[trigger] not_under(
            s,
            key,
        )[i]).filed_under() != key by {
            if i < before.len() {
                assert(not_under(s, key)[i] == before[i]);
            }
        }
    }
}

/// Forgetting what is old never makes a list longer.
proof fn lemma_fresh_shrinks<T: Stamped>(s: Seq<T>, now: u64, ttl: u64)
    ensures
        still_fresh(s, now, ttl).len() <= s.len(),
    decreases s.len(),
{
    if s.len() > 0 {
        lemma_fresh_shrinks(s.drop_last(), now, ttl);
    }
}

/// Observing a packet keeps the tables bounded.
proof fn lemma_seen_bounded(m: NodeModel, hash: AddressHash, now: u64)
    requires
        m.bounded(),
    ensures
        m.with_seen(hash, now).bounded(),
{
    let fresh = still_fresh(m.seen_transit, now, TRANSPORT_DEDUP_TIMEOUT);
    lemma_fresh_shrinks(m.seen_transit, now, TRANSPORT_DEDUP_TIMEOUT);
    if fresh.len() > 0 {
        lemma_oldest(fresh);
    }
}

/// Expiry keeps the tables bounded.
proof fn lemma_expiry_bounded(m: NodeModel, now: u64)
    requires
        m.bounded(),
    ensures
        m.routes_expired(now).bounded(),
        m.transport_expired(now).bounded(),
{
    lemma_without_aged(m.routes, now, m.transport.route_ttl);
    lemma_without_aged(m.bridges, now, m.transport.bridge_ttl);
    lemma_fresh_shrinks(m.seen_transit, now, TRANSPORT_DEDUP_TIMEOUT);
}

/// Learning a route keeps the tables bounded.
proof fn lemma_route_bounded(m: NodeModel, route: Route)
    requires
        m.bounded(),
    ensures
        m.with_route(route).bounded(),
{
    lemma_expiry_bounded(m, route.learned);
    law_remembering_is_bounded(m.routes_expired(route.learned).routes, route, m.max_routes);
}

/// Carrying a packet keeps the tables bounded.
proof fn lemma_carrying_bounded(
    m: NodeModel,
    interface: InterfaceId,
    packet: PacketModel,
    now: u64,
    link_id: Option<AddressHash>,
    actions: ActionsModel,
)
    requires
        m.bounded(),
    ensures
        m.bridged(interface, packet, now, actions).node.bounded(),
        m.transported(interface, packet, now, link_id, actions).node.bounded(),
        m.relaying(interface, packet, now, actions).node.bounded(),
{
    let hash = AddressHash::with(packet.address());
    lemma_seen_bounded(m, hash, now);
    lemma_index_of(m.bridges, packet.destination);
    lemma_index_of(m.routes, packet.destination);
    if let Some(i) = index_of(m.routes, packet.destination) {
        if let Some(id) = link_id {
            law_remembering_is_bounded(
                m.with_seen(hash, now).bridges,
                crate::node::state::LinkBridge {
                    link_id: id,
                    from: interface,
                    out: m.routes[i].interface,
                    seen: now,
                },
                m.max_routes,
            );
        }
    }
}

/// An announce keeps the tables bounded.
proof fn lemma_announce_bounded(
    m: NodeModel,
    interface: InterfaceId,
    packet: PacketModel,
    now: u64,
    actions: ActionsModel,
)
    requires
        m.bounded(),
    ensures
        m.announced_to(interface, packet, now, actions).node.bounded(),
{
    let n = NodeModel {
        book: m.book.after_ingest(packet.destination, crate::announce::announced(packet)),
        ..m
    };
    let recorded = n.recording(NodeModel::candidate(packet), now);
    let route = Route {
        destination: packet.destination,
        interface,
        transport: packet.transport,
        hops: packet.hops,
        learned: now,
    };
    lemma_route_bounded(recorded, route);
    let learned = actions.with(ActionModel::Learned { destination: packet.destination });
    lemma_carrying_bounded(recorded, interface, packet, now, None, learned);
    lemma_carrying_bounded(recorded.with_route(route), interface, packet, now, None, learned);
}

/// What a link's packet does keeps the tables bounded.
proof fn lemma_local_bounded(
    m: NodeModel,
    interface: InterfaceId,
    packet: PacketModel,
    now: u64,
    reading: ReadingModel,
    actions: ActionsModel,
)
    requires
        m.bounded(),
    ensures
        m.link_requested(interface, packet, now, reading, actions).node.bounded(),
        m.link_proved(packet, now, reading, actions).node.bounded(),
        m.link_carried(interface, packet, now, reading, actions).node.bounded(),
{
    if let Some(id) = reading.proved {
        lemma_index_of(m.pending, id);
    }
    let id = packet.destination;
    lemma_index_of(m.links, id);
    lemma_index_of(m.senders, id);
    lemma_index_of(m.receivers, id);
    if let Some(i) = index_of(m.links, id) {
        lemma_filters_shrink(m.receivers, m.links[i].link_id);
        lemma_filters_shrink(m.senders, m.links[i].link_id);
    }
}

/// The tables are fixed resources: no packet, whatever it holds, makes one outgrow its bound.
/// A flood cannot turn a board's memory into a lifetime allocation.
pub proof fn law_ingest_keeps_tables_bounded(
    m: NodeModel,
    interface: InterfaceId,
    packet: PacketModel,
    now: u64,
    reading: ReadingModel,
    max: nat,
)
    requires
        m.bounded(),
    ensures
        m.ingested(interface, packet, now, reading, max).node.bounded(),
{
    lemma_expiry_bounded(m, now);
    let e = m.transport_expired(now);
    let none = ActionsModel::none(max);
    lemma_announce_bounded(e, interface, packet, now, none);
    lemma_carrying_bounded(e, interface, packet, now, reading.link_id, none);
    let first = e.bridged(interface, packet, now, none);
    lemma_carrying_bounded(
        first.node,
        interface,
        packet,
        now,
        reading.link_id,
        first.actions,
    );
    let second = first.node.transported(interface, packet, now, reading.link_id, first.actions);
    lemma_local_bounded(second.node, interface, packet, now, reading, second.actions);
}

/// Nor does the passing of time.
pub proof fn law_poll_keeps_tables_bounded(
    m: NodeModel,
    now: u64,
    interface: InterfaceId,
    blob: Option<AnnounceBlob>,
    redrive: Redrive,
    max: nat,
)
    requires
        m.bounded(),
    ensures
        m.polled(now, interface, blob, redrive, max).node.bounded(),
{
    lemma_expiry_bounded(m, now);
    lemma_without_aged(m.transport_expired(now).links, now, LINK_IDLE_TIMEOUT);
}

impl NodeModel {
    /// No link is sent on and received on at once.
    pub open spec fn one_transfer_per_link(self) -> bool {
        forall|i: int, j: int|
            0 <= i < self.receivers.len() && 0 <= j < self.senders.len() ==> (
            #[trigger] self.receivers[i]).link_id != (#[trigger] self.senders[j]).link_id
    }
}

/// What stays after filtering was there.
proof fn lemma_filter_keeps<T: Filed>(s: Seq<T>, key: AddressHash)
    ensures
        forall|i: int|
            0 <= i < not_under(s, key).len() ==> s.contains(#[trigger] not_under(s, key)[i]),
    decreases s.len(),
{
    if s.len() > 0 {
        let front = s.drop_last();
        lemma_filter_keeps(front, key);
        let before = not_under(front, key);
        assert forall|i: int| 0 <= i < not_under(s, key).len() implies s.contains(
            #[trigger] not_under(s, key)[i],
        ) by {
            if i < before.len() {
                assert(not_under(s, key)[i] == before[i]);
                let k = choose|k: int| 0 <= k < front.len() && front[k] == before[i];
                assert(s[k] == before[i]);
            } else {
                assert(not_under(s, key)[i] == s[s.len() - 1]);
            }
        }
    }
}

/// What a link's packet does keeps one transfer to a link.
proof fn lemma_local_keeps_one_transfer(
    m: NodeModel,
    interface: InterfaceId,
    packet: PacketModel,
    now: u64,
    reading: ReadingModel,
    actions: ActionsModel,
)
    requires
        m.one_transfer_per_link(),
    ensures
        m.link_requested(interface, packet, now, reading, actions).node.one_transfer_per_link(),
        m.link_proved(packet, now, reading, actions).node.one_transfer_per_link(),
        m.link_carried(interface, packet, now, reading, actions).node.one_transfer_per_link(),
{
    let id = packet.destination;
    lemma_index_of(m.links, id);
    lemma_index_of(m.senders, id);
    lemma_index_of(m.receivers, id);
    if let Some(at) = index_of(m.links, id) {
        let after = m.link_carried(interface, packet, now, reading, actions).node;
        lemma_filter_keeps(m.receivers, m.links[at].link_id);
        lemma_filter_keeps(m.senders, m.links[at].link_id);
        assert forall|i: int| 0 <= i < after.receivers.len() implies {
            let slot = #[trigger] after.receivers[i];
            (exists|k: int| 0 <= k < m.receivers.len() && m.receivers[k].link_id == slot.link_id)
                || (slot.link_id == id && index_of(m.senders, id) is None)
        } by {
            let slot = after.receivers[i];
            if m.receivers.contains(slot) {
                let k = choose|k: int| 0 <= k < m.receivers.len() && m.receivers[k] == slot;
                assert(m.receivers[k].link_id == slot.link_id);
            } else if let Some(k) = index_of(m.receivers, id) {
                assert(m.receivers[k].filed_under() == id);
                if i < m.receivers.len() && m.receivers[i] == slot {
                    assert(m.receivers.contains(slot));
                }
                assert(m.receivers[k].link_id == id);
                assert(m.receivers.last() == m.receivers[m.receivers.len() - 1]);
            }
        }
        assert forall|j: int| 0 <= j < after.senders.len() implies exists|k: int|
            0 <= k < m.senders.len() && m.senders[k].link_id == (
            #[trigger] after.senders[j]).link_id by {
            let slot = after.senders[j];
            if m.senders.contains(slot) {
                let k = choose|k: int| 0 <= k < m.senders.len() && m.senders[k] == slot;
                assert(m.senders[k].link_id == slot.link_id);
            } else if let Some(k) = index_of(m.senders, id) {
                assert(m.senders[k].filed_under() == id);
                assert(m.senders[k].link_id == id);
                assert(m.senders.last() == m.senders[m.senders.len() - 1]);
            }
        }
    }
}

/// One transfer at a time on a link, because a board cannot hold two: whatever arrives, no link
/// is ever sent on and received on at once.
pub proof fn law_ingest_keeps_one_transfer_per_link(
    m: NodeModel,
    interface: InterfaceId,
    packet: PacketModel,
    now: u64,
    reading: ReadingModel,
    max: nat,
)
    requires
        m.one_transfer_per_link(),
    ensures
        m.ingested(interface, packet, now, reading, max).node.one_transfer_per_link(),
{
    let e = m.transport_expired(now);
    let none = ActionsModel::none(max);
    let first = e.bridged(interface, packet, now, none);
    let second = first.node.transported(interface, packet, now, reading.link_id, first.actions);
    lemma_local_keeps_one_transfer(second.node, interface, packet, now, reading, second.actions);
}

/// Publishing and the passing of time keep that too: nothing is published on a link while
/// anything is sent or received on it.
pub proof fn law_publish_and_poll_keep_one_transfer_per_link(
    m: NodeModel,
    link_id: AddressHash,
    now: u64,
    interface: InterfaceId,
    blob: Option<AnnounceBlob>,
    redrive: Redrive,
    max: nat,
)
    requires
        m.one_transfer_per_link(),
    ensures
        m.can_publish(link_id) ==> (NodeModel {
            senders: m.senders.push(TransferSlot { link_id, at: now }),
            ..m
        }).one_transfer_per_link(),
        m.polled(now, interface, blob, redrive, max).node.one_transfer_per_link(),
{
    lemma_index_of(m.receivers, link_id);
    if m.can_publish(link_id) {
        let after = NodeModel {
            senders: m.senders.push(TransferSlot { link_id, at: now }),
            ..m
        };
        assert forall|i: int, j: int|
            0 <= i < after.receivers.len() && 0 <= j < after.senders.len() implies (
        #[trigger] after.receivers[i]).link_id != (#[trigger] after.senders[j]).link_id by {
            assert(m.receivers[i].filed_under() != link_id);
            if j < m.senders.len() {
                assert(after.senders[j] == m.senders[j]);
            }
        }
    }
    let after = m.polled(now, interface, blob, redrive, max).node;
    assert forall|i: int, j: int|
        0 <= i < after.receivers.len() && 0 <= j < after.senders.len() implies (
    #[trigger] after.receivers[i]).link_id != (#[trigger] after.senders[j]).link_id by {
        assert(m.receivers[i].link_id != m.senders[j].link_id);
    }
}

/// An announce that does not check out, or that freshness rejects, teaches the node nothing:
/// beyond what time alone expires, only counters change, and nothing is wanted of the shell.
pub proof fn law_rejected_announce_has_no_effect(
    m: NodeModel,
    interface: InterfaceId,
    packet: PacketModel,
    now: u64,
    reading: ReadingModel,
    max: nat,
)
    requires
        packet.packet_type == PacketType::Announce,
        announce_error(packet) is Some || m.freshness.decision(
            NodeModel::candidate(packet),
            now,
            m.transport.route_ttl,
        ) is Reject,
    ensures
        ({
            let step = m.ingested(interface, packet, now, reading, max);
            step.actions == ActionsModel::none(max) && step.node == (NodeModel {
                counters: step.node.counters,
                ..m.transport_expired(now)
            })
        }),
{
}

/// A full address book is part of admission: an announce it refuses is not on record, so a
/// later capacity opening can still admit it.
pub proof fn law_refused_announce_is_not_recorded(
    m: NodeModel,
    interface: InterfaceId,
    packet: PacketModel,
    now: u64,
    reading: ReadingModel,
    max: nat,
)
    requires
        packet.packet_type == PacketType::Announce,
        m.book.verdict(packet.destination) == Ingested::Refused,
    ensures
        ({
            let step = m.ingested(interface, packet, now, reading, max);
            &&& step.actions == ActionsModel::none(max)
            &&& step.node.freshness == m.freshness
            &&& step.node.book.peers == m.book.peers
            &&& step.node.routes == m.transport_expired(now).routes
        }),
{
}

/// An accepted announce is the route from then on, however many hops it took: there is no
/// second shortest-path filter.
pub proof fn law_accepted_announce_is_the_route(m: NodeModel, route: Route)
    requires
        m.bounded(),
        m.max_routes > 0,
        route.destination != m.destination(),
    ensures
        ({
            let after = m.with_route(route);
            match index_of(after.routes, route.destination) {
                Some(i) => after.routes[i] == route,
                None => false,
            }
        }),
{
    lemma_expiry_bounded(m, route.learned);
    crate::recent::law_latest_is_found(
        m.routes_expired(route.learned).routes,
        route,
        m.max_routes,
    );
}

/// A retransmitted link request is answered with the same proof, and makes no second link: the
/// two sides never hold different keys for what the initiator thinks is one link.
pub proof fn law_same_request_same_proof(
    m: NodeModel,
    interface: InterfaceId,
    packet: PacketModel,
    first: ReadingModel,
    again: ReadingModel,
    then: u64,
    now: u64,
    actions: ActionsModel,
    later: ActionsModel,
)
    requires
        packet.destination == m.destination(),
        first.link_id is Some,
        first.accepted is Some,
        index_of(m.links, first.link_id->0) is None,
        m.links.len() < m.max_links,
        again.link_id == first.link_id,
    ensures
        ({
            let up = m.link_requested(interface, packet, then, first, actions);
            let step = up.node.link_requested(interface, packet, now, again, later);
            &&& up.actions == actions.sending(interface, first.accepted->0).with(
                ActionModel::LinkUp { link_id: first.link_id->0 },
            )
            &&& step.node == up.node
            &&& step.actions == later.sending(interface, first.accepted->0)
        }),
{
    let id = first.link_id->0;
    let up = m.link_requested(interface, packet, then, first, actions);
    lemma_index_of(m.links, id);
    let at = m.links.len() as int;
    assert forall|j: int| 0 <= j < at implies (#[trigger] up.node.links[j]).filed_under() != id by {
        assert(up.node.links[j] == m.links[j]);
    }
    lemma_index_is(up.node.links, id, at);
}

/// A link request for another destination is never answered as if it were local.
pub proof fn law_request_for_another_is_ignored(
    m: NodeModel,
    interface: InterfaceId,
    packet: PacketModel,
    now: u64,
    reading: ReadingModel,
    actions: ActionsModel,
)
    requires
        packet.destination != m.destination(),
    ensures
        m.link_requested(interface, packet, now, reading, actions) == (Step {
            node: m,
            actions,
            done: true,
        }),
{
}

/// Losing a link discards the transfers riding on it.
pub proof fn law_closing_discards_transfers(m: NodeModel, i: int, actions: ActionsModel)
    requires
        0 <= i < m.links.len(),
    ensures
        ({
            let id = m.links[i].link_id;
            let after = m.link_dropped(i, actions).node;
            index_of(after.receivers, id) is None && index_of(after.senders, id) is None
        }),
{
    let id = m.links[i].link_id;
    let after = m.link_dropped(i, actions).node;
    lemma_filters_shrink(m.receivers, id);
    lemma_filters_shrink(m.senders, id);
    lemma_index_of(after.receivers, id);
    lemma_index_of(after.senders, id);
}

/// A peer that keeps talking keeps its slot: any traffic on a link, a closing aside, counts as
/// having heard from it.
pub proof fn law_live_link_keeps_its_slot(
    m: NodeModel,
    interface: InterfaceId,
    packet: PacketModel,
    now: u64,
    reading: ReadingModel,
    actions: ActionsModel,
)
    requires
        index_of(m.links, packet.destination) is Some,
        !reading.closes || of_resource(packet.context) || reading.payload is Some,
    ensures
        ({
            let after = m.link_carried(interface, packet, now, reading, actions).node;
            match index_of(after.links, packet.destination) {
                Some(i) => after.links[i].seen == now,
                None => false,
            }
        }),
{
    let id = packet.destination;
    let after = m.link_carried(interface, packet, now, reading, actions).node;
    lemma_index_of(m.links, id);
    let i = index_of(m.links, id)->0;
    assert(after.links == m.links.update(i, LinkModel { seen: now, ..m.links[i] }));
    assert forall|j: int| 0 <= j < i implies (#[trigger] after.links[j]).filed_under() != id by {
        assert(after.links[j] == m.links[j]);
    }
    lemma_index_is(after.links, id, i);
}

/// A silent peer releases its slot: after a poll every link was heard from within the timeout,
/// and none that was is gone.
pub proof fn law_silent_link_is_reclaimed(
    m: NodeModel,
    now: u64,
    interface: InterfaceId,
    blob: Option<AnnounceBlob>,
    redrive: Redrive,
    max: nat,
)
    ensures
        ({
            let after = m.polled(now, interface, blob, redrive, max).node;
            &&& forall|i: int|
                0 <= i < after.links.len() ==> age(now, (#[trigger] after.links[i]).seen)
                    < LINK_IDLE_TIMEOUT
            &&& forall|i: int|
                0 <= i < m.links.len() && age(now, (#[trigger] m.links[i]).seen) < LINK_IDLE_TIMEOUT
                    ==> after.links.contains(m.links[i])
        }),
{
    let links = m.transport_expired(now).links;
    let kept = without_aged(links, now, LINK_IDLE_TIMEOUT);
    lemma_without_aged(links, now, LINK_IDLE_TIMEOUT);
    assert forall|i: int| 0 <= i < kept.len() implies age(now, (#[trigger] kept[i]).seen)
        < LINK_IDLE_TIMEOUT by {
        assert(!is_aged(kept[i], now, LINK_IDLE_TIMEOUT));
    }
    assert forall|i: int|
        0 <= i < m.links.len() && age(now, (#[trigger] m.links[i]).seen)
            < LINK_IDLE_TIMEOUT implies kept.contains(m.links[i]) by {
        assert(!is_aged(links[i], now, LINK_IDLE_TIMEOUT));
    }
}

/// An announce without a blob stays due: a poll that cannot announce does not count as one.
pub proof fn law_announce_stays_due(
    m: NodeModel,
    now: u64,
    later: u64,
    interface: InterfaceId,
    redrive: Redrive,
    max: nat,
)
    requires
        m.announce_is_due(now),
        now <= later,
    ensures
        m.polled(now, interface, None, redrive, max).node.announce_is_due(later),
{
}

/// A packet is relayed once: heard again within the dedup time, it is not new. Only another
/// relay in between could displace the observation.
pub proof fn law_relay_is_not_repeated(m: NodeModel, hash: AddressHash, now: u64, later: u64)
    requires
        m.bounded(),
        now <= later,
        later - now < TRANSPORT_DEDUP_TIMEOUT,
    ensures
        m.max_routes > 0 ==> !m.with_seen(hash, now).is_new(hash, now),
        m.is_new(hash, now) ==> !m.with_seen(hash, now).is_new(hash, later),
{
    let fresh = still_fresh(m.seen_transit, now, TRANSPORT_DEDUP_TIMEOUT);
    lemma_fresh_shrinks(m.seen_transit, now, TRANSPORT_DEDUP_TIMEOUT);
    if fresh.len() > 0 {
        lemma_oldest(fresh);
    }
    let after = m.with_seen(hash, now).seen_transit;
    if index_of(fresh, hash) is None {
        if m.max_routes > 0 {
            let entry = SeenPacket { hash, seen: now };
            assert(after.last() == entry);
            let at_now = still_fresh(after, now, TRANSPORT_DEDUP_TIMEOUT);
            let at_later = still_fresh(after, later, TRANSPORT_DEDUP_TIMEOUT);
            assert(at_now.last() == entry);
            assert(at_later.last() == entry);
            lemma_index_of(at_now, hash);
            lemma_index_of(at_later, hash);
            assert(at_now[at_now.len() - 1].filed_under() == hash);
            assert(at_later[at_later.len() - 1].filed_under() == hash);
        }
    } else {
        lemma_fresh_again(m.seen_transit, now, TRANSPORT_DEDUP_TIMEOUT);
    }
}

/// What is fresh stays fresh at the same time.
proof fn lemma_fresh_again<T: Stamped>(s: Seq<T>, now: u64, ttl: u64)
    ensures
        still_fresh(still_fresh(s, now, ttl), now, ttl) == still_fresh(s, now, ttl),
    decreases s.len(),
{
    if s.len() > 0 {
        lemma_fresh_again(s.drop_last(), now, ttl);
        let before = still_fresh(s.drop_last(), now, ttl);
        if !is_aged(s.last(), now, ttl) {
            assert(before.push(s.last()).drop_last() =~= before);
        }
    }
}

/// Nothing is relayed at or above the hop ceiling.
pub proof fn law_hop_ceiling_holds(
    m: NodeModel,
    interface: InterfaceId,
    packet: PacketModel,
    now: u64,
    link_id: Option<AddressHash>,
    actions: ActionsModel,
)
    requires
        packet.hops >= m.transport.max_hops,
    ensures
        m.bridged(interface, packet, now, actions).actions == actions,
        m.transported(interface, packet, now, link_id, actions).actions == actions,
        m.relaying(interface, packet, now, actions).actions == actions,
{
}

/// A node that carries nothing for others relays nothing.
pub proof fn law_endpoint_relays_nothing(
    m: NodeModel,
    interface: InterfaceId,
    packet: PacketModel,
    now: u64,
    link_id: Option<AddressHash>,
    actions: ActionsModel,
)
    requires
        !m.transport.relay_packets,
        !m.transport.relay_announces,
    ensures
        m.bridged(interface, packet, now, actions) == (Step { node: m, actions, done: false }),
        m.transported(interface, packet, now, link_id, actions) == (Step {
            node: m,
            actions,
            done: false,
        }),
        m.relaying(interface, packet, now, actions) == (Step { node: m, actions, done: true }),
{
}

/// What is carried on says what it said: only the hop count and the transport header change.
pub proof fn law_forwarding_keeps_the_message(p: PacketModel, transport: Option<AddressHash>)
    ensures
        forwarded(p, transport).payload == p.payload,
        forwarded(p, transport).destination == p.destination,
        forwarded(p, transport).packet_type == p.packet_type,
        forwarded(p, transport).context == p.context,
        p.hops < 255 ==> forwarded(p, transport).hops == p.hops + 1,
{
}

/// Two IVs derived for one link are hashes of different inputs as long as the counter has not
/// come round.
pub proof fn law_iv_inputs_never_repeat(secret: Seq<u8>, link_id: Seq<u8>, a: u32, b: u32)
    requires
        a != b,
    ensures
        iv_input(secret, link_id, a) != iv_input(secret, link_id, b),
{
    let x = iv_input(secret, link_id, a);
    let y = iv_input(secret, link_id, b);
    let n = x.len();
    assert(x.len() == y.len());
    if x == y {
        assert(x[n - 4] == y[n - 4]);
        assert(x[n - 3] == y[n - 3]);
        assert(x[n - 2] == y[n - 2]);
        assert(x[n - 1] == y[n - 1]);
        assert(a % 0x100 == b % 0x100);
        assert(a / 0x100 % 0x100 == b / 0x100 % 0x100);
        assert(a / 0x1_0000 % 0x100 == b / 0x1_0000 % 0x100);
        assert(a / 0x100_0000 == b / 0x100_0000);
        assert(false);
    }
}

} // verus!
