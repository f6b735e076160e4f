//! What a node does with packets it carries for others, and with announces.

use vstd::prelude::*;

use crate::address_book::Ingested;
use crate::announce::{announce_error, announced, AnnounceBlob};
use crate::announce_freshness::{
    AnnounceFreshnessCandidate, AnnounceFreshnessConfig, AnnounceFreshnessDecision,
    AnnounceFreshnessReject,
};
use crate::hash::AddressHash;
use crate::node::actions::{ActionModel, ActionsModel, InterfaceId};
use crate::node::laws::lemma_fresh_again;
use crate::node::laws::links::{lemma_nothing_wanted, lemma_one_more, wants};
use crate::node::policy::{FreshnessPolicy, TransportCounters};
use crate::node::state::{LinkBridge, NodeModel, ReadingModel, Route, SeenPacket};
use crate::packet::{HeaderType, PacketModel, PacketType};
use crate::recent::{
    index_of, law_aging_is_by_time, law_latest_comes_last,
    law_latest_is_found, lemma_first_aged, lemma_index_is, lemma_index_of, lemma_without_aged, still_fresh, without_aged,
    Filed,
};
use crate::table::{age, Stamped};

verus! {

/// Whether a packet hash was relayed within the minute.
pub open spec fn relayed_lately(node: NodeModel, hash: AddressHash, now: u64) -> bool {
    exists|i: int|
        0 <= i < node.seen_transit.len() && (#[trigger] node.seen_transit[i]).hash == hash && age(
            now,
            node.seen_transit[i].seen,
        ) < 60_000
}

/// The first bridge for a link.
pub open spec fn bridge_at(bridges: Seq<LinkBridge>, id: AddressHash, i: int) -> bool {
    &&& 0 <= i < bridges.len()
    &&& bridges[i].link_id == id
    &&& forall|j: int| 0 <= j < i ==> (#[trigger] bridges[j]).link_id != id
}

/// Whether no bridge is for a link.
pub open spec fn no_bridge(bridges: Seq<LinkBridge>, id: AddressHash) -> bool {
    forall|j: int| 0 <= j < bridges.len() ==> (#[trigger] bridges[j]).link_id != id
}

/// The first route to a destination.
pub open spec fn route_at(routes: Seq<Route>, destination: AddressHash, i: int) -> bool {
    &&& 0 <= i < routes.len()
    &&& routes[i].destination == destination
    &&& forall|j: int| 0 <= j < i ==> (#[trigger] routes[j]).destination != destination
}

/// A packet one hop further, to a transport node if one is given, and the same in all else.
pub open spec fn one_hop_on(packet: PacketModel, next: Option<AddressHash>) -> PacketModel {
    PacketModel {
        hops: (packet.hops + 1) as u8,
        header_type: if next is Some {
            HeaderType::Type2
        } else {
            HeaderType::Type1
        },
        transport: next,
        ifac: packet.ifac,
        context_flag: packet.context_flag,
        propagation: packet.propagation,
        destination_type: packet.destination_type,
        packet_type: packet.packet_type,
        destination: packet.destination,
        context: packet.context,
        payload: packet.payload,
    }
}

/// A count one up, or where it can count no further.
pub open spec fn up(n: u16) -> u16 {
    if n < 0xffff {
        (n + 1) as u16
    } else {
        n
    }
}

/// What time alone takes: the routes and the carried links that have lived as long as the
/// policy lets them, which are counted, and what was relayed a minute ago. Nothing else
/// changes.
pub proof fn law_transport_expires_by_time(node: NodeModel, now: u64)
    requires
        node.counters.expired_routes + node.routes.len() <= 0xffff,
        node.counters.expired_bridges + node.bridges.len() <= 0xffff,
    ensures
        ({
            let after = node.transport_expired(now);
            let ttl = node.transport.route_ttl;
            let bridge_ttl = node.transport.bridge_ttl;
            &&& after.routes.to_multiset() == node.routes.filter(
                |r: Route| age(now, r.learned) < ttl,
            ).to_multiset()
            &&& after.bridges.to_multiset() == node.bridges.filter(
                |b: LinkBridge| age(now, b.seen) < bridge_ttl,
            ).to_multiset()
            &&& after.seen_transit == node.seen_transit.filter(
                |p: SeenPacket| age(now, p.seen) < 60_000,
            )
            &&& after.counters.expired_routes == node.counters.expired_routes + node.routes.len()
                - after.routes.len()
            &&& after.counters.expired_bridges == node.counters.expired_bridges
                + node.bridges.len() - after.bridges.len()
            &&& after == (NodeModel {
                routes: after.routes,
                bridges: after.bridges,
                seen_transit: after.seen_transit,
                counters: TransportCounters {
                    expired_routes: after.counters.expired_routes,
                    expired_bridges: after.counters.expired_bridges,
                    ..node.counters
                },
                ..node
            })
        }),
{
    let ttl = node.transport.route_ttl;
    let bridge_ttl = node.transport.bridge_ttl;
    law_aging_is_by_time(node.routes, now, ttl);
    law_aging_is_by_time(node.bridges, now, bridge_ttl);
    lemma_without_aged(node.routes, now, ttl);
    lemma_without_aged(node.bridges, now, bridge_ttl);
    lemma_same_filters(node, now);
    lemma_seen_filter(node.seen_transit, now);
}

/// A list of what was seen, as a filter over its stamps.
proof fn lemma_seen_filter(s: Seq<SeenPacket>, now: u64)
    ensures
        still_fresh(s, now, 60_000) == s.filter(|p: SeenPacket| age(now, p.seen) < 60_000),
    decreases s.len(),
{
    reveal(Seq::filter);
    if s.len() > 0 {
        lemma_seen_filter(s.drop_last(), now);
    }
}

/// A stamp is the time of learning, or of the last use.
proof fn lemma_same_filters(node: NodeModel, now: u64)
    ensures
        node.routes.filter(
            |entry: Route| age(now, Stamped::stamped_at(entry)) < node.transport.route_ttl,
        ) == node.routes.filter(|r: Route| age(now, r.learned) < node.transport.route_ttl),
        node.bridges.filter(
            |entry: LinkBridge| age(now, Stamped::stamped_at(entry))
                < node.transport.bridge_ttl,
        ) == node.bridges.filter(|b: LinkBridge| age(now, b.seen) < node.transport.bridge_ttl),
{
    let ttl = node.transport.route_ttl;
    let bridge_ttl = node.transport.bridge_ttl;
    assert((|entry: Route| age(now, Stamped::stamped_at(entry)) < ttl) =~= (|r: Route|
        age(now, r.learned) < ttl));
    assert((|entry: LinkBridge|
        age(now, Stamped::stamped_at(entry)) < bridge_ttl) =~= (|b: LinkBridge|
        age(now, b.seen) < bridge_ttl));
}

/// What is new is what was not relayed lately, and it counts as relayed from now on.
proof fn lemma_news(node: NodeModel, now: u64, hash: AddressHash)
    requires
        node.seen_transit.len() <= node.max_routes,
        node.max_routes > 0,
    ensures
        ({
            let fresh = node.transport_expired(now);
            &&& fresh.is_new(hash, now) <==> !relayed_lately(node, hash, now)
            &&& !fresh.is_new(hash, now) ==> fresh.with_seen(hash, now) == fresh
            &&& fresh.is_new(hash, now) ==> {
                let after = fresh.with_seen(hash, now);
                &&& after.seen_transit.last() == (SeenPacket { hash, seen: now })
                &&& after.seen_transit.len() > 0
                &&& after == (NodeModel { seen_transit: after.seen_transit, ..fresh })
            }
        }),
{
    let fresh = node.transport_expired(now);
    let s = node.seen_transit;
    let kept = still_fresh(s, now, 60_000);
    lemma_fresh_again(s, now, 60_000);
    lemma_seen_filter(s, now);
    let young = |p: SeenPacket| age(now, p.seen) < 60_000;
    s.lemma_filter_len(young);
    lemma_index_of(kept, hash);
    if relayed_lately(node, hash, now) {
        let i = choose|i: int|
            0 <= i < s.len() && (#[trigger] s[i]).hash == hash && age(now, s[i].seen) < 60_000;
        s.filter_lemma(young);
        assert(young(s[i]));
        assert(kept.contains(s[i]));
        let j = choose|j: int| 0 <= j < kept.len() && kept[j] == s[i];
        assert(kept[j].filed_under() == hash);
    } else if index_of(kept, hash) is Some {
        let j = index_of(kept, hash)->0;
        s.filter_lemma(young);
        assert(s.filter(young).contains(kept[j]));
        s.lemma_filter_contains_rev(young, kept[j]);
        assert(young(s.filter(young)[j]));
        let i = choose|i: int| 0 <= i < s.len() && s[i] == kept[j];
        assert(s[i].hash == hash);
    }
    law_latest_comes_last(kept, SeenPacket { hash, seen: now }, node.max_routes);
}

/// What stands under a key is found.
proof fn lemma_bridge_found(node: NodeModel, id: AddressHash)
    ensures
        forall|i: int|
            bridge_at(node.bridges, id, i) ==> #[trigger] index_of(node.bridges, id) == Some(i),
        no_bridge(node.bridges, id) <==> index_of(node.bridges, id) is None,
        forall|i: int|
            route_at(node.routes, id, i) ==> #[trigger] index_of(node.routes, id) == Some(i),
        (forall|j: int| 0 <= j < node.routes.len() ==> (#[trigger] node.routes[j]).destination != id)
            <==> index_of(node.routes, id) is None,
{
    lemma_index_of(node.bridges, id);
    lemma_index_of(node.routes, id);
    assert forall|i: int| bridge_at(node.bridges, id, i) implies #[trigger] index_of(
        node.bridges,
        id,
    ) == Some(i) by {
        assert forall|j: int| 0 <= j < i implies (#[trigger] node.bridges[j]).filed_under()
            != id by {
            assert(node.bridges[j].link_id != id);
        }
        lemma_index_is(node.bridges, id, i);
    }
    assert forall|i: int| route_at(node.routes, id, i) implies #[trigger] index_of(node.routes, id)
        == Some(i) by {
        assert forall|j: int| 0 <= j < i implies (#[trigger] node.routes[j]).filed_under() != id by {
            assert(node.routes[j].destination != id);
        }
        lemma_index_is(node.routes, id, i);
    }
    if index_of(node.bridges, id) is None {
        assert forall|j: int| 0 <= j < node.bridges.len() implies (
        #[trigger] node.bridges[j]).link_id != id by {
            assert(node.bridges[j].filed_under() != id);
        }
    }
    if index_of(node.routes, id) is None {
        assert forall|j: int| 0 <= j < node.routes.len() implies (
        #[trigger] node.routes[j]).destination != id by {
            assert(node.routes[j].filed_under() != id);
        }
    }
}

/// A packet of a carried link crosses to the other side: one that came in where the link
/// entered goes out where it left, and the other way round, one hop further and otherwise the
/// same. It is the last thing relayed, the link was used now, and nothing else changes but the
/// count.
pub proof fn law_carried_link_crosses(
    node: NodeModel,
    interface: InterfaceId,
    packet: PacketModel,
    now: u64,
    reading: ReadingModel,
    max: nat,
    i: int,
    hash: AddressHash,
)
    requires
        packet.packet_type != PacketType::Announce,
        node.transport.relay_packets,
        hash@ == packet.address(),
        packet.hops < node.transport.max_hops,
        bridge_at(node.transport_expired(now).bridges, packet.destination, i),
        node.transport_expired(now).bridges[i].from == interface || node.transport_expired(
            now,
        ).bridges[i].out == interface,
        !relayed_lately(node, hash, now),
        node.seen_transit.len() <= node.max_routes,
        node.max_routes > 0,
        max > 0,
    ensures
        ({
            let fresh = node.transport_expired(now);
            let step = node.ingested(interface, packet, now, reading, max);
            let after = step.node;
            let bridge = fresh.bridges[i];
            let other = if bridge.from == interface {
                bridge.out
            } else {
                bridge.from
            };
            &&& wants(
                step.actions,
                seq![ActionModel::Send { interface: other, packet: one_hop_on(packet, None) }],
                max,
            )
            &&& after.seen_transit.last() == (SeenPacket { hash, seen: now })
            &&& after == (NodeModel {
                seen_transit: after.seen_transit,
                bridges: fresh.bridges.update(
                    i,
                    LinkBridge {
                        link_id: bridge.link_id,
                        from: bridge.from,
                        out: bridge.out,
                        seen: now,
                    },
                ),
                counters: TransportCounters {
                    forwarded_packets: up(fresh.counters.forwarded_packets),
                    ..fresh.counters
                },
                ..fresh
            })
        }),
{
    let fresh = node.transport_expired(now);
    lemma_bridge_found(fresh, packet.destination);
    AddressHash::lemma_with(hash);
    lemma_news(node, now, hash);
    let step = node.ingested(interface, packet, now, reading, max);
    assert(step.actions.items =~= seq![step.actions.items[0]]);
}

/// A packet that names this node as its hop goes by the route: out the route's interface, for
/// the route's next hop, one hop further and otherwise the same. A link request leaves a bridge
/// behind between where it came from and where it went.
pub proof fn law_transit_packet_goes_by_the_route(
    node: NodeModel,
    interface: InterfaceId,
    packet: PacketModel,
    now: u64,
    reading: ReadingModel,
    max: nat,
    i: int,
    hash: AddressHash,
)
    requires
        packet.packet_type != PacketType::Announce,
        node.transport.relay_packets,
        packet.header_type == HeaderType::Type2,
        packet.transport == Some(node.own_hash()),
        packet.destination != node.destination(),
        hash@ == packet.address(),
        packet.hops < node.transport.max_hops,
        no_bridge(node.transport_expired(now).bridges, packet.destination),
        route_at(node.transport_expired(now).routes, packet.destination, i),
        !relayed_lately(node, hash, now),
        node.seen_transit.len() <= node.max_routes,
        node.bridges.len() <= node.max_routes,
        node.max_routes > 0,
        max > 0,
    ensures
        ({
            let fresh = node.transport_expired(now);
            let step = node.ingested(interface, packet, now, reading, max);
            let after = step.node;
            let route = fresh.routes[i];
            &&& wants(
                step.actions,
                seq![
                    ActionModel::Send {
                        interface: route.interface,
                        packet: one_hop_on(packet, route.transport),
                    },
                ],
                max,
            )
            &&& after.seen_transit.last() == (SeenPacket { hash, seen: now })
            &&& after.counters.forwarded_packets == up(fresh.counters.forwarded_packets)
            &&& packet.packet_type == PacketType::LinkRequest && reading.link_id is Some ==> {
                let id = reading.link_id->0;
                exists|b: int|
                    bridge_at(after.bridges, id, b) && #[trigger] after.bridges[b] == (LinkBridge {
                        link_id: id,
                        from: interface,
                        out: route.interface,
                        seen: now,
                    })
            }
            &&& packet.packet_type != PacketType::LinkRequest || reading.link_id is None
                ==> after.bridges == fresh.bridges && after.counters.evicted_bridges
                == fresh.counters.evicted_bridges
            &&& after == (NodeModel {
                seen_transit: after.seen_transit,
                bridges: after.bridges,
                counters: TransportCounters {
                    forwarded_packets: after.counters.forwarded_packets,
                    evicted_bridges: after.counters.evicted_bridges,
                    ..fresh.counters
                },
                ..fresh
            })
        }),
{
    let fresh = node.transport_expired(now);
    lemma_bridge_found(fresh, packet.destination);
    AddressHash::lemma_with(hash);
    lemma_news(node, now, hash);
    lemma_without_aged(node.bridges, now, node.transport.bridge_ttl);
    let step = node.ingested(interface, packet, now, reading, max);
    assert(step.actions.items =~= seq![step.actions.items[0]]);
    if let Some(id) = reading.link_id {
        let bridge = LinkBridge {
            link_id: id,
            from: interface,
            out: fresh.routes[i].interface,
            seen: now,
        };
        law_latest_is_found(fresh.bridges, bridge, node.max_routes);
        if packet.packet_type == PacketType::LinkRequest {
            let after = step.node.bridges;
            lemma_index_of(after, id);
            let b = index_of(after, id)->0;
            assert forall|j: int| 0 <= j < b implies (#[trigger] after[j]).link_id != id by {
                assert(after[j].filed_under() != id);
            }
            assert(bridge_at(after, id, b) && after[b] == bridge);
        }
    }
}

/// What is not carried on: a packet at the hop ceiling is counted and dropped, one for a
/// destination without a route likewise, and one that was relayed lately goes nowhere.
pub proof fn law_transit_packet_is_stopped(
    node: NodeModel,
    interface: InterfaceId,
    packet: PacketModel,
    now: u64,
    reading: ReadingModel,
    max: nat,
    i: int,
    hash: AddressHash,
)
    requires
        packet.packet_type != PacketType::Announce,
        node.transport.relay_packets,
        hash@ == packet.address(),
        bridge_at(node.transport_expired(now).bridges, packet.destination, i) || (no_bridge(
            node.transport_expired(now).bridges,
            packet.destination,
        ) && packet.header_type == HeaderType::Type2 && packet.transport == Some(node.own_hash())
            && packet.destination != node.destination()),
        node.seen_transit.len() <= node.max_routes,
        node.max_routes > 0,
    ensures
        ({
            let fresh = node.transport_expired(now);
            let step = node.ingested(interface, packet, now, reading, max);
            let bridged = bridge_at(fresh.bridges, packet.destination, i);
            let routed = exists|r: int| route_at(fresh.routes, packet.destination, r);
            let at_ceiling = packet.hops >= node.transport.max_hops;
            &&& at_ceiling ==> step.actions == ActionsModel::none(max) && step.node == (NodeModel {
                counters: TransportCounters {
                    hop_limit_dropped: up(fresh.counters.hop_limit_dropped),
                    ..fresh.counters
                },
                ..fresh
            })
            &&& !at_ceiling && !bridged && !routed ==> step.actions == ActionsModel::none(max)
                && step.node == (NodeModel {
                counters: TransportCounters {
                    unroutable_packets: up(fresh.counters.unroutable_packets),
                    ..fresh.counters
                },
                ..fresh
            })
            &&& !at_ceiling && (bridged || routed) && relayed_lately(node, hash, now)
                ==> step.actions == ActionsModel::none(max) && step.node == fresh
        }),
{
    let fresh = node.transport_expired(now);
    lemma_bridge_found(fresh, packet.destination);
    AddressHash::lemma_with(hash);
    lemma_news(node, now, hash);
    lemma_index_of(fresh.routes, packet.destination);
    if let Some(r) = index_of(fresh.routes, packet.destination) {
        assert forall|j: int| 0 <= j < r implies (#[trigger] fresh.routes[j]).destination
            != packet.destination by {
            assert(fresh.routes[j].filed_under() != packet.destination);
        }
        assert(route_at(fresh.routes, packet.destination, r));
    }
}

/// Whether an announce is to be admitted: it checks out, freshness accepts it, and there is a
/// place for its peer.
pub open spec fn is_admitted(node: NodeModel, packet: PacketModel, now: u64) -> bool {
    &&& announce_error(packet) is None
    &&& node.freshness.decision(asked_of(packet), now, node.transport.route_ttl) is Accept
    &&& node.book.verdict(packet.destination) != Ingested::Refused
}

/// What freshness is asked of an announce: its destination, its random blob and the hops it
/// took.
pub open spec fn asked_of(packet: PacketModel) -> AnnounceFreshnessCandidate {
    AnnounceFreshnessCandidate {
        destination: packet.destination,
        blob: AnnounceBlob::of(announced(packet).rand_hash),
        hops: packet.hops,
    }
}

/// An admitted announce is on record and its peer in the book. The shell is told of it first.
/// A node that relays announces then sends it on, on the interface it was heard on, with itself
/// as the transport hop, unless it is its own, at the hop ceiling or was relayed lately.
pub proof fn law_admitted_announce_is_relayed(
    node: NodeModel,
    interface: InterfaceId,
    packet: PacketModel,
    now: u64,
    reading: ReadingModel,
    max: nat,
    hash: AddressHash,
)
    requires
        packet.packet_type == PacketType::Announce,
        is_admitted(node, packet, now),
        hash@ == packet.address(),
        node.seen_transit.len() <= node.max_routes,
        node.max_routes > 0,
    ensures
        ({
            let fresh = node.transport_expired(now);
            let step = node.ingested(interface, packet, now, reading, max);
            let after = step.node;
            let others = node.transport.relay_announces && packet.destination
                != node.destination();
            let relays = others && packet.hops < node.transport.max_hops && !relayed_lately(
                node,
                hash,
                now,
            );
            let learned = ActionModel::Learned { destination: packet.destination };
            let all = if relays {
                seq![
                    learned,
                    ActionModel::Send {
                        interface,
                        packet: one_hop_on(packet, Some(node.own_hash())),
                    },
                ]
            } else {
                seq![learned]
            };
            &&& wants(step.actions, all, max)
            &&& relays ==> after.seen_transit.last() == (SeenPacket { hash, seen: now })
            &&& !relays ==> after.seen_transit == fresh.seen_transit
            &&& relays && max >= 2 ==> after.counters.forwarded_announces == up(
                fresh.counters.forwarded_announces,
            )
            &&& !relays ==> after.counters.forwarded_announces
                == fresh.counters.forwarded_announces
            &&& others && packet.hops >= node.transport.max_hops
                ==> after.counters.hop_limit_dropped == up(fresh.counters.hop_limit_dropped)
            &&& after.book == node.book.after_ingest(packet.destination, announced(packet))
            &&& after.freshness == node.freshness.after_record(asked_of(packet), now)
            &&& after.bridges == fresh.bridges
            &&& after.links == node.links
            &&& after.pending == node.pending
            &&& after.receivers == node.receivers
            &&& after.senders == node.senders
            &&& after.last_announce == node.last_announce
            &&& after.refused_peers == node.refused_peers
        }),
{
    let fresh = node.transport_expired(now);
    AddressHash::lemma_with(hash);
    lemma_news(node, now, hash);
    let candidate = asked_of(packet);
    assert(candidate == NodeModel::candidate(packet));
    let booked = NodeModel {
        book: fresh.book.after_ingest(packet.destination, announced(packet)),
        ..fresh
    };
    let m = booked.recording(candidate, now);
    let routed = if m.transport.relay_announces || m.transport.relay_packets {
        m.with_route(
            Route {
                destination: packet.destination,
                interface,
                transport: packet.transport,
                hops: packet.hops,
                learned: now,
            },
        )
    } else {
        m
    };
    assert(routed.seen_transit == fresh.seen_transit);
    assert(routed.max_routes == fresh.max_routes);
    assert(routed.is_new(hash, now) == fresh.is_new(hash, now));
    let step = node.ingested(interface, packet, now, reading, max);
    let learned = ActionModel::Learned { destination: packet.destination };
    let none = ActionsModel::none(max);
    let told = none.with(learned);
    assert(step == routed.relaying(interface, packet, now, told));
    lemma_nothing_wanted(max);
    lemma_one_more(none, Seq::empty(), max, learned);
    assert(Seq::empty().push(learned) =~= seq![learned]);
    assert(packet.hops < node.transport.max_hops ==> packet.hops < 255);
    let onward = ActionModel::Send {
        interface,
        packet: one_hop_on(packet, Some(node.own_hash())),
    };
    lemma_one_more(told, seq![learned], max, onward);
    assert(seq![learned].push(onward) =~= seq![learned, onward]);
}

/// An admitted announce is the route to its destination from then on, in a node that carries
/// anything: by the interface it was heard on and the transport node it came from, with the
/// hops it took. A node that carries nothing learns no route, and none learns one to itself.
pub proof fn law_admitted_announce_is_the_route(
    node: NodeModel,
    interface: InterfaceId,
    packet: PacketModel,
    now: u64,
    reading: ReadingModel,
    max: nat,
)
    requires
        packet.packet_type == PacketType::Announce,
        is_admitted(node, packet, now),
        node.routes.len() <= node.max_routes,
        node.max_routes > 0,
    ensures
        ({
            let fresh = node.transport_expired(now);
            let after = node.ingested(interface, packet, now, reading, max).node;
            let carries = node.transport.relay_announces || node.transport.relay_packets;
            &&& carries && packet.destination != node.destination() ==> exists|i: int|
                route_at(after.routes, packet.destination, i) && #[trigger] after.routes[i] == (
                Route {
                    destination: packet.destination,
                    interface,
                    transport: packet.transport,
                    hops: packet.hops,
                    learned: now,
                })
            &&& !carries || packet.destination == node.destination() ==> after.routes
                == fresh.routes
        }),
{
    let fresh = node.transport_expired(now);
    let candidate = asked_of(packet);
    assert(candidate == NodeModel::candidate(packet));
    let route = Route {
        destination: packet.destination,
        interface,
        transport: packet.transport,
        hops: packet.hops,
        learned: now,
    };
    let booked = NodeModel {
        book: fresh.book.after_ingest(packet.destination, announced(packet)),
        ..fresh
    };
    let m = booked.recording(candidate, now);
    let carries = node.transport.relay_announces || node.transport.relay_packets;
    lemma_without_aged(node.routes, now, node.transport.route_ttl);
    lemma_without_aged(fresh.routes, now, node.transport.route_ttl);
    let after = node.ingested(interface, packet, now, reading, max).node;
    if carries && packet.destination != node.destination() {
        law_latest_is_found(m.routes_expired(now).routes, route, node.max_routes);
        assert(after.routes == m.with_route(route).routes);
        lemma_index_of(after.routes, packet.destination);
        let i = index_of(after.routes, packet.destination)->0;
        assert forall|j: int| 0 <= j < i implies (#[trigger] after.routes[j]).destination
            != packet.destination by {
            assert(after.routes[j].filed_under() != packet.destination);
        }
        assert(route_at(after.routes, packet.destination, i) && after.routes[i] == route);
    }
}

/// An announce that is not admitted teaches nothing: a replay and a stale one are counted as
/// such, one whose peer finds no place is counted as refused, and nothing is wanted.
pub proof fn law_unadmitted_announce_is_counted(
    node: NodeModel,
    interface: InterfaceId,
    packet: PacketModel,
    now: u64,
    reading: ReadingModel,
    max: nat,
)
    requires
        packet.packet_type == PacketType::Announce,
        !is_admitted(node, packet, now),
    ensures
        ({
            let fresh = node.transport_expired(now);
            let step = node.ingested(interface, packet, now, reading, max);
            let after = step.node;
            let verdict = node.freshness.decision(
                asked_of(packet),
                now,
                node.transport.route_ttl,
            );
            let replay = AnnounceFreshnessDecision::Reject(AnnounceFreshnessReject::Replay);
            let stale = AnnounceFreshnessDecision::Reject(AnnounceFreshnessReject::StaleTimebase);
            &&& step.actions == ActionsModel::none(max)
            &&& announce_error(packet) is Some ==> after == fresh
            &&& announce_error(packet) is None && verdict == replay ==> after == (NodeModel {
                counters: TransportCounters {
                    replayed_announces: up(fresh.counters.replayed_announces),
                    ..fresh.counters
                },
                ..fresh
            })
            &&& announce_error(packet) is None && verdict == stale ==> after == (NodeModel {
                counters: TransportCounters {
                    stale_announces: up(fresh.counters.stale_announces),
                    ..fresh.counters
                },
                ..fresh
            })
            &&& announce_error(packet) is None && verdict is Accept ==> after == (NodeModel {
                refused_peers: up(fresh.refused_peers),
                book: node.book.after_ingest(packet.destination, announced(packet)),
                ..fresh
            })
        }),
{
    assert(asked_of(packet) == NodeModel::candidate(packet));
}

/// A count with more added, or where it can count no further.
pub open spec fn plus(n: u16, more: int) -> u16 {
    if n + more < 0xffff {
        (n + more) as u16
    } else {
        0xffff
    }
}

/// What an admitted announce costs is counted: what aged out of the freshness table or left it
/// for want of room, and the route that made room for the announce's, if one did. No other
/// count changes but those of relaying.
pub proof fn law_admission_is_accounted_for(
    node: NodeModel,
    interface: InterfaceId,
    packet: PacketModel,
    now: u64,
    reading: ReadingModel,
    max: nat,
)
    requires
        packet.packet_type == PacketType::Announce,
        is_admitted(node, packet, now),
    ensures
        ({
            let fresh = node.transport_expired(now);
            let before = fresh.counters;
            let after = node.ingested(interface, packet, now, reading, max).node.counters;
            let record = node.freshness.record_of(asked_of(packet), now);
            let carries = node.transport.relay_announces || node.transport.relay_packets;
            let known = exists|i: int| route_at(fresh.routes, packet.destination, i);
            let full = fresh.routes.len() >= node.max_routes && fresh.routes.len() > 0;
            let displaced = carries && packet.destination != node.destination() && !known && full;
            &&& after.expired_freshness_rows == plus(
                before.expired_freshness_rows,
                record.expired_destinations as int,
            )
            &&& after.expired_freshness_blobs == plus(
                before.expired_freshness_blobs,
                record.expired_blobs as int,
            )
            &&& after.evicted_freshness_rows == (if record.evicted_destination is Some {
                up(before.evicted_freshness_rows)
            } else {
                before.evicted_freshness_rows
            })
            &&& after.evicted_freshness_blobs == (if record.evicted_blob is Some {
                up(before.evicted_freshness_blobs)
            } else {
                before.evicted_freshness_blobs
            })
            &&& after.evicted_routes == (if displaced {
                up(before.evicted_routes)
            } else {
                before.evicted_routes
            })
            &&& after.expired_routes == before.expired_routes
            &&& after.expired_bridges == before.expired_bridges
            &&& after.evicted_bridges == before.evicted_bridges
            &&& after.forwarded_packets == before.forwarded_packets
            &&& after.unroutable_packets == before.unroutable_packets
            &&& after.replayed_announces == before.replayed_announces
            &&& after.stale_announces == before.stale_announces
        }),
{
    let fresh = node.transport_expired(now);
    assert(asked_of(packet) == NodeModel::candidate(packet));
    lemma_fresh_routes_stay(node, now);
    lemma_bridge_found(fresh, packet.destination);
    lemma_index_of(fresh.routes, packet.destination);
    if let Some(i) = index_of(fresh.routes, packet.destination) {
        assert forall|j: int| 0 <= j < i implies (#[trigger] fresh.routes[j]).destination
            != packet.destination by {
            assert(fresh.routes[j].filed_under() != packet.destination);
        }
        assert(route_at(fresh.routes, packet.destination, i));
    } else {
        assert forall|i: int| !route_at(fresh.routes, packet.destination, i) by {
            if 0 <= i < fresh.routes.len() {
                assert(fresh.routes[i].filed_under() != packet.destination);
            }
        }
    }
}

/// What is fresh does not expire again at the same time.
proof fn lemma_fresh_routes_stay(node: NodeModel, now: u64)
    ensures
        without_aged(node.transport_expired(now).routes, now, node.transport.route_ttl)
            == node.transport_expired(now).routes,
{
    let ttl = node.transport.route_ttl;
    let kept = without_aged(node.routes, now, ttl);
    lemma_without_aged(node.routes, now, ttl);
    lemma_first_aged(kept, now, ttl);
}

/// Changing the freshness bounds changes nothing but the freshness table, the policy, and the
/// counts of what aged out or had to go.
pub proof fn law_reconfiguring_is_counted(node: NodeModel, policy: FreshnessPolicy, now: u64)
    ensures
        ({
            let after = node.reconfigured(policy, now);
            let bounds = AnnounceFreshnessConfig {
                destination_capacity: policy.max_destinations,
                blob_capacity: policy.max_blobs_per_destination,
                retention_ticks: policy.retention,
            };
            let report = node.freshness.reconfigure_of(bounds, now);
            &&& after.freshness == node.freshness.after_reconfigure(bounds, now)
            &&& after.freshness_policy == policy
            &&& after.counters == (TransportCounters {
                expired_freshness_rows: plus(
                    node.counters.expired_freshness_rows,
                    report.expired_destinations as int,
                ),
                expired_freshness_blobs: plus(
                    node.counters.expired_freshness_blobs,
                    report.expired_blobs as int,
                ),
                evicted_freshness_rows: plus(
                    node.counters.evicted_freshness_rows,
                    report.evicted_destinations as int,
                ),
                evicted_freshness_blobs: plus(
                    node.counters.evicted_freshness_blobs,
                    report.evicted_blobs as int,
                ),
                ..node.counters
            })
            &&& after == (NodeModel {
                freshness: after.freshness,
                freshness_policy: after.freshness_policy,
                counters: after.counters,
                ..node
            })
        }),
{
}

} // verus!
