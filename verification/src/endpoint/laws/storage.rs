//! What the bounded tables of an endpoint keep and let go.

use vstd::prelude::*;

use crate::endpoint::memory::{
    in_window, proof_room, without, Bridge, BudgetModel, CachedProofModel, HeldModel,
};
use crate::endpoint::paths::{
    addressed, after_learn, current_rows, expired_rows, must_evict, states, PathEntry,
    RouteFact,
};
use crate::endpoint::policy::InterfaceId;
use crate::hash::AddressHash;
use crate::packet::{HeaderType, PacketModel};
use crate::table::{age, fresh_part, lemma_has_first_oldest};
use crate::time::whole_millis;

verus! {

/// Learning a route keeps the others while there is room. Where there is none, routes that have
/// expired go first; only where all are live does one live route leave, which is counted.
pub proof fn law_learning_keeps_live_routes_while_there_is_room(
    routes: Map<AddressHash, PathEntry>,
    destination: AddressHash,
    next: PathEntry,
    capacity: nat,
    now: u64,
    ttl: u64,
    other: AddressHash,
)
    requires
        routes.dom().finite(),
        routes.contains_key(other),
        other != destination,
    ensures
        ({
            let after = after_learn(routes, destination, next, capacity, now, ttl);
            let evicts = must_evict(routes, destination, capacity, now, ttl);
            &&& routes.contains_key(destination) || routes.dom().len() < capacity
                ==> after.contains_key(other) && after[other] == routes[other] && !evicts
            &&& age(now, routes[other].learned) < ttl && !evicts ==> after.contains_key(other)
                && after[other] == routes[other]
            &&& after.contains_key(other) ==> after[other] == routes[other]
            &&& !routes.contains_key(destination) && routes.dom().len() >= capacity && age(
                now,
                routes[other].learned,
            ) >= ttl ==> !after.contains_key(other)
            &&& evicts ==> !routes.contains_key(destination) && routes.dom().len() >= capacity
        }),
{
}

/// The table of routes does not outgrow its capacity, and a live route leaves only where the
/// live ones alone fill it.
pub proof fn law_routes_are_bounded(
    routes: Map<AddressHash, PathEntry>,
    destination: AddressHash,
    next: PathEntry,
    capacity: nat,
    now: u64,
    ttl: u64,
)
    requires
        routes.dom().finite(),
        routes.dom().len() <= capacity,
        capacity > 0,
    ensures
        after_learn(routes, destination, next, capacity, now, ttl).dom().len() <= capacity,
        must_evict(routes, destination, capacity, now, ttl) <==> !routes.contains_key(destination)
            && routes.dom().len() >= capacity && fresh_part(routes, now, ttl).dom().len()
            >= capacity,
{
    let fresh = fresh_part(routes, now, ttl);
    vstd::set_lib::lemma_set_subset_finite(routes.dom(), fresh.dom());
    vstd::set_lib::lemma_len_subset(fresh.dom(), routes.dom());
    let after = after_learn(routes, destination, next, capacity, now, ttl);
    if routes.contains_key(destination) {
        assert(after.dom() =~= routes.dom());
    } else if must_evict(routes, destination, capacity, now, ttl) {
        lemma_has_first_oldest(fresh);
    }
}

/// What is fresh in a table is what was touched within the lifetime, as it was.
pub proof fn law_fresh_part_is_by_age(
    routes: Map<AddressHash, PathEntry>,
    proofs: Map<AddressHash, CachedProofModel>,
    bridges: Map<AddressHash, Bridge>,
    now: u64,
    ttl: u64,
    k: AddressHash,
)
    ensures
        fresh_part(routes, now, ttl).contains_key(k) <==> routes.contains_key(k) && age(
            now,
            routes[k].learned,
        ) < ttl,
        fresh_part(routes, now, ttl).contains_key(k) ==> fresh_part(routes, now, ttl)[k]
            == routes[k],
        fresh_part(proofs, now, ttl).contains_key(k) <==> proofs.contains_key(k) && age(
            now,
            proofs[k].at,
        ) < ttl,
        fresh_part(proofs, now, ttl).contains_key(k) ==> fresh_part(proofs, now, ttl)[k]
            == proofs[k],
        fresh_part(bridges, now, ttl).contains_key(k) <==> bridges.contains_key(k) && age(
            now,
            bridges[k].seen,
        ) < ttl,
        fresh_part(bridges, now, ttl).contains_key(k) ==> fresh_part(bridges, now, ttl)[k]
            == bridges[k],
{
}

/// A packet goes by way of the transport node its destination is reached through, and as it is
/// to one that is reached directly or not known; only the header says so.
pub proof fn law_packet_names_the_next_hop(
    packet: PacketModel,
    routes: Map<AddressHash, PathEntry>,
)
    ensures
        ({
            let sent = addressed(packet, routes);
            let d = packet.destination;
            &&& routes.contains_key(d) && routes[d].transport is Some ==> sent.header_type
                == HeaderType::Type2 && sent.transport == routes[d].transport
            &&& !routes.contains_key(d) || routes[d].transport is None ==> sent == packet
            &&& sent.destination == packet.destination
            &&& sent.payload == packet.payload
            &&& sent.hops == packet.hops
            &&& sent.context == packet.context
            &&& sent.packet_type == packet.packet_type
            &&& sent.destination_type == packet.destination_type
            &&& sent.context_flag == packet.context_flag
            &&& sent.propagation == packet.propagation
            &&& sent.ifac == packet.ifac
        }),
{
}

/// Routes are observed as long as they are current and their interface is there, in their
/// order; those that have expired are counted instead.
pub proof fn law_observed_routes_are_current(
    rows: Seq<(AddressHash, PathEntry)>,
    interfaces: Seq<InterfaceId>,
    at: u64,
    ttl: u64,
)
    ensures
        current_rows(rows, interfaces, at, ttl) == rows.filter(
            |r: (AddressHash, PathEntry)| interfaces.contains(r.1.iface) && age(at, r.1.learned)
                < ttl,
        ),
        expired_rows(rows, interfaces, at, ttl) == rows.filter(
            |r: (AddressHash, PathEntry)| interfaces.contains(r.1.iface) && age(at, r.1.learned)
                >= ttl,
        ).len(),
    decreases rows.len(),
{
    reveal(Seq::filter);
    if rows.len() > 0 {
        law_observed_routes_are_current(rows.drop_last(), interfaces, at, ttl);
    }
}

/// Where the stamps of path requests are in the order they were made, those in the window are
/// those younger than the interval.
pub proof fn law_window_is_what_is_young(stamps: Seq<u64>, now: u64, interval: u64)
    requires
        forall|i: int, j: int| 0 <= i < j < stamps.len() ==> stamps[i] <= stamps[j],
    ensures
        in_window(stamps, now, interval) == stamps.filter(|s: u64| age(now, s) < interval),
    decreases stamps.len(),
{
    reveal(Seq::filter);
    let young = |s: u64| age(now, s) < interval;
    if stamps.len() > 0 {
        let rest = stamps.subrange(1, stamps.len() as int);
        if age(now, stamps[0]) >= interval {
            law_window_is_what_is_young(rest, now, interval);
            assert(stamps =~= seq![stamps[0]] + rest);
            Seq::filter_distributes_over_add(seq![stamps[0]], rest, young);
            assert(seq![stamps[0]].drop_last() =~= Seq::<u64>::empty());
            assert(!young(seq![stamps[0]].last()));
            reveal_with_fuel(Seq::filter, 2);
            assert(seq![stamps[0]].filter(young) =~= Seq::empty());
            assert(Seq::<u64>::empty() + rest.filter(young) =~= rest.filter(young));
        } else {
            lemma_all_young(stamps, now, interval);
        }
    }
}

/// Where the first is young, all are.
proof fn lemma_all_young(stamps: Seq<u64>, now: u64, interval: u64)
    requires
        forall|i: int| 0 <= i < stamps.len() ==> age(now, #[trigger] stamps[i]) < interval,
    ensures
        stamps.filter(|s: u64| age(now, s) < interval) == stamps,
    decreases stamps.len(),
{
    reveal(Seq::filter);
    if stamps.len() > 0 {
        let front = stamps.drop_last();
        assert forall|i: int| 0 <= i < front.len() implies age(now, #[trigger] front[i])
            < interval by {
            assert(stamps[i] == front[i]);
        }
        lemma_all_young(front, now, interval);
        assert(age(now, stamps[stamps.len() - 1]) < interval);
        assert(front.push(stamps.last()) =~= stamps);
    }
}

/// A path request goes out exactly if its destination was not asked for within the interval and
/// fewer than the most went out in the window. One that goes out is remembered under its
/// destination and in the window; of other destinations, those asked for lately stay.
pub proof fn law_path_request_goes_out_within_the_budget(
    budget: BudgetModel,
    destination: AddressHash,
    now: u64,
    other: AddressHash,
)
    ensures
        ({
            let window = in_window(budget.stamps, now, budget.min_interval);
            let lately = budget.asked.contains_key(destination) && age(
                now,
                budget.asked[destination].at,
            ) < budget.min_interval;
            let goes = !lately && window.len() < budget.window_max;
            let after = budget.after(destination, now);
            &&& budget.admits(destination, now) <==> goes
            &&& goes ==> after.asked.contains_key(destination) && after.asked[destination].at
                == now && after.stamps == window.push(now)
            &&& !goes ==> after.asked == budget.asked
            &&& lately ==> after.stamps == budget.stamps
            &&& other != destination && budget.asked.contains_key(other) && age(
                now,
                budget.asked[other].at,
            ) < budget.min_interval ==> after.asked.contains_key(other) && after.asked[other]
                == budget.asked[other]
            &&& other != destination && after.asked.contains_key(other)
                ==> budget.asked.contains_key(other) && after.asked[other] == budget.asked[other]
            &&& after.min_interval == budget.min_interval
            &&& after.window_max == budget.window_max
            &&& after.table_max == budget.table_max
        }),
{
}

/// Keeping a proof keeps the others while there is room for it; else those past their time go,
/// and the oldest where that is not enough. What stays is as it was.
pub proof fn law_proofs_stay_while_there_is_room(
    proofs: Map<AddressHash, CachedProofModel>,
    now: u64,
    k: AddressHash,
)
    requires
        proofs.dom().finite(),
        proofs.contains_key(k),
    ensures
        ({
            let after = proof_room(proofs, now);
            &&& proofs.dom().len() < 1_024 ==> after == proofs
            &&& after.contains_key(k) ==> after[k] == proofs[k]
            &&& proofs.dom().len() >= 1_024 && age(now, proofs[k].at) >= 30_000
                ==> !after.contains_key(k)
            &&& !after.contains_key(k) && age(now, proofs[k].at) < 30_000 ==> forall|o: AddressHash|
                #[trigger] after.contains_key(o) ==> proofs[k].at <= proofs[o].at
        }),
{
    let fresh = fresh_part(proofs, now, 30_000);
    vstd::set_lib::lemma_set_subset_finite(proofs.dom(), fresh.dom());
    if fresh.dom().len() >= 1_024 {
        lemma_has_first_oldest(fresh);
    }
}

/// A packet of a bridged link leaves on the other side from where it came.
pub proof fn law_bridge_has_two_sides(bridge: Bridge)
    ensures
        bridge.other_side(bridge.from) == bridge.out,
        bridge.from != bridge.out ==> bridge.other_side(bridge.out) == bridge.from,
{
}

/// What was held of an interface leaves with it, and nothing else does.
pub proof fn law_held_announces_leave_with_their_interface(
    queue: Seq<HeldModel>,
    interface: InterfaceId,
)
    ensures
        without(queue, interface) == queue.filter(|h: HeldModel| h.interface != interface),
    decreases queue.len(),
{
    reveal(Seq::filter);
    if queue.len() > 0 {
        law_held_announces_leave_with_their_interface(queue.drop_last(), interface);
    }
}

/// A route is observed as it stands: its destination, interface, next hop and hops, and the
/// time since it was learned.
pub proof fn law_route_fact_states_its_route(
    fact: RouteFact,
    destination: AddressHash,
    entry: PathEntry,
    captured_at: u64,
)
    requires
        states(fact, destination, entry, captured_at),
    ensures
        fact.destination == destination,
        fact.interface == entry.iface,
        fact.transport == entry.transport,
        fact.hops == entry.hops,
        entry.learned <= captured_at ==> whole_millis(fact.age) + entry.learned == captured_at,
        captured_at < entry.learned ==> whole_millis(fact.age) == 0,
{
}

} // verus!
