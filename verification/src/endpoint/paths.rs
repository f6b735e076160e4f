//! The path table: which interface reaches which destination.

use std::time::Duration;
use vstd::prelude::*;

use crate::endpoint::policy::InterfaceId;
use crate::hash::AddressHash;
use crate::packet::{HeaderType, Packet, PacketModel};
use crate::table::{
    age, elapsed, first_oldest, fresh_part, lemma_has_first_oldest, AddressTable, Stamped, Table,
    TableKey,
};
use crate::time::whole_millis;

verus! {

/// The most destinations a path table holds.
///
/// Routes are learned from announces and their time is refreshed by re-announces, so the
/// entry with the oldest `learned` is exactly the peer that has gone quietest, and the one
/// whose route is least likely to still be true. Evicting it costs a path request if that
/// peer comes back; keeping it costs a route we would have had to a peer that is still
/// talking. Expired entries go first, so a table full of the dead never evicts the living.
pub const PATH_TABLE_CAPACITY: usize = 4096;

/// A learned route to a destination.
#[derive(Clone, Copy, Debug)]
pub struct PathEntry {
    /// The interface the destination is reached over.
    pub iface: InterfaceId,
    /// The transport node this destination is reached through. Per destination, because an
    /// interface can reach many destinations through different nodes: one radio hearing A
    /// via X and B via Y is the ordinary case, not an exotic one.
    pub transport: Option<AddressHash>,
    /// How many hops away the destination is.
    pub hops: u8,
    /// When this route was last (re)learned from an announce.
    pub learned: u64,
}

impl Stamped for PathEntry {
    open spec fn stamped_at(self) -> u64 {
        self.learned
    }

    fn stamp(&self) -> (at: u64) {
        self.learned
    }
}

/// A current learned route captured at one caller-supplied instant.
#[derive(Clone, Copy, Debug)]
pub struct RouteFact {
    pub destination: AddressHash,
    pub interface: InterfaceId,
    pub transport: Option<AddressHash>,
    pub hops: u8,
    pub age: Duration,
}

/// Whether a fact states what a row of the table holds, aged at an instant.
pub open spec fn states(
    fact: RouteFact,
    destination: AddressHash,
    entry: PathEntry,
    captured_at: u64,
) -> bool {
    &&& fact.destination == destination
    &&& fact.interface == entry.iface
    &&& fact.transport == entry.transport
    &&& fact.hops == entry.hops
    &&& whole_millis(fact.age) == age(captured_at, entry.learned)
}

/// Whether two optional hashes are the same.
pub fn same_hash(a: &Option<AddressHash>, b: &Option<AddressHash>) -> (same: bool)
    ensures
        same == (*a == *b),
{
    match (a, b) {
        (Some(x), Some(y)) => *x == *y,
        (None, None) => true,
        _ => false,
    }
}

/// What learning a route changed.
#[derive(Clone, Copy, Debug, PartialEq, Eq, Structural)]
pub struct LearnedPath {
    /// Whether a live route had to leave.
    pub evicted: bool,
    /// Whether the destination's route is another than it was.
    pub changed: bool,
}

/// Learned routes: destination to the interface to reach it and its hop count.
pub struct PathTable {
    routes: AddressTable<PathEntry>,
    capacity: usize,
}

/// The rows that stay when a new destination is learned: all of them while there is room or
/// the destination is known, else those that have not expired.
pub open spec fn kept_routes(
    m: Map<AddressHash, PathEntry>,
    destination: AddressHash,
    capacity: nat,
    now: u64,
    ttl: u64,
) -> Map<AddressHash, PathEntry> {
    if m.dom().len() >= capacity && !m.contains_key(destination) {
        fresh_part(m, now, ttl)
    } else {
        m
    }
}

/// Whether a live route has to leave for a new destination.
pub open spec fn must_evict(
    m: Map<AddressHash, PathEntry>,
    destination: AddressHash,
    capacity: nat,
    now: u64,
    ttl: u64,
) -> bool {
    let kept = kept_routes(m, destination, capacity, now, ttl);
    !m.contains_key(destination) && kept.dom().len() >= capacity && kept.dom().len() > 0
}

/// The routes after one was learned: what has expired goes where there is no room, then the
/// quietest, and what was learned is the destination's route.
pub open spec fn after_learn(
    m: Map<AddressHash, PathEntry>,
    destination: AddressHash,
    next: PathEntry,
    capacity: nat,
    now: u64,
    ttl: u64,
) -> Map<AddressHash, PathEntry> {
    let kept = kept_routes(m, destination, capacity, now, ttl);
    (if must_evict(m, destination, capacity, now, ttl) {
        kept.remove(first_oldest(kept))
    } else {
        kept
    }).insert(destination, next)
}

impl PathTable {
    /// The routes.
    pub closed spec fn view(&self) -> Map<AddressHash, PathEntry> {
        self.routes.view()
    }

    /// The routes, in the order of their destinations.
    pub closed spec fn rows(&self) -> Seq<(AddressHash, PathEntry)> {
        self.routes.rows()
    }

    /// The most routes held.
    pub closed spec fn limit(&self) -> nat {
        self.capacity as nat
    }

    /// The invariant: no more routes than the table may hold. One without capacity still
    /// holds the route it last learned.
    pub closed spec fn inv(&self) -> bool {
        &&& self.routes.inv()
        &&& self.routes.rows().len() <= (if self.capacity == 0 {
            1
        } else {
            self.capacity
        })
    }

    /// A path table never holds more routes than it may.
    pub proof fn law_bounded(&self)
        requires
            self.inv(),
        ensures
            self.view().dom().finite(),
            self.view().dom().len() <= (if self.limit() == 0 {
                1
            } else {
                self.limit()
            }),
    {
        self.routes.lemma_size();
    }

    /// The rows are the routes, each once, smallest destination first.
    pub proof fn lemma_rows(&self)
        requires
            self.inv(),
        ensures
            forall|i: int|
                0 <= i < self.rows().len() ==> self.view().contains_key(
                    (#[trigger] self.rows()[i]).0,
                ) && self.view()[self.rows()[i].0] == self.rows()[i].1,
            forall|k: AddressHash| #[trigger]
                self.view().contains_key(k) ==> exists|i: int|
                    0 <= i < self.rows().len() && (#[trigger] self.rows()[i]).0 == k,
            forall|i: int, j: int|
                #![trigger self.rows()[i], self.rows()[j]]
                0 <= i < j < self.rows().len() ==> self.rows()[i].0.rank()
                    < self.rows()[j].0.rank(),
    {
        assert forall|i: int| 0 <= i < self.rows().len() implies self.view().contains_key(
            (#[trigger] self.rows()[i]).0,
        ) && self.view()[self.rows()[i].0] == self.rows()[i].1 by {
            self.routes.lemma_row(i);
        }
        assert forall|k: AddressHash| #[trigger] self.view().contains_key(k) implies exists|i: int|
            0 <= i < self.rows().len() && (#[trigger] self.rows()[i]).0 == k by {
            self.routes.lemma_entry(k);
            assert(self.rows()[self.routes.index_of(k)].0 == k);
        }
    }

    /// An empty table that holds at most `capacity` routes.
    pub fn with_capacity(capacity: usize) -> (table: Self)
        ensures
            table.inv(),
            table.view() == Map::<AddressHash, PathEntry>::empty(),
            table.limit() == capacity,
    {
        PathTable { routes: Table::new(), capacity }
    }

    /// How many routes are known.
    pub fn len(&self) -> (n: usize)
        requires
            self.inv(),
        ensures
            n == self.view().dom().len(),
    {
        self.routes.len()
    }

    /// Whether a route to `destination` is known, expired or not.
    pub fn contains_key(&self, destination: &AddressHash) -> (known: bool)
        requires
            self.inv(),
        ensures
            known == self.view().contains_key(*destination),
    {
        self.routes.contains_key(destination)
    }

    /// The route to `destination`, expired or not.
    pub fn get(&self, destination: &AddressHash) -> (entry: Option<PathEntry>)
        requires
            self.inv(),
        ensures
            entry == (if self.view().contains_key(*destination) {
                Some(self.view()[*destination])
            } else {
                None
            }),
    {
        match self.routes.get(destination) {
            Some(entry) => Some(*entry),
            None => None,
        }
    }

    /// Record that `destination` is reachable as `next` says.
    ///
    /// Freshness admission has already established that this is a newer announce. Its route
    /// is therefore the incumbent, irrespective of whether its hop count is better, equal, or
    /// worse than a formerly live route.
    pub fn learn(&mut self, destination: AddressHash, next: PathEntry, now: u64, ttl: u64) -> (outcome:
        LearnedPath)
        requires
            old(self).inv(),
        ensures
            final(self).inv(),
            final(self).limit() == old(self).limit(),
            outcome.evicted == must_evict(
                old(self).view(),
                destination,
                old(self).limit(),
                now,
                ttl,
            ),
            outcome.changed == !(old(self).view().contains_key(destination) && old(
                self,
            ).view()[destination] == next),
            final(self).view() == after_learn(
                old(self).view(),
                destination,
                next,
                old(self).limit(),
                now,
                ttl,
            ),
    {
        let mut evicted: bool = false;
        let mut changed: bool = true;
        let ghost before = self.view();
        proof {
            self.routes.lemma_size();
        }
        match self.routes.get(&destination) {
            Some(current) => {
                changed = current.iface != next.iface || !same_hash(
                    &current.transport,
                    &next.transport,
                ) || current.hops != next.hops || current.learned != next.learned;
            },
            None => {
                if self.routes.len() >= self.capacity {
                    // The dead first: a table full of expired routes must never evict a live
                    // one.
                    self.routes.drop_aged(now, ttl);
                    proof {
                        self.routes.lemma_size();
                    }
                    // Still full means every route is live, so the quietest peer loses. Its
                    // `learned` is oldest precisely because it has stopped re-announcing.
                    if self.routes.len() >= self.capacity {
                        let quietest = self.routes.remove_oldest();
                        evicted = quietest.is_some();
                    }
                }
            },
        }
        self.routes.insert(destination, next);
        LearnedPath { evicted, changed }
    }

    /// The route to `destination` if it has not expired. An expired route is dropped, so a
    /// stale path never lingers past a lookup; the flag says whether that happened.
    pub fn lookup(&mut self, destination: AddressHash, now: u64, ttl: u64) -> (found: (
        Option<PathEntry>,
        bool,
    ))
        requires
            old(self).inv(),
        ensures
            final(self).inv(),
            final(self).limit() == old(self).limit(),
            ({
                let known = old(self).view().contains_key(destination);
                let live = known && age(now, old(self).view()[destination].learned) < ttl;
                &&& found.0 == (if live {
                    Some(old(self).view()[destination])
                } else {
                    None
                })
                &&& found.1 == (known && !live)
                &&& final(self).view() == (if known && !live {
                    old(self).view().remove(destination)
                } else {
                    old(self).view()
                })
            }),
    {
        match self.routes.get(&destination) {
            Some(entry) => {
                let entry = *entry;
                if elapsed(now, entry.learned) < ttl {
                    (Some(entry), false)
                } else {
                    let _ = self.routes.remove(&destination);
                    (None, true)
                }
            },
            None => (None, false),
        }
    }

    /// Current routes over the given interfaces, in the order of their destinations, aged
    /// against one instant, and how many were left out because they had expired. Observation
    /// never drops state.
    pub fn facts(&self, interfaces: &Vec<InterfaceId>, captured_at: u64, ttl: u64) -> (facts: (
        Vec<RouteFact>,
        u64,
    ))
        requires
            self.inv(),
        ensures
            facts.0@.len() == current_rows(
                self.rows(),
                interfaces@,
                captured_at,
                ttl,
            ).len(),
            forall|i: int|
                0 <= i < facts.0@.len() ==> states(
                    #[trigger] facts.0@[i],
                    current_rows(self.rows(), interfaces@, captured_at, ttl)[i].0,
                    current_rows(self.rows(), interfaces@, captured_at, ttl)[i].1,
                    captured_at,
                ),
            facts.1 as nat == expired_rows(self.rows(), interfaces@, captured_at, ttl),
    {
        let mut facts: Vec<RouteFact> = Vec::new();
        let mut expired: u64 = 0;
        let mut i: usize = 0;
        assert(self.rows().subrange(0, 0) =~= Seq::<(AddressHash, PathEntry)>::empty());
        while i < self.routes.len()
            invariant
                self.inv(),
                i <= self.rows().len(),
                self.rows().len() == self.routes.rows().len(),
                expired <= i,
                facts@.len() == current_rows(
                    self.rows().subrange(0, i as int),
                    interfaces@,
                    captured_at,
                    ttl,
                ).len(),
                forall|j: int|
                    0 <= j < facts@.len() ==> states(
                        #[trigger] facts@[j],
                        current_rows(
                            self.rows().subrange(0, i as int),
                            interfaces@,
                            captured_at,
                            ttl,
                        )[j].0,
                        current_rows(
                            self.rows().subrange(0, i as int),
                            interfaces@,
                            captured_at,
                            ttl,
                        )[j].1,
                        captured_at,
                    ),
                expired as nat == expired_rows(
                    self.rows().subrange(0, i as int),
                    interfaces@,
                    captured_at,
                    ttl,
                ),
            decreases self.rows().len() - i,
        {
            let destination = self.routes.key_at(i);
            let entry = *self.routes.value_at(i);
            proof {
                let next = self.rows().subrange(0, i + 1);
                assert(next.drop_last() =~= self.rows().subrange(0, i as int));
                assert(next.last() == self.rows()[i as int]);
                assert(next.last() == (destination, entry));
            }
            if listed(interfaces, entry.iface) {
                let gone: u64 = elapsed(captured_at, entry.learned);
                if gone >= ttl {
                    expired = expired + 1;
                } else {
                    facts.push(
                        RouteFact {
                            destination,
                            interface: entry.iface,
                            transport: entry.transport,
                            hops: entry.hops,
                            age: Duration::from_millis(gone),
                        },
                    );
                }
            }
            i += 1;
        }
        assert(self.rows().subrange(0, i as int) =~= self.rows());
        (facts, expired)
    }
}

/// Whether an interface is in a list.
pub fn listed(interfaces: &Vec<InterfaceId>, iface: InterfaceId) -> (found: bool)
    ensures
        found == interfaces@.contains(iface),
{
    let mut i: usize = 0;
    while i < interfaces.len()
        invariant
            i <= interfaces@.len(),
            forall|j: int| 0 <= j < i ==> interfaces@[j] != iface,
        decreases interfaces@.len() - i,
    {
        if interfaces[i] == iface {
            assert(interfaces@[i as int] == iface);
            return true;
        }
        i += 1;
    }
    false
}

/// The rows over the given interfaces that have not expired at an instant.
pub open spec fn current_rows(
    rows: Seq<(AddressHash, PathEntry)>,
    interfaces: Seq<InterfaceId>,
    at: u64,
    ttl: u64,
) -> Seq<(AddressHash, PathEntry)>
    decreases rows.len(),
{
    if rows.len() == 0 {
        rows
    } else {
        let rest = current_rows(rows.drop_last(), interfaces, at, ttl);
        let (_, entry) = rows.last();
        if interfaces.contains(entry.iface) && age(at, entry.learned) < ttl {
            rest.push(rows.last())
        } else {
            rest
        }
    }
}

/// How many rows over the given interfaces have expired at an instant.
pub open spec fn expired_rows(
    rows: Seq<(AddressHash, PathEntry)>,
    interfaces: Seq<InterfaceId>,
    at: u64,
    ttl: u64,
) -> nat
    decreases rows.len(),
{
    if rows.len() == 0 {
        0
    } else {
        let (_, entry) = rows.last();
        expired_rows(rows.drop_last(), interfaces, at, ttl) + (if interfaces.contains(entry.iface)
            && age(at, entry.learned) >= ttl {
            1nat
        } else {
            0
        })
    }
}

/// A packet as it is sent toward its destination: where the destination is reached through a
/// transport node, the header names that node.
pub open spec fn addressed(packet: PacketModel, routes: Map<AddressHash, PathEntry>) -> PacketModel {
    if routes.contains_key(packet.destination) && routes[packet.destination].transport is Some {
        PacketModel {
            header_type: HeaderType::Type2,
            transport: routes[packet.destination].transport,
            ..packet
        }
    } else {
        packet
    }
}

impl PathTable {
    /// Wrap a packet for the transport node its destination is reached through, if there is
    /// one, so the node forwards it.
    pub fn address(&self, packet: Packet) -> (sent: Packet)
        requires
            self.inv(),
        ensures
            sent@ == addressed(packet@, self.view()),
    {
        let mut packet = packet;
        match self.routes.get(&packet.destination) {
            Some(entry) => {
                let via = entry.transport;
                if via.is_some() {
                    packet.header_type = HeaderType::Type2;
                    packet.transport = via;
                }
            },
            None => {},
        }
        packet
    }
}

/// Two destinations behind one interface keep their own transport nodes: learning a route to
/// one does not change how packets to the other are addressed.
pub proof fn law_transports_are_per_destination(
    before: Map<AddressHash, PathEntry>,
    learned: AddressHash,
    next: PathEntry,
    packet: PacketModel,
)
    requires
        packet.destination != learned,
    ensures
        addressed(packet, before.insert(learned, next)) == addressed(packet, before),
{
}

/// Once freshness admits an announce, its route is the current one, whatever it replaces,
/// and a destination that is known displaces no other.
pub proof fn law_latest_route_wins(
    before: Map<AddressHash, PathEntry>,
    destination: AddressHash,
    next: PathEntry,
    capacity: nat,
    now: u64,
    ttl: u64,
)
    ensures
        after_learn(before, destination, next, capacity, now, ttl).contains_key(destination),
        after_learn(before, destination, next, capacity, now, ttl)[destination] == next,
        before.contains_key(destination) ==> after_learn(
            before,
            destination,
            next,
            capacity,
            now,
            ttl,
        ) == before.insert(destination, next),
{
}

/// A live route that leaves for want of room was learned no later than every other live one:
/// it is the peer that has gone quietest.
pub proof fn law_quietest_route_leaves(
    before: Map<AddressHash, PathEntry>,
    destination: AddressHash,
    next: PathEntry,
    capacity: nat,
    now: u64,
    ttl: u64,
    gone: AddressHash,
    other: AddressHash,
)
    requires
        before.dom().finite(),
        before.contains_key(gone),
        age(now, before[gone].learned) < ttl,
        !after_learn(before, destination, next, capacity, now, ttl).contains_key(gone),
        before.contains_key(other),
        age(now, before[other].learned) < ttl,
    ensures
        before[gone].learned <= before[other].learned,
{
    let kept = kept_routes(before, destination, capacity, now, ttl);
    assert(kept.contains_key(gone));
    assert(kept.contains_key(other));
    assert(gone == first_oldest(kept));
    vstd::set_lib::lemma_set_subset_finite(before.dom(), kept.dom());
    lemma_has_first_oldest(kept);
}

} // verus!
