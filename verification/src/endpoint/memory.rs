//! What an endpoint remembers besides routes: path requests it made, announces it has seen,
//! links it bridges, proofs it gave, and announces it holds back.

use std::collections::VecDeque;
use vstd::prelude::*;

use crate::announce::{Announce, AnnounceModel};
use crate::endpoint::policy::InterfaceId;
use crate::hash::AddressHash;
use crate::packet::{Packet, PacketModel};
use crate::table::{
    age, elapsed, first_oldest, fresh_part, is_first_oldest, is_oldest, lemma_first_oldest,
    AddressTable, Stamped, Table, TableKey,
};

verus! {

/// The least time between path requests we will broadcast for the same destination, in
/// milliseconds.
///
/// A path request is a broadcast, and the things that provoke one are usually inbound: a
/// message from somebody we cannot identify, a retry from a peer that has gone stale. Without
/// a floor, a peer sending traffic we cannot verify would make us broadcast once per packet,
/// which on a shared band is a stranger deciding how much of it we use.
pub const PATH_REQUEST_MIN_INTERVAL: u64 = 20_000;

/// The most path requests that may be broadcast in any minimum interval, across all
/// destinations.
///
/// The per-destination floor alone is not a rate limit, because the peer that provokes a path
/// request also chooses the destination. This cap bounds the aggregate, and, because a
/// refused request records nothing, it also bounds how fast the budget table can be made to
/// grow.
pub const PATH_REQUEST_GLOBAL_MAX: usize = 8;

/// How many recent announce packet-hashes to remember for de-duplication.
pub const SEEN_ANNOUNCES: usize = 4096;

/// How long a bridged link's interface pair is remembered after its last packet, in
/// milliseconds. An hour is far longer than any live link goes quiet, and short enough that a
/// node carrying strangers' traffic all day does not accumulate the day.
pub const LINK_TRANSPORT_TTL: u64 = 3_600_000;

/// Recent accepted requests whose proof can be replayed idempotently when the initiator
/// retries after losing a proof.
pub const LINK_REQUEST_CACHE: usize = 1_024;

/// How long such a proof is kept, in milliseconds.
pub const LINK_REQUEST_CACHE_TTL: u64 = 30_000;

/// A moment.
#[derive(Clone, Copy, Debug, PartialEq, Eq, Structural)]
pub struct Moment {
    pub at: u64,
}

impl Stamped for Moment {
    open spec fn stamped_at(self) -> u64 {
        self.at
    }

    fn stamp(&self) -> (at: u64) {
        self.at
    }
}

// ---------------------------------------------------------------------------------------
// Path requests.
/// When path requests went out, per destination and in the current window.
pub struct PathRequestBudget {
    asked: AddressTable<Moment>,
    stamps: VecDeque<u64>,
    min_interval: u64,
    window_max: usize,
    table_max: usize,
}

/// The state of a path-request budget.
pub struct BudgetModel {
    pub asked: Map<AddressHash, Moment>,
    pub stamps: Seq<u64>,
    pub min_interval: u64,
    pub window_max: usize,
    pub table_max: usize,
}

/// The stamps left when those that have left the window go, oldest first.
pub open spec fn in_window(stamps: Seq<u64>, now: u64, interval: u64) -> Seq<u64>
    decreases stamps.len(),
{
    if stamps.len() > 0 && age(now, stamps[0]) >= interval {
        in_window(stamps.subrange(1, stamps.len() as int), now, interval)
    } else {
        stamps
    }
}

impl BudgetModel {
    /// Whether this destination was asked for too recently.
    pub open spec fn too_soon(self, destination: AddressHash, now: u64) -> bool {
        self.asked.contains_key(destination) && age(now, self.asked[destination].at)
            < self.min_interval
    }

    /// Whether a request may go out.
    pub open spec fn admits(self, destination: AddressHash, now: u64) -> bool {
        !self.too_soon(destination, now) && in_window(self.stamps, now, self.min_interval).len()
            < self.window_max
    }

    /// The budget after it was asked: a request that goes out is recorded in both places,
    /// one that does not in neither.
    pub open spec fn after(self, destination: AddressHash, now: u64) -> BudgetModel {
        let window = in_window(self.stamps, now, self.min_interval);
        if self.too_soon(destination, now) {
            self
        } else if window.len() >= self.window_max {
            BudgetModel { stamps: window, ..self }
        } else {
            BudgetModel {
                asked: (if self.asked.dom().len() > self.table_max {
                    fresh_part(self.asked, now, self.min_interval)
                } else {
                    self.asked
                }).insert(destination, Moment { at: now }),
                stamps: window.push(now),
                ..self
            }
        }
    }
}

impl View for PathRequestBudget {
    type V = BudgetModel;

    closed spec fn view(&self) -> BudgetModel {
        BudgetModel {
            asked: self.asked.view(),
            stamps: self.stamps@,
            min_interval: self.min_interval,
            window_max: self.window_max,
            table_max: self.table_max,
        }
    }
}

impl PathRequestBudget {
    /// The invariant: the window never holds more than its cap.
    pub closed spec fn inv(&self) -> bool {
        self.asked.inv() && self.stamps@.len() <= self.window_max
    }

    /// A window never holds more requests than its cap.
    pub proof fn law_window_is_bounded(&self)
        requires
            self.inv(),
        ensures
            self@.stamps.len() <= self@.window_max,
    {
    }

    /// Nothing asked yet.
    pub fn new(min_interval: u64, window_max: usize, table_max: usize) -> (budget: Self)
        ensures
            budget.inv(),
            budget@ == (BudgetModel {
                asked: Map::empty(),
                stamps: Seq::empty(),
                min_interval,
                window_max,
                table_max,
            }),
    {
        let budget = PathRequestBudget {
            asked: Table::new(),
            stamps: VecDeque::new(),
            min_interval,
            window_max,
            table_max,
        };
        assert(budget@.stamps =~= Seq::<u64>::empty());
        budget
    }

    /// How many destinations were asked for.
    pub fn asked_count(&self) -> (n: usize)
        requires
            self.inv(),
        ensures
            n == self@.asked.dom().len(),
    {
        self.asked.len()
    }

    /// Whether a path request for `destination` may go out now; records it if so.
    ///
    /// Both checks pass before either records anything, so a request refused by the window
    /// does not burn the destination's own budget, and a per-destination repeat does not
    /// spend a slot in the window.
    pub fn within_budget(&mut self, destination: AddressHash, now: u64) -> (goes_out: bool)
        requires
            old(self).inv(),
        ensures
            final(self).inv(),
            goes_out == old(self)@.admits(destination, now),
            final(self)@ == old(self)@.after(destination, now),
    {
        if let Some(last) = self.asked.get(&destination) {
            if elapsed(now, last.at) < self.min_interval {
                return false;
            }
        }
        let ghost start = self@;
        while self.stamps.len() > 0 && elapsed(now, self.stamps[0]) >= self.min_interval
            invariant
                self.inv(),
                self@ == (BudgetModel { stamps: self@.stamps, ..start }),
                in_window(self@.stamps, now, start.min_interval) == in_window(
                    start.stamps,
                    now,
                    start.min_interval,
                ),
            decreases self@.stamps.len(),
        {
            let ghost here = self@.stamps;
            let _ = self.stamps.pop_front();
            assert(self@.stamps =~= here.subrange(1, here.len() as int));
        }
        if self.stamps.len() >= self.window_max {
            return false;
        }
        if self.asked.len() > self.table_max {
            self.asked.drop_aged(now, self.min_interval);
        }
        self.asked.insert(destination, Moment { at: now });
        self.stamps.push_back(now);
        true
    }
}

/// A destination is asked for at most once per minimum interval: right after a request went
/// out, and until the interval is over, another is refused and recorded nowhere.
pub proof fn law_repeat_request_is_suppressed(
    budget: BudgetModel,
    destination: AddressHash,
    now: u64,
    again: u64,
)
    requires
        budget.admits(destination, now),
        age(again, now) < budget.min_interval,
    ensures
        !budget.after(destination, now).admits(destination, again),
        budget.after(destination, now).after(destination, again) == budget.after(
            destination,
            now,
        ),
{
}

/// A refused request does not use up the destination's own budget, and what was asked for
/// does not grow by it.
pub proof fn law_refusal_records_nothing(budget: BudgetModel, destination: AddressHash, now: u64)
    requires
        !budget.admits(destination, now),
    ensures
        budget.after(destination, now).asked == budget.asked,
        budget.after(destination, now).stamps.len() <= budget.stamps.len(),
{
    lemma_window_shrinks(budget.stamps, now, budget.min_interval);
}

/// Stamps only leave a window.
proof fn lemma_window_shrinks(stamps: Seq<u64>, now: u64, interval: u64)
    ensures
        in_window(stamps, now, interval).len() <= stamps.len(),
    decreases stamps.len(),
{
    if stamps.len() > 0 && age(now, stamps[0]) >= interval {
        lemma_window_shrinks(stamps.subrange(1, stamps.len() as int), now, interval);
    }
}

/// Once the window has passed, asking resumes: if every stamp is an interval old, a
/// destination that was not asked for lately is admitted.
pub proof fn law_fresh_window_admits(budget: BudgetModel, destination: AddressHash, now: u64)
    requires
        budget.window_max > 0,
        !budget.too_soon(destination, now),
        forall|i: int|
            0 <= i < budget.stamps.len() ==> age(now, #[trigger] budget.stamps[i])
                >= budget.min_interval,
    ensures
        budget.admits(destination, now),
    decreases budget.stamps.len(),
{
    if budget.stamps.len() > 0 {
        let rest = BudgetModel {
            stamps: budget.stamps.subrange(1, budget.stamps.len() as int),
            ..budget
        };
        assert forall|i: int| 0 <= i < rest.stamps.len() implies age(
            now,
            #[trigger] rest.stamps[i],
        ) >= rest.min_interval by {
            assert(rest.stamps[i] == budget.stamps[i + 1]);
        }
        law_fresh_window_admits(rest, destination, now);
    }
}

// ---------------------------------------------------------------------------------------
// Seen announces.
/// The packet hashes of the last announces relayed, oldest first.
pub struct SeenAnnounces {
    known: AddressTable<()>,
    order: VecDeque<AddressHash>,
    capacity: usize,
}

/// The hashes after one more was seen: at most `capacity`, the oldest leaving first.
pub open spec fn remembered(order: Seq<AddressHash>, hash: AddressHash, capacity: nat) -> Seq<
    AddressHash,
> {
    let longer = order.push(hash);
    if longer.len() > capacity {
        longer.subrange(1, longer.len() as int)
    } else {
        longer
    }
}

impl SeenAnnounces {
    /// The hashes remembered, oldest first.
    pub closed spec fn view(&self) -> Seq<AddressHash> {
        self.order@
    }

    /// How many are remembered at most.
    pub closed spec fn limit(&self) -> nat {
        self.capacity as nat
    }

    /// The invariant: at most as many hashes as may be, none twice, and the set of them is
    /// what is looked up.
    pub closed spec fn inv(&self) -> bool {
        &&& self.known.inv()
        &&& self.order@.len() <= self.capacity
        &&& self.order@.no_duplicates()
        &&& forall|h: AddressHash| #[trigger]
            self.known.view().contains_key(h) <==> self.order@.contains(h)
    }

    /// The memory is bounded and holds nothing twice.
    pub proof fn law_bounded(&self)
        requires
            self.inv(),
        ensures
            self.view().len() <= self.limit(),
            self.view().no_duplicates(),
    {
    }

    /// Nothing seen yet.
    pub fn new(capacity: usize) -> (seen: Self)
        ensures
            seen.inv(),
            seen.view() == Seq::<AddressHash>::empty(),
            seen.limit() == capacity,
    {
        let seen = SeenAnnounces { known: Table::new(), order: VecDeque::new(), capacity };
        assert(seen.view() =~= Seq::<AddressHash>::empty());
        seen
    }

    /// How many hashes are remembered.
    pub fn len(&self) -> (n: usize)
        ensures
            n == self.view().len(),
    {
        self.order.len()
    }

    /// Whether this announce (by packet hash) is new; records it if so.
    pub fn is_new(&mut self, hash: AddressHash) -> (new: bool)
        requires
            old(self).inv(),
        ensures
            final(self).inv(),
            final(self).limit() == old(self).limit(),
            new == !old(self).view().contains(hash),
            final(self).view() == (if new {
                remembered(old(self).view(), hash, old(self).limit())
            } else {
                old(self).view()
            }),
    {
        if self.known.contains_key(&hash) {
            return false;
        }
        let ghost before = self.view();
        self.known.insert(hash, ());
        self.order.push_back(hash);
        let ghost longer = before.push(hash);
        proof {
            assert(self.order@ =~= longer);
            assert forall|h: AddressHash| #[trigger]
                self.known.view().contains_key(h) <==> longer.contains(h) by {
                if before.contains(h) {
                    let i = choose|i: int| 0 <= i < before.len() && before[i] == h;
                    assert(longer[i] == h);
                }
                if h == hash {
                    assert(longer[before.len() as int] == h);
                }
                if longer.contains(h) && h != hash {
                    let i = choose|i: int| 0 <= i < longer.len() && longer[i] == h;
                    assert(before[i] == h);
                }
            }
            assert(longer.no_duplicates()) by {
                assert forall|i: int, j: int|
                    0 <= i < longer.len() && 0 <= j < longer.len() && i != j implies longer[i]
                    != longer[j] by {
                    if i == before.len() {
                        assert(before[j] == longer[j]);
                    } else if j == before.len() {
                        assert(before[i] == longer[i]);
                    }
                }
            }
        }
        if self.order.len() > self.capacity {
            if let Some(oldest) = self.order.pop_front() {
                let ghost shorter = longer.subrange(1, longer.len() as int);
                proof {
                    assert(self.order@ =~= shorter);
                    assert(oldest == longer[0]);
                }
                let _ = self.known.remove(&oldest);
                proof {
                    assert forall|h: AddressHash| #[trigger]
                        self.known.view().contains_key(h) <==> shorter.contains(h) by {
                        if longer.contains(h) && h != oldest {
                            let i = choose|i: int| 0 <= i < longer.len() && longer[i] == h;
                            assert(shorter[i - 1] == h);
                        }
                        if shorter.contains(h) {
                            let i = choose|i: int| 0 <= i < shorter.len() && shorter[i] == h;
                            assert(longer[i + 1] == h);
                        }
                    }
                    assert(shorter.no_duplicates()) by {
                        assert forall|i: int, j: int|
                            0 <= i < shorter.len() && 0 <= j < shorter.len() && i
                                != j implies shorter[i] != shorter[j] by {
                            assert(shorter[i] == longer[i + 1] && shorter[j] == longer[j + 1]);
                        }
                    }
                }
            }
        }
        true
    }
}

// ---------------------------------------------------------------------------------------
// Bridged links.
/// The two interfaces a forwarded link joins, and when it last carried a packet.
#[derive(Clone, Copy, Debug, PartialEq, Eq, Structural)]
pub struct Bridge {
    pub from: InterfaceId,
    pub out: InterfaceId,
    pub seen: u64,
}

impl Stamped for Bridge {
    open spec fn stamped_at(self) -> u64 {
        self.seen
    }

    fn stamp(&self) -> (at: u64) {
        self.seen
    }
}

impl Bridge {
    /// The side a packet leaves on that came in on `iface`.
    pub open spec fn other_side(self, iface: InterfaceId) -> InterfaceId {
        if iface == self.from {
            self.out
        } else {
            self.from
        }
    }
}

/// Links being forwarded through us: a link id maps to the two interfaces it bridges, so a
/// proof or link data arriving on one goes out the other.
pub struct LinkBridges {
    links: AddressTable<Bridge>,
}

impl LinkBridges {
    /// The bridges.
    pub closed spec fn view(&self) -> Map<AddressHash, Bridge> {
        self.links.view()
    }

    /// The invariant.
    pub closed spec fn inv(&self) -> bool {
        self.links.inv()
    }

    /// No bridge yet.
    pub fn new() -> (bridges: Self)
        ensures
            bridges.inv(),
            bridges.view() == Map::<AddressHash, Bridge>::empty(),
    {
        LinkBridges { links: Table::new() }
    }

    /// The bridge a packet for `destination` crosses. Traffic on a bridge is proof it is
    /// still wanted, so a busy link keeps its entry and only a silent one ages out.
    pub fn cross(&mut self, destination: AddressHash, now: u64) -> (bridge: Option<Bridge>)
        requires
            old(self).inv(),
        ensures
            final(self).inv(),
            ({
                let live = old(self).view().contains_key(destination) && age(
                    now,
                    old(self).view()[destination].seen,
                ) < LINK_TRANSPORT_TTL;
                if live {
                    let crossed = Bridge { seen: now, ..old(self).view()[destination] };
                    bridge == Some(crossed) && final(self).view() == old(self).view().insert(
                        destination,
                        crossed,
                    )
                } else {
                    bridge is None && final(self).view() == old(self).view()
                }
            }),
    {
        let crossed = match self.links.get(&destination) {
            Some(bridge) => {
                if elapsed(now, bridge.seen) >= LINK_TRANSPORT_TTL {
                    return None;
                }
                Bridge { from: bridge.from, out: bridge.out, seen: now }
            },
            None => {
                return None;
            },
        };
        self.links.insert(destination, crossed);
        Some(crossed)
    }

    /// Record the interfaces a link joins. What has been silent too long goes first, so the
    /// map tracks the links being carried and not every link ever carried.
    pub fn record(&mut self, link_id: AddressHash, from: InterfaceId, out: InterfaceId, now: u64)
        requires
            old(self).inv(),
        ensures
            final(self).inv(),
            final(self).view() == fresh_part(old(self).view(), now, LINK_TRANSPORT_TTL).insert(
                link_id,
                Bridge { from, out, seen: now },
            ),
    {
        self.links.drop_aged(now, LINK_TRANSPORT_TTL);
        self.links.insert(link_id, Bridge { from, out, seen: now });
    }
}

// ---------------------------------------------------------------------------------------
// Proofs given.
/// A proof that was sent, and when.
#[derive(Debug)]
pub struct CachedProof {
    pub proof_packet: Packet,
    pub at: u64,
}

/// A [`CachedProof`] with its packet as a model.
pub struct CachedProofModel {
    pub proof_packet: PacketModel,
    pub at: u64,
}

impl View for CachedProof {
    type V = CachedProofModel;

    open spec fn view(&self) -> CachedProofModel {
        CachedProofModel { proof_packet: self.proof_packet@, at: self.at }
    }
}

impl Stamped for CachedProof {
    open spec fn stamped_at(self) -> u64 {
        self.at
    }

    fn stamp(&self) -> (at: u64) {
        self.at
    }
}

impl Stamped for CachedProofModel {
    open spec fn stamped_at(self) -> u64 {
        self.at
    }

    fn stamp(&self) -> (at: u64) {
        self.at
    }
}

/// Proofs for recently accepted link requests, keyed by link id. Replaying the same proof
/// avoids creating a second stream when only the first proof was lost.
pub struct ProofCache {
    proofs: AddressTable<CachedProof>,
}

/// The entries of a proof table, as models.
spec fn proof_models(proofs: Map<AddressHash, CachedProof>) -> Map<AddressHash, CachedProofModel> {
    proofs.map_values(|p: CachedProof| p@)
}

/// A proof cache with room for one more proof: all of it while there is room, else what is
/// fresh of it, and less its oldest where that is still too much.
pub open spec fn proof_room(m: Map<AddressHash, CachedProofModel>, now: u64) -> Map<
    AddressHash,
    CachedProofModel,
> {
    let fresh = fresh_part(m, now, LINK_REQUEST_CACHE_TTL);
    if m.dom().len() < LINK_REQUEST_CACHE {
        m
    } else if fresh.dom().len() < LINK_REQUEST_CACHE {
        fresh
    } else {
        fresh.remove(first_oldest(fresh))
    }
}

impl ProofCache {
    /// The proofs.
    pub closed spec fn view(&self) -> Map<AddressHash, CachedProofModel> {
        proof_models(self.proofs.view())
    }

    /// The invariant: no more proofs than may be kept.
    pub closed spec fn inv(&self) -> bool {
        self.proofs.inv() && self.proofs.rows().len() <= LINK_REQUEST_CACHE
    }

    /// The cache is bounded.
    pub proof fn law_bounded(&self)
        requires
            self.inv(),
        ensures
            self.view().dom().finite(),
            self.view().dom().len() <= LINK_REQUEST_CACHE,
    {
        self.proofs.lemma_size();
        assert(self.view().dom() =~= self.proofs.view().dom());
    }

    /// No proof given yet.
    pub fn new() -> (cache: Self)
        ensures
            cache.inv(),
            cache.view() == Map::<AddressHash, CachedProofModel>::empty(),
    {
        let cache = ProofCache { proofs: Table::new() };
        assert(cache.view() =~= Map::<AddressHash, CachedProofModel>::empty());
        cache
    }

    /// The proof given for a request, if it was given lately. Older proofs are dropped.
    pub fn recall(&mut self, link_id: AddressHash, now: u64) -> (given: Option<Packet>)
        requires
            old(self).inv(),
        ensures
            final(self).inv(),
            final(self).view() == fresh_part(old(self).view(), now, LINK_REQUEST_CACHE_TTL),
            given is Some <==> final(self).view().contains_key(link_id),
            given matches Some(p) ==> p@ == final(self).view()[link_id].proof_packet,
    {
        let ghost before = self.proofs.view();
        self.proofs.drop_aged(now, LINK_REQUEST_CACHE_TTL);
        assert(self.view() =~= fresh_part(proof_models(before), now, LINK_REQUEST_CACHE_TTL));
        match self.proofs.get(&link_id) {
            Some(cached) => Some(cached.proof_packet.clone()),
            None => None,
        }
    }

    /// Keep a proof that was given.
    pub fn keep(&mut self, link_id: AddressHash, proof_packet: &Packet, now: u64)
        requires
            old(self).inv(),
        ensures
            final(self).inv(),
            final(self).view() == proof_room(old(self).view(), now).insert(
                link_id,
                CachedProofModel { proof_packet: proof_packet@, at: now },
            ),
    {
        let ghost start = self.proofs.view();
        let ghost models = self.view();
        proof {
            self.proofs.lemma_size();
            assert(models.dom() =~= start.dom());
        }
        if self.proofs.len() >= LINK_REQUEST_CACHE {
            self.proofs.drop_aged(now, LINK_REQUEST_CACHE_TTL);
        }
        let ghost fresh = self.proofs.view();
        proof {
            self.proofs.lemma_size();
            if start.dom().len() >= LINK_REQUEST_CACHE {
                assert(proof_models(fresh) =~= fresh_part(models, now, LINK_REQUEST_CACHE_TTL));
                assert(proof_models(fresh).dom() =~= fresh.dom());
            }
        }
        if self.proofs.len() >= LINK_REQUEST_CACHE {
            let oldest = self.proofs.remove_oldest();
            proof {
                let k = oldest->0;
                let fresh_models = proof_models(fresh);
                assert forall|other: AddressHash| #[trigger]
                    is_oldest(fresh_models, other) implies is_oldest(fresh, other) by {
                    assert forall|o: AddressHash| #[trigger] fresh.contains_key(
                        o,
                    ) implies fresh[other].stamped_at() <= fresh[o].stamped_at() by {
                        assert(fresh_models.contains_key(o));
                    }
                }
                assert(is_oldest(fresh_models, k)) by {
                    assert forall|o: AddressHash| #[trigger] fresh_models.contains_key(
                        o,
                    ) implies fresh_models[k].stamped_at() <= fresh_models[o].stamped_at() by {
                        assert(fresh.contains_key(o));
                    }
                }
                assert(is_first_oldest(fresh, first_oldest(fresh)));
                assert(is_first_oldest(fresh_models, k));
                lemma_first_oldest(fresh_models, k);
                assert(self.view() =~= fresh_models.remove(k));
            }
        }
        let ghost roomy = self.view();
        assert(roomy == proof_room(models, now));
        let ghost table = self.proofs.view();
        let cached = CachedProof { proof_packet: proof_packet.clone(), at: now };
        self.proofs.insert(link_id, cached);
        proof {
            assert(cached@ == (CachedProofModel { proof_packet: proof_packet@, at: now }));
            assert(self.view() =~= roomy.insert(link_id, cached@));
        }
    }
}

// ---------------------------------------------------------------------------------------
// Held announces.
/// A verified announce deferred by a noisy interface. It retains the ingress fact through
/// release so a later route cannot be accidentally attributed to a different bearer.
#[derive(Debug)]
pub struct HeldAnnounce {
    pub interface: InterfaceId,
    pub packet: Packet,
    pub announce: Announce,
}

/// A [`HeldAnnounce`] with its packet and announce as models.
pub struct HeldModel {
    pub interface: InterfaceId,
    pub destination: AddressHash,
    pub packet: PacketModel,
    pub announce: AnnounceModel,
}

impl View for HeldAnnounce {
    type V = HeldModel;

    open spec fn view(&self) -> HeldModel {
        HeldModel {
            interface: self.interface,
            destination: self.announce.destination,
            packet: self.packet@,
            announce: self.announce@,
        }
    }
}

/// Verified unknown-route announces held until their ingress burst has subsided, in the
/// order they came.
pub struct HeldAnnounces {
    queue: Vec<HeldAnnounce>,
}

/// Whether two held announces are for the same destination over the same interface.
pub open spec fn same_slot(a: HeldModel, b: HeldModel) -> bool {
    a.interface == b.interface && a.destination == b.destination
}

/// The first held announce in the slot of `held`, if there is one.
pub open spec fn slot_of(queue: Seq<HeldModel>, held: HeldModel) -> Option<int>
    decreases queue.len(),
{
    if queue.len() == 0 {
        None
    } else {
        match slot_of(queue.drop_last(), held) {
            Some(i) => Some(i),
            None => if same_slot(queue.last(), held) {
                Some(queue.len() - 1)
            } else {
                None
            },
        }
    }
}

/// The first held announce of an interface, if there is one.
pub open spec fn first_of(queue: Seq<HeldModel>, interface: InterfaceId) -> Option<int>
    decreases queue.len(),
{
    if queue.len() == 0 {
        None
    } else {
        match first_of(queue.drop_last(), interface) {
            Some(i) => Some(i),
            None => if queue.last().interface == interface {
                Some(queue.len() - 1)
            } else {
                None
            },
        }
    }
}

/// What stays when an interface leaves.
pub open spec fn without(queue: Seq<HeldModel>, interface: InterfaceId) -> Seq<HeldModel>
    decreases queue.len(),
{
    if queue.len() == 0 {
        queue
    } else {
        let rest = without(queue.drop_last(), interface);
        if queue.last().interface != interface {
            rest.push(queue.last())
        } else {
            rest
        }
    }
}

/// Whether an announce can be held: there is room, or it replaces an older copy.
pub open spec fn can_hold(queue: Seq<HeldModel>, held: HeldModel, capacity: nat) -> bool {
    slot_of(queue, held) is Some || queue.len() < capacity
}

/// The queue after an announce was offered: a newer copy takes the older one's place.
pub open spec fn after_hold(queue: Seq<HeldModel>, held: HeldModel, capacity: nat) -> Seq<
    HeldModel,
> {
    match slot_of(queue, held) {
        Some(i) => queue.update(i, held),
        None => if queue.len() < capacity {
            queue.push(held)
        } else {
            queue
        },
    }
}

impl HeldAnnounces {
    /// The announces held, oldest first.
    pub closed spec fn view(&self) -> Seq<HeldModel> {
        Seq::new(self.queue@.len(), |i: int| self.queue@[i]@)
    }

    /// Nothing held.
    pub fn new() -> (held: Self)
        ensures
            held.view() == Seq::<HeldModel>::empty(),
    {
        let held = HeldAnnounces { queue: Vec::new() };
        assert(held.view() =~= Seq::<HeldModel>::empty());
        held
    }

    /// How many announces are held.
    pub fn len(&self) -> (n: usize)
        ensures
            n == self.view().len(),
    {
        self.queue.len()
    }

    /// Hold an announce back, if there is room or it replaces an older copy.
    pub fn hold(&mut self, held: HeldAnnounce, capacity: usize) -> (kept: bool)
        ensures
            kept == can_hold(old(self).view(), held@, capacity as nat),
            final(self).view() == after_hold(old(self).view(), held@, capacity as nat),
    {
        let ghost before = self.view();
        let mut i: usize = 0;
        assert(before.subrange(0, 0) =~= Seq::<HeldModel>::empty());
        while i < self.queue.len()
            invariant
                i <= self.queue@.len(),
                self.view() == before,
                before == old(self).view(),
                before.len() == self.queue@.len(),
                slot_of(before.subrange(0, i as int), held@) is None,
            decreases self.queue@.len() - i,
        {
            proof {
                let next = before.subrange(0, i + 1);
                assert(next.drop_last() =~= before.subrange(0, i as int));
                assert(next.last() == before[i as int]);
                assert(before[i as int] == self.queue@[i as int]@);
            }
            if self.queue[i].interface == held.interface && self.queue[i].announce.destination
                == held.announce.destination {
                proof {
                    lemma_slot_stays(before, i + 1, held@);
                }
                self.queue.set(i, held);
                assert(self.view() =~= before.update(i as int, held@));
                return true;
            }
            i += 1;
        }
        assert(before.subrange(0, i as int) =~= before);
        if self.queue.len() >= capacity {
            return false;
        }
        self.queue.push(held);
        assert(self.view() =~= before.push(held@));
        true
    }

    /// Whether an interface has announces held.
    pub fn has(&self, interface: InterfaceId) -> (found: bool)
        ensures
            found == (first_of(self.view(), interface) is Some),
    {
        self.find(interface).is_some()
    }

    /// Where an interface's first held announce stands.
    fn find(&self, interface: InterfaceId) -> (at: Option<usize>)
        ensures
            match at {
                Some(i) => first_of(self.view(), interface) == Some(i as int) && i
                    < self.view().len(),
                None => first_of(self.view(), interface) is None,
            },
    {
        let mut i: usize = 0;
        assert(self.view().subrange(0, 0) =~= Seq::<HeldModel>::empty());
        while i < self.queue.len()
            invariant
                i <= self.queue@.len(),
                self.view().len() == self.queue@.len(),
                first_of(self.view().subrange(0, i as int), interface) is None,
            decreases self.queue@.len() - i,
        {
            proof {
                let next = self.view().subrange(0, i + 1);
                assert(next.drop_last() =~= self.view().subrange(0, i as int));
                assert(next.last() == self.view()[i as int]);
            }
            if self.queue[i].interface == interface {
                proof {
                    lemma_first_stays(self.view(), i + 1, interface);
                }
                return Some(i);
            }
            i += 1;
        }
        assert(self.view().subrange(0, i as int) =~= self.view());
        None
    }

    /// Take out an interface's first held announce.
    pub fn take(&mut self, interface: InterfaceId) -> (held: Option<HeldAnnounce>)
        ensures
            match first_of(old(self).view(), interface) {
                Some(i) => held matches Some(h) && 0 <= i < old(self).view().len() && h@ == old(
                    self,
                ).view()[i] && final(self).view() == old(self).view().remove(i),
                None => held is None && final(self).view() == old(self).view(),
            },
    {
        match self.find(interface) {
            Some(i) => {
                let ghost before = self.view();
                let held = self.queue.remove(i);
                assert(self.view() =~= before.remove(i as int));
                Some(held)
            },
            None => None,
        }
    }

    /// Drop what is held of an interface.
    pub fn forget(&mut self, interface: InterfaceId)
        ensures
            final(self).view() == without(old(self).view(), interface),
    {
        let ghost start = self.view();
        let ghost mut seen: int = 0;
        let mut i: usize = 0;
        assert(start.subrange(0, 0) =~= Seq::<HeldModel>::empty());
        assert(self.view() =~= without(start.subrange(0, 0), interface) + start.subrange(
            0,
            start.len() as int,
        ));
        while i < self.queue.len()
            invariant
                0 <= seen <= start.len(),
                i == without(start.subrange(0, seen), interface).len(),
                self.view() == without(start.subrange(0, seen), interface) + start.subrange(
                    seen,
                    start.len() as int,
                ),
                self.view().len() == self.queue@.len(),
            decreases start.len() - seen,
        {
            let ghost head = without(start.subrange(0, seen), interface);
            let ghost here = self.view();
            proof {
                assert(seen < start.len());
                let next = start.subrange(0, seen + 1);
                assert(next.drop_last() =~= start.subrange(0, seen));
                assert(next.last() == start[seen]);
                assert(here[i as int] == start[seen]);
                assert(self.queue@[i as int]@ == start[seen]);
            }
            if self.queue[i].interface != interface {
                i += 1;
                assert(here =~= head.push(start[seen]) + start.subrange(
                    seen + 1,
                    start.len() as int,
                ));
            } else {
                let _ = self.queue.remove(i);
                assert(self.view() =~= here.remove(i as int));
                assert(self.view() =~= head + start.subrange(seen + 1, start.len() as int));
            }
            proof {
                seen = seen + 1;
            }
        }
        assert(start.subrange(0, seen) =~= start);
        assert(self.view() =~= without(start, interface));
    }
}

/// A slot found in the front of a queue is the slot in the queue.
proof fn lemma_slot_stays(queue: Seq<HeldModel>, n: int, held: HeldModel)
    requires
        0 <= n <= queue.len(),
        slot_of(queue.subrange(0, n), held) is Some,
    ensures
        slot_of(queue, held) == slot_of(queue.subrange(0, n), held),
    decreases queue.len() - n,
{
    if n == queue.len() {
        assert(queue.subrange(0, n) =~= queue);
    } else {
        assert(queue.subrange(0, n + 1).drop_last() =~= queue.subrange(0, n));
        lemma_slot_stays(queue, n + 1, held);
    }
}

/// A first one found in the front of a queue is the first one in the queue.
proof fn lemma_first_stays(queue: Seq<HeldModel>, n: int, interface: InterfaceId)
    requires
        0 <= n <= queue.len(),
        first_of(queue.subrange(0, n), interface) is Some,
    ensures
        first_of(queue, interface) == first_of(queue.subrange(0, n), interface),
    decreases queue.len() - n,
{
    if n == queue.len() {
        assert(queue.subrange(0, n) =~= queue);
    } else {
        assert(queue.subrange(0, n + 1).drop_last() =~= queue.subrange(0, n));
        lemma_first_stays(queue, n + 1, interface);
    }
}

/// The queue of held announces does not outgrow its capacity.
pub proof fn law_held_queue_is_bounded(queue: Seq<HeldModel>, held: HeldModel, capacity: nat)
    requires
        queue.len() <= capacity,
    ensures
        after_hold(queue, held, capacity).len() <= capacity,
{
    lemma_slot_in_range(queue, held);
}

/// A slot that is found is in the queue.
proof fn lemma_slot_in_range(queue: Seq<HeldModel>, held: HeldModel)
    ensures
        slot_of(queue, held) matches Some(i) ==> 0 <= i < queue.len(),
    decreases queue.len(),
{
    if queue.len() > 0 {
        lemma_slot_in_range(queue.drop_last(), held);
    }
}

} // verus!
