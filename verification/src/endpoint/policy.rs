//! What an endpoint carries, for whom, and in which order.

use vstd::prelude::*;

verus! {

/// Identifies one attached interface.
pub type InterfaceId = u32;

/// Maximum hops an announce or packet may travel before a transport node drops it.
pub const MAX_HOPS: u8 = 128;

/// Which interfaces a routing rule applies to.
///
/// Transit is directional: an endpoint may accept forwarded traffic from one interface and
/// emit it on another without the reverse being true. A node bridging a public radio to a
/// private wired segment, for instance, can carry the radio's traffic outward while refusing
/// to inject anything from the wire back onto the air.
#[derive(Debug)]
pub enum InterfaceSelector {
    /// No interface. Nothing is accepted from, or sent to, any of them.
    NoInterface,
    /// Every attached interface, including ones attached later.
    All,
    /// Only the listed interfaces.
    Only(Vec<InterfaceId>),
}

/// An [`InterfaceSelector`] with its list as a sequence.
pub enum SelectorModel {
    NoInterface,
    All,
    Only(Seq<InterfaceId>),
}

impl SelectorModel {
    /// Whether the selector covers an interface.
    pub open spec fn contains(self, iface: InterfaceId) -> bool {
        match self {
            SelectorModel::NoInterface => false,
            SelectorModel::All => true,
            SelectorModel::Only(list) => list.contains(iface),
        }
    }
}

impl View for InterfaceSelector {
    type V = SelectorModel;

    open spec fn view(&self) -> SelectorModel {
        match self {
            InterfaceSelector::NoInterface => SelectorModel::NoInterface,
            InterfaceSelector::All => SelectorModel::All,
            InterfaceSelector::Only(list) => SelectorModel::Only(list@),
        }
    }
}

impl InterfaceSelector {
    /// Whether this selector covers `iface`.
    pub fn allows(&self, iface: InterfaceId) -> (covered: bool)
        ensures
            covered == self@.contains(iface),
    {
        match self {
            InterfaceSelector::NoInterface => false,
            InterfaceSelector::All => true,
            InterfaceSelector::Only(list) => {
                let mut i: usize = 0;
                while i < list.len()
                    invariant
                        i <= list@.len(),
                        *self == InterfaceSelector::Only(*list),
                        forall|j: int| 0 <= j < i ==> list@[j] != iface,
                    decreases list@.len() - i,
                {
                    if list[i] == iface {
                        assert(list@[i as int] == iface);
                        return true;
                    }
                    i += 1;
                }
                false
            },
        }
    }
}

impl Default for InterfaceSelector {
    fn default() -> (selector: Self)
        ensures
            selector@ == SelectorModel::NoInterface,
    {
        InterfaceSelector::NoInterface
    }
}

impl Clone for InterfaceSelector {
    fn clone(&self) -> (copy: Self)
        ensures
            copy@ == self@,
    {
        match self {
            InterfaceSelector::NoInterface => InterfaceSelector::NoInterface,
            InterfaceSelector::All => InterfaceSelector::All,
            InterfaceSelector::Only(list) => {
                let mut copy: Vec<InterfaceId> = Vec::new();
                let mut i: usize = 0;
                while i < list.len()
                    invariant
                        i <= list@.len(),
                        copy@ == list@.subrange(0, i as int),
                    decreases list@.len() - i,
                {
                    copy.push(list[i]);
                    i += 1;
                    assert(copy@ =~= list@.subrange(0, i as int));
                }
                assert(copy@ =~= list@);
                InterfaceSelector::Only(copy)
            },
        }
    }
}

/// What a packet is for, which decides how it shares a busy interface.
///
/// A radio is slow enough that packets genuinely queue in the endpoint, so the order they
/// leave in is a policy choice rather than an accident of arrival. Classifying at the send
/// site is deliberate: the bytes cannot say whether they are someone's chat message or a bulk
/// sync, but the code putting them on the wire knows.
#[derive(Clone, Copy, Debug, PartialEq, Eq, Hash, PartialOrd, Ord, Structural)]
pub enum TrafficClass {
    /// Protocol upkeep: announces, path responses, link setup, proofs. Small and infrequent;
    /// starving it costs the network its ability to repair itself, so it is served first.
    Control,
    /// Local traffic someone is waiting on.
    Interactive,
    /// Local traffic that can wait: bulk transfer, replication.
    Background,
    /// Someone else's traffic, carried as a courtesy. Served last and capped, so a busy
    /// public mesh cannot consume the capacity its host reserved for itself.
    Transit,
}

/// How many classes there are.
pub const CLASS_COUNT: usize = 4;

impl TrafficClass {
    /// The number of a class, in the order they are served.
    pub open spec fn number(self) -> int {
        match self {
            TrafficClass::Control => 0,
            TrafficClass::Interactive => 1,
            TrafficClass::Background => 2,
            TrafficClass::Transit => 3,
        }
    }

    /// The number of a class, in the order they are served.
    pub fn index(self) -> (index: usize)
        ensures
            index == self.number(),
            index < CLASS_COUNT,
    {
        match self {
            TrafficClass::Control => 0,
            TrafficClass::Interactive => 1,
            TrafficClass::Background => 2,
            TrafficClass::Transit => 3,
        }
    }

    /// The class with a number.
    pub open spec fn numbered(n: int) -> TrafficClass {
        if n == 0 {
            TrafficClass::Control
        } else if n == 1 {
            TrafficClass::Interactive
        } else if n == 2 {
            TrafficClass::Background
        } else {
            TrafficClass::Transit
        }
    }

    /// The class with a number.
    pub fn of_index(index: usize) -> (class: TrafficClass)
        requires
            index < CLASS_COUNT,
        ensures
            class == TrafficClass::numbered(index as int),
            class.number() == index,
    {
        match index {
            0 => TrafficClass::Control,
            1 => TrafficClass::Interactive,
            2 => TrafficClass::Background,
            _ => TrafficClass::Transit,
        }
    }
}

/// Each class's share of a busy interface, as a deficit-round-robin quantum multiplier.
///
/// These are *relative shares of a contended interface*, not rate limits: an idle interface
/// sends whatever it has. They only bind when more traffic is offered than the medium can
/// carry, which is exactly when a host's own traffic must not lose to transit.
#[derive(Clone, Copy, Debug, PartialEq, Eq, Structural)]
pub struct QueueWeights {
    pub control: u32,
    pub interactive: u32,
    pub background: u32,
    pub transit: u32,
}

impl QueueWeights {
    /// Control first, then interactive, background, and transit last. The ratios matter more
    /// than the values: transit gets a share, never priority.
    pub open spec fn standard() -> QueueWeights {
        QueueWeights { control: 8, interactive: 4, background: 2, transit: 1 }
    }

    /// A class's weight.
    pub open spec fn weight(self, class: TrafficClass) -> u32 {
        match class {
            TrafficClass::Control => self.control,
            TrafficClass::Interactive => self.interactive,
            TrafficClass::Background => self.background,
            TrafficClass::Transit => self.transit,
        }
    }

    /// A class's weight.
    pub fn for_class(&self, class: TrafficClass) -> (weight: u32)
        ensures
            weight == self.weight(class),
    {
        match class {
            TrafficClass::Control => self.control,
            TrafficClass::Interactive => self.interactive,
            TrafficClass::Background => self.background,
            TrafficClass::Transit => self.transit,
        }
    }
}

impl Default for QueueWeights {
    fn default() -> (weights: Self)
        ensures
            weights == QueueWeights::standard(),
    {
        QueueWeights { control: 8, interactive: 4, background: 2, transit: 1 }
    }
}

/// How many packets each class may hold on one interface before its next packet is dropped.
///
/// Bounded on purpose: an unbounded queue in front of a slow radio converts memory into
/// latency and hides the loss instead of reporting it. Transit is held shallowest, so a
/// flooding neighbour's backlog cannot grow without limit inside a node that is doing it a
/// favour.
#[derive(Clone, Copy, Debug, PartialEq, Eq, Structural)]
pub struct QueueDepths {
    pub control: usize,
    pub interactive: usize,
    pub background: usize,
    pub transit: usize,
}

impl QueueDepths {
    /// Transit is held shallowest: a neighbour's backlog is their problem to retry, not this
    /// node's to store.
    pub open spec fn standard() -> QueueDepths {
        QueueDepths { control: 64, interactive: 256, background: 256, transit: 64 }
    }

    /// A class's depth.
    pub open spec fn depth(self, class: TrafficClass) -> usize {
        match class {
            TrafficClass::Control => self.control,
            TrafficClass::Interactive => self.interactive,
            TrafficClass::Background => self.background,
            TrafficClass::Transit => self.transit,
        }
    }

    /// A class's depth.
    pub fn for_class(&self, class: TrafficClass) -> (depth: usize)
        ensures
            depth == self.depth(class),
    {
        match class {
            TrafficClass::Control => self.control,
            TrafficClass::Interactive => self.interactive,
            TrafficClass::Background => self.background,
            TrafficClass::Transit => self.transit,
        }
    }
}

impl Default for QueueDepths {
    fn default() -> (depths: Self)
        ensures
            depths == QueueDepths::standard(),
    {
        QueueDepths { control: 64, interactive: 256, background: 256, transit: 64 }
    }
}

/// What this endpoint carries on behalf of others.
///
/// Transit is not one switch: a node may relay announces so its neighbours stay discoverable
/// while refusing to carry their data, may accept transit from one interface only, or may cap
/// how far it will propagate traffic. Every axis is independent, and the default
/// ([`RoutingPolicy::none`]) carries nothing: an endpoint moves its own traffic until its
/// owner opts in.
#[derive(Debug)]
pub struct RoutingPolicy {
    /// Re-broadcast others' announces (hops+1, de-duplicated, never back the way they came),
    /// which is what makes destinations behind this node discoverable.
    pub forward_announces: bool,
    /// Forward others' data, link, and proof packets toward their destinations.
    pub forward_packets: bool,
    /// Interfaces this endpoint will accept transit *from*.
    pub allowed_ingress: InterfaceSelector,
    /// Interfaces this endpoint will emit transit *on*.
    pub allowed_egress: InterfaceSelector,
    /// Hop ceiling for forwarded traffic. A packet at or above this is dropped rather than
    /// relayed, bounding how far this node will carry anything.
    pub max_hops: u8,
    /// Each class's share of a contended interface. This is where transit is bounded against
    /// local traffic, so it lives with the transit policy even though it governs both.
    pub queue_weights: QueueWeights,
    /// How deep each class may queue on one interface before packets are dropped.
    pub queue_depths: QueueDepths,
}

/// A [`RoutingPolicy`] with its selectors as sets.
pub struct PolicyModel {
    pub forward_announces: bool,
    pub forward_packets: bool,
    pub ingress: SelectorModel,
    pub egress: SelectorModel,
    pub max_hops: u8,
    pub queue_weights: QueueWeights,
    pub queue_depths: QueueDepths,
}

impl PolicyModel {
    /// Whether a packet arriving on `iface` may be forwarded at all.
    pub open spec fn carries_from(self, iface: InterfaceId) -> bool {
        self.forward_packets && self.ingress.contains(iface)
    }

    /// Whether an announce arriving on `iface` may be re-broadcast.
    pub open spec fn relays_from(self, iface: InterfaceId) -> bool {
        self.forward_announces && self.ingress.contains(iface)
    }

    /// The policy that carries nothing.
    pub open spec fn nothing() -> PolicyModel {
        PolicyModel {
            forward_announces: false,
            forward_packets: false,
            ingress: SelectorModel::NoInterface,
            egress: SelectorModel::NoInterface,
            max_hops: 0,
            queue_weights: QueueWeights::standard(),
            queue_depths: QueueDepths::standard(),
        }
    }

    /// The policy that carries everything.
    pub open spec fn everything() -> PolicyModel {
        PolicyModel {
            forward_announces: true,
            forward_packets: true,
            ingress: SelectorModel::All,
            egress: SelectorModel::All,
            max_hops: MAX_HOPS,
            queue_weights: QueueWeights::standard(),
            queue_depths: QueueDepths::standard(),
        }
    }
}

impl View for RoutingPolicy {
    type V = PolicyModel;

    open spec fn view(&self) -> PolicyModel {
        PolicyModel {
            forward_announces: self.forward_announces,
            forward_packets: self.forward_packets,
            ingress: self.allowed_ingress@,
            egress: self.allowed_egress@,
            max_hops: self.max_hops,
            queue_weights: self.queue_weights,
            queue_depths: self.queue_depths,
        }
    }
}

impl RoutingPolicy {
    /// Carry nothing: the endpoint moves only its own traffic. The default.
    pub fn none() -> (policy: Self)
        ensures
            policy@ == PolicyModel::nothing(),
    {
        RoutingPolicy {
            forward_announces: false,
            forward_packets: false,
            allowed_ingress: InterfaceSelector::NoInterface,
            allowed_egress: InterfaceSelector::NoInterface,
            max_hops: 0,
            queue_weights: QueueWeights::default(),
            queue_depths: QueueDepths::default(),
        }
    }

    /// Carry everything, in both directions, out to the protocol's hop ceiling.
    pub fn transit() -> (policy: Self)
        ensures
            policy@ == PolicyModel::everything(),
    {
        RoutingPolicy {
            forward_announces: true,
            forward_packets: true,
            allowed_ingress: InterfaceSelector::All,
            allowed_egress: InterfaceSelector::All,
            max_hops: MAX_HOPS,
            queue_weights: QueueWeights::default(),
            queue_depths: QueueDepths::default(),
        }
    }

    /// Whether a packet arriving on `iface` may be forwarded at all under this policy.
    pub fn accepts_transit_from(&self, iface: InterfaceId) -> (accepts: bool)
        ensures
            accepts == self@.carries_from(iface),
    {
        self.forward_packets && self.allowed_ingress.allows(iface)
    }

    /// Whether an announce arriving on `iface` may be re-broadcast under this policy.
    pub fn relays_announce_from(&self, iface: InterfaceId) -> (relays: bool)
        ensures
            relays == self@.relays_from(iface),
    {
        self.forward_announces && self.allowed_ingress.allows(iface)
    }
}

impl Default for RoutingPolicy {
    fn default() -> (policy: Self)
        ensures
            policy@ == PolicyModel::nothing(),
    {
        RoutingPolicy::none()
    }
}

impl Clone for RoutingPolicy {
    fn clone(&self) -> (copy: Self)
        ensures
            copy@ == self@,
    {
        RoutingPolicy {
            forward_announces: self.forward_announces,
            forward_packets: self.forward_packets,
            allowed_ingress: self.allowed_ingress.clone(),
            allowed_egress: self.allowed_egress.clone(),
            max_hops: self.max_hops,
            queue_weights: self.queue_weights,
            queue_depths: self.queue_depths,
        }
    }
}

/// Carrying nothing means carrying nothing: no interface's packets or announces are taken.
pub proof fn law_none_carries_nothing(policy: PolicyModel, iface: InterfaceId)
    requires
        policy == PolicyModel::nothing(),
    ensures
        !policy.carries_from(iface),
        !policy.relays_from(iface),
        !policy.egress.contains(iface),
{
}

/// A per-class tally.
#[derive(Clone, Copy, Debug, PartialEq, Eq, Structural)]
pub struct ClassCounters {
    pub control: u64,
    pub interactive: u64,
    pub background: u64,
    pub transit: u64,
}

impl ClassCounters {
    /// Nothing tallied.
    pub open spec fn zero() -> ClassCounters {
        ClassCounters { control: 0, interactive: 0, background: 0, transit: 0 }
    }

    /// A tally per class number.
    pub open spec fn of(tally: Seq<u64>) -> ClassCounters {
        ClassCounters {
            control: tally[0],
            interactive: tally[1],
            background: tally[2],
            transit: tally[3],
        }
    }

    /// Two tallies together. A tally that overflows starts over.
    pub open spec fn plus(self, other: ClassCounters) -> ClassCounters {
        ClassCounters {
            control: self.control.wrapping_add(other.control),
            interactive: self.interactive.wrapping_add(other.interactive),
            background: self.background.wrapping_add(other.background),
            transit: self.transit.wrapping_add(other.transit),
        }
    }

    /// Take a tally per class number.
    pub fn from_array(tally: [u64; CLASS_COUNT]) -> (counters: Self)
        ensures
            counters == ClassCounters::of(tally@),
    {
        ClassCounters {
            control: tally[0],
            interactive: tally[1],
            background: tally[2],
            transit: tally[3],
        }
    }

    /// Add another tally to this one.
    pub fn include_all(&mut self, other: Self)
        ensures
            *final(self) == old(self).plus(other),
    {
        self.control = self.control.wrapping_add(other.control);
        self.interactive = self.interactive.wrapping_add(other.interactive);
        self.background = self.background.wrapping_add(other.background);
        self.transit = self.transit.wrapping_add(other.transit);
    }
}

impl Default for ClassCounters {
    fn default() -> (counters: Self)
        ensures
            counters == ClassCounters::zero(),
    {
        ClassCounters { control: 0, interactive: 0, background: 0, transit: 0 }
    }
}

/// What the outbound schedule has done, summed over every interface.
#[derive(Clone, Copy, Debug, PartialEq, Eq, Structural)]
pub struct QueueCounters {
    /// Packets the schedule released to the wire, by class.
    pub sent: ClassCounters,
    /// Packets dropped because their class's queue was full, by class. A non-zero transit
    /// count on an otherwise healthy node is the expected sign of a neighbour offering more
    /// than this node agreed to carry.
    pub dropped: ClassCounters,
}

impl Default for QueueCounters {
    fn default() -> (counters: Self)
        ensures
            counters == (QueueCounters {
                sent: ClassCounters::zero(),
                dropped: ClassCounters::zero(),
            }),
    {
        QueueCounters { sent: ClassCounters::default(), dropped: ClassCounters::default() }
    }
}

/// A snapshot of what routing has done, for diagnostics and for proving a policy is enforced.
#[derive(Clone, Copy, Debug, PartialEq, Eq, Structural)]
pub struct RoutingCounters {
    /// Data, link, and proof packets forwarded on behalf of others.
    pub forwarded_packets: u64,
    /// Announces re-broadcast on behalf of others.
    pub forwarded_announces: u64,
    /// Packets a policy refused: transit disabled, or the ingress/egress interface not
    /// permitted.
    pub policy_rejected: u64,
    /// Packets dropped for reaching the policy's hop ceiling.
    pub hop_limit_dropped: u64,
    /// Announces turned away by a full address book, and therefore not routed, relayed, or
    /// published either. Climbing means the book is at capacity, which is worth knowing:
    /// past that point this endpoint is deaf to peers it has not already met.
    pub refused_announces: u64,
    /// Verified unknown-route announces retained during an ingress interface burst.
    pub held_announces: u64,
    /// Verified announces dropped because the bounded ingress hold queue was full.
    pub held_announces_dropped: u64,
    /// Valid announces learned locally but not relayed because their destination was rate
    /// blocked on this incoming interface.
    pub relay_rate_limited_announces: u64,
    /// Routes dropped to make room in a full path table. Climbing means this endpoint knows
    /// more destinations than it can hold, and is forgetting the quietest to keep the rest.
    pub paths_evicted: u64,
    /// Announces rejected because their exact freshness blob was already committed for this
    /// destination. Packet-loop de-duplication is deliberately separate and runs later.
    pub freshness_replays_rejected: u64,
    /// Announces rejected because their freshness blob is older than this destination's
    /// accepted frontier.
    pub freshness_stale_rejected: u64,
    /// Freshness destination rows expired from their retention window.
    pub freshness_rows_expired: u64,
    /// Per-destination freshness blobs expired from their retention window.
    pub freshness_blobs_expired: u64,
    /// Freshness destination rows evicted to retain the configured bounded ledger.
    pub freshness_rows_evicted: u64,
    /// Per-destination freshness blobs evicted to retain the configured bounded history.
    pub freshness_blobs_evicted: u64,
}

impl RoutingCounters {
    /// Nothing counted.
    pub open spec fn zero() -> RoutingCounters {
        RoutingCounters {
            forwarded_packets: 0,
            forwarded_announces: 0,
            policy_rejected: 0,
            hop_limit_dropped: 0,
            refused_announces: 0,
            held_announces: 0,
            held_announces_dropped: 0,
            relay_rate_limited_announces: 0,
            paths_evicted: 0,
            freshness_replays_rejected: 0,
            freshness_stale_rejected: 0,
            freshness_rows_expired: 0,
            freshness_blobs_expired: 0,
            freshness_rows_evicted: 0,
            freshness_blobs_evicted: 0,
        }
    }
}

impl Default for RoutingCounters {
    fn default() -> (counters: Self)
        ensures
            counters == RoutingCounters::zero(),
    {
        RoutingCounters {
            forwarded_packets: 0,
            forwarded_announces: 0,
            policy_rejected: 0,
            hop_limit_dropped: 0,
            refused_announces: 0,
            held_announces: 0,
            held_announces_dropped: 0,
            relay_rate_limited_announces: 0,
            paths_evicted: 0,
            freshness_replays_rejected: 0,
            freshness_stale_rejected: 0,
            freshness_rows_expired: 0,
            freshness_blobs_expired: 0,
            freshness_rows_evicted: 0,
            freshness_blobs_evicted: 0,
        }
    }
}

/// Control goes before interactive traffic, that before background and that before transit:
/// by number, by standard weight, each class with a weight and a depth of its own.
pub proof fn law_classes_are_in_order(weights: QueueWeights, depths: QueueDepths)
    ensures
        TrafficClass::Control.number() == 0,
        TrafficClass::Interactive.number() == 1,
        TrafficClass::Background.number() == 2,
        TrafficClass::Transit.number() == 3,
        forall|class: TrafficClass|
            TrafficClass::numbered(#[trigger] class.number()) == class,
        weights.weight(TrafficClass::Control) == weights.control,
        weights.weight(TrafficClass::Interactive) == weights.interactive,
        weights.weight(TrafficClass::Background) == weights.background,
        weights.weight(TrafficClass::Transit) == weights.transit,
        depths.depth(TrafficClass::Control) == depths.control,
        depths.depth(TrafficClass::Interactive) == depths.interactive,
        depths.depth(TrafficClass::Background) == depths.background,
        depths.depth(TrafficClass::Transit) == depths.transit,
        QueueWeights::standard() == (QueueWeights {
            control: 8,
            interactive: 4,
            background: 2,
            transit: 1,
        }),
        QueueDepths::standard() == (QueueDepths {
            control: 64,
            interactive: 256,
            background: 256,
            transit: 64,
        }),
{
}

/// A policy carries from where it lets in what it forwards, each kind by its own switch. One
/// that carries everything does so from and to every interface, up to the protocol's hops.
pub proof fn law_policy_carries_what_it_lets_in(policy: PolicyModel, iface: InterfaceId)
    ensures
        policy.carries_from(iface) <==> policy.forward_packets && policy.ingress.contains(iface),
        policy.relays_from(iface) <==> policy.forward_announces && policy.ingress.contains(iface),
        ({
            let all = PolicyModel::everything();
            &&& all.carries_from(iface)
            &&& all.relays_from(iface)
            &&& all.egress.contains(iface)
            &&& all.max_hops == 128
        }),
        PolicyModel::nothing().max_hops == 0,
        !PolicyModel::nothing().forward_packets,
        !PolicyModel::nothing().forward_announces,
{
}

/// Tallies of several interfaces add up class by class, and nothing adds nothing.
pub proof fn law_class_tallies_add_up(a: ClassCounters, b: ClassCounters)
    ensures
        a.plus(ClassCounters::zero()) == a,
        a.plus(b) == b.plus(a),
        a.control + b.control <= u64::MAX ==> a.plus(b).control == a.control + b.control,
        a.interactive + b.interactive <= u64::MAX ==> a.plus(b).interactive == a.interactive
            + b.interactive,
        a.background + b.background <= u64::MAX ==> a.plus(b).background == a.background
            + b.background,
        a.transit + b.transit <= u64::MAX ==> a.plus(b).transit == a.transit + b.transit,
{
}

} // verus!
