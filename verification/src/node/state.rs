//! The state of a node, and what each event does to it.

use vstd::prelude::*;

use crate::address_book::{AddressBook, BookModel, Ingested};
use crate::announce;
use crate::announce::{
    announce_error, announced, announcement, announcement_signature, Announce, AnnounceBlob,
    RATCHET_LEN,
};
use crate::announce_freshness::{
    AnnounceFreshness, AnnounceFreshnessCandidate, AnnounceFreshnessConfigError,
    AnnounceFreshnessDecision, AnnounceFreshnessReconfigure, AnnounceFreshnessReject,
    FreshnessModel,
};
use crate::bounded::BoundedVec;
use crate::bytes;
use crate::destination::{destination_hash, destination_of};
use crate::hash::{address_of, full_hash, sha256, AddressHash, NameHash};
use crate::identity::{public_of, PrivateIdentity};
use crate::node::actions::{counted_up, packet_models, Action, ActionModel, Actions, ActionsModel, InterfaceId};
use crate::node::policy::{
    FreshnessPolicy, TransportConfig, TransportCounters, DEFAULT_ANNOUNCE_INTERVAL,
    LINK_IDLE_TIMEOUT, RESOURCE_RETRY_INTERVAL, TRANSPORT_DEDUP_TIMEOUT,
};
use crate::packet::{
    DestinationType, HeaderType, Packet, PacketModel, PacketType, Propagation,
};
use crate::recent;
use crate::recent::{
    displaces, first_aged, index_of, is_aged, lemma_first_aged, lemma_index_is, lemma_index_of,
    not_under, remembered, still_fresh, swapped_out, with_latest, without_aged, Filed,
};
use crate::table::{age, elapsed, Stamped};

verus! {

// ---------------------------------------------------------------------------------------
// What is kept.
/// A path learned from a verified announce.
#[derive(Debug, Clone, Copy)]
pub struct Route {
    /// Whom it leads to.
    pub destination: AddressHash,
    /// By which interface.
    pub interface: InterfaceId,
    /// The next transport hop that announced this destination, if it is not direct.
    pub transport: Option<AddressHash>,
    /// How far it is.
    pub hops: u8,
    /// When it was learned.
    pub learned: u64,
}

/// A link this node carries, with its two sides.
#[derive(Debug, Clone, Copy)]
pub struct LinkBridge {
    /// The link.
    pub link_id: AddressHash,
    /// Where its request came in.
    pub from: InterfaceId,
    /// Where its request went out.
    pub out: InterfaceId,
    /// When it last carried traffic.
    pub seen: u64,
}

/// A packet that was relayed.
#[derive(Debug, Clone, Copy)]
pub struct SeenPacket {
    /// The packet's hash.
    pub hash: AddressHash,
    /// When it was relayed.
    pub seen: u64,
}

/// A link this node opened, awaiting the peer's proof.
#[derive(Debug, Clone, Copy)]
pub struct PendingSlot {
    /// The link.
    pub link_id: AddressHash,
    /// Whom it is to.
    pub destination: AddressHash,
}

/// A resource transfer on a link.
#[derive(Debug, Clone, Copy)]
pub struct TransferSlot {
    /// The link.
    pub link_id: AddressHash,
    /// When it last moved.
    pub at: u64,
}

/// An established link.
///
/// The proof that established it is kept so a retransmitted request is answered with the
/// *same* proof rather than establishing a second link. On a medium that drops, the peer not
/// hearing our proof is ordinary, and answering twice would leave the two sides holding
/// different keys for what the initiator thinks is one link.
pub struct LinkSlot {
    link_id: AddressHash,
    proof: Packet,
    seen: u64,
}

/// A [`LinkSlot`] with its proof as a model.
pub struct LinkModel {
    pub link_id: AddressHash,
    pub proof: PacketModel,
    pub seen: u64,
}

impl View for LinkSlot {
    type V = LinkModel;

    closed spec fn view(&self) -> LinkModel {
        LinkModel { link_id: self.link_id, proof: self.proof@, seen: self.seen }
    }
}

impl Filed for Route {
    open spec fn filed_under(self) -> AddressHash {
        self.destination
    }

    fn label(&self) -> (key: AddressHash) {
        self.destination
    }
}

impl Stamped for Route {
    open spec fn stamped_at(self) -> u64 {
        self.learned
    }

    fn stamp(&self) -> (at: u64) {
        self.learned
    }
}

impl Filed for LinkBridge {
    open spec fn filed_under(self) -> AddressHash {
        self.link_id
    }

    fn label(&self) -> (key: AddressHash) {
        self.link_id
    }
}

impl Stamped for LinkBridge {
    open spec fn stamped_at(self) -> u64 {
        self.seen
    }

    fn stamp(&self) -> (at: u64) {
        self.seen
    }
}

impl Filed for SeenPacket {
    open spec fn filed_under(self) -> AddressHash {
        self.hash
    }

    fn label(&self) -> (key: AddressHash) {
        self.hash
    }
}

impl Stamped for SeenPacket {
    open spec fn stamped_at(self) -> u64 {
        self.seen
    }

    fn stamp(&self) -> (at: u64) {
        self.seen
    }
}

impl Filed for PendingSlot {
    open spec fn filed_under(self) -> AddressHash {
        self.link_id
    }

    fn label(&self) -> (key: AddressHash) {
        self.link_id
    }
}

impl Filed for TransferSlot {
    open spec fn filed_under(self) -> AddressHash {
        self.link_id
    }

    fn label(&self) -> (key: AddressHash) {
        self.link_id
    }
}

impl Filed for LinkSlot {
    closed spec fn filed_under(self) -> AddressHash {
        self.link_id
    }

    fn label(&self) -> (key: AddressHash) {
        self.link_id
    }
}

impl Stamped for LinkSlot {
    closed spec fn stamped_at(self) -> u64 {
        self.seen
    }

    fn stamp(&self) -> (at: u64) {
        self.seen
    }
}

impl Filed for LinkModel {
    open spec fn filed_under(self) -> AddressHash {
        self.link_id
    }

    fn label(&self) -> (key: AddressHash) {
        self.link_id
    }
}

impl Stamped for LinkModel {
    open spec fn stamped_at(self) -> u64 {
        self.seen
    }

    fn stamp(&self) -> (at: u64) {
        self.seen
    }
}

// ---------------------------------------------------------------------------------------
// What the link layer reads.
/// What a link's packet holds, once the link layer opened it.
#[derive(Debug, PartialEq, Eq)]
pub enum LinkContent {
    /// Nothing for this node: keepalives, round-trip times, requests and responses, and what
    /// does not open.
    Nothing,
    /// Application bytes.
    Data(Vec<u8>),
    /// The peer closes the link.
    Close,
}

/// What a transfer made of a packet.
#[derive(Debug, PartialEq, Eq)]
pub struct TransferReading {
    /// What it wants sent.
    pub replies: Vec<Packet>,
    /// The resource, if it is complete and verified.
    pub data: Option<Vec<u8>>,
    /// Whether it is over: done or canceled.
    pub ended: bool,
}

/// What the link layer made of a packet.
#[derive(Debug, PartialEq, Eq)]
pub struct LinkReading {
    /// The id of the link that a link request would open, if it is well-formed.
    pub link_id: Option<AddressHash>,
    /// The proof that accepts a link request, if it can be accepted.
    pub accepted: Option<Packet>,
    /// The pending link that a proof establishes, if it stands.
    pub proved: Option<AddressHash>,
    /// What a link's packet holds.
    pub content: LinkContent,
    /// What the transfer on the link made of the packet.
    pub transfer: TransferReading,
}

/// A [`LinkReading`] with its bytes as sequences.
pub struct ReadingModel {
    pub link_id: Option<AddressHash>,
    pub accepted: Option<PacketModel>,
    pub proved: Option<AddressHash>,
    pub payload: Option<Seq<u8>>,
    pub closes: bool,
    pub replies: Seq<PacketModel>,
    pub data: Option<Seq<u8>>,
    pub ended: bool,
}

impl View for LinkReading {
    type V = ReadingModel;

    open spec fn view(&self) -> ReadingModel {
        ReadingModel {
            link_id: self.link_id,
            accepted: match self.accepted {
                Some(p) => Some(p@),
                None => None,
            },
            proved: self.proved,
            payload: match self.content {
                LinkContent::Data(d) => Some(d@),
                _ => None,
            },
            closes: self.content is Close,
            replies: packet_models(self.transfer.replies@),
            data: match self.transfer.data {
                Some(d) => Some(d@),
                None => None,
            },
            ended: self.transfer.ended,
        }
    }
}

impl LinkReading {
    /// A packet the link layer has nothing to do with.
    pub fn none() -> (reading: Self)
        ensures
            reading@.link_id is None,
            reading@.accepted is None,
            reading@.proved is None,
            reading@.payload is None,
            !reading@.closes,
            reading@.replies.len() == 0,
            reading@.data is None,
            !reading@.ended,
    {
        LinkReading {
            link_id: None,
            accepted: None,
            proved: None,
            content: LinkContent::Nothing,
            transfer: TransferReading { replies: Vec::new(), data: None, ended: false },
        }
    }
}

/// What the transfers that are due want sent again.
#[derive(Debug, PartialEq, Eq)]
pub struct Redrive {
    /// What each receiver that is due requests again, in the order of
    /// [`Node::due_receivers`].
    pub requests: Vec<Vec<Packet>>,
    /// What each sender that is due offers again, in the order of [`Node::due_senders`].
    pub advertisements: Vec<Packet>,
}

impl Redrive {
    /// Nothing.
    pub fn none() -> (redrive: Self)
        ensures
            redrive.requests@.len() == 0,
            redrive.advertisements@.len() == 0,
    {
        Redrive { requests: Vec::new(), advertisements: Vec::new() }
    }
}

/// The packets of several lists, one list after another.
pub open spec fn flattened(lists: Seq<Vec<Packet>>) -> Seq<PacketModel>
    decreases lists.len(),
{
    if lists.len() == 0 {
        Seq::empty()
    } else {
        flattened(lists.drop_last()) + packet_models(lists.last()@)
    }
}

/// The first `n` of a list, or all of it.
pub open spec fn at_most<T>(s: Seq<T>, n: nat) -> Seq<T> {
    if s.len() <= n {
        s
    } else {
        s.subrange(0, n as int)
    }
}

// ---------------------------------------------------------------------------------------
// The model.
/// Whether a link packet's context belongs to a resource transfer: a part, an advertisement, a
/// request, a hashmap update, a proof, or either side's cancel.
pub open spec fn of_resource(context: u8) -> bool {
    1 <= context <= 7
}

/// A packet on its way to the next hop.
pub open spec fn forwarded(p: PacketModel, transport: Option<AddressHash>) -> PacketModel {
    PacketModel {
        hops: if p.hops < 255 {
            (p.hops + 1) as u8
        } else {
            255
        },
        header_type: if transport is Some {
            HeaderType::Type2
        } else {
            HeaderType::Type1
        },
        transport,
        ..p
    }
}

/// What is hashed for a resource IV: the domain, the identity's secret, the link and the
/// counter.
pub open spec fn iv_input(secret: Seq<u8>, link_id: Seq<u8>, counter: u32) -> Seq<u8> {
    vstd::utf8::encode_utf8("retinue/node/resource-iv"@) + secret + link_id + seq![
        (counter % 0x100) as u8,
        (counter / 0x100 % 0x100) as u8,
        (counter / 0x1_0000 % 0x100) as u8,
        (counter / 0x100_0000) as u8,
    ]
}

/// The state of a node.
pub struct NodeModel {
    /// The secret of the identity.
    pub secret: Seq<u8>,
    /// The destination this node announces. One for now: a board is one thing.
    pub name_hash: Seq<u8>,
    pub book: BookModel,
    /// Application data carried in our announces.
    pub app_data: Seq<u8>,
    /// The explicit policy for carrying traffic whose destination is not this node.
    pub transport: TransportConfig,
    /// Paths learned from verified announces. This is separate from the address book: the book
    /// has keys needed to initiate a link, while a route says where a transport packet goes.
    pub routes: Seq<Route>,
    /// Receive-side announce freshness. This survives route eviction so a displaced or expired
    /// route cannot make an old announce authoritative again.
    pub freshness: FreshnessModel,
    pub freshness_policy: FreshnessPolicy,
    /// Link ids this node is carrying, with their ingress and egress interfaces. A proof or
    /// link-data packet names a link id rather than its original destination, so this is the
    /// small fact that lets return traffic take the same bridge back.
    pub bridges: Seq<LinkBridge>,
    /// Recently relayed packet hashes. Bounded and time-limited because a shared radio hears
    /// its own relays; without this, one transport node can keep repeating the same frame.
    pub seen_transit: Seq<SeenPacket>,
    /// When we last announced. `None` until the first poll, so a node announces promptly on
    /// boot rather than waiting a full interval.
    pub last_announce: Option<u64>,
    pub announce_interval: u64,
    /// Established links, each with the time its peer was last heard from.
    pub links: Seq<LinkModel>,
    /// Links we opened, awaiting the peer's proof.
    pub pending: Seq<PendingSlot>,
    /// Inbound resource transfers, at most one per link.
    pub receivers: Seq<TransferSlot>,
    /// Outbound resource transfers, at most one per link.
    pub senders: Seq<TransferSlot>,
    /// Counter feeding derived resource IVs. Node state rather than a per-call local so the
    /// sequence never restarts: an IV must not repeat under a link key.
    pub iv_counter: u32,
    /// Link requests refused because the table was full. Visible rather than silent.
    pub refused_links: u16,
    /// Slots reclaimed from peers that went silent.
    pub expired_links: u16,
    /// Announces refused because the address book was full.
    pub refused_peers: u16,
    /// Resource offers refused.
    pub refused_offers: u16,
    pub counters: TransportCounters,
    /// How many links, and transfers either way, fit.
    pub max_links: nat,
    /// How many routes, bridges and relayed packets fit.
    pub max_routes: nat,
}

/// What an event did: the state after it, and what is wanted.
pub struct Step {
    pub node: NodeModel,
    pub actions: ActionsModel,
    /// Whether that was all there is to do.
    pub done: bool,
}

impl NodeModel {
    /// The address of the identity.
    pub open spec fn own_hash(self) -> AddressHash {
        AddressHash::with(address_of(public_of(self.secret)))
    }

    /// This node's own destination.
    pub open spec fn destination(self) -> AddressHash {
        AddressHash::with(destination_of(self.name_hash, address_of(public_of(self.secret))))
    }

    /// Without the routes that have outlived the policy.
    pub open spec fn routes_expired(self, now: u64) -> NodeModel {
        let kept = without_aged(self.routes, now, self.transport.route_ttl);
        NodeModel {
            routes: kept,
            counters: TransportCounters {
                expired_routes: counted_up(
                    self.counters.expired_routes,
                    self.routes.len() - kept.len(),
                ),
                ..self.counters
            },
            ..self
        }
    }

    /// Without the routes, carried links and relayed packets that have outlived the policy.
    pub open spec fn transport_expired(self, now: u64) -> NodeModel {
        let m = self.routes_expired(now);
        let kept = without_aged(m.bridges, now, m.transport.bridge_ttl);
        NodeModel {
            bridges: kept,
            counters: TransportCounters {
                expired_bridges: counted_up(
                    m.counters.expired_bridges,
                    m.bridges.len() - kept.len(),
                ),
                ..m.counters
            },
            seen_transit: still_fresh(m.seen_transit, now, TRANSPORT_DEDUP_TIMEOUT),
            ..m
        }
    }

    /// With a route from a freshness-accepted announce. The accepted announce is the route
    /// incumbent regardless of hop count: freshness decides whether an announce may mutate any
    /// observable state, and route selection applies no second shortest-path filter.
    pub open spec fn with_route(self, route: Route) -> NodeModel {
        if route.destination == self.destination() {
            self
        } else {
            let m = self.routes_expired(route.learned);
            NodeModel {
                routes: remembered(m.routes, route, m.max_routes),
                counters: TransportCounters {
                    evicted_routes: counted_up(
                        m.counters.evicted_routes,
                        if displaces(m.routes, route.destination, m.max_routes) {
                            1
                        } else {
                            0
                        },
                    ),
                    ..m.counters
                },
                ..m
            }
        }
    }

    /// Whether a packet was not relayed lately.
    pub open spec fn is_new(self, hash: AddressHash, now: u64) -> bool {
        index_of(still_fresh(self.seen_transit, now, TRANSPORT_DEDUP_TIMEOUT), hash) is None
            && self.max_routes > 0
    }

    /// After it was asked whether a packet was relayed lately: if not, it counts as relayed. At
    /// capacity, the oldest observation is forgotten rather than growing or refusing all later
    /// traffic.
    pub open spec fn with_seen(self, hash: AddressHash, now: u64) -> NodeModel {
        let fresh = still_fresh(self.seen_transit, now, TRANSPORT_DEDUP_TIMEOUT);
        NodeModel {
            seen_transit: if index_of(fresh, hash) is None {
                with_latest(fresh, SeenPacket { hash, seen: now }, self.max_routes)
            } else {
                fresh
            },
            ..self
        }
    }

    /// With a carried link.
    pub open spec fn with_bridge(self, bridge: LinkBridge) -> NodeModel {
        NodeModel {
            bridges: remembered(self.bridges, bridge, self.max_routes),
            counters: TransportCounters {
                evicted_bridges: counted_up(
                    self.counters.evicted_bridges,
                    if displaces(self.bridges, bridge.link_id, self.max_routes) {
                        1
                    } else {
                        0
                    },
                ),
                ..self.counters
            },
            ..self
        }
    }

    /// With a packet dropped at the hop ceiling counted.
    pub open spec fn hop_limited(self) -> NodeModel {
        NodeModel {
            counters: TransportCounters {
                hop_limit_dropped: counted_up(self.counters.hop_limit_dropped, 1),
                ..self.counters
            },
            ..self
        }
    }

    /// With a packet for nobody known counted.
    pub open spec fn unroutable(self) -> NodeModel {
        NodeModel {
            counters: TransportCounters {
                unroutable_packets: counted_up(self.counters.unroutable_packets, 1),
                ..self.counters
            },
            ..self
        }
    }

    /// After a packet was sent on: counted if the shell was told.
    pub open spec fn sending_on(
        self,
        interface: InterfaceId,
        packet: PacketModel,
        actions: ActionsModel,
    ) -> Step {
        Step {
            node: if actions.has_room() {
                NodeModel {
                    counters: TransportCounters {
                        forwarded_packets: counted_up(self.counters.forwarded_packets, 1),
                        ..self.counters
                    },
                    ..self
                }
            } else {
                self
            },
            actions: actions.sending(interface, packet),
            done: true,
        }
    }

    /// A packet of a carried link goes to the link's other side. Link proofs and data name the
    /// link id rather than the original destination, so this precedes normal transit routing.
    pub open spec fn bridged(
        self,
        interface: InterfaceId,
        packet: PacketModel,
        now: u64,
        actions: ActionsModel,
    ) -> Step {
        let hash = AddressHash::with(packet.address());
        match index_of(self.bridges, packet.destination) {
            Some(i) => if !self.transport.relay_packets {
                Step { node: self, actions, done: false }
            } else if packet.hops >= self.transport.max_hops {
                Step { node: self.hop_limited(), actions, done: true }
            } else if !self.is_new(hash, now) {
                Step { node: self.with_seen(hash, now), actions, done: true }
            } else {
                let m = self.with_seen(hash, now);
                let bridge = self.bridges[i];
                let touched = NodeModel {
                    bridges: m.bridges.update(i, LinkBridge { seen: now, ..bridge }),
                    ..m
                };
                if interface == bridge.from {
                    touched.sending_on(bridge.out, forwarded(packet, None), actions)
                } else if interface == bridge.out {
                    touched.sending_on(bridge.from, forwarded(packet, None), actions)
                } else {
                    Step { node: touched, actions, done: false }
                }
            },
            None => Step { node: self, actions, done: false },
        }
    }

    /// A packet in transit that names this node as its next hop goes towards its learned
    /// destination.
    pub open spec fn transported(
        self,
        interface: InterfaceId,
        packet: PacketModel,
        now: u64,
        link_id: Option<AddressHash>,
        actions: ActionsModel,
    ) -> Step {
        let hash = AddressHash::with(packet.address());
        if !self.transport.relay_packets || packet.header_type != HeaderType::Type2
            || packet.transport != Some(self.own_hash()) || packet.destination
            == self.destination() {
            Step { node: self, actions, done: false }
        } else if packet.hops >= self.transport.max_hops {
            Step { node: self.hop_limited(), actions, done: true }
        } else {
            match index_of(self.routes, packet.destination) {
                None => Step { node: self.unroutable(), actions, done: true },
                Some(i) => {
                    let route = self.routes[i];
                    let m = self.with_seen(hash, now);
                    if !self.is_new(hash, now) {
                        Step { node: m, actions, done: true }
                    } else {
                        let carried = match link_id {
                            Some(id) => if packet.packet_type == PacketType::LinkRequest {
                                m.with_bridge(
                                    LinkBridge {
                                        link_id: id,
                                        from: interface,
                                        out: route.interface,
                                        seen: now,
                                    },
                                )
                            } else {
                                m
                            },
                            None => m,
                        };
                        carried.sending_on(
                            route.interface,
                            forwarded(packet, route.transport),
                            actions,
                        )
                    }
                },
            }
        }
    }

    /// A verified announce is re-broadcast with this node recorded as the transport hop.
    pub open spec fn relaying(
        self,
        interface: InterfaceId,
        packet: PacketModel,
        now: u64,
        actions: ActionsModel,
    ) -> Step {
        let hash = AddressHash::with(packet.address());
        if !self.transport.relay_announces || packet.destination == self.destination() {
            Step { node: self, actions, done: true }
        } else if packet.hops >= self.transport.max_hops {
            Step { node: self.hop_limited(), actions, done: true }
        } else {
            let m = self.with_seen(hash, now);
            if !self.is_new(hash, now) {
                Step { node: m, actions, done: true }
            } else {
                Step {
                    node: if actions.has_room() {
                        NodeModel {
                            counters: TransportCounters {
                                forwarded_announces: counted_up(
                                    m.counters.forwarded_announces,
                                    1,
                                ),
                                ..m.counters
                            },
                            ..m
                        }
                    } else {
                        m
                    },
                    actions: actions.sending(interface, forwarded(packet, Some(m.own_hash()))),
                    done: true,
                }
            }
        }
    }

    /// What freshness is asked of an announce.
    pub open spec fn candidate(packet: PacketModel) -> AnnounceFreshnessCandidate {
        AnnounceFreshnessCandidate {
            destination: packet.destination,
            blob: AnnounceBlob::of(announced(packet).rand_hash),
            hops: packet.hops,
        }
    }

    /// With a rejected announce counted.
    pub open spec fn rejecting(self, reason: AnnounceFreshnessReject) -> NodeModel {
        NodeModel {
            counters: match reason {
                AnnounceFreshnessReject::Replay => TransportCounters {
                    replayed_announces: counted_up(self.counters.replayed_announces, 1),
                    ..self.counters
                },
                AnnounceFreshnessReject::StaleTimebase => TransportCounters {
                    stale_announces: counted_up(self.counters.stale_announces, 1),
                    ..self.counters
                },
            },
            ..self
        }
    }

    /// With an accepted announce on record.
    pub open spec fn recording(self, candidate: AnnounceFreshnessCandidate, now: u64) -> NodeModel {
        let record = self.freshness.record_of(candidate, now);
        NodeModel {
            freshness: self.freshness.after_record(candidate, now),
            counters: TransportCounters {
                expired_freshness_rows: counted_up(
                    self.counters.expired_freshness_rows,
                    record.expired_destinations as int,
                ),
                expired_freshness_blobs: counted_up(
                    self.counters.expired_freshness_blobs,
                    record.expired_blobs as int,
                ),
                evicted_freshness_rows: counted_up(
                    self.counters.evicted_freshness_rows,
                    if record.evicted_destination is Some {
                        1
                    } else {
                        0
                    },
                ),
                evicted_freshness_blobs: counted_up(
                    self.counters.evicted_freshness_blobs,
                    if record.evicted_blob is Some {
                        1
                    } else {
                        0
                    },
                ),
                ..self.counters
            },
            ..self
        }
    }

    /// What an admitted announce does: it is on record, its route is learned if this node
    /// carries anything, the shell is told, and it is relayed.
    pub open spec fn admitting(
        self,
        interface: InterfaceId,
        packet: PacketModel,
        now: u64,
        actions: ActionsModel,
    ) -> Step {
        let m = self.recording(NodeModel::candidate(packet), now);
        let routed = if m.transport.relay_announces || m.transport.relay_packets {
            m.with_route(
                Route {
                    destination: packet.destination,
                    interface,
                    transport: packet.transport,
                    hops: packet.hops,
                    learned: now,
                },
            )
        } else {
            m
        };
        routed.relaying(
            interface,
            packet,
            now,
            actions.with(ActionModel::Learned { destination: packet.destination }),
        )
    }

    /// What an announce does. One whose maths does not check out, or that freshness rejects,
    /// has no effect but a count. Address-book capacity is part of admission: if it refuses, no
    /// announce effect happened and the candidate remains unrecorded, so a later capacity
    /// opening can still admit it.
    pub open spec fn announced_to(
        self,
        interface: InterfaceId,
        packet: PacketModel,
        now: u64,
        actions: ActionsModel,
    ) -> Step {
        if announce_error(packet) is Some {
            Step { node: self, actions, done: true }
        } else {
            match self.freshness.decision(
                NodeModel::candidate(packet),
                now,
                self.transport.route_ttl,
            ) {
                AnnounceFreshnessDecision::Reject(reason) => Step {
                    node: self.rejecting(reason),
                    actions,
                    done: true,
                },
                AnnounceFreshnessDecision::Accept(_) => {
                    let m = NodeModel {
                        book: self.book.after_ingest(packet.destination, announced(packet)),
                        ..self
                    };
                    if self.book.verdict(packet.destination) == Ingested::Refused {
                        Step {
                            node: NodeModel {
                                refused_peers: counted_up(m.refused_peers, 1),
                                ..m
                            },
                            actions,
                            done: true,
                        }
                    } else {
                        m.admitting(interface, packet, now, actions)
                    }
                },
            }
        }
    }

    /// What a peer's request for a link to us does. One that is already established is answered
    /// with the same proof again.
    pub open spec fn link_requested(
        self,
        interface: InterfaceId,
        packet: PacketModel,
        now: u64,
        reading: ReadingModel,
        actions: ActionsModel,
    ) -> Step {
        let nothing = Step { node: self, actions, done: true };
        if packet.destination != self.destination() {
            nothing
        } else {
            match reading.link_id {
                None => nothing,
                Some(id) => match index_of(self.links, id) {
                    Some(i) => Step {
                        actions: actions.sending(interface, self.links[i].proof),
                        ..nothing
                    },
                    None => if self.links.len() >= self.max_links {
                        Step {
                            node: NodeModel {
                                refused_links: counted_up(self.refused_links, 1),
                                ..self
                            },
                            ..nothing
                        }
                    } else {
                        match reading.accepted {
                            None => nothing,
                            Some(proof) => Step {
                                node: NodeModel {
                                    links: self.links.push(
                                        LinkModel { link_id: id, proof, seen: now },
                                    ),
                                    ..self
                                },
                                actions: actions.sending(interface, proof).with(
                                    ActionModel::LinkUp { link_id: id },
                                ),
                                done: true,
                            },
                        }
                    },
                },
            }
        }
    }

    /// What a proof for a link we opened does.
    pub open spec fn link_proved(
        self,
        packet: PacketModel,
        now: u64,
        reading: ReadingModel,
        actions: ActionsModel,
    ) -> Step {
        let nothing = Step { node: self, actions, done: true };
        match reading.proved {
            None => nothing,
            Some(id) => match index_of(self.pending, id) {
                None => nothing,
                Some(i) => {
                    let m = NodeModel { pending: swapped_out(self.pending, i), ..self };
                    if self.links.len() >= self.max_links {
                        Step {
                            node: NodeModel {
                                refused_links: counted_up(self.refused_links, 1),
                                ..m
                            },
                            ..nothing
                        }
                    } else {
                        Step {
                            node: NodeModel {
                                links: self.links.push(
                                    LinkModel { link_id: id, proof: packet, seen: now },
                                ),
                                ..m
                            },
                            actions: actions.with(ActionModel::LinkUp { link_id: id }),
                            done: true,
                        }
                    }
                },
            },
        }
    }

    /// Without a link and everything riding on it. A transfer without its link is state nobody
    /// can finish, so it goes too.
    pub open spec fn link_dropped(self, i: int, actions: ActionsModel) -> Step {
        let id = self.links[i].link_id;
        Step {
            node: NodeModel {
                links: swapped_out(self.links, i),
                receivers: not_under(self.receivers, id),
                senders: not_under(self.senders, id),
                ..self
            },
            actions: actions.with(ActionModel::LinkDown { link_id: id }),
            done: true,
        }
    }

    /// What a packet of a resource transfer does. An outbound transfer's replies come back on
    /// the same link, so the sender has the packet first. A receiver made for a packet that
    /// then said nothing did not accept the transfer, and holds no slot.
    pub open spec fn transferred(
        self,
        interface: InterfaceId,
        link_id: AddressHash,
        now: u64,
        reading: ReadingModel,
        actions: ActionsModel,
    ) -> Step {
        let told = actions.sending_all(interface, reading.replies);
        let slot = TransferSlot { link_id, at: now };
        let refusing = Step {
            node: NodeModel { refused_offers: counted_up(self.refused_offers, 1), ..self },
            actions,
            done: true,
        };
        match index_of(self.senders, link_id) {
            Some(i) => Step {
                node: NodeModel {
                    senders: if reading.ended {
                        swapped_out(self.senders, i)
                    } else {
                        self.senders.update(i, slot)
                    },
                    ..self
                },
                actions: told,
                done: true,
            },
            None => {
                let at = index_of(self.receivers, link_id);
                if at is None && (self.receivers.len() >= self.max_links || (reading.replies.len()
                    == 0 && reading.data is None)) {
                    refusing
                } else {
                    let held = match at {
                        Some(i) => self.receivers.update(i, slot),
                        None => self.receivers.push(slot),
                    };
                    let i = match at {
                        Some(i) => i,
                        None => self.receivers.len() as int,
                    };
                    Step {
                        node: NodeModel {
                            receivers: if reading.data is Some || reading.ended {
                                swapped_out(held, i)
                            } else {
                                held
                            },
                            ..self
                        },
                        actions: match reading.data {
                            Some(data) => told.with(ActionModel::Resource { link_id, data }),
                            None => told,
                        },
                        done: true,
                    }
                }
            },
        }
    }

    /// What traffic on an established link does. It keeps the slot, whatever it is.
    pub open spec fn link_carried(
        self,
        interface: InterfaceId,
        packet: PacketModel,
        now: u64,
        reading: ReadingModel,
        actions: ActionsModel,
    ) -> Step {
        let id = packet.destination;
        match index_of(self.links, id) {
            None => Step { node: self, actions, done: true },
            Some(i) => {
                let m = NodeModel {
                    links: self.links.update(i, LinkModel { seen: now, ..self.links[i] }),
                    ..self
                };
                if of_resource(packet.context) {
                    m.transferred(interface, id, now, reading, actions)
                } else {
                    match reading.payload {
                        Some(payload) => Step {
                            node: m,
                            actions: actions.with(ActionModel::Data { link_id: id, payload }),
                            done: true,
                        },
                        None => if reading.closes {
                            m.link_dropped(i, actions)
                        } else {
                            Step { node: m, actions, done: true }
                        },
                    }
                }
            },
        }
    }

    /// What a received packet does.
    pub open spec fn ingested(
        self,
        interface: InterfaceId,
        packet: PacketModel,
        now: u64,
        reading: ReadingModel,
        max: nat,
    ) -> Step {
        let m = self.transport_expired(now);
        let none = ActionsModel::none(max);
        if packet.packet_type == PacketType::Announce {
            m.announced_to(interface, packet, now, none)
        } else {
            let first = m.bridged(interface, packet, now, none);
            if first.done {
                first
            } else {
                let second = first.node.transported(
                    interface,
                    packet,
                    now,
                    reading.link_id,
                    first.actions,
                );
                if second.done {
                    second
                } else {
                    match packet.packet_type {
                        PacketType::LinkRequest => second.node.link_requested(
                            interface,
                            packet,
                            now,
                            reading,
                            second.actions,
                        ),
                        PacketType::Proof => second.node.link_proved(
                            packet,
                            now,
                            reading,
                            second.actions,
                        ),
                        _ => second.node.link_carried(
                            interface,
                            packet,
                            now,
                            reading,
                            second.actions,
                        ),
                    }
                }
            }
        }
    }

    /// After the freshness bounds were changed.
    pub open spec fn reconfigured(self, policy: FreshnessPolicy, now: u64) -> NodeModel {
        let report = self.freshness.reconfigure_of(policy.table(), now);
        NodeModel {
            freshness: self.freshness.after_reconfigure(policy.table(), now),
            freshness_policy: policy,
            counters: TransportCounters {
                expired_freshness_rows: counted_up(
                    self.counters.expired_freshness_rows,
                    report.expired_destinations as int,
                ),
                expired_freshness_blobs: counted_up(
                    self.counters.expired_freshness_blobs,
                    report.expired_blobs as int,
                ),
                evicted_freshness_rows: counted_up(
                    self.counters.evicted_freshness_rows,
                    report.evicted_destinations as int,
                ),
                evicted_freshness_blobs: counted_up(
                    self.counters.evicted_freshness_blobs,
                    report.evicted_blobs as int,
                ),
                ..self.counters
            },
            ..self
        }
    }

    /// Whether a resource can be published on a link.
    pub open spec fn can_publish(self, link_id: AddressHash) -> bool {
        &&& index_of(self.senders, link_id) is None
        &&& index_of(self.receivers, link_id) is None
        &&& self.senders.len() < self.max_links
        &&& index_of(self.links, link_id) is Some
    }

    /// Whether the node should attempt its own announce.
    pub open spec fn announce_is_due(self, now: u64) -> bool {
        match self.last_announce {
            None => true,
            Some(last) => age(now, last) >= self.announce_interval,
        }
    }

    /// The announce packet of this node.
    pub open spec fn announce_packet(self, blob: Seq<u8>, ratchet: Option<Seq<u8>>) -> PacketModel {
        let a = announcement(self.secret, self.name_hash, blob, ratchet, self.app_data);
        PacketModel {
            ifac: false,
            header_type: HeaderType::Type1,
            context_flag: ratchet is Some,
            propagation: Propagation::Broadcast,
            destination_type: DestinationType::Single,
            packet_type: PacketType::Announce,
            hops: 0,
            transport: None,
            destination: AddressHash::with(a.destination),
            context: 0,
            payload: a.payload(announcement_signature(self.secret, a)),
        }
    }

    /// What advancing the node's own timers does: what outlived its time goes, an announce that
    /// is due goes out if there is a blob for it, and transfers that have heard nothing for a
    /// retry interval are driven again.
    pub open spec fn polled(
        self,
        now: u64,
        interface: InterfaceId,
        blob: Option<AnnounceBlob>,
        redrive: Redrive,
        max: nat,
    ) -> Step {
        let m = self.transport_expired(now);
        let kept = without_aged(m.links, now, LINK_IDLE_TIMEOUT);
        let announces = blob is Some && m.announce_is_due(now);
        let none = ActionsModel::none(max);
        let announced = match blob {
            Some(b) => if announces {
                none.sending(interface, m.announce_packet(b@, None))
            } else {
                none
            },
            None => none,
        };
        let requested = announced.sending_all(
            interface,
            flattened(at_most(redrive.requests@, due_slots(m.receivers, now).len())),
        );
        let offered = requested.sending_all(
            interface,
            packet_models(at_most(redrive.advertisements@, due_slots(m.senders, now).len())),
        );
        Step {
            node: NodeModel {
                links: kept,
                expired_links: counted_up(m.expired_links, m.links.len() - kept.len()),
                last_announce: if announces {
                    Some(now)
                } else {
                    m.last_announce
                },
                receivers: redriven(m.receivers, now),
                senders: redriven(m.senders, now),
                ..m
            },
            actions: offered,
            done: true,
        }
    }
}

/// Whether a transfer has heard nothing for a retry interval.
pub open spec fn slot_is_due(slot: TransferSlot, now: u64) -> bool {
    age(now, slot.at) >= RESOURCE_RETRY_INTERVAL
}

/// The links whose transfers have heard nothing for a retry interval, in their order.
pub open spec fn due_slots(slots: Seq<TransferSlot>, now: u64) -> Seq<AddressHash>
    decreases slots.len(),
{
    if slots.len() == 0 {
        Seq::empty()
    } else if slot_is_due(slots.last(), now) {
        due_slots(slots.drop_last(), now).push(slots.last().link_id)
    } else {
        due_slots(slots.drop_last(), now)
    }
}

/// The transfers after those that are due were driven again.
pub open spec fn redriven(slots: Seq<TransferSlot>, now: u64) -> Seq<TransferSlot> {
    Seq::new(
        slots.len(),
        |i: int|
            if slot_is_due(slots[i], now) {
                TransferSlot { at: now, ..slots[i] }
            } else {
                slots[i]
            },
    )
}

// ---------------------------------------------------------------------------------------
// The node.
/// Links as models.
pub open spec fn link_models(items: Seq<LinkSlot>) -> Seq<LinkModel> {
    Seq::new(items.len(), |i: int| items[i]@)
}

/// An executor-neutral Reticulum node.
///
/// `PEERS` bounds the address book. `ACTIONS` bounds what one call can ask of the shell.
/// `LINKS` bounds links and the transfers on them. `ROUTES` bounds learned paths, recent
/// transit hashes, and transport bridges.
pub struct Node<
    const PEERS: usize,
    const ACTIONS: usize,
    const LINKS: usize,
    const ROUTES: usize,
> {
    identity: PrivateIdentity,
    name_hash: NameHash,
    book: AddressBook,
    app_data: Vec<u8>,
    transport: TransportConfig,
    routes: BoundedVec<Route, ROUTES>,
    freshness: AnnounceFreshness,
    freshness_policy: FreshnessPolicy,
    bridges: BoundedVec<LinkBridge, ROUTES>,
    seen_transit: BoundedVec<SeenPacket, ROUTES>,
    last_announce: Option<u64>,
    announce_interval: u64,
    links: BoundedVec<LinkSlot, LINKS>,
    pending: BoundedVec<PendingSlot, LINKS>,
    receivers: BoundedVec<TransferSlot, LINKS>,
    senders: BoundedVec<TransferSlot, LINKS>,
    iv_counter: u32,
    refused_links: u16,
    expired_links: u16,
    refused_peers: u16,
    refused_offers: u16,
    transport_counters: TransportCounters,
}

impl<
    const PEERS: usize,
    const ACTIONS: usize,
    const LINKS: usize,
    const ROUTES: usize,
> View for Node<PEERS, ACTIONS, LINKS, ROUTES> {
    type V = NodeModel;

    closed spec fn view(&self) -> NodeModel {
        NodeModel {
            secret: self.identity@,
            name_hash: self.name_hash@,
            book: self.book@,
            app_data: self.app_data@,
            transport: self.transport,
            routes: self.routes.view(),
            freshness: self.freshness@,
            freshness_policy: self.freshness_policy,
            bridges: self.bridges.view(),
            seen_transit: self.seen_transit.view(),
            last_announce: self.last_announce,
            announce_interval: self.announce_interval,
            links: link_models(self.links.view()),
            pending: self.pending.view(),
            receivers: self.receivers.view(),
            senders: self.senders.view(),
            iv_counter: self.iv_counter,
            refused_links: self.refused_links,
            expired_links: self.expired_links,
            refused_peers: self.refused_peers,
            refused_offers: self.refused_offers,
            counters: self.transport_counters,
            max_links: LINKS as nat,
            max_routes: ROUTES as nat,
        }
    }
}

/// A count that stays at its ceiling.
fn count_up(n: u16, more: usize) -> (sum: u16)
    ensures
        sum == counted_up(n, more as int),
{
    if more > u16::MAX as usize {
        u16::MAX
    } else {
        n.saturating_add(more as u16)
    }
}

/// One or none.
fn count_of(there: bool) -> (n: usize)
    ensures
        n == (if there {
            1int
        } else {
            0
        }),
{
    if there {
        1
    } else {
        0
    }
}

/// A link stands where its model does.
proof fn lemma_link_index(items: Seq<LinkSlot>, key: AddressHash)
    ensures
        index_of(link_models(items), key) == index_of(items, key),
{
    let models = link_models(items);
    lemma_index_of(items, key);
    match index_of(items, key) {
        Some(i) => {
            assert forall|j: int| 0 <= j < i implies (#[trigger] models[j]).filed_under() != key by {
                assert(items[j].filed_under() != key);
            }
            lemma_index_is(models, key, i);
        },
        None => {
            lemma_index_of(models, key);
            if let Some(i) = index_of(models, key) {
                assert(items[i].filed_under() != key);
            }
        },
    }
}

/// Links age as their models do.
proof fn lemma_link_aging(items: Seq<LinkSlot>, now: u64, ttl: u64)
    ensures
        without_aged(link_models(items), now, ttl) == link_models(without_aged(items, now, ttl)),
    decreases items.len(),
{
    let models = link_models(items);
    lemma_first_aged(items, now, ttl);
    lemma_first_aged(models, now, ttl);
    match (first_aged(items, now, ttl), first_aged(models, now, ttl)) {
        (Some(i), Some(j)) => {
            if i < j {
                assert(!is_aged(models[i], now, ttl));
            }
            if j < i {
                assert(!is_aged(items[j], now, ttl));
            }
            assert(link_models(swapped_out(items, i)) =~= swapped_out(models, i));
            lemma_link_aging(swapped_out(items, i), now, ttl);
        },
        (Some(i), None) => {
            assert(!is_aged(models[i], now, ttl));
        },
        (None, Some(j)) => {
            assert(!is_aged(items[j], now, ttl));
        },
        (None, None) => {},
    }
}

impl<
    const PEERS: usize,
    const ACTIONS: usize,
    const LINKS: usize,
    const ROUTES: usize,
> Node<PEERS, ACTIONS, LINKS, ROUTES> {
    /// The address book and the freshness table are in order.
    pub closed spec fn inv(self) -> bool {
        self.book.inv() && self.freshness@.wf() && self.name_hash@.len() == 10
    }

    /// A node with an identity and the destination it answers to.
    pub fn new(identity: PrivateIdentity, name_hash: NameHash) -> (node: Self)
        ensures
            node.inv(),
            node@ == (NodeModel {
                secret: identity@,
                name_hash: name_hash@,
                book: BookModel { peers: Map::empty(), max_peers: PEERS, refused: 0 },
                app_data: Seq::empty(),
                transport: TransportConfig::carrying_nothing(),
                routes: Seq::empty(),
                freshness: FreshnessModel {
                    config: FreshnessPolicy::budgeted(PEERS).table(),
                    rows: Seq::empty(),
                    next_order: 0,
                },
                freshness_policy: FreshnessPolicy::budgeted(PEERS),
                bridges: Seq::empty(),
                seen_transit: Seq::empty(),
                last_announce: None,
                announce_interval: DEFAULT_ANNOUNCE_INTERVAL,
                links: Seq::empty(),
                pending: Seq::empty(),
                receivers: Seq::empty(),
                senders: Seq::empty(),
                iv_counter: 0,
                refused_links: 0,
                expired_links: 0,
                refused_peers: 0,
                refused_offers: 0,
                counters: TransportCounters::zero(),
                max_links: LINKS as nat,
                max_routes: ROUTES as nat,
            }),
    {
        let policy = FreshnessPolicy::for_peers(PEERS);
        let freshness = AnnounceFreshness::new(policy.to_config()).unwrap();
        let node = Node {
            identity,
            name_hash,
            book: AddressBook::with_max_peers(PEERS),
            app_data: Vec::new(),
            transport: TransportConfig::none(),
            routes: BoundedVec::new(),
            freshness,
            freshness_policy: policy,
            bridges: BoundedVec::new(),
            seen_transit: BoundedVec::new(),
            last_announce: None,
            announce_interval: DEFAULT_ANNOUNCE_INTERVAL,
            links: BoundedVec::new(),
            pending: BoundedVec::new(),
            receivers: BoundedVec::new(),
            senders: BoundedVec::new(),
            iv_counter: 0,
            refused_links: 0,
            expired_links: 0,
            refused_peers: 0,
            refused_offers: 0,
            transport_counters: TransportCounters::default(),
        };
        proof {
            NameHash::lemma_bytes_decide(name_hash, name_hash);
            assert(node@.links =~= Seq::<LinkModel>::empty());
            assert(node@.freshness.rows =~= Seq::empty());
            assert(node@.app_data =~= Seq::<u8>::empty());
        }
        node
    }
}

impl<
    const PEERS: usize,
    const ACTIONS: usize,
    const LINKS: usize,
    const ROUTES: usize,
> Node<PEERS, ACTIONS, LINKS, ROUTES> {
    /// Set the application data carried in our announces.
    pub fn with_app_data(self, app_data: &[u8]) -> (node: Self)
        requires
            self.inv(),
        ensures
            node.inv(),
            node@ == (NodeModel { app_data: app_data@, ..self@ }),
    {
        let mut node = self;
        node.app_data = bytes::copy_all(app_data);
        node
    }

    /// Set the re-announce cadence, in the caller's tick unit.
    pub fn with_announce_interval(self, interval: u64) -> (node: Self)
        requires
            self.inv(),
        ensures
            node.inv(),
            node@ == (NodeModel { announce_interval: interval, ..self@ }),
    {
        let mut node = self;
        node.announce_interval = interval;
        node
    }

    /// Configure the traffic this node will carry for other destinations.
    pub fn with_transport_config(self, config: TransportConfig) -> (node: Self)
        requires
            self.inv(),
        ensures
            node.inv(),
            node@ == (NodeModel { transport: config, ..self@ }),
    {
        let mut node = self;
        node.transport = config;
        node
    }

    /// Configure receive-side announce freshness bounds. The table starts out empty.
    pub fn with_freshness_policy(self, policy: FreshnessPolicy) -> (result: Result<
        Self,
        AnnounceFreshnessConfigError,
    >)
        requires
            self.inv(),
        ensures
            match result {
                Ok(node) => policy.table().fault() is None && node.inv() && node@ == (NodeModel {
                    freshness: FreshnessModel {
                        config: policy.table(),
                        rows: Seq::empty(),
                        next_order: 0,
                    },
                    freshness_policy: policy,
                    ..self@
                }),
                Err(e) => policy.table().fault() == Some(e),
            },
    {
        match AnnounceFreshness::new(policy.to_config()) {
            Err(e) => Err(e),
            Ok(freshness) => {
                let mut node = self;
                node.freshness = freshness;
                node.freshness_policy = policy;
                proof {
                    assert(node@.freshness.rows =~= Seq::empty());
                }
                Ok(node)
            },
        }
    }

    /// Change receive-side freshness bounds without changing identity or transport policy.
    /// `now` applies the new retention window while preserving still-retained rows and
    /// deterministically trimming history. Invalid zero capacities leave the old policy intact.
    pub fn set_freshness_policy(&mut self, policy: FreshnessPolicy, now: u64) -> (result: Result<
        AnnounceFreshnessReconfigure,
        AnnounceFreshnessConfigError,
    >)
        requires
            old(self).inv(),
        ensures
            final(self).inv(),
            match result {
                Ok(report) => policy.table().fault() is None && report == old(
                    self,
                )@.freshness.reconfigure_of(policy.table(), now) && final(self)@ == old(
                    self,
                )@.reconfigured(policy, now),
                Err(e) => policy.table().fault() == Some(e) && final(self)@ == old(self)@,
            },
    {
        match self.freshness.reconfigure(policy.to_config(), now) {
            Err(e) => Err(e),
            Ok(report) => {
                let mut c = self.transport_counters;
                c.expired_freshness_rows = count_up(
                    c.expired_freshness_rows,
                    report.expired_destinations,
                );
                c.expired_freshness_blobs = count_up(
                    c.expired_freshness_blobs,
                    report.expired_blobs,
                );
                c.evicted_freshness_rows = count_up(
                    c.evicted_freshness_rows,
                    report.evicted_destinations,
                );
                c.evicted_freshness_blobs = count_up(
                    c.evicted_freshness_blobs,
                    report.evicted_blobs,
                );
                self.transport_counters = c;
                self.freshness_policy = policy;
                Ok(report)
            },
        }
    }

    /// The current receive-side announce freshness policy.
    pub fn freshness_policy(&self) -> (policy: FreshnessPolicy)
        ensures
            policy == self@.freshness_policy,
    {
        self.freshness_policy
    }

    /// What the freshness table makes of a candidate, without recording it.
    pub fn evaluate_announce(&self, candidate: AnnounceFreshnessCandidate, now: u64) -> (decision:
        AnnounceFreshnessDecision)
        requires
            self.inv(),
        ensures
            decision == self@.freshness.decision(candidate, now, self@.transport.route_ttl),
    {
        self.freshness.evaluate(candidate, now, self.transport.route_ttl)
    }

    /// Change the transport policy without replacing the node's learned state.
    pub fn set_transport_config(&mut self, config: TransportConfig)
        requires
            old(self).inv(),
        ensures
            final(self).inv(),
            final(self)@ == (NodeModel { transport: config, ..old(self)@ }),
    {
        self.transport = config;
    }

    /// The current transport policy.
    pub fn transport_config(&self) -> (config: TransportConfig)
        ensures
            config == self@.transport,
    {
        self.transport
    }

    /// This node's own destination hash: what a peer addresses to reach it.
    pub fn destination(&self) -> (hash: AddressHash)
        ensures
            hash == self@.destination(),
    {
        let hash = destination_hash(self.name_hash, self.identity.hash());
        proof {
            AddressHash::lemma_with(hash);
        }
        hash
    }

    /// The address of the identity: what names this node as a transport hop.
    pub fn identity_hash(&self) -> (hash: AddressHash)
        ensures
            hash == self@.own_hash(),
    {
        let hash = self.identity.hash();
        proof {
            AddressHash::lemma_with(hash);
        }
        hash
    }

    /// The peers this node has heard announce.
    pub fn peers(&self) -> (book: &AddressBook)
        requires
            self.inv(),
        ensures
            book@ == self@.book,
            book.inv(),
    {
        &self.book
    }

    /// Established links.
    pub fn link_count(&self) -> (n: usize)
        ensures
            n == self@.links.len(),
    {
        self.links.len()
    }

    /// Number of fresh or not-yet-polled route entries currently held.
    pub fn route_count(&self) -> (n: usize)
        ensures
            n == self@.routes.len(),
    {
        self.routes.len()
    }

    /// A fresh route's radio interface and hop count. Lookup also evicts an expired entry, so a
    /// stale path does not linger until an unrelated new announce arrives.
    pub fn route_to(&mut self, destination: AddressHash, now: u64) -> (route: Option<
        (InterfaceId, u8),
    >)
        requires
            old(self).inv(),
        ensures
            final(self).inv(),
            final(self)@ == old(self)@.routes_expired(now),
            route == (match index_of(final(self)@.routes, destination) {
                Some(i) => Some((final(self)@.routes[i].interface, final(self)@.routes[i].hops)),
                None => None,
            }),
    {
        self.expire_routes(now);
        match recent::find(&self.routes, &destination) {
            Some(i) => {
                let route = self.routes.items()[i];
                Some((route.interface, route.hops))
            },
            None => None,
        }
    }

    /// Transport activity and bounded-state pressure since boot.
    pub fn transport_counters(&self) -> (counters: TransportCounters)
        ensures
            counters == self@.counters,
    {
        self.transport_counters
    }

    /// Whether a link with this id is established.
    pub fn has_link(&self, link_id: AddressHash) -> (there: bool)
        ensures
            there == (index_of(self@.links, link_id) is Some),
    {
        proof {
            lemma_link_index(self.links.view(), link_id);
        }
        recent::find(&self.links, &link_id).is_some()
    }

    /// Link requests refused because the table was full. Nonzero means `LINKS` is too small for
    /// the traffic this node sees, and peers are being turned away.
    pub fn refused_links(&self) -> (n: u16)
        ensures
            n == self@.refused_links,
    {
        self.refused_links
    }

    /// Link slots reclaimed from peers that stopped answering.
    ///
    /// Read alongside [`Node::refused_links`]: refusals with no expiries is a node with more
    /// demand than slots, while expiries climbing is a node whose peers keep vanishing.
    pub fn expired_links(&self) -> (n: u16)
        ensures
            n == self@.expired_links,
    {
        self.expired_links
    }

    /// Announces turned away by a full address book.
    pub fn refused_peers(&self) -> (n: u16)
        ensures
            n == self@.refused_peers,
    {
        self.refused_peers
    }

    /// Resource offers turned away, by the part ceiling or by full receiver slots.
    pub fn refused_offers(&self) -> (n: u16)
        ensures
            n == self@.refused_offers,
    {
        self.refused_offers
    }

    /// Whether a resource is being received or sent on this link.
    pub fn transfer_active(&self, link_id: AddressHash) -> (active: bool)
        ensures
            active == (index_of(self@.receivers, link_id) is Some || index_of(
                self@.senders,
                link_id,
            ) is Some),
    {
        recent::find(&self.receivers, &link_id).is_some() || recent::find(
            &self.senders,
            &link_id,
        ).is_some()
    }

    /// Publish a resource on an established link: `advertisement` offers it. Returns `None` if
    /// the link is unknown or a transfer is already running on it: one at a time, because a
    /// board cannot hold two.
    pub fn publish(
        &mut self,
        link_id: AddressHash,
        interface: InterfaceId,
        advertisement: Packet,
        now: u64,
    ) -> (actions: Option<Actions<ACTIONS>>)
        requires
            old(self).inv(),
        ensures
            final(self).inv(),
            actions is Some <==> old(self)@.can_publish(link_id),
            actions matches Some(a) ==> a@ == ActionsModel::none(ACTIONS as nat).sending(
                interface,
                advertisement@,
            ) && final(self)@ == (NodeModel {
                senders: old(self)@.senders.push(TransferSlot { link_id, at: now }),
                ..old(self)@
            }),
            actions is None ==> final(self)@ == old(self)@,
    {
        if self.transfer_active(link_id) || self.senders.len() >= LINKS {
            return None;
        }
        if !self.has_link(link_id) {
            return None;
        }
        let _ = self.senders.push(TransferSlot { link_id, at: now });
        let mut actions: Actions<ACTIONS> = Actions::new();
        let _ = actions.send(interface, advertisement);
        Some(actions)
    }

    /// Open a link to a destination this node has heard announce: `request` asks for it, and
    /// `link_id` is the id it would have. Returns `None` if the peer is unknown or the pending
    /// table is full.
    pub fn open_link(
        &mut self,
        destination: AddressHash,
        interface: InterfaceId,
        link_id: AddressHash,
        request: Packet,
    ) -> (actions: Option<Actions<ACTIONS>>)
        requires
            old(self).inv(),
        ensures
            final(self).inv(),
            actions is Some <==> old(self)@.book.peers.contains_key(destination) && old(
                self,
            )@.pending.len() < LINKS,
            actions matches Some(a) ==> a@ == ActionsModel::none(ACTIONS as nat).sending(
                interface,
                request@,
            ) && final(self)@ == (NodeModel {
                pending: old(self)@.pending.push(PendingSlot { link_id, destination }),
                ..old(self)@
            }),
            actions is None ==> final(self)@ == (NodeModel {
                refused_links: if old(self)@.book.peers.contains_key(destination) {
                    counted_up(old(self)@.refused_links, 1)
                } else {
                    old(self)@.refused_links
                },
                ..old(self)@
            }),
    {
        if !self.book.knows(destination) {
            return None;
        }
        if self.pending.len() >= LINKS {
            self.refused_links = count_up(self.refused_links, 1);
            return None;
        }
        let _ = self.pending.push(PendingSlot { link_id, destination });
        let mut actions: Actions<ACTIONS> = Actions::new();
        let _ = actions.send(interface, request);
        Some(actions)
    }

    /// Send application bytes on an established link, sealed in `packet`.
    pub fn send(&self, link_id: AddressHash, interface: InterfaceId, packet: Packet) -> (actions:
        Option<Actions<ACTIONS>>)
        ensures
            actions is Some <==> index_of(self@.links, link_id) is Some,
            actions matches Some(a) ==> a@ == ActionsModel::none(ACTIONS as nat).sending(
                interface,
                packet@,
            ),
    {
        if !self.has_link(link_id) {
            return None;
        }
        let mut actions: Actions<ACTIONS> = Actions::new();
        let _ = actions.send(interface, packet);
        Some(actions)
    }

    /// Remove routes and carried-link records that have outlived the policy that admitted them.
    /// This is called both from [`Node::poll`] and before a transit decision, so a slow board
    /// clock cannot leave a stale route usable merely because it has not polled yet.
    fn expire_transport_state(&mut self, now: u64)
        requires
            old(self).inv(),
        ensures
            final(self).inv(),
            final(self)@ == old(self)@.transport_expired(now),
    {
        self.expire_routes(now);
        let gone: usize = recent::drop_aged(&mut self.bridges, now, self.transport.bridge_ttl);
        self.transport_counters.expired_bridges = count_up(
            self.transport_counters.expired_bridges,
            gone,
        );
        recent::keep_fresh(&mut self.seen_transit, now, TRANSPORT_DEDUP_TIMEOUT);
    }

    /// Remove the routes that have outlived the policy.
    fn expire_routes(&mut self, now: u64)
        requires
            old(self).inv(),
        ensures
            final(self).inv(),
            final(self)@ == old(self)@.routes_expired(now),
    {
        let gone: usize = recent::drop_aged(&mut self.routes, now, self.transport.route_ttl);
        self.transport_counters.expired_routes = count_up(
            self.transport_counters.expired_routes,
            gone,
        );
    }

    /// Record a route from a freshness-accepted announce.
    fn learn_route(&mut self, route: Route)
        requires
            old(self).inv(),
        ensures
            final(self).inv(),
            final(self)@ == old(self)@.with_route(route),
    {
        if route.destination == self.destination() {
            return ;
        }
        self.expire_routes(route.learned);
        let displaced = recent::remember(&mut self.routes, route);
        self.transport_counters.evicted_routes = count_up(
            self.transport_counters.evicted_routes,
            count_of(displaced),
        );
    }

    /// Whether this is a fresh packet for a shared-radio relay; if so, it counts as relayed.
    pub fn transit_is_new(&mut self, hash: AddressHash, now: u64) -> (fresh: bool)
        requires
            old(self).inv(),
        ensures
            final(self).inv(),
            fresh == old(self)@.is_new(hash, now),
            final(self)@ == old(self)@.with_seen(hash, now),
    {
        recent::keep_fresh(&mut self.seen_transit, now, TRANSPORT_DEDUP_TIMEOUT);
        if recent::find(&self.seen_transit, &hash).is_some() {
            return false;
        }
        recent::push_latest(&mut self.seen_transit, SeenPacket { hash, seen: now }).0
    }

    /// Remember a carried link.
    fn remember_bridge(&mut self, bridge: LinkBridge)
        requires
            old(self).inv(),
        ensures
            final(self).inv(),
            final(self)@ == old(self)@.with_bridge(bridge),
    {
        let displaced = recent::remember(&mut self.bridges, bridge);
        self.transport_counters.evicted_bridges = count_up(
            self.transport_counters.evicted_bridges,
            count_of(displaced),
        );
    }

    /// Count a packet dropped at the hop ceiling.
    fn count_hop_limit(&mut self)
        requires
            old(self).inv(),
        ensures
            final(self).inv(),
            final(self)@ == old(self)@.hop_limited(),
    {
        self.transport_counters.hop_limit_dropped = count_up(
            self.transport_counters.hop_limit_dropped,
            1,
        );
    }

    /// Send a packet on, and count it if the shell was told.
    fn send_on(&mut self, interface: InterfaceId, packet: Packet, actions: &mut Actions<ACTIONS>)
        requires
            old(self).inv(),
        ensures
            final(self).inv(),
            final(self)@ == old(self)@.sending_on(interface, packet@, old(actions)@).node,
            final(actions)@ == old(self)@.sending_on(interface, packet@, old(actions)@).actions,
    {
        if actions.send(interface, packet) {
            self.transport_counters.forwarded_packets = count_up(
                self.transport_counters.forwarded_packets,
                1,
            );
        }
    }

    /// Relay a packet already associated with a carried link. `false` if it is none.
    fn forward_bridged_packet(
        &mut self,
        interface: InterfaceId,
        packet: &Packet,
        now: u64,
        actions: &mut Actions<ACTIONS>,
    ) -> (done: bool)
        requires
            old(self).inv(),
        ensures
            final(self).inv(),
            ({
                let step = old(self)@.bridged(interface, packet@, now, old(actions)@);
                final(self)@ == step.node && final(actions)@ == step.actions && done == step.done
            }),
    {
        if !self.transport.relay_packets {
            return false;
        }
        match recent::find(&self.bridges, &packet.destination) {
            None => false,
            Some(i) => {
                if packet.hops >= self.transport.max_hops {
                    self.count_hop_limit();
                    return true;
                }
                let hash = packet.hash();
                proof {
                    AddressHash::lemma_with(hash);
                }
                if !self.transit_is_new(hash, now) {
                    return true;
                }
                let mut bridge = self.bridges.items()[i];
                bridge.seen = now;
                self.bridges.set(i, bridge);
                if interface == bridge.from {
                    self.send_on(bridge.out, forward(packet, None), actions);
                    true
                } else if interface == bridge.out {
                    self.send_on(bridge.from, forward(packet, None), actions);
                    true
                } else {
                    false
                }
            },
        }
    }

    /// Carry a header-type-2 packet addressed to this node towards its learned destination.
    /// `false` if it is none.
    fn forward_transport_packet(
        &mut self,
        interface: InterfaceId,
        packet: &Packet,
        now: u64,
        link_id: Option<AddressHash>,
        actions: &mut Actions<ACTIONS>,
    ) -> (done: bool)
        requires
            old(self).inv(),
        ensures
            final(self).inv(),
            ({
                let step = old(self)@.transported(interface, packet@, now, link_id, old(actions)@);
                final(self)@ == step.node && final(actions)@ == step.actions && done == step.done
            }),
    {
        if !self.transport.relay_packets || packet.header_type != HeaderType::Type2 {
            return false;
        }
        let named = match packet.transport {
            Some(next) => next == self.identity_hash(),
            None => false,
        };
        if !named || packet.destination == self.destination() {
            return false;
        }
        if packet.hops >= self.transport.max_hops {
            self.count_hop_limit();
            return true;
        }
        match recent::find(&self.routes, &packet.destination) {
            None => {
                self.transport_counters.unroutable_packets = count_up(
                    self.transport_counters.unroutable_packets,
                    1,
                );
                true
            },
            Some(i) => {
                let route = self.routes.items()[i];
                let hash = packet.hash();
                proof {
                    AddressHash::lemma_with(hash);
                }
                if !self.transit_is_new(hash, now) {
                    return true;
                }
                if packet.packet_type == PacketType::LinkRequest {
                    if let Some(id) = link_id {
                        self.remember_bridge(
                            LinkBridge {
                                link_id: id,
                                from: interface,
                                out: route.interface,
                                seen: now,
                            },
                        );
                    }
                }
                self.send_on(route.interface, forward(packet, route.transport), actions);
                true
            },
        }
    }

    /// Re-broadcast a verified announce with this node recorded as the transport hop.
    fn relay_announce(
        &mut self,
        interface: InterfaceId,
        packet: &Packet,
        now: u64,
        actions: &mut Actions<ACTIONS>,
    )
        requires
            old(self).inv(),
        ensures
            final(self).inv(),
            ({
                let step = old(self)@.relaying(interface, packet@, now, old(actions)@);
                final(self)@ == step.node && final(actions)@ == step.actions
            }),
    {
        if !self.transport.relay_announces || packet.destination == self.destination() {
            return ;
        }
        if packet.hops >= self.transport.max_hops {
            self.count_hop_limit();
            return ;
        }
        let hash = packet.hash();
        proof {
            AddressHash::lemma_with(hash);
        }
        if !self.transit_is_new(hash, now) {
            return ;
        }
        let own = self.identity_hash();
        if actions.send(interface, forward(packet, Some(own))) {
            self.transport_counters.forwarded_announces = count_up(
                self.transport_counters.forwarded_announces,
                1,
            );
        }
    }
}

/// A packet on its way to the next hop.
fn forward(packet: &Packet, transport: Option<AddressHash>) -> (next: Packet)
    ensures
        next@ == forwarded(packet@, transport),
{
    let mut next = packet.clone();
    next.hops = packet.hops.saturating_add(1);
    next.header_type = if transport.is_some() {
        HeaderType::Type2
    } else {
        HeaderType::Type1
    };
    next.transport = transport;
    next
}

/// What is hashed for half of a responder's seed.
pub open spec fn seed_input(tag: Seq<char>, secret: Seq<u8>, link_id: Seq<u8>) -> Seq<u8> {
    vstd::utf8::encode_utf8(tag) + secret + link_id
}

/// Hash a tag, a secret and a link.
fn seed_half(tag: &str, secret: &[u8], link_id: &AddressHash) -> (digest: [u8; 32])
    ensures
        digest == sha256(seed_input(tag@, secret@, link_id@)),
{
    let mut input: Vec<u8> = Vec::new();
    bytes::append(&mut input, tag.as_bytes());
    bytes::append(&mut input, secret);
    bytes::append(&mut input, link_id.as_slice());
    assert(input@ =~= seed_input(tag@, secret@, link_id@));
    full_hash(input.as_slice())
}

/// Whether a link-packet context belongs to a resource transfer.
fn is_resource_context(context: u8) -> (there: bool)
    ensures
        there == of_resource(context),
{
    context >= 1 && context <= 7
}

impl<
    const PEERS: usize,
    const ACTIONS: usize,
    const LINKS: usize,
    const ROUTES: usize,
> Node<PEERS, ACTIONS, LINKS, ROUTES> {
    /// The next derived resource IV for a link: the first 16 bytes of the hash of a tag, the
    /// identity's secret, the link id and a counter.
    ///
    /// Deterministic on purpose — this layer holds no RNG — and unique by the counter, which
    /// the node owns and never resets.
    pub fn derive_iv(&mut self, link_id: AddressHash) -> (iv: [u8; 16])
        requires
            old(self).inv(),
        ensures
            final(self).inv(),
            final(self)@ == (NodeModel {
                iv_counter: old(self)@.iv_counter.wrapping_add(1),
                ..old(self)@
            }),
            iv@ == sha256(
                iv_input(old(self)@.secret, link_id@, final(self)@.iv_counter),
            )@.subrange(0, 16),
    {
        self.iv_counter = self.iv_counter.wrapping_add(1);
        let counter: u32 = self.iv_counter;
        let secret = self.identity.to_secret_bytes();
        let tag: &str = "retinue/node/resource-iv";
        let mut input: Vec<u8> = Vec::new();
        bytes::append(&mut input, tag.as_bytes());
        bytes::append(&mut input, &secret);
        bytes::append(&mut input, link_id.as_slice());
        input.push((counter % 0x100) as u8);
        input.push((counter / 0x100 % 0x100) as u8);
        input.push((counter / 0x1_0000 % 0x100) as u8);
        input.push((counter / 0x100_0000) as u8);
        assert(input@ =~= iv_input(secret@, link_id@, counter));
        let digest = full_hash(input.as_slice());
        let slice: &[u8] = &digest;
        bytes::array_at::<16>(slice, 0)
    }

    /// A responder ephemeral seed, derived from our identity and the link id.
    ///
    /// This layer has no RNG, and an initiator supplies its own seed from the shell. A
    /// responder answers packets it did not ask for, so it cannot be handed one per request
    /// without threading entropy through every ingest. Deriving it keeps the seed
    /// unpredictable without our private key and makes a retransmitted request reproduce the
    /// same proof.
    pub fn responder_seed(&self, link_id: &AddressHash) -> (seed: [u8; 64])
        ensures
            seed@ == sha256(
                seed_input("retinue/node/responder/a"@, self@.secret, link_id@),
            )@ + sha256(seed_input("retinue/node/responder/b"@, self@.secret, link_id@))@,
    {
        let secret = self.identity.to_secret_bytes();
        let first = seed_half("retinue/node/responder/a", &secret, link_id);
        let second = seed_half("retinue/node/responder/b", &secret, link_id);
        let mut seed: Vec<u8> = Vec::new();
        bytes::append(&mut seed, &first);
        bytes::append(&mut seed, &second);
        assert(seed@ =~= first@ + second@);
        assert(seed@.subrange(0, 64) =~= seed@);
        bytes::array_at::<64>(seed.as_slice(), 0)
    }

    /// Build this node's announce packet.
    pub fn announce(&self, blob: &AnnounceBlob, ratchet: Option<[u8; RATCHET_LEN]>) -> (packet:
        Packet)
        ensures
            packet@ == self@.announce_packet(
                blob@,
                match ratchet {
                    Some(r) => Some(r@),
                    None => None,
                },
            ),
    {
        let packet = announce::build(
            &self.identity,
            self.name_hash,
            blob.as_bytes(),
            ratchet,
            self.app_data.as_slice(),
        );
        proof {
            AddressHash::lemma_with(packet.destination);
        }
        packet
    }

    /// Whether the node should attempt its own announce at `now`.
    ///
    /// This predicate is separate from blob availability. A shell may be due to announce while
    /// it is still waiting for a reservation-backed blob; in that case [`Node::poll`] runs
    /// maintenance and leaves this predicate true for the next poll.
    pub fn announce_due(&self, now: u64) -> (due: bool)
        ensures
            due == self@.announce_is_due(now),
    {
        match self.last_announce {
            None => true,
            Some(last) => elapsed(now, last) >= self.announce_interval,
        }
    }

    /// Forget that we announced, so the next [`Node::poll`] announces again.
    ///
    /// `poll` stamps the announce when it *decides* to send one, because it cannot know whether
    /// the shell got it onto the air. When the shell could not — a busy channel, a radio fault
    /// — the stamp would otherwise swallow the failure. A shell that knows its send failed
    /// calls this; the shell is also responsible for bounding how often.
    pub fn retry_announce(&mut self)
        requires
            old(self).inv(),
        ensures
            final(self).inv(),
            final(self)@ == (NodeModel { last_announce: None, ..old(self)@ }),
    {
        self.last_announce = None;
    }

    /// A verified announce, whatever freshness makes of it.
    fn on_announce(
        &mut self,
        interface: InterfaceId,
        packet: &Packet,
        now: u64,
        actions: &mut Actions<ACTIONS>,
    )
        requires
            old(self).inv(),
        ensures
            final(self).inv(),
            ({
                let step = old(self)@.announced_to(interface, packet@, now, old(actions)@);
                final(self)@ == step.node && final(actions)@ == step.actions
            }),
    {
        let announce = match Announce::decode(packet) {
            Err(_) => {
                return ;
            },
            Ok(announce) => announce,
        };
        let candidate = AnnounceFreshnessCandidate {
            destination: announce.destination,
            blob: AnnounceBlob::from_wire(announce.rand_hash),
            hops: packet.hops,
        };
        assert(candidate == NodeModel::candidate(packet@));
        match self.freshness.evaluate(candidate, now, self.transport.route_ttl) {
            AnnounceFreshnessDecision::Reject(reason) => {
                match reason {
                    AnnounceFreshnessReject::Replay => {
                        self.transport_counters.replayed_announces = count_up(
                            self.transport_counters.replayed_announces,
                            1,
                        );
                    },
                    AnnounceFreshnessReject::StaleTimebase => {
                        self.transport_counters.stale_announces = count_up(
                            self.transport_counters.stale_announces,
                            1,
                        );
                    },
                }
            },
            AnnounceFreshnessDecision::Accept(_) => {
                if self.book.ingest(&announce) == Ingested::Refused {
                    self.refused_peers = count_up(self.refused_peers, 1);
                    return ;
                }
                self.take_announce(interface, packet, candidate, now, actions);
            },
        }
    }

    /// Carry out an admitted announce.
    fn take_announce(
        &mut self,
        interface: InterfaceId,
        packet: &Packet,
        candidate: AnnounceFreshnessCandidate,
        now: u64,
        actions: &mut Actions<ACTIONS>,
    )
        requires
            old(self).inv(),
            candidate == NodeModel::candidate(packet@),
        ensures
            final(self).inv(),
            ({
                let step = old(self)@.admitting(interface, packet@, now, old(actions)@);
                final(self)@ == step.node && final(actions)@ == step.actions
            }),
    {
        let ghost before = self@;
        let record = self.freshness.record_accepted(candidate, now);
        let mut c = self.transport_counters;
        c.expired_freshness_rows = count_up(c.expired_freshness_rows, record.expired_destinations);
        c.expired_freshness_blobs = count_up(c.expired_freshness_blobs, record.expired_blobs);
        c.evicted_freshness_rows = count_up(
            c.evicted_freshness_rows,
            count_of(record.evicted_destination.is_some()),
        );
        c.evicted_freshness_blobs = count_up(
            c.evicted_freshness_blobs,
            count_of(record.evicted_blob.is_some()),
        );
        self.transport_counters = c;
        proof {
            assert(self@ == before.recording(candidate, now));
        }
        if self.transport.relay_announces || self.transport.relay_packets {
            self.learn_route(
                Route {
                    destination: packet.destination,
                    interface,
                    transport: packet.transport,
                    hops: packet.hops,
                    learned: now,
                },
            );
        }
        let _ = actions.push(Action::Learned { destination: packet.destination });
        self.relay_announce(interface, packet, now, actions);
    }

    /// A peer wants a link to us.
    fn on_link_request(
        &mut self,
        interface: InterfaceId,
        packet: &Packet,
        now: u64,
        reading: &LinkReading,
        actions: &mut Actions<ACTIONS>,
    )
        requires
            old(self).inv(),
        ensures
            final(self).inv(),
            ({
                let step = old(self)@.link_requested(
                    interface,
                    packet@,
                    now,
                    reading@,
                    old(actions)@,
                );
                final(self)@ == step.node && final(actions)@ == step.actions
            }),
    {
        // Only for the destination this node answers to. Transport requests were handled before
        // local dispatch; anything that reaches here is not ours to answer.
        if packet.destination != self.destination() {
            return ;
        }
        let id = match reading.link_id {
            None => {
                return ;
            },
            Some(id) => id,
        };
        proof {
            lemma_link_index(self.links.view(), id);
        }
        // Already established: the peer did not hear our proof, so send the same one again.
        if let Some(i) = recent::find(&self.links, &id) {
            let proof_packet = self.links.items()[i].proof.clone();
            let _ = actions.send(interface, proof_packet);
            return ;
        }
        if self.links.len() >= LINKS {
            self.refused_links = count_up(self.refused_links, 1);
            return ;
        }
        if let Some(accepted) = &reading.accepted {
            self.add_link(id, accepted, now);
            let _ = actions.send(interface, accepted.clone());
            let _ = actions.push(Action::LinkUp { link_id: id });
        }
    }

    /// Take a link into the table, which has room.
    fn add_link(&mut self, link_id: AddressHash, proof_packet: &Packet, now: u64)
        requires
            old(self).inv(),
            old(self)@.links.len() < LINKS,
        ensures
            final(self).inv(),
            final(self)@ == (NodeModel {
                links: old(self)@.links.push(
                    LinkModel { link_id, proof: proof_packet@, seen: now },
                ),
                ..old(self)@
            }),
    {
        let ghost before = self.links.view();
        let slot = LinkSlot { link_id, proof: proof_packet.clone(), seen: now };
        let _ = self.links.push(slot);
        proof {
            assert(link_models(before.push(slot)) =~= link_models(before).push(slot@));
        }
    }

    /// A proof for a link we opened.
    fn on_proof(
        &mut self,
        packet: &Packet,
        now: u64,
        reading: &LinkReading,
        actions: &mut Actions<ACTIONS>,
    )
        requires
            old(self).inv(),
        ensures
            final(self).inv(),
            ({
                let step = old(self)@.link_proved(packet@, now, reading@, old(actions)@);
                final(self)@ == step.node && final(actions)@ == step.actions
            }),
    {
        if let Some(id) = reading.proved {
            if let Some(i) = recent::find(&self.pending, &id) {
                let _ = self.pending.swap_remove(i);
                if self.links.len() >= LINKS {
                    self.refused_links = count_up(self.refused_links, 1);
                    return ;
                }
                // Our own proof has no place here: this side was the initiator, so there is
                // nothing to re-send. The stored packet is the proof we received, kept only for
                // symmetry.
                self.add_link(id, packet, now);
                let _ = actions.push(Action::LinkUp { link_id: id });
            }
        }
    }

    /// Traffic on an established link.
    fn on_link_data(
        &mut self,
        interface: InterfaceId,
        packet: &Packet,
        now: u64,
        reading: &LinkReading,
        actions: &mut Actions<ACTIONS>,
    )
        requires
            old(self).inv(),
        ensures
            final(self).inv(),
            ({
                let step = old(self)@.link_carried(
                    interface,
                    packet@,
                    now,
                    reading@,
                    old(actions)@,
                );
                final(self)@ == step.node && final(actions)@ == step.actions
            }),
    {
        let id = packet.destination;
        let ghost before = self@;
        let ghost held = self.links.view();
        proof {
            lemma_link_index(held, id);
        }
        let i: usize = match recent::find(&self.links, &id) {
            None => {
                return ;
            },
            Some(i) => i,
        };
        // Heard from: this is what keeps the slot. Recorded before dispatching, so a resource
        // transfer counts as liveness exactly as a keepalive does.
        let kept = self.links.items()[i].proof.clone();
        let label = self.links.items()[i].link_id;
        let slot = LinkSlot { link_id: label, proof: kept, seen: now };
        self.links.set(i, slot);
        proof {
            assert(link_models(held.update(i as int, slot)) =~= link_models(held).update(
                i as int,
                slot@,
            ));
            assert(self@ == (NodeModel {
                links: before.links.update(
                    i as int,
                    LinkModel { seen: now, ..before.links[i as int] },
                ),
                ..before
            }));
        }
        // Resource contexts are a transfer's business, not the link's.
        if is_resource_context(packet.context) {
            self.on_resource(interface, id, now, reading, actions);
            return ;
        }
        match &reading.content {
            LinkContent::Data(payload) => {
                let _ = actions.push(
                    Action::Data { link_id: id, payload: bytes::copy_all(payload.as_slice()) },
                );
            },
            LinkContent::Close => {
                self.drop_link(i, actions);
            },
            // Keepalives, RTT, requests and responses are dropped rather than mishandled.
            LinkContent::Nothing => {},
        }
    }

    /// A packet belonging to a resource transfer on this link.
    fn on_resource(
        &mut self,
        interface: InterfaceId,
        link_id: AddressHash,
        now: u64,
        reading: &LinkReading,
        actions: &mut Actions<ACTIONS>,
    )
        requires
            old(self).inv(),
        ensures
            final(self).inv(),
            ({
                let step = old(self)@.transferred(
                    interface,
                    link_id,
                    now,
                    reading@,
                    old(actions)@,
                );
                final(self)@ == step.node && final(actions)@ == step.actions
            }),
    {
        let slot = TransferSlot { link_id, at: now };
        let transfer = &reading.transfer;
        // An outbound transfer's replies come back on the same link, so try the sender first:
        // only one direction can own a given context on a given link at a time.
        if let Some(i) = recent::find(&self.senders, &link_id) {
            if transfer.ended {
                let _ = self.senders.swap_remove(i);
            } else {
                self.senders.set(i, slot);
            }
            actions.send_all(interface, transfer.replies.as_slice());
            return ;
        }
        let ghost had = self.receivers.view();
        let at: usize = match recent::find(&self.receivers, &link_id) {
            Some(i) => {
                self.receivers.set(i, slot);
                i
            },
            None => {
                // A receiver made for a packet that then said nothing did not accept the
                // transfer: an advertisement past the part ceiling is refused this way.
                if self.receivers.len() >= LINKS || (transfer.replies.len() == 0
                    && transfer.data.is_none()) {
                    self.refused_offers = count_up(self.refused_offers, 1);
                    return ;
                }
                let _ = self.receivers.push(slot);
                self.receivers.len() - 1
            },
        };
        actions.send_all(interface, transfer.replies.as_slice());
        match &transfer.data {
            Some(data) => {
                let _ = actions.push(
                    Action::Resource { link_id, data: bytes::copy_all(data.as_slice()) },
                );
                let _ = self.receivers.swap_remove(at);
            },
            None => {
                if transfer.ended {
                    let _ = self.receivers.swap_remove(at);
                }
            },
        }
    }

    /// Drop a link and everything riding on it.
    fn drop_link(&mut self, i: usize, actions: &mut Actions<ACTIONS>)
        requires
            old(self).inv(),
            i < old(self)@.links.len(),
        ensures
            final(self).inv(),
            final(self)@ == old(self)@.link_dropped(i as int, old(actions)@).node,
            final(actions)@ == old(self)@.link_dropped(i as int, old(actions)@).actions,
    {
        let ghost held = self.links.view();
        let link_id = self.links.items()[i].link_id;
        let _ = self.links.swap_remove(i);
        proof {
            assert(link_models(swapped_out(held, i as int)) =~= swapped_out(
                link_models(held),
                i as int,
            ));
        }
        // A transfer without its link is state nobody can finish, so it goes too.
        recent::drop_under(&mut self.receivers, &link_id);
        recent::drop_under(&mut self.senders, &link_id);
        let _ = actions.push(Action::LinkDown { link_id });
    }

    /// Feed a received packet in, with what the link layer made of it.
    ///
    /// Anything malformed, unsigned, or not addressed to work this node does is dropped
    /// silently: a peer must not be able to make a board spend memory by sending rubbish.
    pub fn ingest(
        &mut self,
        interface: InterfaceId,
        packet: &Packet,
        now: u64,
        reading: &LinkReading,
    ) -> (actions: Actions<ACTIONS>)
        requires
            old(self).inv(),
        ensures
            final(self).inv(),
            ({
                let step = old(self)@.ingested(
                    interface,
                    packet@,
                    now,
                    reading@,
                    ACTIONS as nat,
                );
                final(self)@ == step.node && actions@ == step.actions
            }),
    {
        let mut actions: Actions<ACTIONS> = Actions::new();
        self.expire_transport_state(now);
        if packet.packet_type == PacketType::Announce {
            self.on_announce(interface, packet, now, &mut actions);
            return actions;
        }
        if self.forward_bridged_packet(interface, packet, now, &mut actions) {
            return actions;
        }
        if self.forward_transport_packet(interface, packet, now, reading.link_id, &mut actions) {
            return actions;
        }
        match packet.packet_type {
            PacketType::LinkRequest => {
                self.on_link_request(interface, packet, now, reading, &mut actions);
            },
            PacketType::Proof => {
                self.on_proof(packet, now, reading, &mut actions);
            },
            _ => {
                self.on_link_data(interface, packet, now, reading, &mut actions);
            },
        }
        actions
    }
}

/// The links whose transfers are due, in their order.
fn list_due<const N: usize>(slots: &BoundedVec<TransferSlot, N>, now: u64) -> (due: Vec<
    AddressHash,
>)
    ensures
        due@ == due_slots(slots.view(), now),
{
    let items = slots.items();
    let mut due: Vec<AddressHash> = Vec::new();
    let mut i: usize = 0;
    proof {
        assert(items@.subrange(0, 0) =~= Seq::<TransferSlot>::empty());
    }
    while i < items.len()
        invariant
            i <= items@.len(),
            due@ == due_slots(items@.subrange(0, i as int), now),
        decreases items@.len() - i,
    {
        let ghost next = items@.subrange(0, i + 1);
        proof {
            assert(next.drop_last() =~= items@.subrange(0, i as int));
        }
        if elapsed(now, items[i].at) >= RESOURCE_RETRY_INTERVAL {
            due.push(items[i].link_id);
        }
        i += 1;
    }
    proof {
        assert(items@.subrange(0, i as int) =~= items@);
    }
    due
}

/// Stamp the transfers that are due.
fn stamp_due<const N: usize>(slots: &mut BoundedVec<TransferSlot, N>, now: u64)
    ensures
        final(slots).view() == redriven(old(slots).view(), now),
{
    let ghost before = slots.view();
    let n: usize = slots.len();
    let mut i: usize = 0;
    while i < n
        invariant
            i <= n,
            n == before.len(),
            slots.view().len() == n,
            forall|j: int| 0 <= j < i ==> #[trigger] slots.view()[j] == redriven(before, now)[j],
            forall|j: int| i <= j < n ==> #[trigger] slots.view()[j] == before[j],
        decreases n - i,
    {
        let slot = slots.items()[i];
        if elapsed(now, slot.at) >= RESOURCE_RETRY_INTERVAL {
            slots.set(i, TransferSlot { link_id: slot.link_id, at: now });
        }
        i += 1;
    }
    proof {
        assert(slots.view() =~= redriven(before, now));
    }
}

/// What is sent of two runs of packets is what is sent of both.
proof fn lemma_sending_all_concat(
    actions: ActionsModel,
    interface: InterfaceId,
    a: Seq<PacketModel>,
    b: Seq<PacketModel>,
)
    ensures
        actions.sending_all(interface, a + b) == actions.sending_all(interface, a).sending_all(
            interface,
            b,
        ),
    decreases b.len(),
{
    if b.len() == 0 {
        assert(a + b =~= a);
    } else {
        assert((a + b).drop_last() =~= a + b.drop_last());
        lemma_sending_all_concat(actions, interface, a, b.drop_last());
    }
}

/// Send the first `n` of several lists of packets.
fn send_lists<const N: usize>(
    actions: &mut Actions<N>,
    interface: InterfaceId,
    lists: &Vec<Vec<Packet>>,
    n: usize,
)
    ensures
        final(actions)@ == old(actions)@.sending_all(
            interface,
            flattened(at_most(lists@, n as nat)),
        ),
{
    let ghost before = actions@;
    let ghost all = at_most(lists@, n as nat);
    let mut i: usize = 0;
    proof {
        assert(all.subrange(0, 0) =~= Seq::<Vec<Packet>>::empty());
    }
    while i < lists.len() && i < n
        invariant
            i <= all.len(),
            all == at_most(lists@, n as nat),
            actions@ == before.sending_all(interface, flattened(all.subrange(0, i as int))),
        decreases lists@.len() - i,
    {
        let ghost next = all.subrange(0, i + 1);
        proof {
            assert(next.drop_last() =~= all.subrange(0, i as int));
            assert(next.last() == lists@[i as int]);
            lemma_sending_all_concat(
                before,
                interface,
                flattened(all.subrange(0, i as int)),
                packet_models(lists@[i as int]@),
            );
        }
        actions.send_all(interface, lists[i].as_slice());
        i += 1;
    }
    proof {
        assert(all.subrange(0, i as int) =~= all);
    }
}

/// Send the first `n` of several packets.
fn send_some<const N: usize>(
    actions: &mut Actions<N>,
    interface: InterfaceId,
    packets: &Vec<Packet>,
    n: usize,
)
    ensures
        final(actions)@ == old(actions)@.sending_all(
            interface,
            packet_models(at_most(packets@, n as nat)),
        ),
{
    let ghost before = actions@;
    let ghost all = packet_models(at_most(packets@, n as nat));
    let mut i: usize = 0;
    proof {
        assert(all.subrange(0, 0) =~= Seq::<PacketModel>::empty());
    }
    while i < packets.len() && i < n
        invariant
            i <= all.len(),
            all == packet_models(at_most(packets@, n as nat)),
            actions@ == before.sending_all(interface, all.subrange(0, i as int)),
        decreases packets@.len() - i,
    {
        let ghost next = all.subrange(0, i + 1);
        proof {
            assert(next.drop_last() =~= all.subrange(0, i as int));
            assert(next.last() == packets@[i as int]@);
        }
        let _ = actions.send(interface, packets[i].clone());
        i += 1;
    }
    proof {
        assert(all.subrange(0, i as int) =~= all);
    }
}

impl<
    const PEERS: usize,
    const ACTIONS: usize,
    const LINKS: usize,
    const ROUTES: usize,
> Node<PEERS, ACTIONS, LINKS, ROUTES> {
    /// The links whose receivers have heard nothing for a retry interval: each re-requests
    /// exactly what it is missing on the next [`Node::poll`].
    pub fn due_receivers(&self, now: u64) -> (due: Vec<AddressHash>)
        ensures
            due@ == due_slots(self@.receivers, now),
    {
        list_due(&self.receivers, now)
    }

    /// The links whose senders have heard nothing for a retry interval: each re-offers its
    /// advertisement on the next [`Node::poll`].
    pub fn due_senders(&self, now: u64) -> (due: Vec<AddressHash>)
        ensures
            due@ == due_slots(self@.senders, now),
    {
        list_due(&self.senders, now)
    }

    /// Advance the node's own timers.
    ///
    /// The shell supplies an optional typed announce blob. Clock acquisition, durable
    /// reservation, and nonce policy stay outside this executor-neutral layer. If an announce
    /// is due but no blob is available, the announce is skipped and remains due on the next
    /// poll; maintenance still runs. `redrive` holds what the transfers that are due want sent
    /// again.
    pub fn poll(
        &mut self,
        now: u64,
        interface: InterfaceId,
        blob: Option<&AnnounceBlob>,
        redrive: &Redrive,
    ) -> (actions: Actions<ACTIONS>)
        requires
            old(self).inv(),
        ensures
            final(self).inv(),
            ({
                let step = old(self)@.polled(
                    now,
                    interface,
                    match blob {
                        Some(b) => Some(*b),
                        None => None,
                    },
                    *redrive,
                    ACTIONS as nat,
                );
                final(self)@ == step.node && actions@ == step.actions
            }),
    {
        let mut actions: Actions<ACTIONS> = Actions::new();
        self.expire_transport_state(now);
        // Reclaim slots held by peers that stopped answering: a peer that lost power does not
        // send a close, so nothing else frees its slot.
        proof {
            lemma_link_aging(self.links.view(), now, LINK_IDLE_TIMEOUT);
        }
        let gone: usize = recent::drop_aged(&mut self.links, now, LINK_IDLE_TIMEOUT);
        self.expired_links = count_up(self.expired_links, gone);
        if let Some(blob) = blob {
            if self.announce_due(now) {
                self.last_announce = Some(now);
                let _ = actions.send(interface, self.announce(blob, None));
            }
        }
        // Loss recovery. A transfer that has heard nothing for a retry interval is redriven: a
        // receiver re-requests exactly what it is missing, a sender re-offers an advertisement
        // nobody answered.
        let receivers: usize = self.due_receivers(now).len();
        send_lists(&mut actions, interface, &redrive.requests, receivers);
        stamp_due(&mut self.receivers, now);
        let senders: usize = self.due_senders(now).len();
        send_some(&mut actions, interface, &redrive.advertisements, senders);
        stamp_due(&mut self.senders, now);
        actions
    }
}

// ---------------------------------------------------------------------------------------
// Absence.
/// What a node's links allow of an absence.
#[derive(Debug, Clone, Copy, PartialEq, Eq, Structural)]
pub struct PauseAssessment {
    /// When the first link falls idle, if there is a link and its time can be told.
    pub earliest_link_expiry: Option<u64>,
    /// When a peer was last heard from, if there is a link.
    pub latest_link_activity: Option<u64>,
    /// Whether a link's expiry lies beyond what the clock can tell.
    pub expiry_overflows: bool,
}

/// Why a node cannot be absent without losing sessions.
#[derive(Debug, Clone, Copy, PartialEq, Eq, Structural)]
pub enum PauseBlocked {
    /// The absence would end before it began.
    ReturnBoundBeforeNow { now: u64, return_by: u64 },
    /// A link was heard from later than now: the clock cannot be trusted.
    ClockBeforeLinkActivity { now: u64, latest_activity: u64 },
    /// A link's expiry lies beyond what the clock can tell.
    LinkExpiryOverflow,
    /// A link would fall idle before the return.
    LinkExpiresBeforeReturn { expires_at: u64, return_by: u64 },
}

/// Whether a caller lets sessions go.
#[derive(Debug, Clone, Copy, PartialEq, Eq, Structural)]
pub enum InterruptionPermission {
    /// Sessions must survive the absence.
    PreserveSessions,
    /// Sessions may be ended.
    AllowSessionLoss,
}

/// What was ended to make an absence possible.
#[derive(Debug, PartialEq, Eq)]
pub struct InterruptionReport {
    /// The links that ended; the shell tells their peers.
    pub links: Vec<AddressHash>,
    /// The links that were waiting for their proof.
    pub pending: Vec<AddressHash>,
}

/// What fell idle.
#[derive(Debug, PartialEq, Eq)]
pub struct SessionExpiryReport {
    /// The links that were reclaimed.
    pub links: Vec<AddressHash>,
}

/// When the first of several links falls idle.
pub open spec fn earliest_expiry(links: Seq<LinkModel>) -> Option<u64>
    decreases links.len(),
{
    if links.len() == 0 {
        None
    } else {
        let at = links.last().seen + LINK_IDLE_TIMEOUT;
        match earliest_expiry(links.drop_last()) {
            None => if at <= u64::MAX {
                Some(at as u64)
            } else {
                None
            },
            Some(before) => if at < before {
                Some(at as u64)
            } else {
                Some(before)
            },
        }
    }
}

/// When a peer was last heard from.
pub open spec fn latest_activity(links: Seq<LinkModel>) -> Option<u64>
    decreases links.len(),
{
    if links.len() == 0 {
        None
    } else {
        match latest_activity(links.drop_last()) {
            None => Some(links.last().seen),
            Some(before) => if links.last().seen > before {
                Some(links.last().seen)
            } else {
                Some(before)
            },
        }
    }
}

/// Whether a link's expiry lies beyond what the clock can tell.
pub open spec fn expiry_overflows(links: Seq<LinkModel>) -> bool {
    exists|i: int| 0 <= i < links.len() && (#[trigger] links[i]).seen + LINK_IDLE_TIMEOUT > u64::MAX
}

/// The ids of links, in their order.
pub open spec fn link_ids(links: Seq<LinkModel>) -> Seq<AddressHash> {
    Seq::new(links.len(), |i: int| links[i].link_id)
}

/// The ids of the links that have fallen idle, in their order.
pub open spec fn idle_ids(links: Seq<LinkModel>, now: u64) -> Seq<AddressHash>
    decreases links.len(),
{
    if links.len() == 0 {
        Seq::empty()
    } else if is_aged(links.last(), now, LINK_IDLE_TIMEOUT) {
        idle_ids(links.drop_last(), now).push(links.last().link_id)
    } else {
        idle_ids(links.drop_last(), now)
    }
}

impl PauseAssessment {
    /// What stands against an absence until `return_by`.
    pub open spec fn obstacle(self, now: u64, return_by: u64) -> Option<PauseBlocked> {
        if return_by < now {
            Some(PauseBlocked::ReturnBoundBeforeNow { now, return_by })
        } else if self.latest_link_activity is Some && self.latest_link_activity->0 > now {
            Some(
                PauseBlocked::ClockBeforeLinkActivity {
                    now,
                    latest_activity: self.latest_link_activity->0,
                },
            )
        } else if self.expiry_overflows {
            Some(PauseBlocked::LinkExpiryOverflow)
        } else if self.earliest_link_expiry is Some && self.earliest_link_expiry->0 <= return_by {
            Some(
                PauseBlocked::LinkExpiresBeforeReturn {
                    expires_at: self.earliest_link_expiry->0,
                    return_by,
                },
            )
        } else {
            None
        }
    }

    /// Whether every link outlives an absence until `return_by`.
    pub fn can_pause_through(&self, now: u64, return_by: u64) -> (result: Result<(), PauseBlocked>)
        ensures
            match result {
                Ok(()) => self.obstacle(now, return_by) is None,
                Err(e) => self.obstacle(now, return_by) == Some(e),
            },
    {
        if return_by < now {
            return Err(PauseBlocked::ReturnBoundBeforeNow { now, return_by });
        }
        if let Some(latest) = self.latest_link_activity {
            if latest > now {
                return Err(
                    PauseBlocked::ClockBeforeLinkActivity { now, latest_activity: latest },
                );
            }
        }
        if self.expiry_overflows {
            return Err(PauseBlocked::LinkExpiryOverflow);
        }
        if let Some(expires_at) = self.earliest_link_expiry {
            if expires_at <= return_by {
                return Err(PauseBlocked::LinkExpiresBeforeReturn { expires_at, return_by });
            }
        }
        Ok(())
    }
}

impl NodeModel {
    /// What the links allow of an absence.
    pub open spec fn assessment(self) -> PauseAssessment {
        PauseAssessment {
            earliest_link_expiry: earliest_expiry(self.links),
            latest_link_activity: latest_activity(self.links),
            expiry_overflows: expiry_overflows(self.links),
        }
    }

    /// Without any session of its own.
    pub open spec fn interrupted(self) -> NodeModel {
        NodeModel {
            links: Seq::empty(),
            pending: Seq::empty(),
            receivers: Seq::empty(),
            senders: Seq::empty(),
            ..self
        }
    }

    /// Without the links that have fallen idle.
    pub open spec fn sessions_expired(self, now: u64) -> NodeModel {
        let kept = without_aged(self.links, now, LINK_IDLE_TIMEOUT);
        NodeModel {
            links: kept,
            expired_links: counted_up(self.expired_links, self.links.len() - kept.len()),
            ..self
        }
    }
}

impl<
    const PEERS: usize,
    const ACTIONS: usize,
    const LINKS: usize,
    const ROUTES: usize,
> Node<PEERS, ACTIONS, LINKS, ROUTES> {
    /// What the links allow of an absence.
    pub fn pause_assessment(&self) -> (assessment: PauseAssessment)
        ensures
            assessment == self@.assessment(),
    {
        let items = self.links.items();
        let ghost all = self@.links;
        let mut earliest: Option<u64> = None;
        let mut latest: Option<u64> = None;
        let mut overflows = false;
        let mut i: usize = 0;
        proof {
            assert(all.subrange(0, 0) =~= Seq::<LinkModel>::empty());
        }
        while i < items.len()
            invariant
                i <= items@.len(),
                all == link_models(items@),
                earliest == earliest_expiry(all.subrange(0, i as int)),
                latest == latest_activity(all.subrange(0, i as int)),
                overflows == (exists|j: int|
                    0 <= j < i && (#[trigger] all[j]).seen + LINK_IDLE_TIMEOUT > u64::MAX),
            decreases items@.len() - i,
        {
            let ghost next = all.subrange(0, i + 1);
            let seen: u64 = items[i].seen;
            proof {
                assert(next.drop_last() =~= all.subrange(0, i as int));
                assert(next.last() == all[i as int]);
                assert(all[i as int].seen == seen);
            }
            match seen.checked_add(LINK_IDLE_TIMEOUT) {
                None => {
                    overflows = true;
                },
                Some(at) => {
                    earliest = match earliest {
                        None => Some(at),
                        Some(before) => if at < before {
                            Some(at)
                        } else {
                            Some(before)
                        },
                    };
                },
            }
            latest = match latest {
                None => Some(seen),
                Some(before) => if seen > before {
                    Some(seen)
                } else {
                    Some(before)
                },
            };
            i += 1;
        }
        proof {
            assert(all.subrange(0, i as int) =~= all);
        }
        PauseAssessment {
            earliest_link_expiry: earliest,
            latest_link_activity: latest,
            expiry_overflows: overflows,
        }
    }

    /// End every session of this node, if the caller lets them go.
    pub fn force_interrupt(&mut self, permission: InterruptionPermission) -> (report: Option<
        InterruptionReport,
    >)
        requires
            old(self).inv(),
        ensures
            final(self).inv(),
            report is Some <==> permission == InterruptionPermission::AllowSessionLoss,
            report matches Some(r) ==> r.links@ == link_ids(old(self)@.links) && r.pending@
                == Seq::new(old(self)@.pending.len(), |i: int| old(self)@.pending[i].link_id)
                && final(self)@ == old(self)@.interrupted(),
            report is None ==> final(self)@ == old(self)@,
    {
        if permission != InterruptionPermission::AllowSessionLoss {
            return None;
        }
        let ghost before = self@;
        let links = list_ids(&self.links);
        let pending = list_ids(&self.pending);
        proof {
            assert(links@ =~= link_ids(before.links));
            assert(pending@ =~= Seq::new(
                before.pending.len(),
                |i: int| before.pending[i].link_id,
            ));
        }
        self.links = BoundedVec::new();
        self.pending = BoundedVec::new();
        self.receivers = BoundedVec::new();
        self.senders = BoundedVec::new();
        proof {
            assert(self@.links =~= Seq::<LinkModel>::empty());
        }
        Some(InterruptionReport { links, pending })
    }

    /// Reclaim the links that have fallen idle.
    pub fn expire_sessions(&mut self, now: u64) -> (report: SessionExpiryReport)
        requires
            old(self).inv(),
        ensures
            final(self).inv(),
            report.links@ == idle_ids(old(self)@.links, now),
            final(self)@ == old(self)@.sessions_expired(now),
    {
        let links = self.list_idle(now);
        proof {
            lemma_link_aging(self.links.view(), now, LINK_IDLE_TIMEOUT);
        }
        let gone: usize = recent::drop_aged(&mut self.links, now, LINK_IDLE_TIMEOUT);
        self.expired_links = count_up(self.expired_links, gone);
        SessionExpiryReport { links }
    }

    /// The ids of the links that have fallen idle.
    fn list_idle(&self, now: u64) -> (ids: Vec<AddressHash>)
        ensures
            ids@ == idle_ids(self@.links, now),
    {
        let items = self.links.items();
        let ghost all = self@.links;
        let mut ids: Vec<AddressHash> = Vec::new();
        let mut i: usize = 0;
        proof {
            assert(all.subrange(0, 0) =~= Seq::<LinkModel>::empty());
        }
        while i < items.len()
            invariant
                i <= items@.len(),
                all == link_models(items@),
                ids@ == idle_ids(all.subrange(0, i as int), now),
            decreases items@.len() - i,
        {
            let ghost next = all.subrange(0, i + 1);
            proof {
                assert(next.drop_last() =~= all.subrange(0, i as int));
                assert(next.last() == items@[i as int]@);
            }
            if elapsed(now, items[i].seen) >= LINK_IDLE_TIMEOUT {
                ids.push(items[i].link_id);
            }
            i += 1;
        }
        proof {
            assert(all.subrange(0, i as int) =~= all);
        }
        ids
    }
}

/// What several entries are kept under.
fn list_ids<T: Filed, const N: usize>(list: &BoundedVec<T, N>) -> (ids: Vec<AddressHash>)
    ensures
        ids@.len() == list.view().len(),
        forall|i: int| 0 <= i < ids@.len() ==> #[trigger] ids@[i] == list.view()[i].filed_under(),
{
    let items = list.items();
    let mut ids: Vec<AddressHash> = Vec::new();
    while ids.len() < items.len()
        invariant
            items@ == list.view(),
            ids@.len() <= items@.len(),
            forall|i: int| 0 <= i < ids@.len() ==> #[trigger] ids@[i] == items@[i].filed_under(),
        decreases items@.len() - ids@.len(),
    {
        let n: usize = ids.len();
        ids.push(items[n].label());
    }
    ids
}

} // verus!
