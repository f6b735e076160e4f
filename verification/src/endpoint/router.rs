//! What an endpoint holds, and how one packet or announce changes it.
//!
//! An [`Endpoint`] holds an identity, an address book, and any number of interfaces. Packets
//! read from an interface go to [`Endpoint::route`], tagged with the interface they arrived
//! on: announces populate the address book and the path table, inbound link requests are
//! handed to the link layer, and link data goes to whoever drives the link. Everything an
//! endpoint sends is queued on its interfaces, which the owner of the sockets drains.
//!
//! Times are milliseconds on one monotonic clock that the caller reads.

use std::time::Duration;
use vstd::prelude::*;
use vstd::string::StringExecFns;

use crate::address_book::{AddressBook, BookModel, Ingested};
use crate::announce::{
    announce_error, announced, announcement, announcement_signature, build, Announce,
    AnnounceBlob, AnnounceModel, TimebaseError, TimebaseGenerator, ANNOUNCE_NONCE_LEN,
    ANNOUNCE_TIMEBASE_MAX,
};
use crate::announce_admission::{
    AdmissionModel, AnnounceAdmission, AnnounceIngressCounters, AnnounceIngressPolicy,
    no_counts, release_of, DestinationState, DestinationVerdict, InterfaceState, InterfaceVerdict,
};
use crate::announce_freshness::{
    AnnounceFreshness, AnnounceFreshnessCandidate, AnnounceFreshnessConfig,
    AnnounceFreshnessConfigError, AnnounceFreshnessDecision, AnnounceFreshnessRecord,
    AnnounceFreshnessReject, FreshnessModel,
};
use crate::bytes;
use crate::destination::{destination_of, name_hash_of, DestinationName};
use crate::endpoint::carriers::{
    admission_at, all_closed, all_drained, all_outcomes, all_shaped, all_with_policy, backlog_of,
    counted_all, iface_index, iface_models, ids_of, in_order, offered_all, offered_one,
    relayed_out, relays_taken, taken_out,
};
use crate::endpoint::carriers;
use crate::endpoint::memory::{
    after_hold, can_hold, first_of, proof_room, remembered, without, Bridge, BudgetModel, CachedProofModel,
    HeldAnnounce, HeldAnnounces, HeldModel, LinkBridges, PathRequestBudget, ProofCache,
    SeenAnnounces, LINK_REQUEST_CACHE_TTL, LINK_TRANSPORT_TTL, PATH_REQUEST_GLOBAL_MAX,
    PATH_REQUEST_MIN_INTERVAL, SEEN_ANNOUNCES,
};
use crate::endpoint::paths::{
    addressed, after_learn, current_rows, expired_rows, listed, must_evict, same_hash, states,
    PathEntry, PathTable, RouteFact, PATH_TABLE_CAPACITY,
};
use crate::endpoint::policy::{
    InterfaceId, InterfaceSelector, PolicyModel, QueueCounters, QueueDepths, QueueWeights,
    RoutingCounters, RoutingPolicy, SelectorModel, TrafficClass,
};
use crate::endpoint::queues::{
    Iface, IfaceModel, OutboundQueues, QueueAdmission, QueueModel, SingleQueueResult,
};
use crate::hash::{address_of, name_of, AddressHash, NameHash};
use crate::ifac::Ifac;
use crate::identity::{public_of, Identity, PrivateIdentity};
use crate::packet::{
    DestinationType, HeaderType, Packet, PacketModel, PacketType, Propagation, ENCRYPTED_MDU,
    HEADER_MIN_LEN, MTU,
};
use crate::random::{announce_nonce, random_bytes, relay_jitter};
use crate::table::{age, fresh_part, is_trimmed_to, AddressTable, Table, TableKey};
use crate::text::{append_decimal, decimal};
use crate::time::{duration_ms, span_ms, whole_millis};

verus! {

/// Default link MTU advertised by Reticulum. Radio callers can lower it to keep encrypted
/// Channel frames and resource parts inside a proven RF size.
pub const DEFAULT_LINK_MTU: u32 = 500;

/// Smallest link MTU exercised by the direct-PHY Data and Resource paths. It leaves room for
/// an eight-byte IFAC on a 255-byte packet radio.
pub const MIN_LINK_MTU: u32 = 247;

/// Fast interfaces start here; radio callers can raise it before opening links.
pub const DEFAULT_RELIABLE_INITIAL_RTT_MS: u64 = 750;

/// Default dynamic Channel ceiling. Strict half-duplex callers can lower it without changing
/// the wire format.
pub const DEFAULT_RELIABLE_MAX_WINDOW: u32 = 48;

/// Default interval between identical link-request transmissions while setup is pending.
pub const DEFAULT_LINK_SETUP_RETRY_MS: u64 = 2_000;

/// Host-owned policy for receive-side announce freshness.
///
/// This is deliberately independent of the packet-loop cache: it bounds durable receiver
/// memory and decides whether a verified announce may mutate peer, path, publication, or
/// relay state.
#[derive(Clone, Copy, Debug, PartialEq, Eq)]
pub struct AnnounceFreshnessPolicy {
    /// How long an accepted route remains eligible as the freshness incumbent.
    pub route_ttl: Duration,
    /// Maximum destinations retained in the freshness ledger.
    pub destination_capacity: usize,
    /// Maximum full announce blobs retained for one destination.
    pub blob_capacity: usize,
    /// How long a destination's incumbent and blob history remain replay-protected.
    pub retention: Duration,
}

impl Default for AnnounceFreshnessPolicy {
    fn default() -> (policy: Self)
        ensures
            whole_millis(policy.route_ttl) == 1_800_000,
            policy.destination_capacity == 4_096,
            policy.blob_capacity == 16,
            whole_millis(policy.retention) == 604_800_000,
    {
        AnnounceFreshnessPolicy {
            route_ttl: Duration::from_secs(1_800),
            destination_capacity: 4_096,
            blob_capacity: 16,
            retention: Duration::from_secs(604_800),
        }
    }
}

impl AnnounceFreshnessPolicy {
    /// The bounds it sets the freshness table.
    pub open spec fn bounds(self) -> AnnounceFreshnessConfig {
        AnnounceFreshnessConfig {
            destination_capacity: self.destination_capacity,
            blob_capacity: self.blob_capacity,
            retention_ticks: span_ms(self.retention),
        }
    }

    /// The bounds it sets the freshness table.
    pub fn config(self) -> (config: AnnounceFreshnessConfig)
        ensures
            config == self.bounds(),
    {
        AnnounceFreshnessConfig {
            destination_capacity: self.destination_capacity,
            blob_capacity: self.blob_capacity,
            retention_ticks: duration_ms(self.retention),
        }
    }

    /// How long a route lives, in milliseconds.
    pub fn route_ttl_ticks(self) -> (ticks: u64)
        ensures
            ticks == span_ms(self.route_ttl),
    {
        duration_ms(self.route_ttl)
    }
}

/// Whether an endpoint takes up new work.
#[derive(Clone, Copy, Debug, PartialEq, Eq, Structural)]
pub enum Lifecycle {
    /// It does.
    Running,
    /// It finishes what it has.
    Quiescing,
    /// It has ended.
    Closed,
}

/// What asking an endpoint to wind down found.
#[derive(Clone, Copy, Debug, PartialEq, Eq, Structural)]
pub enum Quiesce {
    /// It starts now.
    Started,
    /// It had started.
    InProgress,
    /// It was over.
    Closed,
}

/// Which side initiated a live link.
#[derive(Clone, Copy, Debug, PartialEq, Eq, Structural)]
pub enum LinkDirection {
    Inbound,
    Outbound,
}

/// The endpoint discipline currently driving a live link.
#[derive(Clone, Copy, Debug, PartialEq, Eq, Structural)]
pub enum LinkFactKind {
    /// Each data packet is decrypted and its plaintext handed on, which is right where the
    /// medium never drops.
    BestEffort,
    /// Raw channel-data and proof packets go to a driver that orders them, proves receipts,
    /// and retransmits.
    Reliable,
    /// Raw resource control, part, and proof packets go to a resource session.
    Resource,
}

/// Remote facts authenticated by link setup or a later IDENTIFY.
#[derive(Clone, Copy, Debug)]
pub struct LinkRemoteFact {
    /// The remote application destination, known for an outbound link request.
    pub destination: Option<AddressHash>,
    /// The remote public identity, known outbound and after a valid inbound IDENTIFY.
    pub identity: Option<Identity>,
}

impl Default for LinkRemoteFact {
    fn default() -> (fact: Self)
        ensures
            fact == (LinkRemoteFact { destination: None, identity: None }),
    {
        LinkRemoteFact { destination: None, identity: None }
    }
}

/// A live link.
#[derive(Clone, Copy, Debug)]
pub struct LinkEntry {
    /// How inbound traffic for this link is handled.
    pub kind: LinkFactKind,
    /// The interface this link's traffic goes out on.
    pub iface: InterfaceId,
    /// Which side initiated it.
    pub direction: LinkDirection,
    /// What is known of the other side.
    pub remote: LinkRemoteFact,
}

/// A destination this endpoint accepts links on.
pub struct Registered {
    /// The destination.
    pub dest: AddressHash,
    /// What kind of links it accepts.
    pub kind: LinkFactKind,
    /// The name this destination announced with, retained so a path request for it can be
    /// answered by re-announcing it as a path response.
    pub name: DestinationName,
    /// The app data it announced with.
    pub app_data: Vec<u8>,
    /// The current receive ratchet, where the host keeps ratchets. `Some` also means
    /// identity-key fallback is refused for single packets, preventing an advertised ratchet
    /// from being silently downgraded.
    pub ratchet: Option<[u8; 32]>,
}

/// A [`Registered`] with its strings as sequences.
pub struct RegisteredModel {
    pub dest: AddressHash,
    pub kind: LinkFactKind,
    pub name: Seq<char>,
    pub app_data: Seq<u8>,
    pub ratchet: Option<[u8; 32]>,
}

impl View for Registered {
    type V = RegisteredModel;

    open spec fn view(&self) -> RegisteredModel {
        RegisteredModel {
            dest: self.dest,
            kind: self.kind,
            name: self.name@,
            app_data: self.app_data@,
            ratchet: self.ratchet,
        }
    }
}

/// What the owner of an endpoint sets for the links opened from then on.
#[derive(Clone, Copy, Debug, PartialEq, Eq, Structural)]
pub struct LinkSettings {
    /// Upper bound, in milliseconds, of the random delay before relaying an announce. Zero
    /// relays immediately.
    pub relay_jitter_ms: u64,
    /// First reliable-channel RTT estimate. Proofs adapt it after traffic starts.
    pub reliable_initial_rtt_ms: u64,
    /// Maximum unproved reliable frames allowed in flight.
    pub reliable_max_window: u32,
    /// Link-request retry interval.
    pub link_setup_retry_ms: u64,
    /// MTU requested and offered.
    pub link_mtu: u32,
}

/// A validated announce observation, surfaced without exposing the endpoint's mutable
/// address book or path table.
#[derive(Debug)]
pub struct AnnounceFact {
    /// The destination hash announced.
    pub destination: AddressHash,
    /// The announcing identity.
    pub identity: Identity,
    /// The app data the announce carried (a host binds its own peer id here).
    pub app_data: Vec<u8>,
    /// The interface on which this observation arrived.
    pub interface: InterfaceId,
    /// Hop count carried by this observation.
    pub hops: u8,
    /// Transport node named by a header-type-2 observation, when present.
    pub transport: Option<AddressHash>,
    /// Endpoint-local monotonic observation order.
    pub sequence: u64,
}

/// Compatibility name for consumers that already treat an announce as a peer record.
pub type PeerAnnounce = AnnounceFact;

/// An [`AnnounceFact`] with its byte strings as sequences.
pub struct FactModel {
    pub destination: AddressHash,
    pub identity: Seq<u8>,
    pub app_data: Seq<u8>,
    pub interface: InterfaceId,
    pub hops: u8,
    pub transport: Option<AddressHash>,
    pub sequence: u64,
}

impl View for AnnounceFact {
    type V = FactModel;

    open spec fn view(&self) -> FactModel {
        FactModel {
            destination: self.destination,
            identity: self.identity@,
            app_data: self.app_data@,
            interface: self.interface,
            hops: self.hops,
            transport: self.transport,
            sequence: self.sequence,
        }
    }
}

/// An announce to be re-broadcast, after the random delay its owner chooses.
pub struct PendingRelay {
    /// The interface it came in on, on which it does not go out.
    pub from: InterfaceId,
    /// The packet.
    pub packet: Packet,
    /// Where it may go out.
    pub egress: InterfaceSelector,
}

/// A [`PendingRelay`] with its packet as a model.
pub struct RelayModel {
    pub from: InterfaceId,
    pub packet: PacketModel,
    pub egress: SelectorModel,
}

impl View for PendingRelay {
    type V = RelayModel;

    open spec fn view(&self) -> RelayModel {
        RelayModel { from: self.from, packet: self.packet@, egress: self.egress@ }
    }
}

/// What became of a verified announce.
pub struct AnnounceOutcome {
    /// The observation to publish, if it was accepted.
    pub fact: Option<AnnounceFact>,
    /// The relay to make, if one is due.
    pub relay: Option<PendingRelay>,
}

/// An [`AnnounceOutcome`] as a model.
pub struct OutcomeModel {
    pub fact: Option<FactModel>,
    pub relay: Option<RelayModel>,
}

impl View for AnnounceOutcome {
    type V = OutcomeModel;

    open spec fn view(&self) -> OutcomeModel {
        OutcomeModel {
            fact: match self.fact {
                Some(f) => Some(f@),
                None => None,
            },
            relay: match self.relay {
                Some(r) => Some(r@),
                None => None,
            },
        }
    }
}

impl OutcomeModel {
    /// Nothing came of it.
    pub open spec fn nothing() -> OutcomeModel {
        OutcomeModel { fact: None, relay: None }
    }
}

/// What the other layers read in a packet before it is routed.
#[derive(Clone, Copy, Debug)]
pub struct Reading {
    /// The destination a path request asks for, if the packet is a path request.
    pub path_target: Option<AddressHash>,
    /// The id of the link that a link request would open, if it is well-formed.
    pub link_id: Option<AddressHash>,
    /// Whether a proof verifies against the pending link it is addressed to.
    pub proves_pending: bool,
}

/// What is left to do for a packet that was routed.
pub enum Dispatch {
    /// Nothing: it was handled or dropped.
    Done,
    /// Answer a path request for a destination we own.
    AnswerPath { target: AddressHash },
    /// Publish and relay an announce.
    Announced { outcome: AnnounceOutcome },
    /// An announce is held; look at this interface's held announces at this time.
    Held { release_at_ms: u64 },
    /// Have the link layer accept a link request.
    Accept { kind: LinkFactKind, packet: Packet },
    /// A pending link is proved: hand it to whoever opened it.
    Established { packet: Packet },
    /// Hand the packet to the driver of its link.
    Deliver { packet: Packet },
    /// Decrypt the packet for its link's stream.
    Decrypt { packet: Packet },
    /// Decrypt a link-less packet for a destination of ours, with its ratchets if it has any.
    OpenSingle { packet: Packet, ratcheted: bool },
}

/// A [`Dispatch`] as a model.
pub enum DispatchModel {
    Done,
    AnswerPath { target: AddressHash },
    Announced { outcome: OutcomeModel },
    Held { release_at_ms: u64 },
    Accept { kind: LinkFactKind, packet: PacketModel },
    Established { packet: PacketModel },
    Deliver { packet: PacketModel },
    Decrypt { packet: PacketModel },
    OpenSingle { packet: PacketModel, ratcheted: bool },
}

impl View for Dispatch {
    type V = DispatchModel;

    open spec fn view(&self) -> DispatchModel {
        match self {
            Dispatch::Done => DispatchModel::Done,
            Dispatch::AnswerPath { target } => DispatchModel::AnswerPath { target: *target },
            Dispatch::Announced { outcome } => DispatchModel::Announced { outcome: outcome@ },
            Dispatch::Held { release_at_ms } => DispatchModel::Held {
                release_at_ms: *release_at_ms,
            },
            Dispatch::Accept { kind, packet } => DispatchModel::Accept {
                kind: *kind,
                packet: packet@,
            },
            Dispatch::Established { packet } => DispatchModel::Established { packet: packet@ },
            Dispatch::Deliver { packet } => DispatchModel::Deliver { packet: packet@ },
            Dispatch::Decrypt { packet } => DispatchModel::Decrypt { packet: packet@ },
            Dispatch::OpenSingle { packet, ratcheted } => DispatchModel::OpenSingle {
                packet: packet@,
                ratcheted: *ratcheted,
            },
        }
    }
}

/// The state of an endpoint.
pub struct EndpointModel {
    pub lifecycle: Lifecycle,
    /// The 64 private bytes of its identity.
    pub secret: Seq<u8>,
    /// The hash of its identity.
    pub own: AddressHash,
    pub book: BookModel,
    pub links: Map<AddressHash, LinkEntry>,
    pub registered: Seq<RegisteredModel>,
    /// The last ordinal each destination of ours was announced with.
    pub ordinals: Map<AddressHash, u64>,
    pub interfaces: Seq<IfaceModel>,
    pub sequence: u64,
    /// Outbound links that await their proof.
    pub pending: Map<AddressHash, ()>,
    pub next_iface_id: u32,
    pub policy: PolicyModel,
    pub stats: RoutingCounters,
    pub generation: u64,
    pub settings: LinkSettings,
    pub proofs: Map<AddressHash, CachedProofModel>,
    pub paths: Map<AddressHash, PathEntry>,
    pub path_limit: nat,
    pub seen: Seq<AddressHash>,
    pub seen_limit: nat,
    pub freshness: FreshnessModel,
    pub freshness_policy: AnnounceFreshnessPolicy,
    pub admission: AdmissionModel,
    pub held: Seq<HeldModel>,
    /// Interfaces whose held announces are being released.
    pub releasing: Map<u32, ()>,
    pub budget: BudgetModel,
    pub bridges: Map<AddressHash, Bridge>,
    pub active_resources: usize,
}

/// A count with more added. A count that overflows starts over.
pub open spec fn tallied(count: u64, more: usize) -> u64 {
    count.wrapping_add(more as u64)
}

impl EndpointModel {
    /// With one interface offered a packet, addressed for its transport node.
    pub open spec fn sent(self, iface: InterfaceId, packet: PacketModel, class: TrafficClass) -> EndpointModel {
        EndpointModel {
            interfaces: offered_one(self.interfaces, iface, addressed(packet, self.paths), class),
            ..self
        }
    }

    /// With every interface offered a packet as control traffic.
    pub open spec fn broadcast(self, packet: PacketModel) -> EndpointModel {
        EndpointModel {
            interfaces: offered_all(self.interfaces, packet, TrafficClass::Control),
            ..self
        }
    }

    /// How long a route lives, in milliseconds.
    pub open spec fn route_ttl(self) -> u64 {
        span_ms(self.freshness_policy.route_ttl)
    }

    /// Whether a live route to a destination is known.
    pub open spec fn has_route(self, destination: AddressHash, now: u64) -> bool {
        self.paths.contains_key(destination) && age(now, self.paths[destination].learned)
            < self.route_ttl()
    }

    /// After a route was looked up: an expired one is gone, which is a change to observe.
    pub open spec fn after_lookup(self, destination: AddressHash, now: u64) -> EndpointModel {
        if self.paths.contains_key(destination) && !self.has_route(destination, now) {
            EndpointModel {
                paths: self.paths.remove(destination),
                generation: self.generation.wrapping_add(1),
                ..self
            }
        } else {
            self
        }
    }

    // -----------------------------------------------------------------------------------
    // Announces.
    /// What freshness is asked of an announce.
    pub open spec fn candidate(
        packet: PacketModel,
        destination: AddressHash,
        announce: AnnounceModel,
    ) -> AnnounceFreshnessCandidate {
        AnnounceFreshnessCandidate {
            destination,
            blob: AnnounceBlob::of(announce.rand_hash),
            hops: packet.hops,
        }
    }

    /// The route an announce teaches.
    pub open spec fn route_of(iface: InterfaceId, packet: PacketModel, now: u64) -> PathEntry {
        PathEntry { iface, transport: packet.transport, hops: packet.hops, learned: now }
    }

    /// The counters after an announce was recorded and its route learned.
    pub open spec fn stats_after(
        self,
        record: AnnounceFreshnessRecord,
        path_evicted: bool,
    ) -> RoutingCounters {
        RoutingCounters {
            freshness_rows_expired: tallied(
                self.stats.freshness_rows_expired,
                record.expired_destinations,
            ),
            freshness_blobs_expired: tallied(
                self.stats.freshness_blobs_expired,
                record.expired_blobs,
            ),
            freshness_rows_evicted: if record.evicted_destination is Some {
                self.stats.freshness_rows_evicted.wrapping_add(1)
            } else {
                self.stats.freshness_rows_evicted
            },
            freshness_blobs_evicted: if record.evicted_blob is Some {
                self.stats.freshness_blobs_evicted.wrapping_add(1)
            } else {
                self.stats.freshness_blobs_evicted
            },
            paths_evicted: if path_evicted {
                self.stats.paths_evicted.wrapping_add(1)
            } else {
                self.stats.paths_evicted
            },
            ..self.stats
        }
    }

    /// After an accepted announce took effect here: book, freshness, route and sequence.
    pub open spec fn committed(
        self,
        iface: InterfaceId,
        packet: PacketModel,
        destination: AddressHash,
        announce: AnnounceModel,
        now: u64,
    ) -> EndpointModel {
        let candidate = EndpointModel::candidate(packet, destination, announce);
        let next = EndpointModel::route_of(iface, packet, now);
        let changed = !(self.paths.contains_key(destination) && self.paths[destination] == next);
        EndpointModel {
            book: self.book.after_ingest(destination, announce),
            freshness: self.freshness.after_record(candidate, now),
            paths: after_learn(
                self.paths,
                destination,
                next,
                self.path_limit,
                now,
                self.route_ttl(),
            ),
            stats: self.stats_after(
                self.freshness.record_of(candidate, now),
                must_evict(self.paths, destination, self.path_limit, now, self.route_ttl()),
            ),
            generation: if changed {
                self.generation.wrapping_add(1)
            } else {
                self.generation
            },
            sequence: self.sequence.wrapping_add(1),
            ..self
        }
    }

    /// An announce as it is passed on: one hop further, and through this node.
    pub open spec fn passed_on(self, packet: PacketModel) -> PacketModel {
        PacketModel {
            hops: (packet.hops + 1) as u8,
            header_type: HeaderType::Type2,
            transport: Some(self.own),
            ..packet
        }
    }

    /// Whether an announce is relayed, and the endpoint after that was decided: the policy
    /// has to relay from its interface, the packet has to be new, its destination within its
    /// rate, and its hops below the ceiling.
    pub open spec fn relay_decided(
        self,
        iface: InterfaceId,
        packet: PacketModel,
        hash: AddressHash,
        destination: AddressHash,
        now: u64,
    ) -> (EndpointModel, Option<RelayModel>) {
        let (admission, verdict) = self.admission.after_destination(destination, now);
        let noted = EndpointModel {
            seen: remembered(self.seen, hash, self.seen_limit),
            admission,
            ..self
        };
        if !self.policy.relays_from(iface) || self.seen.contains(hash) {
            (self, None)
        } else if verdict == DestinationVerdict::BlockRelay {
            (
                EndpointModel {
                    stats: RoutingCounters {
                        relay_rate_limited_announces: self.stats.relay_rate_limited_announces.wrapping_add(
                        1),
                        ..self.stats
                    },
                    ..noted
                },
                None,
            )
        } else if packet.hops >= self.policy.max_hops {
            (
                EndpointModel {
                    stats: RoutingCounters {
                        hop_limit_dropped: self.stats.hop_limit_dropped.wrapping_add(1),
                        ..self.stats
                    },
                    ..noted
                },
                None,
            )
        } else {
            (
                noted,
                Some(
                    RelayModel {
                        from: iface,
                        packet: self.passed_on(packet),
                        egress: self.policy.egress,
                    },
                ),
            )
        }
    }

    /// What becomes of a verified announce: a replay or a stale one changes nothing but its
    /// count, one the book refuses leaves no freshness behind, and any other is learned,
    /// published and perhaps relayed.
    pub open spec fn processed(
        self,
        iface: InterfaceId,
        packet: PacketModel,
        hash: AddressHash,
        destination: AddressHash,
        announce: AnnounceModel,
        now: u64,
    ) -> (EndpointModel, OutcomeModel) {
        let candidate = EndpointModel::candidate(packet, destination, announce);
        match self.freshness.decision(candidate, now, self.route_ttl()) {
            AnnounceFreshnessDecision::Reject(AnnounceFreshnessReject::Replay) => (
                EndpointModel {
                    stats: RoutingCounters {
                        freshness_replays_rejected: self.stats.freshness_replays_rejected.wrapping_add(
                        1),
                        ..self.stats
                    },
                    ..self
                },
                OutcomeModel::nothing(),
            ),
            AnnounceFreshnessDecision::Reject(AnnounceFreshnessReject::StaleTimebase) => (
                EndpointModel {
                    stats: RoutingCounters {
                        freshness_stale_rejected: self.stats.freshness_stale_rejected.wrapping_add(
                        1),
                        ..self.stats
                    },
                    ..self
                },
                OutcomeModel::nothing(),
            ),
            AnnounceFreshnessDecision::Accept(_) => if self.book.verdict(destination)
                == Ingested::Refused {
                (
                    EndpointModel {
                        book: self.book.after_ingest(destination, announce),
                        stats: RoutingCounters {
                            refused_announces: self.stats.refused_announces.wrapping_add(1),
                            ..self.stats
                        },
                        ..self
                    },
                    OutcomeModel::nothing(),
                )
            } else {
                let committed = self.committed(iface, packet, destination, announce, now);
                let (after, relay) = committed.relay_decided(iface, packet, hash, destination, now);
                let fact = FactModel {
                    destination,
                    identity: announce.identity,
                    app_data: announce.app_data,
                    interface: iface,
                    hops: packet.hops,
                    transport: packet.transport,
                    sequence: committed.sequence,
                };
                (after, OutcomeModel { fact: Some(fact), relay })
            },
        }
    }

    /// After a relay went out: counted if any interface took it.
    pub open spec fn after_relay(self, relay: RelayModel) -> EndpointModel {
        let taken = relays_taken(self.interfaces, relay.packet, relay.from, relay.egress);
        EndpointModel {
            interfaces: relayed_out(self.interfaces, relay.packet, relay.from, relay.egress),
            stats: RoutingCounters {
                forwarded_announces: if taken > 0 {
                    self.stats.forwarded_announces.wrapping_add(1)
                } else {
                    self.stats.forwarded_announces
                },
                ..self.stats
            },
            ..self
        }
    }
}

/// What a context byte says of an announce that answers a path request.
pub const CTX_PATH_RESPONSE: u8 = 0x0b;

/// The hash of a packet.
pub open spec fn hash_of(packet: PacketModel) -> AddressHash {
    AddressHash::with(packet.address())
}

/// Where the first registration of a destination stands.
pub open spec fn registration_index(
    registered: Seq<RegisteredModel>,
    destination: AddressHash,
) -> Option<int>
    decreases registered.len(),
{
    if registered.len() == 0 {
        None
    } else {
        match registration_index(registered.drop_last(), destination) {
            Some(i) => Some(i),
            None => if registered.last().dest == destination {
                Some(registered.len() - 1)
            } else {
                None
            },
        }
    }
}

impl EndpointModel {
    // -----------------------------------------------------------------------------------
    // Carrying others' packets.
    /// With one more packet refused by policy.
    pub open spec fn policy_refused(self) -> EndpointModel {
        EndpointModel {
            stats: RoutingCounters {
                policy_rejected: self.stats.policy_rejected.wrapping_add(1),
                ..self.stats
            },
            ..self
        }
    }

    /// With one more packet dropped at the hop ceiling.
    pub open spec fn hop_refused(self) -> EndpointModel {
        EndpointModel {
            stats: RoutingCounters {
                hop_limit_dropped: self.stats.hop_limit_dropped.wrapping_add(1),
                ..self.stats
            },
            ..self
        }
    }

    /// A carried packet as it leaves: one hop further, and without this node's stamp.
    pub open spec fn carried(packet: PacketModel) -> PacketModel {
        PacketModel {
            hops: (packet.hops + 1) as u8,
            header_type: HeaderType::Type1,
            transport: None,
            ..packet
        }
    }

    /// After a packet was carried out an interface, or not: egress has to be permitted and
    /// its hops below the ceiling. Carried traffic queues as transit.
    pub open spec fn forwarded_on(self, out: InterfaceId, packet: PacketModel) -> EndpointModel {
        if !self.policy.egress.contains(out) {
            self.policy_refused()
        } else if packet.hops >= self.policy.max_hops {
            self.hop_refused()
        } else {
            EndpointModel {
                stats: RoutingCounters {
                    forwarded_packets: self.stats.forwarded_packets.wrapping_add(1),
                    ..self.stats
                },
                ..self
            }.sent(out, EndpointModel::carried(packet), TrafficClass::Transit)
        }
    }

    /// With a link's two interfaces recorded.
    pub open spec fn bridged(
        self,
        link_id: AddressHash,
        from: InterfaceId,
        out: InterfaceId,
        now: u64,
    ) -> EndpointModel {
        EndpointModel {
            bridges: fresh_part(self.bridges, now, LINK_TRANSPORT_TTL).insert(
                link_id,
                Bridge { from, out, seen: now },
            ),
            ..self
        }
    }

    /// After a packet addressed to this node as a transport hop: it goes toward its
    /// destination by a live route. A link request records the bridge its answers come back
    /// over, but not for a route that policy will not carry.
    pub open spec fn forwarded(
        self,
        from: InterfaceId,
        packet: PacketModel,
        link_id: Option<AddressHash>,
        now: u64,
    ) -> EndpointModel {
        if packet.hops >= self.policy.max_hops {
            self.hop_refused()
        } else if !self.has_route(packet.destination, now) {
            self.after_lookup(packet.destination, now)
        } else {
            let out = self.paths[packet.destination].iface;
            if !self.policy.egress.contains(out) {
                self.policy_refused()
            } else if packet.packet_type == PacketType::LinkRequest && link_id is Some {
                self.bridged(link_id->0, from, out, now).forwarded_on(out, packet)
            } else {
                self.forwarded_on(out, packet)
            }
        }
    }

    /// The bridge a packet for a destination crosses, if one is live.
    pub open spec fn bridge_for(self, destination: AddressHash, now: u64) -> Option<Bridge> {
        if self.bridges.contains_key(destination) && age(now, self.bridges[destination].seen)
            < LINK_TRANSPORT_TTL {
            Some(Bridge { seen: now, ..self.bridges[destination] })
        } else {
            None
        }
    }

    /// After a packet crossed its bridge: traffic keeps it alive.
    pub open spec fn after_cross(self, destination: AddressHash, now: u64) -> EndpointModel {
        match self.bridge_for(destination, now) {
            Some(bridge) => EndpointModel {
                bridges: self.bridges.insert(destination, bridge),
                ..self
            },
            None => self,
        }
    }

    /// Whether a packet asks this node by name to carry it.
    pub open spec fn is_hop_of(self, packet: PacketModel) -> bool {
        packet.header_type == HeaderType::Type2 && packet.transport == Some(self.own)
    }

    /// Whether a packet is someone else's, to be carried or refused: it crosses a bridge, or
    /// names this node as its transport hop.
    pub open spec fn is_transit(self, packet: PacketModel, now: u64) -> bool {
        packet.packet_type != PacketType::Announce && (self.bridge_for(
            packet.destination,
            now,
        ) is Some || self.is_hop_of(packet))
    }

    /// After a transit packet: policy decides whether it is carried, a bridge comes before a
    /// route, and a refusal is counted.
    pub open spec fn transited(
        self,
        iface: InterfaceId,
        packet: PacketModel,
        link_id: Option<AddressHash>,
        now: u64,
    ) -> EndpointModel {
        let crossed = self.after_cross(packet.destination, now);
        if !self.policy.carries_from(iface) {
            crossed.policy_refused()
        } else {
            match self.bridge_for(packet.destination, now) {
                Some(bridge) => crossed.forwarded_on(bridge.other_side(iface), packet),
                None => crossed.forwarded(iface, packet, link_id, now),
            }
        }
    }

    // -----------------------------------------------------------------------------------
    // Dispatch.
    /// The registration of a destination.
    pub open spec fn registration(self, destination: AddressHash) -> Option<RegisteredModel> {
        match registration_index(self.registered, destination) {
            Some(i) => Some(self.registered[i]),
            None => None,
        }
    }

    /// Whether a packet is a path request, by what it is addressed as and what was read in it.
    pub open spec fn asks_path(packet: PacketModel, reading: Reading) -> bool {
        packet.packet_type == PacketType::Data && packet.destination_type
            == DestinationType::Plain && reading.path_target is Some
    }

    /// An announce as it is held.
    pub open spec fn held_form(iface: InterfaceId, packet: PacketModel) -> HeldModel {
        HeldModel {
            interface: iface,
            destination: packet.destination,
            packet,
            announce: announced(packet),
        }
    }

    /// What becomes of an announce packet: an invalid one is dropped, a noisy interface's
    /// unknown destinations wait as far as there is room, and any other is processed.
    pub open spec fn announce_routed(self, iface: InterfaceId, packet: PacketModel, now: u64) -> (
        EndpointModel,
        DispatchModel,
    ) {
        let known = self.paths.contains_key(packet.destination);
        let (admission, verdict) = self.admission.after_interface(iface, known, now);
        if announce_error(packet) is Some {
            (self, DispatchModel::Done)
        } else {
            match verdict {
                InterfaceVerdict::Process => {
                    let (after, outcome) = EndpointModel { admission, ..self }.processed(
                        iface,
                        packet,
                        hash_of(packet),
                        packet.destination,
                        announced(packet),
                        now,
                    );
                    (after, DispatchModel::Announced { outcome })
                },
                InterfaceVerdict::Hold { release_at_ms } => {
                    let held = EndpointModel::held_form(iface, packet);
                    let capacity = self.admission.policy.held_capacity as nat;
                    if can_hold(self.held, held, capacity) {
                        (
                            EndpointModel {
                                admission: admission.after_held(iface),
                                held: after_hold(self.held, held, capacity),
                                stats: RoutingCounters {
                                    held_announces: self.stats.held_announces.wrapping_add(1),
                                    ..self.stats
                                },
                                ..self
                            },
                            DispatchModel::Held { release_at_ms },
                        )
                    } else {
                        (
                            EndpointModel {
                                admission: admission.after_held_dropped(iface),
                                stats: RoutingCounters {
                                    held_announces_dropped: self.stats.held_announces_dropped.wrapping_add(
                                    1),
                                    ..self.stats
                                },
                                ..self
                            },
                            DispatchModel::Done,
                        )
                    }
                },
            }
        }
    }

    /// What becomes of a link request: for a destination of ours the proof that was given
    /// before is given again, else the link layer accepts it.
    pub open spec fn request_routed(
        self,
        iface: InterfaceId,
        packet: PacketModel,
        link_id: Option<AddressHash>,
        now: u64,
    ) -> (EndpointModel, DispatchModel) {
        let fresh = fresh_part(self.proofs, now, LINK_REQUEST_CACHE_TTL);
        match self.registration(packet.destination) {
            Some(r) if self.lifecycle == Lifecycle::Running => match link_id {
                Some(id) => if fresh.contains_key(id) {
                    (
                        EndpointModel { proofs: fresh, ..self }.sent(
                            iface,
                            fresh[id].proof_packet,
                            TrafficClass::Interactive,
                        ),
                        DispatchModel::Done,
                    )
                } else {
                    (
                        EndpointModel { proofs: fresh, ..self },
                        DispatchModel::Accept { kind: r.kind, packet },
                    )
                },
                None => (self, DispatchModel::Accept { kind: r.kind, packet }),
            },
            _ => (self, DispatchModel::Done),
        }
    }

    /// What becomes of a proof: one that verifies completes its pending link, any other goes
    /// to the link's driver. A proof that does not verify evicts nothing.
    pub open spec fn proof_routed(self, packet: PacketModel, proves_pending: bool) -> (
        EndpointModel,
        DispatchModel,
    ) {
        if proves_pending && self.pending.contains_key(packet.destination) {
            (
                EndpointModel { pending: self.pending.remove(packet.destination), ..self },
                DispatchModel::Established { packet },
            )
        } else if self.links.contains_key(packet.destination)
            && self.links[packet.destination].kind != LinkFactKind::BestEffort {
            (self, DispatchModel::Deliver { packet })
        } else {
            (self, DispatchModel::Done)
        }
    }

    /// What becomes of data: a link's goes to its driver or stream, and a packet for a
    /// destination of ours is opened while the endpoint runs.
    pub open spec fn data_dispatch(self, packet: PacketModel) -> DispatchModel {
        if self.links.contains_key(packet.destination) {
            if self.links[packet.destination].kind == LinkFactKind::BestEffort {
                DispatchModel::Decrypt { packet }
            } else {
                DispatchModel::Deliver { packet }
            }
        } else if packet.destination_type == DestinationType::Single && self.lifecycle
            == Lifecycle::Running && self.registration(packet.destination) is Some {
            DispatchModel::OpenSingle {
                packet,
                ratcheted: self.registration(packet.destination)->0.ratchet is Some,
            }
        } else {
            DispatchModel::Done
        }
    }

    /// What becomes of one inbound packet.
    pub open spec fn routed(
        self,
        iface: InterfaceId,
        packet: PacketModel,
        reading: Reading,
        now: u64,
    ) -> (EndpointModel, DispatchModel) {
        if EndpointModel::asks_path(packet, reading) {
            let target = reading.path_target->0;
            (
                self,
                if self.registration(target) is Some {
                    DispatchModel::AnswerPath { target }
                } else {
                    DispatchModel::Done
                },
            )
        } else if self.is_transit(packet, now) {
            (self.transited(iface, packet, reading.link_id, now), DispatchModel::Done)
        } else {
            match packet.packet_type {
                PacketType::Announce => self.announce_routed(iface, packet, now),
                PacketType::LinkRequest => self.request_routed(iface, packet, reading.link_id, now),
                PacketType::Proof => self.proof_routed(packet, reading.proves_pending),
                PacketType::Data => (self, self.data_dispatch(packet)),
            }
        }
    }
}

impl EndpointModel {
    /// Whether this is an endpoint that nothing has happened to yet, for an identity.
    pub open spec fn is_new(self, secret: Seq<u8>) -> bool {
        &&& self.lifecycle == Lifecycle::Running
        &&& self.secret == secret
        &&& self.own@ == address_of(public_of(secret))
        &&& self.book == (BookModel {
            peers: Map::empty(),
            max_peers: crate::address_book::DEFAULT_MAX_PEERS,
            refused: 0,
        })
        &&& self.links == Map::<AddressHash, LinkEntry>::empty()
        &&& self.registered == Seq::<RegisteredModel>::empty()
        &&& self.ordinals == Map::<AddressHash, u64>::empty()
        &&& self.interfaces == Seq::<IfaceModel>::empty()
        &&& self.sequence == 0
        &&& self.pending == Map::<AddressHash, ()>::empty()
        &&& self.next_iface_id == 0
        &&& self.policy == PolicyModel::nothing()
        &&& self.stats == RoutingCounters::zero()
        &&& self.generation == 0
        &&& self.settings == (LinkSettings {
            relay_jitter_ms: 0,
            reliable_initial_rtt_ms: DEFAULT_RELIABLE_INITIAL_RTT_MS,
            reliable_max_window: DEFAULT_RELIABLE_MAX_WINDOW,
            link_setup_retry_ms: DEFAULT_LINK_SETUP_RETRY_MS,
            link_mtu: DEFAULT_LINK_MTU,
        })
        &&& self.proofs == Map::<AddressHash, CachedProofModel>::empty()
        &&& self.paths == Map::<AddressHash, PathEntry>::empty()
        &&& self.path_limit == PATH_TABLE_CAPACITY
        &&& self.seen == Seq::<AddressHash>::empty()
        &&& self.seen_limit == SEEN_ANNOUNCES
        &&& self.freshness.rows.len() == 0
        &&& self.freshness.config == self.freshness_policy.bounds()
        &&& self.admission.policy.is_standard()
        &&& self.admission.interfaces == Map::<u32, InterfaceState>::empty()
        &&& self.admission.destinations == Map::<AddressHash, DestinationState>::empty()
        &&& self.held == Seq::<HeldModel>::empty()
        &&& self.releasing == Map::<u32, ()>::empty()
        &&& self.budget == (BudgetModel {
            asked: Map::empty(),
            stamps: Seq::empty(),
            min_interval: PATH_REQUEST_MIN_INTERVAL,
            window_max: PATH_REQUEST_GLOBAL_MAX,
            table_max: SEEN_ANNOUNCES,
        })
        &&& self.bridges == Map::<AddressHash, Bridge>::empty()
        &&& self.active_resources == 0
    }
}

/// A Reticulum endpoint over any number of interfaces: everything it knows and decides. The
/// owner of its sockets and timers hands it packets and the time, and carries out what it
/// queues and returns.
pub struct Endpoint {
    lifecycle: Lifecycle,
    identity: PrivateIdentity,
    own_hash: AddressHash,
    address_book: AddressBook,
    links: AddressTable<LinkEntry>,
    registered: Vec<Registered>,
    /// Per-destination host announce ordinals. A destination needs its own strictly
    /// increasing timebase, because it is the destination's signed blob that receivers
    /// retain.
    announce_timebases: AddressTable<TimebaseGenerator>,
    /// Every attached interface. Announces broadcast to all; link traffic targets one.
    interfaces: Vec<Iface>,
    /// Monotonic order assigned only after an announce passes validation and admission.
    announce_sequence: u64,
    /// Pending outbound links awaiting a proof.
    pending: AddressTable<()>,
    next_iface_id: u32,
    /// What this endpoint carries for others.
    routing: RoutingPolicy,
    /// What routing has actually done, for diagnostics and policy proof.
    routing_stats: RoutingCounters,
    /// Revision of topology and observation facts.
    diagnostic_generation: u64,
    settings: LinkSettings,
    /// Proofs for recently accepted link requests. Replaying the same proof avoids creating
    /// a second stream when only the first proof was lost.
    inbound_link_proofs: ProofCache,
    /// Learned routes, from announces.
    path_table: PathTable,
    /// Recently seen announce packets, for de-duplication.
    seen_announces: SeenAnnounces,
    announce_freshness: AnnounceFreshness,
    freshness_policy: AnnounceFreshnessPolicy,
    announce_admission: AnnounceAdmission,
    /// Verified unknown-route announces held until their ingress burst has subsided.
    held_announces: HeldAnnounces,
    /// At most one release runs for each interface, however many announces it is holding.
    held_release_tasks: Table<u32, ()>,
    path_request_budget: PathRequestBudget,
    /// Links being forwarded through this node.
    link_transport: LinkBridges,
    /// Resource sessions that must finish before an orderly shutdown.
    active_resources: usize,
}

/// The last ordinal of each generator.
pub open spec fn emitted_of(generators: Map<AddressHash, TimebaseGenerator>) -> Map<
    AddressHash,
    u64,
> {
    generators.map_values(|g: TimebaseGenerator| g.emitted())
}

/// Whether every generator may emit up to the wire's maximum value.
pub open spec fn are_host_generators(generators: Map<AddressHash, TimebaseGenerator>) -> bool {
    forall|d: AddressHash| #[trigger]
        generators.contains_key(d) ==> generators[d].inv() && generators[d].ceiling()
            == ANNOUNCE_TIMEBASE_MAX
}

/// The registrations of a list.
pub open spec fn registered_models(registered: Seq<Registered>) -> Seq<RegisteredModel> {
    Seq::new(registered.len(), |i: int| registered[i]@)
}

impl View for Endpoint {
    type V = EndpointModel;

    closed spec fn view(&self) -> EndpointModel {
        EndpointModel {
            lifecycle: self.lifecycle,
            secret: self.identity@,
            own: self.own_hash,
            book: self.address_book@,
            links: self.links.view(),
            registered: registered_models(self.registered@),
            ordinals: emitted_of(self.announce_timebases.view()),
            interfaces: iface_models(self.interfaces@),
            sequence: self.announce_sequence,
            pending: self.pending.view(),
            next_iface_id: self.next_iface_id,
            policy: self.routing@,
            stats: self.routing_stats,
            generation: self.diagnostic_generation,
            settings: self.settings,
            proofs: self.inbound_link_proofs.view(),
            paths: self.path_table.view(),
            path_limit: self.path_table.limit(),
            seen: self.seen_announces.view(),
            seen_limit: self.seen_announces.limit(),
            freshness: self.announce_freshness@,
            freshness_policy: self.freshness_policy,
            admission: self.announce_admission@,
            held: self.held_announces.view(),
            releasing: self.held_release_tasks.view(),
            budget: self.path_request_budget@,
            bridges: self.link_transport.view(),
            active_resources: self.active_resources,
        }
    }
}

impl Endpoint {
    /// The invariant: every part has its own, the parts are shaped alike, and the hash is
    /// that of the identity.
    pub closed spec fn inv(&self) -> bool {
        &&& self.own_hash@ == address_of(public_of(self.identity@))
        &&& self.address_book.inv()
        &&& self.links.inv()
        &&& self.announce_timebases.inv()
        &&& are_host_generators(self.announce_timebases.view())
        &&& all_shaped(iface_models(self.interfaces@))
        &&& self.pending.inv()
        &&& self.inbound_link_proofs.inv()
        &&& self.path_table.inv()
        &&& self.seen_announces.inv()
        &&& self.announce_freshness@.wf()
        &&& self.announce_admission.inv()
        &&& self.held_release_tasks.inv()
        &&& self.path_request_budget.inv()
        &&& self.link_transport.inv()
    }

    /// An endpoint with no interfaces yet, under the default freshness policy.
    pub fn new(identity: PrivateIdentity) -> (endpoint: Self)
        ensures
            endpoint.inv(),
            endpoint@.is_new(identity@),
            whole_millis(endpoint@.freshness_policy.route_ttl) == 1_800_000,
            endpoint@.freshness_policy.destination_capacity == 4_096,
            endpoint@.freshness_policy.blob_capacity == 16,
            whole_millis(endpoint@.freshness_policy.retention) == 604_800_000,
    {
        match Endpoint::with_announce_freshness_policy(
            identity,
            AnnounceFreshnessPolicy::default(),
        ) {
            Ok(endpoint) => endpoint,
            Err(_) => vstd::pervasive::unreached(),
        }
    }

    /// An endpoint with an explicit bounded receive-freshness policy.
    ///
    /// Invalid zero capacities are refused.
    pub fn with_announce_freshness_policy(
        identity: PrivateIdentity,
        freshness_policy: AnnounceFreshnessPolicy,
    ) -> (result: Result<Self, AnnounceFreshnessConfigError>)
        ensures
            match result {
                Ok(endpoint) => freshness_policy.bounds().fault() is None && endpoint.inv()
                    && endpoint@.is_new(identity@) && endpoint@.freshness_policy
                    == freshness_policy,
                Err(e) => freshness_policy.bounds().fault() == Some(e),
            },
    {
        let announce_freshness = match AnnounceFreshness::new(freshness_policy.config()) {
            Ok(table) => table,
            Err(e) => {
                return Err(e);
            },
        };
        let own_hash = identity.hash();
        let endpoint = Endpoint {
            lifecycle: Lifecycle::Running,
            identity,
            own_hash,
            address_book: AddressBook::new(),
            links: Table::new(),
            registered: Vec::new(),
            announce_timebases: Table::new(),
            interfaces: Vec::new(),
            announce_sequence: 0,
            pending: Table::new(),
            next_iface_id: 0,
            routing: RoutingPolicy::none(),
            routing_stats: RoutingCounters::default(),
            diagnostic_generation: 0,
            settings: LinkSettings {
                relay_jitter_ms: 0,
                reliable_initial_rtt_ms: DEFAULT_RELIABLE_INITIAL_RTT_MS,
                reliable_max_window: DEFAULT_RELIABLE_MAX_WINDOW,
                link_setup_retry_ms: DEFAULT_LINK_SETUP_RETRY_MS,
                link_mtu: DEFAULT_LINK_MTU,
            },
            inbound_link_proofs: ProofCache::new(),
            path_table: PathTable::with_capacity(PATH_TABLE_CAPACITY),
            seen_announces: SeenAnnounces::new(SEEN_ANNOUNCES),
            announce_freshness,
            freshness_policy,
            announce_admission: AnnounceAdmission::new(AnnounceIngressPolicy::default()),
            held_announces: HeldAnnounces::new(),
            held_release_tasks: Table::new(),
            path_request_budget: PathRequestBudget::new(
                PATH_REQUEST_MIN_INTERVAL,
                PATH_REQUEST_GLOBAL_MAX,
                SEEN_ANNOUNCES,
            ),
            link_transport: LinkBridges::new(),
            active_resources: 0,
        };
        assert(endpoint@.ordinals =~= Map::<AddressHash, u64>::empty());
        assert(endpoint@.registered =~= Seq::<RegisteredModel>::empty());
        assert(endpoint@.interfaces =~= Seq::<IfaceModel>::empty());
        Ok(endpoint)
    }
}

impl Endpoint {
    // -----------------------------------------------------------------------------------
    // Sending.
    /// Send a packet out every interface (announces, path requests). These are our own
    /// protocol upkeep, so they ride the control class.
    pub fn broadcast(&mut self, packet: &Packet)
        requires
            old(self).inv(),
        ensures
            final(self).inv(),
            final(self)@ == old(self)@.broadcast(packet@),
    {
        carriers::offer_all(&mut self.interfaces, packet, TrafficClass::Control);
    }

    /// Send a packet out one interface in a chosen class, addressed through its destination's
    /// transport node if it has one, so a transport node forwards it. Local link traffic is
    /// interactive; setup, proofs, and keepalives are control; carried traffic is transit.
    pub fn send_on_class(&mut self, iface: InterfaceId, packet: Packet, class: TrafficClass) -> (admission:
        QueueAdmission)
        requires
            old(self).inv(),
        ensures
            final(self).inv(),
            final(self)@ == old(self)@.sent(iface, packet@, class),
            admission == admission_at(
                old(self)@.interfaces,
                iface,
                addressed(packet@, old(self)@.paths),
                class,
            ),
    {
        let packet = self.path_table.address(packet);
        carriers::offer_one(&mut self.interfaces, iface, packet, class)
    }

    /// Send a packet out one interface as interactive traffic.
    pub fn send_on(&mut self, iface: InterfaceId, packet: Packet) -> (admission: QueueAdmission)
        requires
            old(self).inv(),
        ensures
            final(self).inv(),
            final(self)@ == old(self)@.sent(iface, packet@, TrafficClass::Interactive),
            admission == admission_at(
                old(self)@.interfaces,
                iface,
                addressed(packet@, old(self)@.paths),
                TrafficClass::Interactive,
            ),
    {
        self.send_on_class(iface, packet, TrafficClass::Interactive)
    }

    /// The interface to reach `destination`, if a route is known and unexpired. Drops an
    /// expired route as a side effect, so a stale path never lingers past a lookup.
    pub fn path_iface(&mut self, destination: AddressHash, now: u64) -> (iface: Option<InterfaceId>)
        requires
            old(self).inv(),
        ensures
            final(self).inv(),
            final(self)@ == old(self)@.after_lookup(destination, now),
            iface == (if old(self)@.has_route(destination, now) {
                Some(old(self)@.paths[destination].iface)
            } else {
                None
            }),
    {
        let ttl: u64 = self.freshness_policy.route_ttl_ticks();
        let (found, dropped) = self.path_table.lookup(destination, now, ttl);
        if dropped {
            self.diagnostic_generation = self.diagnostic_generation.wrapping_add(1);
        }
        match found {
            Some(entry) => Some(entry.iface),
            None => None,
        }
    }

    // -----------------------------------------------------------------------------------
    // Announces.
    /// Count what recording an announce displaced.
    fn note_record(&mut self, record: AnnounceFreshnessRecord, path_evicted: bool)
        requires
            old(self).inv(),
        ensures
            final(self).inv(),
            final(self)@ == (EndpointModel {
                stats: old(self)@.stats_after(record, path_evicted),
                ..old(self)@
            }),
    {
        let stats = &mut self.routing_stats;
        stats.freshness_rows_expired =
        stats.freshness_rows_expired.wrapping_add(record.expired_destinations as u64);
        stats.freshness_blobs_expired =
        stats.freshness_blobs_expired.wrapping_add(record.expired_blobs as u64);
        if record.evicted_destination.is_some() {
            stats.freshness_rows_evicted = stats.freshness_rows_evicted.wrapping_add(1);
        }
        if record.evicted_blob.is_some() {
            stats.freshness_blobs_evicted = stats.freshness_blobs_evicted.wrapping_add(1);
        }
        if path_evicted {
            stats.paths_evicted = stats.paths_evicted.wrapping_add(1);
        }
    }

    /// Whether an announce is relayed, and as what.
    fn decide_relay(
        &mut self,
        iface: InterfaceId,
        packet: Packet,
        destination: AddressHash,
        now: u64,
    ) -> (relay: Option<PendingRelay>)
        requires
            old(self).inv(),
        ensures
            final(self).inv(),
            ({
                let (after, due) = old(self)@.relay_decided(
                    iface,
                    packet@,
                    hash_of(packet@),
                    destination,
                    now,
                );
                &&& final(self)@ == after
                &&& match relay {
                    Some(r) => due == Some(r@),
                    None => due is None,
                }
            }),
    {
        if !self.routing.relays_announce_from(iface) {
            return None;
        }
        let hash = packet.hash();
        proof {
            AddressHash::lemma_with(hash);
        }
        if !self.seen_announces.is_new(hash) {
            return None;
        }
        let verdict = self.announce_admission.observe_destination(destination, now);
        if verdict == DestinationVerdict::BlockRelay {
            self.routing_stats.relay_rate_limited_announces =
            self.routing_stats.relay_rate_limited_announces.wrapping_add(1);
            return None;
        }
        if packet.hops >= self.routing.max_hops {
            self.routing_stats.hop_limit_dropped =
            self.routing_stats.hop_limit_dropped.wrapping_add(1);
            return None;
        }
        let mut passed_on = packet;
        passed_on.hops = passed_on.hops + 1;
        passed_on.header_type = HeaderType::Type2;
        passed_on.transport = Some(self.own_hash);
        Some(
            PendingRelay {
                from: iface,
                packet: passed_on,
                egress: self.routing.allowed_egress.clone(),
            },
        )
    }

    /// Continue a verified announce after interface admission. A destination-rate block keeps
    /// learning and local publication intact, but stops the expensive mesh-wide rebroadcast.
    ///
    /// The book's answer is the cap. It comes before the freshness commit, so a refused peer
    /// leaves no freshness behind that would suppress a later attempt after capacity opens.
    pub fn process_verified_announce(
        &mut self,
        iface: InterfaceId,
        packet: Packet,
        announce: Announce,
        now: u64,
    ) -> (outcome: AnnounceOutcome)
        requires
            old(self).inv(),
        ensures
            final(self).inv(),
            (final(self)@, outcome@) == old(self)@.processed(
                iface,
                packet@,
                hash_of(packet@),
                announce.destination,
                announce@,
                now,
            ),
    {
        let ghost start = self@;
        let destination = announce.destination;
        let candidate = AnnounceFreshnessCandidate {
            destination,
            blob: AnnounceBlob::from_wire(announce.rand_hash),
            hops: packet.hops,
        };
        let ttl: u64 = self.freshness_policy.route_ttl_ticks();
        assert(candidate == EndpointModel::candidate(packet@, destination, announce@));
        match self.announce_freshness.evaluate(candidate, now, ttl) {
            AnnounceFreshnessDecision::Accept(_) => {},
            AnnounceFreshnessDecision::Reject(AnnounceFreshnessReject::Replay) => {
                self.routing_stats.freshness_replays_rejected =
                self.routing_stats.freshness_replays_rejected.wrapping_add(1);
                return AnnounceOutcome { fact: None, relay: None };
            },
            AnnounceFreshnessDecision::Reject(AnnounceFreshnessReject::StaleTimebase) => {
                self.routing_stats.freshness_stale_rejected =
                self.routing_stats.freshness_stale_rejected.wrapping_add(1);
                return AnnounceOutcome { fact: None, relay: None };
            },
        }
        if self.address_book.ingest(&announce) == Ingested::Refused {
            self.routing_stats.refused_announces =
            self.routing_stats.refused_announces.wrapping_add(1);
            return AnnounceOutcome { fact: None, relay: None };
        }
        let record = self.announce_freshness.record_accepted(candidate, now);
        // A header-type-2 announce names the transport node forwarding it. It belongs to this
        // destination's route, not to the interface: the same radio routinely reaches
        // different destinations through different nodes.
        let next = PathEntry { iface, transport: packet.transport, hops: packet.hops, learned: now };
        let learned = self.path_table.learn(destination, next, now, ttl);
        self.note_record(record, learned.evicted);
        if learned.changed {
            self.diagnostic_generation = self.diagnostic_generation.wrapping_add(1);
        }
        self.announce_sequence = self.announce_sequence.wrapping_add(1);
        assert(self@ == start.committed(iface, packet@, destination, announce@, now));
        let fact = AnnounceFact {
            destination,
            identity: announce.identity,
            app_data: announce.app_data,
            interface: iface,
            hops: packet.hops,
            transport: packet.transport,
            sequence: self.announce_sequence,
        };
        let relay = self.decide_relay(iface, packet, destination, now);
        AnnounceOutcome { fact: Some(fact), relay }
    }

    /// Put a relayed announce on every permitted interface, counting it if it went anywhere.
    pub fn relay_announce(&mut self, relay: &PendingRelay)
        requires
            old(self).inv(),
        ensures
            final(self).inv(),
            final(self)@ == old(self)@.after_relay(relay@),
    {
        let sent: usize = carriers::offer_relay(
            &mut self.interfaces,
            relay.from,
            &relay.packet,
            &relay.egress,
        );
        if sent > 0 {
            self.routing_stats.forwarded_announces =
            self.routing_stats.forwarded_announces.wrapping_add(1);
        }
    }
}

impl Endpoint {
    // -----------------------------------------------------------------------------------
    // Routing.
    /// Where the first registration of a destination stands.
    fn find_registration(&self, destination: AddressHash) -> (at: Option<usize>)
        ensures
            match at {
                Some(i) => i < self.registered@.len() && registration_index(
                    self@.registered,
                    destination,
                ) == Some(i as int) && self.registered@[i as int].dest == destination,
                None => registration_index(self@.registered, destination) is None,
            },
    {
        let ghost models = self@.registered;
        let mut i: usize = 0;
        assert(models.subrange(0, 0) =~= Seq::<RegisteredModel>::empty());
        while i < self.registered.len()
            invariant
                i <= self.registered@.len(),
                models == registered_models(self.registered@),
                models == self@.registered,
                registration_index(models.subrange(0, i as int), destination) is None,
            decreases self.registered@.len() - i,
        {
            proof {
                let next = models.subrange(0, i + 1);
                assert(next.drop_last() =~= models.subrange(0, i as int));
                assert(next.last() == models[i as int]);
            }
            if self.registered[i].dest == destination {
                proof {
                    lemma_registration_index(models, destination, i + 1);
                }
                return Some(i);
            }
            i += 1;
        }
        assert(models.subrange(0, i as int) =~= models);
        None
    }

    /// Carry a packet out an interface: strip our transport stamp, so sending re-adds the
    /// next hop's if there is one, bump hops, and send.
    ///
    /// This is transit's single egress choke point: every packet carried for someone else
    /// leaves through here, so the egress permission and the forwarded count are both
    /// enforced once.
    pub fn forward_on(&mut self, out: InterfaceId, packet: Packet)
        requires
            old(self).inv(),
        ensures
            final(self).inv(),
            final(self)@ == old(self)@.forwarded_on(out, packet@),
    {
        if !self.routing.allowed_egress.allows(out) {
            self.routing_stats.policy_rejected = self.routing_stats.policy_rejected.wrapping_add(1);
            return;
        }
        if packet.hops >= self.routing.max_hops {
            self.routing_stats.hop_limit_dropped =
            self.routing_stats.hop_limit_dropped.wrapping_add(1);
            return;
        }
        self.routing_stats.forwarded_packets = self.routing_stats.forwarded_packets.wrapping_add(1);
        // Carried traffic queues as transit, so it can never outcompete this node's own.
        let mut packet = packet;
        packet.hops = packet.hops + 1;
        packet.header_type = HeaderType::Type1;
        packet.transport = None;
        self.send_on_class(out, packet, TrafficClass::Transit);
    }

    /// Forward a packet addressed to us as a transport hop, toward its destination. `from` is
    /// the interface it arrived on, and `link_id` the link it would open, if it is a
    /// well-formed link request.
    pub fn forward(
        &mut self,
        from: InterfaceId,
        packet: Packet,
        link_id: Option<AddressHash>,
        now: u64,
    )
        requires
            old(self).inv(),
        ensures
            final(self).inv(),
            final(self)@ == old(self)@.forwarded(from, packet@, link_id, now),
    {
        if packet.hops >= self.routing.max_hops {
            self.routing_stats.hop_limit_dropped =
            self.routing_stats.hop_limit_dropped.wrapping_add(1);
            return;
        }
        if let Some(out) = self.path_iface(packet.destination, now) {
            // Refuse before recording anything: a bridge recorded for a route policy will not
            // carry would strand the link's later packets in a table that never fires.
            if !self.routing.allowed_egress.allows(out) {
                self.routing_stats.policy_rejected =
                self.routing_stats.policy_rejected.wrapping_add(1);
                return;
            }
            // A link request establishes a bridge: record the link id's two interfaces so the
            // proof and subsequent link data forward back the way they came.
            if packet.packet_type == PacketType::LinkRequest {
                if let Some(id) = link_id {
                    self.link_transport.record(id, from, out, now);
                }
            }
            self.forward_on(out, packet);
        }
    }

    /// Route an announce packet.
    fn route_announce(&mut self, iface: InterfaceId, packet: Packet, now: u64) -> (dispatch:
        Dispatch)
        requires
            old(self).inv(),
        ensures
            final(self).inv(),
            (final(self)@, dispatch@) == old(self)@.announce_routed(iface, packet@, now),
    {
        let announce = match Announce::decode(&packet) {
            Ok(announce) => announce,
            Err(_) => {
                return Dispatch::Done;
            },
        };
        let route_is_known: bool = self.path_table.contains_key(&announce.destination);
        let verdict = self.announce_admission.observe_interface(iface, route_is_known, now);
        match verdict {
            InterfaceVerdict::Process => {
                let outcome = self.process_verified_announce(iface, packet, announce, now);
                Dispatch::Announced { outcome }
            },
            InterfaceVerdict::Hold { release_at_ms } => {
                let capacity: usize = self.announce_admission.policy().held_capacity;
                let held = HeldAnnounce { interface: iface, packet, announce };
                assert(held@ == EndpointModel::held_form(iface, packet@));
                if self.held_announces.hold(held, capacity) {
                    self.announce_admission.note_held(iface);
                    self.routing_stats.held_announces =
                    self.routing_stats.held_announces.wrapping_add(1);
                    Dispatch::Held { release_at_ms }
                } else {
                    self.announce_admission.note_held_dropped(iface);
                    self.routing_stats.held_announces_dropped =
                    self.routing_stats.held_announces_dropped.wrapping_add(1);
                    Dispatch::Done
                }
            },
        }
    }

    /// Route a link request.
    fn route_link_request(
        &mut self,
        iface: InterfaceId,
        packet: Packet,
        link_id: Option<AddressHash>,
        now: u64,
    ) -> (dispatch: Dispatch)
        requires
            old(self).inv(),
        ensures
            final(self).inv(),
            (final(self)@, dispatch@) == old(self)@.request_routed(iface, packet@, link_id, now),
    {
        if self.lifecycle != Lifecycle::Running {
            return Dispatch::Done;
        }
        let kind = match self.find_registration(packet.destination) {
            Some(i) => self.registered[i].kind,
            None => {
                return Dispatch::Done;
            },
        };
        if let Some(id) = link_id {
            if let Some(given) = self.inbound_link_proofs.recall(id, now) {
                self.send_on(iface, given);
                return Dispatch::Done;
            }
        }
        Dispatch::Accept { kind, packet }
    }

    /// Route a proof.
    ///
    /// Whether it verifies is known before the pending link is removed: a forged proof
    /// addressed to a real pending link must not be able to evict it and strand the genuine
    /// proof that follows.
    fn route_proof(&mut self, packet: Packet, proves_pending: bool) -> (dispatch: Dispatch)
        requires
            old(self).inv(),
        ensures
            final(self).inv(),
            (final(self)@, dispatch@) == old(self)@.proof_routed(packet@, proves_pending),
    {
        if proves_pending && self.pending.contains_key(&packet.destination) {
            let _ = self.pending.remove(&packet.destination);
            return Dispatch::Established { packet };
        }
        match self.links.get(&packet.destination) {
            Some(entry) => {
                if entry.kind != LinkFactKind::BestEffort {
                    return Dispatch::Deliver { packet };
                }
            },
            None => {},
        }
        Dispatch::Done
    }

    /// Route a data packet.
    fn route_data(&self, packet: Packet) -> (dispatch: Dispatch)
        requires
            self.inv(),
        ensures
            dispatch@ == self@.data_dispatch(packet@),
    {
        match self.links.get(&packet.destination) {
            Some(entry) => {
                if entry.kind == LinkFactKind::BestEffort {
                    Dispatch::Decrypt { packet }
                } else {
                    Dispatch::Deliver { packet }
                }
            },
            None => {
                if packet.destination_type == DestinationType::Single && self.lifecycle
                    == Lifecycle::Running {
                    if let Some(i) = self.find_registration(packet.destination) {
                        let ratcheted: bool = self.registered[i].ratchet.is_some();
                        return Dispatch::OpenSingle { packet, ratcheted };
                    }
                }
                Dispatch::Done
            },
        }
    }

    /// Dispatch one inbound packet that arrived on `iface`.
    ///
    /// A path request for a destination we own is to be answered; we answer only for our own
    /// destinations, with no announce cache to answer for others. What is addressed to a link
    /// we bridge, or to us as a transport hop, is transit: policy decides whether we carry
    /// it, and a refusal is counted and the packet dropped rather than falling through to
    /// local handling, since we are not its destination either way.
    pub fn route(&mut self, iface: InterfaceId, packet: Packet, reading: Reading, now: u64) -> (dispatch:
        Dispatch)
        requires
            old(self).inv(),
        ensures
            final(self).inv(),
            (final(self)@, dispatch@) == old(self)@.routed(iface, packet@, reading, now),
    {
        if packet.packet_type == PacketType::Data && packet.destination_type
            == DestinationType::Plain {
            if let Some(target) = reading.path_target {
                return match self.find_registration(target) {
                    Some(_) => Dispatch::AnswerPath { target },
                    None => Dispatch::Done,
                };
            }
        }
        if packet.packet_type != PacketType::Announce {
            let bridge = self.link_transport.cross(packet.destination, now);
            let is_hop: bool = packet.header_type == HeaderType::Type2 && same_hash(
                &packet.transport,
                &Some(self.own_hash),
            );
            if bridge.is_some() || is_hop {
                if !self.routing.accepts_transit_from(iface) {
                    self.routing_stats.policy_rejected =
                    self.routing_stats.policy_rejected.wrapping_add(1);
                    return Dispatch::Done;
                }
                match bridge {
                    Some(bridge) => {
                        let out: InterfaceId = if iface == bridge.from {
                            bridge.out
                        } else {
                            bridge.from
                        };
                        self.forward_on(out, packet);
                    },
                    None => {
                        self.forward(iface, packet, reading.link_id, now);
                    },
                }
                return Dispatch::Done;
            }
        }
        match packet.packet_type {
            PacketType::Announce => self.route_announce(iface, packet, now),
            PacketType::LinkRequest => self.route_link_request(
                iface,
                packet,
                reading.link_id,
                now,
            ),
            PacketType::Proof => self.route_proof(packet, reading.proves_pending),
            PacketType::Data => self.route_data(packet),
        }
    }
}

/// The first registration of a destination is within the part looked at, or after it.
proof fn lemma_registration_index(
    registered: Seq<RegisteredModel>,
    destination: AddressHash,
    n: int,
)
    requires
        0 <= n <= registered.len(),
        registration_index(registered.subrange(0, n), destination) is Some,
    ensures
        registration_index(registered, destination) == registration_index(
            registered.subrange(0, n),
            destination,
        ),
    decreases registered.len() - n,
{
    if n < registered.len() {
        let next = registered.subrange(0, n + 1);
        assert(next.drop_last() =~= registered.subrange(0, n));
        lemma_registration_index(registered, destination, n + 1);
    } else {
        assert(registered.subrange(0, n) =~= registered);
    }
}

/// Why an endpoint did not do what it was asked.
#[derive(Clone, Copy, Debug, PartialEq, Eq, Structural)]
pub enum EndpointError {
    /// It is winding down or has ended.
    Closed,
    /// A frame limit cannot hold a header and the access code.
    FrameLimitTooSmall,
    /// A ratchet store has no current epoch.
    NoCurrentRatchet,
    /// The destination is not registered here.
    NotRegistered,
    /// The clock cannot be written in an announce, or the ordinals are used up.
    Timebase(TimebaseError),
    /// A single packet's plaintext exceeds what one packet carries.
    PlaintextTooLong,
    /// The destination has not announced.
    NotAnnounced,
    /// The destination did not advertise a ratchet.
    NoRatchet,
    /// A packet is longer than any interface carries.
    FrameLimit { actual: usize, limit: usize },
    /// No interface accepted the packet.
    WouldBlock,
    /// The operating system's random source is not available.
    EntropyUnavailable,
}

impl EndpointError {
    /// What went wrong, in words.
    pub open spec fn words(self) -> Seq<char> {
        match self {
            EndpointError::Closed => "endpoint closed"@,
            EndpointError::FrameLimitTooSmall =>
            "interface frame limit cannot hold a Reticulum header and access code"@,
            EndpointError::NoCurrentRatchet => "ratchet store has no current epoch"@,
            EndpointError::NotRegistered => "destination is not registered"@,
            EndpointError::Timebase(_) =>
            "host announce timebase is not representable or exhausted"@,
            EndpointError::PlaintextTooLong => "single-packet plaintext exceeds ENCRYPTED_MDU"@,
            EndpointError::NotAnnounced => "destination has not announced"@,
            EndpointError::NoRatchet => "destination did not advertise a ratchet"@,
            EndpointError::FrameLimit { actual, limit } => "single packet is "@ + decimal(
                actual as nat,
            ) + " bytes after encryption, interface frame limit is "@ + decimal(limit as nat),
            EndpointError::WouldBlock => "no interface accepted the single packet"@,
            EndpointError::EntropyUnavailable => "OS CSPRNG unavailable"@,
        }
    }

    /// What went wrong, in words.
    pub fn message(&self) -> (text: String)
        ensures
            text@ == self.words(),
    {
        match self {
            EndpointError::Closed => String::from_str("endpoint closed"),
            EndpointError::FrameLimitTooSmall => String::from_str(
                "interface frame limit cannot hold a Reticulum header and access code",
            ),
            EndpointError::NoCurrentRatchet => String::from_str(
                "ratchet store has no current epoch",
            ),
            EndpointError::NotRegistered => String::from_str("destination is not registered"),
            EndpointError::Timebase(_) => String::from_str(
                "host announce timebase is not representable or exhausted",
            ),
            EndpointError::PlaintextTooLong => String::from_str(
                "single-packet plaintext exceeds ENCRYPTED_MDU",
            ),
            EndpointError::NotAnnounced => String::from_str("destination has not announced"),
            EndpointError::NoRatchet => String::from_str(
                "destination did not advertise a ratchet",
            ),
            EndpointError::FrameLimit { actual, limit } => {
                let mut text = String::from_str("single packet is ");
                append_decimal(&mut text, *actual);
                text.append(" bytes after encryption, interface frame limit is ");
                append_decimal(&mut text, *limit);
                text
            },
            EndpointError::WouldBlock => String::from_str(
                "no interface accepted the single packet",
            ),
            EndpointError::EntropyUnavailable => String::from_str("OS CSPRNG unavailable"),
        }
    }
}

impl EndpointModel {
    // -----------------------------------------------------------------------------------
    // Own announces.
    /// The destination of a name under this endpoint's identity.
    pub open spec fn destination_of(self, name: Seq<char>) -> AddressHash {
        AddressHash::with(
            destination_of(name_hash_of(name), address_of(public_of(self.secret))),
        )
    }

    /// The ordinal a destination's next announce takes: the later of the clock and the
    /// successor of the last.
    pub open spec fn next_ordinal(self, destination: AddressHash, source_seconds: u64) -> Result<
        u64,
        TimebaseError,
    > {
        let last = if self.ordinals.contains_key(destination) {
            self.ordinals[destination]
        } else {
            0
        };
        let next = if source_seconds > last {
            source_seconds as int
        } else {
            last + 1
        };
        if source_seconds > ANNOUNCE_TIMEBASE_MAX {
            Err(TimebaseError::OutOfRange)
        } else if next > ANNOUNCE_TIMEBASE_MAX {
            Err(TimebaseError::Exhausted)
        } else {
            Ok(next as u64)
        }
    }

    /// With an ordinal drawn for a destination.
    pub open spec fn with_ordinal(self, destination: AddressHash, ordinal: u64) -> EndpointModel {
        EndpointModel { ordinals: self.ordinals.insert(destination, ordinal), ..self }
    }

    /// An announce of ours.
    pub open spec fn own_announce(
        self,
        name: Seq<char>,
        ratchet: Option<[u8; 32]>,
        app_data: Seq<u8>,
        nonce: Seq<u8>,
        ordinal: u64,
        context: u8,
    ) -> PacketModel {
        let a = announcement(
            self.secret,
            name_hash_of(name),
            AnnounceBlob::minted(nonce, ordinal)@,
            match ratchet {
                Some(r) => Some(r@),
                None => None,
            },
            app_data,
        );
        PacketModel {
            ifac: false,
            header_type: HeaderType::Type1,
            context_flag: ratchet is Some,
            propagation: Propagation::Broadcast,
            destination_type: DestinationType::Single,
            packet_type: PacketType::Announce,
            hops: 0,
            transport: None,
            destination: self.destination_of(name),
            context,
            payload: a.payload(announcement_signature(self.secret, a)),
        }
    }

    /// The ratchet a name is announced with: the current one of its registration.
    pub open spec fn ratchet_of(self, destination: AddressHash) -> Option<[u8; 32]> {
        match self.registration(destination) {
            Some(r) => r.ratchet,
            None => None,
        }
    }

    /// After a destination of ours was announced with an ordinal.
    pub open spec fn announced(
        self,
        name: Seq<char>,
        app_data: Seq<u8>,
        nonce: Seq<u8>,
        ordinal: u64,
    ) -> EndpointModel {
        let destination = self.destination_of(name);
        self.with_ordinal(destination, ordinal).broadcast(
            self.own_announce(
                name,
                self.ratchet_of(destination),
                app_data,
                nonce,
                ordinal,
                0,
            ),
        )
    }

    /// With a destination registered.
    pub open spec fn with_registration(
        self,
        name: Seq<char>,
        app_data: Seq<u8>,
        kind: LinkFactKind,
        ratchet: Option<[u8; 32]>,
    ) -> EndpointModel {
        EndpointModel {
            registered: self.registered.push(
                RegisteredModel {
                    dest: self.destination_of(name),
                    kind,
                    name,
                    app_data,
                    ratchet,
                },
            ),
            ..self
        }
    }

    /// With the ratchet of a registration replaced.
    pub open spec fn with_ratchet(self, i: int, ratchet: [u8; 32]) -> EndpointModel {
        EndpointModel {
            registered: self.registered.update(
                i,
                RegisteredModel { ratchet: Some(ratchet), ..self.registered[i] },
            ),
            ..self
        }
    }
}

impl Endpoint {
    // -----------------------------------------------------------------------------------
    // Own announces.
    /// The destination of a name under this endpoint's identity.
    fn destination_of(&self, name: &DestinationName) -> (destination: AddressHash)
        ensures
            destination == self@.destination_of(name@),
    {
        let destination = name.destination_hash(self.identity.public());
        proof {
            AddressHash::lemma_with(destination);
        }
        destination
    }

    /// Draw the next ordinal for a destination, strictly above every one drawn for it before.
    /// Each destination has its own, so two registered names do not consume one another's
    /// ordinal space.
    pub fn next_announce_ordinal(&mut self, destination: AddressHash, source_seconds: u64) -> (result:
        Result<u64, TimebaseError>)
        requires
            old(self).inv(),
        ensures
            final(self).inv(),
            result == old(self)@.next_ordinal(destination, source_seconds),
            final(self)@ == match result {
                Ok(ordinal) => old(self)@.with_ordinal(destination, ordinal),
                Err(_) => old(self)@,
            },
    {
        let ghost start = self@;
        let ghost held = self.announce_timebases.view();
        let mut generator = match self.announce_timebases.get(&destination) {
            Some(generator) => *generator,
            None => match TimebaseGenerator::host(0) {
                Ok(generator) => generator,
                Err(e) => {
                    return Err(e);
                },
            },
        };
        let result = generator.next(source_seconds);
        if result.is_ok() {
            self.announce_timebases.insert(destination, generator);
            assert(emitted_of(held.insert(destination, generator)) =~= emitted_of(held).insert(
                destination,
                generator.emitted(),
            ));
        }
        result
    }

    /// Mint the next blob for a destination: its next ordinal under a fresh random nonce.
    /// Nothing is claimed of the nonce, which is drawn from the operating system.
    pub fn next_announce_blob(&mut self, destination: AddressHash, source_seconds: u64) -> (result:
        Result<AnnounceBlob, EndpointError>)
        requires
            old(self).inv(),
        ensures
            final(self).inv(),
            match result {
                Ok(blob) => {
                    let ordinal = old(self)@.next_ordinal(destination, source_seconds);
                    &&& ordinal is Ok
                    &&& blob.ordinal() == ordinal->Ok_0
                    &&& final(self)@ == old(self)@.with_ordinal(destination, ordinal->Ok_0)
                },
                Err(EndpointError::Timebase(e)) => old(self)@.next_ordinal(
                    destination,
                    source_seconds,
                ) == Err::<u64, TimebaseError>(e) && final(self)@ == old(self)@,
                Err(e) => e == EndpointError::EntropyUnavailable && final(self)@ == old(self)@,
            },
    {
        let nonce = match announce_nonce() {
            Ok(nonce) => nonce,
            Err(_) => {
                return Err(EndpointError::EntropyUnavailable);
            },
        };
        let ordinal: u64 = match self.next_announce_ordinal(destination, source_seconds) {
            Ok(ordinal) => ordinal,
            Err(e) => {
                return Err(EndpointError::Timebase(e));
            },
        };
        match AnnounceBlob::mint(nonce, ordinal) {
            Ok(blob) => Ok(blob),
            Err(e) => Err(EndpointError::Timebase(e)),
        }
    }

    /// Announce a destination on every interface under a fresh random nonce.
    pub fn announce_fresh(&mut self, name: &DestinationName, app_data: &[u8], source_seconds: u64) -> (result:
        Result<(), EndpointError>)
        requires
            old(self).inv(),
        ensures
            final(self).inv(),
            match result {
                Ok(()) => {
                    let ordinal = old(self)@.next_ordinal(
                        old(self)@.destination_of(name@),
                        source_seconds,
                    );
                    ordinal is Ok && exists|nonce: Seq<u8>|
                        nonce.len() == ANNOUNCE_NONCE_LEN && final(self)@ == #[trigger] old(
                            self,
                        )@.announced(name@, app_data@, nonce, ordinal->Ok_0)
                },
                Err(EndpointError::Timebase(e)) => old(self)@.next_ordinal(
                    old(self)@.destination_of(name@),
                    source_seconds,
                ) == Err::<u64, TimebaseError>(e) && final(self)@ == old(self)@,
                Err(e) => e == EndpointError::EntropyUnavailable && final(self)@ == old(self)@,
            },
    {
        match announce_nonce() {
            Ok(nonce) => self.announce(name, app_data, source_seconds, nonce),
            Err(_) => Err(EndpointError::EntropyUnavailable),
        }
    }

    /// A fresh random delay before relaying an announce, within what is set.
    pub fn draw_relay_jitter(&self) -> (result: Result<u64, EndpointError>)
        ensures
            result matches Ok(delay) ==> delay <= self@.settings.relay_jitter_ms,
            self@.settings.relay_jitter_ms == 0 ==> result == Ok::<u64, EndpointError>(0),
            result matches Err(e) ==> e == EndpointError::EntropyUnavailable,
    {
        let max: u64 = self.settings.relay_jitter_ms;
        if max == 0 {
            return Ok(0);
        }
        match random_bytes::<8>() {
            Ok(sample) => Ok(relay_jitter(max, sample)),
            Err(_) => Err(EndpointError::EntropyUnavailable),
        }
    }

    /// Build one locally owned announce. The ordinal is the destination's own, and the nonce
    /// is for the caller to draw at random.
    pub fn build_announce_at(
        &mut self,
        name: &DestinationName,
        ratchet: Option<[u8; 32]>,
        app_data: &[u8],
        source_seconds: u64,
        nonce: [u8; ANNOUNCE_NONCE_LEN],
    ) -> (result: Result<Packet, TimebaseError>)
        requires
            old(self).inv(),
        ensures
            final(self).inv(),
            ({
                let destination = old(self)@.destination_of(name@);
                match result {
                    Ok(packet) => {
                        let ordinal = old(self)@.next_ordinal(destination, source_seconds);
                        &&& ordinal is Ok
                        &&& final(self)@ == old(self)@.with_ordinal(destination, ordinal->Ok_0)
                        &&& packet@ == old(self)@.own_announce(
                            name@,
                            ratchet,
                            app_data@,
                            nonce@,
                            ordinal->Ok_0,
                            0,
                        )
                        &&& destination@ == destination_of(
                            name_hash_of(name@),
                            address_of(public_of(old(self)@.secret)),
                        )
                    },
                    Err(e) => old(self)@.next_ordinal(destination, source_seconds) == Err::<
                        u64,
                        TimebaseError,
                    >(e) && final(self)@ == old(self)@,
                }
            }),
    {
        let ghost start = self@;
        let destination = self.destination_of(name);
        let ordinal: u64 = match self.next_announce_ordinal(destination, source_seconds) {
            Ok(ordinal) => ordinal,
            Err(e) => {
                return Err(e);
            },
        };
        match AnnounceBlob::mint(nonce, ordinal) {
            Ok(blob) => {
                let packet = build(
                    &self.identity,
                    name.name_hash(),
                    blob.as_bytes(),
                    ratchet,
                    app_data,
                );
                proof {
                    AddressHash::lemma_with(packet.destination);
                    assert(packet@ == start.own_announce(
                        name@,
                        ratchet,
                        app_data@,
                        nonce@,
                        ordinal,
                        0,
                    ));
                }
                Ok(packet)
            },
            Err(e) => Err(e),
        }
    }

    /// Emit an announce for a destination on every interface.
    pub fn announce(
        &mut self,
        name: &DestinationName,
        app_data: &[u8],
        source_seconds: u64,
        nonce: [u8; ANNOUNCE_NONCE_LEN],
    ) -> (result: Result<(), EndpointError>)
        requires
            old(self).inv(),
        ensures
            final(self).inv(),
            match old(self)@.next_ordinal(old(self)@.destination_of(name@), source_seconds) {
                Ok(ordinal) => result is Ok && final(self)@ == old(self)@.announced(
                    name@,
                    app_data@,
                    nonce@,
                    ordinal,
                ),
                Err(e) => result == Err::<(), EndpointError>(EndpointError::Timebase(e)) && final(self)@ == old(self)@,
            },
    {
        let destination = self.destination_of(name);
        let ratchet = match self.find_registration(destination) {
            Some(i) => self.registered[i].ratchet,
            None => None,
        };
        match self.build_announce_at(name, ratchet, app_data, source_seconds, nonce) {
            Ok(packet) => {
                self.broadcast(&packet);
                Ok(())
            },
            Err(e) => Err(EndpointError::Timebase(e)),
        }
    }

    /// Build a path response for `target` if it is one of our registered destinations: an
    /// announce for it in the context that says so. We hold no announce cache, so we cannot
    /// answer for others and stay silent rather than guess.
    pub fn path_response_at(
        &mut self,
        target: AddressHash,
        source_seconds: u64,
        nonce: [u8; ANNOUNCE_NONCE_LEN],
    ) -> (result: Result<Packet, EndpointError>)
        requires
            old(self).inv(),
        ensures
            final(self).inv(),
            match old(self)@.registration(target) {
                None => result == Err::<Packet, EndpointError>(EndpointError::NotRegistered)
                    && final(self)@ == old(self)@,
                Some(r) => {
                    let destination = old(self)@.destination_of(r.name);
                    match old(self)@.next_ordinal(destination, source_seconds) {
                        Ok(ordinal) => result matches Ok(packet) && packet@ == old(
                            self,
                        )@.own_announce(
                            r.name,
                            r.ratchet,
                            r.app_data,
                            nonce@,
                            ordinal,
                            CTX_PATH_RESPONSE,
                        ) && final(self)@ == old(self)@.with_ordinal(destination, ordinal),
                        Err(e) => result == Err::<Packet, EndpointError>(
                            EndpointError::Timebase(e),
                        ) && final(self)@ == old(self)@,
                    }
                },
            },
    {
        let i: usize = match self.find_registration(target) {
            Some(i) => i,
            None => {
                return Err(EndpointError::NotRegistered);
            },
        };
        let name = self.registered[i].name.clone();
        let ratchet = self.registered[i].ratchet;
        let app_data = bytes::copy_all(self.registered[i].app_data.as_slice());
        assert(self@.registered[i as int] == self.registered@[i as int]@);
        match self.build_announce_at(&name, ratchet, app_data.as_slice(), source_seconds, nonce) {
            Ok(packet) => {
                let mut packet = packet;
                packet.context = CTX_PATH_RESPONSE;
                Ok(packet)
            },
            Err(e) => Err(EndpointError::Timebase(e)),
        }
    }

    /// Answer a path request for a destination we own, on every interface.
    pub fn answer_path(
        &mut self,
        target: AddressHash,
        source_seconds: u64,
        nonce: [u8; ANNOUNCE_NONCE_LEN],
    ) -> (result: Result<(), EndpointError>)
        requires
            old(self).inv(),
        ensures
            final(self).inv(),
            match old(self)@.registration(target) {
                None => result == Err::<(), EndpointError>(EndpointError::NotRegistered) && final(self)@ == old(self)@,
                Some(r) => {
                    let destination = old(self)@.destination_of(r.name);
                    match old(self)@.next_ordinal(destination, source_seconds) {
                        Ok(ordinal) => result is Ok && final(self)@ == old(self)@.with_ordinal(
                            destination,
                            ordinal,
                        ).broadcast(
                            old(self)@.own_announce(
                                r.name,
                                r.ratchet,
                                r.app_data,
                                nonce@,
                                ordinal,
                                CTX_PATH_RESPONSE,
                            ),
                        ),
                        Err(e) => result == Err::<(), EndpointError>(EndpointError::Timebase(e))
                            && final(self)@ == old(self)@,
                    }
                },
            },
    {
        match self.path_response_at(target, source_seconds, nonce) {
            Ok(packet) => {
                self.broadcast(&packet);
                Ok(())
            },
            Err(e) => Err(e),
        }
    }

    /// Register a destination and announce it.
    fn register_with(
        &mut self,
        name: DestinationName,
        app_data: &[u8],
        kind: LinkFactKind,
        ratchet: Option<[u8; 32]>,
        source_seconds: u64,
        nonce: [u8; ANNOUNCE_NONCE_LEN],
    ) -> (result: Result<(), EndpointError>)
        requires
            old(self).inv(),
        ensures
            final(self).inv(),
            registers(
                old(self)@,
                final(self)@,
                result,
                name@,
                app_data@,
                kind,
                ratchet,
                source_seconds,
                nonce@,
            ),
    {
        let ghost start = self@;
        let dest = self.destination_of(&name);
        let row = Registered {
            dest,
            kind,
            name: name.clone(),
            app_data: bytes::copy_all(app_data),
            ratchet,
        };
        let ghost rows = self.registered@;
        self.registered.push(row);
        proof {
            assert(registered_models(rows.push(row)) =~= registered_models(rows).push(row@));
            assert(self@ == start.with_registration(name@, app_data@, kind, ratchet));
        }
        self.announce(&name, app_data, source_seconds, nonce)
    }

    /// Register a destination to accept best-effort links on, and announce it.
    pub fn register(
        &mut self,
        name: DestinationName,
        app_data: &[u8],
        source_seconds: u64,
        nonce: [u8; ANNOUNCE_NONCE_LEN],
    ) -> (result: Result<(), EndpointError>)
        requires
            old(self).inv(),
        ensures
            final(self).inv(),
            registers(
                old(self)@,
                final(self)@,
                result,
                name@,
                app_data@,
                LinkFactKind::BestEffort,
                None,
                source_seconds,
                nonce@,
            ),
    {
        self.register_with(name, app_data, LinkFactKind::BestEffort, None, source_seconds, nonce)
    }

    /// Register a destination to accept reliable links on, for lossy interfaces, and announce
    /// it. The initiator's identity arrives over the link, so none need be supplied.
    pub fn register_reliable(
        &mut self,
        name: DestinationName,
        app_data: &[u8],
        source_seconds: u64,
        nonce: [u8; ANNOUNCE_NONCE_LEN],
    ) -> (result: Result<(), EndpointError>)
        requires
            old(self).inv(),
        ensures
            final(self).inv(),
            registers(
                old(self)@,
                final(self)@,
                result,
                name@,
                app_data@,
                LinkFactKind::Reliable,
                None,
                source_seconds,
                nonce@,
            ),
    {
        self.register_with(name, app_data, LinkFactKind::Reliable, None, source_seconds, nonce)
    }

    /// Register a destination that accepts resource sessions, then announce it.
    pub fn register_resource(
        &mut self,
        name: DestinationName,
        app_data: &[u8],
        source_seconds: u64,
        nonce: [u8; ANNOUNCE_NONCE_LEN],
    ) -> (result: Result<(), EndpointError>)
        requires
            old(self).inv(),
        ensures
            final(self).inv(),
            registers(
                old(self)@,
                final(self)@,
                result,
                name@,
                app_data@,
                LinkFactKind::Resource,
                None,
                source_seconds,
                nonce@,
            ),
    {
        self.register_with(name, app_data, LinkFactKind::Resource, None, source_seconds, nonce)
    }

    /// Register a best-effort-link destination that also receives ratcheted single packets.
    /// `current` is the public key of the ratchet store's current epoch, if it has one.
    pub fn register_with_ratchets(
        &mut self,
        name: DestinationName,
        app_data: &[u8],
        current: Option<[u8; 32]>,
        source_seconds: u64,
        nonce: [u8; ANNOUNCE_NONCE_LEN],
    ) -> (result: Result<(), EndpointError>)
        requires
            old(self).inv(),
        ensures
            final(self).inv(),
            current is None ==> result == Err::<(), EndpointError>(EndpointError::NoCurrentRatchet)
                && final(self)@ == old(self)@,
            current is Some ==> registers(
                old(self)@,
                final(self)@,
                result,
                name@,
                app_data@,
                LinkFactKind::BestEffort,
                current,
                source_seconds,
                nonce@,
            ),
    {
        if current.is_none() {
            return Err(EndpointError::NoCurrentRatchet);
        }
        self.register_with(name, app_data, LinkFactKind::BestEffort, current, source_seconds, nonce)
    }

    /// Register a resource destination that also receives ratcheted single packets.
    pub fn register_resource_with_ratchets(
        &mut self,
        name: DestinationName,
        app_data: &[u8],
        current: Option<[u8; 32]>,
        source_seconds: u64,
        nonce: [u8; ANNOUNCE_NONCE_LEN],
    ) -> (result: Result<(), EndpointError>)
        requires
            old(self).inv(),
        ensures
            final(self).inv(),
            current is None ==> result == Err::<(), EndpointError>(EndpointError::NoCurrentRatchet)
                && final(self)@ == old(self)@,
            current is Some ==> registers(
                old(self)@,
                final(self)@,
                result,
                name@,
                app_data@,
                LinkFactKind::Resource,
                current,
                source_seconds,
                nonce@,
            ),
    {
        if current.is_none() {
            return Err(EndpointError::NoCurrentRatchet);
        }
        self.register_with(name, app_data, LinkFactKind::Resource, current, source_seconds, nonce)
    }

    /// Replace a registered destination's current receive ratchet and announce it. The caller
    /// retains the canonical store and persists it.
    pub fn update_ratchets(
        &mut self,
        name: &DestinationName,
        current: Option<[u8; 32]>,
        source_seconds: u64,
        nonce: [u8; ANNOUNCE_NONCE_LEN],
    ) -> (result: Result<(), EndpointError>)
        requires
            old(self).inv(),
        ensures
            final(self).inv(),
            match current {
                None => result == Err::<(), EndpointError>(EndpointError::NoCurrentRatchet)
                    && final(self)@ == old(self)@,
                Some(ratchet) => match registration_index(
                    old(self)@.registered,
                    old(self)@.destination_of(name@),
                ) {
                    None => result == Err::<(), EndpointError>(EndpointError::NotRegistered)
                        && final(self)@ == old(self)@,
                    Some(i) => {
                        let replaced = old(self)@.with_ratchet(i, ratchet);
                        match old(self)@.next_ordinal(
                            old(self)@.destination_of(name@),
                            source_seconds,
                        ) {
                            Ok(ordinal) => result is Ok && final(self)@ == replaced.announced(
                                name@,
                                old(self)@.registered[i].app_data,
                                nonce@,
                                ordinal,
                            ),
                            Err(e) => result == Err::<(), EndpointError>(
                                EndpointError::Timebase(e),
                            ) && final(self)@ == replaced,
                        }
                    },
                },
            },
    {
        let ghost start = self@;
        let ratchet = match current {
            Some(ratchet) => ratchet,
            None => {
                return Err(EndpointError::NoCurrentRatchet);
            },
        };
        let dest = self.destination_of(name);
        let i: usize = match self.find_registration(dest) {
            Some(i) => i,
            None => {
                return Err(EndpointError::NotRegistered);
            },
        };
        self.registered[i].ratchet = Some(ratchet);
        assert(self@.registered =~= start.with_ratchet(i as int, ratchet).registered);
        let app_data = bytes::copy_all(self.registered[i].app_data.as_slice());
        assert(start.registered[i as int].app_data == app_data@);
        self.announce(name, app_data.as_slice(), source_seconds, nonce)
    }
}

/// What registering a destination does: the registration stands, and it is announced unless
/// the clock does not allow it.
pub open spec fn registers(
    before: EndpointModel,
    after: EndpointModel,
    result: Result<(), EndpointError>,
    name: Seq<char>,
    app_data: Seq<u8>,
    kind: LinkFactKind,
    ratchet: Option<[u8; 32]>,
    source_seconds: u64,
    nonce: Seq<u8>,
) -> bool {
    let registered = before.with_registration(name, app_data, kind, ratchet);
    match before.next_ordinal(before.destination_of(name), source_seconds) {
        Ok(ordinal) => result is Ok && after == registered.announced(
            name,
            app_data,
            nonce,
            ordinal,
        ),
        Err(e) => result == Err::<(), EndpointError>(EndpointError::Timebase(e)) && after
            == registered,
    }
}

/// What a single packet is to be encrypted to.
#[derive(Clone, Copy, Debug)]
pub struct SingleRecipient {
    /// The destination's identity.
    pub identity: Identity,
    /// Its current ratchet.
    pub ratchet: [u8; 32],
}

/// Evidence that a link-less packet was encrypted and accepted by local interface queues.
#[derive(Clone, Copy, Debug)]
pub struct SinglePacketReceipt {
    pub destination: AddressHash,
    pub ratchet_id: NameHash,
    /// One for a learned route; possibly several when an expired route requires broadcast.
    pub queued_interfaces: usize,
}

/// One authenticated link-less asymmetric packet received by a registered destination.
#[derive(Clone, Debug)]
pub struct ReceivedSingle {
    pub destination: AddressHash,
    pub interface: InterfaceId,
    pub data: Vec<u8>,
    /// The retained receive ratchet that authenticated it. `None` means the destination was
    /// registered without ratchets and the long-term identity key authenticated the token.
    pub ratchet_id: Option<NameHash>,
}

/// Why a single packet that no queue took was not taken: no interface can carry it, or none
/// has room.
pub open spec fn single_failure(outcome: SingleQueueResult) -> EndpointError {
    match (outcome.frame_capable, outcome.frame_limit_rejection) {
        (false, Some((actual, limit))) => EndpointError::FrameLimit { actual, limit },
        _ => EndpointError::WouldBlock,
    }
}

/// What comes next in releasing an interface's held announces.
pub enum ReleaseStep {
    /// Nothing is left to do.
    Stop,
    /// Look again at this time.
    Wait { until_ms: u64 },
    /// One was released; look again at this time.
    Released { outcome: AnnounceOutcome, until_ms: u64 },
}

/// A [`ReleaseStep`] as a model.
pub enum ReleaseModel {
    Stop,
    Wait { until_ms: u64 },
    Released { outcome: OutcomeModel, until_ms: u64 },
}

impl View for ReleaseStep {
    type V = ReleaseModel;

    open spec fn view(&self) -> ReleaseModel {
        match self {
            ReleaseStep::Stop => ReleaseModel::Stop,
            ReleaseStep::Wait { until_ms } => ReleaseModel::Wait { until_ms: *until_ms },
            ReleaseStep::Released { outcome, until_ms } => ReleaseModel::Released {
                outcome: outcome@,
                until_ms: *until_ms,
            },
        }
    }
}

impl EndpointModel {
    // -----------------------------------------------------------------------------------
    // Single packets.
    /// Why no single packet can go to a destination, if none can.
    pub open spec fn single_refusal(self, destination: AddressHash, len: nat) -> Option<
        EndpointError,
    > {
        if self.lifecycle != Lifecycle::Running {
            Some(EndpointError::Closed)
        } else if len > ENCRYPTED_MDU {
            Some(EndpointError::PlaintextTooLong)
        } else if !self.book.peers.contains_key(destination) {
            Some(EndpointError::NotAnnounced)
        } else if self.book.peers[destination].ratchet is None {
            Some(EndpointError::NoRatchet)
        } else {
            None
        }
    }

    /// A single packet for a destination.
    pub open spec fn single_packet(destination: AddressHash, payload: Seq<u8>) -> PacketModel {
        PacketModel {
            ifac: false,
            header_type: HeaderType::Type1,
            context_flag: false,
            propagation: Propagation::Broadcast,
            destination_type: DestinationType::Single,
            packet_type: PacketType::Data,
            hops: 0,
            transport: None,
            destination,
            context: 0,
            payload,
        }
    }

    /// After a single packet was queued: on the route to its destination, or on every
    /// interface where no live route is known.
    pub open spec fn single_queued(
        self,
        destination: AddressHash,
        packet: PacketModel,
        now: u64,
    ) -> EndpointModel {
        if self.has_route(destination, now) {
            self.sent(self.paths[destination].iface, packet, TrafficClass::Interactive)
        } else {
            let looked = self.after_lookup(destination, now);
            EndpointModel {
                interfaces: offered_all(
                    looked.interfaces,
                    addressed(packet, looked.paths),
                    TrafficClass::Interactive,
                ),
                ..looked
            }
        }
    }

    /// What became of a single packet.
    pub open spec fn single_outcome(
        self,
        destination: AddressHash,
        packet: PacketModel,
        now: u64,
    ) -> SingleQueueResult {
        if self.has_route(destination, now) {
            SingleQueueResult::nothing().with(
                admission_at(
                    self.interfaces,
                    self.paths[destination].iface,
                    addressed(packet, self.paths),
                    TrafficClass::Interactive,
                ),
            )
        } else {
            let looked = self.after_lookup(destination, now);
            all_outcomes(
                looked.interfaces,
                addressed(packet, looked.paths),
                TrafficClass::Interactive,
            )
        }
    }

    // -----------------------------------------------------------------------------------
    // Held announces.
    /// What comes next in releasing an interface's held announces.
    pub open spec fn release_step(self, iface: InterfaceId, now: u64) -> (
        EndpointModel,
        ReleaseModel,
    ) {
        let found = first_of(self.held, iface);
        if self.lifecycle != Lifecycle::Running || found is None
            || !self.admission.interfaces.contains_key(iface) {
            (self, ReleaseModel::Stop)
        } else {
            let (row, until_ms) = release_of(
                self.admission.interfaces[iface],
                now,
                self.admission.policy,
            );
            let admission = self.admission.with_row(iface, row);
            if until_ms > now {
                (EndpointModel { admission, ..self }, ReleaseModel::Wait { until_ms })
            } else {
                let held = self.held[found->0];
                let (after, outcome) = EndpointModel {
                    admission: admission.after_released(iface),
                    held: self.held.remove(found->0),
                    ..self
                }.processed(
                    iface,
                    held.packet,
                    hash_of(held.packet),
                    held.destination,
                    held.announce,
                    now,
                );
                (after, ReleaseModel::Released { outcome, until_ms })
            }
        }
    }
}

impl Endpoint {
    /// Broadcast a path request for `destination`, asking the network to make it reachable.
    /// The matching path response is an announce, ingested like any other, which populates
    /// the path table *and the address book*, so this is also how an identity is learned for
    /// a destination that has only ever been named to us.
    ///
    /// Rate-limited per destination and over all, and silent when the request is suppressed,
    /// because callers ask on someone else's schedule. Returns whether a request actually
    /// went out.
    pub fn request_path(&mut self, destination: AddressHash, request: &Packet, now: u64) -> (goes_out:
        bool)
        requires
            old(self).inv(),
        ensures
            final(self).inv(),
            goes_out == old(self)@.budget.admits(destination, now),
            ({
                let asked = EndpointModel {
                    budget: old(self)@.budget.after(destination, now),
                    ..old(self)@
                };
                final(self)@ == (if goes_out {
                    asked.broadcast(request@)
                } else {
                    asked
                })
            }),
    {
        if !self.path_request_budget.within_budget(destination, now) {
            return false;
        }
        self.broadcast(request);
        true
    }

    /// What a single packet of `len` plaintext bytes to a destination is to be encrypted to.
    pub fn single_recipient(&self, destination: AddressHash, len: usize) -> (result: Result<
        SingleRecipient,
        EndpointError,
    >)
        requires
            self.inv(),
        ensures
            match result {
                Ok(to) => self@.single_refusal(destination, len as nat) is None && to.identity@
                    == self@.book.peers[destination].identity
                    && self@.book.peers[destination].ratchet == Some(to.ratchet@),
                Err(e) => self@.single_refusal(destination, len as nat) == Some(e),
            },
    {
        if self.lifecycle != Lifecycle::Running {
            return Err(EndpointError::Closed);
        }
        if len > ENCRYPTED_MDU {
            return Err(EndpointError::PlaintextTooLong);
        }
        match self.address_book.resolve(destination) {
            Some(peer) => match peer.ratchet {
                Some(ratchet) => Ok(SingleRecipient { identity: peer.identity, ratchet }),
                None => Err(EndpointError::NoRatchet),
            },
            None => Err(EndpointError::NotAnnounced),
        }
    }

    /// Queue a local single packet on its learned route, or broadcast when the cached route
    /// has expired. Says whether a candidate queue could carry the complete encoded frame, so
    /// the caller can distinguish carrier refusal from temporary queue pressure.
    pub fn queue_single(&mut self, destination: AddressHash, packet: Packet, now: u64) -> (result:
        SingleQueueResult)
        requires
            old(self).inv(),
        ensures
            final(self).inv(),
            final(self)@ == old(self)@.single_queued(destination, packet@, now),
            result == old(self)@.single_outcome(destination, packet@, now),
    {
        if let Some(iface) = self.path_iface(destination, now) {
            let mut result = SingleQueueResult::default();
            let admission = self.send_on_class(iface, packet, TrafficClass::Interactive);
            result.observe(admission);
            return result;
        }
        let packet = self.path_table.address(packet);
        carriers::offer_all_counted(&mut self.interfaces, &packet, TrafficClass::Interactive)
    }

    /// Queue one link-less packet that was encrypted to a destination's advertised ratchet.
    ///
    /// This is delivery, not a receipt from the peer. Success means the packet was accepted
    /// by at least one local interface queue.
    pub fn send_single(
        &mut self,
        destination: AddressHash,
        ratchet: &[u8; 32],
        payload: Vec<u8>,
        now: u64,
    ) -> (result: Result<SinglePacketReceipt, EndpointError>)
        requires
            old(self).inv(),
        ensures
            final(self).inv(),
            ({
                let packet = EndpointModel::single_packet(destination, payload@);
                let outcome = old(self)@.single_outcome(destination, packet, now);
                &&& final(self)@ == old(self)@.single_queued(destination, packet, now)
                &&& match result {
                    Ok(receipt) => outcome.queued > 0 && receipt.destination == destination
                        && receipt.ratchet_id@ == name_of(ratchet@) && receipt.queued_interfaces
                        == outcome.queued,
                    Err(e) => outcome.queued == 0 && e == single_failure(outcome),
                }
            }),
    {
        let packet = Packet {
            ifac: false,
            header_type: HeaderType::Type1,
            context_flag: false,
            propagation: Propagation::Broadcast,
            destination_type: DestinationType::Single,
            packet_type: PacketType::Data,
            hops: 0,
            transport: None,
            destination,
            context: 0,
            payload,
        };
        let queued = self.queue_single(destination, packet, now);
        if queued.queued == 0 {
            if !queued.frame_capable {
                if let Some((actual, limit)) = queued.frame_limit_rejection {
                    return Err(EndpointError::FrameLimit { actual, limit });
                }
            }
            return Err(EndpointError::WouldBlock);
        }
        Ok(
            SinglePacketReceipt {
                destination,
                ratchet_id: NameHash::of(ratchet),
                queued_interfaces: queued.queued,
            },
        )
    }

    /// The identity of a learned peer.
    pub fn resolve(&self, destination: AddressHash) -> (identity: Option<Identity>)
        requires
            self.inv(),
        ensures
            identity is Some <==> self@.book.peers.contains_key(destination),
            identity matches Some(i) ==> i@ == self@.book.peers[destination].identity,
    {
        match self.address_book.resolve(destination) {
            Some(peer) => Some(peer.identity),
            None => None,
        }
    }

    /// Send a link request toward its destination: on the interface the path table names, or
    /// on every interface where no live route is known (a directly connected peer).
    pub fn send_link_request(&mut self, destination: AddressHash, request: &Packet, now: u64)
        requires
            old(self).inv(),
        ensures
            final(self).inv(),
            final(self)@ == (if old(self)@.has_route(destination, now) {
                old(self)@.sent(
                    old(self)@.paths[destination].iface,
                    request@,
                    TrafficClass::Interactive,
                )
            } else {
                old(self)@.after_lookup(destination, now).broadcast(request@)
            }),
    {
        match self.path_iface(destination, now) {
            Some(iface) => {
                self.send_on(iface, request.clone());
            },
            None => {
                self.broadcast(request);
            },
        }
    }

    // -----------------------------------------------------------------------------------
    // Held announces.
    /// Claim the release of an interface's held announces. At most one release runs for each
    /// interface, so a burst cannot turn into a timer storm.
    pub fn begin_held_release(&mut self, iface: InterfaceId) -> (claimed: bool)
        requires
            old(self).inv(),
        ensures
            final(self).inv(),
            claimed == !old(self)@.releasing.contains_key(iface),
            final(self)@ == (EndpointModel {
                releasing: old(self)@.releasing.insert(iface, ()),
                ..old(self)@
            }),
    {
        if self.held_release_tasks.contains_key(&iface) {
            assert(self@.releasing.insert(iface, ()) =~= self@.releasing);
            return false;
        }
        self.held_release_tasks.insert(iface, ());
        true
    }

    /// Give the release of an interface's held announces back. Returns whether something came
    /// in meanwhile that needs another.
    pub fn end_held_release(&mut self, iface: InterfaceId) -> (more: bool)
        requires
            old(self).inv(),
        ensures
            final(self).inv(),
            more == (first_of(old(self)@.held, iface) is Some),
            final(self)@ == (EndpointModel {
                releasing: old(self)@.releasing.remove(iface),
                ..old(self)@
            }),
    {
        let _ = self.held_release_tasks.remove(&iface);
        self.held_announces.has(iface)
    }

    /// Release one verified unknown-route announce if its ingress interface has calmed.
    pub fn release_held_announce(&mut self, iface: InterfaceId, now: u64) -> (step: ReleaseStep)
        requires
            old(self).inv(),
        ensures
            final(self).inv(),
            (final(self)@, step@) == old(self)@.release_step(iface, now),
    {
        if self.lifecycle != Lifecycle::Running || !self.held_announces.has(iface) {
            return ReleaseStep::Stop;
        }
        let until_ms: u64 = match self.announce_admission.release_due(iface, now) {
            Some(due) => due,
            None => {
                return ReleaseStep::Stop;
            },
        };
        if until_ms > now {
            return ReleaseStep::Wait { until_ms };
        }
        match self.held_announces.take(iface) {
            Some(held) => {
                self.announce_admission.note_released(iface);
                let outcome = self.process_verified_announce(
                    iface,
                    held.packet,
                    held.announce,
                    now,
                );
                ReleaseStep::Released { outcome, until_ms }
            },
            None => ReleaseStep::Wait { until_ms },
        }
    }
}

/// A read-only live-link observation.
#[derive(Clone, Copy, Debug)]
pub struct LinkFact {
    pub id: AddressHash,
    pub interface: InterfaceId,
    pub kind: LinkFactKind,
    pub direction: LinkDirection,
    pub remote: LinkRemoteFact,
}

/// Route and link facts captured against one stable interface-id set.
#[derive(Clone, Debug)]
pub struct EndpointFacts {
    /// Endpoint topology revision of this fact capture.
    pub generation: u64,
    pub interfaces: Vec<InterfaceId>,
    pub routes: Vec<RouteFact>,
    pub links: Vec<LinkFact>,
    /// Routes omitted because their captured age reached the route lifetime.
    pub expired_routes: u64,
}

/// The observation of a link.
pub open spec fn fact_of(id: AddressHash, entry: LinkEntry) -> LinkFact {
    LinkFact {
        id,
        interface: entry.iface,
        kind: entry.kind,
        direction: entry.direction,
        remote: entry.remote,
    }
}

/// The observations of the links over the given interfaces.
pub open spec fn link_facts_of(
    rows: Seq<(AddressHash, LinkEntry)>,
    interfaces: Seq<InterfaceId>,
) -> Seq<LinkFact>
    decreases rows.len(),
{
    if rows.len() == 0 {
        Seq::empty()
    } else {
        let rest = link_facts_of(rows.drop_last(), interfaces);
        let (id, entry) = rows.last();
        if interfaces.contains(entry.iface) {
            rest.push(fact_of(id, entry))
        } else {
            rest
        }
    }
}

/// A value moved into a range.
pub open spec fn clamped(n: int, low: int, high: int) -> int {
    if n < low {
        low
    } else if n > high {
        high
    } else {
        n
    }
}

impl EndpointModel {
    /// An interface as it is attached: its limit is no higher than the protocol's own.
    pub open spec fn new_iface(self, max_frame_len: usize, wire_overhead: usize) -> IfaceModel {
        IfaceModel {
            id: self.next_iface_id,
            outbound: QueueModel::fresh(self.policy.queue_weights, self.policy.queue_depths),
            frame_limit: if max_frame_len < MTU + wire_overhead {
                max_frame_len
            } else {
                (MTU + wire_overhead) as usize
            },
            wire_overhead,
        }
    }

    /// After an interface was attached, which an endpoint that winds down does not take up.
    pub open spec fn attached(self, max_frame_len: usize, wire_overhead: usize, now: u64) -> EndpointModel {
        let id = self.next_iface_id;
        let counted = EndpointModel { next_iface_id: id.wrapping_add(1), ..self };
        if self.lifecycle == Lifecycle::Running {
            EndpointModel {
                interfaces: self.interfaces.push(self.new_iface(max_frame_len, wire_overhead)),
                admission: self.admission.with_interface(id, self.admission.row_for(id, now)),
                generation: self.generation.wrapping_add(1),
                ..counted
            }
        } else {
            counted
        }
    }

    /// After an interface was forgotten, with what was held of it.
    pub open spec fn detached(self, id: InterfaceId) -> EndpointModel {
        let forgotten = EndpointModel {
            admission: AdmissionModel {
                interfaces: self.admission.interfaces.remove(id),
                ..self.admission
            },
            held: without(self.held, id),
            ..self
        };
        match iface_index(self.interfaces, id) {
            Some(i) => EndpointModel {
                interfaces: taken_out(self.interfaces, i),
                generation: self.generation.wrapping_add(1),
                ..forgotten
            },
            None => forgotten,
        }
    }

    /// With one interface changed.
    pub open spec fn with_iface(self, i: int, iface: IfaceModel) -> EndpointModel {
        EndpointModel { interfaces: self.interfaces.update(i, iface), ..self }
    }

    /// With a link registered.
    pub open spec fn with_link(self, id: AddressHash, entry: LinkEntry) -> EndpointModel {
        EndpointModel {
            links: self.links.insert(id, entry),
            generation: self.generation.wrapping_add(1),
            ..self
        }
    }

    /// Without a link.
    pub open spec fn without_link(self, id: AddressHash) -> EndpointModel {
        if self.links.contains_key(id) {
            EndpointModel {
                links: self.links.remove(id),
                generation: self.generation.wrapping_add(1),
                ..self
            }
        } else {
            self
        }
    }

    /// With a peer's identity learned over its link.
    pub open spec fn with_peer(self, id: AddressHash, identity: Identity) -> EndpointModel {
        let entry = self.links[id];
        if self.links.contains_key(id) && entry.remote.identity != Some(identity) {
            self.with_link(
                id,
                LinkEntry {
                    remote: LinkRemoteFact { identity: Some(identity), ..entry.remote },
                    ..entry
                },
            )
        } else {
            self
        }
    }

    /// After an accepted link's proof was kept and sent.
    pub open spec fn link_proved(
        self,
        link_id: AddressHash,
        proof_packet: PacketModel,
        iface: InterfaceId,
        now: u64,
    ) -> EndpointModel {
        EndpointModel {
            proofs: proof_room(self.proofs, now).insert(
                link_id,
                CachedProofModel { proof_packet, at: now },
            ),
            ..self
        }.sent(iface, proof_packet, TrafficClass::Interactive)
    }

    /// After the endpoint was stopped: its links are gone, and its interfaces take nothing.
    pub open spec fn stopped(self) -> EndpointModel {
        if self.lifecycle == Lifecycle::Closed {
            self
        } else {
            EndpointModel {
                lifecycle: Lifecycle::Closed,
                links: Map::empty(),
                generation: if self.links.dom().len() > 0 {
                    self.generation.wrapping_add(1)
                } else {
                    self.generation
                },
                interfaces: all_closed(self.interfaces),
                ..self
            }
        }
    }
}

impl Endpoint {
    // -----------------------------------------------------------------------------------
    // Interfaces.
    /// Attach an interface whose frames carry `wire_overhead` bytes of access code.
    fn attach_interface_access(&mut self, max_frame_len: usize, wire_overhead: usize, now: u64) -> (result:
        Result<InterfaceId, EndpointError>)
        requires
            old(self).inv(),
            wire_overhead <= 64,
        ensures
            final(self).inv(),
            if max_frame_len < HEADER_MIN_LEN + wire_overhead {
                result == Err::<InterfaceId, EndpointError>(EndpointError::FrameLimitTooSmall)
                    && final(self)@ == old(self)@
            } else {
                result == Ok::<InterfaceId, EndpointError>(old(self)@.next_iface_id) && final(self)@ == old(self)@.attached(max_frame_len, wire_overhead, now)
            },
    {
        let ghost start = self@;
        if max_frame_len < HEADER_MIN_LEN + wire_overhead {
            return Err(EndpointError::FrameLimitTooSmall);
        }
        let id: InterfaceId = self.next_iface_id;
        self.next_iface_id = id.wrapping_add(1);
        if self.lifecycle == Lifecycle::Running {
            let iface = Iface {
                id,
                outbound: OutboundQueues::new(
                    self.routing.queue_weights,
                    self.routing.queue_depths,
                ),
                frame_limit: if max_frame_len < MTU + wire_overhead {
                    max_frame_len
                } else {
                    MTU + wire_overhead
                },
                wire_overhead,
            };
            let ghost before = self.interfaces@;
            self.interfaces.push(iface);
            proof {
                assert(iface_models(before.push(iface)) =~= iface_models(before).push(iface@));
                assert forall|j: int| 0 <= j < self.interfaces@.len() implies (
                #[trigger] iface_models(self.interfaces@)[j]).outbound.wf() by {
                    if j < before.len() {
                        assert(iface_models(before)[j].outbound.wf());
                    }
                }
            }
            self.announce_admission.attach_interface(id, now);
            self.diagnostic_generation = self.diagnostic_generation.wrapping_add(1);
        }
        Ok(id)
    }

    /// Attach a raw packet interface and return its id, doing no I/O or framing. The caller
    /// drives the transport: it drains [`Endpoint::next_outbound`] and hands what it receives
    /// to [`Endpoint::route`].
    pub fn attach_interface(&mut self, now: u64) -> (id: InterfaceId)
        requires
            old(self).inv(),
        ensures
            final(self).inv(),
            id == old(self)@.next_iface_id,
            final(self)@ == old(self)@.attached(MTU, 0, now),
    {
        let id: InterfaceId = self.next_iface_id;
        let _ = self.attach_interface_access(MTU, 0, now);
        id
    }

    /// Attach a raw packet interface with an explicit complete-frame limit.
    ///
    /// The effective limit cannot exceed the protocol's own MTU. Interface drivers may lower
    /// it again if they discover a stricter carrier limit.
    pub fn attach_interface_with_frame_limit(&mut self, max_frame_len: usize, now: u64) -> (result:
        Result<InterfaceId, EndpointError>)
        requires
            old(self).inv(),
        ensures
            final(self).inv(),
            if max_frame_len < HEADER_MIN_LEN {
                result == Err::<InterfaceId, EndpointError>(EndpointError::FrameLimitTooSmall)
                    && final(self)@ == old(self)@
            } else {
                result == Ok::<InterfaceId, EndpointError>(old(self)@.next_iface_id) && final(self)@ == old(self)@.attached(max_frame_len, 0, now)
            },
    {
        self.attach_interface_access(max_frame_len, 0, now)
    }

    /// Attach an IFAC-authenticated raw packet interface.
    ///
    /// `max_frame_len` includes the access code, so an eight-byte IFAC leaves eight fewer
    /// bytes for the logical packet on a fixed-size radio frame.
    pub fn attach_interface_with_ifac(&mut self, max_frame_len: usize, ifac: &Ifac, now: u64) -> (result:
        Result<InterfaceId, EndpointError>)
        requires
            old(self).inv(),
        ensures
            final(self).inv(),
            if max_frame_len < HEADER_MIN_LEN + ifac@.size {
                result == Err::<InterfaceId, EndpointError>(EndpointError::FrameLimitTooSmall)
                    && final(self)@ == old(self)@
            } else {
                result == Ok::<InterfaceId, EndpointError>(old(self)@.next_iface_id) && final(self)@ == old(self)@.attached(max_frame_len, ifac@.size as usize, now)
            },
    {
        let wire_overhead: usize = ifac.size();
        self.attach_interface_access(max_frame_len, wire_overhead, now)
    }

    /// Detach an interface, dropping its queues and forgetting its record.
    ///
    /// A transport that connects, drops, and reconnects, such as an unreliable TCP peer or a
    /// replugged radio, otherwise leaves its old record and queues behind on every cycle.
    pub fn detach_interface(&mut self, id: InterfaceId)
        requires
            old(self).inv(),
        ensures
            final(self).inv(),
            final(self)@ == old(self)@.detached(id),
    {
        if carriers::take_out(&mut self.interfaces, id) {
            self.diagnostic_generation = self.diagnostic_generation.wrapping_add(1);
        }
        self.announce_admission.forget_interface(id);
        self.held_announces.forget(id);
    }

    /// The next packet to send out an interface, chosen by the per-class schedule.
    pub fn next_outbound(&mut self, id: InterfaceId) -> (packet: Option<Packet>)
        requires
            old(self).inv(),
        ensures
            final(self).inv(),
            match iface_index(old(self)@.interfaces, id) {
                Some(i) => {
                    let iface = old(self)@.interfaces[i];
                    match packet {
                        Some(p) => !iface.outbound.all_empty() && p@
                            == iface.outbound.queues[iface.outbound.next_class()][0] && final(self)@ == old(self)@.with_iface(
                            i,
                            (IfaceModel { outbound: iface.outbound.after_pop(), ..iface }),
                        ),
                        None => iface.outbound.all_empty() && final(self)@ == old(self)@,
                    }
                },
                None => packet is None && final(self)@ == old(self)@,
            },
    {
        let ghost start = self@;
        match carriers::find_interface(&self.interfaces, id) {
            Some(i) => {
                assert(start.interfaces[i as int] == self.interfaces@[i as int]@);
                let packet = self.interfaces[i].outbound.pop();
                proof {
                    let now_there = self.interfaces@[i as int]@;
                    assert(self@.interfaces =~= start.interfaces.update(i as int, now_there));
                    assert forall|j: int| 0 <= j < self.interfaces@.len() implies (
                    #[trigger] iface_models(self.interfaces@)[j]).outbound.wf() by {
                        if j != i {
                            assert(start.interfaces[j].outbound.wf());
                        }
                    }
                    if packet is None {
                        assert(self@.interfaces =~= start.interfaces);
                    }
                }
                packet
            },
            None => None,
        }
    }

    /// Note that an interface's pump is done with the packet it took.
    pub fn delivery_complete(&mut self, id: InterfaceId)
        requires
            old(self).inv(),
        ensures
            final(self).inv(),
            final(self)@ == (match iface_index(old(self)@.interfaces, id) {
                Some(i) => {
                    let iface = old(self)@.interfaces[i];
                    old(self)@.with_iface(
                        i,
                        (IfaceModel {
                            outbound: QueueModel {
                                in_flight: if iface.outbound.in_flight > 0 {
                                    (iface.outbound.in_flight - 1) as usize
                                } else {
                                    0
                                },
                                ..iface.outbound
                            },
                            ..iface
                        }),
                    )
                },
                None => old(self)@,
            }),
    {
        let ghost start = self@;
        if let Some(i) = carriers::find_interface(&self.interfaces, id) {
            assert(start.interfaces[i as int] == self.interfaces@[i as int]@);
            self.interfaces[i].outbound.delivery_complete();
            proof {
                let now_there = self.interfaces@[i as int]@;
                assert(self@.interfaces =~= start.interfaces.update(i as int, now_there));
                assert forall|j: int| 0 <= j < self.interfaces@.len() implies (
                #[trigger] iface_models(self.interfaces@)[j]).outbound.wf() by {
                    if j != i {
                        assert(start.interfaces[j].outbound.wf());
                    }
                }
            }
        }
    }

    /// Close an interface's queues, whose pump could not be started. Its record stays.
    pub fn close_interface(&mut self, id: InterfaceId)
        requires
            old(self).inv(),
        ensures
            final(self).inv(),
            final(self)@ == (match iface_index(old(self)@.interfaces, id) {
                Some(i) => {
                    let iface = old(self)@.interfaces[i];
                    old(self)@.with_iface(
                        i,
                        (IfaceModel {
                            outbound: QueueModel { closed: true, ..iface.outbound },
                            ..iface
                        }),
                    )
                },
                None => old(self)@,
            }),
    {
        let ghost start = self@;
        if let Some(i) = carriers::find_interface(&self.interfaces, id) {
            assert(start.interfaces[i as int] == self.interfaces@[i as int]@);
            self.interfaces[i].outbound.close();
            proof {
                let now_there = self.interfaces@[i as int]@;
                assert(self@.interfaces =~= start.interfaces.update(i as int, now_there));
                assert forall|j: int| 0 <= j < self.interfaces@.len() implies (
                #[trigger] iface_models(self.interfaces@)[j]).outbound.wf() by {
                    if j != i {
                        assert(start.interfaces[j].outbound.wf());
                    }
                }
            }
        }
    }

    /// Whether an interface takes no further packets: it is closed, or gone.
    pub fn interface_closed(&self, id: InterfaceId) -> (closed: bool)
        requires
            self.inv(),
        ensures
            closed == (match iface_index(self@.interfaces, id) {
                Some(i) => self@.interfaces[i].outbound.closed,
                None => true,
            }),
    {
        match carriers::find_interface(&self.interfaces, id) {
            Some(i) => {
                assert(self@.interfaces[i as int] == self.interfaces@[i as int]@);
                self.interfaces[i].outbound.is_closed()
            },
            None => true,
        }
    }

    /// Maximum complete frame an interface currently admits, if it is attached.
    pub fn frame_limit(&self, id: InterfaceId) -> (limit: Option<usize>)
        requires
            self.inv(),
        ensures
            limit == (match iface_index(self@.interfaces, id) {
                Some(i) => Some(self@.interfaces[i].frame_limit),
                None => None,
            }),
    {
        match carriers::find_interface(&self.interfaces, id) {
            Some(i) => {
                assert(self@.interfaces[i as int] == self.interfaces@[i as int]@);
                Some(self.interfaces[i].frame_limit)
            },
            None => None,
        }
    }

    /// Lower an interface's admission limit to a carrier-discovered cap. This never raises
    /// it.
    pub fn constrain_frame_limit(&mut self, id: InterfaceId, max_frame_len: usize)
        requires
            old(self).inv(),
        ensures
            final(self).inv(),
            final(self)@ == (match iface_index(old(self)@.interfaces, id) {
                Some(i) => {
                    let iface = old(self)@.interfaces[i];
                    old(self)@.with_iface(
                        i,
                        (IfaceModel {
                            frame_limit: if max_frame_len < iface.frame_limit {
                                max_frame_len
                            } else {
                                iface.frame_limit
                            },
                            ..iface
                        }),
                    )
                },
                None => old(self)@,
            }),
    {
        let ghost start = self@;
        if let Some(i) = carriers::find_interface(&self.interfaces, id) {
            assert(start.interfaces[i as int] == self.interfaces@[i as int]@);
            if max_frame_len < self.interfaces[i].frame_limit {
                self.interfaces[i].frame_limit = max_frame_len;
            }
            proof {
                let now_there = self.interfaces@[i as int]@;
                assert(self@.interfaces =~= start.interfaces.update(i as int, now_there));
                assert forall|j: int| 0 <= j < self.interfaces@.len() implies (
                #[trigger] iface_models(self.interfaces@)[j]).outbound.wf() by {
                    assert(start.interfaces[j].outbound.wf());
                }
            }
        }
    }

    /// Number of interfaces currently attached.
    pub fn interface_count(&self) -> (n: usize)
        ensures
            n == self@.interfaces.len(),
    {
        self.interfaces.len()
    }

    /// Stable ordered identifiers for interfaces attached at capture time.
    pub fn interface_ids(&self) -> (ids: Vec<InterfaceId>)
        ensures
            in_order(ids@),
            ids@.to_multiset() == ids_of(self@.interfaces).to_multiset(),
            forall|id: InterfaceId| ids@.contains(id) <==> ids_of(self@.interfaces).contains(id),
    {
        carriers::sorted_ids(&self.interfaces)
    }

    /// What the outbound schedule has done across every interface: released and dropped, by
    /// class. Dropped transit is the visible sign of a bound being enforced rather than a
    /// backlog quietly growing.
    pub fn queue_counters(&self) -> (counters: QueueCounters)
        ensures
            counters == counted_all(self@.interfaces),
    {
        carriers::count_all(&self.interfaces)
    }

    /// Packets currently queued or in flight across attached interfaces.
    ///
    /// This is a point-in-time host observation. It does not alter scheduling and must not be
    /// used as a delivery receipt.
    pub fn outbound_queue_depth(&self) -> (n: usize)
        requires
            self.inv(),
        ensures
            n as nat == (if backlog_of(self@.interfaces) <= usize::MAX {
                backlog_of(self@.interfaces)
            } else {
                usize::MAX as nat
            }),
    {
        carriers::depth_all(&self.interfaces)
    }
}

/// What an orderly shutdown does next.
#[derive(Clone, Copy, Debug, PartialEq, Eq, Structural)]
pub enum ShutdownStep {
    /// Wait for a resource session to end, at most until the deadline.
    AwaitResources { remaining_ms: u64 },
    /// Wait for the interfaces to drain, briefly.
    AwaitDrain,
    /// Stop.
    Stop,
}

impl EndpointModel {
    /// What an orderly shutdown does next: first the resource sessions, whose end queues
    /// their close packet, then the wire, and the deadline bounds both.
    pub open spec fn shutdown_step(self, now: u64, deadline: u64) -> ShutdownStep {
        if now >= deadline {
            ShutdownStep::Stop
        } else if self.active_resources > 0 {
            ShutdownStep::AwaitResources { remaining_ms: (deadline - now) as u64 }
        } else if !all_drained(self.interfaces) {
            ShutdownStep::AwaitDrain
        } else {
            ShutdownStep::Stop
        }
    }
}

impl Endpoint {
    // -----------------------------------------------------------------------------------
    // Policy and settings.
    /// Configure bounded announce ingress control for subsequently observed packets. Existing
    /// histories remain, trimmed to the new capacities, so changing a setting cannot turn an
    /// unbounded backlog into a hidden one.
    pub fn set_announce_ingress_policy(&mut self, policy: AnnounceIngressPolicy)
        requires
            old(self).inv(),
        ensures
            final(self).inv(),
            final(self)@ == (EndpointModel { admission: final(self)@.admission, ..old(self)@ }),
            final(self)@.admission.policy == policy,
            is_trimmed_to(
                old(self)@.admission.interfaces,
                final(self)@.admission.interfaces,
                policy.interface_capacity as nat,
            ),
            is_trimmed_to(
                old(self)@.admission.destinations,
                final(self)@.admission.destinations,
                policy.destination_capacity as nat,
            ),
    {
        self.announce_admission.set_policy(policy);
    }

    /// The active announce-ingress policy.
    pub fn announce_ingress_policy(&self) -> (policy: AnnounceIngressPolicy)
        ensures
            policy == self@.admission.policy,
    {
        self.announce_admission.policy()
    }

    /// Per-interface ingress accounting. This is carrier attribution, not an on-air receipt.
    pub fn announce_ingress_counters(&self, interface: InterfaceId) -> (counters:
        AnnounceIngressCounters)
        requires
            self.inv(),
        ensures
            counters == (if self@.admission.interfaces.contains_key(interface) {
                self@.admission.interfaces[interface].counters
            } else {
                no_counts()
            }),
    {
        self.announce_admission.counters(interface)
    }

    /// Replace the host receive-freshness policy without discarding retained replay state.
    ///
    /// Shrinking a bound deterministically trims the oldest retained rows or blobs. Those
    /// removals are reflected in the counters.
    pub fn set_announce_freshness_policy(&mut self, policy: AnnounceFreshnessPolicy, now: u64) -> (result:
        Result<(), AnnounceFreshnessConfigError>)
        requires
            old(self).inv(),
        ensures
            final(self).inv(),
            match policy.bounds().fault() {
                Some(e) => result == Err::<(), AnnounceFreshnessConfigError>(e) && final(self)@
                    == old(self)@,
                None => {
                    let report = old(self)@.freshness.reconfigure_of(policy.bounds(), now);
                    let stats = old(self)@.stats;
                    &&& result is Ok
                    &&& final(self)@ == (EndpointModel {
                        freshness: old(self)@.freshness.after_reconfigure(policy.bounds(), now),
                        freshness_policy: policy,
                        stats: RoutingCounters {
                            freshness_rows_expired: tallied(
                                stats.freshness_rows_expired,
                                report.expired_destinations,
                            ),
                            freshness_rows_evicted: tallied(
                                stats.freshness_rows_evicted,
                                report.evicted_destinations,
                            ),
                            freshness_blobs_expired: tallied(
                                stats.freshness_blobs_expired,
                                report.expired_blobs,
                            ),
                            freshness_blobs_evicted: tallied(
                                stats.freshness_blobs_evicted,
                                report.evicted_blobs,
                            ),
                            ..stats
                        },
                        ..old(self)@
                    })
                },
            },
    {
        match self.announce_freshness.reconfigure(policy.config(), now) {
            Ok(changed) => {
                self.freshness_policy = policy;
                let stats = &mut self.routing_stats;
                stats.freshness_rows_expired =
                stats.freshness_rows_expired.wrapping_add(changed.expired_destinations as u64);
                stats.freshness_rows_evicted =
                stats.freshness_rows_evicted.wrapping_add(changed.evicted_destinations as u64);
                stats.freshness_blobs_expired =
                stats.freshness_blobs_expired.wrapping_add(changed.expired_blobs as u64);
                stats.freshness_blobs_evicted =
                stats.freshness_blobs_evicted.wrapping_add(changed.evicted_blobs as u64);
                Ok(())
            },
            Err(e) => Err(e),
        }
    }

    /// The active host receive-freshness policy.
    pub fn announce_freshness_policy(&self) -> (policy: AnnounceFreshnessPolicy)
        ensures
            policy == self@.freshness_policy,
    {
        self.freshness_policy
    }

    /// Act as a transport node: forward announces and packets. Off by default, since an
    /// endpoint carries only its own traffic unless it opts in.
    pub fn enable_routing(&mut self)
        requires
            old(self).inv(),
        ensures
            final(self).inv(),
            final(self)@ == (EndpointModel {
                policy: PolicyModel::everything(),
                interfaces: all_with_policy(
                    old(self)@.interfaces,
                    QueueWeights::standard(),
                    QueueDepths::standard(),
                ),
                ..old(self)@
            }),
    {
        self.set_routing_policy(RoutingPolicy::transit());
    }

    /// Install the transit policy: what this endpoint carries for others, from and to which
    /// interfaces, and how far. Takes effect for packets routed after it returns, and its
    /// queue policy for interfaces already attached too.
    ///
    /// Transit and local service are independent. Carrying nothing, the default, does not
    /// affect this endpoint's own links, announces, or registered destinations.
    pub fn set_routing_policy(&mut self, policy: RoutingPolicy)
        requires
            old(self).inv(),
        ensures
            final(self).inv(),
            final(self)@ == (EndpointModel {
                policy: policy@,
                interfaces: all_with_policy(
                    old(self)@.interfaces,
                    policy@.queue_weights,
                    policy@.queue_depths,
                ),
                ..old(self)@
            }),
    {
        let weights = policy.queue_weights;
        let depths = policy.queue_depths;
        self.routing = policy;
        carriers::set_policy_all(&mut self.interfaces, weights, depths);
    }

    /// The transit policy currently installed.
    pub fn routing_policy(&self) -> (policy: RoutingPolicy)
        ensures
            policy@ == self@.policy,
    {
        self.routing.clone()
    }

    /// What routing has done since this endpoint started: forwarded, refused, and dropped.
    pub fn routing_counters(&self) -> (counters: RoutingCounters)
        ensures
            counters == self@.stats,
    {
        self.routing_stats
    }

    /// Spread announce relays over a random delay of `0..=max`, instead of relaying the
    /// instant the announce is routed.
    ///
    /// Every neighbour that heard an announce is about to relay it. On a shared medium,
    /// relaying immediately means relaying *simultaneously*, so a flood partly destroys
    /// itself. Off by default, since it costs latency and buys nothing on a point-to-point
    /// link.
    pub fn set_relay_jitter(&mut self, max: Duration)
        requires
            old(self).inv(),
        ensures
            final(self).inv(),
            final(self)@ == (EndpointModel {
                settings: LinkSettings { relay_jitter_ms: span_ms(max), ..old(self)@.settings },
                ..old(self)@
            }),
    {
        self.settings.relay_jitter_ms = duration_ms(max);
    }

    /// Set the first reliable-channel RTT estimate for subsequently opened links. Slow
    /// half-duplex radios should allow for their queue and proof turnaround time.
    pub fn set_reliable_initial_rtt(&mut self, rtt: Duration)
        requires
            old(self).inv(),
        ensures
            final(self).inv(),
            final(self)@ == (EndpointModel {
                settings: LinkSettings {
                    reliable_initial_rtt_ms: clamped(
                        span_ms(rtt) as int,
                        1,
                        u64::MAX as int,
                    ) as u64,
                    ..old(self)@.settings
                },
                ..old(self)@
            }),
    {
        let millis: u64 = duration_ms(rtt);
        self.settings.reliable_initial_rtt_ms = if millis == 0 {
            1
        } else {
            millis
        };
    }

    /// Cap the reliable channel send window for subsequently opened links.
    ///
    /// Set this to one on strict half-duplex media so each data frame is proved before
    /// another transmission begins.
    pub fn set_reliable_max_window(&mut self, frames: u32)
        requires
            old(self).inv(),
        ensures
            final(self).inv(),
            final(self)@ == (EndpointModel {
                settings: LinkSettings {
                    reliable_max_window: clamped(
                        frames as int,
                        1,
                        DEFAULT_RELIABLE_MAX_WINDOW as int,
                    ) as u32,
                    ..old(self)@.settings
                },
                ..old(self)@
            }),
    {
        self.settings.reliable_max_window = if frames == 0 {
            1
        } else if frames > DEFAULT_RELIABLE_MAX_WINDOW {
            DEFAULT_RELIABLE_MAX_WINDOW
        } else {
            frames
        };
    }

    /// Set the retry interval for link requests sent by subsequently opened links.
    pub fn set_link_setup_retry(&mut self, interval: Duration)
        requires
            old(self).inv(),
        ensures
            final(self).inv(),
            final(self)@ == (EndpointModel {
                settings: LinkSettings {
                    link_setup_retry_ms: clamped(
                        span_ms(interval) as int,
                        1,
                        u64::MAX as int,
                    ) as u64,
                    ..old(self)@.settings
                },
                ..old(self)@
            }),
    {
        let millis: u64 = duration_ms(interval);
        self.settings.link_setup_retry_ms = if millis == 0 {
            1
        } else {
            millis
        };
    }

    /// Set the MTU requested and offered by subsequently established links.
    ///
    /// The lower bound keeps link setup, identify, and resource control packets representable
    /// while allowing the standard eight-byte IFAC on a 255-byte packet radio.
    pub fn set_link_mtu(&mut self, mtu: u32)
        requires
            old(self).inv(),
        ensures
            final(self).inv(),
            final(self)@ == (EndpointModel {
                settings: LinkSettings {
                    link_mtu: clamped(mtu as int, MIN_LINK_MTU as int, MTU as int) as u32,
                    ..old(self)@.settings
                },
                ..old(self)@
            }),
    {
        self.settings.link_mtu = if mtu < MIN_LINK_MTU {
            MIN_LINK_MTU
        } else if mtu > DEFAULT_LINK_MTU {
            DEFAULT_LINK_MTU
        } else {
            mtu
        };
    }

    /// What links opened from now on use.
    pub fn link_settings(&self) -> (settings: LinkSettings)
        ensures
            settings == self@.settings,
    {
        self.settings
    }

    // -----------------------------------------------------------------------------------
    // Observation.
    /// The interface a learned destination is reachable over, and its hop count. An expired
    /// route is not returned, and is dropped.
    pub fn route_to(&mut self, destination: AddressHash, now: u64) -> (route: Option<
        (InterfaceId, u8),
    >)
        requires
            old(self).inv(),
        ensures
            final(self).inv(),
            final(self)@ == old(self)@.after_lookup(destination, now),
            route == (if old(self)@.has_route(destination, now) {
                Some(
                    (
                        old(self)@.paths[destination].iface,
                        old(self)@.paths[destination].hops,
                    ),
                )
            } else {
                None
            }),
    {
        let ttl: u64 = self.freshness_policy.route_ttl_ticks();
        let (found, dropped) = self.path_table.lookup(destination, now, ttl);
        if dropped {
            self.diagnostic_generation = self.diagnostic_generation.wrapping_add(1);
        }
        match found {
            Some(entry) => Some((entry.iface, entry.hops)),
            None => None,
        }
    }

    /// The routes, in the order of their destinations.
    pub closed spec fn route_rows(&self) -> Seq<(AddressHash, PathEntry)> {
        self.path_table.rows()
    }

    /// The links, in the order of their ids.
    pub closed spec fn link_rows(&self) -> Seq<(AddressHash, LinkEntry)> {
        self.links.rows()
    }

    /// The rows are the routes and the links, each once, smallest hash first.
    pub proof fn lemma_rows(&self)
        requires
            self.inv(),
        ensures
            forall|i: int|
                0 <= i < self.route_rows().len() ==> self@.paths.contains_key(
                    (#[trigger] self.route_rows()[i]).0,
                ) && self@.paths[self.route_rows()[i].0] == self.route_rows()[i].1,
            forall|k: AddressHash| #[trigger]
                self@.paths.contains_key(k) ==> exists|i: int|
                    0 <= i < self.route_rows().len() && (#[trigger] self.route_rows()[i]).0 == k,
            forall|i: int, j: int|
                #![trigger self.route_rows()[i], self.route_rows()[j]]
                0 <= i < j < self.route_rows().len() ==> self.route_rows()[i].0.rank()
                    < self.route_rows()[j].0.rank(),
            forall|i: int|
                0 <= i < self.link_rows().len() ==> self@.links.contains_key(
                    (#[trigger] self.link_rows()[i]).0,
                ) && self@.links[self.link_rows()[i].0] == self.link_rows()[i].1,
            forall|k: AddressHash| #[trigger]
                self@.links.contains_key(k) ==> exists|i: int|
                    0 <= i < self.link_rows().len() && (#[trigger] self.link_rows()[i]).0 == k,
            forall|i: int, j: int|
                #![trigger self.link_rows()[i], self.link_rows()[j]]
                0 <= i < j < self.link_rows().len() ==> self.link_rows()[i].0.rank()
                    < self.link_rows()[j].0.rank(),
    {
        self.path_table.lemma_rows();
        assert forall|k: AddressHash| #[trigger] self@.paths.contains_key(k) implies exists|i: int|
            0 <= i < self.route_rows().len() && (#[trigger] self.route_rows()[i]).0 == k by {
            assert(self.path_table.view().contains_key(k));
            let i = choose|i: int|
                0 <= i < self.path_table.rows().len() && (#[trigger] self.path_table.rows()[i]).0
                    == k;
            assert(self.route_rows()[i].0 == k);
        }
        assert forall|i: int| 0 <= i < self.link_rows().len() implies self@.links.contains_key(
            (#[trigger] self.link_rows()[i]).0,
        ) && self@.links[self.link_rows()[i].0] == self.link_rows()[i].1 by {
            self.links.lemma_row(i);
        }
        assert forall|k: AddressHash| #[trigger] self@.links.contains_key(k) implies exists|i: int|
            0 <= i < self.link_rows().len() && (#[trigger] self.link_rows()[i]).0 == k by {
            self.links.lemma_entry(k);
            assert(self.link_rows()[self.links.index_of(k)].0 == k);
        }
    }

    /// Current routes in deterministic destination order, aged against one instant supplied
    /// by the caller. Unlike [`Endpoint::route_to`], observation never drops state.
    pub fn route_facts_at(&self, captured_at: u64) -> (facts: Vec<RouteFact>)
        requires
            self.inv(),
        ensures
            states_all(
                facts@,
                current_rows(
                    self.route_rows(),
                    ids_of(self@.interfaces),
                    captured_at,
                    self@.route_ttl(),
                ),
                captured_at,
            ),
    {
        let interfaces = self.interface_ids();
        let ttl: u64 = self.freshness_policy.route_ttl_ticks();
        let (facts, _) = self.path_table.facts(&interfaces, captured_at, ttl);
        proof {
            lemma_rows_by_membership(
                self.route_rows(),
                interfaces@,
                ids_of(self@.interfaces),
                captured_at,
                ttl,
            );
        }
        facts
    }

    /// The live links over the given interfaces.
    fn link_facts_for(&self, interfaces: &Vec<InterfaceId>) -> (facts: Vec<LinkFact>)
        requires
            self.inv(),
        ensures
            facts@ == link_facts_of(self.link_rows(), interfaces@),
    {
        let ghost rows = self.link_rows();
        let mut facts: Vec<LinkFact> = Vec::new();
        let mut i: usize = 0;
        assert(rows.subrange(0, 0) =~= Seq::<(AddressHash, LinkEntry)>::empty());
        while i < self.links.len()
            invariant
                self.inv(),
                rows == self.links.rows(),
                i <= rows.len(),
                facts@ == link_facts_of(rows.subrange(0, i as int), interfaces@),
            decreases rows.len() - i,
        {
            let id = self.links.key_at(i);
            let entry = *self.links.value_at(i);
            proof {
                let next = rows.subrange(0, i + 1);
                assert(next.drop_last() =~= rows.subrange(0, i as int));
                assert(next.last() == rows[i as int]);
                assert(next.last() == (id, entry));
            }
            if listed(interfaces, entry.iface) {
                facts.push(
                    LinkFact {
                        id,
                        interface: entry.iface,
                        kind: entry.kind,
                        direction: entry.direction,
                        remote: entry.remote,
                    },
                );
            }
            i += 1;
        }
        assert(rows.subrange(0, i as int) =~= rows);
        facts
    }

    /// Live links in deterministic id order. Entries whose carrier was detached are omitted,
    /// because a snapshot must never name an interface absent from the same capture.
    pub fn link_facts(&self) -> (facts: Vec<LinkFact>)
        requires
            self.inv(),
        ensures
            facts@ == link_facts_of(self.link_rows(), ids_of(self@.interfaces)),
    {
        let interfaces = self.interface_ids();
        let facts = self.link_facts_for(&interfaces);
        proof {
            lemma_links_by_membership(self.link_rows(), interfaces@, ids_of(self@.interfaces));
        }
        facts
    }

    /// Capture interface, route, and link facts with referential integrity. All route and
    /// link interface ids occur in the returned `interfaces` list.
    pub fn diagnostic_facts_at(&self, captured_at: u64) -> (facts: EndpointFacts)
        requires
            self.inv(),
        ensures
            facts.generation == self@.generation,
            in_order(facts.interfaces@),
            facts.interfaces@.to_multiset() == ids_of(self@.interfaces).to_multiset(),
            states_all(
                facts.routes@,
                current_rows(
                    self.route_rows(),
                    facts.interfaces@,
                    captured_at,
                    self@.route_ttl(),
                ),
                captured_at,
            ),
            facts.expired_routes as nat == expired_rows(
                self.route_rows(),
                facts.interfaces@,
                captured_at,
                self@.route_ttl(),
            ),
            facts.links@ == link_facts_of(self.link_rows(), facts.interfaces@),
    {
        let interfaces = self.interface_ids();
        let ttl: u64 = self.freshness_policy.route_ttl_ticks();
        let (routes, expired_routes) = self.path_table.facts(&interfaces, captured_at, ttl);
        let links = self.link_facts_for(&interfaces);
        EndpointFacts {
            generation: self.diagnostic_generation,
            interfaces,
            routes,
            links,
            expired_routes,
        }
    }

    /// Monotonic source revision for interface, route, link, and announce facts.
    pub fn diagnostic_generation(&self) -> (generation: u64)
        ensures
            generation == self@.generation,
    {
        self.diagnostic_generation
    }

    /// This endpoint's public identity.
    pub fn identity(&self) -> (identity: &Identity)
        ensures
            identity@ == public_of(self@.secret),
    {
        self.identity.public()
    }

    /// This endpoint's private identity, for the link layer to sign with.
    pub fn private_identity(&self) -> (identity: &PrivateIdentity)
        ensures
            identity@ == self@.secret,
    {
        &self.identity
    }

    // -----------------------------------------------------------------------------------
    // Links.
    /// Register a live link, so that packets for it are handed to its driver.
    pub fn register_link(&mut self, id: AddressHash, entry: LinkEntry)
        requires
            old(self).inv(),
        ensures
            final(self).inv(),
            final(self)@ == old(self)@.with_link(id, entry),
    {
        self.links.insert(id, entry);
        self.diagnostic_generation = self.diagnostic_generation.wrapping_add(1);
    }

    /// Drop a link's entry.
    pub fn remove_link(&mut self, id: AddressHash)
        requires
            old(self).inv(),
        ensures
            final(self).inv(),
            final(self)@ == old(self)@.without_link(id),
    {
        if self.links.contains_key(&id) {
            let _ = self.links.remove(&id);
            self.diagnostic_generation = self.diagnostic_generation.wrapping_add(1);
        }
    }

    /// Retain the identity a peer proved over its link. Returns whether the link is live.
    pub fn retain_identified_peer(&mut self, id: AddressHash, identity: Identity) -> (present: bool)
        requires
            old(self).inv(),
        ensures
            final(self).inv(),
            present == old(self)@.links.contains_key(id),
            final(self)@ == old(self)@.with_peer(id, identity),
    {
        let mut entry = match self.links.get(&id) {
            Some(entry) => *entry,
            None => {
                return false;
            },
        };
        let known: bool = match entry.remote.identity {
            Some(known) => known == identity,
            None => false,
        };
        if !known {
            entry.remote.identity = Some(identity);
            self.register_link(id, entry);
        }
        true
    }

    /// The entry of a live link.
    pub fn link(&self, id: AddressHash) -> (entry: Option<LinkEntry>)
        requires
            self.inv(),
        ensures
            entry == (if self@.links.contains_key(id) {
                Some(self@.links[id])
            } else {
                None
            }),
    {
        match self.links.get(&id) {
            Some(entry) => Some(*entry),
            None => None,
        }
    }

    /// Keep the proof of a link that was accepted, and send it. A retried request is answered
    /// with the same proof.
    pub fn prove_link(&mut self, link_id: AddressHash, proof_packet: Packet, iface: InterfaceId, now: u64)
        requires
            old(self).inv(),
        ensures
            final(self).inv(),
            final(self)@ == old(self)@.link_proved(link_id, proof_packet@, iface, now),
    {
        self.inbound_link_proofs.keep(link_id, &proof_packet, now);
        self.send_on(iface, proof_packet);
    }

    /// The MTU to accept a link with: the lower of what is configured and what was requested.
    pub fn accepted_mtu(&self, requested: Option<u32>) -> (mtu: u32)
        ensures
            mtu == (match requested {
                Some(r) if r < self@.settings.link_mtu => r,
                _ => self@.settings.link_mtu,
            }),
    {
        match requested {
            Some(r) => if r < self.settings.link_mtu {
                r
            } else {
                self.settings.link_mtu
            },
            None => self.settings.link_mtu,
        }
    }

    /// Note that an outbound link awaits its proof.
    pub fn begin_pending(&mut self, link_id: AddressHash)
        requires
            old(self).inv(),
        ensures
            final(self).inv(),
            final(self)@ == (EndpointModel {
                pending: old(self)@.pending.insert(link_id, ()),
                ..old(self)@
            }),
    {
        self.pending.insert(link_id, ());
    }

    /// Note that an outbound link is no longer waited for, so that a failed setup leaves
    /// nothing behind.
    pub fn cancel_pending(&mut self, link_id: AddressHash)
        requires
            old(self).inv(),
        ensures
            final(self).inv(),
            final(self)@ == (EndpointModel {
                pending: old(self)@.pending.remove(link_id),
                ..old(self)@
            }),
    {
        let _ = self.pending.remove(&link_id);
    }

    // -----------------------------------------------------------------------------------
    // Lifecycle.
    /// Whether the endpoint takes up new work.
    pub fn is_running(&self) -> (running: bool)
        ensures
            running == (self@.lifecycle == Lifecycle::Running),
    {
        self.lifecycle == Lifecycle::Running
    }

    /// Whether the endpoint has ended.
    pub fn is_closed(&self) -> (closed: bool)
        ensures
            closed == (self@.lifecycle == Lifecycle::Closed),
    {
        self.lifecycle == Lifecycle::Closed
    }

    /// Begin to wind down, unless that has begun.
    pub fn begin_quiesce(&mut self) -> (found: Quiesce)
        requires
            old(self).inv(),
        ensures
            final(self).inv(),
            found == (match old(self)@.lifecycle {
                Lifecycle::Running => Quiesce::Started,
                Lifecycle::Quiescing => Quiesce::InProgress,
                Lifecycle::Closed => Quiesce::Closed,
            }),
            final(self)@ == (EndpointModel {
                lifecycle: match old(self)@.lifecycle {
                    Lifecycle::Running => Lifecycle::Quiescing,
                    other => other,
                },
                ..old(self)@
            }),
    {
        match self.lifecycle {
            Lifecycle::Running => {
                self.lifecycle = Lifecycle::Quiescing;
                Quiesce::Started
            },
            Lifecycle::Quiescing => Quiesce::InProgress,
            Lifecycle::Closed => Quiesce::Closed,
        }
    }

    /// Stop the endpoint: drop every link and close every interface's queues. Returns whether
    /// it was not stopped before.
    pub fn close(&mut self) -> (stopped: bool)
        requires
            old(self).inv(),
        ensures
            final(self).inv(),
            stopped == (old(self)@.lifecycle != Lifecycle::Closed),
            final(self)@ == old(self)@.stopped(),
    {
        if self.lifecycle == Lifecycle::Closed {
            return false;
        }
        self.lifecycle = Lifecycle::Closed;
        proof {
            self.links.lemma_size();
        }
        if self.links.len() > 0 {
            self.diagnostic_generation = self.diagnostic_generation.wrapping_add(1);
        }
        self.links = Table::new();
        carriers::close_all(&mut self.interfaces);
        true
    }

    /// What an orderly shutdown that has begun does next.
    pub fn shutdown_step(&self, now: u64, deadline: u64) -> (step: ShutdownStep)
        requires
            self.inv(),
        ensures
            step == self@.shutdown_step(now, deadline),
    {
        if now >= deadline {
            return ShutdownStep::Stop;
        }
        if self.active_resources > 0 {
            return ShutdownStep::AwaitResources { remaining_ms: deadline - now };
        }
        if carriers::drained_all(&self.interfaces) {
            ShutdownStep::Stop
        } else {
            ShutdownStep::AwaitDrain
        }
    }

    /// Count a resource session that begins, unless the endpoint winds down.
    pub fn begin_resource(&mut self) -> (begun: bool)
        requires
            old(self).inv(),
        ensures
            final(self).inv(),
            begun == (old(self)@.lifecycle == Lifecycle::Running),
            final(self)@ == (EndpointModel {
                active_resources: if begun {
                    old(self)@.active_resources.wrapping_add(1)
                } else {
                    old(self)@.active_resources
                },
                ..old(self)@
            }),
    {
        if self.lifecycle != Lifecycle::Running {
            return false;
        }
        self.active_resources = self.active_resources.wrapping_add(1);
        true
    }

    /// Count a resource session that has ended.
    pub fn end_resource(&mut self)
        requires
            old(self).inv(),
        ensures
            final(self).inv(),
            final(self)@ == (EndpointModel {
                active_resources: old(self)@.active_resources.wrapping_sub(1),
                ..old(self)@
            }),
    {
        self.active_resources = self.active_resources.wrapping_sub(1);
    }
}

/// Whether facts state what rows hold, one for one.
pub open spec fn states_all(
    facts: Seq<RouteFact>,
    rows: Seq<(AddressHash, PathEntry)>,
    captured_at: u64,
) -> bool {
    &&& facts.len() == rows.len()
    &&& forall|i: int|
        0 <= i < facts.len() ==> states(#[trigger] facts[i], rows[i].0, rows[i].1, captured_at)
}

/// Which rows are current depends on the interfaces only by their membership.
proof fn lemma_rows_by_membership(
    rows: Seq<(AddressHash, PathEntry)>,
    a: Seq<InterfaceId>,
    b: Seq<InterfaceId>,
    at: u64,
    ttl: u64,
)
    requires
        forall|id: InterfaceId| a.contains(id) <==> b.contains(id),
    ensures
        current_rows(rows, a, at, ttl) == current_rows(rows, b, at, ttl),
    decreases rows.len(),
{
    if rows.len() > 0 {
        lemma_rows_by_membership(rows.drop_last(), a, b, at, ttl);
    }
}

/// Which links are observed depends on the interfaces only by their membership.
proof fn lemma_links_by_membership(
    rows: Seq<(AddressHash, LinkEntry)>,
    a: Seq<InterfaceId>,
    b: Seq<InterfaceId>,
)
    requires
        forall|id: InterfaceId| a.contains(id) <==> b.contains(id),
    ensures
        link_facts_of(rows, a) == link_facts_of(rows, b),
    decreases rows.len(),
{
    if rows.len() > 0 {
        lemma_links_by_membership(rows.drop_last(), a, b);
    }
}

} // verus!
