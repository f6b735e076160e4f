//! What a node keeps, carries and counts.

use vstd::prelude::*;

use crate::announce_freshness::AnnounceFreshnessConfig;

verus! {

/// How often this node re-announces itself, in the caller's tick unit.
///
/// A board on a shared band should not announce often; this is a starting cadence a shell can
/// override, not a protocol constant.
pub const DEFAULT_ANNOUNCE_INTERVAL: u64 = 600_000;

/// The link MTU this node offers: one radio frame.
pub const LINK_MTU: u32 = 255;

/// The most parts this node will accept for one inbound resource.
///
/// A sender chooses the advertised part count, so this is where a peer's ambition stops being
/// the board's problem.
pub const MAX_RESOURCE_PARTS: usize = 32;

/// Parts requested per turn. Small, because a half-duplex radio should not be asked for a burst
/// it cannot answer before the next request arrives.
pub const RESOURCE_REQUEST_WINDOW: usize = 4;

/// How long a transfer may sit silent before a poll redrives it, in the caller's tick unit
/// (milliseconds on the boards).
///
/// This is the loss-recovery clock: a receiver re-requests what it is missing, a sender
/// re-advertises an offer nobody answered. Without it, one lost frame is a dead transfer.
pub const RESOURCE_RETRY_INTERVAL: u64 = 12_000;

/// How long a link may go unheard before its slot is reclaimed, in milliseconds.
///
/// A board holds four link slots. Without expiry, four peers that establish a link and then go
/// quiet hold every slot until one of them politely closes or the board reboots, and a peer
/// that vanished will not be doing the former.
pub const LINK_IDLE_TIMEOUT: u64 = 900_000;

/// How long a learned transport route is usable, in the caller's tick unit.
pub const DEFAULT_ROUTE_TTL: u64 = 1_800_000;

/// Default lifetime for receive-side announce freshness tombstones: a week.
///
/// This is deliberately longer than [`DEFAULT_ROUTE_TTL`]. Route usability and replay
/// protection are separate clocks: removing a route must not immediately make the last
/// accepted announce a first sighting again.
pub const DEFAULT_FRESHNESS_RETENTION: u64 = 604_800_000;

/// How long a carried link remains bridgeable after it last carries traffic.
pub const LINK_TRANSPORT_TIMEOUT: u64 = 3_600_000;

/// How long this node remembers a forwarded packet hash on a shared radio.
///
/// A single-radio transport retransmits on the carrier it heard. Remembering a packet briefly
/// prevents its own relay from becoming a flood loop while still allowing a normal retry later.
pub const TRANSPORT_DEDUP_TIMEOUT: u64 = 60_000;

/// The Reticulum transport hop ceiling.
pub const DEFAULT_TRANSPORT_MAX_HOPS: u8 = 128;

/// How many accepted blobs are kept per destination.
pub const DEFAULT_FRESHNESS_BLOBS: usize = 8;

/// Bounds for the receive-side announce freshness table.
///
/// The table is runtime state, so firmware can choose a smaller footprint and a desktop caller
/// can choose a larger one without making a second node type.
#[derive(Debug, Clone, Copy, PartialEq, Eq, Structural)]
pub struct FreshnessPolicy {
    /// Maximum destination rows retained by the freshness table.
    pub max_destinations: usize,
    /// Maximum accepted full announce blobs retained per destination.
    pub max_blobs_per_destination: usize,
    /// How long a row/blob remains eligible for freshness decisions, in caller tick units.
    pub retention: u64,
}

impl FreshnessPolicy {
    /// The table the policy asks for.
    pub open spec fn table(self) -> AnnounceFreshnessConfig {
        AnnounceFreshnessConfig {
            destination_capacity: self.max_destinations,
            blob_capacity: self.max_blobs_per_destination,
            retention_ticks: self.retention,
        }
    }

    /// The same, at run time.
    pub fn to_config(&self) -> (config: AnnounceFreshnessConfig)
        ensures
            config == self.table(),
    {
        AnnounceFreshnessConfig {
            destination_capacity: self.max_destinations,
            blob_capacity: self.max_blobs_per_destination,
            retention_ticks: self.retention,
        }
    }

    /// The policy aligned with a peer budget. A budget of none still gets a valid table: the
    /// zero-capacity address book refuses every announce.
    pub open spec fn budgeted(peers: usize) -> FreshnessPolicy {
        FreshnessPolicy {
            max_destinations: if peers == 0 {
                1
            } else {
                peers
            },
            max_blobs_per_destination: DEFAULT_FRESHNESS_BLOBS,
            retention: DEFAULT_FRESHNESS_RETENTION,
        }
    }

    /// The policy aligned with a peer budget.
    pub fn for_peers(peers: usize) -> (policy: Self)
        ensures
            policy == FreshnessPolicy::budgeted(peers),
    {
        FreshnessPolicy {
            max_destinations: if peers == 0 {
                1
            } else {
                peers
            },
            max_blobs_per_destination: DEFAULT_FRESHNESS_BLOBS,
            retention: DEFAULT_FRESHNESS_RETENTION,
        }
    }
}

/// What this node agrees to carry for other destinations.
///
/// Transport is explicit because many boards are endpoints, not routers.
#[derive(Debug, Clone, Copy, PartialEq, Eq, Structural)]
pub struct TransportConfig {
    /// Re-broadcast verified announces with this node as their next transport hop.
    pub relay_announces: bool,
    /// Carry header-type-2 packets addressed to this node, and packets on remembered links.
    pub relay_packets: bool,
    /// Packets at or above this hop count are dropped instead of relayed.
    pub max_hops: u8,
    /// Lifetime of a route learned from a verified announce.
    pub route_ttl: u64,
    /// Lifetime of a remembered carried link.
    pub bridge_ttl: u64,
}

impl TransportConfig {
    /// Carrying nothing for other destinations.
    pub open spec fn carrying_nothing() -> TransportConfig {
        TransportConfig {
            relay_announces: false,
            relay_packets: false,
            max_hops: 0,
            route_ttl: DEFAULT_ROUTE_TTL,
            bridge_ttl: LINK_TRANSPORT_TIMEOUT,
        }
    }

    /// The default: carry nothing for other destinations.
    pub fn none() -> (config: Self)
        ensures
            config == TransportConfig::carrying_nothing(),
    {
        TransportConfig {
            relay_announces: false,
            relay_packets: false,
            max_hops: 0,
            route_ttl: DEFAULT_ROUTE_TTL,
            bridge_ttl: LINK_TRANSPORT_TIMEOUT,
        }
    }

    /// Carry verified announces and transit packets up to Reticulum's normal hop ceiling.
    pub fn transit() -> (config: Self)
        ensures
            config == (TransportConfig {
                relay_announces: true,
                relay_packets: true,
                max_hops: DEFAULT_TRANSPORT_MAX_HOPS,
                route_ttl: DEFAULT_ROUTE_TTL,
                bridge_ttl: LINK_TRANSPORT_TIMEOUT,
            }),
    {
        TransportConfig {
            relay_announces: true,
            relay_packets: true,
            max_hops: DEFAULT_TRANSPORT_MAX_HOPS,
            route_ttl: DEFAULT_ROUTE_TTL,
            bridge_ttl: LINK_TRANSPORT_TIMEOUT,
        }
    }
}

impl Default for TransportConfig {
    fn default() -> (config: Self)
        ensures
            config == TransportConfig::carrying_nothing(),
    {
        Self::none()
    }
}

/// What the bounded transport and freshness tables have done since this node started.
#[derive(Debug, Clone, Copy, PartialEq, Eq, Structural)]
pub struct TransportCounters {
    /// Verified announces re-broadcast for another destination.
    pub forwarded_announces: u16,
    /// Data, link, and proof packets carried for another destination.
    pub forwarded_packets: u16,
    /// Routes removed after their announce freshness expired.
    pub expired_routes: u16,
    /// Live routes evicted to admit a newly heard destination.
    pub evicted_routes: u16,
    /// Carried-link entries removed after their idle timeout.
    pub expired_bridges: u16,
    /// Carried-link entries evicted to admit a newer transport link.
    pub evicted_bridges: u16,
    /// Transit dropped at the configured hop ceiling.
    pub hop_limit_dropped: u16,
    /// Transit that named this node but had no fresh route onward.
    pub unroutable_packets: u16,
    /// Valid announces rejected because their full blob was already retained.
    pub replayed_announces: u16,
    /// Valid announces rejected by the timebase/hop freshness policy.
    pub stale_announces: u16,
    /// Freshness destination rows expired under the configured retention lifetime.
    pub expired_freshness_rows: u16,
    /// Freshness history blobs expired under the configured retention lifetime.
    pub expired_freshness_blobs: u16,
    /// Freshness destination rows evicted under the configured capacity bound.
    pub evicted_freshness_rows: u16,
    /// Accepted announce blobs evicted from per-destination history under the configured
    /// capacity.
    pub evicted_freshness_blobs: u16,
}

impl TransportCounters {
    /// Nothing counted.
    pub open spec fn zero() -> TransportCounters {
        TransportCounters {
            forwarded_announces: 0,
            forwarded_packets: 0,
            expired_routes: 0,
            evicted_routes: 0,
            expired_bridges: 0,
            evicted_bridges: 0,
            hop_limit_dropped: 0,
            unroutable_packets: 0,
            replayed_announces: 0,
            stale_announces: 0,
            expired_freshness_rows: 0,
            expired_freshness_blobs: 0,
            evicted_freshness_rows: 0,
            evicted_freshness_blobs: 0,
        }
    }
}

impl Default for TransportCounters {
    fn default() -> (counters: Self)
        ensures
            counters == TransportCounters::zero(),
    {
        TransportCounters {
            forwarded_announces: 0,
            forwarded_packets: 0,
            expired_routes: 0,
            evicted_routes: 0,
            expired_bridges: 0,
            evicted_bridges: 0,
            hop_limit_dropped: 0,
            unroutable_packets: 0,
            replayed_announces: 0,
            stale_announces: 0,
            expired_freshness_rows: 0,
            expired_freshness_blobs: 0,
            evicted_freshness_rows: 0,
            evicted_freshness_blobs: 0,
        }
    }
}
/// A node carries nothing for others unless it is told to, and a transport node both announces
/// and packets, up to the protocol's hops. Either way routes live half an hour and carried links
/// an hour.
pub proof fn law_carrying_is_chosen(config: TransportConfig)
    requires
        call_ensures(TransportConfig::transit, (), config),
    ensures
        ({
            let none = TransportConfig::carrying_nothing();
            &&& !none.relay_announces && !none.relay_packets && none.max_hops == 0
            &&& config.relay_announces && config.relay_packets && config.max_hops == 128
            &&& none.route_ttl == 1_800_000 && config.route_ttl == 1_800_000
            &&& none.bridge_ttl == 3_600_000 && config.bridge_ttl == 3_600_000
        }),
{
}

/// The freshness bounds of a peer budget keep a row for each peer, and at least one, with eight
/// blobs each for a week, and set the table exactly that.
pub proof fn law_freshness_follows_the_peer_budget(peers: usize, policy: FreshnessPolicy)
    ensures
        ({
            let budget = FreshnessPolicy::budgeted(peers);
            &&& peers > 0 ==> budget.max_destinations == peers
            &&& peers == 0 ==> budget.max_destinations == 1
            &&& budget.max_blobs_per_destination == 8
            &&& budget.retention == 604_800_000
        }),
        policy.table().destination_capacity == policy.max_destinations,
        policy.table().blob_capacity == policy.max_blobs_per_destination,
        policy.table().retention_ticks == policy.retention,
{
}

} // verus!
