//! The executor-neutral node: the shape a board runs.
//!
//! [`crate::endpoint`] is the desktop shape. This is the same protocol work for a 256 KB board:
//!
//! ```text
//! node.ingest(interface, packet, now, reading)       -> Actions
//! node.poll(now, interface, announce_blob?, redrive) -> Actions
//! ```
//!
//! Nothing here reads a clock, allocates without a bound, or performs I/O. Time arrives as a
//! `now` argument, announce ordinals arrive as caller-supplied blobs, and what the link layer
//! made of a packet arrives as a [`state::LinkReading`]. Everything the node wants to happen
//! leaves as an [`actions::Action`] for a shell to carry out. That is what makes it testable
//! at a desk and runnable under any executor without either knowing about the other.

pub mod actions;
pub mod laws;
pub mod policy;
pub mod state;

pub use actions::{Action, Actions, InterfaceId};
pub use policy::{
    FreshnessPolicy, TransportConfig, TransportCounters, DEFAULT_ANNOUNCE_INTERVAL,
    DEFAULT_FRESHNESS_RETENTION, DEFAULT_ROUTE_TTL, DEFAULT_TRANSPORT_MAX_HOPS, LINK_IDLE_TIMEOUT,
    LINK_MTU, LINK_TRANSPORT_TIMEOUT, MAX_RESOURCE_PARTS, RESOURCE_REQUEST_WINDOW,
    RESOURCE_RETRY_INTERVAL, TRANSPORT_DEDUP_TIMEOUT,
};
pub use state::{
    InterruptionPermission, InterruptionReport, LinkContent, LinkReading, Node, PauseAssessment,
    PauseBlocked, Redrive, SessionExpiryReport, TransferReading,
};
