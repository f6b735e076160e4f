//! Announces, routes and path requests through an endpoint.

use std::time::Duration;

use retinue::announce::{build, AnnounceBlob, ANNOUNCE_NONCE_LEN};
use retinue::announce_admission::AnnounceIngressPolicy;
use retinue::endpoint::memory::{
    PathRequestBudget, PATH_REQUEST_GLOBAL_MAX, PATH_REQUEST_MIN_INTERVAL,
};
use retinue::endpoint::paths::{PathEntry, PathTable};
use retinue::endpoint::policy::{InterfaceSelector, RoutingPolicy};
use retinue::endpoint::router::{
    AnnounceFact, AnnounceFreshnessPolicy, Dispatch, Endpoint, EndpointError, LinkDirection,
    LinkEntry, LinkFactKind, LinkRemoteFact, Quiesce, Reading, ReleaseStep, ShutdownStep,
    CTX_PATH_RESPONSE,
};
use retinue::packet::{DestinationType, HeaderType, Packet, PacketType, Propagation};
use retinue::random::relay_jitter;
use retinue::{AddressHash, Announce, DestinationName, PrivateIdentity};

const ROUTE_TTL: u64 = 1_800_000;
const NONCE: [u8; ANNOUNCE_NONCE_LEN] = [7; ANNOUNCE_NONCE_LEN];

fn endpoint(seed: u8) -> Endpoint {
    Endpoint::new(PrivateIdentity::from_secret_bytes(&[seed; 64]))
}

fn freshness_announce(
    peer: &PrivateIdentity,
    destination_name: &str,
    context: u8,
    nonce: u8,
    timebase: u64,
    hops: u8,
) -> (Packet, Announce) {
    let blob =
        AnnounceBlob::mint([nonce; ANNOUNCE_NONCE_LEN], timebase).expect("test timebase fits");
    let name = DestinationName::new("retinue", &[destination_name]);
    let mut packet = build(
        peer,
        name.name_hash(),
        blob.as_bytes(),
        None,
        b"freshness-test",
    );
    packet.context = context;
    packet.hops = hops;
    let decoded = Announce::decode(&packet).expect("locally built announce verifies");
    (packet, decoded)
}

/// Process an announce and publish what it makes known.
fn hear(
    ep: &mut Endpoint,
    iface: u32,
    announce: (Packet, Announce),
    now: u64,
) -> Option<AnnounceFact> {
    ep.process_verified_announce(iface, announce.0, announce.1, now)
        .fact
}

fn emitted_timebase(packet: &Packet) -> u64 {
    AnnounceBlob::from_wire(
        Announce::decode(packet)
            .expect("locally emitted announce verifies")
            .rand_hash,
    )
    .timebase()
}

fn nothing_read() -> Reading {
    Reading {
        path_target: None,
        link_id: None,
        proves_pending: false,
    }
}

fn plain_packet(destination: AddressHash) -> Packet {
    Packet {
        ifac: false,
        header_type: HeaderType::Type1,
        context_flag: false,
        propagation: Propagation::Broadcast,
        destination_type: DestinationType::Plain,
        packet_type: PacketType::Data,
        hops: 0,
        transport: None,
        destination,
        context: 0,
        payload: vec![0x5A; 32],
    }
}

#[test]
fn endpoint_announce_advances_within_one_source_second() {
    let mut ep = endpoint(0x90);
    let name = DestinationName::new("retinue", &["endpoint-same-second"]);

    let first = ep
        .build_announce_at(&name, None, b"cap", 4_000, NONCE)
        .unwrap();
    let second = ep
        .build_announce_at(&name, None, b"cap", 4_000, NONCE)
        .unwrap();

    assert_eq!(emitted_timebase(&first), 4_000);
    assert_eq!(emitted_timebase(&second), 4_001);
}

#[test]
fn endpoint_announce_ignores_a_backward_source_clock() {
    let mut ep = endpoint(0x91);
    let name = DestinationName::new("retinue", &["endpoint-backward-clock"]);

    let first = ep
        .build_announce_at(&name, None, b"cap", 9_000, NONCE)
        .unwrap();
    let second = ep
        .build_announce_at(&name, None, b"cap", 8_999, NONCE)
        .unwrap();

    assert_eq!(emitted_timebase(&first), 9_000);
    assert_eq!(emitted_timebase(&second), 9_001);
}

#[test]
fn endpoint_and_owned_path_response_keep_timebases_per_destination() {
    let mut ep = endpoint(0x92);
    let first_name = DestinationName::new("retinue", &["endpoint-first"]);
    let second_name = DestinationName::new("retinue", &["endpoint-second"]);
    let second_destination = second_name.destination_hash(ep.identity());
    // Registering announces once, at an earlier second.
    ep.register(second_name, b"path-cap", 699, NONCE).unwrap();

    let first = ep
        .build_announce_at(&first_name, None, b"first-cap", 700, NONCE)
        .unwrap();
    let path_response = ep
        .path_response_at(second_destination, 700, NONCE)
        .expect("owned destination answers a path request");
    let first_again = ep
        .build_announce_at(&first_name, None, b"first-cap", 700, NONCE)
        .unwrap();
    let path_response_again = ep
        .path_response_at(second_destination, 700, NONCE)
        .expect("owned destination answers a second path request");

    assert_eq!(emitted_timebase(&first), 700);
    assert_eq!(emitted_timebase(&path_response), 700);
    assert_eq!(emitted_timebase(&first_again), 701);
    assert_eq!(emitted_timebase(&path_response_again), 701);
    assert_eq!(path_response.context, CTX_PATH_RESPONSE);
    assert!(matches!(
        ep.path_response_at(AddressHash::from_bytes([1; 16]), 700, NONCE),
        Err(EndpointError::NotRegistered)
    ));
}

#[test]
fn a_learned_route_expires_and_is_evicted() {
    let mut ep = endpoint(1);
    let iface = ep.attach_interface(0);
    let peer = PrivateIdentity::from_secret_bytes(&[0xAB; 64]);
    let announce = freshness_announce(&peer, "route", 0, 1, 10, 2);
    let dest = announce.1.destination;
    hear(&mut ep, iface, announce, 5).expect("accepted");
    assert_eq!(
        ep.route_to(dest, 5),
        Some((iface, 2)),
        "a fresh route is returned"
    );
    assert_eq!(ep.route_facts_at(5).len(), 1);

    assert_eq!(
        ep.route_to(dest, 5 + ROUTE_TTL),
        None,
        "an expired route is not returned"
    );
    assert!(
        ep.route_facts_at(5).is_empty(),
        "and is evicted on lookup"
    );
}

#[test]
fn route_facts_are_ordered_current_and_read_only() {
    let mut ep = endpoint(0x12);
    let interface = ep.attach_interface(0);
    let transport = AddressHash::from_bytes([0x77; 16]);
    let mut known = Vec::new();
    for (seed, hops) in [(0xBB, 3), (0x11, 1)] {
        let peer = PrivateIdentity::from_secret_bytes(&[seed; 64]);
        let (mut packet, announce) = freshness_announce(&peer, "fact", 0, 1, 10, hops);
        if hops == 3 {
            packet.header_type = HeaderType::Type2;
            packet.transport = Some(transport);
        }
        known.push((announce.destination, hops));
        hear(&mut ep, interface, (packet, announce), 100).unwrap();
    }
    known.sort_by_key(|(destination, _)| *destination.as_bytes());

    let facts = ep.route_facts_at(100);
    assert_eq!(
        facts
            .iter()
            .map(|fact| (fact.destination, fact.hops))
            .collect::<Vec<_>>(),
        known
    );
    assert!(facts.iter().all(|fact| fact.interface == interface));
    let far = facts.iter().find(|fact| fact.hops == 3).unwrap();
    assert_eq!(far.transport, Some(transport));

    assert!(ep.route_facts_at(100 + ROUTE_TTL).is_empty());
    assert_eq!(
        ep.route_facts_at(100).len(),
        2,
        "diagnostic capture must not evict expired routes",
    );
}

#[test]
fn announce_facts_retain_ingress_route_and_observation_order() {
    let mut ep = endpoint(0x13);
    let interface = ep.attach_interface(0);
    let peer = PrivateIdentity::from_secret_bytes(&[0x14; 64]);
    let name = DestinationName::new("retinue", &["management-fact"]);
    let blob = AnnounceBlob::from_wire([0x22; 10]);
    let mut packet = build(&peer, name.name_hash(), blob.as_bytes(), None, b"opaque");
    packet.hops = 2;
    packet.header_type = HeaderType::Type2;
    packet.transport = Some(AddressHash::from_bytes([0x55; 16]));
    let decoded = Announce::decode(&packet).unwrap();
    let destination = decoded.destination;

    let fact = hear(&mut ep, interface, (packet, decoded), 0).unwrap();
    assert_eq!(fact.destination, destination);
    assert_eq!(fact.identity.hash(), peer.hash());
    assert_eq!(fact.app_data, b"opaque");
    assert_eq!(fact.interface, interface);
    assert_eq!(fact.hops, 2);
    assert_eq!(fact.transport, Some(AddressHash::from_bytes([0x55; 16])));
    assert_eq!(fact.sequence, 1);
}

#[test]
fn freshness_replay_and_stale_rejection_leave_all_announce_effects_unchanged() {
    let mut ep = endpoint(0x41);
    let iface = ep.attach_interface(0);
    ep.enable_routing();
    let peer = PrivateIdentity::from_secret_bytes(&[0x42; 64]);
    let accepted = freshness_announce(&peer, "freshness-effects", 0, 1, 10, 1);
    let destination = accepted.1.destination;
    let first = hear(&mut ep, iface, accepted, 0).expect("accepted announcement");
    let generation = ep.diagnostic_generation();

    // Same wire blob in a different context is still an exact freshness replay. It must not
    // advance the address book, route, publication sequence, relay cache, or output.
    let (mut replay_packet, replay) =
        freshness_announce(&peer, "freshness-effects", 0x0b, 1, 10, 1);
    replay_packet.context = CTX_PATH_RESPONSE;
    let outcome = ep.process_verified_announce(iface, replay_packet, replay, 1);
    assert!(outcome.fact.is_none() && outcome.relay.is_none());

    // A distinct blob behind the incumbent is stale for the same destination.
    let (stale_packet, stale) = freshness_announce(&peer, "freshness-effects", 0, 2, 9, 3);
    let outcome = ep.process_verified_announce(iface, stale_packet, stale, 2);
    assert!(
        outcome.fact.is_none() && outcome.relay.is_none(),
        "rejected announces are never published"
    );

    assert_eq!(ep.route_to(destination, 2), Some((iface, 1)));
    assert_eq!(ep.diagnostic_generation(), generation);
    let counters = ep.routing_counters();
    assert_eq!(counters.freshness_replays_rejected, 1);
    assert_eq!(counters.freshness_stale_rejected, 1);

    let newer = freshness_announce(&peer, "freshness-effects", 0, 3, 11, 1);
    let next = hear(&mut ep, iface, newer, 3).unwrap();
    assert_eq!(next.sequence, first.sequence + 1);
}

#[test]
fn held_older_announce_cannot_publish_after_newer_direct_ingress() {
    let mut hub = endpoint(0xA1);
    hub.enable_routing();
    let noisy = hub.attach_interface(0);
    let quiet = hub.attach_interface(0);
    let _egress = hub.attach_interface(0);
    let ingress_policy = AnnounceIngressPolicy {
        held_capacity: 4,
        frequency_window: Duration::from_secs(10),
        burst_hold: Duration::from_millis(200),
        burst_penalty: Duration::from_millis(200),
        held_release_interval: Duration::from_millis(1),
        new_interface_hz: 1,
        established_interface_hz: 1,
        destination_target: Duration::ZERO,
        ..AnnounceIngressPolicy::default()
    };
    hub.set_announce_ingress_policy(ingress_policy);

    // The first two unknown destinations prime the noisy interface. The third enters the held
    // queue while remaining unknown to the address book and path table.
    for (now, seed, name) in [
        (0u64, 0xA2, "freshness-prime-a"),
        (3, 0xA3, "freshness-prime-b"),
    ] {
        let peer = PrivateIdentity::from_secret_bytes(&[seed; 64]);
        let (packet, _) = freshness_announce(&peer, name, 0, 1, 1, 1);
        assert!(matches!(
            hub.route(noisy, packet, nothing_read(), now),
            Dispatch::Announced { outcome } if outcome.fact.is_some()
        ));
    }
    let target_peer = PrivateIdentity::from_secret_bytes(&[0xA4; 64]);
    let (older_packet, older) =
        freshness_announce(&target_peer, "freshness-held-order", 0, 1, 10, 2);
    let destination = older.destination;
    assert!(matches!(
        hub.route(noisy, older_packet, nothing_read(), 6),
        Dispatch::Held { .. }
    ));
    assert_eq!(hub.announce_ingress_counters(noisy).held, 1);
    assert!(hub.resolve(destination).is_none());
    hub.set_announce_ingress_policy(AnnounceIngressPolicy {
        new_interface_hz: 1_000,
        established_interface_hz: 1_000,
        ..ingress_policy
    });

    // A newer copy on the quiet interface is processed immediately.
    let (newer_packet, _) = freshness_announce(&target_peer, "freshness-held-order", 0, 2, 11, 1);
    let sequence_before_release = match hub.route(quiet, newer_packet, nothing_read(), 7) {
        Dispatch::Announced { outcome } => outcome.fact.unwrap().sequence,
        _ => panic!("the newer copy is processed"),
    };
    assert!(hub.resolve(destination).is_some());
    let policy = hub.announce_freshness_policy();
    hub.set_announce_freshness_policy(policy, 8).unwrap();
    assert_eq!(sequence_before_release, 3);

    assert!(hub.begin_held_release(noisy));
    let mut now = 8;
    let mut released = None;
    for _ in 0..10 {
        match hub.release_held_announce(noisy, now) {
            ReleaseStep::Stop => break,
            ReleaseStep::Wait { until_ms } => now = until_ms,
            ReleaseStep::Released { outcome, until_ms } => {
                released = Some(outcome);
                now = until_ms;
            }
        }
    }
    let released = released.expect("the held announce came up");
    assert_eq!(hub.announce_ingress_counters(noisy).released, 1);
    assert_eq!(hub.routing_counters().freshness_stale_rejected, 1);
    assert!(
        released.fact.is_none(),
        "the deferred stale copy did not publish"
    );
    assert!(
        released.relay.is_none(),
        "the deferred stale copy did not relay"
    );
    assert_eq!(hub.route_to(destination, now), Some((quiet, 1)));
}

#[test]
fn newer_equal_and_worse_routes_replace_the_incumbent() {
    let mut ep = endpoint(0x43);
    let first_iface = ep.attach_interface(0);
    let equal_iface = ep.attach_interface(0);
    let worse_iface = ep.attach_interface(0);
    let peer = PrivateIdentity::from_secret_bytes(&[0x44; 64]);

    let first = freshness_announce(&peer, "freshness-route", 0, 1, 10, 1);
    let destination = first.1.destination;
    hear(&mut ep, first_iface, first, 0).unwrap();

    let equal = freshness_announce(&peer, "freshness-route", 0, 2, 11, 1);
    hear(&mut ep, equal_iface, equal, 1).unwrap();
    assert_eq!(ep.route_to(destination, 1), Some((equal_iface, 1)));

    let worse = freshness_announce(&peer, "freshness-route", 0, 3, 12, 5);
    hear(&mut ep, worse_iface, worse, 2).unwrap();
    assert_eq!(ep.route_to(destination, 2), Some((worse_iface, 5)));
}

#[test]
fn expired_physical_routes_only_accept_stale_candidates_at_worse_hops() {
    let policy = AnnounceFreshnessPolicy {
        route_ttl: Duration::ZERO,
        ..AnnounceFreshnessPolicy::default()
    };
    let mut ep = Endpoint::with_announce_freshness_policy(
        PrivateIdentity::from_secret_bytes(&[0x45; 64]),
        policy,
    )
    .unwrap();
    let first_iface = ep.attach_interface(0);
    let replacement_iface = ep.attach_interface(0);
    let better_peer = PrivateIdentity::from_secret_bytes(&[0x46; 64]);
    let equal_peer = PrivateIdentity::from_secret_bytes(&[0x47; 64]);
    let worse_peer = PrivateIdentity::from_secret_bytes(&[0x48; 64]);
    let cases = [
        (&better_peer, "freshness-expired-better", 1_u8),
        (&equal_peer, "freshness-expired-equal", 2_u8),
        (&worse_peer, "freshness-expired-worse", 3_u8),
    ];
    let mut destinations = Vec::new();

    for (peer, name, _) in cases {
        let first = freshness_announce(peer, name, 0, 1, 10, 2);
        destinations.push(first.1.destination);
        hear(&mut ep, first_iface, first, 0).unwrap();
    }
    for destination in &destinations {
        assert_eq!(
            ep.route_to(*destination, 0),
            None,
            "zero-TTL physical route evicted"
        );
    }

    // Better and equal stale candidates remain refused. Only the measured expired/worse
    // exception is admitted, proving route eviction did not erase the freshness tombstone.
    let mut accepted = Vec::new();
    for (peer, name, hops) in cases {
        let replacement = freshness_announce(peer, name, 0, 2, 9, hops);
        accepted.extend(hear(&mut ep, replacement_iface, replacement, 1));
    }
    assert_eq!(accepted.len(), 1);
    assert_eq!(accepted[0].destination, destinations[2]);
    assert_eq!(accepted[0].hops, 3);
    assert_eq!(accepted[0].sequence, 4);
    assert_eq!(ep.routing_counters().freshness_stale_rejected, 2);
    assert!(destinations
        .iter()
        .all(|destination| ep.route_to(*destination, 1).is_none()));
}

#[test]
fn freshness_capacity_eviction_is_visible() {
    let policy = AnnounceFreshnessPolicy {
        destination_capacity: 1,
        blob_capacity: 1,
        ..AnnounceFreshnessPolicy::default()
    };
    let mut ep = Endpoint::with_announce_freshness_policy(
        PrivateIdentity::from_secret_bytes(&[0x49; 64]),
        policy,
    )
    .unwrap();
    let iface = ep.attach_interface(0);
    let peer = PrivateIdentity::from_secret_bytes(&[0x4A; 64]);
    let a = freshness_announce(&peer, "freshness-capacity-a", 0, 1, 10, 1);
    let renewed = freshness_announce(&peer, "freshness-capacity-a", 0, 3, 11, 1);
    let b = freshness_announce(&peer, "freshness-capacity-b", 0, 2, 10, 1);
    hear(&mut ep, iface, a, 0).unwrap();
    hear(&mut ep, iface, renewed, 0).unwrap();
    hear(&mut ep, iface, b, 0).unwrap();
    assert_eq!(ep.routing_counters().freshness_rows_evicted, 1);
    assert_eq!(ep.routing_counters().freshness_blobs_evicted, 1);
}

#[test]
fn a_zero_capacity_freshness_policy_is_refused() {
    let policy = AnnounceFreshnessPolicy {
        destination_capacity: 0,
        ..AnnounceFreshnessPolicy::default()
    };
    assert!(Endpoint::with_announce_freshness_policy(
        PrivateIdentity::from_secret_bytes(&[0x49; 64]),
        policy,
    )
    .is_err());
    let mut ep = endpoint(0x49);
    assert!(ep.set_announce_freshness_policy(policy, 0).is_err());
    assert_eq!(
        ep.announce_freshness_policy(),
        AnnounceFreshnessPolicy::default()
    );
}

#[test]
fn an_inbound_link_fact_keeps_unknown_remote_unknown() {
    let mut ep = endpoint(0x15);
    let interface = ep.attach_interface(0);
    let id = AddressHash::from_bytes([0x17; 16]);
    ep.register_link(
        id,
        LinkEntry {
            kind: LinkFactKind::BestEffort,
            iface: interface,
            direction: LinkDirection::Inbound,
            remote: LinkRemoteFact::default(),
        },
    );

    let facts = ep.link_facts();
    assert_eq!(facts.len(), 1);
    assert_eq!(facts[0].direction, LinkDirection::Inbound);
    assert!(facts[0].remote.destination.is_none() && facts[0].remote.identity.is_none());
    assert_eq!(facts[0].interface, interface);

    // An IDENTIFY names the peer; a link that is gone learns nothing.
    let peer = PrivateIdentity::from_secret_bytes(&[0x18; 64]);
    assert!(ep.retain_identified_peer(id, *peer.public()));
    assert_eq!(
        ep.link(id).unwrap().remote.identity.map(|i| i.hash()),
        Some(peer.hash())
    );
    ep.remove_link(id);
    assert!(!ep.retain_identified_peer(id, *peer.public()));
    assert!(ep.link_facts().is_empty());
}

fn entry(iface: u32, hops: u8, transport: Option<AddressHash>, learned: u64) -> PathEntry {
    PathEntry {
        iface,
        transport,
        hops,
        learned,
    }
}

/// The path table is capped, and what it forgets is chosen rather than arbitrary: the peer that
/// has gone quietest, because announces are what feed and refresh the table.
#[test]
fn a_full_path_table_forgets_the_quietest_peer() {
    let mut table = PathTable::with_capacity(8);
    let quiet = AddressHash::from_bytes([0x01; 16]);

    // The quiet one is learned first, so its `learned` is oldest.
    table.learn(quiet, entry(1, 1, None, 1), 1, ROUTE_TTL);
    for n in 2..=8u8 {
        let outcome = table.learn(
            AddressHash::from_bytes([n; 16]),
            entry(1, 1, None, n.into()),
            n.into(),
            ROUTE_TTL,
        );
        assert!(!outcome.evicted);
    }
    assert_eq!(table.len(), 8);

    // One more destination than the table holds.
    let newcomer = AddressHash::from_bytes([0xFE; 16]);
    let outcome = table.learn(newcomer, entry(1, 1, None, 9), 9, ROUTE_TTL);

    assert_eq!(table.len(), 8, "the bound holds");
    assert!(table.contains_key(&newcomer), "the newcomer is learned");
    assert!(
        !table.contains_key(&quiet),
        "and the peer that had gone quietest is what made room",
    );
    assert!(outcome.evicted, "evictions are counted, not silent");
}

/// A peer that keeps announcing keeps its route, which is the other half of the policy:
/// re-announcing refreshes `learned`, so the still-talking are never the ones evicted.
#[test]
fn a_peer_that_keeps_announcing_keeps_its_route() {
    let mut table = PathTable::with_capacity(8);
    let talkative = AddressHash::from_bytes([0x01; 16]);

    table.learn(talkative, entry(1, 1, None, 1), 1, ROUTE_TTL);
    for n in 2..=8u8 {
        table.learn(
            AddressHash::from_bytes([n; 16]),
            entry(1, 1, None, n.into()),
            n.into(),
            ROUTE_TTL,
        );
    }
    // It re-announces, which is what a live peer does and what moves it off oldest.
    table.learn(talkative, entry(1, 1, None, 9), 9, ROUTE_TTL);
    table.learn(
        AddressHash::from_bytes([0xFE; 16]),
        entry(1, 1, None, 10),
        10,
        ROUTE_TTL,
    );
    assert!(
        table.contains_key(&talkative),
        "a peer still announcing must not be the one forgotten",
    );
}

/// Attaching must not be one-way, or a peer that reconnects repeatedly grows the interface list
/// and its queues without bound.
#[test]
fn detaching_an_interface_forgets_it() {
    let mut ep = endpoint(0x33);
    let before = ep.interface_count();

    let id = ep.attach_interface(0);
    assert_eq!(ep.interface_count(), before + 1);

    ep.detach_interface(id);
    assert_eq!(
        ep.interface_count(),
        before,
        "a detached interface leaves no record behind",
    );

    // And reconnecting the same carrier does not stack up.
    for _ in 0..8 {
        let again = ep.attach_interface(0);
        ep.detach_interface(again);
    }
    assert_eq!(
        ep.interface_count(),
        before,
        "eight reconnects leave nothing accumulated",
    );
}

#[test]
fn two_destinations_on_one_interface_keep_their_own_transports() {
    let mut table = PathTable::with_capacity(8);
    let a = AddressHash::from_bytes([0xAA; 16]);
    let b = AddressHash::from_bytes([0xBB; 16]);
    let via_x = AddressHash::from_bytes([0x11; 16]);
    let via_y = AddressHash::from_bytes([0x22; 16]);

    table.learn(a, entry(3, 1, Some(via_x), 0), 0, ROUTE_TTL);
    table.learn(b, entry(3, 1, Some(via_y), 0), 0, ROUTE_TTL);

    assert_eq!(
        table.address(plain_packet(a)).transport,
        Some(via_x),
        "A must still route through X"
    );
    assert_eq!(
        table.address(plain_packet(b)).transport,
        Some(via_y),
        "B routes through Y"
    );
}

/// Once freshness admits an announce, it is the current route even when the predecessor had
/// fewer hops. Freshness owns ordering; routing does not reopen that decision with a local
/// shortest-path filter.
#[test]
fn a_newer_worse_route_replaces_the_incumbent() {
    let mut table = PathTable::with_capacity(8);
    let dest = AddressHash::from_bytes([0xCC; 16]);
    let via = AddressHash::from_bytes([0xA5; 16]);

    table.learn(dest, entry(1, 1, None, 0), 0, ROUTE_TTL);
    table.learn(dest, entry(2, 5, Some(via), 1), 1, ROUTE_TTL);

    let entry = table.get(&dest).unwrap();
    assert_eq!(entry.iface, 2, "the newer route becomes incumbent");
    assert_eq!(entry.hops, 5);
    assert_eq!(
        entry.transport,
        Some(via),
        "all route facts come from the accepted announce",
    );
}

#[test]
fn answers_a_path_request_for_an_owned_destination() {
    let mut ep = endpoint(9);
    let iface = ep.attach_interface(0);
    let name = DestinationName::new("retinue", &["pathtest"]);
    let dest = name.destination_hash(ep.identity());
    ep.register(name, b"hello", 50, NONCE).unwrap();

    // Registration broadcasts a spontaneous announce (context 0); drain it.
    let first = ep.next_outbound(iface).expect("registration announce");
    assert_eq!(first.packet_type, PacketType::Announce);
    assert_eq!(first.context, 0, "a spontaneous announce has context 0");

    // A peer requests a path to our destination.
    let reading = Reading {
        path_target: Some(dest),
        ..nothing_read()
    };
    let asked = plain_packet(AddressHash::from_bytes([0x6b; 16]));
    match ep.route(iface, asked, reading, 1) {
        Dispatch::AnswerPath { target } => {
            assert_eq!(target, dest);
            ep.answer_path(target, 51, NONCE).unwrap();
        }
        _ => panic!("an owned destination is answered"),
    }

    // We answer with a path response: an announce for that destination, context 0x0b.
    let resp = ep.next_outbound(iface).expect("path response emitted");
    assert_eq!(resp.packet_type, PacketType::Announce);
    assert_eq!(resp.context, CTX_PATH_RESPONSE);
    assert_eq!(resp.destination, dest);
    // It is a valid announce that reconstructs to our destination and app data.
    let decoded = Announce::decode(&resp).expect("valid announce");
    assert_eq!(decoded.destination, dest);
    assert_eq!(decoded.app_data, b"hello");
    assert_eq!(decoded.identity.hash(), ep.identity().hash());
}

#[test]
fn ignores_a_path_request_for_an_unknown_destination() {
    let mut ep = endpoint(10);
    let iface = ep.attach_interface(0);
    let unknown = AddressHash::from_bytes([0xCC; 16]);
    let reading = Reading {
        path_target: Some(unknown),
        ..nothing_read()
    };
    let asked = plain_packet(AddressHash::from_bytes([0x6b; 16]));
    if let Dispatch::AnswerPath { target } = ep.route(iface, asked, reading, 1) {
        assert!(ep.answer_path(target, 51, NONCE).is_err());
    }

    // We own nothing, hold no cache, so we stay silent.
    assert!(
        ep.next_outbound(iface).is_none(),
        "no response for an unknown destination"
    );
}

/// Repeated asking for the same destination broadcasts once, and a different destination is
/// unaffected. The thing being bounded is a stranger's ability to decide how much of a shared
/// band we use.
#[test]
fn a_path_request_is_rate_limited_per_destination() {
    let mut ep = endpoint(11);
    let iface = ep.attach_interface(0);
    let wanted = AddressHash::from_bytes([0xA1; 16]);
    let other = AddressHash::from_bytes([0xB2; 16]);
    let asking = plain_packet(AddressHash::from_bytes([0x6b; 16]));

    assert!(
        ep.request_path(wanted, &asking, 0),
        "the first ask goes out"
    );
    assert!(
        !ep.request_path(wanted, &asking, 0),
        "an immediate repeat is suppressed"
    );
    assert!(
        ep.request_path(other, &asking, 0),
        "a different destination is its own budget"
    );

    assert!(ep.next_outbound(iface).is_some(), "first request");
    assert!(
        ep.next_outbound(iface).is_some(),
        "the other destination's request"
    );
    assert!(
        ep.next_outbound(iface).is_none(),
        "the suppressed repeat put nothing on the air"
    );

    // Past the floor, asking again is allowed: a destination that never answered must be
    // askable later, or one lost response becomes permanent.
    assert!(
        ep.request_path(wanted, &asking, PATH_REQUEST_MIN_INTERVAL + 20),
        "the floor expires"
    );
}

/// A flood of unique destinations cannot broadcast without bound, because the peer that
/// provokes a path request also chooses the destination it names: the per-destination floor
/// never engages when no key repeats, so the global cap is what actually limits the airtime —
/// and, since a refused request records nothing, the budget table too.
#[test]
fn fabricated_unique_destinations_hit_the_global_path_request_cap() {
    let mut budget = PathRequestBudget::new(PATH_REQUEST_MIN_INTERVAL, PATH_REQUEST_GLOBAL_MAX, 64);
    let mut sent = 0;
    for i in 0..(PATH_REQUEST_GLOBAL_MAX as u8 * 4) {
        let mut bytes = [0xD0; 16];
        bytes[0] = i;
        if budget.within_budget(AddressHash::from_bytes(bytes), 0) {
            sent += 1;
        }
    }
    assert_eq!(
        sent, PATH_REQUEST_GLOBAL_MAX,
        "the window admits exactly the cap"
    );
    assert!(
        budget.asked_count() <= PATH_REQUEST_GLOBAL_MAX,
        "refused requests must not grow the budget table",
    );

    // The cap is a window, not a lifetime total: once it slides, asking resumes.
    assert!(
        budget.within_budget(
            AddressHash::from_bytes([0xEE; 16]),
            PATH_REQUEST_MIN_INTERVAL + 20
        ),
        "a fresh window admits new requests",
    );
}

#[test]
fn fresh_nonces_differ_and_announces_decode() {
    let mut ep = endpoint(0x21);
    let iface = ep.attach_interface(0);
    let name = DestinationName::new("retinue", &["fresh"]);
    ep.announce_fresh(&name, b"x", 10).unwrap();
    ep.announce_fresh(&name, b"x", 10).unwrap();
    let first = ep.next_outbound(iface).unwrap();
    let second = ep.next_outbound(iface).unwrap();
    let first_blob = AnnounceBlob::from_wire(Announce::decode(&first).unwrap().rand_hash);
    let second_blob = AnnounceBlob::from_wire(Announce::decode(&second).unwrap().rand_hash);
    assert_ne!(first_blob.nonce(), second_blob.nonce(), "drawn, not fixed");
    assert_eq!(first_blob.timebase(), 10);
    assert_eq!(second_blob.timebase(), 11);
}

#[test]
fn shutdown_waits_for_sessions_and_queues() {
    let mut ep = endpoint(0x22);
    let iface = ep.attach_interface(0);
    assert!(ep.is_running());
    assert!(ep.begin_resource());
    assert_eq!(ep.begin_quiesce(), Quiesce::Started);
    assert!(!ep.is_running());
    assert!(!ep.begin_resource(), "nothing begins while winding down");
    assert!(matches!(
        ep.shutdown_step(0, 100),
        ShutdownStep::AwaitResources { remaining_ms: 100 }
    ));
    ep.end_resource();
    assert!(!matches!(
        ep.shutdown_step(0, 100),
        ShutdownStep::AwaitResources { .. }
    ));
    assert!(matches!(ep.shutdown_step(100, 100), ShutdownStep::Stop));
    assert!(ep.close());
    assert!(ep.is_closed());
    assert!(!ep.close(), "closing is once");
    assert!(ep.interface_closed(iface));
}

#[test]
fn an_endpoint_error_says_what_went_wrong() {
    assert_eq!(
        EndpointError::FrameLimit {
            actual: 512,
            limit: 255
        }
        .message(),
        "single packet is 512 bytes after encryption, interface frame limit is 255"
    );
    assert_eq!(EndpointError::Closed.message(), "endpoint closed");
}

#[test]
fn closing_an_interface_keeps_its_record() {
    let mut ep = endpoint(0x23);
    let first = ep.attach_interface(0);
    let second = ep.attach_interface(0);
    ep.close_interface(first);
    assert!(ep.interface_closed(first));
    assert!(!ep.interface_closed(second));
    assert_eq!(ep.frame_limit(first), Some(500));
    ep.close_interface(99);
    assert!(!ep.interface_closed(second));
}

#[test]
fn a_policy_is_read_back_as_it_was_set() {
    let mut ep = endpoint(0x24);
    let usual = ep.routing_policy();
    assert!(matches!(usual.allowed_ingress, InterfaceSelector::NoInterface));
    assert!(matches!(
        InterfaceSelector::default(),
        InterfaceSelector::NoInterface
    ));
    ep.set_routing_policy(RoutingPolicy {
        allowed_ingress: InterfaceSelector::Only(vec![3, 1, 3]),
        allowed_egress: InterfaceSelector::Only(vec![]),
        ..RoutingPolicy::transit()
    });
    let read = ep.routing_policy();
    assert!(matches!(read.allowed_ingress, InterfaceSelector::Only(list) if list == [3, 1, 3]));
    assert!(matches!(read.allowed_egress, InterfaceSelector::Only(list) if list.is_empty()));
}

#[test]
fn jitter_spans_the_whole_range() {
    assert_eq!(relay_jitter(u64::MAX, [0xff; 8]), u64::MAX);
    assert_eq!(relay_jitter(u64::MAX, [1, 0, 0, 0, 0, 0, 0, 0]), 1);
    assert_eq!(relay_jitter(9, [23, 0, 0, 0, 0, 0, 0, 0]), 3);
    assert_eq!(relay_jitter(0, [0xff; 8]), 0);
}
