//! The executor-neutral node.

use retinue::announce::{AnnounceBlob, RAND_HASH_LEN, RATCHET_LEN};
use retinue::announce_freshness::{AnnounceFreshnessCandidate, AnnounceFreshnessDecision};
use retinue::node::{
    Action, Actions, FreshnessPolicy, InterfaceId, LinkContent, LinkReading, Node, Redrive,
    TransferReading, TransportConfig, LINK_IDLE_TIMEOUT, RESOURCE_RETRY_INTERVAL,
};
use retinue::packet::{DestinationType, HeaderType, Packet, PacketType, Propagation};
use retinue::{AddressHash, Announce, DestinationName, NameHash, PrivateIdentity};

const IFACE: InterfaceId = 0;

type Board = Node<32, 8, 4, 16>;
type Small = Node<8, 8, 4, 4>;

fn name(aspect: &str) -> NameHash {
    DestinationName::new("retinue", &[aspect]).name_hash()
}

fn identity(seed: u8) -> PrivateIdentity {
    PrivateIdentity::from_secret_bytes(&[seed; 64])
}

/// The first packet a set of actions wants sent.
fn sent<const N: usize>(actions: &Actions<N>) -> Option<Packet> {
    actions.iter().find_map(|a| match a {
        Action::Send { packet, .. } => Some(packet.clone()),
        _ => None,
    })
}

fn blob(bytes: [u8; RAND_HASH_LEN]) -> AnnounceBlob {
    AnnounceBlob::from_wire(bytes)
}

/// The link id a set of actions reports coming up.
fn link_up<const N: usize>(actions: &Actions<N>) -> Option<AddressHash> {
    actions.iter().find_map(|a| match a {
        Action::LinkUp { link_id } => Some(*link_id),
        _ => None,
    })
}

fn hear<const P: usize, const A: usize, const L: usize, const R: usize>(
    node: &mut Node<P, A, L, R>,
    interface: InterfaceId,
    packet: &Packet,
    now: u64,
) -> Actions<A> {
    node.ingest(interface, packet, now, &LinkReading::none())
}

fn tick<const P: usize, const A: usize, const L: usize, const R: usize>(
    node: &mut Node<P, A, L, R>,
    now: u64,
    blob: Option<&AnnounceBlob>,
) -> Actions<A> {
    node.poll(now, IFACE, blob, &Redrive::none())
}

/// A packet of a link, as a desk link layer makes it.
fn packet(packet_type: PacketType, destination: AddressHash, context: u8, payload: Vec<u8>) -> Packet {
    Packet {
        ifac: false,
        header_type: HeaderType::Type1,
        context_flag: false,
        propagation: Propagation::Broadcast,
        destination_type: DestinationType::Single,
        packet_type,
        hops: 0,
        transport: None,
        destination,
        context,
        payload,
    }
}

/// A link request.
fn request(to: AddressHash, seed: u8) -> Packet {
    packet(PacketType::LinkRequest, to, 0, vec![seed; 64])
}

/// What the desk link layer reads in a link request it accepts.
fn accepting(request: &Packet) -> LinkReading {
    let id = request.hash();
    LinkReading {
        link_id: Some(id),
        accepted: Some(packet(PacketType::Proof, id, 0xff, vec![0xEE; 99])),
        ..LinkReading::none()
    }
}

/// What it reads in a proof that stands.
fn proving(proof: &Packet) -> LinkReading {
    LinkReading {
        proved: Some(proof.destination),
        ..LinkReading::none()
    }
}

/// Two nodes that have not met.
fn pair() -> (Board, Board) {
    (
        Node::new(identity(0x11), name("a")),
        Node::new(identity(0x22), name("b")),
    )
}

/// Two nodes with a link already established between them.
fn linked() -> (Board, Board, AddressHash) {
    let (mut a, mut b) = pair();
    hear(&mut a, IFACE, &b.announce(&blob([2; RAND_HASH_LEN]), None), 0);
    let wanted = request(b.destination(), 0x31);
    let request = sent(
        &a.open_link(b.destination(), IFACE, wanted.hash(), wanted.clone())
            .unwrap(),
    )
    .unwrap();
    let proof = sent(&b.ingest(IFACE, &request, 0, &accepting(&request))).unwrap();
    let id = link_up(&a.ingest(IFACE, &proof, 0, &proving(&proof))).expect("link did not come up");
    (a, b, id)
}

fn node() -> Board {
    Node::new(identity(0x11), name("node"))
}

/// A node announces itself promptly on boot, then holds off for its interval.
#[test]
fn announces_on_boot_then_waits_for_the_interval() {
    let mut n = node().with_announce_interval(1_000);
    let announce_blob = blob([0x55; RAND_HASH_LEN]);

    assert!(n.announce_due(0), "a fresh node is due on boot");
    let first = tick(&mut n, 0, Some(&announce_blob));
    assert_eq!(first.len(), 1, "a fresh node announces without waiting");

    assert!(!n.announce_due(1), "the interval has not elapsed");
    assert!(
        tick(&mut n, 1, Some(&announce_blob)).is_empty(),
        "not due yet"
    );
    assert!(
        tick(&mut n, 999, Some(&announce_blob)).is_empty(),
        "still not due"
    );
    assert!(n.announce_due(1_000), "the interval has elapsed");
    assert_eq!(
        tick(&mut n, 1_000, Some(&announce_blob)).len(),
        1,
        "due at the interval"
    );
}

#[test]
fn a_due_announce_without_a_blob_stays_due_until_supplied() {
    let mut n = node().with_announce_interval(1_000);

    assert!(n.announce_due(0));
    assert!(tick(&mut n, 0, None).is_empty());
    assert!(n.announce_due(1), "missing blob must not consume due state");
    assert!(tick(&mut n, 1, None).is_empty());

    let announce_blob = blob([0x56; RAND_HASH_LEN]);
    assert!(sent(&tick(&mut n, 1, Some(&announce_blob))).is_some());
    assert!(!n.announce_due(2), "successful emission consumes due state");
    assert!(tick(&mut n, 2, Some(&announce_blob)).is_empty());
}

/// Our own announce is a real one: it decodes, verifies, and names us.
#[test]
fn our_announce_round_trips_through_the_decoder() {
    let n = node().with_app_data(b"retinue-node");
    let packet = n.announce(&blob([0x22; RAND_HASH_LEN]), None);

    let decoded = Announce::decode(&packet).expect("our own announce must verify");
    assert_eq!(decoded.destination, n.destination());
    assert_eq!(decoded.app_data, b"retinue-node");
}

/// Two nodes learn each other from each other's announces, which is the whole of the discovery
/// half of a link.
#[test]
fn two_nodes_learn_each_other() {
    let mut a: Board = Node::new(identity(0xA1), name("a"));
    let mut b: Board = Node::new(identity(0xB2), name("b"));

    let from_a = a.announce(&blob([1; RAND_HASH_LEN]), None);
    let from_b = b.announce(&blob([2; RAND_HASH_LEN]), None);

    assert_eq!(hear(&mut b, IFACE, &from_a, 0).len(), 1);
    assert_eq!(hear(&mut a, IFACE, &from_b, 0).len(), 1);

    assert!(b.peers().knows(a.destination()), "b can now reach a");
    assert!(a.peers().knows(b.destination()), "a can now reach b");
}

/// A full address book keeps serving and stops learning, rather than growing.
#[test]
fn a_full_book_stops_learning_without_faulting() {
    let mut n: Node<1, 8, 4, 16> = Node::new(identity(0x11), name("node"));
    let known = Board::new(identity(0xB1), name("known")).announce(&blob([8; RAND_HASH_LEN]), None);
    assert_eq!(hear(&mut n, IFACE, &known, 0).len(), 1);

    // A different destination cannot be learned, and says nothing rather than faulting.
    let other = Board::new(identity(0xC3), name("other")).announce(&blob([9; RAND_HASH_LEN]), None);
    assert!(hear(&mut n, IFACE, &other, 0).is_empty());
    assert_eq!(n.peers().len(), 1, "the established peer survives");
    assert_eq!(n.peers().refused(), 1, "and the refusal is counted");
}

#[test]
fn a_corrupted_announce_is_refused_without_a_trace() {
    for index in [0usize, 40, 64, 80, 100, 150] {
        let mut n = node();
        let mut packet = Board::new(identity(0xB1), name("peer"))
            .with_app_data(b"data")
            .announce(&blob([8; RAND_HASH_LEN]), None);
        let last = packet.payload.len() - 1;
        packet.payload[index.min(last)] ^= 1;
        assert!(hear(&mut n, IFACE, &packet, 0).is_empty());
        assert_eq!(n.peers().len(), 0);
    }
}

#[test]
fn freshness_gates_effects_and_newer_route_replaces_regardless_of_hops() {
    let mut relay: Small =
        Node::new(identity(0x81), name("relay")).with_transport_config(TransportConfig::transit());
    let peer: Small = Node::new(identity(0x82), name("peer"));

    let mut first = peer.announce(&blob([1, 0, 0, 0, 0, 0, 0, 0, 0, 10]), None);
    first.hops = 1;
    let accepted = hear(&mut relay, IFACE, &first, 0);
    assert_eq!(accepted.len(), 2, "learn plus relay");
    assert_eq!(relay.route_to(peer.destination(), 0), Some((IFACE, 1)));

    let mut newer_equal = peer.announce(&blob([2, 0, 0, 0, 0, 0, 0, 0, 0, 11]), None);
    newer_equal.hops = 1;
    let accepted = hear(&mut relay, IFACE + 1, &newer_equal, 1);
    assert_eq!(accepted.len(), 2, "newer equal-hop announce replaces");
    assert_eq!(relay.route_to(peer.destination(), 1), Some((IFACE + 1, 1)));

    let mut newer_worse = peer.announce(&blob([3, 0, 0, 0, 0, 0, 0, 0, 0, 12]), None);
    newer_worse.hops = 7;
    let accepted = hear(&mut relay, IFACE + 2, &newer_worse, 2);
    assert_eq!(accepted.len(), 2, "newer announce still learns and relays");
    assert_eq!(relay.route_to(peer.destination(), 2), Some((IFACE + 2, 7)));

    let mut stale = peer.announce(&blob([4, 0, 0, 0, 0, 0, 0, 0, 0, 11]), None);
    stale.hops = 0;
    assert!(hear(&mut relay, IFACE, &stale, 3).is_empty());
    assert_eq!(relay.peers().len(), 1);
    assert_eq!(relay.route_to(peer.destination(), 3), Some((IFACE + 2, 7)));
    assert_eq!(relay.transport_counters().stale_announces, 1);

    assert!(hear(&mut relay, IFACE, &newer_worse, 4).is_empty());
    assert_eq!(relay.transport_counters().replayed_announces, 1);
}

#[test]
fn expired_route_only_accepts_a_stale_copy_at_worse_hops() {
    let mut relay: Small =
        Node::new(identity(0x83), name("relay")).with_transport_config(TransportConfig {
            route_ttl: 10,
            ..TransportConfig::transit()
        });
    let better_peer: Small = Node::new(identity(0x84), name("better"));
    let equal_peer: Small = Node::new(identity(0x85), name("equal"));
    let worse_peer: Small = Node::new(identity(0x86), name("worse"));
    for peer in [&better_peer, &equal_peer, &worse_peer] {
        let mut first = peer.announce(&blob([1, 0, 0, 0, 0, 0, 0, 0, 0, 20]), None);
        first.hops = 2;
        assert_eq!(hear(&mut relay, IFACE, &first, 0).len(), 2);
    }
    assert_eq!(relay.route_count(), 3);
    let _ = tick(&mut relay, 10, Some(&blob([0; RAND_HASH_LEN])));
    assert_eq!(
        relay.route_count(),
        0,
        "route TTL evicted the physical route"
    );

    let mut better = better_peer.announce(&blob([2, 0, 0, 0, 0, 0, 0, 0, 0, 19]), None);
    better.hops = 1;
    let mut equal = equal_peer.announce(&blob([2, 0, 0, 0, 0, 0, 0, 0, 0, 19]), None);
    equal.hops = 2;
    let mut worse = worse_peer.announce(&blob([2, 0, 0, 0, 0, 0, 0, 0, 0, 19]), None);
    worse.hops = 3;

    assert!(hear(&mut relay, IFACE + 1, &better, 11).is_empty());
    assert!(hear(&mut relay, IFACE + 1, &equal, 11).is_empty());
    assert_eq!(hear(&mut relay, IFACE + 1, &worse, 11).len(), 2);
    assert_eq!(
        relay.route_to(worse_peer.destination(), 11),
        Some((IFACE + 1, 3))
    );
    assert_eq!(relay.route_to(better_peer.destination(), 11), None);
    assert_eq!(relay.route_to(equal_peer.destination(), 11), None);
    assert_eq!(relay.transport_counters().stale_announces, 2);
}

#[test]
fn node_address_book_refusal_does_not_commit_freshness() {
    let mut n: Node<1, 8, 4, 4> =
        Node::new(identity(0x85), name("node")).with_transport_config(TransportConfig::transit());
    let first_peer: Small = Node::new(identity(0x86), name("first"));
    let second_peer: Small = Node::new(identity(0x87), name("second"));
    hear(
        &mut n,
        IFACE,
        &first_peer.announce(&blob([1; RAND_HASH_LEN]), None),
        0,
    );
    let packet = second_peer.announce(&blob([2; RAND_HASH_LEN]), None);
    let candidate = AnnounceFreshnessCandidate {
        destination: second_peer.destination(),
        blob: AnnounceBlob::from_wire([2; RAND_HASH_LEN]),
        hops: packet.hops,
    };
    assert!(hear(&mut n, IFACE, &packet, 1).is_empty());
    assert_eq!(n.refused_peers(), 1);
    assert!(matches!(
        n.evaluate_announce(candidate, 1),
        AnnounceFreshnessDecision::Accept(_)
    ));
    assert!(!n.peers().knows(second_peer.destination()));
    assert_eq!(n.route_count(), 1);
}

#[test]
fn packet_loop_dedup_is_after_freshness() {
    let mut relay: Small =
        Node::new(identity(0x88), name("relay")).with_transport_config(TransportConfig::transit());
    let peer: Small = Node::new(identity(0x89), name("peer"));
    let packet = peer.announce(&blob([4; RAND_HASH_LEN]), None);
    assert!(relay.transit_is_new(packet.hash(), 0));
    let actions = hear(&mut relay, IFACE, &packet, 1);
    assert_eq!(
        actions.len(),
        1,
        "freshness learns before loop dedup suppresses relay"
    );
    assert!(actions.iter().any(|a| matches!(a, Action::Learned { .. })));
    assert_eq!(relay.peers().len(), 1);
    assert_eq!(relay.transport_counters().replayed_announces, 0);
}

#[test]
fn stale_same_blob_cannot_roll_back_ratchet_or_app_data() {
    let mut n = node();
    let peer: Small = Node::new(identity(0x90), name("peer")).with_app_data(b"current");
    let announce_blob = blob([9; RAND_HASH_LEN]);
    let current = peer.announce(&announce_blob, Some([0xA1; RATCHET_LEN]));
    assert_eq!(hear(&mut n, IFACE, &current, 0).len(), 1);
    assert_eq!(
        n.peers().resolve(peer.destination()).unwrap().app_data,
        b"current"
    );
    assert_eq!(
        n.peers().resolve(peer.destination()).unwrap().ratchet,
        Some([0xA1; RATCHET_LEN])
    );

    let older: Small = Node::new(identity(0x90), name("peer")).with_app_data(b"rollback");
    let rollback = older.announce(&announce_blob, Some([0xB2; RATCHET_LEN]));
    assert!(hear(&mut n, IFACE, &rollback, 1).is_empty());
    let retained = n.peers().resolve(peer.destination()).unwrap();
    assert_eq!(retained.app_data, b"current");
    assert_eq!(retained.ratchet, Some([0xA1; RATCHET_LEN]));
}

#[test]
fn freshness_policy_is_bounded_and_reconfigures_without_resetting_history() {
    let mut n: Small =
        Node::new(identity(0x8A), name("node")).with_transport_config(TransportConfig::transit());
    assert!(Small::new(identity(0x8B), name("invalid"))
        .with_freshness_policy(FreshnessPolicy {
            max_destinations: 0,
            max_blobs_per_destination: 8,
            retention: 100,
        })
        .is_err());

    let a: Small = Node::new(identity(0x8C), name("a"));
    let b: Small = Node::new(identity(0x8D), name("b"));
    hear(&mut n, IFACE, &a.announce(&blob([5; RAND_HASH_LEN]), None), 0);
    hear(&mut n, IFACE, &b.announce(&blob([6; RAND_HASH_LEN]), None), 1);
    assert_eq!(n.freshness_policy().max_destinations, 8);
    assert!(n
        .set_freshness_policy(
            FreshnessPolicy {
                max_destinations: 1,
                max_blobs_per_destination: 1,
                retention: 100,
            },
            1
        )
        .is_ok());
    assert_eq!(n.freshness_policy().max_destinations, 1);
    assert_eq!(n.transport_counters().evicted_freshness_rows, 1);
    assert_eq!(n.transport_counters().evicted_freshness_blobs, 0);
    assert!(matches!(
        n.evaluate_announce(
            AnnounceFreshnessCandidate {
                destination: a.destination(),
                blob: blob([5; RAND_HASH_LEN]),
                hops: 0,
            },
            1,
        ),
        AnnounceFreshnessDecision::Accept(_)
    ));

    // The remaining destination's second accepted blob now exercises per-row history pressure
    // independently of destination-row pressure.
    let mut b_again = b.announce(&blob([7; RAND_HASH_LEN]), None);
    b_again.hops = 1;
    hear(&mut n, IFACE, &b_again, 2);
    assert_eq!(n.transport_counters().evicted_freshness_blobs, 1);
}

/// Actions are bounded, and say so when they fill.
#[test]
fn actions_report_overflow_rather_than_dropping_silently() {
    let mut actions = Actions::<2>::new();
    for _ in 0..5 {
        actions.push(Action::Learned {
            destination: AddressHash::from_bytes([0; 16]),
        });
    }
    assert_eq!(actions.len(), 2, "held to its bound");
    assert_eq!(actions.overflowed(), 3, "and counted what did not fit");
}

/// A packet's type decides how it is handled: the bytes of an announce under another type teach
/// nothing.
#[test]
fn an_announce_relabelled_as_data_is_dropped() {
    let mut n = node();
    let packet = Packet {
        packet_type: PacketType::Data,
        ..Board::new(identity(0xB1), name("peer")).announce(&blob([8; RAND_HASH_LEN]), None)
    };
    let actions = hear(&mut n, IFACE, &packet, 0);
    assert!(actions.is_empty());
    assert_eq!(n.peers().len(), 0);
}

/// Two nodes establish a link in the shape a radio carries it: announce, learn, open, accept,
/// prove.
#[test]
fn two_nodes_establish_a_link() {
    let (mut a, mut b) = pair();

    // Discovery first: a must have heard b announce before it can address b.
    let wanted = request(b.destination(), 0x31);
    assert!(a
        .open_link(b.destination(), IFACE, wanted.hash(), wanted.clone())
        .is_none());
    hear(&mut a, IFACE, &b.announce(&blob([2; RAND_HASH_LEN]), None), 0);

    let opened = a
        .open_link(b.destination(), IFACE, wanted.hash(), wanted)
        .expect("b is known, so a link can be opened");
    let request = sent(&opened).expect("a link request goes out");

    let accepted = b.ingest(IFACE, &request, 0, &accepting(&request));
    let proof = sent(&accepted).expect("b answers with a proof");
    assert_eq!(b.link_count(), 1, "b holds the link immediately");
    assert!(link_up(&accepted).is_some(), "b reports the link up");

    let completed = a.ingest(IFACE, &proof, 0, &proving(&proof));
    assert_eq!(a.link_count(), 1, "a holds the link once proved");
    let id = link_up(&completed).expect("a reports the link up");

    assert!(
        a.has_link(id) && b.has_link(id),
        "one link, one id, both sides"
    );
}

/// A retransmitted link request is answered with the SAME proof, not a second link.
#[test]
fn a_retransmitted_request_is_answered_with_the_same_proof() {
    let (_, mut b) = pair();
    let request = request(b.destination(), 0x31);

    let first = sent(&b.ingest(IFACE, &request, 0, &accepting(&request))).expect("first proof");
    let mut other = accepting(&request);
    other.accepted.as_mut().unwrap().payload = vec![1; 99];
    let second = sent(&b.ingest(IFACE, &request, 0, &other)).expect("second proof");

    assert_eq!(first, second, "the same proof, byte for byte");
    assert_eq!(b.link_count(), 1, "and still exactly one link");
}

/// Data crosses an established link and arrives decrypted.
#[test]
fn data_crosses_an_established_link() {
    let (a, mut b, id) = linked();

    let sealed = packet(PacketType::Data, id, 0, vec![0x5A; 48]);
    let out = a
        .send(id, IFACE, sealed)
        .expect("a can send on a link it holds");
    let packet = sent(&out).expect("a data packet goes out");

    let opened = LinkReading {
        content: LinkContent::Data(b"hello over the air".to_vec()),
        ..LinkReading::none()
    };
    let received = b.ingest(IFACE, &packet, 0, &opened);
    let found = received.iter().find_map(|x| match x {
        Action::Data { link_id, payload } => Some((*link_id, payload.clone())),
        _ => None,
    });
    match found {
        Some((link_id, payload)) => {
            assert_eq!(link_id, id);
            assert_eq!(payload.as_slice(), b"hello over the air");
        }
        None => panic!("expected decrypted Data"),
    }
}

/// A link request for another destination is ignored by a non-transport node and must never be
/// answered as if its destination were local.
#[test]
fn a_link_request_for_another_destination_is_ignored() {
    let (_, b) = pair();
    let request = request(b.destination(), 0x31);

    let mut c: Board = Node::new(identity(0xCC), name("c"));
    assert!(c
        .ingest(IFACE, &request, 0, &accepting(&request))
        .is_empty());
    assert_eq!(c.link_count(), 0);
}

fn close_reading() -> LinkReading {
    LinkReading {
        content: LinkContent::Close,
        ..LinkReading::none()
    }
}

/// A peer closing the link drops it and reports it.
#[test]
fn a_peer_closing_the_link_drops_it() {
    let (mut a, _b, id) = linked();
    let close = packet(PacketType::Data, id, 0xfc, vec![3; 48]);

    let actions = a.ingest(IFACE, &close, 0, &close_reading());
    assert!(actions.iter().any(|x| matches!(x, Action::LinkDown { .. })));
    assert_eq!(a.link_count(), 0, "the link is gone");
    assert!(!a.has_link(id));
}

/// A full link table refuses new peers and keeps the ones it has.
#[test]
fn a_full_link_table_refuses_and_counts() {
    let mut server: Node<32, 8, 1, 16> = Node::new(identity(0x22), name("b"));
    let r1 = request(server.destination(), 0x31);
    assert_eq!(
        server.ingest(IFACE, &r1, 0, &accepting(&r1)).len(),
        2,
        "accepted: proof plus LinkUp"
    );

    let r2 = request(server.destination(), 0x41);
    assert!(
        server.ingest(IFACE, &r2, 0, &accepting(&r2)).is_empty(),
        "refused, and nothing goes to the wire"
    );
    assert_eq!(server.link_count(), 1, "the established link survives");
    assert_eq!(server.refused_links(), 1, "and the refusal is counted");
}

/// Link traffic this node does not handle is dropped rather than mishandled.
#[test]
fn unhandled_link_traffic_is_dropped() {
    let (mut a, _b, id) = linked();
    let keepalive = packet(PacketType::Data, id, 0xfa, vec![0xff]);
    assert!(hear(&mut a, IFACE, &keepalive, 0).is_empty());
    assert!(a.has_link(id), "and the link survives being spoken to");
}

/// What a transfer made of a packet.
fn transfer(replies: Vec<Packet>, data: Option<Vec<u8>>, ended: bool) -> LinkReading {
    LinkReading {
        transfer: TransferReading {
            replies,
            data,
            ended,
        },
        ..LinkReading::none()
    }
}

/// An advertisement that the transfer refuses is refused, and nothing is held.
#[test]
fn an_oversized_resource_is_refused_without_holding_state() {
    let (mut a, mut b, id) = linked();
    let offer = packet(PacketType::Data, id, 2, vec![0xCD; 48]);
    let started = a
        .publish(id, IFACE, offer, 0)
        .expect("a will happily offer it");

    let advertisement = sent(&started).expect("an advertisement goes out");
    let answer = b.ingest(IFACE, &advertisement, 0, &transfer(vec![], None, false));

    assert!(answer.is_empty(), "b says nothing rather than starting");
    assert!(!b.transfer_active(id), "and holds no reassembly state");
    assert!(b.has_link(id), "while the link itself is untouched");
    assert_eq!(b.refused_offers(), 1);
}

/// A shell that could not send the announce can say so, and the next poll announces again
/// instead of waiting out the whole interval.
#[test]
fn a_failed_announce_can_be_retried_before_the_interval() {
    let (mut a, _b) = pair();

    assert!(
        sent(&tick(&mut a, 0, Some(&blob([1; RAND_HASH_LEN])))).is_some(),
        "the first poll announces"
    );
    assert!(
        tick(&mut a, 1_000, Some(&blob([2; RAND_HASH_LEN]))).is_empty(),
        "and the next is not due for a whole interval"
    );
    assert!(!a.announce_due(1_000), "the interval is not elapsed yet");

    // The shell reports that the frame never reached the air.
    a.retry_announce();
    assert!(
        a.announce_due(1_001),
        "retry makes the announce due immediately"
    );
    assert!(
        sent(&tick(&mut a, 1_001, Some(&blob([3; RAND_HASH_LEN])))).is_some(),
        "so the node announces again rather than waiting out the interval"
    );
}

/// One lost part no longer kills a transfer: the receiver's poll re-requests exactly what is
/// missing, and the transfer completes.
#[test]
fn a_lost_part_is_re_requested_on_poll() {
    let (_a, mut b, id) = linked();
    // Drain the boot announce, so later polls answer only for the transfer.
    let _ = tick(&mut b, 0, Some(&blob([0; RAND_HASH_LEN])));

    let advertisement = packet(PacketType::Data, id, 2, vec![1; 48]);
    let ask = packet(PacketType::Data, id, 3, vec![2; 48]);
    let request = sent(&b.ingest(
        IFACE,
        &advertisement,
        0,
        &transfer(vec![ask.clone()], None, false),
    ));
    assert_eq!(request, Some(ask.clone()));
    let part = packet(PacketType::Data, id, 1, vec![4; 100]);
    let waiting = b.ingest(IFACE, &part, 0, &transfer(vec![], None, false));
    assert!(
        waiting.is_empty(),
        "with a part outstanding, b waits rather than re-requesting early"
    );
    assert!(b.transfer_active(id), "the transfer is stalled, not dead");

    // Before the retry interval: silence. At it: the re-request, unprompted.
    let again = Redrive {
        requests: vec![vec![ask.clone()]],
        advertisements: vec![],
    };
    assert!(b.due_receivers(RESOURCE_RETRY_INTERVAL - 1).is_empty());
    assert!(
        b.poll(
            RESOURCE_RETRY_INTERVAL - 1,
            IFACE,
            Some(&blob([0; RAND_HASH_LEN])),
            &again
        )
        .is_empty(),
        "no retry before its time"
    );
    assert_eq!(b.due_receivers(RESOURCE_RETRY_INTERVAL), vec![id]);
    let retry = sent(&b.poll(
        RESOURCE_RETRY_INTERVAL,
        IFACE,
        Some(&blob([0; RAND_HASH_LEN])),
        &again,
    ))
    .expect("the poll re-requests the missing part");
    assert_eq!(retry, ask);
    assert!(b.due_receivers(RESOURCE_RETRY_INTERVAL).is_empty());

    // The missing part completes the transfer.
    let payload: Vec<u8> = (0..1_024u32).map(|i| (i.wrapping_mul(7)) as u8).collect();
    let done = b.ingest(
        IFACE,
        &part,
        RESOURCE_RETRY_INTERVAL + 1,
        &transfer(vec![], Some(payload.clone()), false),
    );
    assert_eq!(
        done.items(),
        &[Action::Resource {
            link_id: id,
            data: payload
        }]
    );
    assert!(
        !b.transfer_active(id),
        "and the receiver slot is free again"
    );
}

/// A lost advertisement is re-offered by the sender's poll, so a fetch whose first offer the
/// air ate still begins.
#[test]
fn a_lost_advertisement_is_re_offered_on_poll() {
    let (mut a, mut b, id) = linked();
    // Drain the boot announce, so the retry poll answers only for the transfer.
    let _ = tick(&mut a, 0, Some(&blob([0; RAND_HASH_LEN])));

    // The advertisement from publish is LOST: b never hears it.
    let offer = packet(PacketType::Data, id, 2, vec![0xEF; 48]);
    let _ = a.publish(id, IFACE, offer.clone(), 0).unwrap();
    assert!(a.transfer_active(id));

    assert_eq!(a.due_senders(RESOURCE_RETRY_INTERVAL), vec![id]);
    let again = sent(&a.poll(
        RESOURCE_RETRY_INTERVAL,
        IFACE,
        Some(&blob([0; RAND_HASH_LEN])),
        &Redrive {
            requests: vec![],
            advertisements: vec![offer],
        },
    ))
    .expect("the poll re-advertises the unanswered offer");
    let ask = packet(PacketType::Data, id, 3, vec![2; 48]);
    let request = sent(&b.ingest(IFACE, &again, 0, &transfer(vec![ask], None, false)));
    assert!(request.is_some(), "and the re-offer starts the transfer");
}

/// Two sealed packets never share an IV, even across separate calls. The counter is node state;
/// a fresh counter per call would replay the sequence.
#[test]
fn derived_ivs_never_repeat_across_calls() {
    let (mut a, mut b, id) = linked();
    let first = b.derive_iv(id);
    let advertisement = packet(PacketType::Data, id, 2, vec![1; 48]);
    b.ingest(IFACE, &advertisement, 0, &transfer(vec![], None, false));
    let second = b.derive_iv(id);
    assert_ne!(first, second, "the same request sealed twice must differ");
    assert_ne!(first, a.derive_iv(id), "and another identity's differ too");
}

#[test]
fn responder_seeds_are_stable_per_link() {
    let n = node();
    let x = AddressHash::from_bytes([1; 16]);
    let y = AddressHash::from_bytes([2; 16]);
    assert_eq!(n.responder_seed(&x), n.responder_seed(&x));
    assert_ne!(n.responder_seed(&x), n.responder_seed(&y));
    let seed = n.responder_seed(&x);
    assert_ne!(&seed[..32], &seed[32..], "the halves have their own tags");
    let other: Board = Node::new(identity(0x12), name("node"));
    assert_ne!(n.responder_seed(&x), other.responder_seed(&x));
}

/// Losing the link discards the transfer riding on it.
#[test]
fn closing_a_link_discards_its_transfer() {
    let (mut a, mut b, id) = linked();

    // Start a transfer and deliver only the advertisement, so b is mid-receive.
    let offer = packet(PacketType::Data, id, 2, vec![0xAB; 48]);
    let started = a.publish(id, IFACE, offer, 0).unwrap();
    let advertisement = sent(&started).unwrap();
    let ask = packet(PacketType::Data, id, 3, vec![2; 48]);
    b.ingest(IFACE, &advertisement, 0, &transfer(vec![ask], None, false));
    assert!(b.transfer_active(id), "b is mid-transfer");

    // a closes the link.
    let close = packet(PacketType::Data, id, 0xfc, vec![9; 48]);
    let actions = b.ingest(IFACE, &close, 0, &close_reading());

    assert!(actions.iter().any(|x| matches!(x, Action::LinkDown { .. })));
    assert!(!b.transfer_active(id), "the transfer went with the link");
    assert_eq!(b.link_count(), 0);
}

/// A peer that establishes a link and then vanishes must not hold its slot forever.
#[test]
fn a_silent_peer_releases_its_link_slot() {
    let (mut a, _b, _id) = linked();
    assert_eq!(a.link_count(), 1, "the link is up");

    // Nobody says anything for longer than the timeout, then the node's clock ticks.
    let later = LINK_IDLE_TIMEOUT + 1;
    let _ = tick(&mut a, later, Some(&blob([0x11; RAND_HASH_LEN])));

    assert_eq!(a.link_count(), 0, "a silent slot must come back");
    assert_eq!(
        a.expired_links(),
        1,
        "and be attributable, so a busy node reads differently from a deserted one",
    );
}

/// The other half: a link being used must not be reclaimed underneath it.
#[test]
fn a_link_that_keeps_talking_keeps_its_slot() {
    let (mut a, _b, id) = linked();
    let keepalive = packet(PacketType::Data, id, 0xfa, vec![0xff]);

    let mut now = 0;
    for _ in 0..4 {
        now += LINK_IDLE_TIMEOUT - 1;
        hear(&mut a, IFACE, &keepalive, now);
        let _ = tick(&mut a, now, Some(&blob([0x22; RAND_HASH_LEN])));
        assert_eq!(a.link_count(), 1, "a live peer keeps its slot at {now}");
    }
    assert_eq!(a.expired_links(), 0, "nothing reclaimed from a live peer");
}

#[test]
fn a_second_publish_on_a_busy_link_is_refused() {
    let (mut a, _b, id) = linked();
    let offer = packet(PacketType::Data, id, 2, vec![1; 48]);

    assert!(
        a.publish(id, IFACE, offer.clone(), 0).is_some(),
        "the first publish starts"
    );
    assert!(
        a.publish(id, IFACE, offer.clone(), 0).is_none(),
        "the second is refused while the first runs"
    );
    let done = packet(PacketType::Data, id, 5, vec![1; 48]);
    a.ingest(IFACE, &done, 1, &transfer(vec![], None, true));
    assert!(!a.transfer_active(id), "the proof ends it");
    assert!(a.publish(id, IFACE, offer, 2).is_some());
    let stranger = AddressHash::from_bytes([9; 16]);
    let lost = packet(PacketType::Data, stranger, 2, vec![1; 48]);
    assert!(a.publish(stranger, IFACE, lost, 2).is_none());
}

/// The transport table is a fixed board resource: expired paths go first, then the quietest
/// live route makes room. A flood cannot turn it into a lifetime allocation.
#[test]
fn transport_routes_expire_then_evict_at_their_bound() {
    let mut relay: Node<8, 8, 4, 2> =
        Node::new(identity(0x50), name("relay")).with_transport_config(TransportConfig {
            route_ttl: 100,
            ..TransportConfig::transit()
        });
    let a: Small = Node::new(identity(0x11), name("a"));
    let b: Small = Node::new(identity(0x22), name("b"));
    let c: Small = Node::new(identity(0x33), name("c"));

    hear(&mut relay, IFACE, &a.announce(&blob([1; RAND_HASH_LEN]), None), 0);
    hear(&mut relay, IFACE, &b.announce(&blob([2; RAND_HASH_LEN]), None), 1);
    assert_eq!(relay.route_count(), 2, "the typed route bound is full");

    hear(&mut relay, IFACE, &c.announce(&blob([3; RAND_HASH_LEN]), None), 2);
    assert_eq!(
        relay.route_count(),
        2,
        "a third route displaces, never grows"
    );
    assert_eq!(
        relay.route_to(a.destination(), 2),
        None,
        "the quietest live route was evicted"
    );
    assert_eq!(relay.transport_counters().evicted_routes, 1);

    let _ = tick(&mut relay, 102, Some(&blob([0; RAND_HASH_LEN])));
    assert_eq!(relay.route_count(), 0, "stale routes are reclaimed by poll");
    assert_eq!(relay.transport_counters().expired_routes, 2);
}

/// A transport node relays both sides of a link setup: the announce makes the route visible,
/// the type-2 request reaches the destination, and the remembered link bridge returns its
/// proof. This is the smallest real transport transaction, not a broadcast counter that could
/// pass without carrying a packet.
#[test]
fn transport_relays_announce_request_and_proof() {
    let (mut source, mut destination) = pair();
    let mut relay: Node<32, 8, 4, 4> =
        Node::new(identity(0x44), name("relay")).with_transport_config(TransportConfig::transit());

    let announce = destination.announce(&blob([0x77; RAND_HASH_LEN]), None);
    let relayed_announce = sent(&hear(&mut relay, IFACE, &announce, 0))
        .expect("a transport node re-broadcasts a verified announce");
    assert_eq!(relayed_announce.header_type, HeaderType::Type2);
    assert_eq!(relayed_announce.transport, Some(relay.identity_hash()));
    assert_eq!(relayed_announce.hops, 1);
    hear(&mut source, IFACE, &relayed_announce, 1);
    assert!(
        source.peers().knows(destination.destination()),
        "the source learned the destination through the relay"
    );

    let wanted = request(destination.destination(), 0x99);
    let mut request = sent(
        &source
            .open_link(destination.destination(), IFACE, wanted.hash(), wanted)
            .expect("the announced destination is linkable"),
    )
    .unwrap();
    request.header_type = HeaderType::Type2;
    request.transport = Some(relay.identity_hash());
    let forwarded_request = sent(&relay.ingest(IFACE, &request, 2, &accepting(&request)))
        .expect("the type-2 request is carried toward its route");
    assert_eq!(forwarded_request.header_type, HeaderType::Type1);
    assert_eq!(forwarded_request.transport, None);
    assert_eq!(forwarded_request.hops, 1);

    let proof = sent(&destination.ingest(
        IFACE,
        &forwarded_request,
        3,
        &accepting(&forwarded_request),
    ))
    .expect("the destination accepts the transported request");
    let forwarded_proof = sent(&hear(&mut relay, IFACE, &proof, 4))
        .expect("the remembered bridge carries the proof back");
    assert_eq!(forwarded_proof.hops, 1);
    assert!(
        link_up(&source.ingest(IFACE, &forwarded_proof, 5, &proving(&forwarded_proof))).is_some(),
        "the source completes the transported link"
    );
    let counters = relay.transport_counters();
    assert_eq!(counters.forwarded_announces, 1);
    assert_eq!(counters.forwarded_packets, 2);
}

/// Enough distinct signed announces to turn the route table over many times, while every
/// retained table stays at its declared ceiling.
#[test]
fn transport_flood_keeps_retained_state_bounded() {
    let mut relay: Node<128, 8, 4, 4> =
        Node::new(identity(0x55), name("relay")).with_transport_config(TransportConfig::transit());

    for seed in 1_u8..=32 {
        let peer: Node<128, 8, 4, 4> = Node::new(identity(seed), name("flood"));
        let actions = hear(
            &mut relay,
            IFACE,
            &peer.announce(&blob([seed; RAND_HASH_LEN]), None),
            seed.into(),
        );
        assert!(actions.len() <= 2, "one learn and one relay at most");
        assert_eq!(
            relay.route_count(),
            usize::from(seed).min(4),
            "route residency remains at its four-entry ceiling"
        );
    }
    let counters = relay.transport_counters();
    assert_eq!(counters.forwarded_announces, 32);
    assert_eq!(counters.evicted_routes, 28);
    assert_eq!(relay.route_count(), 4);
}

#[test]
fn transit_is_limited_by_hops_routes_and_dedup() {
    let mut relay: Small =
        Node::new(identity(0x44), name("relay")).with_transport_config(TransportConfig::transit());
    let mut transit = packet(PacketType::Data, AddressHash::from_bytes([7; 16]), 0, vec![1]);
    transit.header_type = HeaderType::Type2;
    transit.transport = Some(relay.identity_hash());
    assert!(hear(&mut relay, IFACE, &transit, 0).is_empty());
    assert_eq!(relay.transport_counters().unroutable_packets, 1);

    let peer: Small = Node::new(identity(0x45), name("peer"));
    hear(&mut relay, 9, &peer.announce(&blob([1; RAND_HASH_LEN]), None), 0);
    transit.destination = peer.destination();
    transit.hops = 128;
    assert!(hear(&mut relay, IFACE, &transit, 1).is_empty());
    assert_eq!(relay.transport_counters().hop_limit_dropped, 1);
    transit.hops = 127;
    let carried = hear(&mut relay, IFACE, &transit, 2);
    assert!(matches!(carried.items(), [Action::Send { interface: 9, packet }] if packet.hops == 128));
    assert!(hear(&mut relay, IFACE, &transit, 3).is_empty(), "heard before");
    assert!(!hear(&mut relay, IFACE, &transit, 60_002).is_empty(), "a later retry goes");
}

#[test]
fn nothing_is_published_on_a_link_that_is_received_on() {
    let (_a, mut b, id) = linked();
    let offer = packet(PacketType::Data, id, 2, vec![0xCD; 48]);
    let ask = packet(PacketType::Data, id, 3, vec![1; 48]);
    b.ingest(IFACE, &offer, 0, &transfer(vec![ask], None, false));
    assert!(b.transfer_active(id), "it is receiving");
    let own = packet(PacketType::Data, id, 2, vec![2; 48]);
    assert!(b.publish(id, IFACE, own.clone(), 1).is_none());
    let last = packet(PacketType::Data, id, 1, vec![0xCD; 48]);
    b.ingest(IFACE, &last, 2, &transfer(vec![], Some(vec![9]), false));
    assert!(b.publish(id, IFACE, own, 3).is_some());
}
