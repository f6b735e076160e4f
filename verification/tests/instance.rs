//! A node that can be absent.

use retinue::announce::{AnnounceBlob, RAND_HASH_LEN};
use retinue::instance::{Instance, InstanceError};
use retinue::node::{
    InterruptionPermission, LinkReading, Node, PauseBlocked, Redrive, LINK_IDLE_TIMEOUT,
};
use retinue::packet::{DestinationType, HeaderType, Packet, PacketType, Propagation};
use retinue::{AddressHash, DestinationName, PrivateIdentity};

type Board = Node<32, 8, 4, 16>;

fn node(seed: u8, aspect: &str) -> Board {
    Node::new(
        PrivateIdentity::from_secret_bytes(&[seed; 64]),
        DestinationName::new("retinue", &[aspect]).name_hash(),
    )
}

fn packet(packet_type: PacketType, destination: AddressHash) -> Packet {
    Packet {
        ifac: false,
        header_type: HeaderType::Type1,
        context_flag: false,
        propagation: Propagation::Broadcast,
        destination_type: DestinationType::Single,
        packet_type,
        hops: 0,
        transport: None,
        destination,
        context: 0,
        payload: vec![0x31; 64],
    }
}

fn linked_at(now: u64) -> (Board, AddressHash) {
    let mut a = node(0x11, "instance-a");
    let b = node(0x22, "instance-b");
    a.ingest(
        0,
        &b.announce(&AnnounceBlob::from_wire([2; RAND_HASH_LEN]), None),
        now,
        &LinkReading::none(),
    );
    let request = packet(PacketType::LinkRequest, b.destination());
    let id = request.hash();
    assert!(a.open_link(b.destination(), 0, id, request).is_some());
    let proof = packet(PacketType::Proof, id);
    let reading = LinkReading {
        proved: Some(id),
        ..LinkReading::none()
    };
    a.ingest(0, &proof, now, &reading);
    assert!(a.has_link(id), "link comes up");
    (a, id)
}

#[test]
fn pause_retains_live_links_and_resume_does_not_reset_their_clock() {
    let (node, id) = linked_at(100);
    let mut instance = Instance::new(node, 100);
    let return_by = 100 + LINK_IDLE_TIMEOUT - 1;

    assert!(matches!(
        instance.pause(100, return_by, InterruptionPermission::PreserveSessions),
        Ok(None)
    ));
    assert!(instance.is_paused());
    assert_eq!(instance.node().link_count(), 1);
    assert!(matches!(
        instance.poll(101, None, &Redrive::none()),
        Err(InstanceError::Paused)
    ));
    assert!(instance.advance(return_by).unwrap().links.is_empty());
    assert!(instance.node().has_link(id));
    assert!(instance.resume(return_by).unwrap().links.is_empty());
    assert!(!instance.is_paused());
    assert_eq!(
        instance.node().pause_assessment().earliest_link_expiry,
        Some(100 + LINK_IDLE_TIMEOUT)
    );
}

#[test]
fn invalid_lifecycle_requests_do_not_advance_the_clock() {
    let mut instance = Instance::new(node(0x33, "lifecycle"), 0);
    assert!(matches!(instance.resume(10), Err(InstanceError::NotPaused)));
    assert!(instance.advance(0).is_ok());
    assert!(matches!(
        instance.pause(0, 0, InterruptionPermission::PreserveSessions),
        Ok(None)
    ));
    assert!(matches!(
        instance.pause(10, 10, InterruptionPermission::PreserveSessions),
        Err(InstanceError::AlreadyPaused)
    ));
    assert!(instance.resume(0).is_ok());
}

#[test]
fn forced_loss_cannot_bypass_an_untrusted_link_clock_or_expiry_overflow() {
    let (node, id) = linked_at(1_000);
    let mut clock_before_activity = Instance::new(node, 0);
    assert!(matches!(
        clock_before_activity.pause(0, 100, InterruptionPermission::AllowSessionLoss),
        Err(InstanceError::PauseBlocked(
            PauseBlocked::ClockBeforeLinkActivity {
                now: 0,
                latest_activity: 1_000
            }
        ))
    ));
    assert!(clock_before_activity.node().has_link(id));
    assert!(!clock_before_activity.is_paused());

    let (node, id) = linked_at(u64::MAX);
    let mut overflow = Instance::new(node, u64::MAX);
    assert!(matches!(
        overflow.pause(u64::MAX, u64::MAX, InterruptionPermission::AllowSessionLoss),
        Err(InstanceError::PauseBlocked(
            PauseBlocked::LinkExpiryOverflow
        ))
    ));
    assert!(overflow.node().has_link(id));
    assert!(!overflow.is_paused());
}

#[test]
fn a_long_absence_needs_leave_to_lose_sessions() {
    let (node, id) = linked_at(100);
    let mut instance = Instance::new(node, 100);
    let return_by = 100 + LINK_IDLE_TIMEOUT;
    assert!(matches!(
        instance.assess_pause(100, return_by),
        Err(InstanceError::PauseBlocked(
            PauseBlocked::LinkExpiresBeforeReturn { .. }
        ))
    ));
    assert!(matches!(
        instance.pause(100, return_by, InterruptionPermission::PreserveSessions),
        Err(InstanceError::PauseBlocked(
            PauseBlocked::LinkExpiresBeforeReturn { .. }
        ))
    ));
    assert!(matches!(
        instance.pause(100, 99, InterruptionPermission::AllowSessionLoss),
        Err(InstanceError::PauseBlocked(
            PauseBlocked::ReturnBoundBeforeNow {
                now: 100,
                return_by: 99
            }
        ))
    ));
    let report = instance
        .pause(100, return_by, InterruptionPermission::AllowSessionLoss)
        .unwrap()
        .unwrap();
    assert_eq!(report.links, vec![id]);
    assert_eq!(instance.node().link_count(), 0);
}

#[test]
fn an_idle_link_is_reported_when_time_passes() {
    let (node, id) = linked_at(100);
    let mut instance = Instance::new(node, 100);
    let report = instance.advance(100 + LINK_IDLE_TIMEOUT).unwrap();
    assert_eq!(report.links, vec![id]);
    assert_eq!(instance.node().expired_links(), 1);
    assert!(matches!(
        instance.advance(5),
        Err(InstanceError::ClockRegression)
    ));
}

#[test]
fn work_goes_through_only_while_active() {
    let (node, id) = linked_at(100);
    let mut instance = Instance::new(node, 100);
    let data = packet(PacketType::Data, id);
    assert!(instance.send(101, id, data.clone()).unwrap().is_some());
    assert!(matches!(
        instance.send(100, id, data.clone()),
        Err(InstanceError::ClockRegression)
    ));
    assert!(instance.publish(102, id, data.clone()).unwrap().is_some());
    assert!(instance.publish(103, id, data.clone()).unwrap().is_none());
    assert!(instance
        .ingest(104, &data, &LinkReading::none())
        .unwrap()
        .is_empty());
    let stranger = AddressHash::from_bytes([3; 16]);
    let request = packet(PacketType::LinkRequest, stranger);
    assert!(instance
        .open_link(105, stranger, request.hash(), request)
        .unwrap()
        .is_none());
}

#[test]
fn an_interruption_reports_the_links_that_waited() {
    let (mut node, id) = linked_at(100);
    let peer = DestinationName::new("retinue", &["instance-b"])
        .destination_hash(PrivateIdentity::from_secret_bytes(&[0x22; 64]).public());
    let waiting = AddressHash::from_bytes([7; 16]);
    let request = packet(PacketType::LinkRequest, peer);
    assert!(node.open_link(peer, 0, waiting, request).is_some());
    let mut instance = Instance::new(node, 100);
    let report = instance
        .pause(
            100,
            100 + LINK_IDLE_TIMEOUT,
            InterruptionPermission::AllowSessionLoss,
        )
        .unwrap()
        .unwrap();
    assert_eq!(report.links, vec![id]);
    assert_eq!(report.pending, vec![waiting]);
}
