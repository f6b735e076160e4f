//! The endpoint: queues, routes, announces, and dispatch.

use retinue::announce_admission::{AnnounceAdmission, AnnounceIngressPolicy, DestinationVerdict};
use retinue::endpoint::policy::{QueueDepths, QueueWeights, TrafficClass};
use retinue::endpoint::queues::{Iface, OutboundQueues, QueueAdmission};
use retinue::packet::{DestinationType, HeaderType, Packet, PacketType, Propagation};
use retinue::AddressHash;

#[test]
fn ifac_overhead_counts_against_interface_frame_admission() {
    let queues = OutboundQueues::new(QueueWeights::default(), QueueDepths::default());
    let packet = Packet {
        ifac: false,
        header_type: HeaderType::Type1,
        context_flag: false,
        propagation: Propagation::Broadcast,
        destination_type: DestinationType::Plain,
        packet_type: PacketType::Data,
        hops: 0,
        transport: None,
        destination: AddressHash::from_bytes([0x51; 16]),
        context: 0,
        payload: b"frame admission".to_vec(),
    };
    let actual = packet.encoded_len() + 8;
    let mut interface = Iface {
        id: 1,
        outbound: queues,
        frame_limit: actual - 1,
        wire_overhead: 8,
    };

    assert_eq!(
        interface.push(packet, TrafficClass::Interactive),
        QueueAdmission::FrameLimit {
            actual,
            limit: actual - 1,
        }
    );
}

#[test]
fn destination_admission_preserves_the_one_second_default_floor() {
    let mut admission = AnnounceAdmission::new(AnnounceIngressPolicy::default());
    let a = AddressHash::from_bytes([0x01; 16]);
    let b = AddressHash::from_bytes([0x02; 16]);
    assert_eq!(
        admission.observe_destination(a, 0),
        DestinationVerdict::Relay
    );
    assert_eq!(
        admission.observe_destination(b, 0),
        DestinationVerdict::Relay
    );
    assert_eq!(
        admission.observe_destination(a, 1),
        DestinationVerdict::BlockRelay,
        "a fresh re-announce is not rebroadcast"
    );
    let c = AddressHash::from_bytes([0x03; 16]);
    assert_eq!(
        admission.observe_destination(c, 1),
        DestinationVerdict::Relay
    );
}
