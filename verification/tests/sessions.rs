//! Payload sizing, link setup, transfers, requests, and frames.

use retinue::endpoint::sessions::{
    fetch_progress, packet_action, payload_mode, publish_progress, publish_readvertises,
    publish_timeout, setup_step, write_chunk_for_mtu, DeliveryAccount, FetchStep, Handover,
    Inbound, PacketAction, PayloadMode, PayloadWait, ReceiveStep, ResourceResponseStep,
    ResponseStep, ResponseWait, SetupEvent, SetupStep, TransferError,
};
use retinue::endpoint::wire::{encode_frame, open_frame, radio_frame, read_stream, RadioRefusal};
use retinue::iface::hdlc::{frame, Deframer};
use retinue::packet::{DestinationType, HeaderType, Packet, PacketType, Propagation};
use retinue::{AddressHash, DestinationName, Ifac, PrivateIdentity};

fn packet(packet_type: PacketType, context: u8) -> Packet {
    Packet {
        ifac: false,
        header_type: HeaderType::Type1,
        context_flag: false,
        propagation: Propagation::Broadcast,
        destination_type: DestinationType::Link,
        packet_type,
        hops: 0,
        transport: None,
        destination: AddressHash::from_bytes([9; 16]),
        context,
        payload: vec![0x5A; 32],
    }
}

#[test]
fn a_chunk_shrinks_with_its_mtu() {
    assert_eq!(write_chunk_for_mtu(500), 367);
    assert_eq!(write_chunk_for_mtu(255), 175);
    assert_eq!(write_chunk_for_mtu(83), 15);
    assert_eq!(write_chunk_for_mtu(82), 1);
    assert_eq!(write_chunk_for_mtu(0), 1);
    assert_eq!(write_chunk_for_mtu(u32::MAX), 367);
}

#[test]
fn a_payload_over_one_packet_is_a_resource() {
    assert_eq!(payload_mode(175, 255), PayloadMode::Data);
    assert_eq!(payload_mode(176, 255), PayloadMode::Resource);
}

#[test]
fn a_reliable_driver_sorts_its_packets() {
    let link = |packet_type, context| packet_action(&packet(packet_type, context));
    assert_eq!(link(PacketType::Proof, 0x0e), PacketAction::TakeProof);
    assert_eq!(link(PacketType::Data, 0x0e), PacketAction::TakeData);
    assert_eq!(link(PacketType::Data, 0xfb), PacketAction::TakeIdentify);
    assert_eq!(link(PacketType::Data, 0xfc), PacketAction::Close);
    assert_eq!(link(PacketType::Data, 0x00), PacketAction::Ignore);
}

#[test]
fn link_setup_activates_only_while_running() {
    assert_eq!(setup_step(SetupEvent::Proved, true), SetupStep::Activate);
    assert_eq!(setup_step(SetupEvent::Proved, false), SetupStep::CloseAndFail);
    assert_eq!(setup_step(SetupEvent::RetryDue, true), SetupStep::Resend);
    assert_eq!(setup_step(SetupEvent::Dropped, true), SetupStep::FailDropped);
    assert_eq!(setup_step(SetupEvent::DeadlinePassed, true), SetupStep::FailTimedOut);
    assert_eq!(setup_step(SetupEvent::EndpointClosed, false), SetupStep::FailClosed);
}

#[test]
fn a_publish_says_how_it_ended() {
    assert_eq!(publish_progress(true, true), Some(Ok(())));
    assert_eq!(publish_progress(false, true), Some(Err(TransferError::CanceledByReceiver)));
    assert_eq!(publish_progress(false, false), None);
    assert!(publish_readvertises(false));
    assert!(!publish_readvertises(true));
    assert_eq!(publish_timeout(3, true), TransferError::TimedOutServing { parts: 3 });
    assert_eq!(publish_timeout(0, true), TransferError::TimedOutUnmatched);
    assert_eq!(publish_timeout(0, false), TransferError::TimedOutUnrequested);
    assert_eq!(
        TransferError::TimedOutServing { parts: 120 }.message(),
        "resource publish timed out after serving 120 requested part(s)"
    );
    assert_eq!(TransferError::LinkClosed.message(), "resource link closed");
    assert_eq!(TransferError::RequestLinkClosed.message(), "request link closed");
    assert_eq!(
        TransferError::ResponseCanceled.message(),
        "response resource canceled by sender"
    );
}

#[test]
fn a_fetch_completes_or_is_canceled() {
    assert!(matches!(fetch_progress(Some(vec![1, 2]), true), FetchStep::Complete(d) if d == [1, 2]));
    assert!(matches!(
        fetch_progress(None, true),
        FetchStep::Fail(TransferError::CanceledBySender)
    ));
    assert!(matches!(fetch_progress(None, false), FetchStep::Continue));
}

#[test]
fn a_request_carries_the_identified_peer() {
    let peer = PrivateIdentity::from_secret_bytes(&[4; 64]).public().clone();
    let mut wait = PayloadWait { identified: None };
    let carried = packet(PacketType::Data, 0x09);
    assert!(wait.on_request_packet(&carried, Some(peer), Inbound::Other).is_none());
    let end = wait.on_request_packet(&carried, None, Inbound::Request(vec![7]));
    match end {
        Some(Ok(request)) => {
            assert_eq!(request.packed, [7]);
            assert_eq!(request.request_id, carried.hash());
            assert!(request.peer.is_some());
        }
        _ => panic!("a request ends the wait"),
    }
    assert!(matches!(
        wait.on_request_packet(&carried, None, Inbound::Close),
        Some(Err(TransferError::RequestLinkClosed))
    ));
    assert!(matches!(
        wait.on_packet(None, Inbound::Data(vec![8])),
        ReceiveStep::Deliver(d) if d == [8]
    ));
    assert!(matches!(wait.on_packet(None, Inbound::Close), ReceiveStep::Closed));
    assert!(matches!(wait.on_packet(None, Inbound::Other), ReceiveStep::HandToResource));
    assert!(matches!(wait.on_packet(Some(peer), Inbound::Close), ReceiveStep::Continue));
}

#[test]
fn a_response_answers_its_own_request() {
    let mine = AddressHash::from_bytes([1; 16]);
    let other = AddressHash::from_bytes([2; 16]);
    let wait = ResponseWait { request_id: mine };
    assert!(matches!(
        wait.on_packet(Inbound::Response(vec![5], Some(mine))),
        ResponseStep::Complete(r) if r.packed == [5] && r.request_id == mine
    ));
    assert!(matches!(
        wait.on_packet(Inbound::Response(vec![5], Some(other))),
        ResponseStep::HandToResource
    ));
    assert!(matches!(
        wait.on_packet(Inbound::Response(vec![5], None)),
        ResponseStep::Fail(TransferError::InvalidResponse)
    ));
    assert!(matches!(
        wait.on_packet(Inbound::Close),
        ResponseStep::Fail(TransferError::RequestLinkClosed)
    ));
    let data = || Some(vec![6]);
    assert!(matches!(
        wait.on_resource(data(), Some(mine), Some(mine), false),
        ResourceResponseStep::Complete(r) if r.packed == [6] && r.request_id == mine
    ));
    assert!(matches!(
        wait.on_resource(data(), Some(mine), Some(other), false),
        ResourceResponseStep::Fail(TransferError::RequestIdMismatch)
    ));
    assert!(matches!(
        wait.on_resource(data(), Some(other), None, false),
        ResourceResponseStep::Restart
    ));
    assert!(matches!(
        wait.on_resource(data(), None, None, false),
        ResourceResponseStep::Fail(TransferError::InvalidResource)
    ));
    assert!(matches!(
        wait.on_resource(None, None, None, true),
        ResourceResponseStep::Fail(TransferError::ResponseCanceled)
    ));
    assert!(matches!(
        wait.on_resource(None, None, None, false),
        ResourceResponseStep::Continue
    ));
}

#[test]
fn a_full_router_is_counted_and_a_gone_one_is_reported() {
    let mut account = DeliveryAccount { dropped: 0 };
    assert!(account.deliver(Handover::Taken));
    assert!(account.deliver(Handover::Full));
    assert!(!account.deliver(Handover::Gone));
    assert_eq!(account.dropped, 1);
}

#[test]
fn a_radio_refuses_a_frame_over_its_limit() {
    let packet = packet(PacketType::Data, 0);
    let frame = encode_frame(&None, &packet).unwrap();
    assert_eq!(frame.len(), 51);
    assert_eq!(radio_frame(&None, &packet, 51), Ok(frame));
    assert_eq!(
        radio_frame(&None, &packet, 50),
        Err(RadioRefusal::TooLong { len: 51, limit: 50 })
    );
}

#[test]
fn a_stream_yields_the_packets_that_authenticate() {
    let ifac = Some(Ifac::with_default_size(Some("net"), Some("pass")).unwrap());
    let first = packet(PacketType::Data, 1);
    let second = packet(PacketType::Data, 2);
    let mut wire = frame(&encode_frame(&ifac, &first).unwrap());
    wire.extend(frame(&encode_frame(&None, &second).unwrap()));
    wire.extend(frame(&encode_frame(&ifac, &second).unwrap()));
    let mut deframer = Deframer::new();
    let (head, tail) = wire.split_at(20);
    assert!(read_stream(&mut deframer, &ifac, head).is_empty());
    assert_eq!(read_stream(&mut deframer, &ifac, tail), [first.clone(), second]);
    assert_eq!(open_frame(&ifac, &encode_frame(&ifac, &first).unwrap()), Ok(first));
}

#[test]
fn the_path_request_destination_has_its_known_hash() {
    let name = DestinationName::new("rnstransport", &["path", "request"]);
    assert_eq!(name.plain_hash().to_hex(), "6b9f66014d9853faab220fba47d02761");
}
