//! Announce blobs and ordinals.

use retinue::announce::{
    build, AnnounceBlob, TimebaseError, TimebaseGenerator, ANNOUNCE_NONCE_LEN,
    ANNOUNCE_TIMEBASE_MAX,
};
use retinue::packet::PacketType;
use retinue::{AddressHash, Announce, DestinationName, Error, PrivateIdentity};

#[test]
fn minted_blob_writes_nonce_then_big_endian_timebase() {
    let blob = AnnounceBlob::mint([0xa1, 0xb2, 0xc3, 0xd4, 0xe5], 0x01_02_03_04_05)
        .expect("40-bit timebase");

    assert_eq!(
        blob.into_bytes(),
        [0xa1, 0xb2, 0xc3, 0xd4, 0xe5, 0x01, 0x02, 0x03, 0x04, 0x05]
    );
}

#[test]
fn ordinal_advances_within_one_source_second() {
    let mut generator = TimebaseGenerator::host(41).expect("valid host ceiling");

    assert_eq!(generator.next(42), Ok(42));
    assert_eq!(generator.next(42), Ok(43));
    assert_eq!(generator.last_emitted(), 43);
}

#[test]
fn ordinal_does_not_regress_when_source_clock_moves_back() {
    let mut generator = TimebaseGenerator::host(100).expect("valid host ceiling");

    assert_eq!(generator.next(3), Ok(101));
    assert_eq!(generator.last_emitted(), 101);
}

#[test]
fn firmware_lease_refuses_an_unreserved_ordinal() {
    let mut generator = TimebaseGenerator::firmware_lease(10, 11).expect("valid lease");

    assert_eq!(generator.next(0), Ok(11));
    assert_eq!(generator.next(0), Err(TimebaseError::Exhausted));
    assert_eq!(generator.last_emitted(), 11);
}

#[test]
fn forty_bit_maximum_is_the_last_mintable_and_emittable_value() {
    let blob = AnnounceBlob::mint([0; ANNOUNCE_NONCE_LEN], ANNOUNCE_TIMEBASE_MAX)
        .expect("40-bit maximum fits");
    assert_eq!(blob.timebase(), ANNOUNCE_TIMEBASE_MAX);
    assert_eq!(
        AnnounceBlob::mint([0; ANNOUNCE_NONCE_LEN], ANNOUNCE_TIMEBASE_MAX + 1),
        Err(TimebaseError::OutOfRange)
    );

    let mut generator = TimebaseGenerator::host(ANNOUNCE_TIMEBASE_MAX)
        .expect("maximum is a valid restored value");
    assert_eq!(
        generator.next(ANNOUNCE_TIMEBASE_MAX),
        Err(TimebaseError::Exhausted)
    );
}

#[test]
fn decoded_fixture_blob_round_trips_without_reminting() {
    let wire = [0xf2, 0xd0, 0x91, 0xf8, 0x87, 0x00, 0x6a, 0x55, 0xa7, 0x8a];
    let decoded = AnnounceBlob::from_wire(wire);

    assert_eq!(decoded.nonce(), [0xf2, 0xd0, 0x91, 0xf8, 0x87]);
    assert_eq!(decoded.timebase(), 0x00_6a_55_a7_8a);
    assert_eq!(decoded.into_bytes(), wire);
}

#[test]
fn what_is_announced_is_heard_and_cannot_be_redirected() {
    let identity = PrivateIdentity::from_secret_bytes(&[0x21; 64]);
    let name = DestinationName::new("retinue", &["heard"]);
    let sent = build(
        &identity,
        name.name_hash(),
        &[5; 10],
        Some([6; 32]),
        b"hello",
    );
    let heard = Announce::decode(&sent).expect("a built announce verifies");
    assert_eq!(heard.identity.hash(), identity.hash());
    assert_eq!(heard.destination, name.destination_hash(identity.public()));
    assert_eq!(heard.rand_hash, [5; 10]);
    assert_eq!(heard.ratchet, Some([6; 32]));
    assert_eq!(heard.app_data, b"hello");
    assert!(sent.context_flag);

    let mut redirected = sent.clone();
    redirected.destination = AddressHash::from_bytes([9; 16]);
    assert_eq!(Announce::decode(&redirected).err(), Some(Error::BadSignature));
    let mut disguised = sent;
    disguised.packet_type = PacketType::Data;
    assert_eq!(Announce::decode(&disguised).err(), Some(Error::NotAnAnnounce));
}
