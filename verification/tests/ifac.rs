//! Interface access codes.

use retinue::ifac::{ConfigError, DEFAULT_SIZE, MAX_SIZE, MIN_SIZE};
use retinue::packet::MTU;
use retinue::{Error, Ifac};

const LOGICAL: [u8; 39] = [
    0x08, 0x00, 0xc3, 0x42, 0x1c, 0x25, 0x4b, 0xb3, 0xb6, 0xe2, 0x5d, 0x80, 0x40, 0xf3, 0x95, 0xd9,
    0x60, 0xf9, 0x00, 0x72, 0x65, 0x74, 0x69, 0x6e, 0x75, 0x65, 0x2d, 0x69, 0x66, 0x61, 0x63, 0x2d,
    0x66, 0x69, 0x78, 0x74, 0x75, 0x72, 0x65,
];

fn oracle_ifac() -> Ifac {
    Ifac::new(Some("retinue-ifac"), Some("wire-compatibility"), 8).unwrap()
}

#[test]
fn wrong_credentials_and_mutation_are_rejected() {
    let wire = oracle_ifac().seal(&LOGICAL).unwrap();
    let wrong = Ifac::new(Some("retinue-ifac"), Some("wrong"), 8).unwrap();
    assert_eq!(wrong.open(&wire), Err(Error::BadIfac));

    let mut changed = wire.clone();
    *changed.last_mut().unwrap() ^= 1;
    assert_eq!(oracle_ifac().open(&changed), Err(Error::BadIfac));
}

#[test]
fn every_protocol_code_size_round_trips() {
    for size in MIN_SIZE..=MAX_SIZE {
        let ifac = Ifac::new(Some("private-ret"), None, size).unwrap();
        let wire = ifac.seal(&LOGICAL).unwrap();
        assert_eq!(wire.len(), LOGICAL.len() + size);
        assert_eq!(ifac.open(&wire).unwrap(), LOGICAL.to_vec());
    }
}

#[test]
fn credentials_and_size_are_required() {
    assert!(matches!(
        Ifac::new(None, None, DEFAULT_SIZE),
        Err(ConfigError::MissingCredentials)
    ));
    assert!(matches!(
        Ifac::new(Some("name"), None, 0),
        Err(ConfigError::InvalidSize)
    ));
    assert!(matches!(
        Ifac::new(Some("name"), None, MAX_SIZE + 1),
        Err(ConfigError::InvalidSize)
    ));
}

#[test]
fn oversized_logical_and_carrier_packets_are_rejected() {
    let ifac = oracle_ifac();
    assert_eq!(ifac.seal(&vec![0_u8; MTU + 1]), Err(Error::Oversize));
    assert_eq!(
        ifac.open(&vec![0_u8; MTU + ifac.size() + 1]),
        Err(Error::Oversize)
    );
}

/// The access code marks the frame, hides the packet, and leaves its hop byte readable only
/// through the mask: no byte string is its own sealed form.
#[test]
fn a_sealed_packet_differs_from_the_packet() {
    let ifac = oracle_ifac();
    let wire = ifac.seal(&LOGICAL).unwrap();
    assert_eq!(wire[0] & 0x80, 0x80);
    assert_ne!(wire[10..], LOGICAL[2..]);
    assert_eq!(ifac.open(&LOGICAL), Err(Error::BadIfac));
}
