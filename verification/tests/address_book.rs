//! The address book.

use retinue::address_book::{AddressBook, Ingested};
use retinue::announce::build;
use retinue::{AddressHash, Announce, DestinationName, PrivateIdentity};

/// A validated announce of one identity and name.
fn announce(ratchet: Option<[u8; 32]>, app_data: &[u8]) -> Announce {
    let identity = PrivateIdentity::from_secret_bytes(&[7u8; 64]);
    let name = DestinationName::new("retinue", &["book"]);
    let packet = build(&identity, name.name_hash(), &[3u8; 10], ratchet, app_data);
    Announce::decode(&packet).unwrap()
}

/// A full book keeps serving what it knows and refuses only new destinations, so a mesh
/// announcing more than this node budgeted for cannot displace established peers.
#[test]
fn a_full_book_refreshes_the_known_and_refuses_the_new() {
    let a = announce(None, b"retinue-r0-fixture");
    let mut book = AddressBook::with_max_peers(1);

    assert_eq!(book.ingest(&a), Ingested::Learned);
    assert!(book.is_full());

    // The same destination still refreshes, and its count still climbs.
    assert_eq!(book.ingest(&a), Ingested::Refreshed);
    assert_eq!(book.resolve(a.destination).unwrap().announces_seen, 2);
    assert_eq!(book.refused(), 0);

    // A different destination is refused, counted, and does not evict the known one.
    let mut other = announce(None, b"retinue-r0-fixture");
    other.destination = AddressHash::from_bytes([0x5A; 16]);
    assert_eq!(book.ingest(&other), Ingested::Refused);
    assert_eq!(book.refused(), 1);
    assert_eq!(book.len(), 1);
    assert!(book.knows(a.destination), "the established peer survives");
    assert!(!book.knows(other.destination));
}

#[test]
fn ingest_and_resolve_a_real_announce() {
    let a = announce(None, b"retinue-r0-fixture");
    let mut book = AddressBook::new();
    assert!(!book.knows(a.destination));
    book.ingest(&a);

    let peer = book.resolve(a.destination).expect("resolved");
    assert_eq!(peer.identity.hash(), a.identity.hash());
    assert_eq!(peer.app_data, b"retinue-r0-fixture");
    assert_eq!(peer.announces_seen, 1);
    assert!(peer.ratchet.is_none());
}

#[test]
fn a_ratcheted_announce_carries_its_ratchet() {
    let a = announce(Some([9u8; 32]), b"");
    let mut book = AddressBook::new();
    book.ingest(&a);
    assert_eq!(book.resolve(a.destination).unwrap().ratchet, Some([9u8; 32]));
}

#[test]
fn re_ingesting_refreshes_rather_than_duplicates() {
    let plain = announce(None, b"");
    let with_data = announce(None, b"retinue-r0-fixture");
    // Same identity and name, so same destination hash.
    assert_eq!(plain.destination, with_data.destination);

    let mut book = AddressBook::new();
    book.ingest(&plain);
    book.ingest(&with_data);
    assert_eq!(book.len(), 1);
    let peer = book.resolve(plain.destination).unwrap();
    assert_eq!(peer.announces_seen, 2);
    assert_eq!(peer.app_data, b"retinue-r0-fixture"); // the later one won
}
