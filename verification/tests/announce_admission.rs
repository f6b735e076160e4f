//! Announce admission.

use std::time::Duration;

use retinue::announce_admission::{
    AnnounceAdmission, AnnounceIngressPolicy, DestinationVerdict, InterfaceVerdict,
};
use retinue::AddressHash;

fn destination(byte: u8) -> AddressHash {
    AddressHash::from_bytes([byte; 16])
}

#[test]
fn noisy_interface_is_held_without_silencing_a_quiet_neighbor() {
    let mut admission = AnnounceAdmission::new(AnnounceIngressPolicy::default());
    for n in 0..2 {
        assert_eq!(
            admission.observe_interface(1, false, n * 100),
            InterfaceVerdict::Process
        );
    }
    assert!(matches!(
        admission.observe_interface(1, false, 200),
        InterfaceVerdict::Hold { .. }
    ));
    assert_eq!(
        admission.observe_interface(2, false, 300),
        InterfaceVerdict::Process
    );
}

#[test]
fn held_releases_after_the_penalty_when_the_interface_has_calmed() {
    let mut admission = AnnounceAdmission::new(AnnounceIngressPolicy::default());
    for n in 0..4 {
        let _ = admission.observe_interface(1, false, n * 100);
    }
    assert_eq!(admission.release_due(1, 14_999), Some(15_200));
    assert_eq!(admission.release_due(1, 15_200), Some(15_200));
    assert_eq!(admission.release_due(1, 15_201), Some(20_200));
}

#[test]
fn destination_violations_escalate_to_a_block_and_recover() {
    let policy = AnnounceIngressPolicy {
        destination_target: Duration::from_secs(10),
        destination_grace: 2,
        destination_penalty: Duration::from_secs(60),
        ..AnnounceIngressPolicy::default()
    };
    let mut admission = AnnounceAdmission::new(policy);
    assert_eq!(
        admission.observe_destination(destination(1), 0),
        DestinationVerdict::Relay
    );
    assert_eq!(
        admission.observe_destination(destination(1), 1_000),
        DestinationVerdict::Relay
    );
    assert_eq!(
        admission.observe_destination(destination(1), 2_000),
        DestinationVerdict::Relay
    );
    assert_eq!(
        admission.observe_destination(destination(1), 3_000),
        DestinationVerdict::BlockRelay
    );
    assert_eq!(
        admission.observe_destination(destination(1), 72_000),
        DestinationVerdict::Relay
    );
}

#[test]
fn the_least_recently_observed_interface_leaves() {
    let policy = AnnounceIngressPolicy {
        interface_capacity: 2,
        ..AnnounceIngressPolicy::default()
    };
    let mut a = AnnounceAdmission::new(policy);
    a.observe_interface(1, true, 0);
    a.observe_interface(2, true, 100);
    a.observe_interface(1, true, 200);
    a.observe_interface(3, true, 300);
    assert_eq!(a.counters(2).observed, 0);
    assert_eq!(a.counters(1).observed, 2);
    assert_eq!(a.counters(3).observed, 1);
    a.observe_interface(1, true, 400);
    a.set_policy(AnnounceIngressPolicy {
        interface_capacity: 1,
        ..policy
    });
    assert_eq!(a.counters(3).observed, 0);
    assert_eq!(a.counters(1).observed, 3);
}
