//! Announce freshness.

use retinue::announce::{AnnounceBlob, ANNOUNCE_NONCE_LEN};
use retinue::announce_freshness::{
    AnnounceFreshness, AnnounceFreshnessAccept, AnnounceFreshnessCandidate,
    AnnounceFreshnessConfig, AnnounceFreshnessConfigError, AnnounceFreshnessDecision,
    AnnounceFreshnessReject, DestinationEntry, RetainedBlob,
};
use retinue::AddressHash;

fn dest_a() -> AddressHash {
    AddressHash::from_bytes([0xa1; 16])
}

fn dest_b() -> AddressHash {
    AddressHash::from_bytes([0xb2; 16])
}

fn dest_c() -> AddressHash {
    AddressHash::from_bytes([0xc3; 16])
}


fn blob(nonce: u8, timebase: u64) -> AnnounceBlob {
    AnnounceBlob::mint([nonce; ANNOUNCE_NONCE_LEN], timebase).expect("test timebase fits")
}

fn candidate(
    destination: AddressHash,
    nonce: u8,
    timebase: u64,
    hops: u8,
) -> AnnounceFreshnessCandidate {
    AnnounceFreshnessCandidate {
        destination,
        blob: blob(nonce, timebase),
        hops,
    }
}

fn table(
    destination_capacity: usize,
    blob_capacity: usize,
    retention_ticks: u64,
) -> AnnounceFreshness {
    AnnounceFreshness::new(AnnounceFreshnessConfig {
        destination_capacity,
        blob_capacity,
        retention_ticks,
    })
    .expect("nonzero capacities")
}

#[derive(Clone, Copy, Debug)]
enum TimebaseCase {
    Older,
    Equal,
    Newer,
}
#[derive(Clone, Copy, Debug)]
enum NonceCase {
    Same,
    New,
}
#[derive(Clone, Copy, Debug)]
enum HopCase {
    Better,
    Equal,
    Worse,
}
#[derive(Clone, Copy, Debug)]
enum Context {
    Ordinary,
    PathResponse,
}

#[test]
fn rejects_zero_capacities() {
    assert!(matches!(
        AnnounceFreshness::new(AnnounceFreshnessConfig {
            destination_capacity: 0,
            blob_capacity: 1,
            retention_ticks: 1,
        }),
        Err(AnnounceFreshnessConfigError::ZeroDestinationCapacity)
    ));
    assert!(matches!(
        AnnounceFreshness::new(AnnounceFreshnessConfig {
            destination_capacity: 1,
            blob_capacity: 0,
            retention_ticks: 1,
        }),
        Err(AnnounceFreshnessConfigError::ZeroBlobCapacity)
    ));
}

#[test]
fn evaluate_is_pure_until_the_caller_records() {
    let freshness = table(1, 2, 100);
    let input = candidate(dest_a(), 1, 10, 2);

    assert_eq!(
        freshness.evaluate(input, 1, 10),
        AnnounceFreshnessDecision::Accept(AnnounceFreshnessAccept::FirstSighting)
    );
    assert_eq!(
        freshness.evaluate(input, 1, 10),
        AnnounceFreshnessDecision::Accept(AnnounceFreshnessAccept::FirstSighting)
    );
}

#[test]
fn p8_decision_table_has_all_72_expected_model_cells() {
    let timebases = [
        (TimebaseCase::Older, 99),
        (TimebaseCase::Equal, 100),
        (TimebaseCase::Newer, 101),
    ];
    let nonces = [(NonceCase::Same, 1), (NonceCase::New, 2)];
    let hops = [
        (HopCase::Better, 4),
        (HopCase::Equal, 5),
        (HopCase::Worse, 6),
    ];
    // Context is intentionally not part of `AnnounceFreshnessCandidate`. Repeating the
    // model cell for both observed contexts pins that absence; Endpoint packet tests carry
    // the separate signed-packet evidence that context changes do not bypass admission.
    let contexts = [Context::Ordinary, Context::PathResponse];
    let route_states = [(false, 109_u64), (true, 110_u64)];
    let mut cells = 0;

    for (timebase_case, timebase) in timebases {
        for (nonce_case, nonce) in nonces {
            for (hop_case, candidate_hops) in hops {
                for context in contexts {
                    for (expired, now) in route_states {
                        let mut freshness = table(1, 8, 1_000);
                        freshness.record_accepted(candidate(dest_a(), 1, 100, 5), 100);
                        let input = candidate(dest_a(), nonce, timebase, candidate_hops);
                        let got = freshness.evaluate(input, now, 10);
                        let exact_replay = nonce == 1 && timebase == 100;
                        let expected = if exact_replay {
                            AnnounceFreshnessDecision::Reject(AnnounceFreshnessReject::Replay)
                        } else if timebase > 100 {
                            AnnounceFreshnessDecision::Accept(
                                AnnounceFreshnessAccept::NewerTimebase,
                            )
                        } else if expired && candidate_hops > 5 {
                            AnnounceFreshnessDecision::Accept(
                                AnnounceFreshnessAccept::ExpiredIncumbentWorseRoute,
                            )
                        } else {
                            AnnounceFreshnessDecision::Reject(
                                AnnounceFreshnessReject::StaleTimebase,
                            )
                        };
                        assert_eq!(
                            got, expected,
                            "timebase={timebase_case:?}, nonce={nonce_case:?}, hops={hop_case:?}, context={context:?}, expired={expired}"
                        );
                        cells += 1;
                    }
                }
            }
        }
    }
    assert_eq!(cells, 72);
}

#[test]
fn historical_replay_rejects_after_a_newer_incumbent() {
    let mut freshness = table(1, 4, 100);
    let first = candidate(dest_a(), 1, 10, 2);
    let newer = candidate(dest_a(), 2, 11, 2);
    freshness.record_accepted(first, 1);
    assert!(freshness.evaluate(newer, 2, 10).is_accepted());
    freshness.record_accepted(newer, 2);

    assert_eq!(
        freshness.evaluate(first, 3, 10),
        AnnounceFreshnessDecision::Reject(AnnounceFreshnessReject::Replay)
    );
}

#[test]
fn expired_worse_route_rollback_becomes_incumbent_and_keeps_history() {
    let mut freshness = table(1, 4, 100);
    let high = candidate(dest_a(), 1, 20, 2);
    let rollback = candidate(dest_a(), 2, 10, 3);
    freshness.record_accepted(high, 10);

    assert_eq!(
        freshness.evaluate(rollback, 20, 10),
        AnnounceFreshnessDecision::Accept(AnnounceFreshnessAccept::ExpiredIncumbentWorseRoute)
    );
    freshness.record_accepted(rollback, 20);
    assert_eq!(
        freshness.evaluate(high, 21, 10),
        AnnounceFreshnessDecision::Reject(AnnounceFreshnessReject::Replay)
    );
    assert_eq!(
        freshness.entries[0].incumbent.timebase, 10,
        "the accepted lower-timebase candidate is now incumbent"
    );
}

#[test]
fn retention_expiry_releases_a_destination_before_recording() {
    let mut freshness = table(1, 2, 5);
    let first = candidate(dest_a(), 1, 10, 2);
    freshness.record_accepted(first, 10);

    assert_eq!(
        freshness.evaluate(first, 15, 10),
        AnnounceFreshnessDecision::Accept(AnnounceFreshnessAccept::FirstSighting)
    );
    let record = freshness.record_accepted(first, 15);
    assert_eq!(record.expired_destinations, 1);
    assert!(record.inserted_destination);
}

#[test]
fn blob_capacity_evicts_the_oldest_accepted_blob() {
    let mut freshness = table(1, 2, 100);
    let first = candidate(dest_a(), 1, 1, 1);
    let second = candidate(dest_a(), 2, 2, 1);
    let third = candidate(dest_a(), 3, 3, 1);
    freshness.record_accepted(first, 1);
    freshness.record_accepted(second, 2);
    let record = freshness.record_accepted(third, 3);

    assert_eq!(record.evicted_blob, Some(first.blob));
    assert_eq!(freshness.entries[0].blobs.len(), 2);
    assert_eq!(freshness.entries[0].blobs[0].blob, second.blob);
    assert_eq!(freshness.entries[0].blobs[1].blob, third.blob);
}

#[test]
fn destination_capacity_evicts_the_oldest_accepted_row() {
    let mut freshness = table(2, 2, 100);
    freshness.record_accepted(candidate(dest_a(), 1, 1, 1), 1);
    freshness.record_accepted(candidate(dest_b(), 1, 1, 1), 2);
    let record = freshness.record_accepted(candidate(dest_c(), 1, 1, 1), 3);

    assert_eq!(record.evicted_destination, Some(dest_a()));
    assert_eq!(freshness.entries.len(), 2);
    assert_eq!(freshness.entries[0].destination, dest_b());
    assert_eq!(freshness.entries[1].destination, dest_c());
}

#[test]
fn reconfigure_keeps_valid_state_and_deterministically_trims_new_bounds() {
    let mut freshness = table(3, 3, 100);
    let first = candidate(dest_a(), 1, 1, 1);
    let second = candidate(dest_a(), 2, 2, 1);
    let third = candidate(dest_b(), 1, 1, 1);
    freshness.record_accepted(first, 1);
    freshness.record_accepted(second, 2);
    freshness.record_accepted(third, 3);

    let outcome = freshness
        .reconfigure(
            AnnounceFreshnessConfig {
                destination_capacity: 1,
                blob_capacity: 1,
                retention_ticks: 100,
            },
            4,
        )
        .expect("valid replacement bounds");
    assert_eq!(outcome.expired_destinations, 0);
    assert_eq!(outcome.expired_blobs, 0);
    assert_eq!(outcome.evicted_blobs, 1);
    assert_eq!(outcome.evicted_destinations, 1);
    assert_eq!(freshness.entries.len(), 1);
    assert_eq!(freshness.entries[0].destination, dest_b());

    let prior = freshness.config();
    assert_eq!(
        freshness.reconfigure(
            AnnounceFreshnessConfig {
                destination_capacity: 0,
                ..prior
            },
            4,
        ),
        Err(AnnounceFreshnessConfigError::ZeroDestinationCapacity)
    );
    assert_eq!(
        freshness.config(),
        prior,
        "invalid replacement leaves state intact"
    );
}

#[test]
fn reconfigure_reports_retention_expiry_separately_from_capacity_eviction() {
    let mut freshness = table(1, 3, 100);
    freshness.record_accepted(candidate(dest_a(), 1, 1, 1), 1);
    freshness.record_accepted(candidate(dest_a(), 2, 2, 1), 10);

    let outcome = freshness
        .reconfigure(
            AnnounceFreshnessConfig {
                destination_capacity: 1,
                blob_capacity: 3,
                retention_ticks: 5,
            },
            12,
        )
        .expect("valid replacement bounds");
    assert_eq!(outcome.expired_destinations, 0);
    assert_eq!(outcome.expired_blobs, 1);
    assert_eq!(outcome.evicted_blobs, 0);
    assert_eq!(outcome.evicted_destinations, 0);
}

fn logical_payload(destinations: usize, blobs_per_destination: usize) -> usize {
    core::mem::size_of::<AnnounceFreshness>()
        + destinations
            * (core::mem::size_of::<DestinationEntry>()
                + blobs_per_destination * core::mem::size_of::<RetainedBlob>())
}

#[test]
fn default_profiles_have_bounded_logical_state_payloads() {
    let board_32x8 = logical_payload(32, 8);
    let host_4096x16 = logical_payload(4_096, 16);

    // These are payload-only accounting bounds: the table and Vec headers plus every
    // retained element. Allocator metadata and spare capacity are allocator/target facts
    // and are deliberately not presented as a measured heap upper bound.
    assert!(
        board_32x8 <= 16 * 1024,
        "32x8 logical payload was {board_32x8} bytes"
    );
    assert!(
        host_4096x16 <= 2 * 1024 * 1024,
        "4096x16 logical payload was {host_4096x16} bytes"
    );
    assert_eq!(board_32x8, 8_760);
    assert_eq!(host_4096x16, 1_900_600);
}

#[test]
fn backwards_now_uses_saturating_arithmetic() {
    let mut freshness = table(1, 2, 100);
    freshness.record_accepted(candidate(dest_a(), 1, 100, 2), 100);

    assert_eq!(
        freshness.evaluate(candidate(dest_a(), 2, 99, 3), 1, 10),
        AnnounceFreshnessDecision::Reject(AnnounceFreshnessReject::StaleTimebase),
        "backwards now must not fabricate route expiry"
    );
    assert_eq!(
        freshness.evaluate(candidate(dest_a(), 1, 100, 2), 1, 10),
        AnnounceFreshnessDecision::Reject(AnnounceFreshnessReject::Replay),
        "backwards now must not discard retained history"
    );
}

#[test]
fn acceptance_order_rebases_before_counter_exhaustion() {
    let mut freshness = table(2, 2, 100);
    freshness.record_accepted(candidate(dest_a(), 1, 1, 1), 1);
    freshness.record_accepted(candidate(dest_b(), 1, 1, 1), 2);
    freshness.next_accept_order = u64::MAX;

    // Refresh B at the artificial rollover boundary. A must remain the oldest row and
    // therefore be the one displaced when C arrives.
    freshness.record_accepted(candidate(dest_b(), 2, 2, 1), 3);
    let record = freshness.record_accepted(candidate(dest_c(), 1, 1, 1), 4);
    assert_eq!(record.evicted_destination, Some(dest_a()));
}
