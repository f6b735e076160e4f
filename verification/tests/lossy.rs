//! The loss model.

use retinue::lossy::LossModel;

fn run(seed: u64) -> Vec<bool> {
    let mut m = LossModel::new(seed).drop_per_mille(500);
    (0..64).map(|_| m.should_drop()).collect::<Vec<_>>()
}

#[test]
fn drop_model_is_deterministic() {
    // Same seed + same draw count => identical drop decisions. This is what makes a
    // reliability-layer failure reproduce exactly.
    assert_eq!(run(42), run(42), "same seed is reproducible");
    assert_ne!(run(42), run(43), "different seeds diverge");
}

#[test]
fn the_first_draw_of_seed_one_is_known() {
    // The first state of seed 1 is SplitMix64's first output, 0x910a2dec89025cc1.
    let x: u64 = 0x910a_2dec_8902_5cc1;
    let a = x ^ (x << 13);
    let b = a ^ (a >> 7);
    let drawn = b ^ (b << 17);
    let mut all = LossModel::new(1).max_delay_ms(u64::MAX);
    assert_eq!(all.delay_ms(), drawn);
    let mut some = LossModel::new(1).max_delay_ms(9);
    assert_eq!(some.delay_ms(), drawn % 10);
}

#[test]
fn a_lossless_model_passes_everything_at_once() {
    let mut m = LossModel::new(7);
    for _ in 0..100 {
        assert_eq!(m.fate(), Some(0));
    }
}

#[test]
fn a_model_that_drops_all_delivers_none() {
    let mut m = LossModel::new(7).drop_per_mille(5_000);
    for _ in 0..100 {
        assert!(m.should_drop());
    }
}

#[test]
fn delays_stay_within_their_bound_and_a_shorter_run_is_a_prefix() {
    let mut m = LossModel::new(9).drop_per_mille(300).max_delay_ms(40);
    let mut again = m.clone();
    let long: Vec<Option<u64>> = (0..200).map(|_| m.fate()).collect();
    let short: Vec<Option<u64>> = (0..50).map(|_| again.fate()).collect();
    assert_eq!(&long[..50], &short[..]);
    assert!(long.iter().any(|f| f.is_none()));
    assert!(long.iter().flatten().all(|d| *d <= 40));
}
