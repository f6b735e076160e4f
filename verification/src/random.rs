//! Randomness from the operating system.
//!
//! Link ephemeral secrets and initialization vectors depend on this being unpredictable: the
//! whole link's secrecy rests on the ephemeral key an eavesdropper must not be able to guess.

use vstd::prelude::*;

use crate::announce::ANNOUNCE_NONCE_LEN;

verus! {

/// The length of an initialization vector.
pub const IV_LEN: usize = 16;

/// The length of a link's ephemeral seed: an X25519 secret and an Ed25519 seed.
pub const EPHEMERAL_LEN: usize = 64;

/// The operating system's random source is not available.
#[derive(Clone, Copy, Debug, PartialEq, Eq, Structural)]
pub struct EntropyUnavailable;

/// `getrandom::getrandom` on a buffer of `N` bytes: the bytes, or nothing where the source
/// fails. Nothing is claimed of the bytes: they are drawn at random.
#[verifier::external_body]
fn fill_random<const N: usize>() -> (drawn: Option<[u8; N]>) {
    let mut bytes = [0u8; N];
    match getrandom::getrandom(&mut bytes) {
        Ok(()) => Some(bytes),
        Err(_) => None,
    }
}

/// `N` fresh random bytes. A failure to obtain entropy is an error rather than weak bytes.
pub fn random_bytes<const N: usize>() -> (result: Result<[u8; N], EntropyUnavailable>) {
    match fill_random::<N>() {
        Some(bytes) => Ok(bytes),
        None => Err(EntropyUnavailable),
    }
}

/// A fresh link ephemeral seed, unique and unpredictable per link.
pub fn ephemeral_seed() -> (result: Result<[u8; EPHEMERAL_LEN], EntropyUnavailable>) {
    random_bytes::<EPHEMERAL_LEN>()
}

/// A fresh initialization vector. It must be unpredictable per packet under a given link key.
pub fn next_iv() -> (result: Result<[u8; IV_LEN], EntropyUnavailable>) {
    random_bytes::<IV_LEN>()
}

/// A fresh nonce for an announce blob.
pub fn announce_nonce() -> (result: Result<[u8; ANNOUNCE_NONCE_LEN], EntropyUnavailable>) {
    random_bytes::<ANNOUNCE_NONCE_LEN>()
}

/// The number eight bytes spell, least significant byte first.
pub open spec fn le_value(bytes: Seq<u8>) -> nat
    decreases bytes.len(),
{
    if bytes.len() == 0 {
        0
    } else {
        bytes[0] as nat + 256 * le_value(bytes.subrange(1, bytes.len() as int))
    }
}

/// A delay in `0..=max` milliseconds, taken from eight random bytes; none where jitter is
/// off.
pub fn relay_jitter(max: u64, sample: [u8; 8]) -> (delay: u64)
    ensures
        delay <= max,
        delay as int == if max == 0 {
            0
        } else {
            le_value(sample@) as int % (max + 1)
        },
{
    if max == 0 {
        return 0;
    }
    let n: u64 = sample[0] as u64 + 0x100 * (sample[1] as u64) + 0x1_0000 * (sample[2] as u64)
        + 0x100_0000 * (sample[3] as u64) + 0x1_0000_0000 * (sample[4] as u64) + 0x100_0000_0000 * (
    sample[5] as u64) + 0x1_0000_0000_0000 * (sample[6] as u64) + 0x100_0000_0000_0000 * (
    sample[7] as u64);
    proof {
        reveal_with_fuel(le_value, 9);
        let s0 = sample@;
        let s1 = s0.subrange(1, 8);
        let s2 = s1.subrange(1, 7);
        let s3 = s2.subrange(1, 6);
        let s4 = s3.subrange(1, 5);
        let s5 = s4.subrange(1, 4);
        let s6 = s5.subrange(1, 3);
        let s7 = s6.subrange(1, 2);
        assert(s1[0] == s0[1] && s2[0] == s0[2] && s3[0] == s0[3] && s4[0] == s0[4] && s5[0]
            == s0[5] && s6[0] == s0[6] && s7[0] == s0[7]);
        assert(le_value(sample@) == n);
    }
    let most: u128 = max as u128 + 1;
    (n as u128 % most) as u64
}

} // verus!
