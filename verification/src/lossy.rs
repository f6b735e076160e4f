//! A deterministic packet loss / delay oracle for testing reliability without radio.
//!
//! Reliability machinery — link `Channel`/`Buffer`, resource windowing, retries and
//! cancellation, dynamic window sizing, part timeouts — earns its keep only on a medium that
//! drops, reorders, and delays. A loopback does none of that, so a green test there proves
//! nothing about the paths that matter.
//!
//! This is a **seeded, reproducible** loss model, so those paths run at a desk, before any
//! hardware exists. Same seed + same packet sequence yields the same drops and delays, so a
//! failure reproduces exactly.

use vstd::prelude::*;

verus! {

/// Where a mixed seed that came out as zero starts: also the step between seeds.
pub const GOLDEN_GAMMA: u64 = 0x9E37_79B9_7F4A_7C15;

/// The state of a loss model: what the next draw comes from, and how it is read.
pub struct LossState {
    pub state: u64,
    pub drop_per_mille: u32,
    pub max_delay_ms: u64,
}

/// Two multiply-and-fold rounds and a last fold: SplitMix64.
pub open spec fn split_mixed(seed: u64) -> u64 {
    let a = seed.wrapping_add(GOLDEN_GAMMA);
    let b = (a ^ (a >> 30)).wrapping_mul(0xBF58_476D_1CE4_E5B9);
    let c = (b ^ (b >> 27)).wrapping_mul(0x94D0_49BB_1331_11EB);
    c ^ (c >> 31)
}

/// The first state of a seed. Zero is the one fixed point of the shifts, so a seed that mixes
/// to it starts elsewhere.
pub open spec fn first_state(seed: u64) -> u64 {
    if split_mixed(seed) == 0 {
        GOLDEN_GAMMA
    } else {
        split_mixed(seed)
    }
}

/// The state after a draw, which is also what was drawn: xorshift64.
pub open spec fn next_state(x: u64) -> u64 {
    let a = x ^ (x << 13);
    let b = a ^ (a >> 7);
    b ^ (b << 17)
}

impl LossState {
    /// After a draw.
    pub open spec fn drawn(self) -> LossState {
        LossState { state: next_state(self.state), ..self }
    }

    /// Whether the next packet is dropped.
    pub open spec fn drops(self) -> bool {
        self.drop_per_mille != 0 && next_state(self.state) % 1000 < self.drop_per_mille
    }

    /// After it was asked whether the next packet is dropped. A model that drops none draws
    /// nothing.
    pub open spec fn after_drop(self) -> LossState {
        if self.drop_per_mille == 0 {
            self
        } else {
            self.drawn()
        }
    }

    /// The next delay.
    pub open spec fn delay(self) -> int {
        if self.max_delay_ms == 0 {
            0
        } else {
            next_state(self.state) as int % (self.max_delay_ms + 1)
        }
    }

    /// After it was asked for the next delay. A model that delays none draws nothing.
    pub open spec fn after_delay(self) -> LossState {
        if self.max_delay_ms == 0 {
            self
        } else {
            self.drawn()
        }
    }

    /// What happens to the next packet: dropped, or delivered after a delay.
    pub open spec fn fate(self) -> Option<int> {
        if self.drops() {
            None
        } else {
            Some(self.after_drop().delay())
        }
    }

    /// After the fate of a packet was drawn.
    pub open spec fn after_fate(self) -> LossState {
        if self.drops() {
            self.after_drop()
        } else {
            self.after_drop().after_delay()
        }
    }

    /// The fates of the next `n` packets.
    pub open spec fn fates(self, n: nat) -> Seq<Option<int>>
        decreases n,
    {
        if n == 0 {
            Seq::empty()
        } else {
            seq![self.fate()] + self.after_fate().fates((n - 1) as nat)
        }
    }
}

/// A seeded, deterministic loss model: a probability of dropping each packet and a bounded
/// random delay applied to those that survive.
///
/// Default is lossless (a faithful pass-through), so `LossModel::new(seed)` alone makes an
/// ordinary in-memory link — useful as the control.
#[derive(Clone)]
pub struct LossModel {
    state: u64,
    drop_per_mille: u32,
    max_delay_ms: u64,
}

impl View for LossModel {
    type V = LossState;

    closed spec fn view(&self) -> LossState {
        LossState {
            state: self.state,
            drop_per_mille: self.drop_per_mille,
            max_delay_ms: self.max_delay_ms,
        }
    }
}

impl LossModel {
    /// A lossless model with the given seed. Build loss onto it with the setters.
    pub fn new(seed: u64) -> (model: Self)
        ensures
            model@ == (LossState { state: first_state(seed), drop_per_mille: 0, max_delay_ms: 0 }),
    {
        // The mix decorrelates nearby seeds and never lands on the fixed point.
        LossModel { state: splitmix64(seed), drop_per_mille: 0, max_delay_ms: 0 }
    }

    /// Drop this many packets per thousand (clamped to 1000).
    pub fn drop_per_mille(self, per_mille: u32) -> (model: Self)
        ensures
            model@ == (LossState {
                drop_per_mille: if per_mille > 1000 {
                    1000
                } else {
                    per_mille
                },
                ..self@
            }),
    {
        LossModel {
            state: self.state,
            drop_per_mille: if per_mille > 1000 {
                1000
            } else {
                per_mille
            },
            max_delay_ms: self.max_delay_ms,
        }
    }

    /// Delay each *delivered* packet by a reproducible `0..=ms` milliseconds. Delay also
    /// reorders: a delayed packet arrives after later ones that were not.
    pub fn max_delay_ms(self, ms: u64) -> (model: Self)
        ensures
            model@ == (LossState { max_delay_ms: ms, ..self@ }),
    {
        LossModel { state: self.state, drop_per_mille: self.drop_per_mille, max_delay_ms: ms }
    }

    /// The next draw.
    fn next(&mut self) -> (x: u64)
        ensures
            x == next_state(old(self)@.state),
            final(self)@ == old(self)@.drawn(),
    {
        let mut x: u64 = self.state;
        x = x ^ (x << 13);
        x = x ^ (x >> 7);
        x = x ^ (x << 17);
        self.state = x;
        x
    }

    /// Whether the next packet is dropped. Advances the model.
    pub fn should_drop(&mut self) -> (dropped: bool)
        ensures
            dropped == old(self)@.drops(),
            final(self)@ == old(self)@.after_drop(),
    {
        self.drop_per_mille != 0 && (self.next() % 1000) < self.drop_per_mille as u64
    }

    /// The next delivery delay in milliseconds (0..=max). Advances the model. A caller on a
    /// virtual clock reads this as a tick count.
    pub fn delay_ms(&mut self) -> (delay: u64)
        ensures
            delay == old(self)@.delay(),
            final(self)@ == old(self)@.after_delay(),
    {
        if self.max_delay_ms == 0 {
            0
        } else {
            let most: u128 = self.max_delay_ms as u128 + 1;
            (self.next() as u128 % most) as u64
        }
    }

    /// What happens to the next packet: `None` if it is dropped, or the delay after which it is
    /// delivered.
    pub fn fate(&mut self) -> (fate: Option<u64>)
        ensures
            fate matches Some(delay) ==> old(self)@.fate() == Some(delay as int),
            fate is None ==> old(self)@.fate() is None,
            final(self)@ == old(self)@.after_fate(),
    {
        if self.should_drop() {
            None
        } else {
            Some(self.delay_ms())
        }
    }
}

/// Mix an arbitrary seed into a well-distributed, non-zero state.
fn splitmix64(seed: u64) -> (z: u64)
    ensures
        z == first_state(seed),
{
    let a: u64 = seed.wrapping_add(GOLDEN_GAMMA);
    let b: u64 = (a ^ (a >> 30)).wrapping_mul(0xBF58_476D_1CE4_E5B9);
    let c: u64 = (b ^ (b >> 27)).wrapping_mul(0x94D0_49BB_1331_11EB);
    let z: u64 = c ^ (c >> 31);
    if z == 0 {
        GOLDEN_GAMMA
    } else {
        z
    }
}

// ---------------------------------------------------------------------------------------
// Laws.
/// A model never gets stuck: no seed starts on zero, the one fixed point of the shifts, and no
/// draw leads to it.
pub proof fn law_state_is_never_zero(seed: u64, x: u64)
    ensures
        first_state(seed) != 0,
        x != 0 ==> next_state(x) != 0,
{
    let a = x ^ (x << 13);
    let b = a ^ (a >> 7);
    assert(x != 0 ==> x ^ (x << 13) != 0) by (bit_vector);
    assert(a != 0 ==> a ^ (a >> 7) != 0) by (bit_vector);
    assert(b != 0 ==> b ^ (b << 17) != 0) by (bit_vector);
}

/// Without loss every packet is delivered at once: the model is a faithful pass-through.
pub proof fn law_lossless_is_faithful(m: LossState, n: nat)
    requires
        m.drop_per_mille == 0,
        m.max_delay_ms == 0,
    ensures
        m.fates(n).len() == n,
        forall|i: int| 0 <= i < n ==> #[trigger] m.fates(n)[i] == Some(0int),
    decreases n,
{
    if n > 0 {
        law_lossless_is_faithful(m, (n - 1) as nat);
        let rest = m.fates((n - 1) as nat);
        assert forall|i: int| 0 <= i < n implies #[trigger] m.fates(n)[i] == Some(0int) by {
            if i > 0 {
                assert(m.fates(n)[i] == rest[i - 1]);
            }
        }
    }
}

/// Every delay is within the bound asked for, and a model that drops all delivers none.
pub proof fn law_fates_are_bounded(m: LossState)
    ensures
        m.fate() matches Some(delay) ==> 0 <= delay <= m.max_delay_ms,
        m.drop_per_mille >= 1000 ==> m.fate() is None,
{
}

/// A longer run of packets begins as a shorter one from the same state, so a failure reproduces
/// from its seed.
pub proof fn law_fates_reproduce(m: LossState, n: nat, k: nat)
    requires
        k <= n,
    ensures
        m.fates(n).len() == n,
        m.fates(n).subrange(0, k as int) == m.fates(k),
    decreases n,
{
    if k == 0 {
        assert(m.fates(n).subrange(0, 0) =~= m.fates(0));
        if n > 0 {
            law_fates_reproduce(m.after_fate(), (n - 1) as nat, 0);
        }
    } else {
        let next = m.after_fate();
        law_fates_reproduce(next, (n - 1) as nat, (k - 1) as nat);
        assert(m.fates(n).subrange(0, k as int) =~= seq![m.fate()] + next.fates(
            (n - 1) as nat,
        ).subrange(0, k - 1));
    }
}

/// Each draw decides one thing, in order: first whether the packet is dropped, by the draw's
/// remainder per thousand, and then, of one that is not, its delay, by the next draw's
/// remainder up to the bound. What is not asked for draws nothing.
pub proof fn law_draws_decide_the_fate(m: LossState)
    ensures
        ({
            let first = next_state(m.state);
            let second = next_state(first);
            let after = m.after_fate();
            let dropped = m.drop_per_mille > 0 && first % 1000 < m.drop_per_mille;
            &&& m.fate() is None <==> dropped
            &&& !dropped && m.max_delay_ms == 0 ==> m.fate() == Some(0int)
            &&& !dropped && m.max_delay_ms > 0 && m.drop_per_mille == 0 ==> m.fate() == Some(
                first as int % (m.max_delay_ms + 1),
            )
            &&& !dropped && m.max_delay_ms > 0 && m.drop_per_mille > 0 ==> m.fate() == Some(
                second as int % (m.max_delay_ms + 1),
            )
            &&& after.drop_per_mille == m.drop_per_mille
            &&& after.max_delay_ms == m.max_delay_ms
            &&& dropped ==> after.state == first
            &&& !dropped && m.drop_per_mille > 0 && m.max_delay_ms > 0 ==> after.state == second
            &&& !dropped && m.drop_per_mille > 0 && m.max_delay_ms == 0 ==> after.state == first
            &&& !dropped && m.drop_per_mille == 0 && m.max_delay_ms > 0 ==> after.state == first
            &&& m.drop_per_mille == 0 && m.max_delay_ms == 0 ==> after.state == m.state
        }),
{
}

/// The fates of several packets are drawn one after another.
pub proof fn law_fates_come_one_by_one(m: LossState, n: nat)
    requires
        n > 0,
    ensures
        m.fates(n).len() > 0,
        m.fates(n)[0] == m.fate(),
        m.fates(n).subrange(1, m.fates(n).len() as int) == m.after_fate().fates((n - 1) as nat),
{
    assert(m.fates(n).subrange(1, m.fates(n).len() as int) =~= m.after_fate().fates(
        (n - 1) as nat,
    ));
}

/// A draw is three shifts: thirteen up, seven down and seventeen up, each folded in. A seed is
/// mixed before it is used, so that near seeds start far apart.
pub proof fn law_draw_is_three_shifts(x: u64, seed: u64)
    ensures
        ({
            let a = x ^ (x << 13u64);
            let b = a ^ (a >> 7u64);
            next_state(x) == b ^ (b << 17u64)
        }),
        ({
            let a = seed.wrapping_add(0x9E37_79B9_7F4A_7C15u64);
            let b = (a ^ (a >> 30u64)).wrapping_mul(0xBF58_476D_1CE4_E5B9u64);
            let c = (b ^ (b >> 27u64)).wrapping_mul(0x94D0_49BB_1331_11EBu64);
            c ^ (c >> 31u64) != 0 ==> first_state(seed) == c ^ (c >> 31u64)
        }),
{
}

} // verus!
