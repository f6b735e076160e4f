//! Bounded, attributed announce-ingress pressure state.
//!
//! This is deliberately separate from packet routing. It records rate facts and returns a
//! verdict; the endpoint owns verified packets, deferred storage, and relay.

use std::time::Duration;
use vstd::prelude::*;

use crate::hash::AddressHash;
use crate::table::{
    age, elapsed, is_trimmed_to, lemma_has_first_oldest, made_room, AddressTable, Stamped, Table,
};
use crate::time::{duration_ms, span_ms, whole_millis};

verus! {

/// Interface-local burst and held-announce policy.
#[derive(Clone, Copy, Debug, PartialEq, Eq)]
pub struct AnnounceIngressPolicy {
    /// Whether unknown-destination announces may be held during an interface burst.
    pub enabled: bool,
    /// Number of interface rows retained. Least-recently-observed rows are evicted first.
    pub interface_capacity: usize,
    /// Number of destination rate rows retained. Least-recently-allowed rows are evicted first.
    pub destination_capacity: usize,
    /// Maximum verified announcements waiting for an interface burst to subside.
    pub held_capacity: usize,
    /// An interface is new, and therefore judged at the stricter rate, for this long.
    pub new_interface_age: Duration,
    /// Burst threshold for a new interface.
    pub new_interface_hz: u64,
    /// Burst threshold once an interface has aged past its newness.
    pub established_interface_hz: u64,
    /// Duration of the rate observation window.
    pub frequency_window: Duration,
    /// Minimum time a burst remains latched.
    pub burst_hold: Duration,
    /// Initial delay before a held announce may be released.
    pub burst_penalty: Duration,
    /// Minimum separation between held-announcement releases on one interface.
    pub held_release_interval: Duration,
    /// Minimum normal interval between announcements for one destination.
    pub destination_target: Duration,
    /// Number of fast destination announcements allowed before a block latches.
    pub destination_grace: u16,
    /// Extra block time after a destination exceeds its grace.
    pub destination_penalty: Duration,
}

impl AnnounceIngressPolicy {
    /// Whether this is the policy an endpoint starts with.
    pub open spec fn is_standard(self) -> bool {
        &&& self.enabled
        &&& self.interface_capacity == 256
        &&& self.destination_capacity == 4_096
        &&& self.held_capacity == 256
        &&& whole_millis(self.new_interface_age) == 7_200_000
        &&& self.new_interface_hz == 3
        &&& self.established_interface_hz == 10
        &&& whole_millis(self.frequency_window) == 10_000
        &&& whole_millis(self.burst_hold) == 15_000
        &&& whole_millis(self.burst_penalty) == 15_000
        &&& whole_millis(self.held_release_interval) == 5_000
        &&& whole_millis(self.destination_target) == 1_000
        &&& self.destination_grace == 0
        &&& whole_millis(self.destination_penalty) == 0
    }
}

impl Default for AnnounceIngressPolicy {
    fn default() -> (policy: Self)
        ensures
            policy.is_standard(),
    {
        AnnounceIngressPolicy {
            enabled: true,
            interface_capacity: 256,
            destination_capacity: 4_096,
            held_capacity: 256,
            new_interface_age: Duration::from_secs(7_200),
            new_interface_hz: 3,
            established_interface_hz: 10,
            frequency_window: Duration::from_secs(10),
            burst_hold: Duration::from_secs(15),
            burst_penalty: Duration::from_secs(15),
            held_release_interval: Duration::from_secs(5),
            destination_target: Duration::from_secs(1),
            destination_grace: 0,
            destination_penalty: Duration::from_secs(0),
        }
    }
}

/// The endpoint-visible accounting for one incoming interface.
#[derive(Clone, Copy, Debug, PartialEq, Eq, Structural)]
pub struct AnnounceIngressCounters {
    /// Verified announce packets observed from this interface.
    pub observed: u64,
    /// Unknown-route announces retained while this interface was bursting.
    pub held: u64,
    /// Held announces released back to the router.
    pub released: u64,
    /// Verified announces dropped because the bounded held queue was full.
    pub held_dropped: u64,
}

/// Nothing counted yet.
pub open spec fn no_counts() -> AnnounceIngressCounters {
    AnnounceIngressCounters { observed: 0, held: 0, released: 0, held_dropped: 0 }
}

impl Default for AnnounceIngressCounters {
    fn default() -> (counters: Self)
        ensures
            counters == no_counts(),
    {
        AnnounceIngressCounters { observed: 0, held: 0, released: 0, held_dropped: 0 }
    }
}

/// What to do with a verified announce that came in over an interface.
#[derive(Clone, Copy, Debug, PartialEq, Eq, Structural)]
pub enum InterfaceVerdict {
    /// Process it now.
    Process,
    /// Keep it until the interface has calmed, and look again at this time.
    Hold { release_at_ms: u64 },
}

/// Whether an announce for a destination may be relayed.
#[derive(Clone, Copy, Debug, PartialEq, Eq, Structural)]
pub enum DestinationVerdict {
    /// Relay it.
    Relay,
    /// Do not relay it.
    BlockRelay,
}

/// Whether an interface is in a burst.
#[derive(Clone, Copy, Debug, PartialEq, Eq, Structural)]
pub enum Burst {
    /// It is not.
    Calm,
    /// It is, since this time.
    Latched { since_ms: u64 },
}

/// What is remembered of an interface.
#[derive(Clone, Copy, Debug, PartialEq, Eq, Structural)]
pub struct InterfaceState {
    pub attached_at_ms: u64,
    /// When an announce was last heard on it, or it was attached.
    pub last_observed_at_ms: u64,
    pub window_started_at_ms: u64,
    pub window_count: u16,
    pub burst: Burst,
    pub next_held_release_at_ms: u64,
    pub counters: AnnounceIngressCounters,
}

impl Stamped for InterfaceState {
    open spec fn stamped_at(self) -> u64 {
        self.last_observed_at_ms
    }

    fn stamp(&self) -> (at: u64) {
        self.last_observed_at_ms
    }
}

/// What is remembered of a destination.
#[derive(Clone, Copy, Debug, PartialEq, Eq, Structural)]
pub struct DestinationState {
    pub last_allowed_at_ms: u64,
    pub blocked_until_ms: u64,
    pub rate_violations: u16,
}

impl Stamped for DestinationState {
    open spec fn stamped_at(self) -> u64 {
        self.last_allowed_at_ms
    }

    fn stamp(&self) -> (at: u64) {
        self.last_allowed_at_ms
    }
}

/// How an interface's announce rate compares to its threshold.
#[derive(Clone, Copy, Debug, PartialEq, Eq, Structural)]
pub enum RateReading {
    Under,
    At,
    Over,
}

/// A sum, as far as 64 bits hold it.
pub open spec fn later(at: u64, by: u64) -> u64 {
    if at + by <= u64::MAX {
        (at + by) as u64
    } else {
        u64::MAX
    }
}

/// A count one higher, as far as its type holds it.
pub open spec fn bumped(n: u64) -> u64 {
    if n < u64::MAX {
        (n + 1) as u64
    } else {
        n
    }
}

/// The threshold an interface is judged at.
pub open spec fn limit_hz(row: InterfaceState, now_ms: u64, policy: AnnounceIngressPolicy) -> u64 {
    if age(now_ms, row.attached_at_ms) < span_ms(policy.new_interface_age) {
        policy.new_interface_hz
    } else {
        policy.established_interface_hz
    }
}

/// An interface's rate: announces in the window per second, against the threshold. Fewer
/// than three announces are no rate, and neither is a window without length.
pub open spec fn rate_of(
    row: InterfaceState,
    now_ms: u64,
    policy: AnnounceIngressPolicy,
) -> RateReading {
    let limit = limit_hz(row, now_ms, policy);
    let gone = age(now_ms, row.window_started_at_ms);
    if row.window_count < 3 || gone == 0 || limit == 0 {
        RateReading::Under
    } else if row.window_count * 1_000 < limit * gone {
        RateReading::Under
    } else if row.window_count * 1_000 == limit * gone {
        RateReading::At
    } else {
        RateReading::Over
    }
}

/// An interface nothing has been heard on.
pub open spec fn new_interface(now_ms: u64) -> InterfaceState {
    InterfaceState {
        attached_at_ms: now_ms,
        last_observed_at_ms: now_ms,
        window_started_at_ms: now_ms,
        window_count: 0,
        burst: Burst::Calm,
        next_held_release_at_ms: now_ms,
        counters: no_counts(),
    }
}

/// An interface with one more announce counted, in a new window if the old one is over.
pub open spec fn heard_one(
    row: InterfaceState,
    now_ms: u64,
    policy: AnnounceIngressPolicy,
) -> InterfaceState {
    let starts = row.window_count == 0 || age(now_ms, row.window_started_at_ms) >= span_ms(
        policy.frequency_window,
    );
    InterfaceState {
        last_observed_at_ms: now_ms,
        window_started_at_ms: if starts {
            now_ms
        } else {
            row.window_started_at_ms
        },
        window_count: if starts {
            1
        } else if row.window_count < u16::MAX {
            (row.window_count + 1) as u16
        } else {
            row.window_count
        },
        counters: AnnounceIngressCounters {
            observed: bumped(row.counters.observed),
            ..row.counters
        },
        ..row
    }
}

/// Whether a latched burst may end: it has been held long enough and the window has more
/// than one announce in it.
pub open spec fn may_calm(
    row: InterfaceState,
    since_ms: u64,
    now_ms: u64,
    policy: AnnounceIngressPolicy,
) -> bool {
    now_ms >= later(since_ms, span_ms(policy.burst_hold)) && row.window_count >= 2
}

/// What is decided of an announce that was just counted, and the interface after that.
pub open spec fn judged(
    row: InterfaceState,
    route_is_known: bool,
    now_ms: u64,
    policy: AnnounceIngressPolicy,
) -> (InterfaceState, InterfaceVerdict) {
    let rate = rate_of(row, now_ms, policy);
    if !policy.enabled || route_is_known {
        (row, InterfaceVerdict::Process)
    } else {
        match row.burst {
            Burst::Calm => if rate == RateReading::Over {
                let release_at_ms = later(now_ms, span_ms(policy.burst_penalty));
                (
                    InterfaceState {
                        burst: Burst::Latched { since_ms: now_ms },
                        next_held_release_at_ms: release_at_ms,
                        ..row
                    },
                    InterfaceVerdict::Hold { release_at_ms },
                )
            } else {
                (row, InterfaceVerdict::Process)
            },
            Burst::Latched { since_ms } => (
                if rate == RateReading::Under && may_calm(row, since_ms, now_ms, policy) {
                    InterfaceState { burst: Burst::Calm, ..row }
                } else {
                    row
                },
                InterfaceVerdict::Hold { release_at_ms: row.next_held_release_at_ms },
            ),
        }
    }
}

/// When to look at an interface's held announces, and the interface after that. A time that
/// is `now_ms` means that one may be released now.
pub open spec fn release_of(
    row: InterfaceState,
    now_ms: u64,
    policy: AnnounceIngressPolicy,
) -> (InterfaceState, u64) {
    let again = later(now_ms, span_ms(policy.held_release_interval));
    if now_ms < row.next_held_release_at_ms {
        (row, row.next_held_release_at_ms)
    } else if rate_of(row, now_ms, policy) != RateReading::Under {
        (row, again)
    } else {
        (
            InterfaceState {
                burst: match row.burst {
                    Burst::Latched { since_ms } => if may_calm(row, since_ms, now_ms, policy) {
                        Burst::Calm
                    } else {
                        row.burst
                    },
                    Burst::Calm => Burst::Calm,
                },
                next_held_release_at_ms: again,
                ..row
            },
            now_ms,
        )
    }
}

/// What is decided of relaying an announce for a known destination, and its row after that.
pub open spec fn paced(
    row: DestinationState,
    now_ms: u64,
    policy: AnnounceIngressPolicy,
) -> (DestinationState, DestinationVerdict) {
    let target = span_ms(policy.destination_target);
    let violations: u16 = if age(now_ms, row.last_allowed_at_ms) < target {
        if row.rate_violations < u16::MAX {
            (row.rate_violations + 1) as u16
        } else {
            row.rate_violations
        }
    } else if row.rate_violations > 0 {
        (row.rate_violations - 1) as u16
    } else {
        0
    };
    if now_ms < row.blocked_until_ms {
        (row, DestinationVerdict::BlockRelay)
    } else if violations > policy.destination_grace {
        (
            DestinationState {
                rate_violations: violations,
                blocked_until_ms: later(
                    later(row.last_allowed_at_ms, target),
                    span_ms(policy.destination_penalty),
                ),
                ..row
            },
            DestinationVerdict::BlockRelay,
        )
    } else {
        (
            DestinationState { rate_violations: violations, last_allowed_at_ms: now_ms, ..row },
            DestinationVerdict::Relay,
        )
    }
}

/// A bounded, deterministic admission ledger. Times are monotonic milliseconds relative to
/// the endpoint's creation so tests can exercise burst and release behavior without sleeping.
pub struct AnnounceAdmission {
    policy: AnnounceIngressPolicy,
    interfaces: Table<u32, InterfaceState>,
    destinations: AddressTable<DestinationState>,
}

/// The state of an admission ledger.
pub struct AdmissionModel {
    pub policy: AnnounceIngressPolicy,
    pub interfaces: Map<u32, InterfaceState>,
    pub destinations: Map<AddressHash, DestinationState>,
}

impl AdmissionModel {
    /// The interface row an announce is counted on.
    pub open spec fn row_for(self, interface: u32, now_ms: u64) -> InterfaceState {
        if self.interfaces.contains_key(interface) {
            self.interfaces[interface]
        } else {
            new_interface(now_ms)
        }
    }

    /// This ledger with `row` for `interface`, for which an older row may have to leave.
    pub open spec fn with_interface(self, interface: u32, row: InterfaceState) -> AdmissionModel {
        AdmissionModel {
            interfaces: (if self.interfaces.contains_key(interface) {
                self.interfaces
            } else {
                made_room(self.interfaces, self.policy.interface_capacity as nat)
            }).insert(interface, row),
            ..self
        }
    }

    /// What is decided of a verified announce on an interface, and the ledger after that.
    pub open spec fn after_interface(self, interface: u32, route_is_known: bool, now_ms: u64) -> (
        AdmissionModel,
        InterfaceVerdict,
    ) {
        let heard = heard_one(self.row_for(interface, now_ms), now_ms, self.policy);
        let (row, verdict) = judged(heard, route_is_known, now_ms, self.policy);
        (self.with_interface(interface, row), verdict)
    }

    /// What is decided of relaying an announce for a destination, and the ledger after that.
    pub open spec fn after_destination(self, destination: AddressHash, now_ms: u64) -> (
        AdmissionModel,
        DestinationVerdict,
    ) {
        if span_ms(self.policy.destination_target) == 0 {
            (self, DestinationVerdict::Relay)
        } else if self.destinations.contains_key(destination) {
            let (row, verdict) = paced(self.destinations[destination], now_ms, self.policy);
            (
                AdmissionModel { destinations: self.destinations.insert(destination, row), ..self },
                verdict,
            )
        } else if self.policy.destination_capacity == 0 {
            (self, DestinationVerdict::Relay)
        } else {
            (
                AdmissionModel {
                    destinations: made_room(
                        self.destinations,
                        self.policy.destination_capacity as nat,
                    ).insert(
                        destination,
                        DestinationState {
                            last_allowed_at_ms: now_ms,
                            blocked_until_ms: 0,
                            rate_violations: 0,
                        },
                    ),
                    ..self
                },
                DestinationVerdict::Relay,
            )
        }
    }

    /// The ledger after an announce was held.
    pub open spec fn after_held(self, interface: u32) -> AdmissionModel {
        if self.interfaces.contains_key(interface) {
            let row = self.interfaces[interface];
            let counters = AnnounceIngressCounters {
                held: bumped(row.counters.held),
                ..row.counters
            };
            self.with_row(interface, InterfaceState { counters, ..row })
        } else {
            self
        }
    }

    /// The ledger after an announce could not be held.
    pub open spec fn after_held_dropped(self, interface: u32) -> AdmissionModel {
        if self.interfaces.contains_key(interface) {
            let row = self.interfaces[interface];
            let counters = AnnounceIngressCounters {
                held_dropped: bumped(row.counters.held_dropped),
                ..row.counters
            };
            self.with_row(interface, InterfaceState { counters, ..row })
        } else {
            self
        }
    }

    /// The ledger after a held announce was released.
    pub open spec fn after_released(self, interface: u32) -> AdmissionModel {
        if self.interfaces.contains_key(interface) {
            let row = self.interfaces[interface];
            let counters = AnnounceIngressCounters {
                released: bumped(row.counters.released),
                ..row.counters
            };
            self.with_row(interface, InterfaceState { counters, ..row })
        } else {
            self
        }
    }

    /// This ledger with one interface row changed.
    pub open spec fn with_row(self, interface: u32, row: InterfaceState) -> AdmissionModel {
        AdmissionModel { interfaces: self.interfaces.insert(interface, row), ..self }
    }
}

impl View for AnnounceAdmission {
    type V = AdmissionModel;

    closed spec fn view(&self) -> AdmissionModel {
        AdmissionModel {
            policy: self.policy,
            interfaces: self.interfaces.view(),
            destinations: self.destinations.view(),
        }
    }
}

/// The rate reading of a row.
fn rate_reading(row: &InterfaceState, now_ms: u64, policy: AnnounceIngressPolicy) -> (reading:
    RateReading)
    ensures
        reading == rate_of(*row, now_ms, policy),
{
    let limit: u64 = if elapsed(now_ms, row.attached_at_ms) < duration_ms(
        policy.new_interface_age,
    ) {
        policy.new_interface_hz
    } else {
        policy.established_interface_hz
    };
    let gone: u64 = elapsed(now_ms, row.window_started_at_ms);
    if row.window_count < 3 || gone == 0 || limit == 0 {
        return RateReading::Under;
    }
    let count: u128 = row.window_count as u128 * 1_000;
    assert(limit * gone <= 0xffff_ffff_ffff_ffff * 0xffff_ffff_ffff_ffff) by (nonlinear_arith)
        requires
            limit <= 0xffff_ffff_ffff_ffff,
            gone <= 0xffff_ffff_ffff_ffff,
    ;
    let bound: u128 = limit as u128 * gone as u128;
    if count < bound {
        RateReading::Under
    } else if count == bound {
        RateReading::At
    } else {
        RateReading::Over
    }
}

/// Whether a latched burst may end.
fn calms(row: &InterfaceState, since_ms: u64, now_ms: u64, policy: AnnounceIngressPolicy) -> (may:
    bool)
    ensures
        may == may_calm(*row, since_ms, now_ms, policy),
{
    now_ms >= since_ms.saturating_add(duration_ms(policy.burst_hold)) && row.window_count >= 2
}

impl AnnounceAdmission {
    /// The invariant: at most as many rows as the policy allows. An interface table without
    /// capacity still holds the row it last needed for a verdict.
    pub closed spec fn inv(&self) -> bool {
        &&& self.interfaces.inv()
        &&& self.destinations.inv()
        &&& self.interfaces.rows().len() <= (if self.policy.interface_capacity == 0 {
            1
        } else {
            self.policy.interface_capacity
        })
        &&& self.destinations.rows().len() <= self.policy.destination_capacity
    }

    /// The tables never outgrow the policy.
    pub proof fn law_bounded(&self)
        requires
            self.inv(),
        ensures
            self@.interfaces.dom().finite(),
            self@.interfaces.dom().len() <= (if self@.policy.interface_capacity == 0 {
                1
            } else {
                self@.policy.interface_capacity
            }),
            self@.destinations.dom().finite(),
            self@.destinations.dom().len() <= self@.policy.destination_capacity,
    {
        self.interfaces.lemma_size();
        self.destinations.lemma_size();
    }

    /// An empty ledger.
    pub fn new(policy: AnnounceIngressPolicy) -> (ledger: Self)
        ensures
            ledger.inv(),
            ledger@.policy == policy,
            ledger@.interfaces == Map::<u32, InterfaceState>::empty(),
            ledger@.destinations == Map::<AddressHash, DestinationState>::empty(),
    {
        AnnounceAdmission { policy, interfaces: Table::new(), destinations: Table::new() }
    }

    /// Change the policy. What does not fit its capacities leaves, oldest first.
    pub fn set_policy(&mut self, policy: AnnounceIngressPolicy)
        requires
            old(self).inv(),
        ensures
            final(self).inv(),
            final(self)@.policy == policy,
            is_trimmed_to(
                old(self)@.interfaces,
                final(self)@.interfaces,
                policy.interface_capacity as nat,
            ),
            is_trimmed_to(
                old(self)@.destinations,
                final(self)@.destinations,
                policy.destination_capacity as nat,
            ),
    {
        self.policy = policy;
        self.interfaces.trim_oldest(policy.interface_capacity);
        self.destinations.trim_oldest(policy.destination_capacity);
    }

    /// The policy in force.
    pub fn policy(&self) -> (policy: AnnounceIngressPolicy)
        ensures
            policy == self@.policy,
    {
        self.policy
    }

    /// Make sure an interface has a row, and read it.
    fn interface_row(&mut self, interface: u32, now_ms: u64) -> (row: InterfaceState)
        requires
            old(self).inv(),
        ensures
            final(self).inv(),
            row == old(self)@.row_for(interface, now_ms),
            final(self)@ == old(self)@.with_interface(interface, row),
            final(self)@.interfaces.contains_key(interface),
            final(self)@.interfaces[interface] == row,
    {
        if let Some(row) = self.interfaces.get(&interface) {
            let row = *row;
            assert(self@.interfaces.insert(interface, row) =~= self@.interfaces);
            assert(self@ == self@.with_interface(interface, row));
            return row;
        }
        let ghost before = self@;
        proof {
            self.interfaces.lemma_size();
        }
        if self.policy.interface_capacity == 0 {
            self.interfaces = Table::new();
        } else if self.interfaces.len() >= self.policy.interface_capacity {
            let _ = self.interfaces.remove_oldest();
        }
        let ghost roomy = self@.interfaces;
        assert(roomy == made_room(before.interfaces, before.policy.interface_capacity as nat));
        let row = InterfaceState {
            attached_at_ms: now_ms,
            last_observed_at_ms: now_ms,
            window_started_at_ms: now_ms,
            window_count: 0,
            burst: Burst::Calm,
            next_held_release_at_ms: now_ms,
            counters: AnnounceIngressCounters::default(),
        };
        self.interfaces.insert(interface, row);
        assert(self@.interfaces == roomy.insert(interface, row));
        row
    }

    /// Note that an interface was attached.
    pub fn attach_interface(&mut self, interface: u32, now_ms: u64)
        requires
            old(self).inv(),
        ensures
            final(self).inv(),
            final(self)@ == old(self)@.with_interface(
                interface,
                old(self)@.row_for(interface, now_ms),
            ),
    {
        self.interface_row(interface, now_ms);
    }

    /// Drop what is remembered of an interface.
    pub fn forget_interface(&mut self, interface: u32)
        requires
            old(self).inv(),
        ensures
            final(self).inv(),
            final(self)@ == (AdmissionModel {
                interfaces: old(self)@.interfaces.remove(interface),
                ..old(self)@
            }),
    {
        let _ = self.interfaces.remove(&interface);
    }

    /// Count a verified announce and decide whether an as-yet-unknown route should wait.
    pub fn observe_interface(&mut self, interface: u32, route_is_known: bool, now_ms: u64) -> (verdict:
        InterfaceVerdict)
        requires
            old(self).inv(),
        ensures
            final(self).inv(),
            (final(self)@, verdict) == old(self)@.after_interface(interface, route_is_known, now_ms),
    {
        let policy = self.policy;
        let ghost before = self@;
        let mut row = self.interface_row(interface, now_ms);
        let ghost found = row;
        let ghost roomy = self@;
        row.counters.observed = row.counters.observed.saturating_add(1);
        row.last_observed_at_ms = now_ms;
        if row.window_count == 0 || elapsed(now_ms, row.window_started_at_ms) >= duration_ms(
            policy.frequency_window,
        ) {
            row.window_started_at_ms = now_ms;
            row.window_count = 1;
        } else {
            row.window_count = row.window_count.saturating_add(1);
        }
        assert(row == heard_one(found, now_ms, policy));
        let ghost heard = row;
        let mut verdict = InterfaceVerdict::Process;
        if policy.enabled && !route_is_known {
            let rate = rate_reading(&row, now_ms, policy);
            match row.burst {
                Burst::Calm => {
                    if rate == RateReading::Over {
                        row.burst = Burst::Latched { since_ms: now_ms };
                        row.next_held_release_at_ms =
                        now_ms.saturating_add(duration_ms(policy.burst_penalty));
                        verdict =
                        InterfaceVerdict::Hold { release_at_ms: row.next_held_release_at_ms };
                    }
                },
                Burst::Latched { since_ms } => {
                    if rate == RateReading::Under && calms(&row, since_ms, now_ms, policy) {
                        row.burst = Burst::Calm;
                    }
                    verdict = InterfaceVerdict::Hold { release_at_ms: row.next_held_release_at_ms };
                },
            }
        }
        assert((row, verdict) == judged(heard, route_is_known, now_ms, policy));
        self.interfaces.insert(interface, row);
        proof {
            assert(self@.interfaces =~= before.with_interface(interface, row).interfaces);
        }
        verdict
    }

    /// Return the next release deadline only when an interface has calmed below its threshold.
    pub fn release_due(&mut self, interface: u32, now_ms: u64) -> (due: Option<u64>)
        requires
            old(self).inv(),
        ensures
            final(self).inv(),
            if old(self)@.interfaces.contains_key(interface) {
                let (row, at) = release_of(
                    old(self)@.interfaces[interface],
                    now_ms,
                    old(self)@.policy,
                );
                due == Some(at) && final(self)@ == old(self)@.with_row(interface, row)
            } else {
                due is None && final(self)@ == old(self)@
            },
    {
        let policy = self.policy;
        let mut row = match self.interfaces.get(&interface) {
            Some(row) => *row,
            None => {
                return None;
            },
        };
        let ghost same = self@.interfaces.insert(interface, row);
        assert(same =~= self@.interfaces);
        if now_ms < row.next_held_release_at_ms {
            return Some(row.next_held_release_at_ms);
        }
        let again: u64 = now_ms.saturating_add(duration_ms(policy.held_release_interval));
        if rate_reading(&row, now_ms, policy) != RateReading::Under {
            return Some(again);
        }
        if let Burst::Latched { since_ms } = row.burst {
            if calms(&row, since_ms, now_ms, policy) {
                row.burst = Burst::Calm;
            }
        }
        row.next_held_release_at_ms = again;
        self.interfaces.insert(interface, row);
        Some(now_ms)
    }

    /// Count an announce that is held.
    pub fn note_held(&mut self, interface: u32)
        requires
            old(self).inv(),
        ensures
            final(self).inv(),
            final(self)@ == old(self)@.after_held(interface),
    {
        if let Some(found) = self.interfaces.get(&interface) {
            let mut row = *found;
            row.counters.held = row.counters.held.saturating_add(1);
            self.interfaces.insert(interface, row);
        }
    }

    /// Count an announce that could not be held.
    pub fn note_held_dropped(&mut self, interface: u32)
        requires
            old(self).inv(),
        ensures
            final(self).inv(),
            final(self)@ == old(self)@.after_held_dropped(interface),
    {
        if let Some(found) = self.interfaces.get(&interface) {
            let mut row = *found;
            row.counters.held_dropped = row.counters.held_dropped.saturating_add(1);
            self.interfaces.insert(interface, row);
        }
    }

    /// Count an announce that was held and is released.
    pub fn note_released(&mut self, interface: u32)
        requires
            old(self).inv(),
        ensures
            final(self).inv(),
            final(self)@ == old(self)@.after_released(interface),
    {
        if let Some(found) = self.interfaces.get(&interface) {
            let mut row = *found;
            row.counters.released = row.counters.released.saturating_add(1);
            self.interfaces.insert(interface, row);
        }
    }

    /// What was counted on an interface.
    pub fn counters(&self, interface: u32) -> (counters: AnnounceIngressCounters)
        requires
            self.inv(),
        ensures
            counters == (if self@.interfaces.contains_key(interface) {
                self@.interfaces[interface].counters
            } else {
                no_counts()
            }),
    {
        match self.interfaces.get(&interface) {
            Some(row) => row.counters,
            None => AnnounceIngressCounters::default(),
        }
    }

    /// Apply per-destination rate accounting at the point that would relay an announce.
    pub fn observe_destination(&mut self, destination: AddressHash, now_ms: u64) -> (verdict:
        DestinationVerdict)
        requires
            old(self).inv(),
        ensures
            final(self).inv(),
            (final(self)@, verdict) == old(self)@.after_destination(destination, now_ms),
    {
        let policy = self.policy;
        let target_ms: u64 = duration_ms(policy.destination_target);
        if target_ms == 0 {
            return DestinationVerdict::Relay;
        }
        if let Some(found) = self.destinations.get(&destination) {
            let mut row = *found;
            if now_ms < row.blocked_until_ms {
                assert(self@.destinations.insert(destination, row) =~= self@.destinations);
                return DestinationVerdict::BlockRelay;
            }
            if elapsed(now_ms, row.last_allowed_at_ms) < target_ms {
                row.rate_violations = row.rate_violations.saturating_add(1);
            } else {
                row.rate_violations = row.rate_violations.saturating_sub(1);
            }
            if row.rate_violations > policy.destination_grace {
                row.blocked_until_ms =
                row.last_allowed_at_ms.saturating_add(target_ms).saturating_add(
                    duration_ms(policy.destination_penalty),
                );
                self.destinations.insert(destination, row);
                return DestinationVerdict::BlockRelay;
            }
            row.last_allowed_at_ms = now_ms;
            self.destinations.insert(destination, row);
            return DestinationVerdict::Relay;
        }
        let row = DestinationState {
            last_allowed_at_ms: now_ms,
            blocked_until_ms: 0,
            rate_violations: 0,
        };
        self.insert_destination(destination, row);
        DestinationVerdict::Relay
    }

    /// Add a row for a destination that has none.
    fn insert_destination(&mut self, destination: AddressHash, row: DestinationState)
        requires
            old(self).inv(),
            !old(self)@.destinations.contains_key(destination),
        ensures
            final(self).inv(),
            final(self)@.policy == old(self)@.policy,
            final(self)@.interfaces == old(self)@.interfaces,
            final(self)@.destinations == (if old(self)@.policy.destination_capacity == 0 {
                old(self)@.destinations
            } else {
                made_room(
                    old(self)@.destinations,
                    old(self)@.policy.destination_capacity as nat,
                ).insert(destination, row)
            }),
    {
        if self.policy.destination_capacity == 0 {
            return;
        }
        let ghost before = self@;
        proof {
            self.destinations.lemma_size();
        }
        if self.destinations.len() >= self.policy.destination_capacity {
            let _ = self.destinations.remove_oldest();
        }
        self.destinations.insert(destination, row);
    }
}

/// A destination is relayed at most once per target interval where no grace is given: if a
/// known destination is let through, the interval since it was last let through is over.
pub proof fn law_relays_are_spaced(
    row: DestinationState,
    now_ms: u64,
    policy: AnnounceIngressPolicy,
)
    requires
        policy.destination_grace == 0,
        paced(row, now_ms, policy).1 == DestinationVerdict::Relay,
    ensures
        age(now_ms, row.last_allowed_at_ms) >= span_ms(policy.destination_target),
        paced(row, now_ms, policy).0.last_allowed_at_ms == now_ms,
{
}

/// A block that has latched holds to its end and is not lengthened by further announces.
pub proof fn law_block_holds(row: DestinationState, now_ms: u64, policy: AnnounceIngressPolicy)
    requires
        now_ms < row.blocked_until_ms,
    ensures
        paced(row, now_ms, policy) == (row, DestinationVerdict::BlockRelay),
{
}

/// An announce for a known route is never held, nor is any where holding is off.
pub proof fn law_known_routes_are_not_held(
    row: InterfaceState,
    now_ms: u64,
    policy: AnnounceIngressPolicy,
)
    ensures
        judged(row, true, now_ms, policy) == (row, InterfaceVerdict::Process),
        !policy.enabled ==> forall|known: bool|
            (#[trigger] judged(row, known, now_ms, policy)).1 == InterfaceVerdict::Process,
{
}

/// A noisy interface does not silence its neighbours: what is decided on one interface
/// leaves the row of another as it was, unless that row had to leave for want of room.
pub proof fn law_neighbours_are_not_silenced(
    before: AdmissionModel,
    noisy: u32,
    route_is_known: bool,
    now_ms: u64,
    quiet: u32,
)
    requires
        noisy != quiet,
        before.after_interface(noisy, route_is_known, now_ms).0.interfaces.contains_key(quiet),
    ensures
        before.interfaces.contains_key(quiet),
        before.after_interface(noisy, route_is_known, now_ms).0.interfaces[quiet]
            == before.interfaces[quiet],
{
}

/// Where a row has to leave for a new interface, the least recently observed one leaves: no
/// row that stays was last heard before it. Hearing an announce makes its row the latest.
pub proof fn law_least_recently_observed_leaves(
    before: AdmissionModel,
    interface: u32,
    route_is_known: bool,
    now_ms: u64,
    gone: u32,
    stays: u32,
)
    requires
        before.interfaces.dom().finite(),
        before.interfaces.contains_key(gone),
        before.interfaces.contains_key(stays),
        !before.after_interface(interface, route_is_known, now_ms).0.interfaces.contains_key(gone),
        before.after_interface(interface, route_is_known, now_ms).0.interfaces.contains_key(stays),
    ensures
        before.interfaces[gone].last_observed_at_ms
            <= before.interfaces[stays].last_observed_at_ms,
        before.after_interface(
            interface,
            route_is_known,
            now_ms,
        ).0.interfaces[interface].last_observed_at_ms == now_ms,
{
    assert(before.interfaces.dom().len() > 0) by {
        if before.interfaces.dom().len() == 0 {
            assert(before.interfaces.dom() =~= Set::empty());
        }
    }
    lemma_has_first_oldest(before.interfaces);
}

/// The same where a smaller policy is set: no row that stays was last heard before one that
/// leaves.
pub proof fn law_trimming_keeps_the_latest_observed(
    rows: Map<u32, InterfaceState>,
    kept: Map<u32, InterfaceState>,
    capacity: nat,
    gone: u32,
    stays: u32,
)
    requires
        is_trimmed_to(rows, kept, capacity),
        rows.contains_key(gone),
        !kept.contains_key(gone),
        kept.contains_key(stays),
    ensures
        rows[gone].last_observed_at_ms <= rows[stays].last_observed_at_ms,
{
}

/// How many announces a window holds once one more is counted, and when it began: the old
/// window goes on while it lasts, and a new one begins with one announce.
pub open spec fn window_with_one_more(
    row: InterfaceState,
    now_ms: u64,
    policy: AnnounceIngressPolicy,
) -> (int, u64) {
    if row.window_count > 0 && age(now_ms, row.window_started_at_ms) < span_ms(
        policy.frequency_window,
    ) {
        (
            if row.window_count < 0xffff {
                row.window_count + 1
            } else {
                0xffff
            },
            row.window_started_at_ms,
        )
    } else {
        (1, now_ms)
    }
}

/// Whether announces come in faster than an interface may send them: at least three, over some
/// time, at more per second than the threshold, which is the lower one while the interface is
/// new. A threshold of zero is none.
pub open spec fn comes_too_fast(
    attached_at_ms: u64,
    count: int,
    started_at_ms: u64,
    now_ms: u64,
    policy: AnnounceIngressPolicy,
) -> bool {
    let hz = if age(now_ms, attached_at_ms) < span_ms(policy.new_interface_age) {
        policy.new_interface_hz
    } else {
        policy.established_interface_hz
    };
    let elapsed_ms = age(now_ms, started_at_ms);
    count >= 3 && elapsed_ms > 0 && hz > 0 && count * 1_000 > hz * elapsed_ms
}

/// Whether announces come in slower than the threshold.
pub open spec fn comes_slowly(
    attached_at_ms: u64,
    count: int,
    started_at_ms: u64,
    now_ms: u64,
    policy: AnnounceIngressPolicy,
) -> bool {
    let hz = if age(now_ms, attached_at_ms) < span_ms(policy.new_interface_age) {
        policy.new_interface_hz
    } else {
        policy.established_interface_hz
    };
    let elapsed_ms = age(now_ms, started_at_ms);
    count < 3 || elapsed_ms == 0 || hz == 0 || count * 1_000 < hz * elapsed_ms
}

/// On a calm interface an announce of an unknown destination is held exactly if with it the
/// announces come too fast for an interface of that age. That latches a burst, and what is held
/// is looked at after the penalty. Otherwise it is processed, and the interface stays calm.
pub proof fn law_burst_is_judged_by_the_rate(
    before: AdmissionModel,
    interface: u32,
    now_ms: u64,
)
    requires
        before.interfaces.contains_key(interface),
        before.interfaces[interface].burst == Burst::Calm,
        before.policy.enabled,
    ensures
        ({
            let row = before.interfaces[interface];
            let (after, verdict) = before.after_interface(interface, false, now_ms);
            let (count, started) = window_with_one_more(row, now_ms, before.policy);
            let held = comes_too_fast(
                row.attached_at_ms,
                count,
                started,
                now_ms,
                before.policy,
            );
            let penalty = span_ms(before.policy.burst_penalty);
            let look = if now_ms + penalty <= u64::MAX {
                now_ms + penalty
            } else {
                u64::MAX as int
            };
            &&& held <==> verdict is Hold
            &&& held ==> verdict == InterfaceVerdict::Hold { release_at_ms: look as u64 }
                && after.interfaces[interface].burst == Burst::Latched { since_ms: now_ms }
                && after.interfaces[interface].next_held_release_at_ms == look
            &&& !held ==> after.interfaces[interface].burst == Burst::Calm
                && after.interfaces[interface].next_held_release_at_ms
                == row.next_held_release_at_ms
        }),
{
}

/// While a burst is latched every announce of an unknown destination is held until the time
/// that was set, which it does not put off. The burst ends exactly if with this announce they
/// come slowly, more than one came in the window, and it was held as long as it must be.
pub proof fn law_latched_burst_holds(
    before: AdmissionModel,
    interface: u32,
    since_ms: u64,
    now_ms: u64,
)
    requires
        before.interfaces.contains_key(interface),
        before.interfaces[interface].burst == (Burst::Latched { since_ms }),
        before.policy.enabled,
        since_ms + span_ms(before.policy.burst_hold) <= u64::MAX,
    ensures
        ({
            let row = before.interfaces[interface];
            let (after, verdict) = before.after_interface(interface, false, now_ms);
            let (count, started) = window_with_one_more(row, now_ms, before.policy);
            let ends = comes_slowly(
                row.attached_at_ms,
                count,
                started,
                now_ms,
                before.policy,
            ) && count >= 2 && now_ms >= since_ms + span_ms(before.policy.burst_hold);
            &&& verdict == InterfaceVerdict::Hold { release_at_ms: row.next_held_release_at_ms }
            &&& after.interfaces[interface].next_held_release_at_ms
                == row.next_held_release_at_ms
            &&& after.interfaces[interface].burst == (if ends {
                Burst::Calm
            } else {
                Burst::Latched { since_ms }
            })
        }),
{
}

/// Every announce is counted on its interface: one more observed, heard now, in the window that
/// goes on or begins. An interface keeps the time it was attached, and one not heard of before
/// is attached now. Policy and destinations stay, and so do the rows of other interfaces that
/// stay at all.
pub proof fn law_announce_is_counted_on_its_interface(
    before: AdmissionModel,
    interface: u32,
    route_is_known: bool,
    now_ms: u64,
    other: u32,
)
    ensures
        ({
            let (after, verdict) = before.after_interface(interface, route_is_known, now_ms);
            let known = before.interfaces.contains_key(interface);
            let old_row = before.interfaces[interface];
            let row = after.interfaces[interface];
            &&& after.interfaces.contains_key(interface)
            &&& after.policy == before.policy
            &&& after.destinations == before.destinations
            &&& row.last_observed_at_ms == now_ms
            &&& known ==> {
                let (count, started) = window_with_one_more(old_row, now_ms, before.policy);
                &&& row.attached_at_ms == old_row.attached_at_ms
                &&& row.window_count == count
                &&& row.window_started_at_ms == started
                &&& old_row.counters.observed < u64::MAX ==> row.counters.observed
                    == old_row.counters.observed + 1
                &&& row.counters.held == old_row.counters.held
                &&& row.counters.released == old_row.counters.released
                &&& row.counters.held_dropped == old_row.counters.held_dropped
                &&& after.interfaces.dom() =~= before.interfaces.dom()
            }
            &&& !known ==> {
                &&& verdict == InterfaceVerdict::Process
                &&& row.attached_at_ms == now_ms
                &&& row.window_count == 1
                &&& row.window_started_at_ms == now_ms
                &&& row.burst == Burst::Calm
                &&& row.next_held_release_at_ms == now_ms
                &&& row.counters.observed == 1
                &&& row.counters.held == 0
                &&& row.counters.released == 0
                &&& row.counters.held_dropped == 0
                &&& after.interfaces.remove(interface) =~= made_room(
                    before.interfaces,
                    before.policy.interface_capacity as nat,
                ).remove(interface)
            }
            &&& other != interface && after.interfaces.contains_key(other)
                ==> before.interfaces.contains_key(other) && after.interfaces[other]
                == before.interfaces[other]
            &&& route_is_known || !before.policy.enabled ==> verdict == InterfaceVerdict::Process
        }),
{
}

/// Attaching an interface leaves a row that counts nothing, and a row that is there as it is.
pub proof fn law_attached_interface_starts_calm(
    before: AdmissionModel,
    interface: u32,
    now_ms: u64,
)
    ensures
        ({
            let after = before.with_interface(interface, before.row_for(interface, now_ms));
            let row = after.interfaces[interface];
            &&& before.interfaces.contains_key(interface) ==> after.interfaces
                =~= before.interfaces
            &&& !before.interfaces.contains_key(interface) ==> row.attached_at_ms == now_ms
                && row.window_count == 0 && row.burst == Burst::Calm && row.counters.observed == 0
                && row.next_held_release_at_ms == now_ms && row.last_observed_at_ms == now_ms
                && row.window_started_at_ms == now_ms && row.counters.held == 0
                && row.counters.released == 0 && row.counters.held_dropped == 0
        }),
{
}

/// A held announce may be released once its time has come and announces come slowly again; the
/// next may follow after the interval. Before its time it waits for that, and while announces
/// still come it is looked at again after the interval, with nothing changed.
pub proof fn law_held_announces_are_released_one_by_one(
    row: InterfaceState,
    now_ms: u64,
    policy: AnnounceIngressPolicy,
)
    requires
        now_ms + span_ms(policy.held_release_interval) <= u64::MAX,
        row.burst matches Burst::Latched { since_ms } ==> since_ms + span_ms(policy.burst_hold)
            <= u64::MAX,
    ensures
        ({
            let (after, until) = release_of(row, now_ms, policy);
            let slowly = comes_slowly(
                row.attached_at_ms,
                row.window_count as int,
                row.window_started_at_ms,
                now_ms,
                policy,
            );
            let again = now_ms + span_ms(policy.held_release_interval);
            &&& now_ms < row.next_held_release_at_ms ==> until == row.next_held_release_at_ms
                && after == row
            &&& now_ms >= row.next_held_release_at_ms && !slowly ==> until == again && after
                == row
            &&& now_ms >= row.next_held_release_at_ms && slowly ==> {
                &&& until == now_ms
                &&& after.next_held_release_at_ms == again
                &&& row.burst == Burst::Calm ==> after.burst == Burst::Calm
                &&& row.burst matches Burst::Latched { since_ms } ==> after.burst == (if now_ms
                    >= since_ms + span_ms(policy.burst_hold) && row.window_count >= 2 {
                    Burst::Calm
                } else {
                    row.burst
                })
                &&& after == (InterfaceState {
                    next_held_release_at_ms: after.next_held_release_at_ms,
                    burst: after.burst,
                    ..row
                })
            }
        }),
{
}

/// What happens to an announce that was held is counted where it came in, once, and nowhere
/// else; on an interface that is not remembered nothing is counted.
pub proof fn law_holding_is_counted(before: AdmissionModel, interface: u32)
    requires
        before.interfaces.contains_key(interface),
        before.interfaces[interface].counters.held < u64::MAX,
        before.interfaces[interface].counters.held_dropped < u64::MAX,
        before.interfaces[interface].counters.released < u64::MAX,
    ensures
        ({
            let row = before.interfaces[interface];
            let n = row.counters;
            let held = before.after_held(interface).interfaces;
            let dropped = before.after_held_dropped(interface).interfaces;
            let released = before.after_released(interface).interfaces;
            &&& held == before.interfaces.insert(
                interface,
                InterfaceState {
                    counters: AnnounceIngressCounters { held: (n.held + 1) as u64, ..n },
                    ..row
                },
            )
            &&& dropped == before.interfaces.insert(
                interface,
                InterfaceState {
                    counters: AnnounceIngressCounters {
                        held_dropped: (n.held_dropped + 1) as u64,
                        ..n
                    },
                    ..row
                },
            )
            &&& released == before.interfaces.insert(
                interface,
                InterfaceState {
                    counters: AnnounceIngressCounters { released: (n.released + 1) as u64, ..n },
                    ..row
                },
            )
            &&& before.after_held(interface).destinations == before.destinations
            &&& before.after_held_dropped(interface).destinations == before.destinations
            &&& before.after_released(interface).destinations == before.destinations
        }),
        forall|other: u32|
            !before.interfaces.contains_key(other) ==> #[trigger] before.after_held(other)
                == before && before.after_held_dropped(other) == before
                && before.after_released(other) == before,
{
}

/// A known destination is relayed exactly if it is not blocked and has not come too fast more
/// often than is forgiven: each announce within the target interval of the last one let through
/// counts against it, and each later one for it. One let through is remembered as that; one too
/// many blocks it, until the target and the penalty have passed since the last one let through.
pub proof fn law_destination_is_paced(
    before: AdmissionModel,
    destination: AddressHash,
    now_ms: u64,
)
    requires
        before.destinations.contains_key(destination),
        span_ms(before.policy.destination_target) > 0,
        before.destinations[destination].rate_violations < 0xffff,
        before.destinations[destination].last_allowed_at_ms + span_ms(
            before.policy.destination_target,
        ) + span_ms(before.policy.destination_penalty) <= u64::MAX,
    ensures
        ({
            let (after, verdict) = before.after_destination(destination, now_ms);
            let row = before.destinations[destination];
            let target = span_ms(before.policy.destination_target);
            let blocked = now_ms < row.blocked_until_ms;
            let early = age(now_ms, row.last_allowed_at_ms) < target;
            let violations: int = if early {
                row.rate_violations + 1
            } else if row.rate_violations > 0 {
                row.rate_violations - 1
            } else {
                0
            };
            let too_many = violations > before.policy.destination_grace;
            &&& verdict == DestinationVerdict::Relay <==> !blocked && !too_many
            &&& blocked ==> after.destinations[destination] == row
            &&& !blocked ==> after.destinations[destination].rate_violations == violations
            &&& !blocked && !too_many ==> after.destinations[destination].last_allowed_at_ms
                == now_ms && after.destinations[destination].blocked_until_ms
                == row.blocked_until_ms
            &&& !blocked && too_many ==> after.destinations[destination].last_allowed_at_ms
                == row.last_allowed_at_ms && after.destinations[destination].blocked_until_ms
                == row.last_allowed_at_ms + target + span_ms(before.policy.destination_penalty)
            &&& after.interfaces == before.interfaces
            &&& after.policy == before.policy
            &&& forall|other: AddressHash|
                other != destination ==> (#[trigger] after.destinations.contains_key(other)
                    <==> before.destinations.contains_key(other))
            &&& forall|other: AddressHash|
                other != destination && before.destinations.contains_key(other)
                    ==> #[trigger] after.destinations[other] == before.destinations[other]
        }),
{
}

/// A destination not heard of before is relayed, and remembered as let through now where there
/// is room for any; where no interval is set everything is, and nothing is remembered.
pub proof fn law_new_destination_is_relayed(
    before: AdmissionModel,
    destination: AddressHash,
    now_ms: u64,
)
    requires
        !before.destinations.contains_key(destination) || span_ms(
            before.policy.destination_target,
        ) == 0,
    ensures
        ({
            let (after, verdict) = before.after_destination(destination, now_ms);
            let off = span_ms(before.policy.destination_target) == 0;
            &&& verdict == DestinationVerdict::Relay
            &&& after.interfaces == before.interfaces
            &&& after.policy == before.policy
            &&& off || before.policy.destination_capacity == 0 ==> after == before
            &&& !off && before.policy.destination_capacity > 0 ==> after.destinations.contains_key(
                destination,
            ) && after.destinations[destination].last_allowed_at_ms == now_ms
                && after.destinations[destination].blocked_until_ms == 0
                && after.destinations[destination].rate_violations == 0
                && after.destinations.remove(destination) == made_room(
                before.destinations,
                before.policy.destination_capacity as nat,
            ).remove(destination)
        }),
{
    let (after, verdict) = before.after_destination(destination, now_ms);
    let room = made_room(before.destinations, before.policy.destination_capacity as nat);
    if span_ms(before.policy.destination_target) > 0 && before.policy.destination_capacity > 0 {
        assert(after.destinations.remove(destination) =~= room.remove(destination));
    }
}

} // verus!
