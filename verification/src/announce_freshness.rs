//! Bounded, per-destination announce freshness admission.
//!
//! This is deliberately separate from packet-loop suppression. Callers first
//! [`AnnounceFreshness::evaluate`] a verified announce, perform any fallible
//! admission that must leave no trace on refusal, and then
//! [`AnnounceFreshness::record_accepted`] it before route mutation, publication,
//! or relay scheduling.
//! The caller supplies its own tick and route TTL, making its clock policy explicit.

use vstd::prelude::*;

use crate::announce::AnnounceBlob;
use crate::hash::AddressHash;
use crate::table::{age, elapsed};

verus! {

/// Bounds and retention policy for [`AnnounceFreshness`].
#[derive(Clone, Copy, Debug, PartialEq, Eq, Structural)]
pub struct AnnounceFreshnessConfig {
    /// Maximum number of destinations with retained freshness state.
    pub destination_capacity: usize,
    /// Maximum retained announce blobs for each destination.
    pub blob_capacity: usize,
    /// How long an accepted entry remains replay-protected, in caller ticks.
    ///
    /// A zero lifetime deliberately disables retention.  It is useful for a
    /// caller that needs the route comparison but elects not to retain replay
    /// state; normal users should choose a positive, explicit bound.
    pub retention_ticks: u64,
}

/// A freshness table cannot retain state with either capacity set to zero.
#[derive(Clone, Copy, Debug, PartialEq, Eq, Structural)]
pub enum AnnounceFreshnessConfigError {
    /// The table would have no destination slots.
    ZeroDestinationCapacity,
    /// A destination would have no blob slots.
    ZeroBlobCapacity,
}

impl AnnounceFreshnessConfigError {
    /// The error in words.
    pub fn message(&self) -> (text: &'static str)
        ensures
            text@ == match *self {
                AnnounceFreshnessConfigError::ZeroDestinationCapacity =>
                    "announce freshness destination capacity is zero"@,
                AnnounceFreshnessConfigError::ZeroBlobCapacity =>
                    "announce freshness blob capacity is zero"@,
            },
    {
        match self {
            AnnounceFreshnessConfigError::ZeroDestinationCapacity =>
                "announce freshness destination capacity is zero",
            AnnounceFreshnessConfigError::ZeroBlobCapacity =>
                "announce freshness blob capacity is zero",
        }
    }
}

impl AnnounceFreshnessConfig {
    /// Which capacity is zero, if one is.
    pub open spec fn fault(self) -> Option<AnnounceFreshnessConfigError> {
        if self.destination_capacity == 0 {
            Some(AnnounceFreshnessConfigError::ZeroDestinationCapacity)
        } else if self.blob_capacity == 0 {
            Some(AnnounceFreshnessConfigError::ZeroBlobCapacity)
        } else {
            None
        }
    }
}

/// The packet-derived fields that participate in receive freshness.
#[derive(Clone, Copy, Debug)]
pub struct AnnounceFreshnessCandidate {
    /// Announced destination.
    pub destination: AddressHash,
    /// Full nonce-and-timebase blob from the signed announce payload.
    pub blob: AnnounceBlob,
    /// Calibrated route hop count for this received copy.
    pub hops: u8,
}

impl AnnounceFreshnessCandidate {
    /// The candidate's 40-bit timebase, decoded from its blob.
    pub fn timebase(self) -> (timebase: u64)
        ensures
            timebase == self.blob.ordinal(),
    {
        self.blob.timebase()
    }
}

/// Why a candidate was admitted.
#[derive(Clone, Copy, Debug, PartialEq, Eq, Structural)]
pub enum AnnounceFreshnessAccept {
    /// No retained state exists for this destination.
    FirstSighting,
    /// The blob is new and its timebase is strictly above the incumbent's.
    NewerTimebase,
    /// The incumbent route has expired and this new blob has a worse hop count.
    ///
    /// This counterintuitive branch is the observed compatibility rule.  Once
    /// recorded, the lower-timebase candidate is the new incumbent.
    ExpiredIncumbentWorseRoute,
}

/// Why a candidate was refused.
#[derive(Clone, Copy, Debug, PartialEq, Eq, Structural)]
pub enum AnnounceFreshnessReject {
    /// The exact full blob remains in bounded retained history.
    Replay,
    /// A new blob was neither newer nor the expired/worse-route exception.
    StaleTimebase,
}

/// The result of evaluating one candidate without modifying the table.
#[derive(Clone, Copy, Debug, PartialEq, Eq, Structural)]
pub enum AnnounceFreshnessDecision {
    /// The caller may perform its announce effects and later record the candidate.
    Accept(AnnounceFreshnessAccept),
    /// The caller must leave announce-derived state unchanged.
    Reject(AnnounceFreshnessReject),
}

impl AnnounceFreshnessDecision {
    /// Whether this decision admits the candidate.
    pub fn is_accepted(self) -> (accepted: bool)
        ensures
            accepted == (self is Accept),
    {
        match self {
            AnnounceFreshnessDecision::Accept(_) => true,
            AnnounceFreshnessDecision::Reject(_) => false,
        }
    }
}

/// What recording one already-admitted candidate changed.
#[derive(Clone, Copy, Debug)]
pub struct AnnounceFreshnessRecord {
    /// How many destinations' whole retained state aged out before this record.
    pub expired_destinations: usize,
    /// Historical blobs that aged out while their destination remained retained.
    pub expired_blobs: usize,
    /// An older retained blob removed because this destination reached its bound.
    pub evicted_blob: Option<AnnounceBlob>,
    /// A destination evicted to make room for a new destination.
    pub evicted_destination: Option<AddressHash>,
    /// Whether this record allocated a new destination entry.
    pub inserted_destination: bool,
}

/// What changing a table's configured bounds removed.
#[derive(Clone, Copy, Debug, PartialEq, Eq, Structural)]
pub struct AnnounceFreshnessReconfigure {
    /// Destination entries whose incumbent was outside the new retention window.
    pub expired_destinations: usize,
    /// Historical blobs removed by the new retention window.
    pub expired_blobs: usize,
    /// Historical blobs removed because the new blob bound was smaller.
    pub evicted_blobs: usize,
    /// Destination entries removed by the new destination bound.
    pub evicted_destinations: usize,
}

/// The announce a destination's route currently rests on.
#[derive(Clone, Copy, Debug)]
pub struct Incumbent {
    pub blob: AnnounceBlob,
    pub timebase: u64,
    pub hops: u8,
    pub accepted_at: u64,
}

/// A blob that was accepted, and when.
#[derive(Clone, Copy, Debug)]
pub struct RetainedBlob {
    pub blob: AnnounceBlob,
    pub accepted_at: u64,
}

/// What is retained of one destination.
#[derive(Debug)]
pub struct DestinationEntry {
    pub destination: AddressHash,
    pub incumbent: Incumbent,
    pub blobs: Vec<RetainedBlob>,
    /// Acceptance order, rather than a wall-clock tick, makes bounded row eviction
    /// deterministic even when a caller's tick moves backwards.
    pub accepted_order: u64,
}

/// A [`DestinationEntry`] with its history as a sequence.
pub struct Row {
    pub destination: AddressHash,
    pub incumbent: Incumbent,
    pub blobs: Seq<RetainedBlob>,
    pub accepted_order: u64,
}

impl View for DestinationEntry {
    type V = Row;

    open spec fn view(&self) -> Row {
        Row {
            destination: self.destination,
            incumbent: self.incumbent,
            blobs: self.blobs@,
            accepted_order: self.accepted_order,
        }
    }
}

/// A bounded, allocation-backed announce freshness table.
///
/// Retention applies to a destination's incumbent and its blob history as one
/// unit.  Once the incumbent reaches `retention_ticks`, the destination becomes
/// a first sighting again.  This makes the finite replay guarantee explicit and
/// lets an expired row release its destination slot before row eviction.
#[derive(Debug)]
pub struct AnnounceFreshness {
    pub config: AnnounceFreshnessConfig,
    pub entries: Vec<DestinationEntry>,
    pub next_accept_order: u64,
}

/// The state of a freshness table.
pub struct FreshnessModel {
    pub config: AnnounceFreshnessConfig,
    pub rows: Seq<Row>,
    pub next_order: u64,
}

impl View for AnnounceFreshness {
    type V = FreshnessModel;

    open spec fn view(&self) -> FreshnessModel {
        FreshnessModel {
            config: self.config,
            rows: Seq::new(self.entries@.len(), |i: int| self.entries@[i]@),
            next_order: self.next_accept_order,
        }
    }
}

// ---------------------------------------------------------------------------------------
// Rows: finding, expiring, ranking, evicting.
/// Whether something accepted at `then` is still within the retention window at `now`.
pub open spec fn retained(now: u64, then: u64, retention: u64) -> bool {
    age(now, then) < retention
}

/// Whether no destination and no acceptance order occurs twice.
pub open spec fn distinct(rows: Seq<Row>) -> bool {
    forall|i: int, j: int|
        #![trigger rows[i], rows[j]]
        0 <= i < j < rows.len() ==> rows[i].destination != rows[j].destination
            && rows[i].accepted_order != rows[j].accepted_order
}

/// The row of `destination`.
pub open spec fn find_row(rows: Seq<Row>, destination: AddressHash) -> Option<Row>
    decreases rows.len(),
{
    if rows.len() == 0 {
        None
    } else if rows.last().destination == destination {
        Some(rows.last())
    } else {
        find_row(rows.drop_last(), destination)
    }
}

/// The rows whose incumbent is still retained.
pub open spec fn live_rows(rows: Seq<Row>, now: u64, retention: u64) -> Seq<Row>
    decreases rows.len(),
{
    if rows.len() == 0 {
        rows
    } else {
        let rest = live_rows(rows.drop_last(), now, retention);
        if retained(now, rows.last().incumbent.accepted_at, retention) {
            rest.push(rows.last())
        } else {
            rest
        }
    }
}

/// The blobs still retained.
pub open spec fn live_blobs(blobs: Seq<RetainedBlob>, now: u64, retention: u64) -> Seq<
    RetainedBlob,
>
    decreases blobs.len(),
{
    if blobs.len() == 0 {
        blobs
    } else {
        let rest = live_blobs(blobs.drop_last(), now, retention);
        if retained(now, blobs.last().accepted_at, retention) {
            rest.push(blobs.last())
        } else {
            rest
        }
    }
}

/// A row with only the blobs still retained.
pub open spec fn live_row(row: Row, now: u64, retention: u64) -> Row {
    Row { blobs: live_blobs(row.blobs, now, retention), ..row }
}

/// Every row with only the blobs still retained.
pub open spec fn trimmed(rows: Seq<Row>, now: u64, retention: u64) -> Seq<Row> {
    Seq::new(rows.len(), |i: int| live_row(rows[i], now, retention))
}

/// How many blobs trimming the rows drops.
pub open spec fn aged_blobs(rows: Seq<Row>, now: u64, retention: u64) -> nat
    decreases rows.len(),
{
    if rows.len() == 0 {
        0
    } else {
        aged_blobs(rows.drop_last(), now, retention) + (rows.last().blobs.len() - live_blobs(
            rows.last().blobs,
            now,
            retention,
        ).len()) as nat
    }
}

/// How many of the rows were accepted before `order`.
pub open spec fn rank(rows: Seq<Row>, order: u64) -> nat
    decreases rows.len(),
{
    if rows.len() == 0 {
        0
    } else {
        rank(rows.drop_last(), order) + (if rows.last().accepted_order < order {
            1nat
        } else {
            0
        })
    }
}

/// Every row with its acceptance order replaced by its rank among the rows.
pub open spec fn ranked(rows: Seq<Row>) -> Seq<Row> {
    Seq::new(
        rows.len(),
        |i: int| Row { accepted_order: rank(rows, rows[i].accepted_order) as u64, ..rows[i] },
    )
}

/// The rows before an order is taken: as they are, or ranked anew if the orders have run out.
pub open spec fn reordered(rows: Seq<Row>, next_order: u64) -> Seq<Row> {
    if next_order == u64::MAX {
        ranked(rows)
    } else {
        rows
    }
}

/// The acceptance order that is taken: the next one, or the first above the ranks.
pub open spec fn taken_order(rows: Seq<Row>, next_order: u64) -> u64 {
    if next_order == u64::MAX {
        rows.len() as u64
    } else {
        next_order
    }
}

/// Whether row `i` was accepted before every other row.
pub open spec fn is_oldest_row(rows: Seq<Row>, i: int) -> bool {
    &&& 0 <= i < rows.len()
    &&& forall|j: int|
        0 <= j < rows.len() ==> rows[i].accepted_order <= (#[trigger] rows[j]).accepted_order
}

/// The row accepted before every other row.
pub open spec fn oldest_row(rows: Seq<Row>) -> int
    decreases rows.len(),
{
    if rows.len() <= 1 {
        0
    } else {
        let best = oldest_row(rows.drop_last());
        if rows.last().accepted_order < rows[best].accepted_order {
            rows.len() - 1
        } else {
            best
        }
    }
}

/// [`oldest_row`] is the oldest row.
pub proof fn lemma_oldest_row(rows: Seq<Row>)
    requires
        rows.len() > 0,
    ensures
        is_oldest_row(rows, oldest_row(rows)),
    decreases rows.len(),
{
    if rows.len() > 1 {
        let front = rows.drop_last();
        lemma_oldest_row(front);
        let best = oldest_row(front);
        assert(front[best] == rows[best]);
        assert forall|j: int| 0 <= j < rows.len() implies rows[oldest_row(rows)].accepted_order
            <= (#[trigger] rows[j]).accepted_order by {
            if j < rows.len() - 1 {
                assert(front[j] == rows[j]);
            }
        }
    }
}

/// The rows left when the oldest leave until `capacity` remain.
pub open spec fn evicted_to(rows: Seq<Row>, capacity: nat) -> Seq<Row>
    decreases rows.len(),
{
    if rows.len() <= capacity {
        rows
    } else {
        proof {
            lemma_oldest_row(rows);
        }
        evicted_to(rows.remove(oldest_row(rows)), capacity)
    }
}

/// The last `capacity` blobs.
pub open spec fn newest_blobs(blobs: Seq<RetainedBlob>, capacity: nat) -> Seq<RetainedBlob> {
    if blobs.len() > capacity {
        blobs.subrange(blobs.len() - capacity, blobs.len() as int)
    } else {
        blobs
    }
}

/// Every row with only its last `capacity` blobs.
pub open spec fn shortened(rows: Seq<Row>, capacity: nat) -> Seq<Row> {
    Seq::new(
        rows.len(),
        |i: int| Row { blobs: newest_blobs(rows[i].blobs, capacity), ..rows[i] },
    )
}

/// How many blobs shortening the rows drops.
pub open spec fn excess_blobs(rows: Seq<Row>, capacity: nat) -> nat
    decreases rows.len(),
{
    if rows.len() == 0 {
        0
    } else {
        excess_blobs(rows.drop_last(), capacity) + (rows.last().blobs.len() - newest_blobs(
            rows.last().blobs,
            capacity,
        ).len()) as nat
    }
}

/// A count as far as a machine word holds it.
pub open spec fn counted(n: nat) -> usize {
    if n <= usize::MAX {
        n as usize
    } else {
        usize::MAX
    }
}

// ---------------------------------------------------------------------------------------
// The table as a state machine.
impl FreshnessModel {
    /// Whether a row is whole: its history is within its bound and ends in the incumbent.
    pub open spec fn row_wf(self, row: Row) -> bool {
        &&& 1 <= row.blobs.len() <= self.config.blob_capacity
        &&& row.blobs.last() == (RetainedBlob {
            blob: row.incumbent.blob,
            accepted_at: row.incumbent.accepted_at,
        })
        &&& row.incumbent.timebase == row.incumbent.blob.ordinal()
    }

    /// The invariant: both bounds hold, no destination and no acceptance order occurs
    /// twice, and orders are below the next one unless orders have run out.
    pub open spec fn wf(self) -> bool {
        &&& self.config.fault() is None
        &&& self.rows.len() <= self.config.destination_capacity
        &&& distinct(self.rows)
        &&& forall|i: int| 0 <= i < self.rows.len() ==> self.row_wf(#[trigger] self.rows[i])
        &&& self.next_order == u64::MAX || forall|i: int|
            0 <= i < self.rows.len() ==> (#[trigger] self.rows[i]).accepted_order
                < self.next_order
    }

    /// What is retained of a destination at `now`.
    pub open spec fn retained_row(self, destination: AddressHash, now: u64) -> Option<Row> {
        match find_row(self.rows, destination) {
            Some(row) => if retained(
                now,
                row.incumbent.accepted_at,
                self.config.retention_ticks,
            ) {
                Some(row)
            } else {
                None
            },
            None => None,
        }
    }

    /// Whether the history of `row` still holds `blob` at `now`.
    pub open spec fn remembers(self, row: Row, blob: AnnounceBlob, now: u64) -> bool {
        exists|i: int|
            0 <= i < row.blobs.len() && (#[trigger] row.blobs[i]).blob == blob && retained(
                now,
                row.blobs[i].accepted_at,
                self.config.retention_ticks,
            )
    }

    /// What the table says of a candidate.
    pub open spec fn decision(
        self,
        candidate: AnnounceFreshnessCandidate,
        now: u64,
        route_ttl: u64,
    ) -> AnnounceFreshnessDecision {
        match self.retained_row(candidate.destination, now) {
            None => AnnounceFreshnessDecision::Accept(AnnounceFreshnessAccept::FirstSighting),
            Some(row) => if row.incumbent.blob == candidate.blob || self.remembers(
                row,
                candidate.blob,
                now,
            ) {
                AnnounceFreshnessDecision::Reject(AnnounceFreshnessReject::Replay)
            } else if candidate.blob.ordinal() > row.incumbent.timebase {
                AnnounceFreshnessDecision::Accept(AnnounceFreshnessAccept::NewerTimebase)
            } else if age(now, row.incumbent.accepted_at) >= route_ttl && candidate.hops
                > row.incumbent.hops {
                AnnounceFreshnessDecision::Accept(
                    AnnounceFreshnessAccept::ExpiredIncumbentWorseRoute,
                )
            } else {
                AnnounceFreshnessDecision::Reject(AnnounceFreshnessReject::StaleTimebase)
            },
        }
    }

    /// The rows that are live at `now`, with their live blobs.
    pub open spec fn live(self, now: u64) -> Seq<Row> {
        trimmed(
            live_rows(self.rows, now, self.config.retention_ticks),
            now,
            self.config.retention_ticks,
        )
    }

    /// The live rows, ranked anew if the acceptance orders have run out.
    pub open spec fn ready(self, now: u64) -> Seq<Row> {
        reordered(self.live(now), self.next_order)
    }

    /// The acceptance order the next record takes.
    pub open spec fn order_for(self, now: u64) -> u64 {
        taken_order(self.live(now), self.next_order)
    }

    /// The row of a destination after a candidate was recorded on top of `blobs`.
    pub open spec fn recorded_row(
        self,
        candidate: AnnounceFreshnessCandidate,
        accepted_at: u64,
        blobs: Seq<RetainedBlob>,
    ) -> Row {
        Row {
            destination: candidate.destination,
            incumbent: Incumbent {
                blob: candidate.blob,
                timebase: candidate.blob.ordinal() as u64,
                hops: candidate.hops,
                accepted_at,
            },
            blobs: blobs.push(RetainedBlob { blob: candidate.blob, accepted_at }),
            accepted_order: self.order_for(accepted_at),
        }
    }

    /// A history with room for one more blob.
    pub open spec fn with_room(self, blobs: Seq<RetainedBlob>) -> Seq<RetainedBlob> {
        if blobs.len() == self.config.blob_capacity {
            blobs.subrange(1, blobs.len() as int)
        } else {
            blobs
        }
    }

    /// Where a destination stands among rows, if it does.
    pub open spec fn index_in(rows: Seq<Row>, destination: AddressHash) -> int {
        choose|i: int| 0 <= i < rows.len() && (#[trigger] rows[i]).destination == destination
    }

    /// Whether a destination stands among rows.
    pub open spec fn has_row(rows: Seq<Row>, destination: AddressHash) -> bool {
        exists|i: int| 0 <= i < rows.len() && (#[trigger] rows[i]).destination == destination
    }

    /// The table after a candidate was recorded at `accepted_at`: what has aged out is gone,
    /// and the candidate is its destination's incumbent, in place of its old row or in a new
    /// one, for which the oldest row leaves if the table is full.
    pub open spec fn after_record(
        self,
        candidate: AnnounceFreshnessCandidate,
        accepted_at: u64,
    ) -> FreshnessModel {
        let rows = self.ready(accepted_at);
        let order = self.order_for(accepted_at);
        let at = FreshnessModel::index_in(rows, candidate.destination);
        FreshnessModel {
            config: self.config,
            rows: if FreshnessModel::has_row(rows, candidate.destination) {
                rows.update(
                    at,
                    self.recorded_row(candidate, accepted_at, self.with_room(rows[at].blobs)),
                )
            } else {
                let kept = if rows.len() == self.config.destination_capacity {
                    rows.remove(oldest_row(rows))
                } else {
                    rows
                };
                kept.push(self.recorded_row(candidate, accepted_at, Seq::empty()))
            },
            next_order: if order == u64::MAX {
                u64::MAX
            } else {
                (order + 1) as u64
            },
        }
    }

    /// What is reported of that.
    pub open spec fn record_of(
        self,
        candidate: AnnounceFreshnessCandidate,
        accepted_at: u64,
    ) -> AnnounceFreshnessRecord {
        let live = live_rows(self.rows, accepted_at, self.config.retention_ticks);
        let rows = self.ready(accepted_at);
        let known = FreshnessModel::has_row(rows, candidate.destination);
        let at = FreshnessModel::index_in(rows, candidate.destination);
        AnnounceFreshnessRecord {
            expired_destinations: (self.rows.len() - live.len()) as usize,
            expired_blobs: counted(aged_blobs(live, accepted_at, self.config.retention_ticks)),
            evicted_blob: if known && rows[at].blobs.len() == self.config.blob_capacity {
                Some(rows[at].blobs[0].blob)
            } else {
                None
            },
            evicted_destination: if !known && rows.len() == self.config.destination_capacity {
                Some(rows[oldest_row(rows)].destination)
            } else {
                None
            },
            inserted_destination: !known,
        }
    }

    /// The table after new bounds took effect at `now`.
    pub open spec fn after_reconfigure(
        self,
        config: AnnounceFreshnessConfig,
        now: u64,
    ) -> FreshnessModel {
        let live = (FreshnessModel { config, ..self }).live(now);
        FreshnessModel {
            config,
            rows: evicted_to(
                shortened(live, config.blob_capacity as nat),
                config.destination_capacity as nat,
            ),
            next_order: self.next_order,
        }
    }

    /// What is reported of that.
    pub open spec fn reconfigure_of(
        self,
        config: AnnounceFreshnessConfig,
        now: u64,
    ) -> AnnounceFreshnessReconfigure {
        let live = live_rows(self.rows, now, config.retention_ticks);
        AnnounceFreshnessReconfigure {
            expired_destinations: (self.rows.len() - live.len()) as usize,
            expired_blobs: counted(aged_blobs(live, now, config.retention_ticks)),
            evicted_blobs: counted(
                excess_blobs(
                    trimmed(live, now, config.retention_ticks),
                    config.blob_capacity as nat,
                ),
            ),
            evicted_destinations: if live.len() > config.destination_capacity {
                (live.len() - config.destination_capacity) as usize
            } else {
                0
            },
        }
    }
}

// ---------------------------------------------------------------------------------------
// What the row functions keep.
/// Whether every row of `some` is one of `all`.
spec fn drawn_from(some: Seq<Row>, all: Seq<Row>) -> bool {
    forall|j: int| 0 <= j < some.len() ==> all.contains(#[trigger] some[j])
}

/// Expiry keeps live blobs in order: what is left is retained and was there before, what
/// was retained is left, and a retained last blob stays last.
proof fn lemma_live_blobs(blobs: Seq<RetainedBlob>, now: u64, retention: u64)
    ensures
        ({
            let live = live_blobs(blobs, now, retention);
            &&& live.len() <= blobs.len()
            &&& forall|j: int|
                0 <= j < live.len() ==> retained(now, (#[trigger] live[j]).accepted_at, retention)
                    && blobs.contains(live[j])
            &&& forall|i: int|
                0 <= i < blobs.len() && retained(
                    now,
                    (#[trigger] blobs[i]).accepted_at,
                    retention,
                ) ==> live.contains(blobs[i])
            &&& blobs.len() > 0 && retained(now, blobs.last().accepted_at, retention) ==> live.len()
                > 0 && live.last() == blobs.last()
        }),
    decreases blobs.len(),
{
    if blobs.len() > 0 {
        let front = blobs.drop_last();
        lemma_live_blobs(front, now, retention);
        let rest = live_blobs(front, now, retention);
        let live = live_blobs(blobs, now, retention);
        assert forall|j: int| 0 <= j < live.len() implies retained(
            now,
            (#[trigger] live[j]).accepted_at,
            retention,
        ) && blobs.contains(live[j]) by {
            if j < rest.len() {
                assert(live[j] == rest[j]);
                let i = choose|i: int| 0 <= i < front.len() && front[i] == rest[j];
                assert(blobs[i] == live[j]);
            } else {
                assert(live[j] == blobs[blobs.len() - 1]);
            }
        }
        assert forall|i: int|
            0 <= i < blobs.len() && retained(
                now,
                (#[trigger] blobs[i]).accepted_at,
                retention,
            ) implies live.contains(blobs[i]) by {
            if i < front.len() {
                assert(front[i] == blobs[i]);
                let j = choose|j: int| 0 <= j < rest.len() && rest[j] == front[i];
                assert(live[j] == blobs[i]);
            } else {
                assert(live[live.len() - 1] == blobs[i]);
            }
        }
    }
}

/// Expiry keeps live rows: what is left is live and was there before, and what was live is
/// left. Rows that were distinct stay so.
proof fn lemma_live_rows(rows: Seq<Row>, now: u64, retention: u64)
    ensures
        ({
            let live = live_rows(rows, now, retention);
            &&& live.len() <= rows.len()
            &&& drawn_from(live, rows)
            &&& forall|j: int|
                0 <= j < live.len() ==> retained(
                    now,
                    (#[trigger] live[j]).incumbent.accepted_at,
                    retention,
                )
            &&& forall|i: int|
                0 <= i < rows.len() && retained(
                    now,
                    (#[trigger] rows[i]).incumbent.accepted_at,
                    retention,
                ) ==> live.contains(rows[i])
            &&& distinct(rows) ==> distinct(live)
        }),
    decreases rows.len(),
{
    if rows.len() > 0 {
        let front = rows.drop_last();
        lemma_live_rows(front, now, retention);
        let rest = live_rows(front, now, retention);
        let live = live_rows(rows, now, retention);
        assert forall|j: int| 0 <= j < live.len() implies rows.contains(#[trigger] live[j]) by {
            if j < rest.len() {
                assert(live[j] == rest[j]);
                let i = choose|i: int| 0 <= i < front.len() && front[i] == rest[j];
                assert(rows[i] == live[j]);
            } else {
                assert(rows[rows.len() - 1] == live[j]);
            }
        }
        assert forall|j: int| 0 <= j < live.len() implies retained(
            now,
            (#[trigger] live[j]).incumbent.accepted_at,
            retention,
        ) by {
            if j < rest.len() {
                assert(live[j] == rest[j]);
            }
        }
        assert forall|i: int|
            0 <= i < rows.len() && retained(
                now,
                (#[trigger] rows[i]).incumbent.accepted_at,
                retention,
            ) implies live.contains(rows[i]) by {
            if i < front.len() {
                assert(front[i] == rows[i]);
                let j = choose|j: int| 0 <= j < rest.len() && rest[j] == front[i];
                assert(live[j] == rows[i]);
            } else {
                assert(live[live.len() - 1] == rows[i]);
            }
        }
        if distinct(rows) {
            assert(distinct(front)) by {
                assert forall|i: int, j: int|
                    #![trigger front[i], front[j]]
                    0 <= i < j < front.len() implies front[i].destination != front[j].destination
                    && front[i].accepted_order != front[j].accepted_order by {
                    assert(rows[i] == front[i] && rows[j] == front[j]);
                }
            }
            assert forall|i: int, j: int|
                #![trigger live[i], live[j]]
                0 <= i < j < live.len() implies live[i].destination != live[j].destination
                && live[i].accepted_order != live[j].accepted_order by {
                if j < rest.len() {
                    assert(live[i] == rest[i] && live[j] == rest[j]);
                } else {
                    assert(live[i] == rest[i]);
                    let k = choose|k: int| 0 <= k < front.len() && front[k] == rest[i];
                    assert(rows[k] == live[i]);
                    assert(rows[rows.len() - 1] == live[j]);
                }
            }
        }
    }
}

/// No more rows were accepted before an order than there are.
proof fn lemma_rank_bound(rows: Seq<Row>, order: u64)
    ensures
        rank(rows, order) <= rows.len(),
    decreases rows.len(),
{
    if rows.len() > 0 {
        lemma_rank_bound(rows.drop_last(), order);
    }
}

/// More rows were accepted before a later order, and strictly more if a row stands between.
proof fn lemma_rank_grows(rows: Seq<Row>, low: u64, high: u64)
    requires
        low <= high,
    ensures
        rank(rows, low) <= rank(rows, high),
        (exists|i: int|
            0 <= i < rows.len() && low <= (#[trigger] rows[i]).accepted_order && rows[i].accepted_order
                < high) ==> rank(rows, low) < rank(rows, high),
    decreases rows.len(),
{
    if rows.len() > 0 {
        let front = rows.drop_last();
        lemma_rank_grows(front, low, high);
        if exists|i: int|
            0 <= i < rows.len() && low <= (#[trigger] rows[i]).accepted_order
                && rows[i].accepted_order < high {
            let i = choose|i: int|
                0 <= i < rows.len() && low <= (#[trigger] rows[i]).accepted_order
                    && rows[i].accepted_order < high;
            if i < front.len() {
                assert(front[i] == rows[i]);
            }
        }
    }
}

/// Ranking keeps which row was accepted before which, keeps rows distinct, and leaves every
/// order below the number of rows.
proof fn lemma_ranked(rows: Seq<Row>)
    requires
        distinct(rows),
        rows.len() <= u64::MAX,
    ensures
        distinct(ranked(rows)),
        forall|i: int|
            0 <= i < rows.len() ==> (#[trigger] ranked(rows)[i]).accepted_order < rows.len(),
        forall|i: int, j: int|
            #![trigger rows[i], rows[j]]
            0 <= i < rows.len() && 0 <= j < rows.len() ==> (rows[i].accepted_order
                < rows[j].accepted_order <==> ranked(rows)[i].accepted_order < ranked(
                rows,
            )[j].accepted_order),
{
    let out = ranked(rows);
    assert forall|i: int| 0 <= i < rows.len() implies rank(rows, rows[i].accepted_order)
        < rows.len() by {
        lemma_rank_below(rows, i);
    }
    assert forall|i: int, j: int|
        #![trigger rows[i], rows[j]]
        0 <= i < rows.len() && 0 <= j < rows.len() && rows[i].accepted_order
            < rows[j].accepted_order implies out[i].accepted_order < out[j].accepted_order by {
        lemma_rank_grows(rows, rows[i].accepted_order, rows[j].accepted_order);
    }
    assert forall|i: int, j: int|
        #![trigger out[i], out[j]]
        0 <= i < j < out.len() implies out[i].destination != out[j].destination
        && out[i].accepted_order != out[j].accepted_order by {
        assert(rows[i].accepted_order != rows[j].accepted_order);
        if rows[i].accepted_order < rows[j].accepted_order {
            assert(out[i].accepted_order < out[j].accepted_order);
        } else {
            assert(out[j].accepted_order < out[i].accepted_order);
        }
    }
}

/// A row is not accepted before itself.
proof fn lemma_rank_below(rows: Seq<Row>, i: int)
    requires
        0 <= i < rows.len(),
    ensures
        rank(rows, rows[i].accepted_order) < rows.len(),
    decreases rows.len(),
{
    let front = rows.drop_last();
    let order = rows[i].accepted_order;
    if i < front.len() {
        assert(front[i] == rows[i]);
        lemma_rank_below(front, i);
    } else {
        lemma_rank_bound(front, order);
    }
}

/// Among distinct rows, [`find_row`] finds the row that is there.
proof fn lemma_find_row(rows: Seq<Row>, i: int)
    requires
        distinct(rows),
        0 <= i < rows.len(),
    ensures
        find_row(rows, rows[i].destination) == Some(rows[i]),
    decreases rows.len(),
{
    if i < rows.len() - 1 {
        let front = rows.drop_last();
        assert(rows[i].destination != rows[rows.len() - 1].destination);
        assert(distinct(front)) by {
            assert forall|a: int, b: int|
                #![trigger front[a], front[b]]
                0 <= a < b < front.len() implies front[a].destination != front[b].destination
                && front[a].accepted_order != front[b].accepted_order by {
                assert(rows[a] == front[a] && rows[b] == front[b]);
            }
        }
        assert(front[i] == rows[i]);
        lemma_find_row(front, i);
    }
}

/// [`find_row`] finds only what is there.
proof fn lemma_find_row_is_row(rows: Seq<Row>, destination: AddressHash)
    ensures
        match find_row(rows, destination) {
            Some(row) => row.destination == destination && exists|i: int|
                0 <= i < rows.len() && #[trigger] rows[i] == row,
            None => !FreshnessModel::has_row(rows, destination),
        },
    decreases rows.len(),
{
    if rows.len() > 0 {
        if rows.last().destination == destination {
            assert(rows[rows.len() - 1] == rows.last());
        } else {
            let front = rows.drop_last();
            lemma_find_row_is_row(front, destination);
            match find_row(rows, destination) {
                Some(row) => {
                    let i = choose|i: int| 0 <= i < front.len() && #[trigger] front[i] == row;
                    assert(rows[i] == row);
                },
                None => {
                    if FreshnessModel::has_row(rows, destination) {
                        let i = choose|i: int|
                            0 <= i < rows.len() && (#[trigger] rows[i]).destination == destination;
                        assert(front[i].destination == destination);
                    }
                },
            }
        }
    }
}

// ---------------------------------------------------------------------------------------
// The table.
/// The blobs of a history still retained.
fn retained_blobs(blobs: &Vec<RetainedBlob>, now: u64, retention: u64) -> (live: Vec<RetainedBlob>)
    ensures
        live@ == live_blobs(blobs@, now, retention),
{
    let mut live: Vec<RetainedBlob> = Vec::new();
    let mut i: usize = 0;
    assert(blobs@.subrange(0, 0) =~= Seq::<RetainedBlob>::empty());
    while i < blobs.len()
        invariant
            i <= blobs@.len(),
            live@ == live_blobs(blobs@.subrange(0, i as int), now, retention),
        decreases blobs@.len() - i,
    {
        let stored = blobs[i];
        proof {
            let next = blobs@.subrange(0, i + 1);
            assert(next.drop_last() =~= blobs@.subrange(0, i as int));
            assert(next.last() == stored);
        }
        if elapsed(now, stored.accepted_at) < retention {
            live.push(stored);
        }
        i += 1;
    }
    assert(blobs@.subrange(0, i as int) =~= blobs@);
    live
}

impl AnnounceFreshness {
    /// Construct an empty bounded table.
    pub fn new(config: AnnounceFreshnessConfig) -> (result: Result<
        Self,
        AnnounceFreshnessConfigError,
    >)
        ensures
            match result {
                Ok(table) => config.fault() is None && table@.wf() && table@.config == config
                    && table@.rows.len() == 0 && table@.next_order == 0,
                Err(e) => config.fault() == Some(e),
            },
    {
        if config.destination_capacity == 0 {
            return Err(AnnounceFreshnessConfigError::ZeroDestinationCapacity);
        }
        if config.blob_capacity == 0 {
            return Err(AnnounceFreshnessConfigError::ZeroBlobCapacity);
        }
        Ok(AnnounceFreshness { config, entries: Vec::new(), next_accept_order: 0 })
    }

    /// The table's declared bounds and retention policy.
    pub fn config(&self) -> (config: AnnounceFreshnessConfig)
        ensures
            config == self@.config,
    {
        self.config
    }

    /// Drop the rows whose incumbent has aged out, and say how many they were.
    fn drop_expired_destinations(&mut self, now: u64) -> (dropped: usize)
        ensures
            final(self)@ == (FreshnessModel {
                rows: live_rows(old(self)@.rows, now, old(self)@.config.retention_ticks),
                ..old(self)@
            }),
            dropped == old(self)@.rows.len() - final(self)@.rows.len(),
    {
        let before: usize = self.entries.len();
        let retention: u64 = self.config.retention_ticks;
        let ghost start = self@;
        let ghost mut seen: int = 0;
        let mut i: usize = 0;
        assert(start.rows.subrange(0, 0) =~= Seq::<Row>::empty());
        assert(self@.rows =~= live_rows(start.rows.subrange(0, 0), now, retention)
            + start.rows.subrange(0, start.rows.len() as int));
        while i < self.entries.len()
            invariant
                0 <= seen <= start.rows.len(),
                self.config == start.config,
                self.next_accept_order == start.next_order,
                i == live_rows(start.rows.subrange(0, seen), now, retention).len(),
                self@.rows == live_rows(start.rows.subrange(0, seen), now, retention)
                    + start.rows.subrange(seen, start.rows.len() as int),
                self@.rows.len() == self.entries@.len(),
            decreases start.rows.len() - seen,
        {
            let ghost head = live_rows(start.rows.subrange(0, seen), now, retention);
            let ghost here = self@.rows;
            proof {
                assert(seen < start.rows.len());
                let next = start.rows.subrange(0, seen + 1);
                assert(next.drop_last() =~= start.rows.subrange(0, seen));
                assert(next.last() == start.rows[seen]);
                assert(here[i as int] == start.rows[seen]);
                assert(self.entries@[i as int]@ == start.rows[seen]);
            }
            if elapsed(now, self.entries[i].incumbent.accepted_at) < retention {
                i += 1;
                proof {
                    assert(here =~= head.push(start.rows[seen]) + start.rows.subrange(
                        seen + 1,
                        start.rows.len() as int,
                    ));
                }
            } else {
                self.entries.remove(i);
                proof {
                    assert(self@.rows =~= here.remove(i as int));
                    assert(self@.rows =~= head + start.rows.subrange(
                        seen + 1,
                        start.rows.len() as int,
                    ));
                }
            }
            proof {
                seen = seen + 1;
            }
        }
        proof {
            assert(seen == start.rows.len());
            assert(start.rows.subrange(0, seen) =~= start.rows);
            assert(self@.rows =~= live_rows(start.rows, now, retention));
            lemma_live_rows(start.rows, now, retention);
        }
        before - self.entries.len()
    }

    /// Drop the blobs that have aged out, and say how many they were.
    fn drop_expired_blobs(&mut self, now: u64) -> (dropped: usize)
        ensures
            final(self)@ == (FreshnessModel {
                rows: trimmed(old(self)@.rows, now, old(self)@.config.retention_ticks),
                ..old(self)@
            }),
            dropped == counted(
                aged_blobs(old(self)@.rows, now, old(self)@.config.retention_ticks),
            ),
    {
        let retention: u64 = self.config.retention_ticks;
        let mut removed: usize = 0;
        let ghost start = self@;
        let mut i: usize = 0;
        assert(start.rows.subrange(0, 0) =~= Seq::<Row>::empty());
        while i < self.entries.len()
            invariant
                i <= self@.rows.len(),
                self@.rows.len() == start.rows.len(),
                self@.rows.len() == self.entries@.len(),
                self.config == start.config,
                self.next_accept_order == start.next_order,
                forall|j: int|
                    0 <= j < i ==> #[trigger] self@.rows[j] == live_row(
                        start.rows[j],
                        now,
                        retention,
                    ),
                forall|j: int| i <= j < start.rows.len() ==> #[trigger] self@.rows[j] == start.rows[j],
                removed == counted(aged_blobs(start.rows.subrange(0, i as int), now, retention)),
            decreases start.rows.len() - i,
        {
            let ghost here = self@.rows;
            assert(here[i as int] == start.rows[i as int]);
            let before: usize = self.entries[i].blobs.len();
            let live = retained_blobs(&self.entries[i].blobs, now, retention);
            proof {
                lemma_live_blobs(start.rows[i as int].blobs, now, retention);
                let next = start.rows.subrange(0, i + 1);
                assert(next.drop_last() =~= start.rows.subrange(0, i as int));
                assert(next.last() == start.rows[i as int]);
            }
            removed = removed.saturating_add(before - live.len());
            let ghost entry = self.entries@[i as int]@;
            self.entries[i].blobs = live;
            proof {
                assert(self.entries@[i as int]@ == live_row(entry, now, retention));
                assert forall|j: int| 0 <= j < start.rows.len() && j != i implies #[trigger] self@.rows[j]
                    == here[j] by {}
            }
            i += 1;
        }
        proof {
            assert(start.rows.subrange(0, i as int) =~= start.rows);
            assert(self@.rows =~= trimmed(start.rows, now, retention));
        }
        removed
    }

    /// How many rows were accepted before `order`.
    fn rank_of(&self, order: u64) -> (n: u64)
        ensures
            n == rank(self@.rows, order),
    {
        let mut n: u64 = 0;
        let mut i: usize = 0;
        assert(self@.rows.subrange(0, 0) =~= Seq::<Row>::empty());
        while i < self.entries.len()
            invariant
                i <= self@.rows.len(),
                self@.rows.len() == self.entries@.len(),
                n == rank(self@.rows.subrange(0, i as int), order),
                n <= i,
            decreases self@.rows.len() - i,
        {
            proof {
                let next = self@.rows.subrange(0, i + 1);
                assert(next.drop_last() =~= self@.rows.subrange(0, i as int));
                assert(next.last() == self@.rows[i as int]);
            }
            if self.entries[i].accepted_order < order {
                n += 1;
            }
            i += 1;
        }
        assert(self@.rows.subrange(0, i as int) =~= self@.rows);
        n
    }

    /// Take the next acceptance order.
    ///
    /// A saturated sequence would give every later acceptance the same age. Rank the bounded
    /// live set anew before allocating that value.
    fn take_accept_order(&mut self) -> (order: u64)
        ensures
            final(self)@.config == old(self)@.config,
            final(self)@.rows == reordered(old(self)@.rows, old(self)@.next_order),
            order == taken_order(old(self)@.rows, old(self)@.next_order),
            final(self)@.next_order == (if order == u64::MAX {
                u64::MAX
            } else {
                (order + 1) as u64
            }),
    {
        if self.next_accept_order == u64::MAX {
            let ghost start = self@.rows;
            let mut ranks: Vec<u64> = Vec::new();
            let mut i: usize = 0;
            while i < self.entries.len()
                invariant
                    i <= self.entries@.len(),
                    self@.rows == start,
                    start.len() == self.entries@.len(),
                    ranks@.len() == i,
                    forall|j: int|
                        0 <= j < i ==> #[trigger] ranks@[j] == rank(
                            start,
                            start[j].accepted_order,
                        ),
                decreases self.entries@.len() - i,
            {
                assert(self@.rows[i as int] == self.entries@[i as int]@);
                let n: u64 = self.rank_of(self.entries[i].accepted_order);
                ranks.push(n);
                i += 1;
            }
            let mut k: usize = 0;
            let ghost next = self.next_accept_order;
            let ghost config = self.config;
            while k < self.entries.len()
                invariant
                    k <= self.entries@.len(),
                    start.len() == self.entries@.len(),
                    ranks@.len() == start.len(),
                    self.config == config,
                    self.next_accept_order == next,
                    forall|j: int|
                        0 <= j < start.len() ==> #[trigger] ranks@[j] == rank(
                            start,
                            start[j].accepted_order,
                        ),
                    forall|j: int|
                        0 <= j < k ==> #[trigger] self@.rows[j] == (Row {
                            accepted_order: ranks@[j],
                            ..start[j]
                        }),
                    forall|j: int|
                        k <= j < start.len() ==> #[trigger] self@.rows[j] == start[j],
                decreases self.entries@.len() - k,
            {
                let ghost here = self@.rows;
                assert(here[k as int] == start[k as int]);
                let ghost entry = self.entries@[k as int]@;
                self.entries[k].accepted_order = ranks[k];
                proof {
                    assert(self.entries@[k as int]@ == (Row {
                        accepted_order: ranks@[k as int],
                        ..entry
                    }));
                    assert forall|j: int| 0 <= j < start.len() && j != k implies #[trigger] self@.rows[j]
                        == here[j] by {}
                }
                k += 1;
            }
            assert(self@.rows =~= ranked(start));
            self.next_accept_order = self.entries.len() as u64;
            assert(self@.rows =~= ranked(start));
        }
        let order: u64 = self.next_accept_order;
        let ghost rows = self@.rows;
        if order < u64::MAX {
            self.next_accept_order = order + 1;
        }
        assert(self@.rows =~= rows);
        order
    }

    /// The row accepted before every other row.
    fn oldest_entry_index(&self) -> (index: usize)
        requires
            self@.rows.len() > 0,
        ensures
            index == oldest_row(self@.rows),
            index < self@.rows.len(),
    {
        let mut best: usize = 0;
        let mut i: usize = 1;
        assert(self@.rows.subrange(0, 1).len() == 1);
        while i < self.entries.len()
            invariant
                1 <= i <= self@.rows.len(),
                self@.rows.len() == self.entries@.len(),
                best < i,
                best == oldest_row(self@.rows.subrange(0, i as int)),
            decreases self@.rows.len() - i,
        {
            proof {
                let next = self@.rows.subrange(0, i + 1);
                assert(next.drop_last() =~= self@.rows.subrange(0, i as int));
                assert(next.last() == self@.rows[i as int]);
                assert(next[best as int] == self@.rows[best as int]);
                assert(self@.rows[i as int] == self.entries@[i as int]@);
                assert(self@.rows[best as int] == self.entries@[best as int]@);
            }
            if self.entries[i].accepted_order < self.entries[best].accepted_order {
                best = i;
            }
            i += 1;
        }
        assert(self@.rows.subrange(0, i as int) =~= self@.rows);
        best
    }

    /// Where a destination's row stands.
    fn entry_index(&self, destination: AddressHash) -> (at: Option<usize>)
        ensures
            match at {
                Some(i) => i < self@.rows.len() && self@.rows[i as int].destination == destination
                    && (distinct(self@.rows) ==> i == FreshnessModel::index_in(
                    self@.rows,
                    destination,
                )) && FreshnessModel::has_row(self@.rows, destination),
                None => !FreshnessModel::has_row(self@.rows, destination),
            },
    {
        let mut i: usize = 0;
        while i < self.entries.len()
            invariant
                i <= self@.rows.len(),
                self@.rows.len() == self.entries@.len(),
                forall|j: int|
                    0 <= j < i ==> (#[trigger] self@.rows[j]).destination != destination,
            decreases self@.rows.len() - i,
        {
            assert(self@.rows[i as int] == self.entries@[i as int]@);
            if self.entries[i].destination == destination {
                proof {
                    let k = FreshnessModel::index_in(self@.rows, destination);
                    assert(self@.rows[i as int].destination == destination);
                    assert(self@.rows[k].destination == destination);
                }
                return Some(i);
            }
            i += 1;
        }
        None
    }

    /// The row of a destination, if it is still retained.
    fn entry_if_retained(&self, destination: AddressHash, now: u64) -> (entry: Option<
        &DestinationEntry,
    >)
        requires
            distinct(self@.rows),
        ensures
            match entry {
                Some(e) => self@.retained_row(destination, now) == Some(e@),
                None => self@.retained_row(destination, now) is None,
            },
    {
        proof {
            lemma_find_row_is_row(self@.rows, destination);
        }
        match self.entry_index(destination) {
            Some(i) => {
                proof {
                    lemma_find_row(self@.rows, i as int);
                    assert(self@.rows[i as int] == self.entries@[i as int]@);
                }
                if elapsed(now, self.entries[i].incumbent.accepted_at)
                    < self.config.retention_ticks {
                    Some(&self.entries[i])
                } else {
                    None
                }
            },
            None => None,
        }
    }

    /// Whether a row's history still holds a blob.
    fn is_remembered(&self, entry: &DestinationEntry, blob: AnnounceBlob, now: u64) -> (found: bool)
        ensures
            found == self@.remembers(entry@, blob, now),
    {
        let mut i: usize = 0;
        while i < entry.blobs.len()
            invariant
                i <= entry.blobs@.len(),
                forall|j: int|
                    0 <= j < i ==> !((#[trigger] entry@.blobs[j]).blob == blob && retained(
                        now,
                        entry@.blobs[j].accepted_at,
                        self@.config.retention_ticks,
                    )),
            decreases entry.blobs@.len() - i,
        {
            let stored = entry.blobs[i];
            if stored.blob == blob && elapsed(now, stored.accepted_at)
                < self.config.retention_ticks {
                assert(entry@.blobs[i as int] == stored);
                return true;
            }
            i += 1;
        }
        false
    }

    /// Decide whether a candidate may change caller-owned announce state.
    ///
    /// This method is pure: an accepted result is not durable until the caller
    /// invokes [`Self::record_accepted`].  `route_ttl == 0` means an incumbent
    /// is immediately route-expired.  Tick deltas use saturating arithmetic, so
    /// a backwards caller tick cannot make an incumbent or retained blob expire.
    pub fn evaluate(
        &self,
        candidate: AnnounceFreshnessCandidate,
        now: u64,
        route_ttl: u64,
    ) -> (decision: AnnounceFreshnessDecision)
        requires
            self@.wf(),
        ensures
            decision == self@.decision(candidate, now, route_ttl),
    {
        proof {
            lemma_find_row_is_row(self@.rows, candidate.destination);
        }
        let entry = match self.entry_if_retained(candidate.destination, now) {
            Some(entry) => entry,
            None => {
                return AnnounceFreshnessDecision::Accept(AnnounceFreshnessAccept::FirstSighting);
            },
        };
        if entry.incumbent.blob == candidate.blob || self.is_remembered(
            entry,
            candidate.blob,
            now,
        ) {
            return AnnounceFreshnessDecision::Reject(AnnounceFreshnessReject::Replay);
        }
        if candidate.timebase() > entry.incumbent.timebase {
            return AnnounceFreshnessDecision::Accept(AnnounceFreshnessAccept::NewerTimebase);
        }
        if elapsed(now, entry.incumbent.accepted_at) >= route_ttl && candidate.hops
            > entry.incumbent.hops {
            return AnnounceFreshnessDecision::Accept(
                AnnounceFreshnessAccept::ExpiredIncumbentWorseRoute,
            );
        }
        AnnounceFreshnessDecision::Reject(AnnounceFreshnessReject::StaleTimebase)
    }
}

// ---------------------------------------------------------------------------------------
// The invariant is kept.
/// What is live of a well-formed table is well-formed: rows stay distinct and whole.
proof fn lemma_live_wf(model: FreshnessModel, now: u64)
    requires
        model.wf(),
    ensures
        model.live(now).len() <= model.rows.len(),
        distinct(model.live(now)),
        forall|i: int|
            0 <= i < model.live(now).len() ==> model.row_wf(#[trigger] model.live(now)[i]) && retained(
                now,
                model.live(now)[i].incumbent.accepted_at,
                model.config.retention_ticks,
            ),
        model.next_order == u64::MAX || forall|i: int|
            0 <= i < model.live(now).len() ==> (#[trigger] model.live(now)[i]).accepted_order
                < model.next_order,
{
    let retention = model.config.retention_ticks;
    let kept = live_rows(model.rows, now, retention);
    let live = model.live(now);
    lemma_live_rows(model.rows, now, retention);
    assert forall|i: int| 0 <= i < live.len() implies model.row_wf(#[trigger] live[i]) && retained(
        now,
        live[i].incumbent.accepted_at,
        retention,
    ) && (model.next_order == u64::MAX || live[i].accepted_order < model.next_order) by {
        let k = choose|k: int| 0 <= k < model.rows.len() && #[trigger] model.rows[k] == kept[i];
        assert(model.row_wf(model.rows[k]));
        lemma_live_blobs(kept[i].blobs, now, retention);
    }
    assert forall|i: int, j: int|
        #![trigger live[i], live[j]]
        0 <= i < j < live.len() implies live[i].destination != live[j].destination
        && live[i].accepted_order != live[j].accepted_order by {
        assert(kept[i].destination != kept[j].destination && kept[i].accepted_order
            != kept[j].accepted_order);
    }
}

/// Rows that are ready for a record are well-formed, and no row has the next order.
proof fn lemma_ready_wf(model: FreshnessModel, now: u64)
    requires
        model.wf(),
    ensures
        model.ready(now).len() == model.live(now).len(),
        model.ready(now).len() <= model.rows.len(),
        distinct(model.ready(now)),
        forall|i: int|
            0 <= i < model.ready(now).len() ==> model.row_wf(#[trigger] model.ready(now)[i])
                && model.ready(now)[i].accepted_order < model.order_for(now) && retained(
                now,
                model.ready(now)[i].incumbent.accepted_at,
                model.config.retention_ticks,
            ),
{
    lemma_live_wf(model, now);
    let live = model.live(now);
    if model.next_order == u64::MAX {
        lemma_ranked(live);
        assert forall|i: int| 0 <= i < live.len() implies model.row_wf(
            #[trigger] ranked(live)[i],
        ) && retained(
            now,
            ranked(live)[i].incumbent.accepted_at,
            model.config.retention_ticks,
        ) by {
            assert(model.row_wf(live[i]));
        }
    }
}

/// Recording keeps the invariant: both bounds hold, and no destination has two rows.
pub proof fn law_record_keeps_wf(
    model: FreshnessModel,
    candidate: AnnounceFreshnessCandidate,
    accepted_at: u64,
)
    requires
        model.wf(),
    ensures
        model.after_record(candidate, accepted_at).wf(),
{
    lemma_ready_wf(model, accepted_at);
    let rows = model.ready(accepted_at);
    let order = model.order_for(accepted_at);
    let after = model.after_record(candidate, accepted_at);
    let at = FreshnessModel::index_in(rows, candidate.destination);
    AnnounceBlob::lemma_bytes_decide(candidate.blob, candidate.blob);
    crate::announce::lemma_timebase_fits(candidate.blob@);
    if FreshnessModel::has_row(rows, candidate.destination) {
        assert(rows[at].destination == candidate.destination);
        assert(model.row_wf(rows[at]));
        assert forall|i: int, j: int|
            #![trigger after.rows[i], after.rows[j]]
            0 <= i < j < after.rows.len() implies after.rows[i].destination
            != after.rows[j].destination && after.rows[i].accepted_order
            != after.rows[j].accepted_order by {
            assert(rows[i].destination != rows[j].destination);
        }
        assert forall|i: int| 0 <= i < after.rows.len() implies after.row_wf(
            #[trigger] after.rows[i],
        ) && (after.rows[i].accepted_order < after.next_order || after.next_order == u64::MAX) by {
            assert(model.row_wf(rows[i]));
        }
    } else {
        let oldest = oldest_row(rows);
        let full = rows.len() == model.config.destination_capacity;
        if full {
            lemma_oldest_row(rows);
        }
        let kept = if full {
            rows.remove(oldest)
        } else {
            rows
        };
        assert forall|i: int| 0 <= i < kept.len() implies exists|k: int|
            0 <= k < rows.len() && #[trigger] rows[k] == #[trigger] kept[i] && (full ==> k == (
            if i < oldest {
                i
            } else {
                i + 1
            })) && (!full ==> k == i) by {
            let k = if full && i >= oldest {
                i + 1
            } else {
                i
            };
            assert(rows[k] == kept[i]);
        }
        assert forall|i: int, j: int|
            #![trigger after.rows[i], after.rows[j]]
            0 <= i < j < after.rows.len() implies after.rows[i].destination
            != after.rows[j].destination && after.rows[i].accepted_order
            != after.rows[j].accepted_order by {
            let k = if full && i >= oldest {
                i + 1
            } else {
                i
            };
            assert(rows[k] == kept[i]);
            if j < kept.len() {
                let l = if full && j >= oldest {
                    j + 1
                } else {
                    j
                };
                assert(rows[l] == kept[j]);
            }
        }
        assert forall|i: int| 0 <= i < after.rows.len() implies after.row_wf(
            #[trigger] after.rows[i],
        ) && (after.rows[i].accepted_order < after.next_order || after.next_order == u64::MAX) by {
            if i < kept.len() {
                let k = if full && i >= oldest {
                    i + 1
                } else {
                    i
                };
                assert(rows[k] == kept[i]);
                assert(model.row_wf(rows[k]));
            }
        }
    }
}

/// Shortening keeps rows distinct and whole under the new bound.
proof fn lemma_shortened_wf(model: FreshnessModel, rows: Seq<Row>)
    requires
        model.config.blob_capacity > 0,
        distinct(rows),
        forall|i: int|
            0 <= i < rows.len() ==> (#[trigger] rows[i]).blobs.len() >= 1 && rows[i].blobs.last()
                == (RetainedBlob {
                blob: rows[i].incumbent.blob,
                accepted_at: rows[i].incumbent.accepted_at,
            }) && rows[i].incumbent.timebase == rows[i].incumbent.blob.ordinal(),
    ensures
        distinct(shortened(rows, model.config.blob_capacity as nat)),
        forall|i: int|
            0 <= i < rows.len() ==> model.row_wf(
                #[trigger] shortened(rows, model.config.blob_capacity as nat)[i],
            ),
{
    let out = shortened(rows, model.config.blob_capacity as nat);
    assert forall|i: int, j: int|
        #![trigger out[i], out[j]]
        0 <= i < j < out.len() implies out[i].destination != out[j].destination
        && out[i].accepted_order != out[j].accepted_order by {
        assert(rows[i].destination != rows[j].destination && rows[i].accepted_order
            != rows[j].accepted_order);
    }
    assert forall|i: int| 0 <= i < rows.len() implies model.row_wf(#[trigger] out[i]) by {
        assert(rows[i].blobs.len() >= 1);
    }
}

/// Eviction only takes rows away, down to the capacity.
proof fn lemma_evicted_to(rows: Seq<Row>, capacity: nat)
    ensures
        drawn_from(evicted_to(rows, capacity), rows),
        distinct(rows) ==> distinct(evicted_to(rows, capacity)),
        evicted_to(rows, capacity).len() == (if rows.len() <= capacity {
            rows.len()
        } else {
            capacity
        }),
    decreases rows.len(),
{
    if rows.len() > capacity {
        lemma_oldest_row(rows);
        let oldest = oldest_row(rows);
        let rest = rows.remove(oldest);
        lemma_evicted_to(rest, capacity);
        let out = evicted_to(rows, capacity);
        assert(out == evicted_to(rest, capacity));
        assert forall|j: int| 0 <= j < out.len() implies rows.contains(#[trigger] out[j]) by {
            let k = choose|k: int| 0 <= k < rest.len() && #[trigger] rest[k] == out[j];
            let i = if k < oldest {
                k
            } else {
                k + 1
            };
            assert(rows[i] == out[j]);
        }
        assert(drawn_from(out, rows));
        if distinct(rows) {
            assert forall|i: int, j: int|
                #![trigger rest[i], rest[j]]
                0 <= i < j < rest.len() implies rest[i].destination != rest[j].destination
                && rest[i].accepted_order != rest[j].accepted_order by {
                let a = if i < oldest {
                    i
                } else {
                    i + 1
                };
                let b = if j < oldest {
                    j
                } else {
                    j + 1
                };
                assert(rows[a] == rest[i] && rows[b] == rest[j]);
            }
        }
    } else {
        assert(evicted_to(rows, capacity) == rows);
    }
}

/// New bounds keep the invariant.
pub proof fn law_reconfigure_keeps_wf(
    model: FreshnessModel,
    config: AnnounceFreshnessConfig,
    now: u64,
)
    requires
        model.wf(),
        config.fault() is None,
    ensures
        model.after_reconfigure(config, now).wf(),
{
    let retention = config.retention_ticks;
    let moved = FreshnessModel { config, ..model };
    let kept = live_rows(model.rows, now, retention);
    let live = moved.live(now);
    lemma_live_rows(model.rows, now, retention);
    assert forall|i: int| 0 <= i < live.len() implies (#[trigger] live[i]).blobs.len() >= 1
        && live[i].blobs.last() == (RetainedBlob {
        blob: live[i].incumbent.blob,
        accepted_at: live[i].incumbent.accepted_at,
    }) && live[i].incumbent.timebase == live[i].incumbent.blob.ordinal() && (model.next_order
        == u64::MAX || live[i].accepted_order < model.next_order) by {
        let k = choose|k: int| 0 <= k < model.rows.len() && #[trigger] model.rows[k] == kept[i];
        assert(model.row_wf(model.rows[k]));
        lemma_live_blobs(kept[i].blobs, now, retention);
    }
    assert(distinct(live)) by {
        assert forall|i: int, j: int|
            #![trigger live[i], live[j]]
            0 <= i < j < live.len() implies live[i].destination != live[j].destination
            && live[i].accepted_order != live[j].accepted_order by {
            assert(kept[i].destination != kept[j].destination && kept[i].accepted_order
                != kept[j].accepted_order);
        }
    }
    lemma_shortened_wf(moved, live);
    let short = shortened(live, config.blob_capacity as nat);
    lemma_evicted_to(short, config.destination_capacity as nat);
    let after = model.after_reconfigure(config, now);
    assert forall|i: int| 0 <= i < after.rows.len() implies after.row_wf(#[trigger] after.rows[i])
        && (after.next_order == u64::MAX || after.rows[i].accepted_order < after.next_order) by {
        let k = choose|k: int| 0 <= k < short.len() && #[trigger] short[k] == after.rows[i];
        assert(moved.row_wf(short[k]));
        assert(live[k].accepted_order == short[k].accepted_order);
    }
}

impl AnnounceFreshness {
    /// Record an already-admitted candidate after address-book admission succeeds.
    ///
    /// This intentionally does not re-evaluate: callers can decline an otherwise
    /// acceptable announce when address-book admission fails.  Under the caller's
    /// packet serialization guard, record after that admission and before route
    /// mutation, publication, or relay so those later effects share one committed
    /// freshness result. Calling this for a rejected candidate violates the
    /// evaluate-then-record contract and is a caller bug.
    pub fn record_accepted(
        &mut self,
        candidate: AnnounceFreshnessCandidate,
        accepted_at: u64,
    ) -> (record: AnnounceFreshnessRecord)
        requires
            old(self)@.wf(),
        ensures
            final(self)@ == old(self)@.after_record(candidate, accepted_at),
            final(self)@.wf(),
            record == old(self)@.record_of(candidate, accepted_at),
    {
        let ghost start = self@;
        proof {
            lemma_ready_wf(start, accepted_at);
            law_record_keeps_wf(start, candidate, accepted_at);
            lemma_live_rows(start.rows, accepted_at, start.config.retention_ticks);
        }
        let expired_destinations: usize = self.drop_expired_destinations(accepted_at);
        let expired_blobs: usize = self.drop_expired_blobs(accepted_at);
        assert(self@.rows == start.live(accepted_at));
        let accepted_order: u64 = self.take_accept_order();
        let ghost rows = start.ready(accepted_at);
        assert(self@.rows == rows);
        assert(accepted_order == start.order_for(accepted_at));
        let stored = RetainedBlob { blob: candidate.blob, accepted_at };
        let incumbent = Incumbent {
            blob: candidate.blob,
            timebase: candidate.timebase(),
            hops: candidate.hops,
            accepted_at,
        };
        if let Some(index) = self.entry_index(candidate.destination) {
            proof {
                assert(self@.rows[index as int] == self.entries@[index as int]@);
                assert(start.row_wf(rows[index as int]));
            }
            let mut evicted_blob: Option<AnnounceBlob> = None;
            if self.entries[index].blobs.len() == self.config.blob_capacity {
                let removed = self.entries[index].blobs.remove(0);
                evicted_blob = Some(removed.blob);
            }
            self.entries[index].blobs.push(stored);
            self.entries[index].incumbent = incumbent;
            self.entries[index].accepted_order = accepted_order;
            proof {
                let after = start.after_record(candidate, accepted_at);
                let room = start.with_room(rows[index as int].blobs);
                assert(self.entries@[index as int]@.blobs =~= room.push(stored));
                assert(self.entries@[index as int]@ == start.recorded_row(
                    candidate,
                    accepted_at,
                    room,
                ));
                assert(self@.rows =~= after.rows) by {
                    assert forall|j: int| 0 <= j < rows.len() && j != index implies #[trigger] self@.rows[j]
                        == rows[j] by {}
                }
            }
            return AnnounceFreshnessRecord {
                expired_destinations,
                expired_blobs,
                evicted_blob,
                evicted_destination: None,
                inserted_destination: false,
            };
        }
        let mut evicted_destination: Option<AddressHash> = None;
        if self.entries.len() == self.config.destination_capacity {
            let index: usize = self.oldest_entry_index();
            assert(self@.rows[index as int] == self.entries@[index as int]@);
            let removed = self.entries.remove(index);
            evicted_destination = Some(removed.destination);
            assert(self@.rows =~= rows.remove(oldest_row(rows)));
        }
        let ghost kept = self@.rows;
        let mut blobs: Vec<RetainedBlob> = Vec::new();
        blobs.push(stored);
        let entry = DestinationEntry {
            destination: candidate.destination,
            incumbent,
            blobs,
            accepted_order,
        };
        self.entries.push(entry);
        proof {
            assert(entry@.blobs =~= Seq::<RetainedBlob>::empty().push(stored));
            assert(self@.rows =~= kept.push(entry@));
            assert(self@.rows =~= start.after_record(candidate, accepted_at).rows);
        }
        AnnounceFreshnessRecord {
            expired_destinations,
            expired_blobs,
            evicted_blob: None,
            evicted_destination,
            inserted_destination: true,
        }
    }

    /// Keep only the newest blobs of every row, and say how many had to go.
    fn shorten_histories(&mut self) -> (dropped: usize)
        ensures
            final(self)@ == (FreshnessModel {
                rows: shortened(old(self)@.rows, old(self)@.config.blob_capacity as nat),
                ..old(self)@
            }),
            dropped == counted(
                excess_blobs(old(self)@.rows, old(self)@.config.blob_capacity as nat),
            ),
    {
        let capacity: usize = self.config.blob_capacity;
        let mut removed: usize = 0;
        let ghost start = self@;
        let mut i: usize = 0;
        assert(start.rows.subrange(0, 0) =~= Seq::<Row>::empty());
        while i < self.entries.len()
            invariant
                i <= self@.rows.len(),
                capacity == start.config.blob_capacity,
                self@.rows.len() == start.rows.len(),
                self@.rows.len() == self.entries@.len(),
                self.config == start.config,
                self.next_accept_order == start.next_order,
                forall|j: int|
                    0 <= j < i ==> #[trigger] self@.rows[j] == (Row {
                        blobs: newest_blobs(start.rows[j].blobs, capacity as nat),
                        ..start.rows[j]
                    }),
                forall|j: int| i <= j < start.rows.len() ==> #[trigger] self@.rows[j] == start.rows[j],
                removed == counted(excess_blobs(start.rows.subrange(0, i as int), capacity as nat)),
            decreases start.rows.len() - i,
        {
            let ghost here = self@.rows;
            assert(here[i as int] == start.rows[i as int]);
            proof {
                let next = start.rows.subrange(0, i + 1);
                assert(next.drop_last() =~= start.rows.subrange(0, i as int));
                assert(next.last() == start.rows[i as int]);
            }
            let ghost entry = self.entries@[i as int]@;
            let length: usize = self.entries[i].blobs.len();
            if length > capacity {
                let excess: usize = length - capacity;
                let mut newest: Vec<RetainedBlob> = Vec::new();
                let mut k: usize = excess;
                while k < length
                    invariant
                        excess <= k <= length,
                        i < self.entries@.len(),
                        length == self.entries@[i as int].blobs@.len(),
                        newest@ == self.entries@[i as int].blobs@.subrange(excess as int, k as int),
                    decreases length - k,
                {
                    newest.push(self.entries[i].blobs[k]);
                    k += 1;
                    assert(newest@ =~= self.entries@[i as int].blobs@.subrange(
                        excess as int,
                        k as int,
                    ));
                }
                self.entries[i].blobs = newest;
                removed = removed.saturating_add(excess);
            }
            proof {
                assert(self.entries@[i as int]@.blobs =~= newest_blobs(
                    entry.blobs,
                    capacity as nat,
                ));
                assert forall|j: int| 0 <= j < start.rows.len() && j != i implies #[trigger] self@.rows[j]
                    == here[j] by {}
            }
            i += 1;
        }
        proof {
            assert(start.rows.subrange(0, i as int) =~= start.rows);
            assert(self@.rows =~= shortened(start.rows, capacity as nat));
        }
        removed
    }

    /// Change bounds without resetting still-retained freshness state.
    ///
    /// The supplied `now` applies the new retention window.  If a smaller
    /// capacity requires eviction, history is trimmed in acceptance order and
    /// rows are evicted by their oldest acceptance event.  Invalid zero
    /// capacities leave the table unchanged.
    pub fn reconfigure(&mut self, config: AnnounceFreshnessConfig, now: u64) -> (result: Result<
        AnnounceFreshnessReconfigure,
        AnnounceFreshnessConfigError,
    >)
        requires
            old(self)@.wf(),
        ensures
            final(self)@.wf(),
            match result {
                Ok(report) => config.fault() is None && final(self)@ == old(
                    self,
                )@.after_reconfigure(config, now) && report == old(self)@.reconfigure_of(
                    config,
                    now,
                ),
                Err(e) => config.fault() == Some(e) && final(self)@ == old(self)@,
            },
    {
        if config.destination_capacity == 0 {
            return Err(AnnounceFreshnessConfigError::ZeroDestinationCapacity);
        }
        if config.blob_capacity == 0 {
            return Err(AnnounceFreshnessConfigError::ZeroBlobCapacity);
        }
        let ghost start = self@;
        proof {
            law_reconfigure_keeps_wf(start, config, now);
            lemma_live_rows(start.rows, now, config.retention_ticks);
        }
        self.config = config;
        assert(self@.rows =~= start.rows);
        let expired_destinations: usize = self.drop_expired_destinations(now);
        let expired_blobs: usize = self.drop_expired_blobs(now);
        let evicted_blobs: usize = self.shorten_histories();
        let ghost short = self@.rows;
        let mut evicted_destinations: usize = 0;
        while self.entries.len() > self.config.destination_capacity
            invariant
                config.destination_capacity > 0,
                self.config == config,
                self.next_accept_order == start.next_order,
                self@.rows.len() == self.entries@.len(),
                self@.rows.len() + evicted_destinations == short.len(),
                short.len() <= usize::MAX,
                evicted_destinations > 0 ==> self@.rows.len() >= config.destination_capacity,
                evicted_to(self@.rows, config.destination_capacity as nat) == evicted_to(
                    short,
                    config.destination_capacity as nat,
                ),
            decreases self@.rows.len(),
        {
            let ghost here = self@.rows;
            let index: usize = self.oldest_entry_index();
            self.entries.remove(index);
            assert(self@.rows =~= here.remove(oldest_row(here)));
            evicted_destinations += 1;
        }
        Ok(
            AnnounceFreshnessReconfigure {
                expired_destinations,
                expired_blobs,
                evicted_blobs,
                evicted_destinations,
            },
        )
    }
}

// ---------------------------------------------------------------------------------------
// What the table promises across calls.
/// After a record, the candidate is its destination's incumbent.
proof fn lemma_recorded_row(
    model: FreshnessModel,
    candidate: AnnounceFreshnessCandidate,
    accepted_at: u64,
)
    requires
        model.wf(),
    ensures
        ({
            let rows = model.ready(accepted_at);
            let at = FreshnessModel::index_in(rows, candidate.destination);
            let blobs = if FreshnessModel::has_row(rows, candidate.destination) {
                model.with_room(rows[at].blobs)
            } else {
                Seq::empty()
            };
            find_row(model.after_record(candidate, accepted_at).rows, candidate.destination)
                == Some(model.recorded_row(candidate, accepted_at, blobs))
        }),
{
    law_record_keeps_wf(model, candidate, accepted_at);
    lemma_ready_wf(model, accepted_at);
    let rows = model.ready(accepted_at);
    let at = FreshnessModel::index_in(rows, candidate.destination);
    let after = model.after_record(candidate, accepted_at);
    if FreshnessModel::has_row(rows, candidate.destination) {
        assert(rows[at].destination == candidate.destination);
        lemma_find_row(after.rows, at);
    } else {
        if rows.len() == model.config.destination_capacity {
            lemma_oldest_row(rows);
        }
        lemma_find_row(after.rows, after.rows.len() - 1);
    }
}

/// What was recorded is not accepted again: while it is retained, the same blob for the same
/// destination is a replay, over whatever route it arrives.
pub proof fn law_recorded_blob_is_a_replay(
    model: FreshnessModel,
    candidate: AnnounceFreshnessCandidate,
    accepted_at: u64,
    again: AnnounceFreshnessCandidate,
    now: u64,
    route_ttl: u64,
)
    requires
        model.wf(),
        again.destination == candidate.destination,
        again.blob == candidate.blob,
        retained(now, accepted_at, model.config.retention_ticks),
    ensures
        model.after_record(candidate, accepted_at).decision(again, now, route_ttl)
            == AnnounceFreshnessDecision::Reject(AnnounceFreshnessReject::Replay),
{
    lemma_recorded_row(model, candidate, accepted_at);
}

/// A newer incumbent does not make the table forget: a blob of a destination's history that
/// is still retained, and for which there is room beside the new one, stays a replay.
pub proof fn law_history_outlives_a_newer_incumbent(
    model: FreshnessModel,
    newer: AnnounceFreshnessCandidate,
    accepted_at: u64,
    old_blob: RetainedBlob,
    again: AnnounceFreshnessCandidate,
    now: u64,
    route_ttl: u64,
)
    requires
        model.wf(),
        model.retained_row(newer.destination, accepted_at) matches Some(row)
            && row.blobs.contains(old_blob) && live_blobs(
            row.blobs,
            accepted_at,
            model.config.retention_ticks,
        ).len() < model.config.blob_capacity,
        retained(accepted_at, old_blob.accepted_at, model.config.retention_ticks),
        retained(now, old_blob.accepted_at, model.config.retention_ticks),
        retained(now, accepted_at, model.config.retention_ticks),
        again.destination == newer.destination,
        again.blob == old_blob.blob,
    ensures
        model.after_record(newer, accepted_at).decision(again, now, route_ttl)
            == AnnounceFreshnessDecision::Reject(AnnounceFreshnessReject::Replay),
{
    let retention = model.config.retention_ticks;
    let row = model.retained_row(newer.destination, accepted_at)->0;
    lemma_find_row_is_row(model.rows, newer.destination);
    let k = choose|k: int| 0 <= k < model.rows.len() && #[trigger] model.rows[k] == row;
    assert(model.rows[k] == row);
    lemma_live_rows(model.rows, accepted_at, retention);
    let kept = live_rows(model.rows, accepted_at, retention);
    assert(kept.contains(row));
    let i = choose|i: int| 0 <= i < kept.len() && kept[i] == row;
    let rows = model.ready(accepted_at);
    lemma_ready_wf(model, accepted_at);
    assert(rows[i].destination == newer.destination);
    assert(rows[i].blobs == live_blobs(row.blobs, accepted_at, retention));
    let at = FreshnessModel::index_in(rows, newer.destination);
    assert(rows[at].destination == newer.destination);
    assert(at == i);
    lemma_live_blobs(row.blobs, accepted_at, retention);
    let live = rows[at].blobs;
    let b = choose|b: int| 0 <= b < row.blobs.len() && row.blobs[b] == old_blob;
    assert(row.blobs[b] == old_blob);
    assert(live.contains(old_blob));
    let j = choose|j: int| 0 <= j < live.len() && live[j] == old_blob;
    lemma_recorded_row(model, newer, accepted_at);
    let after = model.after_record(newer, accepted_at);
    let recorded = find_row(after.rows, newer.destination)->0;
    assert(recorded.blobs[j] == old_blob);
    assert(after.remembers(recorded, again.blob, now));
}

/// While a destination's route is live, only a strictly newer timebase is accepted for it.
pub proof fn law_live_route_only_yields_to_newer(
    model: FreshnessModel,
    candidate: AnnounceFreshnessCandidate,
    now: u64,
    route_ttl: u64,
)
    requires
        model.wf(),
        model.retained_row(candidate.destination, now) matches Some(row) && age(
            now,
            row.incumbent.accepted_at,
        ) < route_ttl,
        model.decision(candidate, now, route_ttl) is Accept,
    ensures
        candidate.blob.ordinal() > model.retained_row(
            candidate.destination,
            now,
        )->0.incumbent.timebase,
{
}

/// An expired route only yields to what is newer or comes over a worse route.
pub proof fn law_expired_route_refuses_better_stale_copies(
    model: FreshnessModel,
    candidate: AnnounceFreshnessCandidate,
    now: u64,
    route_ttl: u64,
)
    requires
        model.wf(),
        model.retained_row(candidate.destination, now) matches Some(row)
            && candidate.blob.ordinal() <= row.incumbent.timebase && candidate.hops
            <= row.incumbent.hops,
    ensures
        model.decision(candidate, now, route_ttl) is Reject,
{
}

/// Recording one destination leaves the others alone: what was retained of another still
/// is, with the same incumbent and all its live blobs, unless it was the row that had to
/// make room.
pub proof fn law_record_leaves_other_destinations(
    model: FreshnessModel,
    candidate: AnnounceFreshnessCandidate,
    accepted_at: u64,
    other: AddressHash,
)
    requires
        model.wf(),
        other != candidate.destination,
        model.record_of(candidate, accepted_at).evicted_destination != Some(other),
        model.retained_row(other, accepted_at) is Some,
    ensures
        ({
            let before = model.retained_row(other, accepted_at)->0;
            model.after_record(candidate, accepted_at).retained_row(other, accepted_at) matches Some(
                after,
            ) && after.destination == other && after.incumbent == before.incumbent && after.blobs
                == live_blobs(before.blobs, accepted_at, model.config.retention_ticks)
        }),
{
    let i = lemma_other_row(model, candidate, accepted_at, other);
    lemma_ready_wf(model, accepted_at);
    assert(model.ready(accepted_at)[i].destination == other);
}

/// A row leaves for want of room only if it was accepted before every other live row.
pub proof fn law_evicted_row_is_the_oldest(
    model: FreshnessModel,
    candidate: AnnounceFreshnessCandidate,
    accepted_at: u64,
)
    requires
        model.wf(),
        model.record_of(candidate, accepted_at).evicted_destination is Some,
    ensures
        ({
            let live = model.live(accepted_at);
            exists|i: int|
                is_oldest_row(live, i) && #[trigger] live[i].destination == model.record_of(
                    candidate,
                    accepted_at,
                ).evicted_destination->0
        }),
{
    lemma_ready_wf(model, accepted_at);
    lemma_live_wf(model, accepted_at);
    let live = model.live(accepted_at);
    let rows = model.ready(accepted_at);
    lemma_oldest_row(rows);
    let i = oldest_row(rows);
    if model.next_order == u64::MAX {
        lemma_ranked(live);
        assert forall|j: int| 0 <= j < live.len() implies live[i].accepted_order <= (
        #[trigger] live[j]).accepted_order by {
            assert(rows[i].accepted_order <= rows[j].accepted_order);
            assert(live[i].destination == rows[i].destination);
        }
    }
    assert(is_oldest_row(live, i));
    assert(live[i].destination == rows[i].destination);
}

/// Acceptance orders do not run out. The order that is taken is above that of every row and
/// below the last one, so the next follows it without overflow. Where the rows had to be
/// ranked anew for that, they are the same rows in the same places, which of two was accepted
/// first is unchanged, and so is the oldest.
pub proof fn law_ranking_anew_keeps_age(rows: Seq<Row>, next_order: u64)
    requires
        distinct(rows),
        rows.len() < u64::MAX,
        next_order == u64::MAX || forall|i: int|
            0 <= i < rows.len() ==> (#[trigger] rows[i]).accepted_order < next_order,
    ensures
        ({
            let after = reordered(rows, next_order);
            let order = taken_order(rows, next_order);
            &&& order < u64::MAX
            &&& distinct(after)
            &&& after.len() == rows.len()
            &&& forall|i: int|
                0 <= i < rows.len() ==> {
                    &&& (#[trigger] after[i]).accepted_order < order
                    &&& after[i].destination == rows[i].destination
                    &&& after[i].incumbent == rows[i].incumbent
                    &&& after[i].blobs == rows[i].blobs
                }
            &&& forall|i: int, j: int|
                #![trigger rows[i], rows[j]]
                0 <= i < rows.len() && 0 <= j < rows.len() ==> (rows[i].accepted_order
                    < rows[j].accepted_order <==> after[i].accepted_order
                    < after[j].accepted_order)
            &&& forall|i: int| is_oldest_row(rows, i) <==> #[trigger] is_oldest_row(after, i)
        }),
{
    let after = reordered(rows, next_order);
    if next_order == u64::MAX {
        lemma_ranked(rows);
        assert forall|i: int| is_oldest_row(rows, i) <==> #[trigger] is_oldest_row(after, i) by {
            if is_oldest_row(rows, i) {
                assert forall|j: int| 0 <= j < after.len() implies after[i].accepted_order <= (
                #[trigger] after[j]).accepted_order by {
                    assert(rows[i].accepted_order <= rows[j].accepted_order);
                }
            }
            if is_oldest_row(after, i) {
                assert forall|j: int| 0 <= j < rows.len() implies rows[i].accepted_order <= (
                #[trigger] rows[j]).accepted_order by {
                    assert(after[i].accepted_order <= after[j].accepted_order);
                }
            }
        }
    }
}

/// Where the row of another destination stands among the rows that are ready, and that a record
/// leaves it as it is there.
proof fn lemma_other_row(
    model: FreshnessModel,
    candidate: AnnounceFreshnessCandidate,
    accepted_at: u64,
    other: AddressHash,
) -> (i: int)
    requires
        model.wf(),
        other != candidate.destination,
        model.record_of(candidate, accepted_at).evicted_destination != Some(other),
        model.retained_row(other, accepted_at) is Some,
    ensures
        0 <= i < model.live(accepted_at).len(),
        model.live(accepted_at)[i].accepted_order == model.retained_row(
            other,
            accepted_at,
        )->0.accepted_order,
        model.ready(accepted_at)[i].destination == other,
        model.ready(accepted_at)[i].incumbent == model.retained_row(
            other,
            accepted_at,
        )->0.incumbent,
        model.ready(accepted_at)[i].blobs == live_blobs(
            model.retained_row(other, accepted_at)->0.blobs,
            accepted_at,
            model.config.retention_ticks,
        ),
        find_row(model.after_record(candidate, accepted_at).rows, other) == Some(
            model.ready(accepted_at)[i],
        ),
{
    let retention = model.config.retention_ticks;
    let row = model.retained_row(other, accepted_at)->0;
    lemma_find_row_is_row(model.rows, other);
    let k = choose|k: int| 0 <= k < model.rows.len() && #[trigger] model.rows[k] == row;
    assert(model.rows[k] == row);
    lemma_live_rows(model.rows, accepted_at, retention);
    let kept = live_rows(model.rows, accepted_at, retention);
    assert(kept.contains(row));
    let i = choose|i: int| 0 <= i < kept.len() && kept[i] == row;
    let rows = model.ready(accepted_at);
    lemma_ready_wf(model, accepted_at);
    law_record_keeps_wf(model, candidate, accepted_at);
    let after = model.after_record(candidate, accepted_at);
    assert(rows[i].destination == other);
    if FreshnessModel::has_row(rows, candidate.destination) {
        let at = FreshnessModel::index_in(rows, candidate.destination);
        assert(rows[at].destination == candidate.destination);
        assert(after.rows[i] == rows[i]);
        lemma_find_row(after.rows, i);
    } else if rows.len() == model.config.destination_capacity {
        lemma_oldest_row(rows);
        let oldest = oldest_row(rows);
        assert(oldest != i);
        let m = if i < oldest {
            i
        } else {
            i - 1
        };
        assert(after.rows[m] == rows[i]);
        lemma_find_row(after.rows, m);
    } else {
        assert(after.rows[i] == rows[i]);
        lemma_find_row(after.rows, i);
    }
    i
}

/// Recording keeps age, also where the acceptance orders had run out: which of two other
/// destinations was accepted first is what it was, both come before the destination just
/// recorded, and the next order follows without overflow.
pub proof fn law_recording_keeps_age(
    model: FreshnessModel,
    candidate: AnnounceFreshnessCandidate,
    accepted_at: u64,
    a: AddressHash,
    b: AddressHash,
)
    requires
        model.wf(),
        model.rows.len() < u64::MAX,
        a != candidate.destination,
        b != candidate.destination,
        model.record_of(candidate, accepted_at).evicted_destination != Some(a),
        model.record_of(candidate, accepted_at).evicted_destination != Some(b),
        model.retained_row(a, accepted_at) is Some,
        model.retained_row(b, accepted_at) is Some,
    ensures
        ({
            let after = model.after_record(candidate, accepted_at);
            let order = model.order_for(accepted_at);
            &&& find_row(after.rows, a) is Some
            &&& find_row(after.rows, b) is Some
            &&& model.retained_row(a, accepted_at)->0.accepted_order < model.retained_row(
                b,
                accepted_at,
            )->0.accepted_order <==> find_row(after.rows, a)->0.accepted_order < find_row(
                after.rows,
                b,
            )->0.accepted_order
            &&& find_row(after.rows, a)->0.accepted_order < order
            &&& find_row(after.rows, b)->0.accepted_order < order
            &&& find_row(after.rows, candidate.destination) matches Some(row)
                && row.accepted_order == order
            &&& after.next_order == order + 1
        }),
{
    let i = lemma_other_row(model, candidate, accepted_at, a);
    let j = lemma_other_row(model, candidate, accepted_at, b);
    let live = model.live(accepted_at);
    let rows = model.ready(accepted_at);
    let after = model.after_record(candidate, accepted_at);
    lemma_live_wf(model, accepted_at);
    lemma_ready_wf(model, accepted_at);
    law_record_keeps_wf(model, candidate, accepted_at);
    if model.next_order == u64::MAX {
        lemma_ranked(live);
    }
    assert(rows[i].accepted_order < model.order_for(accepted_at));
    assert(rows[j].accepted_order < model.order_for(accepted_at));
    assert(live[i].accepted_order < live[j].accepted_order <==> rows[i].accepted_order
        < rows[j].accepted_order);
    let at = FreshnessModel::index_in(rows, candidate.destination);
    let place = if FreshnessModel::has_row(rows, candidate.destination) {
        at
    } else {
        after.rows.len() - 1
    };
    if !FreshnessModel::has_row(rows, candidate.destination) {
        lemma_oldest_row(rows);
    }
    assert(after.rows[place].destination == candidate.destination);
    lemma_find_row(after.rows, place);
}

/// A candidate for a destination that has a row is judged by that row, while it is retained: a
/// blob that is the incumbent's or is still in its history is a replay; else one of a later
/// timebase is newer; else one that came further is taken once the route of the incumbent has
/// expired; and any other is stale.
pub proof fn law_candidate_is_judged_by_its_row(
    model: FreshnessModel,
    candidate: AnnounceFreshnessCandidate,
    now: u64,
    route_ttl: u64,
    i: int,
)
    requires
        model.wf(),
        0 <= i < model.rows.len(),
        model.rows[i].destination == candidate.destination,
        age(now, model.rows[i].incumbent.accepted_at) < model.config.retention_ticks,
    ensures
        ({
            let row = model.rows[i];
            let decision = model.decision(candidate, now, route_ttl);
            let replay = row.incumbent.blob == candidate.blob || exists|j: int|
                0 <= j < row.blobs.len() && (#[trigger] row.blobs[j]).blob == candidate.blob && age(
                    now,
                    row.blobs[j].accepted_at,
                ) < model.config.retention_ticks;
            let newer = candidate.blob.ordinal() > row.incumbent.timebase;
            let worse = age(now, row.incumbent.accepted_at) >= route_ttl && candidate.hops
                > row.incumbent.hops;
            &&& replay <==> decision == AnnounceFreshnessDecision::Reject(
                AnnounceFreshnessReject::Replay,
            )
            &&& !replay && newer <==> decision == AnnounceFreshnessDecision::Accept(
                AnnounceFreshnessAccept::NewerTimebase,
            )
            &&& !replay && !newer && worse <==> decision == AnnounceFreshnessDecision::Accept(
                AnnounceFreshnessAccept::ExpiredIncumbentWorseRoute,
            )
            &&& !replay && !newer && !worse <==> decision == AnnounceFreshnessDecision::Reject(
                AnnounceFreshnessReject::StaleTimebase,
            )
        }),
{
    lemma_find_row(model.rows, i);
    let row = model.rows[i];
    if exists|j: int|
        0 <= j < row.blobs.len() && (#[trigger] row.blobs[j]).blob == candidate.blob && age(
            now,
            row.blobs[j].accepted_at,
        ) < model.config.retention_ticks {
        let j = choose|j: int|
            0 <= j < row.blobs.len() && (#[trigger] row.blobs[j]).blob == candidate.blob && age(
                now,
                row.blobs[j].accepted_at,
            ) < model.config.retention_ticks;
        assert(retained(now, row.blobs[j].accepted_at, model.config.retention_ticks));
        assert(model.remembers(row, candidate.blob, now));
    }
}

/// A destination of which nothing is retained is seen for the first time, and accepted.
pub proof fn law_unknown_destination_is_a_first_sighting(
    model: FreshnessModel,
    candidate: AnnounceFreshnessCandidate,
    now: u64,
    route_ttl: u64,
)
    requires
        forall|i: int|
            0 <= i < model.rows.len() && (#[trigger] model.rows[i]).destination
                == candidate.destination ==> age(now, model.rows[i].incumbent.accepted_at)
                >= model.config.retention_ticks,
    ensures
        model.decision(candidate, now, route_ttl) == AnnounceFreshnessDecision::Accept(
            AnnounceFreshnessAccept::FirstSighting,
        ),
{
    lemma_find_row_is_row(model.rows, candidate.destination);
}

/// What expires is what has reached the retention, and nothing else: rows by their incumbent,
/// blobs by themselves. What stays keeps its order.
pub proof fn law_expiry_is_by_retention(
    rows: Seq<Row>,
    blobs: Seq<RetainedBlob>,
    now: u64,
    retention: u64,
)
    ensures
        live_rows(rows, now, retention) == rows.filter(
            |r: Row| age(now, r.incumbent.accepted_at) < retention,
        ),
        live_blobs(blobs, now, retention) == blobs.filter(
            |b: RetainedBlob| age(now, b.accepted_at) < retention,
        ),
    decreases rows.len() + blobs.len(),
{
    reveal(Seq::filter);
    if rows.len() > 0 {
        law_expiry_is_by_retention(rows.drop_last(), blobs, now, retention);
    } else if blobs.len() > 0 {
        law_expiry_is_by_retention(rows, blobs.drop_last(), now, retention);
    }
}

/// What is recorded is the incumbent of its destination: the candidate's blob, its timebase and
/// its hops, accepted now, and it is the latest of the history. The history before it is what
/// was retained of it, less the oldest where there is no room for one more.
pub proof fn law_recorded_candidate_is_the_incumbent(
    model: FreshnessModel,
    candidate: AnnounceFreshnessCandidate,
    accepted_at: u64,
)
    requires
        model.wf(),
    ensures
        ({
            let after = model.after_record(candidate, accepted_at);
            let report = model.record_of(candidate, accepted_at);
            let retention = model.config.retention_ticks;
            let before = model.retained_row(candidate.destination, accepted_at);
            let history = match before {
                Some(row) => row.blobs.filter(
                    |b: RetainedBlob| age(accepted_at, b.accepted_at) < retention,
                ),
                None => Seq::empty(),
            };
            let full = history.len() == model.config.blob_capacity;
            &&& after.config == model.config
            &&& find_row(after.rows, candidate.destination) matches Some(row) && {
                &&& row.incumbent.blob == candidate.blob
                &&& row.incumbent.timebase == candidate.blob.ordinal()
                &&& row.incumbent.hops == candidate.hops
                &&& row.incumbent.accepted_at == accepted_at
                &&& row.blobs.last().blob == candidate.blob
                &&& row.blobs.last().accepted_at == accepted_at
                &&& row.blobs.drop_last() == (if full {
                    history.drop_first()
                } else {
                    history
                })
            }
            &&& report.inserted_destination <==> before is None
            &&& report.evicted_blob == (if before is Some && full {
                Some(history[0].blob)
            } else {
                None
            })
            &&& before is Some ==> report.evicted_destination is None
        }),
{
    let retention = model.config.retention_ticks;
    let d = candidate.destination;
    let rows = model.ready(accepted_at);
    let after = model.after_record(candidate, accepted_at);
    let live = model.live(accepted_at);
    let kept = live_rows(model.rows, accepted_at, retention);
    lemma_ready_wf(model, accepted_at);
    lemma_live_wf(model, accepted_at);
    lemma_live_rows(model.rows, accepted_at, retention);
    law_record_keeps_wf(model, candidate, accepted_at);
    AnnounceBlob::lemma_bytes_decide(candidate.blob, candidate.blob);
    crate::announce::lemma_timebase_fits(candidate.blob@);
    let at = FreshnessModel::index_in(rows, d);
    lemma_find_row_is_row(model.rows, d);
    if FreshnessModel::has_row(rows, d) {
        assert(rows[at].destination == d);
        assert(kept[at].destination == d);
        let row = kept[at];
        assert(model.rows.contains(row));
        let k = choose|k: int| 0 <= k < model.rows.len() && model.rows[k] == row;
        lemma_find_row(model.rows, k);
        assert(model.retained_row(d, accepted_at) == Some(row));
        law_expiry_is_by_retention(Seq::empty(), row.blobs, accepted_at, retention);
        assert(rows[at].blobs == live_blobs(row.blobs, accepted_at, retention));
        assert(after.rows[at].destination == d);
        lemma_find_row(after.rows, at);
        let history = rows[at].blobs;
        let room = model.with_room(history);
        let last = RetainedBlob { blob: candidate.blob, accepted_at };
        assert(room.push(last).drop_last() =~= room);
        if history.len() == model.config.blob_capacity {
            assert(room =~= history.drop_first());
        }
    } else {
        if let Some(row) = model.retained_row(d, accepted_at) {
            let k = choose|k: int| 0 <= k < model.rows.len() && #[trigger] model.rows[k] == row;
            assert(kept.contains(model.rows[k]));
            let j = choose|j: int| 0 <= j < kept.len() && kept[j] == row;
            assert(rows[j].destination == d);
        }
        if rows.len() > 0 {
            lemma_oldest_row(rows);
        }
        let place = after.rows.len() - 1;
        assert(after.rows[place].destination == d);
        lemma_find_row(after.rows, place);
        let last = RetainedBlob { blob: candidate.blob, accepted_at };
        assert(Seq::<RetainedBlob>::empty().push(last).drop_last() =~= Seq::empty());
        assert(model.config.blob_capacity > 0);
    }
}

/// A record reports how many destinations aged out before it.
pub proof fn law_record_reports_what_aged_out(
    model: FreshnessModel,
    candidate: AnnounceFreshnessCandidate,
    accepted_at: u64,
)
    requires
        model.rows.len() <= usize::MAX,
    ensures
        model.record_of(candidate, accepted_at).expired_destinations + model.rows.filter(
            |r: Row|
                age(accepted_at, r.incumbent.accepted_at) < model.config.retention_ticks,
        ).len() == model.rows.len(),
{
    law_expiry_is_by_retention(
        model.rows,
        Seq::empty(),
        accepted_at,
        model.config.retention_ticks,
    );
    lemma_live_rows(model.rows, accepted_at, model.config.retention_ticks);
}

/// Eviction takes the rows accepted first: every row that stays was accepted after every row
/// that left.
proof fn lemma_evicted_are_older(rows: Seq<Row>, capacity: nat, gone: Row, stays: Row)
    requires
        distinct(rows),
        rows.contains(gone),
        !evicted_to(rows, capacity).contains(gone),
        evicted_to(rows, capacity).contains(stays),
    ensures
        gone.accepted_order < stays.accepted_order,
    decreases rows.len(),
{
    if rows.len() > capacity {
        lemma_oldest_row(rows);
        let oldest = oldest_row(rows);
        let rest = rows.remove(oldest);
        lemma_evicted_to(rest, capacity);
        lemma_distinct_without(rows, oldest);
        let s = choose|s: int|
            0 <= s < evicted_to(rest, capacity).len() && evicted_to(rest, capacity)[s] == stays;
        assert(rest.contains(evicted_to(rest, capacity)[s]));
        let t = choose|t: int| 0 <= t < rest.len() && rest[t] == stays;
        let from = if t < oldest {
            t
        } else {
            t + 1
        };
        assert(rows[from] == stays);
        let g = choose|g: int| 0 <= g < rows.len() && rows[g] == gone;
        if g == oldest {
            assert(rows[oldest].accepted_order <= rows[from].accepted_order);
            if from < oldest {
                assert(rows[from].accepted_order != rows[oldest].accepted_order);
            } else {
                assert(rows[oldest].accepted_order != rows[from].accepted_order);
            }
        } else {
            let at = if g < oldest {
                g
            } else {
                g - 1
            };
            assert(rest[at] == gone);
            lemma_evicted_are_older(rest, capacity, gone, stays);
        }
    }
}

/// Taking a row out keeps the rest distinct.
proof fn lemma_distinct_without(rows: Seq<Row>, k: int)
    requires
        distinct(rows),
        0 <= k < rows.len(),
    ensures
        distinct(rows.remove(k)),
{
    let rest = rows.remove(k);
    assert forall|i: int, j: int|
        #![trigger rest[i], rest[j]]
        0 <= i < j < rest.len() implies rest[i].destination != rest[j].destination
        && rest[i].accepted_order != rest[j].accepted_order by {
        let a = if i < k {
            i
        } else {
            i + 1
        };
        let b = if j < k {
            j
        } else {
            j + 1
        };
        assert(rest[i] == rows[a] && rest[j] == rows[b]);
    }
}

/// New bounds keep what is retained under them: a destination that stays has the incumbent it
/// had and the latest of its retained blobs, as many as may stay; one that leaves was accepted
/// before every one that stays; and none leaves that is retained while there is room.
pub proof fn law_reconfiguring_keeps_the_latest(
    model: FreshnessModel,
    config: AnnounceFreshnessConfig,
    now: u64,
    gone: int,
)
    requires
        model.wf(),
        0 <= gone < model.rows.len(),
        age(now, model.rows[gone].incumbent.accepted_at) < config.retention_ticks,
    ensures
        ({
            let after = model.after_reconfigure(config, now);
            let row = model.rows[gone];
            let history = row.blobs.filter(
                |b: RetainedBlob| age(now, b.accepted_at) < config.retention_ticks,
            );
            let form = Row {
                blobs: if history.len() > config.blob_capacity {
                    history.subrange(
                        history.len() - config.blob_capacity,
                        history.len() as int,
                    )
                } else {
                    history
                },
                ..row
            };
            &&& after.config == config
            &&& after.next_order == model.next_order
            &&& after.rows.len() <= config.destination_capacity
            &&& after.rows.contains(form) || (after.rows.len() == config.destination_capacity
                && forall|j: int|
                0 <= j < after.rows.len() ==> row.accepted_order < (
                #[trigger] after.rows[j]).accepted_order)
            &&& model.reconfigure_of(config, now).evicted_destinations == 0
                ==> after.rows.contains(form)
        }),
{
    let row = model.rows[gone];
    let kept = live_rows(model.rows, now, config.retention_ticks);
    let live = (FreshnessModel { config, ..model }).live(now);
    let short = shortened(live, config.blob_capacity as nat);
    let after = model.after_reconfigure(config, now);
    lemma_live_rows(model.rows, now, config.retention_ticks);
    law_expiry_is_by_retention(Seq::empty(), row.blobs, now, config.retention_ticks);
    assert(kept.contains(row));
    let k = choose|k: int| 0 <= k < kept.len() && kept[k] == row;
    let form = short[k];
    assert(short.contains(form));
    assert(distinct(short)) by {
        assert forall|i: int, j: int|
            #![trigger short[i], short[j]]
            0 <= i < j < short.len() implies short[i].destination != short[j].destination
            && short[i].accepted_order != short[j].accepted_order by {
            assert(kept[i].destination != kept[j].destination && kept[i].accepted_order
                != kept[j].accepted_order);
        }
    }
    lemma_evicted_to(short, config.destination_capacity as nat);
    if !after.rows.contains(form) {
        assert forall|j: int| 0 <= j < after.rows.len() implies row.accepted_order < (
        #[trigger] after.rows[j]).accepted_order by {
            lemma_evicted_are_older(
                short,
                config.destination_capacity as nat,
                form,
                after.rows[j],
            );
        }
    }
}
/// Blobs that age out are those that have reached the retention, and blobs in excess are those
/// beyond what may stay; both add up row by row.
pub proof fn law_lost_blobs_add_up(rows: Seq<Row>, row: Row, now: u64, retention: u64, most: nat)
    ensures
        aged_blobs(Seq::empty(), now, retention) == 0,
        aged_blobs(rows.push(row), now, retention) == aged_blobs(rows, now, retention)
            + row.blobs.filter(|b: RetainedBlob| age(now, b.accepted_at) >= retention).len(),
        excess_blobs(Seq::empty(), most) == 0,
        excess_blobs(rows.push(row), most) == excess_blobs(rows, most) + (if row.blobs.len()
            > most {
            row.blobs.len() - most
        } else {
            0
        }),
{
    assert(rows.push(row).drop_last() =~= rows);
    law_expiry_is_by_retention(Seq::empty(), row.blobs, now, retention);
    lemma_blobs_are_live_or_aged(row.blobs, now, retention);
}

/// A blob is retained or not.
proof fn lemma_blobs_are_live_or_aged(blobs: Seq<RetainedBlob>, now: u64, retention: u64)
    ensures
        blobs.filter(|b: RetainedBlob| age(now, b.accepted_at) < retention).len() + blobs.filter(
            |b: RetainedBlob| age(now, b.accepted_at) >= retention,
        ).len() == blobs.len(),
    decreases blobs.len(),
{
    reveal(Seq::filter);
    if blobs.len() > 0 {
        lemma_blobs_are_live_or_aged(blobs.drop_last(), now, retention);
    }
}

/// What a record or new bounds report is what happened: the destinations that aged out, the
/// blobs that aged out of the histories of the others, and what had to leave for want of room.
pub proof fn law_reports_say_what_left(
    model: FreshnessModel,
    candidate: AnnounceFreshnessCandidate,
    config: AnnounceFreshnessConfig,
    now: u64,
)
    requires
        model.rows.len() <= usize::MAX,
    ensures
        ({
            let kept = model.rows.filter(
                |r: Row| age(now, r.incumbent.accepted_at) < config.retention_ticks,
            );
            let report = model.reconfigure_of(config, now);
            let lost = aged_blobs(kept, now, config.retention_ticks);
            &&& report.expired_destinations == model.rows.len() - kept.len()
            &&& kept.len() > config.destination_capacity ==> report.evicted_destinations
                == kept.len() - config.destination_capacity
            &&& kept.len() <= config.destination_capacity ==> report.evicted_destinations == 0
            &&& lost <= usize::MAX ==> report.expired_blobs == lost
        }),
        ({
            let kept = model.rows.filter(
                |r: Row| age(now, r.incumbent.accepted_at) < model.config.retention_ticks,
            );
            let report = model.record_of(candidate, now);
            let lost = aged_blobs(kept, now, model.config.retention_ticks);
            let known = exists|i: int|
                0 <= i < kept.len() && (#[trigger] kept[i]).destination == candidate.destination;
            &&& report.expired_destinations == model.rows.len() - kept.len()
            &&& lost <= usize::MAX ==> report.expired_blobs == lost
            &&& report.inserted_destination == !known
            &&& report.evicted_destination is Some <==> !known && kept.len()
                == model.config.destination_capacity
        }),
{
    law_expiry_is_by_retention(model.rows, Seq::empty(), now, config.retention_ticks);
    law_expiry_is_by_retention(model.rows, Seq::empty(), now, model.config.retention_ticks);
    lemma_live_rows(model.rows, now, config.retention_ticks);
    lemma_live_rows(model.rows, now, model.config.retention_ticks);
    let kept = live_rows(model.rows, now, model.config.retention_ticks);
    let ready = model.ready(now);
    assert(ready.len() == kept.len());
    assert forall|i: int| 0 <= i < kept.len() implies (#[trigger] ready[i]).destination
        == kept[i].destination by {}
    let d = candidate.destination;
    if FreshnessModel::has_row(ready, d) {
        let i = choose|i: int| 0 <= i < ready.len() && (#[trigger] ready[i]).destination == d;
        assert(kept[i].destination == d);
    }
    if exists|i: int| 0 <= i < kept.len() && (#[trigger] kept[i]).destination == d {
        let i = choose|i: int| 0 <= i < kept.len() && (#[trigger] kept[i]).destination == d;
        assert(ready[i].destination == d);
    }
}

/// A table is set up only with room for a destination and for a blob.
pub proof fn law_bounds_are_not_zero(config: AnnounceFreshnessConfig)
    ensures
        config.fault() is None <==> config.destination_capacity > 0 && config.blob_capacity > 0,
        config.destination_capacity == 0 ==> config.fault() == Some(
            AnnounceFreshnessConfigError::ZeroDestinationCapacity,
        ),
        config.destination_capacity > 0 && config.blob_capacity == 0 ==> config.fault() == Some(
            AnnounceFreshnessConfigError::ZeroBlobCapacity,
        ),
{
}

} // verus!
