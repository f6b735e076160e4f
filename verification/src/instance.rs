//! Retained node lifecycle. Time advances during absence; physical work stays with the caller
//! and must be fenced separately before suspension.

use vstd::prelude::*;

use crate::announce::AnnounceBlob;
use crate::hash::AddressHash;
use crate::node::actions::{counted_up, Actions, ActionsModel};
use crate::node::policy::LINK_IDLE_TIMEOUT;
use crate::node::laws::upkeep::{
    law_absence_is_safe_while_links_outlive_it, law_pause_is_assessed_over_all_links,
};
use crate::node::state::{
    earliest_expiry, expiry_overflows, idle_ids, link_ids, InterruptionPermission,
    InterruptionReport, LinkModel, LinkReading, Node, NodeModel, PauseAssessment, PauseBlocked,
    PendingSlot, Redrive, SessionExpiryReport, TransferSlot,
};
use crate::packet::Packet;
use crate::recent::{index_of, is_aged, lemma_first_aged};

verus! {

/// Why an instance does not do something.
#[derive(Debug, Clone, Copy, PartialEq, Eq, Structural)]
pub enum InstanceError {
    /// It is paused.
    Paused,
    /// It is paused already.
    AlreadyPaused,
    /// It is not paused.
    NotPaused,
    /// The clock went backwards.
    ClockRegression,
    /// It cannot be paused.
    PauseBlocked(PauseBlocked),
}

/// The state of an instance.
pub struct InstanceModel {
    pub node: NodeModel,
    pub last_now: u64,
    pub paused: bool,
}

impl InstanceModel {
    /// What stands against working at a time.
    pub open spec fn idle_reason(self, now: u64) -> Option<InstanceError> {
        if now < self.last_now {
            Some(InstanceError::ClockRegression)
        } else if self.paused {
            Some(InstanceError::Paused)
        } else {
            None
        }
    }

    /// What stands against pausing, whatever a caller permits: a clock that cannot be trusted
    /// with the links' times is no permission to end them.
    pub open spec fn pause_refusal(
        self,
        now: u64,
        return_by: u64,
        permission: InterruptionPermission,
    ) -> Option<InstanceError> {
        if now < self.last_now {
            Some(InstanceError::ClockRegression)
        } else if self.paused {
            Some(InstanceError::AlreadyPaused)
        } else {
            match self.node.assessment().obstacle(now, return_by) {
                None => None,
                Some(reason) => if reason is LinkExpiresBeforeReturn && permission
                    == InterruptionPermission::AllowSessionLoss {
                    None
                } else {
                    Some(InstanceError::PauseBlocked(reason))
                },
            }
        }
    }

    /// With a node at a time.
    pub open spec fn at(self, node: NodeModel, now: u64) -> InstanceModel {
        InstanceModel { node, last_now: now, ..self }
    }
}

/// A node that can be absent: it keeps its state, and its clock only ever goes forward.
pub struct Instance<const P: usize, const A: usize, const L: usize, const R: usize> {
    node: Node<P, A, L, R>,
    last_now: u64,
    paused: bool,
}

impl<const P: usize, const A: usize, const L: usize, const R: usize> View for Instance<P, A, L, R> {
    type V = InstanceModel;

    closed spec fn view(&self) -> InstanceModel {
        InstanceModel { node: self.node@, last_now: self.last_now, paused: self.paused }
    }
}

impl<const P: usize, const A: usize, const L: usize, const R: usize> Instance<P, A, L, R> {
    /// The node is in order.
    pub closed spec fn inv(self) -> bool {
        self.node.inv()
    }

    /// Take a node into the lifecycle at a time.
    pub fn new(node: Node<P, A, L, R>, now: u64) -> (instance: Self)
        requires
            node.inv(),
        ensures
            instance.inv(),
            instance@ == (InstanceModel { node: node@, last_now: now, paused: false }),
    {
        Instance { node, last_now: now, paused: false }
    }

    /// The node.
    pub fn node(&self) -> (node: &Node<P, A, L, R>)
        requires
            self.inv(),
        ensures
            node@ == self@.node,
            node.inv(),
    {
        &self.node
    }

    /// Whether it is paused.
    pub fn is_paused(&self) -> (paused: bool)
        ensures
            paused == self@.paused,
    {
        self.paused
    }

    /// Whether the clock did not go backwards.
    fn time(&self, now: u64) -> (result: Result<(), InstanceError>)
        ensures
            result == (if now < self@.last_now {
                Err::<(), InstanceError>(InstanceError::ClockRegression)
            } else {
                Ok::<(), InstanceError>(())
            }),
    {
        if now < self.last_now {
            Err(InstanceError::ClockRegression)
        } else {
            Ok(())
        }
    }

    /// Whether it works at a time.
    fn active(&self, now: u64) -> (result: Result<(), InstanceError>)
        ensures
            match result {
                Ok(()) => self@.idle_reason(now) is None,
                Err(e) => self@.idle_reason(now) == Some(e),
            },
    {
        if now < self.last_now {
            Err(InstanceError::ClockRegression)
        } else if self.paused {
            Err(InstanceError::Paused)
        } else {
            Ok(())
        }
    }

    /// What the links allow of an absence, if they allow one until `return_by`.
    pub fn assess_pause(&self, now: u64, return_by: u64) -> (result: Result<
        PauseAssessment,
        InstanceError,
    >)
        ensures
            match result {
                Ok(assessment) => self@.idle_reason(now) is None && assessment
                    == self@.node.assessment() && assessment.obstacle(now, return_by) is None,
                Err(e) => self@.idle_reason(now) == Some(e) || (self@.idle_reason(now) is None
                    && self@.node.assessment().obstacle(now, return_by) is Some && e
                    == InstanceError::PauseBlocked(
                    self@.node.assessment().obstacle(now, return_by)->0,
                )),
            },
    {
        if let Err(e) = self.active(now) {
            return Err(e);
        }
        let assessment = self.node.pause_assessment();
        match assessment.can_pause_through(now, return_by) {
            Ok(()) => Ok(assessment),
            Err(reason) => Err(InstanceError::PauseBlocked(reason)),
        }
    }

    /// Go absent until `return_by`. Explicitly ending sessions leaves links whose peers must be
    /// told in the report; the caller must tell them or account for them before changing the
    /// radio.
    pub fn pause(
        &mut self,
        now: u64,
        return_by: u64,
        permission: InterruptionPermission,
    ) -> (result: Result<Option<InterruptionReport>, InstanceError>)
        requires
            old(self).inv(),
        ensures
            final(self).inv(),
            match result {
                Err(e) => old(self)@.pause_refusal(now, return_by, permission) == Some(e) && final(self)@ == old(self)@,
                Ok(None) => old(self)@.pause_refusal(now, return_by, permission) is None && old(
                    self,
                )@.node.assessment().obstacle(now, return_by) is None && final(self)@ == (
                InstanceModel { last_now: now, paused: true, ..old(self)@ }),
                Ok(Some(report)) => old(self)@.pause_refusal(now, return_by, permission) is None
                    && old(self)@.node.assessment().obstacle(now, return_by) is Some
                    && report.links@ == link_ids(old(self)@.node.links)
                    && report.pending@ == Seq::new(
                    old(self)@.node.pending.len(),
                    |i: int| old(self)@.node.pending[i].link_id,
                ) && final(self)@ == (InstanceModel {
                    node: old(self)@.node.interrupted(),
                    last_now: now,
                    paused: true,
                }),
            },
    {
        if let Err(e) = self.time(now) {
            return Err(e);
        }
        if self.paused {
            return Err(InstanceError::AlreadyPaused);
        }
        let mut loss: Option<InterruptionReport> = None;
        if let Err(reason) = self.node.pause_assessment().can_pause_through(now, return_by) {
            // The other failures say that the clock cannot safely interpret retained link
            // state. Explicit session loss cannot turn an untrustworthy clock into permission
            // to mutate it.
            let idle = match reason {
                PauseBlocked::LinkExpiresBeforeReturn { .. } => true,
                _ => false,
            };
            if !idle || permission != InterruptionPermission::AllowSessionLoss {
                return Err(InstanceError::PauseBlocked(reason));
            }
            loss = self.node.force_interrupt(permission);
        }
        self.paused = true;
        self.last_now = now;
        Ok(loss)
    }

    /// Let time pass, absent or not: links that fell idle are reclaimed.
    pub fn advance(&mut self, now: u64) -> (result: Result<SessionExpiryReport, InstanceError>)
        requires
            old(self).inv(),
        ensures
            final(self).inv(),
            match result {
                Err(e) => now < old(self)@.last_now && e == InstanceError::ClockRegression && final(self)@ == old(self)@,
                Ok(report) => now >= old(self)@.last_now && report.links@ == idle_ids(
                    old(self)@.node.links,
                    now,
                ) && final(self)@ == old(self)@.at(old(self)@.node.sessions_expired(now), now),
            },
    {
        if let Err(e) = self.time(now) {
            return Err(e);
        }
        let report = self.node.expire_sessions(now);
        self.last_now = now;
        Ok(report)
    }

    /// Come back: links that fell idle meanwhile are reclaimed, and the others keep their
    /// clocks.
    pub fn resume(&mut self, now: u64) -> (result: Result<SessionExpiryReport, InstanceError>)
        requires
            old(self).inv(),
        ensures
            final(self).inv(),
            match result {
                Err(e) => final(self)@ == old(self)@ && ((now < old(self)@.last_now && e
                    == InstanceError::ClockRegression) || (now >= old(self)@.last_now && !old(
                    self,
                )@.paused && e == InstanceError::NotPaused)),
                Ok(report) => now >= old(self)@.last_now && old(self)@.paused && report.links@
                    == idle_ids(old(self)@.node.links, now) && final(self)@ == (InstanceModel {
                    paused: false,
                    ..old(self)@.at(old(self)@.node.sessions_expired(now), now)
                }),
            },
    {
        if let Err(e) = self.time(now) {
            return Err(e);
        }
        if !self.paused {
            return Err(InstanceError::NotPaused);
        }
        let report = self.node.expire_sessions(now);
        self.last_now = now;
        self.paused = false;
        Ok(report)
    }

    /// Feed a received packet in, with what the link layer made of it.
    pub fn ingest(&mut self, now: u64, packet: &Packet, reading: &LinkReading) -> (result: Result<
        Actions<A>,
        InstanceError,
    >)
        requires
            old(self).inv(),
        ensures
            final(self).inv(),
            match result {
                Err(e) => old(self)@.idle_reason(now) == Some(e) && final(self)@ == old(self)@,
                Ok(actions) => {
                    let step = old(self)@.node.ingested(0, packet@, now, reading@, A as nat);
                    old(self)@.idle_reason(now) is None && actions@ == step.actions && final(self)@
                        == old(self)@.at(step.node, now)
                },
            },
    {
        if let Err(e) = self.active(now) {
            return Err(e);
        }
        let actions = self.node.ingest(0, packet, now, reading);
        self.last_now = now;
        Ok(actions)
    }

    /// Advance the node's own timers.
    pub fn poll(&mut self, now: u64, blob: Option<&AnnounceBlob>, redrive: &Redrive) -> (result:
        Result<Actions<A>, InstanceError>)
        requires
            old(self).inv(),
        ensures
            final(self).inv(),
            match result {
                Err(e) => old(self)@.idle_reason(now) == Some(e) && final(self)@ == old(self)@,
                Ok(actions) => {
                    let step = old(self)@.node.polled(
                        now,
                        0,
                        match blob {
                            Some(b) => Some(*b),
                            None => None,
                        },
                        *redrive,
                        A as nat,
                    );
                    old(self)@.idle_reason(now) is None && actions@ == step.actions && final(self)@
                        == old(self)@.at(step.node, now)
                },
            },
    {
        if let Err(e) = self.active(now) {
            return Err(e);
        }
        let actions = self.node.poll(now, 0, blob, redrive);
        self.last_now = now;
        Ok(actions)
    }

    /// Open a link to a destination the node has heard announce.
    pub fn open_link(
        &mut self,
        now: u64,
        to: AddressHash,
        link_id: AddressHash,
        request: Packet,
    ) -> (result: Result<Option<Actions<A>>, InstanceError>)
        requires
            old(self).inv(),
        ensures
            final(self).inv(),
            match result {
                Err(e) => old(self)@.idle_reason(now) == Some(e) && final(self)@ == old(self)@,
                Ok(Some(actions)) => old(self)@.idle_reason(now) is None && old(
                    self,
                )@.node.book.peers.contains_key(to) && old(self)@.node.pending.len() < L
                    && actions@ == ActionsModel::none(A as nat).sending(0, request@) && final(self)@ == old(self)@.at(
                    NodeModel {
                        pending: old(self)@.node.pending.push(
                            PendingSlot { link_id, destination: to },
                        ),
                        ..old(self)@.node
                    },
                    now,
                ),
                Ok(None) => old(self)@.idle_reason(now) is None && !(old(
                    self,
                )@.node.book.peers.contains_key(to) && old(self)@.node.pending.len() < L) && final(self)@ == old(self)@.at(
                    NodeModel {
                        refused_links: if old(self)@.node.book.peers.contains_key(to) {
                            counted_up(old(self)@.node.refused_links, 1)
                        } else {
                            old(self)@.node.refused_links
                        },
                        ..old(self)@.node
                    },
                    now,
                ),
            },
    {
        if let Err(e) = self.active(now) {
            return Err(e);
        }
        let actions = self.node.open_link(to, 0, link_id, request);
        self.last_now = now;
        Ok(actions)
    }

    /// Send application bytes on an established link, sealed in `packet`.
    pub fn send(&mut self, now: u64, id: AddressHash, packet: Packet) -> (result: Result<
        Option<Actions<A>>,
        InstanceError,
    >)
        requires
            old(self).inv(),
        ensures
            final(self).inv(),
            match result {
                Err(e) => old(self)@.idle_reason(now) == Some(e) && final(self)@ == old(self)@,
                Ok(sent) => old(self)@.idle_reason(now) is None && final(self)@ == old(self)@.at(
                    old(self)@.node,
                    now,
                ) && (sent is Some <==> index_of(old(self)@.node.links, id) is Some) && (
                sent matches Some(actions) ==> actions@ == ActionsModel::none(A as nat).sending(
                    0,
                    packet@,
                )),
            },
    {
        if let Err(e) = self.active(now) {
            return Err(e);
        }
        let actions = self.node.send(id, 0, packet);
        self.last_now = now;
        Ok(actions)
    }

    /// Publish a resource on an established link.
    pub fn publish(&mut self, now: u64, id: AddressHash, advertisement: Packet) -> (result: Result<
        Option<Actions<A>>,
        InstanceError,
    >)
        requires
            old(self).inv(),
        ensures
            final(self).inv(),
            match result {
                Err(e) => old(self)@.idle_reason(now) == Some(e) && final(self)@ == old(self)@,
                Ok(Some(actions)) => old(self)@.idle_reason(now) is None && old(
                    self,
                )@.node.can_publish(id) && actions@ == ActionsModel::none(A as nat).sending(
                    0,
                    advertisement@,
                ) && final(self)@ == old(self)@.at(
                    NodeModel {
                        senders: old(self)@.node.senders.push(
                            TransferSlot { link_id: id, at: now },
                        ),
                        ..old(self)@.node
                    },
                    now,
                ),
                Ok(None) => old(self)@.idle_reason(now) is None && !old(self)@.node.can_publish(id)
                    && final(self)@ == old(self)@.at(old(self)@.node, now),
            },
    {
        if let Err(e) = self.active(now) {
            return Err(e);
        }
        let actions = self.node.publish(id, 0, advertisement, now);
        self.last_now = now;
        Ok(actions)
    }
}

// ---------------------------------------------------------------------------------------
// Laws.
/// Letting sessions go cannot bypass a clock that is not to be trusted: where a link was heard
/// from later than now, or its expiry cannot be told, a pause is refused whatever is permitted.
pub proof fn law_untrusted_clock_is_never_overridden(
    m: InstanceModel,
    now: u64,
    return_by: u64,
    permission: InterruptionPermission,
)
    requires
        match m.node.assessment().obstacle(now, return_by) {
            Some(reason) => reason is ClockBeforeLinkActivity || reason is LinkExpiryOverflow,
            None => false,
        },
    ensures
        m.pause_refusal(now, return_by, permission) is Some,
{
}

/// A pause that preserves sessions is one that every link outlives: nothing that was live is
/// idle on a return in time.
pub proof fn law_preserved_sessions_survive(m: NodeModel, now: u64, return_by: u64)
    requires
        m.assessment().obstacle(now, return_by) is None,
    ensures
        m.sessions_expired(return_by).links == m.links,
{
    assert forall|i: int| 0 <= i < m.links.len() implies !is_aged(
        #[trigger] m.links[i],
        return_by,
        LINK_IDLE_TIMEOUT,
    ) by {
        lemma_bounds(m.links, i);
    }
    lemma_first_aged(m.links, return_by, LINK_IDLE_TIMEOUT);
}

/// The assessment covers every link.
proof fn lemma_bounds(links: Seq<LinkModel>, i: int)
    requires
        0 <= i < links.len(),
        !expiry_overflows(links),
    ensures
        earliest_expiry(links) is Some,
        earliest_expiry(links)->0 <= links[i].seen + LINK_IDLE_TIMEOUT,
    decreases links.len(),
{
    let before = links.drop_last();
    assert(links.last().seen + LINK_IDLE_TIMEOUT <= u64::MAX) by {
        assert(links[links.len() - 1] == links.last());
    }
    assert(!expiry_overflows(before)) by {
        if expiry_overflows(before) {
            let k = choose|k: int|
                0 <= k < before.len() && (#[trigger] before[k]).seen + LINK_IDLE_TIMEOUT > u64::MAX;
            assert(links[k] == before[k]);
        }
    }
    if i < before.len() {
        assert(before[i] == links[i]);
        lemma_bounds(before, i);
    } else if before.len() > 0 {
        lemma_bounds(before, 0);
    }
}

/// An instance works while its clock does not go back and it is not paused; the clock is asked
/// first.
pub proof fn law_instance_works_unless_paused(m: InstanceModel, now: u64)
    ensures
        now < m.last_now ==> m.idle_reason(now) == Some(InstanceError::ClockRegression),
        now >= m.last_now && m.paused ==> m.idle_reason(now) == Some(InstanceError::Paused),
        now >= m.last_now && !m.paused ==> m.idle_reason(now) is None,
{
}

/// A pause is granted to a running instance whose every link outlives it, and, where session
/// loss is permitted, also where a link would only fall idle in the meantime.
pub proof fn law_pause_is_granted_where_links_outlive_it(
    m: InstanceModel,
    now: u64,
    return_by: u64,
    permission: InterruptionPermission,
)
    ensures
        now < m.last_now ==> m.pause_refusal(now, return_by, permission) == Some(
            InstanceError::ClockRegression,
        ),
        now >= m.last_now && m.paused ==> m.pause_refusal(now, return_by, permission) == Some(
            InstanceError::AlreadyPaused,
        ),
        m.last_now <= now <= return_by && !m.paused && (forall|i: int|
            0 <= i < m.node.links.len() ==> (#[trigger] m.node.links[i]).seen <= now && return_by
                < m.node.links[i].seen + 900_000 && m.node.links[i].seen + 900_000 <= u64::MAX)
            ==> m.pause_refusal(now, return_by, permission) is None,
        m.last_now <= now && return_by < now && !m.paused ==> m.pause_refusal(
            now,
            return_by,
            permission,
        ) is Some,
        m.last_now <= now <= return_by && !m.paused && permission
            == InterruptionPermission::AllowSessionLoss && (forall|i: int|
            0 <= i < m.node.links.len() ==> (#[trigger] m.node.links[i]).seen <= now
                && m.node.links[i].seen + 900_000 <= u64::MAX) ==> m.pause_refusal(
            now,
            return_by,
            permission,
        ) is None,
        permission != InterruptionPermission::AllowSessionLoss && (exists|i: int|
            0 <= i < m.node.links.len() && (#[trigger] m.node.links[i]).seen + 900_000
                <= return_by) ==> m.pause_refusal(now, return_by, permission) is Some,
{
    law_absence_is_safe_while_links_outlive_it(m.node, now, return_by);
    law_pause_is_assessed_over_all_links(m.node.links);
}

/// A pause that is granted stops the clock at its time. It keeps every session where each
/// outlives it, and else ends and reports them all.
pub proof fn law_pause_keeps_sessions_or_reports_them<
    const P: usize,
    const A: usize,
    const L: usize,
    const R: usize,
>(
    instance: &mut Instance<P, A, L, R>,
    now: u64,
    return_by: u64,
    permission: InterruptionPermission,
    result: Result<Option<InterruptionReport>, InstanceError>,
)
    requires
        call_ensures(
            Instance::<P, A, L, R>::pause,
            (instance, now, return_by, permission),
            result,
        ),
    ensures
        ({
            let before = old(instance)@;
            let after = final(instance)@;
            &&& result is Ok ==> after.paused && after.last_now == now && !before.paused && now
                >= before.last_now
            &&& result is Err ==> after == before
            &&& result matches Ok(None) ==> after.node == before.node && now <= return_by && (
            forall|i: int|
                0 <= i < before.node.links.len() ==> return_by < (
                #[trigger] before.node.links[i]).seen + 900_000)
            &&& result matches Ok(Some(report)) ==> {
                &&& permission == InterruptionPermission::AllowSessionLoss
                &&& report.links@.len() == before.node.links.len()
                &&& forall|i: int|
                    0 <= i < report.links@.len() ==> #[trigger] report.links@[i]
                        == before.node.links[i].link_id
                &&& after.node.links.len() == 0
                &&& after.node.pending.len() == 0
                &&& after.node.receivers.len() == 0
                &&& after.node.senders.len() == 0
            }
        }),
{
    law_absence_is_safe_while_links_outlive_it(old(instance)@.node, now, return_by);
}

/// Resuming takes a paused instance on, at a time that has not gone back; what fell idle in the
/// meantime is reported and gone.
pub proof fn law_resume_reports_what_fell_idle<
    const P: usize,
    const A: usize,
    const L: usize,
    const R: usize,
>(
    instance: &mut Instance<P, A, L, R>,
    now: u64,
    result: Result<SessionExpiryReport, InstanceError>,
)
    requires
        call_ensures(Instance::<P, A, L, R>::resume, (instance, now), result),
    ensures
        ({
            let before = old(instance)@;
            let after = final(instance)@;
            &&& result is Ok <==> now >= before.last_now && before.paused
            &&& now < before.last_now ==> result == Err::<SessionExpiryReport, InstanceError>(
                InstanceError::ClockRegression,
            )
            &&& now >= before.last_now && !before.paused ==> result == Err::<
                SessionExpiryReport,
                InstanceError,
            >(InstanceError::NotPaused)
            &&& result is Err ==> after == before
            &&& result matches Ok(report) ==> {
                &&& !after.paused
                &&& after.last_now == now
                &&& report.links@ == idle_ids(before.node.links, now)
                &&& after.node == before.node.sessions_expired(now)
            }
        }),
{
}

} // verus!
