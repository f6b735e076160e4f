//! What holds of the queues of interfaces, and of the schedule that empties them.

use vstd::prelude::*;

use crate::endpoint::carriers::{
    admission_at, all_drained, backlog_of, counted_all, iface_index, offered_all, offered_one,
    relayed_out, relays_taken, taken_out,
};
use crate::endpoint::policy::{InterfaceId, QueueDepths, QueueWeights, SelectorModel, TrafficClass};
use crate::endpoint::queues::{IfaceModel, QueueAdmission, QueueModel, SingleQueueResult, Turn};
use crate::packet::PacketModel;

verus! {

/// Where a class's queue stands: control is served first, then interactive, background, and
/// transit last.
pub open spec fn place(class: TrafficClass) -> int {
    match class {
        TrafficClass::Control => 0,
        TrafficClass::Interactive => 1,
        TrafficClass::Background => 2,
        TrafficClass::Transit => 3,
    }
}

/// How deep a class may queue.
pub open spec fn room_for(depths: QueueDepths, class: TrafficClass) -> usize {
    match class {
        TrafficClass::Control => depths.control,
        TrafficClass::Interactive => depths.interactive,
        TrafficClass::Background => depths.background,
        TrafficClass::Transit => depths.transit,
    }
}

/// The share of the class at a place.
pub open spec fn share_at(weights: QueueWeights, at: int) -> u32 {
    if at == 0 {
        weights.control
    } else if at == 1 {
        weights.interactive
    } else if at == 2 {
        weights.background
    } else {
        weights.transit
    }
}

/// How many bytes a packet is on an interface: its header, the transport address if it names
/// one, what it carries, and what the carrier adds.
pub open spec fn length_on(iface: IfaceModel, packet: PacketModel) -> int {
    19 + (if packet.transport is Some {
        16int
    } else {
        0
    }) + packet.payload.len() + iface.wire_overhead
}

/// Whether an interface takes a packet: it is open, it can carry a frame of that length, and
/// the class has room.
pub open spec fn can_take(iface: IfaceModel, packet: PacketModel, class: TrafficClass) -> bool {
    &&& !iface.outbound.closed
    &&& length_on(iface, packet) <= iface.frame_limit
    &&& iface.outbound.queues[place(class)].len() < room_for(iface.outbound.depths, class)
}

/// Whether an interface differs from what it was by one packet behind a class's queue, and by
/// nothing else.
pub open spec fn gained(
    before: IfaceModel,
    after: IfaceModel,
    packet: PacketModel,
    class: TrafficClass,
) -> bool {
    let k = place(class);
    &&& after.id == before.id
    &&& after.frame_limit == before.frame_limit
    &&& after.wire_overhead == before.wire_overhead
    &&& after.outbound.queues.len() == before.outbound.queues.len()
    &&& after.outbound.queues[k].len() == before.outbound.queues[k].len() + 1
    &&& after.outbound.queues[k].last() == packet
    &&& after.outbound.queues[k].drop_last() == before.outbound.queues[k]
    &&& forall|j: int|
        0 <= j < before.outbound.queues.len() && j != k ==> #[trigger] after.outbound.queues[j]
            == before.outbound.queues[j]
    &&& after.outbound == (QueueModel { queues: after.outbound.queues, ..before.outbound })
}

/// The first interface with an id.
pub open spec fn first_with(interfaces: Seq<IfaceModel>, id: InterfaceId, k: int) -> bool {
    &&& 0 <= k < interfaces.len()
    &&& interfaces[k].id == id
    &&& forall|j: int| 0 <= j < k ==> (#[trigger] interfaces[j]).id != id
}

/// Whether an id is on no interface.
pub open spec fn nowhere(interfaces: Seq<IfaceModel>, id: InterfaceId) -> bool {
    forall|j: int| 0 <= j < interfaces.len() ==> (#[trigger] interfaces[j]).id != id
}

/// An interface is found by its id: the first that has it, and none where none has it.
pub proof fn law_interface_is_found(interfaces: Seq<IfaceModel>, id: InterfaceId)
    ensures
        forall|k: int|
            first_with(interfaces, id, k) ==> #[trigger] iface_index(interfaces, id) == Some(k),
        nowhere(interfaces, id) <==> iface_index(interfaces, id) is None,
        iface_index(interfaces, id) matches Some(k) ==> first_with(interfaces, id, k),
    decreases interfaces.len(),
{
    if interfaces.len() > 0 {
        let front = interfaces.drop_last();
        law_interface_is_found(front, id);
        if let Some(k) = iface_index(front, id) {
            assert(first_with(front, id, k));
            assert(interfaces[k] == front[k]);
            assert forall|j: int| 0 <= j < k implies (#[trigger] interfaces[j]).id != id by {
                assert(front[j].id != id);
            }
            assert(first_with(interfaces, id, k));
        } else {
            assert(nowhere(front, id));
            assert forall|j: int| 0 <= j < front.len() implies (#[trigger] interfaces[j]).id
                != id by {
                assert(front[j].id != id);
            }
        }
        assert forall|k: int| first_with(interfaces, id, k) implies #[trigger] iface_index(
            interfaces,
            id,
        ) == Some(k) by {
            let found = iface_index(interfaces, id);
            assert(found is Some);
            let f = found->0;
            assert(first_with(interfaces, id, f));
            if f < k {
                assert(interfaces[f].id != id);
            } else if k < f {
                assert(interfaces[k].id != id);
            }
        }
    }
}

/// A packet that an interface takes is queued behind the others of its class, and nothing else
/// changes. One that is too long for the carrier is refused with its length and the limit, and
/// changes nothing. One that comes to a closed path changes nothing either, and one that comes
/// to a full class is counted as dropped there and queued nowhere.
pub proof fn law_offer_is_queued_or_dropped(
    iface: IfaceModel,
    packet: PacketModel,
    class: TrafficClass,
)
    requires
        iface.outbound.wf(),
        length_on(iface, packet) <= usize::MAX,
    ensures
        ({
            let after = iface.after_push(packet, class);
            let k = place(class);
            let full = iface.outbound.queues[k].len() >= room_for(iface.outbound.depths, class);
            let fits = length_on(iface, packet) <= iface.frame_limit;
            &&& can_take(iface, packet, class) ==> gained(iface, after, packet, class)
                && iface.admission(packet, class) == QueueAdmission::Queued
            &&& !fits ==> after == iface && (iface.admission(packet, class)
                matches QueueAdmission::FrameLimit { actual, limit } && actual == length_on(
                iface,
                packet,
            ) && limit == iface.frame_limit)
            &&& fits && (iface.outbound.closed || full) ==> iface.admission(packet, class)
                == QueueAdmission::Full
            &&& iface.outbound.closed ==> after == iface
            &&& fits && !iface.outbound.closed && full ==> {
                &&& after.outbound.queues == iface.outbound.queues
                &&& after.outbound.dropped[k] == iface.outbound.dropped[k].wrapping_add(1)
                &&& forall|j: int|
                    0 <= j < 4 && j != k ==> #[trigger] after.outbound.dropped[j]
                        == iface.outbound.dropped[j]
                &&& after == (IfaceModel {
                    outbound: QueueModel {
                        dropped: after.outbound.dropped,
                        ..iface.outbound
                    },
                    ..iface
                })
            }
        }),
{
    let k = place(class);
    let q = iface.outbound.queues[k];
    assert(q.push(packet).drop_last() =~= q);
}

/// Offering to one interface touches that one alone, and no interface by that id changes
/// nothing.
pub proof fn law_offer_to_one_touches_one(
    interfaces: Seq<IfaceModel>,
    id: InterfaceId,
    packet: PacketModel,
    class: TrafficClass,
    k: int,
)
    ensures
        first_with(interfaces, id, k) ==> {
            let after = offered_one(interfaces, id, packet, class);
            &&& after.len() == interfaces.len()
            &&& after[k] == interfaces[k].after_push(packet, class)
            &&& forall|j: int|
                0 <= j < interfaces.len() && j != k ==> #[trigger] after[j] == interfaces[j]
        },
        nowhere(interfaces, id) ==> offered_one(interfaces, id, packet, class) == interfaces,
{
    law_interface_is_found(interfaces, id);
}

/// A broadcast is offered to every interface.
pub proof fn law_broadcast_is_offered_everywhere(
    interfaces: Seq<IfaceModel>,
    packet: PacketModel,
    class: TrafficClass,
)
    ensures
        offered_all(interfaces, packet, class).len() == interfaces.len(),
        forall|j: int|
            0 <= j < interfaces.len() ==> #[trigger] offered_all(interfaces, packet, class)[j]
                == interfaces[j].after_push(packet, class),
{
}

/// A relay is offered to every interface but the one it came in on, as far as egress permits,
/// and to no other; it counts as taken exactly where one of them queued it.
pub proof fn law_relay_is_offered_onward(
    interfaces: Seq<IfaceModel>,
    packet: PacketModel,
    from: InterfaceId,
    egress: SelectorModel,
)
    ensures
        relayed_out(interfaces, packet, from, egress).len() == interfaces.len(),
        forall|j: int|
            0 <= j < interfaces.len() ==> #[trigger] relayed_out(interfaces, packet, from, egress)[j]
                == (if interfaces[j].id != from && egress.contains(interfaces[j].id) {
                interfaces[j].after_push(packet, TrafficClass::Transit)
            } else {
                interfaces[j]
            }),
        relays_taken(interfaces, packet, from, egress) > 0 <==> exists|j: int|
            0 <= j < interfaces.len() && (#[trigger] interfaces[j]).id != from && egress.contains(
                interfaces[j].id,
            ) && interfaces[j].admission(packet, TrafficClass::Transit) == QueueAdmission::Queued,
    decreases interfaces.len(),
{
    if interfaces.len() > 0 {
        let front = interfaces.drop_last();
        let n = interfaces.len() - 1;
        law_relay_is_offered_onward(front, packet, from, egress);
        if relays_taken(interfaces, packet, from, egress) > 0 {
            if relays_taken(front, packet, from, egress) > 0 {
                let j = choose|j: int|
                    0 <= j < front.len() && (#[trigger] front[j]).id != from && egress.contains(
                        front[j].id,
                    ) && front[j].admission(packet, TrafficClass::Transit)
                        == QueueAdmission::Queued;
                assert(interfaces[j] == front[j]);
            } else {
                assert(interfaces[n] == interfaces.last());
            }
        }
        if exists|j: int|
            0 <= j < interfaces.len() && (#[trigger] interfaces[j]).id != from && egress.contains(
                interfaces[j].id,
            ) && interfaces[j].admission(packet, TrafficClass::Transit) == QueueAdmission::Queued {
            let j = choose|j: int|
                0 <= j < interfaces.len() && (#[trigger] interfaces[j]).id != from
                    && egress.contains(interfaces[j].id) && interfaces[j].admission(
                    packet,
                    TrafficClass::Transit,
                ) == QueueAdmission::Queued;
            if j < n {
                assert(front[j] == interfaces[j]);
            }
        }
    }
}

/// A selector covers what it says: none, all, or what is listed.
pub proof fn law_selector_covers_what_it_lists(list: Seq<InterfaceId>, id: InterfaceId)
    ensures
        !SelectorModel::NoInterface.contains(id),
        SelectorModel::All.contains(id),
        SelectorModel::Only(list).contains(id) <==> exists|j: int|
            0 <= j < list.len() && #[trigger] list[j] == id,
{
}

/// What leaves a path is counted as sent in its class and as in flight, and nothing is dropped
/// or reconfigured by it.
pub proof fn law_pop_is_counted(path: QueueModel)
    requires
        path.wf(),
        0 <= path.next_class() < 4,
        path.in_flight < usize::MAX,
    ensures
        ({
            let after = path.after_pop();
            let k = path.next_class();
            &&& after.in_flight == path.in_flight + 1
            &&& after.sent[k] == path.sent[k].wrapping_add(1)
            &&& forall|j: int| 0 <= j < 4 && j != k ==> #[trigger] after.sent[j] == path.sent[j]
            &&& after.dropped == path.dropped
            &&& after.closed == path.closed
            &&& after.weights == path.weights
            &&& after.depths == path.depths
        }),
{
}

/// What a turn has to spend: what is banked, and the class's share in units of 128 bytes where
/// the turn was not credited yet. No share is below one.
pub open spec fn purse(turn: Turn, weights: QueueWeights) -> int {
    let share = share_at(weights, turn.cursor);
    turn.deficit[turn.cursor] + (if turn.credited {
        0int
    } else if share == 0 {
        128int
    } else {
        share * 128
    })
}

/// Bytes on the air of a packet without what a carrier adds.
pub open spec fn bytes_of(packet: PacketModel) -> int {
    19 + (if packet.transport is Some {
        16int
    } else {
        0
    }) + packet.payload.len()
}

/// A class whose turn it is sends while it can afford to: its first packet leaves next, and the
/// class pays for it in bytes. It keeps its turn while more waits, with no further credit, and
/// forfeits what it banked when nothing does.
pub proof fn law_turn_sends_what_it_affords(path: QueueModel)
    requires
        path.wf(),
        path.queues[path.turn.cursor].len() > 0,
        bytes_of(path.queues[path.turn.cursor][0]) <= usize::MAX,
        purse(path.turn, path.weights) >= bytes_of(path.queues[path.turn.cursor][0]),
        purse(path.turn, path.weights) <= u64::MAX,
    ensures
        ({
            let k = path.turn.cursor;
            let after = path.after_pop();
            &&& path.next_class() == k
            &&& path.queues[k].len() > 1 ==> after.turn.cursor == k && after.turn.credited
                && after.turn.deficit[k] == purse(path.turn, path.weights) - bytes_of(
                path.queues[k][0],
            )
            &&& path.queues[k].len() == 1 ==> after.turn.cursor == (k + 1) % 4
                && !after.turn.credited && after.turn.deficit[k] == 0
            &&& forall|j: int|
                0 <= j < 4 && j != k ==> #[trigger] after.turn.deficit[j] == path.turn.deficit[j]
        }),
{
    let k = path.turn.cursor;
    let share = share_at(path.weights, k);
    assert(share * 128 >= 0) by (nonlinear_arith)
        requires
            share >= 0,
    ;
    assert(path.turn.serves(path.queues, path.weights));
}

/// A class that has nothing to send, or cannot afford its first packet, passes its turn to the
/// next: an empty one loses what it banked, another keeps it with its credit.
pub proof fn law_turn_passes_on(turn: Turn, queues: Seq<Seq<PacketModel>>, weights: QueueWeights)
    requires
        queues.len() == 4,
        turn.deficit.len() == 4,
        0 <= turn.cursor < 4,
        purse(turn, weights) <= u64::MAX,
        queues[turn.cursor].len() > 0 ==> bytes_of(queues[turn.cursor][0]) <= usize::MAX,
        queues[turn.cursor].len() == 0 || purse(turn, weights) < bytes_of(
            queues[turn.cursor][0],
        ),
    ensures
        forall|visits: nat|
            visits > 0 ==> #[trigger] turn.seek(queues, weights, visits) == (Turn {
                deficit: turn.deficit.update(
                    turn.cursor,
                    if queues[turn.cursor].len() == 0 {
                        0
                    } else {
                        purse(turn, weights) as u64
                    },
                ),
                cursor: (turn.cursor + 1) % 4,
                credited: false,
            }).seek(queues, weights, (visits - 1) as nat),
        forall|visits: nat|
            visits > 0 ==> #[trigger] turn.finds(queues, weights, visits) == (Turn {
                deficit: turn.deficit.update(
                    turn.cursor,
                    if queues[turn.cursor].len() == 0 {
                        0
                    } else {
                        purse(turn, weights) as u64
                    },
                ),
                cursor: (turn.cursor + 1) % 4,
                credited: false,
            }).finds(queues, weights, (visits - 1) as nat),
{
    let share = share_at(weights, turn.cursor);
    assert(share * 128 >= 0) by (nonlinear_arith)
        requires
            share >= 0,
    ;
    assert(!turn.serves(queues, weights));
}

/// Where no class could afford its packet in time, the most urgent class that has something
/// sends.
pub proof fn law_fallback_is_by_urgency(path: QueueModel, k: int)
    requires
        path.wf(),
        !path.on_schedule(),
        0 <= k < 4,
        path.queues[k].len() > 0,
        forall|j: int| 0 <= j < k ==> (#[trigger] path.queues[j]).len() == 0,
    ensures
        path.next_class() == k,
{
    if k > 0 {
        assert(path.queues[0].len() == 0);
    }
    if k > 1 {
        assert(path.queues[1].len() == 0);
    }
    if k > 2 {
        assert(path.queues[2].len() == 0);
    }
}

/// Of one packet offered to several interfaces: it was queued as often as one took it, it could
/// be carried if one could have carried it, and of the refusals for length the one with the
/// highest limit is kept.
pub proof fn law_outcomes_add_up(sum: SingleQueueResult, actual: usize, limit: usize)
    ensures
        ({
            let after = sum.with(QueueAdmission::Queued);
            &&& sum.queued < usize::MAX ==> after.queued == sum.queued + 1
            &&& after.frame_capable
            &&& after.frame_limit_rejection == sum.frame_limit_rejection
        }),
        ({
            let after = sum.with(QueueAdmission::Full);
            &&& after.queued == sum.queued
            &&& after.frame_capable
            &&& after.frame_limit_rejection == sum.frame_limit_rejection
        }),
        ({
            let after = sum.with(QueueAdmission::FrameLimit { actual, limit });
            &&& after.queued == sum.queued
            &&& after.frame_capable == sum.frame_capable
            &&& after.frame_limit_rejection matches Some((a, l)) && l >= limit && (
            sum.frame_limit_rejection is None ==> a == actual && l == limit) && (
            sum.frame_limit_rejection matches Some((b, m)) ==> if limit > m {
                a == actual && l == limit
            } else {
                a == b && l == m
            })
        }),
{
}

/// Taking an interface out leaves the others: each of them is still there, and nothing new is.
pub proof fn law_taking_one_out_keeps_the_rest(interfaces: Seq<IfaceModel>, i: int, j: int)
    requires
        0 <= i < interfaces.len(),
    ensures
        taken_out(interfaces, i).len() == interfaces.len() - 1,
        0 <= j < interfaces.len() && j != i ==> taken_out(interfaces, i).contains(interfaces[j]),
        forall|k: int|
            0 <= k < taken_out(interfaces, i).len() ==> interfaces.contains(
                #[trigger] taken_out(interfaces, i)[k],
            ),
{
    let after = taken_out(interfaces, i);
    let n = interfaces.len() - 1;
    if 0 <= j < interfaces.len() && j != i {
        let at = if j == n {
            i
        } else {
            j
        };
        assert(after[at] == interfaces[j]);
    }
    assert forall|k: int| 0 <= k < after.len() implies interfaces.contains(
        #[trigger] after[k],
    ) by {
        let from = if k == i {
            n
        } else {
            k
        };
        assert(after[k] == interfaces[from]);
    }
}

/// What is owed to the wire is everything queued, of every class, and what is in flight; over
/// several interfaces it adds up, and nothing is owed exactly where nothing waits or is in
/// flight on any.
pub proof fn law_backlog_is_all_that_waits(interfaces: Seq<IfaceModel>, next: IfaceModel)
    ensures
        next.outbound.backlog() == next.outbound.in_flight + next.outbound.queues[0].len()
            + next.outbound.queues[1].len() + next.outbound.queues[2].len()
            + next.outbound.queues[3].len(),
        backlog_of(Seq::<IfaceModel>::empty()) == 0,
        backlog_of(interfaces.push(next)) == backlog_of(interfaces) + next.outbound.backlog(),
        all_drained(interfaces) <==> backlog_of(interfaces) == 0,
    decreases interfaces.len(),
{
    assert(interfaces.push(next).drop_last() =~= interfaces);
    if interfaces.len() > 0 {
        let front = interfaces.drop_last();
        let last = interfaces.last();
        law_backlog_is_all_that_waits(front, last);
        assert(front.push(last) =~= interfaces);
        if all_drained(interfaces) {
            assert forall|i: int| 0 <= i < front.len() implies (
            #[trigger] front[i]).outbound.in_flight == 0 && front[i].outbound.all_empty() by {
                assert(interfaces[i] == front[i]);
            }
            assert(interfaces[interfaces.len() - 1] == last);
            assert(last.outbound.queues[0].len() == 0);
            assert(last.outbound.queues[1].len() == 0);
            assert(last.outbound.queues[2].len() == 0);
            assert(last.outbound.queues[3].len() == 0);
        }
        if backlog_of(interfaces) == 0 {
            assert forall|i: int| 0 <= i < interfaces.len() implies (
            #[trigger] interfaces[i]).outbound.in_flight == 0
                && interfaces[i].outbound.all_empty() by {
                if i < front.len() {
                    assert(interfaces[i] == front[i]);
                } else {
                    assert forall|c: int| 0 <= c < 4 implies (
                    #[trigger] last.outbound.queues[c]).len() == 0 by {
                        assert(c == 0 || c == 1 || c == 2 || c == 3);
                    }
                }
            }
        }
    }
}

/// What the interfaces have sent and dropped adds up class by class, each tally under its own.
pub proof fn law_tallies_add_up_over_interfaces(interfaces: Seq<IfaceModel>, next: IfaceModel)
    ensures
        ({
            let before = counted_all(interfaces);
            let after = counted_all(interfaces.push(next));
            let sent = next.outbound.sent;
            let dropped = next.outbound.dropped;
            &&& after.sent.control == before.sent.control.wrapping_add(sent[0])
            &&& after.sent.interactive == before.sent.interactive.wrapping_add(sent[1])
            &&& after.sent.background == before.sent.background.wrapping_add(sent[2])
            &&& after.sent.transit == before.sent.transit.wrapping_add(sent[3])
            &&& after.dropped.control == before.dropped.control.wrapping_add(dropped[0])
            &&& after.dropped.interactive == before.dropped.interactive.wrapping_add(dropped[1])
            &&& after.dropped.background == before.dropped.background.wrapping_add(dropped[2])
            &&& after.dropped.transit == before.dropped.transit.wrapping_add(dropped[3])
        }),
        counted_all(Seq::<IfaceModel>::empty()).sent.control == 0,
        counted_all(Seq::<IfaceModel>::empty()).dropped.transit == 0,
{
    assert(interfaces.push(next).drop_last() =~= interfaces);
}

/// What becomes of a packet on one interface is what that interface says; where there is none
/// by that id, it counts as full.
pub proof fn law_missing_interface_counts_as_full(
    interfaces: Seq<IfaceModel>,
    id: InterfaceId,
    packet: PacketModel,
    class: TrafficClass,
    k: int,
)
    ensures
        first_with(interfaces, id, k) ==> admission_at(interfaces, id, packet, class)
            == interfaces[k].admission(packet, class),
        nowhere(interfaces, id) ==> admission_at(interfaces, id, packet, class)
            == QueueAdmission::Full,
{
    law_interface_is_found(interfaces, id);
}

} // verus!
