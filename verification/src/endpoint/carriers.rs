//! The attached interfaces as a group: offering packets to all or one of them, and what they
//! add up to.

use vstd::prelude::*;

use crate::endpoint::policy::{
    ClassCounters, InterfaceId, InterfaceSelector, QueueCounters, QueueDepths, QueueWeights, SelectorModel,
    TrafficClass,
};
use crate::endpoint::queues::{
    Iface, IfaceModel, QueueAdmission, QueueModel, SingleQueueResult,
};
use crate::packet::{Packet, PacketModel};

verus! {

/// The states of a list of interfaces.
pub open spec fn iface_models(interfaces: Seq<Iface>) -> Seq<IfaceModel> {
    Seq::new(interfaces.len(), |i: int| interfaces[i]@)
}

/// Whether every interface's outbound path has its shape.
pub open spec fn all_shaped(interfaces: Seq<IfaceModel>) -> bool {
    forall|i: int| 0 <= i < interfaces.len() ==> (#[trigger] interfaces[i]).outbound.wf()
}

/// The interfaces after a packet was offered to every one.
pub open spec fn offered_all(
    interfaces: Seq<IfaceModel>,
    packet: PacketModel,
    class: TrafficClass,
) -> Seq<IfaceModel> {
    Seq::new(interfaces.len(), |i: int| interfaces[i].after_push(packet, class))
}

/// Whether a relay goes out on an interface: not back the way it came, and only where the
/// policy lets it.
pub open spec fn relay_goes(iface: IfaceModel, from: InterfaceId, egress: SelectorModel) -> bool {
    iface.id != from && egress.contains(iface.id)
}

/// The interfaces after a relay was offered to those it may go out on.
pub open spec fn relayed_out(
    interfaces: Seq<IfaceModel>,
    packet: PacketModel,
    from: InterfaceId,
    egress: SelectorModel,
) -> Seq<IfaceModel> {
    Seq::new(
        interfaces.len(),
        |i: int|
            if relay_goes(interfaces[i], from, egress) {
                interfaces[i].after_push(packet, TrafficClass::Transit)
            } else {
                interfaces[i]
            },
    )
}

/// How many interfaces take a relay.
pub open spec fn relays_taken(
    interfaces: Seq<IfaceModel>,
    packet: PacketModel,
    from: InterfaceId,
    egress: SelectorModel,
) -> nat
    decreases interfaces.len(),
{
    if interfaces.len() == 0 {
        0
    } else {
        let last = interfaces.last();
        relays_taken(interfaces.drop_last(), packet, from, egress) + (if relay_goes(
            last,
            from,
            egress,
        ) && last.admission(packet, TrafficClass::Transit) == QueueAdmission::Queued {
            1nat
        } else {
            0
        })
    }
}

/// Where the first interface with an id stands.
pub open spec fn iface_index(interfaces: Seq<IfaceModel>, id: InterfaceId) -> Option<int>
    decreases interfaces.len(),
{
    if interfaces.len() == 0 {
        None
    } else {
        match iface_index(interfaces.drop_last(), id) {
            Some(i) => Some(i),
            None => if interfaces.last().id == id {
                Some(interfaces.len() - 1)
            } else {
                None
            },
        }
    }
}

/// The interfaces after a packet was offered to one.
pub open spec fn offered_one(
    interfaces: Seq<IfaceModel>,
    id: InterfaceId,
    packet: PacketModel,
    class: TrafficClass,
) -> Seq<IfaceModel> {
    match iface_index(interfaces, id) {
        Some(i) => interfaces.update(i, interfaces[i].after_push(packet, class)),
        None => interfaces,
    }
}

/// What became of a packet offered to one interface. None by that id is a full one.
pub open spec fn admission_at(
    interfaces: Seq<IfaceModel>,
    id: InterfaceId,
    packet: PacketModel,
    class: TrafficClass,
) -> QueueAdmission {
    match iface_index(interfaces, id) {
        Some(i) => interfaces[i].admission(packet, class),
        None => QueueAdmission::Full,
    }
}

/// The ids of a list of interfaces.
pub open spec fn ids_of(interfaces: Seq<IfaceModel>) -> Seq<InterfaceId> {
    Seq::new(interfaces.len(), |i: int| interfaces[i].id)
}

/// What becomes of one packet offered to every interface in turn.
pub open spec fn all_outcomes(
    interfaces: Seq<IfaceModel>,
    packet: PacketModel,
    class: TrafficClass,
) -> SingleQueueResult
    decreases interfaces.len(),
{
    if interfaces.len() == 0 {
        SingleQueueResult::nothing()
    } else {
        all_outcomes(interfaces.drop_last(), packet, class).with(
            interfaces.last().admission(packet, class),
        )
    }
}

/// The interfaces with one taken out: the last takes its place.
pub open spec fn taken_out(interfaces: Seq<IfaceModel>, i: int) -> Seq<IfaceModel> {
    interfaces.update(i, interfaces.last()).drop_last()
}

/// What the interfaces have sent and dropped.
pub open spec fn counted_all(interfaces: Seq<IfaceModel>) -> QueueCounters
    decreases interfaces.len(),
{
    if interfaces.len() == 0 {
        QueueCounters { sent: ClassCounters::zero(), dropped: ClassCounters::zero() }
    } else {
        let rest = counted_all(interfaces.drop_last());
        let last = interfaces.last().outbound;
        QueueCounters {
            sent: rest.sent.plus(ClassCounters::of(last.sent)),
            dropped: rest.dropped.plus(ClassCounters::of(last.dropped)),
        }
    }
}

/// What the interfaces have queued or in flight.
pub open spec fn backlog_of(interfaces: Seq<IfaceModel>) -> nat
    decreases interfaces.len(),
{
    if interfaces.len() == 0 {
        0
    } else {
        backlog_of(interfaces.drop_last()) + interfaces.last().outbound.backlog()
    }
}

/// Whether nothing is queued or in flight anywhere.
pub open spec fn all_drained(interfaces: Seq<IfaceModel>) -> bool {
    forall|i: int|
        0 <= i < interfaces.len() ==> (#[trigger] interfaces[i]).outbound.in_flight == 0
            && interfaces[i].outbound.all_empty()
}

/// The interfaces under another queue policy.
pub open spec fn all_with_policy(
    interfaces: Seq<IfaceModel>,
    weights: QueueWeights,
    depths: QueueDepths,
) -> Seq<IfaceModel> {
    Seq::new(
        interfaces.len(),
        |i: int|
            IfaceModel {
                outbound: QueueModel { weights, depths, ..interfaces[i].outbound },
                ..interfaces[i]
            },
    )
}

/// The interfaces, taking nothing more.
pub open spec fn all_closed(interfaces: Seq<IfaceModel>) -> Seq<IfaceModel> {
    Seq::new(
        interfaces.len(),
        |i: int|
            IfaceModel {
                outbound: QueueModel { closed: true, ..interfaces[i].outbound },
                ..interfaces[i]
            },
    )
}

/// Offer a packet to every interface.
pub fn offer_all(interfaces: &mut Vec<Iface>, packet: &Packet, class: TrafficClass)
    requires
        all_shaped(iface_models(old(interfaces)@)),
    ensures
        all_shaped(iface_models(final(interfaces)@)),
        iface_models(final(interfaces)@) == offered_all(
            iface_models(old(interfaces)@),
            packet@,
            class,
        ),
{
    let ghost start = iface_models(interfaces@);
    let n: usize = interfaces.len();
    let mut i: usize = 0;
    while i < n
        invariant
            i <= n,
            n == interfaces@.len(),
            n == start.len(),
            all_shaped(start),
            forall|j: int|
                0 <= j < i ==> (#[trigger] interfaces@[j])@ == start[j].after_push(packet@, class)
                    && interfaces@[j]@.outbound.wf(),
            forall|j: int| i <= j < n ==> (#[trigger] interfaces@[j])@ == start[j],
        decreases n - i,
    {
        assert(interfaces@[i as int]@ == start[i as int]);
        interfaces[i].push(packet.clone(), class);
        i += 1;
    }
    assert(iface_models(interfaces@) =~= offered_all(start, packet@, class));
    assert(all_shaped(iface_models(interfaces@))) by {
        assert forall|j: int| 0 <= j < n implies (#[trigger] iface_models(
            interfaces@,
        )[j]).outbound.wf() by {
            assert(interfaces@[j]@.outbound.wf());
        }
    }
}

/// Offer a packet to every interface, and say what became of it.
pub fn offer_all_counted(interfaces: &mut Vec<Iface>, packet: &Packet, class: TrafficClass) -> (result:
    SingleQueueResult)
    requires
        all_shaped(iface_models(old(interfaces)@)),
    ensures
        all_shaped(iface_models(final(interfaces)@)),
        iface_models(final(interfaces)@) == offered_all(
            iface_models(old(interfaces)@),
            packet@,
            class,
        ),
        result == all_outcomes(iface_models(old(interfaces)@), packet@, class),
{
    let ghost start = iface_models(interfaces@);
    let n: usize = interfaces.len();
    let mut result = SingleQueueResult::default();
    let mut i: usize = 0;
    assert(start.subrange(0, 0) =~= Seq::<IfaceModel>::empty());
    while i < n
        invariant
            i <= n,
            n == interfaces@.len(),
            n == start.len(),
            all_shaped(start),
            result == all_outcomes(start.subrange(0, i as int), packet@, class),
            forall|j: int|
                0 <= j < i ==> (#[trigger] interfaces@[j])@ == start[j].after_push(packet@, class)
                    && interfaces@[j]@.outbound.wf(),
            forall|j: int| i <= j < n ==> (#[trigger] interfaces@[j])@ == start[j],
        decreases n - i,
    {
        assert(interfaces@[i as int]@ == start[i as int]);
        let admission = interfaces[i].push(packet.clone(), class);
        result.observe(admission);
        proof {
            let next = start.subrange(0, i + 1);
            assert(next.drop_last() =~= start.subrange(0, i as int));
            assert(next.last() == start[i as int]);
        }
        i += 1;
    }
    assert(start.subrange(0, i as int) =~= start);
    assert(iface_models(interfaces@) =~= offered_all(start, packet@, class));
    assert(all_shaped(iface_models(interfaces@))) by {
        assert forall|j: int| 0 <= j < n implies (#[trigger] iface_models(
            interfaces@,
        )[j]).outbound.wf() by {
            assert(interfaces@[j]@.outbound.wf());
        }
    }
    result
}

/// Relay a packet out every interface except the one it arrived on, restricted to those the
/// egress selector permits. Returns how many interfaces it went out on, so a caller can tell
/// a real relay from a policy that permitted nothing.
pub fn offer_relay(
    interfaces: &mut Vec<Iface>,
    except: InterfaceId,
    packet: &Packet,
    egress: &InterfaceSelector,
) -> (sent: usize)
    requires
        all_shaped(iface_models(old(interfaces)@)),
    ensures
        all_shaped(iface_models(final(interfaces)@)),
        iface_models(final(interfaces)@) == relayed_out(
            iface_models(old(interfaces)@),
            packet@,
            except,
            egress@,
        ),
        sent as nat == relays_taken(iface_models(old(interfaces)@), packet@, except, egress@),
{
    let ghost start = iface_models(interfaces@);
    let n: usize = interfaces.len();
    let mut sent: usize = 0;
    let mut i: usize = 0;
    assert(start.subrange(0, 0) =~= Seq::<IfaceModel>::empty());
    while i < n
        invariant
            i <= n,
            sent <= i,
            n == interfaces@.len(),
            n == start.len(),
            all_shaped(start),
            sent as nat == relays_taken(start.subrange(0, i as int), packet@, except, egress@),
            forall|j: int|
                0 <= j < i ==> (#[trigger] interfaces@[j])@ == relayed_out(
                    start,
                    packet@,
                    except,
                    egress@,
                )[j] && interfaces@[j]@.outbound.wf(),
            forall|j: int| i <= j < n ==> (#[trigger] interfaces@[j])@ == start[j],
        decreases n - i,
    {
        assert(interfaces@[i as int]@ == start[i as int]);
        proof {
            let next = start.subrange(0, i + 1);
            assert(next.drop_last() =~= start.subrange(0, i as int));
            assert(next.last() == start[i as int]);
        }
        // Relayed announces are someone else's upkeep: useful, but not at the expense of this
        // node's own traffic, so they queue as transit.
        if interfaces[i].id != except && egress.allows(interfaces[i].id) {
            let admission = interfaces[i].push(packet.clone(), TrafficClass::Transit);
            if admission == QueueAdmission::Queued {
                sent += 1;
            }
        }
        i += 1;
    }
    assert(start.subrange(0, i as int) =~= start);
    assert(iface_models(interfaces@) =~= relayed_out(start, packet@, except, egress@));
    assert(all_shaped(iface_models(interfaces@))) by {
        assert forall|j: int| 0 <= j < n implies (#[trigger] iface_models(
            interfaces@,
        )[j]).outbound.wf() by {
            assert(interfaces@[j]@.outbound.wf());
        }
    }
    sent
}

/// The first interface with an id is within the part looked at, or after it.
proof fn lemma_iface_index(interfaces: Seq<IfaceModel>, id: InterfaceId, n: int)
    requires
        0 <= n <= interfaces.len(),
        iface_index(interfaces.subrange(0, n), id) is Some || forall|j: int|
            n <= j < interfaces.len() ==> (#[trigger] interfaces[j]).id != id,
    ensures
        iface_index(interfaces, id) == iface_index(interfaces.subrange(0, n), id),
    decreases interfaces.len() - n,
{
    if n < interfaces.len() {
        let next = interfaces.subrange(0, n + 1);
        assert(next.drop_last() =~= interfaces.subrange(0, n));
        assert(next.last() == interfaces[n]);
        lemma_iface_index(interfaces, id, n + 1);
    } else {
        assert(interfaces.subrange(0, n) =~= interfaces);
    }
}

/// The first interface with an id is one of the interfaces, and has the id.
pub proof fn lemma_iface_index_in(interfaces: Seq<IfaceModel>, id: InterfaceId)
    ensures
        iface_index(interfaces, id) matches Some(i) ==> 0 <= i < interfaces.len()
            && interfaces[i].id == id,
        iface_index(interfaces, id) is Some <==> ids_of(interfaces).contains(id),
    decreases interfaces.len(),
{
    if interfaces.len() > 0 {
        let front = interfaces.drop_last();
        lemma_iface_index_in(front, id);
        if ids_of(front).contains(id) {
            let j = choose|j: int| 0 <= j < front.len() && ids_of(front)[j] == id;
            assert(ids_of(interfaces)[j] == id);
        }
        if ids_of(interfaces).contains(id) && interfaces.last().id != id {
            let j = choose|j: int| 0 <= j < interfaces.len() && ids_of(interfaces)[j] == id;
            assert(ids_of(front)[j] == id);
        }
        if interfaces.last().id == id {
            assert(ids_of(interfaces)[interfaces.len() - 1] == id);
        }
    }
}

/// Where the first interface with an id stands.
pub fn find_interface(interfaces: &Vec<Iface>, id: InterfaceId) -> (at: Option<usize>)
    ensures
        match at {
            Some(i) => i < interfaces@.len() && interfaces@[i as int].id == id && iface_index(
                iface_models(interfaces@),
                id,
            ) == Some(i as int),
            None => iface_index(iface_models(interfaces@), id) is None,
        },
{
    let ghost models = iface_models(interfaces@);
    let mut i: usize = 0;
    assert(models.subrange(0, 0) =~= Seq::<IfaceModel>::empty());
    while i < interfaces.len()
        invariant
            i <= interfaces@.len(),
            models == iface_models(interfaces@),
            iface_index(models.subrange(0, i as int), id) is None,
        decreases interfaces@.len() - i,
    {
        proof {
            let next = models.subrange(0, i + 1);
            assert(next.drop_last() =~= models.subrange(0, i as int));
            assert(next.last() == models[i as int]);
        }
        if interfaces[i].id == id {
            proof {
                lemma_iface_index(models, id, i + 1);
            }
            return Some(i);
        }
        i += 1;
    }
    assert(models.subrange(0, i as int) =~= models);
    None
}

/// Offer a packet to one interface.
pub fn offer_one(interfaces: &mut Vec<Iface>, id: InterfaceId, packet: Packet, class: TrafficClass) -> (admission:
    QueueAdmission)
    requires
        all_shaped(iface_models(old(interfaces)@)),
    ensures
        all_shaped(iface_models(final(interfaces)@)),
        iface_models(final(interfaces)@) == offered_one(
            iface_models(old(interfaces)@),
            id,
            packet@,
            class,
        ),
        admission == admission_at(iface_models(old(interfaces)@), id, packet@, class),
{
    let ghost start = iface_models(interfaces@);
    match find_interface(interfaces, id) {
        Some(i) => {
            assert(start[i as int] == interfaces@[i as int]@);
            let admission = interfaces[i].push(packet, class);
            proof {
                assert(iface_models(interfaces@) =~= offered_one(start, id, packet@, class));
                assert forall|j: int| 0 <= j < interfaces@.len() implies (#[trigger] iface_models(
                    interfaces@,
                )[j]).outbound.wf() by {
                    if j != i {
                        assert(start[j].outbound.wf());
                    }
                }
            }
            admission
        },
        None => QueueAdmission::Full,
    }
}

/// Take an interface out, closing its path. Returns whether there was one.
pub fn take_out(interfaces: &mut Vec<Iface>, id: InterfaceId) -> (removed: bool)
    requires
        all_shaped(iface_models(old(interfaces)@)),
    ensures
        all_shaped(iface_models(final(interfaces)@)),
        removed == (iface_index(iface_models(old(interfaces)@), id) is Some),
        iface_models(final(interfaces)@) == (match iface_index(
            iface_models(old(interfaces)@),
            id,
        ) {
            Some(i) => taken_out(iface_models(old(interfaces)@), i),
            None => iface_models(old(interfaces)@),
        }),
{
    let ghost start = iface_models(interfaces@);
    match find_interface(interfaces, id) {
        Some(i) => {
            let _ = interfaces.swap_remove(i);
            proof {
                assert(iface_models(interfaces@) =~= taken_out(start, i as int));
                assert forall|j: int| 0 <= j < interfaces@.len() implies (#[trigger] iface_models(
                    interfaces@,
                )[j]).outbound.wf() by {
                    if j == i {
                        assert(start[start.len() - 1].outbound.wf());
                    } else {
                        assert(start[j].outbound.wf());
                    }
                }
            }
            true
        },
        None => false,
    }
}

/// Put every interface under another queue policy.
pub fn set_policy_all(interfaces: &mut Vec<Iface>, weights: QueueWeights, depths: QueueDepths)
    requires
        all_shaped(iface_models(old(interfaces)@)),
    ensures
        all_shaped(iface_models(final(interfaces)@)),
        iface_models(final(interfaces)@) == all_with_policy(
            iface_models(old(interfaces)@),
            weights,
            depths,
        ),
{
    let ghost start = iface_models(interfaces@);
    let n: usize = interfaces.len();
    let mut i: usize = 0;
    while i < n
        invariant
            i <= n,
            n == interfaces@.len(),
            n == start.len(),
            all_shaped(start),
            forall|j: int|
                0 <= j < i ==> (#[trigger] interfaces@[j])@ == all_with_policy(
                    start,
                    weights,
                    depths,
                )[j] && interfaces@[j]@.outbound.wf(),
            forall|j: int| i <= j < n ==> (#[trigger] interfaces@[j])@ == start[j],
        decreases n - i,
    {
        assert(interfaces@[i as int]@ == start[i as int]);
        interfaces[i].outbound.set_policy(weights, depths);
        i += 1;
    }
    assert(iface_models(interfaces@) =~= all_with_policy(start, weights, depths));
    assert(all_shaped(iface_models(interfaces@))) by {
        assert forall|j: int| 0 <= j < n implies (#[trigger] iface_models(
            interfaces@,
        )[j]).outbound.wf() by {
            assert(interfaces@[j]@.outbound.wf());
        }
    }
}

/// Close every interface's path.
pub fn close_all(interfaces: &mut Vec<Iface>)
    requires
        all_shaped(iface_models(old(interfaces)@)),
    ensures
        all_shaped(iface_models(final(interfaces)@)),
        iface_models(final(interfaces)@) == all_closed(iface_models(old(interfaces)@)),
{
    let ghost start = iface_models(interfaces@);
    let n: usize = interfaces.len();
    let mut i: usize = 0;
    while i < n
        invariant
            i <= n,
            n == interfaces@.len(),
            n == start.len(),
            all_shaped(start),
            forall|j: int|
                0 <= j < i ==> (#[trigger] interfaces@[j])@ == all_closed(start)[j]
                    && interfaces@[j]@.outbound.wf(),
            forall|j: int| i <= j < n ==> (#[trigger] interfaces@[j])@ == start[j],
        decreases n - i,
    {
        assert(interfaces@[i as int]@ == start[i as int]);
        interfaces[i].outbound.close();
        i += 1;
    }
    assert(iface_models(interfaces@) =~= all_closed(start));
    assert(all_shaped(iface_models(interfaces@))) by {
        assert forall|j: int| 0 <= j < n implies (#[trigger] iface_models(
            interfaces@,
        )[j]).outbound.wf() by {
            assert(interfaces@[j]@.outbound.wf());
        }
    }
}

/// What the interfaces have sent and dropped, by class.
pub fn count_all(interfaces: &Vec<Iface>) -> (counters: QueueCounters)
    ensures
        counters == counted_all(iface_models(interfaces@)),
{
    let ghost models = iface_models(interfaces@);
    let mut counters = QueueCounters::default();
    let mut i: usize = 0;
    assert(models.subrange(0, 0) =~= Seq::<IfaceModel>::empty());
    while i < interfaces.len()
        invariant
            i <= interfaces@.len(),
            models == iface_models(interfaces@),
            counters == counted_all(models.subrange(0, i as int)),
        decreases interfaces@.len() - i,
    {
        let (sent, dropped) = interfaces[i].outbound.counters();
        counters.sent.include_all(ClassCounters::from_array(sent));
        counters.dropped.include_all(ClassCounters::from_array(dropped));
        proof {
            let next = models.subrange(0, i + 1);
            assert(next.drop_last() =~= models.subrange(0, i as int));
            assert(next.last() == models[i as int]);
        }
        i += 1;
    }
    assert(models.subrange(0, i as int) =~= models);
    counters
}

/// What the interfaces have queued or in flight, as far as a machine word holds it.
pub fn depth_all(interfaces: &Vec<Iface>) -> (n: usize)
    requires
        all_shaped(iface_models(interfaces@)),
    ensures
        n as nat == (if backlog_of(iface_models(interfaces@)) <= usize::MAX {
            backlog_of(iface_models(interfaces@))
        } else {
            usize::MAX as nat
        }),
{
    let ghost models = iface_models(interfaces@);
    let mut total: usize = 0;
    let mut i: usize = 0;
    assert(models.subrange(0, 0) =~= Seq::<IfaceModel>::empty());
    while i < interfaces.len()
        invariant
            i <= interfaces@.len(),
            models == iface_models(interfaces@),
            all_shaped(models),
            total as nat == (if backlog_of(models.subrange(0, i as int)) <= usize::MAX {
                backlog_of(models.subrange(0, i as int))
            } else {
                usize::MAX as nat
            }),
        decreases interfaces@.len() - i,
    {
        assert(models[i as int].outbound.wf());
        total = total.saturating_add(interfaces[i].outbound.depth());
        proof {
            let next = models.subrange(0, i + 1);
            assert(next.drop_last() =~= models.subrange(0, i as int));
            assert(next.last() == models[i as int]);
        }
        i += 1;
    }
    assert(models.subrange(0, i as int) =~= models);
    total
}

/// Whether nothing is queued or in flight anywhere.
pub fn drained_all(interfaces: &Vec<Iface>) -> (drained: bool)
    requires
        all_shaped(iface_models(interfaces@)),
    ensures
        drained == all_drained(iface_models(interfaces@)),
{
    let ghost models = iface_models(interfaces@);
    let mut i: usize = 0;
    while i < interfaces.len()
        invariant
            i <= interfaces@.len(),
            models == iface_models(interfaces@),
            all_shaped(models),
            forall|j: int|
                0 <= j < i ==> (#[trigger] models[j]).outbound.in_flight == 0
                    && models[j].outbound.all_empty(),
        decreases interfaces@.len() - i,
    {
        assert(models[i as int].outbound.wf());
        if !interfaces[i].outbound.is_drained() {
            return false;
        }
        i += 1;
    }
    true
}

/// Whether ids stand in order.
pub open spec fn in_order(ids: Seq<InterfaceId>) -> bool {
    forall|i: int, j: int| 0 <= i < j < ids.len() ==> ids[i] <= ids[j]
}

/// The ids of the interfaces, smallest first.
pub fn sorted_ids(interfaces: &Vec<Iface>) -> (ids: Vec<InterfaceId>)
    ensures
        in_order(ids@),
        ids@.to_multiset() == ids_of(iface_models(interfaces@)).to_multiset(),
        forall|id: InterfaceId|
            ids@.contains(id) <==> ids_of(iface_models(interfaces@)).contains(id),
{
    let ghost all = ids_of(iface_models(interfaces@));
    let mut ids: Vec<InterfaceId> = Vec::new();
    let mut i: usize = 0;
    assert(all.subrange(0, 0) =~= Seq::<InterfaceId>::empty());
    while i < interfaces.len()
        invariant
            i <= interfaces@.len(),
            ids@.len() == i,
            all == ids_of(iface_models(interfaces@)),
            in_order(ids@),
            ids@.to_multiset() == all.subrange(0, i as int).to_multiset(),
        decreases interfaces@.len() - i,
    {
        let id: InterfaceId = interfaces[i].id;
        let mut at: usize = 0;
        while at < ids.len() && ids[at] <= id
            invariant
                at <= ids@.len(),
                forall|j: int| 0 <= j < at ==> ids@[j] <= id,
            decreases ids@.len() - at,
        {
            at += 1;
        }
        proof {
            vstd::seq_lib::to_multiset_insert(ids@, at as int, id);
            vstd::seq_lib::to_multiset_build(all.subrange(0, i as int), id);
            assert(all.subrange(0, i + 1) =~= all.subrange(0, i as int).push(id));
        }
        ids.insert(at, id);
        i += 1;
    }
    proof {
        assert(all.subrange(0, i as int) =~= all);
        assert forall|id: InterfaceId| ids@.contains(id) <==> all.contains(id) by {
            vstd::seq_lib::to_multiset_contains(ids@, id);
            vstd::seq_lib::to_multiset_contains(all, id);
        }
    }
    ids
}

} // verus!
