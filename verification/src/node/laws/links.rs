//! What a node does with its own links and the transfers on them.

use vstd::prelude::*;

use crate::hash::{address_of, AddressHash};
use crate::identity::public_of;
use crate::node::actions::{ActionModel, ActionsModel, InterfaceId};
use crate::node::state::{LinkModel, NodeModel, PendingSlot, ReadingModel, TransferSlot};
use crate::packet::{HeaderType, PacketModel, PacketType};
use crate::recent::{index_of, lemma_index_is, lemma_index_of, not_under, swapped_out, Filed};

verus! {

/// The first link with an id.
pub open spec fn link_at(links: Seq<LinkModel>, id: AddressHash, i: int) -> bool {
    &&& 0 <= i < links.len()
    &&& links[i].link_id == id
    &&& forall|j: int| 0 <= j < i ==> (#[trigger] links[j]).link_id != id
}

/// Whether no link has an id.
pub open spec fn no_link(links: Seq<LinkModel>, id: AddressHash) -> bool {
    forall|j: int| 0 <= j < links.len() ==> (#[trigger] links[j]).link_id != id
}

/// The first transfer on a link.
pub open spec fn transfer_at(slots: Seq<TransferSlot>, id: AddressHash, i: int) -> bool {
    &&& 0 <= i < slots.len()
    &&& slots[i].link_id == id
    &&& forall|j: int| 0 <= j < i ==> (#[trigger] slots[j]).link_id != id
}

/// Whether no transfer is on a link.
pub open spec fn no_transfer(slots: Seq<TransferSlot>, id: AddressHash) -> bool {
    forall|j: int| 0 <= j < slots.len() ==> (#[trigger] slots[j]).link_id != id
}

/// The first link that waits for its proof under an id.
pub open spec fn pending_at(pending: Seq<PendingSlot>, id: AddressHash, i: int) -> bool {
    &&& 0 <= i < pending.len()
    &&& pending[i].link_id == id
    &&& forall|j: int| 0 <= j < i ==> (#[trigger] pending[j]).link_id != id
}

/// Whether a packet is for this node to deal with: no announce, no packet of a link that is
/// carried here, and none that names this node as a hop to somewhere else.
pub open spec fn is_own(node: NodeModel, packet: PacketModel) -> bool {
    &&& packet.packet_type != PacketType::Announce
    &&& !node.transport.relay_packets || ((forall|j: int|
        0 <= j < node.bridges.len() ==> (#[trigger] node.bridges[j]).link_id
            != packet.destination) && (packet.header_type != HeaderType::Type2 || packet.transport
        != Some(node.own_hash()) || packet.destination == node.destination()))
}

/// Packets as the sends they become.
pub open spec fn sends(interface: InterfaceId, packets: Seq<PacketModel>) -> Seq<ActionModel> {
    Seq::new(packets.len(), |i: int| ActionModel::Send { interface, packet: packets[i] })
}

/// What a call wants, as far as there is room: the first of it in its order, and a count of the
/// rest.
pub open spec fn wants(actions: ActionsModel, all: Seq<ActionModel>, max: nat) -> bool {
    &&& actions.max == max
    &&& all.len() <= max ==> actions.items == all && actions.overflowed == 0
    &&& all.len() > max ==> actions.items == all.subrange(0, max as int) && actions.overflowed
        == (if all.len() - max <= 0xffff {
        all.len() - max
    } else {
        0xffff
    })
}

/// What is wanted is kept in the order it was wanted, and counted where there is no room: one
/// more is the last, and several to send come one after another.
pub proof fn law_wanted_actions_keep_their_order(
    actions: ActionsModel,
    all: Seq<ActionModel>,
    max: nat,
    more: ActionModel,
    interface: InterfaceId,
    packets: Seq<PacketModel>,
)
    requires
        wants(actions, all, max),
    ensures
        wants(actions.with(more), all.push(more), max),
        wants(actions.sending_all(interface, packets), all + sends(interface, packets), max),
    decreases packets.len(),
{
    let longer = all.push(more);
    if all.len() >= max {
        assert(longer.subrange(0, max as int) =~= all.subrange(0, max as int));
        assert(all.subrange(0, all.len() as int) =~= all);
    }
    if packets.len() == 0 {
        assert(all + sends(interface, packets) =~= all);
    } else {
        let front = packets.drop_last();
        let last = ActionModel::Send { interface, packet: packets.last() };
        law_wanted_actions_keep_their_order(actions, all, max, more, interface, front);
        let before = all + sends(interface, front);
        assert(all + sends(interface, packets) =~= before.push(last));
        lemma_one_more(actions.sending_all(interface, front), before, max, last);
    }
}

/// One more is the last.
pub proof fn lemma_one_more(
    actions: ActionsModel,
    all: Seq<ActionModel>,
    max: nat,
    more: ActionModel,
)
    requires
        wants(actions, all, max),
    ensures
        wants(actions.with(more), all.push(more), max),
{
    let longer = all.push(more);
    if all.len() >= max {
        assert(longer.subrange(0, max as int) =~= all.subrange(0, max as int));
        assert(all.subrange(0, all.len() as int) =~= all);
    }
}

/// A call begins with nothing wanted.
pub proof fn lemma_nothing_wanted(max: nat)
    ensures
        wants(ActionsModel::none(max), Seq::empty(), max),
{
}

/// What stands under an id is found, in each of the tables.
proof fn lemma_found(node: NodeModel, id: AddressHash)
    ensures
        forall|i: int| link_at(node.links, id, i) ==> #[trigger] index_of(node.links, id) == Some(i),
        no_link(node.links, id) <==> index_of(node.links, id) is None,
        forall|i: int|
            transfer_at(node.senders, id, i) ==> #[trigger] index_of(node.senders, id) == Some(i),
        no_transfer(node.senders, id) <==> index_of(node.senders, id) is None,
        forall|i: int|
            transfer_at(node.receivers, id, i) ==> #[trigger] index_of(node.receivers, id) == Some(
                i,
            ),
        no_transfer(node.receivers, id) <==> index_of(node.receivers, id) is None,
        forall|i: int|
            pending_at(node.pending, id, i) ==> #[trigger] index_of(node.pending, id) == Some(i),
        (forall|j: int| 0 <= j < node.bridges.len() ==> (#[trigger] node.bridges[j]).link_id != id)
            <==> index_of(node.bridges, id) is None,
{
    lemma_index_of(node.links, id);
    lemma_index_of(node.senders, id);
    lemma_index_of(node.receivers, id);
    lemma_index_of(node.bridges, id);
    assert forall|i: int| link_at(node.links, id, i) implies #[trigger] index_of(node.links, id)
        == Some(i) by {
        assert forall|j: int| 0 <= j < i implies (#[trigger] node.links[j]).filed_under() != id by {
            assert(node.links[j].link_id != id);
        }
        lemma_index_is(node.links, id, i);
    }
    assert forall|i: int| transfer_at(node.senders, id, i) implies #[trigger] index_of(
        node.senders,
        id,
    ) == Some(i) by {
        assert forall|j: int| 0 <= j < i implies (#[trigger] node.senders[j]).filed_under()
            != id by {
            assert(node.senders[j].link_id != id);
        }
        lemma_index_is(node.senders, id, i);
    }
    assert forall|i: int| transfer_at(node.receivers, id, i) implies #[trigger] index_of(
        node.receivers,
        id,
    ) == Some(i) by {
        assert forall|j: int| 0 <= j < i implies (#[trigger] node.receivers[j]).filed_under()
            != id by {
            assert(node.receivers[j].link_id != id);
        }
        lemma_index_is(node.receivers, id, i);
    }
    assert forall|i: int| pending_at(node.pending, id, i) implies #[trigger] index_of(
        node.pending,
        id,
    ) == Some(i) by {
        assert forall|j: int| 0 <= j < i implies (#[trigger] node.pending[j]).filed_under()
            != id by {
            assert(node.pending[j].link_id != id);
        }
        lemma_index_is(node.pending, id, i);
    }
    if no_link(node.links, id) {
        assert forall|j: int| 0 <= j < node.links.len() implies (
        #[trigger] node.links[j]).filed_under() != id by {
            assert(node.links[j].link_id != id);
        }
    }
    if index_of(node.links, id) is None {
        assert forall|j: int| 0 <= j < node.links.len() implies (#[trigger] node.links[j]).link_id
            != id by {
            assert(node.links[j].filed_under() != id);
        }
    }
    if index_of(node.senders, id) is None {
        assert forall|j: int| 0 <= j < node.senders.len() implies (
        #[trigger] node.senders[j]).link_id != id by {
            assert(node.senders[j].filed_under() != id);
        }
    }
    if index_of(node.receivers, id) is None {
        assert forall|j: int| 0 <= j < node.receivers.len() implies (
        #[trigger] node.receivers[j]).link_id != id by {
            assert(node.receivers[j].filed_under() != id);
        }
    }
    if index_of(node.bridges, id) is None {
        assert forall|j: int| 0 <= j < node.bridges.len() implies (
        #[trigger] node.bridges[j]).link_id != id by {
            assert(node.bridges[j].filed_under() != id);
        }
    }
}

/// The links after one was heard from: it counts as heard now, and all else is the same.
pub open spec fn heard_from(links: Seq<LinkModel>, i: int, now: u64) -> Seq<LinkModel> {
    links.update(
        i,
        LinkModel { link_id: links[i].link_id, proof: links[i].proof, seen: now },
    )
}

/// A packet of an outbound transfer is answered by what the transfer replies: the replies are
/// sent, in their order, out the interface the packet came in on, as far as there is room. The
/// transfer has moved now, or is over. Its link was heard from, and nothing else changes.
pub proof fn law_outbound_transfer_sends_its_replies(
    node: NodeModel,
    interface: InterfaceId,
    packet: PacketModel,
    now: u64,
    reading: ReadingModel,
    max: nat,
    i: int,
    s: int,
)
    requires
        ({
            let fresh = node.transport_expired(now);
            &&& is_own(fresh, packet)
            &&& packet.packet_type == PacketType::Data
            &&& 1 <= packet.context <= 7
            &&& link_at(fresh.links, packet.destination, i)
            &&& transfer_at(fresh.senders, packet.destination, s)
        }),
    ensures
        ({
            let fresh = node.transport_expired(now);
            let step = node.ingested(interface, packet, now, reading, max);
            let after = step.node;
            &&& wants(step.actions, sends(interface, reading.replies), max)
            &&& after.links == heard_from(fresh.links, i, now)
            &&& !reading.ended ==> after.senders == fresh.senders.update(
                s,
                TransferSlot { link_id: packet.destination, at: now },
            )
            &&& reading.ended ==> after.senders.len() == fresh.senders.len() - 1 && (forall|j: int|
                0 <= j < fresh.senders.len() && j != s ==> after.senders.contains(
                    #[trigger] fresh.senders[j],
                ))
            &&& after == (NodeModel { links: after.links, senders: after.senders, ..fresh })
        }),
{
    let fresh = node.transport_expired(now);
    let id = packet.destination;
    lemma_found(fresh, id);
    lemma_nothing_wanted(max);
    law_wanted_actions_keep_their_order(
        ActionsModel::none(max),
        Seq::empty(),
        max,
        ActionModel::LinkUp { link_id: id },
        interface,
        reading.replies,
    );
    assert(Seq::<ActionModel>::empty() + sends(interface, reading.replies) =~= sends(
        interface,
        reading.replies,
    ));
    let step = node.ingested(interface, packet, now, reading, max);
    if reading.ended {
        lemma_swapped(fresh.senders, s);
    }
    assert(step.node.links =~= heard_from(fresh.links, i, now));
}

/// Taking one out keeps the others.
proof fn lemma_swapped<T>(s: Seq<T>, i: int)
    requires
        0 <= i < s.len(),
    ensures
        swapped_out(s, i).len() == s.len() - 1,
        forall|j: int|
            0 <= j < s.len() && j != i ==> swapped_out(s, i).contains(
                #[trigger] s[j],
            ),
{
    let after = swapped_out(s, i);
    assert forall|j: int| 0 <= j < s.len() && j != i implies after.contains(#[trigger] s[j]) by {
        let at = if j == s.len() - 1 {
            i
        } else {
            j
        };
        assert(after[at] == s[j]);
    }
}

/// A packet of an inbound transfer is answered by what the transfer replies, and a resource it
/// completes is handed over behind them. The transfer is over with the resource or where it was
/// ended, and has else moved now.
pub proof fn law_inbound_transfer_replies_and_hands_over(
    node: NodeModel,
    interface: InterfaceId,
    packet: PacketModel,
    now: u64,
    reading: ReadingModel,
    max: nat,
    i: int,
    r: int,
)
    requires
        ({
            let fresh = node.transport_expired(now);
            &&& is_own(fresh, packet)
            &&& packet.packet_type == PacketType::Data
            &&& 1 <= packet.context <= 7
            &&& link_at(fresh.links, packet.destination, i)
            &&& no_transfer(fresh.senders, packet.destination)
            &&& transfer_at(fresh.receivers, packet.destination, r)
        }),
    ensures
        ({
            let fresh = node.transport_expired(now);
            let step = node.ingested(interface, packet, now, reading, max);
            let after = step.node;
            let replies = sends(interface, reading.replies);
            let all = match reading.data {
                Some(data) => replies.push(
                    ActionModel::Resource { link_id: packet.destination, data },
                ),
                None => replies,
            };
            let over = reading.data is Some || reading.ended;
            &&& wants(step.actions, all, max)
            &&& after.links == heard_from(fresh.links, i, now)
            &&& !over ==> after.receivers == fresh.receivers.update(
                r,
                TransferSlot { link_id: packet.destination, at: now },
            )
            &&& over ==> after.receivers.len() == fresh.receivers.len() - 1 && (forall|j: int|
                0 <= j < fresh.receivers.len() && j != r ==> after.receivers.contains(
                    #[trigger] fresh.receivers[j],
                ))
            &&& after == (NodeModel { links: after.links, receivers: after.receivers, ..fresh })
        }),
{
    let fresh = node.transport_expired(now);
    let id = packet.destination;
    lemma_found(fresh, id);
    lemma_nothing_wanted(max);
    let replies = sends(interface, reading.replies);
    law_wanted_actions_keep_their_order(
        ActionsModel::none(max),
        Seq::empty(),
        max,
        ActionModel::LinkUp { link_id: id },
        interface,
        reading.replies,
    );
    assert(Seq::<ActionModel>::empty() + replies =~= replies);
    if let Some(data) = reading.data {
        lemma_one_more(
            ActionsModel::none(max).sending_all(interface, reading.replies),
            replies,
            max,
            ActionModel::Resource { link_id: id, data },
        );
    }
    let held = fresh.receivers.update(r, TransferSlot { link_id: id, at: now });
    let step = node.ingested(interface, packet, now, reading, max);
    if reading.data is Some || reading.ended {
        lemma_swapped(held, r);
        assert forall|j: int| 0 <= j < fresh.receivers.len() && j != r implies
            step.node.receivers.contains(#[trigger] fresh.receivers[j]) by {
            assert(held[j] == fresh.receivers[j]);
        }
    }
    assert(step.node.links =~= heard_from(fresh.links, i, now));
}

/// A packet that offers a resource on a link without a transfer is taken up where there is a
/// place for it and the transfer answers it or has the resource at once: the replies are sent
/// and the resource handed over. Otherwise it is refused, which is counted, and nothing is
/// sent.
pub proof fn law_offered_resource_is_taken_up_or_refused(
    node: NodeModel,
    interface: InterfaceId,
    packet: PacketModel,
    now: u64,
    reading: ReadingModel,
    max: nat,
    i: int,
)
    requires
        ({
            let fresh = node.transport_expired(now);
            &&& is_own(fresh, packet)
            &&& packet.packet_type == PacketType::Data
            &&& 1 <= packet.context <= 7
            &&& link_at(fresh.links, packet.destination, i)
            &&& no_transfer(fresh.senders, packet.destination)
            &&& no_transfer(fresh.receivers, packet.destination)
            &&& fresh.refused_offers < 0xffff
        }),
    ensures
        ({
            let fresh = node.transport_expired(now);
            let step = node.ingested(interface, packet, now, reading, max);
            let after = step.node;
            let id = packet.destination;
            let taken = fresh.receivers.len() < fresh.max_links && (reading.replies.len() > 0
                || reading.data is Some);
            let replies = sends(interface, reading.replies);
            let all = match reading.data {
                Some(data) => replies.push(ActionModel::Resource { link_id: id, data }),
                None => replies,
            };
            let slot = TransferSlot { link_id: id, at: now };
            &&& after.links == heard_from(fresh.links, i, now)
            &&& taken ==> wants(step.actions, all, max) && after.refused_offers
                == fresh.refused_offers && after.receivers == (if reading.data is Some
                || reading.ended {
                fresh.receivers
            } else {
                fresh.receivers.push(slot)
            })
            &&& !taken ==> step.actions == ActionsModel::none(max) && after.refused_offers
                == fresh.refused_offers + 1 && after.receivers == fresh.receivers
            &&& after == (NodeModel {
                links: after.links,
                receivers: after.receivers,
                refused_offers: after.refused_offers,
                ..fresh
            })
        }),
{
    let fresh = node.transport_expired(now);
    let id = packet.destination;
    lemma_found(fresh, id);
    lemma_nothing_wanted(max);
    let replies = sends(interface, reading.replies);
    law_wanted_actions_keep_their_order(
        ActionsModel::none(max),
        Seq::empty(),
        max,
        ActionModel::LinkUp { link_id: id },
        interface,
        reading.replies,
    );
    assert(Seq::<ActionModel>::empty() + replies =~= replies);
    if let Some(data) = reading.data {
        lemma_one_more(
            ActionsModel::none(max).sending_all(interface, reading.replies),
            replies,
            max,
            ActionModel::Resource { link_id: id, data },
        );
    }
    let slot = TransferSlot { link_id: id, at: now };
    let held = fresh.receivers.push(slot);
    assert(swapped_out(held, fresh.receivers.len() as int) =~= fresh.receivers);
    let step = node.ingested(interface, packet, now, reading, max);
    assert(step.node.links =~= heard_from(fresh.links, i, now));
}

/// Data on an established link is handed over as it is, and a close ends the link with every
/// transfer on it, of which the shell is told. Anything else is only heard. Data for no link
/// does nothing.
pub proof fn law_link_data_is_handed_over(
    node: NodeModel,
    interface: InterfaceId,
    packet: PacketModel,
    now: u64,
    reading: ReadingModel,
    max: nat,
    i: int,
)
    requires
        ({
            let fresh = node.transport_expired(now);
            &&& is_own(fresh, packet)
            &&& packet.packet_type == PacketType::Data
            &&& packet.context == 0 || packet.context > 7
            &&& link_at(fresh.links, packet.destination, i)
        }),
    ensures
        ({
            let fresh = node.transport_expired(now);
            let step = node.ingested(interface, packet, now, reading, max);
            let after = step.node;
            let id = packet.destination;
            &&& reading.payload matches Some(payload) ==> wants(
                step.actions,
                seq![ActionModel::Data { link_id: id, payload }],
                max,
            ) && after == (NodeModel { links: heard_from(fresh.links, i, now), ..fresh })
            &&& reading.payload is None && !reading.closes ==> step.actions == ActionsModel::none(
                max,
            ) && after == (NodeModel { links: heard_from(fresh.links, i, now), ..fresh })
            &&& reading.payload is None && reading.closes ==> {
                &&& wants(step.actions, seq![ActionModel::LinkDown { link_id: id }], max)
                &&& after.links.len() == fresh.links.len() - 1
                &&& forall|j: int|
                    0 <= j < fresh.links.len() && j != i ==> after.links.contains(
                        #[trigger] fresh.links[j],
                    )
                &&& after.receivers == fresh.receivers.filter(|t: TransferSlot| t.link_id != id)
                &&& after.senders == fresh.senders.filter(|t: TransferSlot| t.link_id != id)
                &&& after == (NodeModel {
                    links: after.links,
                    receivers: after.receivers,
                    senders: after.senders,
                    ..fresh
                })
            }
        }),
{
    let fresh = node.transport_expired(now);
    let id = packet.destination;
    lemma_found(fresh, id);
    lemma_nothing_wanted(max);
    let step = node.ingested(interface, packet, now, reading, max);
    let heard = heard_from(fresh.links, i, now);
    if let Some(payload) = reading.payload {
        let one = ActionModel::Data { link_id: id, payload };
        lemma_one_more(ActionsModel::none(max), Seq::empty(), max, one);
        assert(Seq::empty().push(one) =~= seq![one]);
        assert(step.node.links =~= heard);
    } else if reading.closes {
        let one = ActionModel::LinkDown { link_id: id };
        lemma_one_more(ActionsModel::none(max), Seq::empty(), max, one);
        assert(Seq::empty().push(one) =~= seq![one]);
        lemma_swapped(heard, i);
        assert forall|j: int| 0 <= j < fresh.links.len() && j != i implies
            step.node.links.contains(#[trigger] fresh.links[j]) by {
            assert(heard[j] == fresh.links[j]);
        }
        lemma_dropped(fresh.receivers, id);
        lemma_dropped(fresh.senders, id);
    } else {
        assert(step.node.links =~= heard);
    }
}

/// What is not under an id is what has another.
proof fn lemma_dropped(slots: Seq<TransferSlot>, id: AddressHash)
    ensures
        not_under(slots, id) == slots.filter(|t: TransferSlot| t.link_id != id),
    decreases slots.len(),
{
    reveal(Seq::filter);
    if slots.len() > 0 {
        lemma_dropped(slots.drop_last(), id);
    }
}

/// Data for a link that is not established does nothing.
pub proof fn law_data_for_no_link_is_dropped(
    node: NodeModel,
    interface: InterfaceId,
    packet: PacketModel,
    now: u64,
    reading: ReadingModel,
    max: nat,
)
    requires
        ({
            let fresh = node.transport_expired(now);
            &&& is_own(fresh, packet)
            &&& packet.packet_type == PacketType::Data
            &&& no_link(fresh.links, packet.destination)
        }),
    ensures
        node.ingested(interface, packet, now, reading, max).node == node.transport_expired(now),
        node.ingested(interface, packet, now, reading, max).actions == ActionsModel::none(max),
{
    lemma_found(node.transport_expired(now), packet.destination);
}

/// A link request for this node that the link layer accepts opens a link where there is a slot:
/// the proof is kept with it and sent back the way the request came, and the shell is told.
/// Where there is none the request is refused and counted. One that is open already is answered
/// by its proof again.
pub proof fn law_link_request_opens_a_link(
    node: NodeModel,
    interface: InterfaceId,
    packet: PacketModel,
    now: u64,
    reading: ReadingModel,
    max: nat,
    i: int,
)
    requires
        ({
            let fresh = node.transport_expired(now);
            &&& is_own(fresh, packet)
            &&& packet.packet_type == PacketType::LinkRequest
            &&& packet.destination == fresh.destination()
            &&& reading.link_id is Some
            &&& fresh.refused_links < 0xffff
        }),
    ensures
        ({
            let fresh = node.transport_expired(now);
            let step = node.ingested(interface, packet, now, reading, max);
            let after = step.node;
            let id = reading.link_id->0;
            let new = no_link(fresh.links, id);
            let room = fresh.links.len() < fresh.max_links;
            &&& link_at(fresh.links, id, i) ==> after == fresh && wants(
                step.actions,
                seq![ActionModel::Send { interface, packet: fresh.links[i].proof }],
                max,
            )
            &&& new && !room ==> step.actions == ActionsModel::none(max) && after == (NodeModel {
                refused_links: (fresh.refused_links + 1) as u16,
                ..fresh
            })
            &&& new && room && reading.accepted is None ==> step.actions == ActionsModel::none(max)
                && after == fresh
            &&& new && room && reading.accepted is Some ==> {
                let proof_packet = reading.accepted->0;
                &&& wants(
                    step.actions,
                    seq![
                        ActionModel::Send { interface, packet: proof_packet },
                        ActionModel::LinkUp { link_id: id },
                    ],
                    max,
                )
                &&& after == (NodeModel {
                    links: fresh.links.push(
                        LinkModel { link_id: id, proof: proof_packet, seen: now },
                    ),
                    ..fresh
                })
            }
        }),
{
    let fresh = node.transport_expired(now);
    let id = reading.link_id->0;
    lemma_found(fresh, id);
    lemma_found(fresh, packet.destination);
    lemma_nothing_wanted(max);
    let none = ActionsModel::none(max);
    if link_at(fresh.links, id, i) {
        let one = ActionModel::Send { interface, packet: fresh.links[i].proof };
        lemma_one_more(none, Seq::empty(), max, one);
        assert(Seq::empty().push(one) =~= seq![one]);
    }
    if let Some(proof_packet) = reading.accepted {
        let one = ActionModel::Send { interface, packet: proof_packet };
        let two = ActionModel::LinkUp { link_id: id };
        lemma_one_more(none, Seq::empty(), max, one);
        lemma_one_more(none.with(one), Seq::empty().push(one), max, two);
        assert(Seq::empty().push(one).push(two) =~= seq![one, two]);
    }
}

/// A proof that the link layer takes for a link this node opened brings the link up, where
/// there is a slot for it, and the shell is told; where there is none that is counted. Either
/// way the link waits no longer. A proof for no such link does nothing.
pub proof fn law_proof_brings_the_link_up(
    node: NodeModel,
    interface: InterfaceId,
    packet: PacketModel,
    now: u64,
    reading: ReadingModel,
    max: nat,
    p: int,
)
    requires
        ({
            let fresh = node.transport_expired(now);
            &&& is_own(fresh, packet)
            &&& packet.packet_type == PacketType::Proof
            &&& fresh.refused_links < 0xffff
        }),
    ensures
        ({
            let fresh = node.transport_expired(now);
            let step = node.ingested(interface, packet, now, reading, max);
            let after = step.node;
            let room = fresh.links.len() < fresh.max_links;
            &&& reading.proved is None ==> step.actions == ActionsModel::none(max) && after == fresh
            &&& reading.proved is Some && (forall|j: int|
                0 <= j < fresh.pending.len() ==> (#[trigger] fresh.pending[j]).link_id
                    != reading.proved->0) ==> step.actions == ActionsModel::none(max) && after
                == fresh
            &&& reading.proved is Some && pending_at(fresh.pending, reading.proved->0, p) ==> {
                let id = reading.proved->0;
                &&& after.pending.len() == fresh.pending.len() - 1
                &&& forall|j: int|
                    0 <= j < fresh.pending.len() && j != p ==> after.pending.contains(
                        #[trigger] fresh.pending[j],
                    )
                &&& room ==> wants(step.actions, seq![ActionModel::LinkUp { link_id: id }], max)
                    && after.links == fresh.links.push(
                    LinkModel { link_id: id, proof: packet, seen: now },
                ) && after.refused_links == fresh.refused_links
                &&& !room ==> step.actions == ActionsModel::none(max) && after.links
                    == fresh.links && after.refused_links == fresh.refused_links + 1
                &&& after == (NodeModel {
                    pending: after.pending,
                    links: after.links,
                    refused_links: after.refused_links,
                    ..fresh
                })
            }
        }),
{
    let fresh = node.transport_expired(now);
    lemma_found(fresh, packet.destination);
    lemma_nothing_wanted(max);
    if let Some(id) = reading.proved {
        lemma_found(fresh, id);
        lemma_index_of(fresh.pending, id);
        let one = ActionModel::LinkUp { link_id: id };
        lemma_one_more(ActionsModel::none(max), Seq::empty(), max, one);
        assert(Seq::empty().push(one) =~= seq![one]);
        if pending_at(fresh.pending, id, p) {
            lemma_swapped(fresh.pending, p);
        }
    }
}

/// A node's own hash is that of its identity.
pub proof fn law_own_hash_is_the_identitys(node: NodeModel, hash: AddressHash)
    requires
        hash@ == address_of(public_of(node.secret)),
    ensures
        node.own_hash() == hash,
{
    AddressHash::lemma_with(hash);
}

/// A resource is published on a link that is there and free of transfers, while there is a
/// place for it.
pub proof fn law_publishing_needs_a_free_link(node: NodeModel, id: AddressHash)
    ensures
        node.can_publish(id) <==> !no_link(node.links, id) && no_transfer(node.senders, id)
            && no_transfer(node.receivers, id) && node.senders.len() < node.max_links,
{
    lemma_found(node, id);
}

} // verus!
