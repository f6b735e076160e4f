//! What calls of a node do, from what it was before to what it is after.

use vstd::prelude::*;

use crate::hash::AddressHash;
use crate::node::actions::{ActionModel, Actions, ActionsModel, InterfaceId};
use crate::node::laws::links::{
    heard_from, is_own, law_outbound_transfer_sends_its_replies, law_publishing_needs_a_free_link,
    lemma_nothing_wanted, lemma_one_more, link_at, no_link, no_transfer, sends, transfer_at, wants,
};
use crate::node::state::{
    InterruptionPermission, InterruptionReport, LinkReading, Node, NodeModel, PendingSlot,
    TransferSlot,
};
use crate::packet::{Packet, PacketType};

verus! {

/// Taking in a packet of an outbound transfer sends what the transfer replies: all of it in its
/// order, as far as there is room, out the interface the packet came in on.
pub proof fn law_ingest_sends_the_transfers_replies<
    const PEERS: usize,
    const ACTIONS: usize,
    const LINKS: usize,
    const ROUTES: usize,
>(
    node: &mut Node<PEERS, ACTIONS, LINKS, ROUTES>,
    interface: InterfaceId,
    packet: Packet,
    now: u64,
    reading: LinkReading,
    actions: Actions<ACTIONS>,
    i: int,
    s: int,
)
    requires
        call_ensures(
            Node::<PEERS, ACTIONS, LINKS, ROUTES>::ingest,
            (node, interface, &packet, now, &reading),
            actions,
        ),
        is_own(old(node)@.transport_expired(now), packet@),
        packet.packet_type == PacketType::Data,
        1 <= packet.context <= 7,
        link_at(old(node)@.transport_expired(now).links, packet.destination, i),
        transfer_at(old(node)@.transport_expired(now).senders, packet.destination, s),
    ensures
        wants(actions@, sends(interface, reading@.replies), ACTIONS as nat),
        final(node)@.links == heard_from(old(node)@.transport_expired(now).links, i, now),
{
    law_outbound_transfer_sends_its_replies(
        old(node)@,
        interface,
        packet@,
        now,
        reading@,
        ACTIONS as nat,
        i,
        s,
    );
}

/// A resource is published where its link is there and free: the advertisement is sent out the
/// interface given, and a transfer is on the link from then on. Otherwise nothing happens.
pub proof fn law_publish_advertises_on_a_free_link<
    const PEERS: usize,
    const ACTIONS: usize,
    const LINKS: usize,
    const ROUTES: usize,
>(
    node: &mut Node<PEERS, ACTIONS, LINKS, ROUTES>,
    link_id: AddressHash,
    interface: InterfaceId,
    advertisement: Packet,
    now: u64,
    actions: Option<Actions<ACTIONS>>,
)
    requires
        call_ensures(
            Node::<PEERS, ACTIONS, LINKS, ROUTES>::publish,
            (node, link_id, interface, advertisement, now),
            actions,
        ),
    ensures
        actions is Some <==> !no_link(old(node)@.links, link_id) && no_transfer(
            old(node)@.senders,
            link_id,
        ) && no_transfer(old(node)@.receivers, link_id) && old(node)@.senders.len()
            < old(node)@.max_links,
        actions matches Some(a) ==> wants(
            a@,
            seq![ActionModel::Send { interface, packet: advertisement@ }],
            ACTIONS as nat,
        ) && final(node)@ == (NodeModel {
            senders: old(node)@.senders.push(TransferSlot { link_id, at: now }),
            ..old(node)@
        }),
        actions is None ==> final(node)@ == old(node)@,
{
    law_publishing_needs_a_free_link(old(node)@, link_id);
    let one = ActionModel::Send { interface, packet: advertisement@ };
    lemma_nothing_wanted(ACTIONS as nat);
    lemma_one_more(ActionsModel::none(ACTIONS as nat), Seq::empty(), ACTIONS as nat, one);
    assert(Seq::empty().push(one) =~= seq![one]);
}

/// An interruption happens where session loss is permitted and only there. It reports every
/// link, open or awaited, and ends them all.
pub proof fn law_interruption_needs_permission<
    const PEERS: usize,
    const ACTIONS: usize,
    const LINKS: usize,
    const ROUTES: usize,
>(
    node: &mut Node<PEERS, ACTIONS, LINKS, ROUTES>,
    permission: InterruptionPermission,
    report: Option<InterruptionReport>,
)
    requires
        call_ensures(
            Node::<PEERS, ACTIONS, LINKS, ROUTES>::force_interrupt,
            (node, permission),
            report,
        ),
    ensures
        report is Some <==> permission == InterruptionPermission::AllowSessionLoss,
        report is None ==> final(node)@ == old(node)@,
        report matches Some(r) ==> {
            &&& r.links@.len() == old(node)@.links.len()
            &&& forall|i: int|
                0 <= i < r.links@.len() ==> #[trigger] r.links@[i] == old(node)@.links[i].link_id
            &&& r.pending@.len() == old(node)@.pending.len()
            &&& forall|i: int|
                0 <= i < r.pending@.len() ==> #[trigger] r.pending@[i]
                    == old(node)@.pending[i].link_id
            &&& final(node)@.links.len() == 0
            &&& final(node)@.pending.len() == 0
            &&& final(node)@.receivers.len() == 0
            &&& final(node)@.senders.len() == 0
        },
{
}

/// A link is opened to a peer that is known, while there is a slot to await its proof: the
/// request is sent out the interface given and the link awaited. A stranger is refused for
/// nothing; a known peer without a slot is counted.
pub proof fn law_link_is_opened_to_a_known_peer<
    const PEERS: usize,
    const ACTIONS: usize,
    const LINKS: usize,
    const ROUTES: usize,
>(
    node: &mut Node<PEERS, ACTIONS, LINKS, ROUTES>,
    destination: AddressHash,
    interface: InterfaceId,
    link_id: AddressHash,
    request: Packet,
    actions: Option<Actions<ACTIONS>>,
)
    requires
        call_ensures(
            Node::<PEERS, ACTIONS, LINKS, ROUTES>::open_link,
            (node, destination, interface, link_id, request),
            actions,
        ),
        old(node)@.refused_links < 0xffff,
    ensures
        ({
            let known = old(node)@.book.peers.contains_key(destination);
            let room = old(node)@.pending.len() < LINKS;
            &&& actions is Some <==> known && room
            &&& actions matches Some(a) ==> wants(
                a@,
                seq![ActionModel::Send { interface, packet: request@ }],
                ACTIONS as nat,
            ) && final(node)@ == (NodeModel {
                pending: old(node)@.pending.push(PendingSlot { link_id, destination }),
                ..old(node)@
            })
            &&& !known ==> final(node)@ == old(node)@
            &&& known && !room ==> final(node)@ == (NodeModel {
                refused_links: (old(node)@.refused_links + 1) as u16,
                ..old(node)@
            })
        }),
{
    let one = ActionModel::Send { interface, packet: request@ };
    lemma_nothing_wanted(ACTIONS as nat);
    lemma_one_more(ActionsModel::none(ACTIONS as nat), Seq::empty(), ACTIONS as nat, one);
    assert(Seq::empty().push(one) =~= seq![one]);
}

} // verus!
