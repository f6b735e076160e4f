//! What time does to a node: its own announces, retries, silent peers, and absences.

use vstd::prelude::*;

use crate::announce::{announced, law_built_announce_decodes, AnnounceBlob};
use crate::destination::destination_of;
use crate::hash::{address_of, AddressHash};
use crate::identity::public_of;
use crate::node::actions::{packet_models, ActionModel, ActionsModel, InterfaceId};
use crate::node::laws::links::{
    law_wanted_actions_keep_their_order, lemma_nothing_wanted, lemma_one_more, sends, wants,
};
use crate::node::state::{
    at_most, due_slots, earliest_expiry, flattened, idle_ids, iv_input, latest_activity, link_ids,
    redriven, seed_input,
    LinkModel, NodeModel, PauseBlocked, Redrive, TransferSlot,
};
use crate::packet::{
    DestinationType, HeaderType, Packet, PacketModel, PacketType, Propagation,
};
use crate::recent::{law_aging_is_by_time, lemma_without_aged, without_aged};
use crate::table::{age, Stamped};

verus! {

/// Whether this node's own announce is due: none went out yet, or an interval has passed.
pub open spec fn owes_an_announce(node: NodeModel, now: u64) -> bool {
    node.last_announce is None || age(now, node.last_announce->0) >= node.announce_interval
}

/// Several lists of packets, one after another.
pub open spec fn joined(lists: Seq<Vec<Packet>>) -> Seq<PacketModel> {
    Seq::new(lists.len(), |i: int| packet_models(lists[i]@)).flatten()
}

/// The transfers that have been silent for the retry interval.
pub open spec fn silent(slots: Seq<TransferSlot>, now: u64) -> Seq<TransferSlot> {
    slots.filter(|t: TransferSlot| age(now, t.at) >= 12_000)
}

/// The first of a list, as many as wanted.
pub open spec fn first_of<T>(s: Seq<T>, n: nat) -> Seq<T> {
    s.subrange(
        0,
        if s.len() < n {
            s.len() as int
        } else {
            n as int
        },
    )
}

/// A node's own announce is a broadcast from its destination, fresh from its sender, that says
/// what the node is: its identity, name, blob, ratchet and application data.
pub proof fn law_own_announce_says_what_the_node_is(
    node: NodeModel,
    blob: Seq<u8>,
    ratchet: Option<[u8; 32]>,
    destination: AddressHash,
)
    requires
        node.name_hash.len() == 10,
        blob.len() == 10,
        destination@ == destination_of(node.name_hash, address_of(public_of(node.secret))),
    ensures
        ({
            let key = match ratchet {
                Some(r) => Some(r@),
                None => None,
            };
            let packet = node.announce_packet(blob, key);
            let said = announced(packet);
            &&& packet.packet_type == PacketType::Announce
            &&& packet.header_type == HeaderType::Type1
            &&& packet.propagation == Propagation::Broadcast
            &&& packet.destination_type == DestinationType::Single
            &&& packet.destination == destination
            &&& destination == node.destination()
            &&& packet.transport is None
            &&& packet.hops == 0
            &&& packet.context == 0
            &&& !packet.ifac
            &&& packet.context_flag == (ratchet is Some)
            &&& said.identity == public_of(node.secret)
            &&& said.destination == destination@
            &&& said.name_hash == node.name_hash
            &&& said.rand_hash == blob
            &&& said.ratchet == key
            &&& said.app_data == node.app_data
        }),
{
    AddressHash::lemma_with(destination);
    let key = match ratchet {
        Some(r) => Some(r@),
        None => None,
    };
    let packet = node.announce_packet(blob, key);
    law_built_announce_decodes(
        node.secret,
        node.name_hash,
        blob,
        ratchet,
        node.app_data,
        packet,
        packet,
    );
}

/// What a poll wants, in this order and as far as there is room: the node's own announce, where
/// one is due and there is a blob for it; then what each silent receiver requests again, and
/// what each silent sender offers again. All of it goes out the polled interface. The announce
/// counts as made now, each silent transfer as driven now, and nothing else changes but what
/// falls idle.
pub proof fn law_poll_drives_what_is_due(
    node: NodeModel,
    now: u64,
    interface: InterfaceId,
    blob: Option<AnnounceBlob>,
    redrive: Redrive,
    max: nat,
)
    ensures
        ({
            let fresh = node.transport_expired(now);
            let step = node.polled(now, interface, blob, redrive, max);
            let after = step.node;
            let announces = blob is Some && owes_an_announce(node, now);
            let own = if announces {
                seq![
                    ActionModel::Send {
                        interface,
                        packet: node.announce_packet(blob->0@, None),
                    },
                ]
            } else {
                Seq::empty()
            };
            let requests = joined(
                first_of(redrive.requests@, silent(node.receivers, now).len()),
            );
            let offers = packet_models(
                first_of(redrive.advertisements@, silent(node.senders, now).len()),
            );
            &&& wants(
                step.actions,
                own + sends(interface, requests) + sends(interface, offers),
                max,
            )
            &&& after.last_announce == (if announces {
                Some(now)
            } else {
                node.last_announce
            })
            &&& after == (NodeModel {
                links: after.links,
                expired_links: after.expired_links,
                last_announce: after.last_announce,
                receivers: after.receivers,
                senders: after.senders,
                ..fresh
            })
        }),
{
    let fresh = node.transport_expired(now);
    let none = ActionsModel::none(max);
    lemma_nothing_wanted(max);
    lemma_due(node.receivers, now);
    lemma_due(node.senders, now);
    let requests = flattened(
        at_most(redrive.requests@, due_slots(fresh.receivers, now).len()),
    );
    let offers = packet_models(
        at_most(redrive.advertisements@, due_slots(fresh.senders, now).len()),
    );
    assert(at_most(redrive.requests@, silent(node.receivers, now).len()) =~= first_of(
        redrive.requests@,
        silent(node.receivers, now).len(),
    ));
    assert(at_most(redrive.advertisements@, silent(node.senders, now).len()) =~= first_of(
        redrive.advertisements@,
        silent(node.senders, now).len(),
    ));
    lemma_joined(at_most(redrive.requests@, silent(node.receivers, now).len()));
    let announces = blob is Some && owes_an_announce(node, now);
    assert(announces == (blob is Some && fresh.announce_is_due(now)));
    let one = ActionModel::Send { interface, packet: node.announce_packet(blob->0@, None) };
    let (begun, own) = if announces {
        (none.with(one), seq![one])
    } else {
        (none, Seq::empty())
    };
    if announces {
        lemma_one_more(none, Seq::empty(), max, one);
        assert(Seq::empty().push(one) =~= seq![one]);
        assert(fresh.announce_packet(blob->0@, None) == node.announce_packet(blob->0@, None));
    }
    law_wanted_actions_keep_their_order(begun, own, max, one, interface, requests);
    law_wanted_actions_keep_their_order(
        begun.sending_all(interface, requests),
        own + sends(interface, requests),
        max,
        one,
        interface,
        offers,
    );
}

/// What is due is what was silent.
proof fn lemma_due(slots: Seq<TransferSlot>, now: u64)
    ensures
        due_slots(slots, now) == silent(slots, now).map_values(|t: TransferSlot| t.link_id),
    decreases slots.len(),
{
    reveal(Seq::filter);
    if slots.len() > 0 {
        lemma_due(slots.drop_last(), now);
        assert(due_slots(slots, now) =~= silent(slots, now).map_values(
            |t: TransferSlot| t.link_id,
        ));
    }
}

/// Lists joined from the front are lists joined from the back.
proof fn lemma_joined(lists: Seq<Vec<Packet>>)
    ensures
        flattened(lists) == joined(lists),
    decreases lists.len(),
{
    let parts = Seq::new(lists.len(), |i: int| packet_models(lists[i]@));
    lemma_joined_from_the_back(lists);
    parts.lemma_flatten_and_flatten_alt_are_equivalent();
}

/// Lists joined from the back.
proof fn lemma_joined_from_the_back(lists: Seq<Vec<Packet>>)
    ensures
        flattened(lists) == Seq::new(
            lists.len(),
            |i: int| packet_models(lists[i]@),
        ).flatten_alt(),
    decreases lists.len(),
{
    if lists.len() > 0 {
        let front = lists.drop_last();
        lemma_joined_from_the_back(front);
        let parts = Seq::new(lists.len(), |i: int| packet_models(lists[i]@));
        let fewer = Seq::new(front.len(), |i: int| packet_models(front[i]@));
        assert(parts.drop_last() =~= fewer);
    }
}

/// The transfers that are due are those silent for the retry interval, in their order. Driving
/// them again restamps those, and leaves the others as they are.
pub proof fn law_silent_transfers_are_driven(slots: Seq<TransferSlot>, now: u64)
    ensures
        due_slots(slots, now) == silent(slots, now).map_values(|t: TransferSlot| t.link_id),
        redriven(slots, now).len() == slots.len(),
        forall|i: int|
            0 <= i < slots.len() ==> {
                let after = #[trigger] redriven(slots, now)[i];
                &&& after.link_id == slots[i].link_id
                &&& after.at == (if age(now, slots[i].at) >= 12_000 {
                    now
                } else {
                    slots[i].at
                })
            },
{
    lemma_due(slots, now);
}

/// A poll drives the silent transfers of both ways again.
pub proof fn law_poll_restamps_transfers(
    node: NodeModel,
    now: u64,
    interface: InterfaceId,
    blob: Option<AnnounceBlob>,
    redrive: Redrive,
    max: nat,
    i: int,
)
    ensures
        ({
            let after = node.polled(now, interface, blob, redrive, max).node;
            &&& after.receivers.len() == node.receivers.len()
            &&& after.senders.len() == node.senders.len()
            &&& 0 <= i < node.receivers.len() ==> after.receivers[i] == (TransferSlot {
                link_id: node.receivers[i].link_id,
                at: if age(now, node.receivers[i].at) >= 12_000 {
                    now
                } else {
                    node.receivers[i].at
                },
            })
            &&& 0 <= i < node.senders.len() ==> after.senders[i] == (TransferSlot {
                link_id: node.senders[i].link_id,
                at: if age(now, node.senders[i].at) >= 12_000 {
                    now
                } else {
                    node.senders[i].at
                },
            })
        }),
{
}

/// The links that fall idle are those unheard for a quarter of an hour. They are reported in
/// their order, and those reported are as many as are gone and counted.
pub proof fn law_idle_links_are_reported(node: NodeModel, now: u64)
    requires
        node.expired_links + node.links.len() <= 0xffff,
    ensures
        ({
            let after = node.sessions_expired(now);
            let idle = node.links.filter(|l: LinkModel| age(now, l.seen) >= 900_000);
            &&& idle_ids(node.links, now) == idle.map_values(|l: LinkModel| l.link_id)
            &&& after.links.len() == node.links.len() - idle.len()
            &&& after.expired_links == node.expired_links + idle.len()
            &&& after.links.to_multiset() == node.links.filter(
                |l: LinkModel| age(now, l.seen) < 900_000,
            ).to_multiset()
            &&& after == (NodeModel {
                links: after.links,
                expired_links: after.expired_links,
                ..node
            })
        }),
{
    let links = node.links;
    lemma_idle(links, now);
    law_aging_is_by_time(links, now, 900_000);
    assert((|entry: LinkModel| age(now, Stamped::stamped_at(entry)) < 900_000)
        =~= (|l: LinkModel| age(now, l.seen) < 900_000));
    let kept = links.filter(|l: LinkModel| age(now, l.seen) < 900_000);
    links_len_by_multiset(without_aged(links, now, 900_000), kept);
    lemma_parts(links, now);
    lemma_without_aged(links, now, 900_000);
}

/// Lists of the same things are as long.
proof fn links_len_by_multiset(a: Seq<LinkModel>, b: Seq<LinkModel>)
    requires
        a.to_multiset() == b.to_multiset(),
    ensures
        a.len() == b.len(),
{
    broadcast use vstd::seq_lib::group_to_multiset_ensures;

    assert(a.to_multiset().len() == a.len());
    assert(b.to_multiset().len() == b.len());
}

/// The idle and the others are all.
proof fn lemma_parts(links: Seq<LinkModel>, now: u64)
    ensures
        links.filter(|l: LinkModel| age(now, l.seen) < 900_000).len() + links.filter(
            |l: LinkModel| age(now, l.seen) >= 900_000,
        ).len() == links.len(),
    decreases links.len(),
{
    reveal(Seq::filter);
    if links.len() > 0 {
        lemma_parts(links.drop_last(), now);
    }
}

/// What is idle is what was unheard.
proof fn lemma_idle(links: Seq<LinkModel>, now: u64)
    ensures
        idle_ids(links, now) == links.filter(
            |l: LinkModel| age(now, l.seen) >= 900_000,
        ).map_values(|l: LinkModel| l.link_id),
    decreases links.len(),
{
    reveal(Seq::filter);
    if links.len() > 0 {
        lemma_idle(links.drop_last(), now);
        assert(idle_ids(links, now) =~= links.filter(
            |l: LinkModel| age(now, l.seen) >= 900_000,
        ).map_values(|l: LinkModel| l.link_id));
    }
}

/// The earliest expiry is that of a link and no link's is earlier; the latest activity is that
/// of a link and no link's is later. Both are there where a link is.
pub proof fn law_pause_is_assessed_over_all_links(links: Seq<LinkModel>)
    ensures
        latest_activity(links) is None <==> links.len() == 0,
        latest_activity(links) matches Some(latest) ==> (exists|i: int|
            0 <= i < links.len() && (#[trigger] links[i]).seen == latest) && (forall|i: int|
            0 <= i < links.len() ==> (#[trigger] links[i]).seen <= latest),
        earliest_expiry(links) is None ==> (forall|i: int|
            0 <= i < links.len() ==> (#[trigger] links[i]).seen + 900_000 > u64::MAX),
        earliest_expiry(links) matches Some(first) ==> (exists|i: int|
            0 <= i < links.len() && (#[trigger] links[i]).seen + 900_000 == first) && (forall|
            i: int,
        |
            0 <= i < links.len() ==> first <= (#[trigger] links[i]).seen + 900_000),
    decreases links.len(),
{
    if links.len() > 0 {
        let before = links.drop_last();
        law_pause_is_assessed_over_all_links(before);
        let last = links.len() - 1;
        assert(links[last] == links.last());
        assert forall|i: int| 0 <= i < last implies #[trigger] links[i] == before[i] by {}
        if latest_activity(before) is Some {
            let i = choose|i: int|
                0 <= i < before.len() && (#[trigger] before[i]).seen == latest_activity(before)->0;
            assert(links[i] == before[i]);
        }
        if earliest_expiry(before) is Some {
            let i = choose|i: int|
                0 <= i < before.len() && (#[trigger] before[i]).seen + 900_000 == earliest_expiry(
                    before,
                )->0;
            assert(links[i] == before[i]);
        }
        assert forall|i: int| 0 <= i < links.len() && earliest_expiry(links) is None implies (
        #[trigger] links[i]).seen + 900_000 > u64::MAX by {
            if i < last {
                assert(links[i] == before[i]);
            }
        }
    }
}

/// An absence is safe exactly where it does not end before it begins, and every link was heard
/// from by then and outlives it.
pub proof fn law_absence_is_safe_while_links_outlive_it(
    node: NodeModel,
    now: u64,
    return_by: u64,
)
    ensures
        node.assessment().obstacle(now, return_by) is None <==> now <= return_by && (forall|i: int|
            0 <= i < node.links.len() ==> (#[trigger] node.links[i]).seen <= now && return_by
                < node.links[i].seen + 900_000 && node.links[i].seen + 900_000 <= u64::MAX),
        node.assessment().obstacle(now, return_by) matches Some(
            PauseBlocked::ReturnBoundBeforeNow { now: n, return_by: r },
        ) ==> r < n && n == now && r == return_by,
        return_by < now ==> node.assessment().obstacle(now, return_by) == Some(
            PauseBlocked::ReturnBoundBeforeNow { now, return_by },
        ),
        now <= return_by && (exists|i: int|
            0 <= i < node.links.len() && (#[trigger] node.links[i]).seen > now)
            ==> node.assessment().obstacle(now, return_by) is Some && node.assessment().obstacle(
            now,
            return_by,
        )->0 is ClockBeforeLinkActivity,
{
    let links = node.links;
    law_pause_is_assessed_over_all_links(links);
    let ok = now <= return_by && (forall|i: int|
        0 <= i < links.len() ==> (#[trigger] links[i]).seen <= now && return_by < links[i].seen
            + 900_000 && links[i].seen + 900_000 <= u64::MAX);
    if node.assessment().obstacle(now, return_by) is None {
        assert forall|i: int| 0 <= i < links.len() implies (#[trigger] links[i]).seen <= now
            && return_by < links[i].seen + 900_000 && links[i].seen + 900_000 <= u64::MAX by {}
    }
}

/// An interruption ends every session and touches nothing else; it reports the links it ended
/// in their order.
pub proof fn law_interruption_ends_every_session(node: NodeModel)
    ensures
        node.interrupted().links.len() == 0,
        node.interrupted().pending.len() == 0,
        node.interrupted().receivers.len() == 0,
        node.interrupted().senders.len() == 0,
        node.interrupted() == (NodeModel {
            links: Seq::empty(),
            pending: Seq::empty(),
            receivers: Seq::empty(),
            senders: Seq::empty(),
            ..node
        }),
        link_ids(node.links) == node.links.map_values(|l: LinkModel| l.link_id),
{
    assert(link_ids(node.links) =~= node.links.map_values(|l: LinkModel| l.link_id));
}

/// What a node derives is bound to its secret and to the link: a resource's IV to the counter
/// too, written lowest byte first, and a responder's seed to the half it is for.
pub proof fn law_derivations_are_bound_to_secret_and_link(
    secret: Seq<u8>,
    link_id: Seq<u8>,
    counter: u32,
    tag: Seq<char>,
)
    ensures
        ({
            let domain = vstd::utf8::encode_utf8("retinue/node/resource-iv"@);
            let input = iv_input(secret, link_id, counter);
            let at = (domain.len() + secret.len() + link_id.len()) as int;
            &&& input.len() == at + 4
            &&& input.subrange(0, at) == domain + secret + link_id
            &&& input[at] + input[at + 1] * 0x100 + input[at + 2] * 0x1_0000 + input[at + 3]
                * 0x100_0000 == counter
        }),
        seed_input(tag, secret, link_id) == vstd::utf8::encode_utf8(tag) + secret + link_id,
{
    let domain = vstd::utf8::encode_utf8("retinue/node/resource-iv"@);
    let input = iv_input(secret, link_id, counter);
    let at = (domain.len() + secret.len() + link_id.len()) as int;
    assert(input.subrange(0, at) =~= domain + secret + link_id);
}

} // verus!
