//! What the node wants done.

use vstd::prelude::*;

use crate::bounded::BoundedVec;
use crate::bytes;
use crate::hash::AddressHash;
use crate::packet::{Packet, PacketModel};

verus! {

/// Which interface a packet arrived on or should leave by.
///
/// A plain integer chosen by the shell, so a board with one radio and one host link can simply
/// number them.
pub type InterfaceId = u32;

/// Something the node wants the shell to do.
///
/// The node never acts; it decides. A shell reads these and performs them with whatever radio,
/// timer and link it has.
#[derive(Debug, PartialEq, Eq)]
pub enum Action {
    /// Put this packet on the wire, by this interface.
    Send { interface: InterfaceId, packet: Packet },
    /// A destination was learned or refreshed from a valid announce. The shell may show it on a
    /// face or hand it to an application; the node has already recorded it.
    Learned { destination: AddressHash },
    /// A link is established, in either direction. The shell may now carry data on it.
    LinkUp { link_id: AddressHash },
    /// A link ended, because the peer closed it or the node dropped it.
    LinkDown { link_id: AddressHash },
    /// Application bytes arrived on a link, already decrypted.
    Data { link_id: AddressHash, payload: Vec<u8> },
    /// A resource arrived whole, reassembled and verified against its advertised hash.
    Resource { link_id: AddressHash, data: Vec<u8> },
}

/// An [`Action`] with its bytes as sequences.
pub enum ActionModel {
    Send { interface: InterfaceId, packet: PacketModel },
    Learned { destination: AddressHash },
    LinkUp { link_id: AddressHash },
    LinkDown { link_id: AddressHash },
    Data { link_id: AddressHash, payload: Seq<u8> },
    Resource { link_id: AddressHash, data: Seq<u8> },
}

impl View for Action {
    type V = ActionModel;

    open spec fn view(&self) -> ActionModel {
        match *self {
            Action::Send { interface, packet } => ActionModel::Send { interface, packet: packet@ },
            Action::Learned { destination } => ActionModel::Learned { destination },
            Action::LinkUp { link_id } => ActionModel::LinkUp { link_id },
            Action::LinkDown { link_id } => ActionModel::LinkDown { link_id },
            Action::Data { link_id, payload } => ActionModel::Data { link_id, payload: payload@ },
            Action::Resource { link_id, data } => ActionModel::Resource { link_id, data: data@ },
        }
    }
}

impl Clone for Action {
    fn clone(&self) -> (copy: Self)
        ensures
            copy@ == self@,
    {
        match self {
            Action::Send { interface, packet } => Action::Send {
                interface: *interface,
                packet: packet.clone(),
            },
            Action::Learned { destination } => Action::Learned { destination: *destination },
            Action::LinkUp { link_id } => Action::LinkUp { link_id: *link_id },
            Action::LinkDown { link_id } => Action::LinkDown { link_id: *link_id },
            Action::Data { link_id, payload } => Action::Data {
                link_id: *link_id,
                payload: bytes::copy_all(payload.as_slice()),
            },
            Action::Resource { link_id, data } => Action::Resource {
                link_id: *link_id,
                data: bytes::copy_all(data.as_slice()),
            },
        }
    }
}

/// What one call produced.
pub struct ActionsModel {
    pub items: Seq<ActionModel>,
    pub overflowed: u16,
    /// How many fit.
    pub max: nat,
}

/// A count that stays at its ceiling.
pub open spec fn counted_up(n: u16, more: int) -> u16 {
    if n + more > u16::MAX {
        u16::MAX
    } else {
        (n + more) as u16
    }
}

impl ActionsModel {
    /// Nothing yet.
    pub open spec fn none(max: nat) -> ActionsModel {
        ActionsModel { items: Seq::empty(), overflowed: 0, max }
    }

    /// Whether one more fits.
    pub open spec fn has_room(self) -> bool {
        self.items.len() < self.max
    }

    /// With one more wanted: in, or counted where it does not fit.
    pub open spec fn with(self, action: ActionModel) -> ActionsModel {
        if self.has_room() {
            ActionsModel { items: self.items.push(action), ..self }
        } else {
            ActionsModel { overflowed: counted_up(self.overflowed, 1), ..self }
        }
    }

    /// With a packet to send.
    pub open spec fn sending(self, interface: InterfaceId, packet: PacketModel) -> ActionsModel {
        self.with(ActionModel::Send { interface, packet })
    }

    /// With several packets to send.
    pub open spec fn sending_all(self, interface: InterfaceId, packets: Seq<PacketModel>) -> ActionsModel
        decreases packets.len(),
    {
        if packets.len() == 0 {
            self
        } else {
            self.sending_all(interface, packets.drop_last()).sending(interface, packets.last())
        }
    }
}

/// A list of actions as models.
pub open spec fn action_models(items: Seq<Action>) -> Seq<ActionModel> {
    Seq::new(items.len(), |i: int| items[i]@)
}

/// A list of packets as models.
pub open spec fn packet_models(items: Seq<Packet>) -> Seq<PacketModel> {
    Seq::new(items.len(), |i: int| items[i]@)
}

/// What one call produced.
///
/// Bounded, because a single call must never be able to demand unbounded work of a shell that
/// has 256 KB. `overflowed` reports honestly when the bound was reached rather than silently
/// dropping.
pub struct Actions<const N: usize> {
    items: BoundedVec<Action, N>,
    overflowed: u16,
}

impl<const N: usize> View for Actions<N> {
    type V = ActionsModel;

    closed spec fn view(&self) -> ActionsModel {
        ActionsModel {
            items: action_models(self.items.view()),
            overflowed: self.overflowed,
            max: N as nat,
        }
    }
}

impl<const N: usize> Actions<N> {
    /// Nothing yet.
    pub fn new() -> (actions: Self)
        ensures
            actions@ == ActionsModel::none(N as nat),
    {
        let actions = Actions { items: BoundedVec::new(), overflowed: 0 };
        proof {
            assert(actions@.items =~= Seq::<ActionModel>::empty());
        }
        actions
    }

    /// One more; `false` if it does not fit, which is counted.
    pub fn push(&mut self, action: Action) -> (fits: bool)
        ensures
            fits == old(self)@.has_room(),
            final(self)@ == old(self)@.with(action@),
    {
        let ghost before = self.items.view();
        match self.items.push(action) {
            Ok(()) => {
                proof {
                    assert(action_models(self.items.view()) =~= action_models(before).push(
                        action@,
                    ));
                }
                true
            },
            Err(_) => {
                self.overflowed = self.overflowed.saturating_add(1);
                false
            },
        }
    }

    /// One more packet to send.
    pub(crate) fn send(&mut self, interface: InterfaceId, packet: Packet) -> (fits: bool)
        ensures
            fits == old(self)@.has_room(),
            final(self)@ == old(self)@.sending(interface, packet@),
    {
        self.push(Action::Send { interface, packet })
    }

    /// Several packets to send.
    pub(crate) fn send_all(&mut self, interface: InterfaceId, packets: &[Packet])
        ensures
            final(self)@ == old(self)@.sending_all(interface, packet_models(packets@)),
    {
        let ghost before = self@;
        let ghost all = packet_models(packets@);
        let mut i: usize = 0;
        proof {
            assert(all.subrange(0, 0) =~= Seq::<PacketModel>::empty());
        }
        while i < packets.len()
            invariant
                i <= packets@.len(),
                all == packet_models(packets@),
                self@ == before.sending_all(interface, all.subrange(0, i as int)),
            decreases packets@.len() - i,
        {
            let ghost next = all.subrange(0, i + 1);
            proof {
                assert(next.drop_last() =~= all.subrange(0, i as int));
            }
            let _ = self.send(interface, packets[i].clone());
            i += 1;
        }
        proof {
            assert(all.subrange(0, i as int) =~= all);
        }
    }

    /// The actions, in the order they were wanted.
    pub fn items(&self) -> (items: &[Action])
        ensures
            action_models(items@) == self@.items,
    {
        self.items.items()
    }

    /// Walk the actions, in the order they were wanted.
    pub fn iter(&self) -> (iter: core::slice::Iter<'_, Action>)
        ensures
            action_models(vstd::std_specs::slice::into_iter_elts(iter)) == self@.items,
    {
        let items = self.items.items();
        let iter = items.iter();
        proof {
            vstd::std_specs::slice::axiom_spec_slice_iter(items);
            assert(vstd::std_specs::slice::into_iter_elts(iter) =~= items@);
        }
        iter
    }

    /// How many there are.
    pub fn len(&self) -> (n: usize)
        ensures
            n == self@.items.len(),
            n <= N,
    {
        self.items.len()
    }

    /// Whether there are none.
    pub fn is_empty(&self) -> (empty: bool)
        ensures
            empty == (self@.items.len() == 0),
    {
        self.items.len() == 0
    }

    /// Actions that did not fit. Nonzero means the shell is not draining fast enough, or the
    /// bound is too small for this traffic.
    pub fn overflowed(&self) -> (n: u16)
        ensures
            n == self@.overflowed,
    {
        self.overflowed
    }
}

} // verus!
