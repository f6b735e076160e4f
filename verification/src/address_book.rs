//! The address book: learning peers from announces.
//!
//! A destination hash cannot be turned back into an identity, so to reach a peer you must
//! have heard it announce. The address book ingests validated [`Announce`]s and answers the
//! question a link needs: given a destination hash, what is the identity (to verify its
//! proof) and its current ratchet?
//!
//! This is pure state over [`Announce`], which is itself already validated on decode, so an
//! entry only ever comes from an announce whose signature checked out. Cadence and I/O live
//! in the shell above; this holds no timers and does no network.

use vstd::prelude::*;

use crate::announce::{Announce, AnnounceModel};
use crate::bytes;
use crate::hash::{AddressHash, NameHash};
use crate::identity::Identity;
use crate::table::{AddressTable, Table, TableKey};

verus! {

/// What the book knows about one destination.
#[derive(Debug)]
pub struct Peer {
    /// The destination's identity, enough to verify a link proof from it.
    pub identity: Identity,
    /// The destination's name hash, as announced.
    pub name_hash: NameHash,
    /// The most recently announced app data.
    pub app_data: Vec<u8>,
    /// The destination's current ratchet public key, if it advertises ratchets. Kept so a
    /// single-packet encryption to this destination can use the ratchet rather than the
    /// long-term key.
    pub ratchet: Option<[u8; 32]>,
    /// How many announces for this destination have been ingested. A cheap freshness and
    /// liveness signal without a clock, which this layer deliberately does not have.
    pub announces_seen: u64,
}

/// A [`Peer`] with its byte strings as sequences.
pub struct PeerModel {
    pub identity: Seq<u8>,
    pub name_hash: Seq<u8>,
    pub app_data: Seq<u8>,
    pub ratchet: Option<Seq<u8>>,
    pub announces_seen: u64,
}

impl View for Peer {
    type V = PeerModel;

    open spec fn view(&self) -> PeerModel {
        PeerModel {
            identity: self.identity@,
            name_hash: self.name_hash@,
            app_data: self.app_data@,
            ratchet: match self.ratchet {
                Some(r) => Some(r@),
                None => None,
            },
            announces_seen: self.announces_seen,
        }
    }
}

/// The most destinations a book holds unless told otherwise.
///
/// A runtime cap on a growable map rather than a fixed-size table: the count is a policy
/// choice that differs by an order of magnitude between a desktop and a board.
pub const DEFAULT_MAX_PEERS: usize = 4096;

/// What [`AddressBook::ingest`] did with an announce.
#[derive(Debug, Clone, Copy, PartialEq, Eq, Structural)]
pub enum Ingested {
    /// A destination not previously known was added.
    Learned,
    /// A known destination's entry was refreshed.
    Refreshed,
    /// The book is at capacity and this destination is not in it. The book keeps serving
    /// every destination it already knows; the shell makes room with [`AddressBook::forget`].
    Refused,
}

/// A store of peers learned from announces, keyed by destination hash.
pub struct AddressBook {
    peers: AddressTable<Peer>,
    max_peers: usize,
    refused: u64,
}

/// The state of an address book.
pub struct BookModel {
    pub peers: Map<AddressHash, PeerModel>,
    pub max_peers: usize,
    pub refused: u64,
}

impl BookModel {
    /// Whether a new destination would not fit.
    pub open spec fn is_full(self) -> bool {
        self.peers.dom().len() >= self.max_peers
    }

    /// What is done with an announce.
    pub open spec fn verdict(self, destination: AddressHash) -> Ingested {
        if self.peers.contains_key(destination) {
            Ingested::Refreshed
        } else if self.is_full() {
            Ingested::Refused
        } else {
            Ingested::Learned
        }
    }

    /// What is known of a destination after its announce.
    pub open spec fn peer_after(self, destination: AddressHash, announce: AnnounceModel) -> PeerModel {
        PeerModel {
            identity: announce.identity,
            name_hash: announce.name_hash,
            app_data: announce.app_data,
            ratchet: announce.ratchet,
            announces_seen: if self.peers.contains_key(destination) {
                self.peers[destination].announces_seen.wrapping_add(1)
            } else {
                1
            },
        }
    }

    /// The book after an announce: the announce is the destination's entry, unless it is
    /// refused, which is counted.
    pub open spec fn after_ingest(self, destination: AddressHash, announce: AnnounceModel) -> BookModel {
        if self.verdict(destination) == Ingested::Refused {
            BookModel {
                refused: if self.refused < u64::MAX {
                    (self.refused + 1) as u64
                } else {
                    self.refused
                },
                ..self
            }
        } else {
            BookModel {
                peers: self.peers.insert(destination, self.peer_after(destination, announce)),
                ..self
            }
        }
    }
}

/// The entries of a table of peers, as models.
spec fn peer_models(peers: Map<AddressHash, Peer>) -> Map<AddressHash, PeerModel> {
    peers.map_values(|p: Peer| p@)
}

impl View for AddressBook {
    type V = BookModel;

    closed spec fn view(&self) -> BookModel {
        BookModel {
            peers: peer_models(self.peers.view()),
            max_peers: self.max_peers,
            refused: self.refused,
        }
    }
}

impl Default for AddressBook {
    fn default() -> (book: Self)
        ensures
            book.inv(),
            book@ == (BookModel { peers: Map::empty(), max_peers: DEFAULT_MAX_PEERS, refused: 0 }),
    {
        AddressBook::with_max_peers(DEFAULT_MAX_PEERS)
    }
}

impl AddressBook {
    /// The invariant: no more peers than the book may hold.
    pub closed spec fn inv(&self) -> bool {
        self.peers.inv() && self.peers.rows().len() <= self.max_peers
    }

    /// The number of entries is that of rows.
    proof fn lemma_size(&self)
        requires
            self.inv(),
        ensures
            self@.peers.dom().finite(),
            self@.peers.dom().len() == self.peers.rows().len(),
    {
        self.peers.lemma_size();
        assert(self@.peers.dom() =~= self.peers.view().dom());
    }

    /// A book never holds more peers than it may.
    pub proof fn law_bounded(&self)
        requires
            self.inv(),
        ensures
            self@.peers.dom().finite(),
            self@.peers.dom().len() <= self@.max_peers,
    {
        self.lemma_size();
    }

    /// A book with the default bound.
    pub fn new() -> (book: Self)
        ensures
            book.inv(),
            book@ == (BookModel { peers: Map::empty(), max_peers: DEFAULT_MAX_PEERS, refused: 0 }),
    {
        AddressBook::with_max_peers(DEFAULT_MAX_PEERS)
    }

    /// A book that holds at most `max_peers` destinations.
    pub fn with_max_peers(max_peers: usize) -> (book: Self)
        ensures
            book.inv(),
            book@ == (BookModel { peers: Map::empty(), max_peers, refused: 0 }),
    {
        let book = AddressBook { peers: Table::new(), max_peers, refused: 0 };
        assert(book@.peers =~= Map::<AddressHash, PeerModel>::empty());
        book
    }

    /// Announces refused because the book was full. Nonzero means the shell's expiry policy
    /// is not keeping up with what the mesh is announcing.
    pub fn refused(&self) -> (refused: u64)
        ensures
            refused == self@.refused,
    {
        self.refused
    }

    /// Whether the book is too full to learn a destination it does not already know.
    pub fn is_full(&self) -> (full: bool)
        requires
            self.inv(),
        ensures
            full == self@.is_full(),
    {
        proof {
            self.lemma_size();
        }
        self.peers.len() >= self.max_peers
    }

    /// Record an announce. A later announce for the same destination refreshes the entry
    /// (app data, ratchet) and bumps the count. Because [`Announce::decode`] only hands one
    /// out once its signature has verified, ingesting one cannot poison the book with a
    /// forged identity. A full book still refreshes destinations it already knows, and
    /// refuses only new ones, so a flood of unknown destinations cannot displace established
    /// peers.
    pub fn ingest(&mut self, announce: &Announce) -> (done: Ingested)
        requires
            old(self).inv(),
        ensures
            final(self).inv(),
            done == old(self)@.verdict(announce.destination),
            final(self)@ == old(self)@.after_ingest(announce.destination, announce@),
    {
        let ghost before = self@;
        let destination = announce.destination;
        let mut seen: u64 = 1;
        let mut done = Ingested::Learned;
        match self.peers.get(&destination) {
            Some(known) => {
                seen = known.announces_seen.wrapping_add(1);
                done = Ingested::Refreshed;
            },
            None => {
                if self.is_full() {
                    self.refused = self.refused.saturating_add(1);
                    return Ingested::Refused;
                }
            },
        }
        proof {
            self.lemma_size();
        }
        let peer = Peer {
            identity: announce.identity,
            name_hash: announce.name_hash,
            app_data: bytes::copy_all(announce.app_data.as_slice()),
            ratchet: announce.ratchet,
            announces_seen: seen,
        };
        let ghost table = self.peers.view();
        self.peers.insert(destination, peer);
        proof {
            assert(self.peers.view() == table.insert(destination, peer));
            assert(peer@ == before.peer_after(destination, announce@));
            assert(self@.peers =~= before.after_ingest(destination, announce@).peers);
        }
        done
    }

    /// Resolve a destination hash to what we know about it.
    pub fn resolve(&self, destination: AddressHash) -> (peer: Option<&Peer>)
        requires
            self.inv(),
        ensures
            peer is Some <==> self@.peers.contains_key(destination),
            peer matches Some(p) ==> p@ == self@.peers[destination],
    {
        self.peers.get(&destination)
    }

    /// Whether we can reach a destination, i.e. have heard it announce.
    pub fn knows(&self, destination: AddressHash) -> (known: bool)
        requires
            self.inv(),
        ensures
            known == self@.peers.contains_key(destination),
    {
        self.peers.contains_key(&destination)
    }

    /// Every destination currently known, in the order of their bytes.
    pub fn destinations(&self) -> (known: Vec<AddressHash>)
        requires
            self.inv(),
        ensures
            known@.to_set() == self@.peers.dom(),
            forall|i: int, j: int|
                #![trigger known@[i], known@[j]]
                0 <= i < j < known@.len() ==> known@[i].rank() < known@[j].rank(),
    {
        let mut known: Vec<AddressHash> = Vec::new();
        let mut i: usize = 0;
        while i < self.peers.len()
            invariant
                self.inv(),
                i <= self.peers.rows().len(),
                known@.len() == i,
                forall|j: int| 0 <= j < i ==> #[trigger] known@[j] == self.peers.rows()[j].0,
            decreases self.peers.rows().len() - i,
        {
            known.push(self.peers.key_at(i));
            i += 1;
        }
        proof {
            assert forall|a: int, b: int|
                #![trigger known@[a], known@[b]]
                0 <= a < b < known@.len() implies known@[a].rank() < known@[b].rank() by {
                assert(self.peers.rows()[a].0.rank() < self.peers.rows()[b].0.rank());
            }
            assert forall|k: AddressHash| #[trigger]
                known@.to_set().contains(k) == self@.peers.dom().contains(k) by {
                if known@.to_set().contains(k) {
                    let j = choose|j: int| 0 <= j < known@.len() && known@[j] == k;
                    self.peers.lemma_row(j);
                }
                if self.peers.view().contains_key(k) {
                    self.peers.lemma_entry(k);
                    assert(known@[self.peers.index_of(k)] == k);
                }
            }
            assert(known@.to_set() =~= self@.peers.dom());
        }
        known
    }

    /// Number of destinations known.
    pub fn len(&self) -> (n: usize)
        requires
            self.inv(),
        ensures
            n == self@.peers.dom().len(),
    {
        proof {
            self.lemma_size();
        }
        self.peers.len()
    }

    /// Whether no destination is known.
    pub fn is_empty(&self) -> (empty: bool)
        requires
            self.inv(),
        ensures
            empty == (self@.peers.dom().len() == 0),
    {
        self.len() == 0
    }

    /// Forget a destination, e.g. after it has been unreachable past a policy the shell
    /// enforces.
    pub fn forget(&mut self, destination: AddressHash) -> (gone: Option<Peer>)
        requires
            old(self).inv(),
        ensures
            final(self).inv(),
            final(self)@ == (BookModel {
                peers: old(self)@.peers.remove(destination),
                ..old(self)@
            }),
            gone is Some <==> old(self)@.peers.contains_key(destination),
            gone matches Some(p) ==> p@ == old(self)@.peers[destination],
    {
        let ghost before = self@;
        let gone = self.peers.remove(&destination);
        assert(self@.peers =~= before.peers.remove(destination));
        gone
    }
}

/// A flood of announces cannot displace an established peer: whatever is ingested for other
/// destinations, what is known of a destination stays as it is.
pub proof fn law_established_peers_survive(
    book: BookModel,
    known: AddressHash,
    other: AddressHash,
    announce: AnnounceModel,
)
    requires
        book.peers.contains_key(known),
        known != other,
    ensures
        book.after_ingest(other, announce).peers.contains_key(known),
        book.after_ingest(other, announce).peers[known] == book.peers[known],
{
}

/// The latest announce of a known destination wins, however full the book is.
pub proof fn law_latest_announce_wins(
    book: BookModel,
    known: AddressHash,
    announce: AnnounceModel,
)
    requires
        book.peers.contains_key(known),
    ensures
        book.verdict(known) == Ingested::Refreshed,
        book.after_ingest(known, announce).peers.dom() == book.peers.dom(),
        book.after_ingest(known, announce).peers[known] == (PeerModel {
            identity: announce.identity,
            name_hash: announce.name_hash,
            app_data: announce.app_data,
            ratchet: announce.ratchet,
            announces_seen: book.peers[known].announces_seen.wrapping_add(1),
        }),
{
    assert(book.after_ingest(known, announce).peers.dom() =~= book.peers.dom());
}

/// An announce of a destination that is new to the book is learned where there is room: the
/// entry says what the announce says, and counts one. Nothing else changes.
pub proof fn law_new_peer_is_learned_while_there_is_room(
    book: BookModel,
    destination: AddressHash,
    announce: AnnounceModel,
)
    requires
        !book.peers.contains_key(destination),
    ensures
        ({
            let after = book.after_ingest(destination, announce);
            let room = book.peers.dom().len() < book.max_peers;
            &&& room ==> {
                &&& book.verdict(destination) == Ingested::Learned
                &&& after.peers == book.peers.insert(
                    destination,
                    PeerModel {
                        identity: announce.identity,
                        name_hash: announce.name_hash,
                        app_data: announce.app_data,
                        ratchet: announce.ratchet,
                        announces_seen: 1,
                    },
                )
                &&& after.refused == book.refused
            }
            &&& !room ==> {
                &&& book.verdict(destination) == Ingested::Refused
                &&& after.peers == book.peers
                &&& book.refused < u64::MAX ==> after.refused == book.refused + 1
            }
            &&& after.max_peers == book.max_peers
        }),
{
}

} // verus!
