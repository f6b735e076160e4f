//! One interface's outbound path: bounded per-class queues drained by deficit round robin.
//!
//! The quantum is in bytes, so the shares are of *airtime* rather than packet count: on a
//! LoRa link a 500-byte packet costs far more than a 20-byte one, and counting packets would
//! let a class of large frames quietly take more than its share.

use std::collections::VecDeque;
use vstd::prelude::*;

use crate::endpoint::policy::{
    InterfaceId, QueueDepths, QueueWeights, TrafficClass, CLASS_COUNT,
};
use crate::packet::{Packet, PacketModel};

verus! {

/// What one unit of weight is worth, in bytes.
pub const QUANTUM_UNIT: u64 = 128;

/// How many visits one call may make before it falls back to strict order.
pub const MAX_VISITS: usize = 32;

/// Where the round robin stands: what each class has banked, whose turn it is, and whether
/// that class was credited for this turn.
pub struct Turn {
    pub deficit: Seq<u64>,
    pub cursor: int,
    pub credited: bool,
}

/// The state of one interface's outbound path.
pub struct QueueModel {
    pub queues: Seq<Seq<PacketModel>>,
    pub turn: Turn,
    pub dropped: Seq<u64>,
    pub sent: Seq<u64>,
    pub in_flight: usize,
    pub closed: bool,
    pub weights: QueueWeights,
    pub depths: QueueDepths,
}

/// What a class is credited per turn. No weight is below one.
pub open spec fn quantum(weights: QueueWeights, class: int) -> int {
    let weight = weights.weight(TrafficClass::numbered(class));
    (if weight == 0 {
        1
    } else {
        weight as int
    }) * QUANTUM_UNIT
}

/// What sending a packet costs.
pub open spec fn cost(packet: PacketModel) -> int {
    packet.counted_len() as int
}

/// A bank balance with a credit, as far as 64 bits hold it.
pub open spec fn banked(balance: u64, credit: int) -> u64 {
    if balance + credit <= u64::MAX {
        (balance + credit) as u64
    } else {
        u64::MAX
    }
}

impl Turn {
    /// The next class's turn, with a given balance for this one.
    pub open spec fn passed(self, balance: u64) -> Turn {
        Turn {
            deficit: self.deficit.update(self.cursor, balance),
            cursor: (self.cursor + 1) % 4,
            credited: false,
        }
    }

    /// What the class whose turn it is may spend.
    pub open spec fn budget(self, weights: QueueWeights) -> u64 {
        if self.credited {
            self.deficit[self.cursor]
        } else {
            banked(self.deficit[self.cursor], quantum(weights, self.cursor))
        }
    }

    /// Whether the class whose turn it is can send its first packet.
    pub open spec fn serves(self, queues: Seq<Seq<PacketModel>>, weights: QueueWeights) -> bool {
        queues[self.cursor].len() > 0 && self.budget(weights) >= cost(queues[self.cursor][0])
    }

    /// The turn after a visit that did not send: an empty class forfeits what it banked, so
    /// it cannot bank capacity while idle and burst later.
    pub open spec fn after_skip(self, queues: Seq<Seq<PacketModel>>, weights: QueueWeights) -> Turn {
        if queues[self.cursor].len() == 0 {
            self.passed(0)
        } else {
            self.passed(self.budget(weights))
        }
    }

    /// The turn after a visit that sent: the class keeps its turn until it is empty.
    pub open spec fn after_send(self, queues: Seq<Seq<PacketModel>>, weights: QueueWeights) -> Turn {
        if queues[self.cursor].len() == 1 {
            self.passed(0)
        } else {
            Turn {
                deficit: self.deficit.update(
                    self.cursor,
                    (self.budget(weights) - cost(queues[self.cursor][0])) as u64,
                ),
                cursor: self.cursor,
                credited: true,
            }
        }
    }

    /// The turn after at most `visits` visits that did not send: up to the first that can.
    pub open spec fn seek(
        self,
        queues: Seq<Seq<PacketModel>>,
        weights: QueueWeights,
        visits: nat,
    ) -> Turn
        decreases visits,
    {
        if visits == 0 || self.serves(queues, weights) {
            self
        } else {
            self.after_skip(queues, weights).seek(queues, weights, (visits - 1) as nat)
        }
    }
}

impl Turn {
    /// Whether one of the next `visits` visits can send.
    pub open spec fn finds(
        self,
        queues: Seq<Seq<PacketModel>>,
        weights: QueueWeights,
        visits: nat,
    ) -> bool
        decreases visits,
    {
        visits > 0 && (self.serves(queues, weights) || self.after_skip(queues, weights).finds(
            queues,
            weights,
            (visits - 1) as nat,
        ))
    }
}

/// The first class with something to send.
pub open spec fn first_waiting(queues: Seq<Seq<PacketModel>>) -> int {
    if queues[0].len() > 0 {
        0
    } else if queues[1].len() > 0 {
        1
    } else if queues[2].len() > 0 {
        2
    } else {
        3
    }
}

impl QueueModel {
    /// Whether the state has its shape: four classes, and a turn that is one of theirs.
    pub open spec fn wf(self) -> bool {
        &&& self.queues.len() == 4
        &&& self.turn.deficit.len() == 4
        &&& 0 <= self.turn.cursor < 4
        &&& self.dropped.len() == 4
        &&& self.sent.len() == 4
    }

    /// Whether nothing is queued.
    pub open spec fn all_empty(self) -> bool {
        forall|i: int| 0 <= i < 4 ==> (#[trigger] self.queues[i]).len() == 0
    }

    /// An empty path.
    pub open spec fn fresh(weights: QueueWeights, depths: QueueDepths) -> QueueModel {
        QueueModel {
            queues: Seq::new(4, |i: int| Seq::empty()),
            turn: Turn { deficit: Seq::new(4, |i: int| 0u64), cursor: 0, credited: false },
            dropped: Seq::new(4, |i: int| 0u64),
            sent: Seq::new(4, |i: int| 0u64),
            in_flight: 0,
            closed: false,
            weights,
            depths,
        }
    }

    /// Whether a packet of a class is taken.
    pub open spec fn takes(self, class: TrafficClass) -> bool {
        !self.closed && self.queues[class.number()].len() < self.depths.depth(class)
    }

    /// The path after a packet was offered: behind its class, or dropped and counted.
    pub open spec fn after_push(self, packet: PacketModel, class: TrafficClass) -> QueueModel {
        let i = class.number();
        if self.closed {
            self
        } else if self.takes(class) {
            QueueModel { queues: self.queues.update(i, self.queues[i].push(packet)), ..self }
        } else {
            QueueModel {
                dropped: self.dropped.update(i, self.dropped[i].wrapping_add(1)),
                ..self
            }
        }
    }

    /// Where the schedule stands when it next sends.
    pub open spec fn due(self) -> Turn {
        self.turn.seek(self.queues, self.weights, MAX_VISITS as nat)
    }

    /// Whether a class can afford its packet in time.
    pub open spec fn on_schedule(self) -> bool {
        self.turn.finds(self.queues, self.weights, MAX_VISITS as nat)
    }

    /// The class that sends next: the one whose turn it is, or the first that has something
    /// where no class could afford its packet in time.
    pub open spec fn next_class(self) -> int {
        if self.on_schedule() {
            self.due().cursor
        } else {
            first_waiting(self.queues)
        }
    }

    /// The path after a packet left.
    pub open spec fn after_pop(self) -> QueueModel {
        let i = self.next_class();
        QueueModel {
            queues: self.queues.update(i, self.queues[i].subrange(1, self.queues[i].len() as int)),
            turn: if self.on_schedule() {
                self.due().after_send(self.queues, self.weights)
            } else {
                self.due()
            },
            sent: self.sent.update(i, self.sent[i].wrapping_add(1)),
            in_flight: if self.in_flight < usize::MAX {
                (self.in_flight + 1) as usize
            } else {
                self.in_flight
            },
            ..self
        }
    }

    /// How many packets are queued or in flight, as far as a machine word holds it.
    pub open spec fn backlog(self) -> nat {
        self.in_flight as nat + self.queues[0].len() + self.queues[1].len() + self.queues[2].len()
            + self.queues[3].len()
    }
}

/// One interface's outbound scheduler: bounded per-class queues.
pub struct OutboundQueues {
    queues: Vec<VecDeque<Packet>>,
    deficit: [u64; 4],
    dropped: [u64; 4],
    sent: [u64; 4],
    cursor: usize,
    /// Whether the class at `cursor` has already been credited its quantum for this visit.
    /// Without this the cursor is re-credited on every `pop`, and a class with a standing
    /// backlog never has to yield, which starves everything below it.
    credited: bool,
    /// Packets handed to the interface pump whose delivery has not completed yet.
    in_flight: usize,
    closed: bool,
    weights: QueueWeights,
    depths: QueueDepths,
}

/// The packets of a queue.
pub open spec fn packet_models(packets: Seq<Packet>) -> Seq<PacketModel> {
    Seq::new(packets.len(), |i: int| packets[i]@)
}

impl View for OutboundQueues {
    type V = QueueModel;

    closed spec fn view(&self) -> QueueModel {
        QueueModel {
            queues: Seq::new(self.queues@.len(), |i: int| packet_models(self.queues@[i]@)),
            turn: Turn {
                deficit: self.deficit@,
                cursor: self.cursor as int,
                credited: self.credited,
            },
            dropped: self.dropped@,
            sent: self.sent@,
            in_flight: self.in_flight,
            closed: self.closed,
            weights: self.weights,
            depths: self.depths,
        }
    }
}

impl OutboundQueues {
    /// An empty path with a policy.
    pub fn new(weights: QueueWeights, depths: QueueDepths) -> (path: Self)
        ensures
            path@ == QueueModel::fresh(weights, depths),
            path@.wf(),
    {
        let mut queues: Vec<VecDeque<Packet>> = Vec::new();
        queues.push(VecDeque::new());
        queues.push(VecDeque::new());
        queues.push(VecDeque::new());
        queues.push(VecDeque::new());
        let path = OutboundQueues {
            queues,
            deficit: [0u64; 4],
            dropped: [0u64; 4],
            sent: [0u64; 4],
            cursor: 0,
            credited: false,
            in_flight: 0,
            closed: false,
            weights,
            depths,
        };
        proof {
            let fresh = QueueModel::fresh(weights, depths);
            assert(path@.queues =~= fresh.queues) by {
                assert forall|i: int| 0 <= i < 4 implies path@.queues[i] == fresh.queues[i] by {
                    assert(path@.queues[i] =~= Seq::<PacketModel>::empty());
                }
            }
            assert(path@.turn.deficit =~= fresh.turn.deficit);
            assert(path@.dropped =~= fresh.dropped);
            assert(path@.sent =~= fresh.sent);
        }
        path
    }

    /// Queue a packet in its class. Returns `false` if that class is full and the packet was
    /// dropped, which is reported rather than hidden, or if the path is closed.
    pub fn push(&mut self, packet: Packet, class: TrafficClass) -> (queued: bool)
        requires
            old(self)@.wf(),
        ensures
            final(self)@.wf(),
            queued == old(self)@.takes(class),
            final(self)@ == old(self)@.after_push(packet@, class),
    {
        let ghost before = self@;
        let depth: usize = self.depths.for_class(class);
        if self.closed {
            return false;
        }
        let i: usize = class.index();
        assert(before.queues[i as int].len() == self.queues@[i as int]@.len());
        if self.queues[i].len() >= depth {
            self.dropped[i] = self.dropped[i].wrapping_add(1);
            assert(self@.dropped =~= before.after_push(packet@, class).dropped);
            assert(self@.queues =~= before.queues);
            return false;
        }
        let ghost was = self.queues@[i as int]@;
        self.queues[i].push_back(packet);
        proof {
            assert(self.queues@[i as int]@ =~= was.push(packet));
            assert(packet_models(was.push(packet)) =~= packet_models(was).push(packet@));
            assert(self@.queues =~= before.after_push(packet@, class).queues) by {
                assert forall|j: int| 0 <= j < 4 && j != i implies self@.queues[j]
                    == before.queues[j] by {}
            }
        }
        true
    }

    /// Whether every class is empty.
    fn nothing_queued(&self) -> (empty: bool)
        requires
            self@.wf(),
        ensures
            empty == self@.all_empty(),
    {
        let mut i: usize = 0;
        while i < 4
            invariant
                i <= 4,
                self@.wf(),
                forall|j: int| 0 <= j < i ==> (#[trigger] self@.queues[j]).len() == 0,
            decreases 4 - i,
        {
            assert(self@.queues[i as int].len() == self.queues@[i as int]@.len());
            if self.queues[i].len() > 0 {
                return false;
            }
            i += 1;
        }
        true
    }

    /// Whether every class is empty and the interface pump has completed the packet it
    /// most recently took.
    pub fn is_drained(&self) -> (drained: bool)
        requires
            self@.wf(),
        ensures
            drained == (self@.in_flight == 0 && self@.all_empty()),
    {
        self.in_flight == 0 && self.nothing_queued()
    }

    /// Take the first packet of a class.
    fn take(&mut self, i: usize) -> (packet: Packet)
        requires
            old(self)@.wf(),
            i < 4,
            old(self)@.queues[i as int].len() > 0,
        ensures
            final(self)@.wf(),
            packet@ == old(self)@.queues[i as int][0],
            final(self)@ == (QueueModel {
                queues: old(self)@.queues.update(
                    i as int,
                    old(self)@.queues[i as int].subrange(
                        1,
                        old(self)@.queues[i as int].len() as int,
                    ),
                ),
                sent: old(self)@.sent.update(
                    i as int,
                    old(self)@.sent[i as int].wrapping_add(1),
                ),
                in_flight: if old(self)@.in_flight < usize::MAX {
                    (old(self)@.in_flight + 1) as usize
                } else {
                    old(self)@.in_flight
                },
                ..old(self)@
            }),
    {
        let ghost before = self@;
        let ghost was = self.queues@[i as int]@;
        assert(before.queues[i as int] == packet_models(was));
        let taken = self.queues[i].pop_front();
        proof {
            assert(self.queues@[i as int]@ =~= was.subrange(1, was.len() as int));
            assert(packet_models(was.subrange(1, was.len() as int)) =~= packet_models(
                was,
            ).subrange(1, was.len() as int));
            assert(self@.queues =~= before.queues.update(
                i as int,
                before.queues[i as int].subrange(1, before.queues[i as int].len() as int),
            )) by {
                assert forall|j: int| 0 <= j < 4 && j != i implies self@.queues[j]
                    == before.queues[j] by {}
            }
        }
        let ghost queues = self@.queues;
        self.sent[i] = self.sent[i].wrapping_add(1);
        self.in_flight = self.in_flight.saturating_add(1);
        proof {
            assert(self@.queues =~= queues);
            assert(self@.sent =~= before.sent.update(
                i as int,
                before.sent[i as int].wrapping_add(1),
            ));
        }
        taken.unwrap()
    }

    /// Take the next packet the schedule allows, or `None` if every queue is empty.
    ///
    /// A class is credited its quantum once per *visit*, not once per call: it then spends
    /// that credit over consecutive calls until its head packet costs more than it has
    /// banked, at which point the cursor moves on.
    pub fn pop(&mut self) -> (packet: Option<Packet>)
        requires
            old(self)@.wf(),
        ensures
            final(self)@.wf(),
            match packet {
                Some(p) => !old(self)@.all_empty() && p@ == old(self)@.queues[old(
                    self,
                )@.next_class()][0] && final(self)@ == old(self)@.after_pop(),
                None => old(self)@.all_empty() && final(self)@ == old(self)@,
            },
    {
        if self.nothing_queued() {
            return None;
        }
        let ghost start = self@;
        let mut visits: usize = 0;
        while visits < MAX_VISITS
            invariant
                visits <= MAX_VISITS,
                self@.wf(),
                start == old(self)@,
                start.wf(),
                self@ == (QueueModel { turn: self@.turn, ..start }),
                self@.turn.seek(start.queues, start.weights, (MAX_VISITS - visits) as nat)
                    == start.due(),
                self@.turn.finds(start.queues, start.weights, (MAX_VISITS - visits) as nat)
                    == start.on_schedule(),
                !start.all_empty(),
            decreases MAX_VISITS - visits,
        {
            let i: usize = self.cursor;
            let ghost here = self@;
            assert(here.queues[i as int].len() == self.queues@[i as int]@.len());
            if self.queues[i].len() == 0 {
                self.deficit[i] = 0;
                self.credited = false;
                self.cursor = (i + 1) % CLASS_COUNT;
                assert(self@.turn.deficit =~= here.turn.after_skip(
                    start.queues,
                    start.weights,
                ).deficit);
                assert(self@.queues =~= start.queues);
            } else {
                let class = TrafficClass::of_index(i);
                let weight: u32 = self.weights.for_class(class);
                let credit: u64 = (if weight == 0 {
                    1
                } else {
                    weight as u64
                }) * QUANTUM_UNIT;
                assert(credit == quantum(start.weights, i as int));
                let budget: u64 = if self.credited {
                    self.deficit[i]
                } else {
                    self.deficit[i].saturating_add(credit)
                };
                assert(budget == here.turn.budget(start.weights));
                let price: u64 = self.queues[i][0].encoded_len() as u64;
                assert(start.queues[i as int][0] == self.queues@[i as int]@[0]@);
                assert(price == cost(start.queues[i as int][0]));
                if budget >= price {
                    assert(here.turn.serves(start.queues, start.weights));
                    assert(here.turn == start.due());
                    let alone: bool = self.queues[i].len() == 1;
                    let packet = self.take(i);
                    if alone {
                        self.deficit[i] = 0;
                        self.credited = false;
                        self.cursor = (i + 1) % CLASS_COUNT;
                    } else {
                        self.deficit[i] = budget - price;
                        self.credited = true;
                    }
                    proof {
                        let after = start.after_pop();
                        assert(self@.turn.deficit =~= after.turn.deficit);
                        assert(self@.queues =~= after.queues);
                    }
                    return Some(packet);
                }
                self.deficit[i] = budget;
                self.credited = false;
                self.cursor = (i + 1) % CLASS_COUNT;
                assert(self@.turn.deficit =~= here.turn.after_skip(
                    start.queues,
                    start.weights,
                ).deficit);
                assert(self@.queues =~= start.queues);
            }
            assert(self@.turn == here.turn.after_skip(start.queues, start.weights));
            visits += 1;
        }
        // A scheduler that returned nothing with packets still queued would park the drain
        // forever, so fall back to strict order rather than risk a stall.
        assert(self@.turn == start.due());
        assert(!start.on_schedule());
        let mut i: usize = 0;
        while i < 4
            invariant
                i <= 4,
                self@.wf(),
                start == old(self)@,
                forall|j: int| 0 <= j < i ==> (#[trigger] self@.queues[j]).len() == 0,
                self@.all_empty() == start.all_empty(),
                !start.all_empty(),
                !start.on_schedule(),
                self@ == (QueueModel { turn: start.due(), ..start }),
            decreases 4 - i,
        {
            assert(self@.queues[i as int].len() == self.queues@[i as int]@.len());
            if self.queues[i].len() > 0 {
                assert(i == first_waiting(start.queues));
                return Some(self.take(i));
            }
            i += 1;
        }
        None
    }
}

impl OutboundQueues {
    /// Note that the interface pump is done with a packet it took.
    pub fn delivery_complete(&mut self)
        requires
            old(self)@.wf(),
        ensures
            final(self)@.wf(),
            final(self)@ == (QueueModel {
                in_flight: if old(self)@.in_flight > 0 {
                    (old(self)@.in_flight - 1) as usize
                } else {
                    0
                },
                ..old(self)@
            }),
    {
        let ghost before = self@;
        self.in_flight = self.in_flight.saturating_sub(1);
        assert(self@.queues =~= before.queues);
    }

    /// Change the shares and the depths. What is queued stays.
    pub fn set_policy(&mut self, weights: QueueWeights, depths: QueueDepths)
        requires
            old(self)@.wf(),
        ensures
            final(self)@.wf(),
            final(self)@ == (QueueModel { weights, depths, ..old(self)@ }),
    {
        let ghost before = self@;
        self.weights = weights;
        self.depths = depths;
        assert(self@.queues =~= before.queues);
    }

    /// Take no further packets.
    pub fn close(&mut self)
        requires
            old(self)@.wf(),
        ensures
            final(self)@.wf(),
            final(self)@ == (QueueModel { closed: true, ..old(self)@ }),
    {
        let ghost before = self@;
        self.closed = true;
        assert(self@.queues =~= before.queues);
    }

    /// Whether no further packets are taken.
    pub fn is_closed(&self) -> (closed: bool)
        ensures
            closed == self@.closed,
    {
        self.closed
    }

    /// How many packets were released and dropped, by class.
    pub fn counters(&self) -> (tally: ([u64; 4], [u64; 4]))
        ensures
            tally.0@ == self@.sent,
            tally.1@ == self@.dropped,
    {
        (self.sent, self.dropped)
    }

    /// How many packets are queued or in flight.
    pub fn depth(&self) -> (n: usize)
        requires
            self@.wf(),
        ensures
            n as nat == (if self@.backlog() <= usize::MAX {
                self@.backlog()
            } else {
                usize::MAX as nat
            }),
    {
        assert(self@.queues[0].len() == self.queues@[0]@.len());
        assert(self@.queues[1].len() == self.queues@[1]@.len());
        assert(self@.queues[2].len() == self.queues@[2]@.len());
        assert(self@.queues[3].len() == self.queues@[3]@.len());
        self.in_flight.saturating_add(self.queues[0].len()).saturating_add(
            self.queues[1].len(),
        ).saturating_add(self.queues[2].len()).saturating_add(self.queues[3].len())
    }
}

/// How many of the next `visits` visits go to a class that is `distance` turns away.
spec fn visits_to(visits: nat, distance: int) -> int {
    if visits <= distance {
        0
    } else {
        1 + (visits - distance - 1) / 4
    }
}

/// How many turns a class is away.
spec fn turns_away(cursor: int, class: int) -> int {
    if class >= cursor {
        class - cursor
    } else {
        class + 4 - cursor
    }
}

/// A class that waits banks at least a unit per visit, except perhaps at the first.
proof fn lemma_waiting_class_banks(
    turn: Turn,
    queues: Seq<Seq<PacketModel>>,
    weights: QueueWeights,
    visits: nat,
    class: int,
)
    requires
        queues.len() == 4,
        turn.deficit.len() == 4,
        0 <= turn.cursor < 4,
        0 <= class < 4,
        queues[class].len() > 0,
        cost(queues[class][0]) <= 7 * QUANTUM_UNIT,
        !turn.finds(queues, weights, visits),
    ensures
        ({
            let distance = turns_away(turn.cursor, class);
            let seen = visits_to(visits, distance);
            let credits = seen - (if turn.credited && distance == 0 && seen > 0 {
                1int
            } else {
                0
            });
            let end = turn.seek(queues, weights, visits);
            &&& end.deficit.len() == 4
            &&& end.deficit[class] >= turn.deficit[class] + 128 * credits
            &&& seen > 0 ==> end.deficit[class] < cost(queues[class][0])
            &&& seen == 0 ==> end.deficit[class] == turn.deficit[class]
        }),
    decreases visits,
{
    if visits > 0 {
        let next = turn.after_skip(queues, weights);
        assert(!turn.serves(queues, weights));
        assert(0 <= next.cursor < 4);
        lemma_waiting_class_banks(next, queues, weights, (visits - 1) as nat, class);
        let distance = turns_away(turn.cursor, class);
        if distance == 0 {
            assert(turns_away(next.cursor, class) == 3);
            assert(visits_to((visits - 1) as nat, 3) == visits_to(visits, 0) - 1);
            assert(quantum(weights, class) >= 128) by (nonlinear_arith)
                requires
                    quantum(weights, class) == (if weights.weight(TrafficClass::numbered(class))
                        == 0 {
                        1
                    } else {
                        weights.weight(TrafficClass::numbered(class)) as int
                    }) * 128,
            ;
            assert(next.deficit[class] == turn.budget(weights));
            assert(turn.budget(weights) < cost(queues[class][0]));
        } else {
            assert(turns_away(next.cursor, class) == distance - 1);
            assert(visits_to((visits - 1) as nat, distance - 1) == visits_to(visits, distance));
            assert(next.deficit[class] == turn.deficit[class]);
        }
    }
}

/// The schedule never stalls: while something is queued whose packet fits seven units, which
/// every packet within the MTU does, a class can afford its packet in time and the strict
/// order is not needed.
pub proof fn law_schedule_makes_progress(path: QueueModel, class: int)
    requires
        path.wf(),
        0 <= class < 4,
        path.queues[class].len() > 0,
        path.queues[class][0].wire_len() <= crate::packet::MTU,
    ensures
        path.on_schedule(),
{
    if !path.on_schedule() {
        lemma_waiting_class_banks(
            path.turn,
            path.queues,
            path.weights,
            MAX_VISITS as nat,
            class,
        );
        let distance = turns_away(path.turn.cursor, class);
        assert(visits_to(32, distance) == 8);
        assert(false);
    }
}

/// A turn that can send within some visits is at a class that can when they are over.
proof fn lemma_found_turn_serves(
    turn: Turn,
    queues: Seq<Seq<PacketModel>>,
    weights: QueueWeights,
    visits: nat,
)
    requires
        queues.len() == 4,
        turn.deficit.len() == 4,
        0 <= turn.cursor < 4,
        turn.finds(queues, weights, visits),
    ensures
        turn.seek(queues, weights, visits).serves(queues, weights),
        0 <= turn.seek(queues, weights, visits).cursor < 4,
    decreases visits,
{
    if !turn.serves(queues, weights) {
        lemma_found_turn_serves(
            turn.after_skip(queues, weights),
            queues,
            weights,
            (visits - 1) as nat,
        );
    }
}

/// What leaves was first in its class, and nothing else moves: the class that sends has
/// something to send, loses its first packet and no other, and the other classes keep theirs.
pub proof fn law_pop_is_first_in_first_out(path: QueueModel)
    requires
        path.wf(),
        !path.all_empty(),
    ensures
        0 <= path.next_class() < 4,
        path.queues[path.next_class()].len() > 0,
        path.queues[path.next_class()] == seq![path.queues[path.next_class()][0]]
            + path.after_pop().queues[path.next_class()],
        forall|i: int|
            0 <= i < 4 && i != path.next_class() ==> #[trigger] path.after_pop().queues[i]
                == path.queues[i],
{
    if path.on_schedule() {
        lemma_found_turn_serves(path.turn, path.queues, path.weights, MAX_VISITS as nat);
    }
    let q = path.queues[path.next_class()];
    assert(q =~= seq![q[0]] + q.subrange(1, q.len() as int));
}

/// A class holds at most its depth: a packet offered to a full class is dropped, counted
/// against that class, and changes no queue.
pub proof fn law_full_class_drops(path: QueueModel, packet: PacketModel, class: TrafficClass)
    requires
        path.wf(),
        !path.closed,
        path.queues[class.number()].len() >= path.depths.depth(class),
    ensures
        !path.takes(class),
        path.after_push(packet, class).queues == path.queues,
        path.after_push(packet, class).dropped[class.number()]
            == path.dropped[class.number()].wrapping_add(1),
{
}

/// What became of a packet offered to an interface.
#[derive(Clone, Copy, Debug, PartialEq, Eq, Structural)]
pub enum QueueAdmission {
    /// It is queued.
    Queued,
    /// Its class is full, or the interface is closed.
    Full,
    /// It is longer than the interface carries.
    FrameLimit { actual: usize, limit: usize },
}

/// An attached interface: the scheduler its writer drains.
pub struct Iface {
    pub id: InterfaceId,
    pub outbound: OutboundQueues,
    pub frame_limit: usize,
    pub wire_overhead: usize,
}

/// The state of an attached interface.
pub struct IfaceModel {
    pub id: InterfaceId,
    pub outbound: QueueModel,
    pub frame_limit: usize,
    pub wire_overhead: usize,
}

impl View for Iface {
    type V = IfaceModel;

    open spec fn view(&self) -> IfaceModel {
        IfaceModel {
            id: self.id,
            outbound: self.outbound@,
            frame_limit: self.frame_limit,
            wire_overhead: self.wire_overhead,
        }
    }
}

impl IfaceModel {
    /// How long a packet is on this interface, as far as a machine word holds it.
    pub open spec fn frame_len(self, packet: PacketModel) -> usize {
        if packet.counted_len() + self.wire_overhead <= usize::MAX {
            (packet.counted_len() + self.wire_overhead) as usize
        } else {
            usize::MAX
        }
    }

    /// What becomes of a packet offered here.
    pub open spec fn admission(self, packet: PacketModel, class: TrafficClass) -> QueueAdmission {
        if self.frame_len(packet) > self.frame_limit {
            QueueAdmission::FrameLimit { actual: self.frame_len(packet), limit: self.frame_limit }
        } else if self.outbound.takes(class) {
            QueueAdmission::Queued
        } else {
            QueueAdmission::Full
        }
    }

    /// The interface after a packet was offered.
    pub open spec fn after_push(self, packet: PacketModel, class: TrafficClass) -> IfaceModel {
        if self.frame_len(packet) > self.frame_limit {
            self
        } else {
            IfaceModel { outbound: self.outbound.after_push(packet, class), ..self }
        }
    }
}

impl Iface {
    /// Offer a packet. What the interface cannot carry is refused before it takes room.
    pub fn push(&mut self, packet: Packet, class: TrafficClass) -> (admission: QueueAdmission)
        requires
            old(self)@.outbound.wf(),
        ensures
            final(self)@.outbound.wf(),
            admission == old(self)@.admission(packet@, class),
            final(self)@ == old(self)@.after_push(packet@, class),
    {
        let actual: usize = packet.encoded_len().saturating_add(self.wire_overhead);
        let limit: usize = self.frame_limit;
        if actual > limit {
            return QueueAdmission::FrameLimit { actual, limit };
        }
        if self.outbound.push(packet, class) {
            QueueAdmission::Queued
        } else {
            QueueAdmission::Full
        }
    }
}

/// What became of one packet offered to one or more interfaces.
#[derive(Clone, Copy, Debug, PartialEq, Eq)]
pub struct SingleQueueResult {
    /// How many took it.
    pub queued: usize,
    /// Whether one could have carried it.
    pub frame_capable: bool,
    /// The refusal with the highest limit, as length and limit.
    pub frame_limit_rejection: Option<(usize, usize)>,
}

impl SingleQueueResult {
    /// Nothing offered yet.
    pub open spec fn nothing() -> SingleQueueResult {
        SingleQueueResult { queued: 0, frame_capable: false, frame_limit_rejection: None }
    }

    /// With one more outcome.
    pub open spec fn with(self, admission: QueueAdmission) -> SingleQueueResult {
        match admission {
            QueueAdmission::Queued => SingleQueueResult {
                queued: if self.queued < usize::MAX {
                    (self.queued + 1) as usize
                } else {
                    self.queued
                },
                frame_capable: true,
                ..self
            },
            QueueAdmission::Full => SingleQueueResult { frame_capable: true, ..self },
            QueueAdmission::FrameLimit { actual, limit } => match self.frame_limit_rejection {
                Some((_, recorded)) => if limit > recorded {
                    SingleQueueResult { frame_limit_rejection: Some((actual, limit)), ..self }
                } else {
                    self
                },
                None => SingleQueueResult { frame_limit_rejection: Some((actual, limit)), ..self },
            },
        }
    }

    /// Take one more outcome into account.
    pub fn observe(&mut self, admission: QueueAdmission)
        ensures
            *final(self) == old(self).with(admission),
    {
        match admission {
            QueueAdmission::Queued => {
                self.queued = self.queued.saturating_add(1);
                self.frame_capable = true;
            },
            QueueAdmission::Full => {
                self.frame_capable = true;
            },
            QueueAdmission::FrameLimit { actual, limit } => {
                let higher: bool = match self.frame_limit_rejection {
                    Some((_, recorded)) => limit > recorded,
                    None => true,
                };
                if higher {
                    self.frame_limit_rejection = Some((actual, limit));
                }
            },
        }
    }
}

impl Default for SingleQueueResult {
    fn default() -> (result: Self)
        ensures
            result == SingleQueueResult::nothing(),
    {
        SingleQueueResult { queued: 0, frame_capable: false, frame_limit_rejection: None }
    }
}

} // verus!
