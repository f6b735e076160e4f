//! A reliable link stream: the channel, and the driver that moves application bytes through it.
//!
//! The link layer seals envelopes and checks proofs; the shell moves bytes and keeps time. What
//! happens to them in between is decided here, one event at a time.

use vstd::prelude::*;

use crate::channel::{
    carried, envelopes, law_arrival_keeps_what_is_ready, law_reading_all_leaves_nothing,
    law_write_queues_what_it_accepts, lemma_emptied, tuned, Buffer, BufferModel, Envelope,
    DEFAULT_CHUNK, STREAM_MSGTYPE,
};
use crate::endpoint::sessions::{DriverModel, ReliableDriver};

verus! {

/// What can happen to a reliable stream.
pub enum StreamEvent {
    /// A proof stands for a sequence.
    Proved { sequence: u16 },
    /// An envelope arrived.
    Arrived { envelope: Envelope },
    /// The application wrote.
    Wrote { chunk: Vec<u8> },
    /// The application closed its side.
    Closed,
    /// The clock ticked.
    Ticked,
}

/// A [`StreamEvent`] with its bytes as sequences.
pub enum EventModel {
    Proved { sequence: u16 },
    Arrived { sequence: u16, payload: Seq<u8> },
    Wrote { chunk: Seq<u8> },
    Closed,
    Ticked,
}

impl View for StreamEvent {
    type V = EventModel;

    open spec fn view(&self) -> EventModel {
        match *self {
            StreamEvent::Proved { sequence } => EventModel::Proved { sequence },
            StreamEvent::Arrived { envelope } => EventModel::Arrived {
                sequence: envelope.sequence,
                payload: envelope.payload@,
            },
            StreamEvent::Wrote { chunk } => EventModel::Wrote { chunk: chunk@ },
            StreamEvent::Closed => EventModel::Closed,
            StreamEvent::Ticked => EventModel::Ticked,
        }
    }
}

/// What an event asks of the shell at once.
pub struct EventOutcome {
    /// Prove the packet that arrived.
    pub prove: bool,
    /// Hand these bytes to the application.
    pub deliver: Vec<u8>,
    /// Tell the application that the peer's stream ended.
    pub peer_ended: bool,
    /// Identify this side again.
    pub identify: bool,
}

/// An [`EventOutcome`] with its bytes as a sequence.
pub struct OutcomeModel {
    pub prove: bool,
    pub deliver: Seq<u8>,
    pub peer_ended: bool,
    pub identify: bool,
}

impl View for EventOutcome {
    type V = OutcomeModel;

    open spec fn view(&self) -> OutcomeModel {
        OutcomeModel {
            prove: self.prove,
            deliver: self.deliver@,
            peer_ended: self.peer_ended,
            identify: self.identify,
        }
    }
}

/// What goes out after an event.
pub struct Turn {
    /// The envelopes to put on the wire.
    pub transmit: Vec<Envelope>,
    /// Whether both sides are done and the link is to be closed.
    pub done: bool,
}

/// The sizes a stream was made with.
pub struct StreamSizes {
    pub window: nat,
    pub queue: nat,
    pub reorder: nat,
    pub read_bytes: nat,
}

/// The state of a reliable stream.
pub struct StreamModel {
    pub driver: DriverModel,
    pub buffer: BufferModel,
    pub sizes: StreamSizes,
}

impl StreamModel {
    /// What a stream keeps true.
    pub open spec fn wf(self) -> bool {
        self.buffer.wf()
    }

    /// The buffer with an envelope that arrived taken in.
    pub open spec fn with_arrival(self, sequence: u16, payload: Seq<u8>) -> BufferModel {
        BufferModel {
            channel: self.buffer.channel.after_handle(
                sequence,
                payload,
                self.sizes.queue,
                self.sizes.reorder,
            ),
            ..self.buffer
        }
    }

    /// After an envelope arrived: all that can be delivered is, and if that ended the peer's
    /// stream, so it is noted.
    pub open spec fn after_arrival(self, sequence: u16, payload: Seq<u8>) -> StreamModel {
        let read = self.with_arrival(sequence, payload).emptied(self.sizes.queue);
        StreamModel {
            buffer: BufferModel { read_buf: Seq::empty(), ..read },
            driver: if read.recv_eof {
                DriverModel { peer_done: true, ..self.driver }
            } else {
                self.driver
            },
            ..self
        }
    }

    /// What the application gets of an arrival.
    pub open spec fn delivered(self, sequence: u16, payload: Seq<u8>) -> Seq<u8> {
        self.with_arrival(sequence, payload).emptied(self.sizes.queue).read_buf
    }

    /// After the application wrote: what the bounded queue does not take is kept.
    pub open spec fn after_write(self, chunk: Seq<u8>) -> StreamModel {
        StreamModel {
            buffer: self.buffer.after_write(chunk, self.sizes.queue),
            driver: self.driver.after_app_wrote(
                chunk,
                self.buffer.accepted(chunk.len(), self.sizes.queue) as int,
            ),
            ..self
        }
    }

    /// After an event.
    pub open spec fn after_event(self, event: EventModel) -> StreamModel {
        match event {
            EventModel::Proved { sequence } => StreamModel {
                buffer: BufferModel {
                    channel: self.buffer.channel.after_proof(sequence, self.driver.clock),
                    ..self.buffer
                },
                ..self
            },
            EventModel::Arrived { sequence, payload } => self.after_arrival(sequence, payload),
            EventModel::Wrote { chunk } => self.after_write(chunk),
            EventModel::Closed => StreamModel { driver: self.driver.after_app_closed(), ..self },
            EventModel::Ticked => StreamModel { driver: self.driver.after_tick(), ..self },
        }
    }

    /// What an event asks of the shell at once.
    pub open spec fn outcome(self, event: EventModel) -> OutcomeModel {
        match event {
            EventModel::Arrived { sequence, payload } => OutcomeModel {
                prove: self.buffer.channel.proves(
                    sequence,
                    self.sizes.queue,
                    self.sizes.reorder,
                ),
                deliver: self.delivered(sequence, payload),
                peer_ended: self.after_arrival(sequence, payload).buffer.recv_eof,
                identify: false,
            },
            _ => OutcomeModel {
                prove: false,
                deliver: Seq::empty(),
                peer_ended: false,
                identify: event is Ticked && self.driver.identifies_again(),
            },
        }
    }

    /// After the bytes and the end that were refused before were offered again.
    pub open spec fn flushed(self) -> StreamModel {
        let written = StreamModel {
            buffer: self.buffer.after_write(self.driver.pending, self.sizes.queue),
            driver: self.driver.after_accepted(
                self.buffer.accepted(self.driver.pending.len(), self.sizes.queue) as int,
            ),
            ..self
        };
        if written.driver.wants_finish() && written.buffer.channel.outgoing.len()
            < self.sizes.queue {
            StreamModel {
                buffer: written.buffer.after_frame(Seq::empty(), true),
                driver: DriverModel { finish_pending: false, ..written.driver },
                ..written
            }
        } else {
            written
        }
    }

    /// After a turn: what was refused is offered again, and then what is ready is on the wire.
    pub open spec fn after_turn(self) -> StreamModel {
        let ready = self.flushed();
        StreamModel {
            buffer: BufferModel {
                channel: ready.buffer.channel.after_transmit(
                    self.sizes.window,
                    self.driver.clock,
                ),
                ..ready.buffer
            },
            ..ready
        }
    }

    /// Whether everything written has been sent and proven.
    pub open spec fn send_idle(self) -> bool {
        self.buffer.channel.outgoing.len() == 0 && self.buffer.channel.outstanding.len() == 0
    }
}

/// A reliable stream over a link.
pub struct ReliableStream<
    const WINDOW: usize,
    const QUEUE: usize,
    const REORDER: usize,
    const READ_BYTES: usize,
> {
    driver: ReliableDriver,
    buffer: Buffer<WINDOW, QUEUE, REORDER, READ_BYTES>,
}

impl<
    const WINDOW: usize,
    const QUEUE: usize,
    const REORDER: usize,
    const READ_BYTES: usize,
> View for ReliableStream<WINDOW, QUEUE, REORDER, READ_BYTES> {
    type V = StreamModel;

    closed spec fn view(&self) -> StreamModel {
        StreamModel {
            driver: self.driver@,
            buffer: self.buffer@,
            sizes: StreamSizes {
                window: WINDOW as nat,
                queue: QUEUE as nat,
                reorder: REORDER as nat,
                read_bytes: READ_BYTES as nat,
            },
        }
    }
}

impl<
    const WINDOW: usize,
    const QUEUE: usize,
    const REORDER: usize,
    const READ_BYTES: usize,
> ReliableStream<WINDOW, QUEUE, REORDER, READ_BYTES> {
    /// Begin a stream tuned to its medium. An initiator identifies itself, so the responder can
    /// validate its proofs.
    pub fn new(initiator: bool, initial_rtt_ms: u64, max_window: u32) -> (stream: Self)
        ensures
            stream@.wf(),
            stream@.driver == DriverModel::begun(initiator),
            stream@.buffer == BufferModel::over(
                tuned(STREAM_MSGTYPE, initial_rtt_ms, max_window, WINDOW as nat),
                DEFAULT_CHUNK as nat,
                0,
                0,
            ),
            stream@.sizes == (StreamSizes {
                window: WINDOW as nat,
                queue: QUEUE as nat,
                reorder: REORDER as nat,
                read_bytes: READ_BYTES as nat,
            }),
    {
        ReliableStream {
            driver: ReliableDriver::new(initiator),
            buffer: Buffer::with_initial_rtt_and_max_window(initial_rtt_ms, max_window),
        }
    }

    /// Whether the application is to be read: its side is open, and what it wrote last was
    /// accepted in full.
    pub fn wants_read(&self) -> (wants: bool)
        ensures
            wants == self@.driver.wants_read(),
    {
        self.driver.wants_read()
    }

    /// Take an event in.
    pub fn on_event(&mut self, event: StreamEvent) -> (outcome: EventOutcome)
        requires
            old(self)@.wf(),
        ensures
            final(self)@.wf(),
            outcome@ == old(self)@.outcome(event@),
            final(self)@ == old(self)@.after_event(event@),
    {
        let mut outcome = EventOutcome {
            prove: false,
            deliver: Vec::new(),
            peer_ended: false,
            identify: false,
        };
        proof {
            assert(outcome.deliver@ =~= Seq::<u8>::empty());
        }
        match event {
            StreamEvent::Proved { sequence } => {
                self.buffer.on_proof(sequence, self.driver.clock());
            },
            StreamEvent::Arrived { envelope } => {
                outcome.prove = self.buffer.handle(envelope);
                proof {
                    lemma_emptied(self.buffer@, QUEUE as nat);
                }
                outcome.deliver = self.buffer.read_available();
                outcome.peer_ended = self.buffer.recv_finished();
                if outcome.peer_ended {
                    self.driver.peer_finished();
                }
            },
            StreamEvent::Wrote { chunk } => {
                proof {
                    law_write_queues_what_it_accepts(self.buffer@, chunk@, QUEUE as nat);
                }
                let accepted: usize = self.buffer.write(chunk.as_slice());
                self.driver.app_wrote(chunk.as_slice(), accepted);
            },
            StreamEvent::Closed => {
                self.driver.app_closed();
            },
            StreamEvent::Ticked => {
                outcome.identify = self.driver.tick();
            },
        }
        outcome
    }

    /// Offer again what was refused, and put what is ready on the wire.
    pub fn turn(&mut self) -> (turn: Turn)
        requires
            old(self)@.wf(),
        ensures
            final(self)@.wf(),
            final(self)@ == old(self)@.after_turn(),
            envelopes(turn.transmit@) == old(self)@.flushed().buffer.channel.transmitted(
                WINDOW as nat,
                old(self)@.driver.clock,
            ),
            turn.done == final(self)@.driver.is_done(final(self)@.send_idle()),
    {
        let ghost before = self@;
        proof {
            law_write_queues_what_it_accepts(self.buffer@, self.driver@.pending, QUEUE as nat);
        }
        let accepted: usize = self.buffer.write(self.driver.pending());
        self.driver.pending_accepted(accepted);
        if self.driver.wants_finish() && self.buffer.finish() {
            self.driver.finish_queued();
        }
        proof {
            assert(self@ == before.flushed());
        }
        let transmit = self.buffer.poll_transmit(self.driver.clock());
        let done = self.driver.is_done(self.buffer.send_idle());
        Turn { transmit, done }
    }
}

// ---------------------------------------------------------------------------------------
// Laws.
/// The bytes a stream still owes its peer beyond what is in flight: those queued, and those the
/// queue has not taken yet.
pub open spec fn owed(m: StreamModel) -> Seq<u8> {
    carried(m.buffer.channel.outgoing, m.buffer.send_stream_id) + m.driver.pending
}

/// Nothing that was delivered stays behind: after an arrival the inbox and the read buffer are
/// empty, and what is handed to the application is what it had not read yet, followed by all
/// that the messages there in order carry. So the end of the peer's stream is not told before
/// its last byte.
pub proof fn law_arrival_is_handed_on(m: StreamModel, sequence: u16, payload: Seq<u8>)
    requires
        m.buffer.channel.settled(m.sizes.queue),
        m.sizes.queue > 0,
    ensures
        ({
            let taken = m.with_arrival(sequence, payload);
            let after = m.after_arrival(sequence, payload);
            &&& m.delivered(sequence, payload) == m.buffer.read_buf + carried(
                taken.channel.ready(),
                m.buffer.recv_stream_id,
            )
            &&& after.buffer.read_buf.len() == 0
            &&& after.buffer.channel.ready().len() == 0
            &&& after.buffer.channel.settled(m.sizes.queue)
        }),
{
    law_arrival_keeps_what_is_ready(
        m.buffer.channel,
        sequence,
        payload,
        m.sizes.queue,
        m.sizes.reorder,
    );
    law_reading_all_leaves_nothing(m.with_arrival(sequence, payload), m.sizes.queue);
}

/// What is queued carries what it carried, and then what was added.
proof fn lemma_carried_after(b: BufferModel, bytes: Seq<u8>, queue: nat)
    requires
        b.wf(),
    ensures
        b.accepted(bytes.len(), queue) <= bytes.len(),
        carried(b.after_write(bytes, queue).channel.outgoing, b.send_stream_id) == carried(
            b.channel.outgoing,
            b.send_stream_id,
        ) + bytes.subrange(0, b.accepted(bytes.len(), queue) as int),
        b.after_write(bytes, queue).send_stream_id == b.send_stream_id,
        b.after_write(bytes, queue).wf(),
{
    law_write_queues_what_it_accepts(b, bytes, queue);
    let before = b.channel.outgoing;
    let after = b.after_write(bytes, queue).channel.outgoing;
    let added = after.subrange(before.len() as int, after.len() as int);
    assert(after =~= after.subrange(0, before.len() as int) + added);
    crate::channel::lemma_carried_concat(before, added, b.send_stream_id);
    lemma_write_keeps(b, bytes, queue);
}

/// A write changes nothing but what is queued.
proof fn lemma_write_keeps(b: BufferModel, bytes: Seq<u8>, queue: nat)
    requires
        b.wf(),
    ensures
        b.after_write(bytes, queue).send_stream_id == b.send_stream_id,
        b.after_write(bytes, queue).wf(),
    decreases bytes.len(),
{
    let n = b.chunk(bytes.len());
    if !(n == 0 || b.channel.outgoing.len() >= queue) {
        lemma_write_keeps(
            b.after_frame(bytes.subrange(0, n as int), false),
            bytes.subrange(n as int, bytes.len() as int),
            queue,
        );
    }
}

/// Backpressure loses nothing and reorders nothing, end to end: what the stream owes after the
/// application wrote, and after every retry, is what it owed before followed by what was
/// written.
pub proof fn law_written_bytes_are_owed_in_order(m: StreamModel, chunk: Seq<u8>)
    requires
        m.wf(),
        m.driver.wants_read(),
    ensures
        owed(m.after_write(chunk)) == owed(m) + chunk,
        owed(m.flushed()) == owed(m),
        owed(m.after_write(chunk).flushed()) == owed(m) + chunk,
{
    lemma_carried_after(m.buffer, chunk, m.sizes.queue);
    let n = m.buffer.accepted(chunk.len(), m.sizes.queue) as int;
    let written = m.after_write(chunk);
    assert(m.driver.pending =~= Seq::<u8>::empty());
    assert(owed(written) =~= owed(m) + chunk);
    law_retry_owes_the_same(m);
    law_retry_owes_the_same(written);
}

/// Offering again what was refused changes nothing of what is owed.
pub proof fn law_retry_owes_the_same(m: StreamModel)
    requires
        m.wf(),
    ensures
        owed(m.flushed()) == owed(m),
{
    let pending = m.driver.pending;
    let id = m.buffer.send_stream_id;
    lemma_carried_after(m.buffer, pending, m.sizes.queue);
    let n = m.buffer.accepted(pending.len(), m.sizes.queue) as int;
    let buffer = m.buffer.after_write(pending, m.sizes.queue);
    let left = pending.subrange(n, pending.len() as int);
    assert(carried(buffer.channel.outgoing, id) + left =~= owed(m));
    let eof = buffer.frame(Seq::empty(), true);
    crate::channel::law_frame_round_trips(eof);
    let one = seq![eof.wire()];
    crate::channel::lemma_carried_concat(buffer.channel.outgoing, one, id);
    assert(buffer.channel.outgoing.push(eof.wire()) =~= buffer.channel.outgoing + one);
    assert(carried(one, id) =~= Seq::<u8>::empty()) by {
        assert(one.subrange(1, 1) =~= Seq::empty());
        assert(carried(one.subrange(1, 1), id) =~= Seq::<u8>::empty());
    }
    assert(carried(buffer.channel.outgoing, id) + Seq::<u8>::empty() =~= carried(
        buffer.channel.outgoing,
        id,
    ));
}

/// A stream is not done while it owes anything: not a byte, not its end, not a proof, and not
/// while the peer still sends.
pub proof fn law_done_stream_owes_nothing(m: StreamModel)
    requires
        m.driver.is_done(m.send_idle()),
    ensures
        owed(m) == Seq::<u8>::empty(),
        !m.driver.finish_pending,
        m.buffer.channel.outstanding.len() == 0,
        m.driver.peer_done,
{
    assert(carried(m.buffer.channel.outgoing, m.buffer.send_stream_id) =~= Seq::<u8>::empty());
    assert(owed(m) =~= Seq::<u8>::empty());
}

} // verus!
