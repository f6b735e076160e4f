//! A reliable, in-order message layer over a link: Reticulum's `Channel`, wire-compatible.
//!
//! Raw link data packets are best-effort by spec: over TCP they never drop, so a byte stream
//! over a link is reliable *by accident of the medium*. Over LoRa or serial they drop,
//! reorder, and delay, and a stream that reports success for bytes that never arrive is lying
//! to its caller. This is the layer that makes the stream honest on any medium: sequence
//! numbers, a send window, retransmission of unproven packets, and receiver-side reordering.
//!
//! - A message is an [`Envelope`], `[msgtype u16][sequence u16][length u16][payload]`,
//!   big-endian, carried in a link data packet.
//! - The sequence is windowed **16-bit** (mod [`SEQ_MODULUS`]).
//! - **Acknowledgement is the link packet proof, not an ack message.** Each envelope packet is
//!   proof-requesting; an unproven sequence is retransmitted.
//!
//! [`Channel`] holds no sockets and no clock. The caller (a link driver) drives it:
//! [`Channel::poll_transmit`] with the current time yields the envelopes to put on the wire
//! (new data within the window, plus retransmits past their timeout); [`Channel::handle`]
//! feeds received envelopes back in; and [`Channel::on_proof`] releases an outstanding
//! sequence when its packet's proof arrives.

pub mod laws;

use std::collections::VecDeque;
use vstd::prelude::*;

use crate::bounded::{
    lemma_row_by_keys, lemma_row_of, row_of, without_row, BoundedDeque, BoundedMap,
};
use crate::bytes;
use crate::bytes::{be_bytes, be_value};

verus! {

/// The sequence space: sequences are 16-bit and wrap at this modulus. Comparisons use wrapping
/// distance with a half-modulus split to tell "ahead" (a future packet to buffer) from
/// "behind" (an old duplicate).
pub const SEQ_MODULUS: u32 = 65536;

/// The window a dynamic channel starts with.
///
/// The window bounds unacknowledged envelopes in flight; it grows on sustained proofs and
/// shrinks on retransmit, bounded by the RTT tier. It is a *local* send-rate policy, never on
/// the wire.
pub const WINDOW_INITIAL: u32 = 2;

/// The window of the slowest tier.
pub const WINDOW_MIN: u32 = 2;

/// The window never grows above this, the fast-tier ceiling.
pub const WINDOW_MAX: u32 = 48;

/// How far the window drops on a retransmit.
pub const WINDOW_FLEXIBILITY: u32 = 4;

/// The slow tier's ceiling.
pub const WINDOW_MAX_SLOW: u32 = 5;

/// The medium tier's ceiling.
pub const WINDOW_MAX_MEDIUM: u32 = 12;

/// The fast tier's ceiling.
pub const WINDOW_MAX_FAST: u32 = 48;

/// The slow tier's floor.
pub const WINDOW_MIN_LIMIT_SLOW: u32 = 2;

/// The medium tier's floor.
pub const WINDOW_MIN_LIMIT_MEDIUM: u32 = 5;

/// The fast tier's floor.
pub const WINDOW_MIN_LIMIT_FAST: u32 = 16;

/// The longest round trip of the fast tier, in the caller's tick unit (a millisecond).
pub const RTT_FAST: u64 = 180;

/// The longest round trip of the medium tier.
pub const RTT_MEDIUM: u64 = 750;

/// The longest round trip of the slow tier.
pub const RTT_SLOW: u64 = 1450;

/// Consecutive proofs (no retransmit) before the window steps up one.
pub const FAST_RATE_THRESHOLD: u32 = 10;

/// Ticks without a proof before an outstanding envelope is retransmitted, for a caller that
/// does not adapt it.
pub const DEFAULT_RETX_TIMEOUT: u64 = 4;

/// The adaptive retransmit timeout is this multiple of the measured RTT, so the timeout tracks
/// the medium instead of a fixed tick count.
pub const RETX_RTT_FACTOR: u64 = 2;

/// The adaptive timeout never drops below this.
pub const RETX_MIN: u64 = 4;

/// The adaptive timeout never rises above this, so one wild RTT sample cannot stall the
/// channel indefinitely.
pub const RETX_MAX: u64 = 8000;

/// The most out-of-order future envelopes the receiver will hold at once, unless told
/// otherwise. It bounds the reorder buffer against a peer that streams only future sequences
/// and never fills the gap.
pub const REORDER_MAX: usize = 256;

/// The stream-frame message type: a stream chunk rides a [`Channel`] envelope under this
/// msgtype.
pub const STREAM_MSGTYPE: u16 = 0xFF00;

/// The largest stream id. The id is the low 14 bits of the [`StreamFrame`] header; the top two
/// bits are the eof and compressed flags.
pub const STREAM_ID_MAX: u16 = 0x3FFF;

/// The most stream data bytes in one [`StreamFrame`]: the link MDU less the 6-byte envelope
/// header and the 2-byte stream header.
pub const MAX_DATA_LEN: usize = 423;

// ---------------------------------------------------------------------------------------
// Envelopes.
/// One channel message on the wire: `[msgtype u16][sequence u16][length u16][payload]`,
/// big-endian.
#[derive(Debug, PartialEq, Eq)]
pub struct Envelope {
    /// Registered message type (identifies the message class on the wire).
    pub msgtype: u16,
    /// Windowed 16-bit sequence number.
    pub sequence: u16,
    /// Message payload.
    pub payload: Vec<u8>,
}

/// An [`Envelope`] with its payload as a sequence.
pub struct EnvelopeModel {
    pub msgtype: u16,
    pub sequence: u16,
    pub payload: Seq<u8>,
}

impl View for Envelope {
    type V = EnvelopeModel;

    open spec fn view(&self) -> EnvelopeModel {
        EnvelopeModel {
            msgtype: self.msgtype,
            sequence: self.sequence,
            payload: self.payload@,
        }
    }
}

impl EnvelopeModel {
    /// The bytes of the envelope. The length field holds the low 16 bits.
    pub open spec fn wire(self) -> Seq<u8> {
        be_bytes(self.msgtype as nat, 2) + be_bytes(self.sequence as nat, 2) + be_bytes(
            self.payload.len(),
            2,
        ) + self.payload
    }
}

/// The envelope bytes spell, if they spell one: a header, and exactly the payload it declares.
pub open spec fn envelope_in(b: Seq<u8>) -> Option<EnvelopeModel> {
    if b.len() < 6 || b.len() != 6 + be_value(b.subrange(4, 6)) {
        None
    } else {
        Some(
            EnvelopeModel {
                msgtype: be_value(b.subrange(0, 2)) as u16,
                sequence: be_value(b.subrange(2, 4)) as u16,
                payload: b.subrange(6, b.len() as int),
            },
        )
    }
}

impl Clone for Envelope {
    fn clone(&self) -> (copy: Self)
        ensures
            copy@ == self@,
    {
        Envelope {
            msgtype: self.msgtype,
            sequence: self.sequence,
            payload: bytes::copy_all(self.payload.as_slice()),
        }
    }
}

impl Envelope {
    /// Encode to the wire layout.
    pub fn encode(&self) -> (out: Vec<u8>)
        ensures
            out@ == self@.wire(),
    {
        let mut out: Vec<u8> = Vec::new();
        bytes::append_be(&mut out, self.msgtype as u64, 2);
        bytes::append_be(&mut out, self.sequence as u64, 2);
        bytes::append_be(&mut out, self.payload.len() as u64, 2);
        bytes::append(&mut out, self.payload.as_slice());
        assert(out@ =~= self@.wire());
        out
    }

    /// Decode from the wire layout, or `None` if malformed or the declared length does not
    /// match.
    pub fn decode(source: &[u8]) -> (envelope: Option<Envelope>)
        ensures
            match envelope {
                Some(e) => envelope_in(source@) == Some(e@),
                None => envelope_in(source@) is None,
            },
    {
        if source.len() < 6 {
            return None;
        }
        proof {
            bytes::lemma_pow256_widths();
        }
        let msgtype: u16 = bytes::read_be(source, 0, 2) as u16;
        let sequence: u16 = bytes::read_be(source, 2, 2) as u16;
        let length: usize = bytes::read_be(source, 4, 2) as usize;
        if source.len() - 6 != length {
            return None;
        }
        Some(Envelope { msgtype, sequence, payload: bytes::copy_range(source, 6, 6 + length) })
    }
}

/// An envelope reads back as it was written, and does not with anything behind it.
pub proof fn law_envelope_round_trips(e: EnvelopeModel, tail: Seq<u8>)
    requires
        e.payload.len() < SEQ_MODULUS,
    ensures
        envelope_in(e.wire()) == Some(e),
        tail.len() > 0 ==> envelope_in(e.wire() + tail) is None,
{
    bytes::lemma_be_bytes(e.msgtype as nat, 2);
    bytes::lemma_be_bytes(e.sequence as nat, 2);
    bytes::lemma_be_bytes(e.payload.len(), 2);
    bytes::lemma_pow256_widths();
    let w = e.wire();
    assert(w.subrange(0, 2) =~= be_bytes(e.msgtype as nat, 2));
    assert(w.subrange(2, 4) =~= be_bytes(e.sequence as nat, 2));
    assert(w.subrange(4, 6) =~= be_bytes(e.payload.len(), 2));
    assert(w.subrange(6, w.len() as int) =~= e.payload);
    assert((w + tail).subrange(4, 6) =~= w.subrange(4, 6));
}

/// An envelope cut short does not read: what is left is too short for its header or for the
/// payload that the header declares.
pub proof fn law_envelope_prefix_is_refused(e: EnvelopeModel, len: int)
    requires
        e.payload.len() < SEQ_MODULUS,
        0 <= len < e.wire().len(),
    ensures
        envelope_in(e.wire().subrange(0, len)) is None,
{
    bytes::lemma_be_bytes(e.msgtype as nat, 2);
    bytes::lemma_be_bytes(e.sequence as nat, 2);
    bytes::lemma_be_bytes(e.payload.len(), 2);
    bytes::lemma_pow256_widths();
    let w = e.wire();
    if len >= 6 {
        assert(w.subrange(0, len).subrange(4, 6) =~= be_bytes(e.payload.len(), 2));
    }
}

// ---------------------------------------------------------------------------------------
// Stream frames.
/// One stream frame: the payload of the [`Channel`] envelope carrying a stream chunk. Layout
/// `[u16 BE header][data]`, header = `eof<<15 | compressed<<14 | stream_id`. The data length
/// is implied by the enclosing envelope's length field, so the frame carries none.
///
/// `compressed` marks a bz2 transform applied to `data` *before* framing, not a layout change.
/// This side never sets it on send.
#[derive(Debug, PartialEq, Eq)]
pub struct StreamFrame {
    /// Stream id (14-bit): which multiplexed stream this chunk belongs to.
    pub stream_id: u16,
    /// End-of-stream marker: the last frame of this stream.
    pub eof: bool,
    /// Whether `data` is bz2-compressed (see the type docs).
    pub compressed: bool,
    /// The stream bytes (uncompressed unless `compressed`).
    pub data: Vec<u8>,
}

/// A [`StreamFrame`] with its data as a sequence.
pub struct FrameModel {
    pub stream_id: u16,
    pub eof: bool,
    pub compressed: bool,
    pub data: Seq<u8>,
}

impl View for StreamFrame {
    type V = FrameModel;

    open spec fn view(&self) -> FrameModel {
        FrameModel {
            stream_id: self.stream_id,
            eof: self.eof,
            compressed: self.compressed,
            data: self.data@,
        }
    }
}

impl FrameModel {
    /// The header as a number: the low 14 bits of the id, and the flags above them.
    pub open spec fn header(self) -> nat {
        (self.stream_id as nat % 0x4000) + (if self.eof {
            0x8000nat
        } else {
            0
        }) + (if self.compressed {
            0x4000nat
        } else {
            0
        })
    }

    /// The bytes of the frame.
    pub open spec fn wire(self) -> Seq<u8> {
        be_bytes(self.header(), 2) + self.data
    }
}

/// The frame bytes spell, if they hold a header.
pub open spec fn frame_in(b: Seq<u8>) -> Option<FrameModel> {
    let header = be_value(b.subrange(0, 2));
    if b.len() < 2 {
        None
    } else {
        Some(
            FrameModel {
                stream_id: (header % 0x4000) as u16,
                eof: header / 0x8000 == 1,
                compressed: header / 0x4000 % 2 == 1,
                data: b.subrange(2, b.len() as int),
            },
        )
    }
}

impl StreamFrame {
    /// Encode to the stream-frame layout.
    pub fn encode(&self) -> (out: Vec<u8>)
        ensures
            out@ == self@.wire(),
    {
        let mut header: u16 = self.stream_id % 0x4000;
        if self.eof {
            header = header + 0x8000;
        }
        if self.compressed {
            header = header + 0x4000;
        }
        let mut out: Vec<u8> = Vec::new();
        bytes::append_be(&mut out, header as u64, 2);
        bytes::append(&mut out, self.data.as_slice());
        assert(out@ =~= self@.wire());
        out
    }

    /// Decode from the stream-frame layout, or `None` if shorter than the header.
    pub fn decode(source: &[u8]) -> (frame: Option<StreamFrame>)
        ensures
            match frame {
                Some(f) => frame_in(source@) == Some(f@),
                None => frame_in(source@) is None,
            },
    {
        if source.len() < 2 {
            return None;
        }
        proof {
            bytes::lemma_pow256_widths();
        }
        let header: u16 = bytes::read_be(source, 0, 2) as u16;
        Some(
            StreamFrame {
                stream_id: header % 0x4000,
                eof: header / 0x8000 == 1,
                compressed: header / 0x4000 % 2 == 1,
                data: bytes::copy_range(source, 2, source.len()),
            },
        )
    }
}

/// A frame reads back as it was written, if its id is one.
pub proof fn law_frame_round_trips(f: FrameModel)
    requires
        f.stream_id <= STREAM_ID_MAX,
    ensures
        frame_in(f.wire()) == Some(f),
{
    bytes::lemma_be_bytes(f.header(), 2);
    bytes::lemma_pow256_widths();
    assert(f.wire().subrange(0, 2) =~= be_bytes(f.header(), 2));
    assert(f.wire().subrange(2, f.wire().len() as int) =~= f.data);
}

// ---------------------------------------------------------------------------------------
// The channel.
/// One un-acknowledged outbound envelope.
pub struct Outstanding {
    payload: Vec<u8>,
    last_tx: u64,
}

/// An [`Outstanding`] with its payload as a sequence.
pub struct OutstandingModel {
    pub payload: Seq<u8>,
    pub last_tx: u64,
}

impl View for Outstanding {
    type V = OutstandingModel;

    closed spec fn view(&self) -> OutstandingModel {
        OutstandingModel { payload: self.payload@, last_tx: self.last_tx }
    }
}

/// The state of a channel.
pub struct ChannelModel {
    pub msgtype: u16,
    pub window: u32,
    /// Caller-selected ceiling for dynamic growth. A value of one serializes data/proof turns
    /// on strict half-duplex media.
    pub max_window: u32,
    pub retx_timeout: u64,
    /// Whether the window sizes dynamically.
    pub dynamic: bool,
    /// Consecutive proofs since the last retransmit; drives window growth.
    pub consecutive: u32,
    /// Smoothed proof round trip, in the caller's tick unit; selects the RTT tier.
    pub rtt: u64,
    /// Application payloads not yet assigned a sequence (waiting for window room).
    pub outgoing: Seq<Seq<u8>>,
    /// In-flight, unacknowledged, keyed by sequence.
    pub outstanding: Seq<(u16, OutstandingModel)>,
    /// The next sequence to assign.
    pub send_next: u16,
    /// The next sequence that can be delivered in order.
    pub recv_next: u16,
    /// Received but not yet deliverable, held until the gap before them fills.
    pub reorder: Seq<(u16, Seq<u8>)>,
    /// Delivered, in order, ready for the application to read.
    pub inbox: Seq<Seq<u8>>,
}

/// The retransmit timeout implied by an RTT estimate.
pub open spec fn timeout_for(rtt: u64) -> u64 {
    let wanted = rtt * RETX_RTT_FACTOR;
    if wanted < RETX_MIN {
        RETX_MIN
    } else if wanted > RETX_MAX {
        RETX_MAX
    } else {
        wanted as u64
    }
}

/// The RTT tier's window ceiling.
pub open spec fn ceiling_for(rtt: u64, max_window: u32) -> u32 {
    let tier = if rtt <= RTT_FAST {
        WINDOW_MAX_FAST
    } else if rtt <= RTT_MEDIUM {
        WINDOW_MAX_MEDIUM
    } else if rtt <= RTT_SLOW {
        WINDOW_MAX_SLOW
    } else {
        WINDOW_MIN
    };
    if tier < max_window {
        tier
    } else {
        max_window
    }
}

/// The RTT tier's shrink floor.
pub open spec fn floor_for(rtt: u64, max_window: u32) -> u32 {
    let tier = if rtt <= RTT_FAST {
        WINDOW_MIN_LIMIT_FAST
    } else if rtt <= RTT_MEDIUM {
        WINDOW_MIN_LIMIT_MEDIUM
    } else {
        WINDOW_MIN_LIMIT_SLOW
    };
    let low = if tier < max_window {
        tier
    } else {
        max_window
    };
    if low < 1 {
        1
    } else {
        low
    }
}

/// A window within what the protocol and a table of `cap` rows allow.
pub open spec fn window_within(window: u32, cap: nat) -> u32 {
    let most: int = if cap < WINDOW_MAX {
        cap as int
    } else {
        WINDOW_MAX as int
    };
    let high: int = if most < 1 {
        1
    } else {
        most
    };
    if window < 1 {
        1
    } else if window > high {
        high as u32
    } else {
        window
    }
}

/// How long ago something was, in ticks.
pub open spec fn since(now: u64, then: u64) -> int {
    if now >= then {
        now - then
    } else {
        0
    }
}

/// A row put in: at the end, or in place of the one with its key.
pub open spec fn put<V>(rows: Seq<(u16, V)>, key: u16, value: V) -> Seq<(u16, V)> {
    match row_of(rows, key) {
        Some(i) => rows.update(i, (key, value)),
        None => rows.push((key, value)),
    }
}

/// The rows that are due for another transmission, in their order.
pub open spec fn due(rows: Seq<(u16, OutstandingModel)>, msgtype: u16, now: u64, timeout: u64) -> Seq<
    EnvelopeModel,
>
    decreases rows.len(),
{
    if rows.len() == 0 {
        Seq::empty()
    } else {
        let rest = due(rows.drop_last(), msgtype, now, timeout);
        let (sequence, o) = rows.last();
        if since(now, o.last_tx) >= timeout {
            rest.push(EnvelopeModel { msgtype, sequence, payload: o.payload })
        } else {
            rest
        }
    }
}

/// The rows with what is due stamped as sent now.
pub open spec fn restamped(rows: Seq<(u16, OutstandingModel)>, now: u64, timeout: u64) -> Seq<
    (u16, OutstandingModel),
> {
    Seq::new(
        rows.len(),
        |i: int|
            if since(now, rows[i].1.last_tx) >= timeout {
                (rows[i].0, OutstandingModel { last_tx: now, ..rows[i].1 })
            } else {
                rows[i]
            },
    )
}

impl ChannelModel {
    /// A channel with nothing sent or received yet.
    pub open spec fn fresh(msgtype: u16, window: u32, retx_timeout: u64) -> ChannelModel {
        ChannelModel {
            msgtype,
            window,
            max_window: window,
            retx_timeout,
            dynamic: false,
            consecutive: 0,
            rtt: RTT_MEDIUM,
            outgoing: Seq::empty(),
            outstanding: Seq::empty(),
            send_next: 0,
            recv_next: 0,
            reorder: Seq::empty(),
            inbox: Seq::empty(),
        }
    }

    /// What a channel keeps true: a window the protocol has, and fewer clean proofs than make
    /// it grow.
    pub open spec fn wf(self) -> bool {
        1 <= self.window <= WINDOW_MAX && 1 <= self.max_window <= WINDOW_MAX && self.consecutive
            < FAST_RATE_THRESHOLD
    }

    /// Whether another payload may be put in flight.
    pub open spec fn has_window(self, cap: nat) -> bool {
        self.outstanding.len() < self.window && self.outstanding.len() < cap
            && self.outgoing.len() > 0
    }

    /// After the first waiting payload was put in flight.
    pub open spec fn after_launch(self, now: u64) -> ChannelModel {
        ChannelModel {
            outgoing: self.outgoing.subrange(1, self.outgoing.len() as int),
            outstanding: put(
                self.outstanding,
                self.send_next,
                OutstandingModel { payload: self.outgoing[0], last_tx: now },
            ),
            send_next: self.send_next.wrapping_add(1),
            ..self
        }
    }

    /// The envelope of the first waiting payload.
    pub open spec fn next_envelope(self) -> EnvelopeModel {
        EnvelopeModel {
            msgtype: self.msgtype,
            sequence: self.send_next,
            payload: self.outgoing[0],
        }
    }

    /// After the window was filled with fresh data.
    pub open spec fn filled(self, cap: nat, now: u64) -> ChannelModel
        decreases self.outgoing.len(),
    {
        if self.has_window(cap) {
            self.after_launch(now).filled(cap, now)
        } else {
            self
        }
    }

    /// The envelopes of the fresh data that fills the window.
    pub open spec fn launched(self, cap: nat, now: u64) -> Seq<EnvelopeModel>
        decreases self.outgoing.len(),
    {
        if self.has_window(cap) {
            seq![self.next_envelope()] + self.after_launch(now).launched(cap, now)
        } else {
            Seq::empty()
        }
    }

    /// What is resent.
    pub open spec fn resent(self, now: u64) -> Seq<EnvelopeModel> {
        due(self.outstanding, self.msgtype, now, self.retx_timeout)
    }

    /// After what is due was sent again. A retransmit means loss, or a stall: a dynamic window
    /// backs off toward the tier's floor.
    pub open spec fn after_resend(self, now: u64) -> ChannelModel {
        let stamped = ChannelModel {
            outstanding: restamped(self.outstanding, now, self.retx_timeout),
            ..self
        };
        let floor = floor_for(self.rtt, self.max_window);
        let lower: u32 = if self.window > WINDOW_FLEXIBILITY {
            (self.window - WINDOW_FLEXIBILITY) as u32
        } else {
            0
        };
        let raised = if lower < floor {
            floor
        } else {
            lower
        };
        if self.dynamic && self.resent(now).len() > 0 {
            ChannelModel {
                window: if raised > self.max_window {
                    self.max_window
                } else {
                    raised
                },
                consecutive: 0,
                ..stamped
            }
        } else {
            stamped
        }
    }

    /// What goes on the wire at a time: fresh data within the window, then what is due again.
    pub open spec fn transmitted(self, cap: nat, now: u64) -> Seq<EnvelopeModel> {
        self.launched(cap, now) + self.filled(cap, now).resent(now)
    }

    /// After a transmission.
    pub open spec fn after_transmit(self, cap: nat, now: u64) -> ChannelModel {
        self.filled(cap, now).after_resend(now)
    }

    /// The round trip estimate after a sample.
    pub open spec fn smoothed(self, sample: int) -> u64 {
        ((self.rtt * 7 + sample) / 8) as u64
    }

    /// After a proof: exactly its sequence is released, the round trip is measured, and a run
    /// of clean proofs grows a dynamic window one step, capped by the RTT tier.
    pub open spec fn after_proof(self, sequence: u16, now: u64) -> ChannelModel {
        match row_of(self.outstanding, sequence) {
            None => self,
            Some(i) => {
                let released = ChannelModel {
                    outstanding: without_row(self.outstanding, i),
                    ..self
                };
                let rtt = self.smoothed(since(now, self.outstanding[i].1.last_tx));
                let grows = self.consecutive + 1 >= FAST_RATE_THRESHOLD;
                if self.dynamic {
                    ChannelModel {
                        rtt,
                        retx_timeout: timeout_for(rtt),
                        consecutive: if grows {
                            0
                        } else {
                            (self.consecutive + 1) as u32
                        },
                        window: if grows && self.window < ceiling_for(rtt, self.max_window) {
                            (self.window + 1) as u32
                        } else {
                            self.window
                        },
                        ..released
                    }
                } else {
                    released
                }
            },
        }
    }

    /// How far ahead of what is next a sequence is.
    pub open spec fn ahead(self, sequence: u16) -> u16 {
        sequence.wrapping_sub(self.recv_next)
    }

    /// With the next payload delivered.
    pub open spec fn after_delivery(self, payload: Seq<u8>) -> ChannelModel {
        ChannelModel {
            inbox: self.inbox.push(payload),
            recv_next: self.recv_next.wrapping_add(1),
            ..self
        }
    }

    /// After what is held and now in order was delivered, as far as the inbox has room.
    pub open spec fn drained(self, queue: nat) -> ChannelModel
        decreases self.reorder.len(),
    {
        match row_of(self.reorder, self.recv_next) {
            Some(i) => if self.inbox.len() < queue && 0 <= i < self.reorder.len() {
                ChannelModel { reorder: without_row(self.reorder, i), ..self }.after_delivery(
                    self.reorder[i].1,
                ).drained(queue)
            } else {
                self
            },
            None => self,
        }
    }

    /// After the first payload of the inbox was taken: what is held and now in order moves up.
    pub open spec fn after_recv(self, queue: nat) -> ChannelModel {
        ChannelModel {
            inbox: self.inbox.subrange(1, self.inbox.len() as int),
            ..self
        }.drained(queue)
    }

    /// Nothing that is next is held back while the inbox has room.
    pub open spec fn settled(self, queue: nat) -> bool {
        self.inbox.len() < queue ==> row_of(self.reorder, self.recv_next) is None
    }

    /// The payloads that are there in order: those in the inbox, and those held that follow.
    pub open spec fn ready(self) -> Seq<Seq<u8>> {
        self.inbox + run_from(self.reorder, self.recv_next)
    }

    /// Whether a received envelope is proved: an in-order one if the inbox has room, a future
    /// one if it is or can be held, and a duplicate always, since the sender resent it for
    /// want of the earlier proof.
    pub open spec fn proves(self, sequence: u16, queue: nat, reorder: nat) -> bool {
        if self.ahead(sequence) == 0 {
            self.inbox.len() < queue
        } else if self.ahead(sequence) < SEQ_MODULUS / 2 {
            self.reorder.len() < reorder || row_of(self.reorder, sequence) is Some
        } else {
            true
        }
    }

    /// After a received envelope.
    pub open spec fn after_handle(
        self,
        sequence: u16,
        payload: Seq<u8>,
        queue: nat,
        reorder: nat,
    ) -> ChannelModel {
        if !self.proves(sequence, queue, reorder) {
            self
        } else if self.ahead(sequence) == 0 {
            self.after_delivery(payload).drained(queue)
        } else if self.ahead(sequence) < SEQ_MODULUS / 2 && row_of(
            self.reorder,
            sequence,
        ) is None {
            ChannelModel { reorder: self.reorder.push((sequence, payload)), ..self }
        } else {
            self
        }
    }
}

/// The payloads held from a sequence on, without a gap.
pub open spec fn run_from(held: Seq<(u16, Seq<u8>)>, next: u16) -> Seq<Seq<u8>>
    decreases held.len(),
{
    match row_of(held, next) {
        Some(i) => if 0 <= i < held.len() {
            seq![held[i].1] + run_from(without_row(held, i), next.wrapping_add(1))
        } else {
            Seq::empty()
        },
        None => Seq::empty(),
    }
}

/// The contents of several payloads.
pub open spec fn payloads(items: Seq<Vec<u8>>) -> Seq<Seq<u8>> {
    Seq::new(items.len(), |i: int| items[i]@)
}

/// Rows of payloads as models.
pub open spec fn held_rows(rows: Seq<(u16, Vec<u8>)>) -> Seq<(u16, Seq<u8>)> {
    Seq::new(rows.len(), |i: int| (rows[i].0, rows[i].1@))
}

/// Rows in flight as models.
pub open spec fn sent_rows(rows: Seq<(u16, Outstanding)>) -> Seq<(u16, OutstandingModel)> {
    Seq::new(rows.len(), |i: int| (rows[i].0, rows[i].1@))
}

/// A list of envelopes as models.
pub open spec fn envelopes(items: Seq<Envelope>) -> Seq<EnvelopeModel> {
    Seq::new(items.len(), |i: int| items[i]@)
}

/// A reliable, in-order message channel.
///
/// - `WINDOW` caps in-flight envelopes. It also caps the protocol send window, which is
///   clamped to it at construction, so the window can never outrun its own table.
/// - `QUEUE` bounds the application-facing queues in each direction.
/// - `REORDER` bounds held-back future sequences.
///
/// Payloads stay heap-allocated, so an entry costs a `Vec` header rather than
/// [`MAX_DATA_LEN`] bytes and an idle channel stays cheap. What is bounded here is how many
/// entries exist, which is what grows without limit on a lossy medium.
pub struct Channel<const WINDOW: usize, const QUEUE: usize, const REORDER: usize> {
    msgtype: u16,
    window: u32,
    max_window: u32,
    retx_timeout: u64,
    dynamic: bool,
    consecutive: u32,
    rtt: u64,
    outgoing: BoundedDeque<Vec<u8>, QUEUE>,
    outstanding: BoundedMap<Outstanding, WINDOW>,
    send_next: u16,
    recv_next: u16,
    reorder: BoundedMap<Vec<u8>, REORDER>,
    inbox: BoundedDeque<Vec<u8>, QUEUE>,
}

impl<const WINDOW: usize, const QUEUE: usize, const REORDER: usize> View for Channel<
    WINDOW,
    QUEUE,
    REORDER,
> {
    type V = ChannelModel;

    closed spec fn view(&self) -> ChannelModel {
        ChannelModel {
            msgtype: self.msgtype,
            window: self.window,
            max_window: self.max_window,
            retx_timeout: self.retx_timeout,
            dynamic: self.dynamic,
            consecutive: self.consecutive,
            rtt: self.rtt,
            outgoing: payloads(self.outgoing.view()),
            outstanding: sent_rows(self.outstanding.view()),
            send_next: self.send_next,
            recv_next: self.recv_next,
            reorder: held_rows(self.reorder.view()),
            inbox: payloads(self.inbox.view()),
        }
    }
}

/// The retransmit timeout implied by an RTT estimate: a multiple of it, clamped.
fn retx_from_rtt(rtt: u64) -> (timeout: u64)
    ensures
        timeout == timeout_for(rtt),
{
    if rtt > RETX_MAX {
        return RETX_MAX;
    }
    let wanted: u64 = rtt * RETX_RTT_FACTOR;
    if wanted < RETX_MIN {
        RETX_MIN
    } else if wanted > RETX_MAX {
        RETX_MAX
    } else {
        wanted
    }
}

impl<const WINDOW: usize, const QUEUE: usize, const REORDER: usize> Default for Channel<
    WINDOW,
    QUEUE,
    REORDER,
> {
    fn default() -> (channel: Self)
        ensures
            channel@.wf(),
            channel@ == dynamic_channel(STREAM_MSGTYPE, WINDOW as nat),
    {
        Self::new(STREAM_MSGTYPE)
    }
}

impl<const WINDOW: usize, const QUEUE: usize, const REORDER: usize> Channel<WINDOW, QUEUE, REORDER> {
    /// A channel for one message type with a **dynamic** window: it starts at
    /// [`WINDOW_INITIAL`] and grows toward the RTT tier's max on sustained proofs, shrinking
    /// on retransmit.
    pub fn new(msgtype: u16) -> (channel: Self)
        ensures
            channel@.wf(),
            channel@ == dynamic_channel(msgtype, WINDOW as nat),
    {
        // Start the timeout from the initial RTT estimate (a medium-latency guess), then let
        // proofs adapt it to the measured round trip.
        let mut channel = Self::with_params(msgtype, WINDOW_INITIAL, retx_from_rtt(RTT_MEDIUM));
        channel.dynamic = true;
        channel.max_window = WINDOW_MAX;
        channel
    }

    /// A dynamic channel whose first retransmit estimate is tuned to the selected medium.
    /// Subsequent proofs still adapt the estimate from measured round-trip time.
    pub fn with_initial_rtt(msgtype: u16, initial_rtt: u64) -> (channel: Self)
        ensures
            channel@.wf(),
            channel@ == tuned(msgtype, initial_rtt, WINDOW_MAX, WINDOW as nat),
    {
        Self::with_initial_rtt_and_max_window(msgtype, initial_rtt, WINDOW_MAX)
    }

    /// A dynamic channel with medium-specific RTT and send-window policy.
    ///
    /// `max_window = 1` is useful for strict half-duplex radios: the sender waits for each
    /// proof before transmitting the next frame, so a receiver's proof cannot collide with a
    /// second in-flight data frame.
    pub fn with_initial_rtt_and_max_window(msgtype: u16, initial_rtt: u64, max_window: u32) -> (channel:
        Self)
        ensures
            channel@.wf(),
            channel@ == tuned(msgtype, initial_rtt, max_window, WINDOW as nat),
    {
        let initial_rtt: u64 = if initial_rtt < 1 {
            1
        } else {
            initial_rtt
        };
        // The profile's table caps the protocol window as well as the protocol's own
        // maximum, so a small board cannot be talked into a window its table cannot hold.
        let max_window: u32 = Self::clamp_window(max_window);
        let first: u32 = if WINDOW_INITIAL < max_window {
            WINDOW_INITIAL
        } else {
            max_window
        };
        let mut channel = Self::with_params(msgtype, first, retx_from_rtt(initial_rtt));
        channel.dynamic = true;
        channel.rtt = initial_rtt;
        channel.max_window = max_window;
        channel
    }

    /// A window within what the protocol and the table allow.
    fn clamp_window(window: u32) -> (clamped: u32)
        ensures
            clamped == window_within(window, WINDOW as nat),
            1 <= clamped <= WINDOW_MAX,
    {
        let most: u32 = if WINDOW < WINDOW_MAX as usize {
            WINDOW as u32
        } else {
            WINDOW_MAX
        };
        let high: u32 = if most < 1 {
            1
        } else {
            most
        };
        if window < 1 {
            1
        } else if window > high {
            high
        } else {
            window
        }
    }

    /// A channel with a **fixed** window and explicit retransmit timeout (for tests and
    /// callers that want a static send rate).
    pub fn with_params(msgtype: u16, window: u32, retx_timeout: u64) -> (channel: Self)
        ensures
            channel@.wf(),
            channel@ == ChannelModel::fresh(
                msgtype,
                window_within(window, WINDOW as nat),
                retx_timeout,
            ),
    {
        let window: u32 = Self::clamp_window(window);
        let channel = Channel {
            msgtype,
            window,
            max_window: window,
            retx_timeout,
            dynamic: false,
            consecutive: 0,
            rtt: RTT_MEDIUM,
            outgoing: BoundedDeque::new(),
            outstanding: BoundedMap::new(),
            send_next: 0,
            recv_next: 0,
            reorder: BoundedMap::new(),
            inbox: BoundedDeque::new(),
        };
        proof {
            assert(channel@.outgoing =~= Seq::<Seq<u8>>::empty());
            assert(channel@.outstanding =~= Seq::<(u16, OutstandingModel)>::empty());
            assert(channel@.reorder =~= Seq::<(u16, Seq<u8>)>::empty());
            assert(channel@.inbox =~= Seq::<Seq<u8>>::empty());
        }
        channel
    }

    /// The RTT tier's window ceiling, from the current RTT estimate.
    fn tier_max(&self) -> (most: u32)
        ensures
            most == ceiling_for(self@.rtt, self@.max_window),
    {
        let tier: u32 = if self.rtt <= RTT_FAST {
            WINDOW_MAX_FAST
        } else if self.rtt <= RTT_MEDIUM {
            WINDOW_MAX_MEDIUM
        } else if self.rtt <= RTT_SLOW {
            WINDOW_MAX_SLOW
        } else {
            WINDOW_MIN
        };
        if tier < self.max_window {
            tier
        } else {
            self.max_window
        }
    }

    /// The RTT tier's shrink floor, from the current RTT estimate.
    fn tier_min(&self) -> (least: u32)
        ensures
            least == floor_for(self@.rtt, self@.max_window),
    {
        let tier: u32 = if self.rtt <= RTT_FAST {
            WINDOW_MIN_LIMIT_FAST
        } else if self.rtt <= RTT_MEDIUM {
            WINDOW_MIN_LIMIT_MEDIUM
        } else {
            WINDOW_MIN_LIMIT_SLOW
        };
        let low: u32 = if tier < self.max_window {
            tier
        } else {
            self.max_window
        };
        if low < 1 {
            1
        } else {
            low
        }
    }

    /// The current send window.
    pub fn window(&self) -> (window: u32)
        ensures
            window == self@.window,
    {
        self.window
    }

    /// Queue a payload for reliable, in-order delivery. Assigned a sequence and put on the
    /// wire by [`Channel::poll_transmit`] as the window allows. Returns the payload back when
    /// the send queue is full, so a caller that writes faster than the link drains is told
    /// rather than silently growing the queue forever.
    pub fn send(&mut self, payload: Vec<u8>) -> (result: Result<(), Vec<u8>>)
        ensures
            match result {
                Ok(()) => old(self)@.outgoing.len() < QUEUE && final(self)@ == (ChannelModel {
                    outgoing: old(self)@.outgoing.push(payload@),
                    ..old(self)@
                }),
                Err(back) => old(self)@.outgoing.len() >= QUEUE && back@ == payload@ && final(self)@ == old(self)@,
            },
    {
        let ghost before = self.outgoing.view();
        let result = self.outgoing.push_back(payload);
        proof {
            assert(payloads(before.push(payload)) =~= payloads(before).push(payload@));
        }
        result
    }

    /// How many more payloads [`Channel::send`] takes. Application-facing backpressure.
    pub fn send_room(&self) -> (room: usize)
        ensures
            room == QUEUE - self@.outgoing.len(),
    {
        QUEUE - self.outgoing.len()
    }
}

/// A dynamic channel that knows nothing of its medium.
pub open spec fn dynamic_channel(msgtype: u16, cap: nat) -> ChannelModel {
    ChannelModel {
        dynamic: true,
        max_window: WINDOW_MAX,
        ..ChannelModel::fresh(
            msgtype,
            window_within(WINDOW_INITIAL, cap),
            timeout_for(RTT_MEDIUM),
        )
    }
}

/// A dynamic channel tuned to a medium.
pub open spec fn tuned(msgtype: u16, initial_rtt: u64, max_window: u32, cap: nat) -> ChannelModel {
    let rtt: u64 = if initial_rtt < 1 {
        1
    } else {
        initial_rtt
    };
    let most = window_within(max_window, cap);
    let first = if WINDOW_INITIAL < most {
        WINDOW_INITIAL
    } else {
        most
    };
    ChannelModel {
        dynamic: true,
        rtt,
        max_window: most,
        ..ChannelModel::fresh(msgtype, window_within(first, cap), timeout_for(rtt))
    }
}

/// Models keep the keys of their rows.
proof fn lemma_sent_rows(rows: Seq<(u16, Outstanding)>, key: u16)
    ensures
        row_of(sent_rows(rows), key) == row_of(rows, key),
{
    lemma_row_by_keys(sent_rows(rows), rows, key);
}

/// Models keep the keys of their rows.
proof fn lemma_held_rows(rows: Seq<(u16, Vec<u8>)>, key: u16)
    ensures
        row_of(held_rows(rows), key) == row_of(rows, key),
{
    lemma_row_by_keys(held_rows(rows), rows, key);
}

/// What filling the window leaves alone, and that it leaves no room to fill.
proof fn lemma_filled(m: ChannelModel, cap: nat, now: u64)
    ensures
        ({
            let f = m.filled(cap, now);
            &&& !f.has_window(cap)
            &&& f.window == m.window
            &&& f.max_window == m.max_window
            &&& f.consecutive == m.consecutive
            &&& f.msgtype == m.msgtype
            &&& f.retx_timeout == m.retx_timeout
            &&& f.dynamic == m.dynamic
            &&& f.rtt == m.rtt
            &&& f.recv_next == m.recv_next
            &&& f.reorder == m.reorder
            &&& f.inbox == m.inbox
        }),
    decreases m.outgoing.len(),
{
    if m.has_window(cap) {
        lemma_filled(m.after_launch(now), cap, now);
    }
}

impl<const WINDOW: usize, const QUEUE: usize, const REORDER: usize> Channel<WINDOW, QUEUE, REORDER> {
    /// Put the first waiting payload in flight.
    fn launch(&mut self, now: u64) -> (envelope: Envelope)
        requires
            old(self)@.has_window(WINDOW as nat),
        ensures
            final(self)@ == old(self)@.after_launch(now),
            envelope@ == old(self)@.next_envelope(),
    {
        let ghost waiting = self.outgoing.view();
        let ghost flying = self.outstanding.view();
        let ghost before = self@;
        let sequence: u16 = self.send_next;
        match self.outgoing.pop_front() {
            None => {
                proof {
                    assert(payloads(waiting).len() == 0);
                }
                Envelope { msgtype: self.msgtype, sequence, payload: Vec::new() }
            },
            Some(payload) => {
                self.send_next = self.send_next.wrapping_add(1);
                let envelope = Envelope {
                    msgtype: self.msgtype,
                    sequence,
                    payload: bytes::copy_all(payload.as_slice()),
                };
                let record = Outstanding { payload, last_tx: now };
                let placed = self.outstanding.insert(sequence, record);
                proof {
                    lemma_sent_rows(flying, sequence);
                    lemma_row_of(flying, sequence);
                    assert(payloads(waiting.subrange(1, waiting.len() as int))
                        =~= before.outgoing.subrange(1, waiting.len() as int));
                    assert(self@.outstanding =~= put(
                        before.outstanding,
                        sequence,
                        OutstandingModel { payload: before.outgoing[0], last_tx: now },
                    ));
                }
                envelope
            },
        }
    }

    /// The envelopes to transmit at time `now`: newly sendable data within the window, and
    /// retransmissions of outstanding envelopes past the retransmit timeout. There is no ack
    /// envelope — acknowledgement is the link proof, delivered via [`Channel::on_proof`].
    pub fn poll_transmit(&mut self, now: u64) -> (out: Vec<Envelope>)
        requires
            old(self)@.wf(),
        ensures
            final(self)@.wf(),
            envelopes(out@) == old(self)@.transmitted(WINDOW as nat, now),
            final(self)@ == old(self)@.after_transmit(WINDOW as nat, now),
    {
        let mut out: Vec<Envelope> = Vec::new();
        let ghost before = self@;
        proof {
            assert(envelopes(out@) + self@.launched(WINDOW as nat, now) =~= self@.launched(
                WINDOW as nat,
                now,
            ));
            lemma_filled(before, WINDOW as nat, now);
        }
        // Fill the window with fresh data.
        while self.outstanding.len() < self.window as usize && self.outstanding.len() < WINDOW
            && self.outgoing.len() > 0
            invariant
                self@.wf(),
                self@.filled(WINDOW as nat, now) == before.filled(WINDOW as nat, now),
                envelopes(out@) + self@.launched(WINDOW as nat, now) == before.launched(
                    WINDOW as nat,
                    now,
                ),
            decreases self@.outgoing.len(),
        {
            let ghost here = self@;
            let ghost sent = out@;
            let envelope = self.launch(now);
            out.push(envelope);
            proof {
                assert(envelopes(out@) =~= envelopes(sent).push(here.next_envelope()));
                assert(envelopes(sent).push(here.next_envelope()) + self@.launched(
                    WINDOW as nat,
                    now,
                ) =~= envelopes(sent) + (seq![here.next_envelope()] + self@.launched(
                    WINDOW as nat,
                    now,
                )));
            }
        }
        let ghost full = self@;
        let ghost fresh = envelopes(out@);
        proof {
            assert(fresh + Seq::<EnvelopeModel>::empty() =~= fresh);
            assert(full.outstanding.subrange(0, 0) =~= Seq::<(u16, OutstandingModel)>::empty());
        }
        // Retransmit anything unproven for too long.
        let n: usize = self.outstanding.len();
        let mut retransmitted = false;
        let mut i: usize = 0;
        while i < n
            invariant
                0 <= i <= n,
                n == full.outstanding.len(),
                self@ == (ChannelModel { outstanding: self@.outstanding, ..full }),
                self@.outstanding.len() == n,
                forall|j: int|
                    0 <= j < i ==> #[trigger] self@.outstanding[j] == restamped(
                        full.outstanding,
                        now,
                        full.retx_timeout,
                    )[j],
                forall|j: int|
                    i <= j < n ==> #[trigger] self@.outstanding[j] == full.outstanding[j],
                envelopes(out@) == fresh + due(
                    full.outstanding.subrange(0, i as int),
                    full.msgtype,
                    now,
                    full.retx_timeout,
                ),
                retransmitted == (due(
                    full.outstanding.subrange(0, i as int),
                    full.msgtype,
                    now,
                    full.retx_timeout,
                ).len() > 0),
            decreases n - i,
        {
            let ghost next = full.outstanding.subrange(0, i + 1);
            let ghost sent = out@;
            let ghost rows = self.outstanding.view();
            proof {
                assert(next.drop_last() =~= full.outstanding.subrange(0, i as int));
                assert(self@.outstanding[i as int] == full.outstanding[i as int]);
            }
            let (sequence, row) = self.outstanding.row(i);
            let age: u64 = if now >= row.last_tx {
                now - row.last_tx
            } else {
                0
            };
            if age >= self.retx_timeout {
                let payload = bytes::copy_all(row.payload.as_slice());
                let kept = bytes::copy_all(row.payload.as_slice());
                let envelope = Envelope { msgtype: self.msgtype, sequence, payload };
                self.outstanding.set_value(i, Outstanding { payload: kept, last_tx: now });
                out.push(envelope);
                retransmitted = true;
                proof {
                    assert(envelopes(out@) =~= envelopes(sent).push(envelope@));
                    assert(envelopes(out@) =~= fresh + due(
                        next,
                        full.msgtype,
                        now,
                        full.retx_timeout,
                    ));
                    assert(sent_rows(self.outstanding.view()) =~= sent_rows(rows).update(
                        i as int,
                        (sequence, OutstandingModel { payload: kept@, last_tx: now }),
                    ));
                }
            }
            i += 1;
        }
        proof {
            assert(full.outstanding.subrange(0, n as int) =~= full.outstanding);
            assert(self@.outstanding =~= restamped(full.outstanding, now, full.retx_timeout));
        }
        // A retransmit means loss (or a stall): back the window off toward the tier floor.
        if self.dynamic && retransmitted {
            let floor: u32 = self.tier_min();
            let lower: u32 = if self.window > WINDOW_FLEXIBILITY {
                self.window - WINDOW_FLEXIBILITY
            } else {
                0
            };
            let raised: u32 = if lower < floor {
                floor
            } else {
                lower
            };
            self.window = if raised > self.max_window {
                self.max_window
            } else {
                raised
            };
            self.consecutive = 0;
        }
        out
    }

    /// Release an outstanding sequence: its packet's proof arrived. Selective — each packet is
    /// proved individually, so this frees exactly one sequence. `now` lets the dynamic window
    /// measure RTT and grow on sustained success.
    pub fn on_proof(&mut self, sequence: u16, now: u64)
        requires
            old(self)@.wf(),
        ensures
            final(self)@.wf(),
            final(self)@ == old(self)@.after_proof(sequence, now),
    {
        let ghost flying = self.outstanding.view();
        proof {
            lemma_sent_rows(flying, sequence);
            lemma_row_of(flying, sequence);
        }
        match self.outstanding.remove(sequence) {
            None => {},
            Some(o) => {
                proof {
                    let i = row_of(flying, sequence)->0;
                    assert(sent_rows(without_row(flying, i)) =~= without_row(sent_rows(flying), i));
                }
                if !self.dynamic {
                    return ;
                }
                // EWMA the round-trip since this packet's last transmit, then grow the window
                // one step per run of clean proofs, capped by the RTT tier.
                let sample: u64 = if now >= o.last_tx {
                    now - o.last_tx
                } else {
                    0
                };
                self.rtt = ((self.rtt as u128 * 7 + sample as u128) / 8) as u64;
                // Track the retransmit timeout to the measured RTT.
                self.retx_timeout = retx_from_rtt(self.rtt);
                self.consecutive = self.consecutive + 1;
                if self.consecutive >= FAST_RATE_THRESHOLD {
                    self.consecutive = 0;
                    let most: u32 = self.tier_max();
                    if self.window < most {
                        self.window = self.window + 1;
                    }
                }
            },
        }
    }

    /// Process a received envelope, delivering it or buffering it for reordering.
    ///
    /// Returns whether the driver should prove (acknowledge) the underlying packet. It proves
    /// in-order and buffered frames, and re-proves duplicates (an unproven sender
    /// retransmits). It withholds the proof only where a frame would be dropped: a full inbox,
    /// or a full reorder buffer and a new gap-filler. Dropping a *proved* frame would lose it
    /// forever, so instead it stays unproven and the sender retransmits once there is room.
    /// This bounds the reorder buffer against a peer that streams only future sequences.
    #[must_use]
    pub fn handle(&mut self, envelope: Envelope) -> (prove: bool)
        requires
            old(self)@.wf(),
        ensures
            final(self)@.wf(),
            prove == old(self)@.proves(envelope.sequence, QUEUE as nat, REORDER as nat),
            final(self)@ == old(self)@.after_handle(
                envelope.sequence,
                envelope.payload@,
                QUEUE as nat,
                REORDER as nat,
            ),
    {
        let ghost before = self@;
        let sequence: u16 = envelope.sequence;
        let ahead: u16 = sequence.wrapping_sub(self.recv_next);
        if ahead == 0 {
            let ghost had = self.inbox.view();
            // A full inbox means the application is not reading: backpressure.
            if self.inbox.len() >= QUEUE {
                return false;
            }
            let _ = self.inbox.push_back(envelope.payload);
            self.recv_next = self.recv_next.wrapping_add(1);
            proof {
                assert(payloads(had.push(envelope.payload)) =~= payloads(had).push(
                    envelope.payload@,
                ));
            }
            self.pull();
            proof {
                lemma_drained(before.after_delivery(envelope.payload@), QUEUE as nat);
            }
            true
        } else if (ahead as u32) < SEQ_MODULUS / 2 {
            let ghost held = self.reorder.view();
            proof {
                lemma_held_rows(held, sequence);
            }
            // A future sequence within the forward half of the space: hold it, unless the
            // reorder buffer is full of other gap-fillers and this is a new one.
            if self.reorder.contains_key(sequence) {
                return true;
            }
            if self.reorder.len() >= REORDER {
                return false;
            }
            let _ = self.reorder.insert(sequence, envelope.payload);
            proof {
                assert(held_rows(held.push((sequence, envelope.payload))) =~= held_rows(held).push(
                    (sequence, envelope.payload@),
                ));
            }
            true
        } else {
            // Behind `recv_next`: an already-delivered duplicate. Drop the payload but prove
            // it — the sender retransmitted because the earlier proof did not arrive.
            true
        }
    }

    /// Pull what is held and now in order into the inbox, stopping if the inbox fills so the
    /// rest stays held rather than dropped.
    fn pull(&mut self)
        ensures
            final(self)@ == old(self)@.drained(QUEUE as nat),
    {
        let ghost before = self@;
        let mut more = self.inbox.len() < QUEUE;
        while more
            invariant
                more ==> self@.inbox.len() < QUEUE,
                self@.drained(QUEUE as nat) == before.drained(QUEUE as nat),
                !more ==> self@.drained(QUEUE as nat) == self@,
            decreases self@.reorder.len(), (if more { 1int } else { 0int }),
        {
            let ghost here = self@;
            let ghost held = self.reorder.view();
            let ghost had = self.inbox.view();
            proof {
                lemma_held_rows(held, self.recv_next);
                lemma_row_of(held, self.recv_next);
            }
            match self.reorder.remove(self.recv_next) {
                None => {
                    more = false;
                },
                Some(next) => {
                    let _ = self.inbox.push_back(next);
                    self.recv_next = self.recv_next.wrapping_add(1);
                    more = self.inbox.len() < QUEUE;
                    proof {
                        let i = row_of(held, here.recv_next)->0;
                        assert(held_rows(without_row(held, i)) =~= without_row(held_rows(held), i));
                        assert(payloads(had.push(next)) =~= payloads(had).push(next@));
                    }
                },
            }
        }
    }

    /// The next in-order application payload, if one is ready. Taking it makes room, so what
    /// is held and now in order moves into the inbox.
    pub fn recv(&mut self) -> (payload: Option<Vec<u8>>)
        ensures
            match payload {
                Some(p) => old(self)@.inbox.len() > 0 && p@ == old(self)@.inbox[0] && final(self)@
                    == old(self)@.after_recv(QUEUE as nat),
                None => old(self)@.inbox.len() == 0 && final(self)@ == old(self)@,
            },
    {
        let ghost had = self.inbox.view();
        let payload = self.inbox.pop_front();
        proof {
            if had.len() > 0 {
                assert(payloads(had.subrange(1, had.len() as int)) =~= payloads(had).subrange(
                    1,
                    had.len() as int,
                ));
            }
        }
        if payload.is_some() {
            self.pull();
        }
        payload
    }

    /// Whether everything queued to send has been sent and proven.
    pub fn send_idle(&self) -> (idle: bool)
        ensures
            idle == (self@.outgoing.len() == 0 && self@.outstanding.len() == 0),
    {
        self.outgoing.len() == 0 && self.outstanding.len() == 0
    }

    /// Count of in-flight, unproven envelopes.
    pub fn in_flight(&self) -> (n: usize)
        ensures
            n == self@.outstanding.len(),
    {
        self.outstanding.len()
    }
}

// ---------------------------------------------------------------------------------------
// The byte stream.
/// Default per-frame chunk: [`MAX_DATA_LEN`], the most stream bytes that fit in one link data
/// packet after the envelope and stream headers.
pub const DEFAULT_CHUNK: usize = MAX_DATA_LEN;

/// The state of a byte stream.
pub struct BufferModel {
    pub channel: ChannelModel,
    /// The most bytes in a frame.
    pub max_chunk: nat,
    pub send_stream_id: u16,
    pub recv_stream_id: u16,
    /// Bytes decoded from delivered frames, awaiting the reader.
    pub read_buf: Seq<u8>,
    pub recv_eof: bool,
    pub saw_unsupported: bool,
}

/// A stream id, as far as the header holds it.
pub open spec fn clamped_id(id: u16) -> u16 {
    if id > STREAM_ID_MAX {
        STREAM_ID_MAX
    } else {
        id
    }
}

/// The same, at run time.
fn clamp_id(id: u16) -> (clamped: u16)
    ensures
        clamped == clamped_id(id),
{
    if id > STREAM_ID_MAX {
        STREAM_ID_MAX
    } else {
        id
    }
}

impl BufferModel {
    /// A stream over a channel.
    pub open spec fn over(
        channel: ChannelModel,
        max_chunk: nat,
        send_stream_id: u16,
        recv_stream_id: u16,
    ) -> BufferModel {
        BufferModel {
            channel,
            max_chunk: if max_chunk < 1 {
                1
            } else if max_chunk > MAX_DATA_LEN {
                MAX_DATA_LEN as nat
            } else {
                max_chunk
            },
            send_stream_id: clamped_id(send_stream_id),
            recv_stream_id: clamped_id(recv_stream_id),
            read_buf: Seq::empty(),
            recv_eof: false,
            saw_unsupported: false,
        }
    }

    /// What a stream keeps true.
    pub open spec fn wf(self) -> bool {
        self.channel.wf() && 1 <= self.max_chunk <= MAX_DATA_LEN && self.send_stream_id
            <= STREAM_ID_MAX && self.recv_stream_id <= STREAM_ID_MAX
    }

    /// The frame that carries a chunk.
    pub open spec fn frame(self, data: Seq<u8>, eof: bool) -> FrameModel {
        FrameModel { stream_id: self.send_stream_id, eof, compressed: false, data }
    }

    /// After a frame was queued.
    pub open spec fn after_frame(self, data: Seq<u8>, eof: bool) -> BufferModel {
        BufferModel {
            channel: ChannelModel {
                outgoing: self.channel.outgoing.push(self.frame(data, eof).wire()),
                ..self.channel
            },
            ..self
        }
    }

    /// How long the first chunk of some bytes is.
    pub open spec fn chunk(self, len: nat) -> nat {
        if len < self.max_chunk {
            len
        } else {
            self.max_chunk
        }
    }

    /// After bytes were written: chunk by chunk, until the send queue is full.
    pub open spec fn after_write(self, bytes: Seq<u8>, queue: nat) -> BufferModel
        decreases bytes.len(),
    {
        let n = self.chunk(bytes.len());
        if n == 0 || self.channel.outgoing.len() >= queue {
            self
        } else {
            self.after_frame(bytes.subrange(0, n as int), false).after_write(
                bytes.subrange(n as int, bytes.len() as int),
                queue,
            )
        }
    }

    /// How many bytes a write accepts: all, or as many as there is room for in whole chunks.
    pub open spec fn accepted(self, bytes: nat, queue: nat) -> nat {
        let room = if self.channel.outgoing.len() < queue {
            (queue - self.channel.outgoing.len()) as nat
        } else {
            0
        };
        if bytes < room * self.max_chunk {
            bytes
        } else {
            room * self.max_chunk
        }
    }

    /// After one delivered message was read. One that spells no frame, or a frame of another
    /// stream on the same channel, is passed over. A compressed frame is flagged, and its
    /// bytes are not taken for data.
    pub open spec fn after_message(self, message: Seq<u8>) -> BufferModel {
        match frame_in(message) {
            None => self,
            Some(f) => if f.stream_id != self.recv_stream_id {
                self
            } else {
                BufferModel {
                    saw_unsupported: self.saw_unsupported || f.compressed,
                    read_buf: if f.compressed {
                        self.read_buf
                    } else {
                        self.read_buf + f.data
                    },
                    recv_eof: self.recv_eof || f.eof,
                    ..self
                }
            },
        }
    }

    /// With the first delivered message taken from the channel.
    pub open spec fn without_first(self, queue: nat) -> BufferModel {
        BufferModel { channel: self.channel.after_recv(queue), ..self }
    }

    /// After the delivered messages were read, as long as the reader is not too far behind.
    /// What is left stays in the channel's bounded inbox, which then withholds proofs, which
    /// stops the peer.
    pub open spec fn drained(self, queue: nat, read_bytes: nat) -> BufferModel
        decreases self.channel.inbox.len() + self.channel.reorder.len(),
    {
        if self.read_buf.len() < read_bytes && self.channel.inbox.len() > 0 {
            proof {
                lemma_recv_takes_one(self.channel, queue);
            }
            self.without_first(queue).after_message(self.channel.inbox[0]).drained(
                queue,
                read_bytes,
            )
        } else {
            self
        }
    }

    /// After every delivered message was read.
    pub open spec fn emptied(self, queue: nat) -> BufferModel
        decreases self.channel.inbox.len() + self.channel.reorder.len(),
    {
        if self.channel.inbox.len() > 0 {
            proof {
                lemma_recv_takes_one(self.channel, queue);
            }
            self.without_first(queue).after_message(self.channel.inbox[0]).emptied(queue)
        } else {
            self
        }
    }

    /// After `n` bytes were handed to the reader.
    pub open spec fn after_read(self, n: nat) -> BufferModel {
        BufferModel {
            read_buf: self.read_buf.subrange(n as int, self.read_buf.len() as int),
            ..self
        }
    }
}

/// A byte stream over a reliable [`Channel`]. Each write chunk is a [`StreamFrame`] (stream id
/// + eof + data) carried in a [`Channel`] envelope under [`STREAM_MSGTYPE`]; [`Buffer::read`]
/// concatenates delivered frames' data in order. The stream-shaped, reliable face of
/// `Channel`, for a driver that pumps [`Buffer::poll_transmit`] / [`Buffer::handle`] /
/// [`Buffer::on_proof`] against the wire.
///
/// The stream is multiplexable: a buffer sends on `send_stream_id` and reads only frames
/// tagged with `recv_stream_id`, so one `Channel` carries several streams. [`Buffer::finish`]
/// marks the send stream done with an eof frame; [`Buffer::recv_finished`] reports the peer's
/// eof.
///
/// Compression is not wired: the compressed flag is never set on send, and a compressed frame
/// is left undecoded rather than appended as garbage. [`Buffer::had_unsupported_frame`]
/// surfaces that it happened.
pub struct Buffer<
    const WINDOW: usize,
    const QUEUE: usize,
    const REORDER: usize,
    const READ_BYTES: usize,
> {
    channel: Channel<WINDOW, QUEUE, REORDER>,
    max_chunk: usize,
    send_stream_id: u16,
    recv_stream_id: u16,
    read_buf: VecDeque<u8>,
    recv_eof: bool,
    saw_unsupported: bool,
}

impl<
    const WINDOW: usize,
    const QUEUE: usize,
    const REORDER: usize,
    const READ_BYTES: usize,
> View for Buffer<WINDOW, QUEUE, REORDER, READ_BYTES> {
    type V = BufferModel;

    closed spec fn view(&self) -> BufferModel {
        BufferModel {
            channel: self.channel@,
            max_chunk: self.max_chunk as nat,
            send_stream_id: self.send_stream_id,
            recv_stream_id: self.recv_stream_id,
            read_buf: self.read_buf@,
            recv_eof: self.recv_eof,
            saw_unsupported: self.saw_unsupported,
        }
    }
}

impl<
    const WINDOW: usize,
    const QUEUE: usize,
    const REORDER: usize,
    const READ_BYTES: usize,
> Default for Buffer<WINDOW, QUEUE, REORDER, READ_BYTES> {
    fn default() -> (buffer: Self)
        ensures
            buffer@.wf(),
            buffer@ == BufferModel::over(
                dynamic_channel(STREAM_MSGTYPE, WINDOW as nat),
                DEFAULT_CHUNK as nat,
                0,
                0,
            ),
    {
        Self::new()
    }
}

impl<
    const WINDOW: usize,
    const QUEUE: usize,
    const REORDER: usize,
    const READ_BYTES: usize,
> Buffer<WINDOW, QUEUE, REORDER, READ_BYTES> {
    /// A buffer with the default channel and chunk size, stream id 0 both ways.
    pub fn new() -> (buffer: Self)
        ensures
            buffer@.wf(),
            buffer@ == BufferModel::over(
                dynamic_channel(STREAM_MSGTYPE, WINDOW as nat),
                DEFAULT_CHUNK as nat,
                0,
                0,
            ),
    {
        Self::with_channel(Channel::new(STREAM_MSGTYPE), DEFAULT_CHUNK)
    }

    /// A default dynamic channel with an explicit application chunk ceiling.
    pub fn with_max_chunk(max_chunk: usize) -> (buffer: Self)
        ensures
            buffer@.wf(),
            buffer@ == BufferModel::over(
                dynamic_channel(STREAM_MSGTYPE, WINDOW as nat),
                max_chunk as nat,
                0,
                0,
            ),
    {
        Self::with_channel(Channel::new(STREAM_MSGTYPE), max_chunk)
    }

    /// A buffer whose channel starts with a medium-specific RTT estimate.
    pub fn with_initial_rtt(initial_rtt: u64) -> (buffer: Self)
        ensures
            buffer@.wf(),
            buffer@ == BufferModel::over(
                tuned(STREAM_MSGTYPE, initial_rtt, WINDOW_MAX, WINDOW as nat),
                DEFAULT_CHUNK as nat,
                0,
                0,
            ),
    {
        Self::with_channel(Channel::with_initial_rtt(STREAM_MSGTYPE, initial_rtt), DEFAULT_CHUNK)
    }

    /// A buffer whose dynamic channel is capped for the selected medium.
    pub fn with_initial_rtt_and_max_window(initial_rtt: u64, max_window: u32) -> (buffer: Self)
        ensures
            buffer@.wf(),
            buffer@ == BufferModel::over(
                tuned(STREAM_MSGTYPE, initial_rtt, max_window, WINDOW as nat),
                DEFAULT_CHUNK as nat,
                0,
                0,
            ),
    {
        Self::with_policy(initial_rtt, max_window, DEFAULT_CHUNK)
    }

    /// A buffer with explicit RTT, dynamic-window ceiling, and application chunk size.
    pub fn with_policy(initial_rtt: u64, max_window: u32, max_chunk: usize) -> (buffer: Self)
        ensures
            buffer@.wf(),
            buffer@ == BufferModel::over(
                tuned(STREAM_MSGTYPE, initial_rtt, max_window, WINDOW as nat),
                max_chunk as nat,
                0,
                0,
            ),
    {
        Self::with_channel(
            Channel::with_initial_rtt_and_max_window(STREAM_MSGTYPE, initial_rtt, max_window),
            max_chunk,
        )
    }

    /// A buffer over an explicit channel and chunk size, stream id 0 both ways.
    pub fn with_channel(channel: Channel<WINDOW, QUEUE, REORDER>, max_chunk: usize) -> (buffer:
        Self)
        requires
            channel@.wf(),
        ensures
            buffer@.wf(),
            buffer@ == BufferModel::over(channel@, max_chunk as nat, 0, 0),
    {
        Self::with_streams(channel, max_chunk, 0, 0)
    }

    /// A buffer with explicit send / receive stream ids (each clamped to [`STREAM_ID_MAX`]) —
    /// one channel multiplexing distinct streams.
    pub fn with_streams(
        channel: Channel<WINDOW, QUEUE, REORDER>,
        max_chunk: usize,
        send_stream_id: u16,
        recv_stream_id: u16,
    ) -> (buffer: Self)
        requires
            channel@.wf(),
        ensures
            buffer@.wf(),
            buffer@ == BufferModel::over(
                channel@,
                max_chunk as nat,
                send_stream_id,
                recv_stream_id,
            ),
    {
        Buffer {
            channel,
            max_chunk: if max_chunk < 1 {
                1
            } else if max_chunk > MAX_DATA_LEN {
                MAX_DATA_LEN
            } else {
                max_chunk
            },
            send_stream_id: clamp_id(send_stream_id),
            recv_stream_id: clamp_id(recv_stream_id),
            read_buf: VecDeque::new(),
            recv_eof: false,
            saw_unsupported: false,
        }
    }

    /// Queue bytes for reliable, in-order delivery, chunked into [`StreamFrame`]s.
    ///
    /// Returns how many bytes were accepted, which is fewer than `bytes.len()` when the send
    /// queue fills. A caller writing faster than the link drains is told so, rather than
    /// growing the queue without limit. Chunking means the split is always on a frame
    /// boundary, so a partial accept never tears a frame.
    #[must_use]
    pub fn write(&mut self, bytes: &[u8]) -> (accepted: usize)
        requires
            old(self)@.wf(),
        ensures
            final(self)@.wf(),
            accepted == old(self)@.accepted(bytes@.len(), QUEUE as nat),
            final(self)@ == old(self)@.after_write(bytes@, QUEUE as nat),
    {
        let ghost before = self@;
        let mut accepted: usize = 0;
        proof {
            assert(bytes@.subrange(0, bytes@.len() as int) =~= bytes@);
        }
        let mut full = false;
        while accepted < bytes.len() && !full
            invariant
                accepted <= bytes.len(),
                self@.wf(),
                accepted + self@.accepted((bytes@.len() - accepted) as nat, QUEUE as nat)
                    == before.accepted(bytes@.len(), QUEUE as nat),
                self@.after_write(
                    bytes@.subrange(accepted as int, bytes@.len() as int),
                    QUEUE as nat,
                ) == before.after_write(bytes@, QUEUE as nat),
                full ==> self@.channel.outgoing.len() >= QUEUE,
            decreases bytes.len() - accepted, (if full { 0int } else { 1int }),
        {
            let ghost here = self@;
            let ghost rest = bytes@.subrange(accepted as int, bytes@.len() as int);
            let n: usize = if bytes.len() - accepted < self.max_chunk {
                bytes.len() - accepted
            } else {
                self.max_chunk
            };
            let chunk = bytes::copy_range(bytes, accepted, accepted + n);
            proof {
                assert(chunk@ =~= rest.subrange(0, n as int));
                assert(rest.subrange(n as int, rest.len() as int) =~= bytes@.subrange(
                    accepted + n,
                    bytes@.len() as int,
                ));
                lemma_accepted_step(here, rest.len(), QUEUE as nat);
            }
            if self.send_frame(chunk, false) {
                accepted = accepted + n;
            } else {
                full = true;
            }
        }
        proof {
            if full {
                assert(self@.accepted((bytes@.len() - accepted) as nat, QUEUE as nat) == 0)
                    by (nonlinear_arith)
                    requires
                        self@.channel.outgoing.len() >= QUEUE,
                ;
            } else {
                let room = if self@.channel.outgoing.len() < QUEUE {
                    (QUEUE - self@.channel.outgoing.len()) as nat
                } else {
                    0
                };
                assert(room * self@.max_chunk >= 0) by (nonlinear_arith);
            }
        }
        accepted
    }

    /// Mark the send stream finished: queue an empty eof frame.
    ///
    /// Returns whether the eof frame was queued; a full send queue refuses it, and the caller
    /// retries once [`Buffer::poll_transmit`] has drained room.
    pub fn finish(&mut self) -> (queued: bool)
        requires
            old(self)@.wf(),
        ensures
            final(self)@.wf(),
            queued == (old(self)@.channel.outgoing.len() < QUEUE),
            queued ==> final(self)@ == old(self)@.after_frame(Seq::empty(), true),
            !queued ==> final(self)@ == old(self)@,
    {
        let empty: Vec<u8> = Vec::new();
        proof {
            assert(empty@ =~= Seq::<u8>::empty());
        }
        self.send_frame(empty, true)
    }

    /// Queue one frame; `false` if the send queue is full.
    fn send_frame(&mut self, data: Vec<u8>, eof: bool) -> (queued: bool)
        requires
            old(self)@.wf(),
        ensures
            final(self)@.wf(),
            queued == (old(self)@.channel.outgoing.len() < QUEUE),
            queued ==> final(self)@ == old(self)@.after_frame(data@, eof),
            !queued ==> final(self)@ == old(self)@,
    {
        let frame = StreamFrame { stream_id: self.send_stream_id, eof, compressed: false, data };
        match self.channel.send(frame.encode()) {
            Ok(()) => true,
            Err(_) => false,
        }
    }

    /// Read one delivered message into the read buffer. `false` if there is none.
    fn read_message(&mut self) -> (found: bool)
        requires
            old(self)@.wf(),
        ensures
            final(self)@.wf(),
            found == (old(self)@.channel.inbox.len() > 0),
            final(self)@ == (if found {
                old(self)@.without_first(QUEUE as nat).after_message(old(self)@.channel.inbox[0])
            } else {
                old(self)@
            }),
    {
        let ghost here = self@;
        match self.channel.recv() {
            None => false,
            Some(message) => {
                if let Some(frame) = StreamFrame::decode(message.as_slice()) {
                    if frame.stream_id == self.recv_stream_id {
                        if frame.compressed {
                            self.saw_unsupported = true;
                        } else {
                            self.append(frame.data.as_slice());
                        }
                        if frame.eof {
                            self.recv_eof = true;
                        }
                    }
                }
                proof {
                    let left = ChannelModel {
                        inbox: here.channel.inbox.subrange(1, here.channel.inbox.len() as int),
                        ..here.channel
                    };
                    lemma_drained(left, QUEUE as nat);
                }
                true
            },
        }
    }

    /// Read delivered messages into the read buffer, as long as the reader is not too far
    /// behind.
    fn fill(&mut self)
        requires
            old(self)@.wf(),
        ensures
            final(self)@.wf(),
            final(self)@ == old(self)@.drained(QUEUE as nat, READ_BYTES as nat),
    {
        let ghost before = self@;
        let mut more = true;
        while more && self.read_buf.len() < READ_BYTES
            invariant
                self@.wf(),
                self@.drained(QUEUE as nat, READ_BYTES as nat) == before.drained(
                    QUEUE as nat,
                    READ_BYTES as nat,
                ),
                !more ==> self@.channel.inbox.len() == 0,
            decreases
                self@.channel.inbox.len() + self@.channel.reorder.len(),
                (if more { 1int } else { 0int }),
        {
            proof {
                if self@.channel.inbox.len() > 0 {
                    lemma_recv_takes_one(self@.channel, QUEUE as nat);
                }
            }
            more = self.read_message();
        }
    }

    /// Add bytes for the reader.
    fn append(&mut self, data: &[u8])
        ensures
            final(self)@ == (BufferModel {
                read_buf: old(self)@.read_buf + data@,
                ..old(self)@
            }),
    {
        let ghost before = self@;
        let mut i: usize = 0;
        proof {
            assert(before.read_buf + data@.subrange(0, 0) =~= before.read_buf);
        }
        while i < data.len()
            invariant
                i <= data.len(),
                self@ == (BufferModel {
                    read_buf: before.read_buf + data@.subrange(0, i as int),
                    ..before
                }),
            decreases data.len() - i,
        {
            self.read_buf.push_back(data[i]);
            proof {
                assert((before.read_buf + data@.subrange(0, i as int)).push(data@[i as int])
                    =~= before.read_buf + data@.subrange(0, i + 1));
            }
            i += 1;
        }
        proof {
            assert(data@.subrange(0, i as int) =~= data@);
        }
    }

    /// Take the first `n` bytes that wait for the reader.
    fn take(&mut self, n: usize) -> (taken: Vec<u8>)
        requires
            n <= old(self)@.read_buf.len(),
        ensures
            taken@ == old(self)@.read_buf.subrange(0, n as int),
            final(self)@ == old(self)@.after_read(n as nat),
    {
        let ghost before = self@;
        let mut taken: Vec<u8> = Vec::new();
        proof {
            assert(before.read_buf.subrange(0, before.read_buf.len() as int) =~= before.read_buf);
        }
        while taken.len() < n
            invariant
                taken@.len() <= n <= before.read_buf.len(),
                taken@ == before.read_buf.subrange(0, taken@.len() as int),
                self@ == before.after_read(taken@.len()),
            decreases n - taken.len(),
        {
            let ghost had = taken@;
            if let Some(byte) = self.read_buf.pop_front() {
                taken.push(byte);
            }
            proof {
                assert(taken@ =~= before.read_buf.subrange(0, had.len() as int + 1));
                assert(self@.read_buf =~= before.read_buf.subrange(
                    had.len() as int + 1,
                    before.read_buf.len() as int,
                ));
            }
        }
        taken
    }

    /// Copy up to `out.len()` delivered bytes into `out`, returning the count read.
    pub fn read(&mut self, out: &mut [u8]) -> (n: usize)
        requires
            old(self)@.wf(),
        ensures
            final(self)@.wf(),
            ({
                let all = old(self)@.drained(QUEUE as nat, READ_BYTES as nat);
                &&& n == (if old(out)@.len() < all.read_buf.len() {
                    old(out)@.len()
                } else {
                    all.read_buf.len()
                })
                &&& final(self)@ == all.after_read(n as nat)
                &&& final(out)@ == all.read_buf.subrange(0, n as int) + old(out)@.subrange(
                    n as int,
                    old(out)@.len() as int,
                )
            }),
    {
        self.fill();
        let n: usize = if out.len() < self.read_buf.len() {
            out.len()
        } else {
            self.read_buf.len()
        };
        let taken = self.take(n);
        let ghost before = out@;
        let mut i: usize = 0;
        while i < n
            invariant
                i <= n,
                n == taken@.len(),
                n <= before.len(),
                out@.len() == before.len(),
                forall|j: int| 0 <= j < i ==> #[trigger] out@[j] == taken@[j],
                forall|j: int| i <= j < out@.len() ==> #[trigger] out@[j] == before[j],
            decreases n - i,
        {
            out[i] = taken[i];
            i += 1;
        }
        proof {
            assert(out@ =~= taken@ + before.subrange(n as int, before.len() as int));
        }
        n
    }

    /// Take all currently-available delivered bytes, however far behind the reader is.
    pub fn read_available(&mut self) -> (taken: Vec<u8>)
        requires
            old(self)@.wf(),
        ensures
            final(self)@.wf(),
            taken@ == old(self)@.emptied(QUEUE as nat).read_buf,
            final(self)@ == (BufferModel {
                read_buf: Seq::empty(),
                ..old(self)@.emptied(QUEUE as nat)
            }),
    {
        let ghost before = self@;
        let mut more = true;
        while more
            invariant
                self@.wf(),
                self@.emptied(QUEUE as nat) == before.emptied(QUEUE as nat),
                !more ==> self@.channel.inbox.len() == 0,
            decreases
                self@.channel.inbox.len() + self@.channel.reorder.len(),
                (if more { 1int } else { 0int }),
        {
            proof {
                if self@.channel.inbox.len() > 0 {
                    lemma_recv_takes_one(self@.channel, QUEUE as nat);
                }
            }
            more = self.read_message();
        }
        let n: usize = self.read_buf.len();
        let ghost all = self@.read_buf;
        proof {
            assert(all.subrange(0, n as int) =~= all);
            assert(all.subrange(n as int, n as int) =~= Seq::<u8>::empty());
        }
        self.take(n)
    }

    /// Whether the peer has signalled end-of-stream (an eof frame on `recv_stream_id`).
    pub fn recv_finished(&mut self) -> (finished: bool)
        requires
            old(self)@.wf(),
        ensures
            final(self)@.wf(),
            final(self)@ == old(self)@.drained(QUEUE as nat, READ_BYTES as nat),
            finished == final(self)@.recv_eof,
    {
        self.fill();
        self.recv_eof
    }

    /// Whether a frame arrived that this buffer could not decode (today: a compressed frame).
    /// Its bytes were dropped rather than corrupting the stream.
    pub fn had_unsupported_frame(&self) -> (had: bool)
        ensures
            had == self@.saw_unsupported,
    {
        self.saw_unsupported
    }

    /// Envelopes to put on the wire now — see [`Channel::poll_transmit`].
    pub fn poll_transmit(&mut self, now: u64) -> (out: Vec<Envelope>)
        requires
            old(self)@.wf(),
        ensures
            final(self)@.wf(),
            envelopes(out@) == old(self)@.channel.transmitted(WINDOW as nat, now),
            final(self)@ == (BufferModel {
                channel: old(self)@.channel.after_transmit(WINDOW as nat, now),
                ..old(self)@
            }),
    {
        self.channel.poll_transmit(now)
    }

    /// Feed a received envelope in — see [`Channel::handle`]. Returns whether the driver
    /// should prove the packet.
    #[must_use]
    pub fn handle(&mut self, envelope: Envelope) -> (prove: bool)
        requires
            old(self)@.wf(),
        ensures
            final(self)@.wf(),
            prove == old(self)@.channel.proves(
                envelope.sequence,
                QUEUE as nat,
                REORDER as nat,
            ),
            final(self)@ == (BufferModel {
                channel: old(self)@.channel.after_handle(
                    envelope.sequence,
                    envelope.payload@,
                    QUEUE as nat,
                    REORDER as nat,
                ),
                ..old(self)@
            }),
    {
        self.channel.handle(envelope)
    }

    /// Release a proven sequence — see [`Channel::on_proof`].
    pub fn on_proof(&mut self, sequence: u16, now: u64)
        requires
            old(self)@.wf(),
        ensures
            final(self)@.wf(),
            final(self)@ == (BufferModel {
                channel: old(self)@.channel.after_proof(sequence, now),
                ..old(self)@
            }),
    {
        self.channel.on_proof(sequence, now);
    }

    /// The current send window — see [`Channel::window`].
    pub fn window(&self) -> (window: u32)
        ensures
            window == self@.channel.window,
    {
        self.channel.window()
    }

    /// Whether everything written has been sent and proven.
    pub fn send_idle(&self) -> (idle: bool)
        ensures
            idle == (self@.channel.outgoing.len() == 0 && self@.channel.outstanding.len() == 0),
    {
        self.channel.send_idle()
    }
}

/// What is accepted of a write is its first chunk and what is accepted of the rest.
proof fn lemma_accepted_step(b: BufferModel, len: nat, queue: nat)
    requires
        b.wf(),
        len > 0,
    ensures
        b.chunk(len) > 0,
        b.channel.outgoing.len() < queue ==> b.accepted(len, queue) == b.chunk(len)
            + b.after_frame(Seq::empty(), false).accepted((len - b.chunk(len)) as nat, queue),
        b.channel.outgoing.len() >= queue ==> b.accepted(len, queue) == 0,
{
    let c = b.max_chunk;
    if b.channel.outgoing.len() < queue {
        let room = (queue - b.channel.outgoing.len()) as nat;
        assert(room * c == c + (room - 1) * c) by (nonlinear_arith);
        assert((room - 1) * c >= 0) by (nonlinear_arith)
            requires
                room >= 1,
        ;
    } else {
        assert(0 * c == 0) by (nonlinear_arith);
    }
}

// ---------------------------------------------------------------------------------------
// Laws.
/// A withheld proof changes nothing: the frame that was not taken leaves no trace, and the
/// sender will send it again.
pub proof fn law_withheld_frame_leaves_no_trace(
    m: ChannelModel,
    sequence: u16,
    payload: Seq<u8>,
    queue: nat,
    reorder: nat,
)
    requires
        !m.proves(sequence, queue, reorder),
    ensures
        m.after_handle(sequence, payload, queue, reorder) == m,
{
}

/// What `drained` leaves alone, and what it does to the inbox.
proof fn lemma_drained(m: ChannelModel, queue: nat)
    ensures
        m.inbox.len() <= m.drained(queue).inbox.len(),
        m.drained(queue).inbox.subrange(0, m.inbox.len() as int) == m.inbox,
        m.drained(queue) == (ChannelModel {
            inbox: m.drained(queue).inbox,
            recv_next: m.drained(queue).recv_next,
            reorder: m.drained(queue).reorder,
            ..m
        }),
        m.inbox.len() <= queue ==> m.drained(queue).inbox.len() <= queue,
        m.drained(queue).reorder.len() <= m.reorder.len(),
        m.drained(queue).inbox.len() + m.drained(queue).reorder.len() == m.inbox.len()
            + m.reorder.len(),
        m.drained(queue).settled(queue),
        m.drained(queue).ready() == m.ready(),
    decreases m.reorder.len(),
{
    lemma_row_of(m.reorder, m.recv_next);
    assert(m.inbox.subrange(0, m.inbox.len() as int) =~= m.inbox);
    if let Some(i) = row_of(m.reorder, m.recv_next) {
        if m.inbox.len() < queue && 0 <= i < m.reorder.len() {
            let next = ChannelModel {
                reorder: without_row(m.reorder, i),
                ..m
            }.after_delivery(m.reorder[i].1);
            lemma_drained(next, queue);
            let end = next.drained(queue).inbox;
            assert(end.subrange(0, m.inbox.len() as int) =~= end.subrange(
                0,
                next.inbox.len() as int,
            ).subrange(0, m.inbox.len() as int));
            assert(next.inbox.subrange(0, m.inbox.len() as int) =~= m.inbox);
            assert(next.ready() =~= m.ready());
        }
    }
}

/// Taking one payload leaves one less of those that wait or are held.
pub proof fn lemma_recv_takes_one(m: ChannelModel, queue: nat)
    requires
        m.inbox.len() > 0,
    ensures
        m.after_recv(queue).inbox.len() + m.after_recv(queue).reorder.len() == m.inbox.len()
            + m.reorder.len() - 1,
{
    let left = ChannelModel { inbox: m.inbox.subrange(1, m.inbox.len() as int), ..m };
    lemma_drained(left, queue);
}

/// A proved frame is kept: it was delivered, or it is held for reordering, or it was delivered
/// before.
pub proof fn law_proved_frame_is_kept(
    m: ChannelModel,
    sequence: u16,
    payload: Seq<u8>,
    queue: nat,
    reorder: nat,
)
    requires
        m.proves(sequence, queue, reorder),
    ensures
        ({
            let after = m.after_handle(sequence, payload, queue, reorder);
            ||| m.ahead(sequence) == 0 && after.inbox.len() > m.inbox.len()
                && after.inbox[m.inbox.len() as int] == payload
            ||| 0 < m.ahead(sequence) < SEQ_MODULUS / 2 && row_of(after.reorder, sequence) is Some
            ||| m.ahead(sequence) >= SEQ_MODULUS / 2 && after == m
        }),
{
    if m.ahead(sequence) == 0 {
        let next = m.after_delivery(payload);
        lemma_drained(next, queue);
        let end = next.drained(queue).inbox;
        assert(end.subrange(0, next.inbox.len() as int)[m.inbox.len() as int] == payload);
    } else if m.ahead(sequence) < SEQ_MODULUS / 2 && row_of(m.reorder, sequence) is None {
        let after = m.reorder.push((sequence, payload));
        assert(after.last().0 == sequence);
    }
}

/// The tables stay within their bounds whatever the peer sends.
pub proof fn law_receiver_is_bounded(
    m: ChannelModel,
    sequence: u16,
    payload: Seq<u8>,
    queue: nat,
    reorder: nat,
)
    requires
        m.inbox.len() <= queue,
        m.reorder.len() <= reorder,
    ensures
        m.after_handle(sequence, payload, queue, reorder).inbox.len() <= queue,
        m.after_handle(sequence, payload, queue, reorder).reorder.len() <= reorder,
        m.inbox.len() > 0 ==> m.after_recv(queue).inbox.len() <= queue,
        m.inbox.len() > 0 ==> m.after_recv(queue).reorder.len() <= reorder,
{
    if m.ahead(sequence) == 0 {
        lemma_drained(m.after_delivery(payload), queue);
    }
    if m.inbox.len() > 0 {
        lemma_drained(
            ChannelModel { inbox: m.inbox.subrange(1, m.inbox.len() as int), ..m },
            queue,
        );
    }
}

/// A proved frame is not lost behind a full inbox: what is there in order is read in order,
/// one payload by each read, until nothing is left, and only then is there nothing to read.
pub proof fn law_ready_payloads_are_read(m: ChannelModel, queue: nat)
    requires
        m.settled(queue),
        queue > 0,
    ensures
        m.inbox.len() == 0 <==> m.ready().len() == 0,
        m.inbox.len() > 0 ==> {
            &&& m.inbox[0] == m.ready()[0]
            &&& m.after_recv(queue).ready() == m.ready().subrange(1, m.ready().len() as int)
            &&& m.after_recv(queue).settled(queue)
        },
{
    if m.inbox.len() > 0 {
        let left = ChannelModel { inbox: m.inbox.subrange(1, m.inbox.len() as int), ..m };
        lemma_drained(left, queue);
        assert(left.ready() =~= m.ready().subrange(1, m.ready().len() as int));
    }
}

/// Whatever arrives, nothing that is next is held back while the inbox has room, and what was
/// there in order is still there, first.
pub proof fn law_arrival_keeps_what_is_ready(
    m: ChannelModel,
    sequence: u16,
    payload: Seq<u8>,
    queue: nat,
    reorder: nat,
)
    requires
        m.settled(queue),
    ensures
        ({
            let after = m.after_handle(sequence, payload, queue, reorder);
            &&& after.settled(queue)
            &&& after.inbox.len() >= m.inbox.len()
            &&& after.inbox.subrange(0, m.inbox.len() as int) == m.inbox
        }),
{
    assert(m.inbox.subrange(0, m.inbox.len() as int) =~= m.inbox);
    if m.ahead(sequence) == 0 {
        let next = m.after_delivery(payload);
        lemma_drained(next, queue);
        let end = next.drained(queue).inbox;
        assert(end.subrange(0, m.inbox.len() as int) =~= end.subrange(
            0,
            next.inbox.len() as int,
        ).subrange(0, m.inbox.len() as int));
        assert(next.inbox.subrange(0, m.inbox.len() as int) =~= m.inbox);
    } else {
        let rows = m.reorder.push((sequence, payload));
        assert(rows.drop_last() =~= m.reorder);
        assert(row_of(rows, m.recv_next) == row_of(m.reorder, m.recv_next));
    }
}

/// A new channel holds nothing back, and sending leaves the receiver alone: what is
/// transmitted and what is proved change nothing of what is delivered or held.
pub proof fn law_sending_leaves_the_receiver_alone(
    m: ChannelModel,
    cap: nat,
    queue: nat,
    sequence: u16,
    now: u64,
)
    ensures
        ChannelModel::fresh(m.msgtype, m.window, m.retx_timeout).settled(queue),
        ({
            let sent = m.after_transmit(cap, now);
            let proved = m.after_proof(sequence, now);
            &&& sent.inbox == m.inbox && proved.inbox == m.inbox
            &&& sent.reorder == m.reorder && proved.reorder == m.reorder
            &&& sent.recv_next == m.recv_next && proved.recv_next == m.recv_next
        }),
{
    lemma_filled(m, cap, now);
}

/// Where in its stream a held sequence stands, if `count` payloads were delivered.
#[verifier::opaque]
pub open spec fn position(sequence: u16, count: nat) -> nat {
    (count + (sequence - count) % 65536) as nat
}

/// A position is the first from `count` on with the sequence.
proof fn lemma_position(sequence: u16, count: nat)
    ensures
        count <= position(sequence, count) < count + 65536,
        position(sequence, count) % 65536 == sequence,
        sequence == count % 65536 <==> position(sequence, count) == count,
{
    reveal(position);
}

/// The position of the sequence of a payload.
proof fn lemma_position_of(p: nat, count: nat)
    requires
        count <= p < count + 65536,
    ensures
        position((p % 65536) as u16, count) == p,
{
    reveal(position);
}

/// A position that is not passed stays.
proof fn lemma_position_step(sequence: u16, count: nat)
    requires
        sequence != count % 65536,
    ensures
        position(sequence, count + 1) == position(sequence, count),
{
    reveal(position);
}

impl ChannelModel {
    /// The channel has delivered the first `count` payloads of a stream, and what it holds are
    /// later payloads of it, the next among them only where the inbox has no room for it.
    pub open spec fn follows(
        self,
        stream: spec_fn(nat) -> Seq<u8>,
        count: nat,
        queue: nat,
    ) -> bool {
        &&& self.recv_next == count % 65536
        &&& self.settled(queue)
        &&& forall|i: int|
            0 <= i < self.reorder.len() ==> {
                let (key, payload) = #[trigger] self.reorder[i];
                payload == stream(position(key, count)) && count <= position(key, count) < count
                    + 32768
            }
        &&& forall|i: int, j: int|
            0 <= i < j < self.reorder.len() ==> (#[trigger] self.reorder[i]).0 != (
            #[trigger] self.reorder[j]).0
    }
}

/// Delivering the next payload of a stream moves one on in it.
proof fn lemma_follows_next(
    m: ChannelModel,
    stream: spec_fn(nat) -> Seq<u8>,
    count: nat,
    queue: nat,
)
    requires
        m.follows(stream, count, queue),
        forall|i: int|
            0 <= i < m.reorder.len() ==> (#[trigger] m.reorder[i]).0 != (count % 65536) as u16,
    ensures
        ({
            let next = ChannelModel { recv_next: m.recv_next.wrapping_add(1), ..m };
            &&& next.recv_next == (count + 1) % 65536
            &&& forall|i: int|
                0 <= i < m.reorder.len() ==> {
                    let (key, held) = #[trigger] m.reorder[i];
                    held == stream(position(key, count + 1)) && count + 1 <= position(
                        key,
                        count + 1,
                    ) < count + 1 + 32768
                }
        }),
{
    assert forall|i: int| 0 <= i < m.reorder.len() implies {
        let (key, held) = #[trigger] m.reorder[i];
        held == stream(position(key, count + 1)) && count + 1 <= position(key, count + 1) < count
            + 1 + 32768
    } by {
        let key = m.reorder[i].0;
        lemma_position(key, count);
        lemma_position_step(key, count);
    }
}

/// `drained` delivers the payloads of the stream that come next.
proof fn lemma_drained_follows(
    m: ChannelModel,
    stream: spec_fn(nat) -> Seq<u8>,
    count: nat,
    queue: nat,
)
    requires
        m.recv_next == count % 65536,
        forall|i: int|
            0 <= i < m.reorder.len() ==> {
                let (key, payload) = #[trigger] m.reorder[i];
                payload == stream(position(key, count)) && count <= position(key, count) < count
                    + 32768
            },
        forall|i: int, j: int|
            0 <= i < j < m.reorder.len() ==> (#[trigger] m.reorder[i]).0 != (
            #[trigger] m.reorder[j]).0,
    ensures
        ({
            let after = m.drained(queue);
            let n = (after.inbox.len() - m.inbox.len()) as nat;
            &&& after.inbox.len() >= m.inbox.len()
            &&& after.inbox == m.inbox + Seq::new(n, |i: int| stream((count + i) as nat))
            &&& after.recv_next == (count + n) % 65536
            &&& forall|i: int|
                0 <= i < after.reorder.len() ==> {
                    let (key, payload) = #[trigger] after.reorder[i];
                    payload == stream(position(key, count + n)) && count + n <= position(
                        key,
                        count + n,
                    ) < count + n + 32768
                }
            &&& forall|i: int, j: int|
                0 <= i < j < after.reorder.len() ==> (#[trigger] after.reorder[i]).0 != (
                #[trigger] after.reorder[j]).0
            &&& after.settled(queue)
        }),
    decreases m.reorder.len(),
{
    lemma_row_of(m.reorder, m.recv_next);
    let none = Seq::new(0, |i: int| stream((count + i) as nat));
    assert(m.inbox + none =~= m.inbox);
    if let Some(i) = row_of(m.reorder, m.recv_next) {
        if m.inbox.len() < queue {
            let rest = without_row(m.reorder, i);
            let next = ChannelModel { reorder: rest, ..m }.after_delivery(m.reorder[i].1);
            lemma_position(m.recv_next, count);
            assert(m.reorder[i].1 == stream(count));
            assert forall|k: int| 0 <= k < rest.len() implies {
                let (key, payload) = #[trigger] rest[k];
                payload == stream(position(key, count + 1)) && count + 1 <= position(
                    key,
                    count + 1,
                ) < count + 1 + 32768
            } by {
                let from = if k == i {
                    m.reorder.len() - 1
                } else {
                    k
                };
                assert(rest[k] == m.reorder[from]);
                let key = m.reorder[from].0;
                assert(from != i);
                assert(key != m.recv_next) by {
                    if from < i {
                        assert(m.reorder[from].0 != m.reorder[i].0);
                    } else {
                        assert(m.reorder[i].0 != m.reorder[from].0);
                    }
                }
                lemma_position(key, count);
                lemma_position_step(key, count);
            }
            assert forall|a: int, b: int| 0 <= a < b < rest.len() implies (#[trigger] rest[a]).0
                != (#[trigger] rest[b]).0 by {
                let last = m.reorder.len() - 1;
                let fa = if a == i {
                    last
                } else {
                    a
                };
                let fb = if b == i {
                    last
                } else {
                    b
                };
                assert(rest[a] == m.reorder[fa] && rest[b] == m.reorder[fb]);
                if fa < fb {
                    assert(m.reorder[fa].0 != m.reorder[fb].0);
                } else {
                    assert(m.reorder[fb].0 != m.reorder[fa].0);
                }
            }
            lemma_drained_follows(next, stream, count + 1, queue);
            let after = m.drained(queue);
            assert(after == next.drained(queue));
            let n = (after.inbox.len() - m.inbox.len()) as nat;
            let n1 = (after.inbox.len() - next.inbox.len()) as nat;
            assert(n == n1 + 1);
            assert(after.inbox =~= m.inbox + Seq::new(n, |i: int| stream((count + i) as nat))) by {
                let tail = Seq::new(n1, |i: int| stream((count + 1 + i) as nat));
                let whole = Seq::new(n, |i: int| stream((count + i) as nat));
                assert(after.inbox == next.inbox + tail);
                assert forall|k: int| 0 <= k < after.inbox.len() implies after.inbox[k] == (m.inbox
                    + whole)[k] by {
                    if k >= next.inbox.len() {
                        let t = k - next.inbox.len();
                        assert(after.inbox[k] == tail[t]);
                        assert(whole[t + 1] == stream((count + t + 1) as nat));
                    }
                }
            }
        }
    }
}

/// The payloads of a stream, one after another.
pub open spec fn stretch(stream: spec_fn(nat) -> Seq<u8>, from: nat, n: nat) -> Seq<Seq<u8>> {
    Seq::new(n, |i: int| stream((from + i) as nat))
}

/// The payload that is next is delivered, with what is held and comes after it.
proof fn lemma_next_in_order(
    m: ChannelModel,
    stream: spec_fn(nat) -> Seq<u8>,
    count: nat,
    queue: nat,
)
    requires
        m.follows(stream, count, queue),
        m.inbox.len() < queue,
    ensures
        ({
            let after = m.after_delivery(stream(count)).drained(queue);
            let n = (after.inbox.len() - m.inbox.len()) as nat;
            &&& after.inbox.len() >= m.inbox.len()
            &&& after.inbox == m.inbox + stretch(stream, count, n)
            &&& after.follows(stream, count + n, queue)
        }),
{
    let next = m.after_delivery(stream(count));
    lemma_row_of(m.reorder, m.recv_next);
    assert forall|i: int| 0 <= i < m.reorder.len() implies (#[trigger] m.reorder[i]).0 != (count
        % 65536) as u16 by {}
    lemma_follows_next(m, stream, count, queue);
    lemma_drained_follows(next, stream, count + 1, queue);
    let after = next.drained(queue);
    let n = (after.inbox.len() - m.inbox.len()) as nat;
    let n1 = (after.inbox.len() - next.inbox.len()) as nat;
    let tail = Seq::new(n1, |i: int| stream((count + 1 + i) as nat));
    let whole = stretch(stream, count, n);
    assert(after.inbox =~= m.inbox + whole) by {
        assert forall|k: int| 0 <= k < after.inbox.len() implies after.inbox[k] == (m.inbox
            + whole)[k] by {
            if k >= next.inbox.len() {
                let t = k - next.inbox.len();
                assert(after.inbox[k] == tail[t]);
                assert(whole[t + 1] == stream((count + t + 1) as nat));
            }
        }
    }
}

/// A payload that is not next yet is held.
proof fn lemma_later_is_held(
    m: ChannelModel,
    stream: spec_fn(nat) -> Seq<u8>,
    count: nat,
    p: nat,
    queue: nat,
)
    requires
        m.follows(stream, count, queue),
        count < p < count + 32768,
        row_of(m.reorder, (p % 65536) as u16) is None,
    ensures
        (ChannelModel {
            reorder: m.reorder.push(((p % 65536) as u16, stream(p))),
            ..m
        }).follows(stream, count, queue),
{
    let sequence = (p % 65536) as u16;
    let rows = m.reorder.push((sequence, stream(p)));
    lemma_position_of(p, count);
    lemma_position(sequence, count);
    lemma_row_of(m.reorder, sequence);
    assert(rows.drop_last() =~= m.reorder);
    assert forall|i: int| 0 <= i < rows.len() implies {
        let (key, payload) = #[trigger] rows[i];
        payload == stream(position(key, count)) && count <= position(key, count) < count + 32768
    } by {
        if i < m.reorder.len() {
            assert(rows[i] == m.reorder[i]);
        }
    }
    assert forall|i: int, j: int| 0 <= i < j < rows.len() implies (#[trigger] rows[i]).0 != (
    #[trigger] rows[j]).0 by {
        assert(rows[i] == m.reorder[i]);
        if j < m.reorder.len() {
            assert(rows[j] == m.reorder[j]);
        }
    }
}

/// Delivery is in order and without duplicates. A channel that has delivered the first `count`
/// payloads of a stream takes an envelope of that stream, whichever came before it: the inbox
/// grows by exactly the payloads that come next, and the channel still follows the stream.
/// Sequences wrap, so the envelope must be within half the sequence space of what is next, as
/// one within a send window is.
pub proof fn law_delivery_is_in_order(
    m: ChannelModel,
    stream: spec_fn(nat) -> Seq<u8>,
    count: nat,
    p: nat,
    queue: nat,
    reorder: nat,
)
    requires
        m.follows(stream, count, queue),
        count < p + 32768,
        p < count + 32768,
    ensures
        ({
            let after = m.after_handle((p % 65536) as u16, stream(p), queue, reorder);
            let n = (after.inbox.len() - m.inbox.len()) as nat;
            &&& after.inbox.len() >= m.inbox.len()
            &&& after.inbox == m.inbox + stretch(stream, count, n)
            &&& after.follows(stream, count + n, queue)
        }),
{
    let sequence = (p % 65536) as u16;
    let ahead = m.ahead(sequence);
    assert(m.inbox + stretch(stream, count, 0) =~= m.inbox);
    if p >= count {
        assert(ahead == p - count);
    } else {
        assert(ahead == 65536 + p - count);
    }
    if ahead == 0 {
        if m.inbox.len() < queue {
            lemma_next_in_order(m, stream, count, queue);
        }
    } else if ahead < 32768 && row_of(m.reorder, sequence) is None && m.reorder.len() < reorder {
        lemma_later_is_held(m, stream, count, p, queue);
    }
}

/// Reading keeps the order: behind what the inbox still holds come exactly the payloads of the
/// stream that were held and are next, and the channel still follows the stream.
pub proof fn law_reading_is_in_order(
    m: ChannelModel,
    stream: spec_fn(nat) -> Seq<u8>,
    count: nat,
    queue: nat,
)
    requires
        m.follows(stream, count, queue),
        m.inbox.len() > 0,
    ensures
        ({
            let after = m.after_recv(queue);
            let n = (after.inbox.len() - (m.inbox.len() - 1)) as nat;
            &&& after.inbox.len() >= m.inbox.len() - 1
            &&& after.inbox == m.inbox.subrange(1, m.inbox.len() as int) + stretch(
                stream,
                count,
                n,
            )
            &&& after.follows(stream, count + n, queue)
        }),
{
    let left = ChannelModel { inbox: m.inbox.subrange(1, m.inbox.len() as int), ..m };
    lemma_drained_follows(left, stream, count, queue);
}

/// Where in its stream a sequence in flight stands, if `next` payloads were given one.
#[verifier::opaque]
pub open spec fn sent_position(sequence: u16, next: nat) -> int {
    next - 1 - (next - 1 - sequence) % 65536
}

/// A position is the last before `next` with the sequence, and one more payload moves it only
/// where it has the same.
proof fn lemma_sent_position(sequence: u16, next: nat)
    ensures
        next - 65536 <= sent_position(sequence, next) < next,
        sent_position(sequence, next) % 65536 == sequence,
        sequence == next % 65536 ==> sent_position(sequence, next) == next - 65536,
        sent_position(sequence, next + 1) == (if sequence == next % 65536 {
            next as int
        } else {
            sent_position(sequence, next)
        }),
{
    reveal(sent_position);
}

impl ChannelModel {
    /// The channel has put the first `next` payloads of what it was given in flight, the rest
    /// wait, and what is unproven was put in flight under its place in the stream. No sequence
    /// in flight comes up for reuse within the next `slack` payloads.
    pub open spec fn issues(self, given: Seq<Seq<u8>>, next: nat, slack: nat) -> bool {
        &&& next <= given.len()
        &&& slack <= 65536
        &&& self.send_next == next % 65536
        &&& self.outgoing == given.subrange(next as int, given.len() as int)
        &&& forall|i: int|
            0 <= i < self.outstanding.len() ==> {
                let (key, o) = #[trigger] self.outstanding[i];
                let p = sent_position(key, next);
                0 <= p && next - p <= 65536 - slack && o.payload == given[p]
            }
    }
}

/// An envelope carries one of the first `next` payloads, under its place in the stream.
pub open spec fn carries(e: EnvelopeModel, given: Seq<Seq<u8>>, next: nat) -> bool {
    exists|p: int|
        0 <= p < next && e.sequence == p % 65536 && e.payload == #[trigger] given[p]
}

/// Putting one payload in flight.
proof fn lemma_launch_issues(
    m: ChannelModel,
    given: Seq<Seq<u8>>,
    next: nat,
    slack: nat,
    cap: nat,
    now: u64,
)
    requires
        m.issues(given, next, slack),
        m.has_window(cap),
        slack > 0,
    ensures
        m.after_launch(now).issues(given, next + 1, (slack - 1) as nat),
        m.after_launch(now).outstanding.len() == m.outstanding.len() + 1,
        m.next_envelope().sequence == next % 65536,
        m.next_envelope().payload == given[next as int],
{
    let after = m.after_launch(now);
    lemma_row_of(m.outstanding, m.send_next);
    if let Some(i) = row_of(m.outstanding, m.send_next) {
        lemma_sent_position(m.outstanding[i].0, next);
    }
    assert(after.outgoing =~= given.subrange(next as int + 1, given.len() as int));
    assert forall|i: int| 0 <= i < after.outstanding.len() implies {
        let (key, o) = #[trigger] after.outstanding[i];
        let p = sent_position(key, next + 1);
        0 <= p && next + 1 - p <= 65536 - (slack - 1) && o.payload == given[p]
    } by {
        lemma_sent_position(after.outstanding[i].0, next);
        if i < m.outstanding.len() {
            assert(after.outstanding[i] == m.outstanding[i]);
        }
    }
}

/// Filling the window puts the payloads that come next in flight.
proof fn lemma_fill_issues(
    m: ChannelModel,
    given: Seq<Seq<u8>>,
    next: nat,
    slack: nat,
    cap: nat,
    now: u64,
)
    requires
        m.issues(given, next, slack),
        m.outstanding.len() < m.window ==> m.window - m.outstanding.len() <= slack,
    ensures
        ({
            let k = m.launched(cap, now).len();
            &&& next + k <= given.len()
            &&& k <= slack
            &&& m.filled(cap, now).issues(given, next + k, (slack - k) as nat)
            &&& forall|i: int|
                0 <= i < k ==> (#[trigger] m.launched(cap, now)[i]).sequence == (next + i) % 65536
                    && m.launched(cap, now)[i].payload == given[next + i]
        }),
    decreases m.outgoing.len(),
{
    if m.has_window(cap) {
        lemma_launch_issues(m, given, next, slack, cap, now);
        let after = m.after_launch(now);
        lemma_fill_issues(after, given, next + 1, (slack - 1) as nat, cap, now);
        let rest = after.launched(cap, now);
        let all = m.launched(cap, now);
        assert(all == seq![m.next_envelope()] + rest);
        assert forall|i: int| 0 <= i < all.len() implies (#[trigger] all[i]).sequence == (next + i)
            % 65536 && all[i].payload == given[next + i] by {
            if i > 0 {
                assert(all[i] == rest[i - 1]);
            }
        }
    }
}

/// What is due is in flight.
proof fn lemma_due(
    rows: Seq<(u16, OutstandingModel)>,
    msgtype: u16,
    now: u64,
    timeout: u64,
)
    ensures
        forall|i: int|
            0 <= i < due(rows, msgtype, now, timeout).len() ==> exists|j: int|
                0 <= j < rows.len() && #[trigger] due(rows, msgtype, now, timeout)[i] == (
                EnvelopeModel {
                    msgtype,
                    sequence: (#[trigger] rows[j]).0,
                    payload: rows[j].1.payload,
                }),
        forall|j: int|
            0 <= j < rows.len() && since(now, (#[trigger] rows[j]).1.last_tx) >= timeout ==> due(
                rows,
                msgtype,
                now,
                timeout,
            ).contains(
                EnvelopeModel { msgtype, sequence: rows[j].0, payload: rows[j].1.payload },
            ),
    decreases rows.len(),
{
    if rows.len() > 0 {
        let before = rows.drop_last();
        lemma_due(before, msgtype, now, timeout);
        let old_due = due(before, msgtype, now, timeout);
        let all = due(rows, msgtype, now, timeout);
        let n = rows.len() - 1;
        assert forall|i: int| 0 <= i < all.len() implies exists|j: int|
            0 <= j < rows.len() && #[trigger] all[i] == (EnvelopeModel {
                msgtype,
                sequence: (#[trigger] rows[j]).0,
                payload: rows[j].1.payload,
            }) by {
            if i < old_due.len() {
                assert(all[i] == old_due[i]);
                let j = choose|j: int|
                    0 <= j < before.len() && old_due[i] == (EnvelopeModel {
                        msgtype,
                        sequence: (#[trigger] before[j]).0,
                        payload: before[j].1.payload,
                    });
                assert(rows[j] == before[j]);
            } else {
                assert(rows[n] == rows.last());
            }
        }
        assert forall|j: int|
            0 <= j < rows.len() && since(now, (#[trigger] rows[j]).1.last_tx) >= timeout implies
            all.contains(
            EnvelopeModel { msgtype, sequence: rows[j].0, payload: rows[j].1.payload },
        ) by {
            let e = EnvelopeModel { msgtype, sequence: rows[j].0, payload: rows[j].1.payload };
            if j < n {
                assert(before[j] == rows[j]);
                assert(old_due.contains(e));
                let i = choose|i: int| 0 <= i < old_due.len() && old_due[i] == e;
                assert(all[i] == e);
            } else {
                assert(all.last() == e);
                assert(all[all.len() - 1] == e);
            }
        }
    }
}

/// Every envelope a sender puts on the wire, fresh or again, carries the payload of its place
/// in what was given, in the order given; and nothing that waits is skipped. The window's worth
/// of sequences that come next must not be in flight still, 65536 payloads after they were put
/// there.
pub proof fn law_transmission_keeps_its_place(
    m: ChannelModel,
    given: Seq<Seq<u8>>,
    next: nat,
    cap: nat,
    now: u64,
)
    requires
        m.wf(),
        m.issues(given, next, m.window as nat),
    ensures
        ({
            let k = m.launched(cap, now).len();
            let out = m.transmitted(cap, now);
            &&& next + k <= given.len()
            &&& m.after_transmit(cap, now).issues(given, next + k, 0)
            &&& forall|i: int| 0 <= i < out.len() ==> carries(#[trigger] out[i], given, next + k)
        }),
{
    lemma_fill_issues(m, given, next, m.window as nat, cap, now);
    let fresh = m.launched(cap, now);
    let k = fresh.len();
    let full = m.filled(cap, now);
    let again = full.resent(now);
    let out = m.transmitted(cap, now);
    let after = m.after_transmit(cap, now);
    lemma_due(full.outstanding, full.msgtype, now, full.retx_timeout);
    assert forall|i: int| 0 <= i < out.len() implies carries(#[trigger] out[i], given, next + k) by {
        if i < k {
            assert(out[i] == fresh[i]);
            let p = next + i;
            assert(out[i].payload == given[p]);
        } else {
            let r = i - k;
            assert(out[i] == again[r]);
            let j = choose|j: int|
                0 <= j < full.outstanding.len() && again[r] == (EnvelopeModel {
                    msgtype: full.msgtype,
                    sequence: (#[trigger] full.outstanding[j]).0,
                    payload: full.outstanding[j].1.payload,
                });
            let p = sent_position(full.outstanding[j].0, next + k);
            assert(out[i].payload == given[p]);
            lemma_sent_position(full.outstanding[j].0, next + k);
        }
    }
    assert forall|i: int| 0 <= i < after.outstanding.len() implies {
        let (key, o) = #[trigger] after.outstanding[i];
        let p = sent_position(key, next + k);
        0 <= p && next + k - p <= 65536 && o.payload == given[p]
    } by {
        assert(after.outstanding[i].0 == full.outstanding[i].0);
        assert(after.outstanding[i].1.payload == full.outstanding[i].1.payload);
    }
}

/// A proof releases one sequence, and everything else keeps its place.
pub proof fn law_proof_keeps_the_rest(
    m: ChannelModel,
    given: Seq<Seq<u8>>,
    next: nat,
    slack: nat,
    sequence: u16,
    now: u64,
)
    requires
        m.issues(given, next, slack),
    ensures
        m.after_proof(sequence, now).issues(given, next, slack),
        row_of(m.outstanding, sequence) is Some ==> m.after_proof(sequence, now).outstanding.len()
            == m.outstanding.len() - 1,
{
    lemma_row_of(m.outstanding, sequence);
    if let Some(at) = row_of(m.outstanding, sequence) {
        let after = m.after_proof(sequence, now);
        assert forall|i: int| 0 <= i < after.outstanding.len() implies {
            let (key, o) = #[trigger] after.outstanding[i];
            let p = sent_position(key, next);
            0 <= p && next - p <= 65536 - slack && o.payload == given[p]
        } by {
            let from = if i == at {
                m.outstanding.len() - 1
            } else {
                i
            };
            assert(after.outstanding[i] == m.outstanding[from]);
        }
    }
}

/// An envelope that is overdue is put on the wire again, and counts as sent now.
pub proof fn law_overdue_is_resent(m: ChannelModel, cap: nat, now: u64, i: int)
    requires
        0 <= i < m.filled(cap, now).outstanding.len(),
        since(now, m.filled(cap, now).outstanding[i].1.last_tx) >= m.retx_timeout,
    ensures
        m.transmitted(cap, now).contains(
            (EnvelopeModel {
                msgtype: m.msgtype,
                sequence: m.filled(cap, now).outstanding[i].0,
                payload: m.filled(cap, now).outstanding[i].1.payload,
            }),
        ),
        m.after_transmit(cap, now).outstanding[i].1.last_tx == now,
{
    lemma_filled(m, cap, now);
    let full = m.filled(cap, now);
    lemma_due(full.outstanding, full.msgtype, now, full.retx_timeout);
    let again = full.resent(now);
    let e = EnvelopeModel {
        msgtype: m.msgtype,
        sequence: full.outstanding[i].0,
        payload: full.outstanding[i].1.payload,
    };
    assert(again.contains(e));
    let j = choose|j: int| 0 <= j < again.len() && again[j] == e;
    let fresh = m.launched(cap, now);
    assert(m.transmitted(cap, now)[fresh.len() + j] == e);
}

/// Whether no key has two rows.
pub open spec fn unique<V>(rows: Seq<(u16, V)>) -> bool {
    forall|i: int, j: int|
        #![trigger rows[i], rows[j]]
        0 <= i < j < rows.len() ==> rows[i].0 != rows[j].0
}

/// The rows last sent at least `timeout` ticks ago, in their order.
pub open spec fn overdue(rows: Seq<(u16, OutstandingModel)>, now: u64, timeout: u64) -> Seq<
    (u16, OutstandingModel),
> {
    rows.filter(|row: (u16, OutstandingModel)| since(now, row.1.last_tx) >= timeout)
}

impl ChannelModel {
    /// How many payloads a transmission puts in flight: as many as the window, the table and
    /// the queue allow.
    pub open spec fn launches(self, cap: nat) -> nat {
        let most = if self.window < cap {
            self.window as nat
        } else {
            cap
        };
        let room = if self.outstanding.len() < most {
            (most - self.outstanding.len()) as nat
        } else {
            0
        };
        if room < self.outgoing.len() {
            room
        } else {
            self.outgoing.len()
        }
    }

    /// The sequence that the payload `k` places down the queue takes.
    pub open spec fn sequence_at(self, k: int) -> u16 {
        ((self.send_next + k) % 65536) as u16
    }

    /// None of the next `n` sequences is still in flight.
    pub open spec fn unused_ahead(self, n: nat) -> bool {
        forall|i: int|
            0 <= i < self.outstanding.len() ==> n <= (
            #[trigger] self.outstanding[i]).0.wrapping_sub(self.send_next)
    }

    /// The envelopes of the first `n` waiting payloads.
    pub open spec fn first_envelopes(self, n: nat) -> Seq<EnvelopeModel> {
        Seq::new(
            n,
            |k: int|
                EnvelopeModel {
                    msgtype: self.msgtype,
                    sequence: self.sequence_at(k),
                    payload: self.outgoing[k],
                },
        )
    }

    /// The rows of the first `n` waiting payloads, once sent.
    pub open spec fn first_rows(self, n: nat, now: u64) -> Seq<(u16, OutstandingModel)> {
        Seq::new(
            n,
            |k: int|
                (
                    self.sequence_at(k),
                    OutstandingModel { payload: self.outgoing[k], last_tx: now },
                ),
        )
    }
}

/// What filling the window does, where no sequence in flight comes up for reuse.
proof fn lemma_fill_exact(m: ChannelModel, cap: nat, now: u64)
    requires
        m.window <= WINDOW_MAX,
        m.unused_ahead(m.launches(cap)),
    ensures
        m.launched(cap, now) == m.first_envelopes(m.launches(cap)),
        m.filled(cap, now).outstanding == m.outstanding + m.first_rows(m.launches(cap), now),
        m.filled(cap, now).outgoing == m.outgoing.subrange(
            m.launches(cap) as int,
            m.outgoing.len() as int,
        ),
        m.filled(cap, now).send_next == m.sequence_at(m.launches(cap) as int),
    decreases m.outgoing.len(),
{
    let n = m.launches(cap);
    if m.has_window(cap) {
        let next = m.after_launch(now);
        lemma_row_of(m.outstanding, m.send_next);
        assert(row_of(m.outstanding, m.send_next) is None) by {
            if let Some(i) = row_of(m.outstanding, m.send_next) {
                assert(m.outstanding[i].0.wrapping_sub(m.send_next) == 0);
            }
        }
        assert(next.launches(cap) == n - 1);
        assert forall|i: int| 0 <= i < next.outstanding.len() implies n - 1 <= (
        #[trigger] next.outstanding[i]).0.wrapping_sub(next.send_next) by {
            if i < m.outstanding.len() {
                assert(next.outstanding[i] == m.outstanding[i]);
            }
        }
        lemma_fill_exact(next, cap, now);
        assert forall|k: int| 0 <= k < n - 1 implies #[trigger] next.sequence_at(k)
            == m.sequence_at(k + 1) by {}
        assert(m.sequence_at(0) == m.send_next);
        assert(m.launched(cap, now) =~= m.first_envelopes(n)) by {
            let rest = next.first_envelopes((n - 1) as nat);
            assert forall|k: int| 0 <= k < n implies (seq![m.next_envelope()] + rest)[k]
                == m.first_envelopes(n)[k] by {
                if k > 0 {
                    assert(rest[k - 1].sequence == next.sequence_at(k - 1));
                }
            }
        }
        assert(m.filled(cap, now).outstanding =~= m.outstanding + m.first_rows(n, now)) by {
            let rest = next.first_rows((n - 1) as nat, now);
            let first = m.first_rows(n, now);
            assert forall|k: int| 1 <= k < n implies rest[k - 1] == first[k] by {
                assert(rest[k - 1].0 == next.sequence_at(k - 1));
            }
            assert(next.outstanding + rest =~= m.outstanding + first);
        }
        assert(m.filled(cap, now).outgoing =~= m.outgoing.subrange(
            n as int,
            m.outgoing.len() as int,
        ));
    } else {
        assert(n == 0);
        assert(m.first_envelopes(0) =~= Seq::empty());
        assert(m.outstanding + m.first_rows(0, now) =~= m.outstanding);
        assert(m.outgoing.subrange(0, m.outgoing.len() as int) =~= m.outgoing);
        assert(m.sequence_at(0) == m.send_next);
    }
}

/// What is due is what is overdue; rows sent just now are not.
proof fn lemma_due_is_overdue(
    rows: Seq<(u16, OutstandingModel)>,
    fresh: Seq<(u16, OutstandingModel)>,
    msgtype: u16,
    now: u64,
    timeout: u64,
)
    requires
        timeout > 0,
        forall|k: int| 0 <= k < fresh.len() ==> (#[trigger] fresh[k]).1.last_tx == now,
    ensures
        due(rows + fresh, msgtype, now, timeout) == overdue(rows, now, timeout).map_values(
            |row: (u16, OutstandingModel)|
                EnvelopeModel { msgtype, sequence: row.0, payload: row.1.payload },
        ),
    decreases fresh.len(), rows.len(),
{
    reveal(Seq::filter);
    let spell = |row: (u16, OutstandingModel)|
        EnvelopeModel { msgtype, sequence: row.0, payload: row.1.payload };
    if fresh.len() > 0 {
        assert((rows + fresh).drop_last() =~= rows + fresh.drop_last());
        lemma_due_is_overdue(rows, fresh.drop_last(), msgtype, now, timeout);
    } else {
        assert(rows + fresh =~= rows);
        if rows.len() > 0 {
            let none = Seq::<(u16, OutstandingModel)>::empty();
            lemma_due_is_overdue(rows.drop_last(), none, msgtype, now, timeout);
            assert(rows.drop_last() + none =~= rows.drop_last());
        }
        assert(due(rows, msgtype, now, timeout) =~= overdue(rows, now, timeout).map_values(spell));
    }
}

/// What is put in flight under sequences that none in flight has leaves no sequence twice.
proof fn lemma_launched_are_unique(m: ChannelModel, n: nat, now: u64)
    requires
        m.wf(),
        n <= m.window,
        m.unused_ahead(n),
        unique(m.outstanding),
    ensures
        unique(restamped(m.outstanding, now, m.retx_timeout) + m.first_rows(n, now)),
{
    let again = restamped(m.outstanding, now, m.retx_timeout);
    let rows = again + m.first_rows(n, now);
    let f = m.outstanding.len();
    assert forall|i: int, j: int|
        #![trigger rows[i], rows[j]]
        0 <= i < j < rows.len() implies rows[i].0 != rows[j].0 by {
        if j < f {
            assert(again[i].0 == m.outstanding[i].0 && again[j].0 == m.outstanding[j].0);
        } else {
            let b = j - f;
            assert(rows[j].0 == m.sequence_at(b));
            if i < f {
                assert(rows[i].0 == m.outstanding[i].0);
                assert(m.sequence_at(b).wrapping_sub(m.send_next) == b);
            } else {
                assert(rows[i].0 == m.sequence_at(i - f));
            }
        }
    }
}

/// What a transmission sends, exactly. First come the new envelopes, in the order their
/// payloads were queued and under consecutive sequences, as many as the window leaves room
/// for, so what is in flight never outgrows the window. Then come, each once and with its
/// payload, exactly the earlier envelopes that are unproven and were last sent at least the
/// timeout ago; they count as sent now, and nothing else in flight changes. Sequences wrap, so
/// no envelope in flight may be so old that its sequence comes up again.
pub proof fn law_transmission_is_exact(m: ChannelModel, cap: nat, now: u64)
    requires
        m.wf(),
        m.retx_timeout > 0,
        m.unused_ahead(m.launches(cap)),
    ensures
        ({
            let n = m.launches(cap);
            let after = m.after_transmit(cap, now);
            let f = m.outstanding.len();
            &&& m.transmitted(cap, now) == m.first_envelopes(n) + overdue(
                m.outstanding,
                now,
                m.retx_timeout,
            ).map_values(
                |row: (u16, OutstandingModel)|
                    EnvelopeModel {
                        msgtype: m.msgtype,
                        sequence: row.0,
                        payload: row.1.payload,
                    },
            )
            &&& after.outstanding.len() == f + n
            &&& after.outstanding.len() <= f || after.outstanding.len() <= m.window
            &&& after.outgoing == m.outgoing.subrange(n as int, m.outgoing.len() as int)
            &&& after.send_next == m.sequence_at(n as int)
            &&& after.outstanding == restamped(m.outstanding, now, m.retx_timeout)
                + m.first_rows(n, now)
            &&& unique(m.outstanding) ==> unique(after.outstanding)
        }),
{
    let n = m.launches(cap);
    let full = m.filled(cap, now);
    let fresh = m.first_rows(n, now);
    lemma_filled(m, cap, now);
    lemma_fill_exact(m, cap, now);
    lemma_due_is_overdue(m.outstanding, fresh, m.msgtype, now, m.retx_timeout);
    let after = m.after_transmit(cap, now);
    let again = restamped(m.outstanding, now, m.retx_timeout);
    assert(after.outstanding =~= again + fresh);
    if unique(m.outstanding) {
        lemma_launched_are_unique(m, n, now);
    }
}

/// A proof keeps every sequence in flight at most once.
pub proof fn law_proof_keeps_sequences_unique(m: ChannelModel, sequence: u16, now: u64)
    requires
        unique(m.outstanding),
    ensures
        unique(m.after_proof(sequence, now).outstanding),
        row_of(m.after_proof(sequence, now).outstanding, sequence) is None,
{
    let rows = m.outstanding;
    let after = m.after_proof(sequence, now).outstanding;
    lemma_row_of(rows, sequence);
    lemma_row_of(after, sequence);
    if let Some(at) = row_of(rows, sequence) {
        let last = rows.len() - 1;
        assert forall|i: int, j: int|
            #![trigger after[i], after[j]]
            0 <= i < j < after.len() implies after[i].0 != after[j].0 by {
            assert(rows[i].0 != rows[j].0 && rows[i].0 != rows[last].0 && rows[j].0
                != rows[last].0);
        }
        if let Some(i) = row_of(after, sequence) {
            assert(after[i] == (if i == at {
                rows[last]
            } else {
                rows[i]
            }));
            assert(i != at ==> (if i < at {
                rows[i].0 != rows[at].0
            } else {
                rows[at].0 != rows[i].0
            }));
            assert(at < last ==> rows[at].0 != rows[last].0);
        }
    }
}

/// A dynamic window grows one step at a time, never above its ceiling, and only after a run of
/// proofs; a retransmit shrinks it, never below one.
pub proof fn law_window_is_bounded(m: ChannelModel, cap: nat, sequence: u16, now: u64)
    requires
        m.wf(),
        m.window <= m.max_window,
    ensures
        m.window <= m.after_proof(sequence, now).window <= m.window + 1,
        m.after_proof(sequence, now).window <= m.max_window,
        m.after_proof(sequence, now).window > m.window ==> m.consecutive + 1
            == FAST_RATE_THRESHOLD,
        1 <= m.after_transmit(cap, now).window <= m.max_window,
{
    lemma_filled(m, cap, now);
}

// ---------------------------------------------------------------------------------------
// Laws of the stream.
/// The bytes that messages carry for a stream.
pub open spec fn carried(messages: Seq<Seq<u8>>, id: u16) -> Seq<u8>
    decreases messages.len(),
{
    if messages.len() == 0 {
        Seq::empty()
    } else {
        (match frame_in(messages[0]) {
            Some(f) => if f.stream_id == id && !f.compressed {
                f.data
            } else {
                Seq::empty()
            },
            None => Seq::empty(),
        }) + carried(messages.subrange(1, messages.len() as int), id)
    }
}

/// A slow reader loses nothing: what is read so far, followed by what the messages that are
/// there in order still carry, is the same however far the stream was drained. Reading stops
/// only where the reader is too far behind or nothing is left.
pub proof fn law_no_byte_is_lost_to_a_slow_reader(b: BufferModel, queue: nat, read_bytes: nat)
    requires
        b.channel.settled(queue),
        queue > 0,
    ensures
        ({
            let after = b.drained(queue, read_bytes);
            &&& after.read_buf + carried(after.channel.ready(), b.recv_stream_id) == b.read_buf
                + carried(b.channel.ready(), b.recv_stream_id)
            &&& after.recv_stream_id == b.recv_stream_id
            &&& after.channel.settled(queue)
            &&& after.channel.ready().len() > 0 ==> after.read_buf.len() >= read_bytes
        }),
    decreases b.channel.inbox.len() + b.channel.reorder.len(),
{
    law_ready_payloads_are_read(b.channel, queue);
    if b.read_buf.len() < read_bytes && b.channel.inbox.len() > 0 {
        let next = b.without_first(queue).after_message(b.channel.inbox[0]);
        lemma_recv_takes_one(b.channel, queue);
        law_no_byte_is_lost_to_a_slow_reader(next, queue, read_bytes);
        assert(next.read_buf + carried(next.channel.ready(), b.recv_stream_id) =~= b.read_buf
            + carried(b.channel.ready(), b.recv_stream_id));
    }
}

/// After every delivered message was read the inbox is empty.
pub proof fn lemma_emptied(b: BufferModel, queue: nat)
    ensures
        b.emptied(queue).channel.inbox.len() == 0,
    decreases b.channel.inbox.len() + b.channel.reorder.len(),
{
    if b.channel.inbox.len() > 0 {
        lemma_recv_takes_one(b.channel, queue);
        lemma_emptied(b.without_first(queue).after_message(b.channel.inbox[0]), queue);
    }
}

/// Reading everything leaves nothing behind: what is read is what was read before, followed by
/// all that the messages that were there in order carry.
pub proof fn law_reading_all_leaves_nothing(b: BufferModel, queue: nat)
    requires
        b.channel.settled(queue),
        queue > 0,
    ensures
        ({
            let after = b.emptied(queue);
            &&& after.read_buf == b.read_buf + carried(b.channel.ready(), b.recv_stream_id)
            &&& after.channel.ready().len() == 0
            &&& after.channel.settled(queue)
            &&& after.recv_stream_id == b.recv_stream_id
        }),
    decreases b.channel.inbox.len() + b.channel.reorder.len(),
{
    law_ready_payloads_are_read(b.channel, queue);
    if b.channel.inbox.len() > 0 {
        let next = b.without_first(queue).after_message(b.channel.inbox[0]);
        lemma_recv_takes_one(b.channel, queue);
        law_reading_all_leaves_nothing(next, queue);
    }
    assert(b.emptied(queue).read_buf =~= b.read_buf + carried(
        b.channel.ready(),
        b.recv_stream_id,
    ));
}

/// What two runs of messages carry is what they carry together.
pub proof fn lemma_carried_concat(a: Seq<Seq<u8>>, b: Seq<Seq<u8>>, id: u16)
    ensures
        carried(a + b, id) == carried(a, id) + carried(b, id),
    decreases a.len(),
{
    if a.len() == 0 {
        assert(a + b =~= b);
        assert(carried(a, id) + carried(b, id) =~= carried(b, id));
    } else {
        let rest = a.subrange(1, a.len() as int);
        lemma_carried_concat(rest, b, id);
        assert((a + b).subrange(1, (a + b).len() as int) =~= rest + b);
        assert((a + b)[0] == a[0]);
        assert(carried(a + b, id) =~= carried(a, id) + carried(b, id));
    }
}

/// A write queues frames that carry exactly the bytes it accepted, in their order, behind what
/// was queued before.
pub proof fn law_write_queues_what_it_accepts(b: BufferModel, bytes: Seq<u8>, queue: nat)
    requires
        b.wf(),
    ensures
        ({
            let before = b.channel.outgoing;
            let after = b.after_write(bytes, queue).channel.outgoing;
            &&& b.accepted(bytes.len(), queue) <= bytes.len()
            &&& before.len() <= after.len()
            &&& after.subrange(0, before.len() as int) == before
            &&& carried(after.subrange(before.len() as int, after.len() as int), b.send_stream_id)
                == bytes.subrange(0, b.accepted(bytes.len(), queue) as int)
        }),
    decreases bytes.len(),
{
    let before = b.channel.outgoing;
    let id = b.send_stream_id;
    let n = b.chunk(bytes.len());
    let after = b.after_write(bytes, queue).channel.outgoing;
    if bytes.len() > 0 {
        lemma_accepted_step(b, bytes.len(), queue);
    } else {
        let room = if before.len() < queue {
            (queue - before.len()) as nat
        } else {
            0
        };
        assert(room * b.max_chunk >= 0) by (nonlinear_arith);
        assert(b.accepted(0, queue) == 0);
    }
    if n == 0 || before.len() >= queue {
        assert(after.subrange(0, before.len() as int) =~= before);
        assert(after.subrange(before.len() as int, after.len() as int) =~= Seq::empty());
        assert(bytes.subrange(0, 0) =~= Seq::empty());
    } else {
        let data = bytes.subrange(0, n as int);
        let rest = bytes.subrange(n as int, bytes.len() as int);
        let next = b.after_frame(data, false);
        let frame = b.frame(data, false);
        law_write_queues_what_it_accepts(next, rest, queue);
        law_frame_round_trips(frame);
        let mid = next.channel.outgoing;
        assert(mid == before.push(frame.wire()));
        assert(after.subrange(0, before.len() as int) =~= after.subrange(
            0,
            mid.len() as int,
        ).subrange(0, before.len() as int));
        assert(mid.subrange(0, before.len() as int) =~= before);
        let one = seq![frame.wire()];
        let others = after.subrange(mid.len() as int, after.len() as int);
        assert(after.subrange(before.len() as int, after.len() as int) =~= one + others) by {
            assert(after[before.len() as int] == after.subrange(0, mid.len() as int)[before.len() as int]);
        }
        lemma_carried_concat(one, others, id);
        assert(carried(one, id) =~= data) by {
            assert(one.subrange(1, 1) =~= Seq::empty());
            assert(carried(one.subrange(1, 1), id) =~= Seq::empty());
        }
        let more = next.accepted(rest.len(), queue);
        assert(next.accepted(rest.len(), queue) == b.after_frame(Seq::empty(), false).accepted(
            rest.len(),
            queue,
        ));
        assert(data + rest.subrange(0, more as int) =~= bytes.subrange(0, (n + more) as int));
    }
}

} // verus!
