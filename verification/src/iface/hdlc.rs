//! HDLC framing, as used by Reticulum's TCP interfaces.
//!
//! A stream is a sequence of frames delimited by the flag byte. Inside a frame, the flag
//! and the escape byte are themselves escaped by emitting the escape byte followed by the
//! original XORed with a mask:
//!
//! ```text
//! flag   0x7E   delimits frames
//! escape 0x7D
//! mask   0x20   0x7E -> 7D 5E     0x7D -> 7D 5D
//! ```
//!
//! [`frame`] is a pure function, and [`Deframer`] is a state machine fed arbitrary byte
//! chunks, because TCP does not respect frame boundaries.

use vstd::prelude::*;

use crate::packet::MTU;

verus! {

/// Delimits frames.
pub const FLAG: u8 = 0x7E;

/// Introduces an escaped byte.
pub const ESC: u8 = 0x7D;

/// An escaped byte is XORed with this.
pub const ESC_MASK: u8 = 0x20;

/// Largest deframed frame the [`Deframer`] will assemble before discarding it. A valid
/// Reticulum packet is at most the wire MTU (the decoder rejects anything larger), so this
/// caps how much a peer can make us buffer by withholding the closing flag.
pub const MAX_FRAME: usize = MTU;

/// One byte as it stands inside a frame.
pub open spec fn escaped_byte(b: u8) -> Seq<u8> {
    if b == FLAG || b == ESC {
        seq![ESC, b ^ ESC_MASK]
    } else {
        seq![b]
    }
}

/// A byte string as it stands inside a frame.
pub open spec fn escaped(packet: Seq<u8>) -> Seq<u8>
    decreases packet.len(),
{
    if packet.len() == 0 {
        Seq::empty()
    } else {
        escaped(packet.drop_last()) + escaped_byte(packet.last())
    }
}

/// A packet in its frame.
pub open spec fn framed(packet: Seq<u8>) -> Seq<u8> {
    seq![FLAG] + escaped(packet) + seq![FLAG]
}

/// Wrap a packet in a frame, escaping as needed.
pub fn frame(packet: &[u8]) -> (out: Vec<u8>)
    ensures
        out@ == framed(packet@),
{
    let mut out: Vec<u8> = Vec::new();
    out.push(FLAG);
    let mut i: usize = 0;
    assert(packet@.subrange(0, 0) =~= Seq::<u8>::empty());
    assert(out@ =~= seq![FLAG] + escaped(packet@.subrange(0, 0)));
    while i < packet.len()
        invariant
            i <= packet@.len(),
            out@ == seq![FLAG] + escaped(packet@.subrange(0, i as int)),
        decreases packet@.len() - i,
    {
        let b: u8 = packet[i];
        proof {
            let next = packet@.subrange(0, i + 1);
            assert(next.drop_last() =~= packet@.subrange(0, i as int));
            assert(next.last() == b);
        }
        if b == FLAG || b == ESC {
            out.push(ESC);
            out.push(b ^ ESC_MASK);
        } else {
            out.push(b);
        }
        i += 1;
        assert(out@ =~= seq![FLAG] + escaped(packet@.subrange(0, i as int)));
    }
    assert(packet@.subrange(0, i as int) =~= packet@);
    out.push(FLAG);
    assert(out@ =~= framed(packet@));
    out
}

/// Where a deframer stands: what it has of the current frame, whether it is inside one, and
/// whether the last byte was an escape.
pub struct DeframerModel {
    pub buf: Seq<u8>,
    pub in_frame: bool,
    pub escaped: bool,
}

impl DeframerModel {
    /// At the start of a frame.
    pub open spec fn opened() -> DeframerModel {
        DeframerModel { buf: Seq::empty(), in_frame: true, escaped: false }
    }

    /// The frame that a flag completes here, if any.
    pub open spec fn finished(self) -> Seq<Seq<u8>> {
        if self.in_frame && self.buf.len() > 0 {
            seq![self.buf]
        } else {
            Seq::empty()
        }
    }

    /// The state with one more byte in the buffer, unless that is too much: then the frame
    /// is dropped and the next flag awaited.
    pub open spec fn bounded(self) -> DeframerModel {
        if self.buf.len() > MAX_FRAME {
            DeframerModel { buf: Seq::empty(), in_frame: false, ..self }
        } else {
            self
        }
    }

    /// The state after one byte.
    pub open spec fn after(self, b: u8) -> DeframerModel {
        if b == FLAG {
            DeframerModel::opened()
        } else if !self.in_frame {
            self
        } else if self.escaped {
            (DeframerModel { buf: self.buf.push(b ^ ESC_MASK), in_frame: true, escaped: false }).bounded()
        } else if b == ESC {
            (DeframerModel { escaped: true, ..self }).bounded()
        } else {
            (DeframerModel { buf: self.buf.push(b), ..self }).bounded()
        }
    }

    /// The state after a stretch of stream.
    pub open spec fn after_all(self, stream: Seq<u8>) -> DeframerModel
        decreases stream.len(),
    {
        if stream.len() == 0 {
            self
        } else {
            self.after_all(stream.drop_last()).after(stream.last())
        }
    }

    /// The frames a stretch of stream completes.
    pub open spec fn frames(self, stream: Seq<u8>) -> Seq<Seq<u8>>
        decreases stream.len(),
    {
        if stream.len() == 0 {
            Seq::empty()
        } else {
            let before = self.frames(stream.drop_last());
            if stream.last() == FLAG {
                before + self.after_all(stream.drop_last()).finished()
            } else {
                before
            }
        }
    }
}

/// Reassembles frames from a byte stream.
///
/// TCP hands us arbitrary chunks, so a frame can be split across any number of reads and a
/// read can contain several frames. Feed everything to [`push`](Deframer::push) and take
/// whatever frames fall out.
///
/// Empty frames (two adjacent flags) are discarded rather than surfaced.
#[derive(Debug)]
pub struct Deframer {
    buf: Vec<u8>,
    in_frame: bool,
    escaped: bool,
}

impl View for Deframer {
    type V = DeframerModel;

    closed spec fn view(&self) -> DeframerModel {
        DeframerModel { buf: self.buf@, in_frame: self.in_frame, escaped: self.escaped }
    }
}

/// The contents of several byte strings.
pub open spec fn contents(frames: Seq<Vec<u8>>) -> Seq<Seq<u8>> {
    Seq::new(frames.len(), |i: int| frames[i]@)
}

impl Deframer {
    /// A deframer that waits for its first flag.
    pub fn new() -> (deframer: Self)
        ensures
            deframer@ == (DeframerModel { buf: Seq::empty(), in_frame: false, escaped: false }),
    {
        let deframer = Deframer { buf: Vec::new(), in_frame: false, escaped: false };
        assert(deframer@.buf =~= Seq::<u8>::empty());
        deframer
    }

    /// How many bytes of an unfinished frame are held.
    pub fn buffered(&self) -> (n: usize)
        ensures
            n == self@.buf.len(),
    {
        self.buf.len()
    }

    /// Feed a chunk of stream, and get back every complete frame it finished.
    pub fn push(&mut self, chunk: &[u8]) -> (frames: Vec<Vec<u8>>)
        ensures
            final(self)@ == old(self)@.after_all(chunk@),
            contents(frames@) == old(self)@.frames(chunk@),
            old(self)@.buf.len() <= MAX_FRAME ==> final(self)@.buf.len() <= MAX_FRAME,
    {
        let ghost start = self@;
        let mut frames: Vec<Vec<u8>> = Vec::new();
        let mut i: usize = 0;
        assert(chunk@.subrange(0, 0) =~= Seq::<u8>::empty());
        assert(contents(frames@) =~= Seq::<Seq<u8>>::empty());
        while i < chunk.len()
            invariant
                i <= chunk@.len(),
                self@ == start.after_all(chunk@.subrange(0, i as int)),
                contents(frames@) == start.frames(chunk@.subrange(0, i as int)),
                start.buf.len() <= MAX_FRAME ==> self@.buf.len() <= MAX_FRAME,
            decreases chunk@.len() - i,
        {
            let b: u8 = chunk[i];
            let ghost here = self@;
            let ghost done = contents(frames@);
            proof {
                let next = chunk@.subrange(0, i + 1);
                assert(next.drop_last() =~= chunk@.subrange(0, i as int));
                assert(next.last() == b);
            }
            i += 1;
            if b == FLAG {
                // A flag both closes any open frame and opens the next one, so a run of flags
                // is harmless.
                if self.in_frame && self.buf.len() > 0 {
                    let mut finished: Vec<u8> = Vec::new();
                    std::mem::swap(&mut finished, &mut self.buf);
                    frames.push(finished);
                    assert(contents(frames@) =~= done + seq![here.buf]);
                } else {
                    assert(done + Seq::<Seq<u8>>::empty() =~= done);
                }
                self.buf.clear();
                self.in_frame = true;
                self.escaped = false;
                assert(self@.buf =~= Seq::<u8>::empty());
            } else if self.in_frame {
                if self.escaped {
                    self.buf.push(b ^ ESC_MASK);
                    self.escaped = false;
                } else if b == ESC {
                    self.escaped = true;
                } else {
                    self.buf.push(b);
                }
                // A frame growing past the MTU is malformed, or a peer withholding the closing
                // flag to make us buffer without bound. Discard it and resynchronise at the
                // next flag.
                if self.buf.len() > MAX_FRAME {
                    self.buf.clear();
                    self.in_frame = false;
                    assert(self@.buf =~= Seq::<u8>::empty());
                }
            }
            // Junk before the first flag is ignored rather than guessed at.
        }
        assert(chunk@.subrange(0, i as int) =~= chunk@);
        frames
    }
}

/// How a stream is cut into chunks does not matter: two pushes leave the state and give the
/// frames of one push of both chunks together.
pub proof fn law_chunking_does_not_matter(state: DeframerModel, first: Seq<u8>, second: Seq<u8>)
    ensures
        state.after_all(first + second) == state.after_all(first).after_all(second),
        state.frames(first + second) == state.frames(first) + state.after_all(first).frames(second),
    decreases second.len(),
{
    if second.len() == 0 {
        assert(first + second =~= first);
        assert(state.frames(first) + Seq::<Seq<u8>>::empty() =~= state.frames(first));
    } else {
        let both = first + second;
        assert(both.drop_last() =~= first + second.drop_last());
        assert(both.last() == second.last());
        law_chunking_does_not_matter(state, first, second.drop_last());
        let middle = state.after_all(first);
        if second.last() == FLAG {
            let finished = middle.after_all(second.drop_last()).finished();
            assert((state.frames(first) + middle.frames(second.drop_last())) + finished
                =~= state.frames(first) + (middle.frames(second.drop_last()) + finished));
        }
    }
}

/// An escaped packet read from the start of a frame is in the buffer as it was, and no
/// frame ends in it.
proof fn lemma_escaped_is_read_back(packet: Seq<u8>)
    requires
        packet.len() <= MAX_FRAME,
    ensures
        DeframerModel::opened().after_all(escaped(packet)) == (DeframerModel {
            buf: packet,
            in_frame: true,
            escaped: false,
        }),
        DeframerModel::opened().frames(escaped(packet)) == Seq::<Seq<u8>>::empty(),
    decreases packet.len(),
{
    let opened = DeframerModel::opened();
    if packet.len() == 0 {
        assert(packet =~= Seq::<u8>::empty());
    } else {
        let front = packet.drop_last();
        let b = packet.last();
        lemma_escaped_is_read_back(front);
        law_chunking_does_not_matter(opened, escaped(front), escaped_byte(b));
        let middle = opened.after_all(escaped(front));
        assert(front.push(b) =~= packet);
        assert(FLAG ^ ESC_MASK != FLAG && ESC ^ ESC_MASK != FLAG) by (bit_vector);
        assert((b ^ ESC_MASK) ^ ESC_MASK == b) by (bit_vector);
        reveal_with_fuel(DeframerModel::after_all, 3);
        reveal_with_fuel(DeframerModel::frames, 3);
        if b == FLAG || b == ESC {
            let pair = escaped_byte(b);
            assert(pair.drop_last() =~= seq![ESC]);
            assert(pair.drop_last().drop_last() =~= Seq::<u8>::empty());
            assert(middle.after_all(pair) == middle.after(ESC).after(b ^ ESC_MASK));
            assert(middle.frames(pair) =~= Seq::<Seq<u8>>::empty());
        } else {
            let single = escaped_byte(b);
            assert(single.drop_last() =~= Seq::<u8>::empty());
            assert(middle.after_all(single) == middle.after(b));
            assert(middle.frames(single) =~= Seq::<Seq<u8>>::empty());
        }
        assert(opened.frames(escaped(packet)) =~= Seq::<Seq<u8>>::empty());
    }
}

/// What is framed is deframed: whatever the deframer was in the middle of, a framed packet
/// that is not empty and fits the MTU comes out whole, behind at most the frame that its
/// first flag ended, and leaves the deframer ready for the next frame.
pub proof fn law_framed_packet_is_deframed(state: DeframerModel, packet: Seq<u8>)
    requires
        0 < packet.len() <= MAX_FRAME,
    ensures
        state.frames(framed(packet)) == state.finished() + seq![packet],
        state.after_all(framed(packet)) == DeframerModel::opened(),
{
    let opened = DeframerModel::opened();
    lemma_escaped_is_read_back(packet);
    let head = seq![FLAG];
    let body = escaped(packet);
    reveal_with_fuel(DeframerModel::after_all, 2);
    reveal_with_fuel(DeframerModel::frames, 2);
    assert(head.drop_last() =~= Seq::<u8>::empty());
    assert(state.after_all(head) == opened);
    assert(state.frames(head) =~= state.finished());
    law_chunking_does_not_matter(state, head, body);
    law_chunking_does_not_matter(state, head + body, head);
    let full = opened.after_all(body);
    assert(full.after_all(head) == opened);
    assert(full.frames(head) =~= seq![packet]);
    assert(state.frames(head + body) =~= state.finished());
    assert(state.frames(framed(packet)) =~= state.finished() + seq![packet]);
}

/// Empty frames are not surfaced: every frame that comes out has a byte in it, and none is
/// longer than the MTU if the buffer was not.
pub proof fn law_frames_are_bounded(state: DeframerModel, stream: Seq<u8>)
    requires
        state.buf.len() <= MAX_FRAME,
    ensures
        state.after_all(stream).buf.len() <= MAX_FRAME,
        forall|i: int|
            0 <= i < state.frames(stream).len() ==> 0 < (#[trigger] state.frames(stream)[i]).len()
                <= MAX_FRAME,
    decreases stream.len(),
{
    if stream.len() > 0 {
        law_frames_are_bounded(state, stream.drop_last());
        let before = state.frames(stream.drop_last());
        assert forall|i: int| 0 <= i < state.frames(stream).len() implies 0 < (
        #[trigger] state.frames(stream)[i]).len() <= MAX_FRAME by {
            if i < before.len() {
                assert(state.frames(stream)[i] == before[i]);
            }
        }
    }
}

/// A frame begins and ends with the flag and holds none in between: a flag in the packet is
/// sent as escape and 0x5e, an escape as escape and 0x5d, and every other byte as it is.
pub proof fn law_flags_only_delimit(packet: Seq<u8>, b: u8)
    ensures
        framed(packet)[0] == 0x7e,
        framed(packet).last() == 0x7e,
        framed(packet).len() >= 2 + packet.len(),
        forall|i: int| 0 < i < framed(packet).len() - 1 ==> #[trigger] framed(packet)[i] != 0x7e,
        escaped(packet.push(b)) == escaped(packet) + (if b == 0x7e {
            seq![0x7du8, 0x5eu8]
        } else if b == 0x7d {
            seq![0x7du8, 0x5du8]
        } else {
            seq![b]
        }),
        escaped(Seq::<u8>::empty()).len() == 0,
    decreases packet.len(),
{
    assert(0x7eu8 ^ 0x20u8 == 0x5eu8) by (bit_vector);
    assert(0x7du8 ^ 0x20u8 == 0x5du8) by (bit_vector);
    assert(packet.push(b).drop_last() =~= packet);
    if packet.len() > 0 {
        let front = packet.drop_last();
        let last = packet.last();
        law_flags_only_delimit(front, last);
        assert(front.push(last) =~= packet);
        let inner = escaped(packet);
        let before = escaped(front);
        assert forall|i: int| 0 < i < framed(packet).len() - 1 implies #[trigger] framed(packet)[i]
            != 0x7e by {
            assert(framed(packet)[i] == inner[i - 1]);
            if i - 1 < before.len() {
                assert(inner[i - 1] == before[i - 1]);
                assert(framed(front)[i] == before[i - 1]);
            }
        }
    }
}

/// A deframer goes byte by byte. A flag ends what was open and opens anew. Outside a frame
/// nothing else counts. Inside one an escape makes the next byte mean itself with one bit
/// flipped, any other byte is taken, and a frame that outgrows a packet is given up.
pub proof fn law_deframer_reads_byte_by_byte(state: DeframerModel, b: u8)
    ensures
        ({
            let after = state.after(b);
            let fits = state.buf.len() < 500;
            &&& b == 0x7e ==> after.in_frame && after.buf.len() == 0 && !after.escaped
            &&& b != 0x7e && !state.in_frame ==> after == state
            &&& b != 0x7e && state.in_frame && state.escaped && fits ==> after == (DeframerModel {
                buf: state.buf.push(b ^ 0x20),
                in_frame: true,
                escaped: false,
            })
            &&& b == 0x7d && state.in_frame && !state.escaped && fits ==> after == (DeframerModel {
                escaped: true,
                ..state
            })
            &&& b != 0x7e && b != 0x7d && state.in_frame && !state.escaped && fits ==> after == (
            DeframerModel { buf: state.buf.push(b), ..state })
            &&& b != 0x7e && b != 0x7d && state.in_frame && !state.escaped && state.buf.len() == 500
                ==> !after.in_frame && after.buf.len() == 0
            &&& b != 0x7e && state.in_frame && state.escaped && state.buf.len() == 500
                ==> !after.in_frame && after.buf.len() == 0
            &&& state.frames(seq![b]) == (if b == 0x7e && state.in_frame && state.buf.len() > 0 {
                seq![state.buf]
            } else {
                Seq::empty()
            })
        }),
{
    let one = seq![b];
    assert(one.drop_last() =~= Seq::<u8>::empty());
    reveal_with_fuel(DeframerModel::frames, 2);
    reveal_with_fuel(DeframerModel::after_all, 2);
    assert(state.frames(one) =~= (if b == 0x7e && state.in_frame && state.buf.len() > 0 {
        seq![state.buf]
    } else {
        Seq::empty()
    }));
}

} // verus!
