//! What holds of a channel's timing, its window, its wire formats and its streams.

use vstd::prelude::*;

use crate::bounded::{lemma_row_of, row_of, without_row};
use crate::bytes::{be_bytes, be_value, lemma_be_bytes};
use crate::channel::{
    ceiling_for, dynamic_channel, envelope_in, floor_for, frame_in, law_transmission_is_exact,
    lemma_drained, lemma_due_is_overdue, lemma_fill_exact, lemma_filled, restamped, since,
    timeout_for, tuned, unique, window_within, BufferModel, ChannelModel, EnvelopeModel,
    FrameModel, OutstandingModel, MAX_DATA_LEN,
};

verus! {

/// A retransmission waits for two round trips, at least four ticks and at most eight thousand.
pub proof fn law_timeout_is_two_round_trips(rtt: u64)
    ensures
        4 <= timeout_for(rtt) <= 8000,
        2 <= rtt <= 4000 ==> timeout_for(rtt) == 2 * rtt,
        rtt < 2 ==> timeout_for(rtt) == 4,
        rtt > 4000 ==> timeout_for(rtt) == 8000,
{
}

/// The slower the medium, the lower the window's ceiling and floor: 48 and 16 up to 180 ticks,
/// 12 and 5 up to 750, 5 and 2 up to 1450, and 2 and 2 beyond. Neither is above what the caller
/// chose, and the floor is at least one.
pub proof fn law_window_bounds_follow_the_round_trip(rtt: u64, max_window: u32)
    ensures
        ({
            let ceiling = ceiling_for(rtt, max_window);
            let floor = floor_for(rtt, max_window);
            &&& ceiling <= max_window
            &&& floor <= max_window || floor == 1
            &&& max_window >= 48 && rtt <= 180 ==> ceiling == 48 && floor == 16
            &&& max_window >= 12 && 180 < rtt <= 750 ==> ceiling == 12 && floor == 5
            &&& max_window >= 5 && 750 < rtt <= 1450 ==> ceiling == 5 && floor == 2
            &&& max_window >= 2 && rtt > 1450 ==> ceiling == 2 && floor == 2
            &&& rtt <= 180 && max_window < 48 ==> ceiling == max_window
            &&& rtt <= 180 && 1 <= max_window < 16 ==> floor == max_window
            &&& rtt <= 180 && max_window >= 16 ==> floor == 16
            &&& 180 < rtt <= 750 && max_window < 12 ==> ceiling == max_window
            &&& 180 < rtt <= 750 && 1 <= max_window < 5 ==> floor == max_window
            &&& 180 < rtt <= 750 && max_window >= 5 ==> floor == 5
            &&& 750 < rtt && 1 <= max_window < 2 ==> floor == max_window
            &&& 750 < rtt && max_window >= 2 ==> floor == 2
            &&& 750 < rtt <= 1450 && max_window < 5 ==> ceiling == max_window
            &&& max_window == 0 ==> floor == 1
        }),
{
}

/// A window is moved to the nearest that the protocol and the table allow, and one is always
/// allowed.
pub proof fn law_window_is_moved_into_its_range(window: u32, cap: nat)
    ensures
        ({
            let w = window_within(window, cap);
            let most: nat = if cap < 1 {
                1
            } else if cap < 48 {
                cap
            } else {
                48
            };
            &&& 1 <= w <= most
            &&& 1 <= window <= most ==> w == window
            &&& window > most ==> w == most
            &&& window == 0 ==> w == 1
        }),
{
}

/// Time that has passed is the difference, and what is to come is no time ago.
pub proof fn law_time_since_is_the_difference(now: u64, then: u64)
    ensures
        since(now, then) >= 0,
        then <= now ==> since(now, then) + then == now,
        now < then ==> since(now, then) == 0,
{
}

/// What is due counts as sent now, whatever else it is; what is not due stays as it was.
pub proof fn law_due_rows_are_restamped(
    rows: Seq<(u16, OutstandingModel)>,
    now: u64,
    timeout: u64,
    i: int,
)
    requires
        0 <= i < rows.len(),
    ensures
        restamped(rows, now, timeout).len() == rows.len(),
        restamped(rows, now, timeout)[i].0 == rows[i].0,
        restamped(rows, now, timeout)[i].1.payload == rows[i].1.payload,
        rows[i].1.last_tx + timeout <= now ==> restamped(rows, now, timeout)[i].1.last_tx == now,
        timeout > 0 && rows[i].1.last_tx + timeout > now ==> restamped(rows, now, timeout)[i]
            == rows[i],
{
}

/// Where anything had to be sent again, a dynamic window gives way by four, not below its floor
/// nor above its ceiling, and the run of clean proofs starts over. Otherwise neither changes.
/// No transmission changes the timing.
pub proof fn law_loss_shrinks_the_window(m: ChannelModel, cap: nat, now: u64)
    requires
        m.wf(),
        m.retx_timeout > 0,
        m.unused_ahead(m.launches(cap)),
    ensures
        ({
            let after = m.after_transmit(cap, now);
            let lost = exists|i: int|
                0 <= i < m.outstanding.len() && (#[trigger] m.outstanding[i]).1.last_tx
                    + m.retx_timeout <= now;
            let floor = floor_for(m.rtt, m.max_window);
            &&& m.dynamic && lost ==> {
                &&& after.consecutive == 0
                &&& after.window <= m.max_window
                &&& after.window >= floor || after.window == m.max_window
                &&& m.window >= floor + 4 && m.window - 4 <= m.max_window ==> after.window
                    == m.window - 4
                &&& m.window < floor + 4 && floor <= m.max_window ==> after.window == floor
                &&& m.window - 4 > m.max_window ==> after.window == m.max_window
            }
            &&& !m.dynamic || !lost ==> after.consecutive == m.consecutive && after.window
                == m.window
            &&& after.msgtype == m.msgtype
            &&& after.max_window == m.max_window
            &&& after.retx_timeout == m.retx_timeout
            &&& after.rtt == m.rtt
            &&& after.dynamic == m.dynamic
        }),
{
    law_transmission_is_exact(m, cap, now);
    let late = |row: (u16, OutstandingModel)| since(now, row.1.last_tx) >= m.retx_timeout;
    let n = m.launches(cap);
    let full = m.filled(cap, now);
    lemma_filled(m, cap, now);
    lemma_fill_exact(m, cap, now);
    let fresh = m.first_rows(n, now);
    lemma_due_is_overdue(m.outstanding, fresh, m.msgtype, now, m.retx_timeout);
    let overdue = m.outstanding.filter(late);
    assert(full.resent(now).len() == overdue.len());
    m.outstanding.filter_lemma(late);
    if overdue.len() > 0 {
        assert(late(overdue[0]));
        m.outstanding.lemma_filter_contains_rev(late, overdue[0]);
        let i = choose|i: int| 0 <= i < m.outstanding.len() && m.outstanding[i] == overdue[0];
        assert(m.outstanding[i].1.last_tx + m.retx_timeout <= now);
    } else {
        assert forall|i: int| 0 <= i < m.outstanding.len() implies (
        #[trigger] m.outstanding[i]).1.last_tx + m.retx_timeout > now by {
            if m.outstanding[i].1.last_tx + m.retx_timeout <= now {
                assert(late(m.outstanding[i]));
                assert(overdue.contains(m.outstanding[i]));
            }
        }
    }
}

/// A proof releases its envelope and no other. On a dynamic channel the round trip moves an
/// eighth of the way to what was measured and the timeout follows it. The tenth clean proof in
/// a row widens the window by one, unless it is at the ceiling, and the run starts over. A proof
/// for nothing in flight does nothing.
pub proof fn law_proof_is_measured(m: ChannelModel, sequence: u16, now: u64, i: int)
    requires
        m.wf(),
        unique(m.outstanding),
    ensures
        ({
            let after = m.after_proof(sequence, now);
            let there = 0 <= i < m.outstanding.len() && m.outstanding[i].0 == sequence;
            let nowhere = forall|j: int|
                0 <= j < m.outstanding.len() ==> (#[trigger] m.outstanding[j]).0 != sequence;
            let sent = m.outstanding[i].1.last_tx;
            &&& nowhere ==> after == m
            &&& there ==> {
                &&& after.outstanding.len() == m.outstanding.len() - 1
                &&& forall|j: int|
                    0 <= j < m.outstanding.len() && j != i ==> after.outstanding.contains(
                        #[trigger] m.outstanding[j],
                    )
                &&& after.outgoing == m.outgoing
                &&& after.send_next == m.send_next
                &&& after.msgtype == m.msgtype
                &&& after.max_window == m.max_window
                &&& after.dynamic == m.dynamic
            }
            &&& there && !m.dynamic ==> after.rtt == m.rtt && after.retx_timeout == m.retx_timeout
                && after.window == m.window && after.consecutive == m.consecutive
            &&& there && m.dynamic ==> {
                &&& sent <= now ==> after.rtt == (m.rtt * 7 + (now - sent)) / 8
                &&& now < sent ==> after.rtt == m.rtt * 7 / 8
                &&& after.retx_timeout == timeout_for(after.rtt)
                &&& m.consecutive < 9 ==> after.consecutive == m.consecutive + 1 && after.window
                    == m.window
                &&& m.consecutive >= 9 ==> after.consecutive == 0 && after.window == (if m.window
                    < ceiling_for(after.rtt, m.max_window) {
                    m.window + 1
                } else {
                    m.window as int
                })
            }
        }),
{
    let rows = m.outstanding;
    lemma_row_of(rows, sequence);
    if 0 <= i < rows.len() && rows[i].0 == sequence {
        assert(row_of(rows, sequence) == Some(i)) by {
            if let Some(k) = row_of(rows, sequence) {
                if k < i {
                    assert(rows[k].0 != rows[i].0);
                }
                if i < k {
                    assert(rows[i].0 != rows[k].0);
                }
            }
        }
        let after = without_row(rows, i);
        assert forall|j: int| 0 <= j < rows.len() && j != i implies after.contains(
            #[trigger] rows[j],
        ) by {
            let at = if j == rows.len() - 1 {
                i
            } else {
                j
            };
            assert(after[at] == rows[j]);
        }
        let sample = since(now, rows[i].1.last_tx);
        assert((m.rtt * 7 + sample) / 8 <= u64::MAX) by (nonlinear_arith)
            requires
                m.rtt <= u64::MAX,
                0 <= sample <= u64::MAX,
        ;
    }
}

/// What a receiver proves, and what it keeps. The next envelope in order is proved where the
/// inbox has room. One less than half the sequences ahead is proved where it is held already or
/// there is room to hold it, and is then held as it came. One from before is proved again and
/// changes nothing.
pub proof fn law_envelope_is_taken_by_its_place(
    m: ChannelModel,
    sequence: u16,
    payload: Seq<u8>,
    queue: nat,
    reorder: nat,
)
    ensures
        ({
            let after = m.after_handle(sequence, payload, queue, reorder);
            let proved = m.proves(sequence, queue, reorder);
            let ahead = (sequence - m.recv_next) % 65536;
            let held = exists|j: int|
                0 <= j < m.reorder.len() && (#[trigger] m.reorder[j]).0 == sequence;
            &&& ahead == 0 ==> proved == (m.inbox.len() < queue)
            &&& ahead == 0 && proved ==> after.inbox.len() > m.inbox.len()
                && after.inbox.subrange(0, m.inbox.len() as int) == m.inbox
                && after.inbox[m.inbox.len() as int] == payload
            &&& 0 < ahead < 32768 ==> proved == (held || m.reorder.len() < reorder)
            &&& 0 < ahead < 32768 && !held && proved ==> after == (ChannelModel {
                reorder: m.reorder.push((sequence, payload)),
                ..m
            })
            &&& 0 < ahead < 32768 && held ==> after == m
            &&& ahead >= 32768 ==> proved && after == m
            &&& !proved ==> after == m
        }),
{
    lemma_row_of(m.reorder, sequence);
    if m.ahead(sequence) == 0 {
        let next = m.after_delivery(payload);
        lemma_drained(next, queue);
        let end = next.drained(queue).inbox;
        assert(end.subrange(0, next.inbox.len() as int)[m.inbox.len() as int] == payload);
        assert(end.subrange(0, m.inbox.len() as int) =~= end.subrange(
            0,
            next.inbox.len() as int,
        ).subrange(0, m.inbox.len() as int));
        assert(next.inbox.subrange(0, m.inbox.len() as int) =~= m.inbox);
    }
}

/// A dynamic channel begins with a window of two, as far as there is room, an empty table, and
/// the timing of its medium: the round trip it was given, or 750 ticks.
pub proof fn law_dynamic_channel_begins_small(
    msgtype: u16,
    initial_rtt: u64,
    max_window: u32,
    cap: nat,
)
    requires
        cap >= 2,
    ensures
        ({
            let plain = dynamic_channel(msgtype, cap);
            let given = tuned(msgtype, initial_rtt, max_window, cap);
            &&& plain.dynamic && given.dynamic
            &&& plain.msgtype == msgtype && given.msgtype == msgtype
            &&& plain.window == 2
            &&& given.window == (if max_window <= 1 {
                1int
            } else {
                2
            })
            &&& plain.max_window == 48
            &&& given.max_window == window_within(max_window, cap)
            &&& plain.rtt == 750
            &&& initial_rtt >= 1 ==> given.rtt == initial_rtt
            &&& initial_rtt == 0 ==> given.rtt == 1
            &&& plain.retx_timeout == 1500
            &&& given.retx_timeout == timeout_for(given.rtt)
            &&& plain.consecutive == 0 && given.consecutive == 0
            &&& plain.send_next == 0 && given.send_next == 0
            &&& plain.recv_next == 0 && given.recv_next == 0
            &&& plain.outgoing.len() == 0 && given.outgoing.len() == 0
            &&& plain.outstanding.len() == 0 && given.outstanding.len() == 0
            &&& plain.reorder.len() == 0 && given.reorder.len() == 0
            &&& plain.inbox.len() == 0 && given.inbox.len() == 0
        }),
{
}

/// Two bytes spell a number, the high one first.
pub proof fn lemma_two_bytes(s: Seq<u8>, n: nat)
    ensures
        s.len() == 2 ==> be_value(s) == s[0] * 256 + s[1],
        be_bytes(n, 2) == seq![(n / 256 % 256) as u8, (n % 256) as u8],
{
    reveal_with_fuel(be_value, 3);
    reveal_with_fuel(be_bytes, 3);
    lemma_be_bytes(n, 2);
    assert(be_bytes(n, 2) =~= seq![(n / 256 % 256) as u8, (n % 256) as u8]);
}

/// An envelope on the wire is its type, its sequence and the length of its payload, each in two
/// bytes with the high one first, and then the payload; bytes are read the same way.
pub proof fn law_envelope_layout(e: EnvelopeModel, b: Seq<u8>)
    requires
        e.payload.len() <= 0xffff,
    ensures
        e.wire() == seq![
            (e.msgtype / 256) as u8,
            (e.msgtype % 256) as u8,
            (e.sequence / 256) as u8,
            (e.sequence % 256) as u8,
            (e.payload.len() / 256) as u8,
            (e.payload.len() % 256) as u8,
        ] + e.payload,
        b.len() >= 6 ==> (envelope_in(b) is Some <==> b.len() == 6 + b[4] * 256 + b[5]),
        b.len() < 6 ==> envelope_in(b) is None,
        envelope_in(b) matches Some(read) ==> read.msgtype == b[0] * 256 + b[1] && read.sequence
            == b[2] * 256 + b[3] && read.payload == b.subrange(6, b.len() as int),
{
    lemma_two_bytes(b.subrange(0, 2), e.msgtype as nat);
    lemma_two_bytes(b.subrange(2, 4), e.sequence as nat);
    lemma_two_bytes(b.subrange(4, 6), e.payload.len());
    assert(e.wire() =~= seq![
        (e.msgtype / 256) as u8,
        (e.msgtype % 256) as u8,
        (e.sequence / 256) as u8,
        (e.sequence % 256) as u8,
        (e.payload.len() / 256) as u8,
        (e.payload.len() % 256) as u8,
    ] + e.payload);
}

/// A frame on the wire is two bytes and its data. The top bit of the first says that the stream
/// ends, the next that the data is compressed, and the other fourteen are the stream's id.
pub proof fn law_frame_layout(f: FrameModel, b: Seq<u8>)
    requires
        f.stream_id < 0x4000,
    ensures
        f.wire().len() == 2 + f.data.len(),
        f.wire()[0] == f.stream_id / 256 + (if f.eof {
            128int
        } else {
            0
        }) + (if f.compressed {
            64int
        } else {
            0
        }),
        f.wire()[1] == f.stream_id % 256,
        f.wire().subrange(2, f.wire().len() as int) == f.data,
        b.len() < 2 ==> frame_in(b) is None,
        b.len() >= 2 ==> frame_in(b) == Some(
            FrameModel {
                stream_id: (b[0] % 64 * 256 + b[1]) as u16,
                eof: b[0] >= 128,
                compressed: b[0] / 64 % 2 == 1,
                data: b.subrange(2, b.len() as int),
            },
        ),
{
    lemma_two_bytes(b.subrange(0, 2), f.header());
    assert(f.wire().subrange(2, f.wire().len() as int) =~= f.data);
    if b.len() >= 2 {
        let hi = b[0] as int;
        let lo = b[1] as int;
        assert((hi * 256 + lo) % 0x4000 == hi % 64 * 256 + lo && ((hi * 256 + lo) / 0x8000 == 1
            <==> hi >= 128) && (hi * 256 + lo) / 0x4000 % 2 == hi / 64 % 2);
    }
}

/// A reader takes from a delivered message what is for its stream: the data of a plain frame is
/// appended, a compressed one is only noted, and the end of the stream is kept in mind. Nothing
/// else is read, and the channel stays as it is.
pub proof fn law_message_is_read_by_its_stream(m: BufferModel, message: Seq<u8>)
    ensures
        ({
            let after = m.after_message(message);
            let id = message[0] % 64 * 256 + message[1];
            let ours = message.len() >= 2 && id == m.recv_stream_id;
            let ends = message[0] >= 128;
            let packed = message[0] / 64 % 2 == 1;
            &&& !ours ==> after == m
            &&& ours ==> after.recv_eof == (m.recv_eof || ends)
            &&& ours ==> after.saw_unsupported == (m.saw_unsupported || packed)
            &&& ours && packed ==> after.read_buf == m.read_buf
            &&& ours && !packed ==> after.read_buf == m.read_buf + message.subrange(
                2,
                message.len() as int,
            )
            &&& after.channel == m.channel
            &&& after.max_chunk == m.max_chunk
            &&& after.send_stream_id == m.send_stream_id
            &&& after.recv_stream_id == m.recv_stream_id
        }),
{
    law_frame_layout(
        FrameModel { stream_id: 0, eof: false, compressed: false, data: Seq::empty() },
        message,
    );
}

/// Written bytes are cut in chunks of the largest size, the last as long as what is left, and
/// queued in their order as plain frames of the stream, as many as there is room for.
pub proof fn law_written_bytes_are_cut_in_chunks(m: BufferModel, bytes: Seq<u8>, queue: nat, k: int)
    requires
        m.wf(),
        m.channel.outgoing.len() <= queue,
        0 <= k,
        k * m.max_chunk < bytes.len(),
        m.channel.outgoing.len() + k < queue,
    ensures
        ({
            let after = m.after_write(bytes, queue).channel.outgoing;
            let from = k * m.max_chunk;
            let to = if from + m.max_chunk < bytes.len() {
                from + m.max_chunk
            } else {
                bytes.len() as int
            };
            let at = m.channel.outgoing.len() + k;
            &&& at < after.len()
            &&& after[at] == (FrameModel {
                stream_id: m.send_stream_id,
                eof: false,
                compressed: false,
                data: bytes.subrange(from, to),
            }).wire()
            &&& after.subrange(0, m.channel.outgoing.len() as int) == m.channel.outgoing
        }),
    decreases k,
{
    let c = m.max_chunk as int;
    assert(bytes.len() > 0) by (nonlinear_arith)
        requires
            0 <= k,
            c >= 1,
            k * c < bytes.len(),
    ;
    let n = m.chunk(bytes.len()) as int;
    let first = bytes.subrange(0, n);
    let rest = bytes.subrange(n, bytes.len() as int);
    let next = m.after_frame(first, false);
    let before = m.channel.outgoing;
    law_write_only_adds(next, rest, queue);
    let end = m.after_write(bytes, queue).channel.outgoing;
    assert(end == next.after_write(rest, queue).channel.outgoing);
    assert(end.subrange(0, before.len() as int) =~= end.subrange(
        0,
        (before.len() + 1) as int,
    ).subrange(0, before.len() as int));
    assert(next.channel.outgoing.subrange(0, before.len() as int) =~= before);
    if k == 0 {
        assert(end[before.len() as int] == end.subrange(0, (before.len() + 1) as int)[before.len() as int]);
        assert(0 * c == 0);
    } else {
        assert(n == c && (k - 1) * c + c == k * c && (k - 1) * c >= 0) by (nonlinear_arith)
            requires
                k >= 1,
                c >= 1,
                k * c < bytes.len(),
                n == (if bytes.len() < c {
                    bytes.len() as int
                } else {
                    c
                }),
        ;
        law_written_bytes_are_cut_in_chunks(next, rest, queue, k - 1);
        let from = (k - 1) * c;
        let to = if from + c < rest.len() {
            from + c
        } else {
            rest.len() as int
        };
        assert(rest.subrange(from, to) =~= bytes.subrange(from + c, to + c));
    }
}

/// Writing only adds to what is queued, and changes nothing else.
pub proof fn law_write_only_adds(m: BufferModel, bytes: Seq<u8>, queue: nat)
    ensures
        m.after_write(bytes, queue).channel.outgoing.len() >= m.channel.outgoing.len(),
        m.after_write(bytes, queue).channel.outgoing.subrange(
            0,
            m.channel.outgoing.len() as int,
        ) == m.channel.outgoing,
        m.after_write(bytes, queue) == (BufferModel {
            channel: ChannelModel {
                outgoing: m.after_write(bytes, queue).channel.outgoing,
                ..m.channel
            },
            ..m
        }),
    decreases bytes.len(),
{
    let n = m.chunk(bytes.len()) as int;
    let before = m.channel.outgoing;
    assert(before.subrange(0, before.len() as int) =~= before);
    if n != 0 && before.len() < queue {
        let next = m.after_frame(bytes.subrange(0, n), false);
        let rest = bytes.subrange(n, bytes.len() as int);
        law_write_only_adds(next, rest, queue);
        let end = m.after_write(bytes, queue).channel.outgoing;
        assert(end.subrange(0, before.len() as int) =~= end.subrange(
            0,
            (before.len() + 1) as int,
        ).subrange(0, before.len() as int));
        assert(next.channel.outgoing.subrange(0, before.len() as int) =~= before);
    }
}

/// A stream starts with nothing read, under ids that fit the header, with chunks of at least
/// one byte and no more than a frame carries.
pub proof fn law_stream_starts_empty(
    channel: ChannelModel,
    max_chunk: nat,
    send_stream_id: u16,
    recv_stream_id: u16,
)
    ensures
        ({
            let m = BufferModel::over(channel, max_chunk, send_stream_id, recv_stream_id);
            &&& m.channel == channel
            &&& m.read_buf.len() == 0
            &&& !m.recv_eof
            &&& !m.saw_unsupported
            &&& 1 <= m.max_chunk <= MAX_DATA_LEN
            &&& 1 <= max_chunk <= MAX_DATA_LEN ==> m.max_chunk == max_chunk
            &&& send_stream_id < 0x4000 ==> m.send_stream_id == send_stream_id
            &&& recv_stream_id < 0x4000 ==> m.recv_stream_id == recv_stream_id
            &&& send_stream_id >= 0x4000 ==> m.send_stream_id == 0x3fff
            &&& recv_stream_id >= 0x4000 ==> m.recv_stream_id == 0x3fff
        }),
{
}

} // verus!
