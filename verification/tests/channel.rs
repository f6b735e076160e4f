//! Reliable channels and the streams on them.

use std::collections::{BTreeMap, HashSet};

use retinue::channel::{
    Buffer, Channel, Envelope, StreamFrame, DEFAULT_RETX_TIMEOUT, MAX_DATA_LEN, STREAM_ID_MAX,
    STREAM_MSGTYPE, WINDOW_INITIAL,
};
use retinue::lossy::LossModel;

type Usual = Channel<64, 256, 256>;
type Deep = Channel<64, 4096, 256>;
type Stream = Buffer<64, 256, 256, 65_536>;

#[test]
fn lossless_in_order_delivery() {
    let mut tx: Usual = Channel::new(0xABCD);
    let mut rx: Usual = Channel::new(0xABCD);
    for i in 0u8..20 {
        tx.send(vec![i]).expect("the send queue has room");
    }
    let mut got = Vec::new();
    for now in 0..1000 {
        for e in tx.poll_transmit(now) {
            let seq = e.sequence;
            let _ = rx.handle(e);
            tx.on_proof(seq, now); // lossless: every packet is immediately proven
        }
        while let Some(m) = rx.recv() {
            got.push(m[0]);
        }
        if got.len() == 20 {
            break;
        }
    }
    assert_eq!(got, (0u8..20).collect::<Vec<_>>());
}

/// Run a byte stream through two Buffers across a deterministic lossy pipe on a virtual clock,
/// proving each delivered envelope back (subject to loss) — the proof-based model. Returns
/// nothing; asserts exact reconstruction.
fn stream_over_loss(drop_per_mille: u32, max_delay_ticks: u64, seed: u64) {
    let payload: Vec<u8> = (0..4000u32)
        .map(|i| (i.wrapping_mul(31).wrapping_add(7)) as u8)
        .collect();
    let mut tx: Stream = Buffer::new();
    let mut rx: Stream = Buffer::new();
    assert_eq!(
        tx.write(&payload),
        payload.len(),
        "the send queue took every byte"
    );

    let mut fwd = LossModel::new(seed)
        .drop_per_mille(drop_per_mille)
        .max_delay_ms(max_delay_ticks);
    let mut bwd = LossModel::new(seed ^ 0xFFFF)
        .drop_per_mille(drop_per_mille)
        .max_delay_ms(max_delay_ticks);

    // In flight: (arrival_tick, item). Forward carries envelopes; back carries the sequence of
    // a proof (the link auto-proves every received packet).
    let mut to_rx: Vec<(u64, Envelope)> = Vec::new();
    let mut to_tx: Vec<(u64, u16)> = Vec::new();
    let mut got: Vec<u8> = Vec::new();

    for now in 0..1_000_000u64 {
        for e in tx.poll_transmit(now) {
            if !fwd.should_drop() {
                to_rx.push((now + 1 + fwd.delay_ms(), e));
            }
        }
        // Deliver due envelopes; prove each one back (dup or not).
        let mut still = Vec::new();
        for (t, e) in core::mem::take(&mut to_rx) {
            if t <= now {
                let seq = e.sequence;
                let _ = rx.handle(e);
                if !bwd.should_drop() {
                    to_tx.push((now + 1 + bwd.delay_ms(), seq));
                }
            } else {
                still.push((t, e));
            }
        }
        to_rx = still;
        to_tx.retain(|(t, seq)| {
            if *t <= now {
                tx.on_proof(*seq, now);
                false
            } else {
                true
            }
        });
        got.extend(rx.read_available());
        if got.len() == payload.len() && tx.send_idle() {
            break;
        }
    }
    assert_eq!(got, payload, "stream must reconstruct exactly over loss");
}

#[test]
fn stream_survives_drop() {
    stream_over_loss(300, 0, 11);
}

#[test]
fn stream_survives_drop_reorder_and_delay() {
    stream_over_loss(250, 6, 99);
}

#[test]
fn heavy_loss_still_converges() {
    stream_over_loss(600, 3, 7);
}

/// Count how many envelopes `channel` puts on the wire to deliver `messages` messages over a
/// lossless pipe whose one-way delay is `rtt/2` ticks (so a data->proof round trip is `rtt`
/// ticks). Each sequence's proof returns once, `rtt` ticks after its first send; retransmits
/// issued before then are the waste this measures.
fn transmissions_over_rtt(mut channel: Usual, rtt: u64, messages: usize) -> usize {
    for m in 0..messages {
        channel
            .send(vec![m as u8])
            .expect("the send queue has room");
    }
    let mut proof_at: BTreeMap<u64, Vec<u16>> = BTreeMap::new();
    let mut scheduled: HashSet<u16> = HashSet::new();
    let mut total = 0usize;
    for now in 0..2_000_000u64 {
        if let Some(seqs) = proof_at.remove(&now) {
            for s in seqs {
                channel.on_proof(s, now);
            }
        }
        for env in channel.poll_transmit(now) {
            total += 1;
            if scheduled.insert(env.sequence) {
                proof_at.entry(now + rtt).or_default().push(env.sequence);
            }
        }
        if channel.send_idle() {
            break;
        }
    }
    assert!(channel.send_idle(), "the transfer completed");
    total
}

/// The adaptive retransmit timeout must not storm a slow medium. Over a 1000-tick round trip,
/// the dynamic channel keys its timeout off the measured RTT and sends close to one
/// transmission per message; a fixed 4-tick timeout retransmits each packet hundreds of times
/// before its proof can return.
#[test]
fn adaptive_timeout_does_not_storm_a_high_rtt_link() {
    let messages = 16;
    let rtt = 1000;

    let adaptive = transmissions_over_rtt(Channel::new(STREAM_MSGTYPE), rtt, messages);
    let fixed_tiny = transmissions_over_rtt(
        Channel::with_params(STREAM_MSGTYPE, 8, DEFAULT_RETX_TIMEOUT),
        rtt,
        messages,
    );

    // The adaptive channel sends roughly one frame per message (a small startup burst is
    // allowed while its RTT estimate settles).
    assert!(
        adaptive < messages * 3,
        "adaptive sent {adaptive} for {messages} messages (should be near {messages})"
    );
    // The fixed tiny timeout storms: an order of magnitude more, and far worse than adaptive.
    assert!(
        fixed_tiny > messages * 10,
        "fixed-4 sent {fixed_tiny}, expected a retransmit storm"
    );
    assert!(
        fixed_tiny > adaptive * 5,
        "adaptive {adaptive} should be dramatically leaner than fixed {fixed_tiny}"
    );
}

#[test]
fn max_window_one_serializes_half_duplex_turns() {
    let mut channel: Usual = Channel::with_initial_rtt_and_max_window(STREAM_MSGTYPE, 5_000, 1);
    channel.send(vec![1]).expect("the send queue has room");
    channel.send(vec![2]).expect("the send queue has room");

    let first = channel.poll_transmit(0);
    assert_eq!(first.len(), 1);
    assert_eq!(channel.window(), 1);
    assert!(channel.poll_transmit(1).is_empty());

    channel.on_proof(first[0].sequence, 2);
    let second = channel.poll_transmit(2);
    assert_eq!(second.len(), 1);
    assert_eq!(channel.window(), 1);
}

#[test]
fn sequence_wraps_past_the_16bit_modulus() {
    // Push more than 65536 messages so the sequence wraps, and confirm order holds across the
    // wrap. Small window keeps it quick.
    let mut tx: Usual = Channel::with_params(0x0001, 4, 2);
    let mut rx: Usual = Channel::with_params(0x0001, 4, 2);
    let total = 70_000u32; // > SEQ_MODULUS
    let mut sent = 0u32;
    let mut got = 0u32;
    for now in 0..5_000_000u64 {
        while sent < total && tx.in_flight() < 4 && tx.send_room() > 0 {
            tx.send(vec![(sent % 251) as u8])
                .expect("the send queue has room");
            sent += 1;
        }
        for e in tx.poll_transmit(now) {
            let seq = e.sequence;
            let _ = rx.handle(e);
            tx.on_proof(seq, now);
        }
        while let Some(m) = rx.recv() {
            assert_eq!(m, vec![(got % 251) as u8], "in order across the wrap");
            got += 1;
        }
        if got == total {
            break;
        }
    }
    assert_eq!(got, total, "all delivered across the sequence wrap");
}

#[test]
fn window_grows_on_sustained_clean_proofs() {
    // A dynamic channel starts at WINDOW_INITIAL. Prove a long run of packets cleanly and
    // promptly (one-tick round trip), and the window climbs step by step into the fast RTT
    // tier.
    let mut c: Deep = Channel::new(0x0001);
    assert_eq!(c.window(), WINDOW_INITIAL, "starts at the initial window");
    for i in 0..2000u16 {
        c.send(vec![i as u8]).expect("the send queue has room");
    }
    let mut now = 0u64;
    let mut proven = 0u32;
    // Each poll sends `window` fresh envelopes; we prove them all one tick later. The outer
    // bound is a safety net — growth reaches the ceiling in ~40 polls.
    for _ in 0..100_000 {
        if proven >= 2000 {
            break;
        }
        let envs = c.poll_transmit(now);
        now += 1;
        for e in envs {
            c.on_proof(e.sequence, now);
            proven += 1;
        }
    }
    assert_eq!(proven, 2000, "proved every packet");
    assert!(
        c.window() > WINDOW_INITIAL,
        "window grew (got {})",
        c.window()
    );
    assert!(
        c.window() >= 16,
        "climbed into the fast tier (got {})",
        c.window()
    );
}

#[test]
fn window_shrinks_on_retransmit() {
    // Grow the window with clean proofs, then let fresh packets go unproven past the
    // retransmit timeout: the retransmit backs the window off toward the tier floor.
    let mut c: Deep = Channel::new(0x0001);
    for i in 0..2000u16 {
        c.send(vec![i as u8]).expect("the send queue has room");
    }
    let mut now = 0u64;
    let mut proven = 0u32;
    for _ in 0..100_000 {
        if proven >= 2000 {
            break;
        }
        let envs = c.poll_transmit(now);
        now += 1;
        for e in envs {
            c.on_proof(e.sequence, now);
            proven += 1;
        }
    }
    let grown = c.window();
    assert!(
        grown > 20,
        "window grew well above the floor first (got {})",
        grown
    );

    // New data goes out, and nobody proves it. Past the timeout it retransmits.
    for i in 0..8u16 {
        c.send(vec![i as u8]).expect("the send queue has room");
    }
    let fresh = c.poll_transmit(now);
    assert!(!fresh.is_empty(), "fresh data went out");
    now += DEFAULT_RETX_TIMEOUT + 1;
    let resent = c.poll_transmit(now);
    assert!(!resent.is_empty(), "unproven data retransmitted");
    assert!(
        c.window() < grown,
        "window shrank on retransmit ({grown} -> {})",
        c.window()
    );
}

fn feed(r: &mut Stream, seq: u16, f: StreamFrame) {
    let _ = r.handle(Envelope {
        msgtype: STREAM_MSGTYPE,
        sequence: seq,
        payload: f.encode(),
    });
}

fn frame(stream_id: u16, eof: bool, compressed: bool, data: Vec<u8>) -> StreamFrame {
    StreamFrame {
        stream_id,
        eof,
        compressed,
        data,
    }
}

#[test]
fn buffer_demuxes_by_stream_id_and_signals_eof() {
    // One channel carries two streams. A reader bound to stream 5 delivers only stream 5's
    // bytes in order, ignores stream 9, and reports eof from stream 5 — not from stream 9's
    // earlier eof.
    let mut r5: Stream = Buffer::with_streams(Channel::new(STREAM_MSGTYPE), 8, 0, 5);
    feed(&mut r5, 0, frame(5, false, false, vec![1, 2, 3]));
    feed(&mut r5, 1, frame(9, false, false, vec![0xAA]));
    feed(&mut r5, 2, frame(5, false, false, vec![4, 5]));
    feed(&mut r5, 3, frame(9, true, false, vec![]));
    assert!(!r5.recv_finished(), "stream 9's eof must not end stream 5");
    feed(&mut r5, 4, frame(5, true, false, vec![6]));
    assert_eq!(
        r5.read_available(),
        vec![1, 2, 3, 4, 5, 6],
        "only stream 5, in order"
    );
    assert!(r5.recv_finished(), "stream 5's eof");
}

#[test]
fn compressed_frame_is_flagged_not_corrupting() {
    // A compressed frame cannot be decoded yet. Its bytes must be dropped and surfaced, never
    // spliced into the stream as if they were data.
    let mut r: Stream = Buffer::with_streams(Channel::new(STREAM_MSGTYPE), 8, 0, 0);
    feed(&mut r, 0, frame(0, false, false, vec![1, 2]));
    feed(&mut r, 1, frame(0, false, true, vec![9, 9, 9]));
    feed(&mut r, 2, frame(0, false, false, vec![3]));
    assert_eq!(
        r.read_available(),
        vec![1, 2, 3],
        "compressed bytes dropped, not appended"
    );
    assert!(
        r.had_unsupported_frame(),
        "the compressed frame was surfaced"
    );
}

#[test]
fn buffer_stream_round_trips_with_finish() {
    // The everyday path: write a payload and finish() over the lossless proof model; the
    // reader reconstructs it exactly and sees eof.
    let mut tx: Stream = Buffer::with_streams(Channel::new(STREAM_MSGTYPE), MAX_DATA_LEN, 3, 3);
    let mut rx: Stream = Buffer::with_streams(Channel::new(STREAM_MSGTYPE), MAX_DATA_LEN, 3, 3);
    let payload: Vec<u8> = (0..2000u32).map(|i| (i * 7 + 1) as u8).collect();
    assert_eq!(
        tx.write(&payload),
        payload.len(),
        "the send queue took every byte"
    );
    assert!(tx.finish(), "the send queue had room for eof");
    let mut got = Vec::new();
    for now in 0..100_000u64 {
        let envs = tx.poll_transmit(now);
        if envs.is_empty() && tx.send_idle() {
            break;
        }
        for e in envs {
            let seq = e.sequence;
            let _ = rx.handle(e);
            tx.on_proof(seq, now);
        }
        got.extend(rx.read_available());
    }
    got.extend(rx.read_available());
    assert_eq!(got, payload, "stream reconstructs exactly");
    assert!(rx.recv_finished(), "reader saw the writer's eof");
}

#[test]
fn envelope_layout_is_big_endian() {
    let env = Envelope {
        msgtype: 0xFF00,
        sequence: 0x0102,
        payload: b"abc".to_vec(),
    };
    let wire = vec![0xFF, 0x00, 0x01, 0x02, 0x00, 0x03, b'a', b'b', b'c'];
    assert_eq!(env.encode(), wire);
    assert_eq!(Envelope::decode(&wire), Some(env));
    assert_eq!(Envelope::decode(&wire[..5]), None);
    assert_eq!(Envelope::decode(&wire[..8]), None);
    let longer = [0x00, 0x01, 0x00, 0x02, 0x00, 0x01, 0xAA, 0xBB];
    assert_eq!(Envelope::decode(&longer), None);
}

#[test]
fn frame_header_packs_flags_above_the_id() {
    let f = frame(STREAM_ID_MAX, true, false, vec![7]);
    assert_eq!(f.encode(), vec![0xBF, 0xFF, 7]);
    assert_eq!(StreamFrame::decode(&[0xBF, 0xFF, 7]), Some(f));
    assert_eq!(
        StreamFrame::decode(&[0x40, 0x05]),
        Some(frame(5, false, true, vec![]))
    );
    assert_eq!(StreamFrame::decode(&[0x40]), None);
}

fn envelope(sequence: u16, byte: u8) -> Envelope {
    Envelope {
        msgtype: 1,
        sequence,
        payload: vec![byte],
    }
}

#[test]
fn a_full_inbox_withholds_the_proof_and_keeps_nothing() {
    let mut rx: Channel<2, 2, 2> = Channel::new(1);
    assert!(rx.handle(envelope(0, 10)));
    assert!(rx.handle(envelope(1, 11)));
    assert!(!rx.handle(envelope(2, 12)), "nobody reads");
    assert_eq!(rx.recv(), Some(vec![10]));
    assert!(rx.handle(envelope(2, 12)), "the resend is taken");
    assert_eq!(rx.recv(), Some(vec![11]));
    assert_eq!(rx.recv(), Some(vec![12]));
    assert_eq!(rx.recv(), None);
}

#[test]
fn a_full_reorder_buffer_withholds_new_gap_fillers_only() {
    let mut rx: Channel<2, 8, 2> = Channel::new(1);
    assert!(rx.handle(envelope(2, 12)));
    assert!(rx.handle(envelope(3, 13)));
    assert!(!rx.handle(envelope(4, 14)), "no room for another");
    assert!(rx.handle(envelope(2, 99)), "one that is held is proved");
    assert!(rx.handle(envelope(1, 11)) == false);
    assert!(rx.handle(envelope(0, 10)));
    assert_eq!(rx.recv(), Some(vec![10]));
    assert!(rx.handle(envelope(1, 11)));
    assert_eq!(rx.recv(), Some(vec![11]));
    assert_eq!(rx.recv(), Some(vec![12]), "the first copy was kept");
    assert_eq!(rx.recv(), Some(vec![13]));
    assert!(rx.handle(envelope(0, 77)), "a duplicate is proved");
    assert_eq!(rx.recv(), None);
}

#[test]
fn a_full_send_queue_hands_the_payload_back() {
    let mut tx: Channel<2, 2, 2> = Channel::with_params(1, 1, 100);
    assert_eq!(tx.send_room(), 2);
    assert_eq!(tx.send(vec![1]), Ok(()));
    assert_eq!(tx.send(vec![2]), Ok(()));
    assert_eq!(tx.send(vec![3]), Err(vec![3]));
    assert_eq!(tx.poll_transmit(0), vec![envelope(0, 1)]);
    assert_eq!(tx.send_room(), 1);
    assert_eq!(tx.in_flight(), 1);
    assert!(!tx.send_idle());
}

#[test]
fn what_is_overdue_goes_out_again_with_its_sequence() {
    let mut tx: Channel<2, 2, 2> = Channel::with_params(1, 1, 5);
    tx.send(vec![1]).unwrap();
    assert_eq!(tx.poll_transmit(0), vec![envelope(0, 1)]);
    assert_eq!(tx.poll_transmit(4), vec![]);
    assert_eq!(tx.poll_transmit(5), vec![envelope(0, 1)]);
    assert_eq!(tx.poll_transmit(9), vec![]);
    assert_eq!(tx.poll_transmit(10), vec![envelope(0, 1)]);
    tx.on_proof(0, 11);
    assert!(tx.send_idle());
}

#[test]
fn a_write_splits_on_frames_and_stops_when_full() {
    let mut tx: Buffer<2, 2, 2, 64> = Buffer::with_max_chunk(4);
    assert_eq!(tx.write(b"abcdefghij"), 8, "two chunks of four");
    assert!(!tx.finish(), "no room for the eof");
    let mut rx: Buffer<2, 2, 2, 64> = Buffer::with_max_chunk(4);
    let out = tx.poll_transmit(0);
    assert_eq!(out.len(), 2);
    for e in out {
        assert!(rx.handle(e));
    }
    let mut buf = [0u8; 3];
    assert_eq!(rx.read(&mut buf), 3);
    assert_eq!(&buf, b"abc");
    assert_eq!(rx.read_available(), b"defgh".to_vec());
    assert_eq!(rx.read(&mut buf), 0);
}

#[test]
fn a_slow_reader_leaves_messages_in_the_inbox() {
    let mut tx: Buffer<4, 4, 4, 3> = Buffer::with_policy(10, 4, 2);
    let mut rx: Buffer<4, 4, 4, 3> = Buffer::with_policy(10, 4, 2);
    assert_eq!(tx.window(), 2);
    assert_eq!(tx.write(b"abcdef"), 6);
    for now in 0..4 {
        for e in tx.poll_transmit(now) {
            let seq = e.sequence;
            assert!(rx.handle(e));
            tx.on_proof(seq, now);
        }
    }
    let mut out = [0u8; 8];
    assert_eq!(rx.read(&mut out), 4, "past three, it stops");
    assert_eq!(&out[..4], b"abcd");
    assert_eq!(rx.read(&mut out), 2);
    assert_eq!(&out[..2], b"ef");
}

#[test]
fn windows_are_clamped_to_the_table() {
    let small: Channel<4, 8, 8> = Channel::with_params(1, 100, 1);
    assert_eq!(small.window(), 4);
    let none: Channel<4, 8, 8> = Channel::with_params(1, 0, 1);
    assert_eq!(none.window(), 1);
    let large: Channel<64, 8, 8> = Channel::with_params(1, 100, 1);
    assert_eq!(large.window(), 48);
    let usual: Stream = Buffer::default();
    assert_eq!(usual.window(), WINDOW_INITIAL);
}

#[test]
fn a_held_frame_is_read_once_the_inbox_has_room() {
    let mut c: Channel<64, 1, 256> = Channel::new(7);
    let envelope = |sequence, byte| Envelope {
        msgtype: 7,
        sequence,
        payload: vec![byte],
    };
    assert!(c.handle(envelope(1, 0xB)));
    assert!(c.handle(envelope(2, 0xC)));
    assert!(c.handle(envelope(0, 0xA)));
    assert_eq!(c.recv(), Some(vec![0xA]));
    assert_eq!(c.recv(), Some(vec![0xB]));
    assert_eq!(c.recv(), Some(vec![0xC]));
    assert_eq!(c.recv(), None);
}

#[test]
fn a_reader_takes_what_a_small_inbox_held_back() {
    let mut tx: Buffer<4, 4, 4, 3> = Buffer::with_policy(10, 4, 2);
    let mut rx: Buffer<4, 1, 4, 3> = Buffer::with_policy(10, 4, 2);
    assert_eq!(tx.write(b"abcdef"), 6);
    let mut sent = Vec::new();
    for now in 0..4 {
        for e in tx.poll_transmit(now) {
            tx.on_proof(e.sequence, now);
            sent.push(e);
        }
    }
    assert_eq!(sent.len(), 3);
    for e in sent.into_iter().rev() {
        assert!(rx.handle(e));
    }
    assert_eq!(rx.read_available(), b"abcdef".to_vec());
    assert_eq!(rx.read_available(), Vec::<u8>::new());
}

#[test]
fn new_envelopes_go_first_and_then_exactly_the_overdue() {
    let mut c: Channel<4, 8, 8> = Channel::with_params(7, 3, 10);
    for byte in 0..5u8 {
        c.send(vec![byte]).expect("the send queue has room");
    }
    let sequences = |out: Vec<Envelope>| -> Vec<(u16, u8)> {
        out.iter().map(|e| (e.sequence, e.payload[0])).collect()
    };
    assert_eq!(sequences(c.poll_transmit(0)), [(0, 0), (1, 1), (2, 2)]);
    assert_eq!(c.in_flight(), 3);
    assert_eq!(sequences(c.poll_transmit(5)), []);
    c.on_proof(1, 5);
    assert_eq!(sequences(c.poll_transmit(5)), [(3, 3)]);
    c.on_proof(0, 10);
    // The fourth was sent at five, so only the third is overdue.
    assert_eq!(sequences(c.poll_transmit(10)), [(4, 4), (2, 2)]);
    assert_eq!(c.in_flight(), 3);
}

#[test]
fn a_stream_id_is_clamped_to_the_largest() {
    let channel = || -> Usual { Channel::new(STREAM_MSGTYPE) };
    let mut tx: Stream = Buffer::with_streams(channel(), 8, 0x4001, 0);
    let mut rx: Stream = Buffer::with_streams(channel(), 8, 0, STREAM_ID_MAX);
    assert_eq!(tx.write(b"abc"), 3);
    for e in tx.poll_transmit(0) {
        assert_eq!(
            StreamFrame::decode(&e.payload).map(|f| f.stream_id),
            Some(STREAM_ID_MAX)
        );
        assert!(rx.handle(e));
    }
    assert_eq!(rx.read_available(), b"abc".to_vec());
}
