//! Reliable link streams.

use retinue::channel::Envelope;
use retinue::endpoint::reliable::{EventOutcome, ReliableStream, StreamEvent, Turn};

type Stream = ReliableStream<64, 256, 256, 65_536>;

fn arrive(stream: &mut Stream, envelope: Envelope) -> EventOutcome {
    stream.on_event(StreamEvent::Arrived { envelope })
}

/// Carry everything across a perfect link until neither side has more to say.
fn settle(a: &mut Stream, b: &mut Stream) -> (Vec<u8>, Vec<u8>, bool, bool) {
    let (mut to_a, mut to_b) = (Vec::new(), Vec::new());
    let (mut a_done, mut b_done) = (false, false);
    for _ in 0..64 {
        let Turn { transmit, done } = a.turn();
        a_done |= done;
        for e in transmit {
            let sequence = e.sequence;
            let outcome = arrive(b, e);
            to_b.extend(outcome.deliver);
            if outcome.prove {
                a.on_event(StreamEvent::Proved { sequence });
            }
        }
        let Turn { transmit, done } = b.turn();
        b_done |= done;
        for e in transmit {
            let sequence = e.sequence;
            let outcome = arrive(a, e);
            to_a.extend(outcome.deliver);
            if outcome.prove {
                b.on_event(StreamEvent::Proved { sequence });
            }
        }
        a.on_event(StreamEvent::Ticked);
        b.on_event(StreamEvent::Ticked);
    }
    (to_a, to_b, a_done, b_done)
}

#[test]
fn half_close_still_delivers_the_reply() {
    let mut a: Stream = ReliableStream::new(true, 100, 48);
    let mut b: Stream = ReliableStream::new(false, 100, 48);
    a.on_event(StreamEvent::Wrote {
        chunk: b"question".to_vec(),
    });
    a.on_event(StreamEvent::Closed);
    assert!(!a.wants_read(), "the writer closed");
    let (_, to_b, a_done, b_done) = settle(&mut a, &mut b);
    assert_eq!(to_b, b"question".to_vec());
    assert!(!a_done && !b_done, "b has not ended yet");

    b.on_event(StreamEvent::Wrote {
        chunk: b"answer".to_vec(),
    });
    b.on_event(StreamEvent::Closed);
    let (to_a, _, a_done, b_done) = settle(&mut a, &mut b);
    assert_eq!(to_a, b"answer".to_vec());
    assert!(a_done && b_done);
}

#[test]
fn backpressure_keeps_every_byte() {
    // The queue takes two frames of 423 bytes; the rest waits, in order.
    let mut a: ReliableStream<2, 2, 2, 4096> = ReliableStream::new(true, 1, 1);
    let mut b: ReliableStream<2, 2, 2, 4096> = ReliableStream::new(false, 1, 1);
    let all: Vec<u8> = (0..5_000u32).map(|i| (i % 251) as u8).collect();
    a.on_event(StreamEvent::Wrote { chunk: all.clone() });
    assert!(!a.wants_read(), "bytes wait, so the application is not read");
    let mut got = Vec::new();
    for _ in 0..200 {
        for e in a.turn().transmit {
            let sequence = e.sequence;
            let outcome = b.on_event(StreamEvent::Arrived { envelope: e });
            got.extend(outcome.deliver);
            assert!(outcome.prove);
            a.on_event(StreamEvent::Proved { sequence });
        }
        a.on_event(StreamEvent::Ticked);
    }
    assert_eq!(got, all);
    assert!(a.wants_read());
}

#[test]
fn an_initiator_identifies_itself_a_few_times() {
    let mut a: Stream = ReliableStream::new(true, 100, 48);
    let again: Vec<bool> = (0..6)
        .map(|_| a.on_event(StreamEvent::Ticked).identify)
        .collect();
    assert_eq!(again, vec![true, true, true, false, false, false]);
    let mut b: Stream = ReliableStream::new(false, 100, 48);
    assert!(!b.on_event(StreamEvent::Ticked).identify);
}

#[test]
fn an_arrival_hands_on_all_that_was_held() {
    let mut a: ReliableStream<4, 4, 4, 8> = ReliableStream::new(true, 1, 4);
    let mut b: ReliableStream<4, 1, 4, 8> = ReliableStream::new(false, 1, 4);
    let all: Vec<u8> = (0..1_000u32).map(|i| (i % 251) as u8).collect();
    a.on_event(StreamEvent::Wrote { chunk: all.clone() });
    a.on_event(StreamEvent::Closed);
    let mut sent = Vec::new();
    for _ in 0..8 {
        for e in a.turn().transmit {
            a.on_event(StreamEvent::Proved { sequence: e.sequence });
            sent.push(e);
        }
        a.on_event(StreamEvent::Ticked);
    }
    assert_eq!(sent.len(), 4, "three frames of data and the end");
    let first = sent.remove(0);
    for e in sent.into_iter().rev() {
        let outcome = b.on_event(StreamEvent::Arrived { envelope: e });
        assert!(outcome.prove && outcome.deliver.is_empty() && !outcome.peer_ended);
    }
    let outcome = b.on_event(StreamEvent::Arrived { envelope: first });
    assert_eq!(outcome.deliver, all);
    assert!(outcome.peer_ended);
}
