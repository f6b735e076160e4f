//! HDLC framing.

use retinue::iface::hdlc::{frame, Deframer, FLAG, MAX_FRAME};

#[test]
fn round_trip_without_special_bytes() {
    let packet = b"no special bytes here";
    let framed = frame(packet);
    assert_eq!(framed[0], FLAG);
    assert_eq!(*framed.last().unwrap(), FLAG);

    let mut d = Deframer::new();
    assert_eq!(d.push(&framed), vec![packet.to_vec()]);
}

#[test]
fn both_special_bytes_are_escaped() {
    let framed = frame(&[0x7E, 0x7D, 0x00]);
    assert_eq!(framed, vec![FLAG, 0x7D, 0x5E, 0x7D, 0x5D, 0x00, FLAG]);

    let mut d = Deframer::new();
    assert_eq!(d.push(&framed), vec![vec![0x7E, 0x7D, 0x00]]);
}

/// TCP splits wherever it likes, including in the middle of an escape sequence.
#[test]
fn a_frame_split_across_chunks_reassembles() {
    let packet = [0x01, 0x7E, 0x02, 0x7D, 0x03];
    let framed = frame(&packet);

    let mut d = Deframer::new();
    let mut got = Vec::new();
    // One byte at a time: the worst case, and it must still work.
    for &b in &framed {
        got.extend(d.push(&[b]));
    }
    assert_eq!(got, vec![packet.to_vec()]);
}

#[test]
fn adjacent_flags_do_not_produce_empty_frames() {
    let mut d = Deframer::new();
    let frames = d.push(&[FLAG, FLAG, 0x01, 0x02, FLAG, FLAG]);
    assert_eq!(frames, vec![vec![0x01, 0x02]]);
}

#[test]
fn junk_before_the_first_flag_is_ignored() {
    let mut d = Deframer::new();
    let mut stream = vec![0xAA, 0xBB];
    stream.extend(frame(b"ok"));
    assert_eq!(d.push(&stream), vec![b"ok".to_vec()]);
}

/// A peer that opens a frame and streams bytes without ever sending the closing flag must
/// not make us buffer without bound. The over-length frame is discarded, and a normal
/// frame after the next flag still parses — the deframer resynchronises.
#[test]
fn an_unbounded_frame_is_discarded_and_resynchronises() {
    let mut d = Deframer::new();
    // Open a frame, then feed well past MAX_FRAME with no closing flag.
    d.push(&[FLAG]);
    let flood = vec![0x00u8; MAX_FRAME * 4];
    assert!(d.push(&flood).is_empty(), "no frame completes");
    // The internal buffer stayed bounded rather than holding all the flood.
    assert!(d.buffered() <= MAX_FRAME, "buffer is capped at MAX_FRAME");
    // A genuine frame after the next flag is delivered intact.
    assert_eq!(d.push(&frame(b"after")), vec![b"after".to_vec()]);
}
