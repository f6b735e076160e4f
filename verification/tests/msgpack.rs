//! The MessagePack codec.

use retinue::msgpack::{decode, encode, Error, Value, MAX_DEPTH};

fn round_trip(value: Value) {
    let bytes = encode(&value);
    assert_eq!(decode(&bytes).unwrap(), value);
}

#[test]
fn encodes_the_shortest_header_for_each_width() {
    assert_eq!(encode(&Value::Uint(0x7f)), vec![0x7f]);
    assert_eq!(encode(&Value::Uint(0x80)), vec![0xcc, 0x80]);
    assert_eq!(encode(&Value::Uint(0x100)), vec![0xcd, 0x01, 0x00]);
    assert_eq!(
        encode(&Value::Uint(0x1_0000)),
        vec![0xce, 0x00, 0x01, 0x00, 0x00]
    );
    assert_eq!(encode(&Value::Int(-1)), vec![0xff]);
    assert_eq!(encode(&Value::Int(-32)), vec![0xe0]);
    assert_eq!(encode(&Value::Int(-33)), vec![0xd0, 0xdf]);
    assert_eq!(encode(&Value::Int(-129)), vec![0xd1, 0xff, 0x7f]);
}

#[test]
fn a_non_negative_int_takes_the_shorter_unsigned_encoding() {
    // Canonical means shortest, so there is exactly one encoding of 5 and it decodes as
    // an unsigned value. This is asymmetric on purpose: the alternative is two spellings
    // of the same number, and a signature over "the same number" that does not match.
    for n in [0_i64, 5, 127, 128, 300] {
        assert_eq!(encode(&Value::Int(n)), encode(&Value::Uint(n as u64)));
        assert_eq!(
            decode(&encode(&Value::Int(n))).unwrap(),
            Value::Uint(n as u64)
        );
    }
    assert_eq!(
        encode(&Value::Str("one".into())),
        vec![0xa3, b'o', b'n', b'e']
    );
    assert_eq!(encode(&Value::Bin(vec![1, 2])), vec![0xc4, 0x02, 1, 2]);
    assert_eq!(encode(&Value::Array(vec![Value::Nil])), vec![0x91, 0xc0]);
}

#[test]
fn round_trips_the_shapes_the_envelope_uses() {
    round_trip(Value::Dict(vec![
        (Value::Str("hashtype".into()), Value::Str("sha256".into())),
        (Value::Str("hash".into()), Value::Bin(vec![0xaa; 32])),
        (
            Value::Str("meta".into()),
            Value::Dict(vec![
                (Value::Str("version".into()), Value::Uint(3)),
                (
                    Value::Str("tags".into()),
                    Value::Array(vec![Value::Str("one".into()), Value::Str("two".into())]),
                ),
                (Value::Str("stable".into()), Value::Bool(true)),
            ]),
        ),
    ]));
}

#[test]
fn round_trips_lengths_that_cross_every_header_boundary() {
    for len in [0, 31, 32, 255, 256, 300] {
        round_trip(Value::Str("x".repeat(len)));
        round_trip(Value::Bin(vec![0x5a; len]));
    }
    for count in [0, 15, 16, 20] {
        round_trip(Value::Array(vec![Value::Uint(1); count]));
        round_trip(Value::Dict(vec![(Value::Uint(1), Value::Nil); count]));
    }
}

#[test]
fn a_container_cannot_claim_more_elements_than_bytes_remain() {
    // map32 claiming four billion pairs, with nothing behind it. The bound has to be
    // checked before the allocation, or this is an out-of-memory abort on a board.
    assert_eq!(
        decode(&[0xdf, 0xff, 0xff, 0xff, 0xff]),
        Err(Error::Truncated)
    );
    assert_eq!(
        decode(&[0xdd, 0xff, 0xff, 0xff, 0xff]),
        Err(Error::Truncated)
    );
    // Same for a declared byte length that outruns the buffer.
    assert_eq!(
        decode(&[0xc6, 0xff, 0xff, 0xff, 0xff]),
        Err(Error::Truncated)
    );
}

#[test]
fn nesting_is_bounded() {
    // MAX_DEPTH + 2 nested one-element arrays: deep enough to trip the guard rather
    // than the recursion.
    let deep: Vec<u8> = core::iter::repeat_n(0x91, MAX_DEPTH as usize + 2)
        .chain(core::iter::once(0xc0))
        .collect();
    assert_eq!(decode(&deep), Err(Error::TooDeep));
}

#[test]
fn trailing_bytes_are_refused() {
    assert_eq!(decode(&[0xc0, 0xc0]), Err(Error::Trailing));
}

#[test]
fn unsupported_types_are_refused_rather_than_guessed() {
    // float64 and a fixext are both well-formed MessagePack this codec declines to read.
    assert_eq!(
        decode(&[0xcb, 0, 0, 0, 0, 0, 0, 0, 0]),
        Err(Error::Unsupported)
    );
    assert_eq!(decode(&[0xd4, 0x00, 0x00]), Err(Error::Unsupported));
}

#[test]
fn a_string_that_is_not_utf8_is_refused() {
    assert_eq!(decode(&[0xa1, 0xff]), Err(Error::BadUtf8));
}

#[test]
fn get_finds_string_keys_and_ignores_others() {
    let map = Value::Dict(vec![
        (Value::Uint(1), Value::Str("not a key".into())),
        (Value::Str("name".into()), Value::Str("retinue".into())),
    ]);
    assert_eq!(map.get("name").and_then(Value::as_str), Some("retinue"));
    assert!(map.get("missing").is_none());
}

/// What reads back is the value, at every integer width and in every container.
#[test]
fn integers_round_trip_at_every_width() {
    for n in [0, 0x7f, 0x80, 0xff, 0x100, 0xffff, 0x1_0000, 0xffff_ffff, 0x1_0000_0000, u64::MAX] {
        round_trip(Value::Uint(n));
    }
    for n in [-1, -32, -33, -128, -129, -32768, -32769, -2147483648, -2147483649, i64::MIN] {
        round_trip(Value::Int(n));
    }
    assert_eq!(
        encode(&Value::Int(i64::MIN)),
        vec![0xd3, 0x80, 0, 0, 0, 0, 0, 0, 0]
    );
    assert_eq!(
        encode(&Value::Uint(u64::MAX)),
        vec![0xcf, 0xff, 0xff, 0xff, 0xff, 0xff, 0xff, 0xff, 0xff]
    );
}

#[test]
fn the_deepest_nesting_that_fits_is_read() {
    let mut value = Value::Array(vec![]);
    for _ in 0..MAX_DEPTH {
        value = Value::Array(vec![value]);
    }
    round_trip(value);
}

#[test]
fn text_is_measured_in_bytes() {
    assert_eq!(
        encode(&Value::Str("\u{e9}".into())),
        vec![0xa2, 0xc3, 0xa9]
    );
    assert_eq!(
        decode(&[0xa2, 0xc3, 0xa9]),
        Ok(Value::Str("\u{e9}".into()))
    );
}

#[test]
fn the_first_of_two_equal_keys_wins() {
    let map = Value::Dict(vec![
        (Value::Str("k".into()), Value::Uint(1)),
        (Value::Str("k".into()), Value::Uint(2)),
    ]);
    assert_eq!(map.get("k"), Some(&Value::Uint(1)));
    assert_eq!(map.clone(), map);
    assert_eq!(map.as_map().map(|entries| entries.len()), Some(2));
    assert_eq!(Value::Nil.get("k"), None);
    assert_eq!(Value::Bin(vec![7]).as_bin(), Some(&[7u8][..]));
}

#[test]
fn every_proper_prefix_is_refused() {
    let value = Value::Dict(vec![
        (Value::Str("key".into()), Value::Bin(vec![7; 300])),
        (
            Value::Str("list".into()),
            Value::Array(vec![Value::Uint(70_000), Value::Int(-200), Value::Nil]),
        ),
    ]);
    let bytes = encode(&value);
    for len in 0..bytes.len() {
        assert!(decode(&bytes[..len]).is_err(), "{len} bytes are no value");
    }
    assert_eq!(decode(&bytes), Ok(value));
}

#[test]
fn a_longer_spelling_is_read_and_written_short() {
    for longer in [
        vec![0xcc, 0x05],
        vec![0xcf, 0, 0, 0, 0, 0, 0, 0, 5],
        vec![0xd3, 0xff, 0xff, 0xff, 0xff, 0xff, 0xff, 0xff, 0xff],
        vec![0xd9, 0x01, b'a'],
        vec![0xc6, 0, 0, 0, 1, 9],
        vec![0xdd, 0, 0, 0, 1, 0xc0],
        vec![0xdf, 0, 0, 0, 1, 0xc0, 0xc3],
    ] {
        let value = decode(&longer).unwrap();
        assert!(encode(&value).len() < longer.len());
    }
    assert_eq!(decode(&[0xd0, 0x05]), Ok(Value::Int(5)));
    assert_eq!(encode(&Value::Int(5)), vec![0x05]);
}
