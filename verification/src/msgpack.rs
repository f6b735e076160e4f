//! The MessagePack subset Reticulum actually puts on the wire.
//!
//! Reticulum reaches for MessagePack in exactly one place this crate cares about: the signed
//! artifact envelope. That envelope is a map of short string keys to binary blobs, with an
//! operator-supplied metadata map that may hold strings, integers, booleans, and arrays of
//! the same. This module encodes and decodes that much and no more.
//!
//! Two properties are load-bearing.
//!
//! **Encoding is canonical.** Every value has exactly one representation here: the shortest
//! header that fits, which is what makes signature comparison meaningful.
//!
//! **Decoding is bounded.** Nesting depth, element counts, and every length are checked
//! against the bytes that remain before anything is allocated. A map header claiming four
//! billion pairs costs a lookup and an error, not four billion pairs of capacity: these bytes
//! arrive from strangers.

use vstd::prelude::*;
use vstd::utf8::{decode_utf8, encode_utf8, valid_utf8};

use crate::bytes;
use crate::bytes::{be_bytes, be_value, pow256};

verus! {

/// How deep a decoded structure may nest before it is treated as hostile.
///
/// The envelope is two deep (envelope map, metadata map) and its metadata values go one deeper
/// for arrays. Sixteen leaves an order of magnitude of headroom while keeping the recursive
/// decoder's stack use bounded on a board.
pub const MAX_DEPTH: u32 = 16;

/// A decoded MessagePack value, in the subset Reticulum emits.
///
/// Floats and extension types are deliberately absent: nothing in the artifact envelope uses
/// them, and a type this code cannot produce is a type it need not be trusted to parse.
#[derive(Debug, PartialEq, Eq)]
pub enum Value {
    Nil,
    Bool(bool),
    /// A non-negative integer.
    Uint(u64),
    /// A negative integer. Kept separate so encoding stays canonical in both directions.
    Int(i64),
    Str(String),
    Bin(Vec<u8>),
    Array(Vec<Value>),
    /// Key order is preserved. The signature covers the encoded bytes, so a map that
    /// re-sorted itself on decode could not be re-encoded into something that still verifies.
    Dict(Vec<(Value, Value)>),
}

/// A value with its strings and lists as sequences.
pub enum Model {
    Nil,
    Bool(bool),
    Uint(u64),
    Int(i64),
    Str(Seq<char>),
    Bin(Seq<u8>),
    Array(Seq<Model>),
    Dict(Seq<(Model, Model)>),
}

/// The model of a value.
pub open spec fn model_of(value: Value) -> Model
    decreases value,
{
    match value {
        Value::Nil => Model::Nil,
        Value::Bool(b) => Model::Bool(b),
        Value::Uint(n) => Model::Uint(n),
        Value::Int(n) => Model::Int(n),
        Value::Str(text) => Model::Str(text@),
        Value::Bin(blob) => Model::Bin(blob@),
        Value::Array(items) => Model::Array(models_of(items@)),
        Value::Dict(entries) => Model::Dict(pairs_of(entries@)),
    }
}

/// The models of a list of values.
pub open spec fn models_of(items: Seq<Value>) -> Seq<Model>
    decreases items,
{
    if items.len() == 0 {
        Seq::empty()
    } else {
        models_of(items.drop_last()).push(model_of(items.last()))
    }
}

/// The models of a list of entries.
pub open spec fn pairs_of(entries: Seq<(Value, Value)>) -> Seq<(Model, Model)>
    decreases entries,
{
    if entries.len() == 0 {
        Seq::empty()
    } else {
        let last = entries.last();
        pairs_of(entries.drop_last()).push((model_of(last.0), model_of(last.1)))
    }
}

impl View for Value {
    type V = Model;

    open spec fn view(&self) -> Model {
        model_of(*self)
    }
}

/// A copy of a value.
fn copy_of(value: &Value) -> (copy: Value)
    ensures
        copy@ == value@,
    decreases *value,
{
    match value {
        Value::Nil => Value::Nil,
        Value::Bool(b) => Value::Bool(*b),
        Value::Uint(n) => Value::Uint(*n),
        Value::Int(n) => Value::Int(*n),
        Value::Str(text) => Value::Str(text.clone()),
        Value::Bin(blob) => Value::Bin(bytes::copy_all(blob.as_slice())),
        Value::Array(items) => {
            let mut out: Vec<Value> = Vec::new();
            let mut i: usize = 0;
            assert(items@.subrange(0, 0) =~= Seq::<Value>::empty());
            while i < items.len()
                invariant
                    i <= items@.len(),
                    *value == Value::Array(*items),
                    models_of(out@) == models_of(items@.subrange(0, i as int)),
                decreases items@.len() - i,
            {
                assert(decreases_to!(*value => (*value)->Array_0));
                assert(decreases_to!(*items => items[i as int]));
                let item = copy_of(&items[i]);
                proof {
                    let next = items@.subrange(0, i + 1);
                    assert(next.drop_last() =~= items@.subrange(0, i as int));
                    assert(out@.push(item).drop_last() =~= out@);
                }
                out.push(item);
                i += 1;
            }
            assert(items@.subrange(0, i as int) =~= items@);
            Value::Array(out)
        },
        Value::Dict(entries) => {
            let mut out: Vec<(Value, Value)> = Vec::new();
            let mut i: usize = 0;
            assert(entries@.subrange(0, 0) =~= Seq::<(Value, Value)>::empty());
            while i < entries.len()
                invariant
                    i <= entries@.len(),
                    *value == Value::Dict(*entries),
                    pairs_of(out@) == pairs_of(entries@.subrange(0, i as int)),
                decreases entries@.len() - i,
            {
                assert(decreases_to!(*value => (*value)->Dict_0));
                assert(decreases_to!(*entries => entries[i as int]));
                assert(decreases_to!(entries[i as int] => entries[i as int].0));
                assert(decreases_to!(entries[i as int] => entries[i as int].1));
                let entry = (copy_of(&entries[i].0), copy_of(&entries[i].1));
                proof {
                    let next = entries@.subrange(0, i + 1);
                    assert(next.drop_last() =~= entries@.subrange(0, i as int));
                    assert(out@.push(entry).drop_last() =~= out@);
                }
                out.push(entry);
                i += 1;
            }
            assert(entries@.subrange(0, i as int) =~= entries@);
            Value::Dict(out)
        },
    }
}

impl Clone for Value {
    fn clone(&self) -> (copy: Self)
        ensures
            copy@ == self@,
    {
        copy_of(self)
    }
}

// ---------------------------------------------------------------------------------------
// Encoding.
/// A non-negative integer in its shortest form.
pub open spec fn uint_bytes(n: nat) -> Seq<u8> {
    if n <= 0x7f {
        seq![n as u8]
    } else if n <= 0xff {
        seq![0xccu8] + be_bytes(n, 1)
    } else if n <= 0xffff {
        seq![0xcdu8] + be_bytes(n, 2)
    } else if n <= 0xffff_ffff {
        seq![0xceu8] + be_bytes(n, 4)
    } else {
        seq![0xcfu8] + be_bytes(n, 8)
    }
}

/// An integer in its shortest form. A non-negative value has a shorter unsigned encoding, and
/// a negative one is written in two's complement.
pub open spec fn int_bytes(n: int) -> Seq<u8> {
    if n >= 0 {
        uint_bytes(n as nat)
    } else if n >= -32 {
        seq![(n + 0x100) as u8]
    } else if n >= -0x80 {
        seq![0xd0u8] + be_bytes((n + 0x100) as nat, 1)
    } else if n >= -0x8000 {
        seq![0xd1u8] + be_bytes((n + 0x1_0000) as nat, 2)
    } else if n >= -0x8000_0000 {
        seq![0xd2u8] + be_bytes((n + 0x1_0000_0000) as nat, 4)
    } else {
        seq![0xd3u8] + be_bytes((n + 0x1_0000_0000_0000_0000) as nat, 8)
    }
}

/// The header of a string of `len` bytes.
pub open spec fn str_header(len: nat) -> Seq<u8> {
    if len < 32 {
        seq![(0xa0 + len) as u8]
    } else if len < 0x100 {
        seq![0xd9u8] + be_bytes(len, 1)
    } else if len < 0x1_0000 {
        seq![0xdau8] + be_bytes(len, 2)
    } else {
        seq![0xdbu8] + be_bytes(len, 4)
    }
}

/// The header of a blob of `len` bytes.
pub open spec fn bin_header(len: nat) -> Seq<u8> {
    if len < 0x100 {
        seq![0xc4u8] + be_bytes(len, 1)
    } else if len < 0x1_0000 {
        seq![0xc5u8] + be_bytes(len, 2)
    } else {
        seq![0xc6u8] + be_bytes(len, 4)
    }
}

/// The header of an array of `count` items.
pub open spec fn array_header(count: nat) -> Seq<u8> {
    if count < 16 {
        seq![(0x90 + count) as u8]
    } else if count < 0x1_0000 {
        seq![0xdcu8] + be_bytes(count, 2)
    } else {
        seq![0xddu8] + be_bytes(count, 4)
    }
}

/// The header of a map of `count` entries.
pub open spec fn dict_header(count: nat) -> Seq<u8> {
    if count < 16 {
        seq![(0x80 + count) as u8]
    } else if count < 0x1_0000 {
        seq![0xdeu8] + be_bytes(count, 2)
    } else {
        seq![0xdfu8] + be_bytes(count, 4)
    }
}

/// A value in its shortest form.
pub open spec fn encoding(m: Model) -> Seq<u8>
    decreases m,
{
    match m {
        Model::Nil => seq![0xc0u8],
        Model::Bool(b) => if b {
            seq![0xc3u8]
        } else {
            seq![0xc2u8]
        },
        Model::Uint(n) => uint_bytes(n as nat),
        Model::Int(n) => int_bytes(n as int),
        Model::Str(text) => str_header(encode_utf8(text).len()) + encode_utf8(text),
        Model::Bin(blob) => bin_header(blob.len()) + blob,
        Model::Array(items) => array_header(items.len()) + encodings(items),
        Model::Dict(entries) => dict_header(entries.len()) + pair_encodings(entries),
    }
}

/// Values one after another.
pub open spec fn encodings(items: Seq<Model>) -> Seq<u8>
    decreases items,
{
    if items.len() == 0 {
        Seq::empty()
    } else {
        encodings(items.drop_last()) + encoding(items.last())
    }
}

/// Entries one after another, key first.
pub open spec fn pair_encodings(entries: Seq<(Model, Model)>) -> Seq<u8>
    decreases entries,
{
    if entries.len() == 0 {
        Seq::empty()
    } else {
        let last = entries.last();
        pair_encodings(entries.drop_last()) + encoding(last.0) + encoding(last.1)
    }
}

/// There is a model per value.
pub proof fn lemma_models_len(items: Seq<Value>, entries: Seq<(Value, Value)>)
    ensures
        models_of(items).len() == items.len(),
        pairs_of(entries).len() == entries.len(),
    decreases items.len() + entries.len(),
{
    if items.len() > 0 {
        lemma_models_len(items.drop_last(), entries);
    } else if entries.len() > 0 {
        lemma_models_len(items, entries.drop_last());
    }
}

/// Encode one value in canonical shortest form.
pub fn encode(value: &Value) -> (out: Vec<u8>)
    ensures
        out@ == encoding(value@),
{
    let mut out: Vec<u8> = Vec::new();
    write(value, &mut out);
    assert(out@ =~= encoding(value@));
    out
}

/// Append a header byte and a number behind it.
fn write_number(tag: u8, n: u64, width: usize, out: &mut Vec<u8>)
    requires
        width <= 8,
    ensures
        final(out)@ == old(out)@ + (seq![tag] + be_bytes(n as nat, width as nat)),
{
    out.push(tag);
    bytes::append_be(out, n, width);
    assert(out@ =~= old(out)@ + (seq![tag] + be_bytes(n as nat, width as nat)));
}

/// Append one header byte.
fn write_byte(byte: u8, out: &mut Vec<u8>)
    ensures
        final(out)@ == old(out)@ + seq![byte],
{
    out.push(byte);
    assert(out@ =~= old(out)@ + seq![byte]);
}

/// Append a non-negative integer.
fn write_uint(n: u64, out: &mut Vec<u8>)
    ensures
        final(out)@ == old(out)@ + uint_bytes(n as nat),
{
    if n <= 0x7f {
        write_byte(n as u8, out);
    } else if n <= 0xff {
        write_number(0xcc, n, 1, out);
    } else if n <= 0xffff {
        write_number(0xcd, n, 2, out);
    } else if n <= 0xffff_ffff {
        write_number(0xce, n, 4, out);
    } else {
        write_number(0xcf, n, 8, out);
    }
}

/// Append an integer.
///
/// A non-negative value is delegated: that stops the same number having two spellings.
fn write_int(n: i64, out: &mut Vec<u8>)
    ensures
        final(out)@ == old(out)@ + int_bytes(n as int),
{
    if n >= 0 {
        write_uint(n as u64, out);
    } else if n >= -32 {
        write_byte((n + 0x100) as u8, out);
    } else if n >= -0x80 {
        write_number(0xd0, (n + 0x100) as u64, 1, out);
    } else if n >= -0x8000 {
        write_number(0xd1, (n + 0x1_0000) as u64, 2, out);
    } else if n >= -0x8000_0000 {
        write_number(0xd2, (n + 0x1_0000_0000) as u64, 4, out);
    } else {
        let twos: u64 = (n + 0x4000_0000_0000_0000 + 0x4000_0000_0000_0000) as u64
            + 0x8000_0000_0000_0000;
        write_number(0xd3, twos, 8, out);
    }
}

/// Append a string's header.
fn write_str_header(len: usize, out: &mut Vec<u8>)
    ensures
        final(out)@ == old(out)@ + str_header(len as nat),
{
    if len < 32 {
        write_byte(0xa0 + len as u8, out);
    } else if len < 0x100 {
        write_number(0xd9, len as u64, 1, out);
    } else if len < 0x1_0000 {
        write_number(0xda, len as u64, 2, out);
    } else {
        write_number(0xdb, len as u64, 4, out);
    }
}

/// Append a blob's header.
fn write_bin_header(len: usize, out: &mut Vec<u8>)
    ensures
        final(out)@ == old(out)@ + bin_header(len as nat),
{
    if len < 0x100 {
        write_number(0xc4, len as u64, 1, out);
    } else if len < 0x1_0000 {
        write_number(0xc5, len as u64, 2, out);
    } else {
        write_number(0xc6, len as u64, 4, out);
    }
}

/// Append an array's header.
fn write_array_header(count: usize, out: &mut Vec<u8>)
    ensures
        final(out)@ == old(out)@ + array_header(count as nat),
{
    if count < 16 {
        write_byte(0x90 + count as u8, out);
    } else if count < 0x1_0000 {
        write_number(0xdc, count as u64, 2, out);
    } else {
        write_number(0xdd, count as u64, 4, out);
    }
}

/// Append a map's header.
fn write_dict_header(count: usize, out: &mut Vec<u8>)
    ensures
        final(out)@ == old(out)@ + dict_header(count as nat),
{
    if count < 16 {
        write_byte(0x80 + count as u8, out);
    } else if count < 0x1_0000 {
        write_number(0xde, count as u64, 2, out);
    } else {
        write_number(0xdf, count as u64, 4, out);
    }
}

/// Append one value.
fn write(value: &Value, out: &mut Vec<u8>)
    ensures
        final(out)@ == old(out)@ + encoding(value@),
    decreases *value,
{
    let ghost before = out@;
    match value {
        Value::Nil => write_byte(0xc0, out),
        Value::Bool(b) => if *b {
            write_byte(0xc3, out)
        } else {
            write_byte(0xc2, out)
        },
        Value::Uint(n) => write_uint(*n, out),
        Value::Int(n) => write_int(*n, out),
        Value::Str(text) => {
            let raw = text.as_str().as_bytes();
            write_str_header(raw.len(), out);
            bytes::append(out, raw);
            assert(out@ =~= before + encoding(value@));
        },
        Value::Bin(blob) => {
            write_bin_header(blob.len(), out);
            bytes::append(out, blob.as_slice());
            assert(out@ =~= before + encoding(value@));
        },
        Value::Array(items) => {
            write_array_header(items.len(), out);
            let ghost headed = out@;
            proof {
                lemma_models_len(items@, Seq::empty());
            }
            let mut i: usize = 0;
            assert(items@.subrange(0, 0) =~= Seq::<Value>::empty());
            assert(headed + encodings(models_of(items@.subrange(0, 0))) =~= headed);
            while i < items.len()
                invariant
                    i <= items@.len(),
                    *value == Value::Array(*items),
                    out@ == headed + encodings(models_of(items@.subrange(0, i as int))),
                decreases items@.len() - i,
            {
                assert(decreases_to!(*value => (*value)->Array_0));
                assert(decreases_to!(*items => items[i as int]));
                write(&items[i], out);
                proof {
                    let next = items@.subrange(0, i + 1);
                    assert(next.drop_last() =~= items@.subrange(0, i as int));
                    let models = models_of(next);
                    assert(models.drop_last() =~= models_of(next.drop_last()));
                    assert(out@ =~= headed + encodings(models));
                }
                i += 1;
            }
            assert(items@.subrange(0, i as int) =~= items@);
            assert(out@ =~= before + encoding(value@));
        },
        Value::Dict(entries) => {
            write_dict_header(entries.len(), out);
            let ghost headed = out@;
            proof {
                lemma_models_len(Seq::empty(), entries@);
            }
            let mut i: usize = 0;
            assert(entries@.subrange(0, 0) =~= Seq::<(Value, Value)>::empty());
            assert(headed + pair_encodings(pairs_of(entries@.subrange(0, 0))) =~= headed);
            while i < entries.len()
                invariant
                    i <= entries@.len(),
                    *value == Value::Dict(*entries),
                    out@ == headed + pair_encodings(pairs_of(entries@.subrange(0, i as int))),
                decreases entries@.len() - i,
            {
                assert(decreases_to!(*value => (*value)->Dict_0));
                assert(decreases_to!(*entries => entries[i as int]));
                assert(decreases_to!(entries[i as int] => entries[i as int].0));
                assert(decreases_to!(entries[i as int] => entries[i as int].1));
                write(&entries[i].0, out);
                write(&entries[i].1, out);
                proof {
                    let next = entries@.subrange(0, i + 1);
                    assert(next.drop_last() =~= entries@.subrange(0, i as int));
                    let pairs = pairs_of(next);
                    assert(pairs.drop_last() =~= pairs_of(next.drop_last()));
                    assert(out@ =~= headed + pair_encodings(pairs));
                }
                i += 1;
            }
            assert(entries@.subrange(0, i as int) =~= entries@);
            assert(out@ =~= before + encoding(value@));
        },
    }
}

// ---------------------------------------------------------------------------------------
// Decoding.
/// Why a byte string is not a MessagePack value this codec accepts.
#[derive(Debug, Clone, Copy, PartialEq, Eq, Structural)]
pub enum Error {
    /// The value ended before its declared length did.
    Truncated,
    /// A type this codec does not implement: a float, an extension, or a reserved byte.
    Unsupported,
    /// A string claimed to be UTF-8 and was not.
    BadUtf8,
    /// Nesting exceeded [`MAX_DEPTH`].
    TooDeep,
    /// Bytes remained after a complete value. An envelope is exactly one value.
    Trailing,
}

/// The number of `width` bytes at `at`, if they are there.
pub open spec fn number_at(b: Seq<u8>, at: int, width: int) -> Option<nat> {
    if at + width <= b.len() {
        Some(be_value(b.subrange(at, at + width)))
    } else {
        None
    }
}

/// A number of `width` bytes in two's complement.
pub open spec fn signed(n: nat, width: nat) -> int {
    if 2 * n >= pow256(width) {
        n - pow256(width)
    } else {
        n as int
    }
}

/// A string of `len` bytes at `at`.
pub open spec fn str_at(b: Seq<u8>, at: int, len: int) -> Result<(Model, int), Error> {
    if at + len > b.len() {
        Err(Error::Truncated)
    } else if !valid_utf8(b.subrange(at, at + len)) {
        Err(Error::BadUtf8)
    } else {
        Ok((Model::Str(decode_utf8(b.subrange(at, at + len))), at + len))
    }
}

/// A blob of `len` bytes at `at`.
pub open spec fn bin_at(b: Seq<u8>, at: int, len: int) -> Result<(Model, int), Error> {
    if at + len > b.len() {
        Err(Error::Truncated)
    } else {
        Ok((Model::Bin(b.subrange(at, at + len)), at + len))
    }
}

/// What a header's number says.
pub enum Headed {
    Str,
    Bin,
    Array,
    Dict,
    Uint,
    Int,
}

/// What a header byte with a number behind it says of that number, and its width.
pub open spec fn headed_by(tag: u8) -> Option<(Headed, int)> {
    if tag == 0xc4 {
        Some((Headed::Bin, 1))
    } else if tag == 0xc5 {
        Some((Headed::Bin, 2))
    } else if tag == 0xc6 {
        Some((Headed::Bin, 4))
    } else if tag == 0xcc {
        Some((Headed::Uint, 1))
    } else if tag == 0xcd {
        Some((Headed::Uint, 2))
    } else if tag == 0xce {
        Some((Headed::Uint, 4))
    } else if tag == 0xcf {
        Some((Headed::Uint, 8))
    } else if tag == 0xd0 {
        Some((Headed::Int, 1))
    } else if tag == 0xd1 {
        Some((Headed::Int, 2))
    } else if tag == 0xd2 {
        Some((Headed::Int, 4))
    } else if tag == 0xd3 {
        Some((Headed::Int, 8))
    } else if tag == 0xd9 {
        Some((Headed::Str, 1))
    } else if tag == 0xda {
        Some((Headed::Str, 2))
    } else if tag == 0xdb {
        Some((Headed::Str, 4))
    } else if tag == 0xdc {
        Some((Headed::Array, 2))
    } else if tag == 0xdd {
        Some((Headed::Array, 4))
    } else if tag == 0xde {
        Some((Headed::Dict, 2))
    } else if tag == 0xdf {
        Some((Headed::Dict, 4))
    } else {
        None
    }
}

/// The value at `at`, `depth` containers deep, and where it ends.
pub open spec fn parse(b: Seq<u8>, at: int, depth: nat) -> Result<(Model, int), Error>
    decreases 17 - depth, 0int, 0int,
{
    if depth > MAX_DEPTH {
        Err(Error::TooDeep)
    } else if at >= b.len() {
        Err(Error::Truncated)
    } else {
        let tag = b[at];
        if tag <= 0x7f {
            Ok((Model::Uint(tag as u64), at + 1))
        } else if tag <= 0x8f {
            parse_dict(b, at + 1, tag - 0x80, depth)
        } else if tag <= 0x9f {
            parse_array(b, at + 1, tag - 0x90, depth)
        } else if tag <= 0xbf {
            str_at(b, at + 1, tag - 0xa0)
        } else if tag >= 0xe0 {
            Ok((Model::Int((tag - 0x100) as i64), at + 1))
        } else if tag == 0xc0 {
            Ok((Model::Nil, at + 1))
        } else if tag == 0xc2 {
            Ok((Model::Bool(false), at + 1))
        } else if tag == 0xc3 {
            Ok((Model::Bool(true), at + 1))
        } else {
            match headed_by(tag) {
                None => Err(Error::Unsupported),
                Some((headed, width)) => match number_at(b, at + 1, width) {
                    None => Err(Error::Truncated),
                    Some(n) => {
                        let body = at + 1 + width;
                        match headed {
                            Headed::Str => str_at(b, body, n as int),
                            Headed::Bin => bin_at(b, body, n as int),
                            Headed::Array => parse_array(b, body, n as int, depth),
                            Headed::Dict => parse_dict(b, body, n as int, depth),
                            Headed::Uint => Ok((Model::Uint(n as u64), body)),
                            Headed::Int => Ok((Model::Int(signed(n, width as nat) as i64), body)),
                        }
                    },
                },
            }
        }
    }
}

/// An array of `count` items, of which the first is at `at`. The cheapest possible item is one
/// byte, so a count larger than what remains cannot be honest.
pub open spec fn parse_array(b: Seq<u8>, at: int, count: int, depth: nat) -> Result<
    (Model, int),
    Error,
>
    decreases 16 - depth, 2int, 0int when depth <= MAX_DEPTH
{
    if count > b.len() - at {
        Err(Error::Truncated)
    } else {
        match parse_items(b, at, count as nat, depth + 1) {
            Ok((items, end)) => Ok((Model::Array(items), end)),
            Err(e) => Err(e),
        }
    }
}

/// A map of `count` entries, of which the first is at `at`: two values per entry.
pub open spec fn parse_dict(b: Seq<u8>, at: int, count: int, depth: nat) -> Result<
    (Model, int),
    Error,
>
    decreases 16 - depth, 2int, 0int when depth <= MAX_DEPTH
{
    if 2 * count > b.len() - at {
        Err(Error::Truncated)
    } else {
        match parse_entries(b, at, count as nat, depth + 1) {
            Ok((entries, end)) => Ok((Model::Dict(entries), end)),
            Err(e) => Err(e),
        }
    }
}

/// `count` values one after another: the first that does not read is what is wrong.
pub open spec fn parse_items(b: Seq<u8>, at: int, count: nat, depth: nat) -> Result<
    (Seq<Model>, int),
    Error,
>
    decreases 17 - depth, 1int, count when depth <= 17
{
    if count == 0 {
        Ok((Seq::empty(), at))
    } else {
        match parse_items(b, at, (count - 1) as nat, depth) {
            Err(e) => Err(e),
            Ok((items, mid)) => match parse(b, mid, depth) {
                Err(e) => Err(e),
                Ok((m, end)) => Ok((items.push(m), end)),
            },
        }
    }
}

/// `count` entries one after another.
pub open spec fn parse_entries(b: Seq<u8>, at: int, count: nat, depth: nat) -> Result<
    (Seq<(Model, Model)>, int),
    Error,
>
    decreases 17 - depth, 1int, count when depth <= 17
{
    if count == 0 {
        Ok((Seq::empty(), at))
    } else {
        match parse_entries(b, at, (count - 1) as nat, depth) {
            Err(e) => Err(e),
            Ok((entries, mid)) => match parse(b, mid, depth) {
                Err(e) => Err(e),
                Ok((key, middle)) => match parse(b, middle, depth) {
                    Err(e) => Err(e),
                    Ok((m, end)) => Ok((entries.push((key, m)), end)),
                },
            },
        }
    }
}

/// The one value that all of a byte string spells, or why it spells none.
pub open spec fn decoded(b: Seq<u8>) -> Result<Model, Error> {
    match parse(b, 0, 0) {
        Err(e) => Err(e),
        Ok((m, end)) => if end == b.len() {
            Ok(m)
        } else {
            Err(Error::Trailing)
        },
    }
}

/// What was read and where it ends, against what is there.
pub open spec fn read_is(
    result: Result<(Value, usize), Error>,
    expected: Result<(Model, int), Error>,
) -> bool {
    match result {
        Ok((value, end)) => expected == Ok::<(Model, int), Error>((value@, end as int)),
        Err(e) => expected == Err::<(Model, int), Error>(e),
    }
}

/// Decode exactly one value, which must consume every byte.
///
/// Trailing bytes are an error rather than a shrug: an envelope with something appended is
/// not the envelope that was signed, and silently ignoring the tail is how a parser becomes a
/// place to hide a second message.
pub fn decode(source: &[u8]) -> (result: Result<Value, Error>)
    ensures
        match result {
            Ok(value) => decoded(source@) == Ok::<Model, Error>(value@),
            Err(e) => decoded(source@) == Err::<Model, Error>(e),
        },
{
    match read(source, 0, 0) {
        Ok((value, end)) => if end == source.len() {
            Ok(value)
        } else {
            Err(Error::Trailing)
        },
        Err(e) => Err(e),
    }
}

/// Where a value that was read ends: behind where it starts, and within the bytes.
proof fn lemma_parse_ends(b: Seq<u8>, at: int, depth: nat)
    requires
        0 <= at,
    ensures
        parse(b, at, depth) matches Ok((_, end)) ==> at < end <= b.len(),
    decreases 17 - depth, 0int, 0int,
{
    if depth <= MAX_DEPTH && at < b.len() {
        let tag = b[at];
        if 0x80 <= tag <= 0x9f {
            let count = if tag <= 0x8f {
                tag - 0x80
            } else {
                tag - 0x90
            };
            lemma_items_end(b, at + 1, count as nat, depth + 1);
            lemma_entries_end(b, at + 1, count as nat, depth + 1);
        } else if let Some((headed, width)) = headed_by(tag) {
            if let Some(n) = number_at(b, at + 1, width) {
                lemma_items_end(b, at + 1 + width, n, depth + 1);
                lemma_entries_end(b, at + 1 + width, n, depth + 1);
            }
        }
    }
}

/// Where values that were read end.
proof fn lemma_items_end(b: Seq<u8>, at: int, count: nat, depth: nat)
    requires
        0 <= at,
        depth <= 17,
    ensures
        parse_items(b, at, count, depth) matches Ok((_, end)) ==> at <= end && (at <= b.len()
            ==> end <= b.len()),
    decreases 17 - depth, 1int, count,
{
    if count > 0 {
        lemma_items_end(b, at, (count - 1) as nat, depth);
        if let Ok((_, mid)) = parse_items(b, at, (count - 1) as nat, depth) {
            lemma_parse_ends(b, mid, depth);
        }
    }
}

/// Where entries that were read end.
proof fn lemma_entries_end(b: Seq<u8>, at: int, count: nat, depth: nat)
    requires
        0 <= at,
        depth <= 17,
    ensures
        parse_entries(b, at, count, depth) matches Ok((_, end)) ==> at <= end && (at <= b.len()
            ==> end <= b.len()),
    decreases 17 - depth, 1int, count,
{
    if count > 0 {
        lemma_entries_end(b, at, (count - 1) as nat, depth);
        if let Ok((_, mid)) = parse_entries(b, at, (count - 1) as nat, depth) {
            lemma_parse_ends(b, mid, depth);
            if let Ok((_, middle)) = parse(b, mid, depth) {
                lemma_parse_ends(b, middle, depth);
            }
        }
    }
}

/// What fails early fails on: more values read no further.
proof fn lemma_items_fail(b: Seq<u8>, at: int, few: nat, many: nat, depth: nat)
    requires
        few <= many,
        depth <= 17,
        parse_items(b, at, few, depth) is Err,
    ensures
        parse_items(b, at, many, depth) == parse_items(b, at, few, depth),
    decreases many,
{
    if few < many {
        lemma_items_fail(b, at, few, (many - 1) as nat, depth);
    }
}

/// What fails early fails on: more entries read no further.
proof fn lemma_entries_fail(b: Seq<u8>, at: int, few: nat, many: nat, depth: nat)
    requires
        few <= many,
        depth <= 17,
        parse_entries(b, at, few, depth) is Err,
    ensures
        parse_entries(b, at, many, depth) == parse_entries(b, at, few, depth),
    decreases many,
{
    if few < many {
        lemma_entries_fail(b, at, few, (many - 1) as nat, depth);
    }
}

/// Read the value at `at`.
fn read(source: &[u8], at: usize, depth: u32) -> (result: Result<(Value, usize), Error>)
    requires
        at <= source@.len(),
        depth <= 17,
    ensures
        read_is(result, parse(source@, at as int, depth as nat)),
        result matches Ok((_, end)) ==> at < end <= source@.len(),
    decreases 17 - depth, 0int, 0int,
{
    proof {
        lemma_parse_ends(source@, at as int, depth as nat);
    }
    if depth > MAX_DEPTH {
        return Err(Error::TooDeep);
    }
    if at >= source.len() {
        return Err(Error::Truncated);
    }
    let tag: u8 = source[at];
    let body: usize = at + 1;
    if tag <= 0x7f {
        return Ok((Value::Uint(tag as u64), body));
    }
    if tag <= 0x8f {
        return read_dict(source, body, (tag - 0x80) as usize, depth);
    }
    if tag <= 0x9f {
        return read_array(source, body, (tag - 0x90) as usize, depth);
    }
    if tag <= 0xbf {
        return read_str(source, body, (tag - 0xa0) as usize);
    }
    if tag >= 0xe0 {
        return Ok((Value::Int(tag as i64 - 0x100), body));
    }
    match tag {
        0xc0 => Ok((Value::Nil, body)),
        0xc2 => Ok((Value::Bool(false), body)),
        0xc3 => Ok((Value::Bool(true), body)),
        0xc4 => read_bin_behind(source, body, 1),
        0xc5 => read_bin_behind(source, body, 2),
        0xc6 => read_bin_behind(source, body, 4),
        0xcc => read_uint(source, body, 1),
        0xcd => read_uint(source, body, 2),
        0xce => read_uint(source, body, 4),
        0xcf => read_uint(source, body, 8),
        0xd0 => read_int(source, body, 1),
        0xd1 => read_int(source, body, 2),
        0xd2 => read_int(source, body, 4),
        0xd3 => read_int(source, body, 8),
        0xd9 => read_str_behind(source, body, 1),
        0xda => read_str_behind(source, body, 2),
        0xdb => read_str_behind(source, body, 4),
        0xdc => match read_len(source, body, 2) {
            Some(count) => read_array(source, body + 2, count, depth),
            None => Err(Error::Truncated),
        },
        0xdd => match read_len(source, body, 4) {
            Some(count) => read_array(source, body + 4, count, depth),
            None => Err(Error::Truncated),
        },
        0xde => match read_len(source, body, 2) {
            Some(count) => read_dict(source, body + 2, count, depth),
            None => Err(Error::Truncated),
        },
        0xdf => match read_len(source, body, 4) {
            Some(count) => read_dict(source, body + 4, count, depth),
            None => Err(Error::Truncated),
        },
        _ => Err(Error::Unsupported),
    }
}

/// Read a big-endian length of `width` bytes.
fn read_len(source: &[u8], at: usize, width: usize) -> (len: Option<usize>)
    requires
        at <= source@.len(),
        width <= 4,
    ensures
        match len {
            Some(n) => number_at(source@, at as int, width as int) == Some(n as nat) && at + width
                <= usize::MAX,
            None => number_at(source@, at as int, width as int) is None,
        },
{
    if source.len() - at < width {
        return None;
    }
    proof {
        bytes::lemma_pow256_monotone(width as nat, 4);
        bytes::lemma_pow256_widths();
    }
    let n: u64 = bytes::read_be(source, at, width);
    Some(n as usize)
}

/// Read an unsigned integer of `width` bytes.
fn read_uint(source: &[u8], at: usize, width: usize) -> (result: Result<(Value, usize), Error>)
    requires
        at <= source@.len(),
        width <= 8,
    ensures
        read_is(
            result,
            match number_at(source@, at as int, width as int) {
                Some(n) => Ok((Model::Uint(n as u64), at + width)),
                None => Err(Error::Truncated),
            },
        ),
{
    if source.len() - at < width {
        return Err(Error::Truncated);
    }
    Ok((Value::Uint(bytes::read_be(source, at, width)), at + width))
}

/// Read a signed integer of `width` bytes.
fn read_int(source: &[u8], at: usize, width: usize) -> (result: Result<(Value, usize), Error>)
    requires
        at <= source@.len(),
        width == 1 || width == 2 || width == 4 || width == 8,
    ensures
        read_is(
            result,
            match number_at(source@, at as int, width as int) {
                Some(n) => Ok((Model::Int(signed(n, width as nat) as i64), at + width)),
                None => Err(Error::Truncated),
            },
        ),
{
    if source.len() - at < width {
        return Err(Error::Truncated);
    }
    proof {
        bytes::lemma_pow256_widths();
    }
    let n: u64 = bytes::read_be(source, at, width);
    let value: i64 = if width == 1 {
        if n >= 0x80 {
            n as i64 - 0x100
        } else {
            n as i64
        }
    } else if width == 2 {
        if n >= 0x8000 {
            n as i64 - 0x1_0000
        } else {
            n as i64
        }
    } else if width == 4 {
        if n >= 0x8000_0000 {
            n as i64 - 0x1_0000_0000
        } else {
            n as i64
        }
    } else {
        if n >= 0x8000_0000_0000_0000 {
            (n - 0x8000_0000_0000_0000) as i64 - 0x7fff_ffff_ffff_ffff - 1
        } else {
            n as i64
        }
    };
    Ok((Value::Int(value), at + width))
}

/// Read a string of `len` bytes.
fn read_str(source: &[u8], at: usize, len: usize) -> (result: Result<(Value, usize), Error>)
    requires
        at <= source@.len(),
    ensures
        read_is(result, str_at(source@, at as int, len as int)),
{
    if source.len() - at < len {
        return Err(Error::Truncated);
    }
    let raw = bytes::copy_range(source, at, at + len);
    match bytes::text_of(raw.as_slice()) {
        Some(text) => Ok((Value::Str(text), at + len)),
        None => Err(Error::BadUtf8),
    }
}

/// Read a string behind its length of `width` bytes.
fn read_str_behind(source: &[u8], at: usize, width: usize) -> (result: Result<
    (Value, usize),
    Error,
>)
    requires
        at <= source@.len(),
        width <= 4,
    ensures
        read_is(
            result,
            match number_at(source@, at as int, width as int) {
                Some(n) => str_at(source@, at + width, n as int),
                None => Err(Error::Truncated),
            },
        ),
{
    match read_len(source, at, width) {
        Some(len) => read_str(source, at + width, len),
        None => Err(Error::Truncated),
    }
}

/// Read a blob behind its length of `width` bytes.
fn read_bin_behind(source: &[u8], at: usize, width: usize) -> (result: Result<
    (Value, usize),
    Error,
>)
    requires
        at <= source@.len(),
        width <= 4,
    ensures
        read_is(
            result,
            match number_at(source@, at as int, width as int) {
                Some(n) => bin_at(source@, at + width, n as int),
                None => Err(Error::Truncated),
            },
        ),
{
    match read_len(source, at, width) {
        Some(len) => {
            let start: usize = at + width;
            if source.len() - start < len {
                return Err(Error::Truncated);
            }
            Ok((Value::Bin(bytes::copy_range(source, start, start + len)), start + len))
        },
        None => Err(Error::Truncated),
    }
}

/// Read an array's items.
///
/// The claimed count is checked against the bytes that remain before anything is read.
fn read_array(source: &[u8], at: usize, count: usize, depth: u32) -> (result: Result<
    (Value, usize),
    Error,
>)
    requires
        at <= source@.len(),
        depth <= MAX_DEPTH,
    ensures
        read_is(result, parse_array(source@, at as int, count as int, depth as nat)),
    decreases 16 - depth, 2int, 0int,
{
    if count > source.len() - at {
        return Err(Error::Truncated);
    }
    let mut items: Vec<Value> = Vec::new();
    let mut end: usize = at;
    let mut i: usize = 0;
    while i < count
        invariant
            i <= count,
            at <= end <= source@.len(),
            depth <= MAX_DEPTH,
            count <= source@.len() - at,
            parse_items(source@, at as int, i as nat, (depth + 1) as nat) == Ok::<
                (Seq<Model>, int),
                Error,
            >((models_of(items@), end as int)),
        decreases count - i,
    {
        match read(source, end, depth + 1) {
            Ok((item, next)) => {
                assert(items@.push(item).drop_last() =~= items@);
                items.push(item);
                end = next;
            },
            Err(e) => {
                proof {
                    lemma_items_fail(
                        source@,
                        at as int,
                        (i + 1) as nat,
                        count as nat,
                        (depth + 1) as nat,
                    );
                }
                return Err(e);
            },
        }
        i += 1;
    }
    Ok((Value::Array(items), end))
}

/// Read a map's entries.
fn read_dict(source: &[u8], at: usize, count: usize, depth: u32) -> (result: Result<
    (Value, usize),
    Error,
>)
    requires
        at <= source@.len(),
        depth <= MAX_DEPTH,
    ensures
        read_is(result, parse_dict(source@, at as int, count as int, depth as nat)),
    decreases 16 - depth, 2int, 0int,
{
    // Two values per entry, so the remaining-bytes floor is twice the count.
    if count > (source.len() - at) / 2 {
        return Err(Error::Truncated);
    }
    let mut entries: Vec<(Value, Value)> = Vec::new();
    let mut end: usize = at;
    let mut i: usize = 0;
    while i < count
        invariant
            i <= count,
            at <= end <= source@.len(),
            depth <= MAX_DEPTH,
            2 * count <= source@.len() - at,
            parse_entries(source@, at as int, i as nat, (depth + 1) as nat) == Ok::<
                (Seq<(Model, Model)>, int),
                Error,
            >((pairs_of(entries@), end as int)),
        decreases count - i,
    {
        let (key, middle) = match read(source, end, depth + 1) {
            Ok(found) => found,
            Err(e) => {
                proof {
                    lemma_entries_fail(
                        source@,
                        at as int,
                        (i + 1) as nat,
                        count as nat,
                        (depth + 1) as nat,
                    );
                }
                return Err(e);
            },
        };
        match read(source, middle, depth + 1) {
            Ok((item, next)) => {
                assert(entries@.push((key, item)).drop_last() =~= entries@);
                entries.push((key, item));
                end = next;
            },
            Err(e) => {
                proof {
                    lemma_entries_fail(
                        source@,
                        at as int,
                        (i + 1) as nat,
                        count as nat,
                        (depth + 1) as nat,
                    );
                }
                return Err(e);
            },
        }
        i += 1;
    }
    Ok((Value::Dict(entries), end))
}

// ---------------------------------------------------------------------------------------
// Looking into values.
/// Where the first entry with a string key stands.
pub open spec fn key_index(entries: Seq<(Model, Model)>, key: Seq<char>) -> Option<int>
    decreases entries.len(),
{
    if entries.len() == 0 {
        None
    } else {
        match key_index(entries.drop_last(), key) {
            Some(i) => Some(i),
            None => if entries.last().0 == Model::Str(key) {
                Some(entries.len() - 1)
            } else {
                None
            },
        }
    }
}

impl Model {
    /// The value under a string key, if this is a map that has it.
    pub open spec fn under(self, key: Seq<char>) -> Option<Model> {
        match self {
            Model::Dict(entries) => match key_index(entries, key) {
                Some(i) => Some(entries[i].1),
                None => None,
            },
            _ => None,
        }
    }
}

/// The first entry with a key is within the part looked at, or after it.
proof fn lemma_key_index(entries: Seq<(Model, Model)>, key: Seq<char>, n: int)
    requires
        0 <= n <= entries.len(),
        key_index(entries.subrange(0, n), key) is Some,
    ensures
        key_index(entries, key) == key_index(entries.subrange(0, n), key),
    decreases entries.len() - n,
{
    if n < entries.len() {
        let next = entries.subrange(0, n + 1);
        assert(next.drop_last() =~= entries.subrange(0, n));
        lemma_key_index(entries, key, n + 1);
    } else {
        assert(entries.subrange(0, n) =~= entries);
    }
}

/// The models of the first entries are the first models.
proof fn lemma_pairs_prefix(entries: Seq<(Value, Value)>, n: int)
    requires
        0 <= n <= entries.len(),
    ensures
        pairs_of(entries).len() == entries.len(),
        pairs_of(entries.subrange(0, n)) == pairs_of(entries).subrange(0, n),
        forall|i: int|
            0 <= i < entries.len() ==> #[trigger] pairs_of(entries)[i] == (
                model_of(entries[i].0),
                model_of(entries[i].1),
            ),
    decreases entries.len(),
{
    lemma_models_len(Seq::empty(), entries);
    if entries.len() > 0 {
        let front = entries.drop_last();
        let all = pairs_of(entries);
        assert(all.drop_last() =~= pairs_of(front));
        if n < entries.len() {
            lemma_pairs_prefix(front, n);
            assert(front.subrange(0, n) =~= entries.subrange(0, n));
            assert(all.subrange(0, n) =~= pairs_of(front).subrange(0, n));
        } else {
            lemma_pairs_prefix(front, n - 1);
            assert(entries.subrange(0, n) =~= entries);
            assert(all.subrange(0, n) =~= all);
        }
        assert forall|i: int| 0 <= i < entries.len() implies #[trigger] all[i] == (
            model_of(entries[i].0),
            model_of(entries[i].1),
        ) by {
            if i < front.len() {
                assert(pairs_of(front)[i] == all[i]);
                assert(front[i] == entries[i]);
            }
        }
    } else {
        assert(entries.subrange(0, n) =~= entries);
        assert(pairs_of(entries).subrange(0, n) =~= pairs_of(entries));
    }
}

impl Value {
    /// The string, if this is one.
    pub fn as_str(&self) -> (text: Option<&str>)
        ensures
            match self@ {
                Model::Str(t) => text matches Some(s) && s@ == t,
                _ => text is None,
            },
    {
        match self {
            Value::Str(text) => Some(text.as_str()),
            _ => None,
        }
    }

    /// The bytes, if this is a binary blob.
    pub fn as_bin(&self) -> (blob: Option<&[u8]>)
        ensures
            match self@ {
                Model::Bin(b) => blob matches Some(s) && s@ == b,
                _ => blob is None,
            },
    {
        match self {
            Value::Bin(blob) => Some(blob.as_slice()),
            _ => None,
        }
    }

    /// The entries, if this is a map.
    pub fn as_map(&self) -> (entries: Option<&[(Value, Value)]>)
        ensures
            match self@ {
                Model::Dict(pairs) => entries matches Some(s) && pairs_of(s@) == pairs,
                _ => entries is None,
            },
    {
        match self {
            Value::Dict(entries) => Some(entries.as_slice()),
            _ => None,
        }
    }

    /// Look a string key up in a map, preserving the "first wins" rule a duplicate key would
    /// otherwise leave ambiguous.
    pub fn get(&self, key: &str) -> (found: Option<&Value>)
        ensures
            match self@.under(key@) {
                Some(m) => found matches Some(v) && v@ == m,
                None => found is None,
            },
    {
        let entries = match self {
            Value::Dict(entries) => entries,
            _ => {
                return None;
            },
        };
        let ghost pairs = pairs_of(entries@);
        proof {
            lemma_pairs_prefix(entries@, 0);
        }
        let mut i: usize = 0;
        assert(pairs.subrange(0, 0) =~= Seq::<(Model, Model)>::empty());
        while i < entries.len()
            invariant
                i <= entries@.len(),
                *self == Value::Dict(*entries),
                pairs == pairs_of(entries@),
                pairs.len() == entries@.len(),
                key_index(pairs.subrange(0, i as int), key@) is None,
            decreases entries@.len() - i,
        {
            proof {
                lemma_pairs_prefix(entries@, i as int);
                let next = pairs.subrange(0, i + 1);
                assert(next.drop_last() =~= pairs.subrange(0, i as int));
                assert(next.last() == pairs[i as int]);
            }
            if let Some(name) = entries[i].0.as_str() {
                if bytes::same_text(name, key) {
                    proof {
                        lemma_key_index(pairs, key@, i + 1);
                    }
                    return Some(&entries[i].1);
                }
            }
            i += 1;
        }
        assert(pairs.subrange(0, i as int) =~= pairs);
        None
    }
}

// ---------------------------------------------------------------------------------------
// Laws.
/// Whether a value survives being written and read: it nests no deeper than the decoder goes,
/// no length or count outgrows its header, and what it calls a negative integer is one.
pub open spec fn fits(m: Model, depth: nat) -> bool
    decreases m,
{
    depth <= MAX_DEPTH && match m {
        Model::Int(n) => n < 0,
        Model::Str(text) => encode_utf8(text).len() < 0x1_0000_0000,
        Model::Bin(blob) => blob.len() < 0x1_0000_0000,
        Model::Array(items) => items.len() < 0x1_0000_0000 && all_fit(items, depth + 1),
        Model::Dict(entries) => entries.len() < 0x1_0000_0000 && pairs_fit(entries, depth + 1),
        _ => true,
    }
}

/// Whether every value of a list survives.
pub open spec fn all_fit(items: Seq<Model>, depth: nat) -> bool
    decreases items,
{
    items.len() == 0 || (all_fit(items.drop_last(), depth) && fits(items.last(), depth))
}

/// Whether every entry of a list survives.
pub open spec fn pairs_fit(entries: Seq<(Model, Model)>, depth: nat) -> bool
    decreases entries,
{
    entries.len() == 0 || (pairs_fit(entries.drop_last(), depth) && fits(
        entries.last().0,
        depth,
    ) && fits(entries.last().1, depth))
}

/// Whether `part` stands in `b` at `at`.
pub open spec fn stands_at(b: Seq<u8>, at: int, part: Seq<u8>) -> bool {
    0 <= at && at + part.len() <= b.len() && b.subrange(at, at + part.len()) == part
}

/// What stands somewhere stands there piece by piece.
proof fn lemma_stands_split(b: Seq<u8>, at: int, first: Seq<u8>, second: Seq<u8>)
    requires
        stands_at(b, at, first + second),
    ensures
        stands_at(b, at, first),
        stands_at(b, at + first.len(), second),
{
    let whole = first + second;
    assert(b.subrange(at, at + first.len()) =~= first) by {
        assert forall|i: int| 0 <= i < first.len() implies b[at + i] == first[i] by {
            assert(b.subrange(at, at + whole.len())[i] == whole[i]);
        }
    }
    assert(b.subrange(at + first.len(), at + first.len() + second.len()) =~= second) by {
        assert forall|i: int| 0 <= i < second.len() implies b[at + first.len() + i]
            == second[i] by {
            assert(b.subrange(at, at + whole.len())[first.len() + i] == whole[first.len() + i]);
        }
    }
}

/// A header with a number behind it, where it stands, says that number.
proof fn lemma_headed(b: Seq<u8>, at: int, tag: u8, n: nat, width: nat)
    requires
        stands_at(b, at, seq![tag] + be_bytes(n, width)),
        n < pow256(width),
    ensures
        b[at] == tag,
        number_at(b, at + 1, width as int) == Some(n),
        (seq![tag] + be_bytes(n, width)).len() == 1 + width,
{
    lemma_stands_split(b, at, seq![tag], be_bytes(n, width));
    bytes::lemma_be_bytes(n, width);
    assert(b.subrange(at, at + 1)[0] == tag);
}

/// A single byte that stands somewhere is the byte there.
proof fn lemma_byte(b: Seq<u8>, at: int, byte: u8)
    requires
        stands_at(b, at, seq![byte]),
    ensures
        b[at] == byte,
{
    assert(b.subrange(at, at + 1)[0] == byte);
}

/// Every value takes at least a byte, and so do the values of a list together.
proof fn lemma_encoding_len(m: Model)
    ensures
        encoding(m).len() >= 1,
{
    match m {
        Model::Uint(n) => {
            lemma_number_len(n as nat);
        },
        Model::Int(n) => {
            if n >= 0 {
                lemma_number_len(n as nat);
            }
        },
        _ => {},
    }
}

/// An unsigned integer takes at least a byte.
proof fn lemma_number_len(n: nat)
    ensures
        uint_bytes(n).len() >= 1,
{
}

/// Lists of values take at least a byte per value.
proof fn lemma_encodings_len(items: Seq<Model>)
    ensures
        encodings(items).len() >= items.len(),
    decreases items.len(),
{
    if items.len() > 0 {
        lemma_encodings_len(items.drop_last());
        lemma_encoding_len(items.last());
    }
}

/// Lists of entries take at least two bytes per entry.
proof fn lemma_pair_encodings_len(entries: Seq<(Model, Model)>)
    ensures
        pair_encodings(entries).len() >= 2 * entries.len(),
    decreases entries.len(),
{
    if entries.len() > 0 {
        lemma_pair_encodings_len(entries.drop_last());
        lemma_encoding_len(entries.last().0);
        lemma_encoding_len(entries.last().1);
    }
}

/// An unsigned integer reads back.
proof fn lemma_uint_reads(b: Seq<u8>, at: int, n: u64, depth: nat)
    requires
        stands_at(b, at, uint_bytes(n as nat)),
        depth <= MAX_DEPTH,
    ensures
        parse(b, at, depth) == Ok::<(Model, int), Error>(
            (Model::Uint(n), at + uint_bytes(n as nat).len()),
        ),
{
    bytes::lemma_pow256_widths();
    if n <= 0x7f {
        lemma_byte(b, at, n as u8);
    } else if n <= 0xff {
        lemma_headed(b, at, 0xcc, n as nat, 1);
    } else if n <= 0xffff {
        lemma_headed(b, at, 0xcd, n as nat, 2);
    } else if n <= 0xffff_ffff {
        lemma_headed(b, at, 0xce, n as nat, 4);
    } else {
        lemma_headed(b, at, 0xcf, n as nat, 8);
    }
}

/// A negative integer reads back.
proof fn lemma_int_reads(b: Seq<u8>, at: int, n: i64, depth: nat)
    requires
        stands_at(b, at, int_bytes(n as int)),
        depth <= MAX_DEPTH,
        n < 0,
    ensures
        parse(b, at, depth) == Ok::<(Model, int), Error>(
            (Model::Int(n), at + int_bytes(n as int).len()),
        ),
{
    bytes::lemma_pow256_widths();
    if n >= -32 {
        lemma_byte(b, at, (n + 0x100) as u8);
    } else if n >= -0x80 {
        lemma_headed(b, at, 0xd0, (n + 0x100) as nat, 1);
    } else if n >= -0x8000 {
        lemma_headed(b, at, 0xd1, (n + 0x1_0000) as nat, 2);
    } else if n >= -0x8000_0000 {
        lemma_headed(b, at, 0xd2, (n + 0x1_0000_0000) as nat, 4);
    } else {
        lemma_headed(b, at, 0xd3, (n + 0x1_0000_0000_0000_0000) as nat, 8);
    }
}

/// A string reads back.
proof fn lemma_str_reads(b: Seq<u8>, at: int, text: Seq<char>, depth: nat)
    requires
        stands_at(b, at, encoding(Model::Str(text))),
        fits(Model::Str(text), depth),
    ensures
        parse(b, at, depth) == Ok::<(Model, int), Error>(
            (Model::Str(text), at + encoding(Model::Str(text)).len()),
        ),
{
    let raw = encode_utf8(text);
    let header = str_header(raw.len());
    lemma_stands_split(b, at, header, raw);
    bytes::lemma_pow256_widths();
    vstd::utf8::encode_utf8_valid_utf8(text);
    vstd::utf8::encode_utf8_decode_utf8(text);
    if raw.len() < 32 {
        lemma_byte(b, at, (0xa0 + raw.len()) as u8);
    } else if raw.len() < 0x100 {
        lemma_headed(b, at, 0xd9, raw.len(), 1);
    } else if raw.len() < 0x1_0000 {
        lemma_headed(b, at, 0xda, raw.len(), 2);
    } else {
        lemma_headed(b, at, 0xdb, raw.len(), 4);
    }
}

/// A blob reads back.
proof fn lemma_bin_reads(b: Seq<u8>, at: int, blob: Seq<u8>, depth: nat)
    requires
        stands_at(b, at, encoding(Model::Bin(blob))),
        fits(Model::Bin(blob), depth),
    ensures
        parse(b, at, depth) == Ok::<(Model, int), Error>(
            (Model::Bin(blob), at + encoding(Model::Bin(blob)).len()),
        ),
{
    let header = bin_header(blob.len());
    lemma_stands_split(b, at, header, blob);
    bytes::lemma_pow256_widths();
    if blob.len() < 0x100 {
        lemma_headed(b, at, 0xc4, blob.len(), 1);
    } else if blob.len() < 0x1_0000 {
        lemma_headed(b, at, 0xc5, blob.len(), 2);
    } else {
        lemma_headed(b, at, 0xc6, blob.len(), 4);
    }
}

/// A value reads back wherever it stands, and ends where it ends.
proof fn lemma_reads(b: Seq<u8>, at: int, m: Model, depth: nat)
    requires
        stands_at(b, at, encoding(m)),
        fits(m, depth),
    ensures
        parse(b, at, depth) == Ok::<(Model, int), Error>((m, at + encoding(m).len())),
    decreases m,
{
    match m {
        Model::Nil => {
            lemma_byte(b, at, 0xc0);
        },
        Model::Bool(v) => {
            lemma_byte(
                b,
                at,
                if v {
                    0xc3
                } else {
                    0xc2
                },
            );
        },
        Model::Uint(n) => {
            lemma_uint_reads(b, at, n, depth);
        },
        Model::Int(n) => {
            lemma_int_reads(b, at, n, depth);
        },
        Model::Str(text) => {
            lemma_str_reads(b, at, text, depth);
        },
        Model::Bin(blob) => {
            lemma_bin_reads(b, at, blob, depth);
        },
        Model::Array(items) => {
            let header = array_header(items.len());
            lemma_stands_split(b, at, header, encodings(items));
            bytes::lemma_pow256_widths();
            lemma_encodings_len(items);
            lemma_items_read(b, at + header.len(), items, depth + 1);
            if items.len() < 16 {
                lemma_byte(b, at, (0x90 + items.len()) as u8);
            } else if items.len() < 0x1_0000 {
                lemma_headed(b, at, 0xdc, items.len(), 2);
            } else {
                lemma_headed(b, at, 0xdd, items.len(), 4);
            }
            assert(parse_array(b, at + header.len(), items.len() as int, depth) == Ok::<
                (Model, int),
                Error,
            >((m, at + encoding(m).len())));
        },
        Model::Dict(entries) => {
            let header = dict_header(entries.len());
            lemma_stands_split(b, at, header, pair_encodings(entries));
            bytes::lemma_pow256_widths();
            lemma_pair_encodings_len(entries);
            lemma_entries_read(b, at + header.len(), entries, depth + 1);
            if entries.len() < 16 {
                lemma_byte(b, at, (0x80 + entries.len()) as u8);
            } else if entries.len() < 0x1_0000 {
                lemma_headed(b, at, 0xde, entries.len(), 2);
            } else {
                lemma_headed(b, at, 0xdf, entries.len(), 4);
            }
            assert(parse_dict(b, at + header.len(), entries.len() as int, depth) == Ok::<
                (Model, int),
                Error,
            >((m, at + encoding(m).len())));
        },
    }
}

/// Values read back one after another.
proof fn lemma_items_read(b: Seq<u8>, at: int, items: Seq<Model>, depth: nat)
    requires
        stands_at(b, at, encodings(items)),
        all_fit(items, depth),
        depth <= 17,
    ensures
        parse_items(b, at, items.len(), depth) == Ok::<(Seq<Model>, int), Error>(
            (items, at + encodings(items).len()),
        ),
    decreases items,
{
    if items.len() > 0 {
        let front = items.drop_last();
        lemma_stands_split(b, at, encodings(front), encoding(items.last()));
        lemma_items_read(b, at, front, depth);
        lemma_reads(b, at + encodings(front).len(), items.last(), depth);
        assert(front.push(items.last()) =~= items);
    } else {
        assert(items =~= Seq::<Model>::empty());
    }
}

/// Entries read back one after another.
proof fn lemma_entries_read(b: Seq<u8>, at: int, entries: Seq<(Model, Model)>, depth: nat)
    requires
        stands_at(b, at, pair_encodings(entries)),
        pairs_fit(entries, depth),
        depth <= 17,
    ensures
        parse_entries(b, at, entries.len(), depth) == Ok::<(Seq<(Model, Model)>, int), Error>(
            (entries, at + pair_encodings(entries).len()),
        ),
    decreases entries,
{
    if entries.len() > 0 {
        let front = entries.drop_last();
        let last = entries.last();
        let fronts = pair_encodings(front);
        lemma_stands_split(b, at, fronts + encoding(last.0), encoding(last.1));
        lemma_stands_split(b, at, fronts, encoding(last.0));
        lemma_entries_read(b, at, front, depth);
        assert(decreases_to!(entries => entries[entries.len() - 1]));
        assert(decreases_to!(last => last.0));
        assert(decreases_to!(last => last.1));
        lemma_reads(b, at + fronts.len(), last.0, depth);
        lemma_reads(b, at + fronts.len() + encoding(last.0).len(), last.1, depth);
        assert(front.push(last) =~= entries);
    } else {
        assert(entries =~= Seq::<(Model, Model)>::empty());
    }
}

/// What is written reads back as it was, to the last byte.
pub proof fn law_decode_inverts_encode(m: Model)
    requires
        fits(m, 0),
    ensures
        decoded(encoding(m)) == Ok::<Model, Error>(m),
{
    let b = encoding(m);
    assert(b.subrange(0, b.len() as int) =~= b);
    lemma_reads(b, 0, m, 0);
}

/// Values that survive have one spelling each: two that are written alike are alike.
pub proof fn law_encoding_is_injective(a: Model, b: Model)
    requires
        fits(a, 0),
        fits(b, 0),
        encoding(a) == encoding(b),
    ensures
        a == b,
{
    law_decode_inverts_encode(a);
    law_decode_inverts_encode(b);
}

/// A non-negative integer has one spelling, whichever way it is held.
pub proof fn law_integers_have_one_spelling(n: i64)
    requires
        n >= 0,
    ensures
        encoding(Model::Int(n)) == encoding(Model::Uint(n as u64)),
        decoded(encoding(Model::Int(n))) == Ok::<Model, Error>(Model::Uint(n as u64)),
{
    law_decode_inverts_encode(Model::Uint(n as u64));
}

/// A count costs what it claims: a container whose header claims more than the bytes that
/// remain is refused, whatever follows.
pub proof fn law_counts_are_bounded_by_what_remains(b: Seq<u8>, at: int, count: int, depth: nat)
    requires
        depth <= MAX_DEPTH,
    ensures
        count > b.len() - at ==> parse_array(b, at, count, depth) == Err::<(Model, int), Error>(
            Error::Truncated,
        ),
        2 * count > b.len() - at ==> parse_dict(b, at, count, depth) == Err::<
            (Model, int),
            Error,
        >(Error::Truncated),
{
}

/// Something behind a complete value makes it none.
pub proof fn law_trailing_bytes_are_refused(m: Model, tail: Seq<u8>)
    requires
        fits(m, 0),
        tail.len() > 0,
    ensures
        decoded(encoding(m) + tail) == Err::<Model, Error>(Error::Trailing),
{
    let b = encoding(m) + tail;
    assert(b.subrange(0, encoding(m).len() as int) =~= encoding(m));
    lemma_reads(b, 0, m, 0);
}

/// A value that was read is read the same with more behind it.
proof fn lemma_parse_extends(b: Seq<u8>, tail: Seq<u8>, at: int, depth: nat)
    requires
        0 <= at,
    ensures
        parse(b, at, depth) is Ok ==> parse(b + tail, at, depth) == parse(b, at, depth),
    decreases 17 - depth, 0int, 0int,
{
    let c = b + tail;
    if depth <= MAX_DEPTH && at < b.len() {
        let tag = b[at];
        assert(c[at] == tag);
        if 0x80 <= tag <= 0x9f {
            let count = if tag <= 0x8f {
                tag - 0x80
            } else {
                tag - 0x90
            };
            lemma_items_extend(b, tail, at + 1, count as nat, depth + 1);
            lemma_entries_extend(b, tail, at + 1, count as nat, depth + 1);
        } else if 0xa0 <= tag <= 0xbf {
            lemma_part_extends(b, tail, at + 1, tag - 0xa0);
        } else if let Some((headed, width)) = headed_by(tag) {
            lemma_part_extends(b, tail, at + 1, width);
            if let Some(n) = number_at(b, at + 1, width) {
                lemma_part_extends(b, tail, at + 1 + width, n as int);
                lemma_items_extend(b, tail, at + 1 + width, n, depth + 1);
                lemma_entries_extend(b, tail, at + 1 + width, n, depth + 1);
            }
        }
    }
}

/// Part of a byte string is the same with more behind it.
proof fn lemma_part_extends(b: Seq<u8>, tail: Seq<u8>, at: int, len: int)
    requires
        0 <= at,
        0 <= len,
    ensures
        at + len <= b.len() ==> (b + tail).subrange(at, at + len) == b.subrange(at, at + len),
{
    if at + len <= b.len() {
        assert((b + tail).subrange(at, at + len) =~= b.subrange(at, at + len));
    }
}

/// Values that were read are read the same with more behind them.
proof fn lemma_items_extend(b: Seq<u8>, tail: Seq<u8>, at: int, count: nat, depth: nat)
    requires
        0 <= at,
        depth <= 17,
    ensures
        parse_items(b, at, count, depth) is Ok ==> parse_items(b + tail, at, count, depth)
            == parse_items(b, at, count, depth),
    decreases 17 - depth, 1int, count,
{
    if count > 0 {
        lemma_items_extend(b, tail, at, (count - 1) as nat, depth);
        lemma_items_end(b, at, (count - 1) as nat, depth);
        if let Ok((_, mid)) = parse_items(b, at, (count - 1) as nat, depth) {
            lemma_parse_extends(b, tail, mid, depth);
        }
    }
}

/// Entries that were read are read the same with more behind them.
proof fn lemma_entries_extend(b: Seq<u8>, tail: Seq<u8>, at: int, count: nat, depth: nat)
    requires
        0 <= at,
        depth <= 17,
    ensures
        parse_entries(b, at, count, depth) is Ok ==> parse_entries(b + tail, at, count, depth)
            == parse_entries(b, at, count, depth),
    decreases 17 - depth, 1int, count,
{
    if count > 0 {
        lemma_entries_extend(b, tail, at, (count - 1) as nat, depth);
        lemma_entries_end(b, at, (count - 1) as nat, depth);
        if let Ok((_, mid)) = parse_entries(b, at, (count - 1) as nat, depth) {
            lemma_parse_extends(b, tail, mid, depth);
            lemma_parse_ends(b, mid, depth);
            if let Ok((_, middle)) = parse(b, mid, depth) {
                lemma_parse_extends(b, tail, middle, depth);
            }
        }
    }
}

/// A value cut short is none: no proper prefix of an encoding reads as a value.
pub proof fn law_prefix_is_refused(m: Model, len: int)
    requires
        fits(m, 0),
        0 <= len < encoding(m).len(),
    ensures
        decoded(encoding(m).subrange(0, len)) is Err,
{
    let whole = encoding(m);
    let part = whole.subrange(0, len);
    let rest = whole.subrange(len, whole.len() as int);
    assert(part + rest =~= whole);
    assert(whole.subrange(0, whole.len() as int) =~= whole);
    lemma_reads(whole, 0, m, 0);
    lemma_parse_extends(part, rest, 0, 0);
}

/// A header and its body take no more than what they were read from.
proof fn lemma_headers_are_short(tag: u8, n: nat)
    requires
        headed_by(tag) matches Some((_, width)) && n < pow256(width as nat),
    ensures
        ({
            let (headed, width) = headed_by(tag)->0;
            match headed {
                Headed::Str => str_header(n).len() <= 1 + width,
                Headed::Bin => bin_header(n).len() <= 1 + width,
                Headed::Array => array_header(n).len() <= 1 + width,
                Headed::Dict => dict_header(n).len() <= 1 + width,
                Headed::Uint => n <= u64::MAX && uint_bytes(n).len() <= 1 + width,
                Headed::Int => i64::MIN <= signed(n, width as nat) <= i64::MAX && int_bytes(
                    signed(n, width as nat),
                ).len() <= 1 + width,
            }
        }),
{
    bytes::lemma_pow256_widths();
    bytes::lemma_be_bytes(n, 1);
    bytes::lemma_be_bytes(n, 2);
    bytes::lemma_be_bytes(n, 4);
    bytes::lemma_be_bytes(n, 8);
    let (headed, width) = headed_by(tag)->0;
    if headed is Int {
        let s = signed(n, width as nat);
        if s < 0 {
            bytes::lemma_be_bytes((s + 0x100) as nat, 1);
            bytes::lemma_be_bytes((s + 0x1_0000) as nat, 2);
            bytes::lemma_be_bytes((s + 0x1_0000_0000) as nat, 4);
            bytes::lemma_be_bytes((s + 0x1_0000_0000_0000_0000) as nat, 8);
        } else {
            bytes::lemma_be_bytes(s as nat, 1);
            bytes::lemma_be_bytes(s as nat, 2);
            bytes::lemma_be_bytes(s as nat, 4);
            bytes::lemma_be_bytes(s as nat, 8);
        }
    }
}

/// No spelling of a value is shorter than its encoding.
proof fn lemma_parse_is_no_shorter(b: Seq<u8>, at: int, depth: nat)
    requires
        0 <= at,
    ensures
        parse(b, at, depth) matches Ok((m, end)) ==> encoding(m).len() <= end - at,
    decreases 17 - depth, 0int, 0int,
{
    if depth <= MAX_DEPTH && at < b.len() {
        let tag = b[at];
        if 0x80 <= tag <= 0x9f {
            let count = if tag <= 0x8f {
                tag - 0x80
            } else {
                tag - 0x90
            };
            lemma_items_are_no_shorter(b, at + 1, count as nat, depth + 1);
            lemma_entries_are_no_shorter(b, at + 1, count as nat, depth + 1);
        } else if 0xa0 <= tag <= 0xbf {
            if at + 1 + (tag - 0xa0) <= b.len() {
                let part = b.subrange(at + 1, at + 1 + (tag - 0xa0));
                if valid_utf8(part) {
                    vstd::utf8::decode_utf8_encode_utf8(part);
                }
            }
        } else if let Some((headed, width)) = headed_by(tag) {
            if let Some(n) = number_at(b, at + 1, width) {
                let body = at + 1 + width;
                bytes::lemma_be_value_bound(b.subrange(at + 1, body));
                lemma_headers_are_short(tag, n);
                if headed is Str && body + n <= b.len() {
                    let part = b.subrange(body, body + n);
                    if valid_utf8(part) {
                        vstd::utf8::decode_utf8_encode_utf8(part);
                    }
                }
                lemma_items_are_no_shorter(b, body, n, depth + 1);
                lemma_entries_are_no_shorter(b, body, n, depth + 1);
            }
        }
    }
}

/// No spelling of values is shorter than their encodings together.
proof fn lemma_items_are_no_shorter(b: Seq<u8>, at: int, count: nat, depth: nat)
    requires
        0 <= at,
        depth <= 17,
    ensures
        parse_items(b, at, count, depth) matches Ok((items, end)) ==> items.len() == count
            && encodings(items).len() <= end - at,
    decreases 17 - depth, 1int, count,
{
    if count > 0 {
        lemma_items_are_no_shorter(b, at, (count - 1) as nat, depth);
        lemma_items_end(b, at, (count - 1) as nat, depth);
        if let Ok((items, mid)) = parse_items(b, at, (count - 1) as nat, depth) {
            lemma_parse_is_no_shorter(b, mid, depth);
            if let Ok((m, _)) = parse(b, mid, depth) {
                assert(items.push(m).drop_last() =~= items);
            }
        }
    }
}

/// No spelling of entries is shorter than their encodings together.
proof fn lemma_entries_are_no_shorter(b: Seq<u8>, at: int, count: nat, depth: nat)
    requires
        0 <= at,
        depth <= 17,
    ensures
        parse_entries(b, at, count, depth) matches Ok((entries, end)) ==> entries.len() == count
            && pair_encodings(entries).len() <= end - at,
    decreases 17 - depth, 1int, count,
{
    if count > 0 {
        lemma_entries_are_no_shorter(b, at, (count - 1) as nat, depth);
        lemma_entries_end(b, at, (count - 1) as nat, depth);
        if let Ok((entries, mid)) = parse_entries(b, at, (count - 1) as nat, depth) {
            lemma_parse_is_no_shorter(b, mid, depth);
            lemma_parse_ends(b, mid, depth);
            if let Ok((key, middle)) = parse(b, mid, depth) {
                lemma_parse_is_no_shorter(b, middle, depth);
                if let Ok((m, _)) = parse(b, middle, depth) {
                    assert(entries.push((key, m)).drop_last() =~= entries);
                }
            }
        }
    }
}

/// Encoding is canonical in length: no accepted spelling of a value is shorter than the one it
/// is written in.
pub proof fn law_encoding_is_the_shortest(b: Seq<u8>, m: Model)
    requires
        decoded(b) == Ok::<Model, Error>(m),
    ensures
        encoding(m).len() <= b.len(),
{
    lemma_parse_is_no_shorter(b, 0, 0);
}

/// One more entry is one more model.
pub proof fn lemma_pairs_push(entries: Seq<(Value, Value)>, entry: (Value, Value))
    ensures
        pairs_of(entries.push(entry)) == pairs_of(entries).push((entry.0@, entry.1@)),
{
    assert(entries.push(entry).drop_last() =~= entries);
}

/// There is a model per entry, of its key and its value.
pub proof fn lemma_models_of_entries(entries: Seq<(Value, Value)>)
    ensures
        pairs_of(entries).len() == entries.len(),
        forall|i: int|
            0 <= i < entries.len() ==> #[trigger] pairs_of(entries)[i] == (
                entries[i].0@,
                entries[i].1@,
            ),
{
    lemma_pairs_prefix(entries, 0);
}

/// The first entry with a key is the one found.
pub proof fn lemma_key_found(entries: Seq<(Model, Model)>, key: Seq<char>, i: int)
    requires
        0 <= i < entries.len(),
        entries[i].0 == Model::Str(key),
        forall|j: int| 0 <= j < i ==> (#[trigger] entries[j]).0 != Model::Str(key),
    ensures
        key_index(entries, key) == Some(i),
    decreases entries.len(),
{
    let front = entries.drop_last();
    if i < front.len() {
        lemma_key_found(front, key, i);
    } else {
        lemma_key_absent(front, key);
    }
}

/// A key that no entry has is not found.
pub proof fn lemma_key_absent(entries: Seq<(Model, Model)>, key: Seq<char>)
    requires
        forall|j: int| 0 <= j < entries.len() ==> (#[trigger] entries[j]).0 != Model::Str(key),
    ensures
        key_index(entries, key) is None,
    decreases entries.len(),
{
    if entries.len() > 0 {
        lemma_key_absent(entries.drop_last(), key);
    }
}

/// The first byte of an encoding says what it is: small numbers, short strings, arrays and maps
/// in the byte itself, and everything else by a tag of its own.
pub proof fn law_first_byte_says_what_follows(m: Model)
    requires
        fits(m, 0),
    ensures
        ({
            let b = encoding(m);
            let tag = b[0];
            &&& b.len() > 0
            &&& m matches Model::Nil ==> b == seq![0xc0u8]
            &&& m matches Model::Bool(v) ==> b == (if v {
                seq![0xc3u8]
            } else {
                seq![0xc2u8]
            })
            &&& m matches Model::Uint(n) ==> if n < 0x80 {
                tag == n && b.len() == 1
            } else if n < 0x100 {
                tag == 0xcc && b.len() == 2 && b[1] == n
            } else if n < 0x1_0000 {
                tag == 0xcd && b.len() == 3
            } else if n < 0x1_0000_0000 {
                tag == 0xce && b.len() == 5
            } else {
                tag == 0xcf && b.len() == 9
            }
            &&& m matches Model::Int(n) ==> if n >= 0 {
                b == encoding(Model::Uint(n as u64))
            } else if n >= -32 {
                tag == 0x100 + n && b.len() == 1
            } else if n >= -0x80 {
                tag == 0xd0 && b.len() == 2
            } else if n >= -0x8000 {
                tag == 0xd1 && b.len() == 3
            } else if n >= -0x8000_0000 {
                tag == 0xd2 && b.len() == 5
            } else {
                tag == 0xd3 && b.len() == 9
            }
            &&& m matches Model::Bin(blob) ==> if blob.len() < 0x100 {
                tag == 0xc4 && b.len() == 2 + blob.len() && b[1] == blob.len() && b.subrange(
                    2,
                    b.len() as int,
                ) == blob
            } else if blob.len() < 0x1_0000 {
                tag == 0xc5 && b.len() == 3 + blob.len() && b.subrange(3, b.len() as int) == blob
            } else {
                tag == 0xc6 && b.len() == 5 + blob.len() && b.subrange(5, b.len() as int) == blob
            }
            &&& m matches Model::Str(text) ==> {
                let n = encode_utf8(text).len();
                if n < 32 {
                    tag == 0xa0 + n && b.subrange(1, b.len() as int) == encode_utf8(text)
                } else if n < 0x100 {
                    tag == 0xd9 && b[1] == n && b.subrange(2, b.len() as int) == encode_utf8(text)
                } else if n < 0x1_0000 {
                    tag == 0xda && b.subrange(3, b.len() as int) == encode_utf8(text)
                } else {
                    tag == 0xdb && b.subrange(5, b.len() as int) == encode_utf8(text)
                }
            }
            &&& m matches Model::Array(items) ==> if items.len() < 16 {
                tag == 0x90 + items.len()
            } else if items.len() < 0x1_0000 {
                tag == 0xdc
            } else {
                tag == 0xdd
            }
            &&& m matches Model::Dict(entries) ==> if entries.len() < 16 {
                tag == 0x80 + entries.len()
            } else if entries.len() < 0x1_0000 {
                tag == 0xde
            } else {
                tag == 0xdf
            }
        }),
{
    let b = encoding(m);
    match m {
        Model::Uint(n) => {
            reveal_with_fuel(be_bytes, 2);
            bytes::lemma_be_bytes(n as nat, 1);
            bytes::lemma_be_bytes(n as nat, 2);
            bytes::lemma_be_bytes(n as nat, 4);
            bytes::lemma_be_bytes(n as nat, 8);
        },
        Model::Int(n) => {
            bytes::lemma_be_bytes((n + 0x100) as nat, 1);
            bytes::lemma_be_bytes((n + 0x1_0000) as nat, 2);
            bytes::lemma_be_bytes((n + 0x1_0000_0000) as nat, 4);
            bytes::lemma_be_bytes((n + 0x1_0000_0000_0000_0000) as nat, 8);
        },
        Model::Bin(blob) => {
            reveal_with_fuel(be_bytes, 2);
            bytes::lemma_be_bytes(blob.len(), 1);
            bytes::lemma_be_bytes(blob.len(), 2);
            bytes::lemma_be_bytes(blob.len(), 4);
            let at = bin_header(blob.len()).len() as int;
            assert(b.subrange(at, b.len() as int) =~= blob);
        },
        Model::Str(text) => {
            let n = encode_utf8(text).len();
            reveal_with_fuel(be_bytes, 2);
            bytes::lemma_be_bytes(n, 1);
            bytes::lemma_be_bytes(n, 2);
            bytes::lemma_be_bytes(n, 4);
            let at = str_header(n).len() as int;
            assert(b.subrange(at, b.len() as int) =~= encode_utf8(text));
        },
        _ => {},
    }
}

/// Longer spellings are read for what they say too: a number in any width, signed or not, and
/// a blob or a string behind a longer header.
pub proof fn law_any_width_is_read(b: Seq<u8>)
    requires
        b.len() > 0,
    ensures
        b.len() == 2 && b[0] == 0xcc ==> decoded(b) == Ok::<Model, Error>(Model::Uint(b[1] as u64)),
        b.len() == 3 && b[0] == 0xcd ==> decoded(b) == Ok::<Model, Error>(
            Model::Uint(be_value(b.subrange(1, 3)) as u64),
        ),
        b.len() == 5 && b[0] == 0xce ==> decoded(b) == Ok::<Model, Error>(
            Model::Uint(be_value(b.subrange(1, 5)) as u64),
        ),
        b.len() == 9 && b[0] == 0xcf ==> decoded(b) == Ok::<Model, Error>(
            Model::Uint(be_value(b.subrange(1, 9)) as u64),
        ),
        b.len() == 2 && b[0] == 0xd0 ==> decoded(b) == Ok::<Model, Error>(
            Model::Int(
                if b[1] < 0x80 {
                    b[1] as i64
                } else {
                    (b[1] - 0x100) as i64
                },
            ),
        ),
        b.len() == 3 && b[0] == 0xd1 ==> decoded(b) == Ok::<Model, Error>(
            Model::Int(
                if b[1] < 0x80 {
                    be_value(b.subrange(1, 3)) as i64
                } else {
                    (be_value(b.subrange(1, 3)) - 0x1_0000) as i64
                },
            ),
        ),
        b.len() == 1 && b[0] == 0xc0 ==> decoded(b) == Ok::<Model, Error>(Model::Nil),
        b.len() == 1 && b[0] == 0xc2 ==> decoded(b) == Ok::<Model, Error>(Model::Bool(false)),
        b.len() == 1 && b[0] == 0xc3 ==> decoded(b) == Ok::<Model, Error>(Model::Bool(true)),
        b.len() == 1 && b[0] < 0x80 ==> decoded(b) == Ok::<Model, Error>(Model::Uint(b[0] as u64)),
        b.len() == 1 && b[0] >= 0xe0 ==> decoded(b) == Ok::<Model, Error>(
            Model::Int((b[0] - 0x100) as i64),
        ),
        b[0] == 0xc1 || 0xc7 <= b[0] <= 0xcb || 0xd4 <= b[0] <= 0xd8 ==> decoded(b) == Err::<
            Model,
            Error,
        >(Error::Unsupported),
        b.len() >= 3 && b[0] == 0xc5 && b.len() == 3 + be_value(b.subrange(1, 3)) ==> decoded(b)
            == Ok::<Model, Error>(Model::Bin(b.subrange(3, b.len() as int))),
{
    bytes::lemma_pow256_widths();
    reveal_with_fuel(be_value, 3);
    if b.len() == 3 {
        let two = b.subrange(1, 3);
        assert(two.drop_last().drop_last() =~= Seq::<u8>::empty());
        assert(be_value(two) == b[1] * 256 + b[2]);
    }
    if b.len() == 2 {
        let one = b.subrange(1, 2);
        assert(one.drop_last() =~= Seq::<u8>::empty());
        assert(be_value(one) == b[1]);
    }
}

/// A key's value is that of the first entry with it; what is no map has none.
pub proof fn law_first_entry_counts(entries: Seq<(Model, Model)>, key: Seq<char>, i: int)
    ensures
        0 <= i < entries.len() && entries[i].0 == Model::Str(key) && (forall|j: int|
            0 <= j < i ==> (#[trigger] entries[j]).0 != Model::Str(key)) ==> Model::Dict(
            entries,
        ).under(key) == Some(entries[i].1),
        (forall|j: int| 0 <= j < entries.len() ==> (#[trigger] entries[j]).0 != Model::Str(key))
            ==> Model::Dict(entries).under(key) is None,
        Model::Nil.under(key) is None,
{
    if 0 <= i < entries.len() && entries[i].0 == Model::Str(key) && (forall|j: int|
        0 <= j < i ==> (#[trigger] entries[j]).0 != Model::Str(key)) {
        lemma_key_found(entries, key, i);
    }
    if forall|j: int| 0 <= j < entries.len() ==> (#[trigger] entries[j]).0 != Model::Str(key) {
        lemma_key_absent(entries, key);
    }
}

} // verus!
