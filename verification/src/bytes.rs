//! Byte strings: comparison, copying, and big-endian numbers.

use vstd::prelude::*;

verus! {

/// The number a byte string spells, most significant byte first.
pub open spec fn be_value(s: Seq<u8>) -> nat
    decreases s.len(),
{
    if s.len() == 0 {
        0
    } else {
        be_value(s.drop_last()) * 256 + s.last() as nat
    }
}

/// `256` to the power `n`: how many byte strings of length `n` there are.
pub open spec fn pow256(n: nat) -> nat
    decreases n,
{
    if n == 0 {
        1
    } else {
        256 * pow256((n - 1) as nat)
    }
}

/// A byte string of length `n` spells a number below `256^n`.
pub proof fn lemma_be_value_bound(s: Seq<u8>)
    ensures
        be_value(s) < pow256(s.len()),
    decreases s.len(),
{
    if s.len() > 0 {
        lemma_be_value_bound(s.drop_last());
    }
}

/// Longer byte strings have more room.
pub proof fn lemma_pow256_monotone(a: nat, b: nat)
    requires
        a <= b,
    ensures
        pow256(a) <= pow256(b),
    decreases b,
{
    if a < b {
        lemma_pow256_monotone(a, (b - 1) as nat);
    }
}

/// Two byte strings of one length that spell the same number are the same string.
pub proof fn lemma_be_value_injective(a: Seq<u8>, b: Seq<u8>)
    requires
        a.len() == b.len(),
        be_value(a) == be_value(b),
    ensures
        a == b,
    decreases a.len(),
{
    if a.len() > 0 {
        let ha = be_value(a.drop_last());
        let hb = be_value(b.drop_last());
        assert(ha * 256 + a.last() as nat == hb * 256 + b.last() as nat);
        assert(ha == hb && a.last() == b.last());
        lemma_be_value_injective(a.drop_last(), b.drop_last());
        assert(a =~= a.drop_last().push(a.last()));
        assert(b =~= b.drop_last().push(b.last()));
    } else {
        assert(a =~= b);
    }
}

/// The low `width` bytes of a number, most significant byte first.
pub open spec fn be_bytes(n: nat, width: nat) -> Seq<u8>
    decreases width,
{
    if width == 0 {
        Seq::empty()
    } else {
        be_bytes(n / 256, (width - 1) as nat).push((n % 256) as u8)
    }
}

/// A number that fits is what its bytes spell.
pub proof fn lemma_be_bytes(n: nat, width: nat)
    ensures
        be_bytes(n, width).len() == width,
        n < pow256(width) ==> be_value(be_bytes(n, width)) == n,
    decreases width,
{
    if width > 0 {
        lemma_be_bytes(n / 256, (width - 1) as nat);
        let b = be_bytes(n, width);
        assert(b.drop_last() =~= be_bytes(n / 256, (width - 1) as nat));
    }
}

/// How many byte strings of the usual widths there are.
pub proof fn lemma_pow256_widths()
    ensures
        pow256(1) == 0x100,
        pow256(2) == 0x1_0000,
        pow256(4) == 0x1_0000_0000,
        pow256(8) == 0x1_0000_0000_0000_0000,
{
    reveal_with_fuel(pow256, 9);
}

/// Append the low `width` bytes of a number, most significant byte first.
pub fn append_be(out: &mut Vec<u8>, n: u64, width: usize)
    requires
        width <= 8,
    ensures
        final(out)@ == old(out)@ + be_bytes(n as nat, width as nat),
    decreases width,
{
    if width > 0 {
        append_be(out, n / 256, width - 1);
        out.push((n % 256) as u8);
        assert(out@ =~= old(out)@ + be_bytes(n as nat, width as nat));
    } else {
        assert(out@ =~= old(out)@ + be_bytes(n as nat, 0));
    }
}

/// The number the bytes of `source` from `at` spell, `width` of them.
pub fn read_be(source: &[u8], at: usize, width: usize) -> (n: u64)
    requires
        width <= 8,
        at + width <= source@.len(),
    ensures
        n == be_value(source@.subrange(at as int, at + width)),
        n < pow256(width as nat),
{
    let mut n: u64 = 0;
    let mut i: usize = 0;
    let end: usize = source.len();
    assert(source@.subrange(at as int, at as int) =~= Seq::<u8>::empty());
    while i < width
        invariant
            i <= width <= 8,
            at + width <= end,
            end == source@.len(),
            n == be_value(source@.subrange(at as int, at + i)),
        decreases width - i,
    {
        proof {
            let so_far = source@.subrange(at as int, at + i);
            let next = source@.subrange(at as int, at + i + 1);
            assert(next.drop_last() =~= so_far);
            assert(next.last() == source@[at + i]);
            lemma_be_value_bound(so_far);
            lemma_be_value_bound(next);
            lemma_pow256_monotone((i + 1) as nat, 8);
            lemma_pow256_widths();
        }
        n = n * 256 + source[at + i] as u64;
        i += 1;
    }
    proof {
        lemma_be_value_bound(source@.subrange(at as int, at + width));
    }
    n
}

/// Whether two strings are the same.
pub fn same_text(a: &str, b: &str) -> (same: bool)
    ensures
        same == (a@ == b@),
{
    proof {
        vstd::utf8::encode_utf8_decode_utf8(a@);
        vstd::utf8::encode_utf8_decode_utf8(b@);
    }
    equal(a.as_bytes(), b.as_bytes())
}

/// `core::str::from_utf8`: the text a byte string spells in UTF-8, or nothing where it spells
/// none.
#[verifier::external_body]
fn parse_utf8(source: &[u8]) -> (text: Option<String>)
    ensures
        text is Some <==> vstd::utf8::valid_utf8(source@),
        text matches Some(t) ==> t@ == vstd::utf8::decode_utf8(source@),
{
    match core::str::from_utf8(source) {
        Ok(text) => Some(String::from(text)),
        Err(_) => None,
    }
}

/// The text a byte string spells in UTF-8, or nothing where it spells none.
pub fn text_of(source: &[u8]) -> (text: Option<String>)
    ensures
        text is Some <==> vstd::utf8::valid_utf8(source@),
        text matches Some(t) ==> t@ == vstd::utf8::decode_utf8(source@),
{
    parse_utf8(source)
}

/// Whether two byte strings are the same.
pub fn equal(a: &[u8], b: &[u8]) -> (same: bool)
    ensures
        same == (a@ == b@),
{
    if a.len() != b.len() {
        return false;
    }
    let mut i: usize = 0;
    while i < a.len()
        invariant
            i <= a@.len(),
            a@.len() == b@.len(),
            forall|j: int| 0 <= j < i ==> a@[j] == b@[j],
        decreases a@.len() - i,
    {
        if a[i] != b[i] {
            return false;
        }
        i += 1;
    }
    assert(a@ =~= b@);
    true
}

/// Copy `N` bytes of `source` starting at `at`.
pub fn array_at<const N: usize>(source: &[u8], at: usize) -> (out: [u8; N])
    requires
        at + N <= source@.len(),
    ensures
        out@ == source@.subrange(at as int, at + N),
{
    let mut out = [0u8; N];
    let end: usize = source.len();
    let mut i: usize = 0;
    while i < N
        invariant
            i <= N,
            at + N <= end,
            end == source@.len(),
            forall|j: int| 0 <= j < i ==> out@[j] == source@[at + j],
        decreases N - i,
    {
        out[i] = source[at + i];
        i += 1;
    }
    assert(out@ =~= source@.subrange(at as int, at + N));
    out
}

/// Append every byte of `more` to `out`.
pub fn append(out: &mut Vec<u8>, more: &[u8])
    ensures
        final(out)@ == old(out)@ + more@,
{
    let ghost before = out@;
    let mut i: usize = 0;
    while i < more.len()
        invariant
            i <= more@.len(),
            out@ == before + more@.subrange(0, i as int),
        decreases more@.len() - i,
    {
        out.push(more[i]);
        i += 1;
        assert(more@.subrange(0, i as int) =~= more@.subrange(0, i - 1).push(more@[i - 1]));
    }
    assert(more@.subrange(0, i as int) =~= more@);
}

/// A copy of the bytes from `from` up to `to`.
pub fn copy_range(source: &[u8], from: usize, to: usize) -> (out: Vec<u8>)
    requires
        from <= to <= source@.len(),
    ensures
        out@ == source@.subrange(from as int, to as int),
{
    let mut out: Vec<u8> = Vec::new();
    let mut i: usize = from;
    while i < to
        invariant
            from <= i <= to <= source@.len(),
            out@ == source@.subrange(from as int, i as int),
        decreases to - i,
    {
        out.push(source[i]);
        i += 1;
        assert(source@.subrange(from as int, i as int) =~= source@.subrange(
            from as int,
            i - 1,
        ).push(source@[i - 1]));
    }
    out
}

/// A copy of a whole byte string.
pub fn copy_all(source: &[u8]) -> (out: Vec<u8>)
    ensures
        out@ == source@,
{
    let out = copy_range(source, 0, source.len());
    assert(source@.subrange(0, source@.len() as int) =~= source@);
    out
}

/// Bytes spell numbers with the highest first: a string in front counts for as many places as
/// stand behind it, and one byte for itself.
pub proof fn law_bytes_spell_highest_first(a: Seq<u8>, b: Seq<u8>, x: u8)
    ensures
        be_value(seq![x]) == x,
        be_value(a + b) == be_value(a) * pow256(b.len()) + be_value(b),
        pow256(0) == 1,
        pow256(b.len() + 1) == 256 * pow256(b.len()),
    decreases b.len(),
{
    reveal_with_fuel(be_value, 2);
    assert(seq![x].drop_last() =~= Seq::<u8>::empty());
    if b.len() == 0 {
        assert(a + b =~= a);
        assert(be_value(a) * 1 == be_value(a));
    } else {
        let front = b.drop_last();
        law_bytes_spell_highest_first(a, front, x);
        assert((a + b).drop_last() =~= a + front);
        let p = pow256(front.len());
        let va = be_value(a);
        let vf = be_value(front);
        assert((va * p + vf) * 256 == va * (256 * p) + vf * 256) by (nonlinear_arith);
    }
}

} // verus!
