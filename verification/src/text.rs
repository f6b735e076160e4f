//! Numbers and bytes in words.

use vstd::prelude::*;
use vstd::string::{StrSliceExecFns, StringExecFns};

verus! {

/// A number as a digit.
pub open spec fn digit(n: int) -> char {
    "0123456789abcdef"@[n]
}

/// A number in decimal.
pub open spec fn decimal(n: nat) -> Seq<char>
    decreases n,
{
    if n < 10 {
        seq![digit(n as int)]
    } else {
        decimal(n / 10).push(digit((n % 10) as int))
    }
}

/// Bytes in hexadecimal, two digits each.
pub open spec fn hex(b: Seq<u8>) -> Seq<char>
    decreases b.len(),
{
    if b.len() == 0 {
        Seq::empty()
    } else {
        hex(b.drop_last()) + seq![digit(b.last() as int / 16), digit(b.last() as int % 16)]
    }
}

/// Append a digit.
fn append_digit(out: &mut String, n: usize)
    requires
        n < 16,
    ensures
        final(out)@ == old(out)@.push(digit(n as int)),
{
    let digits: &str = "0123456789abcdef";
    proof {
        reveal_strlit("0123456789abcdef");
    }
    out.append(digits.substring_char(n, n + 1));
    assert(out@ =~= old(out)@.push(digit(n as int)));
}

/// Append a number in decimal.
pub fn append_decimal(out: &mut String, n: usize)
    ensures
        final(out)@ == old(out)@ + decimal(n as nat),
    decreases n,
{
    if n >= 10 {
        append_decimal(out, n / 10);
        append_digit(out, n % 10);
    } else {
        append_digit(out, n);
    }
    assert(out@ =~= old(out)@ + decimal(n as nat));
}

/// Bytes in hexadecimal, two digits each.
pub fn hex_of(b: &[u8]) -> (out: String)
    ensures
        out@ == hex(b@),
{
    let mut out = String::new();
    let mut i: usize = 0;
    proof {
        assert(b@.subrange(0, 0) =~= Seq::<u8>::empty());
        assert(out@ =~= hex(b@.subrange(0, 0)));
    }
    while i < b.len()
        invariant
            i <= b.len(),
            out@ == hex(b@.subrange(0, i as int)),
        decreases b.len() - i,
    {
        let ghost next = b@.subrange(0, i + 1);
        append_digit(&mut out, b[i] as usize / 16);
        append_digit(&mut out, b[i] as usize % 16);
        proof {
            assert(next.drop_last() =~= b@.subrange(0, i as int));
            assert(out@ =~= hex(next));
        }
        i += 1;
    }
    proof {
        assert(b@.subrange(0, i as int) =~= b@);
    }
    out
}

/// The digits of a number, in decimal and in hexadecimal.
pub proof fn law_digits_are_in_order()
    ensures
        digit(0) == '0' && digit(1) == '1' && digit(2) == '2' && digit(3) == '3' && digit(4) == '4',
        digit(5) == '5' && digit(6) == '6' && digit(7) == '7' && digit(8) == '8' && digit(9) == '9',
        digit(10) == 'a' && digit(11) == 'b' && digit(12) == 'c' && digit(13) == 'd',
        digit(14) == 'e' && digit(15) == 'f',
{
    reveal_strlit("0123456789abcdef");
}

/// Each byte has its two digits at its place, the high one first.
pub proof fn law_hex_is_two_digits_a_byte(b: Seq<u8>, i: int)
    requires
        0 <= i < b.len(),
    ensures
        hex(b).len() == 2 * b.len(),
        hex(b)[2 * i] == digit(b[i] as int / 16),
        hex(b)[2 * i + 1] == digit(b[i] as int % 16),
    decreases b.len(),
{
    let front = b.drop_last();
    if front.len() == 0 {
        assert(hex(front).len() == 0);
    } else {
        law_hex_is_two_digits_a_byte(
            front,
            if i < front.len() {
                i
            } else {
                0
            },
        );
    }
}

/// A number's last digit is its remainder by ten, and what stands before it is the rest.
pub proof fn law_decimal_goes_by_tens(n: nat)
    ensures
        decimal(n).last() == digit((n % 10) as int),
        n < 10 ==> decimal(n).len() == 1,
        n >= 10 ==> decimal(n).drop_last() == decimal(n / 10),
{
    if n >= 10 {
        assert(decimal(n).drop_last() =~= decimal(n / 10));
    }
}

} // verus!
