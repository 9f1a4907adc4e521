//! Lowercase hexadecimal encoding of bytes.

use vstd::prelude::*;

verus! {

/// The lowercase hex digit of a value below 16.
pub open spec fn hex_digit(n: int) -> char {
    if n < 10 {
        (48 + n) as char
    } else {
        (87 + n) as char
    }
}

/// Two lowercase hex digits per byte, most significant nibble first.
pub open spec fn lower_hex(bytes: Seq<u8>) -> Seq<char> {
    Seq::new(
        2 * bytes.len(),
        |j: int|
            if j % 2 == 0 {
                hex_digit(bytes[j / 2] as int / 16)
            } else {
                hex_digit(bytes[j / 2] as int % 16)
            },
    )
}

/// Appends one character (`String::push`).
#[verifier::external_body]
pub(crate) fn push_char(s: &mut String, c: char)
    ensures
        final(s)@ == old(s)@.push(c),
{
    s.push(c);
}

fn nibble_char(n: u8) -> (c: char)
    requires
        n < 16,
    ensures
        c == hex_digit(n as int),
{
    if n < 10 {
        (n + 48) as char
    } else {
        (n + 87) as char
    }
}

/// Encodes the first `n` bytes of `bytes` as lowercase hex.
pub fn hex_prefix(bytes: &[u8], n: usize) -> (s: String)
    requires
        n <= bytes@.len(),
    ensures
        s@ == lower_hex(bytes@.subrange(0, n as int)),
{
    let ghost p = bytes@.subrange(0, n as int);
    let mut s = String::new();
    let mut i: usize = 0;
    while i < n
        invariant
            n <= bytes@.len(),
            p == bytes@.subrange(0, n as int),
            i <= n,
            s@.len() == 2 * i,
            forall|j: int| 0 <= j < 2 * i ==> s@[j] == lower_hex(p)[j],
        decreases n - i,
    {
        let b = bytes[i];
        let hi = nibble_char(b / 16);
        let lo = nibble_char(b % 16);
        push_char(&mut s, hi);
        push_char(&mut s, lo);
        proof {
            assert((2 * i) / 2 == i as int);
            assert((2 * i + 1) / 2 == i as int);
            assert((2 * i) % 2 == 0);
            assert((2 * i + 1) % 2 == 1);
            assert(p[i as int] == b);
        }
        i = i + 1;
    }
    assert(s@ =~= lower_hex(p));
    s
}

/// Encodes `bytes` as lowercase hex, two digits per byte.
pub fn to_hex(bytes: &[u8]) -> (s: String)
    ensures
        s@ == lower_hex(bytes@),
{
    assert(bytes@.subrange(0, bytes@.len() as int) =~= bytes@);
    hex_prefix(bytes, bytes.len())
}

} // verus!
