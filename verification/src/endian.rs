//! Little-endian encoding of unsigned integers, as numbers and as bytes.

use vstd::prelude::*;

verus! {

/// 256 to the power of `n`: one more than the largest number that fits in `n` bytes.
pub open spec fn byte_span(n: nat) -> nat
    decreases n,
{
    if n == 0 {
        1
    } else {
        256 * byte_span((n - 1) as nat)
    }
}

/// The `n` low bytes of `x`, least significant byte first.
pub open spec fn le_bytes(x: nat, n: nat) -> Seq<u8>
    decreases n,
{
    if n == 0 {
        Seq::empty()
    } else {
        seq![(x % 256) as u8] + le_bytes(x / 256, (n - 1) as nat)
    }
}

/// The number that `bytes` spells, least significant byte first.
pub open spec fn le_value(bytes: Seq<u8>) -> nat
    decreases bytes.len(),
{
    if bytes.len() == 0 {
        0
    } else {
        bytes[0] as nat + 256 * le_value(bytes.skip(1))
    }
}

/// An encoding in `n` bytes is `n` bytes long.
pub broadcast proof fn lemma_le_bytes_len(x: nat, n: nat)
    ensures
        #[trigger] le_bytes(x, n).len() == n,
    decreases n,
{
    if n > 0 {
        lemma_le_bytes_len(x / 256, (n - 1) as nat);
    }
}

/// Reading back the `n` low bytes of a number that fits in them gives the number.
pub proof fn law_le_roundtrip(x: nat, n: nat)
    requires
        x < byte_span(n),
    ensures
        le_value(le_bytes(x, n)) == x,
    decreases n,
{
    if n > 0 {
        let tail = le_bytes(x / 256, (n - 1) as nat);
        assert(x / 256 < byte_span((n - 1) as nat));
        law_le_roundtrip(x / 256, (n - 1) as nat);
        assert(le_bytes(x, n).skip(1) =~= tail);
    }
}

/// What `n` bytes spell is below 256 to the power of `n`.
pub proof fn lemma_le_value_bound(bytes: Seq<u8>)
    ensures
        le_value(bytes) < byte_span(bytes.len()),
    decreases bytes.len(),
{
    if bytes.len() > 0 {
        lemma_le_value_bound(bytes.skip(1));
    }
}

/// Encoding what `n` bytes spell gives those bytes back.
pub proof fn law_le_value_roundtrip(bytes: Seq<u8>)
    ensures
        le_bytes(le_value(bytes), bytes.len()) == bytes,
    decreases bytes.len(),
{
    if bytes.len() > 0 {
        let rest = bytes.skip(1);
        law_le_value_roundtrip(rest);
        let v = le_value(bytes);
        assert(v % 256 == bytes[0] as nat);
        assert(v / 256 == le_value(rest));
        assert(le_bytes(v, bytes.len()) =~= bytes);
    } else {
        assert(le_bytes(le_value(bytes), 0) =~= bytes);
    }
}

/// The spans of the integer widths in use.
pub proof fn lemma_byte_span_values()
    ensures
        byte_span(4) == 0x1_0000_0000,
        byte_span(8) == 0x1_0000_0000_0000_0000,
{
    reveal_with_fuel(byte_span, 9);
}

/// The four bytes of `x`, least significant first.
pub fn u32_to_le(x: u32) -> (bytes: Vec<u8>)
    ensures
        bytes@ == le_bytes(x as nat, 4),
{
    let mut bytes: Vec<u8> = Vec::new();
    bytes.push((x % 256) as u8);
    bytes.push((x / 256 % 256) as u8);
    bytes.push((x / 65_536 % 256) as u8);
    bytes.push((x / 16_777_216 % 256) as u8);
    proof {
        reveal_with_fuel(le_bytes, 5);
        let n = x as nat;
        assert(n / 256 / 256 == n / 65_536);
        assert(n / 256 / 256 / 256 == n / 16_777_216);
        assert(bytes@ =~= le_bytes(n, 4));
    }
    bytes
}

/// The number that four bytes spell, least significant first.
pub fn u32_from_le(bytes: &[u8]) -> (x: u32)
    requires
        bytes@.len() == 4,
    ensures
        x == le_value(bytes@),
{
    let b0: u32 = bytes[0] as u32;
    let b1: u32 = bytes[1] as u32;
    let b2: u32 = bytes[2] as u32;
    let b3: u32 = bytes[3] as u32;
    proof {
        reveal_with_fuel(le_value, 5);
        assert(bytes@.skip(1).skip(1) =~= bytes@.skip(2));
        assert(bytes@.skip(2).skip(1) =~= bytes@.skip(3));
        assert(bytes@.skip(3).skip(1) =~= Seq::<u8>::empty());
    }
    b0 + 256 * b1 + 65_536 * b2 + 16_777_216 * b3
}

/// Byte by byte, the encoding of a number is its digits to the base of 256, the lowest
/// first.
pub proof fn law_le_digits(x: nat, n: nat, i: nat)
    requires
        i < n,
    ensures
        le_bytes(x, n)[i as int] == x / byte_span(i) % 256,
        byte_span(0) == 1,
        byte_span(i + 1) == 256 * byte_span(i),
    decreases n,
{
    if i > 0 {
        let j = (i - 1) as nat;
        law_le_digits(x / 256, (n - 1) as nat, j);
        lemma_le_bytes_len(x / 256, (n - 1) as nat);
        lemma_byte_span_positive(j);
        vstd::arithmetic::div_mod::lemma_div_denominator(x as int, 256, byte_span(j) as int);
        let tail = le_bytes(x / 256, (n - 1) as nat);
        assert(le_bytes(x, n)[i as int] == tail[j as int]);
        assert(x / byte_span(i) == x / 256 / byte_span(j));
    } else {
        assert(x / byte_span(0) == x) by {
            assert(byte_span(0) == 1);
            assert(x / 1 == x);
        }
        assert(le_bytes(x, n)[0] == (x % 256) as u8);
    }
}

proof fn lemma_byte_span_positive(n: nat)
    ensures
        byte_span(n) > 0,
    decreases n,
{
    if n > 0 {
        lemma_byte_span_positive((n - 1) as nat);
    }
}

} // verus!
