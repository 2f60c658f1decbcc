//! Numbers and text as the stream encodes them.

use vstd::prelude::*;
use vstd::utf8::{decode_utf8, valid_utf8};

verus! {

/// The number that `bytes` encode, least significant byte first.
pub open spec fn le_value(bytes: Seq<u8>) -> nat
    decreases bytes.len(),
{
    if bytes.len() == 0 {
        0
    } else {
        bytes[0] as nat + 256 * le_value(bytes.drop_first())
    }
}

/// The number that `bytes` encode, most significant byte first.
pub open spec fn be_value(bytes: Seq<u8>) -> nat
    decreases bytes.len(),
{
    if bytes.len() == 0 {
        0
    } else {
        256 * be_value(bytes.drop_last()) + bytes.last() as nat
    }
}

/// 256 to the power `n`.
pub open spec fn pow256(n: nat) -> nat
    decreases n,
{
    if n == 0 {
        1
    } else {
        256 * pow256((n - 1) as nat)
    }
}

/// A 32-bit pattern read as a two's-complement number.
pub open spec fn signed32(value: nat) -> int {
    if value < 0x8000_0000 {
        value as int
    } else {
        value - 0x1_0000_0000
    }
}

/// A 128-bit pattern read as a two's-complement number.
pub open spec fn signed128(value: nat) -> int {
    if value < 0x8000_0000_0000_0000_0000_0000_0000_0000 {
        value as int
    } else {
        value - 0x1_0000_0000_0000_0000_0000_0000_0000_0000
    }
}

/// The text that `bytes` encode in UTF-8, if they encode any.
pub open spec fn text_of(bytes: Seq<u8>) -> Option<Seq<char>> {
    if valid_utf8(bytes) {
        Some(decode_utf8(bytes))
    } else {
        None
    }
}

/// The number that a line of decimal digits denotes, if the line is one or
/// more ASCII digits and nothing else.
pub open spec fn decimal_value(digits: Seq<u8>) -> Option<nat>
    decreases digits.len(),
{
    if digits.len() == 0 {
        None
    } else if !(0x30 <= digits.last() <= 0x39) {
        None
    } else if digits.len() == 1 {
        Some((digits.last() - 0x30) as nat)
    } else {
        match decimal_value(digits.drop_last()) {
            Some(high) => Some(high * 10 + (digits.last() - 0x30) as nat),
            None => None,
        }
    }
}

/// A little-endian number of `n` bytes is below 256 to the `n`.
pub proof fn lemma_le_value_bound(bytes: Seq<u8>)
    ensures
        le_value(bytes) < pow256(bytes.len()),
    decreases bytes.len(),
{
    if bytes.len() > 0 {
        lemma_le_value_bound(bytes.drop_first());
    }
}

/// A big-endian number of `n` bytes is below 256 to the `n`.
pub proof fn lemma_be_value_bound(bytes: Seq<u8>)
    ensures
        be_value(bytes) < pow256(bytes.len()),
    decreases bytes.len(),
{
    if bytes.len() > 0 {
        lemma_be_value_bound(bytes.drop_last());
    }
}

/// The powers of 256 that fit the machine's integers.
pub proof fn lemma_pow256_values()
    ensures
        pow256(1) == 0x100,
        pow256(2) == 0x1_0000,
        pow256(4) == 0x1_0000_0000,
        pow256(8) == 0x1_0000_0000_0000_0000,
        pow256(15) == 0x1_0000_0000_0000_0000_0000_0000_0000_00,
        pow256(16) == 0x1_0000_0000_0000_0000_0000_0000_0000_0000,
{
    reveal_with_fuel(pow256, 17);
}

/// The powers of 256 grow with the exponent.
pub proof fn lemma_pow256_monotonic(a: nat, b: nat)
    requires
        a <= b,
    ensures
        pow256(a) <= pow256(b),
    decreases b,
{
    if a < b {
        lemma_pow256_monotonic(a, (b - 1) as nat);
    }
}

/// Zero bytes after the last byte do not change a little-endian number.
pub proof fn lemma_le_value_padded(bytes: Seq<u8>, zeros: Seq<u8>)
    requires
        forall|i: int| 0 <= i < zeros.len() ==> zeros[i] == 0,
    ensures
        le_value(bytes + zeros) == le_value(bytes),
    decreases bytes.len() + zeros.len(),
{
    if bytes.len() > 0 {
        assert((bytes + zeros).drop_first() =~= bytes.drop_first() + zeros);
        lemma_le_value_padded(bytes.drop_first(), zeros);
    } else if zeros.len() > 0 {
        assert((bytes + zeros).drop_first() =~= bytes + zeros.drop_first());
        lemma_le_value_padded(bytes, zeros.drop_first());
    }
}

/// Reads `n` bytes of `input`, from `at` on, as a little-endian number.
pub fn le_number(input: &Vec<u8>, at: usize, n: usize) -> (r: u128)
    requires
        n <= 16,
        at + n <= input.len(),
    ensures
        r == le_value(input@.subrange(at as int, at + n)),
        r < pow256(n as nat),
{
    let ghost bytes = input@.subrange(at as int, at + n);
    let mut acc: u128 = 0;
    let mut i: usize = n;
    assert(bytes.skip(n as int) =~= Seq::<u8>::empty());
    while i > 0
        invariant
            i <= n <= 16,
            at + n <= input.len(),
            bytes == input@.subrange(at as int, at + n),
            acc == le_value(bytes.skip(i as int)),
        decreases i,
    {
        i -= 1;
        proof {
            assert(bytes.skip(i as int).drop_first() =~= bytes.skip(i + 1));
            lemma_le_value_bound(bytes.skip(i + 1));
            lemma_pow256_monotonic((n - i - 1) as nat, 15);
            lemma_pow256_values();
        }
        acc = acc * 256 + input[at + i] as u128;
    }
    proof {
        assert(bytes.skip(0) =~= bytes);
        lemma_le_value_bound(bytes);
    }
    acc
}

/// Reads `n` bytes of `input`, from `at` on, as a big-endian number.
pub fn be_number(input: &Vec<u8>, at: usize, n: usize) -> (r: u128)
    requires
        n <= 16,
        at + n <= input.len(),
    ensures
        r == be_value(input@.subrange(at as int, at + n)),
        r < pow256(n as nat),
{
    let ghost bytes = input@.subrange(at as int, at + n);
    let mut acc: u128 = 0;
    let mut i: usize = 0;
    assert(bytes.take(0) =~= Seq::<u8>::empty());
    while i < n
        invariant
            i <= n <= 16,
            at + n <= input.len(),
            bytes == input@.subrange(at as int, at + n),
            acc == be_value(bytes.take(i as int)),
        decreases n - i,
    {
        proof {
            assert(bytes.take(i + 1).drop_last() =~= bytes.take(i as int));
            lemma_be_value_bound(bytes.take(i as int));
            lemma_pow256_monotonic(i as nat, 15);
            lemma_pow256_values();
        }
        acc = acc * 256 + input[at + i] as u128;
        i += 1;
    }
    proof {
        assert(bytes.take(n as int) =~= bytes);
        lemma_be_value_bound(bytes);
    }
    acc
}

/// Reads a 32-bit pattern as a two's-complement number.
pub fn to_signed32(pattern: u32) -> (r: i32)
    ensures
        r == signed32(pattern as nat),
{
    if pattern < 0x8000_0000 {
        pattern as i32
    } else {
        ((pattern - 0x8000_0000) as i32) - 0x4000_0000 - 0x4000_0000
    }
}

/// Reads a 128-bit pattern as a two's-complement number.
pub fn to_signed128(pattern: u128) -> (r: i128)
    ensures
        r == signed128(pattern as nat),
{
    if pattern < 0x8000_0000_0000_0000_0000_0000_0000_0000 {
        pattern as i128
    } else {
        ((pattern - 0x8000_0000_0000_0000_0000_0000_0000_0000) as i128)
            - 0x4000_0000_0000_0000_0000_0000_0000_0000
            - 0x4000_0000_0000_0000_0000_0000_0000_0000
    }
}

/// Reads a line of ASCII digits as a number that fits 32 bits.
pub fn parse_decimal(digits: &Vec<u8>) -> (r: Option<u32>)
    ensures
        match r {
            Some(n) => decimal_value(digits@) == Some(n as nat),
            None => match decimal_value(digits@) {
                Some(n) => n > u32::MAX,
                None => true,
            },
        },
{
    if digits.len() == 0 {
        return None;
    }
    let mut acc: u64 = 0;
    let mut overflow = false;
    let mut i: usize = 0;
    while i < digits.len()
        invariant
            i <= digits.len(),
            digits.len() > 0,
            acc <= u32::MAX,
            i > 0 ==> match decimal_value(digits@.take(i as int)) {
                Some(n) => if overflow {
                    n > u32::MAX
                } else {
                    n == acc
                },
                None => false,
            },
            i == 0 ==> acc == 0 && !overflow,
        decreases digits.len() - i,
    {
        let d = digits[i];
        proof {
            assert(digits@.take(i + 1).drop_last() =~= digits@.take(i as int));
            assert(digits@.take(i + 1).last() == d);
        }
        if d < 0x30 || d > 0x39 {
            proof {
                lemma_decimal_prefix(digits@, i + 1);
            }
            return None;
        }
        if !overflow {
            let next: u64 = acc * 10 + (d - 0x30) as u64;
            if next > 0xFFFF_FFFF {
                overflow = true;
            } else {
                acc = next;
            }
        }
        i += 1;
    }
    assert(digits@.take(digits.len() as int) =~= digits@);
    if overflow {
        None
    } else {
        Some(acc as u32)
    }
}

/// A line with a prefix that is no number is no number.
pub proof fn lemma_decimal_prefix(digits: Seq<u8>, n: int)
    requires
        0 < n <= digits.len(),
        decimal_value(digits.take(n)).is_none(),
    ensures
        decimal_value(digits).is_none(),
    decreases digits.len() - n,
{
    if n < digits.len() {
        assert(digits.take(n + 1).drop_last() =~= digits.take(n));
        lemma_decimal_prefix(digits, n + 1);
    } else {
        assert(digits.take(n) =~= digits);
    }
}

/// Decodes UTF-8 bytes into text with `String::from_utf8`: the text that the
/// bytes encode where they are valid UTF-8, and nothing where they are not.
#[verifier::external_body]
pub(crate) fn utf8_text(bytes: Vec<u8>) -> (r: Option<String>)
    ensures
        match r {
            Some(s) => text_of(bytes@) == Some(s@),
            None => text_of(bytes@).is_none(),
        },
{
    String::from_utf8(bytes).ok()
}

} // verus!
