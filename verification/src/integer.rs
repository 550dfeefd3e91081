//! Fixed-width big-endian integers: the model of their bytes and the two
//! routines that every integer type shares.

use crate::error::Error;
use vstd::arithmetic::div_mod::lemma_div_denominator;
use vstd::prelude::*;
use vstd::slice::slice_subrange;

verus! {

/// 256 to the power `n`: the number of values that `n` bytes can hold.
pub open spec fn pow256(n: nat) -> nat
    decreases n,
{
    if n == 0 {
        1
    } else {
        256 * pow256((n - 1) as nat)
    }
}

/// The `width` lowest base-256 digits of `x`, the most significant first.
pub open spec fn be_bytes(x: nat, width: nat) -> Seq<u8> {
    Seq::new(width, |i: int| ((x / pow256((width - 1 - i) as nat)) % 256) as u8)
}

/// The number whose base-256 digits are `bytes`, the most significant first.
pub open spec fn be_value(bytes: Seq<u8>) -> nat
    decreases bytes.len(),
{
    if bytes.len() == 0 {
        0
    } else {
        256 * be_value(bytes.drop_last()) + bytes.last() as nat
    }
}

/// The unsigned number that stands for `v` in two's complement on `width` bytes.
pub open spec fn twos_complement(v: int, width: nat) -> nat {
    if v < 0 {
        (v + pow256(width)) as nat
    } else {
        v as nat
    }
}

/// The signed number that `u` stands for in two's complement on `width` bytes.
pub open spec fn from_twos_complement(u: nat, width: nat) -> int {
    if 2 * u >= pow256(width) {
        u - pow256(width)
    } else {
        u as int
    }
}

/// Reading `width` bytes as one big-endian number: the number and the bytes
/// behind it, or `ShortRead` where fewer than `width` bytes are there.
pub open spec fn parse_be(bytes: Seq<u8>, width: nat) -> Result<(nat, Seq<u8>), Error> {
    if bytes.len() < width {
        Err(Error::ShortRead)
    } else {
        Ok((be_value(bytes.take(width as int)), bytes.skip(width as int)))
    }
}

/// The powers of 256 at the widths of the integer types.
pub proof fn lemma_pow256_values()
    ensures
        pow256(0) == 1,
        pow256(1) == 0x100,
        pow256(2) == 0x1_0000,
        pow256(4) == 0x1_0000_0000,
        pow256(8) == 0x1_0000_0000_0000_0000,
        pow256(16) == 0x1_0000_0000_0000_0000_0000_0000_0000_0000,
{
    reveal_with_fuel(pow256, 17);
}

/// A larger power of 256 is a larger number.
pub proof fn lemma_pow256_monotonic(a: nat, b: nat)
    requires
        a <= b,
    ensures
        1 <= pow256(a) <= pow256(b),
    decreases b,
{
    if b == 0 {
    } else if a == b {
        lemma_pow256_monotonic((a - 1) as nat, (b - 1) as nat);
    } else {
        lemma_pow256_monotonic(a, (b - 1) as nat);
    }
}

/// The digits of `x` are those of `x / 256` and then the lowest one.
pub proof fn lemma_be_bytes_push(x: nat, width: nat)
    requires
        width > 0,
    ensures
        be_bytes(x, width) == be_bytes(x / 256, (width - 1) as nat).push((x % 256) as u8),
{
    let high = be_bytes(x / 256, (width - 1) as nat);
    let low = (x % 256) as u8;
    assert forall|i: int| 0 <= i < width implies be_bytes(x, width)[i] == high.push(low)[i] by {
        if i < width - 1 {
            let k = (width - 2 - i) as nat;
            lemma_pow256_monotonic(0, k);
            lemma_div_denominator(x as int, 256, pow256(k) as int);
        } else {
            assert(pow256(0) == 1);
            assert(be_bytes(x, width)[i] == ((x / pow256(0)) % 256) as u8);
        }
    }
}

/// The value of `n` digits is below 256 to the power `n`.
pub proof fn lemma_be_value_bound(bytes: Seq<u8>)
    ensures
        be_value(bytes) < pow256(bytes.len()),
    decreases bytes.len(),
{
    if bytes.len() > 0 {
        lemma_be_value_bound(bytes.drop_last());
    }
}

/// A number that fits in `width` bytes is the value of its own digits.
pub proof fn lemma_be_value_of_bytes(x: nat, width: nat)
    requires
        x < pow256(width),
    ensures
        be_value(be_bytes(x, width)) == x,
    decreases width,
{
    if width > 0 {
        let high = be_bytes(x / 256, (width - 1) as nat);
        lemma_be_bytes_push(x, width);
        lemma_be_value_of_bytes(x / 256, (width - 1) as nat);
        assert(be_bytes(x, width).drop_last() =~= high);
    }
}

/// The digits of a number that fits are read back as that number, and
/// nothing behind them is touched.
pub proof fn lemma_parse_be(x: nat, width: nat, rest: Seq<u8>)
    requires
        x < pow256(width),
    ensures
        parse_be(be_bytes(x, width) + rest, width) == Ok::<(nat, Seq<u8>), Error>((x, rest)),
{
    let digits = be_bytes(x, width);
    lemma_be_value_of_bytes(x, width);
    assert((digits + rest).take(width as int) =~= digits);
    assert((digits + rest).skip(width as int) =~= rest);
}

/// Two's complement is undone by its inverse on every number in range.
pub proof fn lemma_twos_complement(v: int, width: nat)
    requires
        -(pow256(width) as int) <= 2 * v < pow256(width),
    ensures
        twos_complement(v, width) < pow256(width),
        from_twos_complement(twos_complement(v, width), width) == v,
{
}

/// Appends to `dest` the `width` lowest bytes of `x`, the most significant first.
pub fn write_be(x: u128, width: usize, dest: &mut Vec<u8>)
    ensures
        final(dest)@ == old(dest)@ + be_bytes(x as nat, width as nat),
    decreases width,
{
    if width > 0 {
        write_be(x / 256, width - 1, dest);
        dest.push((x % 256) as u8);
        proof {
            lemma_be_bytes_push(x as nat, width as nat);
        }
    }
}

/// Takes `width` bytes from the front of `input` and returns the number that
/// they spell, the most significant byte first.
pub fn read_be(input: &mut &[u8], width: usize) -> (res: Result<u128, Error>)
    requires
        width <= 16,
    ensures
        match parse_be((*old(input))@, width as nat) {
            Ok((x, rest)) => res == Ok::<u128, Error>(x as u128) && x <= u128::MAX && (*final(
                input
            ))@ == rest,
            Err(e) => res == Err::<u128, Error>(e) && *final(input) == *old(input),
        },
{
    let bytes: &[u8] = *input;
    if bytes.len() < width {
        return Err(Error::ShortRead);
    }
    let mut acc: u128 = 0;
    let mut i: usize = 0;
    while i < width
        invariant
            i <= width <= 16,
            width <= bytes.len(),
            acc == be_value(bytes@.take(i as int)),
        decreases width - i,
    {
        proof {
            lemma_be_value_bound(bytes@.take(i as int));
            lemma_pow256_monotonic((i + 1) as nat, 16);
            lemma_pow256_values();
            assert(bytes@.take(i + 1).drop_last() =~= bytes@.take(i as int));
        }
        acc = acc * 256 + bytes[i] as u128;
        i += 1;
    }
    *input = slice_subrange(bytes, width, bytes.len());
    Ok(acc)
}

} // verus!
