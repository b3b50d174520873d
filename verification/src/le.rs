//! Little-endian byte strings as numbers: the mathematical model and the two
//! executable primitives that the codec is built on.

use vstd::prelude::*;

verus! {

/// 256 to the power `n`: the number of values that `n` bytes can hold.
pub open spec fn pow256(n: nat) -> nat
    decreases n,
{
    if n == 0 {
        1
    } else {
        256 * pow256((n - 1) as nat)
    }
}

/// The `width` low-order bytes of `value`, least significant first.
pub open spec fn le_bytes(value: nat, width: nat) -> Seq<u8>
    decreases width,
{
    if width == 0 {
        Seq::<u8>::empty()
    } else {
        seq![(value % 256) as u8] + le_bytes(value / 256, (width - 1) as nat)
    }
}

/// The number that `bytes` spells, least significant byte first.
pub open spec fn le_value(bytes: Seq<u8>) -> nat
    decreases bytes.len(),
{
    if bytes.len() == 0 {
        0
    } else {
        bytes[0] as nat + 256 * le_value(bytes.skip(1))
    }
}

/// The powers of 256 at the widths that the format uses.
pub proof fn lemma_pow256_widths()
    ensures
        pow256(0) == 1,
        pow256(1) == 0x100,
        pow256(2) == 0x1_0000,
        pow256(4) == 0x1_0000_0000,
        pow256(8) == 0x1_0000_0000_0000_0000,
{
    reveal_with_fuel(pow256, 9);
}

/// More bytes hold at least as many values.
pub proof fn lemma_pow256_monotone(a: nat, b: nat)
    requires
        a <= b,
    ensures
        1 <= pow256(a) <= pow256(b),
    decreases b,
{
    if a == 0 {
        if b > 0 {
            lemma_pow256_monotone(0, (b - 1) as nat);
        }
    } else {
        lemma_pow256_monotone((a - 1) as nat, (b - 1) as nat);
    }
}

/// `le_bytes` yields exactly `width` bytes.
pub proof fn lemma_le_bytes_len(value: nat, width: nat)
    ensures
        le_bytes(value, width).len() == width,
    decreases width,
{
    if width > 0 {
        lemma_le_bytes_len(value / 256, (width - 1) as nat);
    }
}

/// Byte `i` of the output is digit `i` of `value` in base 256.
pub proof fn lemma_le_bytes_index(value: nat, width: nat, i: nat)
    requires
        i < width,
    ensures
        le_bytes(value, width).len() == width,
        le_bytes(value, width)[i as int] == (value / pow256(i) % 256) as u8,
    decreases i,
{
    lemma_le_bytes_len(value, width);
    lemma_le_bytes_len(value / 256, (width - 1) as nat);
    if i > 0 {
        let below = (i - 1) as nat;
        let rest = value / 256;
        lemma_le_bytes_index(rest, (width - 1) as nat, below);
        lemma_pow256_monotone(0, below);
        assert(pow256(i) == 256 * pow256(below));
        assert(rest / pow256(below) == value / pow256(i)) by {
            vstd::arithmetic::div_mod::lemma_div_denominator(
                value as int,
                256,
                pow256(below) as int,
            );
        }
        assert(le_bytes(value, width)[i as int] == le_bytes(rest, (width - 1) as nat)[below as int]);
    } else {
        assert(pow256(i) == 1);
        assert(value / pow256(i) == value) by {
            vstd::arithmetic::div_mod::lemma_div_basics(value as int);
        }
        assert(le_bytes(value, width)[0] == (value % 256) as u8);
    }
}

/// A string of `n` bytes spells a number below 256 to the `n`.
pub proof fn lemma_le_value_bound(bytes: Seq<u8>)
    ensures
        le_value(bytes) < pow256(bytes.len()),
    decreases bytes.len(),
{
    if bytes.len() > 0 {
        lemma_le_value_bound(bytes.skip(1));
    }
}

/// Reading back what was written gives the number, provided it fits the width.
pub proof fn lemma_le_value_of_le_bytes(value: nat, width: nat)
    requires
        value < pow256(width),
    ensures
        le_value(le_bytes(value, width)) == value,
    decreases width,
{
    if width > 0 {
        let tail = le_bytes(value / 256, (width - 1) as nat);
        let all = le_bytes(value, width);
        lemma_le_bytes_len(value / 256, (width - 1) as nat);
        lemma_le_value_of_le_bytes(value / 256, (width - 1) as nat);
        assert(all.skip(1) =~= tail);
        assert(all[0] == (value % 256) as u8);
    }
}

/// Writing out the number that a byte string spells gives the string back.
pub proof fn lemma_le_bytes_of_le_value(bytes: Seq<u8>)
    ensures
        le_bytes(le_value(bytes), bytes.len()) == bytes,
    decreases bytes.len(),
{
    if bytes.len() > 0 {
        let tail = bytes.skip(1);
        lemma_le_bytes_of_le_value(tail);
        let v = le_value(bytes);
        assert(v == bytes[0] as nat + 256 * le_value(tail));
        assert(v % 256 == bytes[0] as nat);
        assert(v / 256 == le_value(tail));
        assert(le_bytes(v, bytes.len()) =~= bytes);
    } else {
        assert(le_bytes(le_value(bytes), 0) =~= bytes);
    }
}

/// Appends the `width` low-order bytes of `value` to `out`, least
/// significant first.
pub(crate) fn write_le(out: &mut Vec<u8>, value: u64, width: usize)
    ensures
        final(out)@ == old(out)@ + le_bytes(value as nat, width as nat),
{
    let ghost start = out@;
    let mut rest: u64 = value;
    let mut left: usize = width;
    proof {
        assert(start + le_bytes(value as nat, width as nat) == out@ + le_bytes(
            rest as nat,
            left as nat,
        ));
    }
    while left > 0
        invariant
            out@ + le_bytes(rest as nat, left as nat) == start + le_bytes(
                value as nat,
                width as nat,
            ),
        decreases left,
    {
        let ghost before = out@;
        let low: u8 = (rest % 256) as u8;
        out.push(low);
        proof {
            let tail = le_bytes((rest / 256) as nat, (left - 1) as nat);
            assert(le_bytes(rest as nat, left as nat) == seq![low] + tail);
            assert(out@ + tail =~= before + (seq![low] + tail));
        }
        rest = rest / 256;
        left = left - 1;
    }
    proof {
        assert(out@ + le_bytes(rest as nat, 0) =~= out@);
    }
}

/// Reads the `width` bytes of `bytes` that begin at `start` as one number,
/// least significant byte first.
pub(crate) fn read_le(bytes: &[u8], start: usize, width: usize) -> (value: u64)
    requires
        width <= 8,
        start + width <= bytes.len(),
    ensures
        value as nat == le_value(bytes@.subrange(start as int, start + width)),
{
    let mut acc: u64 = 0;
    let mut i: usize = width;
    while i > 0
        invariant
            i <= width <= 8,
            start + width <= bytes.len(),
            acc as nat == le_value(bytes@.subrange(start + i, start + width)),
        decreases i,
    {
        i = i - 1;
        let b: u8 = bytes[start + i];
        proof {
            let s = bytes@.subrange(start + i, start + width);
            assert(s.skip(1) =~= bytes@.subrange(start + i + 1, start + width));
            assert(s[0] == b);
            assert(le_value(s) == b as nat + 256 * (acc as nat));
            lemma_le_value_bound(s);
            lemma_pow256_monotone(s.len(), 8);
            lemma_pow256_widths();
        }
        acc = acc * 256 + b as u64;
    }
    acc
}

} // verus!
