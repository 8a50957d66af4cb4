//! Little-endian numbers: what a run of bytes is worth, and the bytes of a number.

use vstd::prelude::*;

verus! {

/// 256 to the power `n`: the number of values that `n` bytes can hold.
pub open spec fn pow256(n: nat) -> nat
    decreases n,
{
    if n == 0 {
        1
    } else {
        256 * pow256((n - 1) as nat)
    }
}

/// The number that `bytes` spell, least significant byte first.
pub open spec fn le_value(bytes: Seq<u8>) -> nat
    decreases bytes.len(),
{
    if bytes.len() == 0 {
        0
    } else {
        bytes[0] as nat + 256 * le_value(bytes.skip(1))
    }
}

/// The `width` lowest bytes of `v`, least significant byte first.
pub open spec fn le_bytes(v: nat, width: nat) -> Seq<u8>
    decreases width,
{
    if width == 0 {
        Seq::empty()
    } else {
        seq![(v % 256) as u8] + le_bytes(v / 256, (width - 1) as nat)
    }
}

/// The two's complement reading of a `width`-byte number.
pub open spec fn signed_of(v: nat, width: nat) -> int {
    if 2 * v < pow256(width) {
        v as int
    } else {
        v - pow256(width)
    }
}

/// The `width`-byte number whose two's complement reading is `x`.
pub open spec fn unsigned_of(x: int, width: nat) -> nat {
    if x >= 0 {
        x as nat
    } else {
        (x + pow256(width)) as nat
    }
}

pub proof fn lemma_pow256_values()
    ensures
        pow256(0) == 1,
        pow256(1) == 0x100,
        pow256(2) == 0x1_0000,
        pow256(3) == 0x100_0000,
        pow256(4) == 0x1_0000_0000,
        pow256(8) == 0x1_0000_0000_0000_0000,
        pow256(16) == u128::MAX + 1,
{
    reveal_with_fuel(pow256, 5);
    assert(pow256(8) == pow256(4) * 0x1_0000_0000);
    assert(pow256(12) == pow256(8) * 0x1_0000_0000);
    assert(pow256(16) == pow256(12) * 0x1_0000_0000);
}

pub proof fn lemma_pow256_grows(a: nat, b: nat)
    requires
        a <= b,
    ensures
        0 < pow256(a) <= pow256(b),
    decreases b,
{
    if b > 0 {
        if a < b {
            lemma_pow256_grows(a, (b - 1) as nat);
        } else {
            lemma_pow256_grows((a - 1) as nat, (b - 1) as nat);
        }
    }
}

pub proof fn lemma_le_bytes_len(v: nat, width: nat)
    ensures
        le_bytes(v, width).len() == width,
    decreases width,
{
    if width > 0 {
        lemma_le_bytes_len(v / 256, (width - 1) as nat);
    }
}

/// Writing a number that fits in `width` bytes and reading the bytes gives the number.
pub proof fn lemma_le_value_of_bytes(v: nat, width: nat)
    requires
        v < pow256(width),
    ensures
        le_value(le_bytes(v, width)) == v,
    decreases width,
{
    if width > 0 {
        let tail = le_bytes(v / 256, (width - 1) as nat);
        lemma_le_value_of_bytes(v / 256, (width - 1) as nat);
        lemma_le_bytes_len(v / 256, (width - 1) as nat);
        assert(le_bytes(v, width).skip(1) =~= tail);
    }
}

/// The number that at most sixteen bytes spell.
pub fn le_decode(bytes: &Vec<u8>) -> (v: u128)
    requires
        bytes@.len() <= 16,
    ensures
        v == le_value(bytes@),
        v < pow256(bytes@.len()),
{
    let mut acc: u128 = 0;
    let mut i: usize = bytes.len();
    proof {
        assert(bytes@.skip(i as int) =~= Seq::<u8>::empty());
    }
    while i > 0
        invariant
            i <= bytes@.len() <= 16,
            acc == le_value(bytes@.skip(i as int)),
            acc < pow256((bytes@.len() - i) as nat),
        decreases i,
    {
        i -= 1;
        proof {
            assert(bytes@.skip(i as int).skip(1) =~= bytes@.skip(i + 1));
            lemma_pow256_grows((bytes@.len() - i) as nat, 16);
            lemma_pow256_values();
        }
        acc = acc * 256 + bytes[i] as u128;
    }
    proof {
        assert(bytes@.skip(0) =~= bytes@);
    }
    acc
}

/// Appends the `width` lowest bytes of `v` to `out`.
pub fn le_encode(v: u128, width: usize, out: &mut Vec<u8>)
    ensures
        final(out)@ == old(out)@ + le_bytes(v as nat, width as nat),
{
    let mut rest: u128 = v;
    let mut i: usize = 0;
    proof {
        assert(out@ + le_bytes(rest as nat, (width - i) as nat) =~= old(out)@ + le_bytes(
            v as nat,
            width as nat,
        ));
    }
    while i < width
        invariant
            i <= width,
            out@ + le_bytes(rest as nat, (width - i) as nat) == old(out)@ + le_bytes(
                v as nat,
                width as nat,
            ),
        decreases width - i,
    {
        let ghost before = out@;
        let ghost tail = le_bytes((rest / 256) as nat, (width - i - 1) as nat);
        out.push((rest % 256) as u8);
        proof {
            assert(before + le_bytes(rest as nat, (width - i) as nat) =~= out@ + tail);
        }
        rest = rest / 256;
        i += 1;
    }
    proof {
        assert(out@ + le_bytes(rest as nat, 0) =~= out@);
    }
}

} // verus!
