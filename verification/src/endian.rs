//! Little-endian integers: what they are as byte sequences, and verified code
//! that writes and reads them.

use vstd::prelude::*;

verus! {

/// 256 to the power `n`: the number of values that `n` bytes can hold.
pub open spec fn pow256(n: nat) -> nat
    decreases n,
{
    if n == 0 {
        1
    } else {
        256 * pow256((n - 1) as nat)
    }
}

/// The `width` low-order bytes of `x`, least significant first.
pub open spec fn le_bytes(x: nat, width: nat) -> Seq<u8>
    decreases width,
{
    if width == 0 {
        Seq::empty()
    } else {
        seq![(x % 256) as u8] + le_bytes(x / 256, (width - 1) as nat)
    }
}

/// The number that the bytes of `s` spell, least significant first.
pub open spec fn le_value(s: Seq<u8>) -> nat
    decreases s.len(),
{
    if s.len() == 0 {
        0
    } else {
        s[0] as nat + 256 * le_value(s.drop_first())
    }
}

/// An integer of `width` bytes always takes exactly `width` bytes.
pub proof fn lemma_le_bytes_len(x: nat, width: nat)
    ensures
        le_bytes(x, width).len() == width,
    decreases width,
{
    if width > 0 {
        lemma_le_bytes_len(x / 256, (width - 1) as nat);
    }
}

/// Byte `i` of a little-endian integer is the `i`-th base-256 digit.
pub proof fn lemma_le_bytes_index(x: nat, width: nat, i: nat)
    requires
        i < width,
    ensures
        le_bytes(x, width).len() == width,
        le_bytes(x, width)[i as int] == ((x / pow256(i)) % 256) as u8,
    decreases width,
{
    lemma_le_bytes_len(x, width);
    lemma_le_bytes_len(x / 256, (width - 1) as nat);
    let rest = le_bytes(x / 256, (width - 1) as nat);
    assert(le_bytes(x, width) == seq![(x % 256) as u8] + rest);
    if i > 0 {
        lemma_le_bytes_index(x / 256, (width - 1) as nat, (i - 1) as nat);
        let p = pow256((i - 1) as nat);
        lemma_pow256_positive((i - 1) as nat);
        assert(pow256(i) == 256 * p);
        assert((x / 256) / p == x / (256 * p)) by (nonlinear_arith)
            requires
                p > 0,
        ;
        assert(le_bytes(x, width)[i as int] == rest[i - 1]);
    } else {
        assert(pow256(0) == 1);
        assert(x / 1 == x);
    }
}

pub proof fn lemma_pow256_positive(n: nat)
    ensures
        pow256(n) > 0,
    decreases n,
{
    if n > 0 {
        lemma_pow256_positive((n - 1) as nat);
    }
}

pub proof fn lemma_pow256_monotonic(a: nat, b: nat)
    requires
        a <= b,
    ensures
        pow256(a) <= pow256(b),
    decreases b,
{
    if a < b {
        lemma_pow256_monotonic(a, (b - 1) as nat);
        lemma_pow256_positive((b - 1) as nat);
    }
}

/// The widths that the protocol uses, as numbers.
pub proof fn lemma_pow256_values()
    ensures
        pow256(1) == 0x100,
        pow256(2) == 0x1_0000,
        pow256(4) == 0x1_0000_0000,
        pow256(8) == 0x1_0000_0000_0000_0000,
        pow256(15) == 0x1_0000_0000_0000_0000_0000_0000_0000_00,
        pow256(16) == 0x1_0000_0000_0000_0000_0000_0000_0000_0000,
{
    reveal_with_fuel(pow256, 17);
}

/// `n` bytes spell a number below 256 to the `n`.
pub proof fn lemma_le_value_bound(s: Seq<u8>)
    ensures
        le_value(s) < pow256(s.len()),
    decreases s.len(),
{
    if s.len() > 0 {
        lemma_le_value_bound(s.drop_first());
    }
}

/// Reading back what was written gives the number, as far as it fits the width.
pub proof fn lemma_le_value_of_bytes(x: nat, width: nat)
    requires
        x < pow256(width),
    ensures
        le_bytes(x, width).len() == width,
        le_value(le_bytes(x, width)) == x,
    decreases width,
{
    lemma_le_bytes_len(x, width);
    if width > 0 {
        let rest = le_bytes(x / 256, (width - 1) as nat);
        lemma_le_bytes_len(x / 256, (width - 1) as nat);
        lemma_le_value_of_bytes(x / 256, (width - 1) as nat);
        assert(le_bytes(x, width).drop_first() =~= rest);
    }
}

/// Writing what was read gives the same bytes.
pub proof fn lemma_le_bytes_of_value(s: Seq<u8>)
    ensures
        le_bytes(le_value(s), s.len()) == s,
    decreases s.len(),
{
    if s.len() > 0 {
        let rest = s.drop_first();
        lemma_le_bytes_of_value(rest);
        let v = le_value(s);
        assert(v % 256 == s[0] as nat);
        assert(v / 256 == le_value(rest));
        assert(le_bytes(v, s.len()) =~= s);
    } else {
        assert(le_bytes(le_value(s), s.len()) =~= s);
    }
}

/// The `width` low-order bytes of `x`, least significant first, as a vector.
pub fn le_vec(x: u128, width: usize) -> (v: Vec<u8>)
    ensures
        v@ == le_bytes(x as nat, width as nat),
{
    let mut v: Vec<u8> = Vec::new();
    let mut rest: u128 = x;
    let mut i: usize = 0;
    while i < width
        invariant
            i <= width,
            v@.len() == i,
            v@ + le_bytes(rest as nat, (width - i) as nat) == le_bytes(x as nat, width as nat),
        decreases width - i,
    {
        let ghost before = v@;
        let ghost tail = le_bytes((rest / 256) as nat, (width - i - 1) as nat);
        assert(le_bytes(rest as nat, (width - i) as nat) == seq![(rest % 256) as u8] + tail);
        v.push((rest % 256) as u8);
        assert(v@ + tail =~= before + (seq![(rest % 256) as u8] + tail));
        rest = rest / 256;
        i = i + 1;
    }
    assert(v@ + Seq::<u8>::empty() =~= v@);
    v
}

/// The number spelled by the `width` bytes of `s` that start at `start`.
pub fn read_le(s: &[u8], start: usize, width: usize) -> (r: u128)
    requires
        width <= 16,
        start + width <= s@.len(),
    ensures
        r == le_value(s@.subrange(start as int, start + width)),
{
    let total = s.len();
    let mut acc: u128 = 0;
    let mut i: usize = width;
    while i > 0
        invariant
            i <= width <= 16,
            start + width <= s@.len() == total,
            acc == le_value(s@.subrange(start + i, start + width)),
        decreases i,
    {
        i = i - 1;
        proof {
            let higher = s@.subrange(start + i + 1, start + width);
            let here = s@.subrange(start + i, start + width);
            assert(here.drop_first() =~= higher);
            lemma_le_value_bound(higher);
            lemma_pow256_monotonic(higher.len(), 15);
            lemma_pow256_values();
        }
        acc = acc * 256 + s[start + i] as u128;
    }
    acc
}

/// The 32-bit number at `start`, least significant byte first.
pub fn read_u32_le(s: &[u8], start: usize) -> (r: u32)
    requires
        start + 4 <= s@.len(),
    ensures
        r == le_value(s@.subrange(start as int, start + 4)),
{
    let wide = read_le(s, start, 4);
    proof {
        lemma_le_value_bound(s@.subrange(start as int, start + 4));
        lemma_pow256_values();
    }
    wide as u32
}

} // verus!
