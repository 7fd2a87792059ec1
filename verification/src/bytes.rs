//! Fixed-width integer encodings as byte sequences.
use vstd::prelude::*;

verus! {

/// 256 to the power `width`: the number of values that fit in `width` bytes.
pub open spec fn byte_capacity(width: nat) -> nat
    decreases width,
{
    if width == 0 {
        1
    } else {
        256 * byte_capacity((width - 1) as nat)
    }
}

/// The `width` low-order bytes of `n`, most significant first.
pub open spec fn be_bytes(n: nat, width: nat) -> Seq<u8>
    decreases width,
{
    if width == 0 {
        Seq::empty()
    } else {
        be_bytes(n / 256, (width - 1) as nat).push((n % 256) as u8)
    }
}

/// The number that a byte sequence spells, most significant byte first.
pub open spec fn be_value(s: Seq<u8>) -> nat
    decreases s.len(),
{
    if s.len() == 0 {
        0
    } else {
        be_value(s.drop_last()) * 256 + s.last() as nat
    }
}

/// The `width` low-order bytes of `n`, least significant first.
pub open spec fn le_bytes(n: nat, width: nat) -> Seq<u8>
    decreases width,
{
    if width == 0 {
        Seq::empty()
    } else {
        seq![(n % 256) as u8] + le_bytes(n / 256, (width - 1) as nat)
    }
}

pub proof fn lemma_be_bytes_len(n: nat, width: nat)
    ensures
        be_bytes(n, width).len() == width,
    decreases width,
{
    if width > 0 {
        lemma_be_bytes_len(n / 256, (width - 1) as nat);
    }
}

pub proof fn lemma_le_bytes_len(n: nat, width: nat)
    ensures
        le_bytes(n, width).len() == width,
    decreases width,
{
    if width > 0 {
        lemma_le_bytes_len(n / 256, (width - 1) as nat);
    }
}

/// Reading back what was written, for every number that fits.
pub proof fn lemma_be_round_trip(n: nat, width: nat)
    requires
        n < byte_capacity(width),
    ensures
        be_value(be_bytes(n, width)) == n,
    decreases width,
{
    if width > 0 {
        lemma_be_round_trip(n / 256, (width - 1) as nat);
        assert(be_bytes(n, width).drop_last() =~= be_bytes(n / 256, (width - 1) as nat));
    }
}

/// Numbers that fit are told apart by their bytes.
pub proof fn lemma_be_injective(a: nat, b: nat, width: nat)
    requires
        a < byte_capacity(width),
        b < byte_capacity(width),
        be_bytes(a, width) == be_bytes(b, width),
    ensures
        a == b,
{
    lemma_be_round_trip(a, width);
    lemma_be_round_trip(b, width);
}

pub proof fn lemma_le_injective(a: nat, b: nat, width: nat)
    requires
        a < byte_capacity(width),
        b < byte_capacity(width),
        le_bytes(a, width) == le_bytes(b, width),
    ensures
        a == b,
    decreases width,
{
    if width > 0 {
        let w = (width - 1) as nat;
        let x = le_bytes(a, width);
        let y = le_bytes(b, width);
        assert(x[0] == y[0]);
        assert(x.skip(1) =~= le_bytes(a / 256, w));
        assert(y.skip(1) =~= le_bytes(b / 256, w));
        lemma_le_injective(a / 256, b / 256, w);
    }
}

/// The capacities of the integer widths that keys and records use.
pub proof fn lemma_capacities()
    ensures
        byte_capacity(2) == 0x1_0000,
        byte_capacity(4) == 0x1_0000_0000,
        byte_capacity(8) == 0x1_0000_0000_0000_0000,
        byte_capacity(16) == 0x1_0000_0000_0000_0000_0000_0000_0000_0000,
{
    reveal_with_fuel(byte_capacity, 17);
}

/// Append the `width` low-order bytes of `n`, most significant first.
pub fn push_be(out: &mut Vec<u8>, n: u128, width: usize)
    ensures
        final(out)@ == old(out)@ + be_bytes(n as nat, width as nat),
    decreases width,
{
    if width == 0 {
        assert(out@ + be_bytes(n as nat, 0) =~= out@);
    } else {
        push_be(out, n / 256, width - 1);
        out.push((n % 256) as u8);
        assert(out@ =~= old(out)@ + be_bytes(n as nat, width as nat));
    }
}

/// Read `bytes[from..to]` as a big-endian number.
pub fn read_be(bytes: &[u8], from: usize, to: usize) -> (n: u128)
    requires
        from <= to <= bytes@.len(),
        to - from <= 16,
    ensures
        n == be_value(bytes@.subrange(from as int, to as int)),
        n < byte_capacity((to - from) as nat),
{
    let mut n: u128 = 0;
    let mut i: usize = from;
    proof {
        assert(bytes@.subrange(from as int, from as int) =~= Seq::<u8>::empty());
    }
    while i < to
        invariant
            from <= i <= to <= bytes@.len(),
            to - from <= 16,
            n == be_value(bytes@.subrange(from as int, i as int)),
            n < byte_capacity((i - from) as nat),
        decreases to - i,
    {
        proof {
            let s = bytes@.subrange(from as int, i + 1);
            assert(s.drop_last() =~= bytes@.subrange(from as int, i as int));
            reveal_with_fuel(byte_capacity, 17);
            lemma_capacity_monotone((i - from) as nat, 15);
        }
        n = n * 256 + bytes[i] as u128;
        i += 1;
    }
    n
}

proof fn lemma_capacity_monotone(a: nat, b: nat)
    requires
        a <= b,
    ensures
        byte_capacity(a) <= byte_capacity(b),
    decreases b,
{
    if a < b {
        lemma_capacity_monotone(a, (b - 1) as nat);
    }
}

} // verus!
