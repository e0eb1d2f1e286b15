use vstd::prelude::*;

verus! {

/// The lowest `width` bytes of `n`, the least significant first.
pub open spec fn le_bytes(n: nat, width: nat) -> Seq<u8>
    decreases width,
{
    if width == 0 {
        Seq::empty()
    } else {
        seq![(n % 256) as u8] + le_bytes(n / 256, (width - 1) as nat)
    }
}

/// The number whose bytes are `b`, the least significant first.
pub open spec fn le_value(b: Seq<u8>) -> nat
    decreases b.len(),
{
    if b.len() == 0 {
        0
    } else {
        b[0] as nat + 256 * le_value(b.drop_first())
    }
}

/// How many values fit in `width` bytes.
pub open spec fn le_range(width: nat) -> nat
    decreases width,
{
    if width == 0 {
        1
    } else {
        256 * le_range((width - 1) as nat)
    }
}

pub proof fn lemma_le_bytes_len(n: nat, width: nat)
    ensures
        le_bytes(n, width).len() == width,
    decreases width,
{
    if width > 0 {
        lemma_le_bytes_len(n / 256, (width - 1) as nat);
    }
}

pub proof fn lemma_le_value_bound(b: Seq<u8>)
    ensures
        le_value(b) < le_range(b.len()),
    decreases b.len(),
{
    if b.len() > 0 {
        lemma_le_value_bound(b.drop_first());
    }
}

pub proof fn lemma_le_ranges()
    ensures
        le_range(4) == 0x1_0000_0000,
        le_range(7) == 0x100_0000_0000_0000,
        le_range(8) == 0x1_0000_0000_0000_0000,
{
    reveal_with_fuel(le_range, 9);
}

/// A number that fits in `width` bytes is read back from them.
pub proof fn lemma_le_value_of_bytes(n: nat, width: nat)
    requires
        n < le_range(width),
    ensures
        le_value(le_bytes(n, width)) == n,
    decreases width,
{
    if width > 0 {
        let rest = (width - 1) as nat;
        lemma_le_value_of_bytes(n / 256, rest);
        assert(le_bytes(n, width).drop_first() =~= le_bytes(n / 256, rest));
    }
}

/// Appends the lowest `width` bytes of `n`.
pub fn push_le(out: &mut Vec<u8>, n: u64, width: u8)
    requires
        width <= 8,
    ensures
        final(out)@ == old(out)@ + le_bytes(n as nat, width as nat),
{
    let mut rest: u64 = n;
    let mut left: u8 = width;
    while left > 0
        invariant
            left <= width,
            out@ + le_bytes(rest as nat, left as nat) == old(out)@ + le_bytes(
                n as nat,
                width as nat,
            ),
        decreases left,
    {
        let ghost before = out@;
        out.push((rest % 256) as u8);
        proof {
            let tail = le_bytes((rest / 256) as nat, (left - 1) as nat);
            assert(out@ + tail =~= before + (seq![(rest % 256) as u8] + tail));
        }
        rest = rest / 256;
        left = left - 1;
    }
    assert(out@ + le_bytes(rest as nat, 0) =~= out@);
}

/// The number in the `width` bytes from `at` on.
pub fn read_le(bytes: &[u8], at: usize, width: usize) -> (n: u64)
    requires
        width <= 8,
        at + width <= bytes@.len(),
    ensures
        n == le_value(bytes@.subrange(at as int, at + width)),
{
    let len: usize = bytes.len();
    let mut n: u64 = 0;
    let mut i: usize = width;
    assert(bytes@.subrange(at + width, at + width) =~= Seq::<u8>::empty());
    while i > 0
        invariant
            width <= 8,
            i <= width,
            at + width <= bytes@.len() == len,
            n == le_value(bytes@.subrange(at + i, at + width)),
        decreases i,
    {
        i = i - 1;
        proof {
            let tail = bytes@.subrange(at + i + 1, at + width);
            let here = bytes@.subrange(at + i, at + width);
            assert(here.drop_first() =~= tail);
            lemma_le_value_bound(tail);
            lemma_le_range_grows(tail.len(), 7);
            lemma_le_ranges();
        }
        n = n * 256 + bytes[at + i] as u64;
    }
    n
}

proof fn lemma_le_range_grows(a: nat, b: nat)
    requires
        a <= b,
    ensures
        le_range(a) <= le_range(b),
    decreases b,
{
    if a < b {
        lemma_le_range_grows(a, (b - 1) as nat);
        lemma_le_range_grows_from_one((b - 1) as nat);
    }
}

proof fn lemma_le_range_grows_from_one(a: nat)
    ensures
        le_range(a) >= 1,
    decreases a,
{
    if a > 0 {
        lemma_le_range_grows_from_one((a - 1) as nat);
    }
}

} // verus!
