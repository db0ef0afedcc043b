//! The bytes of the format: little-endian integers and pages of latents.

use vstd::prelude::*;

verus! {

/// 256 to the power `k`.
pub open spec fn spec_pow256(k: nat) -> nat
    decreases k,
{
    if k == 0 {
        1
    } else {
        256 * spec_pow256((k - 1) as nat)
    }
}

/// The `width` low bytes of `value`, lowest first.
pub open spec fn spec_le_bytes(value: nat, width: nat) -> Seq<u8>
    decreases width,
{
    if width == 0 {
        Seq::empty()
    } else {
        seq![(value % 256) as u8] + spec_le_bytes(value / 256, (width - 1) as nat)
    }
}

/// The integer that `bytes` spell, lowest byte first.
pub open spec fn spec_le_value(bytes: Seq<u8>) -> nat
    decreases bytes.len(),
{
    if bytes.len() == 0 {
        0
    } else {
        bytes[0] as nat + 256 * spec_le_value(bytes.drop_first())
    }
}

/// The bytes of a page: each latent in `width` bytes, in order.
pub open spec fn spec_page(latents: Seq<u64>, width: nat) -> Seq<u8>
    decreases latents.len(),
{
    if latents.len() == 0 {
        Seq::empty()
    } else {
        spec_page(latents.drop_last(), width) + spec_le_bytes(latents.last() as nat, width)
    }
}

/// The `i`-th latent of a page of `width`-byte latents.
pub open spec fn spec_page_latent(page: Seq<u8>, width: nat, i: int) -> u64 {
    spec_le_value(page.subrange(i * width, (i + 1) * width)) as u64
}

/// The first `n` latents of a page of `width`-byte latents.
pub open spec fn spec_page_latents(page: Seq<u8>, width: nat, n: nat) -> Seq<u64> {
    Seq::new(n, |i: int| spec_page_latent(page, width, i))
}

pub proof fn lemma_pow256_values()
    ensures
        spec_pow256(0) == 1,
        spec_pow256(1) == 0x100,
        spec_pow256(2) == 0x1_0000,
        spec_pow256(4) == 0x1_0000_0000,
        spec_pow256(8) == 0x1_0000_0000_0000_0000,
{
    reveal_with_fuel(spec_pow256, 9);
}

/// The bytes of an integer are as many as asked for.
pub proof fn lemma_le_bytes_len(value: nat, width: nat)
    ensures
        spec_le_bytes(value, width).len() == width,
    decreases width,
{
    if width > 0 {
        lemma_le_bytes_len(value / 256, (width - 1) as nat);
    }
}

/// What bytes spell is below 256 to the number of bytes.
pub proof fn lemma_le_value_bound(bytes: Seq<u8>)
    ensures
        spec_le_value(bytes) < spec_pow256(bytes.len()),
    decreases bytes.len(),
{
    if bytes.len() > 0 {
        lemma_le_value_bound(bytes.drop_first());
    }
}

/// An integer that fits in `width` bytes is the one its bytes spell.
pub proof fn lemma_le_round_trip(value: nat, width: nat)
    requires
        value < spec_pow256(width),
    ensures
        spec_le_value(spec_le_bytes(value, width)) == value,
    decreases width,
{
    if width > 0 {
        let rest = spec_le_bytes(value / 256, (width - 1) as nat);
        let bytes = spec_le_bytes(value, width);
        lemma_le_round_trip(value / 256, (width - 1) as nat);
        assert(bytes.drop_first() =~= rest);
    }
}

/// A page has `width` bytes for each latent.
pub proof fn lemma_page_len(latents: Seq<u64>, width: nat)
    ensures
        spec_page(latents, width).len() == latents.len() * width,
    decreases latents.len(),
{
    if latents.len() > 0 {
        lemma_page_len(latents.drop_last(), width);
        lemma_le_bytes_len(latents.last() as nat, width);
        assert((latents.len() - 1) * width + width == latents.len() * width)
            by (nonlinear_arith);
    } else {
        assert(0 * width == 0) by (nonlinear_arith);
    }
}

/// The place of the `i`-th of `n` latents lies inside the page.
pub proof fn lemma_page_slot(i: int, n: int, width: nat)
    requires
        0 <= i < n,
    ensures
        0 <= i * width,
        (i + 1) * width == i * width + width,
        (i + 1) * width <= n * width,
{
    assert(0 <= i * width) by (nonlinear_arith)
        requires
            0 <= i,
    ;
    assert((i + 1) * width == i * width + width) by (nonlinear_arith);
    assert((i + 1) * width <= n * width) by (nonlinear_arith)
        requires
            i + 1 <= n,
    ;
}

/// Reading a page gives back the latents it was written from, whatever bytes
/// follow the page.
pub proof fn lemma_page_round_trip(latents: Seq<u64>, width: nat, tail: Seq<u8>)
    requires
        forall|i: int|
            0 <= i < latents.len() ==> (#[trigger] latents[i] as nat) < spec_pow256(width),
    ensures
        spec_page_latents(spec_page(latents, width) + tail, width, latents.len()) == latents,
    decreases latents.len(),
{
    let n = latents.len();
    let page = spec_page(latents, width);
    if n > 0 {
        let front = latents.drop_last();
        let last = spec_le_bytes(latents.last() as nat, width);
        lemma_page_len(front, width);
        lemma_page_len(latents, width);
        lemma_le_bytes_len(latents.last() as nat, width);
        lemma_page_round_trip(front, width, last + tail);
        assert(spec_page(front, width) + (last + tail) =~= page + tail);
        assert forall|i: int| 0 <= i < n implies spec_page_latent(page + tail, width, i)
            == latents[i] by {
            lemma_page_slot(i, n as int, width);
            if i < n - 1 {
                assert(spec_page_latents(page + tail, width, (n - 1) as nat)[i] == front[i]);
            } else {
                assert((page + tail).subrange(i * width, (i + 1) * width) =~= last);
                lemma_le_round_trip(latents.last() as nat, width);
            }
        }
    }
    assert(spec_page_latents(page + tail, width, n) =~= latents);
}

/// Every latent read from a page fits in `width` bytes.
pub proof fn lemma_page_latents_fit(page: Seq<u8>, width: nat, n: nat, i: int)
    requires
        width <= 8,
        n * width <= page.len(),
        0 <= i < n,
    ensures
        (spec_page_latent(page, width, i) as nat) < spec_pow256(width),
{
    lemma_page_slot(i, n as int, width);
    let slot = page.subrange(i * width, (i + 1) * width);
    lemma_le_value_bound(slot);
    lemma_pow256_below(width);
}

/// Appends the `width` low bytes of `value`, lowest first.
pub fn write_le(dst: &mut Vec<u8>, value: u64, width: usize)
    requires
        width <= 8,
    ensures
        final(dst)@ == old(dst)@ + spec_le_bytes(value as nat, width as nat),
{
    let mut rest: u64 = value;
    let mut i: usize = 0;
    while i < width
        invariant
            i <= width,
            dst@ + spec_le_bytes(rest as nat, (width - i) as nat) == old(dst)@ + spec_le_bytes(
                value as nat,
                width as nat,
            ),
        decreases width - i,
    {
        let ghost before = dst@;
        dst.push((rest % 256) as u8);
        assert(dst@ + spec_le_bytes((rest / 256) as nat, (width - i - 1) as nat) =~= before
            + spec_le_bytes(rest as nat, (width - i) as nat));
        rest = rest / 256;
        i += 1;
    }
    assert(dst@ + Seq::<u8>::empty() =~= dst@);
}

/// Reads the integer that the `width` bytes from `start` spell, lowest first.
pub fn read_le(src: &[u8], start: usize, width: usize) -> (r: u64)
    requires
        width <= 8,
        start + width <= src@.len(),
    ensures
        r == spec_le_value(src@.subrange(start as int, start + width)),
{
    let mut acc: u64 = 0;
    let mut k: usize = 0;
    let len = src.len();
    let ghost end = start + width;
    while k < width
        invariant
            k <= width <= 8,
            end == start + width,
            end <= len == src@.len(),
            acc == spec_le_value(src@.subrange(end - k, end)),
        decreases width - k,
    {
        let byte = src[start + (width - 1 - k)];
        proof {
            let lower = src@.subrange(end - k - 1, end);
            let upper = src@.subrange(end - k, end);
            assert(lower.drop_first() =~= upper);
            lemma_le_value_bound(upper);
            lemma_le_value_bound(lower);
            lemma_pow256_below(k as nat + 1);
        }
        acc = acc * 256 + byte as u64;
        k += 1;
    }
    acc
}

/// Up to eight bytes spell an integer of 64 bits.
pub proof fn lemma_pow256_below(k: nat)
    requires
        k <= 8,
    ensures
        spec_pow256(k) <= 0x1_0000_0000_0000_0000,
{
    reveal_with_fuel(spec_pow256, 9);
}

} // verus!
