use vstd::prelude::*;

use crate::padding::{lemma_pad_to, padded_len, zeros, GGUF_DEFAULT_ALIGNMENT};

verus! {

/// Total size in the data region of payloads of the given sizes, each padded.
pub open spec fn padded_total(sizes: Seq<int>) -> int
    decreases sizes.len(),
{
    if sizes.len() == 0 {
        0
    } else {
        padded_total(sizes.drop_last()) + padded_len(sizes.last())
    }
}

/// Offset in the data region at which the payload of index `k` starts.
pub open spec fn region_offset(sizes: Seq<int>, k: int) -> int {
    padded_total(sizes.take(k))
}

/// The lengths of the given payloads.
pub open spec fn lengths(payloads: Seq<Seq<u8>>) -> Seq<int> {
    payloads.map_values(|p: Seq<u8>| p.len() as int)
}

/// The data region that holds `payloads` in order, each followed by zero
/// bytes up to the next multiple of the alignment unit.
pub open spec fn region(payloads: Seq<Seq<u8>>) -> Seq<u8>
    decreases payloads.len(),
{
    if payloads.len() == 0 {
        Seq::empty()
    } else {
        let last = payloads.last();
        region(payloads.drop_last()) + last + zeros(padded_len(last.len() as int) - last.len())
    }
}

/// Every padded total of non-negative sizes is a non-negative multiple of the alignment unit.
pub proof fn lemma_padded_total_aligned(sizes: Seq<int>)
    requires
        forall|i: int| 0 <= i < sizes.len() ==> sizes[i] >= 0,
    ensures
        padded_total(sizes) >= 0,
        padded_total(sizes) % (GGUF_DEFAULT_ALIGNMENT as int) == 0,
    decreases sizes.len(),
{
    if sizes.len() > 0 {
        lemma_padded_total_aligned(sizes.drop_last());
        lemma_pad_to(sizes.last(), GGUF_DEFAULT_ALIGNMENT as int);
    }
}

/// The region of some payloads is as long as the padded total of their lengths.
pub proof fn lemma_region_len(payloads: Seq<Seq<u8>>)
    ensures
        region(payloads).len() == padded_total(lengths(payloads)),
    decreases payloads.len(),
{
    if payloads.len() > 0 {
        lemma_region_len(payloads.drop_last());
        assert(lengths(payloads).drop_last() =~= lengths(payloads.drop_last()));
        lemma_pad_to(payloads.last().len() as int, GGUF_DEFAULT_ALIGNMENT as int);
    }
}

/// Streaming builds the region: appending one payload and its padding (what
/// `append_padded` does) to the region of some payloads gives the region of
/// the longer sequence.
pub proof fn lemma_region_push(payloads: Seq<Seq<u8>>, payload: Seq<u8>)
    ensures
        region(payloads.push(payload)) == region(payloads) + payload + zeros(
            padded_len(payload.len() as int) - payload.len(),
        ),
{
    assert(payloads.push(payload).drop_last() =~= payloads);
}

/// Reading back: the bytes of the region at a payload's offset, as many as
/// the payload has, are that payload.
pub proof fn lemma_region_round_trip(payloads: Seq<Seq<u8>>, k: int)
    requires
        0 <= k < payloads.len(),
    ensures
        region_offset(lengths(payloads), k) % (GGUF_DEFAULT_ALIGNMENT as int) == 0,
        region(payloads).subrange(
            region_offset(lengths(payloads), k),
            region_offset(lengths(payloads), k) + payloads[k].len(),
        ) == payloads[k],
    decreases payloads.len(),
{
    let sizes = lengths(payloads);
    let init = payloads.drop_last();
    assert(sizes.take(k) =~= lengths(init).take(k)) by {
        assert(lengths(init) =~= sizes.drop_last());
    }
    lemma_padded_total_aligned(sizes.take(k));
    if k == payloads.len() - 1 {
        assert(init.len() == k);
        assert(lengths(init).take(k) =~= lengths(init));
        lemma_region_len(init);
        let r = region(payloads);
        let off = region(init).len() as int;
        assert(r.subrange(off, off + payloads[k].len()) =~= payloads[k]);
    } else {
        lemma_region_round_trip(init, k);
        lemma_region_len(init);
        let off = region_offset(lengths(init), k);
        lemma_region_len(init.take(k + 1));
        assert(init.take(k + 1) =~= payloads.take(k + 1));
        assert(lengths(init).take(k + 1).drop_last() =~= lengths(init).take(k));
        assert(lengths(payloads.take(k + 1)) =~= lengths(init).take(k + 1));
        lemma_region_len_mono(init, k + 1);
        assert(region(payloads).subrange(off, off + payloads[k].len()) =~= region(init).subrange(
            off,
            off + payloads[k].len(),
        ));
    }
}

/// The region of a prefix is no longer than the region of the whole.
proof fn lemma_region_len_mono(payloads: Seq<Seq<u8>>, j: int)
    requires
        0 <= j <= payloads.len(),
    ensures
        region(payloads.take(j)).len() <= region(payloads).len(),
    decreases payloads.len(),
{
    if j < payloads.len() {
        assert(payloads.take(j) =~= payloads.drop_last().take(j));
        lemma_region_len_mono(payloads.drop_last(), j);
    } else {
        assert(payloads.take(j) =~= payloads);
    }
}

/// Each payload's slot runs from its offset to the next one (or to the end):
/// the slot holds the payload, its offset is aligned, and it is followed by
/// the fewest zero bytes that bring the end to a multiple of the alignment unit.
pub proof fn lemma_padding_invariant(sizes: Seq<int>, k: int)
    requires
        0 <= k < sizes.len(),
        forall|i: int| 0 <= i < sizes.len() ==> sizes[i] >= 0,
    ensures
        ({
            let this = region_offset(sizes, k);
            let next = region_offset(sizes, k + 1);
            &&& this % (GGUF_DEFAULT_ALIGNMENT as int) == 0
            &&& next % (GGUF_DEFAULT_ALIGNMENT as int) == 0
            &&& next - this >= sizes[k]
            &&& next - this - sizes[k] < GGUF_DEFAULT_ALIGNMENT as int
        }),
{
    assert(sizes.take(k + 1).drop_last() =~= sizes.take(k));
    lemma_padded_total_aligned(sizes.take(k));
    lemma_padded_total_aligned(sizes.take(k + 1));
    lemma_pad_to(sizes[k], GGUF_DEFAULT_ALIGNMENT as int);
}

} // verus!
