use vstd::prelude::*;

use crate::error::MergeError;
use crate::padding::{ggml_pad, lemma_pad_to, padded_len, GGUF_DEFAULT_ALIGNMENT};
use crate::region::{padded_total, region_offset};

verus! {

/// One tensor of a part's directory, as far as a merge needs it.
#[derive(Debug, PartialEq)]
pub struct TensorInfo {
    pub name: String,
    /// Length of the payload in bytes.
    pub n_bytes: usize,
    /// Offset of the payload from the start of the part's data region.
    pub offset: usize,
}

/// The tensor directory of one part and where its data region starts.
#[derive(Debug, PartialEq)]
pub struct PartMeta {
    pub tensors: Vec<TensorInfo>,
    /// Absolute file offset of the part's data region.
    pub data_offset: usize,
}

/// One tensor to copy: from where in which part, and to where in the output's
/// data region. The payload is followed by zero bytes up to the next multiple
/// of the alignment unit.
#[derive(Debug, Clone, Copy, PartialEq, Eq, Structural)]
pub struct CopyStep {
    pub part: usize,
    pub index: usize,
    /// Absolute file offset of the payload in its part.
    pub src_offset: usize,
    pub n_bytes: usize,
    /// Offset of the payload from the start of the output's data region.
    pub out_offset: usize,
}

/// (part, index) of every tensor of the first `p` parts, part by part, each
/// part's tensors in their own order.
pub open spec fn refs_upto(parts: Seq<PartMeta>, p: int) -> Seq<(int, int)>
    decreases p,
{
    if p <= 0 {
        Seq::empty()
    } else {
        refs_upto(parts, p - 1) + Seq::new(
            parts[p - 1].tensors@.len(),
            |i: int| (p - 1, i),
        )
    }
}

/// The order of the merged tensor directory.
pub open spec fn tensor_refs(parts: Seq<PartMeta>) -> Seq<(int, int)> {
    refs_upto(parts, parts.len() as int)
}

/// The tensor that a directory entry refers to.
pub open spec fn info(parts: Seq<PartMeta>, r: (int, int)) -> TensorInfo {
    parts[r.0].tensors@[r.1]
}

/// Payload sizes in merged order.
pub open spec fn merged_sizes(parts: Seq<PartMeta>) -> Seq<int> {
    tensor_refs(parts).map_values(|r: (int, int)| info(parts, r).n_bytes as int)
}

/// An earlier tensor of the merged directory has the name of the one at `k`.
pub open spec fn has_earlier_duplicate(parts: Seq<PartMeta>, k: int) -> bool {
    let refs = tensor_refs(parts);
    exists|j: int| 0 <= j < k && #[trigger] info(parts, refs[j]).name@ == info(parts, refs[k]).name@
}

/// The absolute offset of a tensor in its part, as an integer.
pub open spec fn source_offset(parts: Seq<PartMeta>, r: (int, int)) -> int {
    parts[r.0].data_offset + info(parts, r).offset
}

/// The tensor at `k` of the merged directory can be placed.
pub open spec fn entry_ok(parts: Seq<PartMeta>, k: int) -> bool {
    &&& !has_earlier_duplicate(parts, k)
    &&& source_offset(parts, tensor_refs(parts)[k]) <= usize::MAX
    &&& region_offset(merged_sizes(parts), k + 1) <= usize::MAX
}

/// `k` is the first tensor of the merged directory that cannot be placed.
pub open spec fn is_first_bad(parts: Seq<PartMeta>, k: int) -> bool {
    &&& 0 <= k < tensor_refs(parts).len()
    &&& !entry_ok(parts, k)
    &&& forall|j: int| 0 <= j < k ==> entry_ok(parts, j)
}

/// The copy step for the tensor at `k` of the merged directory.
pub open spec fn step_at(parts: Seq<PartMeta>, k: int) -> CopyStep {
    let r = tensor_refs(parts)[k];
    CopyStep {
        part: r.0 as usize,
        index: r.1 as usize,
        src_offset: source_offset(parts, r) as usize,
        n_bytes: info(parts, r).n_bytes,
        out_offset: region_offset(merged_sizes(parts), k) as usize,
    }
}

/// The copy steps of a merge and the size of the output's data region, or
/// the error at the first tensor that cannot be placed.
pub open spec fn tensor_plan(parts: Seq<PartMeta>) -> Result<(Seq<CopyStep>, int), MergeError> {
    if exists|k: int| is_first_bad(parts, k) {
        let k = choose|k: int| is_first_bad(parts, k);
        let r = tensor_refs(parts)[k];
        if has_earlier_duplicate(parts, k) {
            Err(MergeError::DuplicateTensor { part: r.0 as usize, index: r.1 as usize })
        } else {
            Err(MergeError::LayoutTooLarge)
        }
    } else {
        Ok(
            (
                Seq::new(tensor_refs(parts).len(), |k: int| step_at(parts, k)),
                padded_total(merged_sizes(parts)),
            ),
        )
    }
}

/// The directory of the first `p` parts is a prefix of that of the first `q`.
proof fn lemma_refs_prefix(parts: Seq<PartMeta>, p: int, q: int)
    requires
        0 <= p <= q <= parts.len(),
    ensures
        refs_upto(parts, p).len() <= refs_upto(parts, q).len(),
        refs_upto(parts, p) == refs_upto(parts, q).take(refs_upto(parts, p).len() as int),
    decreases q - p,
{
    if p < q {
        lemma_refs_prefix(parts, p, q - 1);
        let a = refs_upto(parts, p);
        let b = refs_upto(parts, q - 1);
        assert(refs_upto(parts, q).take(b.len() as int) =~= b);
        assert(refs_upto(parts, q).take(a.len() as int) =~= b.take(a.len() as int));
    } else {
        assert(refs_upto(parts, q).take(refs_upto(parts, p).len() as int) =~= refs_upto(parts, q));
    }
}

/// Lays out the merged tensor directory: every tensor of every part, part by
/// part and in each part's own order, with its source offset and its offset in
/// the output's data region. Returns the steps and the data region's size.
pub fn plan_tensors(parts: &Vec<PartMeta>) -> (r: Result<(Vec<CopyStep>, usize), MergeError>)
    ensures
        match r {
            Ok((steps, size)) => tensor_plan(parts@) == Ok::<(Seq<CopyStep>, int), MergeError>(
                (steps@, size as int),
            ),
            Err(e) => tensor_plan(parts@) == Err::<(Seq<CopyStep>, int), MergeError>(e),
        },
{
    let ghost ps = parts@;
    let ghost refs = tensor_refs(ps);
    let ghost sizes = merged_sizes(ps);
    let mut steps: Vec<CopyStep> = Vec::new();
    let mut cursor: usize = 0;
    let mut p: usize = 0;
    while p < parts.len()
        invariant
            ps == parts@,
            refs == tensor_refs(ps),
            sizes == merged_sizes(ps),
            p <= ps.len(),
            steps@.len() == refs_upto(ps, p as int).len(),
            steps@.len() <= refs.len(),
            cursor as int == region_offset(sizes, steps@.len() as int),
            forall|k: int| 0 <= k < steps@.len() ==> entry_ok(ps, k),
            forall|k: int| 0 <= k < steps@.len() ==> #[trigger] steps@[k] == step_at(ps, k),
            forall|k: int|
                0 <= k < steps@.len() ==> (#[trigger] steps@[k]).part as int == refs[k].0
                    && steps@[k].index as int == refs[k].1,
        decreases ps.len() - p,
    {
        proof {
            lemma_refs_prefix(ps, p as int + 1, ps.len() as int);
        }
        let ghost base = steps@.len() as int;
        let part = &parts[p];
        let mut i: usize = 0;
        while i < part.tensors.len()
            invariant
                ps == parts@,
                refs == tensor_refs(ps),
                sizes == merged_sizes(ps),
                p < ps.len(),
                *part == ps[p as int],
                base == refs_upto(ps, p as int).len(),
                refs_upto(ps, p as int + 1) == refs.take(refs_upto(ps, p as int + 1).len() as int),
                i <= part.tensors@.len(),
                steps@.len() == base + i,
                cursor as int == region_offset(sizes, steps@.len() as int),
                forall|k: int| 0 <= k < steps@.len() ==> entry_ok(ps, k),
                forall|k: int| 0 <= k < steps@.len() ==> #[trigger] steps@[k] == step_at(ps, k),
                forall|k: int|
                    0 <= k < steps@.len() ==> (#[trigger] steps@[k]).part as int == refs[k].0
                        && steps@[k].index as int == refs[k].1,
                refs_upto(ps, p as int + 1).len() <= refs.len(),
            decreases part.tensors@.len() - i,
        {
            let ghost k = steps@.len() as int;
            assert(refs_upto(ps, p as int + 1)[k] == (p as int, i as int));
            assert(refs[k] == (p as int, i as int));
            assert(k < refs.len());
            let t = &part.tensors[i];
            // an earlier tensor of the same name
            let mut j: usize = 0;
            while j < steps.len()
                invariant
                    ps == parts@,
                    refs == tensor_refs(ps),
                    k == steps@.len(),
                    k < refs.len(),
                    refs[k] == (p as int, i as int),
                    *t == info(ps, refs[k]),
                    j <= steps@.len(),
                    forall|m: int| 0 <= m < steps@.len() ==> #[trigger] steps@[m] == step_at(ps, m),
                    forall|m: int|
                        0 <= m < steps@.len() ==> (#[trigger] steps@[m]).part as int == refs[m].0
                            && steps@[m].index as int == refs[m].1,
                    forall|m: int| 0 <= m < k ==> entry_ok(ps, m),
                    forall|m: int| 0 <= m < j ==> #[trigger] info(ps, refs[m]).name@ != t.name@,
                decreases steps@.len() - j,
            {
                let s = steps[j];
                assert(steps@[j as int] == step_at(ps, j as int));
                proof {
                    lemma_refs_in_range(ps, j as int);
                }
                if parts[s.part].tensors[s.index].name == t.name {
                    assert(has_earlier_duplicate(ps, k));
                    proof {
                        lemma_first_bad_unique(ps, k);
                    }
                    return Err(MergeError::DuplicateTensor { part: p, index: i });
                }
                j = j + 1;
            }
            assert(!has_earlier_duplicate(ps, k));
            if t.offset > usize::MAX - part.data_offset {
                proof {
                    lemma_first_bad_unique(ps, k);
                }
                return Err(MergeError::LayoutTooLarge);
            }
            let src_offset = part.data_offset + t.offset;
            let n = t.n_bytes;
            proof {
                assert(sizes[k] == n as int);
                assert(sizes.take(k + 1).drop_last() =~= sizes.take(k));
                assert(region_offset(sizes, k + 1) == cursor + padded_len(n as int));
                lemma_pad_to(n as int, GGUF_DEFAULT_ALIGNMENT as int);
            }
            if n > usize::MAX - (GGUF_DEFAULT_ALIGNMENT - 1) {
                proof {
                    lemma_pad_multiple_above(n as int);
                    lemma_first_bad_unique(ps, k);
                }
                return Err(MergeError::LayoutTooLarge);
            }
            let padded = ggml_pad(n, GGUF_DEFAULT_ALIGNMENT);
            if padded > usize::MAX - cursor {
                proof {
                    lemma_first_bad_unique(ps, k);
                }
                return Err(MergeError::LayoutTooLarge);
            }
            let step = CopyStep { part: p, index: i, src_offset, n_bytes: n, out_offset: cursor };
            assert(step == step_at(ps, k));
            steps.push(step);
            cursor = cursor + padded;
            assert(entry_ok(ps, k));
            i = i + 1;
        }
        assert(refs_upto(ps, p as int + 1).len() == base + part.tensors@.len());
        p = p + 1;
    }
    proof {
        assert(refs_upto(ps, ps.len() as int) == refs);
        assert(!exists|k: int| is_first_bad(ps, k));
        assert(sizes.take(sizes.len() as int) =~= sizes);
        assert(steps@ =~= Seq::new(refs.len(), |k: int| step_at(ps, k)));
    }
    Ok((steps, cursor))
}

/// Every entry of the merged directory names an existing tensor of an existing part.
pub proof fn lemma_refs_in_range(parts: Seq<PartMeta>, k: int)
    requires
        0 <= k < tensor_refs(parts).len(),
    ensures
        0 <= tensor_refs(parts)[k].0 < parts.len(),
        0 <= tensor_refs(parts)[k].1 < parts[tensor_refs(parts)[k].0].tensors@.len(),
{
    lemma_refs_upto_in_range(parts, parts.len() as int, k);
}

proof fn lemma_refs_upto_in_range(parts: Seq<PartMeta>, p: int, k: int)
    requires
        0 <= p <= parts.len(),
        0 <= k < refs_upto(parts, p).len(),
    ensures
        0 <= refs_upto(parts, p)[k].0 < p,
        0 <= refs_upto(parts, p)[k].1 < parts[refs_upto(parts, p)[k].0].tensors@.len(),
    decreases p,
{
    if p > 0 && k < refs_upto(parts, p - 1).len() {
        lemma_refs_upto_in_range(parts, p - 1, k);
    }
}

/// A multiple of the alignment unit that is at least `n`, where `n` is within
/// one unit of the top of `usize`, no longer fits in `usize`.
proof fn lemma_pad_multiple_above(n: int)
    requires
        usize::MAX - (GGUF_DEFAULT_ALIGNMENT - 1) < n <= usize::MAX,
    ensures
        padded_len(n) > usize::MAX,
{
    lemma_pad_to(n, GGUF_DEFAULT_ALIGNMENT as int);
    let m = padded_len(n);
    assert((usize::MAX + 1) % 16 == 0);
}

/// When `k` is a bad entry and every earlier one is fine, `k` is the one that
/// `tensor_plan` reports.
proof fn lemma_first_bad_unique(parts: Seq<PartMeta>, k: int)
    requires
        is_first_bad(parts, k),
    ensures
        (choose|m: int| is_first_bad(parts, m)) == k,
{
    let m = choose|m: int| is_first_bad(parts, m);
    assert(is_first_bad(parts, m));
    if m < k {
        assert(entry_ok(parts, m));
    } else if m > k {
        assert(entry_ok(parts, k));
    }
}

} // verus!
