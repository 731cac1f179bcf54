use vstd::prelude::*;

use crate::error::MergeError;
use crate::metadata::{merge_kv, merged_kv, split_count_key, split_count_position, KvEntry, KvValue};
use crate::padding::GGUF_DEFAULT_ALIGNMENT;
use crate::plan::{
    entry_ok, info, is_first_bad, merged_sizes, plan_tensors, refs_upto, step_at, tensor_plan,
    tensor_refs, CopyStep, PartMeta,
};
use crate::region::{lemma_padding_invariant, lemma_region_round_trip, lengths, region, region_offset};

verus! {

/// The first part declares a split count other than the number of parts
/// supplied. The merge goes on; this is reported to the caller.
#[derive(Debug, Clone, Copy, PartialEq, Eq, Structural)]
pub struct SplitCountMismatch {
    pub declared: u16,
    pub supplied: usize,
}

/// Everything a merge writes, decided before any output exists: the output's
/// key-value table, the copy steps in directory order, and the size of the
/// output's data region.
#[derive(Debug)]
pub struct MergePlan {
    pub kv: Vec<KvEntry>,
    pub split_count_mismatch: Option<SplitCountMismatch>,
    pub steps: Vec<CopyStep>,
    pub data_size: usize,
}

/// A plan as plain values: table, mismatch, steps, data size.
pub type PlanView = (Seq<KvEntry>, Option<SplitCountMismatch>, Seq<CopyStep>, int);

impl MergePlan {
    pub open spec fn view(&self) -> PlanView {
        (self.kv@, self.split_count_mismatch, self.steps@, self.data_size as int)
    }
}

/// What merging parts whose first part has table `kv0` gives.
pub open spec fn merge_spec(kv0: Seq<KvEntry>, parts: Seq<PartMeta>) -> Result<PlanView, MergeError> {
    if parts.len() == 0 {
        Err(MergeError::NoParts)
    } else {
        match merged_kv(kv0) {
            Err(e) => Err(e),
            Ok((kv, declared)) => match tensor_plan(parts) {
                Err(e) => Err(e),
                Ok((steps, size)) => Ok(
                    (
                        kv,
                        if declared as int == parts.len() {
                            None
                        } else {
                            Some(SplitCountMismatch { declared, supplied: parts.len() as usize })
                        },
                        steps,
                        size,
                    ),
                ),
            },
        }
    }
}

/// The result of `plan_merge` meets its contract.
pub open spec fn plan_merge_result(
    kv0: Seq<KvEntry>,
    parts: Seq<PartMeta>,
    r: Result<MergePlan, MergeError>,
) -> bool {
    match r {
        Ok(plan) => merge_spec(kv0, parts) == Ok::<PlanView, MergeError>(plan.view()),
        Err(e) => merge_spec(kv0, parts) == Err::<PlanView, MergeError>(e),
    }
}

/// Decides a whole merge from the first part's key-value table and every
/// part's tensor directory, in input order.
pub fn plan_merge(kv0: Vec<KvEntry>, parts: &Vec<PartMeta>) -> (r: Result<MergePlan, MergeError>)
    ensures
        plan_merge_result(kv0@, parts@, r),
{
    if parts.len() == 0 {
        return Err(MergeError::NoParts);
    }
    let (kv, declared) = match merge_kv(kv0) {
        Ok(x) => x,
        Err(e) => {
            return Err(e);
        },
    };
    let (steps, data_size) = match plan_tensors(parts) {
        Ok(x) => x,
        Err(e) => {
            return Err(e);
        },
    };
    let split_count_mismatch = if declared as usize == parts.len() {
        None
    } else {
        Some(SplitCountMismatch { declared, supplied: parts.len() })
    };
    Ok(MergePlan { kv, split_count_mismatch, steps, data_size })
}

/// Merging is deterministic: two plans for the same inputs are the same.
pub proof fn lemma_merge_deterministic(
    kv0: Seq<KvEntry>,
    parts: Seq<PartMeta>,
    r1: Result<MergePlan, MergeError>,
    r2: Result<MergePlan, MergeError>,
)
    requires
        plan_merge_result(kv0, parts, r1),
        plan_merge_result(kv0, parts, r2),
    ensures
        r1 is Ok <==> r2 is Ok,
        r1 is Ok ==> r1->Ok_0.view() == r2->Ok_0.view(),
        r1 is Err ==> r1 == r2,
{
}

/// The merged key-value table is the first part's table, entry for entry,
/// except that the split count entry holds zero whatever it held before.
pub proof fn lemma_metadata_rule(kv0: Seq<KvEntry>, parts: Seq<PartMeta>, plan: PlanView)
    requires
        merge_spec(kv0, parts) == Ok::<PlanView, MergeError>(plan),
    ensures
        plan.0.len() == kv0.len(),
        forall|i: int|
            0 <= i < kv0.len() ==> (#[trigger] plan.0[i]).key == kv0[i].key && if Some(i)
                == split_count_position(kv0) {
                plan.0[i].value == KvValue::U16(0)
            } else {
                plan.0[i].value == kv0[i].value
            },
        exists|i: int| 0 <= i < kv0.len() && plan.0[i].key@ == split_count_key(),
{
    let i = split_count_position(kv0)->Some_0;
    assert(0 <= i < kv0.len() && plan.0[i].key@ == split_count_key());
}

/// Entry `(p, i)` stands somewhere in `refs`.
pub open spec fn lists(refs: Seq<(int, int)>, p: int, i: int) -> bool {
    exists|k: int| 0 <= k < refs.len() && refs[k] == (p, i)
}

/// The merged directory lists the tensors part by part, in input order, and
/// each part's tensors in their own order, every one of them exactly once.
pub proof fn lemma_directory_order(parts: Seq<PartMeta>)
    ensures
        forall|k1: int, k2: int|
            0 <= k1 < k2 < tensor_refs(parts).len() ==> {
                let a = #[trigger] tensor_refs(parts)[k1];
                let b = #[trigger] tensor_refs(parts)[k2];
                a.0 < b.0 || (a.0 == b.0 && a.1 < b.1)
            },
        forall|p: int, i: int|
            0 <= p < parts.len() && 0 <= i < parts[p].tensors@.len() ==> #[trigger] lists(
                tensor_refs(parts),
                p,
                i,
            ),
{
    lemma_refs_upto_order(parts, parts.len() as int);
}

proof fn lemma_refs_upto_order(parts: Seq<PartMeta>, q: int)
    requires
        0 <= q <= parts.len(),
    ensures
        forall|k1: int, k2: int|
            0 <= k1 < k2 < refs_upto(parts, q).len() ==> {
                let a = #[trigger] refs_upto(parts, q)[k1];
                let b = #[trigger] refs_upto(parts, q)[k2];
                a.0 < b.0 || (a.0 == b.0 && a.1 < b.1)
            },
        forall|k: int| 0 <= k < refs_upto(parts, q).len() ==> (#[trigger] refs_upto(parts, q)[k]).0 < q,
        forall|p: int, i: int|
            0 <= p < q && 0 <= i < parts[p].tensors@.len() ==> #[trigger] lists(
                refs_upto(parts, q),
                p,
                i,
            ),
    decreases q,
{
    if q > 0 {
        lemma_refs_upto_order(parts, q - 1);
        let a = refs_upto(parts, q - 1);
        let r = refs_upto(parts, q);
        assert forall|p: int, i: int|
            0 <= p < q && 0 <= i < parts[p].tensors@.len() implies #[trigger] lists(r, p, i) by {
            if p < q - 1 {
                assert(lists(a, p, i));
                let k = choose|k: int| 0 <= k < a.len() && a[k] == (p, i);
                assert(r[k] == a[k]);
            } else {
                assert(r[a.len() + i] == (p, i));
            }
        }
        assert forall|k1: int, k2: int| 0 <= k1 < k2 < r.len() implies {
            let x = #[trigger] r[k1];
            let y = #[trigger] r[k2];
            x.0 < y.0 || (x.0 == y.0 && x.1 < y.1)
        } by {
            if k2 < a.len() {
                assert(r[k1] == a[k1] && r[k2] == a[k2]);
            } else if k1 < a.len() {
                assert(r[k1] == a[k1]);
            }
        }
        assert forall|k: int| 0 <= k < r.len() implies (#[trigger] r[k]).0 < q by {
            if k < a.len() {
                assert(r[k] == a[k]);
            }
        }
    }
}

/// Reading back a tensor: in the data region written from payloads of the
/// planned sizes, the bytes at a step's output offset, as many as the step
/// copies, are that tensor's payload, and the offset is aligned.
pub proof fn lemma_plan_round_trip(
    parts: Seq<PartMeta>,
    steps: Seq<CopyStep>,
    size: int,
    payloads: Seq<Seq<u8>>,
    k: int,
)
    requires
        tensor_plan(parts) == Ok::<(Seq<CopyStep>, int), MergeError>((steps, size)),
        lengths(payloads) == merged_sizes(parts),
        0 <= k < steps.len(),
    ensures
        steps[k].out_offset as int % (GGUF_DEFAULT_ALIGNMENT as int) == 0,
        steps[k].n_bytes == payloads[k].len(),
        region(payloads).subrange(
            steps[k].out_offset as int,
            steps[k].out_offset + steps[k].n_bytes,
        ) == payloads[k],
{
    lemma_plan_offsets(parts, steps, size, k);
    assert(lengths(payloads)[k] == payloads[k].len());
    lemma_region_round_trip(payloads, k);
}

/// Each step's output offset is its region offset, which fits in `usize`.
proof fn lemma_plan_offsets(parts: Seq<PartMeta>, steps: Seq<CopyStep>, size: int, k: int)
    requires
        tensor_plan(parts) == Ok::<(Seq<CopyStep>, int), MergeError>((steps, size)),
        0 <= k < steps.len(),
    ensures
        steps[k].out_offset as int == region_offset(merged_sizes(parts), k),
        steps[k].n_bytes as int == merged_sizes(parts)[k],
        region_offset(merged_sizes(parts), k + 1) <= usize::MAX,
{
    let refs = tensor_refs(parts);
    assert(!(exists|j: int| is_first_bad(parts, j)));
    assert forall|j: int| 0 <= j < refs.len() implies entry_ok(parts, j) by {
        if !entry_ok(parts, j) {
            lemma_some_first_bad(parts, j);
        }
    }
    let sizes = merged_sizes(parts);
    assert(steps == Seq::new(refs.len(), |j: int| step_at(parts, j)));
    assert(steps[k] == step_at(parts, k));
    assert(entry_ok(parts, k));
    assert forall|i: int| 0 <= i < sizes.len() implies sizes[i] >= 0 by {
        assert(sizes[i] == info(parts, refs[i]).n_bytes as int);
    }
    lemma_region_offset_mono(sizes, 0, k);
    lemma_region_offset_mono(sizes, k, k + 1);
    assert(sizes.take(0) =~= Seq::<int>::empty());
}

/// Where some entry is bad, there is a first bad one.
proof fn lemma_some_first_bad(parts: Seq<PartMeta>, j: int)
    requires
        0 <= j < tensor_refs(parts).len(),
        !entry_ok(parts, j),
    ensures
        exists|m: int| is_first_bad(parts, m),
    decreases j,
{
    if forall|m: int| 0 <= m < j ==> entry_ok(parts, m) {
        assert(is_first_bad(parts, j));
    } else {
        let m = choose|m: int| 0 <= m < j && !entry_ok(parts, m);
        lemma_some_first_bad(parts, m);
    }
}

/// Region offsets do not decrease along a sequence of non-negative sizes.
proof fn lemma_region_offset_mono(sizes: Seq<int>, a: int, b: int)
    requires
        0 <= a <= b <= sizes.len(),
        forall|i: int| 0 <= i < sizes.len() ==> sizes[i] >= 0,
    ensures
        region_offset(sizes, a) <= region_offset(sizes, b),
    decreases b - a,
{
    if a < b {
        lemma_region_offset_mono(sizes, a, b - 1);
        lemma_padding_invariant(sizes, b - 1);
    }
}

/// Between a step's output offset and the next step's (or the end of the data
/// region) lies the payload and the fewest zero bytes that reach a multiple of
/// the alignment unit.
pub proof fn lemma_plan_padding(parts: Seq<PartMeta>, steps: Seq<CopyStep>, size: int, k: int)
    requires
        tensor_plan(parts) == Ok::<(Seq<CopyStep>, int), MergeError>((steps, size)),
        0 <= k < steps.len(),
    ensures
        ({
            let this = steps[k].out_offset as int;
            let next = if k + 1 < steps.len() {
                steps[k + 1].out_offset as int
            } else {
                size
            };
            &&& this % (GGUF_DEFAULT_ALIGNMENT as int) == 0
            &&& next - this >= steps[k].n_bytes
            &&& next % (GGUF_DEFAULT_ALIGNMENT as int) == 0
            &&& next - this - steps[k].n_bytes < GGUF_DEFAULT_ALIGNMENT as int
        }),
{
    let sizes = merged_sizes(parts);
    lemma_plan_offsets(parts, steps, size, k);
    lemma_padding_invariant(sizes, k);
    if k + 1 < steps.len() {
        lemma_plan_offsets(parts, steps, size, k + 1);
    } else {
        assert(sizes.take(k + 1) =~= sizes);
    }
}

} // verus!
