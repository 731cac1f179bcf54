use vstd::prelude::*;

use crate::error::MergeError;

verus! {

/// A typed metadata value. Floating-point values are held by their bit patterns.
#[derive(Debug, PartialEq)]
pub enum KvValue {
    U8(u8),
    I8(i8),
    U16(u16),
    I16(i16),
    U32(u32),
    I32(i32),
    U64(u64),
    I64(i64),
    F32Bits(u32),
    F64Bits(u64),
    Bool(bool),
    Str(String),
    Array(Vec<KvValue>),
}

/// One entry of a key-value table.
#[derive(Debug, PartialEq)]
pub struct KvEntry {
    pub key: String,
    pub value: KvValue,
}

/// The key under which a split model records how many parts it has.
pub open spec fn split_count_key() -> Seq<char> {
    "split.count"@
}

/// Entry `i` is the first one of the table under the split count key.
pub open spec fn is_first_split_count(kv: Seq<KvEntry>, i: int) -> bool {
    &&& 0 <= i < kv.len()
    &&& kv[i].key@ == split_count_key()
    &&& forall|j: int| 0 <= j < i ==> kv[j].key@ != split_count_key()
}

/// Where the split count entry stands in a table, if anywhere.
pub open spec fn split_count_position(kv: Seq<KvEntry>) -> Option<int> {
    if exists|i: int| is_first_split_count(kv, i) {
        Some(choose|i: int| is_first_split_count(kv, i))
    } else {
        None
    }
}

/// The merged table and the split count that the first part declared: the
/// first part's table with its split count set to zero.
pub open spec fn merged_kv(kv0: Seq<KvEntry>) -> Result<(Seq<KvEntry>, u16), MergeError> {
    match split_count_position(kv0) {
        None => Err(MergeError::MissingMetadata),
        Some(i) => match kv0[i].value {
            KvValue::U16(declared) => Ok(
                (kv0.update(i, KvEntry { key: kv0[i].key, value: KvValue::U16(0) }), declared),
            ),
            _ => Err(MergeError::Format { part: 0 }),
        },
    }
}

/// Builds the output's key-value table from the first part's table: the
/// same entries in the same order, with the split count set to zero. Also
/// returns the split count that the first part declared.
pub fn merge_kv(kv0: Vec<KvEntry>) -> (r: Result<(Vec<KvEntry>, u16), MergeError>)
    ensures
        match r {
            Ok((kv, declared)) => merged_kv(kv0@) == Ok::<(Seq<KvEntry>, u16), MergeError>(
                (kv@, declared),
            ),
            Err(e) => merged_kv(kv0@) == Err::<(Seq<KvEntry>, u16), MergeError>(e),
        },
{
    let key = "split.count".to_owned();
    let mut i: usize = 0;
    while i < kv0.len()
        invariant
            i <= kv0@.len(),
            key@ == split_count_key(),
            forall|j: int| 0 <= j < i ==> kv0@[j].key@ != split_count_key(),
        decreases kv0@.len() - i,
    {
        if kv0[i].key == key {
            assert(is_first_split_count(kv0@, i as int));
            assert forall|m: int| is_first_split_count(kv0@, m) implies m == i by {
                if m < i {
                } else if m > i {
                    assert(kv0@[i as int].key@ == split_count_key());
                }
            }
            let mut kv = kv0;
            let e = kv.remove(i);
            match e.value {
                KvValue::U16(declared) => {
                    kv.insert(i, KvEntry { key: e.key, value: KvValue::U16(0) });
                    assert(kv@ =~= kv0@.update(
                        i as int,
                        KvEntry { key: kv0@[i as int].key, value: KvValue::U16(0) },
                    ));
                    return Ok((kv, declared));
                },
                _ => {
                    return Err(MergeError::Format { part: 0 });
                },
            }
        }
        i = i + 1;
    }
    Err(MergeError::MissingMetadata)
}

} // verus!
