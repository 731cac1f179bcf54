//! Merging of split GGUF model files: the decisions and byte layout that a
//! merge follows, with the file and native-library work left to the caller.

pub mod error;
pub mod merge;
pub mod metadata;
pub mod padding;
pub mod plan;
pub mod region;

pub use error::{check_meta_size, check_preconditions, MergeError};
pub use merge::{plan_merge, MergePlan, SplitCountMismatch};
pub use metadata::{merge_kv, KvEntry, KvValue};
pub use padding::{append_padded, ggml_pad, write_zeros, GGUF_DEFAULT_ALIGNMENT};
pub use plan::{plan_tensors, CopyStep, PartMeta, TensorInfo};
