use vstd::prelude::*;

verus! {

/// Why a merge could not go on.
#[derive(Debug, Clone, Copy, PartialEq, Eq, Structural)]
pub enum MergeError {
    /// The output path already exists.
    OutputExists,
    /// No part was supplied.
    NoParts,
    /// The part of this index is not a valid container, or its metadata has
    /// the wrong shape (a split count that is not an unsigned 16-bit value).
    Format { part: usize },
    /// The first part has no split count entry.
    MissingMetadata,
    /// The tensor at `index` in part `part` has a name that an earlier tensor
    /// of the merged directory already has.
    DuplicateTensor { part: usize, index: usize },
    /// An offset or the merged data region does not fit in `usize`.
    LayoutTooLarge,
    /// The serialized metadata is not as long as the space reserved for it.
    SizeMismatch { reserved: usize, actual: usize },
}

/// Checks what must hold before any output is written: the output path must
/// be new and there must be at least one part.
pub fn check_preconditions(n_parts: usize, output_exists: bool) -> (r: Result<(), MergeError>)
    ensures
        r == (if output_exists {
            Err(MergeError::OutputExists)
        } else if n_parts == 0 {
            Err(MergeError::NoParts)
        } else {
            Ok::<(), MergeError>(())
        }),
{
    if output_exists {
        Err(MergeError::OutputExists)
    } else if n_parts == 0 {
        Err(MergeError::NoParts)
    } else {
        Ok(())
    }
}

/// Checks that the final metadata is exactly as long as the space that was
/// reserved for it at the start of the output.
pub fn check_meta_size(reserved: usize, actual: usize) -> (r: Result<(), MergeError>)
    ensures
        r == (if reserved == actual {
            Ok::<(), MergeError>(())
        } else {
            Err(MergeError::SizeMismatch { reserved, actual })
        }),
{
    if reserved == actual {
        Ok(())
    } else {
        Err(MergeError::SizeMismatch { reserved, actual })
    }
}

} // verus!
