//! Size computation (logical and physical) from plain metadata.

use vstd::prelude::*;

use crate::services::traverse::rules::attributed_size;
use crate::services::traverse::tree::FileMeta;
use crate::SizeBasis;

verus! {

/// The size of a block in which Unix counts allocated space.
pub const BLOCK_SIZE: u64 = 512;

/// The value by which the Windows compressed-size query reports failure.
pub const INVALID_FILE_SIZE: u32 = 0xFFFF_FFFF;

/// Compute logical size from metadata: the nominal length.
#[must_use]
pub fn logical_size(metadata: &FileMeta) -> (size: u64)
    ensures
        size == attributed_size(*metadata, SizeBasis::Logical),
{
    metadata.logical_len
}

/// Compute physical size from metadata: the on-disk byte count, or the
/// logical size where the platform gave none.
#[must_use]
pub fn physical_size_from_metadata(metadata: &FileMeta) -> (size: u64)
    ensures
        size == attributed_size(*metadata, SizeBasis::Physical),
{
    match metadata.physical_len {
        Some(n) => n,
        None => logical_size(metadata),
    }
}

/// The bytes that `blocks` allocated 512-byte blocks take, stopping at
/// `u64::MAX`.
pub open spec fn bytes_of_blocks(blocks: u64) -> u64 {
    if blocks * BLOCK_SIZE > u64::MAX {
        u64::MAX
    } else {
        (blocks * BLOCK_SIZE) as u64
    }
}

/// On-disk byte count on Unix, from the number of allocated blocks.
#[must_use]
pub fn physical_size_from_blocks(blocks: u64) -> (size: u64)
    ensures
        size == bytes_of_blocks(blocks),
{
    if blocks > u64::MAX / BLOCK_SIZE {
        u64::MAX
    } else {
        blocks * BLOCK_SIZE
    }
}

/// The 64-bit size whose halves are `high` and `low`.
pub open spec fn joined_size(high: u32, low: u32) -> u64 {
    (high as int * 0x1_0000_0000 + low as int) as u64
}

/// On-disk byte count on Windows, from the two halves that the
/// compressed-size query reports. Where the low half signals failure, the
/// logical size stands in.
#[must_use]
pub fn physical_size_from_path(low: u32, high: u32, logical: u64) -> (size: u64)
    ensures
        size == if low == INVALID_FILE_SIZE {
            logical
        } else {
            joined_size(high, low)
        },
{
    if low == INVALID_FILE_SIZE {
        logical
    } else {
        (high as u64) * 0x1_0000_0000u64 + (low as u64)
    }
}

} // verus!
