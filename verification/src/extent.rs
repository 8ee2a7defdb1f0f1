//! Block geometry: how a file of `total_size` bytes decomposes into
//! fixed-size blocks, and the facts that make per-block work safe to run
//! concurrently — distinct blocks occupy disjoint byte ranges, and together
//! the ranges cover the whole file.

use vstd::prelude::*;
use vstd::arithmetic::div_mod::{lemma_fundamental_div_mod, lemma_hoist_over_denominator};
use vstd::arithmetic::mul::{lemma_mul_inequality, lemma_mul_is_distributive_sub_other_way};

verus! {

/// Number of blocks needed to cover `total_size` bytes: the ceiling of
/// `total_size / block_size`.
pub open spec fn num_blocks(total_size: int, block_size: int) -> int
    recommends
        total_size >= 0,
        block_size >= 1,
{
    (total_size + block_size - 1) / block_size
}

/// Byte offset at which the block with this index starts.
pub open spec fn block_offset(block_size: int, index: int) -> int {
    index * block_size
}

/// Byte length of the block with this index: `block_size` for every block
/// except possibly the last, which holds whatever remains of the file.
pub open spec fn block_len(total_size: int, block_size: int, index: int) -> int {
    if total_size - block_offset(block_size, index) < block_size {
        total_size - block_offset(block_size, index)
    } else {
        block_size
    }
}

/// The block count is the least multiple of `block_size` that reaches
/// `total_size`: `num_blocks * block_size >= total_size`, while one block
/// fewer would fall short.
pub proof fn lemma_num_blocks_bounds(total_size: int, block_size: int)
    requires
        total_size >= 0,
        block_size >= 1,
    ensures
        num_blocks(total_size, block_size) >= 0,
        num_blocks(total_size, block_size) * block_size >= total_size,
        total_size > 0 ==> num_blocks(total_size, block_size) >= 1,
        total_size > 0 ==> (num_blocks(total_size, block_size) - 1) * block_size < total_size,
        total_size == 0 ==> num_blocks(total_size, block_size) == 0,
{
    let x = total_size + block_size - 1;
    let q = num_blocks(total_size, block_size);
    lemma_fundamental_div_mod(x, block_size);
    assert(x == block_size * q + x % block_size);
    assert(0 <= x % block_size < block_size) by {
        vstd::arithmetic::div_mod::lemma_mod_division_less_than_divisor(x, block_size);
    }
    lemma_mul_is_distributive_sub_other_way(block_size, q, 1);
    assert((q - 1) * block_size == q * block_size - block_size);
    if total_size == 0 {
        assert(q * block_size >= 0) by {
            lemma_mul_inequality(0, q, block_size);
        }
        assert(q * block_size < block_size);
        assert(q == 0) by {
            if q >= 1 {
                lemma_mul_inequality(1, q, block_size);
            }
        }
    } else {
        assert(q >= 1) by {
            vstd::arithmetic::div_mod::lemma_div_non_zero(x, block_size);
        }
    }
}

/// Derived extent of a copy job: the source length together with the block
/// decomposition that the engine works over.
#[derive(Clone, Copy, Debug, PartialEq, Eq, Structural)]
pub struct FileExtent {
    pub total_size: u64,
    pub block_size: u64,
    pub total_blocks: u64,
}

impl FileExtent {
    /// Well-formedness: a positive block size, and a block count that is
    /// exactly the ceiling of `total_size / block_size`.
    pub open spec fn wf(self) -> bool {
        &&& self.block_size >= 1
        &&& self.total_blocks == num_blocks(self.total_size as int, self.block_size as int)
    }
}

/// One unit of work: a block index together with the byte range
/// `[offset, offset + length)` that it owns in both files.
#[derive(Clone, Copy, Debug, PartialEq, Eq, Structural)]
pub struct BlockTask {
    pub index: u64,
    pub offset: u64,
    pub length: u64,
}

/// Computes the block count for a file of `total_size` bytes.
pub fn total_blocks(total_size: u64, block_size: u64) -> (r: u64)
    requires
        block_size >= 1,
    ensures
        r == num_blocks(total_size as int, block_size as int),
{
    if total_size == 0 {
        proof {
            lemma_num_blocks_bounds(total_size as int, block_size as int);
        }
        0
    } else {
        proof {
            vstd::arithmetic::div_mod::lemma_div_nonincreasing(
                total_size - 1,
                block_size as int,
            );
            lemma_hoist_over_denominator(total_size - 1, 1, block_size as nat);
        }
        (total_size - 1) / block_size + 1
    }
}

/// Computes the extent of a copy job from the source length and block size.
pub fn file_extent(total_size: u64, block_size: u64) -> (r: FileExtent)
    requires
        block_size >= 1,
    ensures
        r.wf(),
        r.total_size == total_size,
        r.block_size == block_size,
        r.total_blocks * r.block_size >= r.total_size,
{
    let blocks = total_blocks(total_size, block_size);
    proof {
        lemma_num_blocks_bounds(total_size as int, block_size as int);
    }
    FileExtent { total_size, block_size, total_blocks: blocks }
}

/// Every block lies inside the file: its range is non-empty and ends at or
/// before `total_size`.
pub proof fn lemma_block_in_file(total_size: int, block_size: int, index: int)
    requires
        total_size >= 0,
        block_size >= 1,
        0 <= index < num_blocks(total_size, block_size),
    ensures
        0 <= block_offset(block_size, index),
        block_offset(block_size, index) < total_size,
        1 <= block_len(total_size, block_size, index) <= block_size,
        block_offset(block_size, index) + block_len(total_size, block_size, index) <= total_size,
{
    lemma_num_blocks_bounds(total_size, block_size);
    let nb = num_blocks(total_size, block_size);
    lemma_mul_inequality(0, index, block_size);
    lemma_mul_inequality(index, nb - 1, block_size);
    assert(index * block_size <= (nb - 1) * block_size);
}

/// Disjointness, ordered form: for indices `i < j`, block `i`'s byte range
/// ends at or before block `j`'s begins.
pub proof fn lemma_blocks_ordered(total_size: int, block_size: int, i: int, j: int)
    requires
        total_size >= 0,
        block_size >= 1,
        0 <= i < j < num_blocks(total_size, block_size),
    ensures
        block_offset(block_size, i) + block_len(total_size, block_size, i)
            <= block_offset(block_size, j),
{
    lemma_mul_is_distributive_sub_other_way(block_size, i + 1, 1);
    assert((i + 1) * block_size - block_size == i * block_size);
    lemma_mul_inequality(i + 1, j, block_size);
}

/// Disjointness: two distinct blocks never overlap — one range ends at or
/// before the other begins.
pub proof fn lemma_blocks_disjoint(total_size: int, block_size: int, i: int, j: int)
    requires
        total_size >= 0,
        block_size >= 1,
        0 <= i < num_blocks(total_size, block_size),
        0 <= j < num_blocks(total_size, block_size),
        i != j,
    ensures
        block_offset(block_size, i) + block_len(total_size, block_size, i)
            <= block_offset(block_size, j)
        || block_offset(block_size, j) + block_len(total_size, block_size, j)
            <= block_offset(block_size, i),
{
    if i < j {
        lemma_blocks_ordered(total_size, block_size, i, j);
    } else {
        lemma_blocks_ordered(total_size, block_size, j, i);
    }
}

/// Coverage: every byte position of the file falls inside the range of the
/// block with index `p / block_size`, so the block ranges together cover
/// `[0, total_size)` exactly.
pub proof fn lemma_blocks_cover(total_size: int, block_size: int, p: int)
    requires
        block_size >= 1,
        0 <= p < total_size,
    ensures
        0 <= p / block_size < num_blocks(total_size, block_size),
        block_offset(block_size, p / block_size) <= p,
        p < block_offset(block_size, p / block_size)
            + block_len(total_size, block_size, p / block_size),
{
    let i = p / block_size;
    lemma_fundamental_div_mod(p, block_size);
    assert(0 <= p % block_size < block_size) by {
        vstd::arithmetic::div_mod::lemma_mod_division_less_than_divisor(p, block_size);
    }
    assert(i * block_size <= p < i * block_size + block_size);
    assert(i >= 0) by {
        if i < 0 {
            lemma_mul_inequality(i, -1, block_size);
        }
    }
    lemma_num_blocks_bounds(total_size, block_size);
    let nb = num_blocks(total_size, block_size);
    assert(i < nb) by {
        if i >= nb {
            lemma_mul_inequality(nb, i, block_size);
        }
    }
}

/// Builds the task for one block index: its byte offset and length within
/// the file, as the block decomposition assigns them.
pub fn block_task(extent: &FileExtent, index: u64) -> (t: BlockTask)
    requires
        extent.wf(),
        index < extent.total_blocks,
    ensures
        t.index == index,
        t.offset == block_offset(extent.block_size as int, index as int),
        t.length == block_len(extent.total_size as int, extent.block_size as int, index as int),
        t.offset + t.length <= extent.total_size,
        1 <= t.length <= extent.block_size,
{
    proof {
        lemma_block_in_file(extent.total_size as int, extent.block_size as int, index as int);
    }
    let offset = index * extent.block_size;
    let remaining = extent.total_size - offset;
    let length = if remaining < extent.block_size {
        remaining
    } else {
        extent.block_size
    };
    BlockTask { index, offset, length }
}

} // verus!
