//! The block engine's decisions: whether a destination block may be skipped,
//! and whether a rewritten block has verified — plus an in-memory engine that
//! runs the whole skip / rewrite / verify loop over byte buffers.

use vstd::prelude::*;

use crate::digest::{bytes_equal, sha256, sha256_of};
use crate::extent::{
    block_len, block_offset, lemma_block_in_file, lemma_blocks_cover, lemma_blocks_disjoint,
    num_blocks,
};

verus! {

/// The engine's equality oracle: a candidate block is accepted exactly when
/// its digest equals the source block's digest.
pub open spec fn block_matches(source: Seq<u8>, candidate: Seq<u8>) -> bool {
    sha256_of(candidate) == sha256_of(source)
}

/// The per-block decision before any write: skip the block or rewrite it.
#[derive(Clone, Copy, Debug, PartialEq, Eq, Structural)]
pub enum BlockPlan {
    /// The destination block already hash-matches the source block; it is
    /// left untouched.
    Skip,
    /// The destination block does not match and must be rewritten.
    Rewrite,
}

/// The outcome of checking a rewritten block against the source.
#[derive(Clone, Copy, Debug, PartialEq, Eq, Structural)]
pub enum VerifyOutcome {
    /// The read-back bytes hash-match the source block: the block is done.
    Complete,
    /// The read-back bytes do not match: the write must be repeated.
    Retry,
}

/// Decides whether a destination block needs rewriting, by comparing its
/// digest with the source block's digest.
pub fn plan_block(source: &[u8], existing: &[u8]) -> (r: BlockPlan)
    ensures
        r is Skip <==> block_matches(source@, existing@),
{
    let original_hash = sha256(source);
    let existing_hash = sha256(existing);
    if bytes_equal(original_hash.as_slice(), existing_hash.as_slice()) {
        BlockPlan::Skip
    } else {
        BlockPlan::Rewrite
    }
}

/// Verify-before-complete: a block task may report completion only on a
/// `Complete` outcome, and `Complete` holds exactly when the bytes read back
/// from the destination hash-match the source block at the moment of that
/// read-back.
pub fn verify_readback(source: &[u8], readback: &[u8]) -> (r: VerifyOutcome)
    ensures
        r is Complete <==> block_matches(source@, readback@),
{
    let original_hash = sha256(source);
    let verify_hash = sha256(readback);
    if bytes_equal(original_hash.as_slice(), verify_hash.as_slice()) {
        VerifyOutcome::Complete
    } else {
        VerifyOutcome::Retry
    }
}

/// A destination block that is byte-for-byte equal to its source block
/// always hash-matches it, so a correct block is skipped, never rewritten.
pub proof fn lemma_identical_block_matches(source: Seq<u8>, candidate: Seq<u8>)
    requires
        candidate == source,
    ensures
        block_matches(source, candidate),
{
}

/// The bytes that the block with this index occupies within `data`.
pub open spec fn block_of(data: Seq<u8>, block_size: int, index: int) -> Seq<u8>
    recommends
        block_size >= 1,
        0 <= index < num_blocks(data.len() as int, block_size),
{
    data.subrange(
        block_offset(block_size, index),
        block_offset(block_size, index) + block_len(data.len() as int, block_size, index),
    )
}

/// How many of the first `upto` destination blocks fail to hash-match their
/// source block — exactly the blocks a run rewrites.
pub open spec fn count_mismatched(
    source: Seq<u8>,
    destination: Seq<u8>,
    block_size: int,
    upto: int,
) -> int
    decreases upto,
{
    if upto <= 0 {
        0
    } else {
        count_mismatched(source, destination, block_size, upto - 1) + if block_matches(
            block_of(source, block_size, upto - 1),
            block_of(destination, block_size, upto - 1),
        ) {
            0int
        } else {
            1int
        }
    }
}

/// When every destination block already hash-matches its source block, a
/// run rewrites nothing.
pub proof fn lemma_all_matched_no_rewrites(
    source: Seq<u8>,
    destination: Seq<u8>,
    block_size: int,
    upto: int,
)
    requires
        forall|i: int|
            0 <= i < upto ==> block_matches(
                block_of(source, block_size, i),
                block_of(destination, block_size, i),
            ),
    ensures
        count_mismatched(source, destination, block_size, upto) == 0,
    decreases upto,
{
    if upto > 0 {
        lemma_all_matched_no_rewrites(source, destination, block_size, upto - 1);
    }
}

/// Resumability, counted: when the first `prefix` destination blocks already
/// hash-match their source blocks, a run rewrites at most the blocks after
/// the prefix.
pub proof fn lemma_correct_prefix_bounds_rewrites(
    source: Seq<u8>,
    destination: Seq<u8>,
    block_size: int,
    prefix: int,
    upto: int,
)
    requires
        0 <= prefix <= upto,
        forall|i: int|
            0 <= i < prefix ==> block_matches(
                block_of(source, block_size, i),
                block_of(destination, block_size, i),
            ),
    ensures
        count_mismatched(source, destination, block_size, upto) <= upto - prefix,
    decreases upto,
{
    if upto > prefix {
        lemma_correct_prefix_bounds_rewrites(source, destination, block_size, prefix, upto - 1);
    } else if upto > 0 {
        lemma_all_matched_no_rewrites(source, destination, block_size, upto);
    }
}

/// Two same-length buffers whose blocks are all byte-for-byte equal are
/// equal as wholes: the block ranges cover every position.
proof fn lemma_blockwise_equal(d1: Seq<u8>, d2: Seq<u8>, block_size: int)
    requires
        block_size >= 1,
        d1.len() == d2.len(),
        forall|i: int|
            0 <= i < num_blocks(d1.len() as int, block_size) ==> block_of(d1, block_size, i)
                == block_of(d2, block_size, i),
    ensures
        d1 == d2,
{
    assert forall|p: int| 0 <= p < d1.len() implies d1[p] == d2[p] by {
        lemma_blocks_cover(d1.len() as int, block_size, p);
        let i = p / block_size;
        assert(block_of(d1, block_size, i) == block_of(d2, block_size, i));
        assert(block_of(d1, block_size, i)[p - block_offset(block_size, i)] == d1[p]);
        assert(block_of(d2, block_size, i)[p - block_offset(block_size, i)] == d2[p]);
    }
    assert(d1 =~= d2);
}

/// Copies `length` bytes starting at `offset` out of `data`.
fn read_range(data: &Vec<u8>, offset: usize, length: usize) -> (r: Vec<u8>)
    requires
        offset + length <= data@.len(),
    ensures
        r@ == data@.subrange(offset as int, offset as int + length as int),
{
    proof {
        vstd::std_specs::vec::axiom_spec_len(data);
    }
    let mut r: Vec<u8> = Vec::new();
    let mut k: usize = 0;
    while k < length
        invariant
            offset + length <= data@.len(),
            data@.len() <= usize::MAX,
            0 <= k <= length,
            r@.len() == k,
            forall|m: int| 0 <= m < k ==> r@[m] == data@[offset + m],
        decreases length - k,
    {
        r.push(data[offset + k]);
        k += 1;
    }
    proof {
        assert(r@ =~= data@.subrange(offset as int, offset as int + length as int));
    }
    r
}

/// Overwrites `data[offset .. offset + bytes.len())` with `bytes`, leaving
/// every byte outside that range unchanged.
fn write_range(data: &mut Vec<u8>, offset: usize, bytes: &Vec<u8>)
    requires
        offset + bytes@.len() <= old(data)@.len(),
    ensures
        final(data)@.len() == old(data)@.len(),
        forall|m: int|
            0 <= m < final(data)@.len() ==> final(data)@[m] == (if offset <= m < offset
                + bytes@.len() {
                bytes@[m - offset]
            } else {
                old(data)@[m]
            }),
{
    proof {
        vstd::std_specs::vec::axiom_spec_len(bytes);
        vstd::std_specs::vec::axiom_spec_len(&*data);
    }
    let mut k: usize = 0;
    while k < bytes.len()
        invariant
            offset + bytes@.len() <= data@.len(),
            data@.len() <= usize::MAX,
            data@.len() == old(data)@.len(),
            0 <= k <= bytes@.len(),
            forall|m: int| offset <= m < offset + k ==> data@[m] == bytes@[m - offset],
            forall|m: int|
                0 <= m < data@.len() && !(offset <= m < offset + k) ==> data@[m] == old(data)@[m],
        decreases bytes@.len() - k,
    {
        data.set(offset + k, bytes[k]);
        k += 1;
    }
}

/// Computes the block count for an in-memory buffer of `len` bytes.
fn block_count(len: usize, block_size: usize) -> (r: usize)
    requires
        block_size >= 1,
    ensures
        r == num_blocks(len as int, block_size as int),
        r <= len,
{
    if len == 0 {
        proof {
            crate::extent::lemma_num_blocks_bounds(len as int, block_size as int);
        }
        0
    } else {
        proof {
            vstd::arithmetic::div_mod::lemma_div_nonincreasing(len - 1, block_size as int);
            vstd::arithmetic::div_mod::lemma_hoist_over_denominator(
                len - 1,
                1,
                block_size as nat,
            );
        }
        (len - 1) / block_size + 1
    }
}

/// The block engine, run over in-memory buffers: for every block, either the
/// destination block already hash-matches the source block and is left
/// untouched, or it is rewritten from the source and verified by a read-back
/// before it counts as done.  Returns how many blocks were rewritten.
///
/// On return every destination block hash-matches its source block; blocks
/// that matched at entry hold their original bytes; and a destination whose
/// blocks all matched at entry — the second of two successive runs — comes
/// back byte-for-byte unchanged with zero rewrites.
pub fn copy_blocks(source: &Vec<u8>, destination: &mut Vec<u8>, block_size: usize) -> (rewritten:
    usize)
    requires
        block_size >= 1,
        old(destination)@.len() == source@.len(),
    ensures
        final(destination)@.len() == source@.len(),
        forall|i: int|
            0 <= i < num_blocks(source@.len() as int, block_size as int) ==> block_matches(
                block_of(source@, block_size as int, i),
                block_of(final(destination)@, block_size as int, i),
            ),
        forall|i: int|
            0 <= i < num_blocks(source@.len() as int, block_size as int) && block_matches(
                block_of(source@, block_size as int, i),
                block_of(old(destination)@, block_size as int, i),
            ) ==> block_of(final(destination)@, block_size as int, i) == block_of(
                old(destination)@,
                block_size as int,
                i,
            ),
        rewritten == count_mismatched(
            source@,
            old(destination)@,
            block_size as int,
            num_blocks(source@.len() as int, block_size as int),
        ),
        (forall|i: int|
            0 <= i < num_blocks(source@.len() as int, block_size as int) ==> block_matches(
                block_of(source@, block_size as int, i),
                block_of(old(destination)@, block_size as int, i),
            )) ==> (final(destination)@ == old(destination)@ && rewritten == 0),
{
    let ghost s = source@;
    let ghost d0 = old(destination)@;
    let ghost bs = block_size as int;
    let ghost n = s.len() as int;
    let ghost nb = num_blocks(n, bs);
    let total = block_count(source.len(), block_size);
    let mut rewritten: usize = 0;
    let mut i: usize = 0;
    while i < total
        invariant
            block_size >= 1,
            source@ == s,
            n == s.len(),
            bs == block_size as int,
            nb == num_blocks(n, bs),
            total == nb,
            total <= source.len(),
            destination@.len() == n,
            d0.len() == n,
            0 <= i <= total,
            rewritten <= i,
            forall|j: int|
                0 <= j < i ==> block_matches(block_of(s, bs, j), block_of(destination@, bs, j)),
            forall|j: int| i <= j < nb ==> block_of(destination@, bs, j) == block_of(d0, bs, j),
            forall|j: int|
                0 <= j < i && block_matches(block_of(s, bs, j), block_of(d0, bs, j))
                    ==> block_of(destination@, bs, j) == block_of(d0, bs, j),
            rewritten == count_mismatched(s, d0, bs, i as int),
        decreases total - i,
    {
        proof {
            lemma_block_in_file(n, bs, i as int);
        }
        let offset = i * block_size;
        let remaining = source.len() - offset;
        let length = if remaining < block_size {
            remaining
        } else {
            block_size
        };
        proof {
            assert(offset as int == block_offset(bs, i as int));
            assert(length as int == block_len(n, bs, i as int));
        }
        let src_block = read_range(source, offset, length);
        let dst_block = read_range(destination, offset, length);
        proof {
            assert(src_block@ == block_of(s, bs, i as int));
            assert(dst_block@ == block_of(destination@, bs, i as int));
            assert(block_of(destination@, bs, i as int) == block_of(d0, bs, i as int));
        }
        match plan_block(src_block.as_slice(), dst_block.as_slice()) {
            BlockPlan::Skip => {
                proof {
                    assert(block_matches(block_of(s, bs, i as int), block_of(d0, bs, i as int)));
                    assert(count_mismatched(s, d0, bs, i + 1) == count_mismatched(s, d0, bs, i as int));
                }
            },
            BlockPlan::Rewrite => {
                let ghost d_prev = destination@;
                write_range(destination, offset, &src_block);
                proof {
                    assert forall|j: int| 0 <= j < nb && j != i implies block_of(
                        destination@,
                        bs,
                        j,
                    ) == block_of(d_prev, bs, j) by {
                        lemma_block_in_file(n, bs, j);
                        lemma_blocks_disjoint(n, bs, i as int, j);
                        assert(block_of(destination@, bs, j) =~= block_of(d_prev, bs, j));
                    }
                    assert(block_of(destination@, bs, i as int) =~= src_block@);
                }
                let readback = read_range(destination, offset, length);
                proof {
                    assert(readback@ == src_block@);
                }
                match verify_readback(src_block.as_slice(), readback.as_slice()) {
                    VerifyOutcome::Complete => {},
                    VerifyOutcome::Retry => {
                        proof {
                            lemma_identical_block_matches(src_block@, readback@);
                            assert(false);
                        }
                    },
                }
                proof {
                    assert(!block_matches(block_of(s, bs, i as int), block_of(d0, bs, i as int)));
                    assert(count_mismatched(s, d0, bs, i + 1) == count_mismatched(s, d0, bs, i as int)
                        + 1);
                    lemma_identical_block_matches(src_block@, block_of(destination@, bs, i as int));
                }
                rewritten = rewritten + 1;
            },
        }
        i = i + 1;
    }
    proof {
        if forall|j: int|
            0 <= j < nb ==> block_matches(block_of(s, bs, j), block_of(d0, bs, j)) {
            lemma_all_matched_no_rewrites(s, d0, bs, nb);
            lemma_blockwise_equal(destination@, d0, bs);
        }
    }
    rewritten
}

} // verus!
