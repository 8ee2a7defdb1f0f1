use safe_copy::digest::{block_digest, bytes_equal};
use safe_copy::engine::{copy_blocks, plan_block, verify_readback, BlockPlan, VerifyOutcome};

fn hex(bytes: &[u8]) -> String {
    bytes.iter().map(|b| format!("{:02x}", b)).collect()
}

#[test]
fn digest_is_sha256() {
    // Well-known SHA-256 values: the oracle really hashes its input rather
    // than handing it back.
    assert_eq!(
        hex(&block_digest(b"")),
        "e3b0c44298fc1c149afbf4c8996fb92427ae41e4649b934ca495991b7852b855"
    );
    assert_eq!(
        hex(&block_digest(b"abc")),
        "ba7816bf8f01cfea414140de5dae2223b00361a396177a9cb410ff61f20015ad"
    );
    assert_eq!(block_digest(b"").len(), 32);
}

#[test]
fn bytes_equal_basics() {
    assert!(bytes_equal(b"", b""));
    assert!(bytes_equal(b"abc", b"abc"));
    assert!(!bytes_equal(b"abc", b"abd"));
    assert!(!bytes_equal(b"abc", b"ab"));
}

#[test]
fn matching_block_is_skipped() {
    assert_eq!(plan_block(b"same bytes", b"same bytes"), BlockPlan::Skip);
    assert_eq!(plan_block(b"", b""), BlockPlan::Skip);
}

#[test]
fn differing_block_is_rewritten() {
    assert_eq!(plan_block(b"source bytes", b"stale bytes!"), BlockPlan::Rewrite);
    assert_eq!(plan_block(b"source", b""), BlockPlan::Rewrite);
}

#[test]
fn readback_must_match_to_complete() {
    assert_eq!(verify_readback(b"block", b"block"), VerifyOutcome::Complete);
    assert_eq!(verify_readback(b"block", b"blocK"), VerifyOutcome::Retry);
    assert_eq!(verify_readback(b"block", b""), VerifyOutcome::Retry);
}

fn pattern(len: usize) -> Vec<u8> {
    (0..len).map(|i| (i % 251) as u8 + 1).collect()
}

#[test]
fn fresh_copy_rewrites_every_block() {
    let source = pattern(100);
    let mut destination = vec![0u8; 100];
    let rewritten = copy_blocks(&source, &mut destination, 7);
    assert_eq!(rewritten, 15); // ceil(100 / 7)
    assert_eq!(destination, source);
}

#[test]
fn second_run_rewrites_nothing() {
    let source = pattern(100);
    let mut destination = vec![0u8; 100];
    copy_blocks(&source, &mut destination, 7);
    let rewritten = copy_blocks(&source, &mut destination, 7);
    assert_eq!(rewritten, 0);
    assert_eq!(destination, source);
}

#[test]
fn correct_prefix_is_not_rewritten() {
    // Blocks 0..3 are already correct, blocks 3..8 are garbage: one run
    // fixes everything and rewrites only the 5 incorrect blocks.
    let source = pattern(80);
    let block_size = 10;
    let mut destination = vec![0u8; 80];
    destination[..30].copy_from_slice(&source[..30]);
    let rewritten = copy_blocks(&source, &mut destination, block_size);
    assert_eq!(rewritten, 5);
    assert_eq!(destination, source);
}

#[test]
fn only_the_stale_block_is_rewritten() {
    // Ten bytes in 4-byte blocks: 3 blocks, the last one 2 bytes long.
    // Only the middle block differs, so only it is rewritten.
    let source = pattern(10);
    let mut destination = source.clone();
    destination[5] ^= 0xff;
    let rewritten = copy_blocks(&source, &mut destination, 4);
    assert_eq!(rewritten, 1);
    assert_eq!(destination, source);
}

#[test]
fn empty_source_needs_no_work() {
    let source: Vec<u8> = Vec::new();
    let mut destination: Vec<u8> = Vec::new();
    let rewritten = copy_blocks(&source, &mut destination, 4_194_304);
    assert_eq!(rewritten, 0);
    assert!(destination.is_empty());
}

#[test]
fn end_to_end_copy() {
    // The full scenario: 10,000,050 bytes in 4 MiB blocks. All 3 blocks are
    // rewritten from a zeroed destination, and afterwards every block of the
    // destination hash-matches its source counterpart.
    let total_size = 10_000_050;
    let block_size = 4_194_304;
    let source = pattern(total_size);
    let mut destination = vec![0u8; total_size];
    let rewritten = copy_blocks(&source, &mut destination, block_size);
    assert_eq!(rewritten, 3);
    assert_eq!(destination.len(), total_size);
    for i in 0..3 {
        let start = i * block_size;
        let end = (start + block_size).min(total_size);
        assert_eq!(
            block_digest(&destination[start..end]),
            block_digest(&source[start..end])
        );
    }
}
