use safe_copy::extent::{block_task, file_extent, total_blocks};

#[test]
fn end_to_end_block_geometry() {
    // A 10,000,050-byte source with 4 MiB blocks decomposes into 3 blocks:
    // two full ones and a 1,611,442-byte remainder.
    let total_size: u64 = 10_000_050;
    let block_size: u64 = 4_194_304;
    assert_eq!(total_blocks(total_size, block_size), 3);

    let extent = file_extent(total_size, block_size);
    assert_eq!(extent.total_blocks, 3);
    assert_eq!(extent.total_size, total_size);

    let t0 = block_task(&extent, 0);
    assert_eq!(t0.offset, 0);
    assert_eq!(t0.length, 4_194_304);
    let t1 = block_task(&extent, 1);
    assert_eq!(t1.offset, 4_194_304);
    assert_eq!(t1.length, 4_194_304);
    let t2 = block_task(&extent, 2);
    assert_eq!(t2.offset, 8_388_608);
    assert_eq!(t2.length, 1_611_442);
    assert_eq!(t2.offset + t2.length, total_size);
}

#[test]
fn total_blocks_edge_cases() {
    assert_eq!(total_blocks(0, 4_194_304), 0);
    assert_eq!(total_blocks(1, 4_194_304), 1);
    assert_eq!(total_blocks(4_194_304, 4_194_304), 1);
    assert_eq!(total_blocks(4_194_305, 4_194_304), 2);
    assert_eq!(total_blocks(8_388_608, 4_194_304), 2);
    assert_eq!(total_blocks(10, 1), 10);
}

#[test]
fn block_ranges_disjoint_and_cover() {
    // For a handful of small extents, the block ranges are pairwise
    // disjoint and together cover [0, total_size) exactly.
    for &(total_size, block_size) in &[(10u64, 3u64), (12, 4), (1, 5), (7, 7), (23, 5)] {
        let extent = file_extent(total_size, block_size);
        let mut covered = vec![0u32; total_size as usize];
        for i in 0..extent.total_blocks {
            let t = block_task(&extent, i);
            assert!(t.length >= 1);
            assert!(t.offset + t.length <= total_size);
            for p in t.offset..t.offset + t.length {
                covered[p as usize] += 1;
            }
        }
        // Each byte position is owned by exactly one block.
        assert!(covered.iter().all(|&c| c == 1));
    }
}
