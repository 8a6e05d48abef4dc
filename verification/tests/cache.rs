//! The cache over tables that lie in memory.

use ngram_cache::arena::RowArena;
use ngram_cache::block::{AlignedBlock, BLOCK};
use ngram_cache::cache::NgramRowCache;
use ngram_cache::error::{CacheError, FetchError};
use ngram_cache::fetch::{fetch_row, Backing, FetchedRow};
use ngram_cache::residency::Fault;
use ngram_cache::share::{join_parts, share_out};
use ngram_cache::source::{plan_shard_files, RowSource};

/// Reads from `offset` on until `buf` is full or the file ends.
fn read_up_to(file: &[u8], offset: u64, buf: &mut [u8]) -> usize {
    let from = (offset as usize).min(file.len());
    let got = buf.len().min(file.len() - from);
    buf[..got].copy_from_slice(&file[from..from + got]);
    got
}

/// Does the reads of a batch.
fn fetch_all(
    cache: &NgramRowCache,
    faults: &[Fault],
    files: &[Vec<u8>],
    scales: &[u8],
) -> Result<Vec<FetchedRow>, FetchError> {
    let mut bounce = AlignedBlock::new();
    let mut rows = Vec::new();
    for f in faults {
        let mut fetch = fetch_row(cache.source(), f.id, f.slot);
        while let Some(request) = fetch.request() {
            let block = bounce.blocks(request.span.nblocks);
            let got = match request.from {
                Backing::Table(i) => read_up_to(&files[i as usize], request.span.block_off, block),
                Backing::Scales => read_up_to(scales, request.span.block_off, block),
            };
            fetch.deliver(block, got)?;
        }
        rows.push(fetch.into_row());
    }
    Ok(rows)
}

/// A whole batch: lookups, then reads.
fn run_batch(
    cache: &mut NgramRowCache,
    ids: &[u64],
    slots: &mut Vec<u32>,
    files: &[Vec<u8>],
    scales: &[u8],
) -> Result<(), CacheError> {
    let faults = cache.resolve(ids, slots)?;
    let fetched = fetch_all(cache, &faults, files, scales);
    cache.complete(&faults, fetched)
}

/// A table of `rows` rows of `stride` bytes behind `lead` bytes, each row filled
/// with its own byte.
fn plain_table(lead: usize, rows: u64, stride: usize) -> Vec<u8> {
    let mut file = vec![0xeeu8; lead];
    for id in 0..rows {
        file.extend(vec![(id as u8).wrapping_add(1); stride]);
    }
    file
}

fn open(rows_total: u64, stride: usize, slots: usize) -> NgramRowCache {
    match NgramRowCache::open(false, rows_total, stride, slots) {
        Ok(c) => c,
        Err(e) => panic!("{}", e.message()),
    }
}

#[test]
fn multi_file_rows_are_byte_identical() {
    const STRIDE: usize = 160; // FP8 row: head_dim 160 x 1 byte
    const ROWS_PER: u64 = 64;
    const PAD: usize = 8192; // keep every row's 4 KiB block inside the file

    // Byte pattern for (shard, local row): distinct per row AND per offset
    // within the row, so a read that lands on the right row but the wrong
    // offset still fails.
    fn pattern(shard: usize, local: u64) -> Vec<u8> {
        (0..STRIDE)
            .map(|i| {
                (shard as u8)
                    .wrapping_mul(37)
                    .wrapping_add((local as u8).wrapping_mul(11))
                    .wrapping_add(i as u8)
            })
            .collect()
    }

    let path_a = String::from("shards_a.bin");
    let path_b = String::from("shards_b.bin");
    // Shards 0,1,3 in one file and shard 2 in another, so shard index and file
    // index disagree.
    let layout = [(0usize, &path_a), (1, &path_a), (2, &path_b), (3, &path_a)];

    let mut images: Vec<Vec<u8>> = Vec::new();
    let mut shards: Vec<(String, u64)> = vec![Default::default(); layout.len()];
    for file in [&path_a, &path_b] {
        // A non-4KiB-aligned base, which is what a safetensors data offset is.
        let mut image = vec![0u8; 8];
        for (shard, f) in layout.iter() {
            if *f != file {
                continue;
            }
            shards[*shard] = (file.clone(), image.len() as u64);
            for local in 0..ROWS_PER {
                image.extend(pattern(*shard, local));
            }
        }
        image.extend([0u8; PAD]);
        images.push(image);
    }

    let mut cache = match NgramRowCache::open_segmented(&shards, ROWS_PER, false, STRIDE, 256) {
        Ok(c) => c,
        Err(e) => panic!("segmented cache over two files: {}", e.message()),
    };

    // Walk rows that cross both shard and FILE boundaries.
    let probes: Vec<u64> = vec![
        0,
        ROWS_PER - 1,
        ROWS_PER,
        2 * ROWS_PER - 1,
        2 * ROWS_PER,
        3 * ROWS_PER - 1,
        3 * ROWS_PER,
        4 * ROWS_PER - 1,
    ];
    let mut slots = Vec::new();
    run_batch(&mut cache, &probes, &mut slots, &images, &[]).expect("resolve");
    assert_eq!(slots.len(), probes.len());

    for (probe, slot) in probes.iter().zip(&slots) {
        let shard = (*probe / ROWS_PER) as usize;
        let local = *probe % ROWS_PER;
        let got = cache.slot_bytes(*slot).expect("slot bytes");
        assert_eq!(
            got,
            &pattern(shard, local)[..],
            "row {probe} (shard {shard} local {local}, file {}) came back with \
             the wrong bytes",
            shards[shard].0
        );
    }

    // Every distinct file has one number, not one per shard.
    let (paths, shard_file) = plan_shard_files(&shards);
    assert_eq!(paths, vec![path_a, path_b]);
    assert_eq!(
        shard_file,
        vec![0, 0, 1, 0],
        "shard 2 must be the second file"
    );
    // The row behind the last one is refused.
    assert_eq!(
        cache.resolve(&[4 * ROWS_PER], &mut slots),
        Err(CacheError::RowOutOfRange {
            id: 256,
            rows_total: 256
        })
    );
}

/// The row whose 4 KiB block runs past the end of the file: a table that ends
/// mid-block. The short final block is in order as long as it covers the row.
#[test]
fn last_row_in_a_short_final_block_is_readable() {
    const STRIDE: usize = 160;
    const ROWS: u64 = 30; // 8 + 30*160 = 4808 bytes: the last row's block ends at 8192, the file at 4808
    let mut image = vec![0u8; 8];
    for local in 0..ROWS {
        image.extend([(local as u8).wrapping_mul(13).wrapping_add(1); STRIDE]);
    }
    assert!(image.len() % 4096 != 0);

    let shards = vec![(String::from("shard.bin"), 8u64)];
    let mut cache = match NgramRowCache::open_segmented(&shards, ROWS, false, STRIDE, 64) {
        Ok(c) => c,
        Err(e) => panic!("segmented cache: {}", e.message()),
    };
    let probes = vec![0u64, ROWS - 2, ROWS - 1];
    let mut slots = Vec::new();
    run_batch(&mut cache, &probes, &mut slots, &[image], &[])
        .expect("the short final block must not be an EOF error");
    for (probe, slot) in probes.iter().zip(&slots) {
        let got = cache.slot_bytes(*slot).expect("slot bytes");
        let want = [(*probe as u8).wrapping_mul(13).wrapping_add(1); STRIDE];
        assert_eq!(got, &want[..], "row {probe} came back with the wrong bytes");
    }
}

#[test]
fn a_file_that_ends_inside_a_row_is_reported_and_nothing_stays_claimed() {
    // The last row lacks one byte.
    let mut image = plain_table(8, 30, 160);
    image.pop();
    let mut cache = match NgramRowCache::open_at(8, false, 30, 160, 8) {
        Ok(c) => c,
        Err(e) => panic!("{}", e.message()),
    };
    let mut slots = Vec::new();
    assert_eq!(
        run_batch(&mut cache, &[3, 29], &mut slots, &[image.clone()], &[]),
        Err(CacheError::Fetch(FetchError::RowEof {
            id: 29,
            got: 711,
            need: 712,
            offset: 4096
        }))
    );
    cache.end_batch();
    // Both rows are misses again.
    assert_eq!(cache.stats(), (0, 2, 0));
    image.push(30);
    run_batch(&mut cache, &[3, 29], &mut slots, &[image], &[]).expect("complete file");
    assert_eq!(cache.stats(), (0, 4, 0));
    assert_eq!(cache.slot_bytes(slots[0]).expect("slot"), &[4u8; 160][..]);
    assert_eq!(cache.slot_bytes(slots[1]).expect("slot"), &[30u8; 160][..]);
}

#[test]
fn a_failed_read_is_reported_by_stage() {
    let cache = match NgramRowCache::open(true, 10, 16, 2) {
        Ok(c) => c,
        Err(e) => panic!("{}", e.message()),
    };
    let mut fetch = fetch_row(cache.source(), 7, 1);
    assert_eq!(
        fetch.read_failed(String::from("io")),
        FetchError::RowRead {
            id: 7,
            cause: String::from("io")
        }
    );
    let request = fetch.request().expect("a row to read");
    assert_eq!(request.from, Backing::Table(0));
    assert_eq!(request.span.within, 112);
    assert_eq!(fetch.deliver(&[3u8; BLOCK], 128), Ok(()));
    let request = fetch.request().expect("a scale to read");
    assert_eq!(request.from, Backing::Scales);
    assert_eq!(request.span.within, 28);
    assert_eq!(
        fetch.read_failed(String::from("io")),
        FetchError::ScaleRead {
            id: 7,
            cause: String::from("io")
        }
    );
    assert_eq!(
        fetch.deliver(&[4u8; BLOCK], 31),
        Err(FetchError::ScaleEof {
            id: 7,
            got: 31,
            offset: 0
        })
    );
    assert_eq!(fetch.deliver(&[4u8; BLOCK], 32), Ok(()));
    assert_eq!(fetch.request(), None);
    assert_eq!(
        fetch.into_row(),
        FetchedRow {
            id: 7,
            slot: 1,
            row: vec![3u8; 16],
            scale: Some(vec![4u8; 4])
        }
    );
}

#[test]
fn a_row_across_a_block_boundary_is_put_together() {
    // Row 15 starts at the last byte of the first block: 255 + 15 * 256 = 4095.
    let mut image = plain_table(255, 20, 256);
    image[4095] = 0xaa;
    image[4096] = 0xbb;
    let mut cache = match NgramRowCache::open_at(255, false, 20, 256, 4) {
        Ok(c) => c,
        Err(e) => panic!("{}", e.message()),
    };
    let mut slots = Vec::new();
    run_batch(&mut cache, &[15], &mut slots, &[image], &[]).expect("batch");
    let got = cache.slot_bytes(slots[0]).expect("slot");
    assert_eq!(&got[..3], &[0xaa, 0xbb, 16]);
    assert_eq!(got.len(), cache.row_stride());
}

#[test]
fn a_repeated_row_is_read_once() {
    let mut cache = open(10, 16, 4);
    let mut slots = vec![9, 9, 9];
    let faults = cache.resolve(&[5, 5, 7, 5], &mut slots).expect("lookups");
    assert_eq!(slots, vec![0, 0, 1, 0]);
    assert_eq!(
        faults,
        vec![Fault { id: 5, slot: 0 }, Fault { id: 7, slot: 1 }]
    );
    assert_eq!(cache.stats(), (2, 2, 0));
    assert_eq!((cache.hits, cache.misses, cache.evictions), (2, 2, 0));
}

#[test]
fn a_served_batch_is_resident_afterwards() {
    let image = plain_table(0, 10, 16);
    let mut cache = open(10, 16, 4);
    let mut slots = Vec::new();
    run_batch(&mut cache, &[1, 4, 2], &mut slots, &[image], &[]).expect("batch");
    cache.end_batch();
    let mut again = Vec::new();
    assert_eq!(cache.resolve(&[1, 4, 2], &mut again), Ok(vec![]));
    assert_eq!(again, slots);
    assert_eq!(cache.stats(), (3, 3, 0));
}

#[test]
fn the_clock_gives_a_second_chance() {
    let image = vec![plain_table(0, 40, 16)];
    let mut cache = open(40, 16, 3);
    let mut slots = Vec::new();
    run_batch(&mut cache, &[0, 1, 2], &mut slots, &image, &[]).expect("fill");
    assert_eq!(slots, vec![0, 1, 2]);
    cache.end_batch();
    // All were referenced: one round clears them, then slot 0 goes.
    run_batch(&mut cache, &[10], &mut slots, &image, &[]).expect("first eviction");
    assert_eq!(slots, vec![0]);
    assert_eq!(cache.stats(), (0, 4, 1));
    cache.end_batch();
    // Row 1 is looked up, so slot 2 goes before slot 1.
    run_batch(&mut cache, &[1], &mut slots, &image, &[]).expect("hit");
    cache.end_batch();
    run_batch(&mut cache, &[11], &mut slots, &image, &[]).expect("second eviction");
    assert_eq!(slots, vec![2]);
    assert_eq!(cache.stats(), (1, 5, 2));
    cache.end_batch();
    // Row 1 has had its second chance, row 10 keeps its bit until passed.
    run_batch(&mut cache, &[12], &mut slots, &image, &[]).expect("third eviction");
    assert_eq!(slots, vec![1]);
    let faults = cache.resolve(&[10, 11], &mut slots).expect("still there");
    assert!(faults.is_empty());
    assert_eq!(slots, vec![0, 2]);
}

#[test]
fn a_batch_never_evicts_its_own_rows() {
    let image = vec![plain_table(0, 100, 16)];
    let mut cache = open(100, 16, 8);
    let mut slots = Vec::new();
    let mut state = 12345u64;
    for _ in 0..200 {
        let mut ids = Vec::new();
        for _ in 0..8 {
            state = state.wrapping_mul(6364136223846793005).wrapping_add(1442695040888963407);
            ids.push((state >> 33) % 100);
        }
        run_batch(&mut cache, &ids, &mut slots, &image, &[]).expect("a batch that fits");
        for (id, slot) in ids.iter().zip(&slots) {
            let got = cache.slot_bytes(*slot).expect("slot");
            assert_eq!(got, &[*id as u8 + 1; 16][..]);
        }
        cache.end_batch();
    }
    let (hits, misses, evictions) = cache.stats();
    assert_eq!(hits + misses, 1600);
    assert_eq!(evictions, misses - 8);
}

#[test]
fn oversubscription_is_refused_and_undone() {
    let image = vec![plain_table(0, 10, 16)];
    let mut cache = open(10, 16, 2);
    let mut slots = Vec::new();
    assert_eq!(
        cache.resolve(&[1, 2, 3], &mut slots),
        Err(CacheError::AllPinned { slots: 2 })
    );
    assert_eq!(slots, vec![0, 1]);
    assert_eq!(cache.stats(), (0, 3, 0));
    // The slots stay pinned until the batch ends.
    assert_eq!(
        cache.resolve(&[1], &mut slots),
        Err(CacheError::AllPinned { slots: 2 })
    );
    cache.end_batch();
    // Nothing stayed claimed: the rows are read now.
    run_batch(&mut cache, &[1, 2], &mut slots, &image, &[]).expect("a batch that fits");
    assert_eq!(cache.stats(), (0, 6, 0));
    assert_eq!(cache.slot_bytes(slots[0]).expect("slot"), &[2u8; 16][..]);
    assert_eq!(cache.slot_bytes(slots[1]).expect("slot"), &[3u8; 16][..]);
}

#[test]
fn rows_of_an_earlier_batch_survive_a_refused_one() {
    let image = vec![plain_table(0, 10, 16)];
    let mut cache = open(10, 16, 3);
    let mut slots = Vec::new();
    run_batch(&mut cache, &[4], &mut slots, &image, &[]).expect("first part of a batch");
    assert_eq!(
        cache.resolve(&[5, 6, 7], &mut slots),
        Err(CacheError::AllPinned { slots: 3 })
    );
    assert_eq!(cache.resolve(&[4], &mut slots), Ok(vec![]));
    assert_eq!(cache.slot_bytes(slots[0]).expect("slot"), &[5u8; 16][..]);
}

#[test]
fn a_row_outside_the_table_refuses_the_batch_and_undoes_it() {
    let mut cache = open(10, 16, 4);
    let mut slots = Vec::new();
    assert_eq!(
        cache.resolve(&[3, 10, 4], &mut slots),
        Err(CacheError::RowOutOfRange {
            id: 10,
            rows_total: 10
        })
    );
    assert_eq!(slots, vec![0]);
    assert_eq!(cache.stats(), (0, 1, 0));
    cache.end_batch();
    // What was claimed before it is a miss again.
    let faults = cache.resolve(&[3], &mut slots).expect("a row of the table");
    assert_eq!(faults.len(), 1);
    assert_eq!(faults[0].id, 3);
    assert_eq!(cache.stats(), (0, 2, 0));
}

#[test]
fn a_row_is_read_after_the_batch_that_named_it_was_refused() {
    let image = vec![vec![9u8; 8192]];
    let mut cache = match NgramRowCache::open_at(0, false, 2, 4096, 2) {
        Ok(c) => c,
        Err(e) => panic!("{}", e.message()),
    };
    let mut slots = Vec::new();
    assert_eq!(
        run_batch(&mut cache, &[0, 2], &mut slots, &image, &[]),
        Err(CacheError::RowOutOfRange {
            id: 2,
            rows_total: 2
        })
    );
    cache.end_batch();
    run_batch(&mut cache, &[0], &mut slots, &image, &[]).expect("row 0");
    assert_eq!(slots.len(), 1);
    assert_eq!(cache.slot_bytes(slots[0]).expect("slot"), &[9u8; 4096][..]);
    assert_eq!(cache.stats(), (0, 2, 0));
}

#[test]
fn slots_out_of_range_have_no_bytes() {
    let cache = open(10, 16, 4);
    assert!(cache.slot_bytes(3).is_ok());
    assert_eq!(
        cache.slot_bytes(4),
        Err(CacheError::SlotOutOfRange { slot: 4 })
    );
    assert_eq!(
        cache.slot_scale(4),
        Err(CacheError::SlotOutOfRange { slot: 4 })
    );
    assert_eq!(cache.slot_scale(3), Ok(None));
    assert_eq!(cache.scale_dev_va(), Ok(None));
}

#[test]
fn row_scales_follow_their_rows() {
    let image = vec![plain_table(0, 3000, 16)];
    let scales: Vec<u8> = (0..3000u32).flat_map(|id| id.to_le_bytes()).collect();
    let mut cache = match NgramRowCache::open(true, 3000, 16, 4) {
        Ok(c) => c,
        Err(e) => panic!("{}", e.message()),
    };
    let ids = [0u64, 1023, 1024, 2999];
    let mut slots = Vec::new();
    // The scale file ends inside a block too.
    run_batch(&mut cache, &ids, &mut slots, &image, &scales).expect("batch");
    for (id, slot) in ids.iter().zip(&slots) {
        assert_eq!(
            cache.slot_scale(*slot),
            Ok(Some(&(*id as u32).to_le_bytes()[..]))
        );
        assert_eq!(
            cache.slot_bytes(*slot).expect("slot"),
            &[(*id as u8).wrapping_add(1); 16][..]
        );
    }
    cache.end_batch();
    assert_eq!(
        run_batch(&mut cache, &[2998, 2999], &mut slots, &image, &scales[..11995]),
        Err(CacheError::Fetch(FetchError::ScaleEof {
            id: 2998,
            got: 3803,
            offset: 8192
        }))
    );
}

#[test]
fn a_constant_scale_is_never_refreshed() {
    let image = vec![plain_table(0, 10, 16)];
    let mut cache = open(10, 16, 3);
    cache.set_constant_scale(1.5f32.to_le_bytes());
    let mut slots = Vec::new();
    for ids in [[1u64, 2, 3], [4, 5, 6]] {
        for slot in 0..3 {
            assert_eq!(
                cache.slot_scale(slot),
                Ok(Some(&1.5f32.to_le_bytes()[..]))
            );
        }
        run_batch(&mut cache, &ids, &mut slots, &image, &[]).expect("batch");
        cache.end_batch();
    }
    assert!(matches!(cache.scale_dev_va(), Ok(Some(_))));
}

#[test]
fn the_device_address_is_that_of_slot_zero_and_stays() {
    let image = vec![plain_table(0, 10, 16)];
    let mut cache = open(10, 16, 3);
    let va = cache.table_dev_va().expect("address");
    assert_eq!(
        cache.slot_bytes(0).expect("slot").as_ptr() as usize as u64,
        va
    );
    let mut slots = Vec::new();
    run_batch(&mut cache, &[1, 2, 3], &mut slots, &image, &[]).expect("batch");
    let moved = cache;
    assert_eq!(moved.table_dev_va(), Ok(va));
    assert_eq!(
        moved.slot_bytes(1).expect("slot").as_ptr() as usize as u64,
        va + 16
    );
}

#[test]
fn an_empty_batch_changes_nothing() {
    let mut cache = open(10, 16, 3);
    let mut slots = vec![7];
    assert_eq!(cache.resolve(&[], &mut slots), Ok(vec![]));
    assert!(slots.is_empty());
    assert_eq!(cache.complete(&[], Ok(vec![])), Ok(()));
    assert_eq!(cache.stats(), (0, 0, 0));
}

#[test]
fn a_served_batch_can_be_looked_up_again_before_its_end() {
    let image = vec![plain_table(0, 10, 16)];
    let mut cache = open(10, 16, 4);
    let mut slots = Vec::new();
    run_batch(&mut cache, &[1, 4, 1], &mut slots, &image, &[]).expect("batch");
    let bytes: Vec<Vec<u8>> = (0..4)
        .map(|s| cache.slot_bytes(s).expect("slot").to_vec())
        .collect();
    let (h, m, e) = cache.stats();
    let mut again = Vec::new();
    assert_eq!(cache.resolve(&[1, 4, 1], &mut again), Ok(vec![]));
    assert_eq!(again, slots);
    assert_eq!(cache.stats(), (h + 3, m, e));
    for s in 0..4u32 {
        assert_eq!(cache.slot_bytes(s).expect("slot"), &bytes[s as usize][..]);
    }
}

#[test]
fn a_later_batch_leaves_the_slots_of_an_earlier_one_alone() {
    let image = vec![plain_table(0, 20, 16)];
    let mut cache = open(20, 16, 4);
    let mut first = Vec::new();
    run_batch(&mut cache, &[3, 7], &mut first, &image, &[]).expect("first");
    let mut second = Vec::new();
    run_batch(&mut cache, &[8, 3, 9], &mut second, &image, &[]).expect("second");
    assert_eq!(second[1], first[0]);
    // All four slots are pinned now.
    let mut third = Vec::new();
    assert_eq!(
        cache.resolve(&[10], &mut third),
        Err(CacheError::AllPinned { slots: 4 })
    );
    assert_eq!(
        cache.resolve(&[7, 99], &mut third),
        Err(CacheError::RowOutOfRange {
            id: 99,
            rows_total: 20
        })
    );
    for (slot, id) in first.iter().chain(&second).zip([3u8, 7, 8, 3, 9]) {
        assert_eq!(cache.slot_bytes(*slot).expect("slot"), &[id + 1; 16][..]);
    }
    cache.end_batch();
    let mut fourth = Vec::new();
    assert_eq!(cache.resolve(&[3, 7, 8, 9], &mut fourth), Ok(vec![]));
    assert_eq!(fourth, vec![first[0], first[1], second[0], second[2]]);
}

#[test]
fn residents_are_the_misses_less_the_evictions() {
    let image = vec![plain_table(0, 40, 16)];
    let mut cache = open(40, 16, 5);
    let mut slots = Vec::new();
    let mut lookups = 0;
    for start in [0u64, 2, 9, 4, 30] {
        let ids = [start, start + 1, start, start + 3];
        let (_, before, _) = cache.stats();
        run_batch(&mut cache, &ids, &mut slots, &image, &[]).expect("batch");
        cache.end_batch();
        lookups += 4;
        let (h, m, e) = cache.stats();
        assert_eq!(h + m, lookups);
        assert!(m - before <= 3);
        assert!(m - e <= 5);
    }
    // One hit in each batch, and rows 3 and 5 that an earlier batch had read.
    assert_eq!(cache.stats(), (7, 13, 8));
}

#[test]
fn a_cache_can_be_opened_over_memory_that_was_made_for_it() {
    let image = vec![plain_table(8, 10, 16)];
    let scales: Vec<u8> = (0..10u8).flat_map(|i| [i, 0, 0, i]).collect();
    let source = RowSource {
        base_offset: 8,
        segments: None,
        row_stride: 16,
        row_scales: true,
    };
    let rows = RowArena::at(vec![0xaa; 3 * 16], 0x7000_0000);
    let room = RowArena::at(vec![0xbb; 3 * 4], 0x9000_0000);
    let mut cache =
        NgramRowCache::open_over(source, 10, 3, rows, Some(room)).unwrap_or_else(|e| {
            panic!("{}", e.message());
        });
    assert_eq!(cache.table_dev_va(), Ok(0x7000_0000));
    assert_eq!(cache.scale_dev_va(), Ok(Some(0x9000_0000)));
    assert_eq!(cache.slot_bytes(2), Ok(&[0xaa; 16][..]));
    assert_eq!(cache.slot_scale(2), Ok(Some(&[0xbb; 4][..])));
    let mut slots = Vec::new();
    run_batch(&mut cache, &[4, 5, 4], &mut slots, &image, &scales).expect("batch");
    assert_eq!(slots, vec![0, 1, 0]);
    assert_eq!(cache.slot_bytes(0), Ok(&[5; 16][..]));
    assert_eq!(cache.slot_scale(1), Ok(Some(&[5, 0, 0, 5][..])));
    assert_eq!(cache.slot_bytes(2), Ok(&[0xaa; 16][..]));
    assert_eq!(cache.table_dev_va(), Ok(0x7000_0000));
}

#[test]
fn memory_that_was_made_for_scales_is_used_for_a_constant_one() {
    let source = RowSource {
        base_offset: 0,
        segments: None,
        row_stride: 16,
        row_scales: false,
    };
    let rows = RowArena::at(vec![0; 48], 0x7000_0000);
    let room = RowArena::at(vec![0; 12], 0x9000_0000);
    let mut cache =
        NgramRowCache::open_over(source, 10, 3, rows, Some(room)).unwrap_or_else(|e| {
            panic!("{}", e.message());
        });
    for scale in [1.5f32, 0.25] {
        cache.set_constant_scale(scale.to_le_bytes());
        assert_eq!(cache.scale_dev_va(), Ok(Some(0x9000_0000)));
        for slot in 0..3 {
            assert_eq!(
                cache.slot_scale(slot),
                Ok(Some(&scale.to_le_bytes()[..]))
            );
        }
    }
}

#[test]
fn memory_that_was_made_does_not_mend_a_geometry() {
    for (row_stride, slots) in [(0usize, 4usize), (16, 0), (BLOCK + 1, 4)] {
        let source = RowSource {
            base_offset: 0,
            segments: None,
            row_stride,
            row_scales: false,
        };
        let rows = RowArena::at(Vec::new(), 0);
        let error = match NgramRowCache::open_over(source, 10, slots, rows, None) {
            Ok(_) => panic!("expected a refusal"),
            Err(e) => e,
        };
        let plain = match NgramRowCache::open(false, 10, row_stride, slots) {
            Ok(_) => panic!("expected a refusal"),
            Err(e) => e,
        };
        assert_eq!(error, plain);
    }
}

#[test]
fn opening_is_opening_at_the_start_of_the_file() {
    let image = vec![plain_table(0, 10, 16)];
    let mut a = open(10, 16, 3);
    let mut b = NgramRowCache::open_at(0, false, 10, 16, 3).unwrap_or_else(|e| {
        panic!("{}", e.message());
    });
    for ids in [[1u64, 2, 3], [3, 4, 4], [9, 0, 1]] {
        let (mut sa, mut sb) = (Vec::new(), Vec::new());
        run_batch(&mut a, &ids, &mut sa, &image, &[]).expect("batch");
        run_batch(&mut b, &ids, &mut sb, &image, &[]).expect("batch");
        assert_eq!(sa, sb);
        assert_eq!(a.stats(), b.stats());
        for slot in 0..3 {
            assert_eq!(a.slot_bytes(slot), b.slot_bytes(slot));
        }
        a.end_batch();
        b.end_batch();
    }
}

#[test]
fn any_number_of_workers_leaves_the_same_bytes() {
    let image = vec![plain_table(8, 30, 16)];
    let ids: Vec<u64> = vec![4, 29, 0, 4, 7, 11, 12, 13, 25];
    let mut seen: Vec<Vec<u8>> = Vec::new();
    for want in [0usize, 1, 2, 3, 5, 32] {
        let mut cache = NgramRowCache::open_at(8, false, 30, 16, 10).unwrap_or_else(|e| {
            panic!("{}", e.message());
        });
        let mut slots = Vec::new();
        let faults = cache.resolve(&ids, &mut slots).expect("lookups");
        let parts = share_out(faults.len(), want)
            .into_iter()
            .map(|(from, to)| fetch_all(&cache, &faults[from..to], &image, &[]))
            .collect();
        let fetched = join_parts(parts);
        assert_eq!(cache.complete(&faults, fetched), Ok(()));
        let bytes: Vec<u8> = slots
            .iter()
            .flat_map(|s| cache.slot_bytes(*s).expect("slot").to_vec())
            .collect();
        for (k, id) in ids.iter().enumerate() {
            assert_eq!(bytes[k * 16..k * 16 + 16], [*id as u8 + 1; 16]);
        }
        seen.push(bytes);
    }
    assert!(seen.windows(2).all(|w| w[0] == w[1]));
}

#[test]
fn any_number_of_workers_reports_the_same_failure() {
    // The file ends inside row 20.
    let mut image = vec![plain_table(0, 30, 16)];
    image[0].truncate(20 * 16 + 5);
    for want in [1usize, 2, 3, 32] {
        let mut cache = open(30, 16, 10);
        let mut slots = Vec::new();
        let faults = cache.resolve(&[1, 20, 2, 25, 3], &mut slots).expect("lookups");
        let parts = share_out(faults.len(), want)
            .into_iter()
            .map(|(from, to)| fetch_all(&cache, &faults[from..to], &image, &[]))
            .collect();
        assert_eq!(
            join_parts(parts),
            Err(FetchError::RowEof {
                id: 20,
                got: 325,
                need: 336,
                offset: 0
            })
        );
    }
}

#[test]
fn parts_are_joined_in_order() {
    let row = |id: u64| FetchedRow {
        id,
        slot: id as u32,
        row: vec![id as u8],
        scale: None,
    };
    let fault = |id: u64| FetchError::RowRead {
        id,
        cause: String::from("gone"),
    };
    assert_eq!(join_parts(vec![]), Ok(vec![]));
    assert_eq!(
        join_parts(vec![
            Ok(vec![row(3), row(1)]),
            Ok(vec![]),
            Ok(vec![row(2)])
        ]),
        Ok(vec![row(3), row(1), row(2)])
    );
    assert_eq!(
        join_parts(vec![
            Ok(vec![row(3)]),
            Err(fault(7)),
            Ok(vec![row(2)]),
            Err(fault(8))
        ]),
        Err(fault(7))
    );
}

#[test]
fn a_constant_scale_can_be_put_into_memory_that_was_made_for_it() {
    let mut cache = open(10, 16, 3);
    assert_eq!(cache.scale_dev_va(), Ok(None));
    let room = RowArena::at(vec![0xcc; 20], 0x9000_0000);
    cache.set_constant_scale_over([1, 2, 3, 4], room);
    assert_eq!(cache.scale_dev_va(), Ok(Some(0x9000_0000)));
    for slot in 0..3 {
        assert_eq!(cache.slot_scale(slot), Ok(Some(&[1, 2, 3, 4][..])));
    }
}

#[test]
fn a_batch_is_refused_exactly_if_the_slots_do_not_reach() {
    let image = vec![plain_table(0, 20, 16)];
    let mut slots = Vec::new();
    // Rows 1 and 2 are pinned, row 3 is resident but not pinned. Two slots are
    // left. A pinned row needs none, a resident one needs its own.
    for (ids, fits) in [
        (&[1u64, 2, 1][..], true),
        (&[1, 3, 9, 9, 2], true),
        (&[3, 9, 10], false),
        (&[8, 9, 10], false),
        (&[1, 2, 20], false),
    ] {
        let mut cache = open(20, 16, 4);
        run_batch(&mut cache, &[3], &mut slots, &image, &[]).expect("unpinned");
        cache.end_batch();
        run_batch(&mut cache, &[1, 2], &mut slots, &image, &[]).expect("pinned");
        assert_eq!(cache.resolve(ids, &mut slots).is_ok(), fits, "{ids:?}");
    }
}

#[test]
fn a_batch_can_be_read_exactly_if_its_rows_lie_inside_their_files() {
    // The table ends behind row 5, the scales end behind row 3.
    let image = vec![plain_table(0, 6, 16)];
    let scales: Vec<u8> = (0..4u8).flat_map(|i| [i; 4]).collect();
    for (ids, inside) in [
        (&[0u64, 3, 1][..], true),
        (&[0, 4], false),
        (&[6, 0], false),
        (&[], true),
    ] {
        let mut cache = NgramRowCache::open(true, 10, 16, 5).unwrap_or_else(|e| {
            panic!("{}", e.message());
        });
        let mut slots = Vec::new();
        let r = run_batch(&mut cache, ids, &mut slots, &image, &scales);
        assert_eq!(r.is_ok(), inside, "{ids:?}");
        if inside {
            for (slot, id) in slots.iter().zip(ids) {
                assert_eq!(cache.slot_bytes(*slot), Ok(&[*id as u8 + 1; 16][..]));
                assert_eq!(cache.slot_scale(*slot), Ok(Some(&[*id as u8; 4][..])));
            }
        } else {
            // Nothing stays claimed: every row is to be read again.
            let again = cache.resolve(&ids[..1], &mut slots).expect("lookup");
            assert_eq!(again.len(), 1);
        }
    }
}
