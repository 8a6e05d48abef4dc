//! Blocks, shards, numbers and reports.

use ngram_cache::arena::whole_blocks;
use ngram_cache::block::{align_offset, cover, AlignedBlock, BLOCK};
use ngram_cache::cache::NgramRowCache;
use ngram_cache::error::{CacheError, FetchError};
use ngram_cache::settings::fault_threads;
use ngram_cache::share::{div_ceil, share_out};
use ngram_cache::source::{plan_shard_files, RowSource, Segments};
use ngram_cache::text::{append_number, parse_number};

#[test]
fn aligned_scratch_is_4k_aligned_and_two_blocks() {
    let mut b = AlignedBlock::new();
    let s = b.blocks(2);
    assert_eq!(s.len(), BLOCK * 2);
    assert_eq!(s.as_ptr() as usize % BLOCK, 0);
}

#[test]
fn scratch_keeps_what_was_written_to_it() {
    let mut b = AlignedBlock::new();
    assert!(b.blocks(2).iter().all(|x| *x == 0));
    b.blocks(2)[BLOCK] = 7;
    b.blocks(1)[3] = 9;
    assert_eq!(b.blocks(1).len(), BLOCK);
    assert_eq!(b.blocks(2)[3], 9);
    assert_eq!(b.blocks(2)[BLOCK], 7);
    assert_eq!(b.blocks(0).len(), 0);
}

#[test]
fn aligned_part_starts_at_the_next_boundary() {
    assert_eq!(align_offset(0), 0);
    assert_eq!(align_offset(1), 4095);
    assert_eq!(align_offset(4095), 1);
    assert_eq!(align_offset(4096), 0);
    assert_eq!(align_offset(8200), 4088);
    let mut b = AlignedBlock::aligned_at((0..3 * BLOCK).map(|i| (i / 16) as u8).collect(), 4080);
    assert_eq!(b.blocks(1)[0], 1);
}

#[test]
fn row_wider_than_a_block_is_refused() {
    // A row larger than one block could span three with an unaligned base.
    let msg = match NgramRowCache::open(false, 10, BLOCK + 8, 4) {
        Ok(_) => panic!("expected refusal for oversize row_stride"),
        Err(e) => e.message(),
    };
    assert!(msg.contains("O_DIRECT block"), "{msg}");
}

#[test]
fn empty_geometry_is_refused() {
    for (stride, slots) in [(0usize, 4usize), (16, 0), (0, 0)] {
        match NgramRowCache::open_at(8, false, 10, stride, slots) {
            Ok(_) => panic!("expected refusal for an empty geometry"),
            Err(e) => assert_eq!(
                e,
                CacheError::ZeroGeometry {
                    row_stride: stride,
                    slots
                }
            ),
        }
    }
    // An empty geometry is reported before an oversize row.
    match NgramRowCache::open(true, 10, BLOCK + 1, 0) {
        Ok(_) => panic!("expected refusal"),
        Err(e) => assert_eq!(
            e.message(),
            "NgramRowCache: zero geometry (row_stride=4097, slots=0)"
        ),
    }
    assert!(NgramRowCache::open(false, 10, BLOCK, 1).is_ok());
    assert!(NgramRowCache::geometry_ok(BLOCK, 1024, true));
    assert!(!NgramRowCache::geometry_ok(BLOCK, 0x1_0000_0001, false));
}

/// The seam arithmetic: with a base offset that is only 8-byte aligned
/// (what a safetensors shard gives), rows land at every phase relative to
/// the 4 KiB block, and the covering span must stay within two blocks.
#[test]
fn straddling_rows_are_covered_by_two_blocks() {
    for base in [0u64, 8, 1234568, 4095, 4097] {
        for stride in [256usize, 512, 4096] {
            for id in [0u64, 1, 7, 8, 1023] {
                let byte = base + id * stride as u64;
                let span = cover(byte, stride);
                let block_off = byte - (byte % BLOCK as u64);
                assert_eq!(span.block_off, block_off);
                let within = (byte - block_off) as usize;
                assert_eq!(span.within, within);
                let n = span.nblocks;
                assert!(
                    within + stride <= n * BLOCK,
                    "base={base} stride={stride} id={id} within={within} n={n}"
                );
                assert_eq!(n, if within + stride > BLOCK { 2 } else { 1 });
                assert_eq!(span.need(), within + stride);
            }
        }
    }
}

#[test]
fn cover_takes_one_block_up_to_the_boundary() {
    assert_eq!(cover(3840, 256).nblocks, 1);
    assert_eq!(cover(3841, 256).nblocks, 2);
    assert_eq!(cover(0, 4096).nblocks, 1);
    assert_eq!(cover(1, 4096).nblocks, 2);
    assert_eq!(cover(u64::MAX, 1).block_off, u64::MAX - 4095);
}

/// Shards of a segmented table are not necessarily in one file, and a file may
/// come up again after another.
#[test]
fn shards_may_span_several_files() {
    let a = String::from("/ckpt/model-plefp8-00000.safetensors");
    let b = String::from("/ckpt/model-plefp8-00003.safetensors");
    // 0,1 -> a; 2 -> b; 3 -> a again.
    let shards = vec![
        (a.clone(), 100),
        (a.clone(), 200),
        (b.clone(), 300),
        (a.clone(), 400),
    ];
    let (paths, shard_file) = plan_shard_files(&shards);
    assert_eq!(paths.len(), 2, "two distinct files, deduped");
    assert_eq!(paths[0], a.as_str());
    assert_eq!(paths[1], b.as_str());
    // Shard 2 must resolve to the SECOND file.
    assert_eq!(shard_file, vec![0, 0, 1, 0]);
}

/// The single-file case must stay exactly one descriptor.
#[test]
fn one_file_stays_one_descriptor() {
    let a = String::from("/ckpt/only.safetensors");
    let shards: Vec<_> = (0..128u64).map(|i| (a.clone(), i * 4096)).collect();
    let (paths, shard_file) = plan_shard_files(&shards);
    assert_eq!(paths.len(), 1);
    assert!(shard_file.iter().all(|f| *f == 0));
    assert_eq!(shard_file.len(), 128);
}

#[test]
fn no_shards_need_no_file() {
    let (paths, shard_file) = plan_shard_files(&[]);
    assert!(paths.is_empty());
    assert!(shard_file.is_empty());
}

#[test]
fn rows_are_located_in_their_own_shard() {
    let plain = RowSource {
        base_offset: 1234,
        segments: None,
        row_stride: 160,
        row_scales: false,
    };
    assert_eq!(plain.row_loc(0), (0, 1234));
    assert_eq!(plain.row_loc(7), (0, 1234 + 7 * 160));
    let split = RowSource {
        base_offset: 0,
        segments: Some(Segments {
            bases: vec![100, 50_000, 300],
            rows_per: 64,
            shard_file: vec![0, 0, 1],
        }),
        row_stride: 160,
        row_scales: true,
    };
    assert_eq!(split.row_loc(63), (0, 100 + 63 * 160));
    assert_eq!(split.row_loc(64), (0, 50_000));
    assert_eq!(split.row_loc(191), (1, 300 + 63 * 160));
    assert!(split.can_locate(191));
    assert!(!split.can_locate(192));
    assert!(plain.can_locate(u64::MAX / 160 - 8));
    assert!(!plain.can_locate(u64::MAX / 160));
    assert!(!plain.can_locate(u64::MAX));
}

#[test]
fn a_row_can_be_read_where_its_scale_has_a_place_too() {
    let mut src = RowSource {
        base_offset: 0,
        segments: None,
        row_stride: 1,
        row_scales: false,
    };
    let far = u64::MAX / 4 + 1;
    assert!(src.can_locate(far) && src.can_fetch(far));
    src.row_scales = true;
    // The row has a place, its scale has none.
    assert_eq!(src.row_loc(far), (0, far));
    assert!(src.can_locate(far) && !src.can_fetch(far));
    assert!(src.can_fetch(far - 1));
}

#[test]
fn memory_comes_in_whole_blocks() {
    assert_eq!(whole_blocks(0), 0);
    assert_eq!(whole_blocks(1), BLOCK);
    assert_eq!(whole_blocks(BLOCK), BLOCK);
    assert_eq!(whole_blocks(BLOCK + 1), 2 * BLOCK);
}

#[test]
fn a_table_without_rows_per_shard_has_no_rows() {
    let src = RowSource {
        base_offset: 0,
        segments: Some(Segments {
            bases: vec![0, 8],
            rows_per: 0,
            shard_file: vec![0, 0],
        }),
        row_stride: 16,
        row_scales: false,
    };
    assert!(!src.can_locate(0));
}

#[test]
fn reads_are_shared_out_in_stretches() {
    assert!(share_out(0, 32).is_empty());
    assert_eq!(share_out(1, 32), vec![(0, 1)]);
    assert_eq!(share_out(5, 0), vec![(0, 5)]);
    assert_eq!(share_out(5, 1), vec![(0, 5)]);
    assert_eq!(share_out(5, 2), vec![(0, 3), (3, 5)]);
    assert_eq!(share_out(4, 32), vec![(0, 1), (1, 2), (2, 3), (3, 4)]);
    assert_eq!(share_out(9, 4), vec![(0, 3), (3, 6), (6, 9)]);
    for n in 0..70usize {
        for want in 0..40usize {
            // The same stretches as `chunks` gives.
            let items: Vec<usize> = (0..n).collect();
            let workers = want.max(1).min(n.max(1));
            let chunks: Vec<(usize, usize)> = items
                .chunks(n.div_ceil(workers).max(1))
                .map(|c| (c[0], c[c.len() - 1] + 1))
                .collect();
            assert_eq!(share_out(n, want), chunks);
            assert!(chunks.len() <= want.max(1));
        }
    }
}

#[test]
fn quotients_are_rounded_up() {
    assert_eq!(div_ceil(0, 4096), 0);
    assert_eq!(div_ceil(1, 4096), 1);
    assert_eq!(div_ceil(4096, 4096), 1);
    assert_eq!(div_ceil(4097, 4096), 2);
    assert_eq!(div_ceil(usize::MAX, 1), usize::MAX);
    assert_eq!(div_ceil(usize::MAX, 2), usize::MAX / 2 + 1);
}

#[test]
fn numbers_are_read_as_the_standard_library_reads_them() {
    for text in [
        "0", "1", "32", "+7", "007", "", "+", "-1", "++1", " 1", "1 ", "1_000", "0x10", "1.0",
        "18446744073709551615", "18446744073709551616", "99999999999999999999999", "abc", "\u{661}",
    ] {
        assert_eq!(parse_number(text), text.parse::<usize>().ok(), "{text:?}");
    }
}

#[test]
fn numbers_are_written_in_decimal() {
    for n in [0u64, 7, 10, 99, 100, 4096, 250001192, u64::MAX] {
        let mut text = String::from("n=");
        append_number(&mut text, n);
        assert_eq!(text, format!("n={n}"));
    }
    let mut text = String::new();
    append_number(&mut text, 1048576);
    assert_eq!(parse_number(&text), Some(1048576));
}

#[test]
fn fault_threads_fall_back_to_the_default() {
    assert_eq!(fault_threads(None), 32);
    assert_eq!(fault_threads(Some("8")), 8);
    assert_eq!(fault_threads(Some("0")), 0);
    assert_eq!(fault_threads(Some("1")), 1);
    assert_eq!(fault_threads(Some("many")), 32);
    assert_eq!(fault_threads(Some("")), 32);
}

#[test]
fn reports_say_what_went_wrong() {
    assert_eq!(
        CacheError::RowTooWide { row_stride: 4104 }.message(),
        "NgramRowCache: row_stride 4104 exceeds the 4096-byte O_DIRECT block; a row would span \
         more than the two blocks the seam-handling fetch reads"
    );
    assert_eq!(
        CacheError::RowOutOfRange {
            id: 12,
            rows_total: 10
        }
        .message(),
        "NgramRowCache: row id 12 >= table rows 10 (hash/table mismatch)"
    );
    assert_eq!(
        CacheError::AllPinned { slots: 4 }.message(),
        "NgramRowCache: every one of 4 slots is pinned by the batch in flight \u{2014} raise the \
         cache size or lower max-prefill-tokens"
    );
    assert_eq!(
        CacheError::SlotOutOfRange { slot: 9 }.message(),
        "slot 9 out of range"
    );
    let eof = FetchError::RowEof {
        id: 250001192,
        got: 1659,
        need: 1700,
        offset: 8192,
    };
    assert_eq!(
        CacheError::Fetch(eof).message(),
        "NgramRowCache: read row 250001192: EOF after 1659 of the 1700 bytes the row needs at \
         offset 8192"
    );
    assert_eq!(
        FetchError::ScaleEof {
            id: 3,
            got: 12,
            offset: 0
        }
        .message(),
        "NgramRowCache: read scale 3: EOF after 12 bytes at offset 0"
    );
    assert_eq!(
        FetchError::RowRead {
            id: 3,
            cause: String::from("gone")
        }
        .message(),
        "NgramRowCache: read row 3: gone"
    );
    assert_eq!(
        FetchError::ScaleRead {
            id: 3,
            cause: String::from("gone")
        }
        .message(),
        "NgramRowCache: read scale 3: gone"
    );
}
