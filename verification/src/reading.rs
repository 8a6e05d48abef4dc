//! What comes of reading rows from files, by however many workers.

use crate::block::BLOCK;
use crate::error::FetchError;
use crate::fetch::FetchStage;
use crate::fetch::FetchedRow;
use crate::fetch::RowBytes;
use crate::fetch::RowFetch;
use crate::fetch::SCALE;
use crate::laws::a_failed_batch_leaves_no_wrong_row;
use crate::laws::carries;
use crate::laws::reported_reads_are_claimed;
use crate::laws::resolved_slots_hold_their_rows;
use crate::laws::table_of;
use crate::residency::reads_row;
use crate::residency::Fault;
use crate::share::bytes_of;
use crate::share::joined;
use crate::share::parts_come_to_the_whole;
use crate::share::read_by_parts;
use crate::share::read_in_order;
use crate::share::splits;
use crate::share::stretches_end_in_order;
use crate::source::file_names;
use crate::source::in_first_use_order;
use crate::source::RowSource;
use crate::view::CacheView;
use vstd::prelude::*;

verus! {

// ---- where rows come from ----------------------------------------------------
/// A row of a split table lies in the file of its own shard, at its place behind
/// that shard's own offset.
pub proof fn a_split_row_is_in_its_shard(
    src: RowSource,
    shards: Seq<(String, u64)>,
    rows_per: u64,
    id: u64,
)
    requires
        src.is_split(shards, rows_per),
        id < shards.len() * rows_per,
    ensures
        ({
            let shard = id as int / rows_per as int;
            &&& 0 <= shard < shards.len()
            &&& in_first_use_order(file_names(shards))[src.file_of(id)] == shards[shard].0@
            &&& src.byte_of(id) == shards[shard].1 + (id as int % rows_per as int) * src.row_stride
        }),
{
    let seg = src.segments->0;
    seg.shards_number_the_rows(id);
    let shard = seg.shard_of(id);
    assert(seg.bases@[shard] == shards[shard].1);
    assert(seg.shard_file@[shard] < in_first_use_order(file_names(shards)).len());
}

/// How many bytes a read of `room` bytes from `offset` on brings of a file of
/// `len` bytes.
pub open spec fn comes(len: int, offset: int, room: int) -> int {
    if offset + room <= len {
        room
    } else if offset < len {
        len - offset
    } else {
        0
    }
}

/// What comes of reading one row of `src` from `files`, and its scale from
/// `scales`: the table's bytes, or the end of a file inside the row or the scale.
pub open spec fn read_of(
    src: RowSource,
    files: Seq<Seq<u8>>,
    scales: Seq<u8>,
    f: Fault,
) -> Result<RowBytes, FetchError> {
    let table = table_of(src, files, scales);
    let byte = src.byte_of(f.id);
    let within = byte % BLOCK as int;
    let need = within + src.row_stride;
    let room = if need <= BLOCK {
        BLOCK as int
    } else {
        2 * BLOCK
    };
    let came = comes(files[src.file_of(f.id)].len() as int, byte - within, room);
    let scale_within = (f.id * 4) % BLOCK as int;
    let scale_came = comes(scales.len() as int, f.id * 4 - scale_within, BLOCK as int);
    if came < need {
        Err(
            FetchError::RowEof {
                id: f.id,
                got: came as usize,
                need: need as usize,
                offset: (byte - within) as u64,
            },
        )
    } else if src.row_scales && scale_came < scale_within + SCALE {
        Err(
            FetchError::ScaleEof {
                id: f.id,
                got: scale_came as usize,
                offset: (f.id * 4 - scale_within) as u64,
            },
        )
    } else {
        Ok(
            RowBytes {
                id: f.id,
                slot: f.slot,
                row: (table.row)(f.id),
                scale: if src.row_scales {
                    Some((table.scale)(f.id))
                } else {
                    None
                },
            },
        )
    }
}

/// What comes of reading a row block by block goes by the files alone, whoever
/// reads it and whatever was in the blocks before: it ends in the same report, or
/// with the table's row and the table's scale.
pub proof fn a_read_goes_by_the_files(
    src: RowSource,
    files: Seq<Seq<u8>>,
    scales: Seq<u8>,
    begun: RowFetch,
    row_in: RowFetch,
    done: RowFetch,
    f: FetchedRow,
    row_block: Seq<u8>,
    row_got: int,
    scale_block: Seq<u8>,
    scale_got: int,
)
    requires
        0 < src.row_stride <= BLOCK,
        // The row was asked for.
        begun.wf(),
        begun.fetches(src, begun.id, begun.slot),
        begun.stage == FetchStage::Row,
        row_block.len() == begun.row_span.nblocks * BLOCK,
        crate::fetch::read_up_to(
            files[src.file_of(begun.id)],
            begun.row_span.block_off as int,
            row_block,
            row_got,
        ),
        // If it came, its scale was asked for, if it has one.
        begun.shortfall(row_got) is None ==> begun.advances_to(row_block, row_in) && row_in.wf(),
        begun.shortfall(row_got) is None && src.row_scales ==> {
            &&& scale_block.len() == BLOCK
            &&& crate::fetch::read_up_to(
                scales,
                (row_in.scale_span->0).block_off as int,
                scale_block,
                scale_got,
            )
        },
        // If that came too, the row is complete.
        if src.row_scales {
            row_in.shortfall(scale_got) is None ==> row_in.advances_to(scale_block, done)
        } else {
            done == row_in
        },
        f.id == done.id,
        f.slot == done.slot,
        f.row == done.row,
        f.scale == if done.scale_span is Some {
            Some(done.scale)
        } else {
            None
        },
    ensures
        ({
            let r = read_of(src, files, scales, Fault { id: begun.id, slot: begun.slot });
            match begun.shortfall(row_got) {
                Some(e) => r == Err::<RowBytes, FetchError>(e),
                None => if src.row_scales && row_in.shortfall(scale_got) is Some {
                    r == Err::<RowBytes, FetchError>(row_in.shortfall(scale_got)->0)
                } else {
                    &&& r == Ok::<RowBytes, FetchError>(f@)
                    &&& done.stage == FetchStage::Done
                    &&& carries(table_of(src, files, scales), seq![f], src.row_scales)
                },
            }
        }),
{
    let id = begun.id;
    let byte = src.byte_of(id);
    let span = begun.row_span;
    let file = files[src.file_of(id)];
    crate::fetch::row_arrives_as_it_is(src, begun, row_in, file, row_block, row_got);
    assert(row_got == comes(file.len() as int, span.block_off as int, row_block.len() as int));
    if begun.shortfall(row_got) is None && src.row_scales {
        let s = row_in.scale_span->0;
        crate::fetch::scale_arrives_as_it_is(src, row_in, done, scales, scale_block, scale_got);
        assert(scale_got == comes(scales.len() as int, s.block_off as int, BLOCK as int));
    }
}

// ---- reading with any number of workers --------------------------------------
/// Rows with the same bytes leave the same memory behind.
proof fn landing_goes_by_the_bytes(c: CacheView, a: Seq<FetchedRow>, b: Seq<FetchedRow>)
    requires
        bytes_of(Ok(a)) == bytes_of(Ok(b)),
    ensures
        c.landed(a) == c.landed(b),
    decreases a.len(),
{
    let bytes = bytes_of(Ok(a))->Ok_0;
    assert(bytes == bytes_of(Ok(b))->Ok_0);
    assert(a.len() == b.len());
    if a.len() > 0 {
        assert(bytes_of(Ok(a.drop_last()))->Ok_0 =~= bytes.drop_last());
        assert(bytes_of(Ok(b.drop_last()))->Ok_0 =~= bytes.drop_last());
        landing_goes_by_the_bytes(c, a.drop_last(), b.drop_last());
        assert(bytes[a.len() - 1] == a.last()@);
        assert(bytes[a.len() - 1] == b.last()@);
    }
}

/// However a batch's reads are shared out, the same comes of them: the rows are
/// those of reading one after the other, and so is the error where a read fails,
/// and the slots end up with the same bytes. `read` is what comes of each read, as
/// [`read_of`] has it for the files of a table.
pub proof fn any_number_of_workers_reads_the_same(
    c: CacheView,
    read: spec_fn(Fault) -> Result<RowBytes, FetchError>,
    faults: Seq<Fault>,
    parts: Seq<(usize, usize)>,
    got: Seq<Result<Seq<FetchedRow>, FetchError>>,
    other_parts: Seq<(usize, usize)>,
    other_got: Seq<Result<Seq<FetchedRow>, FetchError>>,
)
    requires
        splits(parts, faults.len() as int),
        read_by_parts(read, faults, parts, got),
        splits(other_parts, faults.len() as int),
        read_by_parts(read, faults, other_parts, other_got),
    ensures
        bytes_of(joined(got)) == read_in_order(read, faults),
        match (joined(got), joined(other_got)) {
            (Ok(rows), Ok(other_rows)) => {
                &&& bytes_of(Ok(rows)) == bytes_of(Ok(other_rows))
                &&& c.landed(rows) == c.landed(other_rows)
            },
            (Err(e), Err(other)) => e == other,
            _ => false,
        },
{
    parts_come_to_the_whole(read, faults, parts, got);
    parts_come_to_the_whole(read, faults, other_parts, other_got);
    if joined(got) is Ok {
        landing_goes_by_the_bytes(c, joined(got)->Ok_0, joined(other_got)->Ok_0);
    }
}

/// Where every worker brings the rows of its own part, the parts put together
/// are the rows of the batch.
pub proof fn joined_parts_answer_the_batch(
    c: CacheView,
    faults: Seq<Fault>,
    parts: Seq<(usize, usize)>,
    got: Seq<Result<Seq<FetchedRow>, FetchError>>,
)
    requires
        splits(parts, faults.len() as int),
        got.len() == parts.len(),
        forall|i: int|
            0 <= i < parts.len() && (#[trigger] got[i]) is Ok ==> c.answered(
                faults.subrange(parts[i].0 as int, parts[i].1 as int),
                got[i]->Ok_0,
            ),
    ensures
        joined(got) matches Ok(rows) ==> c.answered(faults, rows),
        joined(got) is Ok <==> forall|i: int| 0 <= i < got.len() ==> (#[trigger] got[i]) is Ok,
    decreases parts.len(),
{
    if parts.len() > 0 {
        let last = parts.len() - 1;
        let from = parts[last].0 as int;
        let head = faults.take(from);
        let init = parts.drop_last();
        let before = got.drop_last();
        assert(splits(init, from)) by {
            if last > 0 {
                assert(parts[last - 1].1 == parts[last].0);
            }
        }
        assert forall|i: int| 0 <= i < init.len() && (#[trigger] before[i]) is Ok implies c.answered(
            head.subrange(init[i].0 as int, init[i].1 as int),
            before[i]->Ok_0,
        ) by {
            stretches_end_in_order(parts, faults.len() as int, i);
            assert(got[i] is Ok);
            assert(head.subrange(init[i].0 as int, init[i].1 as int) =~= faults.subrange(
                parts[i].0 as int,
                parts[i].1 as int,
            ));
        }
        joined_parts_answer_the_batch(c, head, init, before);
        assert(forall|i: int| 0 <= i < before.len() ==> #[trigger] before[i] == got[i]);
        if joined(got) is Ok {
            let a = joined(before)->Ok_0;
            let b = got[last]->Ok_0;
            let tail = faults.subrange(from, parts[last].1 as int);
            assert(c.answered(tail, b));
            assert forall|i: int| 0 <= i < got.len() implies (#[trigger] got[i]) is Ok by {
                if i < last {
                    assert(before[i] is Ok);
                }
            }
            assert forall|i: int| 0 <= i < (a + b).len() implies {
                &&& (#[trigger] (a + b)[i]).id == faults[i].id
                &&& (a + b)[i].slot == faults[i].slot
                &&& (a + b)[i].slot < c.n()
                &&& (a + b)[i].row@.len() == c.stride()
                &&& (a + b)[i].scale is Some <==> c.source.row_scales
                &&& (a + b)[i].scale matches Some(m) ==> m@.len() == SCALE
            } by {
                if i < a.len() {
                    assert((a + b)[i] == a[i]);
                    assert(head[i] == faults[i]);
                } else {
                    assert((a + b)[i] == b[i - a.len()]);
                    assert(tail[i - from] == faults[i]);
                }
            }
        } else if forall|i: int| 0 <= i < got.len() ==> (#[trigger] got[i]) is Ok {
            assert forall|i: int| 0 <= i < before.len() implies (#[trigger] before[i]) is Ok by {
                assert(got[i] is Ok);
            }
            assert(got[last] is Ok);
        }
    }
}

// ---- a batch that is read from its files -------------------------------------
/// Row `id` lies inside its file, and its scale inside the file of the scales
/// where rows have scales.
pub open spec fn lies_inside(
    src: RowSource,
    files: Seq<Seq<u8>>,
    scales: Seq<u8>,
    id: u64,
) -> bool {
    &&& src.byte_of(id) + src.row_stride <= files[src.file_of(id)].len()
    &&& src.row_scales ==> id * SCALE + SCALE <= scales.len()
}

/// The reads of a table's rows from its files.
pub open spec fn reads_of(src: RowSource, files: Seq<Seq<u8>>, scales: Seq<u8>) -> spec_fn(
    Fault,
) -> Result<RowBytes, FetchError> {
    |f: Fault| read_of(src, files, scales, f)
}

/// A read brings the row exactly if it lies inside its files.
proof fn a_read_succeeds_inside_the_files(
    src: RowSource,
    files: Seq<Seq<u8>>,
    scales: Seq<u8>,
    f: Fault,
)
    requires
        0 < src.row_stride <= BLOCK,
        0 <= src.byte_of(f.id),
    ensures
        read_of(src, files, scales, f) is Ok <==> lies_inside(src, files, scales, f.id),
        read_of(src, files, scales, f) matches Ok(r) ==> {
            let table = table_of(src, files, scales);
            &&& r.id == f.id
            &&& r.slot == f.slot
            &&& r.row == (table.row)(f.id)
            &&& r.row.len() == src.row_stride
            &&& r.scale is Some <==> src.row_scales
            &&& r.scale matches Some(b) ==> b == (table.scale)(f.id) && b.len() == SCALE
        },
{
    crate::fetch::scale_stays_in_its_block(f.id as int);
}

/// Reading one after the other brings all rows exactly if each read brings its
/// row, and then each row is that of its read.
proof fn reading_in_order_brings_each(
    read: spec_fn(Fault) -> Result<RowBytes, FetchError>,
    faults: Seq<Fault>,
)
    ensures
        read_in_order(read, faults) is Ok <==> forall|i: int|
            0 <= i < faults.len() ==> read(#[trigger] faults[i]) is Ok,
        read_in_order(read, faults) matches Ok(rows) ==> {
            &&& rows.len() == faults.len()
            &&& forall|i: int|
                0 <= i < faults.len() ==> read(faults[i]) == Ok::<RowBytes, FetchError>(
                    #[trigger] rows[i],
                )
        },
    decreases faults.len(),
{
    if faults.len() > 0 {
        let init = faults.drop_last();
        reading_in_order_brings_each(read, init);
        assert forall|i: int| 0 <= i < init.len() implies #[trigger] init[i] == faults[i] by {}
        if read_in_order(read, faults) is Ok {
            assert forall|i: int| 0 <= i < faults.len() implies read(#[trigger] faults[i]) is Ok by {
                if i < init.len() {
                    assert(read(init[i]) is Ok);
                }
            }
        } else if forall|i: int| 0 <= i < faults.len() ==> read(#[trigger] faults[i]) is Ok {
            assert forall|i: int| 0 <= i < init.len() implies read(#[trigger] init[i]) is Ok by {
                assert(read(faults[i]) is Ok);
            }
            assert(read(faults[faults.len() - 1]) is Ok);
        }
    }
}

/// A row of a table does not lie before its file.
proof fn rows_lie_behind_the_start(src: RowSource, rows_total: int, id: u64)
    requires
        src.wf(rows_total),
        id < rows_total,
    ensures
        0 <= src.byte_of(id),
{
    match src.segments {
        None => {
            vstd::arithmetic::mul::lemma_mul_nonnegative(id as int, src.row_stride as int);
        },
        Some(seg) => {
            seg.shards_number_the_rows(id);
            vstd::arithmetic::mul::lemma_mul_nonnegative(seg.local_of(id), src.row_stride as int);
        },
    }
}

/// A batch's reads succeed, however they are shared out, exactly if every row
/// lies inside its file and so does every scale. What then comes of them are the
/// rows that were to be read, one for one, with the table's bytes.
pub proof fn a_batch_is_read_from_its_files(
    c: CacheView,
    files: Seq<Seq<u8>>,
    scales: Seq<u8>,
    faults: Seq<Fault>,
    parts: Seq<(usize, usize)>,
    got: Seq<Result<Seq<FetchedRow>, FetchError>>,
)
    requires
        c.inv(),
        c.res.claimed(faults),
        splits(parts, faults.len() as int),
        read_by_parts(reads_of(c.source, files, scales), faults, parts, got),
    ensures
        joined(got) is Ok <==> forall|i: int|
            0 <= i < faults.len() ==> lies_inside(
                c.source,
                files,
                scales,
                (#[trigger] faults[i]).id,
            ),
        joined(got) matches Ok(rows) ==> {
            &&& c.answered(faults, rows)
            &&& carries(table_of(c.source, files, scales), rows, c.source.row_scales)
        },
{
    let src = c.source;
    let read = reads_of(src, files, scales);
    parts_come_to_the_whole(read, faults, parts, got);
    reading_in_order_brings_each(read, faults);
    assert forall|i: int| 0 <= i < faults.len() implies (read(#[trigger] faults[i]) is Ok
        <==> lies_inside(src, files, scales, faults[i].id)) by {
        rows_lie_behind_the_start(src, c.res.rows_total as int, faults[i].id);
        a_read_succeeds_inside_the_files(src, files, scales, faults[i]);
    }
    if joined(got) is Ok {
        let rows = joined(got)->Ok_0;
        let bytes = bytes_of(joined(got))->Ok_0;
        assert forall|i: int| 0 <= i < rows.len() implies {
            &&& read(faults[i]) == Ok::<RowBytes, FetchError>((#[trigger] rows[i])@)
            &&& 0 <= src.byte_of(faults[i].id)
            &&& faults[i].slot < c.n()
        } by {
            assert(bytes[i] == rows[i]@);
            assert(c.res.map.contains_key(faults[i].id));
            rows_lie_behind_the_start(src, c.res.rows_total as int, faults[i].id);
        }
        assert forall|i: int| 0 <= i < rows.len() implies {
            &&& (#[trigger] rows[i]).id == faults[i].id
            &&& rows[i].slot == faults[i].slot
            &&& rows[i].row@.len() == c.stride()
            &&& rows[i].scale is Some <==> src.row_scales
            &&& rows[i].scale matches Some(b) ==> b@.len() == SCALE
            &&& rows[i].row@ == (table_of(src, files, scales).row)(rows[i].id)
            &&& src.row_scales ==> (rows[i].scale->0)@ == (table_of(src, files, scales).scale)(
                rows[i].id,
            )
        } by {
            a_read_succeeds_inside_the_files(src, files, scales, faults[i]);
        }
    }
}

/// From lookups to bytes: a batch that is served, and whose rows that were not
/// resident lie inside their files, ends with the table's row in every slot that
/// it handed out, however its reads were shared out. A batch with a row that does
/// not lie inside its file ends with an error and leaves no wrong row.
pub proof fn a_batch_ends_with_the_tables_rows(
    c: CacheView,
    files: Seq<Seq<u8>>,
    scales: Seq<u8>,
    ids: Seq<u64>,
    parts: Seq<(usize, usize)>,
    got: Seq<Result<Seq<FetchedRow>, FetchError>>,
)
    requires
        c.inv(),
        c.faithful(table_of(c.source, files, scales), Seq::empty()),
        c.res.decide(ids).refusal is None,
        splits(parts, c.res.decide(ids).faults.len() as int),
        read_by_parts(
            reads_of(c.source, files, scales),
            c.res.decide(ids).faults,
            parts,
            got,
        ),
    ensures
        ({
            let table = table_of(c.source, files, scales);
            let d = c.res.decide(ids);
            match joined(got) {
                Ok(rows) => {
                    let after = c.with(d.res).landed(rows);
                    &&& forall|i: int|
                        0 <= i < ids.len() ==> after.holds(
                            table,
                            (#[trigger] d.slots[i]) as int,
                            ids[i],
                        )
                    &&& after.faithful(table, Seq::empty())
                },
                Err(_) => {
                    &&& exists|i: int|
                        0 <= i < d.faults.len() && !lies_inside(
                            c.source,
                            files,
                            scales,
                            (#[trigger] d.faults[i]).id,
                        )
                    &&& c.with(d.res.released(d.faults)).faithful(table, Seq::empty())
                },
            }
        }),
{
    let table = table_of(c.source, files, scales);
    let d = c.res.decide(ids);
    let none = Seq::<Fault>::empty();
    c.res.decision_follows(ids);
    reported_reads_are_claimed(c.res, ids);
    a_batch_is_read_from_its_files(c.with(d.res), files, scales, d.faults, parts, got);
    match joined(got) {
        Ok(rows) => {
            resolved_slots_hold_their_rows(c, table, none, ids, rows);
            assert forall|i: int| 0 <= i < ids.len() implies c.with(d.res).landed(rows).holds(
                table,
                (#[trigger] d.slots[i]) as int,
                ids[i],
            ) by {
                assert(!reads_row(none, ids[i]));
            }
        },
        Err(_) => {
            a_failed_batch_leaves_no_wrong_row(c, table, none, ids);
        },
    }
}

/// The bytes themselves, for a table in one file: once a batch was served and
/// its rows were read, byte `b` of every slot that it handed out is byte
/// `base_offset + id * row_stride + b` of the file, and byte `b` of the slot's
/// scale is byte `id * 4 + b` of the file of the scales.
pub proof fn a_slot_has_the_files_bytes(
    c: CacheView,
    file: Seq<u8>,
    scales: Seq<u8>,
    ids: Seq<u64>,
    parts: Seq<(usize, usize)>,
    got: Seq<Result<Seq<FetchedRow>, FetchError>>,
    rows: Seq<FetchedRow>,
    i: int,
    b: int,
)
    requires
        c.inv(),
        c.source.segments is None,
        c.faithful(table_of(c.source, seq![file], scales), Seq::empty()),
        c.res.decide(ids).refusal is None,
        splits(parts, c.res.decide(ids).faults.len() as int),
        read_by_parts(
            reads_of(c.source, seq![file], scales),
            c.res.decide(ids).faults,
            parts,
            got,
        ),
        joined(got) == Ok::<Seq<FetchedRow>, FetchError>(rows),
        0 <= i < ids.len(),
    ensures
        ({
            let w = c.source.row_stride as int;
            let from = c.source.base_offset + ids[i] * w;
            let slot = c.res.decide(ids).slots[i] as int;
            let after = c.with(c.res.decide(ids).res).landed(rows);
            &&& 0 <= b < w && from + w <= file.len() ==> after.arena[slot * w + b] == file[from + b]
            &&& c.source.row_scales && 0 <= b < 4 && ids[i] * 4 + 4 <= scales.len() ==> (
            after.scales->0)[slot * 4 + b] == scales[ids[i] * 4 + b]
        }),
{
    let files = seq![file];
    let d = c.res.decide(ids);
    let w = c.source.row_stride as int;
    let from = c.source.base_offset + ids[i] * w;
    let slot = d.slots[i] as int;
    let mid = c.with(d.res);
    let after = mid.landed(rows);
    a_batch_ends_with_the_tables_rows(c, files, scales, ids, parts, got);
    c.res.decision_follows(ids);
    mid.landing_keeps_inv(rows);
    assert(d.res.map.contains_key(ids[i]));
    assert(after.holds(table_of(c.source, files, scales), d.slots[i] as int, ids[i]));
    crate::view::slots_are_disjoint(slot, slot, c.n(), w);
    crate::view::slots_are_disjoint(slot, slot, c.n(), 4);
    vstd::arithmetic::mul::lemma_mul_nonnegative(ids[i] as int, w);
    if 0 <= b < w && from + w <= file.len() {
        assert(after.row_bytes(slot)[b] == after.arena[slot * w + b]);
        assert(after.row_bytes(slot)[b] == file.subrange(from, from + w)[b]);
    }
    if c.source.row_scales && 0 <= b < 4 && ids[i] * 4 + 4 <= scales.len() {
        assert(after.scale_bytes(slot)[b] == (after.scales->0)[slot * 4 + b]);
        assert(after.scale_bytes(slot)[b] == scales.subrange(ids[i] * 4, ids[i] * 4 + 4)[b]);
    }
}

} // verus!
