//! What the library promises across calls.

use crate::cache::NgramRowCache;
use crate::error::CacheError;
use crate::fetch::FetchedRow;
use crate::fetch::SCALE;
use crate::lookups::pinned_rows_stay;
use crate::residency::reads_row;
use crate::residency::Fault;
use crate::residency::Residency;
use crate::residency::EMPTY;
use crate::source::RowSource;
use crate::view::slots_are_disjoint;
use crate::view::CacheView;
use crate::view::Table;
use vstd::prelude::*;

verus! {

/// The table that `files`, and the scales in `scales`, hold for `src`.
pub open spec fn table_of(src: RowSource, files: Seq<Seq<u8>>, scales: Seq<u8>) -> Table {
    Table {
        row: |id: u64|
            files[src.file_of(id)].subrange(src.byte_of(id), src.byte_of(id) + src.row_stride),
        scale: |id: u64| scales.subrange(id * SCALE, id * SCALE + SCALE),
    }
}

/// `rows` have the table's bytes, and its scales where `row_scales`.
pub open spec fn carries(table: Table, rows: Seq<FetchedRow>, row_scales: bool) -> bool {
    forall|i: int|
        0 <= i < rows.len() ==> {
            &&& (#[trigger] rows[i]).row@ == (table.row)(rows[i].id)
            &&& row_scales ==> (rows[i].scale->0)@ == (table.scale)(rows[i].id)
        }
}

// ---- no wrong row is ever resident -------------------------------------------
/// A cache that was just opened, over memory of its own or over memory that was
/// made for it, claims nothing.
pub proof fn a_fresh_cache_is_faithful(c: CacheView, table: Table, owed: Seq<Fault>)
    requires
        c.res == Residency::fresh(c.res.rows_total, c.res.slot_row.len()),
    ensures
        c.faithful(table, owed),
{
}

/// A batch of lookups leaves every resident row with the table's bytes, but for
/// the rows that are still to be read. This holds of a refused batch too, before
/// its claims are withdrawn.
pub proof fn lookups_keep_faith(c: CacheView, table: Table, owed: Seq<Fault>, ids: Seq<u64>)
    requires
        c.inv(),
        c.faithful(table, owed),
    ensures
        c.with(c.res.decide(ids).res).faithful(table, owed + c.res.decide(ids).faults),
{
    let d = c.res.decide(ids);
    let after = c.with(d.res);
    let all = owed + d.faults;
    c.res.decision_follows(ids);
    assert forall|id: u64| #[trigger]
        after.res.map.contains_key(id) && !reads_row(all, id) implies after.holds(
        table,
        after.res.map[id] as int,
        id,
    ) by {
        if reads_row(owed, id) {
            let i = choose|i: int| 0 <= i < owed.len() && (#[trigger] owed[i]).id == id;
            assert(all[i].id == id);
        }
        if reads_row(d.faults, id) {
            let i = choose|i: int| 0 <= i < d.faults.len() && (#[trigger] d.faults[i]).id == id;
            assert(all[owed.len() + i].id == id);
        }
        assert(c.res.map.contains_key(id));
        assert(c.holds(table, c.res.map[id] as int, id));
    }
}

/// The reads that a batch reports are claims that stand.
pub proof fn reported_reads_are_claimed(res: Residency, ids: Seq<u64>)
    requires
        res.inv(),
    ensures
        res.decide(ids).res.claimed(res.decide(ids).faults),
{
    res.decision_follows(ids);
}

/// Once the claims of reads that never landed are withdrawn, nothing is owed for
/// them any more: none of their rows is resident.
pub proof fn withdrawn_reads_are_not_owed(
    c: CacheView,
    table: Table,
    owed: Seq<Fault>,
    faults: Seq<Fault>,
)
    requires
        c.inv(),
        c.res.claimed(faults),
        c.faithful(table, owed + faults),
    ensures
        ({
            let after = c.with(c.res.released(faults));
            &&& after.inv()
            &&& after.faithful(table, owed)
            &&& forall|id: u64| reads_row(faults, id) ==> !#[trigger] after.res.map.contains_key(id)
        }),
{
    let after = c.with(c.res.released(faults));
    let all = owed + faults;
    c.res.release_keeps_inv(faults);
    assert forall|id: u64| reads_row(faults, id) implies !#[trigger] after.res.map.contains_key(
        id,
    ) by {
        let i = choose|i: int| 0 <= i < faults.len() && (#[trigger] faults[i]).id == id;
        assert(c.res.still_maps(faults, id));
    }
    assert forall|id: u64| #[trigger]
        after.res.map.contains_key(id) && !reads_row(owed, id) implies after.holds(
        table,
        after.res.map[id] as int,
        id,
    ) by {
        assert(c.res.map.contains_key(id));
        if reads_row(all, id) {
            either_reads(owed, faults, id);
        }
        assert(c.holds(table, c.res.map[id] as int, id));
    }
}

/// A row that two lists of reads have between them is in one of the two.
proof fn either_reads(a: Seq<Fault>, b: Seq<Fault>, id: u64)
    requires
        reads_row(a + b, id),
    ensures
        reads_row(a, id) || reads_row(b, id),
{
    let all = a + b;
    let i = choose|i: int| 0 <= i < all.len() && (#[trigger] all[i]).id == id;
    if i < a.len() {
        assert(a[i].id == id);
    } else {
        assert(b[i - a.len()].id == id);
    }
}

/// A batch that fails leaves every resident row with the table's bytes: no row
/// stays claimed whose bytes never landed. This holds whether the batch named a
/// row that the table does not have, ran out of slots, or was served and then
/// had a read that failed.
pub proof fn a_failed_batch_leaves_no_wrong_row(
    c: CacheView,
    table: Table,
    owed: Seq<Fault>,
    ids: Seq<u64>,
)
    requires
        c.inv(),
        c.faithful(table, owed),
    ensures
        ({
            let d = c.res.decide(ids);
            let after = c.with(d.res.released(d.faults));
            &&& after.inv()
            &&& after.faithful(table, owed)
            &&& forall|id: u64| reads_row(d.faults, id) ==> !#[trigger] after.res.map.contains_key(id)
        }),
{
    let d = c.res.decide(ids);
    c.res.decision_follows(ids);
    reported_reads_are_claimed(c.res, ids);
    lookups_keep_faith(c, table, owed, ids);
    withdrawn_reads_are_not_owed(c.with(d.res), table, owed, d.faults);
}

/// Putting a row into its slot leaves the other slots alone.
proof fn landing_is_local(c: CacheView, r: FetchedRow, s: int)
    requires
        c.inv(),
        0 <= s < c.n(),
        r.slot < c.n(),
        r.row@.len() == c.stride(),
        r.scale matches Some(b) ==> c.scales is Some && b@.len() == SCALE,
    ensures
        s != r.slot ==> {
            &&& c.after_landing(r).row_bytes(s) == c.row_bytes(s)
            &&& c.scales is Some ==> c.after_landing(r).scale_bytes(s) == c.scale_bytes(s)
        },
        s == r.slot ==> {
            &&& c.after_landing(r).row_bytes(s) == r.row@
            &&& r.scale matches Some(b) ==> c.after_landing(r).scale_bytes(s) == b@
        },
{
    let after = c.after_landing(r);
    slots_are_disjoint(s, r.slot as int, c.n(), c.stride());
    slots_are_disjoint(r.slot as int, s, c.n(), c.stride());
    slots_are_disjoint(s, r.slot as int, c.n(), SCALE as int);
    slots_are_disjoint(r.slot as int, s, c.n(), SCALE as int);
    if s != r.slot {
        assert(after.row_bytes(s) =~= c.row_bytes(s));
        if c.scales is Some {
            assert(after.scale_bytes(s) =~= c.scale_bytes(s));
        }
    } else {
        assert(after.row_bytes(s) =~= r.row@);
        if r.scale is Some {
            assert(after.scale_bytes(s) =~= (r.scale->0)@);
        }
    }
}

/// Each row that has been put into a slot of its own is there, and the slots
/// that got none are as they were.
proof fn landed_rows_are_there(c: CacheView, faults: Seq<Fault>, rows: Seq<FetchedRow>, s: int)
    requires
        c.inv(),
        c.answered(faults, rows),
        forall|i: int, j: int|
            0 <= i < j < faults.len() ==> (#[trigger] faults[i]).slot != (#[trigger] faults[j]).slot,
        0 <= s < c.n(),
    ensures
        forall|i: int|
            0 <= i < rows.len() && (#[trigger] rows[i]).slot == s ==> {
                &&& c.landed(rows).row_bytes(s) == rows[i].row@
                &&& c.source.row_scales ==> c.landed(rows).scale_bytes(s) == (rows[i].scale->0)@
            },
        (forall|i: int| 0 <= i < rows.len() ==> (#[trigger] rows[i]).slot != s) ==> {
            &&& c.landed(rows).row_bytes(s) == c.row_bytes(s)
            &&& c.scales is Some ==> c.landed(rows).scale_bytes(s) == c.scale_bytes(s)
        },
    decreases rows.len(),
{
    if rows.len() > 0 {
        let init = rows.drop_last();
        let last = rows.last();
        let finit = faults.drop_last();
        assert(c.answered(finit, init));
        landed_rows_are_there(c, finit, init, s);
        c.landing_keeps_inv(init);
        assert(last == rows[rows.len() - 1]);
        landing_is_local(c.landed(init), last, s);
        assert forall|i: int| 0 <= i < rows.len() && (#[trigger] rows[i]).slot == s implies {
            &&& c.landed(rows).row_bytes(s) == rows[i].row@
            &&& c.source.row_scales ==> c.landed(rows).scale_bytes(s) == (rows[i].scale->0)@
        } by {
            if i < init.len() {
                assert(init[i] == rows[i]);
                assert(faults[i].slot != faults[rows.len() - 1].slot);
            }
        }
        if forall|i: int| 0 <= i < rows.len() ==> (#[trigger] rows[i]).slot != s {
            assert forall|i: int| 0 <= i < init.len() implies (#[trigger] init[i]).slot != s by {
                assert(init[i] == rows[i]);
            }
        }
    }
}

/// The reads of a batch go into slots of their own: what two of them write does
/// not overlap, so that they can be done at once.
pub proof fn reads_do_not_overlap(c: CacheView, ids: Seq<u64>, i: int, j: int)
    requires
        c.inv(),
        0 <= i < j < c.res.decide(ids).faults.len(),
    ensures
        ({
            let a = c.res.decide(ids).faults[i].slot;
            let b = c.res.decide(ids).faults[j].slot;
            &&& a != b
            &&& a * c.stride() + c.stride() <= b * c.stride() || b * c.stride() + c.stride() <= a
                * c.stride()
            &&& a * c.stride() + c.stride() <= c.arena.len()
            &&& b * c.stride() + c.stride() <= c.arena.len()
        }),
{
    let d = c.res.decide(ids);
    c.res.decision_follows(ids);
    let f = d.faults[i];
    let g = d.faults[j];
    assert(f.id != g.id);
    assert(d.res.map.contains_key(f.id) && d.res.map.contains_key(g.id));
    assert(d.res.slot_row[f.slot as int] == f.id);
    assert(d.res.slot_row[g.slot as int] == g.id);
    slots_are_disjoint(f.slot as int, g.slot as int, c.n(), c.stride());
    slots_are_disjoint(g.slot as int, f.slot as int, c.n(), c.stride());
}

/// Once reads have landed with the table's bytes, nothing is owed for them any
/// more: their rows are in their slots, and every other resident row still has
/// the table's bytes too.
pub proof fn landed_reads_are_not_owed(
    c: CacheView,
    table: Table,
    owed: Seq<Fault>,
    faults: Seq<Fault>,
    rows: Seq<FetchedRow>,
)
    requires
        c.inv(),
        c.res.claimed(faults),
        c.faithful(table, owed + faults),
        c.answered(faults, rows),
        carries(table, rows, c.source.row_scales),
    ensures
        c.landed(rows).faithful(table, owed),
        forall|id: u64| #[trigger]
            c.res.map.contains_key(id) && reads_row(faults, id) ==> c.landed(rows).holds(
                table,
                c.res.map[id] as int,
                id,
            ),
{
    let after = c.landed(rows);
    let all = owed + faults;
    c.landing_keeps_inv(rows);
    assert forall|i: int, j: int| 0 <= i < j < faults.len() implies (#[trigger] faults[i]).slot
        != (#[trigger] faults[j]).slot by {
        assert(c.res.slot_row[faults[i].slot as int] == faults[i].id);
        assert(c.res.slot_row[faults[j].slot as int] == faults[j].id);
    }
    assert forall|id: u64| #[trigger]
        c.res.map.contains_key(id) && (!reads_row(owed, id) || reads_row(faults, id)) implies
        after.holds(table, c.res.map[id] as int, id) by {
        let s = c.res.map[id] as int;
        landed_rows_are_there(c, faults, rows, s);
        if reads_row(faults, id) {
            let i = choose|i: int| 0 <= i < faults.len() && (#[trigger] faults[i]).id == id;
            assert(rows[i].id == id);
            assert(rows[i].slot == s);
        } else {
            if reads_row(all, id) {
                either_reads(owed, faults, id);
            }
            assert(c.holds(table, s, id));
            assert forall|i: int| 0 <= i < rows.len() implies (#[trigger] rows[i]).slot != s by {
                if rows[i].slot == s {
                    assert(faults[i].slot == s);
                    assert(c.res.slot_row[s] == faults[i].id);
                    assert(c.res.slot_row[s] == id);
                }
            }
        }
    }
    assert forall|id: u64| #[trigger]
        after.res.map.contains_key(id) && !reads_row(owed, id) implies after.holds(
        table,
        after.res.map[id] as int,
        id,
    ) by {
        assert(c.res.map.contains_key(id));
    }
}

/// Once a batch was served and its reads have landed with the table's bytes,
/// every slot that it handed out holds the row that was looked up, and every
/// other resident row still has the table's bytes too.
///
/// The exception is a row that was already `owed` when the batch began and that
/// the batch did not read itself. Where every earlier batch was brought to its
/// end there is none.
pub proof fn resolved_slots_hold_their_rows(
    c: CacheView,
    table: Table,
    owed: Seq<Fault>,
    ids: Seq<u64>,
    rows: Seq<FetchedRow>,
)
    requires
        c.inv(),
        c.faithful(table, owed),
        c.res.decide(ids).refusal is None,
        c.with(c.res.decide(ids).res).answered(c.res.decide(ids).faults, rows),
        carries(table, rows, c.source.row_scales),
    ensures
        ({
            let d = c.res.decide(ids);
            let after = c.with(d.res).landed(rows);
            &&& d.slots.len() == ids.len()
            &&& forall|i: int|
                0 <= i < ids.len() && (!reads_row(owed, ids[i]) || reads_row(d.faults, ids[i]))
                    ==> after.holds(table, (#[trigger] d.slots[i]) as int, ids[i])
            &&& after.faithful(table, owed)
        }),
{
    let d = c.res.decide(ids);
    let mid = c.with(d.res);
    let after = mid.landed(rows);
    c.res.decision_follows(ids);
    reported_reads_are_claimed(c.res, ids);
    lookups_keep_faith(c, table, owed, ids);
    mid.landing_keeps_inv(rows);
    landed_reads_are_not_owed(mid, table, owed, d.faults, rows);
    assert forall|i: int|
        0 <= i < ids.len() && (!reads_row(owed, ids[i]) || reads_row(d.faults, ids[i])) implies
        after.holds(table, (#[trigger] d.slots[i]) as int, ids[i]) by {
        assert(d.res.map.contains_key(ids[i]));
        assert(mid.res.map.contains_key(ids[i]));
        assert(after.res.map.contains_key(ids[i]));
    }
}

/// Where rows have no scales of their own, reading rows leaves the slots' scales
/// alone: one scale for all slots is set once.
pub proof fn a_constant_scale_stays(c: CacheView, faults: Seq<Fault>, rows: Seq<FetchedRow>)
    requires
        !c.source.row_scales,
        c.answered(faults, rows),
    ensures
        c.landed(rows).scales == c.scales,
    decreases rows.len(),
{
    if rows.len() > 0 {
        let init = rows.drop_last();
        assert(c.answered(faults.drop_last(), init));
        a_constant_scale_stays(c, faults.drop_last(), init);
        assert(rows[rows.len() - 1] == rows.last());
    }
}

/// Neither lookups nor reads move the memory that a device gathers from.
pub proof fn memory_stays_where_it_is(c: CacheView, res: Residency, rows: Seq<FetchedRow>)
    requires
        c.inv(),
        c.with(res).inv(),
    ensures
        c.with(res).landed(rows).table_va == c.table_va,
        c.with(res).landed(rows).scale_va == c.scale_va,
        c.with(res).landed(rows).arena.len() == c.arena.len(),
{
    c.with(res).landing_keeps_inv(rows);
}

/// Ending a batch frees its slots for the clock and changes no row.
pub proof fn ending_a_batch_keeps_faith(c: CacheView, table: Table, owed: Seq<Fault>)
    requires
        c.inv(),
        c.faithful(table, owed),
    ensures
        c.with(c.res.unpinned()).inv(),
        c.with(c.res.unpinned()).faithful(table, owed),
        !c.res.unpinned().all_pinned(),
        c.res.unpinned().map == c.res.map,
{
    let after = c.with(c.res.unpinned());
    assert forall|id: u64| #[trigger]
        after.res.map.contains_key(id) && !reads_row(owed, id) implies after.holds(
        table,
        after.res.map[id] as int,
        id,
    ) by {
        assert(c.res.map.contains_key(id));
    }
    assert(!after.res.pinned[0]);
}

/// What it is for a cache to be right about a table: byte `b` of every resident
/// row that nothing is owed for is at `slot * row_stride + b`, and byte `b` of its
/// scale at `slot * 4 + b`.
pub proof fn a_faithful_cache_has_the_tables_bytes(
    c: CacheView,
    table: Table,
    owed: Seq<Fault>,
    id: u64,
    b: int,
)
    requires
        c.inv(),
        c.faithful(table, owed),
        c.res.map.contains_key(id),
        forall|i: int| 0 <= i < owed.len() ==> (#[trigger] owed[i]).id != id,
    ensures
        (table.row)(id).len() == c.source.row_stride,
        0 <= b < c.source.row_stride ==> c.arena[c.res.map[id] * c.source.row_stride + b] == (
        table.row)(id)[b],
        c.source.row_scales ==> (table.scale)(id).len() == 4,
        c.source.row_scales && 0 <= b < 4 ==> (c.scales->0)[c.res.map[id] * 4 + b] == (
        table.scale)(id)[b],
{
    let s = c.res.map[id] as int;
    assert(!reads_row(owed, id));
    assert(c.holds(table, s, id));
    slots_are_disjoint(s, s, c.n(), c.stride());
    slots_are_disjoint(s, s, c.n(), 4);
    if 0 <= b < c.source.row_stride {
        assert(c.row_bytes(s)[b] == c.arena[s * c.source.row_stride + b]);
    }
    if c.source.row_scales && 0 <= b < 4 {
        assert(c.scale_bytes(s)[b] == (c.scales->0)[s * 4 + b]);
    }
}

/// A batch can be looked up as long as no counter would run over.
pub proof fn counters_have_64_bits(c: CacheView, n: int)
    ensures
        c.can_count(n) <==> {
            &&& c.res.hits + n <= 0xffff_ffff_ffff_ffff
            &&& c.res.misses + n <= 0xffff_ffff_ffff_ffff
            &&& c.res.evictions + n <= 0xffff_ffff_ffff_ffff
        },
{
}

// ---- batches that follow each other ------------------------------------------
/// Row `id` is resident in slot `s`, which is pinned, and the slot has the bytes
/// that it has in `before`.
pub open spec fn undisturbed(before: CacheView, after: CacheView, id: u64, s: int) -> bool {
    &&& after.res.pinned[s]
    &&& after.res.slot_row[s] == id
    &&& after.res.map.contains_key(id)
    &&& after.res.map[id] == s
    &&& after.row_bytes(s) == before.row_bytes(s)
    &&& before.scales is Some ==> after.scale_bytes(s) == before.scale_bytes(s)
}

/// A batch disturbs no slot that was pinned before it, whether its reads land or
/// its claims are withdrawn.
proof fn a_batch_disturbs_no_pinned_slot(c: CacheView, ids: Seq<u64>, rows: Seq<FetchedRow>, s: int)
    requires
        c.inv(),
        0 <= s < c.n(),
        c.res.pinned[s],
        c.res.slot_row[s] != EMPTY,
    ensures
        undisturbed(
            c,
            c.with(c.res.decide(ids).res.released(c.res.decide(ids).faults)),
            c.res.slot_row[s],
            s,
        ),
        c.with(c.res.decide(ids).res).answered(c.res.decide(ids).faults, rows) ==> undisturbed(
            c,
            c.with(c.res.decide(ids).res).landed(rows),
            c.res.slot_row[s],
            s,
        ),
{
    let d = c.res.decide(ids);
    let id = c.res.slot_row[s];
    c.res.decision_follows(ids);
    pinned_rows_stay(c.res, ids, s);
    d.res.release_keeps_inv(d.faults);
    let undone = d.res.released(d.faults);
    assert(!d.res.still_maps(d.faults, id));
    assert(undone.map.contains_key(id));
    assert(undone.slot_row[s] == id);
    assert(c.with(undone).row_bytes(s) == c.row_bytes(s));
    let mid = c.with(d.res);
    if mid.answered(d.faults, rows) {
        mid.landing_keeps_inv(rows);
        assert forall|i: int, j: int| 0 <= i < j < d.faults.len() implies (
        #[trigger] d.faults[i]).slot != (#[trigger] d.faults[j]).slot by {
            reads_do_not_overlap(c, ids, i, j);
        }
        landed_rows_are_there(mid, d.faults, rows, s);
        assert forall|i: int| 0 <= i < rows.len() implies (#[trigger] rows[i]).slot != s by {
            assert(d.faults[i].slot != s);
        }
        assert(mid.row_bytes(s) == c.row_bytes(s));
    }
}

/// Until the end of a batch, what was resolved stays as it was through every
/// further call: after a second batch, each slot that the first one handed out
/// is pinned, holds the same row with the same bytes, and is the row's slot. This
/// holds whether the second batch is served and its reads land, or is refused or
/// fails. The slots of a second batch that was served are pinned too.
pub proof fn a_later_batch_leaves_earlier_slots_alone(
    c: CacheView,
    first: Seq<u64>,
    first_rows: Seq<FetchedRow>,
    second: Seq<u64>,
    second_rows: Seq<FetchedRow>,
)
    requires
        c.inv(),
        c.res.decide(first).refusal is None,
        c.with(c.res.decide(first).res).answered(c.res.decide(first).faults, first_rows),
    ensures
        ({
            let d1 = c.res.decide(first);
            let c1 = c.with(d1.res).landed(first_rows);
            let d2 = c1.res.decide(second);
            let undone = c1.with(d2.res.released(d2.faults));
            let done = c1.with(d2.res).landed(second_rows);
            &&& forall|i: int|
                0 <= i < first.len() ==> undisturbed(
                    c1,
                    undone,
                    first[i],
                    (#[trigger] d1.slots[i]) as int,
                )
            &&& d2.refusal is None && c1.with(d2.res).answered(d2.faults, second_rows) ==> {
                &&& forall|i: int|
                    0 <= i < first.len() ==> undisturbed(
                        c1,
                        done,
                        first[i],
                        (#[trigger] d1.slots[i]) as int,
                    )
                &&& forall|j: int|
                    0 <= j < second.len() ==> done.res.pinned[(#[trigger] d2.slots[j]) as int]
            }
        }),
{
    let d1 = c.res.decide(first);
    let c1 = c.with(d1.res).landed(first_rows);
    let d2 = c1.res.decide(second);
    c.res.decision_follows(first);
    c.with(d1.res).landing_keeps_inv(first_rows);
    c1.res.decision_follows(second);
    c1.with(d2.res).landing_keeps_inv(second_rows);
    assert forall|i: int| 0 <= i < first.len() implies {
        &&& undisturbed(
            c1,
            c1.with(d2.res.released(d2.faults)),
            first[i],
            (#[trigger] d1.slots[i]) as int,
        )
        &&& c1.with(d2.res).answered(d2.faults, second_rows) ==> undisturbed(
            c1,
            c1.with(d2.res).landed(second_rows),
            first[i],
            d1.slots[i] as int,
        )
    } by {
        assert(d1.res.map.contains_key(first[i]));
        assert(c1.res.pinned[d1.slots[i] as int]);
        a_batch_disturbs_no_pinned_slot(c1, second, second_rows, d1.slots[i] as int);
    }
    if d2.refusal is None {
        assert forall|j: int| 0 <= j < second.len() implies d2.res.pinned[(
        #[trigger] d2.slots[j]) as int] by {
            assert(d2.res.map.contains_key(second[j]));
        }
    }
}

// ---- opening -----------------------------------------------------------------
/// Opening a table is opening it at the start of its file: the same geometries
/// are refused with the same errors, and the caches that come of it differ in
/// nothing but where their memory lies. Rows lie in the one file from its first
/// byte on.
pub proof fn open_is_open_at_the_start(
    row_scales: bool,
    rows_total: u64,
    row_stride: usize,
    slots: usize,
    a: Result<NgramRowCache, CacheError>,
    b: Result<NgramRowCache, CacheError>,
)
    requires
        call_ensures(NgramRowCache::open, (row_scales, rows_total, row_stride, slots), a),
        call_ensures(NgramRowCache::open_at, (0u64, row_scales, rows_total, row_stride, slots), b),
    ensures
        match (a, b) {
            (Ok(c), Ok(d)) => {
                &&& d@ == (CacheView { table_va: d@.table_va, scale_va: d@.scale_va, ..c@ })
                &&& forall|id: u64| #[trigger] c@.source.byte_of(id) == id * row_stride
                &&& forall|id: u64| #[trigger] c@.source.file_of(id) == 0
            },
            (Err(e), Err(f)) => e == f,
            _ => false,
        },
{
    let source = RowSource { base_offset: 0, segments: None, row_stride, row_scales };
    assert(NgramRowCache::opens(source, rows_total, slots, a));
    assert(NgramRowCache::opens(source, rows_total, slots, b));
}

// ---- the clock -----------------------------------------------------------------
/// A slot that the clock gave up is not given up again while it is pinned,
/// whatever was called in between.
pub proof fn a_slot_is_not_given_up_twice_while_pinned(
    first: CacheView,
    first_after: CacheView,
    s: u32,
    later: CacheView,
    later_after: CacheView,
    t: u32,
)
    requires
        first.inv(),
        NgramRowCache::gives_up(first, first_after, Ok(s)),
        later.inv(),
        later.n() == first.n(),
        later.res.pinned[s as int],
        NgramRowCache::gives_up(later, later_after, Ok(t)),
    ensures
        !first.res.pinned[s as int],
        !later.res.pinned[t as int],
        t != s,
{
    first.res.clock_gives_up_an_unpinned_slot();
    later.res.clock_gives_up_an_unpinned_slot();
}

} // verus!
