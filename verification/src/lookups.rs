//! What a batch of lookups promises, and what stays true from batch to batch.

use crate::residency::reads_row;
use crate::residency::Decision;
use crate::residency::Fault;
use crate::residency::Refusal;
use crate::residency::Residency;
use crate::residency::EMPTY;
use vstd::prelude::*;

verus! {

// ---- what lookups do ---------------------------------------------------------
/// Two lookups of one batch get the same slot exactly if they are of the same
/// row, and a row that is looked up more than once is read at most once.
pub proof fn one_slot_per_row(res: Residency, ids: Seq<u64>, i: int, j: int)
    requires
        res.inv(),
        0 <= i < res.decide(ids).slots.len(),
        0 <= j < res.decide(ids).slots.len(),
    ensures
        ids[i] == ids[j] <==> res.decide(ids).slots[i] == res.decide(ids).slots[j],
        forall|a: int, b: int|
            0 <= a < b < res.decide(ids).faults.len() ==> (#[trigger] res.decide(ids).faults[a]).id
                != (#[trigger] res.decide(ids).faults[b]).id,
{
    let d = res.decide(ids);
    res.decision_follows(ids);
    assert(d.res.map.contains_key(ids[i]));
    assert(d.res.map.contains_key(ids[j]));
}

/// No lookup takes a slot that the batch in flight has pinned: its row stays in
/// it, and it stays pinned.
pub proof fn pinned_rows_stay(res: Residency, ids: Seq<u64>, s: int)
    requires
        res.inv(),
        0 <= s < res.n(),
        res.pinned[s],
    ensures
        res.decide(ids).res.pinned[s],
        res.decide(ids).res.slot_row[s] == res.slot_row[s],
        res.slot_row[s] != EMPTY ==> {
            &&& res.decide(ids).res.map.contains_key(res.slot_row[s])
            &&& res.decide(ids).res.map[res.slot_row[s]] == s
        },
        forall|i: int|
            0 <= i < res.decide(ids).faults.len() ==> (#[trigger] res.decide(ids).faults[i]).slot
                != s,
{
    res.decision_follows(ids);
    assert(res.decide(ids).res.pinned[s]);
}

/// A lookup is refused as out of range exactly if it is the first one of a row
/// that the table does not have and the batch got as far as that; nothing else
/// but a want of slots refuses a batch.
pub proof fn refusals_are_earned(res: Residency, ids: Seq<u64>)
    requires
        res.inv(),
    ensures
        ({
            let d = res.decide(ids);
            &&& d.refusal is None <==> d.slots.len() == ids.len()
            &&& forall|i: int| 0 <= i < d.slots.len() ==> #[trigger] ids[i] < res.rows_total
            &&& d.refusal matches Some(Refusal::OutOfRange(id)) ==> {
                &&& id == ids[d.slots.len() as int]
                &&& id >= res.rows_total
            }
            &&& d.refusal == Some(Refusal::AllPinned) ==> {
                &&& ids[d.slots.len() as int] < res.rows_total
                &&& d.res.all_pinned()
            }
        }),
{
    let d = res.decide(ids);
    res.decision_follows(ids);
    assert forall|i: int| 0 <= i < d.slots.len() implies #[trigger] ids[i] < res.rows_total by {
        assert(d.res.map.contains_key(ids[i]));
    }
}

// ---- which batches are refused -----------------------------------------------
/// The slots that are pinned.
pub open spec fn pinned_slots(res: Residency) -> Set<int> {
    Set::new(|s: int| 0 <= s < res.n() && res.pinned[s])
}

/// The slots that are not pinned.
pub open spec fn free_slots(res: Residency) -> Set<int> {
    Set::new(|s: int| 0 <= s < res.n() && !res.pinned[s])
}

/// The rows of a batch, each once, that are not resident in a pinned slot.
pub open spec fn unsettled(res: Residency, ids: Seq<u64>) -> Set<u64> {
    Set::new(
        |id: u64|
            ids.contains(id) && !(res.map.contains_key(id) && res.pinned[res.map[id] as int]),
    )
}

/// The batch names a row that the table does not have.
pub open spec fn names_a_foreign_row(res: Residency, ids: Seq<u64>) -> bool {
    exists|i: int| 0 <= i < ids.len() && #[trigger] ids[i] >= res.rows_total
}

/// The batch needs more slots than there are besides the pinned ones.
pub open spec fn needs_too_many_slots(res: Residency, ids: Seq<u64>) -> bool {
    pinned_slots(res).len() + unsettled(res, ids).len() > res.n()
}

/// Every slot is pinned or free.
proof fn slots_are_pinned_or_free(res: Residency)
    ensures
        pinned_slots(res).finite(),
        free_slots(res).finite(),
        pinned_slots(res).len() + free_slots(res).len() == res.n(),
{
    let all = vstd::set_lib::set_int_range(0, res.n());
    vstd::set_lib::lemma_int_range(0, res.n());
    vstd::set_lib::lemma_len_subset(pinned_slots(res), all);
    vstd::set_lib::lemma_len_subset(free_slots(res), all);
    vstd::set_lib::lemma_set_disjoint_lens(pinned_slots(res), free_slots(res));
    assert(pinned_slots(res) + free_slots(res) =~= all);
}

/// A batch has no more unsettled rows than lookups.
proof fn unsettled_rows_are_looked_up(res: Residency, ids: Seq<u64>)
    ensures
        unsettled(res, ids).finite(),
        unsettled(res, ids).len() <= ids.to_set().len(),
{
    vstd::seq_lib::seq_to_set_is_finite(ids);
    vstd::set_lib::lemma_len_subset(unsettled(res, ids), ids.to_set());
}

/// The slot of a row that was resident in a pinned slot is that slot still.
proof fn settled_rows_keep_their_slots(res: Residency, ids: Seq<u64>, id: u64)
    requires
        res.inv(),
        res.map.contains_key(id),
        res.pinned[res.map[id] as int],
    ensures
        res.decide(ids).res.map.contains_key(id),
        res.decide(ids).res.map[id] == res.map[id],
{
    pinned_rows_stay(res, ids, res.map[id] as int);
}

/// A batch that is served gives each of its unsettled rows a slot that was free.
proof fn a_served_batch_has_room(res: Residency, ids: Seq<u64>)
    requires
        res.inv(),
        res.decide(ids).refusal is None,
    ensures
        unsettled(res, ids).len() <= free_slots(res).len(),
{
    let d = res.decide(ids);
    let rows = unsettled(res, ids);
    let slot = |id: u64| d.res.map[id] as int;
    let taken = rows.map(slot);
    res.decision_follows(ids);
    slots_are_pinned_or_free(res);
    unsettled_rows_are_looked_up(res, ids);
    assert forall|id: u64| #[trigger] rows.contains(id) implies d.res.map.contains_key(id)
        && free_slots(res).contains(d.res.map[id] as int) by {
        let i = choose|i: int| 0 <= i < ids.len() && ids[i] == id;
        assert(d.res.map.contains_key(ids[i]));
        let s = d.res.map[id] as int;
        if res.pinned[s] {
            assert(d.res.pinned[s]);
            assert(res.slot_row[s] == id);
            assert(res.map[res.slot_row[s]] == s);
        }
    }
    assert(vstd::relations::injective_on(slot, rows)) by {
        assert forall|a: u64, b: u64|
            rows.contains(a) && rows.contains(b) && #[trigger] slot(a) == #[trigger] slot(
                b,
            ) implies a == b by {
            assert(d.res.slot_row[d.res.map[a] as int] == a);
            assert(d.res.slot_row[d.res.map[b] as int] == b);
        }
    }
    vstd::set_lib::lemma_map_size(rows, taken, slot);
    assert forall|s: int| #[trigger] taken.contains(s) implies free_slots(res).contains(s) by {
        let id = choose|id: u64| rows.contains(id) && s == slot(id);
    }
    vstd::set_lib::lemma_len_subset(taken, free_slots(res));
}

/// A batch that is refused for want of slots has filled every free one with an
/// unsettled row of its own, and has one more.
proof fn a_batch_out_of_slots_has_no_room(res: Residency, ids: Seq<u64>)
    requires
        res.inv(),
        res.decide(ids).refusal == Some(Refusal::AllPinned),
    ensures
        free_slots(res).len() < unsettled(res, ids).len(),
{
    let d = res.decide(ids);
    let rows = unsettled(res, ids);
    let free = free_slots(res);
    let row = |s: int| d.res.slot_row[s];
    let filled = free.map(row);
    res.decision_follows(ids);
    slots_are_pinned_or_free(res);
    unsettled_rows_are_looked_up(res, ids);
    let refused = ids[d.slots.len() as int];
    assert(rows.contains(refused)) by {
        if res.map.contains_key(refused) && res.pinned[res.map[refused] as int] {
            settled_rows_keep_their_slots(res, ids, refused);
        }
    }
    assert forall|s: int| #[trigger] free.contains(s) implies rows.contains(d.res.slot_row[s])
        && d.res.slot_row[s] != refused && d.res.map.contains_key(d.res.slot_row[s])
        && d.res.map[d.res.slot_row[s]] == s by {
        assert(d.res.pinned[s]);
        assert(d.slots.contains(s as u32));
        let i = choose|i: int| 0 <= i < d.slots.len() && d.slots[i] == s as u32;
        let id = ids[i];
        assert(d.res.map.contains_key(ids[i]));
        assert(d.res.slot_row[s] == id);
        if res.map.contains_key(id) && res.pinned[res.map[id] as int] {
            settled_rows_keep_their_slots(res, ids, id);
        }
    }
    assert(vstd::relations::injective_on(row, free));
    vstd::set_lib::lemma_map_size(free, filled, row);
    assert forall|id: u64| #[trigger] filled.contains(id) implies rows.remove(refused).contains(
        id,
    ) by {
        let s = choose|s: int| free.contains(s) && id == row(s);
    }
    vstd::set_lib::lemma_len_subset(filled, rows.remove(refused));
}

/// A batch is refused exactly if it names a row that the table does not have, or
/// if the pinned slots together with its rows, each counted once, that are not
/// resident in a pinned slot are more than there are slots.
pub proof fn a_batch_is_refused_only_if_it_must_be(res: Residency, ids: Seq<u64>)
    requires
        res.inv(),
    ensures
        res.decide(ids).refusal is Some <==> names_a_foreign_row(res, ids) || needs_too_many_slots(
            res,
            ids,
        ),
        pinned_slots(res).finite(),
        unsettled(res, ids).finite(),
{
    let d = res.decide(ids);
    res.decision_follows(ids);
    slots_are_pinned_or_free(res);
    unsettled_rows_are_looked_up(res, ids);
    match d.refusal {
        None => {
            a_served_batch_has_room(res, ids);
            assert forall|i: int| 0 <= i < ids.len() implies #[trigger] ids[i] < res.rows_total by {
                assert(d.res.map.contains_key(ids[i]));
            }
        },
        Some(Refusal::OutOfRange(id)) => {
            assert(ids[d.slots.len() as int] >= res.rows_total);
        },
        Some(Refusal::AllPinned) => {
            a_batch_out_of_slots_has_no_room(res, ids);
        },
    }
}

/// The lookups that a shorter batch serves, a longer one serves too.
proof fn longer_batches_serve_no_less(res: Residency, ids: Seq<u64>, k: int)
    requires
        0 <= k <= ids.len(),
    ensures
        res.decide(ids.take(k)).slots.len() <= res.decide(ids).slots.len(),
    decreases ids.len(),
{
    if k < ids.len() {
        let init = ids.drop_last();
        assert(init.take(k) =~= ids.take(k));
        longer_batches_serve_no_less(res, init, k);
    } else {
        assert(ids.take(k) =~= ids);
    }
}

/// A refused batch is refused at the first lookup with which it can no longer be
/// served. The report is of a row outside the table exactly if that lookup is of
/// one, and of a want of slots otherwise.
pub proof fn a_batch_is_refused_where_it_must_be(res: Residency, ids: Seq<u64>)
    requires
        res.inv(),
        res.decide(ids).refusal is Some,
    ensures
        ({
            let k = res.decide(ids).slots.len() as int;
            let served = ids.take(k);
            let refused = ids.take(k + 1);
            &&& k < ids.len()
            &&& !names_a_foreign_row(res, served) && !needs_too_many_slots(res, served)
            &&& names_a_foreign_row(res, refused) || needs_too_many_slots(res, refused)
            &&& res.decide(ids).refusal == if ids[k] >= res.rows_total {
                Some(Refusal::OutOfRange(ids[k]))
            } else {
                Some(Refusal::AllPinned)
            }
        }),
{
    let d = res.decide(ids);
    let k = d.slots.len() as int;
    res.decision_follows(ids);
    res.decision_follows(ids.take(k));
    res.decision_follows(ids.take(k + 1));
    if res.decide(ids.take(k)).refusal is Some {
        res.refusal_is_final(ids, k);
    }
    longer_batches_serve_no_less(res, ids, k + 1);
    a_batch_is_refused_only_if_it_must_be(res, ids.take(k));
    a_batch_is_refused_only_if_it_must_be(res, ids.take(k + 1));
}

/// A batch that starts with nothing pinned is not refused for want of slots as
/// long as it looks up no more different rows than there are slots.
pub proof fn a_batch_that_fits_is_served(res: Residency, ids: Seq<u64>)
    requires
        res.inv(),
        forall|s: int| 0 <= s < res.n() ==> !#[trigger] res.pinned[s],
        forall|i: int| 0 <= i < ids.len() ==> #[trigger] ids[i] < res.rows_total,
        ids.to_set().len() <= res.n(),
    ensures
        res.decide(ids).refusal is None,
        res.decide(ids).slots.len() == ids.len(),
{
    res.decision_follows(ids);
    assert(pinned_slots(res) =~= Set::empty());
    unsettled_rows_are_looked_up(res, ids);
    a_batch_is_refused_only_if_it_must_be(res, ids);
}

// ---- batches that find their rows --------------------------------------------
/// Lookups of rows that are all resident read nothing and take no slot away.
pub proof fn resident_rows_need_no_reads(res: Residency, ids: Seq<u64>)
    requires
        res.inv(),
        forall|i: int| 0 <= i < ids.len() ==> res.map.contains_key(#[trigger] ids[i]),
    ensures
        ({
            let d = res.decide(ids);
            &&& d.refusal is None
            &&& d.faults.len() == 0
            &&& d.res.map == res.map
            &&& d.res.slot_row == res.slot_row
            &&& d.res.hand == res.hand
            &&& d.res.evictions == res.evictions
            &&& d.res.misses == res.misses
            &&& d.res.hits == res.hits + ids.len()
            &&& d.slots.len() == ids.len()
            &&& forall|i: int| 0 <= i < ids.len() ==> #[trigger] d.slots[i] == res.map[ids[i]]
        }),
    decreases ids.len(),
{
    if ids.len() > 0 {
        let init = ids.drop_last();
        assert(forall|i: int| 0 <= i < init.len() ==> #[trigger] init[i] == ids[i]);
        resident_rows_need_no_reads(res, init);
        res.decision_follows(init);
        assert(res.map.contains_key(ids[ids.len() - 1]));
        assert(res.map[ids.last()] < res.n());
    }
}

/// A batch that was served can be looked up again, before its end or after it,
/// with the same slots and without a read: each lookup is a hit, and nothing
/// else changes but what is pinned and referenced.
pub proof fn served_rows_stay_resident(res: Residency, ids: Seq<u64>)
    requires
        res.inv(),
        res.decide(ids).refusal is None,
    ensures
        ({
            let d = res.decide(ids);
            &&& repeats(d.res, d.slots, d.res.decide(ids))
            &&& repeats(d.res, d.slots, d.res.unpinned().decide(ids))
        }),
{
    let d = res.decide(ids);
    res.decision_follows(ids);
    d.res.unpin_keeps_inv();
    assert forall|i: int| 0 <= i < ids.len() implies d.res.map.contains_key(#[trigger] ids[i])
        && d.res.map[ids[i]] == d.slots[i] by {
        assert(d.res.map.contains_key(ids[i]));
    }
    resident_rows_need_no_reads(d.res, ids);
    resident_rows_need_no_reads(d.res.unpinned(), ids);
    assert(d.res.decide(ids).slots =~= d.slots);
    assert(d.res.unpinned().decide(ids).slots =~= d.slots);
}

/// `again` hands out `slots` once more, over bookkeeping `res` in which all of
/// their rows are resident.
pub open spec fn repeats(res: Residency, slots: Seq<u32>, again: Decision) -> bool {
    &&& again.refusal is None
    &&& again.faults.len() == 0
    &&& again.slots == slots
    &&& again.res.map == res.map
    &&& again.res.slot_row == res.slot_row
    &&& again.res.hand == res.hand
    &&& again.res.hits == res.hits + slots.len()
    &&& again.res.misses == res.misses
    &&& again.res.evictions == res.evictions
}

// ---- rows and slots ----------------------------------------------------------
/// A row has a slot exactly if the slot has the row, there are as many reference
/// bits and pins as slots, the hand is at one of them, and no more rows are
/// resident than there are slots.
pub open spec fn paired(res: Residency) -> bool {
    &&& forall|id: u64, s: int|
        id != EMPTY ==> (res.map.contains_key(id) && #[trigger] res.map[id] == s <==> 0 <= s
            < res.n() && #[trigger] res.slot_row[s] == id)
    &&& !res.map.contains_key(EMPTY)
    &&& res.refbit.len() == res.n()
    &&& res.pinned.len() == res.n()
    &&& 0 <= res.hand < res.n()
    &&& res.map.dom().finite()
    &&& res.map.dom().len() <= res.n()
}

/// Bookkeeping that is in order pairs rows with slots.
pub proof fn rows_and_slots_are_paired(res: Residency)
    requires
        res.inv(),
    ensures
        paired(res),
{
    assert(!res.map.contains_key(EMPTY));
    assert forall|id: u64, s: int| id != EMPTY implies (res.map.contains_key(id)
        && #[trigger] res.map[id] == s <==> 0 <= s < res.n() && #[trigger] res.slot_row[s]
        == id) by {
        if res.map.contains_key(id) {
            assert(res.slot_row[res.map[id] as int] == id);
        }
    }
    let rows = res.slot_row.to_set();
    vstd::seq_lib::seq_to_set_is_finite(res.slot_row);
    res.slot_row.lemma_cardinality_of_set();
    assert forall|id: u64| #[trigger] res.map.dom().contains(id) implies rows.contains(id) by {
        assert(res.map.contains_key(id));
        assert(res.slot_row[res.map[id] as int] == id);
    }
    vstd::set_lib::lemma_len_subset(res.map.dom(), rows);
}

/// Whatever is looked up, withdrawn or ended, rows and slots stay paired, and
/// the cache has as many slots as it had.
pub proof fn every_call_keeps_rows_and_slots_paired(
    res: Residency,
    ids: Seq<u64>,
    faults: Seq<Fault>,
)
    requires
        res.inv(),
    ensures
        paired(res.decide(ids).res),
        res.decide(ids).res.n() == res.n(),
        paired(res.decide(ids).res.released(res.decide(ids).faults)),
        res.decide(ids).res.released(res.decide(ids).faults).n() == res.n(),
        paired(res.released(faults)),
        res.released(faults).n() == res.n(),
        paired(res.unpinned()),
        res.unpinned().n() == res.n(),
{
    let d = res.decide(ids);
    res.decision_follows(ids);
    rows_and_slots_are_paired(d.res);
    d.res.release_keeps_inv(d.faults);
    rows_and_slots_are_paired(d.res.released(d.faults));
    res.release_keeps_inv(faults);
    rows_and_slots_are_paired(res.released(faults));
    res.unpin_keeps_inv();
    rows_and_slots_are_paired(res.unpinned());
}

/// A slot that the clock has given up to a row is pinned with it, and neither
/// the lookups that follow nor the clock itself give it up again before the
/// batch ends.
pub proof fn a_claimed_slot_is_not_given_up_again(res: Residency, id: u64, ids: Seq<u64>)
    requires
        res.inv(),
        id < res.rows_total,
        !res.map.contains_key(id),
        !res.all_pinned(),
    ensures
        ({
            let s = res.victim_slot();
            let d = res.after_claim(id).decide(ids);
            &&& d.res.pinned[s]
            &&& d.res.slot_row[s] == id
            &&& forall|i: int| 0 <= i < d.faults.len() ==> (#[trigger] d.faults[i]).slot != s
            &&& !d.res.all_pinned() ==> d.res.victim_slot() != s
        }),
{
    let a = res.after_claim(id);
    res.claim_keeps_inv(id);
    pinned_rows_stay(a, ids, res.victim_slot());
    a.decision_follows(ids);
    a.decide(ids).res.clock_gives_up_an_unpinned_slot();
}

// ---- counts ------------------------------------------------------------------
/// A batch makes as many rows resident as it reads and drops as many as it
/// evicts, whether it is served or refused part of the way.
pub proof fn residents_are_reads_less_evictions(res: Residency, ids: Seq<u64>)
    requires
        res.inv(),
    ensures
        ({
            let d = res.decide(ids);
            &&& d.res.map.dom().len() == res.map.dom().len() + d.faults.len() - (d.res.evictions
                - res.evictions)
            &&& d.res.map.dom().len() <= res.n()
        }),
    decreases ids.len(),
{
    res.decision_follows(ids);
    rows_and_slots_are_paired(res.decide(ids).res);
    if ids.len() > 0 {
        let prev = res.decide(ids.drop_last());
        let id = ids.last();
        residents_are_reads_less_evictions(res, ids.drop_last());
        res.decision_follows(ids.drop_last());
        let m = prev.res.after_miss();
        if prev.refusal is None && id < res.rows_total && !prev.res.map.contains_key(id)
            && !m.all_pinned() {
            one_claim_is_one_resident_more(m, id);
        }
    }
}

/// A claim makes one row resident, and drops one if the slot had one.
proof fn one_claim_is_one_resident_more(res: Residency, id: u64)
    requires
        res.inv(),
        id < res.rows_total,
        !res.map.contains_key(id),
        !res.all_pinned(),
    ensures
        res.after_claim(id).map.dom().len() == res.map.dom().len() + 1 - (res.after_claim(
            id,
        ).evictions - res.evictions),
{
    res.clock_gives_up_an_unpinned_slot();
    rows_and_slots_are_paired(res);
    let row = res.slot_row[res.victim_slot()];
    let e = res.after_victim();
    if row != EMPTY {
        assert(res.map.contains_key(row));
        assert(e.map.dom() =~= res.map.dom().remove(row));
    }
    assert(res.after_claim(id).map.dom() =~= e.map.dom().insert(id));
}

/// A batch that was served reads every row at most once, so no more than it
/// names different rows; and it reads all of those that were not resident before.
proof fn misses_are_the_rows_that_were_not_there(res: Residency, ids: Seq<u64>)
    requires
        res.inv(),
        res.decide(ids).refusal is None,
    ensures
        ({
            let missed = res.decide(ids).res.misses - res.misses;
            &&& missed <= ids.to_set().len()
            &&& missed >= ids.to_set().difference(res.map.dom()).len()
        }),
{
    let d = res.decide(ids);
    res.decision_follows(ids);
    let read = Seq::new(d.faults.len(), |i: int| d.faults[i].id);
    assert(read.no_duplicates()) by {
        assert forall|i: int, j: int| 0 <= i < read.len() && 0 <= j < read.len() && i != j implies
            read[i] != read[j] by {
            if i < j {
                assert(d.faults[i].id != d.faults[j].id);
            } else {
                assert(d.faults[j].id != d.faults[i].id);
            }
        }
    }
    read.unique_seq_to_set();
    vstd::seq_lib::seq_to_set_is_finite(ids);
    vstd::seq_lib::seq_to_set_is_finite(read);
    assert forall|id: u64| #[trigger] read.to_set().contains(id) implies ids.to_set().contains(
        id,
    ) by {
        let i = choose|i: int| 0 <= i < read.len() && read[i] == id;
        assert(ids.contains(d.faults[i].id));
    }
    vstd::set_lib::lemma_len_subset(read.to_set(), ids.to_set());
    let absent = ids.to_set().difference(res.map.dom());
    assert forall|id: u64| #[trigger] absent.contains(id) implies read.to_set().contains(id) by {
        let i = choose|i: int| 0 <= i < ids.len() && ids[i] == id;
        assert(d.res.map.contains_key(ids[i]));
        assert(reads_row(d.faults, id));
        let k = choose|k: int| 0 <= k < d.faults.len() && (#[trigger] d.faults[k]).id == id;
        assert(read[k] == id);
    }
    vstd::set_lib::lemma_len_subset(absent, read.to_set());
}

/// The counters add up. Of a batch that was served every lookup is counted, once,
/// as a hit or as a miss. The misses are the rows to be read: no more than the
/// batch names different rows, and all of those that were not resident before.
/// They make so many rows resident, less those that were evicted, and there are
/// never more rows than slots.
pub proof fn the_counters_add_up(res: Residency, ids: Seq<u64>)
    requires
        res.inv(),
        res.decide(ids).refusal is None,
    ensures
        ({
            let d = res.decide(ids);
            let hits = d.res.hits - res.hits;
            let misses = d.res.misses - res.misses;
            let evictions = d.res.evictions - res.evictions;
            &&& hits + misses == ids.len()
            &&& misses == d.faults.len()
            &&& misses <= ids.to_set().len()
            &&& misses >= ids.to_set().difference(res.map.dom()).len()
            &&& 0 <= evictions <= misses
            &&& d.res.map.dom().len() == res.map.dom().len() + misses - evictions
            &&& d.res.map.dom().len() <= res.n()
        }),
{
    res.decision_follows(ids);
    misses_are_the_rows_that_were_not_there(res, ids);
    residents_are_reads_less_evictions(res, ids);
}

} // verus!
