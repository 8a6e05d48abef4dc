//! What each call does to a cache, field by field, and how calls follow on each
//! other.

use crate::cache::NgramRowCache;
use crate::error::CacheError;
use crate::error::FetchError;
use crate::fetch::FetchedRow;
use crate::residency::Decision;
use crate::residency::Fault;
use crate::residency::Residency;
use crate::view::CacheView;
use vstd::prelude::*;

verus! {

// ---- the clock -----------------------------------------------------------------
/// How many slots the hand of a clock of `n` slots passes, going up and round,
/// before it is at slot `s`.
pub open spec fn steps_to(hand: int, n: int, s: int) -> int {
    if s >= hand {
        s - hand
    } else {
        s - hand + n
    }
}

/// Slot `s` is the one to give up. It is not pinned. If some slot is neither
/// pinned nor referenced, `s` is the first such slot that the hand comes to;
/// otherwise it is the first slot that is not pinned.
pub open spec fn is_next_to_go(res: Residency, s: int) -> bool {
    let n = res.slot_row.len() as int;
    &&& 0 <= s < n
    &&& !res.pinned[s]
    &&& (exists|t: int| 0 <= t < n && !#[trigger] res.pinned[t] && !res.refbit[t]) ==> {
        &&& !res.refbit[s]
        &&& forall|t: int|
            0 <= t < n && !#[trigger] res.pinned[t] && !res.refbit[t] ==> steps_to(res.hand, n, s)
                <= steps_to(res.hand, n, t)
    }
    &&& (forall|t: int| 0 <= t < n && !#[trigger] res.pinned[t] ==> res.refbit[t]) ==> forall|t: int|
        0 <= t < n && !#[trigger] res.pinned[t] ==> steps_to(res.hand, n, s) <= steps_to(
            res.hand,
            n,
            t,
        )
}

/// The reference bits once the hand has come to slot `s` and given it up: gone
/// from every unpinned slot that the hand has passed, which are all of them where
/// `s` itself was referenced and had its second chance.
pub open spec fn bits_after_going(res: Residency, s: int, t: int) -> bool {
    let n = res.slot_row.len() as int;
    res.refbit[t] && (res.pinned[t] || !res.refbit[s] && steps_to(res.hand, n, t) > steps_to(
        res.hand,
        n,
        s,
    ))
}

/// The clock as a rule on slots: which slot goes, where the hand is then, and
/// which reference bits are left.
pub proof fn the_clock_goes_round(res: Residency)
    requires
        res.inv(),
        !res.all_pinned(),
    ensures
        is_next_to_go(res, res.victim_slot()),
        res.after_victim().hand == if res.victim_slot() + 1 == res.slot_row.len() {
            0
        } else {
            res.victim_slot() + 1
        },
        res.after_victim().refbit.len() == res.slot_row.len(),
        forall|t: int|
            0 <= t < res.slot_row.len() ==> #[trigger] res.after_victim().refbit[t]
                == bits_after_going(res, res.victim_slot(), t),
{
    let n = res.n();
    let k = res.victim_step();
    let s = res.victim_slot();
    res.clock_gives_up_an_unpinned_slot();
    res.hand_goes_round(k);
    crate::clock::wrap(s + 1, n);
    assert forall|t: int| 0 <= t < n implies #[trigger] res.ahead(t) == steps_to(res.hand, n, t) by {
        crate::clock::wrap(t - res.hand, n);
    }
    assert(res.ahead(s) == steps_to(res.hand, n, s));
    assert forall|t: int| 0 <= t < n && !#[trigger] res.pinned[t] && !res.refbit[t] implies k
        <= res.ahead(t) by {
        res.hand_reaches(t);
        assert(res.takes(res.ahead(t)));
    }
    assert forall|t: int| 0 <= t < n && !#[trigger] res.pinned[t] implies k <= res.ahead(t) + n by {
        res.hand_reaches(t);
        assert(res.takes(res.ahead(t) + n));
    }
    assert(forall|t: int| 0 <= t < n ==> 0 <= #[trigger] res.ahead(t) < n);
    if k < n {
        assert(!res.refbit[s]);
    } else if exists|t: int| 0 <= t < n && !#[trigger] res.pinned[t] && !res.refbit[t] {
        let t = choose|t: int| 0 <= t < n && !#[trigger] res.pinned[t] && !res.refbit[t];
        assert(k <= res.ahead(t));
        assert(res.ahead(t) < n);
    } else {
        assert(res.refbit[s]);
    }
}

// ---- one lookup ----------------------------------------------------------------
/// Nothing but the bookkeeping changes.
pub open spec fn same_memory(before: CacheView, after: CacheView) -> bool {
    &&& after.source == before.source
    &&& after.arena == before.arena
    &&& after.scales == before.scales
    &&& after.table_va == before.table_va
    &&& after.scale_va == before.scale_va
    &&& after.res.rows_total == before.res.rows_total
    &&& after.res.slot_row.len() == before.res.slot_row.len()
    &&& after.res.refbit.len() == before.res.refbit.len()
    &&& after.res.pinned.len() == before.res.pinned.len()
}

/// The same rows are in the same slots.
pub open spec fn same_rows(a: Residency, b: Residency) -> bool {
    &&& forall|x: u64| #[trigger] b.map.contains_key(x) <==> a.map.contains_key(x)
    &&& forall|x: u64| a.map.contains_key(x) ==> #[trigger] b.map[x] == a.map[x]
    &&& forall|t: int| 0 <= t < a.slot_row.len() ==> #[trigger] b.slot_row[t] == a.slot_row[t]
}

/// The same slots are pinned and referenced, and the hand is where it was.
pub open spec fn same_clock(a: Residency, b: Residency) -> bool {
    &&& forall|t: int| 0 <= t < a.slot_row.len() ==> #[trigger] b.pinned[t] == a.pinned[t]
    &&& forall|t: int| 0 <= t < a.slot_row.len() ==> #[trigger] b.refbit[t] == a.refbit[t]
    &&& b.hand == a.hand
}

/// A lookup of a resident row: its slot is handed out, pinned and referenced, the
/// hit is counted, and that is all.
pub open spec fn looked_up(a: Residency, b: Residency, id: u64, slot: u32) -> bool {
    &&& slot == a.map[id]
    &&& same_rows(a, b)
    &&& forall|t: int|
        0 <= t < a.slot_row.len() ==> #[trigger] b.pinned[t] == (a.pinned[t] || t == slot)
    &&& forall|t: int|
        0 <= t < a.slot_row.len() ==> #[trigger] b.refbit[t] == (a.refbit[t] || t == slot)
    &&& b.hand == a.hand
    &&& b.hits == a.hits + 1
    &&& b.misses == a.misses
    &&& b.evictions == a.evictions
}

/// A lookup of a row that is not resident: the slot that goes next is the row's,
/// and the row that was in it is resident no more. The slot is pinned and
/// referenced, and the hand is behind it. The miss is counted, and the eviction if
/// there was a row in the slot.
pub open spec fn taken_in(a: Residency, b: Residency, id: u64, slot: u32) -> bool {
    let n = a.slot_row.len() as int;
    &&& is_next_to_go(a, slot as int)
    &&& b.map.contains_key(id) && b.map[id] == slot
    &&& forall|x: u64|
        x != id ==> (#[trigger] b.map.contains_key(x) <==> a.map.contains_key(x) && a.map[x] != slot)
    &&& forall|x: u64| x != id && b.map.contains_key(x) ==> #[trigger] b.map[x] == a.map[x]
    &&& forall|t: int|
        0 <= t < n ==> #[trigger] b.slot_row[t] == if t == slot {
            id
        } else {
            a.slot_row[t]
        }
    &&& forall|t: int| 0 <= t < n ==> #[trigger] b.pinned[t] == (a.pinned[t] || t == slot)
    &&& forall|t: int|
        0 <= t < n ==> #[trigger] b.refbit[t] == (t == slot || bits_after_going(a, slot as int, t))
    &&& b.hand == if slot + 1 == n {
        0
    } else {
        slot + 1
    }
    &&& b.hits == a.hits
    &&& b.misses == a.misses + 1
    &&& b.evictions == a.evictions + if a.slot_row[slot as int] == 0xffff_ffff_ffff_ffff {
        0int
    } else {
        1int
    }
}

/// What a lookup of one row comes to.
pub open spec fn one_lookup(
    before: CacheView,
    after: CacheView,
    id: u64,
    slots: Seq<u32>,
    r: Result<Vec<Fault>, CacheError>,
) -> bool {
    let a = before.res;
    let b = after.res;
    &&& same_memory(before, after)
    &&& if id >= a.rows_total {
        &&& r == Err::<Vec<Fault>, CacheError>(
            CacheError::RowOutOfRange { id, rows_total: a.rows_total },
        )
        &&& slots.len() == 0
        &&& same_rows(a, b)
        &&& same_clock(a, b)
        &&& b.hits == a.hits && b.misses == a.misses && b.evictions == a.evictions
    } else if a.map.contains_key(id) {
        &&& r matches Ok(faults) && faults@.len() == 0
        &&& slots.len() == 1
        &&& looked_up(a, b, id, slots[0])
    } else if forall|t: int| 0 <= t < a.slot_row.len() ==> #[trigger] a.pinned[t] {
        &&& r == Err::<Vec<Fault>, CacheError>(
            CacheError::AllPinned { slots: a.slot_row.len() as usize },
        )
        &&& slots.len() == 0
        &&& same_rows(a, b)
        &&& same_clock(a, b)
        &&& b.hits == a.hits && b.misses == a.misses + 1 && b.evictions == a.evictions
    } else {
        &&& slots.len() == 1
        &&& r matches Ok(faults) && faults@ == seq![Fault { id, slot: slots[0] }]
        &&& taken_in(a, b, id, slots[0])
    }
}

proof fn one_miss_takes_in(res: Residency, id: u64)
    requires
        res.inv(),
        id < res.rows_total,
        !res.map.contains_key(id),
        !res.all_pinned(),
    ensures
        taken_in(
            res,
            res.after_miss().after_claim(id),
            id,
            res.after_miss().victim_slot() as u32,
        ),
{
    let m = res.after_miss();
    assert(m.inv());
    assert(!m.all_pinned()) by {
        let t = choose|t: int| 0 <= t < res.n() && !#[trigger] res.pinned[t];
        assert(!m.pinned[t]);
    }
    the_clock_goes_round(m);
    m.claim_keeps_inv(id);
    let s = m.victim_slot();
    assert(s as u32 == s);
    let b = m.after_claim(id);
    assert(is_next_to_go(res, s)) by {
        if exists|t: int| 0 <= t < res.n() && !#[trigger] res.pinned[t] && !res.refbit[t] {
            let t = choose|t: int| 0 <= t < res.n() && !#[trigger] res.pinned[t] && !res.refbit[t];
            assert(!m.pinned[t]);
        }
    }
    assert forall|t: int| 0 <= t < res.n() implies #[trigger] b.refbit[t] == (t == s
        || bits_after_going(res, s, t)) by {
        assert(m.after_victim().refbit[t] == bits_after_going(m, s, t));
        assert(bits_after_going(m, s, t) == bits_after_going(res, s, t));
    }
    assert forall|x: u64| x != id implies (#[trigger] b.map.contains_key(x)
        <==> res.map.contains_key(x) && res.map[x] != s as u32) by {
        let _ = b.map[x];
    }
}

/// A lookup of one row, for every state of the cache and every row.
pub proof fn resolving_one_row(
    c: &mut NgramRowCache,
    ids: &[u64],
    out: &mut Vec<u32>,
    r: Result<Vec<Fault>, CacheError>,
)
    requires
        old(c).wf(),
        ids@.len() == 1,
        call_ensures(NgramRowCache::resolve, (c, ids, out), r),
    ensures
        one_lookup(old(c)@, final(c)@, ids@[0], final(out)@, r),
{
    let res = old(c)@.res;
    let id = ids@[0];
    old(c).wf_is_inv();
    reveal_with_fuel(Residency::decide, 3);
    assert(ids@.drop_last() =~= Seq::empty());
    let none = Seq::<Fault>::empty();
    if id >= res.rows_total {
        res.released_nothing();
    } else if res.map.contains_key(id) {
        assert(res.map[id] < res.n());
    } else {
        let m = res.after_miss();
        assert(m.all_pinned() <==> res.all_pinned()) by {
            assert(forall|t: int| m.pinned[t] == #[trigger] res.pinned[t]);
        }
        if res.all_pinned() {
            m.released_nothing();
        } else {
            one_miss_takes_in(res, id);
        }
    }
}

// ---- many lookups --------------------------------------------------------------
/// Lookups that follow on others that were not refused.
proof fn deciding_on(res: Residency, a: Seq<u64>, b: Seq<u64>)
    ensures
        res.decide(a).refusal is None ==> {
            let d = res.decide(a);
            let e = d.res.decide(b);
            res.decide(a + b) == (Decision {
                res: e.res,
                slots: d.slots + e.slots,
                faults: d.faults + e.faults,
                refusal: e.refusal,
            })
        },
        res.decide(a).refusal is Some ==> res.decide(a + b) == res.decide(a),
    decreases b.len(),
{
    if b.len() == 0 {
        assert(a + b =~= a);
        let d = res.decide(a);
        assert(d.slots + Seq::<u32>::empty() =~= d.slots);
        assert(d.faults + Seq::<Fault>::empty() =~= d.faults);
    } else {
        let init = b.drop_last();
        deciding_on(res, a, init);
        assert((a + b).drop_last() =~= a + init);
        assert((a + b).last() == b.last());
        if res.decide(a).refusal is None {
            let d = res.decide(a);
            let e = d.res.decide(init);
            let f = d.res.decide(b);
            let whole = res.decide(a + b);
            assert(whole.slots =~= d.slots + f.slots);
            assert(whole.faults =~= d.faults + f.faults);
        }
    }
}

/// Looking up nothing changes nothing.
pub proof fn resolving_nothing(
    c: &mut NgramRowCache,
    ids: &[u64],
    out: &mut Vec<u32>,
    r: Result<Vec<Fault>, CacheError>,
)
    requires
        old(c).wf(),
        ids@.len() == 0,
        call_ensures(NgramRowCache::resolve, (c, ids, out), r),
    ensures
        final(c)@ == old(c)@,
        final(out)@.len() == 0,
        r matches Ok(faults) && faults@.len() == 0,
{
}

/// A batch is looked up row by row. Where its first part is served, the whole
/// comes to the same as the first part and then the rest: the same slots, the
/// same reads, and the same cache.
pub proof fn a_batch_is_resolved_part_by_part(
    c: &mut NgramRowCache,
    ids: &[u64],
    out: &mut Vec<u32>,
    r: Result<Vec<Fault>, CacheError>,
    first: &mut NgramRowCache,
    first_ids: &[u64],
    first_out: &mut Vec<u32>,
    first_r: Result<Vec<Fault>, CacheError>,
    rest: &mut NgramRowCache,
    rest_ids: &[u64],
    rest_out: &mut Vec<u32>,
    rest_r: Result<Vec<Fault>, CacheError>,
)
    requires
        old(c).wf(),
        call_ensures(NgramRowCache::resolve, (c, ids, out), r),
        call_ensures(NgramRowCache::resolve, (first, first_ids, first_out), first_r),
        call_ensures(NgramRowCache::resolve, (rest, rest_ids, rest_out), rest_r),
        ids@ == first_ids@ + rest_ids@,
        old(first)@ == old(c)@,
        first_r is Ok,
        old(rest)@ == final(first)@,
    ensures
        final(out)@ == final(first_out)@ + final(rest_out)@,
        match rest_r {
            Ok(faults) => {
                &&& final(c)@ == final(rest)@
                &&& r is Ok
                &&& (r->Ok_0)@ == (first_r->Ok_0)@ + faults@
            },
            Err(e) => {
                &&& r == Err::<Vec<Fault>, CacheError>(e)
                &&& same_memory(old(c)@, final(c)@)
                &&& withdrawn(final(rest)@.res, (first_r->Ok_0)@, final(c)@.res)
            },
        },
{
    let res = old(c)@.res;
    let d = res.decide(first_ids@);
    let e = d.res.decide(rest_ids@);
    old(c).wf_is_inv();
    deciding_on(res, first_ids@, rest_ids@);
    res.decision_follows(first_ids@);
    d.res.decision_follows(rest_ids@);
    if rest_r is Err {
        withdrawing_twice(e.res, d.faults, e.faults);
    }
}

/// The claims of `faults` are withdrawn, and nothing else changes: their rows are
/// not resident and their slots are empty.
pub open spec fn withdrawn(a: Residency, faults: Seq<Fault>, b: Residency) -> bool {
    &&& same_clock(a, b)
    &&& b.hits == a.hits
    &&& b.misses == a.misses
    &&& b.evictions == a.evictions
    &&& forall|x: u64| #[trigger]
        b.map.contains_key(x) <==> a.map.contains_key(x) && !still_claimed(a, faults, x)
    &&& forall|x: u64| b.map.contains_key(x) ==> #[trigger] b.map[x] == a.map[x]
    &&& forall|s: int|
        0 <= s < a.slot_row.len() ==> #[trigger] b.slot_row[s] == if still_taken(a, faults, s) {
            0xffff_ffff_ffff_ffff
        } else {
            a.slot_row[s]
        }
}

/// Claims that are withdrawn together could be withdrawn one list after the other.
proof fn withdrawing_twice(res: Residency, first: Seq<Fault>, rest: Seq<Fault>)
    requires
        res.inv(),
        forall|i: int| 0 <= i < first.len() ==> (#[trigger] first[i]).id < res.rows_total,
    ensures
        withdrawn(res.released(rest), first, res.released(first + rest)),
{
    let a = res.released(rest);
    let b = res.released(first + rest);
    let all = first + rest;
    assert forall|x: u64| #[trigger] b.map.contains_key(x) <==> a.map.contains_key(x)
        && !still_claimed(a, first, x) by {
        if res.map.contains_key(x) {
            if res.still_maps(all, x) {
                let i = choose|i: int|
                    0 <= i < all.len() && (#[trigger] all[i]).id == x && res.map[x] == all[i].slot;
                if i < first.len() {
                    assert(first[i].id == x && first[i].slot == res.map[x]);
                } else {
                    assert(rest[i - first.len()].id == x);
                    assert(res.still_maps(rest, x));
                }
            }
            if res.still_maps(rest, x) {
                let i = choose|i: int|
                    0 <= i < rest.len() && (#[trigger] rest[i]).id == x && res.map[x]
                        == rest[i].slot;
                assert(all[first.len() + i].id == x);
            } else if still_claimed(a, first, x) {
                let i = choose|i: int|
                    0 <= i < first.len() && (#[trigger] first[i]).id == x && first[i].slot
                        == a.map[x];
                assert(all[i].id == x);
            }
        }
    }
    assert forall|s: int| 0 <= s < a.slot_row.len() implies #[trigger] b.slot_row[s]
        == if still_taken(a, first, s) {
        0xffff_ffff_ffff_ffff
    } else {
        a.slot_row[s]
    } by {
        if res.still_holds(all, s) {
            let i = choose|i: int|
                0 <= i < all.len() && (#[trigger] all[i]).slot == s && res.slot_row[s] == all[i].id;
            if i < first.len() {
                assert(first[i].slot == s && first[i].id == res.slot_row[s]);
            } else {
                assert(rest[i - first.len()].slot == s);
                assert(res.still_holds(rest, s));
            }
        }
        if res.still_holds(rest, s) {
            let i = choose|i: int|
                0 <= i < rest.len() && (#[trigger] rest[i]).slot == s && res.slot_row[s]
                    == rest[i].id;
            assert(all[first.len() + i].slot == s);
        } else if still_taken(a, first, s) {
            let i = choose|i: int|
                0 <= i < first.len() && (#[trigger] first[i]).slot == s && first[i].id
                    == a.slot_row[s];
            assert(all[i].slot == s);
        }
    }
}

/// A batch whose first part is refused is refused with it.
pub proof fn a_batch_is_refused_with_its_first_part(
    c: &mut NgramRowCache,
    ids: &[u64],
    out: &mut Vec<u32>,
    r: Result<Vec<Fault>, CacheError>,
    first: &mut NgramRowCache,
    first_ids: &[u64],
    first_out: &mut Vec<u32>,
    first_r: Result<Vec<Fault>, CacheError>,
    rest_ids: Seq<u64>,
)
    requires
        old(c).wf(),
        call_ensures(NgramRowCache::resolve, (c, ids, out), r),
        call_ensures(NgramRowCache::resolve, (first, first_ids, first_out), first_r),
        ids@ == first_ids@ + rest_ids,
        old(first)@ == old(c)@,
        first_r is Err,
    ensures
        final(out)@ == final(first_out)@,
        final(c)@ == final(first)@,
        r == first_r,
{
    deciding_on(old(c)@.res, first_ids@, rest_ids);
}

/// The bookkeeping, with nothing pinned.
pub open spec fn without_pins(res: Residency) -> Residency {
    Residency { pinned: Seq::new(res.slot_row.len(), |s: int| false), ..res }
}

/// Every lookup that a batch was served leaves its slot referenced and pinned,
/// hit or miss, with the row in it. So as long as some other unpinned slot is not
/// referenced, none of the batch's slots is the next to go once the batch has
/// ended.
pub proof fn served_slots_are_referenced(
    c: &mut NgramRowCache,
    ids: &[u64],
    out: &mut Vec<u32>,
    r: Result<Vec<Fault>, CacheError>,
)
    requires
        old(c).wf(),
        call_ensures(NgramRowCache::resolve, (c, ids, out), r),
    ensures
        r is Ok ==> final(out)@.len() == ids@.len(),
        final(out)@.len() <= ids@.len(),
        forall|i: int|
            0 <= i < final(out)@.len() ==> {
                &&& (#[trigger] final(out)@[i]) < final(c)@.res.slot_row.len()
                &&& final(c)@.res.refbit[final(out)@[i] as int]
                &&& final(c)@.res.pinned[final(out)@[i] as int]
            },
        r is Ok ==> forall|i: int|
            0 <= i < ids@.len() ==> {
                &&& final(c)@.res.map.contains_key(#[trigger] ids@[i])
                &&& final(c)@.res.map[ids@[i]] == final(out)@[i]
                &&& final(c)@.res.slot_row[final(out)@[i] as int] == ids@[i]
            },
        (exists|t: int|
            0 <= t < final(c)@.res.slot_row.len() && !#[trigger] final(c)@.res.refbit[t])
            ==> forall|i: int|
            0 <= i < final(out)@.len() ==> !is_next_to_go(
                without_pins(final(c)@.res),
                (#[trigger] final(out)@[i]) as int,
            ),
{
    let res = old(c)@.res;
    let d = res.decide(ids@);
    let b = final(c)@.res;
    old(c).wf_is_inv();
    res.decision_follows(ids@);
    served_bits_stand(res, ids@);
    assert(b.refbit == d.res.refbit && b.pinned == d.res.pinned);
    assert forall|i: int| 0 <= i < final(out)@.len() implies {
        &&& (#[trigger] final(out)@[i]) < b.slot_row.len()
        &&& b.refbit[final(out)@[i] as int]
        &&& b.pinned[final(out)@[i] as int]
    } by {
        assert(d.res.map.contains_key(ids@[i]));
    }
    if r is Ok {
        assert forall|i: int| 0 <= i < ids@.len() implies {
            &&& b.map.contains_key(#[trigger] ids@[i])
            &&& b.map[ids@[i]] == final(out)@[i]
            &&& b.slot_row[final(out)@[i] as int] == ids@[i]
        } by {
            assert(d.res.map.contains_key(ids@[i]));
        }
    }
    if exists|t: int| 0 <= t < b.slot_row.len() && !#[trigger] b.refbit[t] {
        let t = choose|t: int| 0 <= t < b.slot_row.len() && !#[trigger] b.refbit[t];
        assert(!without_pins(b).pinned[t] && !without_pins(b).refbit[t]);
    }
}

/// Slots that were handed out stay referenced until the batch ends.
proof fn served_bits_stand(res: Residency, ids: Seq<u64>)
    requires
        res.inv(),
    ensures
        forall|i: int|
            0 <= i < res.decide(ids).slots.len() ==> res.decide(ids).res.refbit[(
            #[trigger] res.decide(ids).slots[i]) as int],
    decreases ids.len(),
{
    if ids.len() > 0 {
        let init = ids.drop_last();
        let id = ids.last();
        let d = res.decide(init);
        let e = res.decide(ids);
        served_bits_stand(res, init);
        res.decision_follows(init);
        let m = d.res.after_miss();
        assert forall|i: int| 0 <= i < d.slots.len() implies (#[trigger] d.slots[i]) < d.res.n()
            && d.res.pinned[d.slots[i] as int] && d.res.refbit[d.slots[i] as int] by {
            assert(d.res.map.contains_key(init[i]));
        }
        if d.refusal is None && id < res.rows_total {
            if d.res.map.contains_key(id) {
                assert(d.res.map[id] < d.res.n());
                assert forall|i: int| 0 <= i < e.slots.len() implies e.res.refbit[(
                #[trigger] e.slots[i]) as int] by {
                    if i < d.slots.len() {
                        assert(e.slots[i] == d.slots[i]);
                    }
                }
            } else if !m.all_pinned() {
                m.clock_gives_up_an_unpinned_slot();
                let s = m.victim_slot();
                assert(s as u32 == s);
                assert forall|i: int| 0 <= i < e.slots.len() implies e.res.refbit[(
                #[trigger] e.slots[i]) as int] by {
                    if i < d.slots.len() {
                        assert(e.slots[i] == d.slots[i]);
                        let t = d.slots[i] as int;
                        assert(m.pinned[t]);
                        assert(m.after_victim().refbit[t]);
                    }
                }
            }
        }
    }
}

/// A batch that is refused tells of the row that the table does not have, or of
/// the slots; whichever it is, no byte of memory changes, no pin is given back,
/// and no row is resident any more that the batch had asked to be read.
pub proof fn a_refused_batch_keeps_its_pins_only(
    c: &mut NgramRowCache,
    ids: &[u64],
    out: &mut Vec<u32>,
    e: CacheError,
)
    requires
        old(c).wf(),
        call_ensures(NgramRowCache::resolve, (c, ids, out), Err::<Vec<Fault>, CacheError>(e)),
    ensures
        same_memory(old(c)@, final(c)@),
        final(out)@.len() < ids@.len(),
        ({
            let k = final(out)@.len() as int;
            e == if ids@[k] >= old(c)@.res.rows_total {
                CacheError::RowOutOfRange { id: ids@[k], rows_total: old(c)@.res.rows_total }
            } else {
                CacheError::AllPinned { slots: old(c)@.res.slot_row.len() as usize }
            }
        }),
        forall|s: int|
            0 <= s < old(c)@.res.slot_row.len() && old(c)@.res.pinned[s]
                ==> #[trigger] final(c)@.res.pinned[s],
        forall|x: u64| #[trigger]
            final(c)@.res.map.contains_key(x) ==> old(c)@.res.map.contains_key(x)
                && final(c)@.res.map[x] == old(c)@.res.map[x],
{
    let res = old(c)@.res;
    old(c).wf_is_inv();
    res.decision_follows(ids@);
    crate::lookups::a_batch_is_refused_where_it_must_be(res, ids@);
    res.release_drops_every_read(ids@);
}

// ---- the end of reads and of a batch -------------------------------------------
/// Ending a batch takes every pin away and changes nothing else.
pub proof fn ending_a_batch_frees_its_slots(c: &mut NgramRowCache)
    requires
        old(c).wf(),
        call_ensures(NgramRowCache::end_batch, (c,), ()),
    ensures
        final(c).wf(),
        same_memory(old(c)@, final(c)@),
        same_rows(old(c)@.res, final(c)@.res),
        forall|s: int|
            0 <= s < old(c)@.res.slot_row.len() ==> !#[trigger] final(c)@.res.pinned[s],
        forall|s: int|
            0 <= s < old(c)@.res.slot_row.len() ==> #[trigger] final(c)@.res.refbit[s]
                == old(c)@.res.refbit[s],
        final(c)@.res.hand == old(c)@.res.hand,
        final(c)@.res.hits == old(c)@.res.hits,
        final(c)@.res.misses == old(c)@.res.misses,
        final(c)@.res.evictions == old(c)@.res.evictions,
{
    old(c).wf_is_inv();
}

/// A row that was given a slot by one of `faults`, and still has it.
pub open spec fn still_claimed(a: Residency, faults: Seq<Fault>, id: u64) -> bool {
    exists|i: int|
        0 <= i < faults.len() && (#[trigger] faults[i]).id == id && faults[i].slot == a.map[id]
}

/// A slot that was given a row by one of `faults`, and still has it.
pub open spec fn still_taken(a: Residency, faults: Seq<Fault>, s: int) -> bool {
    exists|i: int|
        0 <= i < faults.len() && (#[trigger] faults[i]).slot == s && faults[i].id == a.slot_row[s]
}

/// A failed read withdraws the claims of all reads of its batch, and those only:
/// their rows are not resident and their slots are empty. Pins, reference bits,
/// the hand, the counters and the memory stay.
pub proof fn a_failed_read_withdraws_the_claims(
    c: &mut NgramRowCache,
    faults: &[Fault],
    e: FetchError,
    r: Result<(), CacheError>,
)
    requires
        old(c).wf(),
        call_ensures(
            NgramRowCache::complete,
            (c, faults, Err::<Vec<FetchedRow>, FetchError>(e)),
            r,
        ),
    ensures
        final(c).wf(),
        r == Err::<(), CacheError>(CacheError::Fetch(e)),
        same_memory(old(c)@, final(c)@),
        withdrawn(old(c)@.res, faults@, final(c)@.res),
{
    let a = old(c)@.res;
    old(c).wf_is_inv();
    a.release_keeps_inv(faults@);
    assert forall|x: u64| #[trigger] a.still_maps(faults@, x) == still_claimed(a, faults@, x) by {
        if a.still_maps(faults@, x) {
            let i = choose|i: int|
                0 <= i < faults@.len() && (#[trigger] faults@[i]).id == x && a.map[x]
                    == faults@[i].slot;
            assert(faults@[i].id == x);
        }
        if still_claimed(a, faults@, x) {
            let i = choose|i: int|
                0 <= i < faults@.len() && (#[trigger] faults@[i]).id == x && faults@[i].slot
                    == a.map[x];
            assert(faults@[i].id == x);
        }
    }
    assert forall|s: int| #[trigger] a.still_holds(faults@, s) == still_taken(a, faults@, s) by {
        if a.still_holds(faults@, s) {
            let i = choose|i: int|
                0 <= i < faults@.len() && (#[trigger] faults@[i]).slot == s && a.slot_row[s]
                    == faults@[i].id;
            assert(faults@[i].slot == s);
        }
        if still_taken(a, faults@, s) {
            let i = choose|i: int|
                0 <= i < faults@.len() && (#[trigger] faults@[i]).slot == s && faults@[i].id
                    == a.slot_row[s];
            assert(faults@[i].slot == s);
        }
    }
}

/// Byte `i` of memory for slots of `width` bytes belongs to none of the slots that
/// `faults` read into.
pub open spec fn outside_the_reads(faults: Seq<Fault>, width: int, i: int) -> bool {
    forall|k: int|
        0 <= k < faults.len() ==> !((#[trigger] faults[k]).slot * width <= i < faults[k].slot
            * width + width)
}

/// Rows that were read land where a device gathers them: byte `b` of a row at
/// `slot * row_stride + b`, and byte `b` of its scale at `slot * 4 + b`. No other
/// byte of memory changes, and nothing of the bookkeeping.
pub proof fn rows_land_in_their_slots(
    c: &mut NgramRowCache,
    faults: &[Fault],
    rows: Vec<FetchedRow>,
    r: Result<(), CacheError>,
)
    requires
        old(c).wf(),
        old(c)@.res.claimed(faults@),
        old(c)@.answered(faults@, rows@),
        call_ensures(
            NgramRowCache::complete,
            (c, faults, Ok::<Vec<FetchedRow>, FetchError>(rows)),
            r,
        ),
    ensures
        final(c).wf(),
        r == Ok::<(), CacheError>(()),
        final(c)@.res == old(c)@.res,
        final(c)@.source == old(c)@.source,
        final(c)@.table_va == old(c)@.table_va,
        final(c)@.scale_va == old(c)@.scale_va,
        final(c)@.arena.len() == old(c)@.arena.len(),
        final(c)@.scales is Some <==> old(c)@.scales is Some,
        forall|k: int, b: int|
            0 <= k < rows@.len() && 0 <= b < old(c)@.source.row_stride ==> final(c)@.arena[
            faults@[k].slot * old(c)@.source.row_stride + b] == #[trigger] rows@[k].row@[b],
        forall|i: int|
            0 <= i < old(c)@.arena.len() && outside_the_reads(
                faults@,
                old(c)@.source.row_stride as int,
                i,
            ) ==> #[trigger] final(c)@.arena[i] == old(c)@.arena[i],
        old(c)@.source.row_scales ==> forall|k: int, b: int|
            0 <= k < rows@.len() && 0 <= b < 4 ==> (final(c)@.scales->0)[faults@[k].slot * 4 + b]
                == #[trigger] (rows@[k].scale->0)@[b],
        old(c)@.scales is Some ==> {
            &&& (final(c)@.scales->0).len() == (old(c)@.scales->0).len()
            &&& forall|i: int|
                0 <= i < (old(c)@.scales->0).len() && (!old(c)@.source.row_scales
                    || outside_the_reads(faults@, 4, i)) ==> #[trigger] (final(c)@.scales->0)[i]
                    == (old(c)@.scales->0)[i]
        },
{
    let v = old(c)@;
    old(c).wf_is_inv();
    assert forall|i: int, j: int| 0 <= i < j < faults@.len() implies (#[trigger] faults@[i]).slot
        != (#[trigger] faults@[j]).slot by {
        assert(v.res.slot_row[faults@[i].slot as int] == faults@[i].id);
        assert(v.res.slot_row[faults@[j].slot as int] == faults@[j].id);
    }
    assert forall|k: int| 0 <= k < faults@.len() implies rows@[k].slot == (
    #[trigger] faults@[k]).slot by {
        let _ = rows@[k];
    }
    bytes_land(v, faults@, rows@);
}

/// The bytes of rows that were put into slots of their own.
proof fn bytes_land(v: CacheView, faults: Seq<Fault>, rows: Seq<FetchedRow>)
    requires
        v.inv(),
        v.answered(faults, rows),
        forall|i: int, j: int|
            0 <= i < j < faults.len() ==> (#[trigger] faults[i]).slot != (#[trigger] faults[j]).slot,
    ensures
        v.landed(rows).res == v.res,
        v.landed(rows).source == v.source,
        v.landed(rows).table_va == v.table_va,
        v.landed(rows).scale_va == v.scale_va,
        v.landed(rows).arena.len() == v.arena.len(),
        v.landed(rows).scales is Some <==> v.scales is Some,
        v.scales is Some ==> (v.landed(rows).scales->0).len() == (v.scales->0).len(),
        forall|k: int, b: int|
            0 <= k < rows.len() && 0 <= b < v.source.row_stride ==> v.landed(rows).arena[
            faults[k].slot * v.source.row_stride + b] == #[trigger] rows[k].row@[b],
        forall|i: int|
            0 <= i < v.arena.len() && outside_the_reads(faults, v.source.row_stride as int, i)
                ==> #[trigger] v.landed(rows).arena[i] == v.arena[i],
        v.source.row_scales ==> forall|k: int, b: int|
            0 <= k < rows.len() && 0 <= b < 4 ==> (v.landed(rows).scales->0)[faults[k].slot * 4 + b]
                == #[trigger] (rows[k].scale->0)@[b],
        v.scales is Some ==> forall|i: int|
            0 <= i < (v.scales->0).len() && (!v.source.row_scales || outside_the_reads(
                faults,
                4,
                i,
            )) ==> #[trigger] (v.landed(rows).scales->0)[i] == (v.scales->0)[i],
    decreases rows.len(),
{
    if rows.len() > 0 {
        let init = rows.drop_last();
        let finit = faults.drop_last();
        let last = rows.len() - 1;
        let w = v.source.row_stride as int;
        assert(rows[last] == rows.last());
        assert(v.answered(finit, init));
        bytes_land(v, finit, init);
        v.landing_keeps_inv(init);
        let mid = v.landed(init);
        let t = faults[last].slot as int;
        assert(rows[last].slot == t);
        crate::view::slots_are_disjoint(t, t, v.n(), w);
        crate::view::slots_are_disjoint(t, t, v.n(), 4);
        assert forall|k: int, b: int| 0 <= k < rows.len() && 0 <= b < w implies v.landed(
            rows,
        ).arena[faults[k].slot * w + b] == #[trigger] rows[k].row@[b] by {
            if k < last {
                let s = faults[k].slot as int;
                assert(rows[k].slot == s);
                assert(s != t);
                crate::view::slots_are_disjoint(s, t, v.n(), w);
                assert(init[k].row@[b] == rows[k].row@[b]);
                assert(finit[k] == faults[k]);
            }
        }
        assert forall|i: int| 0 <= i < v.arena.len() && outside_the_reads(
            faults,
            w,
            i,
        ) implies #[trigger] v.landed(rows).arena[i] == v.arena[i] by {
            assert(!(faults[last].slot * w <= i < faults[last].slot * w + w));
            assert(outside_the_reads(finit, w, i)) by {
                assert forall|k: int| 0 <= k < finit.len() implies !((#[trigger] finit[k]).slot * w
                    <= i < finit[k].slot * w + w) by {
                    assert(finit[k] == faults[k]);
                }
            }
            assert(mid.arena[i] == v.arena[i]);
        }
        if v.source.row_scales {
            assert forall|k: int, b: int| 0 <= k < rows.len() && 0 <= b < 4 implies (v.landed(
                rows,
            ).scales->0)[faults[k].slot * 4 + b] == #[trigger] (rows[k].scale->0)@[b] by {
                if k < last {
                    let s = faults[k].slot as int;
                    assert(rows[k].slot == s);
                    assert(s != t);
                    crate::view::slots_are_disjoint(s, t, v.n(), 4);
                    assert((init[k].scale->0)@[b] == (rows[k].scale->0)@[b]);
                    assert(finit[k] == faults[k]);
                }
            }
        }
        if v.scales is Some {
            assert forall|i: int|
                0 <= i < (v.scales->0).len() && (!v.source.row_scales || outside_the_reads(
                    faults,
                    4,
                    i,
                )) implies #[trigger] (v.landed(rows).scales->0)[i] == (v.scales->0)[i] by {
                if v.source.row_scales {
                    assert(!(faults[last].slot * 4 <= i < faults[last].slot * 4 + 4));
                    assert(outside_the_reads(finit, 4, i)) by {
                        assert forall|k: int| 0 <= k < finit.len() implies !((
                        #[trigger] finit[k]).slot * 4 <= i < finit[k].slot * 4 + 4) by {
                            assert(finit[k] == faults[k]);
                        }
                    }
                }
                assert((mid.scales->0)[i] == (v.scales->0)[i]);
            }
        }
    }
}

/// The bytes of a slot are those from `slot * row_stride` on, and its scale those
/// from `slot * 4` on. A slot that there is not has none.
pub proof fn a_slot_is_read_where_it_lies(
    c: &NgramRowCache,
    slot: u32,
    row: Result<&[u8], CacheError>,
    scale: Result<Option<&[u8]>, CacheError>,
)
    requires
        c.wf(),
        call_ensures(NgramRowCache::slot_bytes, (c, slot), row),
        call_ensures(NgramRowCache::slot_scale, (c, slot), scale),
    ensures
        slot >= c@.res.slot_row.len() ==> {
            &&& row == Err::<&[u8], CacheError>(CacheError::SlotOutOfRange { slot })
            &&& scale == Err::<Option<&[u8]>, CacheError>(CacheError::SlotOutOfRange { slot })
        },
        slot < c@.res.slot_row.len() ==> {
            &&& row is Ok
            &&& (row->Ok_0)@.len() == c@.source.row_stride
            &&& forall|b: int|
                0 <= b < c@.source.row_stride ==> #[trigger] (row->Ok_0)@[b] == c@.arena[slot
                    * c@.source.row_stride + b]
            &&& scale is Ok
            &&& scale->Ok_0 is Some <==> c@.scales is Some
            &&& c@.scales is Some ==> {
                &&& ((scale->Ok_0)->0)@.len() == 4
                &&& forall|b: int|
                    0 <= b < 4 ==> #[trigger] ((scale->Ok_0)->0)@[b] == (c@.scales->0)[slot * 4 + b]
            }
        },
{
    c.wf_is_inv();
    if slot < c@.res.slot_row.len() {
        crate::view::slots_are_disjoint(slot as int, slot as int, c@.n(), c@.stride());
        crate::view::slots_are_disjoint(slot as int, slot as int, c@.n(), 4);
    }
}

/// The counters tell what a lookup was: a hit more where the row was resident; a
/// miss more where it was not, and an eviction more where a row had to go for it;
/// nothing where the table has no such row.
pub proof fn the_counters_tell_hits_from_misses(
    c: &mut NgramRowCache,
    ids: &[u64],
    out: &mut Vec<u32>,
    r: Result<Vec<Fault>, CacheError>,
    before: (u64, u64, u64),
    after: (u64, u64, u64),
)
    requires
        old(c).wf(),
        ids@.len() == 1,
        call_ensures(NgramRowCache::stats, (&*old(c),), before),
        call_ensures(NgramRowCache::resolve, (c, ids, out), r),
        call_ensures(NgramRowCache::stats, (&*final(c),), after),
    ensures
        ({
            let known = ids@[0] < old(c)@.res.rows_total;
            let resident = old(c)@.res.map.contains_key(ids@[0]);
            &&& after.0 == before.0 + if known && resident {
                1int
            } else {
                0int
            }
            &&& after.1 == before.1 + if known && !resident {
                1int
            } else {
                0int
            }
            &&& after.2 == before.2 + if known && !resident && r is Ok
                && old(c)@.res.slot_row[final(out)@[0] as int] != 0xffff_ffff_ffff_ffff {
                1int
            } else {
                0int
            }
        }),
{
    resolving_one_row(c, ids, out, r);
}

/// A second lookup of the same row, with nothing in between, finds it in the slot
/// that it was given and counts a hit.
pub proof fn a_row_is_found_again(
    c: &mut NgramRowCache,
    ids: &[u64],
    out: &mut Vec<u32>,
    r: Result<Vec<Fault>, CacheError>,
    again: &mut NgramRowCache,
    again_out: &mut Vec<u32>,
    again_r: Result<Vec<Fault>, CacheError>,
)
    requires
        old(c).wf(),
        ids@.len() == 1,
        call_ensures(NgramRowCache::resolve, (c, ids, out), r),
        r is Ok,
        *old(again) == *final(c),
        call_ensures(NgramRowCache::resolve, (again, ids, again_out), again_r),
    ensures
        again_r matches Ok(faults) && faults@.len() == 0,
        final(again_out)@ == final(out)@,
        final(again)@.res.hits == final(c)@.res.hits + 1,
        final(again)@.res.misses == final(c)@.res.misses,
        final(again)@.res.evictions == final(c)@.res.evictions,
        same_memory(final(c)@, final(again)@),
        same_rows(final(c)@.res, final(again)@.res),
        same_clock(final(c)@.res, final(again)@.res),
{
    resolving_one_row(c, ids, out, r);
    resolving_one_row(again, ids, again_out, again_r);
    assert(final(again_out)@ =~= final(out)@);
}

} // verus!
