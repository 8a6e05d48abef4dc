//! The row cache.

use crate::arena::RowArena;
use crate::block::BLOCK;
use crate::error::CacheError;
use crate::error::FetchError;
use crate::fetch::FetchedRow;
use crate::fetch::SCALE;
use crate::host::HostAddr;
use crate::laws::a_failed_batch_leaves_no_wrong_row;
use crate::laws::carries;
use crate::laws::landed_reads_are_not_owed;
use crate::laws::lookups_keep_faith;
use crate::laws::reported_reads_are_claimed;
use crate::laws::withdrawn_reads_are_not_owed;
use crate::lookups::a_batch_is_refused_only_if_it_must_be;
use crate::lookups::names_a_foreign_row;
use crate::lookups::needs_too_many_slots;
use crate::residency::Fault;
use crate::residency::Refusal;
use crate::residency::Residency;
use crate::residency::EMPTY;
use crate::share::ceil_div_is_tight;
use crate::source::split_source;
use crate::source::RowSource;
use crate::view::blank;
use crate::view::geometry_error;
use crate::view::geometry_fits;
use crate::view::scales_fit;
use crate::view::scales_kept;
use crate::view::slots_are_disjoint;
use crate::view::CacheView;
use crate::view::Table;
use std::collections::HashMap;
use vstd::prelude::*;

verus! {

broadcast use vstd::std_specs::hash::group_hash_axioms;

/// The rows of one table that are resident, each in a slot of a flat memory
/// that a device gathers from by slot number.
///
/// A lookup goes from a row to its slot. A row that is not resident is given
/// the slot that a second-chance clock gives up, and has to be read into it
/// before the slot is used. The slots of a batch are pinned until the batch
/// ends, so that no lookup of a batch can take the slot of another.
pub struct NgramRowCache {
    source: RowSource,
    /// Room for `slots` rows of `row_stride` bytes.
    arena: RowArena,
    /// Room for `slots` scales. Where rows have no scales of their own all slots
    /// hold the same one.
    scales: Option<RowArena>,
    slots: usize,
    rows_total: u64,
    map: HashMap<u64, u32>,
    slot_row: Vec<u64>,
    refbit: Vec<bool>,
    pinned: Vec<bool>,
    hand: usize,
    pub hits: u64,
    pub misses: u64,
    pub evictions: u64,
}

impl View for NgramRowCache {
    type V = CacheView;

    closed spec fn view(&self) -> CacheView {
        CacheView {
            res: self.residency(),
            source: self.source,
            arena: self.arena@,
            scales: match self.scales {
                Some(a) => Some(a@),
                None => None,
            },
            table_va: self.arena.va(),
            scale_va: match self.scales {
                Some(a) => Some(a.va()),
                None => None,
            },
        }
    }
}

impl NgramRowCache {
    spec fn residency(&self) -> Residency {
        Residency {
            rows_total: self.rows_total,
            map: self.map@,
            slot_row: self.slot_row@,
            refbit: self.refbit@,
            pinned: self.pinned@,
            hand: self.hand as int,
            hits: self.hits as int,
            misses: self.misses as int,
            evictions: self.evictions as int,
        }
    }

    /// The cache is in order.
    pub closed spec fn wf(&self) -> bool {
        &&& self@.inv()
        &&& self.knows_its_slots()
    }

    /// The number of slots is that of the slots' rows.
    pub closed spec fn knows_its_slots(&self) -> bool {
        self.slots == self.slot_row@.len()
    }

    /// Where the rows' memory lies, where the cache made it itself.
    pub closed spec fn rows_host(&self) -> Option<HostAddr> {
        self.arena.host()
    }

    /// Where the scales' memory lies, where the cache made it itself.
    pub closed spec fn scales_host(&self) -> Option<HostAddr> {
        match self.scales {
            Some(a) => a.host(),
            None => None,
        }
    }

    /// The addresses that the cache reports are those of memory that it made
    /// itself: that of the rows, and that of the scales where rows have scales.
    pub open spec fn reports_its_own_memory(&self) -> bool {
        &&& self.rows_host() is Some
        &&& self@.table_va == (self.rows_host()->0).value()
        &&& self@.source.row_scales ==> {
            &&& self.scales_host() is Some
            &&& self@.scale_va == Some((self.scales_host()->0).value() as u64)
        }
    }

    /// A cache that is in order has the invariant of its view.
    pub proof fn wf_is_inv(&self)
        requires
            self.wf(),
        ensures
            self@.inv(),
    {
    }

    /// What a call of [`Self::victim`] leaves behind: the slot that the clock
    /// gives up, or the report that every slot is pinned.
    pub open spec fn gives_up(
        before: CacheView,
        after: CacheView,
        r: Result<u32, CacheError>,
    ) -> bool {
        match r {
            Ok(s) => {
                &&& !before.res.all_pinned()
                &&& s == before.res.victim_slot()
                &&& after == before.with(before.res.after_victim())
            },
            Err(e) => {
                &&& before.res.all_pinned()
                &&& e == (CacheError::AllPinned { slots: before.n() as usize })
                &&& after == before
            },
        }
    }

    /// CLOCK second-chance victim among the unpinned slots.
    ///
    /// The slot still names the row that was in it: it is for the caller to put
    /// another one there.
    pub(crate) fn victim(&mut self) -> (r: Result<u32, CacheError>)
        requires
            old(self).wf(),
            old(self)@.res.evictions < u64::MAX,
        ensures
            final(self).knows_its_slots(),
            Self::gives_up(old(self)@, final(self)@, r),
    {
        let ghost was = self@.res;
        let n: usize = self.slots;
        let mut k: usize = 0;
        assert(was.at(0) == was.hand) by {
            was.hand_goes_round(0);
            crate::clock::wrap(was.hand, was.n());
        }
        assert(was.swept(0) =~= was.refbit) by {
            assert forall|s: int| 0 <= s < was.n() implies was.swept(0)[s] == was.refbit[s] by {
                was.hand_reaches(s);
            }
        }
        while k < n * 2
            invariant
                k <= 2 * n,
                2 * n <= usize::MAX,
                n == old(self).slots,
                n == self.slots,
                n == was.n(),
                was.inv(),
                was == old(self)@.res,
                was.evictions < u64::MAX,
                self@ == old(self)@.with(
                    Residency { refbit: was.swept(k as int), hand: was.at(k as int), ..was },
                ),
                0 <= self.hand < n,
                forall|j: int| 0 <= j < k ==> !#[trigger] was.takes(j),
            decreases 2 * n - k,
        {
            let s: usize = self.hand;
            proof {
                was.hand_goes_round(k as int);
            }
            assert(s == was.at(k as int));
            self.hand = (self.hand + 1) % self.slots;
            assert(self.hand == was.at(k + 1));
            if self.pinned[s] {
                assert(was.pinned[s as int]);
                assert(was.swept(k + 1) =~= was.swept(k as int)) by {
                    was.sweeping_on(k as int);
                }
                k = k + 1;
                continue;
            }
            if self.refbit[s] {
                self.refbit.set(s, false);
                assert(self.refbit@ =~= was.swept(k + 1)) by {
                    was.sweeping_on(k as int);
                }
                k = k + 1;
                continue;
            }
            assert(was.is_victim_step(k as int));
            proof {
                was.victim_step_is(k as int);
                was.clock_gives_up_an_unpinned_slot();
            }
            if self.slot_row[s] != EMPTY {
                let row: u64 = self.slot_row[s];
                self.map.remove(&row);
                self.evictions = self.evictions + 1;
            }
            return Ok(s as u32);
        }
        proof {
            was.clock_gives_up_an_unpinned_slot();
            was.hand_goes_round(0);
            crate::clock::wrap(was.hand + 2 * n, was.n());
            assert(was.swept(2 * n) =~= was.refbit);
        }
        assert(self@ == old(self)@);
        Err(CacheError::AllPinned { slots: self.slots })
    }

    /// Un-publishes the claims of rows whose bytes never landed.
    ///
    /// A claim is only withdrawn if it is still the one that was made: a row
    /// that has another slot by now keeps it, and a slot that has another row
    /// by now keeps that.
    pub(crate) fn drop_reservations(&mut self, faults: &[Fault])
        requires
            old(self).wf(),
            forall|i: int| 0 <= i < faults@.len() ==> (#[trigger] faults@[i]).slot < old(self)@.n(),
        ensures
            final(self).wf(),
            final(self)@ == old(self)@.with(old(self)@.res.released(faults@)),
    {
        let ghost was = self@.res;
        let mut k: usize = 0;
        proof {
            was.released_nothing();
            assert(faults@.take(0) =~= Seq::empty());
        }
        while k < faults.len()
            invariant
                k <= faults@.len(),
                was == old(self)@.res,
                was.inv(),
                forall|i: int| 0 <= i < faults@.len() ==> (#[trigger] faults@[i]).slot < was.n(),
                self.slots == old(self).slots,
                self@ == old(self)@.with(was.released(faults@.take(k as int))),
            decreases faults@.len() - k,
        {
            let ghost done = faults@.take(k as int);
            let f: Fault = faults[k];
            proof {
                was.released_one_more(done, f);
                assert(faults@.take(k + 1) =~= done.push(f));
            }
            let claimed: bool = match self.map.get(&f.id) {
                Some(s) => *s == f.slot,
                None => false,
            };
            if claimed {
                self.map.remove(&f.id);
            }
            if self.slot_row[f.slot as usize] == f.id {
                self.slot_row.set(f.slot as usize, EMPTY);
            }
            assert(self@.res.map =~= was.released(done.push(f)).map);
            assert(self@.res.slot_row =~= was.released(done.push(f)).slot_row);
            k = k + 1;
        }
        proof {
            assert(faults@.take(faults@.len() as int) =~= faults@);
            was.release_keeps_inv(faults@);
        }
    }

    /// Lookups of `ids` leave no wrong row behind, whether they are served or
    /// their claims are withdrawn.
    spec fn keeps_faith(c: CacheView, ids: Seq<u64>) -> bool {
        let d = c.res.decide(ids);
        &&& d.res.claimed(d.faults)
        &&& forall|table: Table, owed: Seq<Fault>| #[trigger]
            c.faithful(table, owed) ==> {
                &&& c.with(d.res).faithful(table, owed + d.faults)
                &&& c.with(d.res.released(d.faults)).faithful(table, owed)
            }
    }

    proof fn lookups_are_faithful(c: CacheView, ids: Seq<u64>)
        requires
            c.inv(),
        ensures
            Self::keeps_faith(c, ids),
    {
        let d = c.res.decide(ids);
        reported_reads_are_claimed(c.res, ids);
        assert forall|table: Table, owed: Seq<Fault>| #[trigger] c.faithful(table, owed) implies {
            &&& c.with(d.res).faithful(table, owed + d.faults)
            &&& c.with(d.res.released(d.faults)).faithful(table, owed)
        } by {
            lookups_keep_faith(c, table, owed, ids);
            a_failed_batch_leaves_no_wrong_row(c, table, owed, ids);
        }
    }

    /// What a call of [`Self::resolve`] on `ids` leaves behind.
    pub open spec fn resolved(
        before: CacheView,
        ids: Seq<u64>,
        after: CacheView,
        slots: Seq<u32>,
        r: Result<Vec<Fault>, CacheError>,
    ) -> bool {
        let d = before.res.decide(ids);
        &&& slots == d.slots
        &&& match d.refusal {
            None => {
                &&& r is Ok
                &&& (r->Ok_0)@ == d.faults
                &&& after == before.with(d.res)
            },
            Some(Refusal::OutOfRange(id)) => {
                &&& r == Err::<Vec<Fault>, CacheError>(
                    CacheError::RowOutOfRange { id, rows_total: before.res.rows_total },
                )
                &&& after == before.with(d.res.released(d.faults))
            },
            Some(Refusal::AllPinned) => {
                &&& r == Err::<Vec<Fault>, CacheError>(
                    CacheError::AllPinned { slots: before.n() as usize },
                )
                &&& after == before.with(d.res.released(d.faults))
            },
        }
    }

    /// Resolves `row_ids` to slots, and says which rows have to be read into
    /// their slots before those are used. The reads are to be reported to
    /// [`Self::complete`].
    ///
    /// The lookups are decided one after the other, in order, and a row that is
    /// to be read counts as resident from then on: looked up again in the same
    /// batch, it is a hit on the slot that is scheduled for it. Every slot that
    /// is handed out is pinned until [`Self::end_batch`], so that no later
    /// lookup of the batch takes it away.
    ///
    /// A batch that needs more slots than there are, or a row that the table does
    /// not have, is refused before a byte is read. A refusal withdraws every
    /// claim that the batch has made: a row must not count as resident while
    /// other bytes are in its slot.
    pub fn resolve(&mut self, row_ids: &[u64], out_slots: &mut Vec<u32>) -> (r: Result<
        Vec<Fault>,
        CacheError,
    >)
        requires
            old(self).wf(),
            old(self)@.can_count(row_ids@.len() as int),
        ensures
            final(self).wf(),
            old(self)@.res.decide(row_ids@).follows(old(self)@.res, row_ids@),
            Self::resolved(old(self)@, row_ids@, final(self)@, final(out_slots)@, r),
            r is Err <==> names_a_foreign_row(old(self)@.res, row_ids@) || needs_too_many_slots(
                old(self)@.res,
                row_ids@,
            ),
            r matches Ok(faults) ==> final(self)@.res.claimed(faults@),
            forall|table: Table, owed: Seq<Fault>| #[trigger]
                old(self)@.faithful(table, owed) ==> match r {
                    Ok(faults) => final(self)@.faithful(table, owed + faults@),
                    Err(_) => final(self)@.faithful(table, owed),
                },
    {
        out_slots.clear();
        out_slots.reserve(row_ids.len());
        let ghost was = self@.res;
        let ghost ids = row_ids@;
        let mut faults: Vec<Fault> = Vec::new();
        let mut i: usize = 0;
        proof {
            was.decision_follows(ids);
            assert(ids.take(0) =~= Seq::empty());
            Self::lookups_are_faithful(self@, ids);
            a_batch_is_refused_only_if_it_must_be(was, ids);
        }
        while i < row_ids.len()
            invariant
                i <= ids.len(),
                ids == row_ids@,
                was == old(self)@.res,
                old(self)@.can_count(ids.len() as int),
                old(self)@.inv(),
                old(self).slots == was.n(),
                was.decide(ids).follows(was, ids),
                Self::keeps_faith(old(self)@, ids),
                was.decide(ids).refusal is Some <==> names_a_foreign_row(was, ids)
                    || needs_too_many_slots(was, ids),
                self.slots == old(self).slots,
                self@ == old(self)@.with(was.decide(ids.take(i as int)).res),
                was.decide(ids.take(i as int)).refusal is None,
                out_slots@ == was.decide(ids.take(i as int)).slots,
                faults@ == was.decide(ids.take(i as int)).faults,
            decreases ids.len() - i,
        {
            let ghost prev = ids.take(i as int);
            let ghost d = was.decide(prev);
            proof {
                was.decision_follows(prev);
                assert(ids.take(i + 1).drop_last() =~= prev);
                assert(ids.take(i + 1).last() == ids[i as int]);
            }
            let id: u64 = row_ids[i];
            if id >= self.rows_total {
                proof {
                    was.refusal_is_final(ids, i + 1);
                }
                self.drop_reservations(faults.as_slice());
                return Err(CacheError::RowOutOfRange { id, rows_total: self.rows_total });
            }
            let resident: Option<u32> = match self.map.get(&id) {
                Some(s) => Some(*s),
                None => None,
            };
            let slot: u32 = match resident {
                Some(s) => {
                    self.hits = self.hits + 1;
                    self.refbit.set(s as usize, true);
                    self.pinned.set(s as usize, true);
                    s
                },
                None => {
                    self.misses = self.misses + 1;
                    assert(self@ == old(self)@.with(d.res.after_miss()));
                    match self.victim() {
                        Ok(s) => {
                            proof {
                                d.res.after_miss().clock_gives_up_an_unpinned_slot();
                            }
                            self.map.insert(id, s);
                            self.slot_row.set(s as usize, id);
                            self.refbit.set(s as usize, true);
                            self.pinned.set(s as usize, true);
                            faults.push(Fault { id, slot: s });
                            s
                        },
                        Err(e) => {
                            proof {
                                was.refusal_is_final(ids, i + 1);
                            }
                            self.drop_reservations(faults.as_slice());
                            return Err(e);
                        },
                    }
                },
            };
            out_slots.push(slot);
            i = i + 1;
        }
        assert(ids.take(ids.len() as int) =~= ids);
        Ok(faults)
    }

    /// Releases the pins of the batch, once its slots have been used.
    pub fn end_batch(&mut self)
        requires
            old(self).wf(),
        ensures
            final(self).wf(),
            final(self)@ == old(self)@.with(old(self)@.res.unpinned()),
    {
        let n: usize = self.pinned.len();
        let mut s: usize = 0;
        while s < n
            invariant
                s <= n,
                n == old(self).pinned@.len(),
                self.pinned@.len() == n,
                self.slots == old(self).slots,
                self@ == old(self)@.with(
                    Residency { pinned: self.pinned@, ..old(self)@.res },
                ),
                forall|t: int| 0 <= t < s ==> !#[trigger] self.pinned@[t],
            decreases n - s,
        {
            self.pinned.set(s, false);
            s = s + 1;
        }
        assert(self.pinned@ =~= old(self)@.res.unpinned().pinned);
    }

    /// Ends the reads that [`Self::resolve`] asked for.
    ///
    /// The rows that were read go into their slots. If a read failed, none of
    /// the batch's rows may stay claimed: which of them are complete is not
    /// known, and a row claimed with the wrong bytes in its slot would go
    /// unnoticed.
    pub fn complete(&mut self, faults: &[Fault], fetched: Result<Vec<FetchedRow>, FetchError>) -> (r:
        Result<(), CacheError>)
        requires
            old(self).wf(),
            forall|i: int| 0 <= i < faults@.len() ==> (#[trigger] faults@[i]).slot < old(self)@.n(),
            fetched matches Ok(rows) ==> old(self)@.answered(faults@, rows@),
        ensures
            final(self).wf(),
            match fetched {
                Ok(rows) => {
                    &&& r == Ok::<(), CacheError>(())
                    &&& final(self)@ == old(self)@.landed(rows@)
                },
                Err(e) => {
                    &&& r == Err::<(), CacheError>(CacheError::Fetch(e))
                    &&& final(self)@ == old(self)@.with(old(self)@.res.released(faults@))
                },
            },
            forall|table: Table, owed: Seq<Fault>| #[trigger]
                old(self)@.faithful(table, owed + faults@) && old(self)@.res.claimed(faults@) && (
                fetched matches Ok(rows) ==> carries(table, rows@, old(self)@.source.row_scales))
                    ==> final(self)@.faithful(table, owed),
    {
        proof {
            let c = self@;
            assert forall|table: Table, owed: Seq<Fault>| #[trigger]
                c.faithful(table, owed + faults@) && c.res.claimed(faults@) && (fetched matches Ok(
                    rows,
                ) ==> carries(table, rows@, c.source.row_scales)) implies match fetched {
                Ok(rows) => c.landed(rows@).faithful(table, owed),
                Err(_) => c.with(c.res.released(faults@)).faithful(table, owed),
            } by {
                match fetched {
                    Ok(rows) => landed_reads_are_not_owed(c, table, owed, faults@, rows@),
                    Err(_) => withdrawn_reads_are_not_owed(c, table, owed, faults@),
                }
            }
        }
        match fetched {
            Err(e) => {
                self.drop_reservations(faults);
                Err(CacheError::Fetch(e))
            },
            Ok(rows) => {
                let ghost was = self@;
                let mut k: usize = 0;
                assert(rows@.take(0) =~= Seq::empty());
                while k < rows.len()
                    invariant
                        k <= rows@.len(),
                        was == old(self)@,
                        was.inv(),
                        was.answered(faults@, rows@),
                        self.slots == old(self).slots,
                        self.slots == was.n(),
                        self@ == was.landed(rows@.take(k as int)),
                    decreases rows@.len() - k,
                {
                    proof {
                        was.landing_keeps_inv(rows@.take(k as int));
                        assert(rows@.take(k + 1).drop_last() =~= rows@.take(k as int));
                        assert(rows@.take(k + 1).last() == rows@[k as int]);
                        slots_are_disjoint(rows@[k as int].slot as int, 0, was.n(), was.stride());
                    }
                    self.land(&rows[k]);
                    k = k + 1;
                }
                proof {
                    was.landing_keeps_inv(rows@);
                    assert(rows@.take(rows@.len() as int) =~= rows@);
                }
                Ok(())
            },
        }
    }

    /// Puts one row into its slot.
    fn land(&mut self, r: &FetchedRow)
        requires
            old(self)@.inv(),
            r.slot < old(self)@.n(),
            r.row@.len() == old(self)@.stride(),
            r.scale matches Some(b) ==> old(self)@.scales is Some && b@.len() == SCALE,
        ensures
            final(self).slots == old(self).slots,
            final(self)@ == old(self)@.after_landing(*r),
    {
        proof {
            slots_are_disjoint(r.slot as int, 0, self@.n(), self@.stride());
            slots_are_disjoint(r.slot as int, 0, self@.n(), SCALE as int);
        }
        self.arena.write(r.slot as usize * self.source.row_stride, r.row.as_slice());
        match (&mut self.scales, &r.scale) {
            (Some(m), Some(b)) => m.write(r.slot as usize * SCALE, b.as_slice()),
            _ => {},
        }
    }

    /// Whether a cache of this geometry, without scales or with them, can be
    /// had at all on this machine.
    pub fn geometry_ok(row_stride: usize, slots: usize, with_scales: bool) -> (b: bool)
        requires
            geometry_error(row_stride, slots) is None,
        ensures
            b == (geometry_fits(row_stride as int, slots as int) && (with_scales ==> scales_fit(
                slots as int,
            ))),
    {
        let limit: u64 = 0x1_0000_0000;
        if slots as u64 > limit || slots > usize::MAX / 2 {
            return false;
        }
        assert(0 <= slots * row_stride <= 0x1000_0000_0000) by (nonlinear_arith)
            requires
                0 <= slots <= 0x1_0000_0000,
                0 <= row_stride <= 4096,
        ;
        assert(0 <= slots * SCALE <= 0x1000_0000_0000);
        let row_blocks: u64 = ((slots as u64) * (row_stride as u64) + (BLOCK as u64 - 1))
            / BLOCK as u64;
        let scale_blocks: u64 = ((slots as u64) * (SCALE as u64) + (BLOCK as u64 - 1))
            / BLOCK as u64;
        row_blocks <= u32::MAX as u64 && row_blocks * BLOCK as u64 <= usize::MAX as u64 && (
        !with_scales || scale_blocks * BLOCK as u64 <= usize::MAX as u64)
    }

    /// What opening a cache gives: the geometry's error, or a cache that holds
    /// no row.
    pub open spec fn opens(
        source: RowSource,
        rows_total: u64,
        slots: usize,
        r: Result<NgramRowCache, CacheError>,
    ) -> bool {
        match geometry_error(source.row_stride, slots) {
            Some(e) => r == Err::<NgramRowCache, CacheError>(e),
            None => {
                &&& r is Ok
                &&& (r->Ok_0).wf()
                &&& (r->Ok_0)@.opened(source, rows_total, slots as int)
                &&& (r->Ok_0).reports_its_own_memory()
            },
        }
    }

    /// Opens a cache of `slots` rows over a table in one file that starts with
    /// it. See [`Self::open_at`].
    pub fn open(row_scales: bool, rows_total: u64, row_stride: usize, slots: usize) -> (r: Result<
        NgramRowCache,
        CacheError,
    >)
        requires
            geometry_error(row_stride, slots) is None ==> {
                &&& geometry_fits(row_stride as int, slots as int)
                &&& row_scales ==> scales_fit(slots as int)
            },
        ensures
            Self::opens(
                RowSource { base_offset: 0, segments: None, row_stride, row_scales },
                rows_total,
                slots,
                r,
            ),
    {
        Self::open_at(0, row_scales, rows_total, row_stride, slots)
    }

    /// Opens a cache of `slots` rows over a table of `rows_total` rows of
    /// `row_stride` bytes, which starts at `base_offset` of one file: a table
    /// can be read where it lies inside a larger file. With `row_scales` every
    /// row has a scale in a file of its own.
    pub fn open_at(
        base_offset: u64,
        row_scales: bool,
        rows_total: u64,
        row_stride: usize,
        slots: usize,
    ) -> (r: Result<NgramRowCache, CacheError>)
        requires
            geometry_error(row_stride, slots) is None ==> {
                &&& geometry_fits(row_stride as int, slots as int)
                &&& row_scales ==> scales_fit(slots as int)
            },
        ensures
            Self::opens(
                RowSource { base_offset, segments: None, row_stride, row_scales },
                rows_total,
                slots,
                r,
            ),
    {
        let source = RowSource { base_offset, segments: None, row_stride, row_scales };
        Self::open_source(source, rows_total, slots)
    }

    /// Opens a cache of `slots` rows over a table that is split into shards of
    /// `rows_per` rows each, given by the file that each lies in and where it
    /// starts there. [`crate::source::plan_shard_files`] says which file has
    /// which number.
    pub fn open_segmented(
        shards: &[(String, u64)],
        rows_per: u64,
        row_scales: bool,
        row_stride: usize,
        slots: usize,
    ) -> (r: Result<NgramRowCache, CacheError>)
        requires
            shards@.len() <= u32::MAX,
            shards@.len() * rows_per <= u64::MAX,
            geometry_error(row_stride, slots) is None ==> {
                &&& geometry_fits(row_stride as int, slots as int)
                &&& row_scales ==> scales_fit(slots as int)
            },
        ensures
            exists|source: RowSource|
                {
                    &&& source.is_split(shards@, rows_per)
                    &&& source.row_stride == row_stride
                    &&& source.row_scales == row_scales
                    &&& #[trigger] Self::opens(
                        source,
                        (shards@.len() * rows_per) as u64,
                        slots,
                        r,
                    )
                },
    {
        let rows_total: u64 = shards.len() as u64 * rows_per;
        let source: RowSource = split_source(shards, rows_per, row_scales, row_stride);
        let ghost given = source;
        let r = Self::open_source(source, rows_total, slots);
        assert(Self::opens(given, rows_total, slots, r));
        r
    }

    /// Opens a cache of `slots` rows of `source` over memory that the caller has
    /// made: the region for the rows, and one for the scales where there are
    /// any. The regions' addresses are those that the cache reports.
    pub fn open_over(
        source: RowSource,
        rows_total: u64,
        slots: usize,
        rows: RowArena,
        scales: Option<RowArena>,
    ) -> (r: Result<NgramRowCache, CacheError>)
        requires
            source.wf(rows_total as int),
            geometry_error(source.row_stride, slots) is None ==> {
                &&& geometry_fits(source.row_stride as int, slots as int)
                &&& slots * source.row_stride <= rows@.len()
                &&& scales matches Some(m) ==> slots * SCALE <= m@.len()
                &&& source.row_scales ==> scales is Some
            },
        ensures
            match geometry_error(source.row_stride, slots) {
                Some(e) => r == Err::<NgramRowCache, CacheError>(e),
                None => {
                    &&& r is Ok
                    &&& (r->Ok_0).wf()
                    &&& (r->Ok_0)@.opened_over(source, rows_total, slots as int, rows, scales)
                    &&& (r->Ok_0).rows_host() == rows.host()
                    &&& (r->Ok_0).scales_host() == match scales {
                        Some(m) => m.host(),
                        None => None,
                    }
                },
            },
    {
        let row_stride: usize = source.row_stride;
        if row_stride == 0 || slots == 0 {
            return Err(CacheError::ZeroGeometry { row_stride, slots });
        }
        if row_stride > BLOCK {
            return Err(CacheError::RowTooWide { row_stride });
        }
        proof {
            rows.region_is_addressable();
            if scales is Some {
                (scales->0).region_is_addressable();
            }
        }
        let cache = NgramRowCache {
            source,
            arena: rows,
            scales,
            slots,
            rows_total,
            map: HashMap::with_capacity(slots * 2),
            slot_row: vec![EMPTY;slots],
            refbit: vec![false;slots],
            pinned: vec![false;slots],
            hand: 0,
            hits: 0,
            misses: 0,
            evictions: 0,
        };
        proof {
            let fresh = Residency::fresh(rows_total, slots as nat);
            Residency::fresh_has_inv(rows_total, slots as nat);
            assert(cache@.res.map =~= fresh.map);
            assert(cache@.res.slot_row =~= fresh.slot_row);
            assert(cache@.res.refbit =~= fresh.refbit);
            assert(cache@.res.pinned =~= fresh.pinned);
            assert(cache@.res == fresh);
        }
        Ok(cache)
    }

    fn open_source(source: RowSource, rows_total: u64, slots: usize) -> (r: Result<
        NgramRowCache,
        CacheError,
    >)
        requires
            source.wf(rows_total as int),
            geometry_error(source.row_stride, slots) is None ==> {
                &&& geometry_fits(source.row_stride as int, slots as int)
                &&& source.row_scales ==> scales_fit(slots as int)
            },
        ensures
            Self::opens(source, rows_total, slots, r),
    {
        let row_stride: usize = source.row_stride;
        if row_stride == 0 || slots == 0 {
            return Err(CacheError::ZeroGeometry { row_stride, slots });
        }
        if row_stride > BLOCK {
            return Err(CacheError::RowTooWide { row_stride });
        }
        proof {
            ceil_div_is_tight(slots * row_stride, BLOCK as int);
            ceil_div_is_tight(slots * SCALE, BLOCK as int);
            vstd::arithmetic::mul::lemma_mul_nonnegative(slots as int, row_stride as int);
        }
        let rows = RowArena::new(slots * row_stride);
        let scales: Option<RowArena> = if source.row_scales {
            Some(Self::scale_arena(slots))
        } else {
            None
        };
        Self::open_over(source, rows_total, slots, rows, scales)
    }

    /// Memory for the scales of `slots` rows.
    fn scale_arena(slots: usize) -> (a: RowArena)
        requires
            scales_fit(slots as int),
        ensures
            a@ == blank(slots as int, SCALE as int),
            a.host() is Some,
            a.va() == (a.host()->0).value(),
    {
        proof {
            ceil_div_is_tight(slots * SCALE, BLOCK as int);
        }
        RowArena::new(slots * SCALE)
    }

    /// Gives every slot the same scale: that of a table whose rows have no
    /// scales of their own. Memory that the cache has for scales is used, or
    /// made where there is none. Reading rows never touches the scales again.
    pub fn set_constant_scale(&mut self, scale: [u8; 4])
        requires
            old(self).wf(),
            !old(self)@.source.row_scales,
            old(self)@.scales is None ==> scales_fit(old(self)@.n()),
        ensures
            final(self).wf(),
            final(self)@.scales is Some,
            final(self)@ == (CacheView {
                scales: final(self)@.scales,
                scale_va: final(self)@.scale_va,
                ..old(self)@
            }),
            old(self)@.scales is Some ==> final(self)@.scale_va == old(self)@.scale_va,
            old(self)@.scales is None ==> {
                &&& final(self).scales_host() is Some
                &&& final(self)@.scale_va == Some((final(self).scales_host()->0).value() as u64)
            },
            final(self).rows_host() == old(self).rows_host(),
            forall|s: int|
                0 <= s < old(self)@.n() ==> #[trigger] final(self)@.scale_bytes(s) == scale@,
            scales_kept(
                old(self)@.n(),
                match old(self)@.scales {
                    Some(m) => m,
                    None => blank(old(self)@.n(), SCALE as int),
                },
                final(self)@.scales->0,
            ),
    {
        let n: usize = self.slots;
        let room: RowArena = match self.scales.take() {
            Some(a) => a,
            None => {
                proof {
                    ceil_div_is_tight(n * SCALE, BLOCK as int);
                }
                Self::scale_arena(n)
            },
        };
        self.set_constant_scale_over(scale, room)
    }

    /// As [`Self::set_constant_scale`], over memory that the caller has made:
    /// its address is the one that the cache reports.
    pub fn set_constant_scale_over(&mut self, scale: [u8; 4], room: RowArena)
        requires
            old(self).wf(),
            !old(self)@.source.row_scales,
            old(self)@.n() * SCALE <= room@.len(),
        ensures
            final(self).wf(),
            final(self)@.scales is Some,
            final(self)@ == (CacheView {
                scales: final(self)@.scales,
                scale_va: Some(room.va()),
                ..old(self)@
            }),
            forall|s: int|
                0 <= s < old(self)@.n() ==> #[trigger] final(self)@.scale_bytes(s) == scale@,
            scales_kept(old(self)@.n(), room@, final(self)@.scales->0),
            final(self).scales_host() == room.host(),
            final(self).rows_host() == old(self).rows_host(),
    {
        let n: usize = self.slots;
        let ghost had = room@;
        let ghost va = room.va();
        let ghost host = room.host();
        let mut arena: RowArena = room;
        proof {
            arena.region_is_addressable();
        }
        let mut k: usize = 0;
        while k < n
            invariant
                k <= n,
                n * SCALE <= arena@.len() == had.len() <= usize::MAX,
                arena.va() == va,
                arena.host() == host,
                forall|s: int, b: int|
                    0 <= s < k && 0 <= b < SCALE ==> #[trigger] arena@[s * SCALE + b] == scale@[b],
                forall|i: int| n * SCALE <= i < had.len() ==> #[trigger] arena@[i] == had[i],
            decreases n - k,
        {
            arena.write(k * SCALE, scale.as_slice());
            k = k + 1;
        }
        self.scales = Some(arena);
        assert forall|s: int| 0 <= s < self@.n() implies #[trigger] self@.scale_bytes(s)
            == scale@ by {
            assert(self@.scale_bytes(s) =~= scale@) by {
                assert forall|b: int| 0 <= b < SCALE implies self@.scale_bytes(s)[b] == scale@[b] by {
                    assert(arena@[s * SCALE + b] == scale@[b]);
                }
            }
        }
    }

    /// Bytes per row, for a caller to hold against the element type of the
    /// kernel that it is about to gather with.
    pub fn row_stride(&self) -> (n: usize)
        ensures
            n == self@.source.row_stride,
    {
        self.source.row_stride
    }

    /// Where the table's rows lie, for whoever reads them.
    pub fn source(&self) -> (s: &RowSource)
        ensures
            *s == self@.source,
    {
        &self.source
    }

    /// The row bytes in a slot.
    pub fn slot_bytes(&self, slot: u32) -> (r: Result<&[u8], CacheError>)
        requires
            self.wf(),
        ensures
            slot < self@.n() ==> r is Ok && (r->Ok_0)@ == self@.row_bytes(slot as int),
            slot >= self@.n() ==> r == Err::<&[u8], CacheError>(
                CacheError::SlotOutOfRange { slot },
            ),
    {
        if slot as usize >= self.slots {
            return Err(CacheError::SlotOutOfRange { slot });
        }
        proof {
            slots_are_disjoint(slot as int, 0, self@.n(), self@.stride());
        }
        Ok(self.arena.read(slot as usize * self.source.row_stride, self.source.row_stride))
    }

    /// The scale in a slot, where there are scales.
    pub fn slot_scale(&self, slot: u32) -> (r: Result<Option<&[u8]>, CacheError>)
        requires
            self.wf(),
        ensures
            slot < self@.n() ==> {
                &&& r is Ok
                &&& (r->Ok_0) is Some <==> self@.scales is Some
                &&& (r->Ok_0) matches Some(b) ==> b@ == self@.scale_bytes(slot as int)
            },
            slot >= self@.n() ==> r == Err::<Option<&[u8]>, CacheError>(
                CacheError::SlotOutOfRange { slot },
            ),
    {
        if slot as usize >= self.slots {
            return Err(CacheError::SlotOutOfRange { slot });
        }
        proof {
            slots_are_disjoint(slot as int, 0, self@.n(), SCALE as int);
        }
        match &self.scales {
            Some(a) => Ok(Some(a.read(slot as usize * SCALE, SCALE))),
            None => Ok(None),
        }
    }

    /// The device address of the rows' memory, which is indexed by slot.
    pub fn table_dev_va(&self) -> (r: Result<u64, CacheError>)
        ensures
            r == Ok::<u64, CacheError>(self@.table_va),
    {
        Ok(self.arena.base())
    }

    /// The device address of the scales' memory, where there is one.
    pub fn scale_dev_va(&self) -> (r: Result<Option<u64>, CacheError>)
        ensures
            r == Ok::<Option<u64>, CacheError>(self@.scale_va),
    {
        match &self.scales {
            Some(a) => Ok(Some(a.base())),
            None => Ok(None),
        }
    }

    /// Hits, misses and evictions so far.
    pub fn stats(&self) -> (t: (u64, u64, u64))
        ensures
            t.0 == self@.res.hits,
            t.1 == self@.res.misses,
            t.2 == self@.res.evictions,
    {
        (self.hits, self.misses, self.evictions)
    }
}

} // verus!
