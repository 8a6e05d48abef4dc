//! A cache as a value: its bookkeeping together with the bytes in its slots.

use crate::arena::written;
use crate::arena::RowArena;
use crate::block::BLOCK;
use crate::error::CacheError;
use crate::fetch::FetchedRow;
use crate::fetch::SCALE;
use crate::residency::reads_row;
use crate::residency::Fault;
use crate::residency::Residency;
use crate::share::ceil_div;
use crate::source::RowSource;
use vstd::prelude::*;

verus! {

/// What a cache is.
#[verifier::ext_equal]
pub struct CacheView {
    pub res: Residency,
    pub source: RowSource,
    /// The slots' rows, one behind the other.
    pub arena: Seq<u8>,
    /// The slots' scales, one behind the other.
    pub scales: Option<Seq<u8>>,
    pub table_va: u64,
    pub scale_va: Option<u64>,
}

/// What a table holds.
pub struct Table {
    /// The bytes of each row.
    pub row: spec_fn(u64) -> Seq<u8>,
    /// The scale of each row, where rows have scales of their own.
    pub scale: spec_fn(u64) -> Seq<u8>,
}

/// Slots are numbered with 32 bits, the memory for their rows is addressable,
/// and its blocks are numbered with 32 bits.
pub open spec fn geometry_fits(row_stride: int, slots: int) -> bool {
    &&& slots <= 0x1_0000_0000
    &&& slots * 2 <= usize::MAX
    &&& ceil_div(slots * row_stride, BLOCK as int) <= u32::MAX
    &&& ceil_div(slots * row_stride, BLOCK as int) * BLOCK <= usize::MAX
}

/// The memory for the scales of so many slots is addressable.
pub open spec fn scales_fit(slots: int) -> bool {
    ceil_div(slots * SCALE, BLOCK as int) * BLOCK <= usize::MAX
}

/// Zeroed memory for `n` slots of `width` bytes, in whole blocks.
pub open spec fn blank(n: int, width: int) -> Seq<u8> {
    Seq::new((ceil_div(n * width, BLOCK as int) * BLOCK) as nat, |i: int| 0u8)
}

/// The error that a cache with this geometry is refused with: a cache has
/// something to hold and somewhere to hold it, and a row crosses no more than
/// one block boundary.
pub open spec fn geometry_error(row_stride: usize, slots: usize) -> Option<CacheError> {
    if row_stride == 0 || slots == 0 {
        Some(CacheError::ZeroGeometry { row_stride, slots })
    } else if row_stride > BLOCK {
        Some(CacheError::RowTooWide { row_stride })
    } else {
        None
    }
}

/// `has` is as large as `had`, and what lies in it beyond the scales of `n` slots
/// is the same.
pub open spec fn scales_kept(n: int, had: Seq<u8>, has: Seq<u8>) -> bool {
    &&& has.len() == had.len()
    &&& forall|i: int| n * SCALE <= i < has.len() ==> #[trigger] has[i] == had[i]
}

impl CacheView {
    /// A cache of a source's rows that holds none yet.
    pub open spec fn opened(self, source: RowSource, rows_total: u64, slots: int) -> bool {
        &&& self.res == Residency::fresh(rows_total, slots as nat)
        &&& self.source == source
        &&& self.arena == blank(slots, source.row_stride as int)
        &&& self.scales == if source.row_scales {
            Some(blank(slots, SCALE as int))
        } else {
            None
        }
        &&& self.scale_va is Some <==> source.row_scales
    }

    /// A cache of a source's rows that holds none yet, over memory that was made
    /// for it.
    pub open spec fn opened_over(
        self,
        source: RowSource,
        rows_total: u64,
        slots: int,
        rows: RowArena,
        scales: Option<RowArena>,
    ) -> bool {
        &&& self.res == Residency::fresh(rows_total, slots as nat)
        &&& self.source == source
        &&& self.arena == rows@
        &&& self.table_va == rows.va()
        &&& match scales {
            Some(m) => self.scales == Some(m@) && self.scale_va == Some(m.va()),
            None => self.scales is None && self.scale_va is None,
        }
    }

    /// How many slots there are.
    pub open spec fn n(self) -> int {
        self.res.n()
    }

    /// Bytes per row.
    pub open spec fn stride(self) -> int {
        self.source.row_stride as int
    }

    /// The bookkeeping is in order and there is memory for every slot.
    pub open spec fn inv(self) -> bool {
        &&& self.res.inv()
        &&& 0 < self.stride() <= BLOCK
        &&& geometry_fits(self.stride(), self.n())
        &&& self.n() * self.stride() <= self.arena.len() <= usize::MAX
        &&& self.scales matches Some(m) ==> self.n() * SCALE <= m.len() <= usize::MAX
        &&& self.source.row_scales ==> self.scales is Some
        &&& self.scales is Some <==> self.scale_va is Some
        &&& self.source.wf(self.res.rows_total as int)
    }

    /// The row bytes in slot `s`.
    pub open spec fn row_bytes(self, s: int) -> Seq<u8> {
        self.arena.subrange(s * self.stride(), s * self.stride() + self.stride())
    }

    /// The scale in slot `s`.
    pub open spec fn scale_bytes(self, s: int) -> Seq<u8> {
        (self.scales->0).subrange(s * SCALE, s * SCALE + SCALE)
    }

    /// Slot `s` holds row `id` of the table, and its scale.
    pub open spec fn holds(self, table: Table, s: int, id: u64) -> bool {
        &&& self.row_bytes(s) == (table.row)(id)
        &&& self.source.row_scales ==> self.scale_bytes(s) == (table.scale)(id)
    }

    /// Every resident row has the table's bytes in its slot, but for those that
    /// `owed` has still to read.
    pub open spec fn faithful(self, table: Table, owed: Seq<Fault>) -> bool {
        forall|id: u64| #[trigger]
            self.res.map.contains_key(id) && !reads_row(owed, id) ==> self.holds(
                table,
                self.res.map[id] as int,
                id,
            )
    }

    /// Other bookkeeping over the same memory.
    pub open spec fn with(self, res: Residency) -> CacheView {
        CacheView { res, ..self }
    }

    /// There is room in the counters for `n` more lookups.
    pub open spec fn can_count(self, n: int) -> bool {
        &&& self.res.hits + n <= u64::MAX
        &&& self.res.misses + n <= u64::MAX
        &&& self.res.evictions + n <= u64::MAX
    }

    /// `rows` are what `faults` had to read, one for one.
    pub open spec fn answered(self, faults: Seq<Fault>, rows: Seq<FetchedRow>) -> bool {
        &&& faults.len() == rows.len()
        &&& forall|i: int|
            0 <= i < rows.len() ==> {
                &&& (#[trigger] rows[i]).id == faults[i].id
                &&& rows[i].slot == faults[i].slot
                &&& rows[i].slot < self.n()
                &&& rows[i].row@.len() == self.stride()
                &&& rows[i].scale is Some <==> self.source.row_scales
                &&& rows[i].scale matches Some(b) ==> b@.len() == SCALE
            }
    }

    /// After one row has been put into its slot.
    pub open spec fn after_landing(self, r: FetchedRow) -> CacheView {
        CacheView {
            arena: written(self.arena, r.slot * self.stride(), r.row@),
            scales: match (self.scales, r.scale) {
                (Some(m), Some(b)) => Some(written(m, r.slot * SCALE as int, b@)),
                (m, _) => m,
            },
            ..self
        }
    }

    /// After `rows` have been put into their slots, in order.
    pub open spec fn landed(self, rows: Seq<FetchedRow>) -> CacheView
        decreases rows.len(),
    {
        if rows.len() == 0 {
            self
        } else {
            self.landed(rows.drop_last()).after_landing(rows.last())
        }
    }
}

impl CacheView {
    /// Putting rows into slots touches nothing but the memory.
    pub proof fn landing_keeps_inv(self, rows: Seq<FetchedRow>)
        requires
            self.inv(),
        ensures
            self.landed(rows).inv(),
            self.landed(rows).res == self.res,
            self.landed(rows).source == self.source,
            self.landed(rows).arena.len() == self.arena.len(),
            self.landed(rows).scales is Some <==> self.scales is Some,
            self.landed(rows).table_va == self.table_va,
            self.landed(rows).scale_va == self.scale_va,
        decreases rows.len(),
    {
        if rows.len() > 0 {
            self.landing_keeps_inv(rows.drop_last());
        }
    }
}

/// Slots do not overlap, and each lies inside memory for `n` of them.
pub proof fn slots_are_disjoint(s: int, t: int, n: int, width: int)
    requires
        0 <= s < n,
        0 <= t < n,
        0 < width,
    ensures
        0 <= s * width,
        s * width + width <= n * width,
        s < t ==> s * width + width <= t * width,
        s > t ==> t * width + width <= s * width,
{
    assert(0 <= s * width && s * width + width <= n * width) by (nonlinear_arith)
        requires
            0 <= s < n,
            0 < width,
    ;
    if s < t {
        assert(s * width + width <= t * width) by (nonlinear_arith)
            requires
                s < t,
                0 < width,
        ;
    }
    if s > t {
        assert(t * width + width <= s * width) by (nonlinear_arith)
            requires
                t < s,
                0 < width,
        ;
    }
}

} // verus!
