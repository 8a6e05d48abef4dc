//! What opening a cache gives, and where its rows are then read from.

use crate::arena::RowArena;
use crate::cache::NgramRowCache;
use crate::error::CacheError;
use crate::fetch::SCALE;
use crate::share::ceil_div;
use crate::share::ceil_div_is_tight;
use crate::source::file_names;
use crate::source::in_first_use_order;
use crate::source::one_entry_per_file;
use crate::source::plan_shard_files;
use crate::source::RowSource;
use crate::view::CacheView;
use vstd::prelude::*;

verus! {

/// No row is resident, nothing is pinned or referenced, and nothing was counted.
pub open spec fn holds_nothing(c: CacheView, rows_total: u64, slots: int) -> bool {
    &&& c.res.rows_total == rows_total
    &&& forall|id: u64| !#[trigger] c.res.map.contains_key(id)
    &&& c.res.slot_row.len() == slots
    &&& forall|s: int| 0 <= s < slots ==> #[trigger] c.res.slot_row[s] == 0xffff_ffff_ffff_ffff
    &&& c.res.refbit.len() == slots
    &&& forall|s: int| 0 <= s < slots ==> !#[trigger] c.res.refbit[s]
    &&& c.res.pinned.len() == slots
    &&& forall|s: int| 0 <= s < slots ==> !#[trigger] c.res.pinned[s]
    &&& c.res.hand == 0
    &&& c.res.hits == 0
    &&& c.res.misses == 0
    &&& c.res.evictions == 0
}

/// Zeroed memory of whole blocks for `n` pieces of `width` bytes, without a block
/// too many.
pub open spec fn is_blank(m: Seq<u8>, n: int, width: int) -> bool {
    &&& m.len() as int % 4096 == 0
    &&& n * width <= m.len() < n * width + 4096
    &&& forall|i: int| 0 <= i < m.len() ==> #[trigger] m[i] == 0
}

proof fn blank_is_blank(n: int, width: int)
    requires
        0 <= n,
        0 <= width,
    ensures
        is_blank(crate::view::blank(n, width), n, width),
{
    vstd::arithmetic::mul::lemma_mul_nonnegative(n, width);
    ceil_div_is_tight(n * width, 4096);
    let q = ceil_div(n * width, 4096);
    vstd::arithmetic::div_mod::lemma_mod_multiples_basic(q, 4096);
    assert((q - 1) * 4096 == q * 4096 - 4096);
}

/// A geometry is refused as empty exactly if a row has no bytes or there are no
/// slots, and as too wide exactly if a row is wider than a block.
pub open spec fn refused_for_its_geometry(
    row_stride: usize,
    slots: usize,
    r: Result<NgramRowCache, CacheError>,
) -> bool {
    &&& r is Err <==> row_stride == 0 || slots == 0 || row_stride > 4096
    &&& row_stride == 0 || slots == 0 ==> r == Err::<NgramRowCache, CacheError>(
        CacheError::ZeroGeometry { row_stride, slots },
    )
    &&& row_stride > 4096 && slots > 0 ==> r == Err::<NgramRowCache, CacheError>(
        CacheError::RowTooWide { row_stride },
    )
}

/// The memory that a cache has made for itself: zeroed, and reported where it
/// lies.
pub open spec fn has_its_own_memory(
    c: NgramRowCache,
    row_stride: usize,
    slots: usize,
    row_scales: bool,
) -> bool {
    &&& is_blank(c@.arena, slots as int, row_stride as int)
    &&& c.rows_host() matches Some(h) && c@.table_va == h.value()
    &&& row_scales ==> {
        &&& c@.scales matches Some(m) && is_blank(m, slots as int, 4)
        &&& c.scales_host() matches Some(h) && c@.scale_va == Some(h.value() as u64)
    }
    &&& !row_scales ==> c@.scales is None && c@.scale_va is None
}

/// Opening a table inside a file: which geometries are refused and how, that the
/// cache holds nothing yet, and that its memory is its own. Row `id` is then the
/// `row_stride` bytes from byte `base_offset + id * row_stride` of the one file
/// on, whatever the offset.
pub proof fn open_at_reads_from_its_offset(
    base_offset: u64,
    row_scales: bool,
    rows_total: u64,
    row_stride: usize,
    slots: usize,
    r: Result<NgramRowCache, CacheError>,
)
    requires
        call_ensures(
            NgramRowCache::open_at,
            (base_offset, row_scales, rows_total, row_stride, slots),
            r,
        ),
    ensures
        refused_for_its_geometry(row_stride, slots, r),
        r matches Ok(c) ==> {
            &&& c.wf()
            &&& holds_nothing(c@, rows_total, slots as int)
            &&& has_its_own_memory(c, row_stride, slots, row_scales)
            &&& c@.source.row_stride == row_stride
            &&& c@.source.row_scales == row_scales
            &&& forall|id: u64| #[trigger]
                c@.source.byte_of(id) == base_offset + id * row_stride
            &&& forall|id: u64| #[trigger] c@.source.file_of(id) == 0
            &&& forall|id: u64| #[trigger]
                c@.source.locates(id) <==> base_offset + id * row_stride <= u64::MAX
        },
{
    if r is Ok {
        blank_is_blank(slots as int, row_stride as int);
        blank_is_blank(slots as int, SCALE as int);
    }
}

/// Opening a table at the start of a file is the same with an offset of 0.
pub proof fn open_reads_from_the_start(
    row_scales: bool,
    rows_total: u64,
    row_stride: usize,
    slots: usize,
    r: Result<NgramRowCache, CacheError>,
)
    requires
        call_ensures(NgramRowCache::open, (row_scales, rows_total, row_stride, slots), r),
    ensures
        refused_for_its_geometry(row_stride, slots, r),
        r matches Ok(c) ==> {
            &&& c.wf()
            &&& holds_nothing(c@, rows_total, slots as int)
            &&& has_its_own_memory(c, row_stride, slots, row_scales)
            &&& c@.source.row_stride == row_stride
            &&& c@.source.row_scales == row_scales
            &&& forall|id: u64| #[trigger] c@.source.byte_of(id) == id * row_stride
            &&& forall|id: u64| #[trigger] c@.source.file_of(id) == 0
        },
{
    if r is Ok {
        blank_is_blank(slots as int, row_stride as int);
        blank_is_blank(slots as int, SCALE as int);
    }
}

/// Opening a split table: row `id` lies in the file of shard `id / rows_per`, as
/// row `id % rows_per` behind that shard's own offset.
pub proof fn open_segmented_reads_from_the_shards(
    shards: &[(String, u64)],
    rows_per: u64,
    row_scales: bool,
    row_stride: usize,
    slots: usize,
    r: Result<NgramRowCache, CacheError>,
    plan: (Vec<String>, Vec<u32>),
    id: u64,
)
    requires
        shards@.len() * rows_per <= u64::MAX,
        call_ensures(
            NgramRowCache::open_segmented,
            (shards, rows_per, row_scales, row_stride, slots),
            r,
        ),
        call_ensures(plan_shard_files, (shards,), plan),
        id < shards@.len() * rows_per,
    ensures
        refused_for_its_geometry(row_stride, slots, r),
        r matches Ok(c) ==> {
            let shard = id as int / rows_per as int;
            &&& c.wf()
            &&& holds_nothing(c@, (shards@.len() * rows_per) as u64, slots as int)
            &&& has_its_own_memory(c, row_stride, slots, row_scales)
            &&& c@.source.row_stride == row_stride
            &&& c@.source.row_scales == row_scales
            &&& 0 <= shard < shards@.len()
            &&& c@.source.byte_of(id) == shards@[shard].1 + (id as int % rows_per as int)
                * row_stride
            &&& 0 <= c@.source.file_of(id) < plan.0@.len()
            &&& plan.0@[c@.source.file_of(id)]@ == shards@[shard].0@
            &&& c@.source.file_of(id) == plan.1@[shard]
        },
{
    let rows_total = (shards@.len() * rows_per) as u64;
    let source = choose|source: RowSource|
        {
            &&& source.is_split(shards@, rows_per)
            &&& source.row_stride == row_stride
            &&& source.row_scales == row_scales
            &&& #[trigger] NgramRowCache::opens(source, rows_total, slots, r)
        };
    assert(NgramRowCache::opens(source, rows_total, slots, r));
    if r is Ok {
        blank_is_blank(slots as int, row_stride as int);
        blank_is_blank(slots as int, SCALE as int);
        let seg = source.segments->0;
        seg.shards_number_the_rows(id);
        let shard = seg.shard_of(id);
        let names = in_first_use_order(file_names(shards@));
        one_entry_per_file(file_names(shards@));
        assert(seg.bases@[shard] == shards@[shard].1);
        let f = seg.shard_file@[shard];
        assert(f < names.len() && names[f as int] == shards@[shard].0@);
        let paths = plan.0@.map_values(|p: String| p@);
        assert(paths == names);
        assert(paths[f as int] == plan.0@[f as int]@);
        let g = plan.1@[shard];
        assert(g < plan.0@.len() && plan.0@[g as int]@ == shards@[shard].0@);
        assert(paths[g as int] == plan.0@[g as int]@);
        assert(names[f as int] == names[g as int]);
    }
}

/// Where a row is found goes by the source's own fields: the only file from the
/// table's offset on, or the file and the offset of its shard.
pub proof fn a_row_is_found_behind_its_offset(src: &RowSource, id: u64, loc: (u32, u64))
    requires
        call_ensures(RowSource::row_loc, (src, id), loc),
    ensures
        match src.segments {
            None => {
                &&& loc.0 == 0
                &&& loc.1 == src.base_offset + id * src.row_stride
            },
            Some(seg) => {
                let shard = id as int / seg.rows_per as int;
                &&& loc.0 == seg.shard_file@[shard]
                &&& loc.1 == seg.bases@[shard] + (id as int % seg.rows_per as int) * src.row_stride
            },
        },
{
}

/// A row of a cache that was opened inside a file is found at its place behind
/// the offset.
pub proof fn a_row_of_an_opened_table_is_found(
    base_offset: u64,
    row_scales: bool,
    rows_total: u64,
    row_stride: usize,
    slots: usize,
    r: Result<NgramRowCache, CacheError>,
    src: &RowSource,
    id: u64,
    loc: (u32, u64),
)
    requires
        call_ensures(
            NgramRowCache::open_at,
            (base_offset, row_scales, rows_total, row_stride, slots),
            r,
        ),
        r is Ok,
        call_ensures(NgramRowCache::source, (&r->Ok_0,), src),
        call_ensures(RowSource::row_loc, (src, id), loc),
    ensures
        loc.0 == 0,
        loc.1 == base_offset + id * row_stride,
{
    open_at_reads_from_its_offset(base_offset, row_scales, rows_total, row_stride, slots, r);
}

/// A row can be found exactly if its shard exists and its offset is a 64-bit
/// number, and it can be read exactly if that of its scale is one too.
pub proof fn which_rows_can_be_found(src: &RowSource, id: u64, found: bool, read: bool)
    requires
        call_ensures(RowSource::can_locate, (src, id), found),
        call_ensures(RowSource::can_fetch, (src, id), read),
    ensures
        found <==> match src.segments {
            None => src.base_offset + id * src.row_stride <= u64::MAX,
            Some(seg) => {
                let shard = id as int / seg.rows_per as int;
                &&& seg.rows_per > 0
                &&& shard < seg.bases@.len()
                &&& seg.bases@[shard] + (id as int % seg.rows_per as int) * src.row_stride
                    <= u64::MAX
            },
        },
        read <==> found && (src.row_scales ==> id * 4 <= u64::MAX),
{
}

/// The files of a split table are numbered in the order in which the shards first
/// name them: each file once, and no number before all smaller ones.
pub proof fn files_are_numbered_as_they_come_up(
    shards: &[(String, u64)],
    plan: (Vec<String>, Vec<u32>),
)
    requires
        call_ensures(plan_shard_files, (shards,), plan),
    ensures
        plan.1@.len() == shards@.len(),
        forall|i: int|
            0 <= i < shards@.len() ==> {
                &&& (#[trigger] plan.1@[i]) < plan.0@.len()
                &&& plan.0@[plan.1@[i] as int]@ == shards@[i].0@
            },
        forall|f: int, g: int|
            0 <= f < g < plan.0@.len() ==> #[trigger] plan.0@[f]@ != #[trigger] plan.0@[g]@,
        forall|i: int, j: int|
            0 <= i < shards@.len() && 0 <= j < shards@.len() ==> (#[trigger] plan.1@[i]
                == #[trigger] plan.1@[j] <==> shards@[i].0@ == shards@[j].0@),
        forall|f: int|
            0 <= f < plan.0@.len() ==> exists|i: int|
                0 <= i < shards@.len() && #[trigger] shards@[i].0@ == #[trigger] plan.0@[f]@,
        forall|i: int, f: int|
            0 <= i < shards@.len() && 0 <= f < #[trigger] plan.1@[i] ==> named_before(
                shards@,
                i,
                #[trigger] plan.0@[f]@,
            ),
{
    let names = file_names(shards@);
    let files = in_first_use_order(names);
    let paths = plan.0@.map_values(|p: String| p@);
    one_entry_per_file(names);
    assert(paths == files);
    assert forall|f: int| 0 <= f < plan.0@.len() implies files[f] == #[trigger] plan.0@[f]@ by {
        assert(paths[f] == plan.0@[f]@);
    }
    assert forall|f: int, g: int| 0 <= f < g < plan.0@.len() implies #[trigger] plan.0@[f]@
        != #[trigger] plan.0@[g]@ by {
        assert(files[f] != files[g]);
    }
    assert forall|i: int, j: int| 0 <= i < shards@.len() && 0 <= j < shards@.len() implies (
    #[trigger] plan.1@[i] == #[trigger] plan.1@[j] <==> shards@[i].0@ == shards@[j].0@) by {
        assert(files[plan.1@[i] as int] == shards@[i].0@);
        assert(files[plan.1@[j] as int] == shards@[j].0@);
    }
    assert forall|f: int| 0 <= f < plan.0@.len() implies exists|i: int|
        0 <= i < shards@.len() && #[trigger] shards@[i].0@ == #[trigger] plan.0@[f]@ by {
        assert(files.contains(files[f]));
        assert(names.contains(files[f]));
        let i = choose|i: int| 0 <= i < names.len() && names[i] == files[f];
        assert(shards@[i].0@ == plan.0@[f]@);
    }
    assert forall|i: int, f: int| 0 <= i < shards@.len() && 0 <= f < #[trigger] plan.1@[i] implies
        named_before(shards@, i, #[trigger] plan.0@[f]@) by {
        let k = plan.1@[i] as int;
        assert(files[k] == shards@[i].0@);
        earlier_files_come_up_earlier(names, k, f, i);
        let j = choose|j: int| 0 <= j < i && #[trigger] names[j] == files[f];
        assert(shards@[j].0@ == plan.0@[f]@);
    }
}

/// A shard before shard `i` is in the file of that name.
pub open spec fn named_before(shards: Seq<(String, u64)>, i: int, name: Seq<char>) -> bool {
    exists|j: int| 0 <= j < i && (#[trigger] shards[j]).0@ == name
}

/// A file with a smaller number was named before every shard of a file with a
/// larger one.
proof fn earlier_files_come_up_earlier(names: Seq<Seq<char>>, k: int, f: int, i: int)
    requires
        0 <= f < k < in_first_use_order(names).len(),
        0 <= i < names.len(),
        names[i] == in_first_use_order(names)[k],
    ensures
        exists|j: int| 0 <= j < i && #[trigger] names[j] == in_first_use_order(names)[f],
    decreases names.len(),
{
    let init = names.drop_last();
    let before = in_first_use_order(init);
    let files = in_first_use_order(names);
    one_entry_per_file(names);
    one_entry_per_file(init);
    if k < before.len() {
        if i < init.len() {
            earlier_files_come_up_earlier(init, k, f, i);
            let j = choose|j: int| 0 <= j < i && #[trigger] init[j] == before[f];
            assert(names[j] == files[f]);
        } else {
            assert(before.contains(before[f]));
            let j = choose|j: int| 0 <= j < init.len() && init[j] == before[f];
            assert(names[j] == files[f]);
        }
    } else {
        assert(files[k] == names.last());
        assert(!before.contains(names.last()));
        if i < init.len() {
            assert(init[i] == names[i]);
            assert(init.contains(names[i]));
        }
        assert(before.contains(before[f]));
        let j = choose|j: int| 0 <= j < init.len() && init[j] == before[f];
        assert(names[j] == files[f]);
    }
}

/// A cache over memory that was made for it reports the addresses of that
/// memory, leaves its bytes as they are, and holds nothing yet.
pub proof fn open_over_reports_the_given_memory(
    source: RowSource,
    rows_total: u64,
    slots: usize,
    rows: RowArena,
    scales: Option<RowArena>,
    r: Result<NgramRowCache, CacheError>,
)
    requires
        call_ensures(NgramRowCache::open_over, (source, rows_total, slots, rows, scales), r),
    ensures
        refused_for_its_geometry(source.row_stride, slots, r),
        r matches Ok(c) ==> {
            &&& c.wf()
            &&& holds_nothing(c@, rows_total, slots as int)
            &&& c@.source == source
            &&& c@.arena == rows@
            &&& c@.table_va == rows.va()
            &&& scales matches Some(m) ==> c@.scales == Some(m@) && c@.scale_va == Some(m.va())
            &&& scales is None ==> c@.scales is None && c@.scale_va is None
        },
{
}

/// The addresses that a cache hands to a device are those of its memory: where
/// the cache made the memory itself, where that lies.
pub proof fn the_device_gets_the_memorys_address(
    base_offset: u64,
    row_scales: bool,
    rows_total: u64,
    row_stride: usize,
    slots: usize,
    r: Result<NgramRowCache, CacheError>,
    table: Result<u64, CacheError>,
    scale: Result<Option<u64>, CacheError>,
)
    requires
        call_ensures(
            NgramRowCache::open_at,
            (base_offset, row_scales, rows_total, row_stride, slots),
            r,
        ),
        r is Ok,
        call_ensures(NgramRowCache::table_dev_va, (&r->Ok_0,), table),
        call_ensures(NgramRowCache::scale_dev_va, (&r->Ok_0,), scale),
    ensures
        (r->Ok_0).rows_host() matches Some(h) && table == Ok::<u64, CacheError>(h.value() as u64),
        row_scales ==> ((r->Ok_0).scales_host() matches Some(h) && scale == Ok::<
            Option<u64>,
            CacheError,
        >(Some(h.value() as u64))),
        !row_scales ==> scale == Ok::<Option<u64>, CacheError>(None),
{
    open_at_reads_from_its_offset(base_offset, row_scales, rows_total, row_stride, slots, r);
}

/// One scale for all slots: slot `s` has it in its four bytes behind `4 * s`, and
/// nothing but the scales and their address changes. The address is that of
/// memory that was there, or where the memory lies that was made for it.
pub proof fn a_constant_scale_is_in_every_slot(c: &mut NgramRowCache, scale: [u8; 4])
    requires
        old(c).wf(),
        call_ensures(NgramRowCache::set_constant_scale, (c, scale), ()),
    ensures
        final(c).wf(),
        final(c)@.res == old(c)@.res,
        final(c)@.source == old(c)@.source,
        final(c)@.arena == old(c)@.arena,
        final(c)@.table_va == old(c)@.table_va,
        final(c)@.scales is Some,
        forall|s: int, b: int|
            0 <= s < old(c)@.n() && 0 <= b < 4 ==> (final(c)@.scales->0)[#[trigger] (4 * s + b)]
                == scale@[b],
        old(c)@.scales is Some ==> final(c)@.scale_va == old(c)@.scale_va,
        old(c)@.scales is None ==> (final(c).scales_host() matches Some(h) && final(c)@.scale_va
            == Some(h.value() as u64)),
{
    let m = final(c)@.scales->0;
    final(c).wf_is_inv();
    assert forall|s: int, b: int| 0 <= s < old(c)@.n() && 0 <= b < 4 implies m[#[trigger] (4 * s
        + b)] == scale@[b] by {
        assert(final(c)@.scale_bytes(s) == scale@);
        assert(final(c)@.scale_bytes(s)[b] == m[s * SCALE + b]);
    }
}

/// One scale for all slots over memory that was made for it: the cache reports
/// that memory's address, and slot `s` has the scale in its four bytes there.
pub proof fn a_constant_scale_goes_into_the_given_memory(
    c: &mut NgramRowCache,
    scale: [u8; 4],
    room: RowArena,
)
    requires
        old(c).wf(),
        call_ensures(NgramRowCache::set_constant_scale_over, (c, scale, room), ()),
    ensures
        final(c).wf(),
        final(c)@.res == old(c)@.res,
        final(c)@.source == old(c)@.source,
        final(c)@.arena == old(c)@.arena,
        final(c)@.table_va == old(c)@.table_va,
        final(c)@.scale_va == Some(room.va()),
        final(c)@.scales is Some,
        (final(c)@.scales->0).len() == room@.len(),
        forall|s: int, b: int|
            0 <= s < old(c)@.n() && 0 <= b < 4 ==> (final(c)@.scales->0)[#[trigger] (4 * s + b)]
                == scale@[b],
        forall|i: int|
            4 * old(c)@.n() <= i < room@.len() ==> #[trigger] (final(c)@.scales->0)[i] == room@[i],
{
    let m = final(c)@.scales->0;
    final(c).wf_is_inv();
    assert forall|s: int, b: int| 0 <= s < old(c)@.n() && 0 <= b < 4 implies m[#[trigger] (4 * s
        + b)] == scale@[b] by {
        assert(final(c)@.scale_bytes(s) == scale@);
        assert(final(c)@.scale_bytes(s)[b] == m[s * SCALE + b]);
    }
}

/// A region that is made here is zeroed and at the address where it lies; one that
/// is handed over has the bytes and the address that it was handed over with.
pub proof fn a_region_is_where_it_is_said_to_be(
    len: usize,
    own: RowArena,
    own_base: u64,
    bytes: Vec<u8>,
    va: u64,
    given: RowArena,
    given_base: u64,
)
    requires
        call_ensures(RowArena::new, (len,), own),
        call_ensures(RowArena::base, (&own,), own_base),
        call_ensures(RowArena::at, (bytes, va), given),
        call_ensures(RowArena::base, (&given,), given_base),
    ensures
        own.host() matches Some(h) && own_base == h.value(),
        is_blank(own@, len as int, 1),
        given@ == bytes@,
        given_base == va,
{
    blank_is_blank(len as int, 1);
}

/// A cache that was just opened tells the row's bytes that it was opened with,
/// and has counted nothing.
pub proof fn a_cache_tells_how_it_was_opened(
    base_offset: u64,
    row_scales: bool,
    rows_total: u64,
    row_stride: usize,
    slots: usize,
    r: Result<NgramRowCache, CacheError>,
    stride: usize,
    stats: (u64, u64, u64),
)
    requires
        call_ensures(
            NgramRowCache::open_at,
            (base_offset, row_scales, rows_total, row_stride, slots),
            r,
        ),
        r is Ok,
        call_ensures(NgramRowCache::row_stride, (&r->Ok_0,), stride),
        call_ensures(NgramRowCache::stats, (&r->Ok_0,), stats),
    ensures
        stride == row_stride,
        stats == (0u64, 0u64, 0u64),
{
    open_at_reads_from_its_offset(base_offset, row_scales, rows_total, row_stride, slots, r);
}

} // verus!
