//! Where a table's rows lie: one stretch of one file, or equal shards
//! scattered over several.

use vstd::prelude::*;

verus! {

/// A table split into shards of equal size at scattered offsets, which may lie
/// in different files.
pub struct Segments {
    /// Byte offset of each shard's first row, in the shard's own file.
    pub bases: Vec<u64>,
    /// Rows per shard. All shards hold the same number, so that a row's shard
    /// is a quotient and not a search.
    pub rows_per: u64,
    /// The file of each shard, as an index into the distinct files in the
    /// order of their first use.
    pub shard_file: Vec<u32>,
}

/// Which file holds a row, and where in it: all that a reader has to know of a
/// table, and nothing that changes while rows are read.
pub struct RowSource {
    /// Offset of row 0 in the table's only file. Not used where there are
    /// segments.
    pub base_offset: u64,
    /// The shards of a segmented table.
    pub segments: Option<Segments>,
    /// Bytes per row.
    pub row_stride: usize,
    /// Every row has a scale of its own in a separate file.
    pub row_scales: bool,
}

impl Segments {
    /// Each shard has a file.
    pub open spec fn wf(self) -> bool {
        self.bases@.len() == self.shard_file@.len()
    }

    /// The shard that holds row `id`.
    pub open spec fn shard_of(self, id: u64) -> int {
        id as int / self.rows_per as int
    }

    /// Row `id` is row `local_of(id)` of its shard.
    pub open spec fn local_of(self, id: u64) -> int {
        id as int % self.rows_per as int
    }

    /// How many rows the shards hold together.
    pub open spec fn rows(self) -> int {
        self.bases@.len() * self.rows_per
    }

    /// A row below the total lies in one of the shards, and every place in a
    /// shard is a row: shards and rows within them number the rows without a
    /// gap or an overlap.
    pub proof fn shards_number_the_rows(self, id: u64)
        requires
            id < self.rows(),
        ensures
            self.rows_per > 0,
            0 <= self.shard_of(id) < self.bases@.len(),
            0 <= self.local_of(id) < self.rows_per,
            id == self.shard_of(id) * self.rows_per + self.local_of(id),
    {
        let n = self.bases@.len() as int;
        let per = self.rows_per as int;
        assert(per > 0) by (nonlinear_arith)
            requires
                0 <= id < n * per,
                0 <= n,
                0 <= per,
        ;
        vstd::arithmetic::div_mod::lemma_fundamental_div_mod(id as int, per);
        assert(self.shard_of(id) < n) by (nonlinear_arith)
            requires
                id < n * per,
                per > 0,
                id == per * self.shard_of(id) + id as int % per,
                0 <= id as int % per,
        ;
        assert(0 <= self.shard_of(id)) by (nonlinear_arith)
            requires
                0 <= id,
                per > 0,
                id == per * self.shard_of(id) + id as int % per,
                id as int % per < per,
        ;
        assert(per * self.shard_of(id) == self.shard_of(id) * per) by (nonlinear_arith);
    }
}

impl RowSource {
    /// The source of a table of `rows_total` rows.
    pub open spec fn wf(self, rows_total: int) -> bool {
        match self.segments {
            None => true,
            Some(seg) => seg.wf() && rows_total == seg.rows(),
        }
    }

    /// The file that holds row `id`.
    pub open spec fn file_of(self, id: u64) -> int {
        match self.segments {
            None => 0,
            Some(seg) => seg.shard_file@[seg.shard_of(id)] as int,
        }
    }

    /// Where row `id` starts in its file. A shard has a file of its own and
    /// its own offset in that file, so the two always go together.
    pub open spec fn byte_of(self, id: u64) -> int {
        match self.segments {
            None => self.base_offset + id * self.row_stride,
            Some(seg) => seg.bases@[seg.shard_of(id)] + seg.local_of(id) * self.row_stride,
        }
    }

    /// Row `id` lies in a shard, and its offset is a 64-bit number.
    pub open spec fn locates(self, id: u64) -> bool {
        &&& match self.segments {
            None => true,
            Some(seg) => seg.rows_per > 0 && seg.shard_of(id) < seg.bases@.len(),
        }
        &&& self.byte_of(id) <= u64::MAX
    }

    /// Row `id` has a place, and so has its scale, where rows have scales.
    pub open spec fn locates_all(self, id: u64) -> bool {
        &&& self.locates(id)
        &&& self.row_scales ==> id * 4 <= u64::MAX
    }

    /// The file that holds row `id`, and where the row starts in it.
    pub fn row_loc(&self, id: u64) -> (loc: (u32, u64))
        requires
            self.segments is Some ==> self.segments->0.wf(),
            self.locates(id),
        ensures
            loc.0 == self.file_of(id),
            loc.1 == self.byte_of(id),
    {
        match &self.segments {
            None => {
                proof {
                    vstd::arithmetic::mul::lemma_mul_nonnegative(
                        id as int,
                        self.row_stride as int,
                    );
                }
                (0, self.base_offset + id * self.row_stride as u64)
            },
            Some(seg) => {
                assert(id / seg.rows_per < seg.bases.len());
                let shard: usize = (id / seg.rows_per) as usize;
                let local: u64 = id % seg.rows_per;
                proof {
                    vstd::arithmetic::mul::lemma_mul_nonnegative(
                        local as int,
                        self.row_stride as int,
                    );
                }
                (seg.shard_file[shard], seg.bases[shard] + local * self.row_stride as u64)
            },
        }
    }

    /// Whether [`Self::row_loc`] has an answer for row `id`.
    pub fn can_locate(&self, id: u64) -> (b: bool)
        requires
            self.segments is Some ==> self.segments->0.wf(),
        ensures
            b == self.locates(id),
    {
        let (base, local): (u64, u64) = match &self.segments {
            None => (self.base_offset, id),
            Some(seg) => {
                if seg.rows_per == 0 {
                    return false;
                }
                let shard: u64 = id / seg.rows_per;
                if shard >= seg.bases.len() as u64 {
                    return false;
                }
                (seg.bases[shard as usize], id % seg.rows_per)
            },
        };
        match local.checked_mul(self.row_stride as u64) {
            None => {
                false
            },
            Some(rel) => base.checked_add(rel).is_some(),
        }
    }

    /// Whether row `id` can be read, with its scale where rows have scales.
    pub fn can_fetch(&self, id: u64) -> (b: bool)
        requires
            self.segments is Some ==> self.segments->0.wf(),
        ensures
            b == self.locates_all(id),
    {
        self.can_locate(id) && (!self.row_scales || id <= u64::MAX / 4)
    }
}

/// The texts of `shards`' file names, in order.
pub open spec fn file_names(shards: Seq<(String, u64)>) -> Seq<Seq<char>> {
    Seq::new(shards.len(), |i: int| shards[i].0@)
}

/// The names of `names` in the order in which each comes up first.
pub open spec fn in_first_use_order(names: Seq<Seq<char>>) -> Seq<Seq<char>>
    decreases names.len(),
{
    if names.len() == 0 {
        Seq::empty()
    } else {
        let before = in_first_use_order(names.drop_last());
        if before.contains(names.last()) {
            before
        } else {
            before.push(names.last())
        }
    }
}

/// The distinct files that hold `shards`, in the order of their first use, and
/// for each shard the index of its file among them.
///
/// Shards of one table need not be confined to one file, nor lie in the files
/// in order; and shards that share a file share one entry.
pub fn plan_shard_files(shards: &[(String, u64)]) -> (plan: (Vec<String>, Vec<u32>))
    requires
        shards@.len() <= u32::MAX,
    ensures
        plan.0@.map_values(|p: String| p@) == in_first_use_order(file_names(shards@)),
        plan.1@.len() == shards@.len(),
        forall|i: int|
            0 <= i < shards@.len() ==> {
                &&& (#[trigger] plan.1@[i]) < plan.0@.len()
                &&& plan.0@[plan.1@[i] as int]@ == shards@[i].0@
            },
{
    let mut paths: Vec<String> = Vec::new();
    let mut shard_file: Vec<u32> = Vec::new();
    let ghost names = file_names(shards@);
    assert(paths@.map_values(|p: String| p@) =~= in_first_use_order(names.take(0)));
    let mut i: usize = 0;
    while i < shards.len()
        invariant
            i <= shards@.len() <= u32::MAX,
            names == file_names(shards@),
            paths@.len() <= i,
            shard_file@.len() == i,
            paths@.map_values(|p: String| p@) == in_first_use_order(names.take(i as int)),
            forall|j: int|
                0 <= j < i ==> {
                    &&& (#[trigger] shard_file@[j]) < paths@.len()
                    &&& paths@[shard_file@[j] as int]@ == shards@[j].0@
                },
        decreases shards@.len() - i,
    {
        let ghost known = paths@.map_values(|p: String| p@);
        let name: &String = &shards[i].0;
        let mut at: usize = 0;
        while at < paths.len() && !paths[at].eq(name)
            invariant
                at <= paths@.len(),
                known == paths@.map_values(|p: String| p@),
                forall|j: int| 0 <= j < at ==> known[j] != name@,
            ensures
                at <= paths@.len(),
                forall|j: int| 0 <= j < at ==> known[j] != name@,
                at < paths@.len() ==> paths@[at as int]@ == name@,
            decreases paths@.len() - at,
        {
            assert(known[at as int] == paths@[at as int]@);
            at = at + 1;
        }
        proof {
            assert(names.take(i + 1).drop_last() =~= names.take(i as int));
            assert(names.take(i + 1).last() == name@);
            if at < paths@.len() {
                assert(known[at as int] == name@);
                assert(known.contains(name@));
            } else {
                assert(!known.contains(name@));
            }
        }
        if at == paths.len() {
            paths.push(name.clone());
            assert(paths@.map_values(|p: String| p@) =~= known.push(name@));
        }
        shard_file.push(at as u32);
        i = i + 1;
    }
    assert(names.take(names.len() as int) =~= names);
    (paths, shard_file)
}

impl RowSource {
    /// The table is split into `shards` of `rows_per` rows each: each shard's
    /// offset is as given, and its file is the one with its name, numbered in
    /// the order of first use.
    pub open spec fn is_split(self, shards: Seq<(String, u64)>, rows_per: u64) -> bool {
        &&& self.segments is Some
        &&& self.segments->0.rows_per == rows_per
        &&& self.segments->0.bases@.len() == shards.len()
        &&& self.segments->0.shard_file@.len() == shards.len()
        &&& forall|i: int|
            0 <= i < shards.len() ==> #[trigger] self.segments->0.bases@[i] == shards[i].1
        &&& forall|i: int|
            0 <= i < shards.len() ==> {
                let files = in_first_use_order(file_names(shards));
                &&& (#[trigger] self.segments->0.shard_file@[i]) < files.len()
                &&& files[self.segments->0.shard_file@[i] as int] == shards[i].0@
            }
    }
}

/// The source of a table that is split into shards of `rows_per` rows each,
/// given by the file that each lies in and where it starts there.
pub fn split_source(
    shards: &[(String, u64)],
    rows_per: u64,
    row_scales: bool,
    row_stride: usize,
) -> (source: RowSource)
    requires
        shards@.len() <= u32::MAX,
    ensures
        source.is_split(shards@, rows_per),
        source.row_stride == row_stride,
        source.row_scales == row_scales,
        source.wf(shards@.len() * rows_per),
{
    let (paths, shard_file): (Vec<String>, Vec<u32>) = plan_shard_files(shards);
    let ghost names = in_first_use_order(file_names(shards@));
    proof {
        assert forall|i: int| 0 <= i < shards@.len() implies #[trigger] shard_file@[i]
            < names.len() && names[shard_file@[i] as int] == shards@[i].0@ by {
            assert(names[shard_file@[i] as int] == paths@[shard_file@[i] as int]@);
        }
    }
    let mut bases: Vec<u64> = Vec::new();
    let mut i: usize = 0;
    while i < shards.len()
        invariant
            i <= shards@.len(),
            bases@.len() == i,
            forall|j: int| 0 <= j < i ==> #[trigger] bases@[j] == shards@[j].1,
        decreases shards@.len() - i,
    {
        bases.push(shards[i].1);
        i = i + 1;
    }
    let segments = Some(Segments { bases, rows_per, shard_file });
    RowSource { base_offset: 0, segments, row_stride, row_scales }
}

/// Every name comes up in the list of distinct names, none comes up in it
/// twice, and a name leads to at most one entry.
pub proof fn one_entry_per_file(names: Seq<Seq<char>>)
    ensures
        in_first_use_order(names).no_duplicates(),
        forall|name: Seq<char>| #[trigger]
            in_first_use_order(names).contains(name) <==> names.contains(name),
        in_first_use_order(names).len() <= names.len(),
    decreases names.len(),
{
    if names.len() > 0 {
        let init = names.drop_last();
        let last = names.last();
        let before = in_first_use_order(init);
        let all = in_first_use_order(names);
        one_entry_per_file(init);
        assert(names =~= init.push(last));
        assert forall|name: Seq<char>| #[trigger] all.contains(name) <==> names.contains(name) by {
            if before.contains(name) {
                let k = choose|k: int| 0 <= k < before.len() && before[k] == name;
                assert(all[k] == name);
                let m = choose|m: int| 0 <= m < init.len() && init[m] == name;
                assert(names[m] == name);
            }
            if name == last {
                assert(names[names.len() - 1] == name);
                if !before.contains(last) {
                    assert(all[before.len() as int] == name);
                }
            }
            if names.contains(name) && name != last {
                let m = choose|m: int| 0 <= m < names.len() && names[m] == name;
                assert(init[m] == name);
                assert(init.contains(name));
            }
        }
    }
}

} // verus!
