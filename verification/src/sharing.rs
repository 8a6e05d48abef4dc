//! What sharing reads out and joining them again come to.

use crate::arena::whole_blocks;
use crate::block::align_offset;
use crate::block::AlignedBlock;
use crate::cache::NgramRowCache;
use crate::error::FetchError;
use crate::fetch::FetchedRow;
use crate::share::all_contents;
use crate::share::ceil_div;
use crate::share::ceil_div_is_tight;
use crate::share::div_ceil;
use crate::share::followed_by;
use crate::share::join_parts;
use crate::share::joined;
use crate::share::share_len;
use crate::share::share_out;
use vstd::prelude::*;

verus! {

/// A quotient that is rounded up is the least number of `b`s that reach `a`.
pub proof fn the_quotient_just_reaches(a: usize, b: usize, q: usize)
    requires
        b > 0,
        call_ensures(div_ceil, (a, b), q),
    ensures
        a <= q * b < a + b,
{
    ceil_div_is_tight(a as int, b as int);
    assert((q - 1) * b == q * b - b) by (nonlinear_arith);
}

/// Memory in whole blocks has room for the bytes, and no block too many.
pub proof fn whole_blocks_just_reach(len: usize, n: usize)
    requires
        call_ensures(whole_blocks, (len,), n),
    ensures
        n as int % 4096 == 0,
        len <= n < len + 4096,
{
    let q = ceil_div(len as int, 4096);
    ceil_div_is_tight(len as int, 4096);
    vstd::arithmetic::div_mod::lemma_mod_multiples_basic(q, 4096);
    assert((q - 1) * 4096 == q * 4096 - 4096);
}

/// Scratch starts on a block boundary: at the next one from where its memory
/// lies on.
pub proof fn scratch_is_aligned(addr: usize, off: usize, b: AlignedBlock)
    requires
        call_ensures(align_offset, (addr,), off),
        call_ensures(AlignedBlock::new, (), b),
    ensures
        off < 4096,
        (addr + off) % 4096 == 0,
        b.host() is Some,
        ((b.host()->0).value() + b.offset()) % 4096 == 0,
        0 <= b.offset() < 4096,
        b.memory().len() == 12288,
        forall|i: int| 0 <= i < 12288 ==> #[trigger] b.memory()[i] == 0,
{
}

/// The geometries that can be had: slot numbers of 32 bits, and memory that the
/// machine can address, whose blocks have numbers of 32 bits.
pub proof fn which_geometries_can_be_had(
    row_stride: usize,
    slots: usize,
    with_scales: bool,
    b: bool,
)
    requires
        0 < row_stride <= 4096,
        0 < slots,
        call_ensures(NgramRowCache::geometry_ok, (row_stride, slots, with_scales), b),
    ensures
        ({
            let blocks = (slots * row_stride + 4095) / 4096;
            let scale_blocks = (slots * 4 + 4095) / 4096;
            b <==> {
                &&& slots <= 0x1_0000_0000
                &&& slots * 2 <= usize::MAX
                &&& blocks <= 0xffff_ffff
                &&& blocks * 4096 <= usize::MAX
                &&& with_scales ==> scale_blocks * 4096 <= usize::MAX
            }
        }),
{
}

/// The reads of a batch are shared out to no more workers than are wanted, and
/// than there are reads; with one or none wanted to one. The shares are stretches
/// that follow each other from the first read to the last. All but the last are of
/// one size, the last is no larger, and that size is the least that will do: with
/// one read less each, the workers would not do all of them.
pub proof fn reads_are_shared_evenly(n: usize, want: usize, parts: Vec<(usize, usize)>)
    requires
        call_ensures(share_out, (n, want), parts),
    ensures
        n == 0 <==> parts@.len() == 0,
        ({
            let workers = if want <= 1 {
                1
            } else if want < n {
                want as int
            } else {
                n as int
            };
            n > 0 ==> {
                let size = parts@[0].1 - parts@[0].0;
                &&& parts@.len() <= workers
                &&& parts@[0].0 == 0
                &&& parts@[parts@.len() - 1].1 == n
                &&& 0 < size
                &&& (size - 1) * workers < n <= size * workers
                &&& forall|i: int|
                    0 <= i < parts@.len() ==> {
                        &&& (#[trigger] parts@[i]).0 == i * size
                        &&& parts@[i].0 < parts@[i].1 <= parts@[i].0 + size
                        &&& i < parts@.len() - 1 ==> parts@[i].1 == parts@[i].0 + size
                    }
            }
        }),
{
    if n > 0 {
        let workers = if want <= 1 {
            1
        } else if want < n {
            want as int
        } else {
            n as int
        };
        let len = share_len(n as int, want as int);
        ceil_div_is_tight(n as int, workers);
        ceil_div_is_tight(n as int, len);
        let total = ceil_div(n as int, len);
        assert(total <= workers) by (nonlinear_arith)
            requires
                (total - 1) * len < n,
                n <= len * workers,
                len > 0,
        ;
        let size = parts@[0].1 - parts@[0].0;
        assert(0 * len == 0 && 1 * len == len);
        if total == 1 {
            assert(n <= 1 * len);
        }
        assert forall|i: int| 0 <= i < parts@.len() implies {
            &&& (#[trigger] parts@[i]).0 == i * len
            &&& parts@[i].0 < parts@[i].1 <= parts@[i].0 + len
            &&& i < parts@.len() - 1 ==> parts@[i].1 == parts@[i].0 + len
        } by {
            assert((i + 1) * len == i * len + len) by (nonlinear_arith);
            if i < total - 1 {
                assert((i + 1) * len <= (total - 1) * len) by (nonlinear_arith)
                    requires
                        i + 1 <= total - 1,
                        len > 0,
                ;
            } else {
                assert(i == total - 1);
            }
        }
        if total > 1 {
            assert(parts@[0].1 == parts@[0].0 + len);
            assert(size == len);
        } else {
            // One worker has all reads.
            assert(parts@[0].1 == n);
            assert(size == n);
            assert(n <= len);
            assert(len <= n) by (nonlinear_arith)
                requires
                    (len - 1) * workers < n,
                    workers >= 1,
                    len >= 1,
            ;
        }
    }
}

/// With no worker there are no rows; with one more worker its rows come behind
/// the others'. Where a worker failed, the first failure in the order of the
/// shares is the batch's.
pub proof fn workers_are_joined_one_by_one(
    parts: Vec<Result<Vec<FetchedRow>, FetchError>>,
    r: Result<Vec<FetchedRow>, FetchError>,
    more: Vec<Result<Vec<FetchedRow>, FetchError>>,
    more_r: Result<Vec<FetchedRow>, FetchError>,
    last: Result<Vec<FetchedRow>, FetchError>,
)
    requires
        call_ensures(join_parts, (parts,), r),
        call_ensures(join_parts, (more,), more_r),
        more@ == parts@.push(last),
    ensures
        parts@.len() == 0 ==> (r matches Ok(rows) && rows@.len() == 0),
        match (r, last) {
            (Err(e), _) => more_r == Err::<Vec<FetchedRow>, FetchError>(e),
            (Ok(_), Err(e)) => more_r == Err::<Vec<FetchedRow>, FetchError>(e),
            (Ok(rows), Ok(tail)) => more_r matches Ok(all) && all@ == rows@ + tail@,
        },
{
    let a = all_contents(parts@);
    let b = all_contents(more@);
    assert(b.drop_last() =~= a);
    assert(b.last() == crate::share::contents(last));
    assert(joined(b) == followed_by(joined(a), b.last()));
}

} // verus!
