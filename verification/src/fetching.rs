//! What the calls that read one row ask for, take in and hand over.

use crate::block::cover;
use crate::block::Span;
use crate::error::FetchError;
use crate::fetch::fetch_row;
use crate::fetch::Backing;
use crate::fetch::FetchedRow;
use crate::fetch::ReadRequest;
use crate::fetch::RowFetch;
use crate::source::RowSource;
use vstd::prelude::*;

verus! {

/// `span` is the whole blocks that hold `len` bytes from `byte` on: it starts on a
/// block boundary at or before `byte`, less than a block before it, and has a
/// second block exactly if the bytes do not end within the first.
pub open spec fn is_the_span_of(span: Span, byte: int, len: int) -> bool {
    &&& span.block_off as int % 4096 == 0
    &&& span.block_off + span.within == byte
    &&& 0 <= span.within < 4096
    &&& span.len == len
    &&& span.nblocks == if span.within + len <= 4096 {
        1int
    } else {
        2int
    }
}

proof fn spans_cover(span: Span, byte: int, len: int)
    requires
        0 <= byte,
        span.covers(byte, len),
    ensures
        is_the_span_of(span, byte, len),
{
    vstd::arithmetic::div_mod::lemma_fundamental_div_mod(byte, 4096);
    vstd::arithmetic::div_mod::lemma_mod_multiples_basic(byte / 4096, 4096);
    assert(byte - byte % 4096 == byte / 4096 * 4096);
}

/// The blocks for some bytes start on a block boundary and reach to their end.
pub proof fn blocks_hold_the_bytes(byte: u64, len: usize, span: Span, need: usize)
    requires
        call_ensures(cover, (byte, len), span),
        call_ensures(Span::need, (&span,), need),
    ensures
        is_the_span_of(span, byte as int, len as int),
        need == span.within + len,
        len <= 4096 ==> need <= span.nblocks * 4096,
{
    spans_cover(span, byte as int, len as int);
}

/// The first thing that is asked for is the row's own blocks, in the file that
/// the row lies in.
pub proof fn the_row_is_asked_for_first(
    src: &RowSource,
    id: u64,
    slot: u32,
    loc: (u32, u64),
    begun: RowFetch,
    q: Option<ReadRequest>,
)
    requires
        call_ensures(RowSource::row_loc, (src, id), loc),
        call_ensures(fetch_row, (src, id, slot), begun),
        call_ensures(RowFetch::request, (&begun,), q),
    ensures
        q matches Some(q) && q.from == Backing::Table(loc.0) && is_the_span_of(
            q.span,
            loc.1 as int,
            src.row_stride as int,
        ),
{
    spans_cover(begun.row_span, loc.1 as int, src.row_stride as int);
}

/// A row that came, as far as it has to: its blocks reach to its end, or the read
/// is reported as cut off with what came, what it takes and where it was. The next
/// thing that is asked for is the block of its scale where rows have scales, and
/// nothing where they have none.
pub proof fn the_scale_is_asked_for_next(
    src: &RowSource,
    id: u64,
    slot: u32,
    loc: (u32, u64),
    f: &mut RowFetch,
    block: &[u8],
    got: usize,
    r: Result<(), FetchError>,
    q: Option<ReadRequest>,
)
    requires
        call_ensures(RowSource::row_loc, (src, id), loc),
        call_ensures(fetch_row, (src, id, slot), *old(f)),
        call_ensures(RowFetch::deliver, (f, block, got), r),
        call_ensures(RowFetch::request, (&*final(f),), q),
    ensures
        ({
            let within = loc.1 as int % 4096;
            let need = within + src.row_stride;
            if got < need {
                &&& r == Err::<(), FetchError>(
                    FetchError::RowEof {
                        id,
                        got,
                        need: need as usize,
                        offset: (loc.1 - within) as u64,
                    },
                )
                &&& *final(f) == *old(f)
            } else {
                &&& r == Ok::<(), FetchError>(())
                &&& q is Some <==> src.row_scales
                &&& q matches Some(q) ==> q.from == Backing::Scales && is_the_span_of(
                    q.span,
                    id * 4,
                    4,
                ) && q.span.nblocks == 1
            }
        }),
{
    spans_cover(old(f).row_span, loc.1 as int, src.row_stride as int);
    if src.row_scales {
        spans_cover(old(f).scale_span->0, id * 4, 4);
        crate::fetch::scale_stays_in_its_block(id as int);
    }
}

/// A row without a scale of its own, once its blocks came, is the bytes of those
/// blocks from the row's place in them on.
pub proof fn a_row_is_taken_from_its_blocks(
    src: &RowSource,
    id: u64,
    slot: u32,
    loc: (u32, u64),
    f: &mut RowFetch,
    block: &[u8],
    got: usize,
    row: FetchedRow,
)
    requires
        !src.row_scales,
        call_ensures(RowSource::row_loc, (src, id), loc),
        call_ensures(fetch_row, (src, id, slot), *old(f)),
        call_ensures(RowFetch::deliver, (f, block, got), Ok::<(), FetchError>(())),
        call_ensures(RowFetch::into_row, (*final(f),), row),
        block@.len() == old(f).row_span.nblocks * 4096,
    ensures
        row.id == id,
        row.slot == slot,
        row.scale is None,
        row.row@.len() == src.row_stride,
        forall|b: int|
            0 <= b < src.row_stride ==> #[trigger] row.row@[b] == block@[loc.1 as int % 4096 + b],
{
    spans_cover(old(f).row_span, loc.1 as int, src.row_stride as int);
}

/// A row with a scale of its own, once the blocks of both came: each is the bytes
/// of its own blocks from its place in them on. A scale whose block ends inside it
/// is reported as cut off.
pub proof fn a_row_and_its_scale_are_taken_from_their_blocks(
    src: &RowSource,
    id: u64,
    slot: u32,
    loc: (u32, u64),
    f: &mut RowFetch,
    block: &[u8],
    got: usize,
    g: &mut RowFetch,
    scale_block: &[u8],
    scale_got: usize,
    r: Result<(), FetchError>,
    row: FetchedRow,
)
    requires
        src.row_scales,
        call_ensures(RowSource::row_loc, (src, id), loc),
        call_ensures(fetch_row, (src, id, slot), *old(f)),
        call_ensures(RowFetch::deliver, (f, block, got), Ok::<(), FetchError>(())),
        *old(g) == *final(f),
        call_ensures(RowFetch::deliver, (g, scale_block, scale_got), r),
        r is Ok ==> call_ensures(RowFetch::into_row, (*final(g),), row),
        block@.len() == old(f).row_span.nblocks * 4096,
        scale_block@.len() == 4096,
    ensures
        ({
            let within = (id * 4) % 4096;
            if scale_got < within + 4 {
                r == Err::<(), FetchError>(
                    FetchError::ScaleEof {
                        id,
                        got: scale_got,
                        offset: (id * 4 - within) as u64,
                    },
                )
            } else {
                &&& r is Ok
                &&& row.id == id
                &&& row.slot == slot
                &&& row.row@.len() == src.row_stride
                &&& forall|b: int|
                    0 <= b < src.row_stride ==> #[trigger] row.row@[b] == block@[loc.1 as int % 4096
                        + b]
                &&& row.scale is Some
                &&& (row.scale->0)@.len() == 4
                &&& forall|b: int|
                    0 <= b < 4 ==> #[trigger] (row.scale->0)@[b] == scale_block@[within + b]
            }
        }),
{
    spans_cover(old(f).row_span, loc.1 as int, src.row_stride as int);
    spans_cover(old(f).scale_span->0, id * 4, 4);
    crate::fetch::scale_stays_in_its_block(id as int);
}

/// A read that failed altogether is reported as one of the row or of its scale,
/// whichever was asked for.
pub proof fn a_failed_read_says_what_was_read(
    f: &RowFetch,
    q: Option<ReadRequest>,
    cause: String,
    e: FetchError,
)
    requires
        call_ensures(RowFetch::request, (f,), q),
        q is Some,
        call_ensures(RowFetch::read_failed, (f, cause), e),
    ensures
        match (q->0).from {
            Backing::Table(_) => e == (FetchError::RowRead { id: f.id, cause }),
            Backing::Scales => e == (FetchError::ScaleRead { id: f.id, cause }),
        },
{
}

} // verus!
