//! Reading rows: what to ask of the files for one row, and what to make of the
//! answers.

use crate::block::cover;
use crate::block::Span;
use crate::block::BLOCK;
use crate::error::FetchError;
use crate::source::RowSource;
use vstd::prelude::*;
use vstd::slice::slice_subrange;
use vstd::slice::slice_to_vec;

verus! {

/// Bytes of a row's scale.
pub const SCALE: usize = 4;

/// Which file a read goes to.
#[derive(Clone, Copy, Debug, PartialEq, Eq, Structural)]
pub enum Backing {
    /// The table's file with this index.
    Table(u32),
    /// The file of the rows' scales.
    Scales,
}

/// Blocks that somebody has to read.
#[derive(Clone, Copy, Debug, PartialEq, Eq, Structural)]
pub struct ReadRequest {
    pub from: Backing,
    pub span: Span,
}

/// How far the reading of one row has come.
#[derive(Clone, Copy, Debug, PartialEq, Eq, Structural)]
pub enum FetchStage {
    /// The row's own blocks are to be read.
    Row,
    /// The row is there, its scale is to be read.
    Scale,
    /// All is there.
    Done,
}

/// A row, read.
#[derive(Debug, PartialEq, Eq)]
pub struct FetchedRow {
    pub id: u64,
    pub slot: u32,
    pub row: Vec<u8>,
    /// The row's scale, where rows have scales of their own.
    pub scale: Option<Vec<u8>>,
}

/// The bytes of a row that was read.
#[verifier::ext_equal]
pub struct RowBytes {
    pub id: u64,
    pub slot: u32,
    pub row: Seq<u8>,
    pub scale: Option<Seq<u8>>,
}

impl View for FetchedRow {
    type V = RowBytes;

    open spec fn view(&self) -> RowBytes {
        RowBytes {
            id: self.id,
            slot: self.slot,
            row: self.row@,
            scale: match self.scale {
                Some(b) => Some(b@),
                None => None,
            },
        }
    }
}

/// A row that is being read.
///
/// It does no reading. [`Self::request`] says which blocks are wanted next, and
/// whoever has read them hands them to [`Self::deliver`], until nothing more is
/// wanted. Any number of rows can be on their way at once.
pub struct RowFetch {
    pub id: u64,
    pub slot: u32,
    pub row_file: u32,
    pub row_span: Span,
    pub scale_span: Option<Span>,
    pub stage: FetchStage,
    pub row: Vec<u8>,
    pub scale: Vec<u8>,
}

/// Starts to read row `id` into `slot`.
pub fn fetch_row(src: &RowSource, id: u64, slot: u32) -> (f: RowFetch)
    requires
        src.row_stride <= BLOCK,
        src.segments is Some ==> src.segments->0.wf(),
        src.locates_all(id),
    ensures
        f.wf(),
        f.fetches(*src, id, slot),
        f.stage == FetchStage::Row,
{
    let (row_file, byte): (u32, u64) = src.row_loc(id);
    let row_span: Span = cover(byte, src.row_stride);
    let scale_span: Option<Span> = if src.row_scales {
        let s: Span = cover(id * 4, SCALE);
        proof {
            scale_stays_in_its_block(id as int);
        }
        Some(s)
    } else {
        None
    };
    RowFetch {
        id,
        slot,
        row_file,
        row_span,
        scale_span,
        stage: FetchStage::Row,
        row: Vec::new(),
        scale: Vec::new(),
    }
}

/// Scales are four bytes at multiples of four, so none crosses a block
/// boundary.
pub proof fn scale_stays_in_its_block(id: int)
    requires
        0 <= id,
    ensures
        (id * 4) % BLOCK as int + SCALE <= BLOCK,
{
}

impl RowFetch {
    /// It reads row `id` of `src` into `slot`.
    pub open spec fn fetches(self, src: RowSource, id: u64, slot: u32) -> bool {
        &&& self.id == id
        &&& self.slot == slot
        &&& self.row_file == src.file_of(id)
        &&& self.row_span.covers(src.byte_of(id), src.row_stride as int)
        &&& self.scale_span is Some <==> src.row_scales
        &&& self.scale_span matches Some(s) ==> s.covers(id * 4, SCALE as int)
    }

    /// What has arrived is what the stage says.
    pub open spec fn wf(self) -> bool {
        &&& self.row_span.wf()
        &&& self.scale_span matches Some(s) ==> s.wf() && s.len == SCALE && s.nblocks == 1
        &&& self.stage == FetchStage::Scale ==> self.scale_span is Some
        &&& self.stage != FetchStage::Row ==> self.row@.len() == self.row_span.len
        &&& self.stage == FetchStage::Done && self.scale_span is Some ==> self.scale@.len() == SCALE
    }

    /// The blocks that are wanted next.
    pub open spec fn wanted(self) -> Option<ReadRequest> {
        match self.stage {
            FetchStage::Row => Some(
                ReadRequest { from: Backing::Table(self.row_file), span: self.row_span },
            ),
            FetchStage::Scale => Some(
                ReadRequest { from: Backing::Scales, span: self.scale_span->0 },
            ),
            FetchStage::Done => None,
        }
    }

    /// The blocks that are wanted next, or nothing once all is there.
    pub fn request(&self) -> (r: Option<ReadRequest>)
        requires
            self.wf(),
        ensures
            r == self.wanted(),
            r is None <==> self.stage == FetchStage::Done,
            r matches Some(q) ==> q.span.wf(),
    {
        match self.stage {
            FetchStage::Row => Some(
                ReadRequest { from: Backing::Table(self.row_file), span: self.row_span },
            ),
            FetchStage::Scale => match self.scale_span {
                Some(span) => Some(ReadRequest { from: Backing::Scales, span }),
                None => None,
            },
            FetchStage::Done => None,
        }
    }

    /// How the delivery of `got` bytes ends: with the report of an end of file
    /// exactly if it comes before the last wanted byte.
    ///
    /// A read may come back short, since a table may end inside a block. That
    /// is in order as long as the bytes that did come cover what is wanted.
    pub open spec fn shortfall(self, got: int) -> Option<FetchError> {
        match self.stage {
            FetchStage::Row if got < self.row_span.spec_need() => Some(
                FetchError::RowEof {
                    id: self.id,
                    got: got as usize,
                    need: self.row_span.spec_need() as usize,
                    offset: self.row_span.block_off,
                },
            ),
            FetchStage::Scale if got < (self.scale_span->0).spec_need() => Some(
                FetchError::ScaleEof {
                    id: self.id,
                    got: got as usize,
                    offset: (self.scale_span->0).block_off,
                },
            ),
            _ => None,
        }
    }

    /// `after` is `self` once `block` has been taken in.
    pub open spec fn advances_to(self, block: Seq<u8>, after: RowFetch) -> bool {
        let span = (self.wanted()->0).span;
        let bytes = block.subrange(span.within as int, span.within + span.len);
        &&& after.id == self.id
        &&& after.slot == self.slot
        &&& after.row_file == self.row_file
        &&& after.row_span == self.row_span
        &&& after.scale_span == self.scale_span
        &&& match self.stage {
            FetchStage::Row => {
                &&& after.row@ == bytes
                &&& after.scale == self.scale
                &&& after.stage == if self.scale_span is Some {
                    FetchStage::Scale
                } else {
                    FetchStage::Done
                }
            },
            _ => {
                &&& after.row == self.row
                &&& after.scale@ == bytes
                &&& after.stage == FetchStage::Done
            },
        }
    }

    /// Takes in the blocks that were wanted, of which the first `got` bytes
    /// were read.
    pub fn deliver(&mut self, block: &[u8], got: usize) -> (r: Result<(), FetchError>)
        requires
            old(self).wf(),
            old(self).stage != FetchStage::Done,
            block@.len() == (old(self).wanted()->0).span.nblocks * BLOCK,
            got <= block@.len(),
        ensures
            final(self).wf(),
            match old(self).shortfall(got as int) {
                Some(e) => r == Err::<(), FetchError>(e) && *final(self) == *old(self),
                None => r == Ok::<(), FetchError>(()) && old(self).advances_to(
                    block@,
                    *final(self),
                ),
            },
    {
        match self.stage {
            FetchStage::Row => {
                let span: Span = self.row_span;
                let need: usize = span.need();
                if got < need {
                    return Err(
                        FetchError::RowEof { id: self.id, got, need, offset: span.block_off },
                    );
                }
                self.row = slice_to_vec(slice_subrange(block, span.within, need));
                self.stage = match self.scale_span {
                    Some(_) => FetchStage::Scale,
                    None => FetchStage::Done,
                };
                Ok(())
            },
            FetchStage::Scale => {
                match self.scale_span {
                    Some(span) => {
                        let need: usize = span.need();
                        if got < need {
                            return Err(
                                FetchError::ScaleEof { id: self.id, got, offset: span.block_off },
                            );
                        }
                        self.scale = slice_to_vec(slice_subrange(block, span.within, need));
                        self.stage = FetchStage::Done;
                        Ok(())
                    },
                    None => Ok(()),
                }
            },
            FetchStage::Done => Ok(()),
        }
    }

    /// The report that the wanted blocks could not be read at all.
    pub fn read_failed(&self, cause: String) -> (e: FetchError)
        requires
            self.stage != FetchStage::Done,
        ensures
            self.stage == FetchStage::Row ==> e == (FetchError::RowRead { id: self.id, cause }),
            self.stage == FetchStage::Scale ==> e == (FetchError::ScaleRead { id: self.id, cause }),
    {
        match self.stage {
            FetchStage::Row => FetchError::RowRead { id: self.id, cause },
            _ => FetchError::ScaleRead { id: self.id, cause },
        }
    }

    /// The row, once all of it is there.
    pub fn into_row(self) -> (f: FetchedRow)
        requires
            self.wf(),
            self.stage == FetchStage::Done,
        ensures
            f.id == self.id,
            f.slot == self.slot,
            f.row == self.row,
            f.scale == if self.scale_span is Some {
                Some(self.scale)
            } else {
                None
            },
            f.row@.len() == self.row_span.len,
            f.scale matches Some(s) ==> s@.len() == SCALE,
    {
        let scale: Option<Vec<u8>> = match self.scale_span {
            Some(_) => Some(self.scale),
            None => None,
        };
        FetchedRow { id: self.id, slot: self.slot, row: self.row, scale }
    }
}

/// A read at `offset` of `file`, of as many bytes as `block` has room for,
/// filled the first `got` bytes of `block`. It stopped early only at the end of
/// the file.
pub open spec fn read_up_to(file: Seq<u8>, offset: int, block: Seq<u8>, got: int) -> bool {
    &&& 0 <= got <= block.len()
    &&& got > 0 ==> offset + got <= file.len()
    &&& got < block.len() ==> offset + got >= file.len()
    &&& forall|i: int| 0 <= i < got ==> #[trigger] block[i] == file[offset + i]
}

/// A row arrives as it stands in its file, and it is reported as cut off
/// exactly if the file ends inside it: a last block that is shorter than a
/// whole one is in order.
pub proof fn row_arrives_as_it_is(
    src: RowSource,
    before: RowFetch,
    after: RowFetch,
    file: Seq<u8>,
    block: Seq<u8>,
    got: int,
)
    requires
        0 < src.row_stride <= BLOCK,
        before.wf(),
        before.fetches(src, before.id, before.slot),
        before.stage == FetchStage::Row,
        block.len() == before.row_span.nblocks * BLOCK,
        read_up_to(file, before.row_span.block_off as int, block, got),
    ensures
        before.shortfall(got) is None <==> src.byte_of(before.id) + src.row_stride <= file.len(),
        before.shortfall(got) is None && before.advances_to(block, after) ==> after.row@
            == file.subrange(
            src.byte_of(before.id),
            src.byte_of(before.id) + src.row_stride,
        ),
{
    let byte = src.byte_of(before.id);
    let span = before.row_span;
    assert(byte == span.block_off + span.within);
    if before.shortfall(got) is None && before.advances_to(block, after) {
        assert(after.row@ =~= file.subrange(byte, byte + src.row_stride));
    }
}

/// A row's scale arrives as it stands in the scale file, and it is reported as
/// cut off exactly if the file ends inside it.
pub proof fn scale_arrives_as_it_is(
    src: RowSource,
    before: RowFetch,
    after: RowFetch,
    file: Seq<u8>,
    block: Seq<u8>,
    got: int,
)
    requires
        before.wf(),
        before.fetches(src, before.id, before.slot),
        before.stage == FetchStage::Scale,
        block.len() == BLOCK,
        read_up_to(file, (before.scale_span->0).block_off as int, block, got),
    ensures
        before.shortfall(got) is None <==> before.id * 4 + SCALE <= file.len(),
        before.shortfall(got) is None && before.advances_to(block, after) ==> {
            &&& after.scale@ == file.subrange(before.id * 4, before.id * 4 + SCALE)
            &&& after.row@ == before.row@
        },
{
    let byte = before.id * 4;
    let span = before.scale_span->0;
    assert(byte == span.block_off + span.within);
    if before.shortfall(got) is None && before.advances_to(block, after) {
        assert(after.scale@ =~= file.subrange(byte, byte + SCALE));
    }
}

} // verus!
