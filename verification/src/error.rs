//! What can go wrong, and how it is reported.

use crate::text::append_number;
use crate::text::decimal;
use vstd::prelude::*;

verus! {

/// Why one row could not be read.
#[derive(Debug, PartialEq, Eq)]
pub enum FetchError {
    /// Reading the row's blocks failed, for the given reason.
    RowRead { id: u64, cause: String },
    /// The file ends inside the row.
    RowEof { id: u64, got: usize, need: usize, offset: u64 },
    /// Reading the scale's block failed, for the given reason.
    ScaleRead { id: u64, cause: String },
    /// The scale file ends inside the row's scale.
    ScaleEof { id: u64, got: usize, offset: u64 },
}

/// Why a cache refused.
#[derive(Debug, PartialEq, Eq)]
pub enum CacheError {
    /// A cache has rows of at least one byte and at least one slot.
    ZeroGeometry { row_stride: usize, slots: usize },
    /// A row fits into one block.
    RowTooWide { row_stride: usize },
    /// The table has no such row.
    RowOutOfRange { id: u64, rows_total: u64 },
    /// Every slot is needed by the batch in flight.
    AllPinned { slots: usize },
    /// The cache has no such slot.
    SlotOutOfRange { slot: u32 },
    /// A row could not be read.
    Fetch(FetchError),
}

impl FetchError {
    /// The report's text.
    pub open spec fn spec_message(self) -> Seq<char> {
        match self {
            FetchError::RowRead { id, cause } => "NgramRowCache: read row "@ + decimal(id as nat)
                + ": "@ + cause@,
            FetchError::RowEof { id, got, need, offset } => "NgramRowCache: read row "@ + decimal(
                id as nat,
            ) + ": EOF after "@ + decimal(got as nat) + " of the "@ + decimal(need as nat)
                + " bytes the row needs at offset "@ + decimal(offset as nat),
            FetchError::ScaleRead { id, cause } => "NgramRowCache: read scale "@ + decimal(
                id as nat,
            ) + ": "@ + cause@,
            FetchError::ScaleEof { id, got, offset } => "NgramRowCache: read scale "@ + decimal(
                id as nat,
            ) + ": EOF after "@ + decimal(got as nat) + " bytes at offset "@ + decimal(
                offset as nat,
            ),
        }
    }

    /// The report.
    pub fn message(&self) -> (m: String)
        ensures
            m@ == self.spec_message(),
    {
        match self {
            FetchError::RowRead { id, cause } => {
                let mut m: String = "NgramRowCache: read row ".to_owned();
                append_number(&mut m, *id);
                m.append(": ");
                m.append(cause.as_str());
                m
            },
            FetchError::RowEof { id, got, need, offset } => {
                let mut m: String = "NgramRowCache: read row ".to_owned();
                append_number(&mut m, *id);
                m.append(": EOF after ");
                append_number(&mut m, *got as u64);
                m.append(" of the ");
                append_number(&mut m, *need as u64);
                m.append(" bytes the row needs at offset ");
                append_number(&mut m, *offset);
                m
            },
            FetchError::ScaleRead { id, cause } => {
                let mut m: String = "NgramRowCache: read scale ".to_owned();
                append_number(&mut m, *id);
                m.append(": ");
                m.append(cause.as_str());
                m
            },
            FetchError::ScaleEof { id, got, offset } => {
                let mut m: String = "NgramRowCache: read scale ".to_owned();
                append_number(&mut m, *id);
                m.append(": EOF after ");
                append_number(&mut m, *got as u64);
                m.append(" bytes at offset ");
                append_number(&mut m, *offset);
                m
            },
        }
    }
}

impl CacheError {
    /// The report's text.
    pub open spec fn spec_message(self) -> Seq<char> {
        match self {
            CacheError::ZeroGeometry { row_stride, slots } =>
                "NgramRowCache: zero geometry (row_stride="@ + decimal(row_stride as nat)
                + ", slots="@ + decimal(slots as nat) + ")"@,
            CacheError::RowTooWide { row_stride } => "NgramRowCache: row_stride "@ + decimal(
                row_stride as nat,
            )
                + " exceeds the 4096-byte O_DIRECT block; a row would span more than the two blocks the seam-handling fetch reads"@,
            CacheError::RowOutOfRange { id, rows_total } => "NgramRowCache: row id "@ + decimal(
                id as nat,
            ) + " >= table rows "@ + decimal(rows_total as nat) + " (hash/table mismatch)"@,
            CacheError::AllPinned { slots } => "NgramRowCache: every one of "@ + decimal(
                slots as nat,
            )
                + " slots is pinned by the batch in flight — raise the cache size or lower max-prefill-tokens"@,
            CacheError::SlotOutOfRange { slot } => "slot "@ + decimal(slot as nat)
                + " out of range"@,
            CacheError::Fetch(e) => e.spec_message(),
        }
    }

    /// The report.
    pub fn message(&self) -> (m: String)
        ensures
            m@ == self.spec_message(),
    {
        match self {
            CacheError::ZeroGeometry { row_stride, slots } => {
                let mut m: String = "NgramRowCache: zero geometry (row_stride=".to_owned();
                append_number(&mut m, *row_stride as u64);
                m.append(", slots=");
                append_number(&mut m, *slots as u64);
                m.append(")");
                m
            },
            CacheError::RowTooWide { row_stride } => {
                let mut m: String = "NgramRowCache: row_stride ".to_owned();
                append_number(&mut m, *row_stride as u64);
                m.append(
                    " exceeds the 4096-byte O_DIRECT block; a row would span more than the two blocks the seam-handling fetch reads",
                );
                m
            },
            CacheError::RowOutOfRange { id, rows_total } => {
                let mut m: String = "NgramRowCache: row id ".to_owned();
                append_number(&mut m, *id);
                m.append(" >= table rows ");
                append_number(&mut m, *rows_total);
                m.append(" (hash/table mismatch)");
                m
            },
            CacheError::AllPinned { slots } => {
                let mut m: String = "NgramRowCache: every one of ".to_owned();
                append_number(&mut m, *slots as u64);
                m.append(
                    " slots is pinned by the batch in flight — raise the cache size or lower max-prefill-tokens",
                );
                m
            },
            CacheError::SlotOutOfRange { slot } => {
                let mut m: String = "slot ".to_owned();
                append_number(&mut m, *slot as u64);
                m.append(" out of range");
                m
            },
            CacheError::Fetch(e) => e.message(),
        }
    }
}

} // verus!
