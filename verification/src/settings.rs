//! Settings that come as text from outside.

use crate::text::parse_number;
use crate::text::parsed;
use vstd::prelude::*;

verus! {

/// How many workers share the reads of a batch when nothing else is set.
///
/// Direct reads are overlapped by nobody else, so the depth of the queue is
/// what makes a batch of misses fast.
pub const DEFAULT_FAULT_THREADS: usize = 32;

/// How many workers share the reads of a batch: what the setting says, or the
/// default where there is no setting or it is no number. With 1 the reads are
/// done one after the other.
pub fn fault_threads(setting: Option<&str>) -> (n: usize)
    ensures
        n == match setting {
            Some(text) => match parsed(text@) {
                Some(k) => k,
                None => DEFAULT_FAULT_THREADS,
            },
            None => DEFAULT_FAULT_THREADS,
        },
{
    match setting {
        Some(text) => match parse_number(text) {
            Some(k) => k,
            None => DEFAULT_FAULT_THREADS,
        },
        None => DEFAULT_FAULT_THREADS,
    }
}

} // verus!
