//! What numbers mean as text, and what settings and reports make of them.

use crate::error::CacheError;
use crate::error::FetchError;
use crate::settings::fault_threads;
use crate::ssm_layer::LayerError;
use crate::ssm_layer::Qwen3SsmLayer;
use crate::text::append_number;
use crate::text::decimal;
use crate::text::digits_value;
use crate::text::parse_number;
use crate::text::parsed;
use crate::text::unsigned_part;
use vstd::prelude::*;

verus! {

/// The character is one of the ten decimal digits.
pub open spec fn is_figure(c: char) -> bool {
    '0' <= c <= '9'
}

/// `text` is one or more decimal digits.
pub open spec fn is_numeral(text: Seq<char>) -> bool {
    &&& text.len() > 0
    &&& forall|i: int| 0 <= i < text.len() ==> is_figure(#[trigger] text[i])
}

/// What a numeral counts: ten times what its digits but the last count, and the
/// last.
pub open spec fn counts(text: Seq<char>) -> int
    decreases text.len(),
{
    if text.len() == 0 {
        0
    } else {
        10 * counts(text.drop_last()) + (text.last() as int - '0' as int)
    }
}

/// A text behind its plus sign, if it has one.
pub open spec fn behind_the_plus(text: Seq<char>) -> Seq<char> {
    if text.len() > 0 && text[0] == '+' {
        text.subrange(1, text.len() as int)
    } else {
        text
    }
}

/// The number that a text stands for, if it stands for one that the machine can
/// count to.
pub open spec fn stands_for(text: Seq<char>, n: usize) -> bool {
    &&& is_numeral(behind_the_plus(text))
    &&& counts(behind_the_plus(text)) == n
}

proof fn values_count(text: Seq<char>)
    ensures
        digits_value(text) == counts(text),
    decreases text.len(),
{
    if text.len() > 0 {
        values_count(text.drop_last());
    }
}

proof fn counts_from_nothing(text: Seq<char>)
    requires
        forall|i: int| 0 <= i < text.len() ==> is_figure(#[trigger] text[i]),
    ensures
        0 <= counts(text),
    decreases text.len(),
{
    if text.len() > 0 {
        counts_from_nothing(text.drop_last());
        assert(is_figure(text[text.len() - 1]));
    }
}

proof fn parsing_counts(text: Seq<char>)
    ensures
        parsed(text) matches Some(n) ==> stands_for(text, n),
        parsed(text) is None ==> forall|n: usize| !stands_for(text, n),
{
    assert(unsigned_part(text) =~= behind_the_plus(text));
    let t = behind_the_plus(text);
    values_count(t);
    assert(forall|i: int|
        0 <= i < t.len() ==> (is_figure(#[trigger] t[i]) <==> crate::text::is_digit(t[i])));
    assert(crate::text::all_digits(t) <==> forall|i: int|
        0 <= i < t.len() ==> is_figure(#[trigger] t[i]));
    if crate::text::all_digits(t) {
        counts_from_nothing(t);
    }
}

/// Reading a number gives the one that the text stands for, and none exactly if
/// it stands for none.
pub proof fn a_number_is_read_for_what_it_counts(text: &str, r: Option<usize>)
    requires
        call_ensures(parse_number, (text,), r),
    ensures
        r matches Some(n) ==> stands_for(text@, n),
        r is None ==> forall|n: usize| !stands_for(text@, n),
{
    parsing_counts(text@);
}

proof fn decimals_count(n: nat)
    ensures
        is_numeral(decimal(n)),
        counts(decimal(n)) == n,
        decimal(n).len() > 1 ==> decimal(n)[0] != '0',
        n > 0 ==> decimal(n)[0] != '0',
    decreases n,
{
    let d = decimal(n);
    if n >= 10 {
        decimals_count(n / 10);
        assert(d.drop_last() =~= decimal(n / 10));
        assert forall|i: int| 0 <= i < d.len() implies is_figure(#[trigger] d[i]) by {
            if i < d.len() - 1 {
                assert(d[i] == decimal(n / 10)[i]);
            }
        }
        assert(d[0] == decimal(n / 10)[0]);
    } else {
        assert(d.drop_last() =~= Seq::empty());
        assert(counts(d.drop_last()) == 0);
    }
}

/// Writing a number puts the digits behind the text that count it, without a
/// zero in front.
pub proof fn a_number_is_written_as_it_counts(text: &mut String, n: u64)
    requires
        call_ensures(append_number, (text, n), ()),
    ensures
        ({
            let k = old(text)@.len() as int;
            let digits = final(text)@.subrange(k, final(text)@.len() as int);
            &&& final(text)@.len() > k
            &&& final(text)@.subrange(0, k) == old(text)@
            &&& is_numeral(digits)
            &&& counts(digits) == n
            &&& digits.len() > 1 ==> digits[0] != '0'
        }),
{
    let k = old(text)@.len() as int;
    decimals_count(n as nat);
    assert(final(text)@.subrange(k, final(text)@.len() as int) =~= decimal(n as nat));
    assert(final(text)@.subrange(0, k) =~= old(text)@);
}

/// The number of workers is the one that the setting stands for, and 32 where it
/// stands for none or there is none.
pub proof fn the_setting_gives_the_workers(setting: Option<&str>, n: usize)
    requires
        call_ensures(fault_threads, (setting,), n),
    ensures
        setting is None ==> n == 32,
        setting matches Some(text) ==> {
            ||| stands_for(text@, n)
            ||| n == 32 && forall|k: usize| !stands_for(text@, k)
        },
{
    if setting is Some {
        parsing_counts((setting->0)@);
    }
}

/// Drafts are bounded for a mixture of experts under the highway only. There the
/// bound is one draft, or two where the setting stands for two or more.
pub proof fn experts_under_the_highway_bound_the_drafts(
    layer: &Qwen3SsmLayer,
    setting: Option<&str>,
    r: Option<usize>,
)
    requires
        call_ensures(Qwen3SsmLayer::verify_max_drafts, (layer, setting), r),
    ensures
        r is None <==> !layer.hc || layer.dense_ffn,
        r matches Some(n) ==> n == 1 || n == 2,
        r == Some(2usize) ==> (setting matches Some(text) && exists|k: usize|
            k >= 2 && #[trigger] stands_for(text@, k)),
        r == Some(1usize) ==> (setting matches Some(text) ==> forall|k: usize| #[trigger]
            stands_for(text@, k) ==> k <= 1),
{
    if setting is Some {
        let text = (setting->0)@;
        parsing_counts(text);
        if r == Some(1usize) {
            assert forall|k: usize| #[trigger] stands_for(text, k) implies k <= 1 by {
                assert(parsed(text) is Some);
            }
        }
    }
}

/// What a read that failed is reported as.
pub proof fn failed_reads_are_reported_in_full(e: &FetchError, m: String)
    requires
        call_ensures(FetchError::message, (e,), m),
    ensures
        match *e {
            FetchError::RowRead { id, cause } => m@ == "NgramRowCache: read row "@ + decimal(
                id as nat,
            ) + ": "@ + cause@,
            FetchError::RowEof { id, got, need, offset } => m@ == "NgramRowCache: read row "@
                + decimal(id as nat) + ": EOF after "@ + decimal(got as nat) + " of the "@
                + decimal(need as nat) + " bytes the row needs at offset "@ + decimal(
                offset as nat,
            ),
            FetchError::ScaleRead { id, cause } => m@ == "NgramRowCache: read scale "@ + decimal(
                id as nat,
            ) + ": "@ + cause@,
            FetchError::ScaleEof { id, got, offset } => m@ == "NgramRowCache: read scale "@
                + decimal(id as nat) + ": EOF after "@ + decimal(got as nat)
                + " bytes at offset "@ + decimal(offset as nat),
        },
{
}

/// What a refusal is reported as.
pub proof fn refusals_are_reported_in_full(e: &CacheError, m: String)
    requires
        call_ensures(CacheError::message, (e,), m),
    ensures
        match *e {
            CacheError::ZeroGeometry { row_stride, slots } => m@
                == "NgramRowCache: zero geometry (row_stride="@ + decimal(row_stride as nat)
                + ", slots="@ + decimal(slots as nat) + ")"@,
            CacheError::RowTooWide { row_stride } => m@ == "NgramRowCache: row_stride "@ + decimal(
                row_stride as nat,
            )
                + " exceeds the 4096-byte O_DIRECT block; a row would span more than the two blocks the seam-handling fetch reads"@,
            CacheError::RowOutOfRange { id, rows_total } => m@ == "NgramRowCache: row id "@
                + decimal(id as nat) + " >= table rows "@ + decimal(rows_total as nat)
                + " (hash/table mismatch)"@,
            CacheError::AllPinned { slots } => m@ == "NgramRowCache: every one of "@ + decimal(
                slots as nat,
            )
                + " slots is pinned by the batch in flight — raise the cache size or lower max-prefill-tokens"@,
            CacheError::SlotOutOfRange { slot } => m@ == "slot "@ + decimal(slot as nat)
                + " out of range"@,
            CacheError::Fetch(_) => true,
        },
{
}

/// A read that failed is reported by the cache as it is reported itself.
pub proof fn failed_reads_are_passed_on(e: FetchError, m: String, passed: String)
    requires
        call_ensures(FetchError::message, (&e,), m),
        call_ensures(CacheError::message, (&CacheError::Fetch(e),), passed),
    ensures
        passed@ == m@,
{
}

/// What a layer's refusal is reported as.
pub proof fn a_layers_refusals_are_reported_in_full(e: &LayerError, m: String)
    requires
        call_ensures(LayerError::message, (e,), m),
    ensures
        match *e {
            LayerError::ForeignState => m@ == "PLE host layer state is not SsmLayerState"@,
            LayerError::NoEmbedding => m@ == "restore_aux: no PLE on this layer"@,
            LayerError::SequenceMismatch => m@ == "decode_verify_multi: states/ks/n mismatch"@,
        },
{
}

} // verus!
