//! What each call of a layer comes to.

use crate::ssm_layer::ple_seq_state;
use crate::ssm_layer::Carry;
use crate::ssm_layer::CarryStep;
use crate::ssm_layer::DecodeCall;
use crate::ssm_layer::LayerError;
use crate::ssm_layer::MultiSeqCall;
use crate::ssm_layer::PrefillCall;
use crate::ssm_layer::Qwen3SsmLayer;
use vstd::prelude::*;

verus! {

// ---- which path ----------------------------------------------------------------
/// The decode step of one sequence runs on the highway exactly if the layer has
/// it, on the hidden values and the state that were given. Off the highway it runs
/// on all that was given: the residual, the cache, the length and the tables too.
pub proof fn a_decode_step_runs_on_its_own_path<S, K, T>(
    layer: &Qwen3SsmLayer,
    hidden: u64,
    residual: u64,
    state: S,
    kv_cache: K,
    seq_len: usize,
    tables: T,
    call: DecodeCall<S, K, T>,
)
    requires
        call_ensures(
            Qwen3SsmLayer::decode::<S, K, T>,
            (layer, hidden, residual, state, kv_cache, seq_len, tables),
            call,
        ),
    ensures
        call is Highway <==> layer.hc,
        call is Residual <==> !layer.hc,
        match call {
            DecodeCall::Highway { hidden: h, state: s } => h == hidden && s == state,
            DecodeCall::Residual {
                hidden: h,
                residual: r,
                state: s,
                kv_cache: k,
                seq_len: l,
                tables: t,
            } => {
                &&& h == hidden
                &&& r == residual
                &&& s == state
                &&& k == kv_cache
                &&& l == seq_len
                &&& t == tables
            },
        },
{
}

/// The decode step of several sequences runs on the highway exactly if the layer
/// has it, over the active ones; off it on all that was given but how many are
/// active.
pub proof fn a_decode_step_of_several_runs_on_its_own_path<'a, S, K>(
    layer: &Qwen3SsmLayer,
    hidden: u64,
    residual: u64,
    num_seqs: usize,
    active_seqs: usize,
    states: S,
    kv_cache: K,
    seq_lens: &'a [usize],
    block_tables: &'a [Vec<u32>],
    call: MultiSeqCall<'a, S, K>,
)
    requires
        call_ensures(
            Qwen3SsmLayer::decode_multi_seq::<S, K>,
            (
                layer,
                hidden,
                residual,
                num_seqs,
                active_seqs,
                states,
                kv_cache,
                seq_lens,
                block_tables,
            ),
            call,
        ),
    ensures
        call is Highway <==> layer.hc,
        call is Residual <==> !layer.hc,
        match call {
            MultiSeqCall::Highway { hidden: h, num_seqs: n, active_seqs: a, states: s } => {
                &&& h == hidden
                &&& n == num_seqs
                &&& a == active_seqs
                &&& s == states
            },
            MultiSeqCall::Residual {
                hidden: h,
                residual: r,
                num_seqs: n,
                states: s,
                kv_cache: k,
                seq_lens: l,
                block_tables: t,
            } => {
                &&& h == hidden
                &&& r == residual
                &&& n == num_seqs
                &&& s == states
                &&& k == kv_cache
                &&& l == seq_lens
                &&& t == block_tables
            },
        },
{
}

/// A prefill runs on the highway exactly if the layer has it, on the hidden
/// values, the state, how many tokens there are and where they start. Off it it
/// runs on all that was given.
pub proof fn a_prefill_runs_on_its_own_path<S, K, T>(
    layer: &Qwen3SsmLayer,
    hidden: u64,
    residual: u64,
    num_tokens: usize,
    state: S,
    kv_cache: K,
    seq_len_start: usize,
    tables: T,
    kv_write_start: usize,
    call: PrefillCall<S, K, T>,
)
    requires
        call_ensures(
            Qwen3SsmLayer::prefill::<S, K, T>,
            (
                layer,
                hidden,
                residual,
                num_tokens,
                state,
                kv_cache,
                seq_len_start,
                tables,
                kv_write_start,
            ),
            call,
        ),
    ensures
        call is Highway <==> layer.hc,
        call is Residual <==> !layer.hc,
        match call {
            PrefillCall::Highway { hidden: h, num_tokens: n, state: s, seq_len_start: l } => {
                &&& h == hidden
                &&& n == num_tokens
                &&& s == state
                &&& l == seq_len_start
            },
            PrefillCall::Residual {
                hidden: h,
                residual: r,
                num_tokens: n,
                state: s,
                kv_cache: k,
                seq_len_start: l,
                tables: t,
                kv_write_start: w,
            } => {
                &&& h == hidden
                &&& r == residual
                &&& n == num_tokens
                &&& s == state
                &&& k == kv_cache
                &&& l == seq_len_start
                &&& t == tables
                &&& w == kv_write_start
            },
        },
{
}

// ---- verify steps ----------------------------------------------------------------
/// The rows of a verify step are those of its sequences together: none without
/// sequences, and with one sequence more that one's rows more. The step is refused
/// exactly if the numbers of sequences, states and row counts differ.
pub proof fn verify_rows_add_up(
    layer: &Qwen3SsmLayer,
    n_seqs: usize,
    n_states: usize,
    ks: &[usize],
    r: Result<usize, LayerError>,
    more_seqs: usize,
    more_states: usize,
    more: &[usize],
    more_r: Result<usize, LayerError>,
    k: usize,
)
    requires
        call_ensures(Qwen3SsmLayer::decode_verify_multi, (layer, n_seqs, n_states, ks), r),
        call_ensures(
            Qwen3SsmLayer::decode_verify_multi,
            (layer, more_seqs, more_states, more),
            more_r,
        ),
        more@ == ks@.push(k),
    ensures
        r is Ok <==> n_states == n_seqs && ks@.len() == n_seqs,
        r matches Err(e) ==> e == LayerError::SequenceMismatch,
        r is Ok && ks@.len() == 0 ==> r == Ok::<usize, LayerError>(0),
        r is Ok && more_r is Ok ==> more_r->Ok_0 == r->Ok_0 + k,
{
    assert(more@.drop_last() =~= ks@);
    assert(more@.last() == k);
}

// ---- the embedding's carry -------------------------------------------------------
/// A sequence gets a carry when it first needs one and keeps it. A state that can
/// have none is an error.
pub proof fn a_carry_is_made_once(carry: Carry, r: Result<CarryStep, LayerError>)
    requires
        call_ensures(ple_seq_state, (carry,), r),
    ensures
        carry == Carry::Absent ==> r == Ok::<CarryStep, LayerError>(CarryStep::Create),
        carry == Carry::Present ==> r == Ok::<CarryStep, LayerError>(CarryStep::Use),
        carry == Carry::Foreign ==> r == Err::<CarryStep, LayerError>(LayerError::ForeignState),
{
}

/// Preparing an embedding, for one token or for those of a verify step, makes a
/// carry where the layer hosts an embedding and there is none yet, and does nothing
/// where it hosts none.
pub proof fn preparing_an_embedding_needs_a_carry(
    layer: &Qwen3SsmLayer,
    carry: Carry,
    decode: Result<CarryStep, LayerError>,
    verify: Result<CarryStep, LayerError>,
)
    requires
        call_ensures(Qwen3SsmLayer::decode_prestage, (layer, carry), decode),
        call_ensures(Qwen3SsmLayer::verify_prestage, (layer, carry), verify),
    ensures
        verify == decode,
        !layer.ple ==> decode == Ok::<CarryStep, LayerError>(CarryStep::Skip),
        layer.ple && carry == Carry::Absent ==> decode == Ok::<CarryStep, LayerError>(
            CarryStep::Create,
        ),
        layer.ple && carry == Carry::Present ==> decode == Ok::<CarryStep, LayerError>(
            CarryStep::Use,
        ),
        layer.ple && carry == Carry::Foreign ==> decode == Err::<CarryStep, LayerError>(
            LayerError::ForeignState,
        ),
{
}

/// A snapshot is taken of a carry that there is, on a layer that hosts an
/// embedding. None is made for it, and a state that can have none is an error there.
pub proof fn a_snapshot_makes_no_carry(
    layer: &Qwen3SsmLayer,
    carry: Carry,
    r: Result<CarryStep, LayerError>,
)
    requires
        call_ensures(Qwen3SsmLayer::snapshot_aux, (layer, carry), r),
    ensures
        r == Ok::<CarryStep, LayerError>(CarryStep::Use) <==> layer.ple && carry == Carry::Present,
        r == Err::<CarryStep, LayerError>(LayerError::ForeignState) <==> layer.ple && carry
            == Carry::Foreign,
        r == Ok::<CarryStep, LayerError>(CarryStep::Skip) <==> !layer.ple || carry == Carry::Absent,
{
}

/// A snapshot is restored into the carry that there is, or into a new one, on a
/// layer that hosts an embedding; on any other it is refused.
pub proof fn a_snapshot_is_restored_into_a_carry(
    layer: &Qwen3SsmLayer,
    carry: Carry,
    r: Result<CarryStep, LayerError>,
)
    requires
        call_ensures(Qwen3SsmLayer::restore_aux, (layer, carry), r),
    ensures
        !layer.ple <==> r == Err::<CarryStep, LayerError>(LayerError::NoEmbedding),
        layer.ple && carry == Carry::Absent <==> r == Ok::<CarryStep, LayerError>(
            CarryStep::Create,
        ),
        layer.ple && carry == Carry::Present <==> r == Ok::<CarryStep, LayerError>(CarryStep::Use),
        layer.ple && carry == Carry::Foreign <==> r == Err::<CarryStep, LayerError>(
            LayerError::ForeignState,
        ),
{
}

/// Rolling back, rearming and releasing concern a carry that there is, on a layer
/// that hosts an embedding, and nothing else.
pub proof fn only_a_carry_that_there_is_is_touched(
    layer: &Qwen3SsmLayer,
    carry: Carry,
    rollback: CarryStep,
    rearm: CarryStep,
    free: CarryStep,
)
    requires
        call_ensures(Qwen3SsmLayer::rollback_aux_verify, (layer, carry), rollback),
        call_ensures(Qwen3SsmLayer::decode_prestage_rearm, (layer, carry), rearm),
        call_ensures(Qwen3SsmLayer::free_state, (layer, carry), free),
    ensures
        rollback == CarryStep::Use <==> layer.ple && carry == Carry::Present,
        rollback == CarryStep::Skip <==> !(layer.ple && carry == Carry::Present),
        rearm == rollback,
        free == rollback,
{
}

/// A layer has state beyond its own, and cannot be replayed in batches, exactly
/// if it hosts an embedding.
pub proof fn an_embedding_is_state_and_vetoes_replay(
    layer: &Qwen3SsmLayer,
    aux: bool,
    veto: bool,
)
    requires
        call_ensures(Qwen3SsmLayer::has_aux_state, (layer,), aux),
        call_ensures(Qwen3SsmLayer::decode_graph_unsupported, (layer,), veto),
    ensures
        aux <==> layer.ple,
        veto <==> layer.ple,
{
}

} // verus!
