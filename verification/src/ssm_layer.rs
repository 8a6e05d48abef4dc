//! The choices of a recurrent layer that hosts a per-layer embedding: which
//! forward path to run and on what, and what to do about the embedding's carry.
//!
//! The carry is state of its own that a sequence needs on such a layer. It is
//! created when it is first needed.

use crate::text::parse_number;
use crate::text::parsed;
use vstd::prelude::*;

verus! {

/// What a layer is made of, as far as its choices depend on it.
#[derive(Clone, Copy, Debug, PartialEq, Eq, Structural)]
pub struct Qwen3SsmLayer {
    /// The layer runs under a hyper-connection highway, which replaces the
    /// residual stream.
    pub hc: bool,
    /// The layer hosts a per-layer embedding.
    pub ple: bool,
    /// The layer's feed-forward part is dense, not a mixture of experts.
    pub dense_ffn: bool,
}

/// The most drafts that a mixture of experts under the highway can verify.
pub const MAX_DRAFTS: usize = 2;

/// A decode step of one sequence, with what it runs on. Its state, its cache and
/// its tables are passed through as they are.
#[derive(Debug, PartialEq, Eq)]
pub enum DecodeCall<S, K, T> {
    /// Bracketed by the highway, which is the residual.
    Highway { hidden: u64, state: S },
    /// With the residual folded into the norms.
    Residual { hidden: u64, residual: u64, state: S, kv_cache: K, seq_len: usize, tables: T },
}

/// A decode step of several sequences, with what it runs on.
#[derive(Debug, PartialEq, Eq)]
pub enum MultiSeqCall<'a, S, K> {
    /// Bracketed by the highway, over the active sequences.
    Highway { hidden: u64, num_seqs: usize, active_seqs: usize, states: S },
    /// With the residual folded into the norms.
    Residual {
        hidden: u64,
        residual: u64,
        num_seqs: usize,
        states: S,
        kv_cache: K,
        seq_lens: &'a [usize],
        block_tables: &'a [Vec<u32>],
    },
}

/// A prefill, with what it runs on.
#[derive(Debug, PartialEq, Eq)]
pub enum PrefillCall<S, K, T> {
    /// Bracketed by the highway, which is the residual.
    Highway { hidden: u64, num_tokens: usize, state: S, seq_len_start: usize },
    /// With the residual folded into the norms.
    Residual {
        hidden: u64,
        residual: u64,
        num_tokens: usize,
        state: S,
        kv_cache: K,
        seq_len_start: usize,
        tables: T,
        kv_write_start: usize,
    },
}

/// What is known of a sequence's carry.
#[derive(Clone, Copy, Debug, PartialEq, Eq, Structural)]
pub enum Carry {
    /// The sequence's state is not that of a recurrent layer.
    Foreign,
    /// The sequence has not needed a carry yet.
    Absent,
    Present,
}

/// What to do about a carry.
#[derive(Clone, Copy, Debug, PartialEq, Eq, Structural)]
pub enum CarryStep {
    /// Nothing.
    Skip,
    /// Create it, then use it.
    Create,
    /// Use the one that is there.
    Use,
}

/// Why a layer refused.
#[derive(Clone, Copy, Debug, PartialEq, Eq, Structural)]
pub enum LayerError {
    /// A carry is wanted of a state that can have none.
    ForeignState,
    /// A carry is to be restored on a layer that hosts no embedding.
    NoEmbedding,
    /// The numbers of sequences, of their states and of their rows differ.
    SequenceMismatch,
}

impl LayerError {
    /// The report's text.
    pub open spec fn spec_message(self) -> Seq<char> {
        match self {
            LayerError::ForeignState => "PLE host layer state is not SsmLayerState"@,
            LayerError::NoEmbedding => "restore_aux: no PLE on this layer"@,
            LayerError::SequenceMismatch => "decode_verify_multi: states/ks/n mismatch"@,
        }
    }

    /// The report.
    pub fn message(&self) -> (m: String)
        ensures
            m@ == self.spec_message(),
    {
        match self {
            LayerError::ForeignState => "PLE host layer state is not SsmLayerState".to_owned(),
            LayerError::NoEmbedding => "restore_aux: no PLE on this layer".to_owned(),
            LayerError::SequenceMismatch => "decode_verify_multi: states/ks/n mismatch".to_owned(),
        }
    }
}

impl Carry {
    /// The carry once `step` has been done.
    pub open spec fn after(self, step: CarryStep) -> Carry {
        match step {
            CarryStep::Create => Carry::Present,
            _ => self,
        }
    }
}

/// The step that leaves a sequence with a carry to use: the one it has, or a
/// new one.
pub open spec fn carry_wanted(carry: Carry) -> Result<CarryStep, LayerError> {
    match carry {
        Carry::Foreign => Err(LayerError::ForeignState),
        Carry::Absent => Ok(CarryStep::Create),
        Carry::Present => Ok(CarryStep::Use),
    }
}

/// How a sequence gets its carry: created on first use.
pub fn ple_seq_state(carry: Carry) -> (r: Result<CarryStep, LayerError>)
    ensures
        r == carry_wanted(carry),
{
    match carry {
        Carry::Foreign => Err(LayerError::ForeignState),
        Carry::Absent => Ok(CarryStep::Create),
        Carry::Present => Ok(CarryStep::Use),
    }
}

/// The sum of `ks`.
pub open spec fn total(ks: Seq<usize>) -> int
    decreases ks.len(),
{
    if ks.len() == 0 {
        0
    } else {
        total(ks.drop_last()) + ks.last()
    }
}

proof fn total_grows(ks: Seq<usize>, k: int)
    requires
        0 <= k <= ks.len(),
    ensures
        0 <= total(ks.take(k)) <= total(ks),
    decreases ks.len(),
{
    if k < ks.len() {
        total_grows(ks.drop_last(), k);
        assert(ks.drop_last().take(k) =~= ks.take(k));
    } else {
        assert(ks.take(k) =~= ks);
        if ks.len() > 0 {
            total_grows(ks.drop_last(), ks.len() - 1);
        }
    }
}

impl Qwen3SsmLayer {
    /// The decode step of one sequence: under the highway there is no use for a
    /// residual, a cache or tables.
    pub open spec fn decode_call<S, K, T>(
        self,
        hidden: u64,
        residual: u64,
        state: S,
        kv_cache: K,
        seq_len: usize,
        tables: T,
    ) -> DecodeCall<S, K, T> {
        if self.hc {
            DecodeCall::Highway { hidden, state }
        } else {
            DecodeCall::Residual { hidden, residual, state, kv_cache, seq_len, tables }
        }
    }

    /// The decode step of several sequences: under the highway there is no use
    /// for a residual, a cache, lengths or tables, and off it none for the number
    /// of those that are active.
    pub open spec fn multi_seq_call<'a, S, K>(
        self,
        hidden: u64,
        residual: u64,
        num_seqs: usize,
        active_seqs: usize,
        states: S,
        kv_cache: K,
        seq_lens: &'a [usize],
        block_tables: &'a [Vec<u32>],
    ) -> MultiSeqCall<'a, S, K> {
        if self.hc {
            MultiSeqCall::Highway { hidden, num_seqs, active_seqs, states }
        } else {
            MultiSeqCall::Residual {
                hidden,
                residual,
                num_seqs,
                states,
                kv_cache,
                seq_lens,
                block_tables,
            }
        }
    }

    /// The prefill: under the highway there is no use for a residual, a cache or
    /// tables.
    pub open spec fn prefill_call<S, K, T>(
        self,
        hidden: u64,
        residual: u64,
        num_tokens: usize,
        state: S,
        kv_cache: K,
        seq_len_start: usize,
        tables: T,
        kv_write_start: usize,
    ) -> PrefillCall<S, K, T> {
        if self.hc {
            PrefillCall::Highway { hidden, num_tokens, state, seq_len_start }
        } else {
            PrefillCall::Residual {
                hidden,
                residual,
                num_tokens,
                state,
                kv_cache,
                seq_len_start,
                tables,
                kv_write_start,
            }
        }
    }

    /// Use the carry if the layer hosts an embedding and there is one;
    /// otherwise there is nothing to do.
    pub open spec fn if_present(self, carry: Carry) -> CarryStep {
        if self.ple && carry == Carry::Present {
            CarryStep::Use
        } else {
            CarryStep::Skip
        }
    }

    /// How a layer comes by a carry to use: not at all where it hosts no
    /// embedding.
    pub open spec fn wanted(self, carry: Carry) -> Result<CarryStep, LayerError> {
        if self.ple {
            carry_wanted(carry)
        } else {
            Ok(CarryStep::Skip)
        }
    }

    /// What a snapshot is taken of: a state that can have no carry is an error,
    /// one that has none yet is in order.
    pub open spec fn snapshot(self, carry: Carry) -> Result<CarryStep, LayerError> {
        if self.ple && carry == Carry::Foreign {
            Err(LayerError::ForeignState)
        } else {
            Ok(self.if_present(carry))
        }
    }

    /// Where a snapshot goes: never to a layer without an embedding.
    pub open spec fn restore(self, carry: Carry) -> Result<CarryStep, LayerError> {
        if self.ple {
            carry_wanted(carry)
        } else {
            Err(LayerError::NoEmbedding)
        }
    }

    /// How to prepare the embedding of one token ahead of a decode step.
    pub fn decode_prestage(&self, carry: Carry) -> (r: Result<CarryStep, LayerError>)
        ensures
            r == self.wanted(carry),
    {
        if self.ple {
            ple_seq_state(carry)
        } else {
            Ok(CarryStep::Skip)
        }
    }

    /// How to prepare the embeddings of the tokens of a verify step.
    pub fn verify_prestage(&self, carry: Carry) -> (r: Result<CarryStep, LayerError>)
        ensures
            r == self.wanted(carry),
    {
        if self.ple {
            ple_seq_state(carry)
        } else {
            Ok(CarryStep::Skip)
        }
    }

    /// Whether sequences carry state on this layer beyond the layer's own.
    pub fn has_aux_state(&self) -> (b: bool)
        ensures
            b == self.ple,
    {
        self.ple
    }

    /// How many drafts a verify step may have, or `None` for no bound.
    ///
    /// Only a mixture of experts under the highway is bound. It can verify two
    /// rows or three, one more than there are drafts, so a setting is heeded up
    /// to two drafts. One draft is the default.
    pub fn verify_max_drafts(&self, setting: Option<&str>) -> (r: Option<usize>)
        ensures
            r == if !self.hc || self.dense_ffn {
                None
            } else {
                Some(
                    match setting {
                        Some(text) => match parsed(text@) {
                            Some(n) => if n == 0 {
                                1
                            } else if n > MAX_DRAFTS {
                                MAX_DRAFTS
                            } else {
                                n
                            },
                            None => 1,
                        },
                        None => 1,
                    },
                )
            },
            r matches Some(n) ==> 1 <= n <= MAX_DRAFTS,
    {
        if !self.hc || self.dense_ffn {
            return None;
        }
        let set: Option<usize> = match setting {
            Some(text) => parse_number(text),
            None => None,
        };
        match set {
            Some(n) => if n == 0 {
                Some(1)
            } else if n > MAX_DRAFTS {
                Some(MAX_DRAFTS)
            } else {
                Some(n)
            },
            None => Some(1),
        }
    }

    /// What a verify step that accepted only some of its drafts has to roll
    /// back.
    pub fn rollback_aux_verify(&self, carry: Carry) -> (s: CarryStep)
        ensures
            s == self.if_present(carry),
    {
        self.use_if_present(carry)
    }

    /// Batched decode steps cannot be replayed from a recorded graph: the
    /// embedding reads host memory.
    pub fn decode_graph_unsupported(&self) -> (b: bool)
        ensures
            b == self.ple,
    {
        self.ple
    }

    /// Whether there is a carry to take a snapshot of. A sequence that has not
    /// run this layer has none, which is in order.
    pub fn snapshot_aux(&self, carry: Carry) -> (r: Result<CarryStep, LayerError>)
        ensures
            r == self.snapshot(carry),
    {
        if !self.ple {
            return Ok(CarryStep::Skip);
        }
        match carry {
            Carry::Foreign => Err(LayerError::ForeignState),
            Carry::Absent => Ok(CarryStep::Skip),
            Carry::Present => Ok(CarryStep::Use),
        }
    }

    /// Which carry a snapshot is to be restored into.
    pub fn restore_aux(&self, carry: Carry) -> (r: Result<CarryStep, LayerError>)
        ensures
            r == self.restore(carry),
    {
        if !self.ple {
            return Err(LayerError::NoEmbedding);
        }
        ple_seq_state(carry)
    }

    /// Whether there is a carry to make ready for another prestage.
    pub fn decode_prestage_rearm(&self, carry: Carry) -> (s: CarryStep)
        ensures
            s == self.if_present(carry),
    {
        self.use_if_present(carry)
    }

    /// Whether there is a carry to release along with a sequence's state.
    pub fn free_state(&self, carry: Carry) -> (s: CarryStep)
        ensures
            s == self.if_present(carry),
    {
        self.use_if_present(carry)
    }

    fn use_if_present(&self, carry: Carry) -> (s: CarryStep)
        ensures
            s == self.if_present(carry),
    {
        if !self.ple {
            return CarryStep::Skip;
        }
        match carry {
            Carry::Present => CarryStep::Use,
            _ => CarryStep::Skip,
        }
    }

    /// The decode step of one sequence.
    pub fn decode<S, K, T>(
        &self,
        hidden: u64,
        residual: u64,
        state: S,
        kv_cache: K,
        seq_len: usize,
        tables: T,
    ) -> (call: DecodeCall<S, K, T>)
        ensures
            call == self.decode_call(hidden, residual, state, kv_cache, seq_len, tables),
    {
        if self.hc {
            return DecodeCall::Highway { hidden, state };
        }
        DecodeCall::Residual { hidden, residual, state, kv_cache, seq_len, tables }
    }

    /// The decode step of several sequences.
    pub fn decode_multi_seq<'a, S, K>(
        &self,
        hidden: u64,
        residual: u64,
        num_seqs: usize,
        active_seqs: usize,
        states: S,
        kv_cache: K,
        seq_lens: &'a [usize],
        block_tables: &'a [Vec<u32>],
    ) -> (call: MultiSeqCall<'a, S, K>)
        ensures
            call == self.multi_seq_call(
                hidden,
                residual,
                num_seqs,
                active_seqs,
                states,
                kv_cache,
                seq_lens,
                block_tables,
            ),
    {
        if self.hc {
            return MultiSeqCall::Highway { hidden, num_seqs, active_seqs, states };
        }
        MultiSeqCall::Residual {
            hidden,
            residual,
            num_seqs,
            states,
            kv_cache,
            seq_lens,
            block_tables,
        }
    }

    /// The prefill.
    pub fn prefill<S, K, T>(
        &self,
        hidden: u64,
        residual: u64,
        num_tokens: usize,
        state: S,
        kv_cache: K,
        seq_len_start: usize,
        tables: T,
        kv_write_start: usize,
    ) -> (call: PrefillCall<S, K, T>)
        ensures
            call == self.prefill_call(
                hidden,
                residual,
                num_tokens,
                state,
                kv_cache,
                seq_len_start,
                tables,
                kv_write_start,
            ),
    {
        if self.hc {
            return PrefillCall::Highway { hidden, num_tokens, state, seq_len_start };
        }
        PrefillCall::Residual {
            hidden,
            residual,
            num_tokens,
            state,
            kv_cache,
            seq_len_start,
            tables,
            kv_write_start,
        }
    }

    /// How many rows a verify step of `n_seqs` sequences runs over, with `ks`
    /// rows each.
    pub fn decode_verify_multi(&self, n_seqs: usize, n_states: usize, ks: &[usize]) -> (r: Result<
        usize,
        LayerError,
    >)
        requires
            n_states == n_seqs && ks@.len() == n_seqs ==> total(ks@) <= usize::MAX,
        ensures
            n_states == n_seqs && ks@.len() == n_seqs ==> r is Ok && r->Ok_0 == total(ks@),
            n_states != n_seqs || ks@.len() != n_seqs ==> r == Err::<usize, LayerError>(
                LayerError::SequenceMismatch,
            ),
    {
        if n_states != n_seqs || ks.len() != n_seqs {
            return Err(LayerError::SequenceMismatch);
        }
        let mut sum: usize = 0;
        let mut i: usize = 0;
        assert(ks@.take(0) =~= Seq::empty());
        while i < ks.len()
            invariant
                i <= ks@.len(),
                total(ks@) <= usize::MAX,
                sum == total(ks@.take(i as int)),
            decreases ks@.len() - i,
        {
            proof {
                assert(ks@.take(i + 1).drop_last() =~= ks@.take(i as int));
                total_grows(ks@, i + 1);
            }
            sum = sum + ks[i];
            i = i + 1;
        }
        assert(ks@.take(ks@.len() as int) =~= ks@);
        Ok(sum)
    }

    /// Under the highway a decode step of several sequences is the same whatever
    /// residual, cache, lengths and tables it is given: none of them is used.
    pub proof fn the_highway_needs_no_residual<S, K>(
        self,
        hidden: u64,
        num_seqs: usize,
        active_seqs: usize,
        states: S,
        residual: u64,
        kv_cache: K,
        seq_lens: &[usize],
        block_tables: &[Vec<u32>],
        other_residual: u64,
        other_kv_cache: K,
        other_seq_lens: &[usize],
        other_block_tables: &[Vec<u32>],
    )
        requires
            self.hc,
        ensures
            self.multi_seq_call(
                hidden,
                residual,
                num_seqs,
                active_seqs,
                states,
                kv_cache,
                seq_lens,
                block_tables,
            ) == self.multi_seq_call(
                hidden,
                other_residual,
                num_seqs,
                active_seqs,
                states,
                other_kv_cache,
                other_seq_lens,
                other_block_tables,
            ),
    {
    }

    /// Off the highway a decode step of several sequences runs over all of them,
    /// however many are active.
    pub proof fn off_the_highway_all_sequences_run<S, K>(
        self,
        hidden: u64,
        residual: u64,
        num_seqs: usize,
        states: S,
        kv_cache: K,
        seq_lens: &[usize],
        block_tables: &[Vec<u32>],
        active_seqs: usize,
        other_active_seqs: usize,
    )
        requires
            !self.hc,
        ensures
            self.multi_seq_call(
                hidden,
                residual,
                num_seqs,
                active_seqs,
                states,
                kv_cache,
                seq_lens,
                block_tables,
            ) == self.multi_seq_call(
                hidden,
                residual,
                num_seqs,
                other_active_seqs,
                states,
                kv_cache,
                seq_lens,
                block_tables,
            ),
    {
    }

    /// Under the highway neither the decode step of one sequence nor a prefill
    /// makes use of a residual, a cache or tables.
    pub proof fn the_highway_needs_no_tables<S, K, T>(
        self,
        hidden: u64,
        state: S,
        num_tokens: usize,
        seq_len: usize,
        residual: u64,
        kv_cache: K,
        tables: T,
        kv_write_start: usize,
        other_residual: u64,
        other_kv_cache: K,
        other_tables: T,
        other_kv_write_start: usize,
        other_seq_len: usize,
    )
        requires
            self.hc,
        ensures
            self.decode_call(hidden, residual, state, kv_cache, seq_len, tables)
                == self.decode_call(
                hidden,
                other_residual,
                state,
                other_kv_cache,
                other_seq_len,
                other_tables,
            ),
            self.prefill_call(
                hidden,
                residual,
                num_tokens,
                state,
                kv_cache,
                seq_len,
                tables,
                kv_write_start,
            ) == self.prefill_call(
                hidden,
                other_residual,
                num_tokens,
                state,
                other_kv_cache,
                seq_len,
                other_tables,
                other_kv_write_start,
            ),
    {
    }

    /// A layer without an embedding leaves every sequence's carry alone, and
    /// refuses to restore one.
    pub proof fn no_embedding_no_carry(self, carry: Carry)
        requires
            !self.ple,
        ensures
            self.wanted(carry) == Ok::<CarryStep, LayerError>(CarryStep::Skip),
            self.if_present(carry) == CarryStep::Skip,
            self.snapshot(carry) == Ok::<CarryStep, LayerError>(CarryStep::Skip),
            carry.after(CarryStep::Skip) == carry,
            self.restore(carry) == Err::<CarryStep, LayerError>(LayerError::NoEmbedding),
    {
    }

    /// Where a carry is wanted and can be had, there is one afterwards, and
    /// from then on it is the one that is used, kept in snapshots and released.
    pub proof fn a_wanted_carry_stays(self, carry: Carry)
        requires
            self.ple,
            carry != Carry::Foreign,
        ensures
            self.wanted(carry) is Ok,
            self.restore(carry) == self.wanted(carry),
            ({
                let then = carry.after(self.wanted(carry)->Ok_0);
                &&& then == Carry::Present
                &&& self.wanted(then) == Ok::<CarryStep, LayerError>(CarryStep::Use)
                &&& self.snapshot(then) == Ok::<CarryStep, LayerError>(CarryStep::Use)
                &&& self.if_present(then) == CarryStep::Use
            }),
    {
    }
}

} // verus!
