//! The choices of a layer.

use ngram_cache::ssm_layer::{
    ple_seq_state, Carry, CarryStep, DecodeCall, LayerError, MultiSeqCall, PrefillCall,
    Qwen3SsmLayer,
};

fn layer(hc: bool, ple: bool, dense_ffn: bool) -> Qwen3SsmLayer {
    Qwen3SsmLayer { hc, ple, dense_ffn }
}

#[test]
fn only_experts_under_the_highway_bound_the_drafts() {
    assert_eq!(layer(false, true, false).verify_max_drafts(Some("5")), None);
    assert_eq!(layer(true, true, true).verify_max_drafts(Some("5")), None);
    let bound = layer(true, false, false);
    assert_eq!(bound.verify_max_drafts(None), Some(1));
    assert_eq!(bound.verify_max_drafts(Some("1")), Some(1));
    assert_eq!(bound.verify_max_drafts(Some("2")), Some(2));
    // Three drafts would be four rows, which no arm of the layer serves.
    assert_eq!(bound.verify_max_drafts(Some("3")), Some(2));
    assert_eq!(bound.verify_max_drafts(Some("5")), Some(2));
    assert_eq!(bound.verify_max_drafts(Some("0")), Some(1));
    assert_eq!(bound.verify_max_drafts(Some("-2")), Some(1));
    assert_eq!(bound.verify_max_drafts(Some("two")), Some(1));
}

#[test]
fn the_highway_runs_without_a_residual() {
    let lens = [5usize, 6];
    let tables = [vec![1u32], vec![2]];
    for dense in [false, true] {
        let h = layer(true, false, dense);
        assert_eq!(
            h.decode(16, 32, "state", "cache", 7, "tables"),
            DecodeCall::Highway {
                hidden: 16,
                state: "state"
            }
        );
        assert_eq!(
            h.prefill(16, 32, 9, "state", "cache", 7, "tables", 3),
            PrefillCall::Highway {
                hidden: 16,
                num_tokens: 9,
                state: "state",
                seq_len_start: 7
            }
        );
        let call = MultiSeqCall::Highway {
            hidden: 16,
            num_seqs: 2,
            active_seqs: 1,
            states: "states",
        };
        assert_eq!(
            h.decode_multi_seq(16, 32, 2, 1, "states", "cache", &lens, &tables),
            call
        );
        // Another residual, cache, lengths and tables make no difference.
        assert_eq!(
            h.decode_multi_seq(16, 99, 2, 1, "states", "other", &[], &[]),
            call
        );
    }
}

#[test]
fn off_the_highway_everything_is_handed_on() {
    let lens = [5usize, 6];
    let tables = [vec![1u32], vec![2]];
    for dense in [false, true] {
        let r = layer(false, true, dense);
        assert_eq!(
            r.decode(16, 32, "state", "cache", 7, "tables"),
            DecodeCall::Residual {
                hidden: 16,
                residual: 32,
                state: "state",
                kv_cache: "cache",
                seq_len: 7,
                tables: "tables"
            }
        );
        assert_eq!(
            r.prefill(16, 32, 9, "state", "cache", 7, "tables", 3),
            PrefillCall::Residual {
                hidden: 16,
                residual: 32,
                num_tokens: 9,
                state: "state",
                kv_cache: "cache",
                seq_len_start: 7,
                tables: "tables",
                kv_write_start: 3
            }
        );
        // How many sequences are active makes no difference.
        for active in [0, 1, 2] {
            assert_eq!(
                r.decode_multi_seq(16, 32, 2, active, "states", "cache", &lens, &tables),
                MultiSeqCall::Residual {
                    hidden: 16,
                    residual: 32,
                    num_seqs: 2,
                    states: "states",
                    kv_cache: "cache",
                    seq_lens: &lens,
                    block_tables: &tables
                }
            );
        }
    }
}

#[test]
fn a_carry_is_created_on_first_use() {
    assert_eq!(ple_seq_state(Carry::Absent), Ok(CarryStep::Create));
    assert_eq!(ple_seq_state(Carry::Present), Ok(CarryStep::Use));
    assert_eq!(ple_seq_state(Carry::Foreign), Err(LayerError::ForeignState));
    let l = layer(true, true, false);
    for carry in [Carry::Absent, Carry::Present, Carry::Foreign] {
        assert_eq!(l.decode_prestage(carry), ple_seq_state(carry));
        assert_eq!(l.verify_prestage(carry), ple_seq_state(carry));
        assert_eq!(l.restore_aux(carry), ple_seq_state(carry));
    }
    assert!(l.has_aux_state());
    assert!(l.decode_graph_unsupported());
}

#[test]
fn a_missing_carry_is_left_alone() {
    let l = layer(true, true, false);
    assert_eq!(l.snapshot_aux(Carry::Absent), Ok(CarryStep::Skip));
    assert_eq!(l.snapshot_aux(Carry::Present), Ok(CarryStep::Use));
    assert_eq!(
        l.snapshot_aux(Carry::Foreign),
        Err(LayerError::ForeignState)
    );
    for (carry, step) in [
        (Carry::Absent, CarryStep::Skip),
        (Carry::Foreign, CarryStep::Skip),
        (Carry::Present, CarryStep::Use),
    ] {
        assert_eq!(l.rollback_aux_verify(carry), step);
        assert_eq!(l.decode_prestage_rearm(carry), step);
        assert_eq!(l.free_state(carry), step);
    }
}

#[test]
fn a_layer_without_an_embedding_has_no_carry() {
    let l = layer(true, false, false);
    assert!(!l.has_aux_state());
    assert!(!l.decode_graph_unsupported());
    for carry in [Carry::Absent, Carry::Present, Carry::Foreign] {
        assert_eq!(l.decode_prestage(carry), Ok(CarryStep::Skip));
        assert_eq!(l.verify_prestage(carry), Ok(CarryStep::Skip));
        assert_eq!(l.snapshot_aux(carry), Ok(CarryStep::Skip));
        assert_eq!(l.restore_aux(carry), Err(LayerError::NoEmbedding));
        assert_eq!(l.rollback_aux_verify(carry), CarryStep::Skip);
        assert_eq!(l.decode_prestage_rearm(carry), CarryStep::Skip);
        assert_eq!(l.free_state(carry), CarryStep::Skip);
    }
}

#[test]
fn verify_rows_add_up() {
    let l = layer(false, false, false);
    assert_eq!(l.decode_verify_multi(3, 3, &[2, 3, 1]), Ok(6));
    assert_eq!(l.decode_verify_multi(0, 0, &[]), Ok(0));
    assert_eq!(
        l.decode_verify_multi(2, 3, &[1, 1]),
        Err(LayerError::SequenceMismatch)
    );
    assert_eq!(
        l.decode_verify_multi(2, 2, &[1]),
        Err(LayerError::SequenceMismatch)
    );
}

#[test]
fn layer_reports_say_what_went_wrong() {
    assert_eq!(
        LayerError::ForeignState.message(),
        "PLE host layer state is not SsmLayerState"
    );
    assert_eq!(
        LayerError::NoEmbedding.message(),
        "restore_aux: no PLE on this layer"
    );
    assert_eq!(
        LayerError::SequenceMismatch.message(),
        "decode_verify_multi: states/ks/n mismatch"
    );
}
