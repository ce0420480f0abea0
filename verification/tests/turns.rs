//! Turns: what a turn reuses, in which order it works, what it leaves behind,
//! and how a forward pass treats each layer.

use std::collections::VecDeque;

use gemma4::checkpoint_store::file_checkpoint;
use gemma4::checkpoint_store::Gemma4SlidingHistoryCheckpoint;
use gemma4::checkpoint_store::Gemma4SlidingPrefixCheckpoint;
use gemma4::checkpoints::compute_gemma4_paged_prefix_block_hash;
use gemma4::checkpoints::gemma4_sliding_caches_ready_at;
use gemma4::checkpoints::init_caches_for_config;
use gemma4::checkpoints::restore_gemma4_sliding_caches;
use gemma4::checkpoints::snapshot_gemma4_sliding_caches;
use gemma4::checkpoints::Gemma4LayerCache;
use gemma4::checkpoints::RotatingKVCacheSnapshot;
use gemma4::config::Double;
use gemma4::config::Gemma4Config;
use gemma4::decode::ChatConfig;
use gemma4::decode::FinishReason;
use gemma4::decode::VisionAction;
use gemma4::decode::VisionPhase;
use gemma4::decode::VisionTurn;
use gemma4::decode::VisionTurnError;
use gemma4::forward::plan_flat_pass;
use gemma4::forward::ple_chunk_start;
use gemma4::forward::sliding_cache_offset;
use gemma4::forward::FlatStep;
use gemma4::forward::ForwardError;
use gemma4::forward::LayerMask;
use gemma4::forward::NoAnchor;
use gemma4::forward::PagedPass;
use gemma4::forward::PassKind;
use gemma4::forward::SharedKvInputs;
use gemma4::kv::compute_layer_kinds_from_kv_cache_specs;
use gemma4::kv::compute_layer_kv_cache_specs;
use gemma4::kv::paged_block_size;
use gemma4::kv::Gemma4LayerKind;
use gemma4::kv::KVCacheDType;
use gemma4::kv::KvSpecError;
use gemma4::limits::Gemma4SlidingRestoreLimitOverride;
use gemma4::limits::LimitSource;
use gemma4::model::draft_path;
use gemma4::model::Gemma4LoadOptions;
use gemma4::model::Gemma4Model;
use gemma4::model_plan::plan_components;
use gemma4::model_plan::AdapterError;
use gemma4::model_plan::PlePlan;
use gemma4::model_plan::VisionPlan;
use gemma4::session::materialize_gemma4_sliding_snapshots;
use gemma4::session::Gemma4Inner;
use gemma4::session::ResetScope;
use gemma4::session::SlidingSettings;
use gemma4::turns::history_of_turn;
use gemma4::turns::turn_end_id;
use gemma4::turns::PagedLookup;
use gemma4::turns::PagedTurnStep;
use gemma4::turns::PoolTeardown;
use gemma4::turns::SlidingPrefixState;
use gemma4::turns::TurnError;

fn double(v: f64) -> Double {
    Double { bits: v.to_bits() }
}

/// Two global layers, no per-layer embedding, experts, vision or sharing.
fn paged_tiny_config(use_block_paged: Option<bool>) -> Gemma4Config {
    Gemma4Config {
        vocab_size: 100,
        hidden_size: 64,
        num_hidden_layers: 2,
        num_attention_heads: 2,
        num_key_value_heads: 2,
        head_dim: 32,
        intermediate_size: 64,
        rms_norm_eps: double(1e-6),
        tie_word_embeddings: true,
        max_position_embeddings: 128,
        sliding_window: 128,
        layer_types: vec!["full_attention".to_string(), "full_attention".to_string()],
        rope_theta: double(1_000_000.0),
        rope_local_base_freq: double(10_000.0),
        partial_rotary_factor: double(0.25),
        global_num_key_value_heads: None,
        global_head_dim: None,
        attention_k_eq_v: false,
        is_unified: false,
        use_bidirectional_attention: None,
        final_logit_softcapping: None,
        per_layer_input_embeds: false,
        hidden_size_per_layer_input: None,
        vocab_size_per_layer_input: None,
        pad_token_id: 0,
        eos_token_ids: vec![1],
        bos_token_id: 2,
        attention_bias: false,
        use_double_wide_mlp: false,
        num_kv_shared_layers: None,
        default_temperature: None,
        default_top_k: None,
        default_top_p: None,
        enable_moe_block: false,
        num_experts: None,
        top_k_experts: None,
        moe_intermediate_size: None,
        vision_config: None,
        unified_vision_config: None,
        image_token_id: None,
        boi_token_id: None,
        eoi_token_id: None,
        vision_soft_tokens_per_image: None,
        has_audio: false,
        audio_token_id: None,
        boa_token_id: None,
        eoa_token_id: None,
        audio_samples_per_token: None,
        paged_cache_memory_mb: Some(256),
        paged_block_size: Some(16),
        use_block_paged_cache: use_block_paged,
    }
}

fn no_settings() -> SlidingSettings {
    SlidingSettings { restore_limit: None, checkpoint_limit: None }
}

fn paged(config: Gemma4Config) -> Gemma4Inner {
    Gemma4Inner::new(config, true, 8192, |_| 1000, no_settings(), 3).unwrap()
}

fn flat(config: Gemma4Config) -> Gemma4Inner {
    Gemma4Inner::new(config, false, 8192, |_| 1000, no_settings(), 3).unwrap()
}

/// A sliding layer behind a global one.
fn hybrid(use_block_paged: Option<bool>) -> Gemma4Config {
    Gemma4Config {
        layer_types: vec!["full_attention".to_string(), "sliding_attention".to_string()],
        sliding_window: 32,
        ..paged_tiny_config(use_block_paged)
    }
}

/// Sliding and global layers in turn; the last four share.
fn shared() -> Gemma4Config {
    Gemma4Config {
        num_hidden_layers: 8,
        layer_types: (0..8)
            .map(|i| {
                if i % 2 == 1 { "full_attention".to_string() } else { "sliding_attention".to_string() }
            })
            .collect(),
        num_kv_shared_layers: Some(4),
        sliding_window: 8,
        ..paged_tiny_config(Some(true))
    }
}

fn block_hash(tokens: &[u32], parent: u64, extra: &[u64]) -> u64 {
    let mut h: u64 = parent ^ 0x9e37_79b9_7f4a_7c15;
    for t in tokens {
        h = (h ^ *t as u64).wrapping_mul(0x0000_0100_0000_01b3);
    }
    for e in extra {
        h = (h ^ *e).wrapping_mul(0x0000_0100_0000_01b3);
    }
    h
}

/// The caches of a hybrid model whose sliding layer has seen `offset` tokens.
fn caches_at(offset: i32, arrays: u64) -> Vec<Gemma4LayerCache> {
    vec![
        Gemma4LayerCache::Global { offset: 0, arrays: None },
        Gemma4LayerCache::Sliding { offset, window: 32, arrays: Some(arrays) },
    ]
}

fn snapshot_at(offset: i32, arrays: u64) -> Vec<Option<RotatingKVCacheSnapshot>> {
    vec![None, Some(RotatingKVCacheSnapshot { offset, arrays })]
}

fn wishes(max_new_tokens: i32) -> ChatConfig {
    ChatConfig {
        temperature: None,
        top_k: None,
        top_p: None,
        min_p: None,
        max_new_tokens: Some(max_new_tokens),
        max_consecutive_tokens: None,
        max_ngram_repeats: None,
        ngram_size: None,
        reuse_cache: None,
    }
}

#[test]
fn saved_turn_is_reused_and_reset_turn_is_not() {
    let mut inner = flat(paged_tiny_config(Some(false)));
    inner.init_caches_sync();
    inner.save_cache_state(&[1, 2, 3], &[4, 5], "length", false);
    assert_eq!(inner.cached_token_history, vec![1, 2, 3, 4, 5]);
    assert_eq!(inner.verify_cache_prefix(&[1, 2, 3, 4, 5, 6], true), 5);
    assert_eq!(inner.verify_cache_prefix(&[1, 2, 3, 9, 5, 6], true), 0);
    assert_eq!(inner.verify_cache_prefix(&[1, 2, 3, 4, 5, 6], false), 0);
    assert_eq!(inner.verify_cache_prefix(&[1, 2, 3], true), 0);
    assert!(inner.has_live_session());
    assert!(!inner.reset_caches(ResetScope::Command));
    assert!(inner.caches.is_none());
    assert_eq!(inner.verify_cache_prefix(&[1, 2, 3, 4, 5, 6], true), 0);
    assert!(!inner.has_live_session());
    assert!(!inner.reset_caches(ResetScope::PrefixMiss));
    assert_eq!(inner.caches.as_ref().unwrap().len(), 2);
    let mut pool = paged(hybrid(None));
    assert!(pool.reset_caches(ResetScope::Command));
    assert!(!pool.reset_caches(ResetScope::PrefixMiss));
}

#[test]
fn history_drops_the_stop_token() {
    assert_eq!(history_of_turn(&[1, 2], &[3, 4], false), vec![1, 2, 3]);
    assert_eq!(history_of_turn(&[1, 2], &[3, 4], true), vec![1, 2, 3, 4]);
    assert_eq!(history_of_turn(&[1, 2], &[], false), vec![1, 2]);
    let mut inner = flat(paged_tiny_config(Some(false)));
    inner.cached_image_key = Some(5);
    inner.save_cache_state(&[1], &[2, 3], "stop", true);
    assert_eq!(inner.cached_token_history, vec![1, 2]);
    assert_eq!(inner.cached_image_key, Some(5));
    assert!(inner.session_holds_images());
}

#[test]
fn snapshots_restore_what_was_live() {
    let config = hybrid(None);
    let caches = Some(caches_at(16, 77));
    assert!(gemma4_sliding_caches_ready_at(&config, &caches, 16));
    assert!(!gemma4_sliding_caches_ready_at(&config, &caches, 15));
    assert!(!gemma4_sliding_caches_ready_at(&config, &None, 16));
    let snapshots = snapshot_gemma4_sliding_caches(&config, &caches, 16).unwrap();
    assert_eq!(snapshots, snapshot_at(16, 77));
    assert_eq!(snapshot_gemma4_sliding_caches(&config, &caches, 17), None);
    assert_eq!(
        restore_gemma4_sliding_caches(&config, &snapshots, 16).unwrap(),
        caches_at(16, 77)
    );
    assert_eq!(restore_gemma4_sliding_caches(&config, &snapshots, 32), None);
    assert_eq!(restore_gemma4_sliding_caches(&config, &vec![None], 16), None);
    assert_eq!(
        init_caches_for_config(&config),
        vec![
            Gemma4LayerCache::Global { offset: 0, arrays: None },
            Gemma4LayerCache::Sliding { offset: 0, window: 32, arrays: None },
        ]
    );
}

#[test]
fn copies_are_made_of_every_snapshot_or_none() {
    let snapshots = snapshot_at(16, 77);
    assert_eq!(
        materialize_gemma4_sliding_snapshots(&snapshots, &|a| Some(a + 1000)),
        Some(snapshot_at(16, 1077))
    );
    assert_eq!(materialize_gemma4_sliding_snapshots(&snapshots, &|_| None), None);
}

#[test]
fn block_hashes_chain() {
    let tokens: Vec<u32> = (0..32).collect();
    let hash = |n| compute_gemma4_paged_prefix_block_hash(&tokens, n, 16, 0, &block_hash);
    assert_eq!(hash(15), None);
    assert_eq!(hash(0), None);
    assert_eq!(hash(48), None);
    assert_ne!(hash(16), hash(32));
    assert!(hash(16).is_some());
    assert_eq!(compute_gemma4_paged_prefix_block_hash(&tokens, 16, 0, 0, &block_hash), None);
}

#[test]
fn the_longest_checkpoint_is_found_and_the_store_stays_bounded() {
    let mut inner = paged(hybrid(None));
    let tokens: Vec<u32> = (100..164).collect();
    let point = |n: u32| Gemma4SlidingPrefixCheckpoint {
        prefix_len: n,
        block_size: 16,
        final_block_hash: compute_gemma4_paged_prefix_block_hash(&tokens, n, 16, 0, &block_hash)
            .unwrap(),
        tokens: tokens[..n as usize].to_vec(),
        snapshots: snapshot_at(n as i32, n as u64),
    };
    for n in [48, 16, 32] {
        file_checkpoint(&mut inner.sliding_prefix_checkpoints, point(n), 2);
    }
    assert_eq!(inner.sliding_prefix_checkpoints.len(), 2);
    let found = |inner: &Gemma4Inner, n: u32| {
        inner
            .find_gemma4_sliding_prefix_checkpoint(&tokens, n, 16, 0, &block_hash)
            .map(|hit| hit.prefix_len)
    };
    assert_eq!(found(&inner, 64), Some(32));
    assert_eq!(found(&inner, 31), Some(16));
    assert_eq!(found(&inner, 8), None);
    inner.sliding_prompt_boundary_checkpoint = Some(point(48));
    assert_eq!(found(&inner, 64), Some(48));
    file_checkpoint(&mut inner.sliding_prefix_checkpoints, point(32), 2);
    assert_eq!(inner.sliding_prefix_checkpoints.len(), 2);
    file_checkpoint(&mut inner.sliding_prefix_checkpoints, point(64), 0);
    assert_eq!(inner.sliding_prefix_checkpoints.len(), 3, "a limit of 0 evicts nothing");
}

#[test]
fn a_checkpoint_outlives_fewer_newer_ones_than_the_limit() {
    let mut store = VecDeque::new();
    let point = |n: u32| Gemma4SlidingPrefixCheckpoint {
        prefix_len: n,
        block_size: 16,
        final_block_hash: n as u64,
        tokens: vec![n; n as usize],
        snapshots: vec![],
    };
    file_checkpoint(&mut store, point(1), 4);
    for n in 2..5 {
        file_checkpoint(&mut store, point(n), 4);
    }
    assert!(store.iter().any(|c| c.prefix_len == 1));
    file_checkpoint(&mut store, point(5), 4);
    assert!(!store.iter().any(|c| c.prefix_len == 1));
}

#[test]
fn sliding_layers_come_to_a_prefix_by_the_shortest_way() {
    let tokens: Vec<u32> = (100..180).collect();
    let prepare = |inner: &mut Gemma4Inner, cached, continued| {
        let p = inner.prepare_gemma4_sliding_prefix_state(&tokens, cached, continued, &block_hash);
        (p.state, p.primed_prefix_len, sliding_cache_offset(&inner.config, &inner.caches))
    };

    let mut inner = paged(hybrid(None));
    assert_eq!(prepare(&mut inner, 0, false), (SlidingPrefixState::Fresh, 0, 0));

    inner.caches = Some(caches_at(64, 1));
    assert_eq!(prepare(&mut inner, 64, true), (SlidingPrefixState::Live, 64, 64));

    inner.caches = Some(caches_at(64, 1));
    inner.cached_token_history = tokens[..64].to_vec();
    assert_eq!(prepare(&mut inner, 64, false), (SlidingPrefixState::LastHistory, 64, 64));

    inner.caches = None;
    inner.sliding_last_history_checkpoint = Some(Gemma4SlidingHistoryCheckpoint {
        tokens: tokens[..64].to_vec(),
        snapshots: snapshot_at(64, 2),
    });
    assert_eq!(
        prepare(&mut inner, 64, false),
        (SlidingPrefixState::LastHistoryCheckpoint, 64, 64)
    );

    inner.caches = None;
    inner.sliding_last_history_checkpoint = None;
    inner.sliding_prefix_checkpoints = VecDeque::from(vec![Gemma4SlidingPrefixCheckpoint {
        prefix_len: 48,
        block_size: 16,
        final_block_hash: compute_gemma4_paged_prefix_block_hash(&tokens, 48, 16, 0, &block_hash)
            .unwrap(),
        tokens: tokens[..48].to_vec(),
        snapshots: snapshot_at(48, 3),
    }]);
    assert_eq!(
        prepare(&mut inner, 64, false),
        (SlidingPrefixState::PartialPrefixCheckpoint, 48, 48)
    );
    assert_eq!(prepare(&mut inner, 48, false), (SlidingPrefixState::PrefixCheckpoint, 48, 48));

    inner.caches = None;
    inner.sliding_prefix_checkpoints.clear();
    assert_eq!(prepare(&mut inner, 64, false), (SlidingPrefixState::Replay, 0, 0));
}

#[test]
fn paged_turns_restart_where_a_replay_is_too_long() {
    let tokens: Vec<u32> = (100..180).collect();
    let mut inner = paged(hybrid(None));
    let request = inner.request_paged_turn(&tokens, 80).unwrap();
    assert!(!request.skip_lookup);
    assert_eq!(request.max_cache_hit_tokens, 79);
    assert!(inner.request_paged_turn(&[1, 258880], 2).unwrap().skip_lookup);

    let lookup = PagedLookup { cached_prefix_len: 64, continued_live_prefix: false };
    match inner.prepare_gemma4_paged_turn(&tokens, 80, lookup, &block_hash).unwrap() {
        PagedTurnStep::RestartPool(s) => {
            assert_eq!(s.limit, 32);
            assert_eq!(s.source, LimitSource::Default);
        }
        other => panic!("unexpected: {other:?}"),
    }
    let fresh = inner.restart_paged_turn(80);
    assert_eq!((fresh.cached_prefix_len, fresh.suffix_len), (0, 80));

    inner.settings.restore_limit = Some(Gemma4SlidingRestoreLimitOverride::Uncapped);
    match inner.prepare_gemma4_paged_turn(&tokens, 80, lookup, &block_hash).unwrap() {
        PagedTurnStep::Ready(p) => {
            assert_eq!((p.cached_prefix_len, p.suffix_len, p.sliding_primed_prefix_len), (64, 16, 0));
        }
        other => panic!("unexpected: {other:?}"),
    }
    let error = inner.prepare_gemma4_paged_turn(&tokens, 60, lookup, &block_hash).unwrap_err();
    assert_eq!(
        error,
        TurnError::CachedPrefixTooLong { cached_prefix_len: 64, total_budget: 60 }
    );
    assert_eq!(error.message("turn"), "turn: cached_prefix_len 64 exceeds total_budget 60");

    let error = flat(hybrid(Some(false))).request_paged_turn(&tokens, 80).unwrap_err();
    assert_eq!(error, TurnError::NoPagedPool);
    assert_eq!(
        error.message("turn"),
        "turn: paged_adapter is None while preparing paged turn"
    );
}

#[test]
fn paged_turns_are_ended_and_reconciled() {
    let mut inner = paged(hybrid(None));
    inner.caches = Some(caches_at(4, 9));
    assert!(inner.save_paged_history(&[1, 2, 3], &[4, 5], false, true));
    assert_eq!(inner.cached_token_history, vec![1, 2, 3, 4]);
    let remembered = inner.sliding_last_history_checkpoint.as_ref().unwrap();
    assert_eq!(remembered.tokens, vec![1, 2, 3, 4]);
    assert_eq!(remembered.snapshots, snapshot_at(4, 9));
    assert_eq!(inner.paged_request_surplus(6, 3, &[4, 5], false), 2);
    assert_eq!(inner.paged_request_surplus(5, 3, &[4, 5], true), 0);
    assert_eq!(inner.finalize_paged_turn(true), PoolTeardown::KeepLive);
    assert_eq!(inner.finalize_paged_turn(false), PoolTeardown::RegisterAndRelease);
    assert_eq!(inner.abort_paged_turn(), PoolTeardown::Release);
    assert!(!inner.save_paged_history(&[1, 2, 3], &[4, 5], false, false));
    assert!(inner.cached_token_history.is_empty());
    assert!(inner.sliding_last_history_checkpoint.is_none());
    assert_eq!(flat(hybrid(Some(false))).abort_paged_turn(), PoolTeardown::Nothing);
}

#[test]
fn a_remembered_history_is_found_by_prompts_that_begin_with_it() {
    let mut inner = paged(hybrid(None));
    inner.caches = Some(caches_at(4, 9));
    assert!(inner.remember_gemma4_sliding_history_checkpoint(&vec![1, 2, 3, 4]));
    let found = inner.find_gemma4_sliding_history_checkpoint(&[1, 2, 3, 4, 5, 6], 4).unwrap();
    assert!(gemma4_sliding_caches_ready_at(&inner.config, &Some(found), 4));
    assert!(inner.find_gemma4_sliding_history_checkpoint(&[1, 2, 3, 4], 4).is_some());
    assert!(inner.find_gemma4_sliding_history_checkpoint(&[1, 2, 3, 4, 5], 3).is_none());
    assert!(inner.find_gemma4_sliding_history_checkpoint(&[1, 2, 3, 4, 5], 5).is_none());
    assert!(inner.find_gemma4_sliding_history_checkpoint(&[1, 2, 3, 9, 5], 4).is_none());
    assert!(inner.find_gemma4_sliding_history_checkpoint(&[1, 2, 3], 4).is_none());
    // Layers that are not at the end of the history leave nothing remembered.
    assert!(!inner.remember_gemma4_sliding_history_checkpoint(&vec![1, 2, 3]));
    assert!(inner.sliding_last_history_checkpoint.is_none());
    assert!(inner.remember_gemma4_sliding_history_checkpoint(&vec![1, 2, 3, 4]));
    assert!(!inner.remember_gemma4_sliding_history_checkpoint(&vec![]));
    assert!(inner.sliding_last_history_checkpoint.is_none());
}

#[test]
fn prompt_chunks_leave_checkpoints() {
    let mut inner = paged(hybrid(None));
    let tokens: Vec<u32> = (100..140).collect();
    inner.caches = Some(caches_at(32, 5));
    assert!(inner.after_replay(&tokens, 32, &block_hash));
    assert_eq!(inner.sliding_prefix_checkpoints.len(), 1);
    assert_eq!(inner.sliding_prefix_checkpoints[0].snapshots, snapshot_at(32, 5));

    inner
        .after_body_chunk(&tokens, &tokens[..32], 32, 32, &block_hash, &|a| Some(a + 100))
        .unwrap();
    assert_eq!(inner.sliding_prefix_checkpoints.len(), 1);
    assert_eq!(inner.sliding_prefix_checkpoints[0].snapshots, snapshot_at(32, 105));
    let boundary = inner.sliding_prompt_boundary_checkpoint.as_ref().unwrap();
    assert_eq!((boundary.prefix_len, boundary.snapshots.clone()), (32, snapshot_at(32, 105)));

    assert!(inner
        .after_body_chunk(&tokens, &tokens[..32], 32, 32, &block_hash, &|_| None)
        .is_err());
    inner.caches = Some(caches_at(20, 6));
    inner
        .after_body_chunk(&tokens, &tokens[..20], 20, 32, &block_hash, &|_| None)
        .expect("nothing is due");
}

#[test]
fn media_turn_runs_to_its_end() {
    let mut inner = paged(hybrid(None));
    inner.media_session_continuable = true;
    let tokens = [2u32, 258880, 9];
    let (mut turn, action) = VisionTurn::start(&mut inner, &tokens, &wishes(2)).unwrap();
    assert_eq!(action, VisionAction::PreparePool { total_budget: 3 });
    assert!(!inner.media_session_continuable);
    assert_eq!(turn.pool_prepared(&mut inner), VisionAction::Prefill);
    assert!(inner.caches.is_some());
    let eos = vec![1];
    assert_eq!(turn.token_sampled(5, false, false, &eos, 7), VisionAction::Forward { token: 5 });
    assert_eq!(
        turn.token_sampled(6, false, false, &eos, 7),
        VisionAction::ForwardPending { token: 6 }
    );
    assert_eq!(turn.finish, FinishReason::Length);
    assert_eq!(turn.pending_forwarded(), VisionAction::KeepLive);
    assert_eq!(turn.keep_live_answered(), VisionAction::Finalize);
    assert_eq!(turn.phase, VisionPhase::Finalizing);

    inner.caches = Some(caches_at(5, 1));
    let teardown = inner.finalize_vision_turn_media_state(
        &tokens,
        &[5, 6],
        "length",
        Some(11),
        None,
        true,
        true,
        true,
        true,
    );
    assert_eq!(teardown, PoolTeardown::KeepLive);
    assert_eq!(inner.cached_token_history, vec![2, 258880, 9, 5, 6]);
    assert_eq!(inner.cached_image_key, Some(11));
    assert!(inner.media_session_continuable);
    assert!(inner.text_delta_image_guard("chat_session_continue", true).is_none());
    assert!(inner.text_delta_image_guard("chat_session_continue", false).is_some());
}

#[test]
fn media_turn_stops_and_fails() {
    let mut inner = paged(hybrid(None));
    let eos = vec![1];
    let (mut turn, _) = VisionTurn::start(&mut inner, &[2, 258880], &wishes(4)).unwrap();
    turn.pool_prepared(&mut inner);
    assert_eq!(turn.token_sampled(1, false, false, &eos, 7), VisionAction::KeepLive);
    assert_eq!(turn.finish, FinishReason::Stop);
    assert_eq!(turn.failed(), VisionAction::Abort);
    assert_eq!(turn.phase, VisionPhase::Failed);

    let (mut turn, _) = VisionTurn::start(&mut inner, &[2, 9], &wishes(0)).unwrap();
    turn.pool_prepared(&mut inner);
    assert_eq!(turn.token_sampled(5, false, false, &eos, 7), VisionAction::Finalize);
    assert!(turn.decode.generated.is_empty());

    assert_eq!(
        VisionTurn::start(&mut inner, &[], &wishes(1)).unwrap_err(),
        VisionTurnError::EmptyPrompt
    );
    let mut inner = flat(hybrid(Some(false)));
    assert_eq!(
        VisionTurn::start(&mut inner, &[2], &wishes(1)).unwrap_err(),
        VisionTurnError::NoPagedPool
    );
    let error = inner.check_vision_turn().unwrap_err();
    assert_eq!(error, TurnError::VisionNeedsPagedPool);
    assert!(error.message("turn").starts_with("gemma4 image turns require"));
}

#[test]
fn pending_token_is_the_last_of_a_turn_cut_short() {
    let inner = paged(hybrid(None));
    assert_eq!(inner.vision_turn_pending_token(&[4, 5], "length", true, true), Some(5));
    assert_eq!(inner.vision_turn_pending_token(&[4, 5], "stop", true, true), None);
    assert_eq!(inner.vision_turn_pending_token(&[4, 5], "length", false, true), None);
    assert_eq!(inner.vision_turn_pending_token(&[4, 5], "length", true, false), None);
    assert_eq!(inner.vision_turn_pending_token(&[], "length", true, true), None);
}

#[test]
fn passes_route_every_layer() {
    let mut inner = paged(shared());
    inner.init_caches_sync();
    let steps = inner
        .plan_paged_pass(PagedPass {
            kind: PassKind::Prefill,
            chunk_len: 12,
            first_position: 0,
            cached_prefix_len: 0,
        })
        .unwrap();
    assert_eq!(steps.len(), 8);
    assert_eq!(steps[0].kind, Gemma4LayerKind::Sliding);
    assert_eq!(steps[0].mask, LayerMask::Window { offset: 0 });
    assert!(steps[0].flat_cache && !steps[0].needs_stash);
    assert!(steps[2].needs_stash, "the last sliding layer with a cache keeps for the shared ones");
    assert_eq!(steps[1].kind, Gemma4LayerKind::GlobalPaged { paged_idx: 0 });
    assert_eq!(steps[1].mask, LayerMask::Causal);
    assert_eq!(
        steps[4].shared,
        Some(SharedKvInputs { cache_offset: 0, total_ctx: 0, stash_of: Some(2) })
    );
    assert_eq!(
        steps[5].shared,
        Some(SharedKvInputs { cache_offset: 0, total_ctx: 12, stash_of: None })
    );

    let steps = inner
        .plan_paged_pass(PagedPass {
            kind: PassKind::Restore,
            chunk_len: 4,
            first_position: 0,
            cached_prefix_len: 0,
        })
        .unwrap();
    assert_eq!(steps[1].kind, Gemma4LayerKind::SharedOnGlobal { anchor_paged_idx: 0 });
    assert!(steps.iter().all(|s| !matches!(s.kind, Gemma4LayerKind::GlobalPaged { .. })));

    let steps = inner
        .plan_paged_pass(PagedPass {
            kind: PassKind::Decode,
            chunk_len: 1,
            first_position: 20,
            cached_prefix_len: 20,
        })
        .unwrap();
    assert!(steps.iter().all(|s| !s.is_prefill && s.mask == LayerMask::Causal));
    assert_eq!(
        steps[7].shared,
        Some(SharedKvInputs { cache_offset: 20, total_ctx: 21, stash_of: None })
    );

    let steps = inner
        .plan_paged_pass(PagedPass {
            kind: PassKind::MediaPrefill { images: true },
            chunk_len: 4,
            first_position: 0,
            cached_prefix_len: 0,
        })
        .unwrap();
    assert_eq!(steps[0].mask, LayerMask::WindowWithImages);
    assert_eq!(steps[1].mask, LayerMask::CausalWithImages);
}

#[test]
fn passes_that_cannot_run_are_refused() {
    let pass = |kind, chunk_len, first_position| PagedPass {
        kind,
        chunk_len,
        first_position,
        cached_prefix_len: first_position,
    };
    let media = PassKind::MediaPrefill { images: false };
    let mut inner = paged(shared());
    let error = inner.plan_paged_pass(pass(PassKind::Prefill, 0, 0)).unwrap_err();
    assert_eq!(error, ForwardError::EmptyChunk);
    assert_eq!(
        error.message(PassKind::Prefill),
        "run_paged_prefill_layer_loop: chunk_tokens must be non-empty"
    );
    assert_eq!(inner.plan_paged_pass(pass(media, 0, 0)).unwrap_err(), error);
    assert_eq!(
        error.message(media),
        "run_paged_vlm_prefill_layer_loop: chunk_token_ids must be non-empty"
    );
    for (kind, text) in [
        (PassKind::Prefill, "run_paged_prefill_layer_loop: sliding cache slot missing"),
        (media, "run_paged_vlm_prefill_layer_loop: sliding cache slot missing"),
        (PassKind::Decode, "run_paged_decode_step: sliding cache slot missing"),
        (PassKind::Restore, "run_sliding_prefix_restore_layer_loop: sliding cache missing"),
    ] {
        let error = inner.plan_paged_pass(pass(kind, 1, 0)).unwrap_err();
        assert_eq!(error, ForwardError::CachesMissing);
        assert_eq!(error.message(kind), text);
    }
    assert!(inner.plan_paged_pass(pass(PassKind::Restore, 0, 0)).unwrap().is_empty());
    inner.init_caches_sync();
    let error = inner.plan_paged_pass(pass(PassKind::Restore, 2, 5)).unwrap_err();
    assert_eq!(error, ForwardError::OffsetMismatch { expected: 5, got: 0 });
    assert_eq!(
        error.message(PassKind::Restore),
        "Gemma4 sliding restore cache offset mismatch: expected 5 got 0"
    );

    // Without a pool a restore looks at the offset first.
    let inner = flat(hybrid(Some(false)));
    let error = inner.plan_paged_pass(pass(PassKind::Restore, 2, 5)).unwrap_err();
    assert_eq!(error, ForwardError::OffsetMismatch { expected: 5, got: 0 });
    for (kind, text) in [
        (PassKind::Prefill, "run_paged_prefill_layer_loop: paged_adapter dropped mid-forward"),
        (media, "run_paged_vlm_prefill_layer_loop: paged_adapter dropped mid-forward"),
        (PassKind::Decode, "run_paged_decode_step: paged_adapter is None"),
        (PassKind::Restore, "run_sliding_prefix_restore_layer_loop: paged_adapter missing"),
    ] {
        let error = inner.plan_paged_pass(pass(kind, 1, 0)).unwrap_err();
        assert_eq!(error, ForwardError::NoPagedPool);
        assert_eq!(error.message(kind), text);
    }
}

#[test]
fn flat_passes_read_their_anchors() {
    let config = shared();
    let caches = init_caches_for_config(&config);
    let steps = plan_flat_pass(&config, &caches, 12).unwrap();
    assert_eq!(
        steps[2],
        FlatStep::Own { mask: LayerMask::Window { offset: 0 }, needs_stash: true }
    );
    assert_eq!(steps[1], FlatStep::Own { mask: LayerMask::Causal, needs_stash: false });
    match steps[4] {
        FlatStep::Shared { anchor, cache_offset, .. } => {
            assert_eq!((anchor, cache_offset), (2, 0));
        }
        other => panic!("unexpected: {other:?}"),
    }
    let mut lost = shared();
    lost.layer_types = vec!["full_attention".to_string(); 4];
    lost.layer_types.extend(vec!["sliding_attention".to_string(); 4]);
    let error = plan_flat_pass(&lost, &init_caches_for_config(&lost), 3).unwrap_err();
    assert_eq!(error, NoAnchor { layer: 4 });
    assert_eq!(
        error.message(),
        "Layer 4 is shared but has no anchor (missing layer type match)"
    );
    assert_eq!(ple_chunk_start(&caches, 9, 3), 0);
}

#[test]
fn unusable_cache_layouts_are_refused() {
    let specs = |config: &Gemma4Config, block| {
        compute_layer_kv_cache_specs(config, block, KVCacheDType::BFloat16)
    };
    let config = hybrid(None);
    assert_eq!(specs(&config, 0).unwrap_err(), KvSpecError::ZeroBlockSize);
    let mut bad = hybrid(None);
    bad.sliding_window = 0;
    let error = specs(&bad, 16).unwrap_err();
    assert_eq!(error, KvSpecError::SlidingWindow { sliding_window: 0 });
    assert_eq!(error.message(), "Gemma4 KV cache specs require sliding_window > 0, got 0");
    let mut bad = hybrid(None);
    bad.head_dim = -1;
    let error = specs(&bad, 16).unwrap_err();
    assert_eq!(error, KvSpecError::HeadDim { layer: 0, head_dim: -1 });
    assert_eq!(error.message(), "Gemma4 KV cache specs: layer 0 has invalid head_dim -1");
    let mut bad = hybrid(None);
    bad.num_key_value_heads = -2;
    let error = specs(&bad, 16).unwrap_err();
    assert_eq!(error, KvSpecError::KvHeads { layer: 0, num_kv_heads: -2 });
    let mut bad = hybrid(None);
    bad.head_dim = 0;
    let error = specs(&bad, 16).unwrap_err();
    assert_eq!(
        error,
        KvSpecError::Layout { layer: 0, block_size: 16, heads: 2, head_size: 0 }
    );
    assert_eq!(
        error.message(),
        "Gemma4 KV cache specs: layer 0 has invalid physical layout block_size=16, num_kv_heads=2, head_size=0"
    );
    let mut bad = shared();
    bad.layer_types = vec!["full_attention".to_string(); 4];
    bad.layer_types.extend(vec!["sliding_attention".to_string(); 4]);
    let error = specs(&bad, 16).unwrap_err();
    assert_eq!(error, KvSpecError::NoAnchor { layer: 4 });
    assert_eq!(
        error.message(),
        "Gemma4 KV cache specs: layer 4 is KV-shared but has no resolvable anchor"
    );
    let mut bad = hybrid(None);
    bad.max_position_embeddings = -1;
    let error = compute_layer_kinds_from_kv_cache_specs(&bad).unwrap_err();
    assert_eq!(error, KvSpecError::RouteMaxPositions { max_position_embeddings: -1 });
    assert_eq!(
        error.message(),
        "Gemma4 layer kind routes: invalid max_position_embeddings -1"
    );
    let mut unset = hybrid(None);
    unset.paged_block_size = None;
    assert_eq!(paged_block_size(&unset), 16);
}

#[test]
fn pools_that_cannot_be_built_are_refused() {
    let build = |config: Gemma4Config, blocks: u32| {
        Gemma4Inner::new(config, true, 8192, move |_| blocks, no_settings(), 1).unwrap_err()
    };
    let error = build(hybrid(None), 0);
    assert_eq!(
        error,
        AdapterError::MemoryTooSmall {
            gpu_memory_mb: 256,
            head_size: 32,
            num_kv_heads: 2,
            block_size: 16,
            num_layers: 1,
        }
    );
    assert_eq!(
        error.message(),
        "Gemma4 block-paged adapter: gpu_memory_mb=256 too small (head_size=32, num_kv_heads=2, block_size=16, num_global_layers=1)"
    );
    let mut sliding = hybrid(None);
    sliding.layer_types = vec!["sliding_attention".to_string(); 2];
    assert_eq!(build(sliding, 5), AdapterError::NoFullGroup);
    let mut empty = hybrid(None);
    empty.max_position_embeddings = 0;
    let error = build(empty, 5);
    assert_eq!(error, AdapterError::ZeroMaxPositions);
    assert_eq!(
        error.message(),
        "Gemma4 block-paged adapter: max_position_embeddings must be > 0"
    );
    let mut negative = hybrid(None);
    negative.max_position_embeddings = -4;
    let error = build(negative, 5);
    assert!(matches!(error, AdapterError::Groups { .. }));
    assert_eq!(
        error.message(),
        "Gemma4 block-paged adapter: failed to group KV cache specs: Gemma4 KV cache groups: invalid max_position_embeddings -4"
    );
    let mut windowless = hybrid(None);
    windowless.sliding_window = -4;
    let error = build(windowless, 5);
    assert!(matches!(error, AdapterError::Specs { .. }));
    assert!(error.message().starts_with("Gemma4 block-paged adapter: failed to build KV cache specs: "));
    let inner = flat(hybrid(None));
    assert!(inner.paged.is_none() && inner.layer_kinds.is_empty());
}

#[test]
fn draft_turns_need_a_flat_cache_and_no_media() {
    let mut inner = flat(hybrid(Some(false)));
    assert!(!inner.takes_draft_turn(true, false, false));
    assert_eq!(inner.draft_depth(None), None);
    inner.draft_block_size = Some(7);
    assert!(inner.takes_draft_turn(true, false, false));
    assert!(!inner.takes_draft_turn(false, false, false));
    assert!(!inner.takes_draft_turn(true, true, false));
    assert!(!inner.takes_draft_turn(true, false, true));
    assert_eq!(inner.draft_depth(None), Some(7));
    assert_eq!(inner.draft_depth(Some(3)), Some(3));
    assert_eq!(inner.draft_depth(Some(0)), Some(1));
    assert_eq!(inner.draft_depth(Some(99)), Some(7));
    let mut pool = paged(hybrid(None));
    pool.draft_block_size = Some(7);
    assert!(!pool.takes_draft_turn(true, false, false));
}

#[test]
fn turn_terminator_is_one_token() {
    assert_eq!(turn_end_id(&vec![106]), Ok(106));
    let error = turn_end_id(&vec![]).unwrap_err();
    assert_eq!(error, TurnError::EmptyTurnEnd);
    assert_eq!(error.message(""), "Tokenizer encoded <turn|> to empty id vector");
    let error = turn_end_id(&vec![1, 2]).unwrap_err();
    assert_eq!(error, TurnError::LongTurnEnd { tokens: 2 });
    assert_eq!(error.message(""), "Tokenizer encoded <turn|> to 2 tokens; expected 1");
    let inner = flat(hybrid(Some(false)));
    assert_eq!(inner.extra_eos_ids(), vec![1]);
    assert!(!inner.supports_audio());
}

#[test]
fn parts_follow_the_configuration() {
    let plain = plan_components(&hybrid(None));
    assert!(!plain.lm_head && plain.ple.is_none() && plain.audio_input.is_none());
    assert_eq!(plain.vision, VisionPlan::Absent);
    let mut config = hybrid(None);
    config.tie_word_embeddings = false;
    config.per_layer_input_embeds = true;
    config.hidden_size_per_layer_input = Some(4);
    config.vocab_size_per_layer_input = Some(50);
    config.has_audio = true;
    let rich = plan_components(&config);
    assert!(rich.lm_head);
    assert_eq!(
        rich.ple,
        Some(PlePlan { vocab_size: 50, ple_dim: 4, num_layers: 2, total_dim: 8 })
    );
    assert_eq!(rich.audio_input, Some(640));
}

#[test]
fn handles_tell_what_was_loaded() {
    let stub = Gemma4Model::new(hybrid(None));
    assert!(!stub.is_initialized());
    assert!(!stub.has_block_paged_cache());
    assert!(!stub.has_mtp_weights());
    assert_eq!(stub.model_id(), 0);
    assert_eq!(
        stub.check_runnable().unwrap_err(),
        "Model not initialized. Call Gemma4Model.load() first."
    );

    let mut inner = paged(hybrid(None));
    inner.model_id = (1u64 << 32) + 5;
    let model = Gemma4Model::loaded(&inner);
    assert!(model.is_initialized());
    assert!(model.has_block_paged_cache());
    assert!(!model.has_mtp_weights());
    assert_eq!(model.model_id(), 5);
    assert!(model.check_runnable().is_ok());

    assert_eq!(draft_path(None), None);
    assert_eq!(draft_path(Some(Gemma4LoadOptions::default())), None);
    let options = Gemma4LoadOptions { draft_model_path: Some("d".to_string()) };
    assert_eq!(draft_path(Some(options)).as_deref(), Some("d"));
}

#[test]
fn turn_parameters_carry_no_penalties() {
    let mut inner = flat(hybrid(Some(false)));
    let params = inner.resolve_params(&wishes(5), Some(9), 5);
    assert_eq!(params.repetition_penalty, double(1.0));
    assert_eq!(params.presence_penalty, double(0.0));
    assert_eq!(params.frequency_penalty, double(0.0));
    assert!(params.report_performance && params.include_reasoning);
    assert_eq!(params.mtp_depth, 5);
    assert_eq!(params.sampling.temperature, Some(double(0.0)));
    inner.draft_block_size = Some(7);
    assert_eq!(inner.resolve_params(&wishes(5), Some(9), 5).mtp_depth, 7);
    assert_eq!(inner.resolve_params(&wishes(5), None, 5).mtp_depth, 7);
}

#[test]
fn tiny_prompt_and_decode_are_planned() {
    let mut inner = paged(paged_tiny_config(Some(true)));
    inner.init_caches_sync();
    let pass = |kind, chunk_len, first_position| PagedPass {
        kind,
        chunk_len,
        first_position,
        cached_prefix_len: first_position,
    };
    let steps = inner.plan_paged_pass(pass(PassKind::Prefill, 3, 0)).unwrap();
    assert_eq!(steps.len(), 2);
    assert!(steps.iter().all(|s| s.is_prefill && s.shared.is_none()));
    for position in 4..8 {
        let steps = inner.plan_paged_pass(pass(PassKind::Decode, 1, position)).unwrap();
        assert!(steps.iter().all(|s| !s.is_prefill && s.first_position == position));
    }
}
