//! Sessions: what is reused of a turn, what is remembered, and which layer
//! stores its keys and values where.

use gemma4::checkpoint_store::trim_gemma4_sliding_prefix_checkpoints;
use gemma4::checkpoint_store::Gemma4SlidingPrefixCheckpoint;
use gemma4::checkpoints::compute_gemma4_paged_prefix_block_hash;
use gemma4::config::Double;
use gemma4::config::Gemma4Config;
use gemma4::config_file::parse_config;
use gemma4::kv::compute_layer_kinds_from_kv_cache_specs;
use gemma4::kv::compute_layer_kv_cache_specs;
use gemma4::kv::gemma4_default_paged_cache_memory_mb;
use gemma4::kv::physical_full_attention_layer_count;
use gemma4::kv::AttentionKind;
use gemma4::kv::Gemma4LayerKind;
use gemma4::kv::KVCacheDType;
use gemma4::limits::gemma4_large_sliding_restore_suppression_limit_for_override;
use gemma4::limits::gemma4_sliding_decode_checkpoint_interval;
use gemma4::limits::gemma4_sliding_prefix_checkpoint_limit_for_override;
use gemma4::model_plan::compute_layer_kv_cache_groups;
use gemma4::model_plan::PagedPoolPlan;
use gemma4::session::Gemma4Inner;
use gemma4::session::SlidingSettings;
use gemma4::turns::classify_prefix_cache_decision;
use gemma4::turns::PrefixCacheDecision;
use gemma4::turns::IMAGE_CHANGE_RESTART_PREFIX;

fn double(v: f64) -> Double {
    Double { bits: v.to_bits() }
}

/// Two global layers, no per-layer embedding, experts, vision or sharing.
fn paged_tiny_config(use_block_paged: Option<bool>) -> Gemma4Config {
    Gemma4Config {
        vocab_size: 100,
        hidden_size: 64,
        num_hidden_layers: 2,
        num_attention_heads: 2,
        num_key_value_heads: 2,
        head_dim: 32,
        intermediate_size: 64,
        rms_norm_eps: double(1e-6),
        tie_word_embeddings: true,
        max_position_embeddings: 128,
        sliding_window: 128,
        layer_types: vec!["full_attention".to_string(), "full_attention".to_string()],
        rope_theta: double(1_000_000.0),
        rope_local_base_freq: double(10_000.0),
        partial_rotary_factor: double(0.25),
        global_num_key_value_heads: None,
        global_head_dim: None,
        attention_k_eq_v: false,
        is_unified: false,
        use_bidirectional_attention: None,
        final_logit_softcapping: None,
        per_layer_input_embeds: false,
        hidden_size_per_layer_input: None,
        vocab_size_per_layer_input: None,
        pad_token_id: 0,
        eos_token_ids: vec![1],
        bos_token_id: 2,
        attention_bias: false,
        use_double_wide_mlp: false,
        num_kv_shared_layers: None,
        default_temperature: None,
        default_top_k: None,
        default_top_p: None,
        enable_moe_block: false,
        num_experts: None,
        top_k_experts: None,
        moe_intermediate_size: None,
        vision_config: None,
        unified_vision_config: None,
        image_token_id: None,
        boi_token_id: None,
        eoi_token_id: None,
        vision_soft_tokens_per_image: None,
        has_audio: false,
        audio_token_id: None,
        boa_token_id: None,
        eoa_token_id: None,
        audio_samples_per_token: None,
        paged_cache_memory_mb: Some(256),
        paged_block_size: Some(16),
        use_block_paged_cache: use_block_paged,
    }
}

/// Blocks that the memory of a pool holds.
fn count_blocks(plan: PagedPoolPlan) -> u32 {
    let block_bytes = 2u64
        * plan.block_size as u64
        * plan.num_kv_heads as u64
        * plan.head_size as u64
        * 2
        * plan.num_layers as u64;
    (plan.gpu_memory_mb as u64 * 1024 * 1024 / block_bytes) as u32
}

fn new_inner(config: Gemma4Config, backend_available: bool) -> Gemma4Inner {
    Gemma4Inner::new(
        config,
        backend_available,
        8192,
        count_blocks,
        SlidingSettings { restore_limit: None, checkpoint_limit: None },
        7,
    )
    .unwrap()
}

/// A hash of a block that depends on its tokens, its parent and its keys.
fn block_hash(tokens: &[u32], parent: u64, extra: &[u64]) -> u64 {
    let mut h: u64 = 0xcbf2_9ce4_8422_2325 ^ parent;
    for t in tokens {
        h = (h ^ *t as u64).wrapping_mul(0x0000_0100_0000_01b3);
    }
    for e in extra {
        h = (h ^ *e).wrapping_mul(0x0000_0100_0000_01b3);
    }
    h
}

fn prefix_hash_of(tokens: &[u32], prefix_len: u32, block_size: u32) -> u64 {
    compute_gemma4_paged_prefix_block_hash(tokens, prefix_len, block_size, 0, &block_hash)
        .expect("prefix hash")
}

fn checkpoint(inner: &Gemma4Inner, tokens: Vec<u32>, block_size: u32, hash: u64) -> Gemma4SlidingPrefixCheckpoint {
    Gemma4SlidingPrefixCheckpoint {
        prefix_len: tokens.len() as u32,
        block_size,
        final_block_hash: hash,
        tokens,
        snapshots: vec![None; inner.config.num_hidden_layers as usize],
    }
}

#[test]
fn test_use_block_paged_cache_defaults_to_none_via_serde() {
    let cfg = parse_config(
        r#"{
            "vocab_size": 0,
            "hidden_size": 0,
            "num_hidden_layers": 1,
            "num_attention_heads": 1,
            "num_key_value_heads": 1,
            "head_dim": 32,
            "intermediate_size": 1,
            "rms_norm_eps": 1e-6,
            "tie_word_embeddings": false,
            "max_position_embeddings": 2048
        }"#,
    )
    .expect("parse Gemma4Config");
    assert_eq!(
        cfg.use_block_paged_cache, None,
        "use_block_paged_cache must default to None on JSON without the key"
    );
    assert_eq!(cfg.paged_block_size, None);
    assert_eq!(cfg.paged_cache_memory_mb, None);
}

#[test]
fn test_use_block_paged_cache_round_trips_true() {
    let cfg = parse_config(
        r#"{
            "vocab_size": 0,
            "hidden_size": 0,
            "num_hidden_layers": 1,
            "num_attention_heads": 1,
            "num_key_value_heads": 1,
            "head_dim": 32,
            "intermediate_size": 1,
            "rms_norm_eps": 1e-6,
            "tie_word_embeddings": false,
            "max_position_embeddings": 2048,
            "use_block_paged_cache": true
        }"#,
    )
    .expect("parse Gemma4Config");
    assert_eq!(cfg.use_block_paged_cache, Some(true));
}

#[test]
fn test_default_paged_cache_memory_covers_gemma4_full_context() {
    let memory_mb = gemma4_default_paged_cache_memory_mb(131_072, 16, 512, 2, 5);
    assert_eq!(
        memory_mb, 2560,
        "Gemma4 26B-A4B global KV cache needs 2560MiB to cover 128k tokens"
    );

    // Keys and values of five layers, two heads of 512 each, in two bytes.
    let blocks = |mb: u64| mb * 1024 * 1024 / (2 * 16 * 2 * 512 * 2 * 5);
    assert_eq!(blocks(memory_mb as u64), 8192);
    assert_eq!(blocks(memory_mb as u64) * 16, 131_072);
    assert!(
        blocks(2048) * 16 < 124_920,
        "a fixed 2048MiB default cannot hold a 124,920-token prompt"
    );
}

#[test]
fn test_default_paged_cache_memory_respects_minimum() {
    assert_eq!(gemma4_default_paged_cache_memory_mb(128, 16, 32, 2, 2), 256);
}

#[test]
fn test_gemma4_inner_no_paged_adapter_when_flag_is_explicit_false() {
    let inner = new_inner(paged_tiny_config(Some(false)), true);
    assert!(
        inner.paged.is_none(),
        "the pool must be absent when use_block_paged_cache is Some(false)"
    );
    assert!(!inner.has_paged_adapter());
}

#[test]
fn test_gemma4_inner_paged_adapter_when_flag_is_none_default_on_macos() {
    let inner = new_inner(paged_tiny_config(None), true);
    assert!(
        inner.paged.is_some(),
        "the pool must be there when use_block_paged_cache is None"
    );
}

#[test]
fn test_gemma4_inner_constructs_paged_adapter_when_flag_is_true() {
    let inner = new_inner(paged_tiny_config(Some(true)), true);
    assert!(
        inner.paged.is_some(),
        "the pool must be there when use_block_paged_cache = Some(true)"
    );
    assert!(inner.has_paged_adapter());
}

#[test]
fn test_text_delta_after_audio_turn_rejected_like_image_turn() {
    let mut inner = new_inner(paged_tiny_config(Some(false)), true);
    assert!(inner.paged.is_none(), "paged_tiny_config(Some(false)) must leave the pool out");

    inner.cached_image_key = None;
    inner.cached_audio_key = None;
    inner.media_session_continuable = false;
    assert!(
        inner.text_delta_image_guard("chat_session_continue", false).is_none(),
        "clean session must not reject a text delta"
    );

    inner.cached_image_key = Some(42);
    inner.cached_audio_key = None;
    inner.media_session_continuable = false;
    let image_reject = inner
        .text_delta_image_guard("chat_session_continue", false)
        .expect("text delta after non-continuable image turn must reject");
    assert!(image_reject.starts_with(IMAGE_CHANGE_RESTART_PREFIX), "got: {image_reject}");
    assert!(image_reject.contains("image state"), "got: {image_reject}");

    inner.cached_image_key = None;
    inner.cached_audio_key = Some(7);
    inner.media_session_continuable = false;
    let audio_reject = inner
        .text_delta_image_guard("chat_session_continue", false)
        .expect("text delta after non-continuable audio turn must reject");
    assert!(audio_reject.starts_with(IMAGE_CHANGE_RESTART_PREFIX), "got: {audio_reject}");
    assert!(audio_reject.contains("audio state"), "got: {audio_reject}");

    inner.cached_image_key = None;
    inner.cached_audio_key = Some(7);
    inner.media_session_continuable = true;
    let audio_not_live_reject = inner
        .text_delta_image_guard("chat_session_continue", false)
        .expect("continuable audio session with no live request must REJECT");
    assert!(
        audio_not_live_reject.starts_with(IMAGE_CHANGE_RESTART_PREFIX),
        "got: {audio_not_live_reject}"
    );
    assert!(audio_not_live_reject.contains("audio state"), "got: {audio_not_live_reject}");

    inner.cached_image_key = Some(42);
    inner.cached_audio_key = None;
    inner.media_session_continuable = true;
    let image_not_live_reject = inner
        .text_delta_image_guard("chat_session_continue", false)
        .expect("continuable image session with no live request must REJECT");
    assert!(
        image_not_live_reject.starts_with(IMAGE_CHANGE_RESTART_PREFIX),
        "got: {image_not_live_reject}"
    );
    assert!(image_not_live_reject.contains("image state"), "got: {image_not_live_reject}");
}

#[test]
fn test_text_only_paged_save_clears_stale_audio_key() {
    let mut inner = new_inner(paged_tiny_config(Some(false)), true);
    inner.cached_audio_key = Some(7);
    inner.cached_image_key = None;
    inner.media_session_continuable = false;

    let save_tokens: Vec<u32> = vec![10, 11, 12];
    let generated: Vec<u32> = vec![20, 21];
    inner.save_paged_history(&save_tokens, &generated, false, false);

    assert!(
        inner.cached_audio_key.is_none(),
        "text-only paged save must clear the stale audio key"
    );
    assert!(
        inner.text_delta_image_guard("chat_session_continue", false).is_none(),
        "after a text-only paged save the guard must not force an audio restart"
    );
}

#[test]
fn test_verify_cache_prefix_audio_key_forces_miss() {
    let mut inner = new_inner(paged_tiny_config(Some(false)), true);
    inner.init_caches_sync();
    inner.cached_token_history = vec![100, 101, 102];
    let tokens: Vec<u32> = vec![100, 101, 102, 103];

    inner.cached_image_key = None;
    inner.cached_audio_key = Some(7);
    inner.media_session_continuable = false;
    assert_eq!(
        inner.verify_cache_prefix(&tokens, true),
        0,
        "a non-continuable session holding audio state must force a cache miss"
    );

    inner.media_session_continuable = true;
    assert_eq!(
        inner.verify_cache_prefix(&tokens, true),
        inner.cached_token_history.len(),
        "a continuable audio session must not be forced to miss by the media guard"
    );

    inner.cached_image_key = Some(42);
    inner.cached_audio_key = None;
    inner.media_session_continuable = false;
    assert_eq!(
        inner.verify_cache_prefix(&tokens, true),
        0,
        "a non-continuable session holding image state must force a cache miss"
    );
}

#[test]
fn test_media_session_continuable_reset_matrix() {
    let mut inner = new_inner(paged_tiny_config(Some(false)), true);
    assert!(!inner.media_session_continuable, "marker must default to false on construction");

    inner.media_session_continuable = true;
    inner.clear_reuse_state();
    assert!(
        !inner.media_session_continuable,
        "clear_reuse_state must reset the continuable marker"
    );

    inner.media_session_continuable = true;
    inner.cached_audio_key = Some(9);
    inner.reset_caches_sync();
    assert!(
        !inner.media_session_continuable,
        "reset_caches_sync must reset the continuable marker"
    );
    assert!(inner.cached_audio_key.is_none(), "reset_caches_sync must clear the media key");
    assert!(
        inner.text_delta_image_guard("chat_session_continue", false).is_none(),
        "post-reset session holds no media key"
    );
}

#[test]
fn test_gemma4_media_continuable_gate() {
    let mut inner = new_inner(paged_tiny_config(Some(false)), true);

    let image_id = inner.config.image_token_id.unwrap_or(258880) as u32;
    let audio_id = inner.config.audio_token_id.unwrap_or(258881) as u32;
    let text_tokens: Vec<u32> = vec![10, 11, 12, 13];
    let image_tokens: Vec<u32> = vec![10, image_id, image_id, 13];
    let audio_tokens: Vec<u32> = vec![10, audio_id, audio_id, 13];

    assert!(!inner.gemma4_media_continuable(&text_tokens));

    inner.config.is_unified = false;
    inner.config.use_bidirectional_attention = None;
    assert!(inner.gemma4_media_continuable(&audio_tokens));
    inner.config.is_unified = true;
    inner.config.use_bidirectional_attention = Some("vision".to_string());
    assert!(
        inner.gemma4_media_continuable(&audio_tokens),
        "audio is eligible even on a unified ckpt"
    );

    inner.config.is_unified = false;
    inner.config.use_bidirectional_attention = None;
    assert!(inner.gemma4_media_continuable(&image_tokens));

    inner.config.is_unified = true;
    inner.config.use_bidirectional_attention = Some("vision".to_string());
    assert!(
        inner.gemma4_media_continuable(&image_tokens),
        "unified bidirectional-vision image is eligible; faithfulness gated downstream"
    );
}

fn hybrid_types() -> Vec<String> {
    let cycle = ["sliding_attention"; 4]
        .iter()
        .map(|s| s.to_string())
        .chain(std::iter::once("full_attention".to_string()))
        .collect::<Vec<_>>();
    (0..10).map(|i| cycle[i % 5].clone()).collect()
}

fn alternating_types() -> Vec<String> {
    (0..8)
        .map(|i| {
            if i % 2 == 1 {
                "full_attention".to_string()
            } else {
                "sliding_attention".to_string()
            }
        })
        .collect()
}

#[test]
fn test_compute_layer_kinds_all_global() {
    let cfg = Gemma4Config {
        num_hidden_layers: 4,
        layer_types: vec!["full_attention".to_string(); 4],
        ..paged_tiny_config(None)
    };
    let kinds = compute_layer_kinds_from_kv_cache_specs(&cfg).unwrap();
    assert_eq!(kinds.len(), 4);
    for (i, k) in kinds.iter().enumerate() {
        match k {
            Gemma4LayerKind::GlobalPaged { paged_idx } => {
                assert_eq!(*paged_idx as usize, i, "layer {i} paged_idx mismatch");
            }
            other => panic!("layer {i}: expected GlobalPaged, got {other:?}"),
        }
    }
}

#[test]
fn test_compute_layer_kinds_hybrid_no_sharing() {
    let cfg = Gemma4Config {
        num_hidden_layers: 10,
        layer_types: hybrid_types(),
        ..paged_tiny_config(None)
    };
    let kinds = compute_layer_kinds_from_kv_cache_specs(&cfg).unwrap();
    for (i, k) in kinds.iter().enumerate() {
        if i == 4 {
            assert!(
                matches!(k, Gemma4LayerKind::GlobalPaged { paged_idx: 0 }),
                "layer 4 must be GlobalPaged{{0}}, got {k:?}"
            );
        } else if i == 9 {
            assert!(
                matches!(k, Gemma4LayerKind::GlobalPaged { paged_idx: 1 }),
                "layer 9 must be GlobalPaged{{1}}, got {k:?}"
            );
        } else {
            assert!(
                matches!(k, Gemma4LayerKind::Sliding),
                "layer {i} must be Sliding, got {k:?}"
            );
        }
    }
    assert_eq!(kinds.len(), 10);
}

#[test]
fn test_gemma4_prompt_boundary_checkpoint_survives_decode_checkpoint_eviction() {
    let mut inner = new_inner(paged_tiny_config(Some(true)), true);
    let block_size = 16;
    let prompt: Vec<u32> = (10..26).collect();
    let prompt_hash = prefix_hash_of(&prompt, prompt.len() as u32, block_size);
    inner.sliding_prompt_boundary_checkpoint =
        Some(checkpoint(&inner, prompt.clone(), block_size, prompt_hash));

    let checkpoint_limit =
        gemma4_sliding_prefix_checkpoint_limit_for_override(&inner.config, block_size, None);
    for i in 0..(checkpoint_limit + 3) {
        let tokens: Vec<u32> = (0..16).map(|token| 100 + i as u32 + token).collect();
        let next = checkpoint(&inner, tokens, block_size, i as u64 + 1);
        inner.sliding_prefix_checkpoints.push_back(next);
        while inner.sliding_prefix_checkpoints.len() > checkpoint_limit {
            inner.sliding_prefix_checkpoints.pop_front();
        }
    }
    assert_eq!(inner.sliding_prefix_checkpoints.len(), checkpoint_limit);

    let restored = inner.find_gemma4_sliding_prefix_checkpoint(
        &prompt,
        prompt.len() as u32,
        block_size,
        0,
        &block_hash,
    );
    assert!(
        restored.is_some(),
        "prompt-boundary checkpoint must not be evicted by decode-boundary checkpoints"
    );
}

#[test]
fn test_gemma4_decode_checkpoint_retains_recent_retokenization_drift() {
    let mut inner = new_inner(paged_tiny_config(Some(true)), true);
    let block_size = 16;
    let target_tokens: Vec<u32> = (1000..1016).collect();
    let target_hash = prefix_hash_of(&target_tokens, target_tokens.len() as u32, block_size);
    let target = checkpoint(&inner, target_tokens.clone(), block_size, target_hash);
    inner.sliding_prefix_checkpoints.push_back(target);

    for i in 0..4 {
        let tokens: Vec<u32> = (0..16).map(|token| 2000 + i as u32 + token).collect();
        let hash = prefix_hash_of(&tokens, tokens.len() as u32, block_size);
        let next = checkpoint(&inner, tokens, block_size, hash);
        inner.sliding_prefix_checkpoints.push_back(next);
        let checkpoint_limit =
            gemma4_sliding_prefix_checkpoint_limit_for_override(&inner.config, block_size, None);
        while inner.sliding_prefix_checkpoints.len() > checkpoint_limit {
            inner.sliding_prefix_checkpoints.pop_front();
        }
    }

    let restored = inner.find_gemma4_sliding_prefix_checkpoint(
        &target_tokens,
        target_tokens.len() as u32,
        block_size,
        0,
        &block_hash,
    );
    assert!(
        restored.is_some(),
        "decode checkpoints must retain the block needed after modest retokenization drift"
    );
}

#[test]
fn test_gemma4_decode_checkpoint_retains_sliding_window_drift() {
    let mut cfg = paged_tiny_config(Some(true));
    cfg.sliding_window = 512;
    let mut inner = new_inner(cfg, true);
    let block_size = 16;
    let checkpoint_limit =
        gemma4_sliding_prefix_checkpoint_limit_for_override(&inner.config, block_size, None);
    assert_eq!(
        checkpoint_limit, 64,
        "512-token sliding window with 16-token blocks should retain two windows of decode checkpoints"
    );
    let target_tokens: Vec<u32> = (3000..3016).collect();
    let target_hash = prefix_hash_of(&target_tokens, target_tokens.len() as u32, block_size);
    let target = checkpoint(&inner, target_tokens.clone(), block_size, target_hash);
    inner.sliding_prefix_checkpoints.push_back(target);

    for i in 0..18 {
        let token_base = 4000 + (i as u32 * block_size);
        let tokens: Vec<u32> = (0..block_size).map(|token| token_base + token).collect();
        let hash = prefix_hash_of(&tokens, tokens.len() as u32, block_size);
        let next = checkpoint(&inner, tokens, block_size, hash);
        inner.sliding_prefix_checkpoints.push_back(next);
        while inner.sliding_prefix_checkpoints.len() > checkpoint_limit {
            inner.sliding_prefix_checkpoints.pop_front();
        }
    }

    let restored = inner.find_gemma4_sliding_prefix_checkpoint(
        &target_tokens,
        target_tokens.len() as u32,
        block_size,
        0,
        &block_hash,
    );
    assert!(
        restored.is_some(),
        "decode checkpoints must retain one sliding-window worth of retokenization drift"
    );
}

#[test]
fn test_gemma4_decode_checkpoint_retains_auxiliary_branch_interleaving() {
    let mut cfg = paged_tiny_config(Some(true));
    cfg.sliding_window = 1024;
    let mut inner = new_inner(cfg, true);
    let block_size = 16;
    let checkpoint_limit =
        gemma4_sliding_prefix_checkpoint_limit_for_override(&inner.config, block_size, None);
    assert_eq!(
        checkpoint_limit, 128,
        "1024-token sliding window with 16-token blocks should retain two windows"
    );
    let target_tokens: Vec<u32> = (10_000..10_016).collect();
    let target_hash = prefix_hash_of(&target_tokens, target_tokens.len() as u32, block_size);
    let target = checkpoint(&inner, target_tokens.clone(), block_size, target_hash);
    inner.sliding_prefix_checkpoints.push_back(target);

    for i in 0..93 {
        let token_base = 20_000 + (i as u32 * block_size);
        let tokens: Vec<u32> = (0..block_size).map(|token| token_base + token).collect();
        let hash = prefix_hash_of(&tokens, tokens.len() as u32, block_size);
        let next = checkpoint(&inner, tokens, block_size, hash);
        inner.sliding_prefix_checkpoints.push_back(next);
        trim_gemma4_sliding_prefix_checkpoints(
            &mut inner.sliding_prefix_checkpoints,
            checkpoint_limit,
        );
    }

    let restored = inner.find_gemma4_sliding_prefix_checkpoint(
        &target_tokens,
        target_tokens.len() as u32,
        block_size,
        0,
        &block_hash,
    );
    assert!(
        restored.is_some(),
        "decode checkpoints must survive auxiliary branch interleaving seen in live sessions"
    );
}

#[test]
fn test_gemma4_sliding_prefix_checkpoint_restores_nearest_prefix() {
    let mut inner = new_inner(paged_tiny_config(Some(true)), true);
    let block_size = 16;
    let tokens: Vec<u32> = (0..1280).map(|token| 50_000 + token).collect();
    let checkpoint_len = 1024;
    let checkpoint_hash = prefix_hash_of(&tokens, checkpoint_len, block_size);
    let near =
        checkpoint(&inner, tokens[..checkpoint_len as usize].to_vec(), block_size, checkpoint_hash);
    inner.sliding_prefix_checkpoints.push_back(near);

    let hit = inner
        .find_gemma4_sliding_prefix_checkpoint(
            &tokens,
            tokens.len() as u32,
            block_size,
            0,
            &block_hash,
        )
        .expect("nearest checkpoint hit");
    assert_eq!(hit.prefix_len, checkpoint_len);
}

#[test]
fn test_gemma4_mid_prompt_prefix_hit_uses_near_prefill_checkpoint() {
    let mut cfg = paged_tiny_config(Some(true));
    cfg.sliding_window = 1024;
    let mut inner = new_inner(cfg, true);
    let block_size = 16;
    let cached_prefix_len = 24_352;
    let checkpoint_len = 23_552;
    let tokens: Vec<u32> = (0..cached_prefix_len).map(|token| 90_000 + token).collect();
    let checkpoint_hash = prefix_hash_of(&tokens, checkpoint_len, block_size);
    let near =
        checkpoint(&inner, tokens[..checkpoint_len as usize].to_vec(), block_size, checkpoint_hash);
    inner.sliding_prefix_checkpoints.push_back(near);

    let hit = inner
        .find_gemma4_sliding_prefix_checkpoint(
            &tokens,
            cached_prefix_len,
            block_size,
            0,
            &block_hash,
        )
        .expect("near checkpoint hit");
    assert_eq!(hit.prefix_len, checkpoint_len);
    assert_eq!(cached_prefix_len - hit.prefix_len, 800);
    assert_eq!(
        gemma4_large_sliding_restore_suppression_limit_for_override(
            &inner.config,
            block_size,
            None,
            cached_prefix_len - hit.prefix_len
        ),
        None,
        "a one-window prefill checkpoint should prevent cold-prefill suppression"
    );
}

#[test]
fn test_gemma4_window_stride_checkpoints_retain_old_branch_prefix() {
    let mut cfg = paged_tiny_config(Some(true));
    cfg.sliding_window = 1024;
    let mut inner = new_inner(cfg, true);
    let block_size = 16;
    let target_len = 36_096;
    let target_tokens: Vec<u32> = (0..target_len).map(|token| 70_000 + token).collect();
    let target_hash = prefix_hash_of(&target_tokens, target_len, block_size);
    let target = checkpoint(&inner, target_tokens.clone(), block_size, target_hash);
    inner.sliding_prefix_checkpoints.push_back(target);

    let checkpoint_limit =
        gemma4_sliding_prefix_checkpoint_limit_for_override(&inner.config, block_size, None);
    let interval = gemma4_sliding_decode_checkpoint_interval(&inner.config, block_size);
    assert_eq!(interval, 1024);
    assert_eq!(checkpoint_limit, 128);

    for i in 0..96 {
        let prefix_len = 80_000 + i as u32 * interval;
        let tokens: Vec<u32> = (0..prefix_len).map(|token| 200_000 + token).collect();
        let hash = prefix_hash_of(&tokens, prefix_len, block_size);
        let next = checkpoint(&inner, tokens, block_size, hash);
        inner.sliding_prefix_checkpoints.push_back(next);
        trim_gemma4_sliding_prefix_checkpoints(
            &mut inner.sliding_prefix_checkpoints,
            checkpoint_limit,
        );
    }

    let hit = inner
        .find_gemma4_sliding_prefix_checkpoint(
            &target_tokens,
            target_tokens.len() as u32,
            block_size,
            0,
            &block_hash,
        )
        .expect("old branch checkpoint hit");
    assert_eq!(hit.prefix_len, target_len);
}

#[test]
fn test_compute_layer_kinds_kv_sharing_resolves_anchors() {
    let cfg = Gemma4Config {
        num_hidden_layers: 8,
        layer_types: alternating_types(),
        num_kv_shared_layers: Some(4),
        ..paged_tiny_config(None)
    };
    let kinds = compute_layer_kinds_from_kv_cache_specs(&cfg).unwrap();
    assert!(matches!(kinds[0], Gemma4LayerKind::Sliding));
    assert!(matches!(kinds[1], Gemma4LayerKind::GlobalPaged { paged_idx: 0 }));
    assert!(matches!(kinds[2], Gemma4LayerKind::Sliding));
    assert!(matches!(kinds[3], Gemma4LayerKind::GlobalPaged { paged_idx: 1 }));
    match kinds[4] {
        Gemma4LayerKind::SharedOnSliding { anchor_layer_idx } => {
            assert_eq!(anchor_layer_idx, 2, "anchor for sliding-shared layer 4");
        }
        ref other => panic!("layer 4: expected SharedOnSliding, got {other:?}"),
    }
    match kinds[5] {
        Gemma4LayerKind::SharedOnGlobal { anchor_paged_idx } => {
            assert_eq!(anchor_paged_idx, 1, "anchor paged_idx for global-shared 5");
        }
        ref other => panic!("layer 5: expected SharedOnGlobal, got {other:?}"),
    }
    match kinds[6] {
        Gemma4LayerKind::SharedOnSliding { anchor_layer_idx } => {
            assert_eq!(anchor_layer_idx, 2, "anchor for sliding-shared layer 6");
        }
        ref other => panic!("layer 6: expected SharedOnSliding, got {other:?}"),
    }
    match kinds[7] {
        Gemma4LayerKind::SharedOnGlobal { anchor_paged_idx } => {
            assert_eq!(anchor_paged_idx, 1, "anchor paged_idx for global-shared 7");
        }
        ref other => panic!("layer 7: expected SharedOnGlobal, got {other:?}"),
    }
}

#[test]
fn test_gemma4_inner_caches_layer_kinds_matching_fresh_compute() {
    let all_global = Gemma4Config {
        num_hidden_layers: 4,
        layer_types: vec!["full_attention".to_string(); 4],
        ..paged_tiny_config(Some(true))
    };
    let hybrid = Gemma4Config {
        num_hidden_layers: 10,
        layer_types: hybrid_types(),
        ..paged_tiny_config(Some(true))
    };
    let kv_shared = Gemma4Config {
        num_hidden_layers: 8,
        layer_types: alternating_types(),
        num_kv_shared_layers: Some(4),
        ..paged_tiny_config(Some(true))
    };

    for cfg in [all_global, hybrid, kv_shared] {
        let expected = compute_layer_kinds_from_kv_cache_specs(&cfg)
            .expect("fresh layer-kind computation must succeed for a valid paged config");
        let inner = new_inner(cfg, true);
        assert!(inner.paged.is_some(), "test configs force use_block_paged_cache=true");
        assert_eq!(inner.layer_kinds, expected);
    }
}

#[test]
fn test_compute_layer_kv_cache_specs_group_full_sliding_and_shared_aliases() {
    let cfg = Gemma4Config {
        num_hidden_layers: 8,
        layer_types: alternating_types(),
        num_kv_shared_layers: Some(4),
        sliding_window: 17,
        max_position_embeddings: 128,
        ..paged_tiny_config(None)
    };

    let specs = compute_layer_kv_cache_specs(&cfg, 8, KVCacheDType::BFloat16).unwrap();
    assert_eq!(specs.len(), 8);
    assert_eq!(specs[4].shared_kv_anchor, Some(2));
    assert_eq!(specs[5].shared_kv_anchor, Some(3));
    assert_eq!(physical_full_attention_layer_count(&specs), 2);

    let groups = compute_layer_kv_cache_groups(&cfg, 8, KVCacheDType::BFloat16, 32).unwrap();
    let full_group = groups
        .iter()
        .find(|group| matches!(group.attention_kind, AttentionKind::Full))
        .expect("full group");
    assert_eq!(full_group.layer_indices, vec![1, 3, 5, 7]);
    assert_eq!(full_group.physical_layer_indices, vec![1, 3]);

    let sliding_group = groups
        .iter()
        .find(|group| {
            matches!(group.attention_kind, AttentionKind::SlidingWindow { sliding_window: 17 })
        })
        .expect("sliding group");
    assert_eq!(sliding_group.layer_indices, vec![0, 2, 4, 6]);
    assert_eq!(sliding_group.physical_layer_indices, vec![0, 2]);
    assert_eq!(
        sliding_group.max_admission_blocks, 7,
        "ceil((17 - 1 + 32) / 8) + one partial block"
    );
}

#[test]
fn empty_cache_is_miss() {
    assert_eq!(
        classify_prefix_cache_decision(0, 0),
        PrefixCacheDecision::Miss,
        "empty cache + empty tokens must be Miss"
    );
    assert_eq!(
        classify_prefix_cache_decision(0, 10),
        PrefixCacheDecision::Miss,
        "empty cache + non-empty tokens must be Miss"
    );
}

#[test]
fn strict_extend_is_hit() {
    assert_eq!(
        classify_prefix_cache_decision(5, 8),
        PrefixCacheDecision::StrictExtendHit,
        "cached.len() < tokens.len() must be StrictExtendHit"
    );
    assert_eq!(
        classify_prefix_cache_decision(1, 2),
        PrefixCacheDecision::StrictExtendHit,
        "cached.len() = 1, tokens.len() = 2 must be StrictExtendHit (smallest hit)"
    );
}

#[test]
fn divergence_is_miss() {
    assert_eq!(
        classify_prefix_cache_decision(0, 20),
        PrefixCacheDecision::Miss,
        "divergence (verifier returned 0) must be Miss"
    );
}

#[test]
fn exact_match_is_miss() {
    assert_eq!(
        classify_prefix_cache_decision(5, 5),
        PrefixCacheDecision::Miss,
        "exact-match (cached.len() == tokens.len()) must be Miss, not StrictExtendHit"
    );
    assert_eq!(
        classify_prefix_cache_decision(1, 1),
        PrefixCacheDecision::Miss,
        "exact-match single token must be Miss"
    );
    assert_eq!(
        classify_prefix_cache_decision(1000, 1000),
        PrefixCacheDecision::Miss,
        "exact-match long prompts must still be Miss"
    );
}

#[test]
fn invariant_cached_len_never_exceeds_tokens_len_in_hit() {
    assert_eq!(
        classify_prefix_cache_decision(10, 5),
        PrefixCacheDecision::Miss,
        "cached_prefix_len > tokens_len must be Miss (defensive fallthrough)"
    );
}
