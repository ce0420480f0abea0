//! How prompts are cut into chunks, and the limits that the cuts respect.

use gemma4::chunks::Gemma4PagedPrefillBodyChunk;
use gemma4::chunks::gemma4_coalesce_single_token_restore_chunks;
use gemma4::chunks::gemma4_paged_attention_v2_aux_fits;
use gemma4::chunks::gemma4_paged_prefill_aux_limited_chunk_size;
use gemma4::chunks::gemma4_paged_prefill_body_chunk_plan;
use gemma4::chunks::gemma4_paged_prefill_body_chunk_plan_with_checkpoint_interval;
use gemma4::chunks::gemma4_paged_prefill_body_chunk_size;
use gemma4::chunks::gemma4_paged_prefill_group_max_chunk;
use gemma4::chunks::gemma4_split_body_chunk_plan_at_position;
use gemma4::chunks::ChunkPlanError;
use gemma4::config::Double;
use gemma4::config::Gemma4Config;
use gemma4::forward::create_sliding_mask;
use gemma4::forward::sliding_mask_offset_for_chunk;
use gemma4::limits::gemma4_default_sliding_restore_limit;
use gemma4::limits::gemma4_large_sliding_restore_suppression_limit_for_override;
use gemma4::limits::gemma4_sliding_decode_checkpoint_interval;
use gemma4::limits::gemma4_sliding_prefix_checkpoint_limit_for_override;
use gemma4::limits::parse_gemma4_sliding_checkpoint_limit;
use gemma4::limits::parse_gemma4_sliding_restore_limit;
use gemma4::limits::Gemma4SlidingRestoreLimitOverride;
use gemma4::limits::Gemma4SlidingRestoreSuppression;
use gemma4::limits::LimitSource;
use gemma4::prefill::flat_prefill_spans;
use gemma4::prefill::plan_vlm_prefill;
use gemma4::prefill::uniform_spans;
use gemma4::prefill::ChunkSettings;
use gemma4::prefill::PrefillError;
use gemma4::prefill::TokenSpan;
use gemma4::prefill_steps::paged_prefill_steps;
use gemma4::prefill_steps::vlm_prefill_steps;
use gemma4::prefill_steps::PrefillStep;
use gemma4::session::Gemma4Inner;
use gemma4::session::SlidingSettings;

fn double(v: f64) -> Double {
    Double { bits: v.to_bits() }
}

/// Two global layers, no per-layer embedding, experts, vision or sharing.
fn paged_tiny_config(use_block_paged: Option<bool>) -> Gemma4Config {
    Gemma4Config {
        vocab_size: 100,
        hidden_size: 64,
        num_hidden_layers: 2,
        num_attention_heads: 2,
        num_key_value_heads: 2,
        head_dim: 32,
        intermediate_size: 64,
        rms_norm_eps: double(1e-6),
        tie_word_embeddings: true,
        max_position_embeddings: 128,
        sliding_window: 128,
        layer_types: vec!["full_attention".to_string(), "full_attention".to_string()],
        rope_theta: double(1_000_000.0),
        rope_local_base_freq: double(10_000.0),
        partial_rotary_factor: double(0.25),
        global_num_key_value_heads: None,
        global_head_dim: None,
        attention_k_eq_v: false,
        is_unified: false,
        use_bidirectional_attention: None,
        final_logit_softcapping: None,
        per_layer_input_embeds: false,
        hidden_size_per_layer_input: None,
        vocab_size_per_layer_input: None,
        pad_token_id: 0,
        eos_token_ids: vec![1],
        bos_token_id: 2,
        attention_bias: false,
        use_double_wide_mlp: false,
        num_kv_shared_layers: None,
        default_temperature: None,
        default_top_k: None,
        default_top_p: None,
        enable_moe_block: false,
        num_experts: None,
        top_k_experts: None,
        moe_intermediate_size: None,
        vision_config: None,
        unified_vision_config: None,
        image_token_id: None,
        boi_token_id: None,
        eoi_token_id: None,
        vision_soft_tokens_per_image: None,
        has_audio: false,
        audio_token_id: None,
        boa_token_id: None,
        eoa_token_id: None,
        audio_samples_per_token: None,
        paged_cache_memory_mb: Some(256),
        paged_block_size: Some(16),
        use_block_paged_cache: use_block_paged,
    }
}

#[test]
fn sliding_mask_offset_uses_rotating_window_view() {
    assert_eq!(sliding_mask_offset_for_chunk(512, 16, 1024), None);
    assert_eq!(sliding_mask_offset_for_chunk(512, 528, 1024), Some(528));
    assert_eq!(sliding_mask_offset_for_chunk(512, 43_688, 1024), Some(1024));
    assert_eq!(sliding_mask_offset_for_chunk(2048, 0, 1024), Some(0));
    assert_eq!(sliding_mask_offset_for_chunk(1, 4096, 1024), None);
}

/// Attention over a mask is finite where every row keeps a column.
#[test]
fn sliding_mask_is_valid_for_bf16_gqa_attention() {
    let mask = create_sliding_mask(4, 2, 3);
    assert_eq!(mask.rows, 4);
    assert_eq!(mask.cols, 6);
    assert_eq!(mask.keep.len(), 4 * 6);
    for row in 0..mask.rows {
        assert!((0..mask.cols).any(|col| mask.keep[row * mask.cols + col]));
    }
}

#[test]
fn test_gemma4_paged_prefill_body_chunk_size_honors_configured_size() {
    assert_eq!(gemma4_paged_prefill_body_chunk_size(4096, 27_938), 4096);
    assert_eq!(gemma4_paged_prefill_body_chunk_size(512, 27_938), 512);
    assert_eq!(gemma4_paged_prefill_body_chunk_size(0, 27_938), 27_938);
}

#[test]
fn test_gemma4_paged_prefill_body_chunk_plan_caps_v2_aux() {
    let plan = gemma4_paged_prefill_body_chunk_plan(8192, 27_938, 16, 16, 512, true).unwrap();
    assert_eq!(plan.first().unwrap().len, 8192);
    assert!(plan.iter().any(|chunk| chunk.capped_by_v2_aux_limit));

    let mut expected_start = 0usize;
    let mut expected_position = 16u32;
    for chunk in &plan {
        assert_eq!(chunk.start, expected_start);
        assert_eq!(chunk.first_position, expected_position);
        assert!(gemma4_paged_attention_v2_aux_fits(
            chunk.len,
            chunk.first_position,
            16,
            512
        ));
        expected_start += chunk.len;
        expected_position += chunk.len as u32;
    }
    assert_eq!(expected_start, 27_938);

    let uncapped = gemma4_paged_prefill_body_chunk_plan(8192, 27_938, 16, 16, 512, false).unwrap();
    assert_eq!(uncapped.len(), 4);
    assert!(uncapped.iter().all(|chunk| !chunk.capped_by_v2_aux_limit));
}

#[test]
fn test_gemma4_sliding_restore_chunk_plan_avoids_singletons() {
    let mut plan = gemma4_paged_prefill_body_chunk_plan(4, 9, 0, 16, 512, false).unwrap();
    assert_eq!(plan.iter().map(|chunk| chunk.len).collect::<Vec<_>>(), vec![4, 4, 1]);

    gemma4_coalesce_single_token_restore_chunks(&mut plan);
    assert_eq!(plan.iter().map(|chunk| chunk.len).collect::<Vec<_>>(), vec![4, 5]);
    assert_eq!(plan[1].start, 4);
    assert_eq!(plan[1].first_position, 4);

    let mut one_token_chunks =
        gemma4_paged_prefill_body_chunk_plan(1, 5, 0, 16, 512, false).unwrap();
    gemma4_coalesce_single_token_restore_chunks(&mut one_token_chunks);
    assert_eq!(
        one_token_chunks.iter().map(|chunk| chunk.len).collect::<Vec<_>>(),
        vec![2, 3]
    );
    assert_eq!(one_token_chunks[1].first_position, 2);
}

#[test]
fn coalescing_unites_whole_neighbours_and_is_done_once() {
    let chunk = |start: usize, len: usize, capped: bool| Gemma4PagedPrefillBodyChunk {
        start,
        len,
        first_position: 100 + start as u32,
        capped_by_v2_aux_limit: capped,
    };
    let mut plan = vec![
        chunk(0, 1, false),
        chunk(1, 3, true),
        chunk(4, 2, false),
        chunk(6, 1, false),
        chunk(7, 1, true),
        chunk(8, 1, false),
    ];
    gemma4_coalesce_single_token_restore_chunks(&mut plan);
    let joined = vec![chunk(0, 4, true), chunk(4, 2, false), chunk(6, 3, true)];
    assert_eq!(plan, joined);
    gemma4_coalesce_single_token_restore_chunks(&mut plan);
    assert_eq!(plan, joined);
    let mut single = vec![chunk(0, 1, true)];
    gemma4_coalesce_single_token_restore_chunks(&mut single);
    assert_eq!(single, vec![chunk(0, 1, true)]);
}

#[test]
fn test_gemma4_paged_prefill_chunk_plan_splits_prompt_cache_boundary() {
    let mut plan =
        gemma4_paged_prefill_body_chunk_plan(1024, 1432, 44_320, 16, 512, false).unwrap();
    gemma4_split_body_chunk_plan_at_position(&mut plan, 45_744);
    assert_eq!(
        plan.iter().map(|chunk| chunk.len).collect::<Vec<_>>(),
        vec![1024, 400, 8]
    );
    assert_eq!(
        plan.iter().map(|chunk| chunk.first_position).collect::<Vec<_>>(),
        vec![44_320, 45_344, 45_744]
    );
    assert_eq!(
        plan.iter().map(|chunk| chunk.start).collect::<Vec<_>>(),
        vec![0, 1024, 1424]
    );

    let mut unchanged = plan.clone();
    gemma4_split_body_chunk_plan_at_position(&mut unchanged, 45_344);
    assert_eq!(unchanged, plan);
}

#[test]
fn test_gemma4_paged_prefill_chunk_plan_splits_decode_checkpoint_boundaries() {
    let plan = gemma4_paged_prefill_body_chunk_plan_with_checkpoint_interval(
        1024, 3000, 16, 16, 512, false, 1024,
    )
    .unwrap();
    assert_eq!(
        plan.iter().map(|chunk| chunk.len).collect::<Vec<_>>(),
        vec![1008, 1024, 968]
    );
    assert_eq!(
        plan.iter().map(|chunk| chunk.first_position).collect::<Vec<_>>(),
        vec![16, 1024, 2048]
    );
    assert_eq!(
        plan.iter().map(|chunk| chunk.start).collect::<Vec<_>>(),
        vec![0, 1008, 2032]
    );

    let capped = gemma4_paged_prefill_body_chunk_plan_with_checkpoint_interval(
        512, 1600, 768, 16, 512, false, 1024,
    )
    .unwrap();
    assert_eq!(
        capped.iter().map(|chunk| chunk.len).collect::<Vec<_>>(),
        vec![256, 512, 512, 320]
    );
    assert!(capped.iter().all(|chunk| chunk.len <= 512));
}

#[test]
fn test_gemma4_sliding_restore_default_is_checkpoint_bounded() {
    let cfg = Gemma4Config { sliding_window: 1024, ..paged_tiny_config(Some(true)) };
    assert_eq!(
        gemma4_large_sliding_restore_suppression_limit_for_override(&cfg, 16, None, 1024),
        None
    );
    let suppressed =
        gemma4_large_sliding_restore_suppression_limit_for_override(&cfg, 16, None, 24_336);
    assert_eq!(
        suppressed,
        Some(Gemma4SlidingRestoreSuppression { limit: 1024, source: LimitSource::Default })
    );
    assert_eq!(suppressed.unwrap().source.name(), "default");
}

#[test]
fn test_gemma4_sliding_restore_env_limit_overrides_default() {
    let cfg = Gemma4Config { sliding_window: 1024, ..paged_tiny_config(Some(true)) };

    assert_eq!(
        parse_gemma4_sliding_restore_limit("32768"),
        Some(Gemma4SlidingRestoreLimitOverride::Cap(32_768))
    );
    assert_eq!(
        parse_gemma4_sliding_restore_limit(" 44512 "),
        Some(Gemma4SlidingRestoreLimitOverride::Cap(44_512))
    );
    assert_eq!(parse_gemma4_sliding_restore_limit(""), None);
    assert_eq!(
        parse_gemma4_sliding_restore_limit("off"),
        Some(Gemma4SlidingRestoreLimitOverride::Uncapped)
    );

    assert_eq!(
        gemma4_large_sliding_restore_suppression_limit_for_override(
            &cfg,
            16,
            Some(Gemma4SlidingRestoreLimitOverride::Cap(32_768)),
            32_768
        ),
        None
    );
    let suppressed = gemma4_large_sliding_restore_suppression_limit_for_override(
        &cfg,
        16,
        Some(Gemma4SlidingRestoreLimitOverride::Cap(32_768)),
        44_512,
    );
    assert_eq!(
        suppressed,
        Some(Gemma4SlidingRestoreSuppression { limit: 32_768, source: LimitSource::Env })
    );
    assert_eq!(suppressed.unwrap().source.name(), "env");
    assert_eq!(
        gemma4_large_sliding_restore_suppression_limit_for_override(
            &cfg,
            16,
            Some(Gemma4SlidingRestoreLimitOverride::Uncapped),
            1_000_000
        ),
        None
    );
}

#[test]
fn test_gemma4_sliding_decode_checkpoint_interval_uses_window_stride() {
    let mut cfg = paged_tiny_config(Some(true));
    cfg.sliding_window = 1024;
    assert_eq!(gemma4_sliding_decode_checkpoint_interval(&cfg, 16), 1024);

    cfg.sliding_window = 1000;
    assert_eq!(
        gemma4_sliding_decode_checkpoint_interval(&cfg, 16),
        1008,
        "checkpoint interval should stay aligned to paged block boundaries"
    );
}

fn flat_inner(config: Gemma4Config) -> Gemma4Inner {
    Gemma4Inner::new(
        config,
        false,
        8192,
        |_| 0,
        SlidingSettings { restore_limit: None, checkpoint_limit: None },
        1,
    )
    .unwrap()
}

fn paged_inner(config: Gemma4Config) -> Gemma4Inner {
    Gemma4Inner::new(
        config,
        true,
        8192,
        |_| 1000,
        SlidingSettings { restore_limit: None, checkpoint_limit: None },
        1,
    )
    .unwrap()
}

#[test]
fn mask_keeps_the_window_behind_each_token() {
    let mask = create_sliding_mask(3, 2, 2);
    assert_eq!((mask.rows, mask.cols), (3, 5));
    let kept: Vec<Vec<usize>> = (0..mask.rows)
        .map(|row| (0..mask.cols).filter(|col| mask.keep[row * mask.cols + col]).collect())
        .collect();
    assert_eq!(kept, vec![vec![1, 2], vec![2, 3], vec![3, 4]]);
}

#[test]
fn auxiliary_buffers_fit_up_to_their_limit() {
    // 16 heads of 512 are 8192 elements for each token and partition.
    assert!(gemma4_paged_attention_v2_aux_fits(1, 0, 16, 512));
    assert!(gemma4_paged_attention_v2_aux_fits(262_143, 0, 1, 1));
    // 8192 tokens at position 16 span 17 partitions: 8192 * 17 * 8192 fits.
    assert!(gemma4_paged_attention_v2_aux_fits(8192, 16, 16, 512));
    // 32 partitions of 8192 tokens are one more than 2^31 - 1.
    assert!(!gemma4_paged_attention_v2_aux_fits(8192, 8192, 16, 512));
    assert!(gemma4_paged_attention_v2_aux_fits(8191, 8192, 16, 512));
}

#[test]
fn limited_chunk_is_the_longest_that_fits() {
    let (len, capped) = gemma4_paged_prefill_aux_limited_chunk_size(8192, 20_000, 8192, 16, 512, true);
    assert!(capped);
    assert!(gemma4_paged_attention_v2_aux_fits(len, 8192, 16, 512));
    assert!(!gemma4_paged_attention_v2_aux_fits(len + 1, 8192, 16, 512));
    assert_eq!(
        gemma4_paged_prefill_aux_limited_chunk_size(8192, 20_000, 8192, 16, 512, false),
        (8192, false)
    );
    assert_eq!(
        gemma4_paged_prefill_aux_limited_chunk_size(8192, 100, 0, 16, 512, true),
        (100, false)
    );
}

#[test]
fn group_chunk_follows_the_configured_size() {
    assert_eq!(gemma4_paged_prefill_group_max_chunk(512), 512);
    assert_eq!(gemma4_paged_prefill_group_max_chunk(4096), 4096);
}

#[test]
fn positions_past_the_last_one_are_refused() {
    let error = gemma4_paged_prefill_body_chunk_plan(4, 8, u32::MAX - 5, 1, 1, false).unwrap_err();
    assert_eq!(error, ChunkPlanError::PositionOverflow);
    assert_eq!(error.message(), "Gemma4 paged prefill token position overflow");
}

#[test]
fn no_tokens_need_no_chunk() {
    assert_eq!(gemma4_paged_prefill_body_chunk_plan(4, 0, 7, 1, 1, true).unwrap(), vec![]);
}

#[test]
fn settings_are_read_without_regard_to_case_and_blanks() {
    for word in ["off", "None", "FALSE", "no", "unlimited", " uncapped "] {
        assert_eq!(
            parse_gemma4_sliding_restore_limit(word),
            Some(Gemma4SlidingRestoreLimitOverride::Uncapped),
            "{word}"
        );
    }
    assert_eq!(
        parse_gemma4_sliding_restore_limit(" OFF "),
        Some(Gemma4SlidingRestoreLimitOverride::Uncapped)
    );
    assert_eq!(parse_gemma4_sliding_restore_limit("twelve"), None);
    assert_eq!(parse_gemma4_sliding_restore_limit("4294967296"), None);
    assert_eq!(parse_gemma4_sliding_checkpoint_limit(" 7 "), Some(7));
    assert_eq!(parse_gemma4_sliding_checkpoint_limit("-7"), None);
    assert_eq!(parse_gemma4_sliding_checkpoint_limit(""), None);
}

#[test]
fn checkpoint_limit_spans_two_windows_within_bounds() {
    let mut cfg = paged_tiny_config(None);
    cfg.sliding_window = 512;
    assert_eq!(gemma4_sliding_prefix_checkpoint_limit_for_override(&cfg, 16, None), 64);
    cfg.sliding_window = 64;
    assert_eq!(gemma4_sliding_prefix_checkpoint_limit_for_override(&cfg, 16, None), 16);
    cfg.sliding_window = 8192;
    assert_eq!(gemma4_sliding_prefix_checkpoint_limit_for_override(&cfg, 16, None), 128);
    assert_eq!(gemma4_sliding_prefix_checkpoint_limit_for_override(&cfg, 16, Some(3)), 3);
}

#[test]
fn default_restore_limit_is_the_checkpoint_interval() {
    let mut cfg = paged_tiny_config(None);
    cfg.sliding_window = 1000;
    assert_eq!(gemma4_default_sliding_restore_limit(&cfg, 16), Some(1008));
}

#[test]
fn paged_prompt_is_replayed_chunked_and_ended_alone() {
    let mut cfg = paged_tiny_config(Some(true));
    cfg.sliding_window = 32;
    let inner = paged_inner(cfg);
    let settings = ChunkSettings { configured_chunk_size: 16, paged_attention_enabled: false };
    // 40 tokens, 20 of them cached, the sliding layers have seen 4.
    let plan = inner.plan_paged_prefill(40, 20, 20, 4, settings).unwrap();
    assert_eq!(
        plan.replay.iter().map(|c| (c.first_position, c.len)).collect::<Vec<_>>(),
        vec![(4, 16)]
    );
    // A checkpoint boundary at 32 and no cut at 40 / 16 * 16 = 32.
    assert_eq!(
        plan.body.iter().map(|c| (c.first_position, c.len)).collect::<Vec<_>>(),
        vec![(20, 12), (32, 7)]
    );
    assert_eq!(plan.prompt_boundary_len, 32);
    assert_eq!(plan.final_position, 39);

    let steps = paged_prefill_steps(&plan, 20, 4, 16);
    assert_eq!(
        steps,
        vec![
            PrefillStep::Replay { start: 4, end: 20 },
            PrefillStep::EvalCaches,
            PrefillStep::FileReplayed,
            PrefillStep::Record { start: 0, end: 12 },
            PrefillStep::Run { start: 0, end: 12, first_position: 20 },
            PrefillStep::EvalPool,
            PrefillStep::EvalCaches,
            PrefillStep::Remember { next_position: 32 },
            PrefillStep::Record { start: 12, end: 19 },
            PrefillStep::Run { start: 12, end: 19, first_position: 32 },
            PrefillStep::EvalPool,
            PrefillStep::EvalCaches,
            PrefillStep::Remember { next_position: 39 },
            PrefillStep::Record { start: 19, end: 20 },
            PrefillStep::Run { start: 19, end: 20, first_position: 39 },
            PrefillStep::EvalPool,
            PrefillStep::RememberPrompt { position: 40 },
            PrefillStep::Logits,
        ]
    );
}

#[test]
fn paged_prompt_of_one_token_runs_alone() {
    let inner = paged_inner(paged_tiny_config(Some(true)));
    let settings = ChunkSettings { configured_chunk_size: 16, paged_attention_enabled: true };
    let plan = inner.plan_paged_prefill(1, 1, 0, 0, settings).unwrap();
    assert!(plan.replay.is_empty() && plan.body.is_empty());
    let steps = paged_prefill_steps(&plan, 1, 0, 0);
    assert_eq!(steps.len(), 5);
    assert_eq!(steps[1], PrefillStep::Run { start: 0, end: 1, first_position: 0 });
}

#[test]
fn unplannable_paged_prompts_are_refused() {
    let settings = ChunkSettings { configured_chunk_size: 16, paged_attention_enabled: true };
    let inner = flat_inner(paged_tiny_config(Some(false)));
    let error = inner.plan_paged_prefill(4, 0, 4, 4, settings).unwrap_err();
    assert_eq!(error, PrefillError::EmptySuffix);
    assert_eq!(error.message(), "run_paged_prefill_chunk called with empty suffix");
    let error = inner.plan_paged_prefill(4, 1, 3, 4, settings).unwrap_err();
    assert_eq!(error, PrefillError::PrimedBeyondCached { primed: 4, cached: 3 });
    assert_eq!(
        error.message(),
        "Gemma4 paged prefill sliding_primed_prefix_len 4 exceeds cached_prefix_len 3"
    );
    let error = inner.plan_paged_prefill(9, 4, u32::MAX - 1, u32::MAX - 1, settings).unwrap_err();
    assert_eq!(error, PrefillError::PositionOverflow);
    assert_eq!(error.message(), "Gemma4 paged prefill token position overflow");
    let error =
        inner.plan_paged_prefill(u32::MAX as usize + 1, 4, 0, 0, settings).unwrap_err();
    assert_eq!(error, PrefillError::TooManyTokens);
    assert_eq!(error.message(), "Gemma4 paged prefill token count exceeds u32");

    let mut cfg = paged_tiny_config(Some(false));
    cfg.num_attention_heads = -2;
    let inner = flat_inner(cfg);
    let error = inner.plan_paged_prefill(9, 4, 0, 0, settings).unwrap_err();
    assert_eq!(error, PrefillError::QueryHeads { num_attention_heads: -2 });
    assert_eq!(error.message(), "Gemma4 paged prefill invalid num_attention_heads=-2");
    let error = inner.plan_paged_prefill(9, 4, 4, 2, settings).unwrap_err();
    assert_eq!(error, PrefillError::RestoreQueryHeads { num_attention_heads: -2 });
    assert_eq!(error.message(), "Gemma4 sliding restore invalid num_attention_heads=-2");

    let mut cfg = paged_tiny_config(Some(false));
    cfg.global_head_dim = Some(-3);
    let inner = flat_inner(cfg);
    let error = inner.plan_paged_prefill(9, 4, 0, 0, settings).unwrap_err();
    assert_eq!(error, PrefillError::GlobalHeadDim { head_dim: -3 });
    assert_eq!(error.message(), "Gemma4 paged prefill invalid global head_dim=-3");
    let error = inner.plan_paged_prefill(9, 1, 4, 2, settings).unwrap_err();
    assert_eq!(error, PrefillError::RestoreGlobalHeadDim { head_dim: -3 });
    assert_eq!(error.message(), "Gemma4 sliding restore invalid global head_dim=-3");
}

#[test]
fn spans_cover_a_prompt() {
    assert_eq!(
        uniform_spans(5, 2),
        vec![
            TokenSpan { start: 0, end: 2 },
            TokenSpan { start: 2, end: 4 },
            TokenSpan { start: 4, end: 5 },
        ]
    );
    assert_eq!(flat_prefill_spans(1), vec![]);
    assert_eq!(flat_prefill_spans(0), vec![]);
    assert_eq!(
        flat_prefill_spans(1025),
        vec![TokenSpan { start: 0, end: 512 }, TokenSpan { start: 512, end: 1024 }]
    );
}

#[test]
fn media_prompt_with_images_runs_as_one_span() {
    let mut cfg = paged_tiny_config(None);
    cfg.is_unified = true;
    cfg.use_bidirectional_attention = Some("vision".to_string());
    let tokens = [2u32, 258880, 258880, 9, 10];
    let plan = plan_vlm_prefill(&cfg, &tokens, 2).unwrap();
    assert!(plan.images);
    assert_eq!(plan.spans, vec![TokenSpan { start: 0, end: 4 }]);
    assert_eq!(
        vlm_prefill_steps(&plan, 5),
        vec![
            PrefillStep::Record { start: 0, end: 4 },
            PrefillStep::RunEmbeds { start: 0, end: 4, first_position: 0, images: true },
            PrefillStep::EvalPool,
            PrefillStep::EvalCaches,
            PrefillStep::Record { start: 4, end: 5 },
            PrefillStep::RunEmbeds { start: 4, end: 5, first_position: 4, images: false },
            PrefillStep::EvalPool,
            PrefillStep::Logits,
        ]
    );

    cfg.num_kv_shared_layers = Some(1);
    let error = plan_vlm_prefill(&cfg, &tokens, 2).unwrap_err();
    assert_eq!(error, PrefillError::OverlayWithSharedLayers);
    assert!(error.message().contains("unsupported with KV-shared layers"));
}

#[test]
fn media_prompt_without_overlay_runs_in_spans() {
    let cfg = paged_tiny_config(None);
    let tokens = [2u32, 258880, 258880, 9, 10];
    let plan = plan_vlm_prefill(&cfg, &tokens, 3).unwrap();
    assert!(!plan.images);
    assert_eq!(
        plan.spans,
        vec![TokenSpan { start: 0, end: 3 }, TokenSpan { start: 3, end: 4 }]
    );
    let error = plan_vlm_prefill(&cfg, &[], 3).unwrap_err();
    assert_eq!(error, PrefillError::EmptyPrompt);
    assert_eq!(error.message(), "run_paged_vlm_prefill called with empty prompt");
}

#[test]
fn splitting_twice_is_splitting_once() {
    let plan = || gemma4_paged_prefill_body_chunk_plan(4, 10, 100, 16, 512, false).unwrap();
    for boundary in 98..=112 {
        let mut once = plan();
        gemma4_split_body_chunk_plan_at_position(&mut once, boundary);
        let mut twice = plan();
        gemma4_split_body_chunk_plan_at_position(&mut twice, boundary);
        gemma4_split_body_chunk_plan_at_position(&mut twice, boundary);
        assert_eq!(once, twice, "at {boundary}");
        let inside = plan().iter().any(|c| {
            c.first_position < boundary && (boundary as usize) < c.first_position as usize + c.len
        });
        assert_eq!(once.len(), plan().len() + usize::from(inside));
        if !inside {
            assert_eq!(once, plan());
        }
    }
    let mut cut = plan();
    gemma4_split_body_chunk_plan_at_position(&mut cut, 105);
    let parts: Vec<(usize, usize, u32)> =
        cut.iter().map(|c| (c.start, c.len, c.first_position)).collect();
    assert_eq!(parts, vec![(0, 4, 100), (4, 1, 104), (5, 3, 105), (8, 2, 108)]);
}
