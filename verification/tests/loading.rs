//! Loading a checkpoint: its configuration, its tensors, and what is refused.

use gemma4::config::Gemma4Config;
use gemma4::config::UnifiedVisionConfig;
use gemma4::config_file::load_config;
use gemma4::config_file::parse_config;
use gemma4::config_file::probe_draft_kind;
use gemma4::config_file::ConfigError;
use gemma4::config_file::DraftKind;
use gemma4::config_file::EXPECTED_DRAFT;
use gemma4::experts::fuse_split_experts;
use gemma4::experts::merge_split_experts_into_fused;
use gemma4::experts::needs_ple_sharding;
use gemma4::experts::ple_shard_byte_budget;
use gemma4::experts::split_expert_quant;
use gemma4::experts::total_weight_bytes;
use gemma4::experts::ArrayConcat;
use gemma4::experts::PerLayerMode;
use gemma4::experts::PerLayerQuant;
use gemma4::install::apply_rules;
use gemma4::install::is_mxfp8_checkpoint;
use gemma4::install::resolve_default_mode;
use gemma4::install::resolve_packed_embed_params;
use gemma4::install::How;
use gemma4::install::Install;
use gemma4::install::LoadError;
use gemma4::install::LoadErrorKind;
use gemma4::install::QuantSettings;
use gemma4::install::Rule;
use gemma4::install::RuleKind;
use gemma4::install::MXFP8_BITS;
use gemma4::install::MXFP8_GROUP_SIZE;
use gemma4::install_plan::apply_audio_weights;
use gemma4::install_plan::apply_vision_weights;
use gemma4::install_plan::apply_weights;
use gemma4::install_plan::quant_settings;
use gemma4::install_plan::text_rules;
use gemma4::install_plan::vision_rules;
use gemma4::load::plan_install;
use gemma4::load::prepare_quant;
use gemma4::load::prepare_weights;
use gemma4::table::Table;
use gemma4::weights::sanitize_weights;
use gemma4::weights::validate_required_weights;
use gemma4::weights::DType;
use gemma4::weights::TensorInfo;

fn tensor(array: u64, dtype: DType, last_dim: i32) -> TensorInfo {
    TensorInfo { array, dtype, last_dim: Some(last_dim), nbytes: 64 }
}

fn bf16(array: u64) -> TensorInfo {
    tensor(array, DType::BFloat16, 16)
}

fn table(entries: &[(&str, TensorInfo)]) -> Table<TensorInfo> {
    let mut t = Table::new();
    for (key, info) in entries {
        t.insert(key.to_string(), *info);
    }
    t
}

fn plq(bits: i32, group_size: i32, mode: PerLayerMode) -> PerLayerQuant {
    PerLayerQuant { bits, group_size, mode, input_amax: None }
}

fn minimal_config(extra: &str) -> Gemma4Config {
    parse_config(&format!(
        r#"{{
            "vocab_size": 8,
            "hidden_size": 16,
            "num_hidden_layers": 1,
            "num_attention_heads": 1,
            "num_key_value_heads": 1,
            "head_dim": 16,
            "intermediate_size": 16,
            "rms_norm_eps": 1e-6,
            "max_position_embeddings": 64,
            {extra}
            "use_block_paged_cache": false
        }}"#
    ))
    .expect("minimal Gemma4Config")
}

fn untied() -> Gemma4Config {
    minimal_config(r#""tie_word_embeddings": false,"#)
}

fn apply(params: &Table<TensorInfo>, config: &Gemma4Config, bits: i32) -> Result<Vec<Install>, LoadError> {
    let quant = quant_settings(params, bits, 64, None, Table::new());
    apply_weights(params, config, &quant)
}

/// Applies a checkpoint that has an output projection where the test gives none.
fn apply_with_head(mut params: Table<TensorInfo>, config: &Gemma4Config) -> Result<Vec<Install>, LoadError> {
    if !params.contains_key("lm_head.weight") {
        params.insert("lm_head.weight".to_string(), bf16(99));
    }
    apply(&params, config, 4)
}

fn add_quant_group(p: &mut Table<TensorInfo>, base: &str) {
    p.insert(format!("{base}.weight"), tensor(1, DType::Uint32, 2));
    p.insert(format!("{base}.scales"), tensor(2, DType::BFloat16, 1));
}

#[test]
fn parse_config_detects_unified_text_model() {
    let cfg = parse_config(
        r#"{
            "model_type": "gemma4_unified",
            "architectures": ["Gemma4UnifiedForConditionalGeneration"],
            "tie_word_embeddings": true,
            "text_config": {
                "model_type": "gemma4_unified_text",
                "hidden_size": 3840,
                "num_hidden_layers": 48,
                "num_attention_heads": 16,
                "num_key_value_heads": 8,
                "head_dim": 256,
                "intermediate_size": 15360,
                "use_bidirectional_attention": "vision"
            },
            "vision_config": {
                "model_type": "gemma4_unified_vision",
                "model_patch_size": 48,
                "mm_embed_dim": 3840,
                "mm_posemb_size": 1120,
                "num_soft_tokens": 280,
                "output_proj_dims": 3840,
                "patch_size": 16,
                "pooling_kernel_size": 3,
                "rms_norm_eps": 1e-6
            },
            "image_token_id": 258880,
            "audio_token_id": 258881,
            "boa_token_id": 256000,
            "eoa_token_index": 258883,
            "audio_config": {
                "model_type": "gemma4_unified_audio",
                "audio_embed_dim": 640,
                "audio_samples_per_token": 640,
                "output_proj_dims": 640,
                "hidden_size": 640,
                "rms_norm_eps": 1e-6
            }
        }"#,
    )
    .expect("parse_config");
    assert!(cfg.is_unified, "gemma4_unified must set is_unified=true");
    assert!(cfg.has_audio, "audio_config presence must set has_audio");
    assert_eq!(cfg.audio_token_id, Some(258881));
    assert_eq!(cfg.boa_token_id, Some(256000));
    assert_eq!(cfg.eoa_token_id, Some(258883), "eoa_token_id must parse from eoa_token_index");
    assert_eq!(cfg.audio_samples_per_token, Some(640));
    assert_eq!(
        cfg.use_bidirectional_attention.as_deref(),
        Some("vision"),
        "use_bidirectional_attention must round-trip from text_config"
    );
    assert!(
        cfg.vision_config.is_none(),
        "unified checkpoint must load text-only (vision_config None)"
    );
    let uvc = cfg
        .unified_vision_config
        .as_ref()
        .expect("unified checkpoint must populate unified_vision_config");
    assert_eq!(uvc.model_patch_size, Some(48));
    assert_eq!(uvc.mm_embed_dim, Some(3840));
    assert_eq!(uvc.mm_posemb_size, Some(1120));
    assert_eq!(uvc.num_soft_tokens, Some(280));
    assert_eq!(uvc.output_proj_dims, Some(3840));
    assert_eq!(uvc.patch_size, Some(16));
    assert_eq!(uvc.pooling_kernel_size, Some(3));
    // The sections that the text model reads.
    assert_eq!(cfg.hidden_size, 3840);
    assert_eq!(cfg.num_hidden_layers, 48);
    assert_eq!(cfg.layer_types.len(), 48);
}

#[test]
fn parse_config_plain_gemma4_has_no_unified_vision_config() {
    let cfg = parse_config(
        r#"{ "model_type": "gemma4_text", "text_config": { "hidden_size": 3840 } }"#,
    )
    .expect("parse_config");
    assert!(
        cfg.unified_vision_config.is_none(),
        "plain gemma4 must leave unified_vision_config None"
    );
}

#[test]
fn dspark_draft_conflicts_with_explicit_paged_cache() {
    let err = load_config(
        r#"{
            "model_type": "gemma4_text",
            "text_config": { "hidden_size": 64 },
            "use_block_paged_cache": true
        }"#,
        true,
        None,
    )
    .expect_err("explicit paged + draft must be rejected");
    let reason = err.message();
    assert!(
        reason.contains("use_block_paged_cache=true"),
        "error must name the conflicting flag, got: {reason}"
    );
    assert!(
        reason.contains("draft_model_path"),
        "error must name the draft option, got: {reason}"
    );
}

#[test]
fn dspark_draft_with_unset_paged_flag_passes_the_guard() {
    let cfg = load_config(
        r#"{ "model_type": "gemma4_text", "text_config": { "hidden_size": 64 } }"#,
        true,
        None,
    )
    .expect("unset paged flag must not trip the conflict guard");
    assert_eq!(cfg.use_block_paged_cache, Some(false));
}

#[test]
fn draft_probe_routes_assistant_model_type_to_assistant_loader() {
    assert_eq!(
        probe_draft_kind(
            Some("gemma4_unified_assistant"),
            &vec!["Gemma4UnifiedAssistantForCausalLM".to_string()]
        ),
        Some(DraftKind::Assistant)
    );
}

#[test]
fn draft_probe_routes_dspark_architecture_to_dspark_loader() {
    assert_eq!(
        probe_draft_kind(Some("gemma4_text"), &vec!["Gemma4DSparkModel".to_string()]),
        Some(DraftKind::Dspark)
    );
}

#[test]
fn draft_probe_unknown_kind_errors_naming_both_kinds() {
    assert_eq!(
        probe_draft_kind(Some("gemma4_text"), &vec!["SomeOtherModel".to_string()]),
        None
    );
    assert!(
        EXPECTED_DRAFT.contains("gemma4_assistant")
            && EXPECTED_DRAFT.contains("gemma4_unified_assistant")
            && EXPECTED_DRAFT.contains("Gemma4DSparkModel"),
        "the error must name both accepted draft kinds, got: {EXPECTED_DRAFT}"
    );
}

#[test]
fn parse_config_unified_via_architecture_only() {
    let cfg = parse_config(
        r#"{
            "architectures": ["Gemma4UnifiedForConditionalGeneration"],
            "text_config": { "hidden_size": 3840 }
        }"#,
    )
    .expect("parse_config");
    assert!(cfg.is_unified, "architecture alone must set is_unified=true");
}

#[test]
fn parse_config_plain_gemma4_is_not_unified() {
    let cfg = parse_config(
        r#"{ "model_type": "gemma4_text", "text_config": { "hidden_size": 3840 } }"#,
    )
    .expect("parse_config");
    assert!(!cfg.is_unified, "plain gemma4 must keep is_unified=false");
    assert_eq!(cfg.use_bidirectional_attention, None);
    assert!(!cfg.has_audio, "plain gemma4 must keep has_audio=false");
    assert_eq!(cfg.audio_token_id, None);
    assert_eq!(cfg.boa_token_id, None);
    assert_eq!(cfg.eoa_token_id, None);
    assert_eq!(cfg.audio_samples_per_token, None);
}

#[test]
fn parse_config_non_unified_audio_config_stays_inert() {
    for audio_config in [
        r#"{ "model_type": "gemma4_unified_audio", "audio_embed_dim": 1536 }"#,
        "null",
    ] {
        let cfg = parse_config(&format!(
            r#"{{
                "model_type": "gemma4",
                "text_config": {{ "hidden_size": 3840 }},
                "audio_config": {audio_config},
                "audio_token_id": 258881
            }}"#
        ))
        .expect("parse_config");
        assert!(!cfg.is_unified, "model_type gemma4 must stay non-unified");
        assert!(
            !cfg.has_audio,
            "non-unified gemma4 must keep has_audio=false regardless of audio_config"
        );
        assert_eq!(cfg.audio_token_id, None, "audio ids must stay None");
        assert_eq!(cfg.boa_token_id, None);
        assert_eq!(cfg.eoa_token_id, None);
        assert_eq!(cfg.audio_samples_per_token, None);
    }
}

#[test]
fn sanitize_weights_preserves_f32_scales_only_for_int8_sym8_siblings() {
    let config = untied();
    let mut params = table(&[
        ("layers.0.self_attn.q_proj.weight", tensor(1, DType::Int8, 16)),
        ("layers.0.self_attn.q_proj.scales", tensor(2, DType::Float32, 4)),
        ("layers.0.self_attn.k_proj.weight", tensor(3, DType::Uint32, 2)),
        ("layers.0.self_attn.k_proj.scales", tensor(4, DType::Float32, 1)),
        ("norm.weight", tensor(5, DType::Float32, 16)),
    ]);
    let sanitized = sanitize_weights(&mut params, &config);
    let dt = |k: &str| sanitized.params.get(k).unwrap().dtype;
    assert_eq!(
        dt("layers.0.self_attn.q_proj.scales"),
        DType::Float32,
        "sym8 .scales (Int8 sibling weight) must stay f32"
    );
    assert_eq!(dt("layers.0.self_attn.q_proj.weight"), DType::Int8);
    assert_eq!(
        dt("layers.0.self_attn.k_proj.scales"),
        DType::BFloat16,
        "affine .scales (Uint32 sibling weight) must keep the bf16 cast"
    );
    assert_eq!(dt("norm.weight"), DType::BFloat16);
    assert_eq!(sanitized.casts, vec![4, 5]);
}

#[test]
fn partial_dense_mlp_quant_group_fails_loud() {
    let config = untied();

    let mut params = Table::new();
    add_quant_group(&mut params, "layers.0.mlp.gate_proj");
    params.insert("layers.0.mlp.up_proj.weight".to_string(), bf16(3));
    params.insert("layers.0.mlp.down_proj.weight".to_string(), bf16(4));
    let msg = apply_with_head(params, &config)
        .expect_err("partial MLP quant group (gate-only) must fail loud")
        .message();
    assert!(
        msg.contains("up_proj") && msg.contains("down_proj") && msg.contains("layers.0.mlp"),
        "error must name the projections missing their quant group, got: {msg}"
    );
    assert!(msg.contains("for: up_proj, down_proj —"), "got: {msg}");

    let mut params = Table::new();
    params.insert("layers.0.mlp.gate_proj.weight".to_string(), bf16(3));
    add_quant_group(&mut params, "layers.0.mlp.up_proj");
    add_quant_group(&mut params, "layers.0.mlp.down_proj");
    let msg = apply_with_head(params, &config)
        .expect_err("partial MLP quant group (gate dense) must fail loud")
        .message();
    assert!(
        msg.contains("gate_proj") && !msg.contains("up_proj,"),
        "error must name exactly the projection missing its quant group, got: {msg}"
    );

    let params = table(&[
        ("layers.0.mlp.gate_proj.weight", bf16(3)),
        ("layers.0.mlp.up_proj.weight", bf16(4)),
        ("layers.0.mlp.down_proj.weight", bf16(5)),
    ]);
    let plan = apply_with_head(params, &config).expect("all-dense MLP must keep loading");
    assert_eq!(plan.iter().filter(|i| matches!(i.how, How::Dense { .. })).count(), 4);

    let mut params = Table::new();
    add_quant_group(&mut params, "layers.0.mlp.gate_proj");
    add_quant_group(&mut params, "layers.0.mlp.up_proj");
    add_quant_group(&mut params, "layers.0.mlp.down_proj");
    let plan = apply_with_head(params, &config).expect("all-quantized MLP must keep loading");
    assert_eq!(plan.iter().filter(|i| matches!(i.how, How::Quantized { .. })).count(), 3);
}

#[test]
fn scales_only_mlp_group_fails_loud_not_random() {
    let config = untied();

    let mut params = Table::new();
    for proj in ["gate_proj", "up_proj", "down_proj"] {
        params.insert(format!("layers.0.mlp.{proj}.scales"), bf16(1));
    }
    let msg = apply_with_head(params, &config)
        .expect_err("all-scales-only MLP group must fail loud, not random")
        .message();
    assert!(
        msg.contains("layers.0.mlp")
            && msg.contains("gate_proj.scales")
            && msg.contains("up_proj.scales")
            && msg.contains("down_proj.scales"),
        "error must name the MLP and every orphaned sidecar, got: {msg}"
    );

    let params = table(&[
        ("layers.0.mlp.gate_proj.scales", bf16(1)),
        ("layers.0.mlp.up_proj.weight", bf16(2)),
        ("layers.0.mlp.down_proj.weight", bf16(3)),
    ]);
    let msg = apply_with_head(params, &config)
        .expect_err("single scales-only projection must fail loud")
        .message();
    assert!(
        msg.contains("layers.0.mlp.gate_proj.scales"),
        "error must name the orphaned sidecar, got: {msg}"
    );

    let params = table(&[
        ("layers.0.mlp.gate_proj.weight", bf16(1)),
        ("layers.0.mlp.up_proj.weight", bf16(2)),
        ("layers.0.mlp.down_proj.weight", bf16(3)),
    ]);
    apply_with_head(params, &config).expect("all-dense MLP must keep loading");
}

#[test]
fn vision_embedding_projection_stripped_sidecar_fails_loud() {
    let config = minimal_config(
        r#""tie_word_embeddings": false,
        "vision_config": {
            "hidden_size": 16,
            "intermediate_size": 16,
            "num_hidden_layers": 1,
            "num_attention_heads": 1,
            "num_key_value_heads": 1,
            "head_dim": 16,
            "rms_norm_eps": 1e-6,
            "patch_size": 2,
            "position_embedding_size": 4,
            "default_output_length": 4,
            "pooling_kernel_size": 1,
            "use_clipped_linears": false,
            "rope_theta": 100.0,
            "standardize": false
        },"#,
    );
    let run = |params: &Table<TensorInfo>| {
        let quant = quant_settings(params, 8, 64, None, Table::new());
        apply_vision_weights(params, &config, &quant, 1)
    };

    let params =
        table(&[("embed_vision.embedding_projection.weight", tensor(1, DType::Uint32, 16))]);
    let msg = run(&params)
        .expect_err("non-float projection weight without .scales must fail loud")
        .message();
    assert!(
        msg.contains("embed_vision.embedding_projection.weight") && msg.contains("Uint32"),
        "error must name the key and the non-float dtype, got: {msg}"
    );

    let params = table(&[("embed_vision.embedding_projection.weight", bf16(1))]);
    let plan = run(&params).expect("bf16 dense projection must keep loading");
    assert_eq!(plan.len(), 1);
    assert_eq!(plan[0].how, How::Dense { array: 1 });
}

const TEXT_KEYS: [&str; 16] = [
    "embed_tokens.weight",
    "norm.weight",
    "layers.0.self_attn.q_proj.weight",
    "layers.0.self_attn.k_proj.weight",
    "layers.0.self_attn.v_proj.weight",
    "layers.0.self_attn.o_proj.weight",
    "layers.0.self_attn.q_norm.weight",
    "layers.0.self_attn.k_norm.weight",
    "layers.0.layer_scalar",
    "layers.0.mlp.gate_proj.weight",
    "layers.0.mlp.up_proj.weight",
    "layers.0.mlp.down_proj.weight",
    "layers.0.input_layernorm.weight",
    "layers.0.post_attention_layernorm.weight",
    "layers.0.pre_feedforward_layernorm.weight",
    "layers.0.post_feedforward_layernorm.weight",
];

fn dummies(keys: &[&str]) -> Table<TensorInfo> {
    let mut t = Table::new();
    for (i, key) in keys.iter().enumerate() {
        t.insert(key.to_string(), bf16(i as u64));
    }
    t
}

#[test]
fn validate_required_weights_rejects_scales_only_groups() {
    let config = untied();
    let full = || {
        let mut t = dummies(&TEXT_KEYS);
        t.insert("lm_head.weight".to_string(), bf16(50));
        t
    };
    validate_required_weights(&full(), &config).expect("complete dense set must validate");

    let mut p = full();
    p.insert("layers.0.mlp.gate_proj.scales".to_string(), bf16(51));
    validate_required_weights(&p, &config)
        .expect("quantized group (weight + scales sidecar) must validate");

    let mut p = full();
    p.remove("layers.0.mlp.gate_proj.weight");
    p.insert("layers.0.mlp.gate_proj.scales".to_string(), bf16(51));
    let msg = validate_required_weights(&p, &config)
        .expect_err("a lone .scales must no longer satisfy a required .weight")
        .message();
    assert!(
        msg.contains("layers.0.mlp.gate_proj.weight"),
        "error must name the missing .weight, got: {msg}"
    );
}

#[test]
fn validate_rejects_untied_lm_head_missing_weight() {
    {
        let mut p = dummies(&TEXT_KEYS);
        p.insert("lm_head.scales".to_string(), bf16(50));
        p.insert("lm_head.biases".to_string(), bf16(51));
        let msg = validate_required_weights(&p, &untied())
            .expect_err("untied lm_head with only .scales must fail validation")
            .message();
        assert!(msg.contains("lm_head.weight"), "error must name lm_head.weight, got: {msg}");
    }
    {
        let p = table(&[("embed_tokens.weight", bf16(1)), ("lm_head.scales", bf16(2))]);
        let msg = apply(&p, &untied(), 4)
            .expect_err("apply_weights must fail closed on untied lm_head with no .weight")
            .message();
        assert!(msg.contains("lm_head"), "error must mention lm_head, got: {msg}");
    }
    {
        let tied = minimal_config(r#""tie_word_embeddings": true,"#);
        validate_required_weights(&dummies(&TEXT_KEYS), &tied)
            .expect("tied model without lm_head.weight must still validate");
    }
}

#[test]
fn moe_expert_dense_fallback_rejects_non_float() {
    let config = minimal_config(
        r#""tie_word_embeddings": false,
        "enable_moe_block": true,
        "num_experts": 2,
        "top_k_experts": 1,
        "moe_intermediate_size": 4,"#,
    );
    for key in [
        "layers.0.experts.gate_up_proj",
        "layers.0.experts.gate_up_proj.weight",
        "layers.0.experts.down_proj",
        "layers.0.router.proj.weight",
    ] {
        let params = table(&[(key, tensor(1, DType::Int8, 16))]);
        let msg = match apply_with_head(params, &config) {
            Err(e) => e.message(),
            Ok(_) => panic!("int8 '{key}' on a dense route must fail loud"),
        };
        assert!(
            msg.to_lowercase().contains("int8") && msg.contains(key),
            "error must name the key and the non-float dtype, got: {msg}"
        );
    }

    let params = table(&[
        ("layers.0.experts.gate_up_proj.weight", bf16(1)),
        ("layers.0.experts.down_proj.weight", bf16(2)),
        ("layers.0.router.proj.weight", bf16(3)),
    ]);
    apply_with_head(params, &config).expect("dense bf16 MoE weights must keep loading");
}

#[test]
fn lm_head_quantized_and_dense_install() {
    let mut overrides = Table::new();
    overrides.insert("lm_head".to_string(), plq(2, 64, PerLayerMode::Affine));
    let settings = |params: &Table<TensorInfo>, overrides: Table<PerLayerQuant>| {
        quant_settings(params, 4, 64, None, overrides)
    };
    let head = |plan: &Vec<Install>| -> Option<How> {
        plan.iter().find(|i| i.name.starts_with("lm_head")).map(|i| i.how)
    };

    let params = table(&[
        ("lm_head.weight", tensor(1, DType::Uint32, 4)),
        ("lm_head.scales", tensor(2, DType::BFloat16, 1)),
        ("lm_head.biases", tensor(3, DType::BFloat16, 1)),
    ]);
    let plan = apply_weights(&params, &untied(), &settings(&params, overrides))
        .expect("quantized lm_head must load");
    assert_eq!(
        head(&plan),
        Some(How::Quantized { quant: plq(2, 64, PerLayerMode::Affine) }),
        "quantized lm_head must install quantized"
    );

    let params = table(&[("lm_head.weight", bf16(1))]);
    let plan = apply_weights(&params, &untied(), &settings(&params, Table::new()))
        .expect("dense lm_head must load");
    assert_eq!(
        head(&plan),
        Some(How::Dense { array: 1 }),
        "dense lm_head must install dense"
    );

    let tied = minimal_config(r#""tie_word_embeddings": true,"#);
    let params = table(&[
        ("lm_head.weight", tensor(1, DType::Uint32, 4)),
        ("lm_head.scales", tensor(2, DType::BFloat16, 1)),
    ]);
    let mut overrides = Table::new();
    overrides.insert("lm_head".to_string(), plq(2, 64, PerLayerMode::Affine));
    let plan = apply_weights(&params, &tied, &settings(&params, overrides))
        .expect("tied lm_head must load without error");
    assert_eq!(head(&plan), None, "tied lm_head must stay out");
}

#[test]
fn merge_split_experts_uses_bare_experts_prefix() {
    let mxfp8 = plq(8, 32, PerLayerMode::Mxfp8);
    let mut settings = Table::new();
    settings.insert("layers.0.experts.switch_glu.gate_proj".to_string(), mxfp8);
    settings.insert("layers.0.experts.switch_glu.up_proj".to_string(), mxfp8);
    settings.insert("layers.0.experts.switch_glu.down_proj".to_string(), mxfp8);

    // Equal settings of gate and up come to the same together.
    let (gate, up) = split_expert_quant(&settings, 0);
    assert_eq!((gate, up), (Some(mxfp8), Some(mxfp8)));
    merge_split_experts_into_fused(&mut settings, &vec![gate]);

    assert_eq!(settings.get("layers.0.experts.gate_up_proj"), Some(mxfp8));
    assert_eq!(settings.get("layers.0.experts.down_proj"), Some(mxfp8));
    assert!(!settings.contains_key("layers.0.mlp.experts.gate_up_proj"));
    assert!(!settings.contains_key("layers.0.mlp.experts.down_proj"));
}

#[test]
fn validate_required_weights_unified_vision_fails_closed() {
    let config = Gemma4Config {
        unified_vision_config: Some(UnifiedVisionConfig {
            model_patch_size: Some(48),
            mm_embed_dim: Some(3840),
            mm_posemb_size: Some(1120),
            num_soft_tokens: Some(280),
            output_proj_dims: Some(3840),
            patch_size: Some(16),
            pooling_kernel_size: Some(3),
            rms_norm_eps: None,
        }),
        ..untied()
    };
    let vision_keys = [
        "vision_embedder.pos_embedding",
        "vision_embedder.patch_ln1.weight",
        "vision_embedder.patch_ln1.bias",
        "vision_embedder.patch_ln2.weight",
        "vision_embedder.patch_ln2.bias",
        "vision_embedder.pos_norm.weight",
        "vision_embedder.pos_norm.bias",
        "vision_embedder.patch_dense.weight",
        "vision_embedder.patch_dense.bias",
        "embed_vision.embedding_projection.weight",
    ];
    let full = || {
        let mut t = dummies(&TEXT_KEYS);
        t.insert("lm_head.weight".to_string(), bf16(50));
        for key in vision_keys {
            t.insert(key.to_string(), bf16(60));
        }
        t
    };
    validate_required_weights(&full(), &config)
        .expect("complete unified-vision key set must validate");

    for missing in vision_keys {
        let mut p = full();
        p.remove(missing);
        let msg = validate_required_weights(&p, &config).unwrap_err().message();
        assert!(
            msg.contains(missing),
            "missing unified vision key '{missing}' must fail closed and name the key, got: {msg}"
        );
    }

    let text_only = untied();
    assert!(text_only.unified_vision_config.is_none());
    let mut p = full();
    for key in vision_keys {
        p.remove(key);
    }
    validate_required_weights(&p, &text_only)
        .expect("text-only config must not require unified vision keys");
}

#[test]
fn resolve_packed_embed_mxfp8_forces_mx_constants() {
    let packed = resolve_packed_embed_params(
        "embed_tokens",
        plq(4, 64, PerLayerMode::Mxfp8),
        tensor(1, DType::Uint32, 16),
        tensor(2, DType::Uint8, 2),
        None,
    )
    .expect("mxfp8 with affine-default bits must resolve, not error");
    match packed {
        How::Packed { group_size, bits, mxfp8, biases } => {
            assert_eq!(bits, MXFP8_BITS, "mxfp8 bits must be forced to 8");
            assert_eq!(group_size, MXFP8_GROUP_SIZE, "mxfp8 group_size must be forced to 32");
            assert!(mxfp8);
            assert!(biases.is_none(), "mxfp8 carries no biases");
        }
        other => panic!("not packed: {other:?}"),
    }
}

#[test]
fn resolve_packed_embed_mxfp4_shapes_resolved_to_mxfp8_fails_loud() {
    let err = resolve_packed_embed_params(
        "embed_tokens",
        plq(4, 32, PerLayerMode::Mxfp8),
        tensor(1, DType::Uint32, 8),
        tensor(2, DType::Uint8, 2),
        None,
    )
    .expect_err("mxfp4-shaped table mis-resolved to mxfp8 must fail loud");
    let reason = err.message();
    assert!(
        reason.contains("mxfp8") && reason.contains("mxfp4"),
        "error names the mxfp8/mxfp4 mismatch: {reason}"
    );
    assert_eq!(
        reason,
        "gemma4 embed_tokens load: quant mode resolved to mxfp8 but the packed weight (8 u32 cols) and scales (2 groups) are not consistent with 8-bit / group_size-32 packing (32 != 64); the table is most likely mxfp4/nvfp4 mis-resolved to mxfp8 from a mode-less config — refusing to load with forced mxfp8 constants"
    );
}

#[test]
fn resolve_packed_embed_affine_passes_plq_params_and_biases() {
    let packed = resolve_packed_embed_params(
        "embed_tokens",
        plq(8, 32, PerLayerMode::Affine),
        tensor(1, DType::Uint32, 16),
        tensor(2, DType::BFloat16, 2),
        Some(tensor(3, DType::BFloat16, 2)),
    )
    .expect("affine embedding must resolve");
    assert_eq!(packed, How::Packed { group_size: 32, bits: 8, mxfp8: false, biases: Some(3) });
}

#[test]
fn resolve_packed_embed_mxfp8_with_biases_fails_loud() {
    let err = resolve_packed_embed_params(
        "embed_tokens",
        plq(8, 32, PerLayerMode::Mxfp8),
        tensor(1, DType::Uint32, 16),
        tensor(2, DType::Uint8, 2),
        Some(tensor(3, DType::BFloat16, 2)),
    )
    .expect_err("mxfp8 + biases must fail loud");
    assert!(err.message().contains("mxfp8"), "error mentions mxfp8: {}", err.message());
    assert_eq!(err.kind, LoadErrorKind::PackedBiases);
}

#[test]
fn resolve_packed_embed_affine_with_uint8_scales_fails_loud() {
    let err = resolve_packed_embed_params(
        "embed_tokens",
        plq(8, 32, PerLayerMode::Affine),
        tensor(1, DType::Uint32, 16),
        tensor(2, DType::Uint8, 2),
        None,
    )
    .expect_err("affine + uint8 scales must fail loud");
    assert!(err.message().contains("affine"), "error mentions affine: {}", err.message());
    assert_eq!(err.kind, LoadErrorKind::PackedAffineScales);
}

#[test]
fn packed_embeddings_of_other_forms_are_refused() {
    let weight = tensor(1, DType::Uint32, 16);
    let resolve = |mode, weight, scales| {
        resolve_packed_embed_params("embed_tokens", plq(8, 32, mode), weight, scales, None)
            .expect_err("must be refused")
    };
    let err = resolve(PerLayerMode::Mxfp8, weight, tensor(2, DType::BFloat16, 2));
    assert_eq!(err.kind, LoadErrorKind::PackedScales);
    assert!(err.message().contains("'embed_tokens.scales' is not uint8 (E8M0)"));
    let no_dim = TensorInfo { last_dim: None, ..weight };
    let err = resolve(PerLayerMode::Mxfp8, no_dim, tensor(2, DType::Uint8, 2));
    assert_eq!(err.kind, LoadErrorKind::PackedWeightRank);
    assert_eq!(err.message(), "gemma4 embed_tokens load: weight is 0-rank");
    let scalar = TensorInfo { last_dim: None, ..tensor(2, DType::Uint8, 2) };
    let err = resolve(PerLayerMode::Mxfp8, weight, scalar);
    assert_eq!(err.kind, LoadErrorKind::PackedScalesRank);
    assert_eq!(err.message(), "gemma4 embed_tokens load: scales is 0-rank");
    let err = resolve(PerLayerMode::Nvfp4, weight, tensor(2, DType::Uint8, 2));
    assert_eq!(err.kind, LoadErrorKind::PackedMode { mode: PerLayerMode::Nvfp4 });
    assert!(err.message().contains("quant mode Nvfp4 is not supported"));
}

#[test]
fn int8_storage_goes_in_as_sym8_only() {
    let mut params = table(&[
        ("layers.0.self_attn.q_proj.weight", tensor(1, DType::Int8, 16)),
        ("layers.0.self_attn.q_proj.scales", tensor(2, DType::Float32, 4)),
    ]);
    let err = apply_with_head(
        table(&[
            ("layers.0.self_attn.q_proj.weight", tensor(1, DType::Int8, 16)),
            ("layers.0.self_attn.q_proj.scales", tensor(2, DType::Float32, 4)),
        ]),
        &untied(),
    )
    .expect_err("int8 under affine settings must be refused");
    assert_eq!(err.kind, LoadErrorKind::Int8Drift { mode: PerLayerMode::Affine });
    assert_eq!(err.name, "layers.0.self_attn.q_proj");
    assert!(err.message().contains("is int8 (sym8 storage)"));

    let mut overrides = Table::new();
    overrides.insert("layers.0.self_attn.q_proj".to_string(), plq(8, 0, PerLayerMode::Sym8));
    let quant = QuantSettings { default: plq(4, 64, PerLayerMode::Affine), overrides };
    let rules =
        vec![Rule { kind: RuleKind::Linear, name: "layers.0.self_attn.q_proj".to_string() }];
    let plan = apply_rules(&params, &quant, &rules).expect("sym8 settings must load");
    assert_eq!(plan[0].how, How::Quantized { quant: plq(8, 0, PerLayerMode::Sym8) });

    let experts = vec![Rule { kind: RuleKind::Experts, name: "layers.0.experts.down_proj".to_string() }];
    let quant = QuantSettings { default: plq(8, 0, PerLayerMode::Sym8), overrides: Table::new() };
    let err = apply_rules(&params, &quant, &experts).expect_err("sym8 experts must be refused");
    assert_eq!(err.kind, LoadErrorKind::Sym8Experts);
    assert!(err.message().contains("'layers.0.experts.down_proj'"));
}

#[test]
fn affine_only_parts_refuse_other_modes() {
    let params = table(&[
        ("embed_audio.embedding_projection.weight", tensor(1, DType::Uint32, 4)),
        ("embed_audio.embedding_projection.scales", tensor(2, DType::BFloat16, 1)),
    ]);
    let config = Gemma4Config { has_audio: true, ..untied() };
    let quant = quant_settings(&params, 4, 64, Some(PerLayerMode::Mxfp4), Table::new());
    let err = apply_audio_weights(&params, &config, &quant).expect_err("must be refused");
    assert_eq!(err.kind, LoadErrorKind::NonAffine { mode: PerLayerMode::Mxfp4 });
    assert_eq!(
        err.message(),
        "gemma4 embed_audio.embedding_projection load: Non-affine FP mode Mxfp4 is not supported; affine only"
    );
    let quant = quant_settings(&params, 4, 64, None, Table::new());
    let plan = apply_audio_weights(&params, &config, &quant).expect("affine must load");
    assert_eq!(plan[0].how, How::AffineGroup { quant: plq(4, 64, PerLayerMode::Affine) });
    let silent = Gemma4Config { has_audio: false, ..untied() };
    assert!(apply_audio_weights(&params, &silent, &quant).unwrap().is_empty());
}

#[test]
fn default_mode_is_read_off_the_scales() {
    let uint8 = table(&[("a.weight", bf16(1)), ("a.scales", tensor(2, DType::Uint8, 2))]);
    let float = table(&[("a.weight", tensor(1, DType::Uint8, 1)), ("a.scales", bf16(2))]);
    assert!(is_mxfp8_checkpoint(&uint8));
    assert!(!is_mxfp8_checkpoint(&float));
    assert_eq!(resolve_default_mode(None, true), PerLayerMode::Mxfp8);
    assert_eq!(resolve_default_mode(None, false), PerLayerMode::Affine);
    assert_eq!(resolve_default_mode(Some(PerLayerMode::Mxfp4), true), PerLayerMode::Mxfp4);
    let quant = quant_settings(&uint8, 4, 64, None, Table::new());
    assert_eq!(quant.default, plq(4, 64, PerLayerMode::Mxfp8));
}

#[test]
fn rules_follow_the_configuration() {
    let names = |rules: Vec<Rule>| rules.into_iter().map(|r| r.name).collect::<Vec<_>>();
    let plain = names(text_rules(&untied()));
    assert_eq!(plain[0..3], ["embed_tokens", "norm.weight", "lm_head"]);
    assert!(plain.contains(&"layers.0.self_attn.v_proj".to_string()));
    assert!(!plain.iter().any(|n| n.contains("experts") || n.contains("per_layer")));

    let mut rich = untied();
    rich.enable_moe_block = true;
    rich.per_layer_input_embeds = true;
    rich.hidden_size_per_layer_input = Some(4);
    rich.vocab_size_per_layer_input = Some(8);
    rich.attention_k_eq_v = true;
    rich.layer_types = vec!["full_attention".to_string()];
    let rich = names(text_rules(&rich));
    assert!(rich.contains(&"layers.0.experts.gate_up_proj".to_string()));
    assert!(rich.contains(&"embed_tokens_per_layer".to_string()));
    assert!(rich.contains(&"layers.0.per_layer_input_gate.weight".to_string()));
    assert!(!rich.contains(&"layers.0.self_attn.v_proj".to_string()));

    let tower = minimal_config(
        r#""vision_config": { "num_hidden_layers": 2, "use_clipped_linears": true },"#,
    );
    let rules = vision_rules(&tower, 2);
    let clips = rules.iter().filter(|r| r.kind == RuleKind::Clip).count();
    assert_eq!(clips, 2 * 7);
    assert_eq!(rules.last().unwrap().name, "embed_vision.embedding_projection");
    assert!(rules.iter().any(|r| r.name == "vision_tower.encoder.layers.1.mlp.up_proj.weight"));
}

#[test]
fn clip_bounds_go_in_together() {
    let rules = vec![Rule { kind: RuleKind::Clip, name: "p".to_string() }];
    let quant = QuantSettings { default: plq(4, 64, PerLayerMode::Affine), overrides: Table::new() };
    let mut params = table(&[
        ("p.input_min", bf16(1)),
        ("p.input_max", bf16(2)),
        ("p.output_min", bf16(3)),
    ]);
    assert!(apply_rules(&params, &quant, &rules).unwrap().is_empty());
    params.insert("p.output_max".to_string(), bf16(4));
    let plan = apply_rules(&params, &quant, &rules).unwrap();
    assert_eq!(
        plan[0].how,
        How::Clip { input_min: 1, input_max: 2, output_min: 3, output_max: 4 }
    );
    let rules = vec![Rule { kind: RuleKind::LayerNorm, name: "n".to_string() }];
    let params = table(&[("n.weight", bf16(5)), ("n.bias", bf16(6))]);
    let plan = apply_rules(&params, &quant, &rules).unwrap();
    assert_eq!(plan[0].how, How::LayerNorm { weight: 5, bias: Some(6) });
}

#[test]
fn tied_dense_embedding_is_the_output_projection() {
    let tied = minimal_config(r#""tie_word_embeddings": true,"#);
    let params = table(&[("embed_tokens.weight", bf16(3))]);
    let plan = apply(&params, &tied, 4).unwrap();
    assert_eq!(plan[0].how, How::DenseTied { array: 3 });
    let packed = table(&[
        ("embed_tokens.weight", tensor(1, DType::Uint32, 16)),
        ("embed_tokens.scales", tensor(2, DType::Uint8, 2)),
    ]);
    let plan = apply(&packed, &tied, 4).unwrap();
    assert_eq!(
        plan[0].how,
        How::Packed { group_size: 32, bits: 8, mxfp8: true, biases: None }
    );
    let err = apply(&table(&[("embed_tokens.weight", tensor(1, DType::Uint32, 4))]), &tied, 4)
        .expect_err("packed values without scales must be refused");
    assert_eq!(err.kind, LoadErrorKind::NonFloat { dtype: DType::Uint32 });
    assert!(err.message().contains("'embed_tokens.weight'"));
}

#[test]
fn names_are_cleaned_and_unused_tensors_dropped() {
    let config = minimal_config(r#""tie_word_embeddings": true,"#);
    let mut params = table(&[
        ("model.language_model.model.norm.weight", bf16(1)),
        ("model.language_model.layers.0.layer_scalar", bf16(2)),
        ("language_model.model.embed_tokens.weight", bf16(3)),
        ("language_model.lm_head.weight", bf16(4)),
        ("model.vision_tower.std_bias", bf16(5)),
        ("audio_tower.x", bf16(6)),
        ("layers.0.self_attn.rotary_emb.inv_freq", bf16(7)),
        ("layers.0.self_attn.q_proj.input_max", bf16(8)),
        ("layers.0.per_layer_input_gate.weight", bf16(9)),
        ("embed_audio.embedding_projection.weight", bf16(10)),
    ]);
    let clean = sanitize_weights(&mut params, &config);
    let names: Vec<&str> = clean.params.entries.iter().map(|(k, _)| k.as_str()).collect();
    assert_eq!(names, vec!["norm.weight", "layers.0.layer_scalar", "embed_tokens.weight"]);
    assert_eq!(params.len(), 0, "every tensor is moved out of the checkpoint's table");

    let vision = minimal_config(r#""vision_config": {},"#);
    let mut params = table(&[(
        "model.vision_tower.encoder.layers.0.mlp.up_proj.linear.weight",
        bf16(1),
    )]);
    let clean = sanitize_weights(&mut params, &vision);
    assert!(clean.params.contains_key("vision_tower.encoder.layers.0.mlp.up_proj.weight"));
}

#[test]
fn split_experts_become_fused() {
    let mut params = table(&[
        ("layers.0.experts.switch_glu.gate_proj.weight", bf16(1)),
        ("layers.0.experts.switch_glu.up_proj.weight", bf16(2)),
        ("layers.0.experts.switch_glu.gate_proj.scales", bf16(3)),
        ("layers.0.experts.switch_glu.up_proj.scales", bf16(4)),
        ("layers.0.experts.switch_glu.down_proj.weight", bf16(5)),
        ("layers.0.experts.switch_glu.down_proj.scales", bf16(6)),
        ("layers.0.experts.switch_glu.gate_proj.biases", bf16(7)),
    ]);
    let concats = fuse_split_experts(&mut params, 1);
    assert_eq!(
        concats,
        vec![ArrayConcat { into: 1, with: 2 }, ArrayConcat { into: 3, with: 4 }]
    );
    let mut names: Vec<String> = params.entries.iter().map(|(k, _)| k.clone()).collect();
    names.sort();
    assert_eq!(
        names,
        vec![
            "layers.0.experts.down_proj.scales",
            "layers.0.experts.down_proj.weight",
            "layers.0.experts.gate_up_proj.scales",
            "layers.0.experts.gate_up_proj.weight",
        ]
    );
    assert_eq!(params.get("layers.0.experts.gate_up_proj.weight").unwrap().nbytes, 128);
}

#[test]
fn a_checkpoint_is_prepared_and_planned() {
    let config = minimal_config(
        r#""tie_word_embeddings": true,
        "enable_moe_block": true,"#,
    );
    let mut raw = dummies(&TEXT_KEYS);
    let missing = prepare_weights(&mut raw, &config).expect_err("experts are missing").message();
    assert_eq!(missing, "Missing required weight: layers.0.router.proj.weight");
    let mut raw = dummies(&TEXT_KEYS);
    raw.insert("layers.0.router.proj.weight".to_string(), bf16(30));
    let missing = prepare_weights(&mut raw, &config).expect_err("experts are missing").message();
    assert!(missing.starts_with("Missing MoE expert weights for layer 0"));
    let mut raw = dummies(&TEXT_KEYS);
    raw.insert("layers.0.router.proj.weight".to_string(), bf16(30));
    for (i, proj) in ["gate_proj", "up_proj", "down_proj"].iter().enumerate() {
        raw.insert(format!("layers.0.experts.switch_glu.{proj}.weight"), bf16(40 + i as u64));
    }
    raw.insert("layers.0.router.scale".to_string(), tensor(31, DType::Float32, 4));
    let prepared = prepare_weights(&mut raw, &config).expect("complete");
    assert_eq!(raw.len(), 0);
    assert_eq!(prepared.concats, vec![ArrayConcat { into: 40, with: 41 }]);
    assert_eq!(prepared.casts, vec![31]);

    let mut overrides = Table::new();
    prepare_quant(&mut overrides, &config, &vec![None]);
    assert_eq!(overrides.len(), 0);
    let quant = quant_settings(&prepared.params, 4, 64, None, overrides);
    let plan = plan_install(&prepared.params, &config, &quant, 0).expect("plan");
    assert!(plan.iter().any(|i| i.name == "layers.0.experts.gate_up_proj.weight"
        && i.how == How::Dense { array: 40 }));
    assert!(plan.iter().any(|i| i.name == "layers.0.experts.down_proj.weight"
        && i.how == How::Dense { array: 42 }));
}

#[test]
fn weight_bytes_count_shards_and_draft() {
    let params = table(&[("a", bf16(1)), ("b", bf16(2))]);
    assert_eq!(total_weight_bytes(&params, &vec![], None), 128);
    assert_eq!(total_weight_bytes(&params, &vec![100, 28], Some(1000)), 1256);
    assert_eq!(total_weight_bytes(&params, &vec![u64::MAX], Some(1000)), u64::MAX);
}

#[test]
fn per_layer_table_is_sharded_above_its_budget() {
    assert_eq!(ple_shard_byte_budget(None), 1 << 30);
    assert_eq!(ple_shard_byte_budget(Some(" 63 ")), 63);
    assert_eq!(ple_shard_byte_budget(Some("0")), 1 << 30);
    assert_eq!(ple_shard_byte_budget(Some("much")), 1 << 30);
    let dense = table(&[("embed_tokens_per_layer.weight", bf16(1))]);
    let mut config = untied();
    assert!(!needs_ple_sharding(&dense, &config, 63), "no such table in this model");
    config.per_layer_input_embeds = true;
    config.hidden_size_per_layer_input = Some(4);
    config.vocab_size_per_layer_input = Some(8);
    assert!(needs_ple_sharding(&dense, &config, 63));
    assert!(!needs_ple_sharding(&dense, &config, 64));
    let packed = table(&[
        ("embed_tokens_per_layer.weight", bf16(1)),
        ("embed_tokens_per_layer.scales", bf16(2)),
    ]);
    assert!(!needs_ple_sharding(&packed, &config, 63));
}

#[test]
fn unreadable_configurations_are_refused() {
    let err = parse_config("{").unwrap_err();
    assert!(matches!(err, ConfigError::Syntax(_)));
    assert!(err.message().starts_with("Failed to parse config.json: "));
    let err = parse_config(r#"{ "num_hidden_layers": -3 }"#).unwrap_err();
    assert!(matches!(err, ConfigError::NegativeLayerCount(-3)));
    let err = parse_config(r#"{ "sliding_window_pattern": -1 }"#).unwrap_err();
    assert!(matches!(err, ConfigError::NegativeLayerPattern(-1)));
}

#[test]
fn generation_defaults_join_the_configuration() {
    let text = r#"{ "text_config": { "eos_token_id": [106, 1] } }"#;
    let cfg = load_config(
        text,
        false,
        Some(r#"{ "eos_token_id": [1, 50], "temperature": 0.5, "top_k": 64, "top_p": 0.95 }"#),
    )
    .unwrap();
    assert_eq!(cfg.eos_token_ids, vec![1, 50, 106]);
    assert_eq!(cfg.default_temperature.unwrap().bits, 0.5f64.to_bits());
    assert_eq!(cfg.default_top_k, Some(64));
    assert_eq!(cfg.default_top_p.unwrap().bits, 0.95f64.to_bits());
    let unread = load_config(text, false, Some("not json")).unwrap();
    assert_eq!(unread.eos_token_ids, vec![106, 1]);
    assert_eq!(unread.default_top_k, None);
}

#[test]
fn configuration_values_fall_back_and_default() {
    let cfg = parse_config(
        r#"{
            "hidden_size": 7,
            "text_config": {
                "num_hidden_layers": 12,
                "head_dim": 9,
                "sliding_window_pattern": 6,
                "rope_parameters": {
                    "full_attention": { "rope_theta": 2000.0, "partial_rotary_factor": 0.5 },
                    "sliding_attention": { "rope_theta": 3000.0 }
                },
                "final_logit_softcapping": 30.0
            }
        }"#,
    )
    .unwrap();
    assert_eq!(cfg.head_dim, 9);
    assert_eq!(cfg.vocab_size, 262144);
    assert_eq!(cfg.layer_types.len(), 12);
    assert_eq!(cfg.layer_types.iter().filter(|t| *t == "full_attention").count(), 2);
    assert_eq!(cfg.layer_types[5], "full_attention");
    assert_eq!(cfg.rope_theta.bits, 2000.0f64.to_bits());
    assert_eq!(cfg.rope_local_base_freq.bits, 3000.0f64.to_bits());
    assert_eq!(cfg.partial_rotary_factor.bits, 0.5f64.to_bits());
    assert_eq!(cfg.final_logit_softcapping.unwrap().bits, 30.0f64.to_bits());
    assert_eq!(cfg.rms_norm_eps.bits, 1e-6f64.to_bits());
}

#[test]
fn an_empty_configuration_lists_a_kind_for_every_layer() {
    let cfg = parse_config("{}").unwrap();
    assert_eq!(cfg.num_hidden_layers, 42);
    assert_eq!(cfg.layer_types.len(), 42);
    for (i, kind) in cfg.layer_types.iter().enumerate() {
        let expected = if i % 5 == 4 { "full_attention" } else { "sliding_attention" };
        assert_eq!(kind, expected, "layer {i}");
    }
    // A list that is too short is not taken.
    let cfg = parse_config(r#"{ "layer_types": ["full_attention"], "num_hidden_layers": 3 }"#)
        .unwrap();
    assert_eq!(cfg.layer_types, vec!["sliding_attention"; 3]);
}

#[test]
fn tensors_that_are_not_needed_do_not_count() {
    let tied = minimal_config(r#""tie_word_embeddings": true,"#);
    let mut with_head = dummies(&TEXT_KEYS);
    with_head.insert("lm_head.weight".to_string(), bf16(50));
    assert!(validate_required_weights(&with_head, &tied).is_ok());
    assert!(validate_required_weights(&dummies(&TEXT_KEYS), &tied).is_ok());
    with_head.insert("some.other.tensor".to_string(), bf16(51));
    assert!(validate_required_weights(&with_head, &untied()).is_ok());

    let same_kv = minimal_config(
        r#""tie_word_embeddings": true,
        "attention_k_eq_v": true,
        "layer_types": ["full_attention"],"#,
    );
    let mut no_values = dummies(&TEXT_KEYS);
    no_values.remove("layers.0.self_attn.v_proj.weight");
    assert!(validate_required_weights(&no_values, &same_kv).is_ok());
    assert_eq!(
        validate_required_weights(&no_values, &tied).unwrap_err().message(),
        "Missing required weight: layers.0.self_attn.v_proj.weight"
    );

    let text = r#"{ "num_hidden_layers": 2, "num_kv_shared_layers": 1,
        "layer_types": ["full_attention", "full_attention"] }"#;
    let shared = parse_config(text).unwrap();
    let mut params = dummies(&TEXT_KEYS);
    for key in TEXT_KEYS {
        if let Some(rest) = key.strip_prefix("layers.0.") {
            params.insert(format!("layers.1.{rest}"), bf16(60));
        }
    }
    assert!(validate_required_weights(&params, &shared).is_ok());
    params.remove("layers.1.self_attn.k_norm.weight");
    assert!(validate_required_weights(&params, &shared).is_ok());
    params.remove("layers.0.self_attn.k_norm.weight");
    assert_eq!(
        validate_required_weights(&params, &shared).unwrap_err().message(),
        "Missing required weight: layers.0.self_attn.k_norm.weight"
    );
}

#[test]
fn a_loaded_model_has_everything_put_in() {
    let config = untied();
    let mut raw = dummies(&TEXT_KEYS);
    raw.insert("lm_head.weight".to_string(), bf16(50));
    let prepared = prepare_weights(&mut raw, &config).expect("complete");
    let quant = quant_settings(&prepared.params, 4, 64, None, Table::new());
    let plan = plan_install(&prepared.params, &config, &quant, 0).expect("plan");
    let mut names: Vec<&str> = plan.iter().map(|i| i.name.as_str()).collect();
    names.sort();
    let mut expected = TEXT_KEYS.to_vec();
    expected.push("lm_head.weight");
    expected.sort();
    assert_eq!(names, expected);
}
