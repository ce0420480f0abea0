//! The parts of a model, in the order in which a checkpoint is put into them.

use vstd::prelude::*;
use vstd::string::*;

use crate::config::Gemma4Config;
use crate::experts::PerLayerMode;
use crate::experts::PerLayerQuant;
use crate::install::apply_rules;
use crate::install::has_uint8_scales;
use crate::install::install_views;
use crate::install::is_mxfp8_checkpoint;
use crate::install::resolve_default_mode;
use crate::install::rule_views;
use crate::install::rules_outcome;
use crate::install::Install;
use crate::install::LoadError;
use crate::install::Outcome;
use crate::install::QuantSettings;
use crate::install::Rule;
use crate::install::RuleKind;
use crate::install::RuleView;
use crate::table::Table;
use crate::text::cat;
use crate::text::cat3;
use crate::text::decimal;
use crate::text::unsigned_text;
use crate::weights::layer_key;
use crate::weights::layer_name;
use crate::weights::TensorInfo;

verus! {

/// A part that is loaded by its name.
pub open spec fn part(kind: RuleKind, name: Seq<char>) -> RuleView {
    RuleView { kind, name }
}

/// A part of layer `i`.
pub open spec fn at(kind: RuleKind, i: int, rest: Seq<char>) -> RuleView {
    RuleView { kind, name: layer_key(i, rest) }
}

/// The name of a part of encoder layer `i` of the vision tower.
pub open spec fn encoder_key(i: int, rest: Seq<char>) -> Seq<char> {
    "vision_tower.encoder.layers."@ + decimal(i) + rest
}

/// A part of encoder layer `i` of the vision tower.
pub open spec fn encoder_part(kind: RuleKind, i: int, rest: Seq<char>) -> RuleView {
    RuleView { kind, name: encoder_key(i, rest) }
}

fn push_part(out: &mut Vec<Rule>, kind: RuleKind, name: &str)
    ensures
        rule_views(final(out)@) == rule_views(old(out)@).push(part(kind, name@)),
{
    let ghost before = out@;
    out.push(Rule { kind, name: String::from_str(name) });
    assert(rule_views(out@) =~= rule_views(before).push(part(kind, name@)));
}

fn push_at(out: &mut Vec<Rule>, kind: RuleKind, i: usize, rest: &str)
    ensures
        rule_views(final(out)@) == rule_views(old(out)@).push(at(kind, i as int, rest@)),
{
    let ghost before = out@;
    out.push(Rule { kind, name: layer_name(i, rest) });
    assert(rule_views(out@) =~= rule_views(before).push(at(kind, i as int, rest@)));
}

fn push_encoder(out: &mut Vec<Rule>, kind: RuleKind, i: usize, rest: &str)
    ensures
        rule_views(final(out)@) == rule_views(old(out)@).push(
            encoder_part(kind, i as int, rest@),
        ),
{
    let ghost before = out@;
    out.push(
        Rule {
            kind,
            name: cat3("vision_tower.encoder.layers.", unsigned_text(i as u64).as_str(), rest),
        },
    );
    assert(rule_views(out@) =~= rule_views(before).push(encoder_part(kind, i as int, rest@)));
}

/// The tables of the per-layer embeddings.
pub open spec fn ple_parts() -> Seq<RuleView> {
    seq![
        part(RuleKind::AffineOnly, "embed_tokens_per_layer"@),
        part(RuleKind::Dense, "per_layer_model_projection.weight"@),
        part(RuleKind::Tensor, "per_layer_projection_norm.weight"@),
    ]
}

fn push_ple_parts(out: &mut Vec<Rule>)
    ensures
        rule_views(final(out)@) == rule_views(old(out)@) + ple_parts(),
{
    let ghost before = rule_views(out@);
    push_part(out, RuleKind::AffineOnly, "embed_tokens_per_layer");
    push_part(out, RuleKind::Dense, "per_layer_model_projection.weight");
    push_part(out, RuleKind::Tensor, "per_layer_projection_norm.weight");
    assert(rule_views(out@) =~= before + ple_parts());
}

/// Queries and keys of layer `i`.
pub open spec fn query_key_parts(i: int) -> Seq<RuleView> {
    seq![
        at(RuleKind::Linear, i, ".self_attn.q_proj"@),
        at(RuleKind::Linear, i, ".self_attn.k_proj"@),
    ]
}

fn push_query_key_parts(out: &mut Vec<Rule>, i: usize)
    ensures
        rule_views(final(out)@) == rule_views(old(out)@) + query_key_parts(i as int),
{
    let ghost before = rule_views(out@);
    push_at(out, RuleKind::Linear, i, ".self_attn.q_proj");
    push_at(out, RuleKind::Linear, i, ".self_attn.k_proj");
    assert(rule_views(out@) =~= before + query_key_parts(i as int));
}

/// Values of layer `i`.
pub open spec fn value_parts(i: int) -> Seq<RuleView> {
    seq![
        at(RuleKind::Linear, i, ".self_attn.v_proj"@),
    ]
}

fn push_value_parts(out: &mut Vec<Rule>, i: usize)
    ensures
        rule_views(final(out)@) == rule_views(old(out)@) + value_parts(i as int),
{
    let ghost before = rule_views(out@);
    push_at(out, RuleKind::Linear, i, ".self_attn.v_proj");
    assert(rule_views(out@) =~= before + value_parts(i as int));
}

/// What every layer has besides: the output projection, the norms and biases of
/// the attention, the feed-forward part, the norms and the scalar of the layer.
pub open spec fn middle_parts(i: int) -> Seq<RuleView> {
    seq![
        at(RuleKind::Linear, i, ".self_attn.o_proj"@),
        at(RuleKind::Tensor, i, ".self_attn.q_norm.weight"@),
        at(RuleKind::Tensor, i, ".self_attn.k_norm.weight"@),
        at(RuleKind::Tensor, i, ".self_attn.q_proj.bias"@),
        at(RuleKind::Tensor, i, ".self_attn.k_proj.bias"@),
        at(RuleKind::Tensor, i, ".self_attn.v_proj.bias"@),
        at(RuleKind::Tensor, i, ".self_attn.o_proj.bias"@),
        at(RuleKind::Mlp, i, ".mlp"@),
        at(RuleKind::Tensor, i, ".input_layernorm.weight"@),
        at(RuleKind::Tensor, i, ".post_attention_layernorm.weight"@),
        at(RuleKind::Tensor, i, ".pre_feedforward_layernorm.weight"@),
        at(RuleKind::Tensor, i, ".post_feedforward_layernorm.weight"@),
        at(RuleKind::Tensor, i, ".layer_scalar"@),
    ]
}

fn push_middle_parts(out: &mut Vec<Rule>, i: usize)
    ensures
        rule_views(final(out)@) == rule_views(old(out)@) + middle_parts(i as int),
{
    let ghost before = rule_views(out@);
    push_at(out, RuleKind::Linear, i, ".self_attn.o_proj");
    push_at(out, RuleKind::Tensor, i, ".self_attn.q_norm.weight");
    push_at(out, RuleKind::Tensor, i, ".self_attn.k_norm.weight");
    push_at(out, RuleKind::Tensor, i, ".self_attn.q_proj.bias");
    push_at(out, RuleKind::Tensor, i, ".self_attn.k_proj.bias");
    push_at(out, RuleKind::Tensor, i, ".self_attn.v_proj.bias");
    push_at(out, RuleKind::Tensor, i, ".self_attn.o_proj.bias");
    push_at(out, RuleKind::Mlp, i, ".mlp");
    push_at(out, RuleKind::Tensor, i, ".input_layernorm.weight");
    push_at(out, RuleKind::Tensor, i, ".post_attention_layernorm.weight");
    push_at(out, RuleKind::Tensor, i, ".pre_feedforward_layernorm.weight");
    push_at(out, RuleKind::Tensor, i, ".post_feedforward_layernorm.weight");
    push_at(out, RuleKind::Tensor, i, ".layer_scalar");
    assert(rule_views(out@) =~= before + middle_parts(i as int));
}

/// The per-layer embedding of layer `i`.
pub open spec fn layer_ple_parts(i: int) -> Seq<RuleView> {
    seq![
        at(RuleKind::Dense, i, ".per_layer_input_gate.weight"@),
        at(RuleKind::Dense, i, ".per_layer_projection.weight"@),
        at(RuleKind::Tensor, i, ".post_per_layer_input_norm.weight"@),
    ]
}

fn push_layer_ple_parts(out: &mut Vec<Rule>, i: usize)
    ensures
        rule_views(final(out)@) == rule_views(old(out)@) + layer_ple_parts(i as int),
{
    let ghost before = rule_views(out@);
    push_at(out, RuleKind::Dense, i, ".per_layer_input_gate.weight");
    push_at(out, RuleKind::Dense, i, ".per_layer_projection.weight");
    push_at(out, RuleKind::Tensor, i, ".post_per_layer_input_norm.weight");
    assert(rule_views(out@) =~= before + layer_ple_parts(i as int));
}

/// Router and experts of layer `i`.
pub open spec fn moe_parts(i: int) -> Seq<RuleView> {
    seq![
        at(RuleKind::Tensor, i, ".router.scale"@),
        at(RuleKind::AffineOnly, i, ".router.proj"@),
        at(RuleKind::Tensor, i, ".router.per_expert_scale"@),
        at(RuleKind::Experts, i, ".experts.gate_up_proj"@),
        at(RuleKind::Experts, i, ".experts.down_proj"@),
        at(RuleKind::Tensor, i, ".pre_feedforward_layernorm_2.weight"@),
        at(RuleKind::Tensor, i, ".post_feedforward_layernorm_1.weight"@),
        at(RuleKind::Tensor, i, ".post_feedforward_layernorm_2.weight"@),
    ]
}

fn push_moe_parts(out: &mut Vec<Rule>, i: usize)
    ensures
        rule_views(final(out)@) == rule_views(old(out)@) + moe_parts(i as int),
{
    let ghost before = rule_views(out@);
    push_at(out, RuleKind::Tensor, i, ".router.scale");
    push_at(out, RuleKind::AffineOnly, i, ".router.proj");
    push_at(out, RuleKind::Tensor, i, ".router.per_expert_scale");
    push_at(out, RuleKind::Experts, i, ".experts.gate_up_proj");
    push_at(out, RuleKind::Experts, i, ".experts.down_proj");
    push_at(out, RuleKind::Tensor, i, ".pre_feedforward_layernorm_2.weight");
    push_at(out, RuleKind::Tensor, i, ".post_feedforward_layernorm_1.weight");
    push_at(out, RuleKind::Tensor, i, ".post_feedforward_layernorm_2.weight");
    assert(rule_views(out@) =~= before + moe_parts(i as int));
}

/// The encoder-free vision embedder.
pub open spec fn embedder_parts() -> Seq<RuleView> {
    seq![
        part(RuleKind::LayerNorm, "vision_embedder.patch_ln1"@),
        part(RuleKind::LayerNorm, "vision_embedder.patch_ln2"@),
        part(RuleKind::LayerNorm, "vision_embedder.pos_norm"@),
        part(RuleKind::Tensor, "vision_embedder.patch_dense.weight"@),
        part(RuleKind::Tensor, "vision_embedder.patch_dense.bias"@),
        part(RuleKind::Tensor, "vision_embedder.pos_embedding"@),
    ]
}

fn push_embedder_parts(out: &mut Vec<Rule>)
    ensures
        rule_views(final(out)@) == rule_views(old(out)@) + embedder_parts(),
{
    let ghost before = rule_views(out@);
    push_part(out, RuleKind::LayerNorm, "vision_embedder.patch_ln1");
    push_part(out, RuleKind::LayerNorm, "vision_embedder.patch_ln2");
    push_part(out, RuleKind::LayerNorm, "vision_embedder.pos_norm");
    push_part(out, RuleKind::Tensor, "vision_embedder.patch_dense.weight");
    push_part(out, RuleKind::Tensor, "vision_embedder.patch_dense.bias");
    push_part(out, RuleKind::Tensor, "vision_embedder.pos_embedding");
    assert(rule_views(out@) =~= before + embedder_parts());
}

/// The patch embedder of the vision tower.
pub open spec fn patch_parts() -> Seq<RuleView> {
    seq![
        part(RuleKind::Tensor, "vision_tower.patch_embedder.input_proj.weight"@),
        part(RuleKind::Tensor, "vision_tower.patch_embedder.position_embedding_table"@),
    ]
}

fn push_patch_parts(out: &mut Vec<Rule>)
    ensures
        rule_views(final(out)@) == rule_views(old(out)@) + patch_parts(),
{
    let ghost before = rule_views(out@);
    push_part(out, RuleKind::Tensor, "vision_tower.patch_embedder.input_proj.weight");
    push_part(out, RuleKind::Tensor, "vision_tower.patch_embedder.position_embedding_table");
    assert(rule_views(out@) =~= before + patch_parts());
}

/// The standardisation of the vision tower.
pub open spec fn std_parts() -> Seq<RuleView> {
    seq![
        part(RuleKind::Tensor, "vision_tower.std_bias"@),
        part(RuleKind::Tensor, "vision_tower.std_scale"@),
    ]
}

fn push_std_parts(out: &mut Vec<Rule>)
    ensures
        rule_views(final(out)@) == rule_views(old(out)@) + std_parts(),
{
    let ghost before = rule_views(out@);
    push_part(out, RuleKind::Tensor, "vision_tower.std_bias");
    push_part(out, RuleKind::Tensor, "vision_tower.std_scale");
    assert(rule_views(out@) =~= before + std_parts());
}

/// The norms of queries and keys of encoder layer `i`.
pub open spec fn encoder_norm_parts(i: int) -> Seq<RuleView> {
    seq![
        encoder_part(RuleKind::Tensor, i, ".self_attn.q_norm.weight"@),
        encoder_part(RuleKind::Tensor, i, ".self_attn.k_norm.weight"@),
    ]
}

fn push_encoder_norm_parts(out: &mut Vec<Rule>, i: usize)
    ensures
        rule_views(final(out)@) == rule_views(old(out)@) + encoder_norm_parts(i as int),
{
    let ghost before = rule_views(out@);
    push_encoder(out, RuleKind::Tensor, i, ".self_attn.q_norm.weight");
    push_encoder(out, RuleKind::Tensor, i, ".self_attn.k_norm.weight");
    assert(rule_views(out@) =~= before + encoder_norm_parts(i as int));
}

/// The norms of encoder layer `i`.
pub open spec fn encoder_block_parts(i: int) -> Seq<RuleView> {
    seq![
        encoder_part(RuleKind::Tensor, i, ".input_layernorm.weight"@),
        encoder_part(RuleKind::Tensor, i, ".post_attention_layernorm.weight"@),
        encoder_part(RuleKind::Tensor, i, ".pre_feedforward_layernorm.weight"@),
        encoder_part(RuleKind::Tensor, i, ".post_feedforward_layernorm.weight"@),
    ]
}

fn push_encoder_block_parts(out: &mut Vec<Rule>, i: usize)
    ensures
        rule_views(final(out)@) == rule_views(old(out)@) + encoder_block_parts(i as int),
{
    let ghost before = rule_views(out@);
    push_encoder(out, RuleKind::Tensor, i, ".input_layernorm.weight");
    push_encoder(out, RuleKind::Tensor, i, ".post_attention_layernorm.weight");
    push_encoder(out, RuleKind::Tensor, i, ".pre_feedforward_layernorm.weight");
    push_encoder(out, RuleKind::Tensor, i, ".post_feedforward_layernorm.weight");
    assert(rule_views(out@) =~= before + encoder_block_parts(i as int));
}

/// A linear of encoder layer `i` that may be clipped.
pub open spec fn clipped_part(i: int, rest: Seq<char>, clipped: bool) -> Seq<RuleView> {
    seq![encoder_part(RuleKind::Tensor, i, rest + ".weight"@)] + if clipped {
        seq![encoder_part(RuleKind::Clip, i, rest)]
    } else {
        Seq::empty()
    }
}

fn push_clipped(out: &mut Vec<Rule>, i: usize, rest: &str, clipped: bool)
    ensures
        rule_views(final(out)@) == rule_views(old(out)@) + clipped_part(i as int, rest@, clipped),
{
    let ghost before = rule_views(out@);
    push_encoder(out, RuleKind::Tensor, i, cat(rest, ".weight").as_str());
    if clipped {
        push_encoder(out, RuleKind::Clip, i, rest);
    }
    assert(rule_views(out@) =~= before + clipped_part(i as int, rest@, clipped));
}

/// Encoder layer `i` of the vision tower.
pub open spec fn encoder_parts(i: int, clipped: bool) -> Seq<RuleView> {
    clipped_part(i, ".self_attn.q_proj"@, clipped) + clipped_part(
        i,
        ".self_attn.k_proj"@,
        clipped,
    ) + clipped_part(i, ".self_attn.v_proj"@, clipped) + clipped_part(
        i,
        ".self_attn.o_proj"@,
        clipped,
    ) + encoder_norm_parts(i) + clipped_part(i, ".mlp.gate_proj"@, clipped) + clipped_part(
        i,
        ".mlp.up_proj"@,
        clipped,
    ) + clipped_part(i, ".mlp.down_proj"@, clipped) + encoder_block_parts(i)
}

fn push_encoder_parts(out: &mut Vec<Rule>, i: usize, clipped: bool)
    ensures
        rule_views(final(out)@) == rule_views(old(out)@) + encoder_parts(i as int, clipped),
{
    let ghost before = rule_views(out@);
    push_clipped(out, i, ".self_attn.q_proj", clipped);
    push_clipped(out, i, ".self_attn.k_proj", clipped);
    push_clipped(out, i, ".self_attn.v_proj", clipped);
    push_clipped(out, i, ".self_attn.o_proj", clipped);
    push_encoder_norm_parts(out, i);
    push_clipped(out, i, ".mlp.gate_proj", clipped);
    push_clipped(out, i, ".mlp.up_proj", clipped);
    push_clipped(out, i, ".mlp.down_proj", clipped);
    push_encoder_block_parts(out, i);
    assert(rule_views(out@) =~= before + encoder_parts(i as int, clipped));
}

/// The first `n` encoder layers of the vision tower.
pub open spec fn encoders_parts(n: int, clipped: bool) -> Seq<RuleView>
    decreases n,
{
    if n <= 0 {
        Seq::empty()
    } else {
        encoders_parts(n - 1, clipped) + encoder_parts(n - 1, clipped)
    }
}

/// The model has a per-layer embedding.
pub open spec fn has_ple(c: Gemma4Config) -> bool {
    &&& c.per_layer_input_embeds
    &&& c.hidden_size_per_layer_input matches Some(d) && d > 0
    &&& c.vocab_size_per_layer_input matches Some(v) && v > 0
}

/// Whether the model has a per-layer embedding.
pub fn takes_ple(config: &Gemma4Config) -> (r: bool)
    ensures
        r == has_ple(*config),
{
    let dim: bool = match config.hidden_size_per_layer_input {
        Some(d) => d > 0,
        None => false,
    };
    let vocab: bool = match config.vocab_size_per_layer_input {
        Some(v) => v > 0,
        None => false,
    };
    config.per_layer_input_embeds && dim && vocab
}

/// Layer `i`. A global layer whose values are its keys has no values of its own.
pub open spec fn layer_parts(c: Gemma4Config, i: int) -> Seq<RuleView> {
    query_key_parts(i) + (if c.attention_k_eq_v && c.global_at(i) {
        Seq::empty()
    } else {
        value_parts(i)
    }) + middle_parts(i) + (if has_ple(c) {
        layer_ple_parts(i)
    } else {
        Seq::empty()
    }) + (if c.enable_moe_block {
        moe_parts(i)
    } else {
        Seq::empty()
    })
}

fn push_layer_parts(out: &mut Vec<Rule>, config: &Gemma4Config, i: usize)
    requires
        config.wf(),
        i < config.layers(),
    ensures
        rule_views(final(out)@) == rule_views(old(out)@) + layer_parts(*config, i as int),
{
    let ghost before = rule_views(out@);
    push_query_key_parts(out, i);
    if !(config.attention_k_eq_v && config.is_global_layer(i)) {
        push_value_parts(out, i);
    }
    push_middle_parts(out, i);
    if takes_ple(config) {
        push_layer_ple_parts(out, i);
    }
    if config.enable_moe_block {
        push_moe_parts(out, i);
    }
    assert(rule_views(out@) =~= before + layer_parts(*config, i as int));
}

/// The first `n` layers.
pub open spec fn layers_parts(c: Gemma4Config, n: int) -> Seq<RuleView>
    decreases n,
{
    if n <= 0 {
        Seq::empty()
    } else {
        layers_parts(c, n - 1) + layer_parts(c, n - 1)
    }
}

/// The parts of the text model: the embedding, the last norm, the output
/// projection where it is not the embedding, the per-layer tables, the layers.
pub open spec fn text_parts(c: Gemma4Config) -> Seq<RuleView> {
    seq![
        part(RuleKind::Embedding { tied: c.tie_word_embeddings }, "embed_tokens"@),
        part(RuleKind::Tensor, "norm.weight"@),
    ] + (if c.tie_word_embeddings {
        Seq::empty()
    } else {
        seq![part(RuleKind::Head, "lm_head"@)]
    }) + (if has_ple(c) {
        ple_parts()
    } else {
        Seq::empty()
    }) + layers_parts(c, c.layers())
}

/// The parts of the text model, in the order of loading.
pub fn text_rules(config: &Gemma4Config) -> (out: Vec<Rule>)
    requires
        config.wf(),
    ensures
        rule_views(out@) == text_parts(*config),
{
    let mut out: Vec<Rule> = Vec::new();
    assert(rule_views(out@) =~= Seq::<RuleView>::empty());
    push_part(
        &mut out,
        RuleKind::Embedding { tied: config.tie_word_embeddings },
        "embed_tokens",
    );
    push_part(&mut out, RuleKind::Tensor, "norm.weight");
    if !config.tie_word_embeddings {
        push_part(&mut out, RuleKind::Head, "lm_head");
    }
    if takes_ple(config) {
        push_ple_parts(&mut out);
    }
    let ghost front = rule_views(out@);
    let n: usize = config.num_hidden_layers as usize;
    let mut i: usize = 0;
    assert(front + layers_parts(*config, 0) =~= front);
    while i < n
        invariant
            i <= n,
            config.wf(),
            n == config.layers(),
            rule_views(out@) == front + layers_parts(*config, i as int),
        decreases n - i,
    {
        push_layer_parts(&mut out, config, i);
        assert(rule_views(out@) =~= front + layers_parts(*config, i + 1));
        i += 1;
    }
    assert(rule_views(out@) =~= text_parts(*config));
    out
}

/// The projection of images.
pub open spec fn image_projection() -> RuleView {
    part(RuleKind::AffineOnly, "embed_vision.embedding_projection"@)
}

/// The parts of the vision model: the encoder-free embedder, or the tower with
/// `encoders` layers; and the projection. None without vision.
pub open spec fn vision_parts(c: Gemma4Config, encoders: int) -> Seq<RuleView> {
    match (c.vision_config, c.unified_vision_config) {
        (Some(v), _) => patch_parts() + encoders_parts(encoders, v.use_clipped_linears)
            + std_parts() + seq![image_projection()],
        (None, Some(_)) => embedder_parts() + seq![image_projection()],
        (None, None) => Seq::empty(),
    }
}

/// The parts of the vision model, in the order of loading.
pub fn vision_rules(config: &Gemma4Config, encoders: usize) -> (out: Vec<Rule>)
    ensures
        rule_views(out@) == vision_parts(*config, encoders as int),
{
    let mut out: Vec<Rule> = Vec::new();
    assert(rule_views(out@) =~= Seq::<RuleView>::empty());
    match (config.vision_config, config.unified_vision_config) {
        (Some(v), _) => {
            push_patch_parts(&mut out);
            let ghost front = rule_views(out@);
            let clipped: bool = v.use_clipped_linears;
            let mut i: usize = 0;
            assert(front + encoders_parts(0, clipped) =~= front);
            while i < encoders
                invariant
                    i <= encoders,
                    rule_views(out@) == front + encoders_parts(i as int, clipped),
                decreases encoders - i,
            {
                push_encoder_parts(&mut out, i, clipped);
                assert(rule_views(out@) =~= front + encoders_parts(i + 1, clipped));
                i += 1;
            }
            push_std_parts(&mut out);
            push_part(&mut out, RuleKind::AffineOnly, "embed_vision.embedding_projection");
        },
        (None, Some(_)) => {
            push_embedder_parts(&mut out);
            push_part(&mut out, RuleKind::AffineOnly, "embed_vision.embedding_projection");
        },
        (None, None) => {},
    }
    assert(rule_views(out@) =~= vision_parts(*config, encoders as int));
    out
}

/// The parts of the audio model: its projection.
pub open spec fn audio_parts(c: Gemma4Config) -> Seq<RuleView> {
    if c.has_audio {
        seq![part(RuleKind::AffineOnly, "embed_audio.embedding_projection"@)]
    } else {
        Seq::empty()
    }
}

/// The parts of the audio model, in the order of loading.
pub fn audio_rules(config: &Gemma4Config) -> (out: Vec<Rule>)
    ensures
        rule_views(out@) == audio_parts(*config),
{
    let mut out: Vec<Rule> = Vec::new();
    assert(rule_views(out@) =~= Seq::<RuleView>::empty());
    if config.has_audio {
        push_part(&mut out, RuleKind::AffineOnly, "embed_audio.embedding_projection");
    }
    assert(rule_views(out@) =~= audio_parts(*config));
    out
}

/// The settings of a checkpoint: those that it states for single tensors, and
/// for all others its bits, its group size and its mode. The mode that it does
/// not state is read off its scales.
pub fn quant_settings(
    params: &Table<TensorInfo>,
    bits: i32,
    group_size: i32,
    top_level_mode: Option<PerLayerMode>,
    overrides: Table<PerLayerQuant>,
) -> (r: QuantSettings)
    ensures
        r.overrides == overrides,
        r.default == (PerLayerQuant {
            bits,
            group_size,
            mode: match top_level_mode {
                Some(m) => m,
                None => if has_uint8_scales(params.view()) {
                    PerLayerMode::Mxfp8
                } else {
                    PerLayerMode::Affine
                },
            },
            input_amax: None,
        }),
{
    let mode: PerLayerMode = resolve_default_mode(top_level_mode, is_mxfp8_checkpoint(params));
    QuantSettings { default: PerLayerQuant { bits, group_size, mode, input_amax: None }, overrides }
}

/// A result is an outcome.
pub open spec fn plan_is(r: Result<Vec<Install>, LoadError>, o: Outcome) -> bool {
    match o {
        Outcome::Done(v) => r matches Ok(out) && install_views(out@) == v,
        Outcome::Refused(e) => r matches Err(x) && x.refusal() == e,
    }
}

/// What of a checkpoint goes into the text model, or why it is refused.
pub fn apply_weights(params: &Table<TensorInfo>, config: &Gemma4Config, quant: &QuantSettings) -> (r:
    Result<Vec<Install>, LoadError>)
    requires
        config.wf(),
    ensures
        plan_is(r, rules_outcome(params.view(), *quant, text_parts(*config))),
{
    apply_rules(params, quant, &text_rules(config))
}

/// What of a checkpoint goes into the vision model, or why it is refused.
pub fn apply_vision_weights(
    params: &Table<TensorInfo>,
    config: &Gemma4Config,
    quant: &QuantSettings,
    encoders: usize,
) -> (r: Result<Vec<Install>, LoadError>)
    ensures
        plan_is(r, rules_outcome(params.view(), *quant, vision_parts(*config, encoders as int))),
{
    apply_rules(params, quant, &vision_rules(config, encoders))
}

/// What of a checkpoint goes into the audio model, or why it is refused.
pub fn apply_audio_weights(
    params: &Table<TensorInfo>,
    config: &Gemma4Config,
    quant: &QuantSettings,
) -> (r: Result<Vec<Install>, LoadError>)
    ensures
        plan_is(r, rules_outcome(params.view(), *quant, audio_parts(*config))),
{
    apply_rules(params, quant, &audio_rules(config))
}

/// A plan is what the outcome puts in, or its refusal; a refused checkpoint has no plan.
pub proof fn law_plan_is_its_outcome(r: Result<Vec<Install>, LoadError>, o: Outcome)
    requires
        plan_is(r, o),
    ensures
        o is Done <==> r is Ok,
        o is Done ==> install_views(r->Ok_0@) == o->Done_0,
        o is Refused ==> r->Err_0.kind == o->Refused_0.kind && r->Err_0.name@ == o->Refused_0.name,
{
}

} // verus!
