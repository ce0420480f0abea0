//! Loading a checkpoint: which tensors a model gets, in which form, and what
//! the tensor runtime does to them first.

use vstd::prelude::*;

use crate::config::Gemma4Config;
use crate::experts::fuse_split_experts;
use crate::experts::fusion;
use crate::experts::merge_split_experts_into_fused;
use crate::experts::with_fused_quants;
use crate::experts::ArrayConcat;
use crate::experts::Fusion;
use crate::experts::PerLayerQuant;
use crate::install::both;
use crate::install::has_group;
use crate::install::install_views;
use crate::install::linear_outcome;
use crate::install::mlp_outcome;
use crate::install::sidecars;
use crate::install::no_sidecars;
use crate::install::rules_outcome;
use crate::install::Install;
use crate::install::LoadError;
use crate::install::Outcome;
use crate::install::QuantSettings;
use crate::install_plan::apply_audio_weights;
use crate::install_plan::apply_vision_weights;
use crate::install_plan::apply_weights;
use crate::install_plan::audio_parts;
use crate::install_plan::plan_is;
use crate::install_plan::text_parts;
use crate::install_plan::vision_parts;
use crate::table::Table;
use crate::weights::finished_all;
use crate::weights::first_unmet;
use crate::weights::model_needs;
use crate::weights::narrowed_arrays;
use crate::weights::sanitize_weights;
use crate::weights::there;
use crate::weights::used;
use crate::weights::validate_required_weights;
use crate::weights::Requirement;
use crate::weights::TensorInfo;

verus! {

/// Bits of a quantized checkpoint that states none.
pub const DEFAULT_QUANT_BITS: i32 = 4;

/// Group size of a quantized checkpoint that states none.
pub const DEFAULT_QUANT_GROUP_SIZE: i32 = 64;

/// The tensors that a model gets, and what the tensor runtime does to them: the
/// casts first, then the concatenations in order.
#[derive(Debug)]
pub struct PreparedWeights {
    pub params: Table<TensorInfo>,
    /// Arrays that become bfloat16.
    pub casts: Vec<u64>,
    pub concats: Vec<ArrayConcat>,
}

/// The tensors of a checkpoint with its experts fused.
pub open spec fn prepared(c: Gemma4Config, s: Seq<(Seq<char>, TensorInfo)>) -> Fusion {
    let clean = Fusion { s: finished_all(used(c, s)), ops: Seq::empty() };
    if c.enable_moe_block {
        clean.layers(c.layers())
    } else {
        clean
    }
}

/// Cleans the names of a checkpoint, looks whether it is complete, and fuses its
/// experts where the model has some. Returns the first thing that is missing.
/// The checkpoint's table is left empty.
pub fn prepare_weights(raw: &mut Table<TensorInfo>, config: &Gemma4Config) -> (r: Result<
    PreparedWeights,
    Requirement,
>)
    requires
        config.wf(),
    ensures
        final(raw).wf(),
        final(raw).view() == Seq::<(Seq<char>, TensorInfo)>::empty(),
        match first_unmet(finished_all(used(*config, old(raw).view())), model_needs(*config)) {
            Some(n) => r matches Err(e) && e.need() == n,
            None => r matches Ok(p) && p.params.wf() && fusion(p.params, p.concats) == prepared(
                *config,
                old(raw).view(),
            ) && p.casts@ == narrowed_arrays(
                used(*config, old(raw).view()),
                used(*config, old(raw).view()).len() as int,
            ),
        },
{
    let clean = sanitize_weights(raw, config);
    match validate_required_weights(&clean.params, config) {
        Err(e) => {
            return Err(e);
        },
        Ok(_) => {},
    }
    let casts = clean.casts;
    let mut params = clean.params;
    let concats: Vec<ArrayConcat> = if config.enable_moe_block {
        fuse_split_experts(&mut params, config.num_hidden_layers as usize)
    } else {
        Vec::new()
    };
    assert(!config.enable_moe_block ==> fusion(params, concats) =~= prepared(*config, old(raw).view()));
    Ok(PreparedWeights { params, casts, concats })
}

/// The settings of single tensors under the names that the model uses: those
/// of the fused experts are made from those of the split ones.
pub fn prepare_quant(
    overrides: &mut Table<PerLayerQuant>,
    config: &Gemma4Config,
    merged: &Vec<Option<PerLayerQuant>>,
)
    requires
        old(overrides).wf(),
    ensures
        final(overrides).wf(),
        final(overrides).view() == if config.enable_moe_block {
            with_fused_quants(old(overrides).view(), merged@, merged@.len() as int)
        } else {
            old(overrides).view()
        },
{
    if config.enable_moe_block {
        merge_split_experts_into_fused(overrides, merged);
    }
}

/// What of a checkpoint goes into a model: its text, its vision and its audio
/// part, in this order.
pub open spec fn model_outcome(
    c: Gemma4Config,
    s: Seq<(Seq<char>, TensorInfo)>,
    q: QuantSettings,
    encoders: int,
) -> Outcome {
    both(
        both(
            rules_outcome(s, q, text_parts(c)),
            rules_outcome(s, q, vision_parts(c, encoders)),
        ),
        rules_outcome(s, q, audio_parts(c)),
    )
}

fn push_all(out: &mut Vec<Install>, mut more: Vec<Install>)
    ensures
        install_views(final(out)@) == install_views(old(out)@) + install_views(more@),
{
    let ghost before = out@;
    let ghost added = more@;
    out.append(&mut more);
    assert(install_views(out@) =~= install_views(before) + install_views(added));
}

/// What of a checkpoint goes into a model whose vision tower has `encoders`
/// layers, or why the checkpoint is refused.
pub fn plan_install(
    params: &Table<TensorInfo>,
    config: &Gemma4Config,
    quant: &QuantSettings,
    encoders: usize,
) -> (r: Result<Vec<Install>, LoadError>)
    requires
        config.wf(),
    ensures
        plan_is(r, model_outcome(*config, params.view(), *quant, encoders as int)),
{
    let mut out = match apply_weights(params, config, quant) {
        Ok(out) => out,
        Err(e) => {
            return Err(e);
        },
    };
    match apply_vision_weights(params, config, quant, encoders) {
        Ok(more) => push_all(&mut out, more),
        Err(e) => {
            return Err(e);
        },
    }
    match apply_audio_weights(params, config, quant) {
        Ok(more) => push_all(&mut out, more),
        Err(e) => {
            return Err(e);
        },
    }
    Ok(out)
}

/// A linear layer whose weight is there is never left as it was made: its
/// checkpoint is refused, or the weight is put in.
pub proof fn law_present_linear_is_installed(
    s: Seq<(Seq<char>, TensorInfo)>,
    q: QuantSettings,
    prefix: Seq<char>,
)
    requires
        there(s, prefix + ".weight"@),
        linear_outcome(s, q, prefix) is Done,
    ensures
        linear_outcome(s, q, prefix)->Done_0.len() == 1,
{
}

/// A feed-forward part whose three weights are there is put in whole, or its
/// checkpoint is refused.
pub proof fn law_mlp_is_whole(
    s: Seq<(Seq<char>, TensorInfo)>,
    q: QuantSettings,
    prefix: Seq<char>,
)
    requires
        there(s, prefix + ".gate_proj"@ + ".weight"@),
        there(s, prefix + ".up_proj"@ + ".weight"@),
        there(s, prefix + ".down_proj"@ + ".weight"@),
        mlp_outcome(s, q, prefix) is Done,
    ensures
        mlp_outcome(s, q, prefix)->Done_0.len() == 3,
{
}

/// A feed-forward part that is quantized in part is refused.
pub proof fn law_mixed_mlp_is_refused(
    s: Seq<(Seq<char>, TensorInfo)>,
    q: QuantSettings,
    prefix: Seq<char>,
)
    requires
        has_group(s, prefix + ".gate_proj"@) || has_group(s, prefix + ".up_proj"@) || has_group(
            s,
            prefix + ".down_proj"@,
        ),
        !(has_group(s, prefix + ".gate_proj"@) && has_group(s, prefix + ".up_proj"@) && has_group(
            s,
            prefix + ".down_proj"@,
        )),
    ensures
        mlp_outcome(s, q, prefix) is Refused,
{
}

/// A feed-forward part without a quantized group is refused where it has scales or
/// biases: they belong to values that are not there.
pub proof fn law_orphan_scales_are_refused(
    s: Seq<(Seq<char>, TensorInfo)>,
    q: QuantSettings,
    prefix: Seq<char>,
)
    requires
        !has_group(s, prefix + ".gate_proj"@),
        !has_group(s, prefix + ".up_proj"@),
        !has_group(s, prefix + ".down_proj"@),
        sidecars(s, prefix) != no_sidecars(),
    ensures
        mlp_outcome(s, q, prefix) is Refused,
{
}

} // verus!
