//! Which tensor goes where in a model, and in which form; and what is refused
//! rather than loaded wrongly.

use vstd::prelude::*;
use vstd::string::*;

use crate::experts::PerLayerMode;
use crate::experts::PerLayerQuant;
use crate::table::lookup;
use crate::table::Table;
use crate::text::cat;
use crate::text::cat3;
use crate::text::decimal;
use crate::text::ends_with;
use crate::text::law_ends_of_a_text;
use crate::text::signed_text;
use crate::weights::there;
use crate::weights::DType;
use crate::weights::TensorInfo;

verus! {

/// Bits of one MXFP8 element.
pub const MXFP8_BITS: i32 = 8;

/// Elements of one MXFP8 group.
pub const MXFP8_GROUP_SIZE: i32 = 32;

/// The form of a tensor, or of a group of tensors, that is put into a model.
#[derive(Debug, Clone, Copy, PartialEq, Eq, Structural)]
pub enum How {
    /// A tensor that is never quantized.
    Tensor { array: u64 },
    /// A dense weight.
    Dense { array: u64 },
    /// A dense embedding that is the output projection too.
    DenseTied { array: u64 },
    /// A quantized linear layer.
    Quantized { quant: PerLayerQuant },
    /// A quantized stack of experts.
    QuantizedSwitch { quant: PerLayerQuant },
    /// A group of affine quantization.
    AffineGroup { quant: PerLayerQuant },
    /// A packed embedding.
    Packed { group_size: i32, bits: i32, mxfp8: bool, biases: Option<u64> },
    /// A layer norm.
    LayerNorm { weight: u64, bias: Option<u64> },
    /// The bounds of a clipped linear.
    Clip { input_min: u64, input_max: u64, output_min: u64, output_max: u64 },
}

/// One thing that is put into a model. The name is that of the tensor, or of
/// the group.
#[derive(Debug)]
pub struct Install {
    pub name: String,
    pub how: How,
}

/// One thing that is put into a model.
#[verifier::ext_equal]
pub ghost struct InstallView {
    pub name: Seq<char>,
    pub how: How,
}

/// Things that are put into a model.
pub open spec fn install_views(v: Seq<Install>) -> Seq<InstallView> {
    Seq::new(v.len(), |i: int| InstallView { name: v[i].name@, how: v[i].how })
}

/// Which scales and biases a feed-forward part has.
#[derive(Debug, Clone, Copy, PartialEq, Eq, Structural)]
pub struct Sidecars {
    pub gate_scales: bool,
    pub gate_biases: bool,
    pub up_scales: bool,
    pub up_biases: bool,
    pub down_scales: bool,
    pub down_biases: bool,
}

/// Why a checkpoint is not loaded.
#[derive(Debug, Clone, Copy, PartialEq, Eq, Structural)]
pub enum LoadErrorKind {
    /// A dense weight is not stored as floating point.
    NonFloat { dtype: DType },
    /// An int8 weight is described as something else than sym8.
    Int8Drift { mode: PerLayerMode },
    /// A stack of experts is described as sym8.
    Sym8Experts,
    /// A group that must be affine is described as something else.
    NonAffine { mode: PerLayerMode },
    /// An MXFP8 embedding has biases.
    PackedBiases,
    /// An MXFP8 embedding has scales that are not uint8.
    PackedScales,
    /// The weight of an MXFP8 embedding has no dimension.
    PackedWeightRank,
    /// The scales of an MXFP8 embedding have no dimension.
    PackedScalesRank,
    /// The columns of an MXFP8 embedding do not fit its groups.
    PackedColumns { weight_last: i32, scales_last: i32, weight_cols: i64, scales_cols: i64 },
    /// An affine embedding has uint8 scales.
    PackedAffineScales,
    /// An embedding is in a mode that embeddings do not support.
    PackedMode { mode: PerLayerMode },
    /// An output projection has no weight.
    HeadMissing,
    /// A feed-forward part is quantized in part; the flags tell what is not.
    PartialMlp { gate: bool, up: bool, down: bool },
    /// A feed-forward part has scales or biases without a quantized group; the
    /// flags tell which.
    OrphanSidecars { found: Sidecars },
}

/// Why a checkpoint is not loaded, and the name that it is about.
#[derive(Debug)]
pub struct LoadError {
    pub kind: LoadErrorKind,
    pub name: String,
}

/// Why a checkpoint is not loaded.
#[verifier::ext_equal]
pub ghost struct Refusal {
    pub kind: LoadErrorKind,
    pub name: Seq<char>,
}

impl LoadError {
    /// Why the checkpoint is not loaded.
    pub open spec fn refusal(self) -> Refusal {
        Refusal { kind: self.kind, name: self.name@ }
    }
}

/// What comes of a rule.
#[verifier::ext_equal]
pub ghost enum Outcome {
    Done(Seq<InstallView>),
    Refused(Refusal),
}

/// One outcome after the other.
pub open spec fn both(a: Outcome, b: Outcome) -> Outcome {
    match (a, b) {
        (Outcome::Done(x), Outcome::Done(y)) => Outcome::Done(x + y),
        (Outcome::Done(_), Outcome::Refused(e)) => Outcome::Refused(e),
        (Outcome::Refused(e), _) => Outcome::Refused(e),
    }
}

/// Nothing is put into the model.
pub open spec fn nothing() -> Outcome {
    Outcome::Done(Seq::empty())
}

/// One thing is put into the model.
pub open spec fn one(name: Seq<char>, how: How) -> Outcome {
    Outcome::Done(seq![InstallView { name, how }])
}

/// The checkpoint is refused.
pub open spec fn refused(kind: LoadErrorKind, name: Seq<char>) -> Outcome {
    Outcome::Refused(Refusal { kind, name })
}

/// The quantization settings of a checkpoint.
#[derive(Debug)]
pub struct QuantSettings {
    pub default: PerLayerQuant,
    pub overrides: Table<PerLayerQuant>,
}

impl QuantSettings {
    /// The settings of a prefix.
    pub open spec fn of(self, prefix: Seq<char>) -> PerLayerQuant {
        match lookup(self.overrides.view(), prefix) {
            Some(q) => q,
            None => self.default,
        }
    }

    /// The settings of a prefix.
    pub fn get(&self, prefix: &str) -> (r: PerLayerQuant)
        ensures
            r == self.of(prefix@),
    {
        match self.overrides.get(prefix) {
            Some(q) => q,
            None => self.default,
        }
    }
}

/// The mode of tensors without a setting of their own: that of the checkpoint,
/// else MXFP8 where some scales are uint8, else affine.
pub fn resolve_default_mode(top_level_mode: Option<PerLayerMode>, is_mxfp8: bool) -> (r:
    PerLayerMode)
    ensures
        r == match top_level_mode {
            Some(m) => m,
            None => if is_mxfp8 {
                PerLayerMode::Mxfp8
            } else {
                PerLayerMode::Affine
            },
        },
{
    match top_level_mode {
        Some(m) => m,
        None => if is_mxfp8 {
            PerLayerMode::Mxfp8
        } else {
            PerLayerMode::Affine
        },
    }
}

/// Some scales are uint8.
pub open spec fn has_uint8_scales(s: Seq<(Seq<char>, TensorInfo)>) -> bool {
    exists|i: int|
        0 <= i < s.len() && ".scales"@.is_suffix_of((#[trigger] s[i]).0) && s[i].1.dtype is Uint8
}

/// Whether some scales are uint8.
pub fn is_mxfp8_checkpoint(params: &Table<TensorInfo>) -> (r: bool)
    ensures
        r == has_uint8_scales(params.view()),
{
    let ghost s = params.view();
    let mut i: usize = 0;
    while i < params.entries.len()
        invariant
            i <= params.entries@.len(),
            s == params.view(),
            forall|k: int|
                0 <= k < i ==> !(".scales"@.is_suffix_of((#[trigger] s[k]).0) && s[k].1.dtype is Uint8),
        decreases params.entries@.len() - i,
    {
        assert(s[i as int] == (params.entries@[i as int].0@, params.entries@[i as int].1));
        if params.entries[i].1.dtype == DType::Uint8 && ends_with(
            params.entries[i].0.as_str(),
            ".scales",
        ) {
            return true;
        }
        i += 1;
    }
    false
}

/// A tensor is put in where it is there.
pub open spec fn tensor_outcome(s: Seq<(Seq<char>, TensorInfo)>, key: Seq<char>) -> Outcome {
    match lookup(s, key) {
        Some(t) => one(key, How::Tensor { array: t.array }),
        None => nothing(),
    }
}

/// A dense weight is put in where it is there; it must be floating point.
pub open spec fn dense_outcome(s: Seq<(Seq<char>, TensorInfo)>, key: Seq<char>) -> Outcome {
    match lookup(s, key) {
        Some(t) => if t.dtype.floating() {
            one(key, How::Dense { array: t.array })
        } else {
            refused(LoadErrorKind::NonFloat { dtype: t.dtype }, key)
        },
        None => nothing(),
    }
}

/// An int8 weight whose settings are not sym8.
pub open spec fn int8_drift(s: Seq<(Seq<char>, TensorInfo)>, q: QuantSettings, prefix: Seq<char>) -> bool {
    &&& lookup(s, prefix + ".weight"@) matches Some(w) && w.dtype is Int8
    &&& !(q.of(prefix).mode is Sym8)
}

/// A weight with its scales.
pub open spec fn has_group(s: Seq<(Seq<char>, TensorInfo)>, prefix: Seq<char>) -> bool {
    there(s, prefix + ".weight"@) && there(s, prefix + ".scales"@)
}

/// A linear layer: a quantized group, else a dense weight.
pub open spec fn linear_outcome(s: Seq<(Seq<char>, TensorInfo)>, q: QuantSettings, prefix: Seq<char>) -> Outcome {
    if int8_drift(s, q, prefix) {
        refused(LoadErrorKind::Int8Drift { mode: q.of(prefix).mode }, prefix)
    } else if has_group(s, prefix) {
        one(prefix, How::Quantized { quant: q.of(prefix) })
    } else {
        dense_outcome(s, prefix + ".weight"@)
    }
}

/// An output projection of its own: a linear layer that must be there.
pub open spec fn head_outcome(s: Seq<(Seq<char>, TensorInfo)>, q: QuantSettings, prefix: Seq<char>) -> Outcome {
    if !int8_drift(s, q, prefix) && !there(s, prefix + ".weight"@) {
        refused(LoadErrorKind::HeadMissing, prefix)
    } else {
        linear_outcome(s, q, prefix)
    }
}

/// A group that is affine or dense.
pub open spec fn affine_outcome(s: Seq<(Seq<char>, TensorInfo)>, q: QuantSettings, prefix: Seq<char>) -> Outcome {
    if there(s, prefix + ".scales"@) && !(q.of(prefix).mode is Affine) {
        refused(LoadErrorKind::NonAffine { mode: q.of(prefix).mode }, prefix)
    } else if has_group(s, prefix) {
        one(prefix, How::AffineGroup { quant: q.of(prefix) })
    } else {
        dense_outcome(s, prefix + ".weight"@)
    }
}

/// A stack of experts: a quantized group, a dense weight, or a dense tensor
/// without a suffix.
pub open spec fn experts_outcome(s: Seq<(Seq<char>, TensorInfo)>, q: QuantSettings, prefix: Seq<char>) -> Outcome {
    if int8_drift(s, q, prefix) {
        refused(LoadErrorKind::Int8Drift { mode: q.of(prefix).mode }, prefix)
    } else if q.of(prefix).mode is Sym8 {
        refused(LoadErrorKind::Sym8Experts, prefix)
    } else if has_group(s, prefix) {
        one(prefix, How::QuantizedSwitch { quant: q.of(prefix) })
    } else if there(s, prefix + ".weight"@) {
        dense_outcome(s, prefix + ".weight"@)
    } else {
        dense_outcome(s, prefix)
    }
}

/// Which scales and biases a feed-forward part has.
pub open spec fn sidecars(s: Seq<(Seq<char>, TensorInfo)>, prefix: Seq<char>) -> Sidecars {
    Sidecars {
        gate_scales: there(s, prefix + ".gate_proj.scales"@),
        gate_biases: there(s, prefix + ".gate_proj.biases"@),
        up_scales: there(s, prefix + ".up_proj.scales"@),
        up_biases: there(s, prefix + ".up_proj.biases"@),
        down_scales: there(s, prefix + ".down_proj.scales"@),
        down_biases: there(s, prefix + ".down_proj.biases"@),
    }
}

/// No scales and no biases.
pub open spec fn no_sidecars() -> Sidecars {
    Sidecars {
        gate_scales: false,
        gate_biases: false,
        up_scales: false,
        up_biases: false,
        down_scales: false,
        down_biases: false,
    }
}

/// A feed-forward part: quantized as a whole or dense as a whole.
pub open spec fn mlp_outcome(s: Seq<(Seq<char>, TensorInfo)>, q: QuantSettings, prefix: Seq<char>) -> Outcome {
    let gate = prefix + ".gate_proj"@;
    let up = prefix + ".up_proj"@;
    let down = prefix + ".down_proj"@;
    if int8_drift(s, q, gate) {
        refused(LoadErrorKind::Int8Drift { mode: q.of(gate).mode }, gate)
    } else if int8_drift(s, q, up) {
        refused(LoadErrorKind::Int8Drift { mode: q.of(up).mode }, up)
    } else if int8_drift(s, q, down) {
        refused(LoadErrorKind::Int8Drift { mode: q.of(down).mode }, down)
    } else if has_group(s, gate) && has_group(s, up) && has_group(s, down) {
        both(
            both(
                one(gate, How::Quantized { quant: q.of(gate) }),
                one(up, How::Quantized { quant: q.of(up) }),
            ),
            one(down, How::Quantized { quant: q.of(down) }),
        )
    } else if has_group(s, gate) || has_group(s, up) || has_group(s, down) {
        refused(
            LoadErrorKind::PartialMlp {
                gate: !has_group(s, gate),
                up: !has_group(s, up),
                down: !has_group(s, down),
            },
            prefix,
        )
    } else if sidecars(s, prefix) != no_sidecars() {
        refused(LoadErrorKind::OrphanSidecars { found: sidecars(s, prefix) }, prefix)
    } else {
        both(
            both(dense_outcome(s, gate + ".weight"@), dense_outcome(s, up + ".weight"@)),
            dense_outcome(s, down + ".weight"@),
        )
    }
}

/// How a packed embedding is laid out: settings and tensors must agree. Scales
/// of uint8 are shared by several formats, so the columns of an MXFP8 table
/// must fit 8 bits and groups of 32.
pub open spec fn packed_outcome(
    key: Seq<char>,
    quant: PerLayerQuant,
    weight: TensorInfo,
    scales: TensorInfo,
    biases: Option<TensorInfo>,
) -> Outcome {
    let uint8 = scales.dtype is Uint8;
    match quant.mode {
        PerLayerMode::Mxfp8 => if biases is Some {
            refused(LoadErrorKind::PackedBiases, key)
        } else if !uint8 {
            refused(LoadErrorKind::PackedScales, key)
        } else {
            match (weight.last_dim, scales.last_dim) {
                (None, _) => refused(LoadErrorKind::PackedWeightRank, key),
                (Some(_), None) => refused(LoadErrorKind::PackedScalesRank, key),
                (Some(weight_last), Some(scales_last)) => if weight_last * 4 != scales_last * 32 {
                    refused(
                        LoadErrorKind::PackedColumns {
                            weight_last,
                            scales_last,
                            weight_cols: (weight_last * 4) as i64,
                            scales_cols: (scales_last * 32) as i64,
                        },
                        key,
                    )
                } else {
                    one(
                        key,
                        How::Packed {
                            group_size: MXFP8_GROUP_SIZE,
                            bits: MXFP8_BITS,
                            mxfp8: true,
                            biases: None,
                        },
                    )
                },
            }
        },
        PerLayerMode::Affine => if uint8 {
            refused(LoadErrorKind::PackedAffineScales, key)
        } else {
            one(
                key,
                How::Packed {
                    group_size: quant.group_size,
                    bits: quant.bits,
                    mxfp8: false,
                    biases: match biases {
                        Some(b) => Some(b.array),
                        None => None,
                    },
                },
            )
        },
        mode => refused(LoadErrorKind::PackedMode { mode }, key),
    }
}

/// The token embedding: packed, or dense; a dense one may be the output
/// projection too.
pub open spec fn embedding_outcome(
    s: Seq<(Seq<char>, TensorInfo)>,
    q: QuantSettings,
    prefix: Seq<char>,
    tied: bool,
) -> Outcome {
    match (lookup(s, prefix + ".scales"@), lookup(s, prefix + ".weight"@)) {
        (Some(scales), Some(weight)) => packed_outcome(
            prefix,
            q.of(prefix),
            weight,
            scales,
            lookup(s, prefix + ".biases"@),
        ),
        (None, Some(weight)) => if !weight.dtype.floating() {
            refused(LoadErrorKind::NonFloat { dtype: weight.dtype }, prefix + ".weight"@)
        } else if tied {
            one(prefix + ".weight"@, How::DenseTied { array: weight.array })
        } else {
            one(prefix + ".weight"@, How::Dense { array: weight.array })
        },
        (_, None) => nothing(),
    }
}

/// A layer norm: a weight, with a bias where there is one.
pub open spec fn norm_outcome(s: Seq<(Seq<char>, TensorInfo)>, prefix: Seq<char>) -> Outcome {
    match lookup(s, prefix + ".weight"@) {
        Some(w) => one(
            prefix,
            How::LayerNorm {
                weight: w.array,
                bias: match lookup(s, prefix + ".bias"@) {
                    Some(b) => Some(b.array),
                    None => None,
                },
            },
        ),
        None => nothing(),
    }
}

/// Clip bounds: all four, or none.
pub open spec fn clip_outcome(s: Seq<(Seq<char>, TensorInfo)>, prefix: Seq<char>) -> Outcome {
    match (
        lookup(s, prefix + ".input_min"@),
        lookup(s, prefix + ".input_max"@),
        lookup(s, prefix + ".output_min"@),
        lookup(s, prefix + ".output_max"@),
    ) {
        (Some(a), Some(b), Some(c), Some(d)) => one(
            prefix,
            How::Clip {
                input_min: a.array,
                input_max: b.array,
                output_min: c.array,
                output_max: d.array,
            },
        ),
        _ => nothing(),
    }
}

/// How a part of a model is loaded.
#[derive(Debug, Clone, Copy, PartialEq, Eq, Structural)]
pub enum RuleKind {
    Tensor,
    Dense,
    Linear,
    Head,
    Mlp,
    AffineOnly,
    Experts,
    Embedding { tied: bool },
    LayerNorm,
    Clip,
}

/// A part of a model and how it is loaded.
#[derive(Debug)]
pub struct Rule {
    pub kind: RuleKind,
    pub name: String,
}

/// A part of a model and how it is loaded.
#[verifier::ext_equal]
pub ghost struct RuleView {
    pub kind: RuleKind,
    pub name: Seq<char>,
}

/// Parts of a model and how they are loaded.
pub open spec fn rule_views(v: Seq<Rule>) -> Seq<RuleView> {
    Seq::new(v.len(), |i: int| RuleView { kind: v[i].kind, name: v[i].name@ })
}

/// What comes of a rule.
pub open spec fn rule_outcome(s: Seq<(Seq<char>, TensorInfo)>, q: QuantSettings, r: RuleView) -> Outcome {
    match r.kind {
        RuleKind::Tensor => tensor_outcome(s, r.name),
        RuleKind::Dense => dense_outcome(s, r.name),
        RuleKind::Linear => linear_outcome(s, q, r.name),
        RuleKind::Head => head_outcome(s, q, r.name),
        RuleKind::Mlp => mlp_outcome(s, q, r.name),
        RuleKind::AffineOnly => affine_outcome(s, q, r.name),
        RuleKind::Experts => experts_outcome(s, q, r.name),
        RuleKind::Embedding { tied } => embedding_outcome(s, q, r.name, tied),
        RuleKind::LayerNorm => norm_outcome(s, r.name),
        RuleKind::Clip => clip_outcome(s, r.name),
    }
}

/// What comes of rules, one after the other.
pub open spec fn rules_outcome(s: Seq<(Seq<char>, TensorInfo)>, q: QuantSettings, r: Seq<RuleView>) -> Outcome
    decreases r.len(),
{
    if r.len() == 0 {
        nothing()
    } else {
        both(rules_outcome(s, q, r.drop_last()), rule_outcome(s, q, r.last()))
    }
}

/// A result is an outcome: what was put in behind `before`, or the refusal.
pub open spec fn result_is(
    r: Result<(), LoadError>,
    before: Seq<InstallView>,
    after: Seq<InstallView>,
    o: Outcome,
) -> bool {
    match o {
        Outcome::Done(v) => r is Ok && after == before + v,
        Outcome::Refused(e) => r matches Err(x) && x.refusal() == e,
    }
}

fn push_install(out: &mut Vec<Install>, name: String, how: How)
    ensures
        install_views(final(out)@) == install_views(old(out)@) + seq![
            InstallView { name: name@, how },
        ],
{
    let ghost before = out@;
    out.push(Install { name, how });
    assert(install_views(out@) =~= install_views(before) + seq![InstallView { name: name@, how }]);
}

fn apply_tensor(params: &Table<TensorInfo>, key: &str, out: &mut Vec<Install>)
    ensures
        result_is(
            Ok(()),
            install_views(old(out)@),
            install_views(final(out)@),
            tensor_outcome(params.view(), key@),
        ),
{
    match params.get(key) {
        Some(t) => push_install(out, String::from_str(key), How::Tensor { array: t.array }),
        None => {},
    }
    assert(install_views(out@) + Seq::<InstallView>::empty() =~= install_views(out@));
}

fn apply_dense(params: &Table<TensorInfo>, key: &str, out: &mut Vec<Install>) -> (r: Result<
    (),
    LoadError,
>)
    ensures
        result_is(
            r,
            install_views(old(out)@),
            install_views(final(out)@),
            dense_outcome(params.view(), key@),
        ),
{
    match params.get(key) {
        Some(t) => {
            if !t.dtype.is_floating() {
                return Err(
                    LoadError {
                        kind: LoadErrorKind::NonFloat { dtype: t.dtype },
                        name: String::from_str(key),
                    },
                );
            }
            push_install(out, String::from_str(key), How::Dense { array: t.array });
        },
        None => {},
    }
    assert(install_views(out@) + Seq::<InstallView>::empty() =~= install_views(out@));
    Ok(())
}

fn drifts(params: &Table<TensorInfo>, quant: &QuantSettings, prefix: &str) -> (r: bool)
    ensures
        r == int8_drift(params.view(), *quant, prefix@),
{
    match params.get(cat(prefix, ".weight").as_str()) {
        Some(w) => {
            let sym8: bool = match quant.get(prefix).mode {
                PerLayerMode::Sym8 => true,
                _ => false,
            };
            w.dtype == DType::Int8 && !sym8
        },
        None => false,
    }
}

fn drift_error(quant: &QuantSettings, prefix: &str) -> (r: LoadError)
    ensures
        r.refusal() == (Refusal {
            kind: LoadErrorKind::Int8Drift { mode: quant.of(prefix@).mode },
            name: prefix@,
        }),
{
    LoadError {
        kind: LoadErrorKind::Int8Drift { mode: quant.get(prefix).mode },
        name: String::from_str(prefix),
    }
}

fn holds_group(params: &Table<TensorInfo>, prefix: &str) -> (r: bool)
    ensures
        r == has_group(params.view(), prefix@),
{
    params.contains_key(cat(prefix, ".weight").as_str()) && params.contains_key(
        cat(prefix, ".scales").as_str(),
    )
}

fn apply_linear(
    params: &Table<TensorInfo>,
    quant: &QuantSettings,
    prefix: &str,
    out: &mut Vec<Install>,
) -> (r: Result<(), LoadError>)
    ensures
        result_is(
            r,
            install_views(old(out)@),
            install_views(final(out)@),
            linear_outcome(params.view(), *quant, prefix@),
        ),
{
    if drifts(params, quant, prefix) {
        return Err(drift_error(quant, prefix));
    }
    if holds_group(params, prefix) {
        push_install(
            out,
            String::from_str(prefix),
            How::Quantized { quant: quant.get(prefix) },
        );
        return Ok(());
    }
    apply_dense(params, cat(prefix, ".weight").as_str(), out)
}

fn apply_head(
    params: &Table<TensorInfo>,
    quant: &QuantSettings,
    prefix: &str,
    out: &mut Vec<Install>,
) -> (r: Result<(), LoadError>)
    ensures
        result_is(
            r,
            install_views(old(out)@),
            install_views(final(out)@),
            head_outcome(params.view(), *quant, prefix@),
        ),
{
    if !drifts(params, quant, prefix) && !params.contains_key(cat(prefix, ".weight").as_str()) {
        return Err(
            LoadError { kind: LoadErrorKind::HeadMissing, name: String::from_str(prefix) },
        );
    }
    apply_linear(params, quant, prefix, out)
}

fn is_affine(mode: PerLayerMode) -> (r: bool)
    ensures
        r == (mode is Affine),
{
    match mode {
        PerLayerMode::Affine => true,
        _ => false,
    }
}

fn apply_affine(
    params: &Table<TensorInfo>,
    quant: &QuantSettings,
    prefix: &str,
    out: &mut Vec<Install>,
) -> (r: Result<(), LoadError>)
    ensures
        result_is(
            r,
            install_views(old(out)@),
            install_views(final(out)@),
            affine_outcome(params.view(), *quant, prefix@),
        ),
{
    let q: PerLayerQuant = quant.get(prefix);
    if params.contains_key(cat(prefix, ".scales").as_str()) && !is_affine(q.mode) {
        return Err(
            LoadError {
                kind: LoadErrorKind::NonAffine { mode: q.mode },
                name: String::from_str(prefix),
            },
        );
    }
    if holds_group(params, prefix) {
        push_install(out, String::from_str(prefix), How::AffineGroup { quant: q });
        return Ok(());
    }
    apply_dense(params, cat(prefix, ".weight").as_str(), out)
}

fn apply_experts(
    params: &Table<TensorInfo>,
    quant: &QuantSettings,
    prefix: &str,
    out: &mut Vec<Install>,
) -> (r: Result<(), LoadError>)
    ensures
        result_is(
            r,
            install_views(old(out)@),
            install_views(final(out)@),
            experts_outcome(params.view(), *quant, prefix@),
        ),
{
    if drifts(params, quant, prefix) {
        return Err(drift_error(quant, prefix));
    }
    let q: PerLayerQuant = quant.get(prefix);
    match q.mode {
        PerLayerMode::Sym8 => {
            return Err(
                LoadError { kind: LoadErrorKind::Sym8Experts, name: String::from_str(prefix) },
            );
        },
        _ => {},
    }
    if holds_group(params, prefix) {
        push_install(out, String::from_str(prefix), How::QuantizedSwitch { quant: q });
        return Ok(());
    }
    let weight = cat(prefix, ".weight");
    if params.contains_key(weight.as_str()) {
        apply_dense(params, weight.as_str(), out)
    } else {
        apply_dense(params, prefix, out)
    }
}

fn find_sidecars(params: &Table<TensorInfo>, prefix: &str) -> (r: Sidecars)
    ensures
        r == sidecars(params.view(), prefix@),
{
    Sidecars {
        gate_scales: params.contains_key(cat(prefix, ".gate_proj.scales").as_str()),
        gate_biases: params.contains_key(cat(prefix, ".gate_proj.biases").as_str()),
        up_scales: params.contains_key(cat(prefix, ".up_proj.scales").as_str()),
        up_biases: params.contains_key(cat(prefix, ".up_proj.biases").as_str()),
        down_scales: params.contains_key(cat(prefix, ".down_proj.scales").as_str()),
        down_biases: params.contains_key(cat(prefix, ".down_proj.biases").as_str()),
    }
}

fn apply_mlp(
    params: &Table<TensorInfo>,
    quant: &QuantSettings,
    prefix: &str,
    out: &mut Vec<Install>,
) -> (r: Result<(), LoadError>)
    ensures
        result_is(
            r,
            install_views(old(out)@),
            install_views(final(out)@),
            mlp_outcome(params.view(), *quant, prefix@),
        ),
{
    let ghost before = install_views(out@);
    let gate = cat(prefix, ".gate_proj");
    let up = cat(prefix, ".up_proj");
    let down = cat(prefix, ".down_proj");
    if drifts(params, quant, gate.as_str()) {
        return Err(drift_error(quant, gate.as_str()));
    }
    if drifts(params, quant, up.as_str()) {
        return Err(drift_error(quant, up.as_str()));
    }
    if drifts(params, quant, down.as_str()) {
        return Err(drift_error(quant, down.as_str()));
    }
    let gate_group: bool = holds_group(params, gate.as_str());
    let up_group: bool = holds_group(params, up.as_str());
    let down_group: bool = holds_group(params, down.as_str());
    if gate_group && up_group && down_group {
        let gq: PerLayerQuant = quant.get(gate.as_str());
        let uq: PerLayerQuant = quant.get(up.as_str());
        let dq: PerLayerQuant = quant.get(down.as_str());
        push_install(out, gate, How::Quantized { quant: gq });
        push_install(out, up, How::Quantized { quant: uq });
        push_install(out, down, How::Quantized { quant: dq });
        proof {
            match mlp_outcome(params.view(), *quant, prefix@) {
                Outcome::Done(v) => {
                    assert(install_views(out@) =~= before + v);
                },
                _ => {},
            }
        }
        return Ok(());
    }
    if gate_group || up_group || down_group {
        return Err(
            LoadError {
                kind: LoadErrorKind::PartialMlp {
                    gate: !gate_group,
                    up: !up_group,
                    down: !down_group,
                },
                name: String::from_str(prefix),
            },
        );
    }
    let found: Sidecars = find_sidecars(params, prefix);
    if found.gate_scales || found.gate_biases || found.up_scales || found.up_biases
        || found.down_scales || found.down_biases {
        return Err(
            LoadError {
                kind: LoadErrorKind::OrphanSidecars { found },
                name: String::from_str(prefix),
            },
        );
    }
    match apply_dense(params, cat(gate.as_str(), ".weight").as_str(), out) {
        Err(e) => {
            return Err(e);
        },
        Ok(_) => {},
    }
    match apply_dense(params, cat(up.as_str(), ".weight").as_str(), out) {
        Err(e) => {
            return Err(e);
        },
        Ok(_) => {},
    }
    let last = apply_dense(params, cat(down.as_str(), ".weight").as_str(), out);
    proof {
        match mlp_outcome(params.view(), *quant, prefix@) {
            Outcome::Done(v) => {
                assert(install_views(out@) =~= before + v);
            },
            _ => {},
        }
    }
    last
}

/// How a packed embedding is laid out, or why it is refused.
pub fn resolve_packed_embed_params(
    key: &str,
    quant: PerLayerQuant,
    weight: TensorInfo,
    scales: TensorInfo,
    biases: Option<TensorInfo>,
) -> (r: Result<How, LoadError>)
    ensures
        match packed_outcome(key@, quant, weight, scales, biases) {
            Outcome::Done(v) => r matches Ok(how) && v == seq![InstallView { name: key@, how }],
            Outcome::Refused(e) => r matches Err(x) && x.refusal() == e,
        },
{
    let uint8: bool = scales.dtype == DType::Uint8;
    let kind: LoadErrorKind = match quant.mode {
        PerLayerMode::Mxfp8 => {
            if biases.is_some() {
                LoadErrorKind::PackedBiases
            } else if !uint8 {
                LoadErrorKind::PackedScales
            } else {
                match (weight.last_dim, scales.last_dim) {
                    (None, _) => LoadErrorKind::PackedWeightRank,
                    (Some(_), None) => LoadErrorKind::PackedScalesRank,
                    (Some(weight_last), Some(scales_last)) => {
                        let weight_cols: i64 = weight_last as i64 * 4;
                        let scales_cols: i64 = scales_last as i64 * 32;
                        if weight_cols == scales_cols {
                            return Ok(
                                How::Packed {
                                    group_size: MXFP8_GROUP_SIZE,
                                    bits: MXFP8_BITS,
                                    mxfp8: true,
                                    biases: None,
                                },
                            );
                        }
                        LoadErrorKind::PackedColumns {
                            weight_last,
                            scales_last,
                            weight_cols,
                            scales_cols,
                        }
                    },
                }
            }
        },
        PerLayerMode::Affine => {
            if !uint8 {
                return Ok(
                    How::Packed {
                        group_size: quant.group_size,
                        bits: quant.bits,
                        mxfp8: false,
                        biases: match biases {
                            Some(b) => Some(b.array),
                            None => None,
                        },
                    },
                );
            }
            LoadErrorKind::PackedAffineScales
        },
        mode => LoadErrorKind::PackedMode { mode },
    };
    Err(LoadError { kind, name: String::from_str(key) })
}

fn apply_embedding(
    params: &Table<TensorInfo>,
    quant: &QuantSettings,
    prefix: &str,
    tied: bool,
    out: &mut Vec<Install>,
) -> (r: Result<(), LoadError>)
    ensures
        result_is(
            r,
            install_views(old(out)@),
            install_views(final(out)@),
            embedding_outcome(params.view(), *quant, prefix@, tied),
        ),
{
    let key = cat(prefix, ".weight");
    let weight: TensorInfo = match params.get(key.as_str()) {
        Some(w) => w,
        None => {
            assert(install_views(out@) + Seq::<InstallView>::empty() =~= install_views(out@));
            return Ok(());
        },
    };
    match params.get(cat(prefix, ".scales").as_str()) {
        Some(scales) => {
            let biases: Option<TensorInfo> = params.get(cat(prefix, ".biases").as_str());
            match resolve_packed_embed_params(prefix, quant.get(prefix), weight, scales, biases) {
                Ok(how) => {
                    push_install(out, String::from_str(prefix), how);
                    Ok(())
                },
                Err(e) => Err(e),
            }
        },
        None => {
            if !weight.dtype.is_floating() {
                return Err(
                    LoadError { kind: LoadErrorKind::NonFloat { dtype: weight.dtype }, name: key },
                );
            }
            let how: How = if tied {
                How::DenseTied { array: weight.array }
            } else {
                How::Dense { array: weight.array }
            };
            push_install(out, key, how);
            Ok(())
        },
    }
}

fn apply_norm(params: &Table<TensorInfo>, prefix: &str, out: &mut Vec<Install>)
    ensures
        result_is(
            Ok(()),
            install_views(old(out)@),
            install_views(final(out)@),
            norm_outcome(params.view(), prefix@),
        ),
{
    match params.get(cat(prefix, ".weight").as_str()) {
        Some(w) => {
            let bias: Option<u64> = match params.get(cat(prefix, ".bias").as_str()) {
                Some(b) => Some(b.array),
                None => None,
            };
            push_install(
                out,
                String::from_str(prefix),
                How::LayerNorm { weight: w.array, bias },
            );
        },
        None => {
            assert(install_views(out@) + Seq::<InstallView>::empty() =~= install_views(out@));
        },
    }
}

fn apply_clip(params: &Table<TensorInfo>, prefix: &str, out: &mut Vec<Install>)
    ensures
        result_is(
            Ok(()),
            install_views(old(out)@),
            install_views(final(out)@),
            clip_outcome(params.view(), prefix@),
        ),
{
    match (
        params.get(cat(prefix, ".input_min").as_str()),
        params.get(cat(prefix, ".input_max").as_str()),
        params.get(cat(prefix, ".output_min").as_str()),
        params.get(cat(prefix, ".output_max").as_str()),
    ) {
        (Some(a), Some(b), Some(c), Some(d)) => {
            push_install(
                out,
                String::from_str(prefix),
                How::Clip {
                    input_min: a.array,
                    input_max: b.array,
                    output_min: c.array,
                    output_max: d.array,
                },
            );
        },
        _ => {
            assert(install_views(out@) + Seq::<InstallView>::empty() =~= install_views(out@));
        },
    }
}

fn apply_rule(
    params: &Table<TensorInfo>,
    quant: &QuantSettings,
    rule: &Rule,
    out: &mut Vec<Install>,
) -> (r: Result<(), LoadError>)
    ensures
        result_is(
            r,
            install_views(old(out)@),
            install_views(final(out)@),
            rule_outcome(
                params.view(),
                *quant,
                RuleView { kind: rule.kind, name: rule.name@ },
            ),
        ),
{
    let name = rule.name.as_str();
    match rule.kind {
        RuleKind::Tensor => {
            apply_tensor(params, name, out);
            Ok(())
        },
        RuleKind::Dense => apply_dense(params, name, out),
        RuleKind::Linear => apply_linear(params, quant, name, out),
        RuleKind::Head => apply_head(params, quant, name, out),
        RuleKind::Mlp => apply_mlp(params, quant, name, out),
        RuleKind::AffineOnly => apply_affine(params, quant, name, out),
        RuleKind::Experts => apply_experts(params, quant, name, out),
        RuleKind::Embedding { tied } => apply_embedding(params, quant, name, tied, out),
        RuleKind::LayerNorm => {
            apply_norm(params, name, out);
            Ok(())
        },
        RuleKind::Clip => {
            apply_clip(params, name, out);
            Ok(())
        },
    }
}

/// What is put into a model by rules, in order; or the first refusal.
pub fn apply_rules(params: &Table<TensorInfo>, quant: &QuantSettings, rules: &Vec<Rule>) -> (r:
    Result<Vec<Install>, LoadError>)
    ensures
        match rules_outcome(params.view(), *quant, rule_views(rules@)) {
            Outcome::Done(v) => r matches Ok(out) && install_views(out@) == v,
            Outcome::Refused(e) => r matches Err(x) && x.refusal() == e,
        },
{
    let mut out: Vec<Install> = Vec::new();
    let ghost all = rule_views(rules@);
    let ghost s = params.view();
    let mut i: usize = 0;
    proof {
        assert(all.take(0) =~= Seq::<RuleView>::empty());
        assert(install_views(out@) =~= Seq::<InstallView>::empty());
    }
    while i < rules.len()
        invariant
            i <= rules@.len(),
            s == params.view(),
            all == rule_views(rules@),
            rules_outcome(s, *quant, all.take(i as int)) == Outcome::Done(install_views(out@)),
        decreases rules@.len() - i,
    {
        proof {
            assert(all.take(i + 1).drop_last() =~= all.take(i as int));
            assert(all.take(i + 1).last() == all[i as int]);
        }
        match apply_rule(params, quant, &rules[i], &mut out) {
            Err(e) => {
                proof {
                    lemma_refusal_stays(s, *quant, all, i + 1);
                }
                return Err(e);
            },
            Ok(_) => {},
        }
        i += 1;
    }
    assert(all.take(all.len() as int) =~= all);
    Ok(out)
}

proof fn lemma_refusal_stays(
    s: Seq<(Seq<char>, TensorInfo)>,
    q: QuantSettings,
    all: Seq<RuleView>,
    n: int,
)
    requires
        0 <= n <= all.len(),
        rules_outcome(s, q, all.take(n)) is Refused,
    ensures
        rules_outcome(s, q, all) == rules_outcome(s, q, all.take(n)),
    decreases all.len() - n,
{
    if n < all.len() {
        assert(all.take(n + 1).drop_last() =~= all.take(n));
        lemma_refusal_stays(s, q, all, n + 1);
    } else {
        assert(all.take(n) =~= all);
    }
}

/// The tensor of a name is stored as int8.
pub open spec fn stored_int8(s: Seq<(Seq<char>, TensorInfo)>, key: Seq<char>) -> bool {
    lookup(s, key) matches Some(t) && t.dtype is Int8
}

/// The form in which something is put in is that in which it is stored: what
/// goes in dense is floating point, what goes in quantized has its scales, and
/// int8 goes in as sym8 only, and never as experts.
pub open spec fn form_fits(s: Seq<(Seq<char>, TensorInfo)>, v: InstallView) -> bool {
    match v.how {
        How::Dense { array } => lookup(s, v.name) matches Some(t) && t.dtype.floating() && t.array
            == array,
        How::DenseTied { array } => lookup(s, v.name) matches Some(t) && t.dtype.floating()
            && t.array == array,
        How::Quantized { quant } => has_group(s, v.name) && (stored_int8(s, v.name + ".weight"@)
            ==> quant.mode is Sym8),
        How::QuantizedSwitch { quant } => has_group(s, v.name) && !stored_int8(
            s,
            v.name + ".weight"@,
        ) && !(quant.mode is Sym8),
        How::AffineGroup { quant } => has_group(s, v.name) && quant.mode is Affine,
        How::Packed { .. } => has_group(s, v.name),
        How::Tensor { array } => lookup(s, v.name) matches Some(t) && t.array == array,
        How::LayerNorm { weight, .. } => lookup(s, v.name + ".weight"@) matches Some(t) && t.array
            == weight,
        How::Clip { input_min, .. } => lookup(s, v.name + ".input_min"@) matches Some(t) && t.array
            == input_min,
    }
}

proof fn lemma_dense_outcome(s: Seq<(Seq<char>, TensorInfo)>, key: Seq<char>)
    ensures
        dense_outcome(s, key) matches Outcome::Done(v) ==> forall|i: int|
            0 <= i < v.len() ==> form_fits(s, #[trigger] v[i]),
{
}

proof fn lemma_mlp_outcome(s: Seq<(Seq<char>, TensorInfo)>, q: QuantSettings, prefix: Seq<char>)
    ensures
        mlp_outcome(s, q, prefix) matches Outcome::Done(v) ==> forall|i: int|
            0 <= i < v.len() ==> form_fits(s, #[trigger] v[i]),
{
    let gate = prefix + ".gate_proj"@ + ".weight"@;
    let up = prefix + ".up_proj"@ + ".weight"@;
    let down = prefix + ".down_proj"@ + ".weight"@;
    lemma_dense_outcome(s, gate);
    lemma_dense_outcome(s, up);
    lemma_dense_outcome(s, down);
}

proof fn lemma_rule_outcome(s: Seq<(Seq<char>, TensorInfo)>, q: QuantSettings, r: RuleView)
    ensures
        rule_outcome(s, q, r) matches Outcome::Done(v) ==> forall|i: int|
            0 <= i < v.len() ==> form_fits(s, #[trigger] v[i]),
{
    lemma_dense_outcome(s, r.name);
    lemma_dense_outcome(s, r.name + ".weight"@);
    match r.kind {
        RuleKind::Mlp => {
            lemma_mlp_outcome(s, q, r.name);
        },
        _ => {},
    }
}

/// Nothing is loaded in a form that it is not stored in: packed or int8 values
/// whose scales are missing are never taken for a dense weight, and int8 values
/// never for another quantization.
pub proof fn law_form_fits_storage(
    s: Seq<(Seq<char>, TensorInfo)>,
    q: QuantSettings,
    rules: Seq<RuleView>,
    i: int,
)
    requires
        rules_outcome(s, q, rules) matches Outcome::Done(v) && 0 <= i < v.len(),
    ensures
        form_fits(s, rules_outcome(s, q, rules)->Done_0[i]),
    decreases rules.len(),
{
    if rules.len() > 0 {
        let a = rules_outcome(s, q, rules.drop_last())->Done_0;
        let b = rule_outcome(s, q, rules.last())->Done_0;
        if i < a.len() {
            law_form_fits_storage(s, q, rules.drop_last(), i);
        } else {
            lemma_rule_outcome(s, q, rules.last());
            assert(rules_outcome(s, q, rules)->Done_0[i] == b[i - a.len()]);
        }
    }
}

/// A list with an item behind it, where the item belongs to the list.
pub open spec fn listed(list: Seq<char>, belongs: bool, item: Seq<char>) -> Seq<char> {
    if !belongs {
        list
    } else if list.len() == 0 {
        item
    } else {
        list + ", "@ + item
    }
}

fn add_listed(list: &mut String, belongs: bool, item: &str)
    ensures
        final(list)@ == listed(old(list)@, belongs, item@),
{
    if belongs {
        if list.as_str().is_empty() {
            *list = String::from_str(item);
        } else {
            list.append(", ");
            list.append(item);
        }
    }
}

/// The names of the projections that are not quantized.
pub open spec fn missing_list(gate: bool, up: bool, down: bool) -> Seq<char> {
    listed(
        listed(listed(Seq::empty(), gate, "gate_proj"@), up, "up_proj"@),
        down,
        "down_proj"@,
    )
}

fn missing_text(gate: bool, up: bool, down: bool) -> (r: String)
    ensures
        r@ == missing_list(gate, up, down),
{
    let mut list = String::new();
    add_listed(&mut list, gate, "gate_proj");
    add_listed(&mut list, up, "up_proj");
    add_listed(&mut list, down, "down_proj");
    list
}

/// The names of scales and biases.
pub open spec fn sidecar_list(n: Seq<char>, found: Sidecars) -> Seq<char> {
    let a = listed(Seq::empty(), found.gate_scales, n + ".gate_proj.scales"@);
    let b = listed(a, found.gate_biases, n + ".gate_proj.biases"@);
    let c = listed(b, found.up_scales, n + ".up_proj.scales"@);
    let d = listed(c, found.up_biases, n + ".up_proj.biases"@);
    let e = listed(d, found.down_scales, n + ".down_proj.scales"@);
    listed(e, found.down_biases, n + ".down_proj.biases"@)
}

fn sidecar_text(n: &str, found: Sidecars) -> (r: String)
    ensures
        r@ == sidecar_list(n@, found),
{
    let mut list = String::new();
    add_listed(&mut list, found.gate_scales, cat(n, ".gate_proj.scales").as_str());
    add_listed(&mut list, found.gate_biases, cat(n, ".gate_proj.biases").as_str());
    add_listed(&mut list, found.up_scales, cat(n, ".up_proj.scales").as_str());
    add_listed(&mut list, found.up_biases, cat(n, ".up_proj.biases").as_str());
    add_listed(&mut list, found.down_scales, cat(n, ".down_proj.scales").as_str());
    add_listed(&mut list, found.down_biases, cat(n, ".down_proj.biases").as_str());
    list
}

impl LoadError {
    /// The message shown to a caller.
    pub open spec fn text(self) -> Seq<char> {
        let n = self.name@;
        match self.kind {
            LoadErrorKind::NonFloat { dtype } => "gemma4: refusing to load '"@ + n
                + "' as a dense weight: non-float dtype "@ + dtype.text(),
            LoadErrorKind::Int8Drift { mode } => "gemma4: '"@ + n
                + ".weight' is int8 (sym8 storage) but its quantization mode resolves to "@
                + mode.text(),
            LoadErrorKind::Sym8Experts => "sym8 expert layer '"@ + n
                + "': 3-D switch (expert) tensors cannot be sym8 (convert forces experts to affine under a sym8 default) — malformed checkpoint"@,
            LoadErrorKind::NonAffine { mode } => "gemma4 "@ + n
                + " load: Non-affine FP mode "@ + mode.text()
                + " is not supported; affine only"@,
            LoadErrorKind::PackedBiases => "gemma4 "@ + n
                + " load: quant mode resolves to mxfp8 but a '"@ + n
                + ".biases' tensor is present — mxfp8 has no biases (its E8M0 scales fully describe the dequant); config/tensor disagreement, refusing to load"@,
            LoadErrorKind::PackedScales => "gemma4 "@ + n
                + " load: quant mode resolves to mxfp8 but '"@ + n
                + ".scales' is not uint8 (E8M0) — config/tensor disagreement, refusing to load"@,
            LoadErrorKind::PackedWeightRank => "gemma4 "@ + n + " load: weight is 0-rank"@,
            LoadErrorKind::PackedScalesRank => "gemma4 "@ + n + " load: scales is 0-rank"@,
            LoadErrorKind::PackedColumns { weight_last, scales_last, weight_cols, scales_cols } =>
            "gemma4 "@ + n + " load: quant mode resolved to mxfp8 but the packed weight ("@
                + decimal(weight_last as int) + " u32 cols) and scales ("@ + decimal(
                scales_last as int,
            ) + " groups) are not consistent with 8-bit / group_size-32 packing ("@ + decimal(
                weight_cols as int,
            ) + " != "@ + decimal(scales_cols as int)
                + "); the table is most likely mxfp4/nvfp4 mis-resolved to mxfp8 from a mode-less config — refusing to load with forced mxfp8 constants"@,
            LoadErrorKind::PackedAffineScales => "gemma4 "@ + n
                + " load: quant mode resolves to affine but '"@ + n
                + ".scales' is uint8 (an E8M0/MX-format dtype) — config/tensor disagreement, refusing to load"@,
            LoadErrorKind::PackedMode { mode } => "gemma4 "@ + n + " load: quant mode "@
                + mode.text()
                + " is not supported for the embedding/tied lm_head; only affine and mxfp8 are supported"@,
            LoadErrorKind::HeadMissing => "Untied "@ + n
                + " has neither a quantized group ("@ + n + ".weight + "@ + n
                + ".scales) nor a dense "@ + n
                + ".weight — model would silently use constructor-random weights"@,
            LoadErrorKind::PartialMlp { gate, up, down } => "gemma4: dense MLP '"@ + n
                + "' has a PARTIAL quantized group — missing the quant group (weight+scales) for: "@
                + missing_list(gate, up, down)
                + " — refusing to load a mixed quantized/dense MLP (truncated/malformed checkpoint)"@,
            LoadErrorKind::OrphanSidecars { found } => "gemma4: dense MLP '"@ + n
                + "' has quant sidecars without a loadable quant group (the packed '.weight' is missing/stripped): "@
                + sidecar_list(n, found)
                + " — refusing to load; the dense branch would silently leave the randomly-initialized MLP live (truncated/malformed checkpoint)"@,
        }
    }

    /// The message shown to a caller.
    pub fn message(&self) -> (r: String)
        ensures
            r@ == self.text(),
    {
        let n = self.name.as_str();
        match self.kind {
            LoadErrorKind::NonFloat { dtype } => {
                let mut out = cat3(
                    "gemma4: refusing to load '",
                    n,
                    "' as a dense weight: non-float dtype ",
                );
                out.append(dtype.name());
                out
            },
            LoadErrorKind::Int8Drift { mode } => {
                let mut out = cat3(
                    "gemma4: '",
                    n,
                    ".weight' is int8 (sym8 storage) but its quantization mode resolves to ",
                );
                out.append(mode.name());
                out
            },
            LoadErrorKind::Sym8Experts => cat3(
                "sym8 expert layer '",
                n,
                "': 3-D switch (expert) tensors cannot be sym8 (convert forces experts to affine under a sym8 default) — malformed checkpoint",
            ),
            LoadErrorKind::NonAffine { mode } => {
                let mut out = cat3("gemma4 ", n, " load: Non-affine FP mode ");
                out.append(mode.name());
                out.append(" is not supported; affine only");
                out
            },
            LoadErrorKind::PackedBiases => {
                let mut out = cat3(
                    "gemma4 ",
                    n,
                    " load: quant mode resolves to mxfp8 but a '",
                );
                out.append(n);
                out.append(
                    ".biases' tensor is present — mxfp8 has no biases (its E8M0 scales fully describe the dequant); config/tensor disagreement, refusing to load",
                );
                out
            },
            LoadErrorKind::PackedScales => {
                let mut out = cat3("gemma4 ", n, " load: quant mode resolves to mxfp8 but '");
                out.append(n);
                out.append(
                    ".scales' is not uint8 (E8M0) — config/tensor disagreement, refusing to load",
                );
                out
            },
            LoadErrorKind::PackedWeightRank => cat3("gemma4 ", n, " load: weight is 0-rank"),
            LoadErrorKind::PackedScalesRank => cat3("gemma4 ", n, " load: scales is 0-rank"),
            LoadErrorKind::PackedColumns { weight_last, scales_last, weight_cols, scales_cols } => {
                let mut out = cat3(
                    "gemma4 ",
                    n,
                    " load: quant mode resolved to mxfp8 but the packed weight (",
                );
                out.append(signed_text(weight_last as i64).as_str());
                out.append(" u32 cols) and scales (");
                out.append(signed_text(scales_last as i64).as_str());
                out.append(
                    " groups) are not consistent with 8-bit / group_size-32 packing (",
                );
                out.append(signed_text(weight_cols).as_str());
                out.append(" != ");
                out.append(signed_text(scales_cols).as_str());
                out.append(
                    "); the table is most likely mxfp4/nvfp4 mis-resolved to mxfp8 from a mode-less config — refusing to load with forced mxfp8 constants",
                );
                out
            },
            LoadErrorKind::PackedAffineScales => {
                let mut out = cat3("gemma4 ", n, " load: quant mode resolves to affine but '");
                out.append(n);
                out.append(
                    ".scales' is uint8 (an E8M0/MX-format dtype) — config/tensor disagreement, refusing to load",
                );
                out
            },
            LoadErrorKind::PackedMode { mode } => {
                let mut out = cat3("gemma4 ", n, " load: quant mode ");
                out.append(mode.name());
                out.append(
                    " is not supported for the embedding/tied lm_head; only affine and mxfp8 are supported",
                );
                out
            },
            LoadErrorKind::HeadMissing => {
                let mut out = cat3("Untied ", n, " has neither a quantized group (");
                out.append(n);
                out.append(".weight + ");
                out.append(n);
                out.append(".scales) nor a dense ");
                out.append(n);
                out.append(".weight — model would silently use constructor-random weights");
                out
            },
            LoadErrorKind::PartialMlp { gate, up, down } => {
                let mut out = cat3(
                    "gemma4: dense MLP '",
                    n,
                    "' has a PARTIAL quantized group — missing the quant group (weight+scales) for: ",
                );
                out.append(missing_text(gate, up, down).as_str());
                out.append(
                    " — refusing to load a mixed quantized/dense MLP (truncated/malformed checkpoint)",
                );
                out
            },
            LoadErrorKind::OrphanSidecars { found } => {
                let mut out = cat3(
                    "gemma4: dense MLP '",
                    n,
                    "' has quant sidecars without a loadable quant group (the packed '.weight' is missing/stripped): ",
                );
                out.append(sidecar_text(n, found).as_str());
                out.append(
                    " — refusing to load; the dense branch would silently leave the randomly-initialized MLP live (truncated/malformed checkpoint)",
                );
                out
            },
        }
    }
}

/// A tensor has settings of its own where the checkpoint gives them, else those of the
/// checkpoint.
pub proof fn law_settings_of_a_tensor(q: QuantSettings, prefix: Seq<char>, own: PerLayerQuant)
    ensures
        lookup(q.overrides.view(), prefix) == Some(own) ==> q.of(prefix) == own,
        lookup(q.overrides.view(), prefix) is None ==> q.of(prefix) == q.default,
{
}

/// A bare tensor is put in under its name with its array, and nothing is where it is
/// not there.
pub proof fn law_bare_tensor(s: Seq<(Seq<char>, TensorInfo)>, key: Seq<char>, t: TensorInfo)
    ensures
        lookup(s, key) == Some(t) ==> tensor_outcome(s, key) == Outcome::Done(
            seq![InstallView { name: key, how: How::Tensor { array: t.array } }],
        ),
        lookup(s, key) is None ==> tensor_outcome(s, key) == Outcome::Done(Seq::empty()),
{
}

/// A dense weight of floating point is put in under its name with its array; any other
/// is refused by its name and type.
pub proof fn law_dense_weight(s: Seq<(Seq<char>, TensorInfo)>, key: Seq<char>, t: TensorInfo)
    requires
        lookup(s, key) == Some(t),
    ensures
        t.dtype is Float32 || t.dtype is Float16 || t.dtype is BFloat16 ==> dense_outcome(s, key)
            == Outcome::Done(seq![InstallView { name: key, how: How::Dense { array: t.array } }]),
        t.dtype is Int8 || t.dtype is Int32 || t.dtype is Uint8 || t.dtype is Uint32
            ==> dense_outcome(s, key) == Outcome::Refused(
            Refusal { kind: LoadErrorKind::NonFloat { dtype: t.dtype }, name: key },
        ),
{
}

/// A linear layer with values and scales is quantized as its settings say; with values
/// alone it is dense; without values nothing is put in. Int8 values are refused unless
/// the settings are those of int8 storage.
pub proof fn law_linear_layer(
    s: Seq<(Seq<char>, TensorInfo)>,
    q: QuantSettings,
    prefix: Seq<char>,
    w: TensorInfo,
)
    ensures
        lookup(s, prefix + ".weight"@) == Some(w) && (w.dtype is Int8 ==> q.of(prefix).mode is Sym8)
            && lookup(s, prefix + ".scales"@) is Some ==> linear_outcome(s, q, prefix)
            == Outcome::Done(
            seq![InstallView { name: prefix, how: How::Quantized { quant: q.of(prefix) } }],
        ),
        lookup(s, prefix + ".weight"@) == Some(w) && w.dtype.floating() && lookup(
            s,
            prefix + ".scales"@,
        ) is None ==> linear_outcome(s, q, prefix) == Outcome::Done(
            seq![
                InstallView { name: prefix + ".weight"@, how: How::Dense { array: w.array } },
            ],
        ),
        lookup(s, prefix + ".weight"@) == Some(w) && w.dtype is Int8 && !(q.of(prefix).mode is Sym8)
            ==> linear_outcome(s, q, prefix) == Outcome::Refused(
            Refusal { kind: LoadErrorKind::Int8Drift { mode: q.of(prefix).mode }, name: prefix },
        ),
        lookup(s, prefix + ".weight"@) is None ==> linear_outcome(s, q, prefix) == Outcome::Done(
            Seq::empty(),
        ),
{
}

/// An output projection of its own is a linear layer that has to be there.
pub proof fn law_output_projection(
    s: Seq<(Seq<char>, TensorInfo)>,
    q: QuantSettings,
    prefix: Seq<char>,
)
    ensures
        lookup(s, prefix + ".weight"@) is None ==> head_outcome(s, q, prefix) == Outcome::Refused(
            Refusal { kind: LoadErrorKind::HeadMissing, name: prefix },
        ),
        lookup(s, prefix + ".weight"@) is Some ==> head_outcome(s, q, prefix) == linear_outcome(
            s,
            q,
            prefix,
        ),
{
}

/// A projection that is affine or dense: scales of another mode are refused, whether or
/// not there are values.
pub proof fn law_affine_projection(
    s: Seq<(Seq<char>, TensorInfo)>,
    q: QuantSettings,
    prefix: Seq<char>,
    w: TensorInfo,
)
    ensures
        lookup(s, prefix + ".scales"@) is Some && !(q.of(prefix).mode is Affine) ==> affine_outcome(
            s,
            q,
            prefix,
        ) == Outcome::Refused(
            Refusal { kind: LoadErrorKind::NonAffine { mode: q.of(prefix).mode }, name: prefix },
        ),
        lookup(s, prefix + ".scales"@) is Some && q.of(prefix).mode is Affine && lookup(
            s,
            prefix + ".weight"@,
        ) is Some ==> affine_outcome(s, q, prefix) == Outcome::Done(
            seq![InstallView { name: prefix, how: How::AffineGroup { quant: q.of(prefix) } }],
        ),
        lookup(s, prefix + ".scales"@) is None && lookup(s, prefix + ".weight"@) == Some(w)
            && w.dtype.floating() ==> affine_outcome(s, q, prefix) == Outcome::Done(
            seq![
                InstallView { name: prefix + ".weight"@, how: How::Dense { array: w.array } },
            ],
        ),
        lookup(s, prefix + ".scales"@) is None && lookup(s, prefix + ".weight"@) is None
            ==> affine_outcome(s, q, prefix) == Outcome::Done(Seq::empty()),
{
}

/// A stack of experts is never of int8 storage. With values and scales it is quantized,
/// with values alone dense, and without either a bare tensor of its name is taken.
pub proof fn law_stack_of_experts(
    s: Seq<(Seq<char>, TensorInfo)>,
    q: QuantSettings,
    prefix: Seq<char>,
    w: TensorInfo,
)
    ensures
        q.of(prefix).mode is Sym8 ==> experts_outcome(s, q, prefix) is Refused,
        lookup(s, prefix + ".weight"@) == Some(w) && w.dtype is Int8 ==> experts_outcome(
            s,
            q,
            prefix,
        ) is Refused,
        !(q.of(prefix).mode is Sym8) && lookup(s, prefix + ".weight"@) == Some(w) && !(
        w.dtype is Int8) && lookup(s, prefix + ".scales"@) is Some ==> experts_outcome(s, q, prefix)
            == Outcome::Done(
            seq![InstallView { name: prefix, how: How::QuantizedSwitch { quant: q.of(prefix) } }],
        ),
        !(q.of(prefix).mode is Sym8) && lookup(s, prefix + ".weight"@) == Some(w)
            && w.dtype.floating() && lookup(s, prefix + ".scales"@) is None ==> experts_outcome(
            s,
            q,
            prefix,
        ) == Outcome::Done(
            seq![
                InstallView { name: prefix + ".weight"@, how: How::Dense { array: w.array } },
            ],
        ),
        !(q.of(prefix).mode is Sym8) && lookup(s, prefix + ".weight"@) is None && lookup(s, prefix)
            == Some(w) && w.dtype.floating() ==> experts_outcome(s, q, prefix) == Outcome::Done(
            seq![InstallView { name: prefix, how: How::Dense { array: w.array } }],
        ),
{
}

/// A feed-forward part whose three projections are quantized, or all dense without
/// scales and biases, is put in as such: gate, up and down, each under its name.
#[verifier::rlimit(40)]
pub proof fn law_feed_forward_part(
    s: Seq<(Seq<char>, TensorInfo)>,
    q: QuantSettings,
    prefix: Seq<char>,
    gate: TensorInfo,
    up: TensorInfo,
    down: TensorInfo,
)
    requires
        lookup(s, prefix + ".gate_proj"@ + ".weight"@) == Some(gate),
        lookup(s, prefix + ".up_proj"@ + ".weight"@) == Some(up),
        lookup(s, prefix + ".down_proj"@ + ".weight"@) == Some(down),
        !(gate.dtype is Int8),
        !(up.dtype is Int8),
        !(down.dtype is Int8),
    ensures
        lookup(s, prefix + ".gate_proj"@ + ".scales"@) is Some && lookup(
            s,
            prefix + ".up_proj"@ + ".scales"@,
        ) is Some && lookup(s, prefix + ".down_proj"@ + ".scales"@) is Some ==> mlp_outcome(
            s,
            q,
            prefix,
        ) == Outcome::Done(
            seq![
                InstallView {
                    name: prefix + ".gate_proj"@,
                    how: How::Quantized { quant: q.of(prefix + ".gate_proj"@) },
                },
                InstallView {
                    name: prefix + ".up_proj"@,
                    how: How::Quantized { quant: q.of(prefix + ".up_proj"@) },
                },
                InstallView {
                    name: prefix + ".down_proj"@,
                    how: How::Quantized { quant: q.of(prefix + ".down_proj"@) },
                },
            ],
        ),
        sidecars(s, prefix) == no_sidecars() && !has_group(s, prefix + ".gate_proj"@) && !has_group(
            s,
            prefix + ".up_proj"@,
        ) && !has_group(s, prefix + ".down_proj"@) && gate.dtype.floating() && up.dtype.floating()
            && down.dtype.floating() ==> mlp_outcome(s, q, prefix) == Outcome::Done(
            seq![
                InstallView {
                    name: prefix + ".gate_proj"@ + ".weight"@,
                    how: How::Dense { array: gate.array },
                },
                InstallView {
                    name: prefix + ".up_proj"@ + ".weight"@,
                    how: How::Dense { array: up.array },
                },
                InstallView {
                    name: prefix + ".down_proj"@ + ".weight"@,
                    how: How::Dense { array: down.array },
                },
            ],
        ),
{
    let v = mlp_outcome(s, q, prefix);
    let g = prefix + ".gate_proj"@;
    let u = prefix + ".up_proj"@;
    let d = prefix + ".down_proj"@;
    if has_group(s, g) && has_group(s, u) && has_group(s, d) {
        assert(v->Done_0 =~= seq![
            InstallView { name: g, how: How::Quantized { quant: q.of(g) } },
            InstallView { name: u, how: How::Quantized { quant: q.of(u) } },
            InstallView { name: d, how: How::Quantized { quant: q.of(d) } },
        ]);
    } else if sidecars(s, prefix) == no_sidecars() && !has_group(s, g) && !has_group(s, u)
        && !has_group(s, d) && gate.dtype.floating() && up.dtype.floating()
        && down.dtype.floating() {
        assert(v->Done_0 =~= seq![
            InstallView { name: g + ".weight"@, how: How::Dense { array: gate.array } },
            InstallView { name: u + ".weight"@, how: How::Dense { array: up.array } },
            InstallView { name: d + ".weight"@, how: How::Dense { array: down.array } },
        ]);
    }
}

/// Scales and biases of a feed-forward part are seen each under its own name.
pub proof fn law_scales_and_biases_are_seen(s: Seq<(Seq<char>, TensorInfo)>, prefix: Seq<char>)
    ensures
        sidecars(s, prefix).gate_scales == (lookup(s, prefix + ".gate_proj.scales"@) is Some),
        sidecars(s, prefix).gate_biases == (lookup(s, prefix + ".gate_proj.biases"@) is Some),
        sidecars(s, prefix).up_scales == (lookup(s, prefix + ".up_proj.scales"@) is Some),
        sidecars(s, prefix).up_biases == (lookup(s, prefix + ".up_proj.biases"@) is Some),
        sidecars(s, prefix).down_scales == (lookup(s, prefix + ".down_proj.scales"@) is Some),
        sidecars(s, prefix).down_biases == (lookup(s, prefix + ".down_proj.biases"@) is Some),
        sidecars(s, prefix) == no_sidecars() <==> lookup(s, prefix + ".gate_proj.scales"@) is None
            && lookup(s, prefix + ".gate_proj.biases"@) is None && lookup(
            s,
            prefix + ".up_proj.scales"@,
        ) is None && lookup(s, prefix + ".up_proj.biases"@) is None && lookup(
            s,
            prefix + ".down_proj.scales"@,
        ) is None && lookup(s, prefix + ".down_proj.biases"@) is None,
{
}

/// The token embedding: dense where it has no scales, and then it may be the output
/// projection too; packed where it has. Affine scales are never bytes; those of MXFP8
/// are, come without biases, and fit 8 bits in groups of 32. No other mode is taken.
#[verifier::rlimit(40)]
pub proof fn law_token_embedding(
    s: Seq<(Seq<char>, TensorInfo)>,
    q: QuantSettings,
    prefix: Seq<char>,
    tied: bool,
    w: TensorInfo,
    scales: TensorInfo,
)
    requires
        lookup(s, prefix + ".weight"@) == Some(w),
    ensures
        lookup(s, prefix + ".scales"@) is None && w.dtype.floating() && tied ==> embedding_outcome(
            s,
            q,
            prefix,
            tied,
        ) == Outcome::Done(
            seq![
                InstallView { name: prefix + ".weight"@, how: How::DenseTied { array: w.array } },
            ],
        ),
        lookup(s, prefix + ".scales"@) is None && w.dtype.floating() && !tied ==> embedding_outcome(
            s,
            q,
            prefix,
            tied,
        ) == Outcome::Done(
            seq![
                InstallView { name: prefix + ".weight"@, how: How::Dense { array: w.array } },
            ],
        ),
        lookup(s, prefix + ".scales"@) is None && !w.dtype.floating() ==> embedding_outcome(
            s,
            q,
            prefix,
            tied,
        ) is Refused,
        lookup(s, prefix + ".scales"@) == Some(scales) && q.of(prefix).mode is Affine && !(
        scales.dtype is Uint8) ==> embedding_outcome(s, q, prefix, tied) == Outcome::Done(
            seq![
                InstallView {
                    name: prefix,
                    how: How::Packed {
                        group_size: q.of(prefix).group_size,
                        bits: q.of(prefix).bits,
                        mxfp8: false,
                        biases: match lookup(s, prefix + ".biases"@) {
                            Some(b) => Some(b.array),
                            None => None,
                        },
                    },
                },
            ],
        ),
        lookup(s, prefix + ".scales"@) == Some(scales) && q.of(prefix).mode is Affine
            && scales.dtype is Uint8 ==> embedding_outcome(s, q, prefix, tied) is Refused,
        lookup(s, prefix + ".scales"@) == Some(scales) && q.of(prefix).mode is Mxfp8 ==> (
        embedding_outcome(s, q, prefix, tied) is Done <==> lookup(s, prefix + ".biases"@) is None
            && scales.dtype is Uint8 && w.last_dim is Some && scales.last_dim is Some
            && w.last_dim->0 * 4 == scales.last_dim->0 * 32),
        lookup(s, prefix + ".scales"@) == Some(scales) && q.of(prefix).mode is Mxfp8
            && embedding_outcome(s, q, prefix, tied) is Done ==> embedding_outcome(s, q, prefix, tied)
            == Outcome::Done(
            seq![
                InstallView {
                    name: prefix,
                    how: How::Packed { group_size: 32, bits: 8, mxfp8: true, biases: None },
                },
            ],
        ),
        lookup(s, prefix + ".scales"@) == Some(scales) && !(q.of(prefix).mode is Affine) && !(q.of(
            prefix,
        ).mode is Mxfp8) ==> embedding_outcome(s, q, prefix, tied) is Refused,
{
}

/// A layer norm is its weight, with the bias where there is one.
pub proof fn law_layer_norm(
    s: Seq<(Seq<char>, TensorInfo)>,
    prefix: Seq<char>,
    w: TensorInfo,
    b: TensorInfo,
)
    ensures
        lookup(s, prefix + ".weight"@) == Some(w) && lookup(s, prefix + ".bias"@) == Some(b)
            ==> norm_outcome(s, prefix) == Outcome::Done(
            seq![
                InstallView {
                    name: prefix,
                    how: How::LayerNorm { weight: w.array, bias: Some(b.array) },
                },
            ],
        ),
        lookup(s, prefix + ".weight"@) == Some(w) && lookup(s, prefix + ".bias"@) is None
            ==> norm_outcome(s, prefix) == Outcome::Done(
            seq![
                InstallView { name: prefix, how: How::LayerNorm { weight: w.array, bias: None } },
            ],
        ),
        lookup(s, prefix + ".weight"@) is None ==> norm_outcome(s, prefix) == Outcome::Done(
            Seq::empty(),
        ),
{
}

/// Clip bounds are put in where all four are there, each as what it is; with one
/// missing none is.
pub proof fn law_clip_bounds(
    s: Seq<(Seq<char>, TensorInfo)>,
    prefix: Seq<char>,
    a: TensorInfo,
    b: TensorInfo,
    c: TensorInfo,
    d: TensorInfo,
)
    ensures
        lookup(s, prefix + ".input_min"@) == Some(a) && lookup(s, prefix + ".input_max"@) == Some(b)
            && lookup(s, prefix + ".output_min"@) == Some(c) && lookup(s, prefix + ".output_max"@)
            == Some(d) ==> clip_outcome(s, prefix) == Outcome::Done(
            seq![
                InstallView {
                    name: prefix,
                    how: How::Clip {
                        input_min: a.array,
                        input_max: b.array,
                        output_min: c.array,
                        output_max: d.array,
                    },
                },
            ],
        ),
        lookup(s, prefix + ".input_min"@) is None || lookup(s, prefix + ".input_max"@) is None
            || lookup(s, prefix + ".output_min"@) is None || lookup(
            s,
            prefix + ".output_max"@,
        ) is None ==> clip_outcome(s, prefix) == Outcome::Done(Seq::empty()),
{
}

/// Rules are followed in order. What all of them give is put in, one after the other;
/// the first that refuses refuses the whole.
pub proof fn law_rules_are_followed_in_order(
    s: Seq<(Seq<char>, TensorInfo)>,
    q: QuantSettings,
    a: Seq<RuleView>,
    b: Seq<RuleView>,
)
    ensures
        rules_outcome(s, q, a) is Refused ==> rules_outcome(s, q, a + b) == rules_outcome(s, q, a),
        rules_outcome(s, q, a) is Done && rules_outcome(s, q, b) is Refused ==> rules_outcome(
            s,
            q,
            a + b,
        ) == rules_outcome(s, q, b),
        rules_outcome(s, q, a) is Done && rules_outcome(s, q, b) is Done ==> rules_outcome(
            s,
            q,
            a + b,
        ) == Outcome::Done(rules_outcome(s, q, a)->Done_0 + rules_outcome(s, q, b)->Done_0),
    decreases b.len(),
{
    if b.len() == 0 {
        assert(a + b =~= a);
        if rules_outcome(s, q, a) is Done {
            assert(rules_outcome(s, q, a)->Done_0 + Seq::<InstallView>::empty() =~= rules_outcome(
                s,
                q,
                a,
            )->Done_0);
        }
    } else {
        assert((a + b).drop_last() =~= a + b.drop_last());
        assert((a + b).last() == b.last());
        law_rules_are_followed_in_order(s, q, a, b.drop_last());
        if rules_outcome(s, q, a) is Done && rules_outcome(s, q, b) is Done {
            let x = rules_outcome(s, q, a)->Done_0;
            let y = rules_outcome(s, q, b.drop_last())->Done_0;
            let z = rule_outcome(s, q, b.last())->Done_0;
            assert((x + y) + z =~= x + (y + z));
        }
    }
}

/// One rule gives what its kind of part gives.
pub proof fn law_kinds_of_rules(
    s: Seq<(Seq<char>, TensorInfo)>,
    q: QuantSettings,
    name: Seq<char>,
    tied: bool,
)
    ensures
        rule_outcome(s, q, RuleView { kind: RuleKind::Tensor, name }) == tensor_outcome(s, name),
        rule_outcome(s, q, RuleView { kind: RuleKind::Dense, name }) == dense_outcome(s, name),
        rule_outcome(s, q, RuleView { kind: RuleKind::Linear, name }) == linear_outcome(s, q, name),
        rule_outcome(s, q, RuleView { kind: RuleKind::Head, name }) == head_outcome(s, q, name),
        rule_outcome(s, q, RuleView { kind: RuleKind::Mlp, name }) == mlp_outcome(s, q, name),
        rule_outcome(s, q, RuleView { kind: RuleKind::AffineOnly, name }) == affine_outcome(
            s,
            q,
            name,
        ),
        rule_outcome(s, q, RuleView { kind: RuleKind::Experts, name }) == experts_outcome(
            s,
            q,
            name,
        ),
        rule_outcome(s, q, RuleView { kind: RuleKind::Embedding { tied }, name })
            == embedding_outcome(s, q, name, tied),
        rule_outcome(s, q, RuleView { kind: RuleKind::LayerNorm, name }) == norm_outcome(s, name),
        rule_outcome(s, q, RuleView { kind: RuleKind::Clip, name }) == clip_outcome(s, name),
{
}

/// A checkpoint with scales that are bytes is of the MX family, whatever tensor they
/// belong to.
pub proof fn law_byte_scales_are_noticed(
    s: Seq<(Seq<char>, TensorInfo)>,
    i: int,
    prefix: Seq<char>,
)
    requires
        0 <= i < s.len(),
        s[i].0 == prefix + ".scales"@,
        s[i].1.dtype is Uint8,
    ensures
        has_uint8_scales(s),
{
    assert(s[i].0.skip(s[i].0.len() - ".scales"@.len()) =~= ".scales"@);
    assert(".scales"@.is_suffix_of(s[i].0));
}

/// A list of missing parts holds exactly those that are missing, gate first and down last,
/// with a comma and a blank between them.
pub proof fn law_lists_of_missing_parts(gate: bool, up: bool)
    ensures
        missing_list(false, false, false).len() == 0,
        missing_list(true, false, false) == "gate_proj"@,
        missing_list(false, true, false) == "up_proj"@,
        missing_list(true, true, false) == "gate_proj"@ + ", "@ + "up_proj"@,
        missing_list(gate, up, true) == if gate || up {
            missing_list(gate, up, false) + ", "@ + "down_proj"@
        } else {
            "down_proj"@
        },
{
    reveal_strlit("gate_proj");
    reveal_strlit("up_proj");
    reveal_strlit("down_proj");
    reveal_strlit(", ");
}

/// A list of tensors without a group holds what was found, and nothing else.
pub proof fn law_lists_of_orphans(n: Seq<char>, found: Sidecars)
    ensures
        !found.gate_scales && !found.gate_biases && !found.up_scales && !found.up_biases
            && !found.down_scales && !found.down_biases ==> sidecar_list(n, found).len() == 0,
        found.gate_scales && !found.gate_biases && !found.up_scales && !found.up_biases && !found.down_scales && !found.down_biases ==> sidecar_list(
            n,
            found,
        ) == n + ".gate_proj.scales"@,
        !found.gate_scales && found.gate_biases && !found.up_scales && !found.up_biases && !found.down_scales && !found.down_biases ==> sidecar_list(
            n,
            found,
        ) == n + ".gate_proj.biases"@,
        !found.gate_scales && !found.gate_biases && found.up_scales && !found.up_biases && !found.down_scales && !found.down_biases ==> sidecar_list(
            n,
            found,
        ) == n + ".up_proj.scales"@,
        !found.gate_scales && !found.gate_biases && !found.up_scales && found.up_biases && !found.down_scales && !found.down_biases ==> sidecar_list(
            n,
            found,
        ) == n + ".up_proj.biases"@,
        !found.gate_scales && !found.gate_biases && !found.up_scales && !found.up_biases && found.down_scales && !found.down_biases ==> sidecar_list(
            n,
            found,
        ) == n + ".down_proj.scales"@,
        !found.gate_scales && !found.gate_biases && !found.up_scales && !found.up_biases && !found.down_scales && found.down_biases ==> sidecar_list(
            n,
            found,
        ) == n + ".down_proj.biases"@,
        found.gate_scales && found.down_scales && !found.gate_biases && !found.up_scales
            && !found.up_biases && !found.down_biases ==> sidecar_list(n, found) == n
            + ".gate_proj.scales"@ + ", "@ + (n + ".down_proj.scales"@),
{
    reveal_strlit(".gate_proj.scales");
    reveal_strlit(".gate_proj.biases");
    reveal_strlit(".up_proj.scales");
    reveal_strlit(".up_proj.biases");
    reveal_strlit(".down_proj.scales");
    reveal_strlit(".down_proj.biases");
}

/// A message about a tensor begins with its name, behind a few words, and one about a type
/// or a mode that does not fit ends with it.
pub proof fn law_messages_about_a_tensor(name: String, dtype: DType, mode: PerLayerMode)
    ensures
        ({
            let t = (LoadError { kind: LoadErrorKind::NonFloat { dtype }, name }).text();
            &&& ("gemma4: refusing to load '"@ + name@).is_prefix_of(t)
            &&& dtype.text().is_suffix_of(t)
        }),
        ({
            let t = (LoadError { kind: LoadErrorKind::Int8Drift { mode }, name }).text();
            &&& ("gemma4: '"@ + name@).is_prefix_of(t)
            &&& mode.text().is_suffix_of(t)
        }),
        ({
            let t = (LoadError { kind: LoadErrorKind::NonAffine { mode }, name }).text();
            &&& ("gemma4 "@ + name@).is_prefix_of(t)
            &&& (mode.text() + " is not supported; affine only"@).is_suffix_of(t)
        }),
        ({
            let t = (LoadError { kind: LoadErrorKind::PackedWeightRank, name }).text();
            &&& ("gemma4 "@ + name@).is_prefix_of(t)
            &&& " load: weight is 0-rank"@.is_suffix_of(t)
        }),
        ({
            let t = (LoadError { kind: LoadErrorKind::PackedScalesRank, name }).text();
            &&& ("gemma4 "@ + name@).is_prefix_of(t)
            &&& " load: scales is 0-rank"@.is_suffix_of(t)
        }),
{
    let n = name@;
    law_ends_of_a_text(
        "gemma4: refusing to load '"@ + n,
        "' as a dense weight: non-float dtype "@,
        dtype.text(),
    );
    law_ends_of_a_text(
        "gemma4: '"@ + n,
        ".weight' is int8 (sym8 storage) but its quantization mode resolves to "@,
        mode.text(),
    );
    let last = mode.text() + " is not supported; affine only"@;
    law_ends_of_a_text("gemma4 "@ + n, " load: Non-affine FP mode "@, last);
    assert((LoadError { kind: LoadErrorKind::NonAffine { mode }, name }).text() =~= "gemma4 "@ + n
        + " load: Non-affine FP mode "@ + last);
    law_ends_of_a_text("gemma4 "@, n, " load: weight is 0-rank"@);
    law_ends_of_a_text("gemma4 "@, n, " load: scales is 0-rank"@);
}

} // verus!
