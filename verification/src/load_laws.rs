//! What a checkpoint that loads guarantees: nothing that the model needs keeps the
//! values that it was made with.

use vstd::prelude::*;

use crate::config::Gemma4Config;
use crate::experts::ArrayConcat;
use crate::experts::PerLayerQuant;
use crate::experts::joined;
use crate::experts::Fusion;
use crate::experts::law_fused_parts_are_gone;
use crate::experts::law_settings_of_fused_experts;
use crate::experts::with_fused_quants;
use crate::install::rule_outcome;
use crate::install::rules_outcome;
use crate::install::InstallView;
use crate::install::QuantSettings;
use crate::install::RuleKind;
use crate::install::RuleView;
use crate::install_plan::at;
use crate::install_plan::audio_parts;
use crate::install_plan::embedder_parts;
use crate::install_plan::encoder_block_parts;
use crate::install_plan::encoder_norm_parts;
use crate::install_plan::encoder_part;
use crate::install_plan::encoder_parts;
use crate::install_plan::encoders_parts;
use crate::install_plan::image_projection;
use crate::install_plan::layer_parts;
use crate::install_plan::layer_ple_parts;
use crate::install_plan::layers_parts;
use crate::install_plan::middle_parts;
use crate::install_plan::moe_parts;
use crate::install_plan::part;
use crate::install_plan::patch_parts;
use crate::install_plan::ple_parts;
use crate::install_plan::query_key_parts;
use crate::install_plan::std_parts;
use crate::install_plan::text_parts;
use crate::install_plan::value_parts;
use crate::install_plan::vision_parts;
use crate::load::law_mlp_is_whole;
use crate::load::law_present_linear_is_installed;
use crate::load::model_outcome;
use crate::load::prepared;
use crate::table::cut;
use crate::table::distinct;
use crate::table::law_cut_keeps_distinct;
use crate::table::law_lookup_cut;
use crate::table::law_lookup_put;
use crate::table::lookup;
use crate::weight_laws::lemma_layer_keys_differ;
use crate::weights::embedder_needs;
use crate::weights::finished_all;
use crate::weights::first_unmet;
use crate::weights::law_validated_means_all_met;
use crate::weights::layer_key;
use crate::weights::layer_needs;
use crate::weights::layers_need;
use crate::weights::lemma_put_distinct;
use crate::weights::lemma_renamed;
use crate::weights::met;
use crate::weights::model_needs;
use crate::weights::renamed;
use crate::weights::there;
use crate::weights::used;
use crate::weights::Need;
use crate::weights::TensorInfo;

verus! {

proof fn lemma_fuse_keeps(f: Fusion, gate: Seq<char>, up: Seq<char>, fused: Seq<char>, key: Seq<char>)
    requires
        distinct(f.s),
        key != gate,
        key != up,
        key != fused,
    ensures
        distinct(f.fuse(gate, up, fused).s),
        lookup(f.fuse(gate, up, fused).s, key) == lookup(f.s, key),
{
    law_cut_keeps_distinct(f.s, gate);
    law_lookup_cut(f.s, gate, key);
    let once = cut(f.s, gate);
    law_cut_keeps_distinct(once, up);
    law_lookup_cut(once, up, key);
    let rest = cut(once, up);
    match (lookup(f.s, gate), lookup(once, up)) {
        (Some(g), Some(u)) => {
            lemma_put_distinct(rest, fused, joined(g, u));
            law_lookup_put(rest, fused, joined(g, u), key);
        },
        _ => {},
    }
}

proof fn lemma_rename_keeps(f: Fusion, from: Seq<char>, to: Seq<char>, key: Seq<char>)
    requires
        distinct(f.s),
        key != from,
        key != to,
    ensures
        distinct(f.rename(from, to).s),
        lookup(f.rename(from, to).s, key) == lookup(f.s, key),
{
    law_cut_keeps_distinct(f.s, from);
    law_lookup_cut(f.s, from, key);
    let rest = cut(f.s, from);
    match (lookup(f.s, to), lookup(f.s, from)) {
        (None, Some(t)) => {
            lemma_put_distinct(rest, to, t);
            law_lookup_put(rest, to, t, key);
        },
        _ => {},
    }
}

/// Fusing the experts of layer `j` does not touch a name.
spec fn untouched(key: Seq<char>, j: int) -> bool {
    &&& key != layer_key(j, ".experts.switch_glu.gate_proj.weight"@)
    &&& key != layer_key(j, ".experts.switch_glu.up_proj.weight"@)
    &&& key != layer_key(j, ".experts.gate_up_proj.weight"@)
    &&& key != layer_key(j, ".experts.switch_glu.gate_proj.scales"@)
    &&& key != layer_key(j, ".experts.switch_glu.up_proj.scales"@)
    &&& key != layer_key(j, ".experts.gate_up_proj.scales"@)
    &&& key != layer_key(j, ".experts.switch_glu.gate_proj.biases"@)
    &&& key != layer_key(j, ".experts.switch_glu.up_proj.biases"@)
    &&& key != layer_key(j, ".experts.gate_up_proj.biases"@)
    &&& key != layer_key(j, ".experts.switch_glu.down_proj.weight"@)
    &&& key != layer_key(j, ".experts.down_proj.weight"@)
    &&& key != layer_key(j, ".experts.switch_glu.down_proj.scales"@)
    &&& key != layer_key(j, ".experts.down_proj.scales"@)
    &&& key != layer_key(j, ".experts.switch_glu.down_proj.biases"@)
    &&& key != layer_key(j, ".experts.down_proj.biases"@)
}

/// A name that goes on behind the number of its layer, but not to an expert.
spec fn beside_experts(r: Seq<char>) -> bool {
    r.len() >= 2 && r[0] == '.' && r[1] != 'e'
}

proof fn lemma_layer_name_untouched(i: int, r: Seq<char>, j: int)
    requires
        0 <= i,
        0 <= j,
        r.len() > 0,
        r[0] == '.',
        i != j || beside_experts(r),
    ensures
        untouched(layer_key(i, r), j),
{
    reveal_strlit(".experts.switch_glu.gate_proj.weight");
    reveal_strlit(".experts.switch_glu.up_proj.weight");
    reveal_strlit(".experts.gate_up_proj.weight");
    reveal_strlit(".experts.switch_glu.gate_proj.scales");
    reveal_strlit(".experts.switch_glu.up_proj.scales");
    reveal_strlit(".experts.gate_up_proj.scales");
    reveal_strlit(".experts.switch_glu.gate_proj.biases");
    reveal_strlit(".experts.switch_glu.up_proj.biases");
    reveal_strlit(".experts.gate_up_proj.biases");
    reveal_strlit(".experts.switch_glu.down_proj.weight");
    reveal_strlit(".experts.down_proj.weight");
    reveal_strlit(".experts.switch_glu.down_proj.scales");
    reveal_strlit(".experts.down_proj.scales");
    reveal_strlit(".experts.switch_glu.down_proj.biases");
    reveal_strlit(".experts.down_proj.biases");
    lemma_layer_keys_differ(i, r, j, ".experts.switch_glu.gate_proj.weight"@);
    lemma_layer_keys_differ(i, r, j, ".experts.switch_glu.up_proj.weight"@);
    lemma_layer_keys_differ(i, r, j, ".experts.gate_up_proj.weight"@);
    lemma_layer_keys_differ(i, r, j, ".experts.switch_glu.gate_proj.scales"@);
    lemma_layer_keys_differ(i, r, j, ".experts.switch_glu.up_proj.scales"@);
    lemma_layer_keys_differ(i, r, j, ".experts.gate_up_proj.scales"@);
    lemma_layer_keys_differ(i, r, j, ".experts.switch_glu.gate_proj.biases"@);
    lemma_layer_keys_differ(i, r, j, ".experts.switch_glu.up_proj.biases"@);
    lemma_layer_keys_differ(i, r, j, ".experts.gate_up_proj.biases"@);
    lemma_layer_keys_differ(i, r, j, ".experts.switch_glu.down_proj.weight"@);
    lemma_layer_keys_differ(i, r, j, ".experts.down_proj.weight"@);
    lemma_layer_keys_differ(i, r, j, ".experts.switch_glu.down_proj.scales"@);
    lemma_layer_keys_differ(i, r, j, ".experts.down_proj.scales"@);
    lemma_layer_keys_differ(i, r, j, ".experts.switch_glu.down_proj.biases"@);
    lemma_layer_keys_differ(i, r, j, ".experts.down_proj.biases"@);
}

/// A name that is not one of a layer.
spec fn outside_layers(key: Seq<char>) -> bool {
    key.len() >= 2 && (key[0] != 'l' || key[1] != 'a')
}

proof fn lemma_outside_untouched(key: Seq<char>, j: int)
    requires
        outside_layers(key),
    ensures
        untouched(key, j),
{
    reveal_strlit("layers.");
    assert forall|r: Seq<char>| key != #[trigger] layer_key(j, r) by {
        assert(layer_key(j, r)[0] == "layers."@[0]);
        assert(layer_key(j, r)[1] == "layers."@[1]);
    }
}

proof fn lemma_layer_fusion_keeps(f: Fusion, j: int, key: Seq<char>)
    requires
        distinct(f.s),
        untouched(key, j),
    ensures
        distinct(f.layer(j).s),
        lookup(f.layer(j).s, key) == lookup(f.s, key),
{
    let gw = layer_key(j, ".experts.switch_glu.gate_proj.weight"@);
    let uw = layer_key(j, ".experts.switch_glu.up_proj.weight"@);
    let fw = layer_key(j, ".experts.gate_up_proj.weight"@);
    let gs = layer_key(j, ".experts.switch_glu.gate_proj.scales"@);
    let us = layer_key(j, ".experts.switch_glu.up_proj.scales"@);
    let fs = layer_key(j, ".experts.gate_up_proj.scales"@);
    let gb = layer_key(j, ".experts.switch_glu.gate_proj.biases"@);
    let ub = layer_key(j, ".experts.switch_glu.up_proj.biases"@);
    let fb = layer_key(j, ".experts.gate_up_proj.biases"@);
    let f1 = f.fuse(gw, uw, fw);
    lemma_fuse_keeps(f, gw, uw, fw, key);
    let f2 = f1.fuse(gs, us, fs);
    lemma_fuse_keeps(f1, gs, us, fs, key);
    let f3 = f2.fuse(gb, ub, fb);
    lemma_fuse_keeps(f2, gb, ub, fb, key);
    let dw = layer_key(j, ".experts.switch_glu.down_proj.weight"@);
    let ew = layer_key(j, ".experts.down_proj.weight"@);
    let f4 = f3.rename(dw, ew);
    lemma_rename_keeps(f3, dw, ew, key);
    let ds = layer_key(j, ".experts.switch_glu.down_proj.scales"@);
    let es = layer_key(j, ".experts.down_proj.scales"@);
    let f5 = f4.rename(ds, es);
    lemma_rename_keeps(f4, ds, es, key);
    let db = layer_key(j, ".experts.switch_glu.down_proj.biases"@);
    let eb = layer_key(j, ".experts.down_proj.biases"@);
    lemma_rename_keeps(f5, db, eb, key);
}

proof fn lemma_fusion_keeps(f: Fusion, n: int, key: Seq<char>)
    requires
        distinct(f.s),
        forall|j: int| 0 <= j < n ==> #[trigger] untouched(key, j),
    ensures
        distinct(f.layers(n).s),
        lookup(f.layers(n).s, key) == lookup(f.s, key),
    decreases n,
{
    if n > 0 {
        lemma_fusion_keeps(f, n - 1, key);
        assert(untouched(key, n - 1));
        lemma_layer_fusion_keeps(f.layers(n - 1), n - 1, key);
    }
}

/// One stack of experts is there, with a suffix or without.
spec fn stacked(s: Seq<(Seq<char>, TensorInfo)>, i: int, r: Seq<char>) -> bool {
    there(s, layer_key(i, r)) || there(s, layer_key(i, r) + ".weight"@)
}

proof fn lemma_stack_names(i: int)
    ensures
        layer_key(i, ".experts.gate_up_proj"@) + ".weight"@ == layer_key(
            i,
            ".experts.gate_up_proj.weight"@,
        ),
        layer_key(i, ".experts.down_proj"@) + ".weight"@ == layer_key(
            i,
            ".experts.down_proj.weight"@,
        ),
{
    reveal_strlit(".weight");
    reveal_strlit(".experts.gate_up_proj");
    reveal_strlit(".experts.down_proj");
    reveal_strlit(".experts.gate_up_proj.weight");
    reveal_strlit(".experts.down_proj.weight");
    assert(".experts.gate_up_proj"@ + ".weight"@ =~= ".experts.gate_up_proj.weight"@);
    assert(".experts.down_proj"@ + ".weight"@ =~= ".experts.down_proj.weight"@);
    lemma_key_suffix(i, ".experts.gate_up_proj"@, ".weight"@, ".experts.gate_up_proj.weight"@);
    lemma_key_suffix(i, ".experts.down_proj"@, ".weight"@, ".experts.down_proj.weight"@);
}

/// Names of expert tensors of one layer that differ in length or in a letter are
/// different.
proof fn lemma_rest_differs(i: int, r: Seq<char>, e: Seq<char>, k: int)
    requires
        0 <= i,
        r.len() > 0,
        e.len() > 0,
        r[0] == '.',
        e[0] == '.',
        r.len() != e.len() || (0 <= k < r.len() && r[k] != e[k]),
    ensures
        layer_key(i, r) != layer_key(i, e),
{
    lemma_layer_keys_differ(i, r, i, e);
}

proof fn lemma_bare_gate_up(i: int)
    requires
        0 <= i,
    ensures
        layer_key(i, ".experts.gate_up_proj"@) != layer_key(i, ".experts.switch_glu.gate_proj.weight"@),
        layer_key(i, ".experts.gate_up_proj"@) != layer_key(i, ".experts.switch_glu.up_proj.weight"@),
        layer_key(i, ".experts.gate_up_proj"@) != layer_key(i, ".experts.gate_up_proj.weight"@),
        layer_key(i, ".experts.gate_up_proj"@) != layer_key(i, ".experts.switch_glu.gate_proj.scales"@),
        layer_key(i, ".experts.gate_up_proj"@) != layer_key(i, ".experts.switch_glu.up_proj.scales"@),
        layer_key(i, ".experts.gate_up_proj"@) != layer_key(i, ".experts.gate_up_proj.scales"@),
        layer_key(i, ".experts.gate_up_proj"@) != layer_key(i, ".experts.switch_glu.gate_proj.biases"@),
        layer_key(i, ".experts.gate_up_proj"@) != layer_key(i, ".experts.switch_glu.up_proj.biases"@),
        layer_key(i, ".experts.gate_up_proj"@) != layer_key(i, ".experts.gate_up_proj.biases"@),
        layer_key(i, ".experts.gate_up_proj"@) != layer_key(i, ".experts.switch_glu.down_proj.weight"@),
        layer_key(i, ".experts.gate_up_proj"@) != layer_key(i, ".experts.down_proj.weight"@),
        layer_key(i, ".experts.gate_up_proj"@) != layer_key(i, ".experts.switch_glu.down_proj.scales"@),
        layer_key(i, ".experts.gate_up_proj"@) != layer_key(i, ".experts.down_proj.scales"@),
        layer_key(i, ".experts.gate_up_proj"@) != layer_key(i, ".experts.switch_glu.down_proj.biases"@),
        layer_key(i, ".experts.gate_up_proj"@) != layer_key(i, ".experts.down_proj.biases"@),
{
    reveal_strlit(".experts.gate_up_proj");
    reveal_strlit(".experts.switch_glu.gate_proj.weight");
    reveal_strlit(".experts.switch_glu.up_proj.weight");
    reveal_strlit(".experts.gate_up_proj.weight");
    reveal_strlit(".experts.switch_glu.gate_proj.scales");
    reveal_strlit(".experts.switch_glu.up_proj.scales");
    reveal_strlit(".experts.gate_up_proj.scales");
    reveal_strlit(".experts.switch_glu.gate_proj.biases");
    reveal_strlit(".experts.switch_glu.up_proj.biases");
    reveal_strlit(".experts.gate_up_proj.biases");
    reveal_strlit(".experts.switch_glu.down_proj.weight");
    reveal_strlit(".experts.down_proj.weight");
    reveal_strlit(".experts.switch_glu.down_proj.scales");
    reveal_strlit(".experts.down_proj.scales");
    reveal_strlit(".experts.switch_glu.down_proj.biases");
    reveal_strlit(".experts.down_proj.biases");
    lemma_rest_differs(i, ".experts.gate_up_proj"@, ".experts.switch_glu.gate_proj.weight"@, 0);
    lemma_rest_differs(i, ".experts.gate_up_proj"@, ".experts.switch_glu.up_proj.weight"@, 0);
    lemma_rest_differs(i, ".experts.gate_up_proj"@, ".experts.gate_up_proj.weight"@, 0);
    lemma_rest_differs(i, ".experts.gate_up_proj"@, ".experts.switch_glu.gate_proj.scales"@, 0);
    lemma_rest_differs(i, ".experts.gate_up_proj"@, ".experts.switch_glu.up_proj.scales"@, 0);
    lemma_rest_differs(i, ".experts.gate_up_proj"@, ".experts.gate_up_proj.scales"@, 0);
    lemma_rest_differs(i, ".experts.gate_up_proj"@, ".experts.switch_glu.gate_proj.biases"@, 0);
    lemma_rest_differs(i, ".experts.gate_up_proj"@, ".experts.switch_glu.up_proj.biases"@, 0);
    lemma_rest_differs(i, ".experts.gate_up_proj"@, ".experts.gate_up_proj.biases"@, 0);
    lemma_rest_differs(i, ".experts.gate_up_proj"@, ".experts.switch_glu.down_proj.weight"@, 0);
    lemma_rest_differs(i, ".experts.gate_up_proj"@, ".experts.down_proj.weight"@, 0);
    lemma_rest_differs(i, ".experts.gate_up_proj"@, ".experts.switch_glu.down_proj.scales"@, 0);
    lemma_rest_differs(i, ".experts.gate_up_proj"@, ".experts.down_proj.scales"@, 0);
    lemma_rest_differs(i, ".experts.gate_up_proj"@, ".experts.switch_glu.down_proj.biases"@, 0);
    lemma_rest_differs(i, ".experts.gate_up_proj"@, ".experts.down_proj.biases"@, 0);
}

proof fn lemma_bare_down(i: int)
    requires
        0 <= i,
    ensures
        layer_key(i, ".experts.down_proj"@) != layer_key(i, ".experts.switch_glu.gate_proj.weight"@),
        layer_key(i, ".experts.down_proj"@) != layer_key(i, ".experts.switch_glu.up_proj.weight"@),
        layer_key(i, ".experts.down_proj"@) != layer_key(i, ".experts.gate_up_proj.weight"@),
        layer_key(i, ".experts.down_proj"@) != layer_key(i, ".experts.switch_glu.gate_proj.scales"@),
        layer_key(i, ".experts.down_proj"@) != layer_key(i, ".experts.switch_glu.up_proj.scales"@),
        layer_key(i, ".experts.down_proj"@) != layer_key(i, ".experts.gate_up_proj.scales"@),
        layer_key(i, ".experts.down_proj"@) != layer_key(i, ".experts.switch_glu.gate_proj.biases"@),
        layer_key(i, ".experts.down_proj"@) != layer_key(i, ".experts.switch_glu.up_proj.biases"@),
        layer_key(i, ".experts.down_proj"@) != layer_key(i, ".experts.gate_up_proj.biases"@),
        layer_key(i, ".experts.down_proj"@) != layer_key(i, ".experts.switch_glu.down_proj.weight"@),
        layer_key(i, ".experts.down_proj"@) != layer_key(i, ".experts.down_proj.weight"@),
        layer_key(i, ".experts.down_proj"@) != layer_key(i, ".experts.switch_glu.down_proj.scales"@),
        layer_key(i, ".experts.down_proj"@) != layer_key(i, ".experts.down_proj.scales"@),
        layer_key(i, ".experts.down_proj"@) != layer_key(i, ".experts.switch_glu.down_proj.biases"@),
        layer_key(i, ".experts.down_proj"@) != layer_key(i, ".experts.down_proj.biases"@),
{
    reveal_strlit(".experts.down_proj");
    reveal_strlit(".experts.switch_glu.gate_proj.weight");
    reveal_strlit(".experts.switch_glu.up_proj.weight");
    reveal_strlit(".experts.gate_up_proj.weight");
    reveal_strlit(".experts.switch_glu.gate_proj.scales");
    reveal_strlit(".experts.switch_glu.up_proj.scales");
    reveal_strlit(".experts.gate_up_proj.scales");
    reveal_strlit(".experts.switch_glu.gate_proj.biases");
    reveal_strlit(".experts.switch_glu.up_proj.biases");
    reveal_strlit(".experts.gate_up_proj.biases");
    reveal_strlit(".experts.switch_glu.down_proj.weight");
    reveal_strlit(".experts.down_proj.weight");
    reveal_strlit(".experts.switch_glu.down_proj.scales");
    reveal_strlit(".experts.down_proj.scales");
    reveal_strlit(".experts.switch_glu.down_proj.biases");
    reveal_strlit(".experts.down_proj.biases");
    lemma_rest_differs(i, ".experts.down_proj"@, ".experts.switch_glu.gate_proj.weight"@, 0);
    lemma_rest_differs(i, ".experts.down_proj"@, ".experts.switch_glu.up_proj.weight"@, 0);
    lemma_rest_differs(i, ".experts.down_proj"@, ".experts.gate_up_proj.weight"@, 0);
    lemma_rest_differs(i, ".experts.down_proj"@, ".experts.switch_glu.gate_proj.scales"@, 0);
    lemma_rest_differs(i, ".experts.down_proj"@, ".experts.switch_glu.up_proj.scales"@, 0);
    lemma_rest_differs(i, ".experts.down_proj"@, ".experts.gate_up_proj.scales"@, 0);
    lemma_rest_differs(i, ".experts.down_proj"@, ".experts.switch_glu.gate_proj.biases"@, 0);
    lemma_rest_differs(i, ".experts.down_proj"@, ".experts.switch_glu.up_proj.biases"@, 0);
    lemma_rest_differs(i, ".experts.down_proj"@, ".experts.gate_up_proj.biases"@, 0);
    lemma_rest_differs(i, ".experts.down_proj"@, ".experts.switch_glu.down_proj.weight"@, 0);
    lemma_rest_differs(i, ".experts.down_proj"@, ".experts.down_proj.weight"@, 0);
    lemma_rest_differs(i, ".experts.down_proj"@, ".experts.switch_glu.down_proj.scales"@, 0);
    lemma_rest_differs(i, ".experts.down_proj"@, ".experts.down_proj.scales"@, 0);
    lemma_rest_differs(i, ".experts.down_proj"@, ".experts.switch_glu.down_proj.biases"@, 0);
    lemma_rest_differs(i, ".experts.down_proj"@, ".experts.down_proj.biases"@, 0);
}

proof fn lemma_fused_gate_up(i: int)
    requires
        0 <= i,
    ensures
        layer_key(i, ".experts.gate_up_proj.weight"@) != layer_key(i, ".experts.switch_glu.gate_proj.weight"@),
        layer_key(i, ".experts.gate_up_proj.weight"@) != layer_key(i, ".experts.switch_glu.up_proj.weight"@),
        layer_key(i, ".experts.gate_up_proj.weight"@) != layer_key(i, ".experts.switch_glu.gate_proj.scales"@),
        layer_key(i, ".experts.gate_up_proj.weight"@) != layer_key(i, ".experts.switch_glu.up_proj.scales"@),
        layer_key(i, ".experts.gate_up_proj.weight"@) != layer_key(i, ".experts.gate_up_proj.scales"@),
        layer_key(i, ".experts.gate_up_proj.weight"@) != layer_key(i, ".experts.switch_glu.gate_proj.biases"@),
        layer_key(i, ".experts.gate_up_proj.weight"@) != layer_key(i, ".experts.switch_glu.up_proj.biases"@),
        layer_key(i, ".experts.gate_up_proj.weight"@) != layer_key(i, ".experts.gate_up_proj.biases"@),
        layer_key(i, ".experts.gate_up_proj.weight"@) != layer_key(i, ".experts.switch_glu.down_proj.weight"@),
        layer_key(i, ".experts.gate_up_proj.weight"@) != layer_key(i, ".experts.down_proj.weight"@),
        layer_key(i, ".experts.gate_up_proj.weight"@) != layer_key(i, ".experts.switch_glu.down_proj.scales"@),
        layer_key(i, ".experts.gate_up_proj.weight"@) != layer_key(i, ".experts.down_proj.scales"@),
        layer_key(i, ".experts.gate_up_proj.weight"@) != layer_key(i, ".experts.switch_glu.down_proj.biases"@),
        layer_key(i, ".experts.gate_up_proj.weight"@) != layer_key(i, ".experts.down_proj.biases"@),
{
    reveal_strlit(".experts.gate_up_proj.weight");
    reveal_strlit(".experts.switch_glu.gate_proj.weight");
    reveal_strlit(".experts.switch_glu.up_proj.weight");
    reveal_strlit(".experts.switch_glu.gate_proj.scales");
    reveal_strlit(".experts.switch_glu.up_proj.scales");
    reveal_strlit(".experts.gate_up_proj.scales");
    reveal_strlit(".experts.switch_glu.gate_proj.biases");
    reveal_strlit(".experts.switch_glu.up_proj.biases");
    reveal_strlit(".experts.gate_up_proj.biases");
    reveal_strlit(".experts.switch_glu.down_proj.weight");
    reveal_strlit(".experts.down_proj.weight");
    reveal_strlit(".experts.switch_glu.down_proj.scales");
    reveal_strlit(".experts.down_proj.scales");
    reveal_strlit(".experts.switch_glu.down_proj.biases");
    reveal_strlit(".experts.down_proj.biases");
    lemma_rest_differs(i, ".experts.gate_up_proj.weight"@, ".experts.switch_glu.gate_proj.weight"@, 0);
    lemma_rest_differs(i, ".experts.gate_up_proj.weight"@, ".experts.switch_glu.up_proj.weight"@, 0);
    lemma_rest_differs(i, ".experts.gate_up_proj.weight"@, ".experts.switch_glu.gate_proj.scales"@, 0);
    lemma_rest_differs(i, ".experts.gate_up_proj.weight"@, ".experts.switch_glu.up_proj.scales"@, 0);
    lemma_rest_differs(i, ".experts.gate_up_proj.weight"@, ".experts.gate_up_proj.scales"@, 22);
    lemma_rest_differs(i, ".experts.gate_up_proj.weight"@, ".experts.switch_glu.gate_proj.biases"@, 0);
    lemma_rest_differs(i, ".experts.gate_up_proj.weight"@, ".experts.switch_glu.up_proj.biases"@, 0);
    lemma_rest_differs(i, ".experts.gate_up_proj.weight"@, ".experts.gate_up_proj.biases"@, 22);
    lemma_rest_differs(i, ".experts.gate_up_proj.weight"@, ".experts.switch_glu.down_proj.weight"@, 0);
    lemma_rest_differs(i, ".experts.gate_up_proj.weight"@, ".experts.down_proj.weight"@, 0);
    lemma_rest_differs(i, ".experts.gate_up_proj.weight"@, ".experts.switch_glu.down_proj.scales"@, 0);
    lemma_rest_differs(i, ".experts.gate_up_proj.weight"@, ".experts.down_proj.scales"@, 0);
    lemma_rest_differs(i, ".experts.gate_up_proj.weight"@, ".experts.switch_glu.down_proj.biases"@, 0);
    lemma_rest_differs(i, ".experts.gate_up_proj.weight"@, ".experts.down_proj.biases"@, 0);
}

proof fn lemma_fused_down(i: int)
    requires
        0 <= i,
    ensures
        layer_key(i, ".experts.down_proj.weight"@) != layer_key(i, ".experts.switch_glu.gate_proj.weight"@),
        layer_key(i, ".experts.down_proj.weight"@) != layer_key(i, ".experts.switch_glu.up_proj.weight"@),
        layer_key(i, ".experts.down_proj.weight"@) != layer_key(i, ".experts.gate_up_proj.weight"@),
        layer_key(i, ".experts.down_proj.weight"@) != layer_key(i, ".experts.switch_glu.gate_proj.scales"@),
        layer_key(i, ".experts.down_proj.weight"@) != layer_key(i, ".experts.switch_glu.up_proj.scales"@),
        layer_key(i, ".experts.down_proj.weight"@) != layer_key(i, ".experts.gate_up_proj.scales"@),
        layer_key(i, ".experts.down_proj.weight"@) != layer_key(i, ".experts.switch_glu.gate_proj.biases"@),
        layer_key(i, ".experts.down_proj.weight"@) != layer_key(i, ".experts.switch_glu.up_proj.biases"@),
        layer_key(i, ".experts.down_proj.weight"@) != layer_key(i, ".experts.gate_up_proj.biases"@),
        layer_key(i, ".experts.down_proj.weight"@) != layer_key(i, ".experts.switch_glu.down_proj.weight"@),
        layer_key(i, ".experts.down_proj.weight"@) != layer_key(i, ".experts.switch_glu.down_proj.scales"@),
        layer_key(i, ".experts.down_proj.weight"@) != layer_key(i, ".experts.down_proj.scales"@),
        layer_key(i, ".experts.down_proj.weight"@) != layer_key(i, ".experts.switch_glu.down_proj.biases"@),
        layer_key(i, ".experts.down_proj.weight"@) != layer_key(i, ".experts.down_proj.biases"@),
{
    reveal_strlit(".experts.down_proj.weight");
    reveal_strlit(".experts.switch_glu.gate_proj.weight");
    reveal_strlit(".experts.switch_glu.up_proj.weight");
    reveal_strlit(".experts.gate_up_proj.weight");
    reveal_strlit(".experts.switch_glu.gate_proj.scales");
    reveal_strlit(".experts.switch_glu.up_proj.scales");
    reveal_strlit(".experts.gate_up_proj.scales");
    reveal_strlit(".experts.switch_glu.gate_proj.biases");
    reveal_strlit(".experts.switch_glu.up_proj.biases");
    reveal_strlit(".experts.gate_up_proj.biases");
    reveal_strlit(".experts.switch_glu.down_proj.weight");
    reveal_strlit(".experts.switch_glu.down_proj.scales");
    reveal_strlit(".experts.down_proj.scales");
    reveal_strlit(".experts.switch_glu.down_proj.biases");
    reveal_strlit(".experts.down_proj.biases");
    lemma_rest_differs(i, ".experts.down_proj.weight"@, ".experts.switch_glu.gate_proj.weight"@, 0);
    lemma_rest_differs(i, ".experts.down_proj.weight"@, ".experts.switch_glu.up_proj.weight"@, 0);
    lemma_rest_differs(i, ".experts.down_proj.weight"@, ".experts.gate_up_proj.weight"@, 0);
    lemma_rest_differs(i, ".experts.down_proj.weight"@, ".experts.switch_glu.gate_proj.scales"@, 0);
    lemma_rest_differs(i, ".experts.down_proj.weight"@, ".experts.switch_glu.up_proj.scales"@, 0);
    lemma_rest_differs(i, ".experts.down_proj.weight"@, ".experts.gate_up_proj.scales"@, 0);
    lemma_rest_differs(i, ".experts.down_proj.weight"@, ".experts.switch_glu.gate_proj.biases"@, 0);
    lemma_rest_differs(i, ".experts.down_proj.weight"@, ".experts.switch_glu.up_proj.biases"@, 0);
    lemma_rest_differs(i, ".experts.down_proj.weight"@, ".experts.gate_up_proj.biases"@, 0);
    lemma_rest_differs(i, ".experts.down_proj.weight"@, ".experts.switch_glu.down_proj.weight"@, 0);
    lemma_rest_differs(i, ".experts.down_proj.weight"@, ".experts.switch_glu.down_proj.scales"@, 0);
    lemma_rest_differs(i, ".experts.down_proj.weight"@, ".experts.down_proj.scales"@, 19);
    lemma_rest_differs(i, ".experts.down_proj.weight"@, ".experts.switch_glu.down_proj.biases"@, 0);
    lemma_rest_differs(i, ".experts.down_proj.weight"@, ".experts.down_proj.biases"@, 19);
}

proof fn lemma_split_down(i: int)
    requires
        0 <= i,
    ensures
        layer_key(i, ".experts.switch_glu.down_proj.weight"@) != layer_key(i, ".experts.switch_glu.gate_proj.weight"@),
        layer_key(i, ".experts.switch_glu.down_proj.weight"@) != layer_key(i, ".experts.switch_glu.up_proj.weight"@),
        layer_key(i, ".experts.switch_glu.down_proj.weight"@) != layer_key(i, ".experts.gate_up_proj.weight"@),
        layer_key(i, ".experts.switch_glu.down_proj.weight"@) != layer_key(i, ".experts.switch_glu.gate_proj.scales"@),
        layer_key(i, ".experts.switch_glu.down_proj.weight"@) != layer_key(i, ".experts.switch_glu.up_proj.scales"@),
        layer_key(i, ".experts.switch_glu.down_proj.weight"@) != layer_key(i, ".experts.gate_up_proj.scales"@),
        layer_key(i, ".experts.switch_glu.down_proj.weight"@) != layer_key(i, ".experts.switch_glu.gate_proj.biases"@),
        layer_key(i, ".experts.switch_glu.down_proj.weight"@) != layer_key(i, ".experts.switch_glu.up_proj.biases"@),
        layer_key(i, ".experts.switch_glu.down_proj.weight"@) != layer_key(i, ".experts.gate_up_proj.biases"@),
        layer_key(i, ".experts.switch_glu.down_proj.weight"@) != layer_key(i, ".experts.down_proj.weight"@),
        layer_key(i, ".experts.switch_glu.down_proj.weight"@) != layer_key(i, ".experts.switch_glu.down_proj.scales"@),
        layer_key(i, ".experts.switch_glu.down_proj.weight"@) != layer_key(i, ".experts.down_proj.scales"@),
        layer_key(i, ".experts.switch_glu.down_proj.weight"@) != layer_key(i, ".experts.switch_glu.down_proj.biases"@),
        layer_key(i, ".experts.switch_glu.down_proj.weight"@) != layer_key(i, ".experts.down_proj.biases"@),
{
    reveal_strlit(".experts.switch_glu.down_proj.weight");
    reveal_strlit(".experts.switch_glu.gate_proj.weight");
    reveal_strlit(".experts.switch_glu.up_proj.weight");
    reveal_strlit(".experts.gate_up_proj.weight");
    reveal_strlit(".experts.switch_glu.gate_proj.scales");
    reveal_strlit(".experts.switch_glu.up_proj.scales");
    reveal_strlit(".experts.gate_up_proj.scales");
    reveal_strlit(".experts.switch_glu.gate_proj.biases");
    reveal_strlit(".experts.switch_glu.up_proj.biases");
    reveal_strlit(".experts.gate_up_proj.biases");
    reveal_strlit(".experts.down_proj.weight");
    reveal_strlit(".experts.switch_glu.down_proj.scales");
    reveal_strlit(".experts.down_proj.scales");
    reveal_strlit(".experts.switch_glu.down_proj.biases");
    reveal_strlit(".experts.down_proj.biases");
    lemma_rest_differs(i, ".experts.switch_glu.down_proj.weight"@, ".experts.switch_glu.gate_proj.weight"@, 20);
    lemma_rest_differs(i, ".experts.switch_glu.down_proj.weight"@, ".experts.switch_glu.up_proj.weight"@, 0);
    lemma_rest_differs(i, ".experts.switch_glu.down_proj.weight"@, ".experts.gate_up_proj.weight"@, 0);
    lemma_rest_differs(i, ".experts.switch_glu.down_proj.weight"@, ".experts.switch_glu.gate_proj.scales"@, 20);
    lemma_rest_differs(i, ".experts.switch_glu.down_proj.weight"@, ".experts.switch_glu.up_proj.scales"@, 0);
    lemma_rest_differs(i, ".experts.switch_glu.down_proj.weight"@, ".experts.gate_up_proj.scales"@, 0);
    lemma_rest_differs(i, ".experts.switch_glu.down_proj.weight"@, ".experts.switch_glu.gate_proj.biases"@, 20);
    lemma_rest_differs(i, ".experts.switch_glu.down_proj.weight"@, ".experts.switch_glu.up_proj.biases"@, 0);
    lemma_rest_differs(i, ".experts.switch_glu.down_proj.weight"@, ".experts.gate_up_proj.biases"@, 0);
    lemma_rest_differs(i, ".experts.switch_glu.down_proj.weight"@, ".experts.down_proj.weight"@, 0);
    lemma_rest_differs(i, ".experts.switch_glu.down_proj.weight"@, ".experts.switch_glu.down_proj.scales"@, 30);
    lemma_rest_differs(i, ".experts.switch_glu.down_proj.weight"@, ".experts.down_proj.scales"@, 0);
    lemma_rest_differs(i, ".experts.switch_glu.down_proj.weight"@, ".experts.switch_glu.down_proj.biases"@, 30);
    lemma_rest_differs(i, ".experts.switch_glu.down_proj.weight"@, ".experts.down_proj.biases"@, 0);
}

proof fn lemma_split_up(i: int)
    requires
        0 <= i,
    ensures
        layer_key(i, ".experts.switch_glu.up_proj.weight"@) != layer_key(i, ".experts.switch_glu.gate_proj.weight"@),
        layer_key(i, ".experts.switch_glu.up_proj.weight"@) != layer_key(i, ".experts.gate_up_proj.weight"@),
        layer_key(i, ".experts.switch_glu.up_proj.weight"@) != layer_key(i, ".experts.switch_glu.gate_proj.scales"@),
        layer_key(i, ".experts.switch_glu.up_proj.weight"@) != layer_key(i, ".experts.switch_glu.up_proj.scales"@),
        layer_key(i, ".experts.switch_glu.up_proj.weight"@) != layer_key(i, ".experts.gate_up_proj.scales"@),
        layer_key(i, ".experts.switch_glu.up_proj.weight"@) != layer_key(i, ".experts.switch_glu.gate_proj.biases"@),
        layer_key(i, ".experts.switch_glu.up_proj.weight"@) != layer_key(i, ".experts.switch_glu.up_proj.biases"@),
        layer_key(i, ".experts.switch_glu.up_proj.weight"@) != layer_key(i, ".experts.gate_up_proj.biases"@),
        layer_key(i, ".experts.switch_glu.up_proj.weight"@) != layer_key(i, ".experts.switch_glu.down_proj.weight"@),
        layer_key(i, ".experts.switch_glu.up_proj.weight"@) != layer_key(i, ".experts.down_proj.weight"@),
        layer_key(i, ".experts.switch_glu.up_proj.weight"@) != layer_key(i, ".experts.switch_glu.down_proj.scales"@),
        layer_key(i, ".experts.switch_glu.up_proj.weight"@) != layer_key(i, ".experts.down_proj.scales"@),
        layer_key(i, ".experts.switch_glu.up_proj.weight"@) != layer_key(i, ".experts.switch_glu.down_proj.biases"@),
        layer_key(i, ".experts.switch_glu.up_proj.weight"@) != layer_key(i, ".experts.down_proj.biases"@),
{
    reveal_strlit(".experts.switch_glu.up_proj.weight");
    reveal_strlit(".experts.switch_glu.gate_proj.weight");
    reveal_strlit(".experts.gate_up_proj.weight");
    reveal_strlit(".experts.switch_glu.gate_proj.scales");
    reveal_strlit(".experts.switch_glu.up_proj.scales");
    reveal_strlit(".experts.gate_up_proj.scales");
    reveal_strlit(".experts.switch_glu.gate_proj.biases");
    reveal_strlit(".experts.switch_glu.up_proj.biases");
    reveal_strlit(".experts.gate_up_proj.biases");
    reveal_strlit(".experts.switch_glu.down_proj.weight");
    reveal_strlit(".experts.down_proj.weight");
    reveal_strlit(".experts.switch_glu.down_proj.scales");
    reveal_strlit(".experts.down_proj.scales");
    reveal_strlit(".experts.switch_glu.down_proj.biases");
    reveal_strlit(".experts.down_proj.biases");
    lemma_rest_differs(i, ".experts.switch_glu.up_proj.weight"@, ".experts.switch_glu.gate_proj.weight"@, 0);
    lemma_rest_differs(i, ".experts.switch_glu.up_proj.weight"@, ".experts.gate_up_proj.weight"@, 0);
    lemma_rest_differs(i, ".experts.switch_glu.up_proj.weight"@, ".experts.switch_glu.gate_proj.scales"@, 0);
    lemma_rest_differs(i, ".experts.switch_glu.up_proj.weight"@, ".experts.switch_glu.up_proj.scales"@, 28);
    lemma_rest_differs(i, ".experts.switch_glu.up_proj.weight"@, ".experts.gate_up_proj.scales"@, 0);
    lemma_rest_differs(i, ".experts.switch_glu.up_proj.weight"@, ".experts.switch_glu.gate_proj.biases"@, 0);
    lemma_rest_differs(i, ".experts.switch_glu.up_proj.weight"@, ".experts.switch_glu.up_proj.biases"@, 28);
    lemma_rest_differs(i, ".experts.switch_glu.up_proj.weight"@, ".experts.gate_up_proj.biases"@, 0);
    lemma_rest_differs(i, ".experts.switch_glu.up_proj.weight"@, ".experts.switch_glu.down_proj.weight"@, 0);
    lemma_rest_differs(i, ".experts.switch_glu.up_proj.weight"@, ".experts.down_proj.weight"@, 0);
    lemma_rest_differs(i, ".experts.switch_glu.up_proj.weight"@, ".experts.switch_glu.down_proj.scales"@, 0);
    lemma_rest_differs(i, ".experts.switch_glu.up_proj.weight"@, ".experts.down_proj.scales"@, 0);
    lemma_rest_differs(i, ".experts.switch_glu.up_proj.weight"@, ".experts.switch_glu.down_proj.biases"@, 0);
    lemma_rest_differs(i, ".experts.switch_glu.up_proj.weight"@, ".experts.down_proj.biases"@, 0);
}

/// Fusing the experts of layer `i` leaves both stacks where they were complete,
/// fused or split.
proof fn lemma_layer_is_fused(f: Fusion, i: int)
    requires
        0 <= i,
        distinct(f.s),
        met(f.s, Need::Experts(i)),
    ensures
        distinct(f.layer(i).s),
        stacked(f.layer(i).s, i, ".experts.gate_up_proj"@),
        stacked(f.layer(i).s, i, ".experts.down_proj"@),
{
    let bg = layer_key(i, ".experts.gate_up_proj"@);
    let bd = layer_key(i, ".experts.down_proj"@);
    lemma_stack_names(i);
    lemma_bare_gate_up(i);
    lemma_bare_down(i);
    lemma_layer_fusion_keeps(f, i, bg);
    lemma_layer_fusion_keeps(f, i, bd);
    if !(there(f.s, bg) && there(f.s, bd)) {
        lemma_layer_weights_are_fused(f, i);
    }
}

proof fn lemma_layer_weights_are_fused(f: Fusion, i: int)
    requires
        0 <= i,
        distinct(f.s),
        there(f.s, layer_key(i, ".experts.gate_up_proj.weight"@)) || (there(
            f.s,
            layer_key(i, ".experts.switch_glu.gate_proj.weight"@),
        ) && there(f.s, layer_key(i, ".experts.switch_glu.up_proj.weight"@))),
        there(f.s, layer_key(i, ".experts.down_proj.weight"@)) || there(
            f.s,
            layer_key(i, ".experts.switch_glu.down_proj.weight"@),
        ),
    ensures
        there(f.layer(i).s, layer_key(i, ".experts.gate_up_proj.weight"@)),
        there(f.layer(i).s, layer_key(i, ".experts.down_proj.weight"@)),
{
    lemma_fused_gate_up(i);
    lemma_fused_down(i);
    lemma_split_down(i);
    lemma_split_up(i);
    let gw = layer_key(i, ".experts.switch_glu.gate_proj.weight"@);
    let uw = layer_key(i, ".experts.switch_glu.up_proj.weight"@);
    let fw = layer_key(i, ".experts.gate_up_proj.weight"@);
    let gs = layer_key(i, ".experts.switch_glu.gate_proj.scales"@);
    let us = layer_key(i, ".experts.switch_glu.up_proj.scales"@);
    let fs = layer_key(i, ".experts.gate_up_proj.scales"@);
    let gb = layer_key(i, ".experts.switch_glu.gate_proj.biases"@);
    let ub = layer_key(i, ".experts.switch_glu.up_proj.biases"@);
    let fb = layer_key(i, ".experts.gate_up_proj.biases"@);
    let dw = layer_key(i, ".experts.switch_glu.down_proj.weight"@);
    let ew = layer_key(i, ".experts.down_proj.weight"@);
    let ds = layer_key(i, ".experts.switch_glu.down_proj.scales"@);
    let es = layer_key(i, ".experts.down_proj.scales"@);
    let db = layer_key(i, ".experts.switch_glu.down_proj.biases"@);
    let eb = layer_key(i, ".experts.down_proj.biases"@);
    let f1 = f.fuse(gw, uw, fw);
    lemma_fuse_keeps(f, gw, uw, fw, dw);
    lemma_fuse_keeps(f, gw, uw, fw, ew);
    assert(there(f1.s, fw)) by {
        law_cut_keeps_distinct(f.s, gw);
        law_lookup_cut(f.s, gw, uw);
        law_lookup_cut(f.s, gw, fw);
        let once = cut(f.s, gw);
        law_cut_keeps_distinct(once, uw);
        law_lookup_cut(once, uw, fw);
        match (lookup(f.s, gw), lookup(once, uw)) {
            (Some(g), Some(u)) => {
                law_lookup_put(cut(once, uw), fw, joined(g, u), fw);
            },
            _ => {},
        }
    }
    let f2 = f1.fuse(gs, us, fs);
    lemma_fuse_keeps(f1, gs, us, fs, fw);
    lemma_fuse_keeps(f1, gs, us, fs, dw);
    lemma_fuse_keeps(f1, gs, us, fs, ew);
    let f3 = f2.fuse(gb, ub, fb);
    lemma_fuse_keeps(f2, gb, ub, fb, fw);
    lemma_fuse_keeps(f2, gb, ub, fb, dw);
    lemma_fuse_keeps(f2, gb, ub, fb, ew);
    let f4 = f3.rename(dw, ew);
    lemma_rename_keeps(f3, dw, ew, fw);
    assert(there(f4.s, ew)) by {
        match (lookup(f3.s, ew), lookup(f3.s, dw)) {
            (None, Some(t)) => {
                law_lookup_put(cut(f3.s, dw), ew, t, ew);
            },
            _ => {},
        }
    }
    let f5 = f4.rename(ds, es);
    lemma_rename_keeps(f4, ds, es, fw);
    lemma_rename_keeps(f4, ds, es, ew);
    lemma_rename_keeps(f5, db, eb, fw);
    lemma_rename_keeps(f5, db, eb, ew);
}

/// What is looked for to find the experts of layer `i` is not touched when the
/// experts of other layers are fused.
proof fn lemma_experts_stay_met(f: Fusion, n: int, i: int)
    requires
        distinct(f.s),
        n <= i,
        met(f.s, Need::Experts(i)),
    ensures
        distinct(f.layers(n).s),
        met(f.layers(n).s, Need::Experts(i)),
{
    assert forall|r: Seq<char>| r.len() > 0 && r[0] == '.' implies lookup(
        f.layers(n).s,
        #[trigger] layer_key(i, r),
    ) == lookup(f.s, layer_key(i, r)) by {
        assert forall|j: int| 0 <= j < n implies #[trigger] untouched(layer_key(i, r), j) by {
            lemma_layer_name_untouched(i, r, j);
        }
        lemma_fusion_keeps(f, n, layer_key(i, r));
    }
    reveal_strlit(".experts.gate_up_proj");
    reveal_strlit(".experts.down_proj");
    reveal_strlit(".experts.gate_up_proj.weight");
    reveal_strlit(".experts.down_proj.weight");
    reveal_strlit(".experts.switch_glu.gate_proj.weight");
    reveal_strlit(".experts.switch_glu.up_proj.weight");
    reveal_strlit(".experts.switch_glu.down_proj.weight");
    lemma_fusion_keeps_distinct(f, n);
}

proof fn lemma_fusion_keeps_distinct(f: Fusion, n: int)
    requires
        distinct(f.s),
    ensures
        distinct(f.layers(n).s),
{
    reveal_strlit("norm.weight");
    assert forall|j: int| 0 <= j < n implies #[trigger] untouched("norm.weight"@, j) by {
        lemma_outside_untouched("norm.weight"@, j);
    }
    lemma_fusion_keeps(f, n, "norm.weight"@);
}

proof fn lemma_experts_are_fused(f: Fusion, n: int, i: int)
    requires
        distinct(f.s),
        0 <= i < n,
        met(f.s, Need::Experts(i)),
    ensures
        distinct(f.layers(n).s),
        stacked(f.layers(n).s, i, ".experts.gate_up_proj"@),
        stacked(f.layers(n).s, i, ".experts.down_proj"@),
    decreases n,
{
    let before = f.layers(n - 1);
    if i == n - 1 {
        lemma_experts_stay_met(f, i, i);
        lemma_layer_is_fused(before, i);
    } else {
        lemma_experts_are_fused(f, n - 1, i);
        lemma_stack_names(i);
        reveal_strlit(".experts.gate_up_proj");
        reveal_strlit(".experts.down_proj");
        reveal_strlit(".experts.gate_up_proj.weight");
        reveal_strlit(".experts.down_proj.weight");
        lemma_layer_name_untouched(i, ".experts.gate_up_proj"@, n - 1);
        lemma_layer_name_untouched(i, ".experts.down_proj"@, n - 1);
        lemma_layer_name_untouched(i, ".experts.gate_up_proj.weight"@, n - 1);
        lemma_layer_name_untouched(i, ".experts.down_proj.weight"@, n - 1);
        lemma_layer_fusion_keeps(before, n - 1, layer_key(i, ".experts.gate_up_proj"@));
        lemma_layer_fusion_keeps(before, n - 1, layer_key(i, ".experts.down_proj"@));
        lemma_layer_fusion_keeps(before, n - 1, layer_key(i, ".experts.gate_up_proj.weight"@));
        lemma_layer_fusion_keeps(before, n - 1, layer_key(i, ".experts.down_proj.weight"@));
    }
}

proof fn lemma_clean_is_distinct(c: Gemma4Config, s: Seq<(Seq<char>, TensorInfo)>)
    ensures
        distinct(finished_all(used(c, s))),
{
    let all = renamed(c, s, s.len() as int);
    lemma_renamed(c, s, s.len() as int, Seq::empty());
    if c.tie_word_embeddings {
        law_cut_keeps_distinct(all, "lm_head.weight"@);
    }
    let u = used(c, s);
    let f = finished_all(u);
    assert forall|a: int, b: int| 0 <= a < b < f.len() implies (#[trigger] f[a]).0 != (
    #[trigger] f[b]).0 by {
        assert(u[a].0 != u[b].0);
    }
}

proof fn lemma_layer_need(c: Gemma4Config, n: int, i: int, k: int)
    requires
        0 <= i < n,
        0 <= k < layer_needs(c, i).len(),
    ensures
        layers_need(c, n).contains(layer_needs(c, i)[k]),
    decreases n,
{
    let front = layers_need(c, n - 1);
    let all = layers_need(c, n);
    if i == n - 1 {
        assert(all[front.len() + k] == layer_needs(c, i)[k]);
    } else {
        lemma_layer_need(c, n - 1, i, k);
        let m = choose|m: int| 0 <= m < front.len() && front[m] == layer_needs(c, i)[k];
        assert(all[m] == layer_needs(c, i)[k]);
    }
}

/// The tensors that a model is filled from: those that a checkpoint is prepared
/// to, without the per-layer table where that is loaded in pieces.
pub open spec fn fills_from(
    c: Gemma4Config,
    raw: Seq<(Seq<char>, TensorInfo)>,
    s: Seq<(Seq<char>, TensorInfo)>,
) -> bool {
    s == prepared(c, raw).s || s == cut(prepared(c, raw).s, "embed_tokens_per_layer.weight"@)
}

/// A checkpoint holds everything that the model needs.
pub open spec fn complete(c: Gemma4Config, raw: Seq<(Seq<char>, TensorInfo)>) -> bool {
    first_unmet(finished_all(used(c, raw)), model_needs(c)) is None
}

proof fn lemma_cut_is_harmless(
    c: Gemma4Config,
    raw: Seq<(Seq<char>, TensorInfo)>,
    s: Seq<(Seq<char>, TensorInfo)>,
    key: Seq<char>,
)
    requires
        fills_from(c, raw, s),
        key != "embed_tokens_per_layer.weight"@,
    ensures
        lookup(s, key) == lookup(prepared(c, raw).s, key),
{
    lemma_clean_is_distinct(c, raw);
    lemma_fusion_keeps_distinct(
        Fusion { s: finished_all(used(c, raw)), ops: Seq::empty() },
        c.layers(),
    );
    law_lookup_cut(prepared(c, raw).s, "embed_tokens_per_layer.weight"@, key);
}

/// A tensor that the model needs, and that is not one of the experts, is among
/// those that the model is filled from.
proof fn lemma_needed_is_there(
    c: Gemma4Config,
    raw: Seq<(Seq<char>, TensorInfo)>,
    s: Seq<(Seq<char>, TensorInfo)>,
    key: Seq<char>,
)
    requires
        complete(c, raw),
        fills_from(c, raw, s),
        model_needs(c).contains(Need::Key(key)),
        forall|j: int| 0 <= j < c.layers() ==> #[trigger] untouched(key, j),
        key != "embed_tokens_per_layer.weight"@,
    ensures
        there(s, key),
{
    let clean = finished_all(used(c, raw));
    law_validated_means_all_met(clean, model_needs(c));
    let k = choose|k: int| 0 <= k < model_needs(c).len() && model_needs(c)[k] == Need::Key(key);
    assert(met(clean, model_needs(c)[k]));
    lemma_clean_is_distinct(c, raw);
    lemma_fusion_keeps(Fusion { s: clean, ops: Seq::empty() }, c.layers(), key);
    lemma_cut_is_harmless(c, raw, s, key);
}

proof fn lemma_needed_of_layer(c: Gemma4Config, i: int, n: Need)
    requires
        0 <= i < c.layers(),
        layer_needs(c, i).contains(n),
    ensures
        model_needs(c).contains(n),
{
    let k = choose|k: int| 0 <= k < layer_needs(c, i).len() && layer_needs(c, i)[k] == n;
    lemma_layer_need(c, c.layers(), i, k);
    let mid = layers_need(c, c.layers());
    let m = choose|m: int| 0 <= m < mid.len() && mid[m] == n;
    assert(model_needs(c)[2 + m] == n);
}

proof fn lemma_layer_tensor_is_there(
    c: Gemma4Config,
    raw: Seq<(Seq<char>, TensorInfo)>,
    s: Seq<(Seq<char>, TensorInfo)>,
    i: int,
    r: Seq<char>,
)
    requires
        complete(c, raw),
        fills_from(c, raw, s),
        0 <= i < c.layers(),
        beside_experts(r),
        layer_needs(c, i).contains(Need::Key(layer_key(i, r))),
    ensures
        there(s, layer_key(i, r)),
{
    let key = layer_key(i, r);
    lemma_needed_of_layer(c, i, Need::Key(key));
    assert forall|j: int| 0 <= j < c.layers() implies #[trigger] untouched(key, j) by {
        lemma_layer_name_untouched(i, r, j);
    }
    lemma_not_per_layer_table(i, r);
    lemma_needed_is_there(c, raw, s, key);
}

proof fn lemma_not_per_layer_table(i: int, r: Seq<char>)
    ensures
        layer_key(i, r) != "embed_tokens_per_layer.weight"@,
{
    reveal_strlit("layers.");
    reveal_strlit("embed_tokens_per_layer.weight");
    assert(layer_key(i, r)[0] == "layers."@[0]);
    assert("embed_tokens_per_layer.weight"@[0] == 'e');
}

/// What every layer needs, whatever its kind.
proof fn lemma_layer_needs(c: Gemma4Config, i: int)
    ensures
        layer_needs(c, i).contains(Need::Key(layer_key(i, ".self_attn.q_proj.weight"@))),
        layer_needs(c, i).contains(Need::Key(layer_key(i, ".self_attn.k_proj.weight"@))),
        layer_needs(c, i).contains(Need::Key(layer_key(i, ".self_attn.o_proj.weight"@))),
        layer_needs(c, i).contains(Need::Key(layer_key(i, ".self_attn.q_norm.weight"@))),
        layer_needs(c, i).contains(Need::Key(layer_key(i, ".layer_scalar"@))),
        layer_needs(c, i).contains(Need::Key(layer_key(i, ".mlp.gate_proj.weight"@))),
        layer_needs(c, i).contains(Need::Key(layer_key(i, ".mlp.up_proj.weight"@))),
        layer_needs(c, i).contains(Need::Key(layer_key(i, ".mlp.down_proj.weight"@))),
        layer_needs(c, i).contains(Need::Key(layer_key(i, ".input_layernorm.weight"@))),
        layer_needs(c, i).contains(Need::Key(layer_key(i, ".post_attention_layernorm.weight"@))),
        layer_needs(c, i).contains(Need::Key(layer_key(i, ".pre_feedforward_layernorm.weight"@))),
        layer_needs(c, i).contains(Need::Key(layer_key(i, ".post_feedforward_layernorm.weight"@))),
        !(c.attention_k_eq_v && c.global_at(i)) ==> layer_needs(c, i).contains(
            Need::Key(layer_key(i, ".self_attn.v_proj.weight"@)),
        ),
        !c.shared_at(i) ==> layer_needs(c, i).contains(
            Need::Key(layer_key(i, ".self_attn.k_norm.weight"@)),
        ),
        c.enable_moe_block ==> layer_needs(c, i).contains(
            Need::Key(layer_key(i, ".router.proj.weight"@)),
        ) && layer_needs(c, i).contains(Need::Experts(i)) && layer_needs(c, i).contains(
            Need::Key(layer_key(i, ".router.scale"@)),
        ),
{
    let needs = layer_needs(c, i);
    let a: int = if c.attention_k_eq_v && c.global_at(i) {
        3
    } else {
        4
    };
    let b: int = a + 1 + (if c.shared_at(i) {
        0int
    } else {
        1
    });
    assert(needs[0] == Need::Key(layer_key(i, ".self_attn.q_proj.weight"@)));
    assert(needs[1] == Need::Key(layer_key(i, ".self_attn.k_proj.weight"@)));
    assert(needs[2] == Need::Key(layer_key(i, ".self_attn.o_proj.weight"@)));
    if a == 4 {
        assert(needs[3] == Need::Key(layer_key(i, ".self_attn.v_proj.weight"@)));
    }
    assert(needs[a] == Need::Key(layer_key(i, ".self_attn.q_norm.weight"@)));
    if !c.shared_at(i) {
        assert(needs[a + 1] == Need::Key(layer_key(i, ".self_attn.k_norm.weight"@)));
    }
    assert(needs[b + 0] == Need::Key(layer_key(i, ".layer_scalar"@)));
    assert(needs[b + 1] == Need::Key(layer_key(i, ".mlp.gate_proj.weight"@)));
    assert(needs[b + 2] == Need::Key(layer_key(i, ".mlp.up_proj.weight"@)));
    assert(needs[b + 3] == Need::Key(layer_key(i, ".mlp.down_proj.weight"@)));
    assert(needs[b + 4] == Need::Key(layer_key(i, ".input_layernorm.weight"@)));
    assert(needs[b + 5] == Need::Key(layer_key(i, ".post_attention_layernorm.weight"@)));
    assert(needs[b + 6] == Need::Key(layer_key(i, ".pre_feedforward_layernorm.weight"@)));
    assert(needs[b + 7] == Need::Key(layer_key(i, ".post_feedforward_layernorm.weight"@)));
    if c.enable_moe_block {
        assert(needs[b + 8] == Need::Key(layer_key(i, ".router.proj.weight"@)));
        assert(needs[b + 9] == Need::Experts(i));
        assert(needs[b + 10] == Need::Key(layer_key(i, ".router.scale"@)));
    }
}

/// The tensors of layer `i` that the model is filled from.
proof fn lemma_layer_tensors(
    c: Gemma4Config,
    raw: Seq<(Seq<char>, TensorInfo)>,
    s: Seq<(Seq<char>, TensorInfo)>,
    i: int,
)
    requires
        complete(c, raw),
        fills_from(c, raw, s),
        0 <= i < c.layers(),
    ensures
        there(s, layer_key(i, ".self_attn.q_proj.weight"@)),
        there(s, layer_key(i, ".self_attn.k_proj.weight"@)),
        there(s, layer_key(i, ".self_attn.o_proj.weight"@)),
        there(s, layer_key(i, ".self_attn.q_norm.weight"@)),
        there(s, layer_key(i, ".layer_scalar"@)),
        there(s, layer_key(i, ".mlp.gate_proj.weight"@)),
        there(s, layer_key(i, ".mlp.up_proj.weight"@)),
        there(s, layer_key(i, ".mlp.down_proj.weight"@)),
        there(s, layer_key(i, ".input_layernorm.weight"@)),
        there(s, layer_key(i, ".post_attention_layernorm.weight"@)),
        there(s, layer_key(i, ".pre_feedforward_layernorm.weight"@)),
        there(s, layer_key(i, ".post_feedforward_layernorm.weight"@)),
        !(c.attention_k_eq_v && c.global_at(i)) ==> there(
            s,
            layer_key(i, ".self_attn.v_proj.weight"@),
        ),
        !c.shared_at(i) ==> there(s, layer_key(i, ".self_attn.k_norm.weight"@)),
        c.enable_moe_block ==> there(s, layer_key(i, ".router.proj.weight"@)) && there(
            s,
            layer_key(i, ".router.scale"@),
        ),
{
    lemma_layer_needs(c, i);
    reveal_strlit(".self_attn.q_proj.weight");
    reveal_strlit(".self_attn.k_proj.weight");
    reveal_strlit(".self_attn.o_proj.weight");
    reveal_strlit(".self_attn.q_norm.weight");
    reveal_strlit(".layer_scalar");
    reveal_strlit(".mlp.gate_proj.weight");
    reveal_strlit(".mlp.up_proj.weight");
    reveal_strlit(".mlp.down_proj.weight");
    reveal_strlit(".input_layernorm.weight");
    reveal_strlit(".post_attention_layernorm.weight");
    reveal_strlit(".pre_feedforward_layernorm.weight");
    reveal_strlit(".post_feedforward_layernorm.weight");
    reveal_strlit(".self_attn.v_proj.weight");
    reveal_strlit(".self_attn.k_norm.weight");
    reveal_strlit(".router.proj.weight");
    reveal_strlit(".router.scale");
    lemma_layer_tensor_is_there(c, raw, s, i, ".self_attn.q_proj.weight"@);
    lemma_layer_tensor_is_there(c, raw, s, i, ".self_attn.k_proj.weight"@);
    lemma_layer_tensor_is_there(c, raw, s, i, ".self_attn.o_proj.weight"@);
    lemma_layer_tensor_is_there(c, raw, s, i, ".self_attn.q_norm.weight"@);
    lemma_layer_tensor_is_there(c, raw, s, i, ".layer_scalar"@);
    lemma_layer_tensor_is_there(c, raw, s, i, ".mlp.gate_proj.weight"@);
    lemma_layer_tensor_is_there(c, raw, s, i, ".mlp.up_proj.weight"@);
    lemma_layer_tensor_is_there(c, raw, s, i, ".mlp.down_proj.weight"@);
    lemma_layer_tensor_is_there(c, raw, s, i, ".input_layernorm.weight"@);
    lemma_layer_tensor_is_there(c, raw, s, i, ".post_attention_layernorm.weight"@);
    lemma_layer_tensor_is_there(c, raw, s, i, ".pre_feedforward_layernorm.weight"@);
    lemma_layer_tensor_is_there(c, raw, s, i, ".post_feedforward_layernorm.weight"@);
    if !(c.attention_k_eq_v && c.global_at(i)) {
        lemma_layer_tensor_is_there(c, raw, s, i, ".self_attn.v_proj.weight"@);
    }
    if !c.shared_at(i) {
        lemma_layer_tensor_is_there(c, raw, s, i, ".self_attn.k_norm.weight"@);
    }
    if c.enable_moe_block {
        lemma_layer_tensor_is_there(c, raw, s, i, ".router.proj.weight"@);
        lemma_layer_tensor_is_there(c, raw, s, i, ".router.scale"@);
    }
}

proof fn lemma_layer_experts(
    c: Gemma4Config,
    raw: Seq<(Seq<char>, TensorInfo)>,
    s: Seq<(Seq<char>, TensorInfo)>,
    i: int,
)
    requires
        complete(c, raw),
        fills_from(c, raw, s),
        0 <= i < c.layers(),
        c.enable_moe_block,
    ensures
        stacked(s, i, ".experts.gate_up_proj"@),
        stacked(s, i, ".experts.down_proj"@),
{
    let clean = finished_all(used(c, raw));
    lemma_layer_needs(c, i);
    lemma_needed_of_layer(c, i, Need::Experts(i));
    law_validated_means_all_met(clean, model_needs(c));
    let k = choose|k: int| 0 <= k < model_needs(c).len() && model_needs(c)[k] == Need::Experts(i);
    assert(met(clean, model_needs(c)[k]));
    lemma_clean_is_distinct(c, raw);
    lemma_experts_are_fused(Fusion { s: clean, ops: Seq::empty() }, c.layers(), i);
    lemma_stack_names(i);
    lemma_not_per_layer_table(i, ".experts.gate_up_proj"@);
    lemma_not_per_layer_table(i, ".experts.gate_up_proj.weight"@);
    lemma_not_per_layer_table(i, ".experts.down_proj"@);
    lemma_not_per_layer_table(i, ".experts.down_proj.weight"@);
    lemma_cut_is_harmless(c, raw, s, layer_key(i, ".experts.gate_up_proj"@));
    lemma_cut_is_harmless(c, raw, s, layer_key(i, ".experts.gate_up_proj.weight"@));
    lemma_cut_is_harmless(c, raw, s, layer_key(i, ".experts.down_proj"@));
    lemma_cut_is_harmless(c, raw, s, layer_key(i, ".experts.down_proj.weight"@));
}

/// A tensor is put into the model.
pub open spec fn installed(plan: Seq<InstallView>, name: Seq<char>) -> bool {
    exists|k: int| 0 <= k < plan.len() && (#[trigger] plan[k]).name == name
}

/// A weight is put into the model, quantized under its own name or dense.
pub open spec fn filled(plan: Seq<InstallView>, prefix: Seq<char>) -> bool {
    installed(plan, prefix) || installed(plan, prefix + ".weight"@)
}

/// Everything of a plan that a rule gives stays in what all rules give.
proof fn lemma_rule_is_planned(
    s: Seq<(Seq<char>, TensorInfo)>,
    q: QuantSettings,
    rules: Seq<RuleView>,
    rule: RuleView,
)
    requires
        rules_outcome(s, q, rules) is Done,
        rules.contains(rule),
    ensures
        rule_outcome(s, q, rule) is Done,
        forall|k: int|
            0 <= k < rule_outcome(s, q, rule)->Done_0.len() ==> installed(
                rules_outcome(s, q, rules)->Done_0,
                (#[trigger] rule_outcome(s, q, rule)->Done_0[k]).name,
            ),
    decreases rules.len(),
{
    let n = choose|n: int| 0 <= n < rules.len() && rules[n] == rule;
    let front = rules_outcome(s, q, rules.drop_last())->Done_0;
    let all = rules_outcome(s, q, rules)->Done_0;
    if n < rules.len() - 1 {
        assert(rules.drop_last()[n] == rule);
        lemma_rule_is_planned(s, q, rules.drop_last(), rule);
        let mine = rule_outcome(s, q, rule)->Done_0;
        assert forall|k: int| 0 <= k < mine.len() implies installed(
            all,
            (#[trigger] mine[k]).name,
        ) by {
            let m = choose|m: int| 0 <= m < front.len() && (#[trigger] front[m]).name
                == mine[k].name;
            assert(all[m] == front[m]);
        }
    } else {
        let mine = rule_outcome(s, q, rule)->Done_0;
        assert forall|k: int| 0 <= k < mine.len() implies installed(
            all,
            (#[trigger] mine[k]).name,
        ) by {
            assert(all[front.len() + k] == mine[k]);
        }
    }
}

/// The parts of a model that loads are all in its plan.
proof fn lemma_part_is_planned(
    c: Gemma4Config,
    s: Seq<(Seq<char>, TensorInfo)>,
    q: QuantSettings,
    encoders: int,
    rule: RuleView,
)
    requires
        model_outcome(c, s, q, encoders) is Done,
        text_parts(c).contains(rule) || vision_parts(c, encoders).contains(rule) || audio_parts(
            c,
        ).contains(rule),
    ensures
        rule_outcome(s, q, rule) is Done,
        forall|k: int|
            0 <= k < rule_outcome(s, q, rule)->Done_0.len() ==> installed(
                model_outcome(c, s, q, encoders)->Done_0,
                (#[trigger] rule_outcome(s, q, rule)->Done_0[k]).name,
            ),
{
    let text = rules_outcome(s, q, text_parts(c))->Done_0;
    let vision = rules_outcome(s, q, vision_parts(c, encoders))->Done_0;
    let audio = rules_outcome(s, q, audio_parts(c))->Done_0;
    let all = model_outcome(c, s, q, encoders)->Done_0;
    assert(all == text + vision + audio);
    assert forall|name: Seq<char>|
        installed(text, name) || installed(vision, name) || installed(
            audio,
            name,
        ) implies #[trigger] installed(all, name) by {
        if installed(text, name) {
            let m = choose|m: int| 0 <= m < text.len() && (#[trigger] text[m]).name == name;
            assert(all[m] == text[m]);
        } else if installed(vision, name) {
            let m = choose|m: int| 0 <= m < vision.len() && (#[trigger] vision[m]).name == name;
            assert(all[text.len() + m] == vision[m]);
        } else {
            let m = choose|m: int| 0 <= m < audio.len() && (#[trigger] audio[m]).name == name;
            assert(all[text.len() + vision.len() + m] == audio[m]);
        }
    }
    if text_parts(c).contains(rule) {
        lemma_rule_is_planned(s, q, text_parts(c), rule);
    } else if vision_parts(c, encoders).contains(rule) {
        lemma_rule_is_planned(s, q, vision_parts(c, encoders), rule);
    } else {
        lemma_rule_is_planned(s, q, audio_parts(c), rule);
    }
}

proof fn lemma_layer_part(c: Gemma4Config, n: int, i: int, rule: RuleView)
    requires
        0 <= i < n,
        layer_parts(c, i).contains(rule),
    ensures
        layers_parts(c, n).contains(rule),
    decreases n,
{
    let front = layers_parts(c, n - 1);
    let all = layers_parts(c, n);
    if i == n - 1 {
        let k = choose|k: int| 0 <= k < layer_parts(c, i).len() && layer_parts(c, i)[k] == rule;
        assert(all[front.len() + k] == rule);
    } else {
        lemma_layer_part(c, n - 1, i, rule);
        let m = choose|m: int| 0 <= m < front.len() && front[m] == rule;
        assert(all[m] == rule);
    }
}

proof fn lemma_text_part(c: Gemma4Config, i: int, rule: RuleView)
    requires
        0 <= i < c.layers(),
        layer_parts(c, i).contains(rule),
    ensures
        text_parts(c).contains(rule),
{
    lemma_layer_part(c, c.layers(), i, rule);
    let tail = layers_parts(c, c.layers());
    let m = choose|m: int| 0 <= m < tail.len() && tail[m] == rule;
    let all = text_parts(c);
    assert(all[all.len() - tail.len() + m] == rule);
}

proof fn lemma_key_suffix(i: int, a: Seq<char>, b: Seq<char>, ab: Seq<char>)
    requires
        a + b == ab,
    ensures
        layer_key(i, a) + b == layer_key(i, ab),
{
    assert(layer_key(i, a) + b =~= layer_key(i, a + b));
}

/// A part of layer `i` is in the plan of a model that loads.
proof fn lemma_layer_part_is_planned(
    c: Gemma4Config,
    s: Seq<(Seq<char>, TensorInfo)>,
    q: QuantSettings,
    encoders: int,
    i: int,
    rule: RuleView,
)
    requires
        model_outcome(c, s, q, encoders) is Done,
        0 <= i < c.layers(),
        layer_parts(c, i).contains(rule),
    ensures
        rule_outcome(s, q, rule) is Done,
        forall|k: int|
            0 <= k < rule_outcome(s, q, rule)->Done_0.len() ==> installed(
                model_outcome(c, s, q, encoders)->Done_0,
                (#[trigger] rule_outcome(s, q, rule)->Done_0[k]).name,
            ),
{
    lemma_text_part(c, i, rule);
    lemma_part_is_planned(c, s, q, encoders, rule);
}

proof fn lemma_linear_is_filled(
    c: Gemma4Config,
    s: Seq<(Seq<char>, TensorInfo)>,
    q: QuantSettings,
    encoders: int,
    i: int,
    r: Seq<char>,
    whole: Seq<char>,
)
    requires
        model_outcome(c, s, q, encoders) is Done,
        0 <= i < c.layers(),
        layer_parts(c, i).contains(at(RuleKind::Linear, i, r)),
        r + ".weight"@ == whole,
        there(s, layer_key(i, whole)),
    ensures
        filled(model_outcome(c, s, q, encoders)->Done_0, layer_key(i, r)),
{
    let rule = at(RuleKind::Linear, i, r);
    lemma_layer_part_is_planned(c, s, q, encoders, i, rule);
    lemma_key_suffix(i, r, ".weight"@, whole);
    law_present_linear_is_installed(s, q, layer_key(i, r));
    let v = rule_outcome(s, q, rule)->Done_0;
    assert(v[0].name == layer_key(i, r) || v[0].name == layer_key(i, r) + ".weight"@);
}

proof fn lemma_tensor_is_installed(
    c: Gemma4Config,
    s: Seq<(Seq<char>, TensorInfo)>,
    q: QuantSettings,
    encoders: int,
    i: int,
    r: Seq<char>,
)
    requires
        model_outcome(c, s, q, encoders) is Done,
        0 <= i < c.layers(),
        layer_parts(c, i).contains(at(RuleKind::Tensor, i, r)),
        there(s, layer_key(i, r)),
    ensures
        installed(model_outcome(c, s, q, encoders)->Done_0, layer_key(i, r)),
{
    let rule = at(RuleKind::Tensor, i, r);
    lemma_layer_part_is_planned(c, s, q, encoders, i, rule);
    assert(rule_outcome(s, q, rule)->Done_0[0].name == layer_key(i, r));
}

/// The parts of layer `i`.
proof fn lemma_parts_of_layer(c: Gemma4Config, i: int)
    ensures
        layer_parts(c, i).contains(at(RuleKind::Linear, i, ".self_attn.q_proj"@)),
        layer_parts(c, i).contains(at(RuleKind::Linear, i, ".self_attn.k_proj"@)),
        !(c.attention_k_eq_v && c.global_at(i)) ==> layer_parts(c, i).contains(
            at(RuleKind::Linear, i, ".self_attn.v_proj"@),
        ),
        layer_parts(c, i).contains(at(RuleKind::Linear, i, ".self_attn.o_proj"@)),
        layer_parts(c, i).contains(at(RuleKind::Tensor, i, ".self_attn.q_norm.weight"@)),
        layer_parts(c, i).contains(at(RuleKind::Tensor, i, ".self_attn.k_norm.weight"@)),
        layer_parts(c, i).contains(at(RuleKind::Mlp, i, ".mlp"@)),
        layer_parts(c, i).contains(at(RuleKind::Tensor, i, ".input_layernorm.weight"@)),
        layer_parts(c, i).contains(at(RuleKind::Tensor, i, ".post_attention_layernorm.weight"@)),
        layer_parts(c, i).contains(at(RuleKind::Tensor, i, ".pre_feedforward_layernorm.weight"@)),
        layer_parts(c, i).contains(at(RuleKind::Tensor, i, ".post_feedforward_layernorm.weight"@)),
        layer_parts(c, i).contains(at(RuleKind::Tensor, i, ".layer_scalar"@)),
        c.enable_moe_block ==> {
            &&& layer_parts(c, i).contains(at(RuleKind::Tensor, i, ".router.scale"@))
            &&& layer_parts(c, i).contains(at(RuleKind::AffineOnly, i, ".router.proj"@))
            &&& layer_parts(c, i).contains(at(RuleKind::Experts, i, ".experts.gate_up_proj"@))
            &&& layer_parts(c, i).contains(at(RuleKind::Experts, i, ".experts.down_proj"@))
        },
{
    let all = layer_parts(c, i);
    let first = query_key_parts(i);
    assert(all[0] == first[0]);
    assert(all[1] == first[1]);
    let shift: int = if c.attention_k_eq_v && c.global_at(i) {
        2
    } else {
        3
    };
    if shift == 3 {
        assert(all[2] == value_parts(i)[0]);
    }
    let middle = middle_parts(i);
    assert(all[shift + 0] == middle[0]);
    assert(all[shift + 1] == middle[1]);
    assert(all[shift + 2] == middle[2]);
    assert(all[shift + 7] == middle[7]);
    assert(all[shift + 8] == middle[8]);
    assert(all[shift + 9] == middle[9]);
    assert(all[shift + 10] == middle[10]);
    assert(all[shift + 11] == middle[11]);
    assert(all[shift + 12] == middle[12]);
    if c.enable_moe_block {
        let experts = moe_parts(i);
        let at_experts = all.len() - experts.len();
        assert(all[at_experts] == experts[0]);
        assert(all[at_experts + 1] == experts[1]);
        assert(all[at_experts + 3] == experts[3]);
        assert(all[at_experts + 4] == experts[4]);
    }
}

/// Everything that layer `i` needs is put in: queries, keys and the output
/// projection; values, unless its keys stand for them; the norm of queries; the
/// norm of keys, unless it shares those of another layer; the three projections
/// of the feed-forward part; the norms and the scalar of the layer; and with
/// experts the router, its scale and both stacks of experts.
pub open spec fn layer_is_filled(c: Gemma4Config, plan: Seq<InstallView>, i: int) -> bool {
    &&& filled(plan, layer_key(i, ".self_attn.q_proj"@))
    &&& filled(plan, layer_key(i, ".self_attn.k_proj"@))
    &&& filled(plan, layer_key(i, ".self_attn.o_proj"@))
    &&& !(c.attention_k_eq_v && c.global_at(i)) ==> filled(
        plan,
        layer_key(i, ".self_attn.v_proj"@),
    )
    &&& installed(plan, layer_key(i, ".self_attn.q_norm.weight"@))
    &&& !c.shared_at(i) ==> installed(plan, layer_key(i, ".self_attn.k_norm.weight"@))
    &&& filled(plan, layer_key(i, ".mlp"@) + ".gate_proj"@)
    &&& filled(plan, layer_key(i, ".mlp"@) + ".up_proj"@)
    &&& filled(plan, layer_key(i, ".mlp"@) + ".down_proj"@)
    &&& installed(plan, layer_key(i, ".input_layernorm.weight"@))
    &&& installed(plan, layer_key(i, ".post_attention_layernorm.weight"@))
    &&& installed(plan, layer_key(i, ".pre_feedforward_layernorm.weight"@))
    &&& installed(plan, layer_key(i, ".post_feedforward_layernorm.weight"@))
    &&& installed(plan, layer_key(i, ".layer_scalar"@))
    &&& c.enable_moe_block ==> {
        &&& installed(plan, layer_key(i, ".router.scale"@))
        &&& filled(plan, layer_key(i, ".router.proj"@))
        &&& filled(plan, layer_key(i, ".experts.gate_up_proj"@))
        &&& filled(plan, layer_key(i, ".experts.down_proj"@))
    }
}

/// A complete checkpoint that loads leaves no layer with values that it was made
/// with: in every layer everything that a complete checkpoint has for it is put
/// in. This holds of models with and without experts, quantized or not.
pub proof fn law_loaded_layer_is_filled(
    c: Gemma4Config,
    raw: Seq<(Seq<char>, TensorInfo)>,
    s: Seq<(Seq<char>, TensorInfo)>,
    q: QuantSettings,
    encoders: int,
    i: int,
)
    requires
        c.wf(),
        0 <= i < c.layers(),
        complete(c, raw),
        fills_from(c, raw, s),
        model_outcome(c, s, q, encoders) is Done,
    ensures
        layer_is_filled(c, model_outcome(c, s, q, encoders)->Done_0, i),
{
    lemma_parts_of_layer(c, i);
    lemma_layer_tensors(c, raw, s, i);
    lemma_attention_is_filled(c, s, q, encoders, i);
    lemma_mlp_is_filled(c, s, q, encoders, i);
    lemma_tensor_is_installed(c, s, q, encoders, i, ".self_attn.q_norm.weight"@);
    if !c.shared_at(i) {
        lemma_tensor_is_installed(c, s, q, encoders, i, ".self_attn.k_norm.weight"@);
    }
    lemma_tensor_is_installed(c, s, q, encoders, i, ".input_layernorm.weight"@);
    lemma_tensor_is_installed(c, s, q, encoders, i, ".post_attention_layernorm.weight"@);
    lemma_tensor_is_installed(c, s, q, encoders, i, ".pre_feedforward_layernorm.weight"@);
    lemma_tensor_is_installed(c, s, q, encoders, i, ".post_feedforward_layernorm.weight"@);
    lemma_tensor_is_installed(c, s, q, encoders, i, ".layer_scalar"@);
    if c.enable_moe_block {
        lemma_tensor_is_installed(c, s, q, encoders, i, ".router.scale"@);
        lemma_layer_experts(c, raw, s, i);
        lemma_experts_are_filled(c, s, q, encoders, i);
    }
}

proof fn lemma_attention_is_filled(
    c: Gemma4Config,
    s: Seq<(Seq<char>, TensorInfo)>,
    q: QuantSettings,
    encoders: int,
    i: int,
)
    requires
        model_outcome(c, s, q, encoders) is Done,
        0 <= i < c.layers(),
        there(s, layer_key(i, ".self_attn.q_proj.weight"@)),
        there(s, layer_key(i, ".self_attn.k_proj.weight"@)),
        there(s, layer_key(i, ".self_attn.o_proj.weight"@)),
        !(c.attention_k_eq_v && c.global_at(i)) ==> there(
            s,
            layer_key(i, ".self_attn.v_proj.weight"@),
        ),
    ensures
        ({
            let plan = model_outcome(c, s, q, encoders)->Done_0;
            &&& filled(plan, layer_key(i, ".self_attn.q_proj"@))
            &&& filled(plan, layer_key(i, ".self_attn.k_proj"@))
            &&& filled(plan, layer_key(i, ".self_attn.o_proj"@))
            &&& !(c.attention_k_eq_v && c.global_at(i)) ==> filled(
                plan,
                layer_key(i, ".self_attn.v_proj"@),
            )
        }),
{
    reveal_strlit(".weight");
    reveal_strlit(".self_attn.q_proj");
    reveal_strlit(".self_attn.q_proj.weight");
    reveal_strlit(".self_attn.k_proj");
    reveal_strlit(".self_attn.k_proj.weight");
    reveal_strlit(".self_attn.o_proj");
    reveal_strlit(".self_attn.o_proj.weight");
    reveal_strlit(".self_attn.v_proj");
    reveal_strlit(".self_attn.v_proj.weight");
    assert(".self_attn.q_proj"@ + ".weight"@ =~= ".self_attn.q_proj.weight"@);
    assert(".self_attn.k_proj"@ + ".weight"@ =~= ".self_attn.k_proj.weight"@);
    assert(".self_attn.o_proj"@ + ".weight"@ =~= ".self_attn.o_proj.weight"@);
    assert(".self_attn.v_proj"@ + ".weight"@ =~= ".self_attn.v_proj.weight"@);
    lemma_parts_of_layer(c, i);
    lemma_linear_is_filled(
        c,
        s,
        q,
        encoders,
        i,
        ".self_attn.q_proj"@,
        ".self_attn.q_proj.weight"@,
    );
    lemma_linear_is_filled(
        c,
        s,
        q,
        encoders,
        i,
        ".self_attn.k_proj"@,
        ".self_attn.k_proj.weight"@,
    );
    lemma_linear_is_filled(
        c,
        s,
        q,
        encoders,
        i,
        ".self_attn.o_proj"@,
        ".self_attn.o_proj.weight"@,
    );
    if !(c.attention_k_eq_v && c.global_at(i)) {
        lemma_linear_is_filled(
            c,
            s,
            q,
            encoders,
            i,
            ".self_attn.v_proj"@,
            ".self_attn.v_proj.weight"@,
        );
    }
}

proof fn lemma_mlp_is_filled(
    c: Gemma4Config,
    s: Seq<(Seq<char>, TensorInfo)>,
    q: QuantSettings,
    encoders: int,
    i: int,
)
    requires
        model_outcome(c, s, q, encoders) is Done,
        0 <= i < c.layers(),
        there(s, layer_key(i, ".mlp.gate_proj.weight"@)),
        there(s, layer_key(i, ".mlp.up_proj.weight"@)),
        there(s, layer_key(i, ".mlp.down_proj.weight"@)),
    ensures
        ({
            let plan = model_outcome(c, s, q, encoders)->Done_0;
            &&& filled(plan, layer_key(i, ".mlp"@) + ".gate_proj"@)
            &&& filled(plan, layer_key(i, ".mlp"@) + ".up_proj"@)
            &&& filled(plan, layer_key(i, ".mlp"@) + ".down_proj"@)
        }),
{
    reveal_strlit(".weight");
    reveal_strlit(".mlp");
    reveal_strlit(".gate_proj");
    reveal_strlit(".mlp.gate_proj.weight");
    reveal_strlit(".up_proj");
    reveal_strlit(".mlp.up_proj.weight");
    reveal_strlit(".down_proj");
    reveal_strlit(".mlp.down_proj.weight");
    assert(".mlp"@ + ".gate_proj"@ + ".weight"@ =~= ".mlp.gate_proj.weight"@);
    lemma_key_suffix(i, ".mlp"@, ".gate_proj"@, ".mlp"@ + ".gate_proj"@);
    lemma_key_suffix(i, ".mlp"@ + ".gate_proj"@, ".weight"@, ".mlp.gate_proj.weight"@);
    assert(".mlp"@ + ".up_proj"@ + ".weight"@ =~= ".mlp.up_proj.weight"@);
    lemma_key_suffix(i, ".mlp"@, ".up_proj"@, ".mlp"@ + ".up_proj"@);
    lemma_key_suffix(i, ".mlp"@ + ".up_proj"@, ".weight"@, ".mlp.up_proj.weight"@);
    assert(".mlp"@ + ".down_proj"@ + ".weight"@ =~= ".mlp.down_proj.weight"@);
    lemma_key_suffix(i, ".mlp"@, ".down_proj"@, ".mlp"@ + ".down_proj"@);
    lemma_key_suffix(i, ".mlp"@ + ".down_proj"@, ".weight"@, ".mlp.down_proj.weight"@);
    let m = layer_key(i, ".mlp"@);
    let rule = at(RuleKind::Mlp, i, ".mlp"@);
    lemma_parts_of_layer(c, i);
    lemma_layer_part_is_planned(c, s, q, encoders, i, rule);
    law_mlp_is_whole(s, q, m);
    let v = rule_outcome(s, q, rule)->Done_0;
    assert(v[0].name == m + ".gate_proj"@ || v[0].name == m + ".gate_proj"@ + ".weight"@);
    assert(v[1].name == m + ".up_proj"@ || v[1].name == m + ".up_proj"@ + ".weight"@);
    assert(v[2].name == m + ".down_proj"@ || v[2].name == m + ".down_proj"@ + ".weight"@);
}

proof fn lemma_experts_are_filled(
    c: Gemma4Config,
    s: Seq<(Seq<char>, TensorInfo)>,
    q: QuantSettings,
    encoders: int,
    i: int,
)
    requires
        model_outcome(c, s, q, encoders) is Done,
        0 <= i < c.layers(),
        c.enable_moe_block,
        there(s, layer_key(i, ".router.proj.weight"@)),
        stacked(s, i, ".experts.gate_up_proj"@),
        stacked(s, i, ".experts.down_proj"@),
    ensures
        ({
            let plan = model_outcome(c, s, q, encoders)->Done_0;
            &&& filled(plan, layer_key(i, ".router.proj"@))
            &&& filled(plan, layer_key(i, ".experts.gate_up_proj"@))
            &&& filled(plan, layer_key(i, ".experts.down_proj"@))
        }),
{
    reveal_strlit(".weight");
    reveal_strlit(".router.proj");
    reveal_strlit(".router.proj.weight");
    assert(".router.proj"@ + ".weight"@ =~= ".router.proj.weight"@);
    lemma_key_suffix(i, ".router.proj"@, ".weight"@, ".router.proj.weight"@);
    lemma_parts_of_layer(c, i);
    let router = at(RuleKind::AffineOnly, i, ".router.proj"@);
    lemma_layer_part_is_planned(c, s, q, encoders, i, router);
    let v = rule_outcome(s, q, router)->Done_0;
    assert(v[0].name == router.name || v[0].name == router.name + ".weight"@);
    let gate_up = at(RuleKind::Experts, i, ".experts.gate_up_proj"@);
    lemma_layer_part_is_planned(c, s, q, encoders, i, gate_up);
    let v = rule_outcome(s, q, gate_up)->Done_0;
    assert(v[0].name == gate_up.name || v[0].name == gate_up.name + ".weight"@);
    let down = at(RuleKind::Experts, i, ".experts.down_proj"@);
    lemma_layer_part_is_planned(c, s, q, encoders, i, down);
    let v = rule_outcome(s, q, down)->Done_0;
    assert(v[0].name == down.name || v[0].name == down.name + ".weight"@);
}

/// Everything that a model needs outside its layers is put in: the embedding of
/// tokens, the last norm, and the output projection where it is not the
/// embedding; with an encoder-free vision embedder all of its parts, and the
/// projections of images and of audio.
pub open spec fn model_is_filled(c: Gemma4Config, plan: Seq<InstallView>) -> bool {
    &&& filled(plan, "embed_tokens"@)
    &&& installed(plan, "norm.weight"@)
    &&& !c.tie_word_embeddings ==> filled(plan, "lm_head"@)
    &&& c.vision_config is None && c.unified_vision_config is Some ==> {
        &&& installed(plan, "vision_embedder.patch_ln1"@)
        &&& installed(plan, "vision_embedder.patch_ln2"@)
        &&& installed(plan, "vision_embedder.pos_norm"@)
        &&& installed(plan, "vision_embedder.patch_dense.weight"@)
        &&& installed(plan, "vision_embedder.patch_dense.bias"@)
        &&& installed(plan, "vision_embedder.pos_embedding"@)
        &&& filled(plan, "embed_vision.embedding_projection"@)
    }
    &&& c.has_audio ==> filled(plan, "embed_audio.embedding_projection"@)
}

/// A complete checkpoint that loads leaves nothing outside the layers with
/// values that it was made with.
pub proof fn law_loaded_model_is_filled(
    c: Gemma4Config,
    raw: Seq<(Seq<char>, TensorInfo)>,
    s: Seq<(Seq<char>, TensorInfo)>,
    q: QuantSettings,
    encoders: int,
)
    requires
        c.wf(),
        complete(c, raw),
        fills_from(c, raw, s),
        model_outcome(c, s, q, encoders) is Done,
    ensures
        model_is_filled(c, model_outcome(c, s, q, encoders)->Done_0),
{
    lemma_text_ends_are_filled(c, raw, s, q, encoders);
    if c.vision_config is None && c.unified_vision_config is Some {
        lemma_embedder_is_filled(c, raw, s, q, encoders);
    }
    if c.has_audio {
        lemma_audio_is_filled(c, raw, s, q, encoders);
    }
}

/// A tensor outside the layers is among those that the model is filled from.
proof fn lemma_outer_tensor_is_there(
    c: Gemma4Config,
    raw: Seq<(Seq<char>, TensorInfo)>,
    s: Seq<(Seq<char>, TensorInfo)>,
    key: Seq<char>,
)
    requires
        complete(c, raw),
        fills_from(c, raw, s),
        outside_layers(key),
        key != "embed_tokens_per_layer.weight"@,
        model_needs(c).contains(Need::Key(key)),
    ensures
        there(s, key),
{
    assert forall|j: int| 0 <= j < c.layers() implies #[trigger] untouched(key, j) by {
        lemma_outside_untouched(key, j);
    }
    lemma_needed_is_there(c, raw, s, key);
}

proof fn lemma_text_ends_are_filled(
    c: Gemma4Config,
    raw: Seq<(Seq<char>, TensorInfo)>,
    s: Seq<(Seq<char>, TensorInfo)>,
    q: QuantSettings,
    encoders: int,
)
    requires
        complete(c, raw),
        fills_from(c, raw, s),
        model_outcome(c, s, q, encoders) is Done,
    ensures
        ({
            let plan = model_outcome(c, s, q, encoders)->Done_0;
            &&& filled(plan, "embed_tokens"@)
            &&& installed(plan, "norm.weight"@)
            &&& !c.tie_word_embeddings ==> filled(plan, "lm_head"@)
        }),
{
    reveal_strlit(".weight");
    reveal_strlit("embed_tokens");
    reveal_strlit("embed_tokens.weight");
    reveal_strlit("embed_tokens_per_layer.weight");
    reveal_strlit("norm.weight");
    reveal_strlit("lm_head");
    reveal_strlit("lm_head.weight");
    assert("embed_tokens"@ + ".weight"@ =~= "embed_tokens.weight"@);
    assert("lm_head"@ + ".weight"@ =~= "lm_head.weight"@);
    let needs = model_needs(c);
    assert(needs[0] == Need::Key("embed_tokens.weight"@));
    assert(needs[1] == Need::Key("norm.weight"@));
    lemma_outer_tensor_is_there(c, raw, s, "embed_tokens.weight"@);
    lemma_outer_tensor_is_there(c, raw, s, "norm.weight"@);
    let embedding = part(RuleKind::Embedding { tied: c.tie_word_embeddings }, "embed_tokens"@);
    assert(text_parts(c)[0] == embedding);
    lemma_part_is_planned(c, s, q, encoders, embedding);
    let v = rule_outcome(s, q, embedding)->Done_0;
    assert(v[0].name == "embed_tokens"@ || v[0].name == "embed_tokens"@ + ".weight"@);
    let norm = part(RuleKind::Tensor, "norm.weight"@);
    assert(text_parts(c)[1] == norm);
    lemma_part_is_planned(c, s, q, encoders, norm);
    assert(rule_outcome(s, q, norm)->Done_0[0].name == "norm.weight"@);
    if !c.tie_word_embeddings {
        assert(needs[2 + layers_need(c, c.layers()).len() as int] == Need::Key("lm_head.weight"@));
        lemma_outer_tensor_is_there(c, raw, s, "lm_head.weight"@);
        let head = part(RuleKind::Head, "lm_head"@);
        assert(text_parts(c)[2] == head);
        lemma_part_is_planned(c, s, q, encoders, head);
        let v = rule_outcome(s, q, head)->Done_0;
        assert(v[0].name == "lm_head"@ || v[0].name == "lm_head"@ + ".weight"@);
    }
}

proof fn lemma_embedder_tensors(
    c: Gemma4Config,
    raw: Seq<(Seq<char>, TensorInfo)>,
    s: Seq<(Seq<char>, TensorInfo)>,
)
    requires
        complete(c, raw),
        fills_from(c, raw, s),
        c.unified_vision_config is Some,
    ensures
        there(s, "vision_embedder.patch_ln1.weight"@),
        there(s, "vision_embedder.patch_ln2.weight"@),
        there(s, "vision_embedder.pos_norm.weight"@),
        there(s, "vision_embedder.patch_dense.weight"@),
        there(s, "vision_embedder.patch_dense.bias"@),
        there(s, "vision_embedder.pos_embedding"@),
        there(s, "embed_vision.embedding_projection.weight"@),
{
    let needs = model_needs(c);
    let front = 2 + layers_need(c, c.layers()).len() + (if c.tie_word_embeddings {
        0int
    } else {
        1
    });
    reveal_strlit("embed_tokens_per_layer.weight");
    reveal_strlit("vision_embedder.patch_ln1.weight");
    assert(needs[front + 0] == embedder_needs()[0]);
    assert("vision_embedder.patch_ln1.weight"@[0] == 'v');
    lemma_outer_tensor_is_there(c, raw, s, "vision_embedder.patch_ln1.weight"@);
    reveal_strlit("vision_embedder.patch_ln2.weight");
    assert(needs[front + 2] == embedder_needs()[2]);
    assert("vision_embedder.patch_ln2.weight"@[0] == 'v');
    lemma_outer_tensor_is_there(c, raw, s, "vision_embedder.patch_ln2.weight"@);
    reveal_strlit("vision_embedder.pos_norm.weight");
    assert(needs[front + 4] == embedder_needs()[4]);
    assert("vision_embedder.pos_norm.weight"@[0] == 'v');
    lemma_outer_tensor_is_there(c, raw, s, "vision_embedder.pos_norm.weight"@);
    reveal_strlit("vision_embedder.patch_dense.weight");
    assert(needs[front + 6] == embedder_needs()[6]);
    assert("vision_embedder.patch_dense.weight"@[0] == 'v');
    lemma_outer_tensor_is_there(c, raw, s, "vision_embedder.patch_dense.weight"@);
    reveal_strlit("vision_embedder.patch_dense.bias");
    assert(needs[front + 7] == embedder_needs()[7]);
    assert("vision_embedder.patch_dense.bias"@[0] == 'v');
    lemma_outer_tensor_is_there(c, raw, s, "vision_embedder.patch_dense.bias"@);
    reveal_strlit("vision_embedder.pos_embedding");
    assert(needs[front + 8] == embedder_needs()[8]);
    assert("vision_embedder.pos_embedding"@[0] == 'v');
    lemma_outer_tensor_is_there(c, raw, s, "vision_embedder.pos_embedding"@);
    reveal_strlit("embed_vision.embedding_projection.weight");
    assert(needs[front + 9] == embedder_needs()[9]);
    assert("embed_vision.embedding_projection.weight"@[6] == 'v' && "embed_tokens_per_layer.weight"@[6] == 't');
    lemma_outer_tensor_is_there(c, raw, s, "embed_vision.embedding_projection.weight"@);
}

#[verifier::rlimit(40)]
proof fn lemma_embedder_is_filled(
    c: Gemma4Config,
    raw: Seq<(Seq<char>, TensorInfo)>,
    s: Seq<(Seq<char>, TensorInfo)>,
    q: QuantSettings,
    encoders: int,
)
    requires
        complete(c, raw),
        fills_from(c, raw, s),
        c.vision_config is None,
        c.unified_vision_config is Some,
        model_outcome(c, s, q, encoders) is Done,
    ensures
        ({
            let plan = model_outcome(c, s, q, encoders)->Done_0;
            &&& installed(plan, "vision_embedder.patch_ln1"@)
            &&& installed(plan, "vision_embedder.patch_ln2"@)
            &&& installed(plan, "vision_embedder.pos_norm"@)
            &&& installed(plan, "vision_embedder.patch_dense.weight"@)
            &&& installed(plan, "vision_embedder.patch_dense.bias"@)
            &&& installed(plan, "vision_embedder.pos_embedding"@)
            &&& filled(plan, "embed_vision.embedding_projection"@)
        }),
{
    lemma_embedder_tensors(c, raw, s);
    reveal_strlit(".weight");
    reveal_strlit("vision_embedder.patch_ln1");
    reveal_strlit("vision_embedder.patch_ln1.weight");
    assert("vision_embedder.patch_ln1"@ + ".weight"@ =~= "vision_embedder.patch_ln1.weight"@);
    reveal_strlit("vision_embedder.patch_ln2");
    reveal_strlit("vision_embedder.patch_ln2.weight");
    assert("vision_embedder.patch_ln2"@ + ".weight"@ =~= "vision_embedder.patch_ln2.weight"@);
    reveal_strlit("vision_embedder.pos_norm");
    reveal_strlit("vision_embedder.pos_norm.weight");
    assert("vision_embedder.pos_norm"@ + ".weight"@ =~= "vision_embedder.pos_norm.weight"@);
    reveal_strlit("embed_vision.embedding_projection");
    reveal_strlit("embed_vision.embedding_projection.weight");
    assert("embed_vision.embedding_projection"@ + ".weight"@ =~= "embed_vision.embedding_projection.weight"@);
    let parts = vision_parts(c, encoders);
    assert(parts =~= embedder_parts() + seq![image_projection()]);
    assert(parts[6] == image_projection());
    assert(parts[0] == embedder_parts()[0]);
    assert(parts[1] == embedder_parts()[1]);
    assert(parts[2] == embedder_parts()[2]);
    assert(parts[3] == embedder_parts()[3]);
    assert(parts[4] == embedder_parts()[4]);
    assert(parts[5] == embedder_parts()[5]);
    lemma_norm_is_installed(c, s, q, encoders, "vision_embedder.patch_ln1"@, "vision_embedder.patch_ln1.weight"@);
    lemma_norm_is_installed(c, s, q, encoders, "vision_embedder.patch_ln2"@, "vision_embedder.patch_ln2.weight"@);
    lemma_norm_is_installed(c, s, q, encoders, "vision_embedder.pos_norm"@, "vision_embedder.pos_norm.weight"@);
    lemma_vision_tensor_is_installed(c, s, q, encoders, "vision_embedder.patch_dense.weight"@);
    lemma_vision_tensor_is_installed(c, s, q, encoders, "vision_embedder.patch_dense.bias"@);
    lemma_vision_tensor_is_installed(c, s, q, encoders, "vision_embedder.pos_embedding"@);
    lemma_projection_is_filled(
        c,
        s,
        q,
        encoders,
        "embed_vision.embedding_projection"@,
        "embed_vision.embedding_projection.weight"@,
    );
}

proof fn lemma_norm_is_installed(
    c: Gemma4Config,
    s: Seq<(Seq<char>, TensorInfo)>,
    q: QuantSettings,
    encoders: int,
    name: Seq<char>,
    whole: Seq<char>,
)
    requires
        model_outcome(c, s, q, encoders) is Done,
        vision_parts(c, encoders).contains(part(RuleKind::LayerNorm, name)),
        name + ".weight"@ == whole,
        there(s, whole),
    ensures
        installed(model_outcome(c, s, q, encoders)->Done_0, name),
{
    let rule = part(RuleKind::LayerNorm, name);
    lemma_part_is_planned(c, s, q, encoders, rule);
    assert(rule_outcome(s, q, rule)->Done_0[0].name == name);
}

proof fn lemma_vision_tensor_is_installed(
    c: Gemma4Config,
    s: Seq<(Seq<char>, TensorInfo)>,
    q: QuantSettings,
    encoders: int,
    key: Seq<char>,
)
    requires
        model_outcome(c, s, q, encoders) is Done,
        vision_parts(c, encoders).contains(part(RuleKind::Tensor, key)),
        there(s, key),
    ensures
        installed(model_outcome(c, s, q, encoders)->Done_0, key),
{
    let rule = part(RuleKind::Tensor, key);
    lemma_part_is_planned(c, s, q, encoders, rule);
    assert(rule_outcome(s, q, rule)->Done_0[0].name == key);
}

proof fn lemma_projection_is_filled(
    c: Gemma4Config,
    s: Seq<(Seq<char>, TensorInfo)>,
    q: QuantSettings,
    encoders: int,
    name: Seq<char>,
    whole: Seq<char>,
)
    requires
        model_outcome(c, s, q, encoders) is Done,
        vision_parts(c, encoders).contains(part(RuleKind::AffineOnly, name)) || audio_parts(
            c,
        ).contains(part(RuleKind::AffineOnly, name)),
        name + ".weight"@ == whole,
        there(s, whole),
    ensures
        filled(model_outcome(c, s, q, encoders)->Done_0, name),
{
    let rule = part(RuleKind::AffineOnly, name);
    lemma_part_is_planned(c, s, q, encoders, rule);
    let v = rule_outcome(s, q, rule)->Done_0;
    assert(v[0].name == name || v[0].name == name + ".weight"@);
}

proof fn lemma_audio_is_filled(
    c: Gemma4Config,
    raw: Seq<(Seq<char>, TensorInfo)>,
    s: Seq<(Seq<char>, TensorInfo)>,
    q: QuantSettings,
    encoders: int,
)
    requires
        complete(c, raw),
        fills_from(c, raw, s),
        c.has_audio,
        model_outcome(c, s, q, encoders) is Done,
    ensures
        filled(
            model_outcome(c, s, q, encoders)->Done_0,
            "embed_audio.embedding_projection"@,
        ),
{
    reveal_strlit(".weight");
    reveal_strlit("embed_audio.embedding_projection");
    reveal_strlit("embed_audio.embedding_projection.weight");
    reveal_strlit("embed_tokens_per_layer.weight");
    assert("embed_audio.embedding_projection"@ + ".weight"@
        =~= "embed_audio.embedding_projection.weight"@);
    assert("embed_audio.embedding_projection.weight"@[6] == 'a'
        && "embed_tokens_per_layer.weight"@[6] == 't');
    let needs = model_needs(c);
    assert(needs[needs.len() - 1] == Need::Key("embed_audio.embedding_projection.weight"@));
    lemma_outer_tensor_is_there(c, raw, s, "embed_audio.embedding_projection.weight"@);
    let rule = part(RuleKind::AffineOnly, "embed_audio.embedding_projection"@);
    assert(audio_parts(c)[0] == rule);
    lemma_projection_is_filled(
        c,
        s,
        q,
        encoders,
        "embed_audio.embedding_projection"@,
        "embed_audio.embedding_projection.weight"@,
    );
}

/// The per-layer embedding is wanted and has a size.
pub open spec fn has_per_layer_embedding(c: Gemma4Config) -> bool {
    &&& c.per_layer_input_embeds
    &&& c.hidden_size_per_layer_input is Some
    &&& c.hidden_size_per_layer_input->0 > 0
    &&& c.vocab_size_per_layer_input is Some
    &&& c.vocab_size_per_layer_input->0 > 0
}

/// Everything that a layer can have is looked for, each part in its form: values unless
/// keys stand for them, the per-layer embedding where the model has one, and experts
/// where it has some.
#[verifier::rlimit(40)]
pub proof fn law_parts_of_a_layer_are_looked_for(c: Gemma4Config, i: int)
    requires
        0 <= i < c.num_hidden_layers,
    ensures
        text_parts(c).contains(at(RuleKind::Linear, i, ".self_attn.q_proj"@)),
        text_parts(c).contains(at(RuleKind::Linear, i, ".self_attn.k_proj"@)),
        text_parts(c).contains(at(RuleKind::Linear, i, ".self_attn.o_proj"@)),
        text_parts(c).contains(at(RuleKind::Tensor, i, ".self_attn.q_norm.weight"@)),
        text_parts(c).contains(at(RuleKind::Tensor, i, ".self_attn.k_norm.weight"@)),
        text_parts(c).contains(at(RuleKind::Tensor, i, ".self_attn.q_proj.bias"@)),
        text_parts(c).contains(at(RuleKind::Tensor, i, ".self_attn.k_proj.bias"@)),
        text_parts(c).contains(at(RuleKind::Tensor, i, ".self_attn.v_proj.bias"@)),
        text_parts(c).contains(at(RuleKind::Tensor, i, ".self_attn.o_proj.bias"@)),
        text_parts(c).contains(at(RuleKind::Mlp, i, ".mlp"@)),
        text_parts(c).contains(at(RuleKind::Tensor, i, ".input_layernorm.weight"@)),
        text_parts(c).contains(at(RuleKind::Tensor, i, ".post_attention_layernorm.weight"@)),
        text_parts(c).contains(at(RuleKind::Tensor, i, ".pre_feedforward_layernorm.weight"@)),
        text_parts(c).contains(at(RuleKind::Tensor, i, ".post_feedforward_layernorm.weight"@)),
        text_parts(c).contains(at(RuleKind::Tensor, i, ".layer_scalar"@)),
        !(c.attention_k_eq_v && c.global_at(i)) ==> text_parts(c).contains(
            at(RuleKind::Linear, i, ".self_attn.v_proj"@),
        ),
        has_per_layer_embedding(c) ==> {
            &&& text_parts(c).contains(at(RuleKind::Dense, i, ".per_layer_input_gate.weight"@))
            &&& text_parts(c).contains(at(RuleKind::Dense, i, ".per_layer_projection.weight"@))
            &&& text_parts(c).contains(at(RuleKind::Tensor, i, ".post_per_layer_input_norm.weight"@))
        },
        c.enable_moe_block ==> {
            &&& text_parts(c).contains(at(RuleKind::Tensor, i, ".router.scale"@))
            &&& text_parts(c).contains(at(RuleKind::AffineOnly, i, ".router.proj"@))
            &&& text_parts(c).contains(at(RuleKind::Tensor, i, ".router.per_expert_scale"@))
            &&& text_parts(c).contains(at(RuleKind::Experts, i, ".experts.gate_up_proj"@))
            &&& text_parts(c).contains(at(RuleKind::Experts, i, ".experts.down_proj"@))
            &&& text_parts(c).contains(at(RuleKind::Tensor, i, ".pre_feedforward_layernorm_2.weight"@))
            &&& text_parts(c).contains(at(RuleKind::Tensor, i, ".post_feedforward_layernorm_1.weight"@))
            &&& text_parts(c).contains(at(RuleKind::Tensor, i, ".post_feedforward_layernorm_2.weight"@))
        },
{
    lemma_middle_parts(c, i);
    assert(query_key_parts(i)[0] == at(RuleKind::Linear, i, ".self_attn.q_proj"@));
    assert(query_key_parts(i)[1] == at(RuleKind::Linear, i, ".self_attn.k_proj"@));
    lemma_group_part(c, i, at(RuleKind::Linear, i, ".self_attn.q_proj"@));
    lemma_group_part(c, i, at(RuleKind::Linear, i, ".self_attn.k_proj"@));
    if !(c.attention_k_eq_v && c.global_at(i)) {
        assert(value_parts(i)[0] == at(RuleKind::Linear, i, ".self_attn.v_proj"@));
        lemma_group_part(c, i, at(RuleKind::Linear, i, ".self_attn.v_proj"@));
    }
    if has_per_layer_embedding(c) {
        assert(layer_ple_parts(i)[0] == at(RuleKind::Dense, i, ".per_layer_input_gate.weight"@));
        lemma_group_part(c, i, at(RuleKind::Dense, i, ".per_layer_input_gate.weight"@));
        assert(layer_ple_parts(i)[1] == at(RuleKind::Dense, i, ".per_layer_projection.weight"@));
        lemma_group_part(c, i, at(RuleKind::Dense, i, ".per_layer_projection.weight"@));
        assert(layer_ple_parts(i)[2] == at(RuleKind::Tensor, i, ".post_per_layer_input_norm.weight"@));
        lemma_group_part(c, i, at(RuleKind::Tensor, i, ".post_per_layer_input_norm.weight"@));
    }
    if c.enable_moe_block {
        lemma_expert_parts(c, i);
    }
}

/// A part of one of the groups that a layer has is looked for.
#[verifier::rlimit(40)]
proof fn lemma_group_part(c: Gemma4Config, i: int, rule: RuleView)
    requires
        0 <= i < c.num_hidden_layers,
        query_key_parts(i).contains(rule) || middle_parts(i).contains(rule) || (value_parts(
            i,
        ).contains(rule) && !(c.attention_k_eq_v && c.global_at(i))) || (layer_ple_parts(
            i,
        ).contains(rule) && has_per_layer_embedding(c)) || (moe_parts(i).contains(rule)
            && c.enable_moe_block),
    ensures
        text_parts(c).contains(rule),
{
    let all = layer_parts(c, i);
    let values: int = if c.attention_k_eq_v && c.global_at(i) {
        0
    } else {
        1
    };
    let ple: int = if has_per_layer_embedding(c) {
        3
    } else {
        0
    };
    if query_key_parts(i).contains(rule) {
        let k = choose|k: int|
            0 <= k < query_key_parts(i).len() && query_key_parts(i)[k] == rule;
        assert(all[k] == rule);
    } else if middle_parts(i).contains(rule) {
        let k = choose|k: int| 0 <= k < middle_parts(i).len() && middle_parts(i)[k] == rule;
        assert(all[2 + values + k] == rule);
    } else if value_parts(i).contains(rule) && !(c.attention_k_eq_v && c.global_at(i)) {
        let k = choose|k: int| 0 <= k < value_parts(i).len() && value_parts(i)[k] == rule;
        assert(all[2 + k] == rule);
    } else if layer_ple_parts(i).contains(rule) && has_per_layer_embedding(c) {
        let k = choose|k: int|
            0 <= k < layer_ple_parts(i).len() && layer_ple_parts(i)[k] == rule;
        assert(all[15 + values + k] == rule);
    } else {
        let k = choose|k: int| 0 <= k < moe_parts(i).len() && moe_parts(i)[k] == rule;
        assert(all[15 + values + ple + k] == rule);
    }
    lemma_text_part(c, i, rule);
}

#[verifier::rlimit(40)]
proof fn lemma_middle_parts(c: Gemma4Config, i: int)
    requires
        0 <= i < c.num_hidden_layers,
    ensures
        text_parts(c).contains(at(RuleKind::Linear, i, ".self_attn.o_proj"@)),
        text_parts(c).contains(at(RuleKind::Tensor, i, ".self_attn.q_norm.weight"@)),
        text_parts(c).contains(at(RuleKind::Tensor, i, ".self_attn.k_norm.weight"@)),
        text_parts(c).contains(at(RuleKind::Tensor, i, ".self_attn.q_proj.bias"@)),
        text_parts(c).contains(at(RuleKind::Tensor, i, ".self_attn.k_proj.bias"@)),
        text_parts(c).contains(at(RuleKind::Tensor, i, ".self_attn.v_proj.bias"@)),
        text_parts(c).contains(at(RuleKind::Tensor, i, ".self_attn.o_proj.bias"@)),
        text_parts(c).contains(at(RuleKind::Mlp, i, ".mlp"@)),
        text_parts(c).contains(at(RuleKind::Tensor, i, ".input_layernorm.weight"@)),
        text_parts(c).contains(at(RuleKind::Tensor, i, ".post_attention_layernorm.weight"@)),
        text_parts(c).contains(at(RuleKind::Tensor, i, ".pre_feedforward_layernorm.weight"@)),
        text_parts(c).contains(at(RuleKind::Tensor, i, ".post_feedforward_layernorm.weight"@)),
        text_parts(c).contains(at(RuleKind::Tensor, i, ".layer_scalar"@)),
{
    let g = middle_parts(i);
    assert(g[0] == at(RuleKind::Linear, i, ".self_attn.o_proj"@));
    lemma_group_part(c, i, g[0]);
    assert(g[1] == at(RuleKind::Tensor, i, ".self_attn.q_norm.weight"@));
    lemma_group_part(c, i, g[1]);
    assert(g[2] == at(RuleKind::Tensor, i, ".self_attn.k_norm.weight"@));
    lemma_group_part(c, i, g[2]);
    assert(g[3] == at(RuleKind::Tensor, i, ".self_attn.q_proj.bias"@));
    lemma_group_part(c, i, g[3]);
    assert(g[4] == at(RuleKind::Tensor, i, ".self_attn.k_proj.bias"@));
    lemma_group_part(c, i, g[4]);
    assert(g[5] == at(RuleKind::Tensor, i, ".self_attn.v_proj.bias"@));
    lemma_group_part(c, i, g[5]);
    assert(g[6] == at(RuleKind::Tensor, i, ".self_attn.o_proj.bias"@));
    lemma_group_part(c, i, g[6]);
    assert(g[7] == at(RuleKind::Mlp, i, ".mlp"@));
    lemma_group_part(c, i, g[7]);
    assert(g[8] == at(RuleKind::Tensor, i, ".input_layernorm.weight"@));
    lemma_group_part(c, i, g[8]);
    assert(g[9] == at(RuleKind::Tensor, i, ".post_attention_layernorm.weight"@));
    lemma_group_part(c, i, g[9]);
    assert(g[10] == at(RuleKind::Tensor, i, ".pre_feedforward_layernorm.weight"@));
    lemma_group_part(c, i, g[10]);
    assert(g[11] == at(RuleKind::Tensor, i, ".post_feedforward_layernorm.weight"@));
    lemma_group_part(c, i, g[11]);
    assert(g[12] == at(RuleKind::Tensor, i, ".layer_scalar"@));
    lemma_group_part(c, i, g[12]);
}

#[verifier::rlimit(40)]
proof fn lemma_expert_parts(c: Gemma4Config, i: int)
    requires
        0 <= i < c.num_hidden_layers,
        c.enable_moe_block,
    ensures
        text_parts(c).contains(at(RuleKind::Tensor, i, ".router.scale"@)),
        text_parts(c).contains(at(RuleKind::AffineOnly, i, ".router.proj"@)),
        text_parts(c).contains(at(RuleKind::Tensor, i, ".router.per_expert_scale"@)),
        text_parts(c).contains(at(RuleKind::Experts, i, ".experts.gate_up_proj"@)),
        text_parts(c).contains(at(RuleKind::Experts, i, ".experts.down_proj"@)),
        text_parts(c).contains(at(RuleKind::Tensor, i, ".pre_feedforward_layernorm_2.weight"@)),
        text_parts(c).contains(at(RuleKind::Tensor, i, ".post_feedforward_layernorm_1.weight"@)),
        text_parts(c).contains(at(RuleKind::Tensor, i, ".post_feedforward_layernorm_2.weight"@)),
{
    let g = moe_parts(i);
    assert(g[0] == at(RuleKind::Tensor, i, ".router.scale"@));
    lemma_group_part(c, i, g[0]);
    assert(g[1] == at(RuleKind::AffineOnly, i, ".router.proj"@));
    lemma_group_part(c, i, g[1]);
    assert(g[2] == at(RuleKind::Tensor, i, ".router.per_expert_scale"@));
    lemma_group_part(c, i, g[2]);
    assert(g[3] == at(RuleKind::Experts, i, ".experts.gate_up_proj"@));
    lemma_group_part(c, i, g[3]);
    assert(g[4] == at(RuleKind::Experts, i, ".experts.down_proj"@));
    lemma_group_part(c, i, g[4]);
    assert(g[5] == at(RuleKind::Tensor, i, ".pre_feedforward_layernorm_2.weight"@));
    lemma_group_part(c, i, g[5]);
    assert(g[6] == at(RuleKind::Tensor, i, ".post_feedforward_layernorm_1.weight"@));
    lemma_group_part(c, i, g[6]);
    assert(g[7] == at(RuleKind::Tensor, i, ".post_feedforward_layernorm_2.weight"@));
    lemma_group_part(c, i, g[7]);
}

/// Outside the layers the embedding, the last norm and, where it is not the embedding,
/// the output projection are looked for, and with a per-layer embedding its tables.
pub proof fn law_outer_parts_are_looked_for(c: Gemma4Config)
    ensures
        text_parts(c).contains(
            part(RuleKind::Embedding { tied: c.tie_word_embeddings }, "embed_tokens"@),
        ),
        text_parts(c).contains(part(RuleKind::Tensor, "norm.weight"@)),
        !c.tie_word_embeddings ==> text_parts(c).contains(part(RuleKind::Head, "lm_head"@)),
        has_per_layer_embedding(c) ==> {
            &&& text_parts(c).contains(part(RuleKind::AffineOnly, "embed_tokens_per_layer"@))
            &&& text_parts(c).contains(part(RuleKind::Dense, "per_layer_model_projection.weight"@))
            &&& text_parts(c).contains(part(RuleKind::Tensor, "per_layer_projection_norm.weight"@))
        },
        c.has_audio ==> audio_parts(c).contains(
            part(RuleKind::AffineOnly, "embed_audio.embedding_projection"@),
        ),
        !c.has_audio ==> audio_parts(c).len() == 0,
{
    let all = text_parts(c);
    assert(all[0] == part(RuleKind::Embedding { tied: c.tie_word_embeddings }, "embed_tokens"@));
    assert(all[1] == part(RuleKind::Tensor, "norm.weight"@));
    let shift: int = if c.tie_word_embeddings {
        2
    } else {
        3
    };
    if !c.tie_word_embeddings {
        assert(all[2] == part(RuleKind::Head, "lm_head"@));
    }
    if has_per_layer_embedding(c) {
        assert(all[shift] == ple_parts()[0]);
        assert(all[shift + 1] == ple_parts()[1]);
        assert(all[shift + 2] == ple_parts()[2]);
    }
    if c.has_audio {
        assert(audio_parts(c)[0] == part(
            RuleKind::AffineOnly,
            "embed_audio.embedding_projection"@,
        ));
    }
}

/// Without a per-layer embedding none of its parts is looked for.
pub proof fn law_absent_per_layer_embedding_is_not_looked_for(c: Gemma4Config, i: int)
    requires
        !has_per_layer_embedding(c),
    ensures
        layer_parts(c, i).len() == 2 + (if c.attention_k_eq_v && c.global_at(i) {
            0int
        } else {
            1
        }) + 13 + (if c.enable_moe_block {
            8int
        } else {
            0
        }),
{
}

/// Of the vision part a tower is looked for with each of its layers, clip bounds where
/// its linears are clipped; else the encoder-free embedder; and with either the
/// projection of images.
#[verifier::rlimit(40)]
pub proof fn law_vision_parts_are_looked_for(
    c: Gemma4Config,
    encoders: int,
    i: int,
    rest: Seq<char>,
)
    ensures
        c.vision_config is Some ==> {
            let v = vision_parts(c, encoders);
            &&& v.contains(part(RuleKind::Tensor, "vision_tower.patch_embedder.input_proj.weight"@))
            &&& v.contains(
                part(RuleKind::Tensor, "vision_tower.patch_embedder.position_embedding_table"@),
            )
            &&& v.contains(part(RuleKind::Tensor, "vision_tower.std_bias"@))
            &&& v.contains(part(RuleKind::Tensor, "vision_tower.std_scale"@))
            &&& v.contains(part(RuleKind::AffineOnly, "embed_vision.embedding_projection"@))
            &&& 0 <= i < encoders && tower_linear(rest) ==> v.contains(
                encoder_part(RuleKind::Tensor, i, rest + ".weight"@),
            ) && (c.vision_config->0.use_clipped_linears ==> v.contains(
                encoder_part(RuleKind::Clip, i, rest),
            ))
            &&& 0 <= i < encoders && tower_norm(rest) ==> v.contains(
                encoder_part(RuleKind::Tensor, i, rest + ".weight"@),
            )
        },
        c.vision_config is None && c.unified_vision_config is Some ==> {
            let v = vision_parts(c, encoders);
            &&& v.len() == 7
            &&& v.contains(part(RuleKind::LayerNorm, "vision_embedder.patch_ln1"@))
            &&& v.contains(part(RuleKind::LayerNorm, "vision_embedder.patch_ln2"@))
            &&& v.contains(part(RuleKind::LayerNorm, "vision_embedder.pos_norm"@))
            &&& v.contains(part(RuleKind::Tensor, "vision_embedder.patch_dense.weight"@))
            &&& v.contains(part(RuleKind::Tensor, "vision_embedder.patch_dense.bias"@))
            &&& v.contains(part(RuleKind::Tensor, "vision_embedder.pos_embedding"@))
            &&& v.contains(part(RuleKind::AffineOnly, "embed_vision.embedding_projection"@))
        },
        c.vision_config is None && c.unified_vision_config is None ==> vision_parts(
            c,
            encoders,
        ).len() == 0,
{
    let v = vision_parts(c, encoders);
    if c.vision_config is Some {
        let clipped = c.vision_config->0.use_clipped_linears;
        let tower = encoders_parts(encoders, clipped);
        let n = tower.len() as int;
        assert(v[0] == patch_parts()[0]);
        assert(v[1] == patch_parts()[1]);
        assert(v[2 + n] == std_parts()[0]);
        assert(v[3 + n] == std_parts()[1]);
        assert(v[4 + n] == image_projection());
        assert forall|rule: RuleView| tower.contains(rule) implies v.contains(rule) by {
            let k = choose|k: int| 0 <= k < tower.len() && tower[k] == rule;
            assert(v[2 + k] == rule);
        }
        if 0 <= i < encoders && (tower_linear(rest) || tower_norm(rest)) {
            lemma_encoder_parts(i, rest, clipped);
            lemma_encoder_is_there(
                encoders,
                i,
                clipped,
                encoder_part(RuleKind::Tensor, i, rest + ".weight"@),
            );
            if clipped && tower_linear(rest) {
                lemma_encoder_is_there(
                    encoders,
                    i,
                    clipped,
                    encoder_part(RuleKind::Clip, i, rest),
                );
            }
        }
    } else if c.unified_vision_config is Some {
        let e = embedder_parts();
        assert(v[0] == e[0]);
        assert(v[1] == e[1]);
        assert(v[2] == e[2]);
        assert(v[3] == e[3]);
        assert(v[4] == e[4]);
        assert(v[5] == e[5]);
        assert(v[6] == image_projection());
    }
}

/// Linears of a layer of the vision tower.
pub open spec fn tower_linear(rest: Seq<char>) -> bool {
    ||| rest == ".self_attn.q_proj"@
    ||| rest == ".self_attn.k_proj"@
    ||| rest == ".self_attn.v_proj"@
    ||| rest == ".self_attn.o_proj"@
    ||| rest == ".mlp.gate_proj"@
    ||| rest == ".mlp.up_proj"@
    ||| rest == ".mlp.down_proj"@
}

/// Norms of a layer of the vision tower.
pub open spec fn tower_norm(rest: Seq<char>) -> bool {
    ||| rest == ".self_attn.q_norm"@
    ||| rest == ".self_attn.k_norm"@
    ||| rest == ".input_layernorm"@
    ||| rest == ".post_attention_layernorm"@
    ||| rest == ".pre_feedforward_layernorm"@
    ||| rest == ".post_feedforward_layernorm"@
}

proof fn lemma_encoder_is_there(n: int, i: int, clipped: bool, rule: RuleView)
    requires
        0 <= i < n,
        encoder_parts(i, clipped).contains(rule),
    ensures
        encoders_parts(n, clipped).contains(rule),
    decreases n,
{
    let front = encoders_parts(n - 1, clipped);
    let all = encoders_parts(n, clipped);
    if i == n - 1 {
        let k = choose|k: int|
            0 <= k < encoder_parts(i, clipped).len() && encoder_parts(i, clipped)[k] == rule;
        assert(all[front.len() + k] == rule);
    } else {
        lemma_encoder_is_there(n - 1, i, clipped, rule);
        let m = choose|m: int| 0 <= m < front.len() && front[m] == rule;
        assert(all[m] == rule);
    }
}

#[verifier::rlimit(40)]
proof fn lemma_encoder_parts(i: int, rest: Seq<char>, clipped: bool)
    requires
        tower_linear(rest) || tower_norm(rest),
    ensures
        encoder_parts(i, clipped).contains(encoder_part(RuleKind::Tensor, i, rest + ".weight"@)),
        clipped && tower_linear(rest) ==> encoder_parts(i, clipped).contains(
            encoder_part(RuleKind::Clip, i, rest),
        ),
{
    let all = encoder_parts(i, clipped);
    let w: int = if clipped {
        2
    } else {
        1
    };
    assert(all[0 * w] == encoder_part(RuleKind::Tensor, i, ".self_attn.q_proj"@ + ".weight"@));
    if clipped {
        assert(all[0 * w + 1] == encoder_part(RuleKind::Clip, i, ".self_attn.q_proj"@));
    }
    assert(all[1 * w] == encoder_part(RuleKind::Tensor, i, ".self_attn.k_proj"@ + ".weight"@));
    if clipped {
        assert(all[1 * w + 1] == encoder_part(RuleKind::Clip, i, ".self_attn.k_proj"@));
    }
    assert(all[2 * w] == encoder_part(RuleKind::Tensor, i, ".self_attn.v_proj"@ + ".weight"@));
    if clipped {
        assert(all[2 * w + 1] == encoder_part(RuleKind::Clip, i, ".self_attn.v_proj"@));
    }
    assert(all[3 * w] == encoder_part(RuleKind::Tensor, i, ".self_attn.o_proj"@ + ".weight"@));
    if clipped {
        assert(all[3 * w + 1] == encoder_part(RuleKind::Clip, i, ".self_attn.o_proj"@));
    }
    assert(".self_attn.q_norm"@ + ".weight"@ == ".self_attn.q_norm.weight"@) by {
        reveal_strlit(".self_attn.q_norm");
        reveal_strlit(".weight");
        reveal_strlit(".self_attn.q_norm.weight");
        assert(".self_attn.q_norm"@ + ".weight"@ =~= ".self_attn.q_norm.weight"@);
    }
    assert(all[4 * w + 0] == encoder_norm_parts(i)[0]);
    assert(".self_attn.k_norm"@ + ".weight"@ == ".self_attn.k_norm.weight"@) by {
        reveal_strlit(".self_attn.k_norm");
        reveal_strlit(".weight");
        reveal_strlit(".self_attn.k_norm.weight");
        assert(".self_attn.k_norm"@ + ".weight"@ =~= ".self_attn.k_norm.weight"@);
    }
    assert(all[4 * w + 1] == encoder_norm_parts(i)[1]);
    assert(all[4 * w + 2] == encoder_part(RuleKind::Tensor, i, ".mlp.gate_proj"@ + ".weight"@));
    if clipped {
        assert(all[4 * w + 3] == encoder_part(RuleKind::Clip, i, ".mlp.gate_proj"@));
    }
    assert(all[5 * w + 2] == encoder_part(RuleKind::Tensor, i, ".mlp.up_proj"@ + ".weight"@));
    if clipped {
        assert(all[5 * w + 3] == encoder_part(RuleKind::Clip, i, ".mlp.up_proj"@));
    }
    assert(all[6 * w + 2] == encoder_part(RuleKind::Tensor, i, ".mlp.down_proj"@ + ".weight"@));
    if clipped {
        assert(all[6 * w + 3] == encoder_part(RuleKind::Clip, i, ".mlp.down_proj"@));
    }
    assert(".input_layernorm"@ + ".weight"@ == ".input_layernorm.weight"@) by {
        reveal_strlit(".input_layernorm");
        reveal_strlit(".weight");
        reveal_strlit(".input_layernorm.weight");
        assert(".input_layernorm"@ + ".weight"@ =~= ".input_layernorm.weight"@);
    }
    assert(all[7 * w + 2 + 0] == encoder_block_parts(i)[0]);
    assert(".post_attention_layernorm"@ + ".weight"@ == ".post_attention_layernorm.weight"@) by {
        reveal_strlit(".post_attention_layernorm");
        reveal_strlit(".weight");
        reveal_strlit(".post_attention_layernorm.weight");
        assert(".post_attention_layernorm"@ + ".weight"@ =~= ".post_attention_layernorm.weight"@);
    }
    assert(all[7 * w + 2 + 1] == encoder_block_parts(i)[1]);
    assert(".pre_feedforward_layernorm"@ + ".weight"@ == ".pre_feedforward_layernorm.weight"@) by {
        reveal_strlit(".pre_feedforward_layernorm");
        reveal_strlit(".weight");
        reveal_strlit(".pre_feedforward_layernorm.weight");
        assert(".pre_feedforward_layernorm"@ + ".weight"@ =~= ".pre_feedforward_layernorm.weight"@);
    }
    assert(all[7 * w + 2 + 2] == encoder_block_parts(i)[2]);
    assert(".post_feedforward_layernorm"@ + ".weight"@ == ".post_feedforward_layernorm.weight"@) by {
        reveal_strlit(".post_feedforward_layernorm");
        reveal_strlit(".weight");
        reveal_strlit(".post_feedforward_layernorm.weight");
        assert(".post_feedforward_layernorm"@ + ".weight"@ =~= ".post_feedforward_layernorm.weight"@);
    }
    assert(all[7 * w + 2 + 3] == encoder_block_parts(i)[3]);
}

/// A checkpoint that loads and holds the per-layer embedding leaves none of it with the
/// values that it was made with: its table, its projection and its norm are put in, and
/// in every layer its gating weight, its projection and its norm.
pub proof fn law_per_layer_embedding_is_filled(
    c: Gemma4Config,
    s: Seq<(Seq<char>, TensorInfo)>,
    q: QuantSettings,
    encoders: int,
    i: int,
)
    requires
        has_per_layer_embedding(c),
        model_outcome(c, s, q, encoders) is Done,
        0 <= i < c.num_hidden_layers,
        there(s, "per_layer_model_projection.weight"@),
        there(s, "per_layer_projection_norm.weight"@),
        there(s, "embed_tokens_per_layer"@ + ".weight"@),
        there(s, layer_key(i, ".per_layer_input_gate.weight"@)),
        there(s, layer_key(i, ".per_layer_projection.weight"@)),
        there(s, layer_key(i, ".post_per_layer_input_norm.weight"@)),
    ensures
        ({
            let plan = model_outcome(c, s, q, encoders)->Done_0;
            &&& filled(plan, "embed_tokens_per_layer"@)
            &&& installed(plan, "per_layer_model_projection.weight"@)
            &&& installed(plan, "per_layer_projection_norm.weight"@)
            &&& installed(plan, layer_key(i, ".per_layer_input_gate.weight"@))
            &&& installed(plan, layer_key(i, ".per_layer_projection.weight"@))
            &&& installed(plan, layer_key(i, ".post_per_layer_input_norm.weight"@))
        }),
{
    law_outer_parts_are_looked_for(c);
    law_parts_of_a_layer_are_looked_for(c, i);
    let a = part(RuleKind::AffineOnly, "embed_tokens_per_layer"@);
    lemma_part_is_planned(c, s, q, encoders, a);
    let v = rule_outcome(s, q, a)->Done_0;
    assert(v[0].name == a.name || v[0].name == a.name + ".weight"@);
    lemma_dense_part(c, s, q, encoders, "per_layer_model_projection.weight"@);
    lemma_dense_part(c, s, q, encoders, layer_key(i, ".per_layer_input_gate.weight"@));
    lemma_dense_part(c, s, q, encoders, layer_key(i, ".per_layer_projection.weight"@));
    law_present_tensor_is_put_in(c, s, q, encoders, "per_layer_projection_norm.weight"@);
    law_present_tensor_is_put_in(
        c,
        s,
        q,
        encoders,
        layer_key(i, ".post_per_layer_input_norm.weight"@),
    );
}

proof fn lemma_dense_part(
    c: Gemma4Config,
    s: Seq<(Seq<char>, TensorInfo)>,
    q: QuantSettings,
    encoders: int,
    name: Seq<char>,
)
    requires
        model_outcome(c, s, q, encoders) is Done,
        text_parts(c).contains(part(RuleKind::Dense, name)),
        there(s, name),
    ensures
        installed(model_outcome(c, s, q, encoders)->Done_0, name),
{
    let rule = part(RuleKind::Dense, name);
    lemma_part_is_planned(c, s, q, encoders, rule);
    assert(rule_outcome(s, q, rule)->Done_0[0].name == name);
}

/// Every bare tensor that is looked for and there is put in: norms, biases, scalars and
/// scales alike, with or without need.
pub proof fn law_present_tensor_is_put_in(
    c: Gemma4Config,
    s: Seq<(Seq<char>, TensorInfo)>,
    q: QuantSettings,
    encoders: int,
    name: Seq<char>,
)
    requires
        model_outcome(c, s, q, encoders) is Done,
        text_parts(c).contains(part(RuleKind::Tensor, name)) || vision_parts(c, encoders).contains(
            part(RuleKind::Tensor, name),
        ),
        there(s, name),
    ensures
        installed(model_outcome(c, s, q, encoders)->Done_0, name),
{
    let rule = part(RuleKind::Tensor, name);
    lemma_part_is_planned(c, s, q, encoders, rule);
    assert(rule_outcome(s, q, rule)->Done_0[0].name == name);
}

/// Split experts of a layer become fused ones: gate and up parts become one tensor, which
/// holds gate values first and waits for the up part behind it; the down part takes its
/// fused name, unless there is one.
#[verifier::rlimit(40)]
pub proof fn law_split_experts_become_fused(f: Fusion, i: int, g: TensorInfo, u: TensorInfo, d: TensorInfo)
    requires
        0 <= i,
        distinct(f.s),
        lookup(f.s, layer_key(i, ".experts.switch_glu.gate_proj.weight"@)) == Some(g),
        lookup(f.s, layer_key(i, ".experts.switch_glu.up_proj.weight"@)) == Some(u),
        lookup(f.s, layer_key(i, ".experts.switch_glu.down_proj.weight"@)) == Some(d),
        lookup(f.s, layer_key(i, ".experts.down_proj.weight"@)) is None,
    ensures
        lookup(f.layer(i).s, layer_key(i, ".experts.gate_up_proj.weight"@)) == Some(
            TensorInfo {
                array: g.array,
                dtype: g.dtype,
                last_dim: g.last_dim,
                nbytes: if g.nbytes + u.nbytes > u64::MAX {
                    u64::MAX
                } else {
                    (g.nbytes + u.nbytes) as u64
                },
            },
        ),
        lookup(f.layer(i).s, layer_key(i, ".experts.down_proj.weight"@)) == Some(d),
        lookup(f.layer(i).s, layer_key(i, ".experts.switch_glu.gate_proj.weight"@)) is None,
        f.layer(i).ops.len() > f.ops.len(),
        f.layer(i).ops[f.ops.len() as int] == (ArrayConcat { into: g.array, with: u.array }),
{
    lemma_fused_gate_up(i);
    lemma_fused_down(i);
    lemma_split_down(i);
    lemma_split_up(i);
    lemma_split_gate(i);
    let gw = layer_key(i, ".experts.switch_glu.gate_proj.weight"@);
    let uw = layer_key(i, ".experts.switch_glu.up_proj.weight"@);
    let fw = layer_key(i, ".experts.gate_up_proj.weight"@);
    let gs = layer_key(i, ".experts.switch_glu.gate_proj.scales"@);
    let us = layer_key(i, ".experts.switch_glu.up_proj.scales"@);
    let fs = layer_key(i, ".experts.gate_up_proj.scales"@);
    let gb = layer_key(i, ".experts.switch_glu.gate_proj.biases"@);
    let ub = layer_key(i, ".experts.switch_glu.up_proj.biases"@);
    let fb = layer_key(i, ".experts.gate_up_proj.biases"@);
    let dw = layer_key(i, ".experts.switch_glu.down_proj.weight"@);
    let ew = layer_key(i, ".experts.down_proj.weight"@);
    let ds = layer_key(i, ".experts.switch_glu.down_proj.scales"@);
    let es = layer_key(i, ".experts.down_proj.scales"@);
    let db = layer_key(i, ".experts.switch_glu.down_proj.biases"@);
    let eb = layer_key(i, ".experts.down_proj.biases"@);
    let f1 = f.fuse(gw, uw, fw);
    lemma_fuse_keeps(f, gw, uw, fw, dw);
    lemma_fuse_keeps(f, gw, uw, fw, ew);
    law_cut_keeps_distinct(f.s, gw);
    law_lookup_cut(f.s, gw, uw);
    law_fused_parts_are_gone(f, gw, uw, fw, fw);
    assert(f1.ops == f.ops.push(ArrayConcat { into: g.array, with: u.array }));
    let f2 = f1.fuse(gs, us, fs);
    lemma_fuse_keeps(f1, gs, us, fs, fw);
    lemma_fuse_keeps(f1, gs, us, fs, gw);
    lemma_fuse_keeps(f1, gs, us, fs, dw);
    lemma_fuse_keeps(f1, gs, us, fs, ew);
    let f3 = f2.fuse(gb, ub, fb);
    lemma_fuse_keeps(f2, gb, ub, fb, fw);
    lemma_fuse_keeps(f2, gb, ub, fb, gw);
    lemma_fuse_keeps(f2, gb, ub, fb, dw);
    lemma_fuse_keeps(f2, gb, ub, fb, ew);
    let f4 = f3.rename(dw, ew);
    lemma_rename_keeps(f3, dw, ew, fw);
    lemma_rename_keeps(f3, dw, ew, gw);
    law_lookup_put(cut(f3.s, dw), ew, d, ew);
    let f5 = f4.rename(ds, es);
    lemma_rename_keeps(f4, ds, es, fw);
    lemma_rename_keeps(f4, ds, es, gw);
    lemma_rename_keeps(f4, ds, es, ew);
    lemma_rename_keeps(f5, db, eb, fw);
    lemma_rename_keeps(f5, db, eb, gw);
    lemma_rename_keeps(f5, db, eb, ew);
    assert(f2.ops.len() >= f1.ops.len() && f2.ops[f.ops.len() as int] == f1.ops[f.ops.len() as int]);
    assert(f3.ops.len() >= f2.ops.len() && f3.ops[f.ops.len() as int] == f2.ops[f.ops.len() as int]);
    assert(f.layer(i).ops == f3.ops);
}

proof fn lemma_split_gate(i: int)
    requires
        0 <= i,
    ensures
        layer_key(i, ".experts.switch_glu.gate_proj.weight"@) != layer_key(i, ".experts.switch_glu.up_proj.weight"@),
        layer_key(i, ".experts.switch_glu.gate_proj.weight"@) != layer_key(i, ".experts.gate_up_proj.weight"@),
        layer_key(i, ".experts.switch_glu.gate_proj.weight"@) != layer_key(i, ".experts.switch_glu.gate_proj.scales"@),
        layer_key(i, ".experts.switch_glu.gate_proj.weight"@) != layer_key(i, ".experts.switch_glu.up_proj.scales"@),
        layer_key(i, ".experts.switch_glu.gate_proj.weight"@) != layer_key(i, ".experts.gate_up_proj.scales"@),
        layer_key(i, ".experts.switch_glu.gate_proj.weight"@) != layer_key(i, ".experts.switch_glu.gate_proj.biases"@),
        layer_key(i, ".experts.switch_glu.gate_proj.weight"@) != layer_key(i, ".experts.switch_glu.up_proj.biases"@),
        layer_key(i, ".experts.switch_glu.gate_proj.weight"@) != layer_key(i, ".experts.gate_up_proj.biases"@),
        layer_key(i, ".experts.switch_glu.gate_proj.weight"@) != layer_key(i, ".experts.switch_glu.down_proj.weight"@),
        layer_key(i, ".experts.switch_glu.gate_proj.weight"@) != layer_key(i, ".experts.down_proj.weight"@),
        layer_key(i, ".experts.switch_glu.gate_proj.weight"@) != layer_key(i, ".experts.switch_glu.down_proj.scales"@),
        layer_key(i, ".experts.switch_glu.gate_proj.weight"@) != layer_key(i, ".experts.down_proj.scales"@),
        layer_key(i, ".experts.switch_glu.gate_proj.weight"@) != layer_key(i, ".experts.switch_glu.down_proj.biases"@),
        layer_key(i, ".experts.switch_glu.gate_proj.weight"@) != layer_key(i, ".experts.down_proj.biases"@),
{
    reveal_strlit(".experts.switch_glu.gate_proj.weight");
    reveal_strlit(".experts.switch_glu.up_proj.weight");
    reveal_strlit(".experts.gate_up_proj.weight");
    reveal_strlit(".experts.switch_glu.gate_proj.scales");
    reveal_strlit(".experts.switch_glu.up_proj.scales");
    reveal_strlit(".experts.gate_up_proj.scales");
    reveal_strlit(".experts.switch_glu.gate_proj.biases");
    reveal_strlit(".experts.switch_glu.up_proj.biases");
    reveal_strlit(".experts.gate_up_proj.biases");
    reveal_strlit(".experts.switch_glu.down_proj.weight");
    reveal_strlit(".experts.down_proj.weight");
    reveal_strlit(".experts.switch_glu.down_proj.scales");
    reveal_strlit(".experts.down_proj.scales");
    reveal_strlit(".experts.switch_glu.down_proj.biases");
    reveal_strlit(".experts.down_proj.biases");
    lemma_rest_differs(i, ".experts.switch_glu.gate_proj.weight"@, ".experts.switch_glu.up_proj.weight"@, 0);
    lemma_rest_differs(i, ".experts.switch_glu.gate_proj.weight"@, ".experts.gate_up_proj.weight"@, 0);
    lemma_rest_differs(i, ".experts.switch_glu.gate_proj.weight"@, ".experts.switch_glu.gate_proj.scales"@, 30);
    lemma_rest_differs(i, ".experts.switch_glu.gate_proj.weight"@, ".experts.switch_glu.up_proj.scales"@, 0);
    lemma_rest_differs(i, ".experts.switch_glu.gate_proj.weight"@, ".experts.gate_up_proj.scales"@, 0);
    lemma_rest_differs(i, ".experts.switch_glu.gate_proj.weight"@, ".experts.switch_glu.gate_proj.biases"@, 30);
    lemma_rest_differs(i, ".experts.switch_glu.gate_proj.weight"@, ".experts.switch_glu.up_proj.biases"@, 0);
    lemma_rest_differs(i, ".experts.switch_glu.gate_proj.weight"@, ".experts.gate_up_proj.biases"@, 0);
    lemma_rest_differs(i, ".experts.switch_glu.gate_proj.weight"@, ".experts.switch_glu.down_proj.weight"@, 20);
    lemma_rest_differs(i, ".experts.switch_glu.gate_proj.weight"@, ".experts.down_proj.weight"@, 0);
    lemma_rest_differs(i, ".experts.switch_glu.gate_proj.weight"@, ".experts.switch_glu.down_proj.scales"@, 20);
    lemma_rest_differs(i, ".experts.switch_glu.gate_proj.weight"@, ".experts.down_proj.scales"@, 0);
    lemma_rest_differs(i, ".experts.switch_glu.gate_proj.weight"@, ".experts.switch_glu.down_proj.biases"@, 20);
    lemma_rest_differs(i, ".experts.switch_glu.gate_proj.weight"@, ".experts.down_proj.biases"@, 0);
}

/// A model without experts keeps each tensor that a checkpoint has for it as it is, and no
/// two tensors are joined.
pub proof fn law_nothing_is_joined_without_experts(
    c: Gemma4Config,
    raw: Seq<(Seq<char>, TensorInfo)>,
    key: Seq<char>,
)
    requires
        !c.enable_moe_block,
    ensures
        prepared(c, raw).ops.len() == 0,
        lookup(prepared(c, raw).s, key) == lookup(finished_all(used(c, raw)), key),
{
}

/// Settings that a layer's gate and up parts agree on become those of its fused part,
/// whatever the layers behind it have; layers that are not fused keep theirs.
pub proof fn law_settings_of_all_layers(
    s: Seq<(Seq<char>, PerLayerQuant)>,
    merged: Seq<Option<PerLayerQuant>>,
    n: int,
    i: int,
    rest: Seq<char>,
)
    requires
        0 <= n <= merged.len(),
        0 <= i,
        rest.len() > 0,
        rest[0] == '.',
    ensures
        i < n && merged[i] is Some ==> lookup(
            with_fused_quants(s, merged, n),
            layer_key(i, ".experts.gate_up_proj"@),
        ) == merged[i],
        n <= i ==> lookup(with_fused_quants(s, merged, n), layer_key(i, rest)) == lookup(
            s,
            layer_key(i, rest),
        ),
    decreases n,
{
    reveal_strlit(".experts.gate_up_proj");
    reveal_strlit(".experts.down_proj");
    if n > 0 {
        let before = with_fused_quants(s, merged, n - 1);
        let fused = layer_key(i, ".experts.gate_up_proj"@);
        law_settings_of_all_layers(s, merged, n - 1, i, rest);
        law_settings_of_fused_experts(before, n - 1, merged[n - 1], fused);
        law_settings_of_fused_experts(before, n - 1, merged[n - 1], layer_key(i, rest));
        if i != n - 1 {
            lemma_layer_keys_differ(i, ".experts.gate_up_proj"@, n - 1, ".experts.gate_up_proj"@);
            lemma_layer_keys_differ(i, ".experts.gate_up_proj"@, n - 1, ".experts.down_proj"@);
            lemma_layer_keys_differ(i, rest, n - 1, ".experts.gate_up_proj"@);
            lemma_layer_keys_differ(i, rest, n - 1, ".experts.down_proj"@);
        }
    }
}

/// A part of the experts of a layer: one of the three split parts, or of the two fused.
pub enum ExpertPart {
    Gate,
    Up,
    Down,
    FusedGateUp,
    FusedDown,
}

/// One of the tensors that a quantized part is made of.
pub enum PartForm {
    Weight,
    Scales,
    Biases,
}

/// The name of a tensor of the experts, behind the number of the layer.
pub open spec fn expert_tensor(part: ExpertPart, form: PartForm) -> Seq<char> {
    match (part, form) {
        (ExpertPart::Gate, PartForm::Weight) => ".experts.switch_glu.gate_proj.weight"@,
        (ExpertPart::Gate, PartForm::Scales) => ".experts.switch_glu.gate_proj.scales"@,
        (ExpertPart::Gate, PartForm::Biases) => ".experts.switch_glu.gate_proj.biases"@,
        (ExpertPart::Up, PartForm::Weight) => ".experts.switch_glu.up_proj.weight"@,
        (ExpertPart::Up, PartForm::Scales) => ".experts.switch_glu.up_proj.scales"@,
        (ExpertPart::Up, PartForm::Biases) => ".experts.switch_glu.up_proj.biases"@,
        (ExpertPart::Down, PartForm::Weight) => ".experts.switch_glu.down_proj.weight"@,
        (ExpertPart::Down, PartForm::Scales) => ".experts.switch_glu.down_proj.scales"@,
        (ExpertPart::Down, PartForm::Biases) => ".experts.switch_glu.down_proj.biases"@,
        (ExpertPart::FusedGateUp, PartForm::Weight) => ".experts.gate_up_proj.weight"@,
        (ExpertPart::FusedGateUp, PartForm::Scales) => ".experts.gate_up_proj.scales"@,
        (ExpertPart::FusedGateUp, PartForm::Biases) => ".experts.gate_up_proj.biases"@,
        (ExpertPart::FusedDown, PartForm::Weight) => ".experts.down_proj.weight"@,
        (ExpertPart::FusedDown, PartForm::Scales) => ".experts.down_proj.scales"@,
        (ExpertPart::FusedDown, PartForm::Biases) => ".experts.down_proj.biases"@,
    }
}

#[verifier::rlimit(40)]
proof fn lemma_expert_tensors_differ(i: int, a: ExpertPart, x: PartForm, b: ExpertPart, y: PartForm)
    requires
        0 <= i,
        a != b || x != y,
    ensures
        layer_key(i, expert_tensor(a, x)) != layer_key(i, expert_tensor(b, y)),
{
    reveal_strlit(".experts.switch_glu.gate_proj.weight");
    reveal_strlit(".experts.switch_glu.gate_proj.scales");
    reveal_strlit(".experts.switch_glu.gate_proj.biases");
    reveal_strlit(".experts.switch_glu.up_proj.weight");
    reveal_strlit(".experts.switch_glu.up_proj.scales");
    reveal_strlit(".experts.switch_glu.up_proj.biases");
    reveal_strlit(".experts.switch_glu.down_proj.weight");
    reveal_strlit(".experts.switch_glu.down_proj.scales");
    reveal_strlit(".experts.switch_glu.down_proj.biases");
    reveal_strlit(".experts.gate_up_proj.weight");
    reveal_strlit(".experts.gate_up_proj.scales");
    reveal_strlit(".experts.gate_up_proj.biases");
    reveal_strlit(".experts.down_proj.weight");
    reveal_strlit(".experts.down_proj.scales");
    reveal_strlit(".experts.down_proj.biases");
    assert(".experts.switch_glu.gate_proj.weight"@.len() == 36 && ".experts.switch_glu.gate_proj.weight"@[9] == 's' && ".experts.switch_glu.gate_proj.weight"@[33] == 'g');
    assert(".experts.switch_glu.gate_proj.weight"@[20] == 'g');
    assert(".experts.switch_glu.gate_proj.scales"@.len() == 36 && ".experts.switch_glu.gate_proj.scales"@[9] == 's' && ".experts.switch_glu.gate_proj.scales"@[33] == 'l');
    assert(".experts.switch_glu.gate_proj.scales"@[20] == 'g');
    assert(".experts.switch_glu.gate_proj.biases"@.len() == 36 && ".experts.switch_glu.gate_proj.biases"@[9] == 's' && ".experts.switch_glu.gate_proj.biases"@[33] == 's');
    assert(".experts.switch_glu.gate_proj.biases"@[20] == 'g');
    assert(".experts.switch_glu.up_proj.weight"@.len() == 34 && ".experts.switch_glu.up_proj.weight"@[9] == 's' && ".experts.switch_glu.up_proj.weight"@[31] == 'g');
    assert(".experts.switch_glu.up_proj.weight"@[20] == 'u');
    assert(".experts.switch_glu.up_proj.scales"@.len() == 34 && ".experts.switch_glu.up_proj.scales"@[9] == 's' && ".experts.switch_glu.up_proj.scales"@[31] == 'l');
    assert(".experts.switch_glu.up_proj.scales"@[20] == 'u');
    assert(".experts.switch_glu.up_proj.biases"@.len() == 34 && ".experts.switch_glu.up_proj.biases"@[9] == 's' && ".experts.switch_glu.up_proj.biases"@[31] == 's');
    assert(".experts.switch_glu.up_proj.biases"@[20] == 'u');
    assert(".experts.switch_glu.down_proj.weight"@.len() == 36 && ".experts.switch_glu.down_proj.weight"@[9] == 's' && ".experts.switch_glu.down_proj.weight"@[33] == 'g');
    assert(".experts.switch_glu.down_proj.weight"@[20] == 'd');
    assert(".experts.switch_glu.down_proj.scales"@.len() == 36 && ".experts.switch_glu.down_proj.scales"@[9] == 's' && ".experts.switch_glu.down_proj.scales"@[33] == 'l');
    assert(".experts.switch_glu.down_proj.scales"@[20] == 'd');
    assert(".experts.switch_glu.down_proj.biases"@.len() == 36 && ".experts.switch_glu.down_proj.biases"@[9] == 's' && ".experts.switch_glu.down_proj.biases"@[33] == 's');
    assert(".experts.switch_glu.down_proj.biases"@[20] == 'd');
    assert(".experts.gate_up_proj.weight"@.len() == 28 && ".experts.gate_up_proj.weight"@[9] == 'g' && ".experts.gate_up_proj.weight"@[25] == 'g');
    assert(".experts.gate_up_proj.scales"@.len() == 28 && ".experts.gate_up_proj.scales"@[9] == 'g' && ".experts.gate_up_proj.scales"@[25] == 'l');
    assert(".experts.gate_up_proj.biases"@.len() == 28 && ".experts.gate_up_proj.biases"@[9] == 'g' && ".experts.gate_up_proj.biases"@[25] == 's');
    assert(".experts.down_proj.weight"@.len() == 25 && ".experts.down_proj.weight"@[9] == 'd' && ".experts.down_proj.weight"@[22] == 'g');
    assert(".experts.down_proj.scales"@.len() == 25 && ".experts.down_proj.scales"@[9] == 'd' && ".experts.down_proj.scales"@[22] == 'l');
    assert(".experts.down_proj.biases"@.len() == 25 && ".experts.down_proj.biases"@[9] == 'd' && ".experts.down_proj.biases"@[22] == 's');
    let r = expert_tensor(a, x);
    let e = expert_tensor(b, y);
    assert(r.len() > 20 || r.len() > 9);
    assert(r[0] == '.' && e[0] == '.');
    if a != b {
        assert(r.len() != e.len() || r[9] != e[9] || r[20] != e[20]);
    } else {
        assert(r.len() == e.len());
        assert(r[r.len() - 3] != e[e.len() - 3]);
    }
    lemma_layer_keys_differ(i, r, i, e);
}

spec fn fused_form(f: Fusion, i: int, x: PartForm) -> Fusion {
    f.fuse(
        layer_key(i, expert_tensor(ExpertPart::Gate, x)),
        layer_key(i, expert_tensor(ExpertPart::Up, x)),
        layer_key(i, expert_tensor(ExpertPart::FusedGateUp, x)),
    )
}

spec fn renamed_form(f: Fusion, i: int, x: PartForm) -> Fusion {
    f.rename(
        layer_key(i, expert_tensor(ExpertPart::Down, x)),
        layer_key(i, expert_tensor(ExpertPart::FusedDown, x)),
    )
}

proof fn lemma_fused_form_keeps(f: Fusion, i: int, y: PartForm, a: ExpertPart, x: PartForm)
    requires
        0 <= i,
        distinct(f.s),
        x != y || a is Down || a is FusedDown,
    ensures
        distinct(fused_form(f, i, y).s),
        lookup(fused_form(f, i, y).s, layer_key(i, expert_tensor(a, x))) == lookup(
            f.s,
            layer_key(i, expert_tensor(a, x)),
        ),
{
    lemma_expert_tensors_differ(i, a, x, ExpertPart::Gate, y);
    lemma_expert_tensors_differ(i, a, x, ExpertPart::Up, y);
    lemma_expert_tensors_differ(i, a, x, ExpertPart::FusedGateUp, y);
    lemma_fuse_keeps(
        f,
        layer_key(i, expert_tensor(ExpertPart::Gate, y)),
        layer_key(i, expert_tensor(ExpertPart::Up, y)),
        layer_key(i, expert_tensor(ExpertPart::FusedGateUp, y)),
        layer_key(i, expert_tensor(a, x)),
    );
}

proof fn lemma_renamed_form_keeps(f: Fusion, i: int, y: PartForm, a: ExpertPart, x: PartForm)
    requires
        0 <= i,
        distinct(f.s),
        x != y || !(a is Down || a is FusedDown),
    ensures
        distinct(renamed_form(f, i, y).s),
        lookup(renamed_form(f, i, y).s, layer_key(i, expert_tensor(a, x))) == lookup(
            f.s,
            layer_key(i, expert_tensor(a, x)),
        ),
{
    lemma_expert_tensors_differ(i, a, x, ExpertPart::Down, y);
    lemma_expert_tensors_differ(i, a, x, ExpertPart::FusedDown, y);
    lemma_rename_keeps(
        f,
        layer_key(i, expert_tensor(ExpertPart::Down, y)),
        layer_key(i, expert_tensor(ExpertPart::FusedDown, y)),
        layer_key(i, expert_tensor(a, x)),
    );
}

proof fn lemma_own_form_is_fused(f: Fusion, i: int, x: PartForm, g: TensorInfo, u: TensorInfo)
    requires
        0 <= i,
        distinct(f.s),
        lookup(f.s, layer_key(i, expert_tensor(ExpertPart::Gate, x))) == Some(g),
        lookup(f.s, layer_key(i, expert_tensor(ExpertPart::Up, x))) == Some(u),
    ensures
        distinct(fused_form(f, i, x).s),
        lookup(fused_form(f, i, x).s, layer_key(i, expert_tensor(ExpertPart::FusedGateUp, x)))
            == Some(joined(g, u)),
        lookup(fused_form(f, i, x).s, layer_key(i, expert_tensor(ExpertPart::Gate, x))) is None,
        lookup(fused_form(f, i, x).s, layer_key(i, expert_tensor(ExpertPart::Up, x))) is None,
{
    let gate = layer_key(i, expert_tensor(ExpertPart::Gate, x));
    let up = layer_key(i, expert_tensor(ExpertPart::Up, x));
    let fused = layer_key(i, expert_tensor(ExpertPart::FusedGateUp, x));
    lemma_expert_tensors_differ(i, ExpertPart::Gate, x, ExpertPart::Up, x);
    lemma_expert_tensors_differ(i, ExpertPart::Gate, x, ExpertPart::FusedGateUp, x);
    lemma_expert_tensors_differ(i, ExpertPart::Up, x, ExpertPart::FusedGateUp, x);
    law_cut_keeps_distinct(f.s, gate);
    law_lookup_cut(f.s, gate, up);
    law_lookup_cut(f.s, gate, gate);
    let once = cut(f.s, gate);
    law_cut_keeps_distinct(once, up);
    law_lookup_cut(once, up, gate);
    law_lookup_cut(once, up, up);
    let rest = cut(once, up);
    lemma_put_distinct(rest, fused, joined(g, u));
    law_lookup_put(rest, fused, joined(g, u), fused);
    law_lookup_put(rest, fused, joined(g, u), gate);
    law_lookup_put(rest, fused, joined(g, u), up);
}

proof fn lemma_own_form_is_renamed(f: Fusion, i: int, x: PartForm, d: TensorInfo)
    requires
        0 <= i,
        distinct(f.s),
        lookup(f.s, layer_key(i, expert_tensor(ExpertPart::Down, x))) == Some(d),
        lookup(f.s, layer_key(i, expert_tensor(ExpertPart::FusedDown, x))) is None,
    ensures
        distinct(renamed_form(f, i, x).s),
        lookup(renamed_form(f, i, x).s, layer_key(i, expert_tensor(ExpertPart::FusedDown, x)))
            == Some(d),
        lookup(renamed_form(f, i, x).s, layer_key(i, expert_tensor(ExpertPart::Down, x))) is None,
{
    let from = layer_key(i, expert_tensor(ExpertPart::Down, x));
    let to = layer_key(i, expert_tensor(ExpertPart::FusedDown, x));
    lemma_expert_tensors_differ(i, ExpertPart::Down, x, ExpertPart::FusedDown, x);
    law_cut_keeps_distinct(f.s, from);
    law_lookup_cut(f.s, from, from);
    let rest = cut(f.s, from);
    lemma_put_distinct(rest, to, d);
    law_lookup_put(rest, to, d, to);
    law_lookup_put(rest, to, d, from);
}

proof fn lemma_fusing_step(f: Fusion, i: int, y: PartForm, x: PartForm, t: Option<TensorInfo>, g: TensorInfo, u: TensorInfo, d: TensorInfo)
    requires
        0 <= i,
        distinct(f.s),
        lookup(f.s, layer_key(i, expert_tensor(ExpertPart::Down, x))) == Some(d),
        lookup(f.s, layer_key(i, expert_tensor(ExpertPart::FusedDown, x))) is None,
        t is None ==> lookup(f.s, layer_key(i, expert_tensor(ExpertPart::Gate, x))) == Some(g)
            && lookup(f.s, layer_key(i, expert_tensor(ExpertPart::Up, x))) == Some(u),
        t is Some ==> x != y && lookup(f.s, layer_key(i, expert_tensor(ExpertPart::Gate, x))) is None
            && lookup(f.s, layer_key(i, expert_tensor(ExpertPart::Up, x))) is None
            && lookup(f.s, layer_key(i, expert_tensor(ExpertPart::FusedGateUp, x))) == t,
    ensures
        ({
            let n = fused_form(f, i, y);
            let done = if x == y {
                Some(joined(g, u))
            } else {
                t
            };
            &&& distinct(n.s)
            &&& lookup(n.s, layer_key(i, expert_tensor(ExpertPart::Down, x))) == Some(d)
            &&& lookup(n.s, layer_key(i, expert_tensor(ExpertPart::FusedDown, x))) is None
            &&& done is None ==> lookup(n.s, layer_key(i, expert_tensor(ExpertPart::Gate, x)))
                == Some(g) && lookup(n.s, layer_key(i, expert_tensor(ExpertPart::Up, x))) == Some(u)
            &&& done is Some ==> lookup(n.s, layer_key(i, expert_tensor(ExpertPart::Gate, x))) is None
                && lookup(n.s, layer_key(i, expert_tensor(ExpertPart::Up, x))) is None && lookup(
                n.s,
                layer_key(i, expert_tensor(ExpertPart::FusedGateUp, x)),
            ) == done
        }),
{
    lemma_fused_form_keeps(f, i, y, ExpertPart::Down, x);
    lemma_fused_form_keeps(f, i, y, ExpertPart::FusedDown, x);
    if x == y {
        lemma_own_form_is_fused(f, i, x, g, u);
    } else {
        lemma_fused_form_keeps(f, i, y, ExpertPart::Gate, x);
        lemma_fused_form_keeps(f, i, y, ExpertPart::Up, x);
        lemma_fused_form_keeps(f, i, y, ExpertPart::FusedGateUp, x);
    }
}

proof fn lemma_renaming_step(f: Fusion, i: int, y: PartForm, x: PartForm)
    requires
        0 <= i,
        distinct(f.s),
    ensures
        distinct(renamed_form(f, i, y).s),
        lookup(renamed_form(f, i, y).s, layer_key(i, expert_tensor(ExpertPart::Gate, x))) == lookup(
            f.s,
            layer_key(i, expert_tensor(ExpertPart::Gate, x)),
        ),
        lookup(renamed_form(f, i, y).s, layer_key(i, expert_tensor(ExpertPart::Up, x))) == lookup(
            f.s,
            layer_key(i, expert_tensor(ExpertPart::Up, x)),
        ),
        lookup(renamed_form(f, i, y).s, layer_key(i, expert_tensor(ExpertPart::FusedGateUp, x)))
            == lookup(f.s, layer_key(i, expert_tensor(ExpertPart::FusedGateUp, x))),
        x != y ==> lookup(renamed_form(f, i, y).s, layer_key(i, expert_tensor(ExpertPart::Down, x)))
            == lookup(f.s, layer_key(i, expert_tensor(ExpertPart::Down, x))),
        x != y ==> lookup(
            renamed_form(f, i, y).s,
            layer_key(i, expert_tensor(ExpertPart::FusedDown, x)),
        ) == lookup(f.s, layer_key(i, expert_tensor(ExpertPart::FusedDown, x))),
        x == y && lookup(f.s, layer_key(i, expert_tensor(ExpertPart::Down, x))) is Some && lookup(
            f.s,
            layer_key(i, expert_tensor(ExpertPart::FusedDown, x)),
        ) is None ==> lookup(
            renamed_form(f, i, y).s,
            layer_key(i, expert_tensor(ExpertPart::FusedDown, x)),
        ) == lookup(f.s, layer_key(i, expert_tensor(ExpertPart::Down, x))) && lookup(
            renamed_form(f, i, y).s,
            layer_key(i, expert_tensor(ExpertPart::Down, x)),
        ) is None,
{
    lemma_renamed_form_keeps(f, i, y, ExpertPart::Gate, x);
    lemma_renamed_form_keeps(f, i, y, ExpertPart::Up, x);
    lemma_renamed_form_keeps(f, i, y, ExpertPart::FusedGateUp, x);
    if x != y {
        lemma_renamed_form_keeps(f, i, y, ExpertPart::Down, x);
        lemma_renamed_form_keeps(f, i, y, ExpertPart::FusedDown, x);
    } else if lookup(f.s, layer_key(i, expert_tensor(ExpertPart::Down, x))) is Some && lookup(
        f.s,
        layer_key(i, expert_tensor(ExpertPart::FusedDown, x)),
    ) is None {
        lemma_own_form_is_renamed(
            f,
            i,
            x,
            lookup(f.s, layer_key(i, expert_tensor(ExpertPart::Down, x)))->0,
        );
    }
}

/// What is done to the weights of split experts is done to their scales and biases as well:
/// those of gate and up become one tensor, those of down take their fused name, and none
/// stays under a split name.
pub proof fn law_every_form_is_fused(
    f: Fusion,
    i: int,
    x: PartForm,
    g: TensorInfo,
    u: TensorInfo,
    d: TensorInfo,
)
    requires
        0 <= i,
        distinct(f.s),
        lookup(f.s, layer_key(i, expert_tensor(ExpertPart::Gate, x))) == Some(g),
        lookup(f.s, layer_key(i, expert_tensor(ExpertPart::Up, x))) == Some(u),
        lookup(f.s, layer_key(i, expert_tensor(ExpertPart::Down, x))) == Some(d),
        lookup(f.s, layer_key(i, expert_tensor(ExpertPart::FusedDown, x))) is None,
    ensures
        ({
            let s = f.layer(i).s;
            let whole = lookup(s, layer_key(i, expert_tensor(ExpertPart::FusedGateUp, x)));
            &&& distinct(s)
            &&& whole is Some
            &&& whole->0.array == g.array
            &&& whole->0.dtype == g.dtype
            &&& g.nbytes + u.nbytes <= u64::MAX ==> whole->0.nbytes == g.nbytes + u.nbytes
            &&& lookup(s, layer_key(i, expert_tensor(ExpertPart::FusedDown, x))) == Some(d)
            &&& lookup(s, layer_key(i, expert_tensor(ExpertPart::Gate, x))) is None
            &&& lookup(s, layer_key(i, expert_tensor(ExpertPart::Up, x))) is None
            &&& lookup(s, layer_key(i, expert_tensor(ExpertPart::Down, x))) is None
        }),
{
    let w = PartForm::Weight;
    let sc = PartForm::Scales;
    let b = PartForm::Biases;
    let done = Some(joined(g, u));
    let f1 = fused_form(f, i, w);
    lemma_fusing_step(f, i, w, x, None, g, u, d);
    let t1 = if x == w {
        done
    } else {
        None
    };
    let f2 = fused_form(f1, i, sc);
    lemma_fusing_step(f1, i, sc, x, t1, g, u, d);
    let t2 = if x == sc {
        done
    } else {
        t1
    };
    let f3 = fused_form(f2, i, b);
    lemma_fusing_step(f2, i, b, x, t2, g, u, d);
    let f4 = renamed_form(f3, i, w);
    lemma_renaming_step(f3, i, w, x);
    let f5 = renamed_form(f4, i, sc);
    lemma_renaming_step(f4, i, sc, x);
    let f6 = renamed_form(f5, i, b);
    lemma_renaming_step(f5, i, b, x);
    assert(f6 == f.layer(i));
}

/// The experts of each layer of a model are fused, whatever the other layers hold.
pub proof fn law_experts_of_all_layers_are_fused(
    f: Fusion,
    n: int,
    i: int,
    x: PartForm,
    g: TensorInfo,
    u: TensorInfo,
    d: TensorInfo,
)
    requires
        0 <= i < n,
        distinct(f.s),
        lookup(f.s, layer_key(i, expert_tensor(ExpertPart::Gate, x))) == Some(g),
        lookup(f.s, layer_key(i, expert_tensor(ExpertPart::Up, x))) == Some(u),
        lookup(f.s, layer_key(i, expert_tensor(ExpertPart::Down, x))) == Some(d),
        lookup(f.s, layer_key(i, expert_tensor(ExpertPart::FusedDown, x))) is None,
    ensures
        ({
            let s = f.layers(n).s;
            let whole = lookup(s, layer_key(i, expert_tensor(ExpertPart::FusedGateUp, x)));
            &&& distinct(s)
            &&& whole is Some
            &&& whole->0.array == g.array
            &&& whole->0.dtype == g.dtype
            &&& g.nbytes + u.nbytes <= u64::MAX ==> whole->0.nbytes == g.nbytes + u.nbytes
            &&& lookup(s, layer_key(i, expert_tensor(ExpertPart::FusedDown, x))) == Some(d)
            &&& lookup(s, layer_key(i, expert_tensor(ExpertPart::Gate, x))) is None
            &&& lookup(s, layer_key(i, expert_tensor(ExpertPart::Up, x))) is None
            &&& lookup(s, layer_key(i, expert_tensor(ExpertPart::Down, x))) is None
        }),
    decreases n,
{
    lemma_expert_tensor_begins(ExpertPart::Gate, x);
    lemma_expert_tensor_begins(ExpertPart::Up, x);
    lemma_expert_tensor_begins(ExpertPart::Down, x);
    lemma_expert_tensor_begins(ExpertPart::FusedGateUp, x);
    lemma_expert_tensor_begins(ExpertPart::FusedDown, x);
    if i == n - 1 {
        lemma_earlier_layers_keep(f, i, ExpertPart::Gate, x);
        lemma_earlier_layers_keep(f, i, ExpertPart::Up, x);
        lemma_earlier_layers_keep(f, i, ExpertPart::Down, x);
        lemma_earlier_layers_keep(f, i, ExpertPart::FusedDown, x);
        law_every_form_is_fused(f.layers(i), i, x, g, u, d);
    } else {
        law_experts_of_all_layers_are_fused(f, n - 1, i, x, g, u, d);
        let before = f.layers(n - 1);
        lemma_other_layer_keeps(before, n - 1, i, ExpertPart::Gate, x);
        lemma_other_layer_keeps(before, n - 1, i, ExpertPart::Up, x);
        lemma_other_layer_keeps(before, n - 1, i, ExpertPart::Down, x);
        lemma_other_layer_keeps(before, n - 1, i, ExpertPart::FusedGateUp, x);
        lemma_other_layer_keeps(before, n - 1, i, ExpertPart::FusedDown, x);
    }
}

proof fn lemma_expert_tensor_begins(a: ExpertPart, x: PartForm)
    ensures
        expert_tensor(a, x).len() > 0,
        expert_tensor(a, x)[0] == '.',
{
    reveal_strlit(".experts.switch_glu.gate_proj.weight");
    reveal_strlit(".experts.switch_glu.gate_proj.scales");
    reveal_strlit(".experts.switch_glu.gate_proj.biases");
    reveal_strlit(".experts.switch_glu.up_proj.weight");
    reveal_strlit(".experts.switch_glu.up_proj.scales");
    reveal_strlit(".experts.switch_glu.up_proj.biases");
    reveal_strlit(".experts.switch_glu.down_proj.weight");
    reveal_strlit(".experts.switch_glu.down_proj.scales");
    reveal_strlit(".experts.switch_glu.down_proj.biases");
    reveal_strlit(".experts.gate_up_proj.weight");
    reveal_strlit(".experts.gate_up_proj.scales");
    reveal_strlit(".experts.gate_up_proj.biases");
    reveal_strlit(".experts.down_proj.weight");
    reveal_strlit(".experts.down_proj.scales");
    reveal_strlit(".experts.down_proj.biases");
}

proof fn lemma_other_layer_keeps(f: Fusion, j: int, i: int, a: ExpertPart, x: PartForm)
    requires
        0 <= i,
        0 <= j,
        i != j,
        distinct(f.s),
    ensures
        distinct(f.layer(j).s),
        lookup(f.layer(j).s, layer_key(i, expert_tensor(a, x))) == lookup(
            f.s,
            layer_key(i, expert_tensor(a, x)),
        ),
{
    lemma_expert_tensor_begins(a, x);
    lemma_layer_name_untouched(i, expert_tensor(a, x), j);
    lemma_layer_fusion_keeps(f, j, layer_key(i, expert_tensor(a, x)));
}

proof fn lemma_earlier_layers_keep(f: Fusion, i: int, a: ExpertPart, x: PartForm)
    requires
        0 <= i,
        distinct(f.s),
    ensures
        distinct(f.layers(i).s),
        lookup(f.layers(i).s, layer_key(i, expert_tensor(a, x))) == lookup(
            f.s,
            layer_key(i, expert_tensor(a, x)),
        ),
{
    lemma_expert_tensor_begins(a, x);
    assert forall|j: int| 0 <= j < i implies #[trigger] untouched(
        layer_key(i, expert_tensor(a, x)),
        j,
    ) by {
        lemma_layer_name_untouched(i, expert_tensor(a, x), j);
    }
    lemma_fusion_keeps(f, i, layer_key(i, expert_tensor(a, x)));
}

} // verus!
