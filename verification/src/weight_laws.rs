//! What the look for missing tensors depends on, and what it does not.

use vstd::prelude::*;

use crate::config::Gemma4Config;
use crate::table::law_lookup_cut;
use crate::table::law_lookup_put;
use crate::table::lookup;
use crate::text::decimal;
use crate::text::decimal_abs;
use crate::text::digit;
use crate::text::law_ending_is_replaced;
use crate::text::lemma_decimal_digits;
use crate::text::occurs_at;
use crate::text::occurs_in;
use crate::weights::DType;
use crate::weights::clean_key;
use crate::weights::embedder_needs;
use crate::weights::finished;
use crate::weights::finished_all;
use crate::weights::first_unmet;
use crate::weights::is_clip_bound;
use crate::weights::kept;
use crate::weights::layer_key;
use crate::weights::layer_needs;
use crate::weights::layers_need;
use crate::weights::lemma_renamed;
use crate::weights::met;
use crate::weights::model_needs;
use crate::weights::of_audio_encoder;
use crate::weights::of_ple;
use crate::weights::of_vision;
use crate::weights::renamed;
use crate::weights::stripped;
use crate::weights::there;
use crate::weights::Need;
use crate::weights::TensorInfo;
use crate::weights::used;

verus! {

proof fn lemma_decimal_has_no_dot(n: int, k: int)
    requires
        0 <= n,
        0 <= k < decimal_abs(n).len(),
    ensures
        decimal_abs(n)[k] != '.',
    decreases n,
{
    if n < 10 {
        assert(decimal_abs(n)[0] == digit(n));
    } else if k < decimal_abs(n / 10).len() {
        lemma_decimal_has_no_dot(n / 10, k);
    } else {
        assert(decimal_abs(n)[k] == digit(n % 10));
    }
}

proof fn lemma_decimals_differ(n: int, m: int)
    requires
        0 <= n,
        0 <= m,
        decimal_abs(n) == decimal_abs(m),
    ensures
        n == m,
    decreases n,
{
    let a = decimal_abs(n);
    let b = decimal_abs(m);
    if n < 10 && m < 10 {
        assert(a[0] == digit(n) && b[0] == digit(m));
    } else if n < 10 {
        lemma_decimal_is_not_empty(m / 10);
        assert(a.len() == 1);
    } else if m < 10 {
        lemma_decimal_is_not_empty(n / 10);
        assert(b.len() == 1);
    } else {
        assert(a.last() == digit(n % 10) && b.last() == digit(m % 10));
        assert(a.drop_last() =~= decimal_abs(n / 10));
        assert(b.drop_last() =~= decimal_abs(m / 10));
        lemma_decimals_differ(n / 10, m / 10);
    }
}

proof fn lemma_decimal_is_not_empty(n: int)
    ensures
        decimal_abs(n).len() > 0,
{
}

/// Names of different layers are different, and so are names that go on
/// differently behind the number of the layer.
pub proof fn lemma_layer_keys_differ(i: int, r: Seq<char>, j: int, e: Seq<char>)
    requires
        0 <= i,
        0 <= j,
        r.len() > 0,
        e.len() > 0,
        r[0] == '.',
        e[0] == '.',
        i != j || r != e,
    ensures
        layer_key(i, r) != layer_key(j, e),
{
    let a = layer_key(i, r);
    let b = layer_key(j, e);
    let n = "layers."@.len() as int;
    let x = decimal(i);
    let y = decimal(j);
    if a == b {
        if x.len() < y.len() {
            assert(a[n + x.len()] == r[0]);
            assert(b[n + x.len()] == y[x.len() as int]);
            lemma_decimal_has_no_dot(j, x.len() as int);
        } else if y.len() < x.len() {
            assert(b[n + y.len()] == e[0]);
            assert(a[n + y.len()] == x[y.len() as int]);
            lemma_decimal_has_no_dot(i, y.len() as int);
        } else {
            assert(x =~= a.subrange(n, n + x.len()));
            assert(y =~= b.subrange(n, n + y.len()));
            lemma_decimals_differ(i, j);
            assert(r =~= a.skip(n + x.len()));
            assert(e =~= b.skip(n + y.len()));
        }
    }
}

/// The outcome depends on which tensors are there, and on nothing else about
/// them.
pub proof fn law_only_presence_counts(
    s: Seq<(Seq<char>, TensorInfo)>,
    t: Seq<(Seq<char>, TensorInfo)>,
    n: Seq<Need>,
)
    requires
        forall|k: Seq<char>| #[trigger] there(s, k) == there(t, k),
    ensures
        first_unmet(s, n) == first_unmet(t, n),
    decreases n.len(),
{
    if n.len() > 0 {
        assert(met(s, n[0]) == met(t, n[0]));
        law_only_presence_counts(s, t, n.skip(1));
    }
}

/// A checkpoint that is accepted stays accepted when tensors are added.
pub proof fn law_more_tensors_stay_accepted(
    s: Seq<(Seq<char>, TensorInfo)>,
    t: Seq<(Seq<char>, TensorInfo)>,
    n: Seq<Need>,
)
    requires
        forall|k: Seq<char>| #[trigger] there(s, k) ==> there(t, k),
        first_unmet(s, n) is None,
    ensures
        first_unmet(t, n) is None,
    decreases n.len(),
{
    if n.len() > 0 {
        assert(met(s, n[0]) ==> met(t, n[0]));
        law_more_tensors_stay_accepted(s, t, n.skip(1));
    }
}

/// Two checkpoints hold the same tensors, but for one name.
pub open spec fn same_beside(
    s: Seq<(Seq<char>, TensorInfo)>,
    t: Seq<(Seq<char>, TensorInfo)>,
    key: Seq<char>,
) -> bool {
    forall|k: Seq<char>| k != key ==> #[trigger] there(s, k) == there(t, k)
}

/// A need looks for a name.
spec fn asks_for(n: Need, key: Seq<char>) -> bool {
    match n {
        Need::Key(k) => k == key,
        Need::Experts(i) => {
            ||| key == layer_key(i, ".experts.gate_up_proj"@)
            ||| key == layer_key(i, ".experts.down_proj"@)
            ||| key == layer_key(i, ".experts.gate_up_proj.weight"@)
            ||| key == layer_key(i, ".experts.down_proj.weight"@)
            ||| key == layer_key(i, ".experts.switch_glu.gate_proj.weight"@)
            ||| key == layer_key(i, ".experts.switch_glu.up_proj.weight"@)
            ||| key == layer_key(i, ".experts.switch_glu.down_proj.weight"@)
        },
    }
}

/// None of the needs looks for a name.
spec fn unasked(n: Seq<Need>, key: Seq<char>) -> bool {
    forall|i: int| 0 <= i < n.len() ==> !asks_for(#[trigger] n[i], key)
}

proof fn lemma_unasked_joins(a: Seq<Need>, b: Seq<Need>, key: Seq<char>)
    requires
        unasked(a, key),
        unasked(b, key),
    ensures
        unasked(a + b, key),
{
    assert forall|i: int| 0 <= i < (a + b).len() implies !asks_for(#[trigger] (a + b)[i], key) by {
        if i < a.len() {
            assert((a + b)[i] == a[i]);
        } else {
            assert((a + b)[i] == b[i - a.len()]);
        }
    }
}

proof fn lemma_unasked_does_not_count(
    s: Seq<(Seq<char>, TensorInfo)>,
    t: Seq<(Seq<char>, TensorInfo)>,
    n: Seq<Need>,
    key: Seq<char>,
)
    requires
        same_beside(s, t, key),
        unasked(n, key),
    ensures
        first_unmet(s, n) == first_unmet(t, n),
    decreases n.len(),
{
    if n.len() > 0 {
        assert(!asks_for(n[0], key));
        assert(met(s, n[0]) == met(t, n[0]));
        let rest = n.skip(1);
        assert forall|i: int| 0 <= i < rest.len() implies !asks_for(#[trigger] rest[i], key) by {
            assert(rest[i] == n[i + 1]);
        }
        lemma_unasked_does_not_count(s, t, rest, key);
    }
}

/// Whether `key` is a name of layer `j` that goes on with one of the names that
/// are asked for in every layer.
spec fn asked_everywhere(j: int, key: Seq<char>) -> bool {
    ||| key == layer_key(j, ".self_attn.q_proj.weight"@)
    ||| key == layer_key(j, ".self_attn.k_proj.weight"@)
    ||| key == layer_key(j, ".self_attn.o_proj.weight"@)
    ||| key == layer_key(j, ".self_attn.q_norm.weight"@)
    ||| key == layer_key(j, ".layer_scalar"@)
    ||| key == layer_key(j, ".mlp.gate_proj.weight"@)
    ||| key == layer_key(j, ".mlp.up_proj.weight"@)
    ||| key == layer_key(j, ".mlp.down_proj.weight"@)
    ||| key == layer_key(j, ".input_layernorm.weight"@)
    ||| key == layer_key(j, ".post_attention_layernorm.weight"@)
    ||| key == layer_key(j, ".pre_feedforward_layernorm.weight"@)
    ||| key == layer_key(j, ".post_feedforward_layernorm.weight"@)
    ||| key == layer_key(j, ".router.proj.weight"@)
    ||| key == layer_key(j, ".router.scale"@)
    ||| asks_for(Need::Experts(j), key)
}

proof fn lemma_layer_unasked(c: Gemma4Config, j: int, key: Seq<char>)
    requires
        !asked_everywhere(j, key),
        key != layer_key(j, ".self_attn.v_proj.weight"@) || (c.attention_k_eq_v && c.global_at(j)),
        key != layer_key(j, ".self_attn.k_norm.weight"@) || c.shared_at(j),
    ensures
        unasked(layer_needs(c, j), key),
{
    let projections = seq![
        Need::Key(layer_key(j, ".self_attn.q_proj.weight"@)),
        Need::Key(layer_key(j, ".self_attn.k_proj.weight"@)),
        Need::Key(layer_key(j, ".self_attn.o_proj.weight"@)),
    ];
    let values = if c.attention_k_eq_v && c.global_at(j) {
        Seq::empty()
    } else {
        seq![Need::Key(layer_key(j, ".self_attn.v_proj.weight"@))]
    };
    let query_norm = seq![Need::Key(layer_key(j, ".self_attn.q_norm.weight"@))];
    let key_norm = if c.shared_at(j) {
        Seq::empty()
    } else {
        seq![Need::Key(layer_key(j, ".self_attn.k_norm.weight"@))]
    };
    let rest = seq![
        Need::Key(layer_key(j, ".layer_scalar"@)),
        Need::Key(layer_key(j, ".mlp.gate_proj.weight"@)),
        Need::Key(layer_key(j, ".mlp.up_proj.weight"@)),
        Need::Key(layer_key(j, ".mlp.down_proj.weight"@)),
        Need::Key(layer_key(j, ".input_layernorm.weight"@)),
        Need::Key(layer_key(j, ".post_attention_layernorm.weight"@)),
        Need::Key(layer_key(j, ".pre_feedforward_layernorm.weight"@)),
        Need::Key(layer_key(j, ".post_feedforward_layernorm.weight"@)),
    ];
    let experts = if c.enable_moe_block {
        seq![
            Need::Key(layer_key(j, ".router.proj.weight"@)),
            Need::Experts(j),
            Need::Key(layer_key(j, ".router.scale"@)),
        ]
    } else {
        Seq::empty()
    };
    lemma_unasked_joins(projections, values, key);
    lemma_unasked_joins(projections + values, query_norm, key);
    lemma_unasked_joins(projections + values + query_norm, key_norm, key);
    lemma_unasked_joins(projections + values + query_norm + key_norm, rest, key);
    lemma_unasked_joins(projections + values + query_norm + key_norm + rest, experts, key);
}

proof fn lemma_layers_unasked(c: Gemma4Config, n: int, key: Seq<char>)
    requires
        forall|j: int| 0 <= j < n ==> unasked(#[trigger] layer_needs(c, j), key),
    ensures
        unasked(layers_need(c, n), key),
    decreases n,
{
    if n > 0 {
        lemma_layers_unasked(c, n - 1, key);
        lemma_unasked_joins(layers_need(c, n - 1), layer_needs(c, n - 1), key);
    }
}

/// A name of a layer is asked for by its layer or not at all.
proof fn lemma_model_unasked(c: Gemma4Config, key: Seq<char>)
    requires
        unasked(layers_need(c, c.layers()), key),
        key.len() > 1,
        key[0] == 'l',
        key == "lm_head.weight"@ ==> c.tie_word_embeddings,
    ensures
        unasked(model_needs(c), key),
{
    reveal_strlit("embed_tokens.weight");
    reveal_strlit("norm.weight");
    reveal_strlit("vision_embedder.patch_ln1.weight");
    reveal_strlit("vision_embedder.patch_ln1.bias");
    reveal_strlit("vision_embedder.patch_ln2.weight");
    reveal_strlit("vision_embedder.patch_ln2.bias");
    reveal_strlit("vision_embedder.pos_norm.weight");
    reveal_strlit("vision_embedder.pos_norm.bias");
    reveal_strlit("vision_embedder.patch_dense.weight");
    reveal_strlit("vision_embedder.patch_dense.bias");
    reveal_strlit("vision_embedder.pos_embedding");
    reveal_strlit("embed_vision.embedding_projection.weight");
    reveal_strlit("embed_audio.embedding_projection.weight");
    let first = seq![Need::Key("embed_tokens.weight"@), Need::Key("norm.weight"@)];
    let layers = layers_need(c, c.layers());
    let head = if c.tie_word_embeddings {
        Seq::empty()
    } else {
        seq![Need::Key("lm_head.weight"@)]
    };
    let vision = if c.unified_vision_config is Some {
        embedder_needs()
    } else {
        Seq::empty()
    };
    let audio = if c.has_audio {
        seq![Need::Key("embed_audio.embedding_projection.weight"@)]
    } else {
        Seq::empty()
    };
    assert("embed_tokens.weight"@[0] == 'e');
    assert("norm.weight"@[0] == 'n');
    assert("embed_audio.embedding_projection.weight"@[0] == 'e');
    assert forall|i: int| 0 <= i < embedder_needs().len() implies !asks_for(
        #[trigger] embedder_needs()[i],
        key,
    ) by {
        let k = embedder_needs()[i]->Key_0;
        assert(k[0] == 'v' || k[0] == 'e');
    }
    lemma_unasked_joins(first, layers, key);
    lemma_unasked_joins(first + layers, head, key);
    lemma_unasked_joins(first + layers + head, vision, key);
    lemma_unasked_joins(first + layers + head + vision, audio, key);
}

/// With a tied output projection it does not matter whether a table for it is
/// there.
pub proof fn law_tied_head_does_not_count(
    c: Gemma4Config,
    s: Seq<(Seq<char>, TensorInfo)>,
    t: Seq<(Seq<char>, TensorInfo)>,
)
    requires
        c.tie_word_embeddings,
        same_beside(s, t, "lm_head.weight"@),
    ensures
        first_unmet(s, model_needs(c)) == first_unmet(t, model_needs(c)),
{
    let key = "lm_head.weight"@;
    reveal_strlit("lm_head.weight");
    reveal_strlit("layers.");
    assert(key[1] == 'm');
    assert forall|j: int| 0 <= j < c.layers() implies unasked(#[trigger] layer_needs(c, j), key) by {
        assert forall|e: Seq<char>| #[trigger] layer_key(j, e) != key by {
            assert(layer_key(j, e)[1] == "layers."@[1]);
        }
        lemma_layer_unasked(c, j, key);
    }
    lemma_layers_unasked(c, c.layers(), key);
    lemma_model_unasked(c, key);
    lemma_unasked_does_not_count(s, t, model_needs(c), key);
}

proof fn lemma_layer_name_unasked(c: Gemma4Config, i: int, r: Seq<char>)
    requires
        0 <= i,
        r.len() > 0,
        r[0] == '.',
        unasked(layer_needs(c, i), layer_key(i, r)),
    ensures
        unasked(model_needs(c), layer_key(i, r)),
{
    let key = layer_key(i, r);
    reveal_strlit("layers.");
    reveal_strlit("lm_head.weight");
    assert(key[0] == "layers."@[0]);
    assert(key[1] == "layers."@[1]);
    assert("lm_head.weight"@[1] == 'm');
    assert forall|j: int| 0 <= j < c.layers() implies unasked(#[trigger] layer_needs(c, j), key) by {
        if j != i {
            lemma_other_layer_unasked(i, r, j);
            lemma_layer_unasked(c, j, key);
        }
    }
    lemma_layers_unasked(c, c.layers(), key);
    lemma_model_unasked(c, key);
}

proof fn lemma_other_layer_unasked(i: int, r: Seq<char>, j: int)
    requires
        0 <= i,
        0 <= j,
        i != j,
        r.len() > 0,
        r[0] == '.',
    ensures
        !asked_everywhere(j, layer_key(i, r)),
        layer_key(i, r) != layer_key(j, ".self_attn.v_proj.weight"@),
        layer_key(i, r) != layer_key(j, ".self_attn.k_norm.weight"@),
{
    reveal_strlit(".self_attn.v_proj.weight");
    reveal_strlit(".self_attn.k_norm.weight");
    lemma_layer_keys_differ(i, r, j, ".self_attn.v_proj.weight"@);
    lemma_layer_keys_differ(i, r, j, ".self_attn.k_norm.weight"@);
    lemma_not_asked_everywhere(i, r, j);
}

/// A name that differs from those that every layer is asked for.
spec fn extra_name(r: Seq<char>) -> bool {
    &&& r.len() > 13
    &&& r[0] == '.'
    &&& r[1] == 's'
    &&& (r[11] == 'v' || (r[11] == 'k' && r[13] == 'n'))
}

proof fn lemma_not_asked_everywhere(i: int, r: Seq<char>, j: int)
    requires
        0 <= i,
        0 <= j,
        r.len() > 0,
        r[0] == '.',
        i != j || extra_name(r),
    ensures
        !asked_everywhere(j, layer_key(i, r)),
{
    reveal_strlit(".self_attn.q_proj.weight");
    reveal_strlit(".self_attn.k_proj.weight");
    reveal_strlit(".self_attn.o_proj.weight");
    reveal_strlit(".self_attn.q_norm.weight");
    reveal_strlit(".layer_scalar");
    reveal_strlit(".mlp.gate_proj.weight");
    reveal_strlit(".mlp.up_proj.weight");
    reveal_strlit(".mlp.down_proj.weight");
    reveal_strlit(".input_layernorm.weight");
    reveal_strlit(".post_attention_layernorm.weight");
    reveal_strlit(".pre_feedforward_layernorm.weight");
    reveal_strlit(".post_feedforward_layernorm.weight");
    reveal_strlit(".router.proj.weight");
    reveal_strlit(".router.scale");
    reveal_strlit(".experts.gate_up_proj");
    reveal_strlit(".experts.down_proj");
    reveal_strlit(".experts.gate_up_proj.weight");
    reveal_strlit(".experts.down_proj.weight");
    reveal_strlit(".experts.switch_glu.gate_proj.weight");
    reveal_strlit(".experts.switch_glu.up_proj.weight");
    reveal_strlit(".experts.switch_glu.down_proj.weight");
    assert(".self_attn.k_proj.weight"@[13] == 'p');
    lemma_layer_keys_differ(i, r, j, ".self_attn.q_proj.weight"@);
    lemma_layer_keys_differ(i, r, j, ".self_attn.k_proj.weight"@);
    lemma_layer_keys_differ(i, r, j, ".self_attn.o_proj.weight"@);
    lemma_layer_keys_differ(i, r, j, ".self_attn.q_norm.weight"@);
    lemma_layer_keys_differ(i, r, j, ".layer_scalar"@);
    lemma_layer_keys_differ(i, r, j, ".mlp.gate_proj.weight"@);
    lemma_layer_keys_differ(i, r, j, ".mlp.up_proj.weight"@);
    lemma_layer_keys_differ(i, r, j, ".mlp.down_proj.weight"@);
    lemma_layer_keys_differ(i, r, j, ".input_layernorm.weight"@);
    lemma_layer_keys_differ(i, r, j, ".post_attention_layernorm.weight"@);
    lemma_layer_keys_differ(i, r, j, ".pre_feedforward_layernorm.weight"@);
    lemma_layer_keys_differ(i, r, j, ".post_feedforward_layernorm.weight"@);
    lemma_layer_keys_differ(i, r, j, ".router.proj.weight"@);
    lemma_layer_keys_differ(i, r, j, ".router.scale"@);
    lemma_layer_keys_differ(i, r, j, ".experts.gate_up_proj"@);
    lemma_layer_keys_differ(i, r, j, ".experts.down_proj"@);
    lemma_layer_keys_differ(i, r, j, ".experts.gate_up_proj.weight"@);
    lemma_layer_keys_differ(i, r, j, ".experts.down_proj.weight"@);
    lemma_layer_keys_differ(i, r, j, ".experts.switch_glu.gate_proj.weight"@);
    lemma_layer_keys_differ(i, r, j, ".experts.switch_glu.up_proj.weight"@);
    lemma_layer_keys_differ(i, r, j, ".experts.switch_glu.down_proj.weight"@);
}

/// In a layer that shares the keys of another one it does not matter whether a
/// norm of its keys is there.
pub proof fn law_shared_key_norm_does_not_count(
    c: Gemma4Config,
    i: int,
    s: Seq<(Seq<char>, TensorInfo)>,
    t: Seq<(Seq<char>, TensorInfo)>,
)
    requires
        0 <= i < c.layers(),
        c.shared_at(i),
        same_beside(s, t, layer_key(i, ".self_attn.k_norm.weight"@)),
    ensures
        first_unmet(s, model_needs(c)) == first_unmet(t, model_needs(c)),
{
    let r = ".self_attn.k_norm.weight"@;
    let key = layer_key(i, r);
    reveal_strlit(".self_attn.k_norm.weight");
    reveal_strlit(".self_attn.v_proj.weight");
    assert(r[11] == 'k' && r[13] == 'n');
    assert(".self_attn.v_proj.weight"@[11] == 'v');
    lemma_not_asked_everywhere(i, r, i);
    lemma_layer_keys_differ(i, r, i, ".self_attn.v_proj.weight"@);
    lemma_layer_unasked(c, i, key);
    lemma_layer_name_unasked(c, i, r);
    lemma_unasked_does_not_count(s, t, model_needs(c), key);
}

/// Where keys stand for values, it does not matter whether a full-attention
/// layer has a projection for values.
pub proof fn law_value_of_global_layer_does_not_count(
    c: Gemma4Config,
    i: int,
    s: Seq<(Seq<char>, TensorInfo)>,
    t: Seq<(Seq<char>, TensorInfo)>,
)
    requires
        0 <= i < c.layers(),
        c.attention_k_eq_v,
        c.global_at(i),
        same_beside(s, t, layer_key(i, ".self_attn.v_proj.weight"@)),
    ensures
        first_unmet(s, model_needs(c)) == first_unmet(t, model_needs(c)),
{
    let r = ".self_attn.v_proj.weight"@;
    let key = layer_key(i, r);
    reveal_strlit(".self_attn.v_proj.weight");
    reveal_strlit(".self_attn.k_norm.weight");
    assert(r[11] == 'v');
    assert(".self_attn.k_norm.weight"@[11] == 'k');
    lemma_not_asked_everywhere(i, r, i);
    lemma_layer_keys_differ(i, r, i, ".self_attn.k_norm.weight"@);
    lemma_layer_unasked(c, i, key);
    lemma_layer_name_unasked(c, i, r);
    lemma_unasked_does_not_count(s, t, model_needs(c), key);
}

/// Parts that a layer of the text model has.
pub open spec fn layer_part_name(r: Seq<char>) -> bool {
    ||| r == ".self_attn.q_proj"@
    ||| r == ".self_attn.k_proj"@
    ||| r == ".self_attn.v_proj"@
    ||| r == ".self_attn.o_proj"@
    ||| r == ".self_attn.q_norm"@
    ||| r == ".self_attn.k_norm"@
    ||| r == ".layer_scalar"@
    ||| r == ".mlp.gate_proj"@
    ||| r == ".mlp.up_proj"@
    ||| r == ".mlp.down_proj"@
    ||| r == ".input_layernorm"@
    ||| r == ".post_attention_layernorm"@
    ||| r == ".pre_feedforward_layernorm"@
    ||| r == ".post_feedforward_layernorm"@
    ||| r == ".router.proj"@
    ||| r == ".router.scale"@
    ||| r == ".router.per_expert_scale"@
    ||| r == ".experts.gate_up_proj"@
    ||| r == ".experts.down_proj"@
    ||| r == ".experts.switch_glu.gate_proj"@
    ||| r == ".experts.switch_glu.up_proj"@
    ||| r == ".experts.switch_glu.down_proj"@
    ||| r == ".pre_feedforward_layernorm_2"@
    ||| r == ".post_feedforward_layernorm_1"@
    ||| r == ".post_feedforward_layernorm_2"@
}

/// Parts of the per-layer embedding that a layer has.
pub open spec fn layer_ple_name(r: Seq<char>) -> bool {
    ||| r == ".per_layer_input_gate"@
    ||| r == ".per_layer_projection"@
    ||| r == ".post_per_layer_input_norm"@
}

/// Parts of the text model outside its layers.
pub open spec fn outer_part_name(r: Seq<char>) -> bool {
    ||| r == "embed_tokens"@
    ||| r == "norm"@
    ||| r == "lm_head"@
}

/// Parts of the per-layer embedding outside the layers.
pub open spec fn outer_ple_name(r: Seq<char>) -> bool {
    ||| r == "embed_tokens_per_layer"@
    ||| r == "per_layer_model_projection"@
    ||| r == "per_layer_projection_norm"@
}

/// What a part is stored as: values, scales and biases, or a bare tensor.
pub open spec fn stored_form(f: Seq<char>) -> bool {
    ||| f == ""@
    ||| f == ".weight"@
    ||| f == ".scales"@
    ||| f == ".biases"@
    ||| f == ".bias"@
}

/// A tensor of the text model: of a layer, of the rest, or of the per-layer embedding
/// where the model has one. A tied output projection has no values of its own.
pub open spec fn text_tensor_name(
    c: Gemma4Config,
    key: Seq<char>,
    layer: int,
    r: Seq<char>,
    f: Seq<char>,
) -> bool {
    &&& stored_form(f)
    &&& c.tie_word_embeddings ==> key != "lm_head.weight"@
    &&& {
        ||| 0 <= layer && key == layer_key(layer, r) + f && layer_part_name(r)
        ||| 0 <= layer && key == layer_key(layer, r) + f && layer_ple_name(r)
            && c.per_layer_input_embeds
        ||| key == r + f && outer_part_name(r)
        ||| key == r + f && outer_ple_name(r) && c.per_layer_input_embeds
    }
}

/// Every tensor of the text model that a checkpoint holds survives the cleaning of
/// names, and is the one that the checkpoint holds; of two with one name the later one
/// is. With a per-layer embedding its tensors survive too.
pub proof fn law_text_tensors_survive(
    c: Gemma4Config,
    s: Seq<(Seq<char>, TensorInfo)>,
    i: int,
    key: Seq<char>,
    layer: int,
    r: Seq<char>,
    f: Seq<char>,
)
    requires
        0 <= i < s.len(),
        clean_key(s[i].0) == key,
        forall|k: int| i < k < s.len() ==> clean_key(#[trigger] s[k].0) != key,
        text_tensor_name(c, key, layer, r, f),
    ensures
        lookup(finished_all(used(c, s)), key) is Some,
        lookup(finished_all(used(c, s)), key)->0.array == s[i].1.array,
{
    lemma_text_tensor_is_kept(c, key, layer, r, f);
    law_kept_tensor_survives(c, s, i, key);
}

/// A tensor that is neither filtered nor the values of a tied output projection
/// survives with its array; only its element type may change.
pub proof fn law_kept_tensor_survives(
    c: Gemma4Config,
    s: Seq<(Seq<char>, TensorInfo)>,
    i: int,
    key: Seq<char>,
)
    requires
        0 <= i < s.len(),
        clean_key(s[i].0) == key,
        forall|k: int| i < k < s.len() ==> clean_key(#[trigger] s[k].0) != key,
        kept(c, key),
        c.tie_word_embeddings ==> key != "lm_head.weight"@,
    ensures
        lookup(finished_all(used(c, s)), key) is Some,
        lookup(finished_all(used(c, s)), key)->0.array == s[i].1.array,
        lookup(finished_all(used(c, s)), key)->0.last_dim == s[i].1.last_dim,
        s[i].1.dtype != DType::Float32 ==> lookup(finished_all(used(c, s)), key) == Some(s[i].1),
{
    let all = renamed(c, s, s.len() as int);
    lemma_last_is_kept(c, s, i, key, s.len() as int);
    lemma_renamed(c, s, s.len() as int, key);
    if c.tie_word_embeddings {
        law_lookup_cut(all, "lm_head.weight"@, key);
    }
    let u = used(c, s);
    lemma_finished_value(u, finished_all(u), u, key);
}

proof fn lemma_last_is_kept(
    c: Gemma4Config,
    s: Seq<(Seq<char>, TensorInfo)>,
    i: int,
    key: Seq<char>,
    n: int,
)
    requires
        0 <= i < n <= s.len(),
        clean_key(s[i].0) == key,
        forall|k: int| i < k < s.len() ==> clean_key(#[trigger] s[k].0) != key,
        kept(c, key),
    ensures
        lookup(renamed(c, s, n), key) == Some(s[i].1),
    decreases n,
{
    let k = clean_key(s[n - 1].0);
    law_lookup_put(renamed(c, s, n - 1), k, s[n - 1].1, key);
    if n - 1 > i {
        lemma_last_is_kept(c, s, i, key, n - 1);
        assert(k != key);
    }
}

proof fn lemma_finished_value(
    u: Seq<(Seq<char>, TensorInfo)>,
    f: Seq<(Seq<char>, TensorInfo)>,
    all: Seq<(Seq<char>, TensorInfo)>,
    key: Seq<char>,
)
    requires
        f.len() == u.len(),
        forall|k: int| 0 <= k < u.len() ==> #[trigger] f[k] == (u[k].0, finished(all, u[k].0, u[k].1)),
    ensures
        lookup(f, key) == match lookup(u, key) {
            Some(t) => Some(finished(all, key, t)),
            None => None,
        },
    decreases u.len(),
{
    if u.len() > 0 {
        assert(f[0] == (u[0].0, finished(all, u[0].0, u[0].1)));
        assert forall|k: int| 0 <= k < u.skip(1).len() implies #[trigger] f.skip(1)[k] == (
            u.skip(1)[k].0,
            finished(all, u.skip(1)[k].0, u.skip(1)[k].1),
        ) by {
            assert(f[k + 1] == (u[k + 1].0, finished(all, u[k + 1].0, u[k + 1].1)));
        }
        lemma_finished_value(u.skip(1), f.skip(1), all, key);
    }
}

/// No character pair or triple of a filtered name begins at `j`.
spec fn plain_at(s: Seq<char>, j: int) -> bool {
    &&& !(j + 1 < s.len() && s[j] == 'r' && s[j + 1] == 'y')
    &&& !(j + 2 < s.len() && s[j] == '_' && s[j + 1] == 'm' && (s[j + 2] == 'a' || s[j + 2]
        == 'i'))
}

/// No part of a name of the per-layer embedding begins at `j`.
spec fn layered_at(s: Seq<char>, j: int) -> bool {
    j + 2 < s.len() && s[j] == 'r' && s[j + 1] == '_' && s[j + 2] == 'l'
}

spec fn plain_from(s: Seq<char>, j: int) -> bool
    decreases s.len() - j,
{
    j >= s.len() || (plain_at(s, j) && plain_from(s, j + 1))
}

spec fn unlayered_from(s: Seq<char>, j: int) -> bool
    decreases s.len() - j,
{
    j >= s.len() || (!layered_at(s, j) && unlayered_from(s, j + 1))
}

spec fn plain(s: Seq<char>) -> bool {
    forall|j: int| 0 <= j < s.len() ==> #[trigger] plain_at(s, j)
}

spec fn unlayered(s: Seq<char>) -> bool {
    forall|j: int| 0 <= j < s.len() ==> !(#[trigger] layered_at(s, j))
}

proof fn lemma_plain(s: Seq<char>, from: int)
    requires
        0 <= from,
        plain_from(s, from),
    ensures
        forall|j: int| from <= j < s.len() ==> #[trigger] plain_at(s, j),
    decreases s.len() - from,
{
    if from < s.len() {
        lemma_plain(s, from + 1);
    }
}

proof fn lemma_unlayered(s: Seq<char>, from: int)
    requires
        0 <= from,
        unlayered_from(s, from),
    ensures
        forall|j: int| from <= j < s.len() ==> !(#[trigger] layered_at(s, j)),
    decreases s.len() - from,
{
    if from < s.len() {
        lemma_unlayered(s, from + 1);
    }
}

/// Names that meet at a dot.
proof fn lemma_plain_joins(a: Seq<char>, b: Seq<char>)
    requires
        plain(a),
        plain(b),
        a.len() == 0 || b.len() == 0 || a.last() == '.' || b[0] == '.',
    ensures
        plain(a + b),
{
    assert forall|j: int| 0 <= j < (a + b).len() implies #[trigger] plain_at(a + b, j) by {
        let s = a + b;
        if j < a.len() {
            assert(plain_at(a, j));
            assert(s[j] == a[j]);
            if j + 1 < a.len() {
                assert(s[j + 1] == a[j + 1]);
            }
            if j + 2 < a.len() {
                assert(s[j + 2] == a[j + 2]);
            }
            if b.len() > 0 {
                assert(s[a.len() as int] == b[0]);
                assert(s[a.len() - 1] == a.last());
            }
        } else {
            assert(plain_at(b, j - a.len()));
            assert(s[j] == b[j - a.len()]);
            if j + 1 < s.len() {
                assert(s[j + 1] == b[j + 1 - a.len()]);
            }
            if j + 2 < s.len() {
                assert(s[j + 2] == b[j + 2 - a.len()]);
            }
        }
    }
}

proof fn lemma_unlayered_joins(a: Seq<char>, b: Seq<char>)
    requires
        unlayered(a),
        unlayered(b),
        a.len() == 0 || b.len() == 0 || a.last() == '.' || b[0] == '.',
    ensures
        unlayered(a + b),
{
    assert forall|j: int| 0 <= j < (a + b).len() implies !(#[trigger] layered_at(a + b, j)) by {
        let s = a + b;
        if j < a.len() {
            assert(!layered_at(a, j));
            assert(s[j] == a[j]);
            if j + 1 < a.len() {
                assert(s[j + 1] == a[j + 1]);
            }
            if j + 2 < a.len() {
                assert(s[j + 2] == a[j + 2]);
            }
            if b.len() > 0 {
                assert(s[a.len() as int] == b[0]);
                assert(s[a.len() - 1] == a.last());
            }
        } else {
            assert(!layered_at(b, j - a.len()));
            assert(s[j] == b[j - a.len()]);
            if j + 1 < s.len() {
                assert(s[j + 1] == b[j + 1 - a.len()]);
            }
            if j + 2 < s.len() {
                assert(s[j + 2] == b[j + 2 - a.len()]);
            }
        }
    }
}

proof fn lemma_plain_is_not_filtered(s: Seq<char>)
    requires
        plain(s),
    ensures
        !occurs_in("self_attn.rotary_emb"@, s),
        !is_clip_bound(s),
{
    reveal_strlit("self_attn.rotary_emb");
    reveal_strlit("input_max");
    reveal_strlit("input_min");
    reveal_strlit("output_max");
    reveal_strlit("output_min");
    assert forall|j: int| !occurs_at("self_attn.rotary_emb"@, s, j) by {
        let p = "self_attn.rotary_emb"@;
        if occurs_at(p, s, j) {
            let w = s.subrange(j, j + p.len());
            assert(w[14] == s[j + 14] && w[15] == s[j + 15]);
            assert(!plain_at(s, j + 14));
        }
    }
    lemma_no_bound(s, "input_max"@, 5);
    lemma_no_bound(s, "input_min"@, 5);
    lemma_no_bound(s, "output_max"@, 6);
    lemma_no_bound(s, "output_min"@, 6);
}

proof fn lemma_no_bound(s: Seq<char>, p: Seq<char>, at: int)
    requires
        plain(s),
        0 <= at,
        at + 2 < p.len(),
        p[at] == '_',
        p[at + 1] == 'm',
        p[at + 2] == 'a' || p[at + 2] == 'i',
    ensures
        !occurs_in(p, s),
{
    assert forall|j: int| !occurs_at(p, s, j) by {
        if occurs_at(p, s, j) {
            let w = s.subrange(j, j + p.len());
            assert(w[at] == s[j + at] && w[at + 1] == s[j + at + 1] && w[at + 2] == s[j + at + 2]);
            assert(!plain_at(s, j + at));
        }
    }
}

proof fn lemma_unlayered_is_not_ple(s: Seq<char>)
    requires
        unlayered(s),
    ensures
        !of_ple(s),
{
    reveal_strlit("embed_tokens_per_layer.");
    reveal_strlit("per_layer_model_projection.");
    reveal_strlit("per_layer_projection_norm.");
    reveal_strlit(".per_layer_input_gate.");
    reveal_strlit(".per_layer_projection.");
    reveal_strlit(".post_per_layer_input_norm.");
    lemma_no_layered(s, ".per_layer_input_gate."@, 3);
    lemma_no_layered(s, ".per_layer_projection."@, 3);
    lemma_no_layered(s, ".post_per_layer_input_norm."@, 8);
    lemma_no_layered_prefix(s, "embed_tokens_per_layer."@, 15);
    lemma_no_layered_prefix(s, "per_layer_model_projection."@, 2);
    lemma_no_layered_prefix(s, "per_layer_projection_norm."@, 2);
}

proof fn lemma_no_layered(s: Seq<char>, p: Seq<char>, at: int)
    requires
        unlayered(s),
        0 <= at,
        at + 2 < p.len(),
        p[at] == 'r',
        p[at + 1] == '_',
        p[at + 2] == 'l',
    ensures
        !occurs_in(p, s),
{
    assert forall|j: int| !occurs_at(p, s, j) by {
        if occurs_at(p, s, j) {
            let w = s.subrange(j, j + p.len());
            assert(w[at] == s[j + at] && w[at + 1] == s[j + at + 1] && w[at + 2] == s[j + at + 2]);
            assert(layered_at(s, j + at));
        }
    }
}

proof fn lemma_no_layered_prefix(s: Seq<char>, p: Seq<char>, at: int)
    requires
        unlayered(s),
        0 <= at,
        at + 2 < p.len(),
        p[at] == 'r',
        p[at + 1] == '_',
        p[at + 2] == 'l',
    ensures
        !p.is_prefix_of(s),
{
    if p.is_prefix_of(s) {
        assert(s.subrange(0, p.len() as int) =~= p);
        assert(s[at] == p[at] && s[at + 1] == p[at + 1] && s[at + 2] == p[at + 2]);
        assert(layered_at(s, at));
    }
}

#[verifier::rlimit(40)]
proof fn lemma_layer_names(r: Seq<char>)
    requires
        layer_part_name(r),
    ensures
        plain(r),
        unlayered(r),
        r[0] == '.',
{
    reveal_strlit(".self_attn.q_proj");
    reveal_strlit(".self_attn.k_proj");
    reveal_strlit(".self_attn.v_proj");
    reveal_strlit(".self_attn.o_proj");
    reveal_strlit(".self_attn.q_norm");
    reveal_strlit(".self_attn.k_norm");
    reveal_strlit(".layer_scalar");
    reveal_strlit(".mlp.gate_proj");
    reveal_strlit(".mlp.up_proj");
    reveal_strlit(".mlp.down_proj");
    reveal_strlit(".input_layernorm");
    reveal_strlit(".post_attention_layernorm");
    reveal_strlit(".pre_feedforward_layernorm");
    reveal_strlit(".post_feedforward_layernorm");
    reveal_strlit(".router.proj");
    reveal_strlit(".router.scale");
    reveal_strlit(".router.per_expert_scale");
    reveal_strlit(".experts.gate_up_proj");
    reveal_strlit(".experts.down_proj");
    reveal_strlit(".experts.switch_glu.gate_proj");
    reveal_strlit(".experts.switch_glu.up_proj");
    reveal_strlit(".experts.switch_glu.down_proj");
    reveal_strlit(".pre_feedforward_layernorm_2");
    reveal_strlit(".post_feedforward_layernorm_1");
    reveal_strlit(".post_feedforward_layernorm_2");
    assert(".self_attn.q_proj"@.len() == 17 && plain_from(".self_attn.q_proj"@, 0) && unlayered_from(".self_attn.q_proj"@, 0)) by {
        reveal_with_fuel(plain_from, 19);
        reveal_with_fuel(unlayered_from, 19);
    }
    assert(".self_attn.k_proj"@.len() == 17 && plain_from(".self_attn.k_proj"@, 0) && unlayered_from(".self_attn.k_proj"@, 0)) by {
        reveal_with_fuel(plain_from, 19);
        reveal_with_fuel(unlayered_from, 19);
    }
    assert(".self_attn.v_proj"@.len() == 17 && plain_from(".self_attn.v_proj"@, 0) && unlayered_from(".self_attn.v_proj"@, 0)) by {
        reveal_with_fuel(plain_from, 19);
        reveal_with_fuel(unlayered_from, 19);
    }
    assert(".self_attn.o_proj"@.len() == 17 && plain_from(".self_attn.o_proj"@, 0) && unlayered_from(".self_attn.o_proj"@, 0)) by {
        reveal_with_fuel(plain_from, 19);
        reveal_with_fuel(unlayered_from, 19);
    }
    assert(".self_attn.q_norm"@.len() == 17 && plain_from(".self_attn.q_norm"@, 0) && unlayered_from(".self_attn.q_norm"@, 0)) by {
        reveal_with_fuel(plain_from, 19);
        reveal_with_fuel(unlayered_from, 19);
    }
    assert(".self_attn.k_norm"@.len() == 17 && plain_from(".self_attn.k_norm"@, 0) && unlayered_from(".self_attn.k_norm"@, 0)) by {
        reveal_with_fuel(plain_from, 19);
        reveal_with_fuel(unlayered_from, 19);
    }
    assert(".layer_scalar"@.len() == 13 && plain_from(".layer_scalar"@, 0) && unlayered_from(".layer_scalar"@, 0)) by {
        reveal_with_fuel(plain_from, 15);
        reveal_with_fuel(unlayered_from, 15);
    }
    assert(".mlp.gate_proj"@.len() == 14 && plain_from(".mlp.gate_proj"@, 0) && unlayered_from(".mlp.gate_proj"@, 0)) by {
        reveal_with_fuel(plain_from, 16);
        reveal_with_fuel(unlayered_from, 16);
    }
    assert(".mlp.up_proj"@.len() == 12 && plain_from(".mlp.up_proj"@, 0) && unlayered_from(".mlp.up_proj"@, 0)) by {
        reveal_with_fuel(plain_from, 14);
        reveal_with_fuel(unlayered_from, 14);
    }
    assert(".mlp.down_proj"@.len() == 14 && plain_from(".mlp.down_proj"@, 0) && unlayered_from(".mlp.down_proj"@, 0)) by {
        reveal_with_fuel(plain_from, 16);
        reveal_with_fuel(unlayered_from, 16);
    }
    assert(".input_layernorm"@.len() == 16 && plain_from(".input_layernorm"@, 0) && unlayered_from(".input_layernorm"@, 0)) by {
        reveal_with_fuel(plain_from, 18);
        reveal_with_fuel(unlayered_from, 18);
    }
    assert(".post_attention_layernorm"@.len() == 25 && plain_from(".post_attention_layernorm"@, 0) && unlayered_from(".post_attention_layernorm"@, 0)) by {
        reveal_with_fuel(plain_from, 27);
        reveal_with_fuel(unlayered_from, 27);
    }
    assert(".pre_feedforward_layernorm"@.len() == 26 && plain_from(".pre_feedforward_layernorm"@, 0) && unlayered_from(".pre_feedforward_layernorm"@, 0)) by {
        reveal_with_fuel(plain_from, 28);
        reveal_with_fuel(unlayered_from, 28);
    }
    assert(".post_feedforward_layernorm"@.len() == 27 && plain_from(".post_feedforward_layernorm"@, 0) && unlayered_from(".post_feedforward_layernorm"@, 0)) by {
        reveal_with_fuel(plain_from, 29);
        reveal_with_fuel(unlayered_from, 29);
    }
    assert(".router.proj"@.len() == 12 && plain_from(".router.proj"@, 0) && unlayered_from(".router.proj"@, 0)) by {
        reveal_with_fuel(plain_from, 14);
        reveal_with_fuel(unlayered_from, 14);
    }
    assert(".router.scale"@.len() == 13 && plain_from(".router.scale"@, 0) && unlayered_from(".router.scale"@, 0)) by {
        reveal_with_fuel(plain_from, 15);
        reveal_with_fuel(unlayered_from, 15);
    }
    assert(".router.per_expert_scale"@.len() == 24 && plain_from(".router.per_expert_scale"@, 0) && unlayered_from(".router.per_expert_scale"@, 0)) by {
        reveal_with_fuel(plain_from, 26);
        reveal_with_fuel(unlayered_from, 26);
    }
    assert(".experts.gate_up_proj"@.len() == 21 && plain_from(".experts.gate_up_proj"@, 0) && unlayered_from(".experts.gate_up_proj"@, 0)) by {
        reveal_with_fuel(plain_from, 23);
        reveal_with_fuel(unlayered_from, 23);
    }
    assert(".experts.down_proj"@.len() == 18 && plain_from(".experts.down_proj"@, 0) && unlayered_from(".experts.down_proj"@, 0)) by {
        reveal_with_fuel(plain_from, 20);
        reveal_with_fuel(unlayered_from, 20);
    }
    assert(".experts.switch_glu.gate_proj"@.len() == 29 && plain_from(".experts.switch_glu.gate_proj"@, 0) && unlayered_from(".experts.switch_glu.gate_proj"@, 0)) by {
        reveal_with_fuel(plain_from, 31);
        reveal_with_fuel(unlayered_from, 31);
    }
    assert(".experts.switch_glu.up_proj"@.len() == 27 && plain_from(".experts.switch_glu.up_proj"@, 0) && unlayered_from(".experts.switch_glu.up_proj"@, 0)) by {
        reveal_with_fuel(plain_from, 29);
        reveal_with_fuel(unlayered_from, 29);
    }
    assert(".experts.switch_glu.down_proj"@.len() == 29 && plain_from(".experts.switch_glu.down_proj"@, 0) && unlayered_from(".experts.switch_glu.down_proj"@, 0)) by {
        reveal_with_fuel(plain_from, 31);
        reveal_with_fuel(unlayered_from, 31);
    }
    assert(".pre_feedforward_layernorm_2"@.len() == 28 && plain_from(".pre_feedforward_layernorm_2"@, 0) && unlayered_from(".pre_feedforward_layernorm_2"@, 0)) by {
        reveal_with_fuel(plain_from, 30);
        reveal_with_fuel(unlayered_from, 30);
    }
    assert(".post_feedforward_layernorm_1"@.len() == 29 && plain_from(".post_feedforward_layernorm_1"@, 0) && unlayered_from(".post_feedforward_layernorm_1"@, 0)) by {
        reveal_with_fuel(plain_from, 31);
        reveal_with_fuel(unlayered_from, 31);
    }
    assert(".post_feedforward_layernorm_2"@.len() == 29 && plain_from(".post_feedforward_layernorm_2"@, 0) && unlayered_from(".post_feedforward_layernorm_2"@, 0)) by {
        reveal_with_fuel(plain_from, 31);
        reveal_with_fuel(unlayered_from, 31);
    }
    lemma_plain(r, 0);
    lemma_unlayered(r, 0);
}

proof fn lemma_layer_ple_names(r: Seq<char>)
    requires
        layer_ple_name(r),
    ensures
        plain(r),
        r[0] == '.',
{
    reveal_strlit(".per_layer_input_gate");
    reveal_strlit(".per_layer_projection");
    reveal_strlit(".post_per_layer_input_norm");
    assert(".per_layer_input_gate"@.len() == 21 && plain_from(".per_layer_input_gate"@, 0)) by {
        reveal_with_fuel(plain_from, 23);
    }
    assert(".per_layer_projection"@.len() == 21 && plain_from(".per_layer_projection"@, 0)) by {
        reveal_with_fuel(plain_from, 23);
    }
    assert(".post_per_layer_input_norm"@.len() == 26 && plain_from(".post_per_layer_input_norm"@, 0)) by {
        reveal_with_fuel(plain_from, 28);
    }
    lemma_plain(r, 0);
}

proof fn lemma_outer_names(r: Seq<char>)
    requires
        outer_part_name(r),
    ensures
        plain(r),
        unlayered(r),
        r[0] == 'e' || r[0] == 'n' || r[0] == 'l',
        r.len() > 0,
{
    reveal_strlit("embed_tokens");
    reveal_strlit("norm");
    reveal_strlit("lm_head");
    assert("embed_tokens"@.len() == 12 && plain_from("embed_tokens"@, 0) && unlayered_from("embed_tokens"@, 0)) by {
        reveal_with_fuel(plain_from, 14);
        reveal_with_fuel(unlayered_from, 14);
    }
    assert("norm"@.len() == 4 && plain_from("norm"@, 0) && unlayered_from("norm"@, 0)) by {
        reveal_with_fuel(plain_from, 6);
        reveal_with_fuel(unlayered_from, 6);
    }
    assert("lm_head"@.len() == 7 && plain_from("lm_head"@, 0) && unlayered_from("lm_head"@, 0)) by {
        reveal_with_fuel(plain_from, 9);
        reveal_with_fuel(unlayered_from, 9);
    }
    lemma_plain(r, 0);
    lemma_unlayered(r, 0);
}

proof fn lemma_outer_ple_names(r: Seq<char>)
    requires
        outer_ple_name(r),
    ensures
        plain(r),
        r[0] == 'e' || r[0] == 'p',
        r.len() > 0,
{
    reveal_strlit("embed_tokens_per_layer");
    reveal_strlit("per_layer_model_projection");
    reveal_strlit("per_layer_projection_norm");
    assert("embed_tokens_per_layer"@.len() == 22 && plain_from("embed_tokens_per_layer"@, 0)) by {
        reveal_with_fuel(plain_from, 24);
    }
    assert("per_layer_model_projection"@.len() == 26 && plain_from("per_layer_model_projection"@, 0)) by {
        reveal_with_fuel(plain_from, 28);
    }
    assert("per_layer_projection_norm"@.len() == 25 && plain_from("per_layer_projection_norm"@, 0)) by {
        reveal_with_fuel(plain_from, 27);
    }
    lemma_plain(r, 0);
}

proof fn lemma_forms(r: Seq<char>)
    requires
        stored_form(r),
    ensures
        plain(r),
        unlayered(r),
        r.len() > 0 ==> r[0] == '.',
{
    reveal_strlit("");
    reveal_strlit(".weight");
    reveal_strlit(".scales");
    reveal_strlit(".biases");
    reveal_strlit(".bias");
    assert(""@.len() == 0 && plain_from(""@, 0) && unlayered_from(""@, 0)) by {
        reveal_with_fuel(plain_from, 2);
        reveal_with_fuel(unlayered_from, 2);
    }
    assert(".weight"@.len() == 7 && plain_from(".weight"@, 0) && unlayered_from(".weight"@, 0)) by {
        reveal_with_fuel(plain_from, 9);
        reveal_with_fuel(unlayered_from, 9);
    }
    assert(".scales"@.len() == 7 && plain_from(".scales"@, 0) && unlayered_from(".scales"@, 0)) by {
        reveal_with_fuel(plain_from, 9);
        reveal_with_fuel(unlayered_from, 9);
    }
    assert(".biases"@.len() == 7 && plain_from(".biases"@, 0) && unlayered_from(".biases"@, 0)) by {
        reveal_with_fuel(plain_from, 9);
        reveal_with_fuel(unlayered_from, 9);
    }
    assert(".bias"@.len() == 5 && plain_from(".bias"@, 0) && unlayered_from(".bias"@, 0)) by {
        reveal_with_fuel(plain_from, 7);
        reveal_with_fuel(unlayered_from, 7);
    }
    lemma_plain(r, 0);
    lemma_unlayered(r, 0);
}

/// The number of a layer.
proof fn lemma_layer_prefix(i: int)
    requires
        0 <= i,
    ensures
        plain("layers."@ + decimal(i)),
        unlayered("layers."@ + decimal(i)),
{
    let a = "layers."@;
    let d = decimal(i);
    reveal_strlit("layers.");
    lemma_decimal_digits(i);
    assert(plain_from(a, 0)) by {
        reveal_with_fuel(plain_from, 9);
    }
    assert(unlayered_from(a, 0)) by {
        reveal_with_fuel(unlayered_from, 9);
    }
    lemma_plain(a, 0);
    lemma_unlayered(a, 0);
    assert forall|j: int| 0 <= j < d.len() implies #[trigger] plain_at(d, j) by {
        assert('0' <= d[j] <= '9');
    }
    assert forall|j: int| 0 <= j < d.len() implies !(#[trigger] layered_at(d, j)) by {
        assert('0' <= d[j] <= '9');
    }
    assert(a.last() == '.');
    lemma_plain_joins(a, d);
    lemma_unlayered_joins(a, d);
}

proof fn lemma_text_tensor_is_kept(
    c: Gemma4Config,
    key: Seq<char>,
    layer: int,
    r: Seq<char>,
    f: Seq<char>,
)
    requires
        text_tensor_name(c, key, layer, r, f),
    ensures
        kept(c, key),
{
    lemma_forms(f);
    if 0 <= layer && key == layer_key(layer, r) + f && (layer_part_name(r) || (layer_ple_name(r)
        && c.per_layer_input_embeds)) {
        lemma_layer_prefix(layer);
        let front = "layers."@ + decimal(layer);
        if layer_part_name(r) {
            lemma_layer_names(r);
            lemma_unlayered_joins(front, r);
            lemma_unlayered_joins(front + r, f);
            lemma_unlayered_is_not_ple(key);
        } else {
            lemma_layer_ple_names(r);
        }
        lemma_plain_joins(front, r);
        lemma_plain_joins(front + r, f);
        lemma_plain_is_not_filtered(key);
        reveal_strlit("layers.");
        assert(key[0] == "layers."@[0]);
        lemma_no_encoder_prefix(key);
    } else {
        if outer_part_name(r) {
            lemma_outer_names(r);
            lemma_unlayered_joins(r, f);
            lemma_unlayered_is_not_ple(key);
        } else {
            lemma_outer_ple_names(r);
        }
        lemma_plain_joins(r, f);
        lemma_plain_is_not_filtered(key);
        lemma_outer_prefix(r, f);
    }
}

proof fn lemma_no_encoder_prefix(key: Seq<char>)
    requires
        key.len() > 0,
        key[0] != 'a',
        key[0] != 'v',
        key[0] != 'm',
        key[0] == 'e' ==> key.len() > 6 && key[6] != 'a' && key[6] != 'v',
    ensures
        !of_audio_encoder(key),
        !of_vision(key),
        !"embed_audio."@.is_prefix_of(key),
{
    reveal_strlit("audio_tower.");
    reveal_strlit("audio_encoder.");
    reveal_strlit("vision_tower.");
    reveal_strlit("vision_encoder.");
    reveal_strlit("vision_embedder.");
    reveal_strlit("multi_modal_projector.");
    reveal_strlit("embed_vision.");
    reveal_strlit("embed_audio.");
    assert("audio_tower."@[0] == 'a' && "audio_encoder."@[0] == 'a');
    assert("vision_tower."@[0] == 'v' && "vision_encoder."@[0] == 'v' && "vision_embedder."@[0]
        == 'v');
    assert("multi_modal_projector."@[0] == 'm');
    assert("embed_vision."@[0] == 'e' && "embed_vision."@[6] == 'v');
    assert("embed_audio."@[0] == 'e' && "embed_audio."@[6] == 'a');
}

proof fn lemma_outer_prefix(r: Seq<char>, f: Seq<char>)
    requires
        outer_part_name(r) || outer_ple_name(r),
    ensures
        !of_audio_encoder(r + f),
        !of_vision(r + f),
        !"embed_audio."@.is_prefix_of(r + f),
{
    reveal_strlit("embed_tokens");
    reveal_strlit("norm");
    reveal_strlit("lm_head");
    reveal_strlit("embed_tokens_per_layer");
    reveal_strlit("per_layer_model_projection");
    reveal_strlit("per_layer_projection_norm");
    assert("embed_tokens"@[0] == 'e' && "embed_tokens"@[6] == 't');
    assert("embed_tokens_per_layer"@[0] == 'e' && "embed_tokens_per_layer"@[6] == 't');
    assert("norm"@[0] == 'n');
    assert("lm_head"@[0] == 'l');
    assert("per_layer_model_projection"@[0] == 'p');
    assert("per_layer_projection_norm"@[0] == 'p');
    assert((r + f)[0] == r[0]);
    if r[0] == 'e' {
        assert((r + f)[6] == r[6]);
    }
    lemma_no_encoder_prefix(r + f);
}

/// Every tensor that the model needs survives, where the checkpoint holds it.
pub proof fn law_needed_tensors_survive(
    c: Gemma4Config,
    s: Seq<(Seq<char>, TensorInfo)>,
    i: int,
    key: Seq<char>,
)
    requires
        c.wf(),
        0 <= i < s.len(),
        clean_key(s[i].0) == key,
        forall|k: int| i < k < s.len() ==> clean_key(#[trigger] s[k].0) != key,
        model_needs(c).contains(Need::Key(key)),
    ensures
        lookup(finished_all(used(c, s)), key) is Some,
        lookup(finished_all(used(c, s)), key)->0.array == s[i].1.array,
{
    lemma_need_is_kept(c, key);
    law_kept_tensor_survives(c, s, i, key);
}

#[verifier::rlimit(40)]
proof fn lemma_need_is_kept(c: Gemma4Config, key: Seq<char>)
    requires
        c.wf(),
        model_needs(c).contains(Need::Key(key)),
    ensures
        kept(c, key),
        c.tie_word_embeddings ==> key != "lm_head.weight"@,
{
    let needs = model_needs(c);
    let k = choose|k: int| 0 <= k < needs.len() && needs[k] == Need::Key(key);
    let layers = layers_need(c, c.layers());
    let tail = needs.skip(2 + layers.len() as int);
    reveal_strlit(".weight");
    reveal_strlit("embed_tokens");
    reveal_strlit("norm");
    reveal_strlit("lm_head");
    reveal_strlit("embed_tokens.weight");
    reveal_strlit("norm.weight");
    reveal_strlit("lm_head.weight");
    reveal_strlit("layers.");
    assert("embed_tokens"@ + ".weight"@ =~= "embed_tokens.weight"@);
    assert("norm"@ + ".weight"@ =~= "norm.weight"@);
    assert("lm_head"@ + ".weight"@ =~= "lm_head.weight"@);
    assert("lm_head.weight"@[1] == 'm');
    assert("embed_tokens.weight"@[0] == 'e');
    assert("norm.weight"@[0] == 'n');
    assert("lm_head.weight"@[0] == 'l');
    if k == 0 {
        lemma_text_tensor_is_kept(c, key, 0, "embed_tokens"@, ".weight"@);
    } else if k == 1 {
        lemma_text_tensor_is_kept(c, key, 0, "norm"@, ".weight"@);
    } else if k < 2 + layers.len() {
        assert(layers[k - 2] == Need::Key(key));
        lemma_layer_need_is_kept(c, c.layers(), key, k - 2);
    } else {
        let at = k - 2 - layers.len();
        let head: int = if c.tie_word_embeddings {
            0
        } else {
            1
        };
        let vision: int = if c.unified_vision_config is Some {
            10
        } else {
            0
        };
        if at < head {
            assert(needs[k] == Need::Key("lm_head.weight"@));
            lemma_text_tensor_is_kept(c, key, 0, "lm_head"@, ".weight"@);
        } else if at < head + vision {
            assert(needs[k] == embedder_needs()[at - head]);
            lemma_embedder_need_is_kept(c, at - head);
        } else {
            assert(needs[k] == Need::Key("embed_audio.embedding_projection.weight"@));
            lemma_audio_need_is_kept(c);
        }
    }
}

proof fn lemma_layer_need_is_kept(c: Gemma4Config, n: int, key: Seq<char>, k: int)
    requires
        0 <= n,
        0 <= k < layers_need(c, n).len(),
        layers_need(c, n)[k] == Need::Key(key),
    ensures
        kept(c, key),
        key != "lm_head.weight"@,
    decreases n,
{
    if n > 0 {
        let front = layers_need(c, n - 1);
        if k < front.len() {
            lemma_layer_need_is_kept(c, n - 1, key, k);
        } else {
            let at = k - front.len();
            let mine = layer_needs(c, n - 1);
            assert(mine[at] == Need::Key(key));
            lemma_one_layer_need(c, n - 1, at, key);
        }
    }
}

proof fn lemma_one_layer_need(c: Gemma4Config, j: int, at: int, key: Seq<char>)
    requires
        0 <= j,
        0 <= at < layer_needs(c, j).len(),
        layer_needs(c, j)[at] == Need::Key(key),
    ensures
        kept(c, key),
        key != "lm_head.weight"@,
{
    reveal_strlit("layers.");
    reveal_strlit("lm_head.weight");
    assert("lm_head.weight"@[1] == 'm');
    lemma_layer_need_names(c, j, at, key);
    let r = choose|r: Seq<char>|
        #![trigger layer_part_name(r)]
        layer_part_name(r) && (key == layer_key(j, r) || key == layer_key(j, r) + ".weight"@);
    assert(key[1] == "layers."@[1]) by {
        assert(layer_key(j, r)[1] == "layers."@[1]);
    }
    if key == layer_key(j, r) {
        assert(layer_key(j, r) + ""@ =~= key) by {
            reveal_strlit("");
        }
        lemma_text_tensor_is_kept(c, key, j, r, ""@);
    } else {
        lemma_text_tensor_is_kept(c, key, j, r, ".weight"@);
    }
}

#[verifier::rlimit(40)]
proof fn lemma_layer_need_names(c: Gemma4Config, j: int, at: int, key: Seq<char>)
    requires
        0 <= j,
        0 <= at < layer_needs(c, j).len(),
        layer_needs(c, j)[at] == Need::Key(key),
    ensures
        exists|r: Seq<char>|
            #![trigger layer_part_name(r)]
            layer_part_name(r) && (key == layer_key(j, r) || key == layer_key(j, r) + ".weight"@),
{
    let needs = layer_needs(c, j);
    lemma_whole_names(j);
    let a: int = if c.attention_k_eq_v && c.global_at(j) {
        3
    } else {
        4
    };
    let b: int = a + 1 + (if c.shared_at(j) {
        0int
    } else {
        1
    });
    if at == 0 {
        assert(layer_part_name(".self_attn.q_proj"@));
    } else if at == 1 {
        assert(layer_part_name(".self_attn.k_proj"@));
    } else if at == 2 {
        assert(layer_part_name(".self_attn.o_proj"@));
    } else if at < a {
        assert(needs[at] == Need::Key(layer_key(j, ".self_attn.v_proj.weight"@)));
        assert(layer_part_name(".self_attn.v_proj"@));
    } else if at == a {
        assert(needs[at] == Need::Key(layer_key(j, ".self_attn.q_norm.weight"@)));
        assert(layer_part_name(".self_attn.q_norm"@));
    } else if at < b {
        assert(needs[at] == Need::Key(layer_key(j, ".self_attn.k_norm.weight"@)));
        assert(layer_part_name(".self_attn.k_norm"@));
    } else if at == b + 0 {
        assert(needs[at] == Need::Key(layer_key(j, ".layer_scalar"@)));
        assert(layer_part_name(".layer_scalar"@));
    } else if at == b + 1 {
        assert(needs[at] == Need::Key(layer_key(j, ".mlp.gate_proj.weight"@)));
        assert(layer_part_name(".mlp.gate_proj"@));
    } else if at == b + 2 {
        assert(needs[at] == Need::Key(layer_key(j, ".mlp.up_proj.weight"@)));
        assert(layer_part_name(".mlp.up_proj"@));
    } else if at == b + 3 {
        assert(needs[at] == Need::Key(layer_key(j, ".mlp.down_proj.weight"@)));
        assert(layer_part_name(".mlp.down_proj"@));
    } else if at == b + 4 {
        assert(needs[at] == Need::Key(layer_key(j, ".input_layernorm.weight"@)));
        assert(layer_part_name(".input_layernorm"@));
    } else if at == b + 5 {
        assert(needs[at] == Need::Key(layer_key(j, ".post_attention_layernorm.weight"@)));
        assert(layer_part_name(".post_attention_layernorm"@));
    } else if at == b + 6 {
        assert(needs[at] == Need::Key(layer_key(j, ".pre_feedforward_layernorm.weight"@)));
        assert(layer_part_name(".pre_feedforward_layernorm"@));
    } else if at == b + 7 {
        assert(needs[at] == Need::Key(layer_key(j, ".post_feedforward_layernorm.weight"@)));
        assert(layer_part_name(".post_feedforward_layernorm"@));
    } else if at == b + 8 {
        assert(needs[at] == Need::Key(layer_key(j, ".router.proj.weight"@)));
        assert(layer_part_name(".router.proj"@));
    } else if at == b + 9 {
        assert(needs[at] == Need::Experts(j));
    } else if at == b + 10 {
        assert(needs[at] == Need::Key(layer_key(j, ".router.scale"@)));
        assert(layer_part_name(".router.scale"@));
    }
}

#[verifier::rlimit(40)]
proof fn lemma_whole_names(j: int)
    ensures
        layer_key(j, ".self_attn.q_proj"@) + ".weight"@ == layer_key(j, ".self_attn.q_proj.weight"@),
        layer_key(j, ".self_attn.k_proj"@) + ".weight"@ == layer_key(j, ".self_attn.k_proj.weight"@),
        layer_key(j, ".self_attn.o_proj"@) + ".weight"@ == layer_key(j, ".self_attn.o_proj.weight"@),
        layer_key(j, ".self_attn.v_proj"@) + ".weight"@ == layer_key(j, ".self_attn.v_proj.weight"@),
        layer_key(j, ".self_attn.q_norm"@) + ".weight"@ == layer_key(j, ".self_attn.q_norm.weight"@),
        layer_key(j, ".self_attn.k_norm"@) + ".weight"@ == layer_key(j, ".self_attn.k_norm.weight"@),
        layer_key(j, ".mlp.gate_proj"@) + ".weight"@ == layer_key(j, ".mlp.gate_proj.weight"@),
        layer_key(j, ".mlp.up_proj"@) + ".weight"@ == layer_key(j, ".mlp.up_proj.weight"@),
        layer_key(j, ".mlp.down_proj"@) + ".weight"@ == layer_key(j, ".mlp.down_proj.weight"@),
        layer_key(j, ".input_layernorm"@) + ".weight"@ == layer_key(j, ".input_layernorm.weight"@),
        layer_key(j, ".post_attention_layernorm"@) + ".weight"@ == layer_key(j, ".post_attention_layernorm.weight"@),
        layer_key(j, ".pre_feedforward_layernorm"@) + ".weight"@ == layer_key(j, ".pre_feedforward_layernorm.weight"@),
        layer_key(j, ".post_feedforward_layernorm"@) + ".weight"@ == layer_key(j, ".post_feedforward_layernorm.weight"@),
        layer_key(j, ".router.proj"@) + ".weight"@ == layer_key(j, ".router.proj.weight"@),
{
    reveal_strlit(".weight");
    reveal_strlit(".self_attn.q_proj");
    reveal_strlit(".self_attn.q_proj.weight");
    assert(".self_attn.q_proj"@ + ".weight"@ =~= ".self_attn.q_proj.weight"@);
    assert(layer_key(j, ".self_attn.q_proj"@) + ".weight"@ =~= layer_key(j, ".self_attn.q_proj.weight"@));
    reveal_strlit(".self_attn.k_proj");
    reveal_strlit(".self_attn.k_proj.weight");
    assert(".self_attn.k_proj"@ + ".weight"@ =~= ".self_attn.k_proj.weight"@);
    assert(layer_key(j, ".self_attn.k_proj"@) + ".weight"@ =~= layer_key(j, ".self_attn.k_proj.weight"@));
    reveal_strlit(".self_attn.o_proj");
    reveal_strlit(".self_attn.o_proj.weight");
    assert(".self_attn.o_proj"@ + ".weight"@ =~= ".self_attn.o_proj.weight"@);
    assert(layer_key(j, ".self_attn.o_proj"@) + ".weight"@ =~= layer_key(j, ".self_attn.o_proj.weight"@));
    reveal_strlit(".self_attn.v_proj");
    reveal_strlit(".self_attn.v_proj.weight");
    assert(".self_attn.v_proj"@ + ".weight"@ =~= ".self_attn.v_proj.weight"@);
    assert(layer_key(j, ".self_attn.v_proj"@) + ".weight"@ =~= layer_key(j, ".self_attn.v_proj.weight"@));
    reveal_strlit(".self_attn.q_norm");
    reveal_strlit(".self_attn.q_norm.weight");
    assert(".self_attn.q_norm"@ + ".weight"@ =~= ".self_attn.q_norm.weight"@);
    assert(layer_key(j, ".self_attn.q_norm"@) + ".weight"@ =~= layer_key(j, ".self_attn.q_norm.weight"@));
    reveal_strlit(".self_attn.k_norm");
    reveal_strlit(".self_attn.k_norm.weight");
    assert(".self_attn.k_norm"@ + ".weight"@ =~= ".self_attn.k_norm.weight"@);
    assert(layer_key(j, ".self_attn.k_norm"@) + ".weight"@ =~= layer_key(j, ".self_attn.k_norm.weight"@));
    reveal_strlit(".mlp.gate_proj");
    reveal_strlit(".mlp.gate_proj.weight");
    assert(".mlp.gate_proj"@ + ".weight"@ =~= ".mlp.gate_proj.weight"@);
    assert(layer_key(j, ".mlp.gate_proj"@) + ".weight"@ =~= layer_key(j, ".mlp.gate_proj.weight"@));
    reveal_strlit(".mlp.up_proj");
    reveal_strlit(".mlp.up_proj.weight");
    assert(".mlp.up_proj"@ + ".weight"@ =~= ".mlp.up_proj.weight"@);
    assert(layer_key(j, ".mlp.up_proj"@) + ".weight"@ =~= layer_key(j, ".mlp.up_proj.weight"@));
    reveal_strlit(".mlp.down_proj");
    reveal_strlit(".mlp.down_proj.weight");
    assert(".mlp.down_proj"@ + ".weight"@ =~= ".mlp.down_proj.weight"@);
    assert(layer_key(j, ".mlp.down_proj"@) + ".weight"@ =~= layer_key(j, ".mlp.down_proj.weight"@));
    reveal_strlit(".input_layernorm");
    reveal_strlit(".input_layernorm.weight");
    assert(".input_layernorm"@ + ".weight"@ =~= ".input_layernorm.weight"@);
    assert(layer_key(j, ".input_layernorm"@) + ".weight"@ =~= layer_key(j, ".input_layernorm.weight"@));
    reveal_strlit(".post_attention_layernorm");
    reveal_strlit(".post_attention_layernorm.weight");
    assert(".post_attention_layernorm"@ + ".weight"@ =~= ".post_attention_layernorm.weight"@);
    assert(layer_key(j, ".post_attention_layernorm"@) + ".weight"@ =~= layer_key(j, ".post_attention_layernorm.weight"@));
    reveal_strlit(".pre_feedforward_layernorm");
    reveal_strlit(".pre_feedforward_layernorm.weight");
    assert(".pre_feedforward_layernorm"@ + ".weight"@ =~= ".pre_feedforward_layernorm.weight"@);
    assert(layer_key(j, ".pre_feedforward_layernorm"@) + ".weight"@ =~= layer_key(j, ".pre_feedforward_layernorm.weight"@));
    reveal_strlit(".post_feedforward_layernorm");
    reveal_strlit(".post_feedforward_layernorm.weight");
    assert(".post_feedforward_layernorm"@ + ".weight"@ =~= ".post_feedforward_layernorm.weight"@);
    assert(layer_key(j, ".post_feedforward_layernorm"@) + ".weight"@ =~= layer_key(j, ".post_feedforward_layernorm.weight"@));
    reveal_strlit(".router.proj");
    reveal_strlit(".router.proj.weight");
    assert(".router.proj"@ + ".weight"@ =~= ".router.proj.weight"@);
    assert(layer_key(j, ".router.proj"@) + ".weight"@ =~= layer_key(j, ".router.proj.weight"@));
}

#[verifier::rlimit(40)]
proof fn lemma_embedder_need_is_kept(c: Gemma4Config, k: int)
    requires
        c.unified_vision_config is Some,
        0 <= k < embedder_needs().len(),
    ensures
        embedder_needs()[k] is Key,
        kept(c, embedder_needs()[k]->Key_0),
        embedder_needs()[k]->Key_0 != "lm_head.weight"@,
{
    let key = embedder_needs()[k]->Key_0;
    reveal_strlit("lm_head.weight");
    reveal_strlit("audio_tower.");
    reveal_strlit("audio_encoder.");
    reveal_strlit("embed_audio.");
    assert("lm_head.weight"@[0] == 'l');
    assert("audio_tower."@[0] == 'a' && "audio_encoder."@[0] == 'a');
    assert("embed_audio."@[0] == 'e' && "embed_audio."@[6] == 'a');
    reveal_strlit("vision_embedder.patch_ln1.weight");
    assert("vision_embedder.patch_ln1.weight"@.len() == 32 && plain_from("vision_embedder.patch_ln1.weight"@, 0) && unlayered_from("vision_embedder.patch_ln1.weight"@, 0)) by {
        reveal_with_fuel(plain_from, 34);
        reveal_with_fuel(unlayered_from, 34);
    }
    reveal_strlit("vision_embedder.patch_ln1.bias");
    assert("vision_embedder.patch_ln1.bias"@.len() == 30 && plain_from("vision_embedder.patch_ln1.bias"@, 0) && unlayered_from("vision_embedder.patch_ln1.bias"@, 0)) by {
        reveal_with_fuel(plain_from, 32);
        reveal_with_fuel(unlayered_from, 32);
    }
    reveal_strlit("vision_embedder.patch_ln2.weight");
    assert("vision_embedder.patch_ln2.weight"@.len() == 32 && plain_from("vision_embedder.patch_ln2.weight"@, 0) && unlayered_from("vision_embedder.patch_ln2.weight"@, 0)) by {
        reveal_with_fuel(plain_from, 34);
        reveal_with_fuel(unlayered_from, 34);
    }
    reveal_strlit("vision_embedder.patch_ln2.bias");
    assert("vision_embedder.patch_ln2.bias"@.len() == 30 && plain_from("vision_embedder.patch_ln2.bias"@, 0) && unlayered_from("vision_embedder.patch_ln2.bias"@, 0)) by {
        reveal_with_fuel(plain_from, 32);
        reveal_with_fuel(unlayered_from, 32);
    }
    reveal_strlit("vision_embedder.pos_norm.weight");
    assert("vision_embedder.pos_norm.weight"@.len() == 31 && plain_from("vision_embedder.pos_norm.weight"@, 0) && unlayered_from("vision_embedder.pos_norm.weight"@, 0)) by {
        reveal_with_fuel(plain_from, 33);
        reveal_with_fuel(unlayered_from, 33);
    }
    reveal_strlit("vision_embedder.pos_norm.bias");
    assert("vision_embedder.pos_norm.bias"@.len() == 29 && plain_from("vision_embedder.pos_norm.bias"@, 0) && unlayered_from("vision_embedder.pos_norm.bias"@, 0)) by {
        reveal_with_fuel(plain_from, 31);
        reveal_with_fuel(unlayered_from, 31);
    }
    reveal_strlit("vision_embedder.patch_dense.weight");
    assert("vision_embedder.patch_dense.weight"@.len() == 34 && plain_from("vision_embedder.patch_dense.weight"@, 0) && unlayered_from("vision_embedder.patch_dense.weight"@, 0)) by {
        reveal_with_fuel(plain_from, 36);
        reveal_with_fuel(unlayered_from, 36);
    }
    reveal_strlit("vision_embedder.patch_dense.bias");
    assert("vision_embedder.patch_dense.bias"@.len() == 32 && plain_from("vision_embedder.patch_dense.bias"@, 0) && unlayered_from("vision_embedder.patch_dense.bias"@, 0)) by {
        reveal_with_fuel(plain_from, 34);
        reveal_with_fuel(unlayered_from, 34);
    }
    reveal_strlit("vision_embedder.pos_embedding");
    assert("vision_embedder.pos_embedding"@.len() == 29 && plain_from("vision_embedder.pos_embedding"@, 0) && unlayered_from("vision_embedder.pos_embedding"@, 0)) by {
        reveal_with_fuel(plain_from, 31);
        reveal_with_fuel(unlayered_from, 31);
    }
    reveal_strlit("embed_vision.embedding_projection.weight");
    assert("embed_vision.embedding_projection.weight"@.len() == 40 && plain_from("embed_vision.embedding_projection.weight"@, 0) && unlayered_from("embed_vision.embedding_projection.weight"@, 0)) by {
        reveal_with_fuel(plain_from, 42);
        reveal_with_fuel(unlayered_from, 42);
    }
    assert("embed_vision.embedding_projection.weight"@[6] == 'v');
    assert(k == 0 || k == 1 || k == 2 || k == 3 || k == 4 || k == 5 || k == 6 || k == 7 || k == 8
        || k == 9);
    lemma_plain(key, 0);
    lemma_unlayered(key, 0);
    lemma_plain_is_not_filtered(key);
    lemma_unlayered_is_not_ple(key);
}

proof fn lemma_audio_need_is_kept(c: Gemma4Config)
    requires
        c.has_audio,
    ensures
        kept(c, "embed_audio.embedding_projection.weight"@),
        "embed_audio.embedding_projection.weight"@ != "lm_head.weight"@,
{
    let key = "embed_audio.embedding_projection.weight"@;
    reveal_strlit("lm_head.weight");
    reveal_strlit("audio_tower.");
    reveal_strlit("audio_encoder.");
    reveal_strlit("vision_tower.");
    reveal_strlit("vision_encoder.");
    reveal_strlit("vision_embedder.");
    reveal_strlit("multi_modal_projector.");
    reveal_strlit("embed_vision.");
    assert("lm_head.weight"@[0] == 'l');
    assert("audio_tower."@[0] == 'a' && "audio_encoder."@[0] == 'a');
    assert("vision_tower."@[0] == 'v' && "vision_encoder."@[0] == 'v' && "vision_embedder."@[0]
        == 'v');
    assert("multi_modal_projector."@[0] == 'm');
    assert("embed_vision."@[6] == 'v');
    reveal_strlit("embed_audio.embedding_projection.weight");
    assert("embed_audio.embedding_projection.weight"@.len() == 39 && plain_from("embed_audio.embedding_projection.weight"@, 0) && unlayered_from("embed_audio.embedding_projection.weight"@, 0)) by {
        reveal_with_fuel(plain_from, 41);
        reveal_with_fuel(unlayered_from, 41);
    }
    lemma_plain(key, 0);
    lemma_unlayered(key, 0);
    lemma_plain_is_not_filtered(key);
    lemma_unlayered_is_not_ple(key);
}

/// A model with vision keeps the tensors of its vision part, and one with audio those
/// of its audio part: of them only rotary tables, clip bounds outside the tower and
/// tensors of an absent per-layer embedding go.
#[verifier::rlimit(40)]
pub proof fn law_media_tensors_survive(
    c: Gemma4Config,
    s: Seq<(Seq<char>, TensorInfo)>,
    i: int,
    key: Seq<char>,
)
    requires
        0 <= i < s.len(),
        clean_key(s[i].0) == key,
        forall|k: int| i < k < s.len() ==> clean_key(#[trigger] s[k].0) != key,
        !occurs_in("self_attn.rotary_emb"@, key),
        !occurs_in("per_layer"@, key),
        ({
            ||| "vision_tower."@.is_prefix_of(key) && (c.vision_config is Some
                || c.unified_vision_config is Some)
            ||| ("vision_embedder."@.is_prefix_of(key) || "embed_vision."@.is_prefix_of(key)) && (
            c.vision_config is Some || c.unified_vision_config is Some) && !occurs_in(
                "put_m"@,
                key,
            )
            ||| "embed_audio."@.is_prefix_of(key) && c.has_audio && !occurs_in("put_m"@, key)
        }),
    ensures
        lookup(finished_all(used(c, s)), key) is Some,
        lookup(finished_all(used(c, s)), key)->0.array == s[i].1.array,
{
    reveal_strlit("audio_tower.");
    reveal_strlit("audio_encoder.");
    reveal_strlit("vision_tower.");
    reveal_strlit("vision_encoder.");
    reveal_strlit("vision_embedder.");
    reveal_strlit("multi_modal_projector.");
    reveal_strlit("embed_vision.");
    reveal_strlit("embed_audio.");
    reveal_strlit("lm_head.weight");
    assert("audio_tower."@[0] == 'a' && "audio_encoder."@[0] == 'a');
    assert("vision_tower."@[0] == 'v' && "vision_encoder."@[0] == 'v' && "vision_embedder."@[0]
        == 'v');
    assert("multi_modal_projector."@[0] == 'm');
    assert("embed_vision."@[0] == 'e' && "embed_vision."@[6] == 'v');
    assert("embed_audio."@[0] == 'e' && "embed_audio."@[6] == 'a');
    assert("lm_head.weight"@[0] == 'l');
    lemma_not_layered_name(key);
    if !"vision_tower."@.is_prefix_of(key) {
        lemma_not_bound_name(key);
    }
    law_kept_tensor_survives(c, s, i, key);
}

/// A text that holds another holds its parts.
proof fn lemma_part_occurs(s: Seq<char>, p: Seq<char>, q: Seq<char>, at: int)
    requires
        occurs_in(p, s),
        0 <= at,
        at + q.len() <= p.len(),
        p.subrange(at, at + q.len()) == q,
    ensures
        occurs_in(q, s),
{
    let j = choose|j: int| occurs_at(p, s, j);
    assert(s.subrange(j + at, j + at + q.len()) =~= s.subrange(j, j + p.len()).subrange(
        at,
        at + q.len(),
    ));
    assert(occurs_at(q, s, j + at));
}

#[verifier::rlimit(40)]
proof fn lemma_not_layered_name(key: Seq<char>)
    requires
        !occurs_in("per_layer"@, key),
    ensures
        !of_ple(key),
{
    let q = "per_layer"@;
    reveal_strlit("per_layer");
    reveal_strlit("embed_tokens_per_layer.");
    assert("embed_tokens_per_layer."@.subrange(13, 22) =~= q);
    if "embed_tokens_per_layer."@.is_prefix_of(key) {
        assert(key.subrange(0, "embed_tokens_per_layer."@.len() as int) =~= "embed_tokens_per_layer."@);
        assert(occurs_at("embed_tokens_per_layer."@, key, 0));
    }
    if occurs_in("embed_tokens_per_layer."@, key) {
        lemma_part_occurs(key, "embed_tokens_per_layer."@, q, 13);
    }
    reveal_strlit("per_layer_model_projection.");
    assert("per_layer_model_projection."@.subrange(0, 9) =~= q);
    if "per_layer_model_projection."@.is_prefix_of(key) {
        assert(key.subrange(0, "per_layer_model_projection."@.len() as int) =~= "per_layer_model_projection."@);
        assert(occurs_at("per_layer_model_projection."@, key, 0));
    }
    if occurs_in("per_layer_model_projection."@, key) {
        lemma_part_occurs(key, "per_layer_model_projection."@, q, 0);
    }
    reveal_strlit("per_layer_projection_norm.");
    assert("per_layer_projection_norm."@.subrange(0, 9) =~= q);
    if "per_layer_projection_norm."@.is_prefix_of(key) {
        assert(key.subrange(0, "per_layer_projection_norm."@.len() as int) =~= "per_layer_projection_norm."@);
        assert(occurs_at("per_layer_projection_norm."@, key, 0));
    }
    if occurs_in("per_layer_projection_norm."@, key) {
        lemma_part_occurs(key, "per_layer_projection_norm."@, q, 0);
    }
    reveal_strlit(".per_layer_input_gate.");
    assert(".per_layer_input_gate."@.subrange(1, 10) =~= q);
    if occurs_in(".per_layer_input_gate."@, key) {
        lemma_part_occurs(key, ".per_layer_input_gate."@, q, 1);
    }
    reveal_strlit(".per_layer_projection.");
    assert(".per_layer_projection."@.subrange(1, 10) =~= q);
    if occurs_in(".per_layer_projection."@, key) {
        lemma_part_occurs(key, ".per_layer_projection."@, q, 1);
    }
    reveal_strlit(".post_per_layer_input_norm.");
    assert(".post_per_layer_input_norm."@.subrange(6, 15) =~= q);
    if occurs_in(".post_per_layer_input_norm."@, key) {
        lemma_part_occurs(key, ".post_per_layer_input_norm."@, q, 6);
    }
}

proof fn lemma_not_bound_name(key: Seq<char>)
    requires
        !occurs_in("put_m"@, key),
    ensures
        !is_clip_bound(key),
{
    let q = "put_m"@;
    reveal_strlit("put_m");
    reveal_strlit("input_max");
    assert("input_max"@.subrange(2, 7) =~= q);
    if occurs_in("input_max"@, key) {
        lemma_part_occurs(key, "input_max"@, q, 2);
    }
    reveal_strlit("input_min");
    assert("input_min"@.subrange(2, 7) =~= q);
    if occurs_in("input_min"@, key) {
        lemma_part_occurs(key, "input_min"@, q, 2);
    }
    reveal_strlit("output_max");
    assert("output_max"@.subrange(3, 8) =~= q);
    if occurs_in("output_max"@, key) {
        lemma_part_occurs(key, "output_max"@, q, 3);
    }
    reveal_strlit("output_min");
    assert("output_min"@.subrange(3, 8) =~= q);
    if occurs_in("output_min"@, key) {
        lemma_part_occurs(key, "output_min"@, q, 3);
    }
}

/// The prefix of the model is taken off a name, in all the forms in which it occurs,
/// and nothing else is changed in the text part.
#[verifier::rlimit(40)]
pub proof fn law_names_are_cleaned(k: Seq<char>)
    requires
        !"model."@.is_prefix_of(k),
        !"language_model."@.is_prefix_of(k),
        !"vision_tower."@.is_prefix_of(k),
        !"embed_vision."@.is_prefix_of(k),
    ensures
        clean_key(k) == k,
        clean_key("model."@ + k) == k,
        clean_key("language_model."@ + k) == k,
        clean_key("language_model.model."@ + k) == k,
        clean_key("model.language_model."@ + k) == k,
        clean_key("model.language_model.model."@ + k) == k,
{
    reveal_strlit("model.");
    reveal_strlit("language_model.");
    reveal_strlit("language_model.model.");
    reveal_strlit("model.language_model.");
    reveal_strlit("model.language_model.model.");
    let m = "model."@;
    let l = "language_model."@;
    let lm = "language_model.model."@;
    let ml = "model.language_model."@;
    let mlm = "model.language_model.model."@;
    assert(lm =~= l + m);
    assert(ml =~= m + l);
    assert(mlm =~= m + l + m);
    assert(m[0] == 'm' && l[0] == 'l');
    lemma_prefix_begins(k, mlm, m);
    lemma_prefix_begins(k, ml, m);
    lemma_prefix_begins(k, lm, l);
    // With one prefix.
    lemma_after_prefix(m, l, k);
    lemma_after_prefix(m, l + m, k);
    lemma_after_prefix(l, m, k);
    lemma_after_prefix(ml, m, k);
    lemma_prefix_begins(k, l + m, l);
    assert((m + k).skip(m.len() as int) =~= k);
    assert((l + k).skip(l.len() as int) =~= k);
    assert((lm + k).skip(lm.len() as int) =~= k);
    assert((ml + k).skip(ml.len() as int) =~= k);
    assert((mlm + k).skip(mlm.len() as int) =~= k);
    assert(mlm.is_prefix_of(mlm + k));
    assert(ml.is_prefix_of(ml + k));
    assert(lm.is_prefix_of(lm + k));
    assert(l.is_prefix_of(l + k));
    assert(m.is_prefix_of(m + k));
    assert(m + (l + m) =~= mlm);
    assert(ml + m =~= mlm);
    lemma_other_first(l + k, m);
    lemma_other_first(l + k, ml);
    lemma_other_first(l + k, mlm);
    lemma_other_first(lm + k, ml);
    lemma_other_first(lm + k, mlm);
    lemma_other_first(m + k, l);
    lemma_other_first(m + k, lm);
    assert(lm.is_prefix_of(l + k) ==> m.is_prefix_of(k));
}

proof fn lemma_other_first(s: Seq<char>, p: Seq<char>)
    requires
        s.len() > 0,
        p.len() > 0,
        s[0] != p[0],
    ensures
        !p.is_prefix_of(s),
{
}

proof fn lemma_prefix_begins(k: Seq<char>, p: Seq<char>, q: Seq<char>)
    requires
        q.is_prefix_of(p),
        !q.is_prefix_of(k),
    ensures
        !p.is_prefix_of(k),
{
    if p.is_prefix_of(k) {
        assert(k.subrange(0, q.len() as int) =~= p.subrange(0, q.len() as int));
    }
}

proof fn lemma_after_prefix(p: Seq<char>, q: Seq<char>, k: Seq<char>)
    ensures
        (p + q).is_prefix_of(p + k) <==> q.is_prefix_of(k),
{
    if (p + q).is_prefix_of(p + k) {
        assert((p + k).subrange(0, (p + q).len() as int) =~= p + q);
        assert(k.subrange(0, q.len() as int) =~= (p + k).subrange(
            p.len() as int,
            (p + q).len() as int,
        ));
        assert((p + q).subrange(p.len() as int, (p + q).len() as int) =~= q);
    }
    if q.is_prefix_of(k) {
        assert((p + k).subrange(0, (p + q).len() as int) =~= p + k.subrange(0, q.len() as int));
    }
}

/// Names of the vision part lose the inner name of a clipped linear.
pub proof fn law_clipped_linears_are_renamed(k: Seq<char>)
    requires
        "vision_tower."@.is_prefix_of(k),
        forall|i: int| 0 <= i < k.len() ==> !occurs_at(".linear.weight"@, k + ".linear.weight"@, i),
    ensures
        clean_key(k + ".linear.weight"@) == k + ".weight"@,
        clean_key("model."@ + (k + ".linear.weight"@)) == k + ".weight"@,
{
    let tower = "vision_tower."@;
    let whole = k + ".linear.weight"@;
    assert(tower.len() == 13 && tower[0] == 'v') by {
        reveal_strlit("vision_tower.");
    }
    assert(".linear.weight"@.len() > 0) by {
        reveal_strlit(".linear.weight");
    }
    assert(k[0] == tower[0]);
    assert(whole[0] == k[0]);
    law_ending_is_replaced(k, ".linear.weight"@, ".weight"@);
    assert(whole.subrange(0, 13) =~= k.subrange(0, 13));
    assert(tower.is_prefix_of(whole));
    lemma_vision_name_is_stripped(whole);
}

#[verifier::rlimit(40)]
proof fn lemma_vision_name_is_stripped(s: Seq<char>)
    requires
        s.len() > 0,
        s[0] == 'v',
    ensures
        stripped(s) == s,
        stripped("model."@ + s) == s,
{
    reveal_strlit("model.");
    reveal_strlit("language_model.");
    reveal_strlit("language_model.model.");
    reveal_strlit("model.language_model.");
    reveal_strlit("model.language_model.model.");
    let m = "model."@;
    let l = "language_model."@;
    let lm = "language_model.model."@;
    let ml = "model.language_model."@;
    let mlm = "model.language_model.model."@;
    assert(m.len() == 6 && m[0] == 'm');
    assert(l[0] == 'l' && lm[0] == 'l');
    assert(ml[0] == 'm' && ml[6] == 'l' && ml.len() == 21);
    assert(mlm[0] == 'm' && mlm[6] == 'l' && mlm.len() == 27);
    lemma_other_first(s, m);
    lemma_other_first(s, l);
    lemma_other_first(s, lm);
    lemma_other_first(s, ml);
    lemma_other_first(s, mlm);
    let long = m + s;
    assert(long[0] == 'm' && long[6] == 'v');
    lemma_other_first(long, l);
    lemma_other_first(long, lm);
    assert(!ml.is_prefix_of(long));
    assert(!mlm.is_prefix_of(long));
    assert(m.is_prefix_of(long));
    assert(long.skip(6) =~= s);
}

} // verus!
