//! The tensors of a checkpoint: how their names are cleaned, which are dropped,
//! which are required, and how split experts are fused.

use vstd::prelude::*;
use vstd::string::*;

use crate::config::Gemma4Config;
use crate::table::cut;
use crate::table::distinct;
use crate::table::law_lookup_cut;
use crate::table::law_lookup_put;
use crate::table::lookup;
use crate::table::put;
use crate::table::Table;
use crate::text::cat;
use crate::text::cat3;
use crate::text::contains;
use crate::text::decimal;
use crate::text::law_ends_of_a_text;
use crate::text::occurs_in;
use crate::text::replace_all;
use crate::text::starts_with;
use crate::text::strip_prefix;
use crate::text::strip_suffix;
use crate::text::substituted;
use crate::text::unsigned_text;

verus! {

/// Element type of a tensor.
#[derive(Debug, Clone, Copy, PartialEq, Eq, Structural)]
pub enum DType {
    Float32,
    Float16,
    BFloat16,
    Int8,
    Int32,
    Uint8,
    Uint32,
}

impl DType {
    /// The elements are floating-point numbers.
    pub open spec fn floating(self) -> bool {
        self is Float32 || self is Float16 || self is BFloat16
    }

    /// Whether the elements are floating-point numbers.
    pub fn is_floating(&self) -> (r: bool)
        ensures
            r == self.floating(),
    {
        match self {
            DType::Float32 | DType::Float16 | DType::BFloat16 => true,
            _ => false,
        }
    }

    /// The name of the type.
    pub open spec fn text(self) -> Seq<char> {
        match self {
            DType::Float32 => "Float32"@,
            DType::Float16 => "Float16"@,
            DType::BFloat16 => "BFloat16"@,
            DType::Int8 => "Int8"@,
            DType::Int32 => "Int32"@,
            DType::Uint8 => "Uint8"@,
            DType::Uint32 => "Uint32"@,
        }
    }

    /// The name of the type.
    pub fn name(&self) -> (r: &'static str)
        ensures
            r@ == self.text(),
    {
        match self {
            DType::Float32 => "Float32",
            DType::Float16 => "Float16",
            DType::BFloat16 => "BFloat16",
            DType::Int8 => "Int8",
            DType::Int32 => "Int32",
            DType::Uint8 => "Uint8",
            DType::Uint32 => "Uint32",
        }
    }
}

/// What is known of a tensor. The tensor runtime holds it under the number
/// `array`.
#[derive(Debug, Clone, Copy, PartialEq, Eq, Structural)]
pub struct TensorInfo {
    pub array: u64,
    pub dtype: DType,
    /// Length of the last dimension; none where there is no dimension.
    pub last_dim: Option<i32>,
    pub nbytes: u64,
}

/// The name of a tensor without the prefix of the model it is a part of.
pub open spec fn stripped(key: Seq<char>) -> Seq<char> {
    if "model.language_model.model."@.is_prefix_of(key) {
        key.skip("model.language_model.model."@.len() as int)
    } else if "model.language_model."@.is_prefix_of(key) {
        key.skip("model.language_model."@.len() as int)
    } else if "language_model.model."@.is_prefix_of(key) {
        key.skip("language_model.model."@.len() as int)
    } else if "language_model."@.is_prefix_of(key) {
        key.skip("language_model."@.len() as int)
    } else if "model."@.is_prefix_of(key) {
        key.skip("model."@.len() as int)
    } else {
        key
    }
}

/// The name under which a tensor is kept: without the model prefix, and without
/// the inner name of a clipped linear of the vision part.
pub open spec fn clean_key(key: Seq<char>) -> Seq<char> {
    let k = stripped(key);
    if "vision_tower."@.is_prefix_of(k) || "embed_vision."@.is_prefix_of(k) {
        substituted(k, ".linear.weight"@, ".weight"@)
    } else {
        k
    }
}

fn cleaned(key: &str) -> (r: String)
    ensures
        r@ == clean_key(key@),
{
    let base: &str = match strip_prefix(key, "model.language_model.model.") {
        Some(rest) => rest,
        None => match strip_prefix(key, "model.language_model.") {
            Some(rest) => rest,
            None => match strip_prefix(key, "language_model.model.") {
                Some(rest) => rest,
                None => match strip_prefix(key, "language_model.") {
                    Some(rest) => rest,
                    None => match strip_prefix(key, "model.") {
                        Some(rest) => rest,
                        None => key,
                    },
                },
            },
        },
    };
    if starts_with(base, "vision_tower.") || starts_with(base, "embed_vision.") {
        replace_all(base, ".linear.weight", ".weight")
    } else {
        String::from_str(base)
    }
}

/// A tensor of an audio encoder.
pub open spec fn of_audio_encoder(k: Seq<char>) -> bool {
    "audio_tower."@.is_prefix_of(k) || "audio_encoder."@.is_prefix_of(k)
}

/// A tensor of the vision part.
pub open spec fn of_vision(k: Seq<char>) -> bool {
    ||| "vision_tower."@.is_prefix_of(k)
    ||| "vision_encoder."@.is_prefix_of(k)
    ||| "vision_embedder."@.is_prefix_of(k)
    ||| "multi_modal_projector."@.is_prefix_of(k)
    ||| "embed_vision."@.is_prefix_of(k)
}

/// A clip bound.
pub open spec fn is_clip_bound(k: Seq<char>) -> bool {
    ||| occurs_in("input_max"@, k)
    ||| occurs_in("input_min"@, k)
    ||| occurs_in("output_max"@, k)
    ||| occurs_in("output_min"@, k)
}

/// A tensor of the per-layer embeddings.
pub open spec fn of_ple(k: Seq<char>) -> bool {
    ||| "embed_tokens_per_layer."@.is_prefix_of(k)
    ||| "per_layer_model_projection."@.is_prefix_of(k)
    ||| "per_layer_projection_norm."@.is_prefix_of(k)
    ||| occurs_in(".per_layer_input_gate."@, k)
    ||| occurs_in(".per_layer_projection."@, k)
    ||| occurs_in(".post_per_layer_input_norm."@, k)
}

/// The model uses a tensor of this name.
pub open spec fn kept(c: Gemma4Config, k: Seq<char>) -> bool {
    &&& !of_audio_encoder(k)
    &&& c.has_audio || !"embed_audio."@.is_prefix_of(k)
    &&& c.vision_config is Some || c.unified_vision_config is Some || !of_vision(k)
    &&& !occurs_in("self_attn.rotary_emb"@, k)
    &&& !is_clip_bound(k) || "vision_tower."@.is_prefix_of(k)
    &&& c.per_layer_input_embeds || !of_ple(k)
}

fn keeps(config: &Gemma4Config, k: &str) -> (r: bool)
    ensures
        r == kept(*config, k@),
{
    if starts_with(k, "audio_tower.") || starts_with(k, "audio_encoder.") {
        return false;
    }
    if !config.has_audio && starts_with(k, "embed_audio.") {
        return false;
    }
    if config.vision_config.is_none() && config.unified_vision_config.is_none() && (starts_with(
        k,
        "vision_tower.",
    ) || starts_with(k, "vision_encoder.") || starts_with(k, "vision_embedder.") || starts_with(
        k,
        "multi_modal_projector.",
    ) || starts_with(k, "embed_vision.")) {
        return false;
    }
    if contains(k, "self_attn.rotary_emb") {
        return false;
    }
    if (contains(k, "input_max") || contains(k, "input_min") || contains(k, "output_max")
        || contains(k, "output_min")) && !starts_with(k, "vision_tower.") {
        return false;
    }
    if !config.per_layer_input_embeds && (starts_with(k, "embed_tokens_per_layer.") || starts_with(
        k,
        "per_layer_model_projection.",
    ) || starts_with(k, "per_layer_projection_norm.") || contains(k, ".per_layer_input_gate.")
        || contains(k, ".per_layer_projection.") || contains(k, ".post_per_layer_input_norm.")) {
        return false;
    }
    true
}

/// The first `n` tensors of a checkpoint under their clean names; of two with
/// one name the later one.
pub open spec fn renamed(c: Gemma4Config, s: Seq<(Seq<char>, TensorInfo)>, n: int) -> Seq<
    (Seq<char>, TensorInfo),
>
    decreases n,
{
    if n <= 0 {
        Seq::empty()
    } else {
        let before = renamed(c, s, n - 1);
        let k = clean_key(s[n - 1].0);
        if kept(c, k) {
            put(before, k, s[n - 1].1)
        } else {
            before
        }
    }
}

/// The tensors of a checkpoint that the model uses. A tied output projection
/// has no table of its own.
pub open spec fn used(c: Gemma4Config, s: Seq<(Seq<char>, TensorInfo)>) -> Seq<
    (Seq<char>, TensorInfo),
> {
    let all = renamed(c, s, s.len() as int);
    if c.tie_word_embeddings {
        cut(all, "lm_head.weight"@)
    } else {
        all
    }
}

/// The scales of a tensor that is stored as int8.
pub open spec fn scales_of_int8(s: Seq<(Seq<char>, TensorInfo)>, k: Seq<char>) -> bool {
    &&& ".scales"@.is_suffix_of(k)
    &&& lookup(s, k.take(k.len() - ".scales"@.len()) + ".weight"@) matches Some(w) && w.dtype is Int8
}

/// A tensor becomes bfloat16: one of float32, but for the vision part and the
/// scales of int8 storage.
pub open spec fn narrowed(s: Seq<(Seq<char>, TensorInfo)>, k: Seq<char>, t: TensorInfo) -> bool {
    &&& t.dtype is Float32
    &&& !"vision_tower."@.is_prefix_of(k)
    &&& !"embed_vision."@.is_prefix_of(k)
    &&& !scales_of_int8(s, k)
}

/// A tensor as the model gets it.
pub open spec fn finished(s: Seq<(Seq<char>, TensorInfo)>, k: Seq<char>, t: TensorInfo) -> TensorInfo {
    if narrowed(s, k, t) {
        TensorInfo { dtype: DType::BFloat16, nbytes: t.nbytes / 2, ..t }
    } else {
        t
    }
}

/// The tensors as the model gets them.
pub open spec fn finished_all(s: Seq<(Seq<char>, TensorInfo)>) -> Seq<(Seq<char>, TensorInfo)> {
    Seq::new(s.len(), |i: int| (s[i].0, finished(s, s[i].0, s[i].1)))
}

/// The arrays that become bfloat16, of the first `n` tensors.
pub open spec fn narrowed_arrays(s: Seq<(Seq<char>, TensorInfo)>, n: int) -> Seq<u64>
    decreases n,
{
    if n <= 0 {
        Seq::empty()
    } else {
        let before = narrowed_arrays(s, n - 1);
        if narrowed(s, s[n - 1].0, s[n - 1].1) {
            before.push(s[n - 1].1.array)
        } else {
            before
        }
    }
}

/// The tensors that a model uses.
#[derive(Debug)]
pub struct SanitizedWeights {
    pub params: Table<TensorInfo>,
    /// Arrays that the tensor runtime converts to bfloat16.
    pub casts: Vec<u64>,
}

/// The tensors of a checkpoint that the model uses, under their clean names.
/// Buffers that a checkpoint stores as float32 become bfloat16, so that no
/// operation has to convert. The checkpoint's table is left empty.
pub fn sanitize_weights(params: &mut Table<TensorInfo>, config: &Gemma4Config) -> (r:
    SanitizedWeights)
    ensures
        final(params).wf(),
        final(params).view() == Seq::<(Seq<char>, TensorInfo)>::empty(),
        r.params.wf(),
        r.params.view() == finished_all(used(*config, old(params).view())),
        r.casts@ == narrowed_arrays(
            used(*config, old(params).view()),
            used(*config, old(params).view()).len() as int,
        ),
{
    let mut out: Table<TensorInfo> = Table::new();
    let ghost s = params.view();
    let mut i: usize = 0;
    while i < params.entries.len()
        invariant
            i <= params.entries@.len(),
            s == params.view(),
            out.wf(),
            out.view() == renamed(*config, s, i as int),
        decreases params.entries@.len() - i,
    {
        let k = cleaned(params.entries[i].0.as_str());
        assert(s[i as int] == (params.entries@[i as int].0@, params.entries@[i as int].1));
        if keeps(config, k.as_str()) {
            out.insert(k, params.entries[i].1);
        }
        i += 1;
    }
    params.entries.clear();
    assert(params.view() =~= Seq::empty());
    if config.tie_word_embeddings {
        out.remove("lm_head.weight");
    }
    let ghost u = used(*config, s);
    assert(out.view() == u);
    let mut casts: Vec<u64> = Vec::new();
    let mut entries: Vec<(String, TensorInfo)> = Vec::new();
    let mut j: usize = 0;
    while j < out.entries.len()
        invariant
            j <= out.entries@.len(),
            out.view() == u,
            casts@ == narrowed_arrays(u, j as int),
            entries@.len() == j,
            forall|k: int|
                0 <= k < j ==> {
                    let e = #[trigger] entries@[k];
                    (e.0@, e.1) == finished_all(u)[k]
                },
        decreases out.entries@.len() - j,
    {
        let key = out.entries[j].0.clone();
        let info: TensorInfo = out.entries[j].1;
        assert(u[j as int] == (key@, info));
        let narrow: bool = info.dtype == DType::Float32 && !starts_with(
            key.as_str(),
            "vision_tower.",
        ) && !starts_with(key.as_str(), "embed_vision.") && !is_int8_scales(&out, key.as_str());
        if narrow {
            casts.push(info.array);
            entries.push(
                (key, TensorInfo { dtype: DType::BFloat16, nbytes: info.nbytes / 2, ..info }),
            );
        } else {
            entries.push((key, info));
        }
        j += 1;
    }
    let result = Table { entries };
    assert(result.view() =~= finished_all(u));
    proof {
        assert(distinct(u));
        assert forall|a: int, b: int| 0 <= a < b < finished_all(u).len() implies (
        #[trigger] finished_all(u)[a]).0 != (#[trigger] finished_all(u)[b]).0 by {
            assert(u[a].0 != u[b].0);
        }
    }
    SanitizedWeights { params: result, casts }
}

fn is_int8_scales(params: &Table<TensorInfo>, key: &str) -> (r: bool)
    ensures
        r == scales_of_int8(params.view(), key@),
{
    match strip_suffix(key, ".scales") {
        None => false,
        Some(prefix) => match params.get(cat(prefix, ".weight").as_str()) {
            Some(w) => w.dtype == DType::Int8,
            None => false,
        },
    }
}

/// What is left of a checkpoint: every tensor has a name that the model uses.
pub proof fn law_sanitized_names_are_used(
    c: Gemma4Config,
    s: Seq<(Seq<char>, TensorInfo)>,
    key: Seq<char>,
)
    requires
        lookup(finished_all(used(c, s)), key) is Some,
    ensures
        kept(c, key),
{
    let u = used(c, s);
    lemma_finished_lookup(u, u.len() as int, key);
    if !kept(c, key) {
        lemma_renamed(c, s, s.len() as int, key);
        if c.tie_word_embeddings {
            law_lookup_cut(renamed(c, s, s.len() as int), "lm_head.weight"@, key);
        }
    }
}

/// What is left of a checkpoint was there: every name is the clean name of one of
/// its tensors.
pub proof fn law_sanitized_names_are_from_the_checkpoint(
    c: Gemma4Config,
    s: Seq<(Seq<char>, TensorInfo)>,
    key: Seq<char>,
)
    requires
        lookup(finished_all(used(c, s)), key) is Some,
    ensures
        exists|i: int| 0 <= i < s.len() && clean_key(#[trigger] s[i].0) == key,
{
    let u = used(c, s);
    let all = renamed(c, s, s.len() as int);
    lemma_finished_lookup(u, u.len() as int, key);
    lemma_renamed(c, s, s.len() as int, key);
    if c.tie_word_embeddings {
        law_lookup_cut(all, "lm_head.weight"@, key);
    }
    lemma_renamed_from(c, s, s.len() as int, key);
}

proof fn lemma_renamed_from(c: Gemma4Config, s: Seq<(Seq<char>, TensorInfo)>, n: int, key: Seq<char>)
    requires
        0 <= n <= s.len(),
        lookup(renamed(c, s, n), key) is Some,
    ensures
        exists|i: int| 0 <= i < n && clean_key(#[trigger] s[i].0) == key,
    decreases n,
{
    if n > 0 {
        let k = clean_key(s[n - 1].0);
        if kept(c, k) {
            law_lookup_put(renamed(c, s, n - 1), k, s[n - 1].1, key);
        }
        if !(kept(c, k) && k == key) {
            lemma_renamed_from(c, s, n - 1, key);
            let i = choose|i: int| 0 <= i < n - 1 && clean_key(#[trigger] s[i].0) == key;
            assert(clean_key(s[i].0) == key);
        }
    }
}

/// Of a text model's checkpoint, no tensor of an image or audio encoder is left.
pub proof fn law_text_model_has_no_encoder_tensors(
    c: Gemma4Config,
    s: Seq<(Seq<char>, TensorInfo)>,
    key: Seq<char>,
)
    requires
        c.vision_config is None,
        c.unified_vision_config is None,
        !c.has_audio,
        lookup(finished_all(used(c, s)), key) is Some,
    ensures
        !"vision_tower."@.is_prefix_of(key),
        !"vision_encoder."@.is_prefix_of(key),
        !"vision_embedder."@.is_prefix_of(key),
        !"multi_modal_projector."@.is_prefix_of(key),
        !"embed_vision."@.is_prefix_of(key),
        !"audio_tower."@.is_prefix_of(key),
        !"audio_encoder."@.is_prefix_of(key),
        !"embed_audio."@.is_prefix_of(key),
{
    law_sanitized_names_are_used(c, s, key);
}

/// A checkpoint with a tied output projection has no table for it.
pub proof fn law_tied_head_is_dropped(c: Gemma4Config, s: Seq<(Seq<char>, TensorInfo)>)
    requires
        c.tie_word_embeddings,
    ensures
        lookup(finished_all(used(c, s)), "lm_head.weight"@) is None,
{
    let u = used(c, s);
    lemma_renamed(c, s, s.len() as int, "lm_head.weight"@);
    law_lookup_cut(renamed(c, s, s.len() as int), "lm_head.weight"@, "lm_head.weight"@);
    lemma_finished_lookup(u, u.len() as int, "lm_head.weight"@);
}

/// Cleaning keeps every tensor but for its element type: float32 becomes bfloat16
/// outside the vision part and the scales of int8 storage, and every other tensor
/// stays as it is.
pub proof fn law_only_float32_is_narrowed(s: Seq<(Seq<char>, TensorInfo)>, i: int)
    requires
        0 <= i < s.len(),
    ensures
        finished_all(s).len() == s.len(),
        finished_all(s)[i].0 == s[i].0,
        finished_all(s)[i].1.array == s[i].1.array,
        finished_all(s)[i].1.dtype == if s[i].1.dtype is Float32 && !"vision_tower."@.is_prefix_of(
            s[i].0,
        ) && !"embed_vision."@.is_prefix_of(s[i].0) && !scales_of_int8(s, s[i].0) {
            DType::BFloat16
        } else {
            s[i].1.dtype
        },
        finished_all(s)[i].1.dtype == s[i].1.dtype ==> finished_all(s)[i] == s[i],
{
}

/// No float32 is left but in the vision part and in scales of int8 storage.
pub proof fn law_no_float32_left(s: Seq<(Seq<char>, TensorInfo)>, i: int)
    requires
        0 <= i < s.len(),
        finished_all(s)[i].1.dtype is Float32,
    ensures
        "vision_tower."@.is_prefix_of(s[i].0) || "embed_vision."@.is_prefix_of(s[i].0)
            || scales_of_int8(s, s[i].0),
{
}

/// Names stay distinct when they are cleaned, and no name that the model does not
/// use is left.
pub proof fn lemma_renamed(c: Gemma4Config, s: Seq<(Seq<char>, TensorInfo)>, n: int, key: Seq<char>)
    requires
        0 <= n <= s.len(),
    ensures
        distinct(renamed(c, s, n)),
        !kept(c, key) ==> lookup(renamed(c, s, n), key) is None,
    decreases n,
{
    if n > 0 {
        lemma_renamed(c, s, n - 1, key);
        let k = clean_key(s[n - 1].0);
        if kept(c, k) {
            lemma_put_distinct(renamed(c, s, n - 1), k, s[n - 1].1);
            law_lookup_put(renamed(c, s, n - 1), k, s[n - 1].1, key);
        }
    }
}

/// Putting a value under a name keeps names distinct.
pub proof fn lemma_put_distinct(s: Seq<(Seq<char>, TensorInfo)>, key: Seq<char>, v: TensorInfo)
    requires
        distinct(s),
    ensures
        distinct(put(s, key, v)),
        forall|i: int|
            0 <= i < put(s, key, v).len() ==> (#[trigger] put(s, key, v)[i]).0 == key || exists|
                j: int,
            |
                0 <= j < s.len() && (#[trigger] s[j]).0 == put(s, key, v)[i].0,
    decreases s.len(),
{
    let out = put(s, key, v);
    if s.len() == 0 {
    } else if s[0].0 == key {
        assert forall|i: int| 0 <= i < out.len() implies (#[trigger] out[i]).0 == s[i].0 by {
            if i > 0 {
                assert(out[i] == s[i]);
            }
        }
        assert forall|i: int, j: int| 0 <= i < j < out.len() implies (#[trigger] out[i]).0 != (
        #[trigger] out[j]).0 by {
            assert(s[i].0 != s[j].0);
        }
    } else {
        let rest = s.skip(1);
        assert forall|i: int, j: int| 0 <= i < j < rest.len() implies (#[trigger] rest[i]).0 != (
        #[trigger] rest[j]).0 by {
            assert(s[i + 1].0 != s[j + 1].0);
        }
        lemma_put_distinct(rest, key, v);
        let tail = put(rest, key, v);
        assert forall|i: int| 0 <= i < out.len() implies (#[trigger] out[i]).0 == key || exists|
            j: int,
        |
            0 <= j < s.len() && (#[trigger] s[j]).0 == out[i].0 by {
            if i == 0 {
                assert(s[0].0 == out[0].0);
            } else {
                assert(out[i] == tail[i - 1]);
                if tail[i - 1].0 != key {
                    let j = choose|j: int| 0 <= j < rest.len() && (#[trigger] rest[j]).0 == tail[i
                        - 1].0;
                    assert(s[j + 1].0 == out[i].0);
                }
            }
        }
        assert forall|i: int, j: int| 0 <= i < j < out.len() implies (#[trigger] out[i]).0 != (
        #[trigger] out[j]).0 by {
            assert(out[j] == tail[j - 1]);
            if i > 0 {
                assert(out[i] == tail[i - 1]);
            } else if tail[j - 1].0 != key {
                let m = choose|m: int| 0 <= m < rest.len() && (#[trigger] rest[m]).0 == tail[j
                    - 1].0;
                assert(s[0].0 != s[m + 1].0);
            }
        }
    }
}

proof fn lemma_finished_lookup(u: Seq<(Seq<char>, TensorInfo)>, n: int, key: Seq<char>)
    requires
        0 <= n <= u.len(),
    ensures
        lookup(finished_all(u).skip(u.len() - n), key) is Some <==> lookup(
            u.skip(u.len() - n),
            key,
        ) is Some,
        n == u.len() ==> (lookup(finished_all(u), key) is Some <==> lookup(u, key) is Some),
    decreases n,
{
    let f = finished_all(u);
    let at = u.len() - n;
    if n > 0 {
        lemma_finished_lookup(u, n - 1, key);
        assert(f.skip(at).skip(1) =~= f.skip(at + 1));
        assert(u.skip(at).skip(1) =~= u.skip(at + 1));
    }
    if n == u.len() {
        assert(f.skip(0) =~= f);
        assert(u.skip(0) =~= u);
    }
}

/// The name of a tensor of layer `i`.
pub open spec fn layer_key(i: int, rest: Seq<char>) -> Seq<char> {
    "layers."@ + decimal(i) + rest
}

/// The name of a tensor of layer `i`.
pub fn layer_name(i: usize, rest: &str) -> (r: String)
    ensures
        r@ == layer_key(i as int, rest@),
{
    cat3("layers.", unsigned_text(i as u64).as_str(), rest)
}

/// What a model cannot do without.
#[derive(Debug)]
pub enum Requirement {
    /// A tensor.
    Key(String),
    /// The experts of a layer, fused or split.
    Experts(usize),
}

/// What a model cannot do without.
#[verifier::ext_equal]
pub ghost enum Need {
    Key(Seq<char>),
    Experts(int),
}

impl Requirement {
    /// What is asked for.
    pub open spec fn need(self) -> Need {
        match self {
            Requirement::Key(k) => Need::Key(k@),
            Requirement::Experts(i) => Need::Experts(i as int),
        }
    }
}

/// What is asked for.
pub open spec fn needs(v: Seq<Requirement>) -> Seq<Need> {
    Seq::new(v.len(), |i: int| v[i].need())
}

/// What the attention and feed-forward parts of layer `i` need.
pub open spec fn layer_needs(c: Gemma4Config, i: int) -> Seq<Need> {
    seq![
        Need::Key(layer_key(i, ".self_attn.q_proj.weight"@)),
        Need::Key(layer_key(i, ".self_attn.k_proj.weight"@)),
        Need::Key(layer_key(i, ".self_attn.o_proj.weight"@)),
    ] + (if c.attention_k_eq_v && c.global_at(i) {
        Seq::empty()
    } else {
        seq![Need::Key(layer_key(i, ".self_attn.v_proj.weight"@))]
    }) + seq![Need::Key(layer_key(i, ".self_attn.q_norm.weight"@))] + (if c.shared_at(i) {
        Seq::empty()
    } else {
        seq![Need::Key(layer_key(i, ".self_attn.k_norm.weight"@))]
    }) + seq![
        Need::Key(layer_key(i, ".layer_scalar"@)),
        Need::Key(layer_key(i, ".mlp.gate_proj.weight"@)),
        Need::Key(layer_key(i, ".mlp.up_proj.weight"@)),
        Need::Key(layer_key(i, ".mlp.down_proj.weight"@)),
        Need::Key(layer_key(i, ".input_layernorm.weight"@)),
        Need::Key(layer_key(i, ".post_attention_layernorm.weight"@)),
        Need::Key(layer_key(i, ".pre_feedforward_layernorm.weight"@)),
        Need::Key(layer_key(i, ".post_feedforward_layernorm.weight"@)),
    ] + (if c.enable_moe_block {
        seq![
            Need::Key(layer_key(i, ".router.proj.weight"@)),
            Need::Experts(i),
            Need::Key(layer_key(i, ".router.scale"@)),
        ]
    } else {
        Seq::empty()
    })
}

/// What the first `n` layers need.
pub open spec fn layers_need(c: Gemma4Config, n: int) -> Seq<Need>
    decreases n,
{
    if n <= 0 {
        Seq::empty()
    } else {
        layers_need(c, n - 1) + layer_needs(c, n - 1)
    }
}

/// What the encoder-free vision embedder needs.
pub open spec fn embedder_needs() -> Seq<Need> {
    seq![
        Need::Key("vision_embedder.patch_ln1.weight"@),
        Need::Key("vision_embedder.patch_ln1.bias"@),
        Need::Key("vision_embedder.patch_ln2.weight"@),
        Need::Key("vision_embedder.patch_ln2.bias"@),
        Need::Key("vision_embedder.pos_norm.weight"@),
        Need::Key("vision_embedder.pos_norm.bias"@),
        Need::Key("vision_embedder.patch_dense.weight"@),
        Need::Key("vision_embedder.patch_dense.bias"@),
        Need::Key("vision_embedder.pos_embedding"@),
        Need::Key("embed_vision.embedding_projection.weight"@),
    ]
}

/// What a model needs, in the order in which it is looked for.
pub open spec fn model_needs(c: Gemma4Config) -> Seq<Need> {
    seq![Need::Key("embed_tokens.weight"@), Need::Key("norm.weight"@)] + layers_need(
        c,
        c.layers(),
    ) + (if c.tie_word_embeddings {
        Seq::empty()
    } else {
        seq![Need::Key("lm_head.weight"@)]
    }) + (if c.unified_vision_config is Some {
        embedder_needs()
    } else {
        Seq::empty()
    }) + (if c.has_audio {
        seq![Need::Key("embed_audio.embedding_projection.weight"@)]
    } else {
        Seq::empty()
    })
}

/// A tensor is there.
pub open spec fn there(s: Seq<(Seq<char>, TensorInfo)>, key: Seq<char>) -> bool {
    lookup(s, key) is Some
}

/// A need is met. Experts are fused, with or without a suffix, or split.
pub open spec fn met(s: Seq<(Seq<char>, TensorInfo)>, n: Need) -> bool {
    match n {
        Need::Key(k) => there(s, k),
        Need::Experts(i) => {
            ||| there(s, layer_key(i, ".experts.gate_up_proj"@)) && there(
                s,
                layer_key(i, ".experts.down_proj"@),
            )
            ||| there(s, layer_key(i, ".experts.gate_up_proj.weight"@)) && there(
                s,
                layer_key(i, ".experts.down_proj.weight"@),
            )
            ||| there(s, layer_key(i, ".experts.switch_glu.gate_proj.weight"@)) && there(
                s,
                layer_key(i, ".experts.switch_glu.up_proj.weight"@),
            ) && there(s, layer_key(i, ".experts.switch_glu.down_proj.weight"@))
        },
    }
}

fn push_key(out: &mut Vec<Requirement>, key: String)
    ensures
        needs(final(out)@) == needs(old(out)@).push(Need::Key(key@)),
{
    let ghost before = out@;
    out.push(Requirement::Key(key));
    assert(needs(out@) =~= needs(before).push(Need::Key(key@)));
}

fn layer_requirements(config: &Gemma4Config, i: usize) -> (r: Vec<Requirement>)
    ensures
        needs(r@) == layer_needs(*config, i as int),
{
    let mut out: Vec<Requirement> = Vec::new();
    push_key(&mut out, layer_name(i, ".self_attn.q_proj.weight"));
    push_key(&mut out, layer_name(i, ".self_attn.k_proj.weight"));
    push_key(&mut out, layer_name(i, ".self_attn.o_proj.weight"));
    let one_kv: bool = config.attention_k_eq_v && config.is_global_layer(i);
    if !one_kv {
        push_key(&mut out, layer_name(i, ".self_attn.v_proj.weight"));
    }
    push_key(&mut out, layer_name(i, ".self_attn.q_norm.weight"));
    if !config.is_kv_shared_layer(i) {
        push_key(&mut out, layer_name(i, ".self_attn.k_norm.weight"));
    }
    push_key(&mut out, layer_name(i, ".layer_scalar"));
    push_key(&mut out, layer_name(i, ".mlp.gate_proj.weight"));
    push_key(&mut out, layer_name(i, ".mlp.up_proj.weight"));
    push_key(&mut out, layer_name(i, ".mlp.down_proj.weight"));
    push_key(&mut out, layer_name(i, ".input_layernorm.weight"));
    push_key(&mut out, layer_name(i, ".post_attention_layernorm.weight"));
    push_key(&mut out, layer_name(i, ".pre_feedforward_layernorm.weight"));
    push_key(&mut out, layer_name(i, ".post_feedforward_layernorm.weight"));
    if config.enable_moe_block {
        push_key(&mut out, layer_name(i, ".router.proj.weight"));
        let ghost before = out@;
        out.push(Requirement::Experts(i));
        assert(needs(out@) =~= needs(before).push(Need::Experts(i as int)));
        push_key(&mut out, layer_name(i, ".router.scale"));
    }
    assert(needs(out@) =~= layer_needs(*config, i as int));
    out
}

fn append_requirements(out: &mut Vec<Requirement>, more: Vec<Requirement>)
    ensures
        needs(final(out)@) == needs(old(out)@) + needs(more@),
{
    let ghost before = out@;
    let mut more = more;
    let ghost added = more@;
    out.append(&mut more);
    assert(needs(out@) =~= needs(before) + needs(added));
}

fn embedder_requirements() -> (r: Vec<Requirement>)
    ensures
        needs(r@) == embedder_needs(),
{
    let mut out: Vec<Requirement> = Vec::new();
    push_key(&mut out, String::from_str("vision_embedder.patch_ln1.weight"));
    push_key(&mut out, String::from_str("vision_embedder.patch_ln1.bias"));
    push_key(&mut out, String::from_str("vision_embedder.patch_ln2.weight"));
    push_key(&mut out, String::from_str("vision_embedder.patch_ln2.bias"));
    push_key(&mut out, String::from_str("vision_embedder.pos_norm.weight"));
    push_key(&mut out, String::from_str("vision_embedder.pos_norm.bias"));
    push_key(&mut out, String::from_str("vision_embedder.patch_dense.weight"));
    push_key(&mut out, String::from_str("vision_embedder.patch_dense.bias"));
    push_key(&mut out, String::from_str("vision_embedder.pos_embedding"));
    push_key(&mut out, String::from_str("embed_vision.embedding_projection.weight"));
    assert(needs(out@) =~= embedder_needs());
    out
}

/// What a model needs, in the order in which it is looked for.
pub fn required_weights(config: &Gemma4Config) -> (r: Vec<Requirement>)
    requires
        config.wf(),
    ensures
        needs(r@) == model_needs(*config),
{
    let mut out: Vec<Requirement> = Vec::new();
    push_key(&mut out, String::from_str("embed_tokens.weight"));
    push_key(&mut out, String::from_str("norm.weight"));
    let n: usize = config.num_hidden_layers as usize;
    let ghost head = needs(out@);
    let mut i: usize = 0;
    assert(head =~= seq![Need::Key("embed_tokens.weight"@), Need::Key("norm.weight"@)]);
    assert(head + layers_need(*config, 0) =~= head);
    while i < n
        invariant
            n == config.layers(),
            i <= n,
            needs(out@) == head + layers_need(*config, i as int),
        decreases n - i,
    {
        let layer = layer_requirements(config, i);
        append_requirements(&mut out, layer);
        assert(needs(out@) =~= head + layers_need(*config, i + 1));
        i += 1;
    }
    if !config.tie_word_embeddings {
        push_key(&mut out, String::from_str("lm_head.weight"));
    }
    if config.unified_vision_config.is_some() {
        append_requirements(&mut out, embedder_requirements());
    }
    if config.has_audio {
        push_key(&mut out, String::from_str("embed_audio.embedding_projection.weight"));
    }
    assert(needs(out@) =~= model_needs(*config));
    out
}

fn is_met(params: &Table<TensorInfo>, r: &Requirement) -> (ok: bool)
    ensures
        ok == met(params.view(), r.need()),
{
    match r {
        Requirement::Key(k) => params.contains_key(k.as_str()),
        Requirement::Experts(i) => {
            let i: usize = *i;
            let bare: bool = params.contains_key(layer_name(i, ".experts.gate_up_proj").as_str())
                && params.contains_key(layer_name(i, ".experts.down_proj").as_str());
            let fused: bool = params.contains_key(
                layer_name(i, ".experts.gate_up_proj.weight").as_str(),
            ) && params.contains_key(layer_name(i, ".experts.down_proj.weight").as_str());
            let split: bool = params.contains_key(
                layer_name(i, ".experts.switch_glu.gate_proj.weight").as_str(),
            ) && params.contains_key(
                layer_name(i, ".experts.switch_glu.up_proj.weight").as_str(),
            ) && params.contains_key(
                layer_name(i, ".experts.switch_glu.down_proj.weight").as_str(),
            );
            bare || fused || split
        },
    }
}

/// The first need that is not met.
pub open spec fn first_unmet(s: Seq<(Seq<char>, TensorInfo)>, n: Seq<Need>) -> Option<Need>
    decreases n.len(),
{
    if n.len() == 0 {
        None
    } else if !met(s, n[0]) {
        Some(n[0])
    } else {
        first_unmet(s, n.skip(1))
    }
}

/// Accepts a checkpoint that holds everything the model needs; else tells the
/// first thing that is missing. A tensor that is stored in a quantized form has
/// its values under the same name, so scales alone do not stand for it.
pub fn validate_required_weights(params: &Table<TensorInfo>, config: &Gemma4Config) -> (r: Result<
    (),
    Requirement,
>)
    requires
        config.wf(),
    ensures
        match first_unmet(params.view(), model_needs(*config)) {
            None => r is Ok,
            Some(n) => r matches Err(e) && e.need() == n,
        },
{
    let required = required_weights(config);
    let ghost all = needs(required@);
    let mut i: usize = 0;
    assert(all.skip(0) =~= all);
    while i < required.len()
        invariant
            i <= required@.len(),
            all == needs(required@),
            first_unmet(params.view(), all.skip(i as int)) == first_unmet(params.view(), all),
            all == model_needs(*config),
        decreases required@.len() - i,
    {
        assert(all.skip(i as int)[0] == required@[i as int].need());
        if !is_met(params, &required[i]) {
            return Err(copy_requirement(&required[i]));
        }
        assert(all.skip(i as int).skip(1) =~= all.skip(i + 1));
        i += 1;
    }
    Ok(())
}

fn copy_requirement(r: &Requirement) -> (c: Requirement)
    ensures
        c.need() == r.need(),
{
    match r {
        Requirement::Key(k) => Requirement::Key(k.clone()),
        Requirement::Experts(i) => Requirement::Experts(*i),
    }
}

impl Requirement {
    /// The message shown where it is missing.
    pub open spec fn text(self) -> Seq<char> {
        match self {
            Requirement::Key(k) => "Missing required weight: "@ + k@,
            Requirement::Experts(i) => "Missing MoE expert weights for layer "@ + decimal(i as int)
                + " (expected fused gate_up_proj+down_proj or split switch_glu.{gate,up,down}_proj.weight)"@,
        }
    }

    /// The message shown where it is missing.
    pub fn message(&self) -> (r: String)
        ensures
            r@ == self.text(),
    {
        match self {
            Requirement::Key(k) => cat("Missing required weight: ", k.as_str()),
            Requirement::Experts(i) => cat3(
                "Missing MoE expert weights for layer ",
                unsigned_text(*i as u64).as_str(),
                " (expected fused gate_up_proj+down_proj or split switch_glu.{gate,up,down}_proj.weight)",
            ),
        }
    }
}

/// A checkpoint is accepted exactly where every need is met.
pub proof fn law_validated_means_all_met(s: Seq<(Seq<char>, TensorInfo)>, n: Seq<Need>)
    ensures
        first_unmet(s, n) is None <==> (forall|i: int| 0 <= i < n.len() ==> met(s, #[trigger] n[i])),
    decreases n.len(),
{
    if n.len() > 0 {
        let rest = n.skip(1);
        law_validated_means_all_met(s, rest);
        if first_unmet(s, n) is None {
            assert forall|i: int| 0 <= i < n.len() implies met(s, #[trigger] n[i]) by {
                if i > 0 {
                    assert(rest[i - 1] == n[i]);
                }
            }
        } else if met(s, n[0]) {
            let j = choose|j: int| 0 <= j < rest.len() && !met(s, #[trigger] rest[j]);
            assert(n[j + 1] == rest[j]);
        }
    }
}

/// Scales do not stand for a tensor: a checkpoint without a required tensor is
/// refused whatever else it holds.
pub proof fn law_missing_tensor_is_refused(
    s: Seq<(Seq<char>, TensorInfo)>,
    n: Seq<Need>,
    i: int,
    key: Seq<char>,
)
    requires
        0 <= i < n.len(),
        n[i] == Need::Key(key),
        !there(s, key),
    ensures
        first_unmet(s, n) is Some,
{
    law_validated_means_all_met(s, n);
    assert(!met(s, n[i]));
}

/// Of a tensor whose element type is narrowed half of the bytes are left, and its array
/// is among those that are converted; no other array is.
pub proof fn law_narrowed_tensors_are_converted(s: Seq<(Seq<char>, TensorInfo)>, i: int)
    requires
        0 <= i < s.len(),
    ensures
        s[i].1.dtype is Float32 && finished_all(s)[i].1.dtype is BFloat16 ==> finished_all(
            s,
        )[i].1.nbytes == s[i].1.nbytes / 2 && narrowed_arrays(s, s.len() as int).contains(
            s[i].1.array,
        ),
        forall|x: u64|
            #[trigger] narrowed_arrays(s, s.len() as int).contains(x) ==> exists|k: int|
                0 <= k < s.len() && (#[trigger] s[k]).1.array == x && s[k].1.dtype is Float32
                    && finished_all(s)[k].1.dtype is BFloat16,
{
    lemma_narrowed(s, s.len() as int, i);
}

proof fn lemma_narrowed(s: Seq<(Seq<char>, TensorInfo)>, n: int, i: int)
    requires
        0 <= n <= s.len(),
        0 <= i < s.len(),
    ensures
        i < n && narrowed(s, s[i].0, s[i].1) ==> narrowed_arrays(s, n).contains(s[i].1.array),
        forall|x: u64|
            #[trigger] narrowed_arrays(s, n).contains(x) ==> exists|k: int|
                0 <= k < s.len() && (#[trigger] s[k]).1.array == x && s[k].1.dtype is Float32
                    && finished_all(s)[k].1.dtype is BFloat16,
    decreases n,
{
    if n > 0 {
        lemma_narrowed(s, n - 1, i);
        let before = narrowed_arrays(s, n - 1);
        let all = narrowed_arrays(s, n);
        if narrowed(s, s[n - 1].0, s[n - 1].1) {
            assert(all[before.len() as int] == s[n - 1].1.array);
            if i < n - 1 && narrowed(s, s[i].0, s[i].1) {
                let k = choose|k: int| 0 <= k < before.len() && before[k] == s[i].1.array;
                assert(all[k] == s[i].1.array);
            }
            assert forall|x: u64| #[trigger] all.contains(x) implies exists|k: int|
                0 <= k < s.len() && (#[trigger] s[k]).1.array == x && s[k].1.dtype is Float32
                    && finished_all(s)[k].1.dtype is BFloat16 by {
                let m = choose|m: int| 0 <= m < all.len() && all[m] == x;
                if m < before.len() {
                    assert(before[m] == x);
                    assert(before.contains(x));
                } else {
                    assert(s[n - 1].1.array == x);
                    assert(finished_all(s)[n - 1].1.dtype is BFloat16);
                }
            }
        }
    }
}

/// What is told is the first need that is not met, in the order of the needs.
pub proof fn law_first_missing_thing_is_told(
    s: Seq<(Seq<char>, TensorInfo)>,
    n: Seq<Need>,
    k: int,
)
    requires
        0 <= k < n.len(),
        !met(s, n[k]),
        forall|j: int| 0 <= j < k ==> met(s, #[trigger] n[j]),
    ensures
        first_unmet(s, n) == Some(n[k]),
    decreases n.len(),
{
    if k > 0 {
        assert(met(s, n[0]));
        let rest = n.skip(1);
        assert(rest[k - 1] == n[k]);
        assert forall|j: int| 0 <= j < k - 1 implies met(s, #[trigger] rest[j]) by {
            assert(rest[j] == n[j + 1]);
        }
        law_first_missing_thing_is_told(s, rest, k - 1);
    }
}

/// Experts are there where both stacks are, with a suffix or without, or all three split
/// parts; a stack without the other is not enough.
pub proof fn law_experts_that_are_there(s: Seq<(Seq<char>, TensorInfo)>, i: int)
    ensures
        there(s, layer_key(i, ".experts.gate_up_proj"@)) && there(
            s,
            layer_key(i, ".experts.down_proj"@),
        ) ==> met(s, Need::Experts(i)),
        there(s, layer_key(i, ".experts.gate_up_proj.weight"@)) && there(
            s,
            layer_key(i, ".experts.down_proj.weight"@),
        ) ==> met(s, Need::Experts(i)),
        there(s, layer_key(i, ".experts.switch_glu.gate_proj.weight"@)) && there(
            s,
            layer_key(i, ".experts.switch_glu.up_proj.weight"@),
        ) && there(s, layer_key(i, ".experts.switch_glu.down_proj.weight"@)) ==> met(
            s,
            Need::Experts(i),
        ),
        !there(s, layer_key(i, ".experts.down_proj"@)) && !there(
            s,
            layer_key(i, ".experts.down_proj.weight"@),
        ) && !there(s, layer_key(i, ".experts.switch_glu.down_proj.weight"@)) ==> !met(
            s,
            Need::Experts(i),
        ),
        !there(s, layer_key(i, ".experts.gate_up_proj"@)) && !there(
            s,
            layer_key(i, ".experts.gate_up_proj.weight"@),
        ) && (!there(s, layer_key(i, ".experts.switch_glu.gate_proj.weight"@)) || !there(
            s,
            layer_key(i, ".experts.switch_glu.up_proj.weight"@),
        )) ==> !met(s, Need::Experts(i)),
        there(s, layer_key(i, ".layer_scalar"@)) == met(
            s,
            Need::Key(layer_key(i, ".layer_scalar"@)),
        ),
{
}

/// Floating point is float32, float16 and bfloat16, and nothing else.
pub proof fn law_floating_types(d: DType)
    ensures
        d is Float32 || d is Float16 || d is BFloat16 ==> d.floating(),
        d is Int8 || d is Int32 || d is Uint8 || d is Uint32 ==> !d.floating(),
{
}

/// A message about a missing tensor names it, and one about missing experts their layer.
pub proof fn law_messages_about_missing_things(k: String, i: usize)
    ensures
        "Missing required weight: "@.is_prefix_of(Requirement::Key(k).text()),
        k@.is_suffix_of(Requirement::Key(k).text()),
        ("Missing MoE expert weights for layer "@ + decimal(i as int)).is_prefix_of(
            Requirement::Experts(i).text(),
        ),
        " (expected fused gate_up_proj+down_proj or split switch_glu.{gate,up,down}_proj.weight)"@.is_suffix_of(
            Requirement::Experts(i).text(),
        ),
{
    let none = Seq::<char>::empty();
    law_ends_of_a_text("Missing required weight: "@, none, k@);
    assert("Missing required weight: "@ + none =~= "Missing required weight: "@);
    law_ends_of_a_text(
        "Missing MoE expert weights for layer "@,
        decimal(i as int),
        " (expected fused gate_up_proj+down_proj or split switch_glu.{gate,up,down}_proj.weight)"@,
    );
}

/// The names of the types say what they are and how wide they are.
pub proof fn law_names_of_types()
    ensures
        forall|a: DType, b: DType| #![trigger a.text(), b.text()] a.text() == b.text() ==> a == b,
        forall|a: DType|
            #![trigger a.text()]
            a.floating() <==> "Float"@.is_prefix_of(a.text()) || "BFloat"@.is_prefix_of(a.text()),
        DType::Float32.text() == "Float32"@,
        DType::Float16.text() == "Float16"@,
        DType::BFloat16.text() == "BFloat16"@,
        DType::Int8.text() == "Int8"@,
        DType::Int32.text() == "Int32"@,
        DType::Uint8.text() == "Uint8"@,
        DType::Uint32.text() == "Uint32"@,
{
    reveal_strlit("Float");
    reveal_strlit("BFloat");
    reveal_strlit("Float32");
    reveal_strlit("Float16");
    reveal_strlit("BFloat16");
    reveal_strlit("Int8");
    reveal_strlit("Int32");
    reveal_strlit("Uint8");
    reveal_strlit("Uint32");
    assert("Float32"@.subrange(0, 5) =~= "Float"@);
    assert("Float16"@.subrange(0, 5) =~= "Float"@);
    assert("BFloat16"@.subrange(0, 6) =~= "BFloat"@);
    assert("Float32"@[5] == '3' && "Float16"@[5] == '1');
    assert("Int8"@.len() == 4 && "Int32"@.len() == 5 && "Uint8"@.len() == 5 && "Uint32"@.len() == 6);
    assert("Int8"@[0] == 'I' && "Int32"@[0] == 'I' && "Uint8"@[0] == 'U' && "Uint32"@[0] == 'U');
    assert("Float"@[0] == 'F' && "BFloat"@[0] == 'B');
    assert forall|a: DType|
        #![trigger a.text()]
        a.floating() <==> "Float"@.is_prefix_of(a.text()) || "BFloat"@.is_prefix_of(a.text()) by {
        if "Float"@.is_prefix_of(a.text()) {
            assert(a.text()[0] == a.text().subrange(0, 5)[0]);
        }
        if "BFloat"@.is_prefix_of(a.text()) {
            assert(a.text()[0] == a.text().subrange(0, 6)[0]);
        }
    }
}

} // verus!
