//! The model configuration: its fields, what they say of each layer, and how
//! they are read from `config.json`.

use vstd::prelude::*;
use vstd::string::*;

use crate::json::get_in;
use crate::json::opt_content;
use crate::json::Json;
use crate::json::JsonView;
use crate::text::str_eq;

verus! {

/// An IEEE-754 double, kept as its bit pattern.
#[derive(Debug, Clone, Copy, PartialEq, Eq, Structural)]
pub struct Double {
    pub bits: u64,
}

impl Double {
    /// Whether the number is greater than zero; false for a NaN.
    pub open spec fn positive(self) -> bool {
        0 < self.bits <= 0x7ff0_0000_0000_0000
    }

    /// Whether the number is zero or less; false for a NaN.
    pub open spec fn at_most_zero(self) -> bool {
        self.bits == 0 || 0x8000_0000_0000_0000 <= self.bits <= 0xfff0_0000_0000_0000
    }

    /// Whether the number is greater than zero.
    pub fn is_positive(&self) -> (r: bool)
        ensures
            r == self.positive(),
    {
        0 < self.bits && self.bits <= 0x7ff0_0000_0000_0000
    }

    /// Whether the number is zero or less.
    pub fn is_at_most_zero(&self) -> (r: bool)
        ensures
            r == self.at_most_zero(),
    {
        self.bits == 0 || (0x8000_0000_0000_0000 <= self.bits && self.bits
            <= 0xfff0_0000_0000_0000)
    }
}

/// 1e-6.
pub const BITS_1E_MINUS_6: u64 = 0x3eb0_c6f7_a0b5_ed8d;

/// 1_000_000.0
pub const BITS_1E6: u64 = 0x412e_8480_0000_0000;

/// 10_000.0
pub const BITS_1E4: u64 = 0x40c3_8800_0000_0000;

/// 0.25
pub const BITS_QUARTER: u64 = 0x3fd0_0000_0000_0000;

/// Shape of the SigLIP vision tower, as far as the checkpoint states it.
#[derive(Debug, Clone, Copy, PartialEq, Eq, Structural)]
pub struct Gemma4VisionConfig {
    pub hidden_size: Option<i32>,
    pub num_hidden_layers: Option<i32>,
    pub patch_size: Option<i32>,
    pub default_output_length: Option<i32>,
    pub pooling_kernel_size: Option<i32>,
    pub rms_norm_eps: Option<Double>,
    pub use_clipped_linears: bool,
    pub standardize: bool,
}

/// Shape of the encoder-free vision embedder, as far as the checkpoint states
/// it.
#[derive(Debug, Clone, Copy, PartialEq, Eq, Structural)]
pub struct UnifiedVisionConfig {
    pub model_patch_size: Option<i32>,
    pub mm_embed_dim: Option<i32>,
    pub mm_posemb_size: Option<i32>,
    pub num_soft_tokens: Option<i32>,
    pub output_proj_dims: Option<i32>,
    pub patch_size: Option<i32>,
    pub pooling_kernel_size: Option<i32>,
    pub rms_norm_eps: Option<Double>,
}

/// Model configuration.
#[derive(Debug)]
pub struct Gemma4Config {
    pub vocab_size: i32,
    pub hidden_size: i32,
    pub num_hidden_layers: i32,
    pub num_attention_heads: i32,
    pub num_key_value_heads: i32,
    pub head_dim: i32,
    pub intermediate_size: i32,
    pub rms_norm_eps: Double,
    pub tie_word_embeddings: bool,
    pub max_position_embeddings: i32,
    pub sliding_window: i32,
    /// `"sliding_attention"` or `"full_attention"`, layer by layer.
    pub layer_types: Vec<String>,
    pub rope_theta: Double,
    pub rope_local_base_freq: Double,
    pub partial_rotary_factor: Double,
    /// Key/value heads of global layers, where they differ.
    pub global_num_key_value_heads: Option<i32>,
    /// Head dimension of global layers, where it differs.
    pub global_head_dim: Option<i32>,
    pub attention_k_eq_v: bool,
    pub is_unified: bool,
    pub use_bidirectional_attention: Option<String>,
    pub final_logit_softcapping: Option<Double>,
    pub per_layer_input_embeds: bool,
    pub hidden_size_per_layer_input: Option<i32>,
    pub vocab_size_per_layer_input: Option<i32>,
    pub pad_token_id: i32,
    pub eos_token_ids: Vec<i32>,
    pub bos_token_id: i32,
    pub attention_bias: bool,
    pub use_double_wide_mlp: bool,
    /// Trailing layers that reuse the keys and values of an earlier layer.
    pub num_kv_shared_layers: Option<i32>,
    pub default_temperature: Option<Double>,
    pub default_top_k: Option<i32>,
    pub default_top_p: Option<Double>,
    pub enable_moe_block: bool,
    pub num_experts: Option<i32>,
    pub top_k_experts: Option<i32>,
    pub moe_intermediate_size: Option<i32>,
    pub vision_config: Option<Gemma4VisionConfig>,
    pub unified_vision_config: Option<UnifiedVisionConfig>,
    pub image_token_id: Option<i32>,
    pub boi_token_id: Option<i32>,
    pub eoi_token_id: Option<i32>,
    pub vision_soft_tokens_per_image: Option<i32>,
    pub has_audio: bool,
    pub audio_token_id: Option<i32>,
    pub boa_token_id: Option<i32>,
    pub eoa_token_id: Option<i32>,
    pub audio_samples_per_token: Option<i32>,
    pub paged_cache_memory_mb: Option<u32>,
    pub paged_block_size: Option<u32>,
    pub use_block_paged_cache: Option<bool>,
}

impl Gemma4Config {
    /// The number of layers is one that can be counted.
    pub open spec fn wf(self) -> bool {
        self.num_hidden_layers >= 0
    }

    /// Number of layers.
    pub open spec fn layers(self) -> int {
        self.num_hidden_layers as int
    }

    /// Layer `i` attends to the whole context.
    pub open spec fn global_at(self, i: int) -> bool {
        0 <= i < self.layer_types@.len() && self.layer_types@[i]@ == "full_attention"@
    }

    /// Whether any layer reuses keys and values.
    pub open spec fn shares_kv(self) -> bool {
        self.num_kv_shared_layers matches Some(n) && n > 0
    }

    /// The first layer that reuses keys and values.
    pub open spec fn first_shared(self) -> int {
        if self.shares_kv() {
            self.num_hidden_layers - self.num_kv_shared_layers->0
        } else {
            self.layers()
        }
    }

    /// Layer `i` reuses the keys and values of an earlier layer.
    pub open spec fn shared_at(self, i: int) -> bool {
        self.shares_kv() && i >= self.first_shared()
    }

    /// The last layer before `upto` that is global, or sliding.
    pub open spec fn last_of_kind(self, upto: int, global: bool) -> Option<int>
        decreases upto,
    {
        if upto <= 0 {
            None
        } else if self.global_at(upto - 1) == global {
            Some(upto - 1)
        } else {
            self.last_of_kind(upto - 1, global)
        }
    }

    /// The layer whose keys and values layer `i` reuses: the last one of its
    /// kind that has its own.
    pub open spec fn anchor_of(self, i: int) -> Option<int> {
        if self.shared_at(i) {
            self.last_of_kind(self.first_shared(), self.global_at(i))
        } else {
            None
        }
    }

    /// Layer `i` must keep its keys and values for later layers.
    pub open spec fn stores_shared_at(self, i: int) -> bool {
        &&& self.shares_kv()
        &&& 0 <= i < self.first_shared()
        &&& self.last_of_kind(self.first_shared(), self.global_at(i)) == Some(i)
    }

    /// Head dimension of a global, or a sliding, layer.
    pub open spec fn head_dim_of(self, global: bool) -> i32 {
        match self.global_head_dim {
            Some(d) if global => d,
            _ => self.head_dim,
        }
    }

    /// Key/value heads of a global, or a sliding, layer.
    pub open spec fn kv_heads_of(self, global: bool) -> i32 {
        match self.global_num_key_value_heads {
            Some(h) if global => h,
            _ => self.num_key_value_heads,
        }
    }

    /// Whether layer `i` attends to the whole context.
    pub fn is_global_layer(&self, i: usize) -> (r: bool)
        ensures
            r == self.global_at(i as int),
    {
        i < self.layer_types.len() && str_eq(self.layer_types[i].as_str(), "full_attention")
    }

    /// Whether layer `i` attends to a sliding window.
    pub fn is_sliding_layer(&self, i: usize) -> (r: bool)
        ensures
            r == !self.global_at(i as int),
    {
        !self.is_global_layer(i)
    }

    /// Whether any layer reuses keys and values.
    pub fn has_kv_sharing(&self) -> (r: bool)
        ensures
            r == self.shares_kv(),
    {
        match self.num_kv_shared_layers {
            Some(n) => n > 0,
            None => false,
        }
    }

    /// Whether layer `i` reuses the keys and values of an earlier layer.
    pub fn is_kv_shared_layer(&self, i: usize) -> (r: bool)
        ensures
            r == self.shared_at(i as int),
    {
        match self.num_kv_shared_layers {
            Some(n) => n > 0 && i as i128 >= self.num_hidden_layers as i128 - n as i128,
            None => false,
        }
    }

    fn last_layer_of_kind(&self, upto: i32, global: bool) -> (r: Option<usize>)
        ensures
            match r {
                Some(j) => self.last_of_kind(upto as int, global) == Some(j as int),
                None => self.last_of_kind(upto as int, global) is None,
            },
        decreases upto,
    {
        if upto <= 0 {
            None
        } else {
            let j: usize = (upto - 1) as usize;
            if self.is_global_layer(j) == global {
                Some(j)
            } else {
                self.last_layer_of_kind(upto - 1, global)
            }
        }
    }

    /// The layer whose keys and values layer `i` reuses.
    pub fn kv_shared_anchor(&self, i: usize) -> (r: Option<usize>)
        requires
            self.wf(),
        ensures
            match r {
                Some(j) => self.anchor_of(i as int) == Some(j as int),
                None => self.anchor_of(i as int) is None,
            },
    {
        match self.num_kv_shared_layers {
            Some(n) => if self.is_kv_shared_layer(i) {
                self.last_layer_of_kind(self.num_hidden_layers - n, self.is_global_layer(i))
            } else {
                None
            },
            None => None,
        }
    }

    /// Whether layer `i` must keep its keys and values for later layers.
    pub fn should_store_shared_kv(&self, i: usize) -> (r: bool)
        requires
            self.wf(),
        ensures
            r == self.stores_shared_at(i as int),
    {
        match self.num_kv_shared_layers {
            Some(n) => if n > 0 && (i as i128) < self.num_hidden_layers as i128 - n as i128 {
                match self.last_layer_of_kind(self.num_hidden_layers - n, self.is_global_layer(i)) {
                    Some(j) => i == j,
                    None => false,
                }
            } else {
                false
            },
            None => false,
        }
    }

    /// Head dimension of a global, or a sliding, layer.
    pub fn effective_head_dim(&self, is_global: bool) -> (r: i32)
        ensures
            r == self.head_dim_of(is_global),
    {
        match self.global_head_dim {
            Some(d) if is_global => d,
            _ => self.head_dim,
        }
    }

    /// Key/value heads of a global, or a sliding, layer.
    pub fn effective_kv_heads(&self, is_global: bool) -> (r: i32)
        ensures
            r == self.kv_heads_of(is_global),
    {
        match self.global_num_key_value_heads {
            Some(h) if is_global => h,
            _ => self.num_key_value_heads,
        }
    }

    /// Width of one per-layer embedding; 0 where there is none.
    pub fn ple_dim(&self) -> (r: i32)
        ensures
            r == match self.hidden_size_per_layer_input {
                Some(d) => d,
                None => 0i32,
            },
    {
        match self.hidden_size_per_layer_input {
            Some(d) => d,
            None => 0,
        }
    }
}

proof fn lemma_last_of_kind(c: Gemma4Config, upto: int, global: bool)
    ensures
        c.last_of_kind(upto, global) matches Some(j) ==> 0 <= j < upto && c.global_at(j) == global,
    decreases upto,
{
    if upto > 0 && c.global_at(upto - 1) != global {
        lemma_last_of_kind(c, upto - 1, global);
    }
}

/// The anchor of a layer comes before every layer that shares, is of the same
/// kind, has keys and values of its own and keeps them.
pub proof fn law_anchor_owns_and_keeps(c: Gemma4Config, i: int)
    requires
        c.wf(),
        c.anchor_of(i) is Some,
    ensures
        0 <= c.anchor_of(i)->0 < c.first_shared() <= i,
        c.global_at(c.anchor_of(i)->0) == c.global_at(i),
        !c.shared_at(c.anchor_of(i)->0),
        c.stores_shared_at(c.anchor_of(i)->0),
{
    lemma_last_of_kind(c, c.first_shared(), c.global_at(i));
}

/// The low 32 bits of a number as a signed number.
pub open spec fn wrap_i32(v: int) -> int {
    (v + 0x8000_0000) % 0x1_0000_0000 - 0x8000_0000
}

pub(crate) fn wrapping_i32(v: i64) -> (r: i32)
    ensures
        r == wrap_i32(v as int),
{
    let shifted: u128 = (v as i128 + 0x8000_0000_8000_0000i128) as u128;
    let low: u128 = shifted % 0x1_0000_0000u128;
    assert(low == (v + 0x8000_0000) % 0x1_0000_0000) by {
        assert(shifted == (v + 0x8000_0000) + 0x8000_0000 * 0x1_0000_0000);
        vstd::arithmetic::div_mod::lemma_mod_multiples_vanish(
            0x8000_0000,
            v + 0x8000_0000,
            0x1_0000_0000,
        );
    }
    (low as i64 - 0x8000_0000) as i32
}

/// The integer under `key`, from the text section first, then from the top.
pub open spec fn config_int(
    raw: JsonView,
    text: Option<JsonView>,
    key: Seq<char>,
    default: int,
) -> int {
    match int_at(get_in(text, key)) {
        Some(v) => wrap_i32(v as int),
        None => match int_at(raw.get(key)) {
            Some(v) => wrap_i32(v as int),
            None => default,
        },
    }
}

/// The integer of what may be a number.
pub open spec fn int_at(doc: Option<JsonView>) -> Option<i64> {
    match doc {
        Some(d) => d.as_i64(),
        None => None,
    }
}

/// The double of what may be a number.
pub open spec fn double_at(doc: Option<JsonView>) -> Option<u64> {
    match doc {
        Some(d) => d.as_double_bits(),
        None => None,
    }
}

/// The truth value of what may be a boolean.
pub open spec fn bool_at(doc: Option<JsonView>) -> Option<bool> {
    match doc {
        Some(d) => d.as_bool(),
        None => None,
    }
}

/// The text of what may be a string.
pub open spec fn str_at(doc: Option<JsonView>) -> Option<Seq<char>> {
    match doc {
        Some(d) => d.as_str(),
        None => None,
    }
}

/// The double under `key`, from the text section first, then from the top.
pub open spec fn config_double(
    raw: JsonView,
    text: Option<JsonView>,
    key: Seq<char>,
    default: u64,
) -> u64 {
    match double_at(get_in(text, key)) {
        Some(v) => v,
        None => match double_at(raw.get(key)) {
            Some(v) => v,
            None => default,
        },
    }
}

/// The truth value under `key`, from the text section first, then from the top.
pub open spec fn config_flag(
    raw: JsonView,
    text: Option<JsonView>,
    key: Seq<char>,
    default: bool,
) -> bool {
    match bool_at(get_in(text, key)) {
        Some(v) => v,
        None => match bool_at(raw.get(key)) {
            Some(v) => v,
            None => default,
        },
    }
}

/// `get` on what may be an object.
pub fn get_opt<'a>(doc: Option<&'a Json>, key: &str) -> (r: Option<&'a Json>)
    ensures
        opt_content(r) == get_in(opt_content(doc), key@),
{
    match doc {
        Some(d) => d.get(key),
        None => None,
    }
}

pub(crate) fn int_opt(doc: Option<&Json>) -> (r: Option<i64>)
    ensures
        r == int_at(opt_content(doc)),
{
    match doc {
        Some(d) => d.as_i64(),
        None => None,
    }
}

pub(crate) fn double_opt(doc: Option<&Json>) -> (r: Option<u64>)
    ensures
        r == double_at(opt_content(doc)),
{
    match doc {
        Some(d) => d.as_double_bits(),
        None => None,
    }
}

pub(crate) fn bool_opt(doc: Option<&Json>) -> (r: Option<bool>)
    ensures
        r == bool_at(opt_content(doc)),
{
    match doc {
        Some(d) => d.as_bool(),
        None => None,
    }
}

pub(crate) fn str_is(doc: Option<&Json>, word: &str) -> (r: bool)
    ensures
        r == (str_at(opt_content(doc)) == Some(word@)),
{
    match doc {
        Some(d) => match d.as_str() {
            Some(s) => str_eq(s, word),
            None => false,
        },
        None => false,
    }
}

/// The integer under `key`, or `default`.
pub fn get_config_i32(raw: &Json, text_cfg: Option<&Json>, key: &str, default: i32) -> (r: i32)
    ensures
        r == config_int(raw.content(), opt_content(text_cfg), key@, default as int),
{
    match int_opt(get_opt(text_cfg, key)) {
        Some(v) => wrapping_i32(v),
        None => match int_opt(raw.get(key)) {
            Some(v) => wrapping_i32(v),
            None => default,
        },
    }
}

/// The double under `key`, or `default`.
pub fn get_config_f64(raw: &Json, text_cfg: Option<&Json>, key: &str, default: u64) -> (r: Double)
    ensures
        r.bits == config_double(raw.content(), opt_content(text_cfg), key@, default),
{
    let bits: u64 = match double_opt(get_opt(text_cfg, key)) {
        Some(v) => v,
        None => match double_opt(raw.get(key)) {
            Some(v) => v,
            None => default,
        },
    };
    Double { bits }
}

/// The truth value under `key`, or `default`.
pub fn get_config_bool(raw: &Json, text_cfg: Option<&Json>, key: &str, default: bool) -> (r: bool)
    ensures
        r == config_flag(raw.content(), opt_content(text_cfg), key@, default),
{
    match bool_opt(get_opt(text_cfg, key)) {
        Some(v) => v,
        None => match bool_opt(raw.get(key)) {
            Some(v) => v,
            None => default,
        },
    }
}

/// A number where it is positive.
pub open spec fn positive_int(v: int) -> Option<i32> {
    if v > 0 {
        Some(v as i32)
    } else {
        None
    }
}

pub(crate) fn positive_opt(v: i32) -> (r: Option<i32>)
    ensures
        r == positive_int(v as int),
{
    if v > 0 {
        Some(v)
    } else {
        None
    }
}

/// The low 32 bits of what may be an integer, as a signed number.
pub open spec fn wrapped_int_at(doc: Option<JsonView>) -> Option<i32> {
    match int_at(doc) {
        Some(v) => Some(wrap_i32(v as int) as i32),
        None => None,
    }
}

/// The low 32 bits of what may be an unsigned integer.
pub open spec fn wrapped_uint_at(doc: Option<JsonView>) -> Option<u32> {
    match doc {
        Some(d) => match d.as_u64() {
            Some(v) => Some((v as int % 0x1_0000_0000) as u32),
            None => None,
        },
        None => None,
    }
}

pub(crate) fn wrapped_int(doc: Option<&Json>) -> (r: Option<i32>)
    ensures
        r == wrapped_int_at(opt_content(doc)),
{
    match int_opt(doc) {
        Some(v) => Some(wrapping_i32(v)),
        None => None,
    }
}

pub(crate) fn wrapped_uint(doc: Option<&Json>) -> (r: Option<u32>)
    ensures
        r == wrapped_uint_at(opt_content(doc)),
{
    match doc {
        Some(d) => match d.as_u64() {
            Some(v) => Some((v % 0x1_0000_0000u64) as u32),
            None => None,
        },
        None => None,
    }
}

/// The integers of a list, each cut to 32 bits; other elements are left out.
pub open spec fn int_items(items: Seq<JsonView>) -> Seq<i32>
    decreases items.len(),
{
    if items.len() == 0 {
        Seq::empty()
    } else {
        match wrapped_int_at(Some(items.last())) {
            Some(v) => int_items(items.drop_last()).push(v),
            None => int_items(items.drop_last()),
        }
    }
}

/// The end-of-sequence tokens that a value names: a list, one integer, or 1.
pub open spec fn eos_ids(value: JsonView) -> Seq<i32> {
    match value {
        JsonView::Array(items) => int_items(items),
        _ => match wrapped_int_at(Some(value)) {
            Some(v) => seq![v],
            None => seq![1i32],
        },
    }
}

/// The end-of-sequence tokens that a value names.
pub fn parse_eos_token_ids(value: &Json) -> (r: Vec<i32>)
    ensures
        r@ == eos_ids(value.content()),
{
    match value {
        Json::Array(items) => {
            let ghost views = value.content()->Array_0;
            let mut out: Vec<i32> = Vec::new();
            let mut i: usize = 0;
            assert(views.take(0) =~= Seq::<JsonView>::empty());
            while i < items.len()
                invariant
                    i <= items@.len(),
                    *value == Json::Array(*items),
                    views == value.content()->Array_0,
                    views.len() == items@.len(),
                    out@ == int_items(views.take(i as int)),
                decreases items@.len() - i,
            {
                let ghost upto = views.take(i + 1);
                assert(upto.drop_last() =~= views.take(i as int));
                assert(upto.last() == items@[i as int].content());
                match wrapped_int(Some(&items[i])) {
                    Some(v) => out.push(v),
                    None => {},
                }
                i += 1;
            }
            assert(views.take(views.len() as int) =~= views);
            out
        },
        _ => {
            let mut out: Vec<i32> = Vec::new();
            match wrapped_int(Some(value)) {
                Some(v) => out.push(v),
                None => out.push(1),
            }
            assert(out@ =~= eos_ids(value.content()));
            out
        },
    }
}

/// The texts of a list; other elements are left out.
pub open spec fn str_items(items: Seq<JsonView>) -> Seq<Seq<char>>
    decreases items.len(),
{
    if items.len() == 0 {
        Seq::empty()
    } else {
        match items.last().as_str() {
            Some(s) => str_items(items.drop_last()).push(s),
            None => str_items(items.drop_last()),
        }
    }
}

/// The texts of strings.
pub open spec fn texts(v: Seq<String>) -> Seq<Seq<char>> {
    Seq::new(v.len(), |i: int| v[i]@)
}

/// The layer pattern of a checkpoint that names none: `period - 1` sliding
/// layers, then a global one, over and over.
pub open spec fn default_layer_types(n: int, period: int) -> Seq<Seq<char>> {
    let p = if period < 1 {
        1
    } else {
        period
    };
    Seq::new(
        n as nat,
        |i: int|
            if i % p == p - 1 {
                "full_attention"@
            } else {
                "sliding_attention"@
            },
    )
}

/// The layer list of the checkpoint, where it covers all layers.
pub open spec fn stated_layer_types(
    raw: JsonView,
    text: Option<JsonView>,
    num_layers: int,
) -> Option<Seq<Seq<char>>> {
    let listed = match get_in(text, "layer_types"@) {
        Some(v) => Some(v),
        None => raw.get("layer_types"@),
    };
    match listed {
        Some(JsonView::Array(items)) => if str_items(items).len() >= num_layers {
            Some(str_items(items))
        } else {
            None
        },
        _ => None,
    }
}

/// The kind of every layer.
pub open spec fn layer_type_list(
    raw: JsonView,
    text: Option<JsonView>,
    num_layers: int,
) -> Seq<Seq<char>> {
    match stated_layer_types(raw, text, num_layers) {
        Some(types) => types,
        None => default_layer_types(
            num_layers,
            config_int(raw, text, "sliding_window_pattern"@, 5),
        ),
    }
}

pub(crate) fn strings_in(value: &Json) -> (r: Vec<String>)
    requires
        *value is Array,
    ensures
        texts(r@) == str_items(value.content()->Array_0),
{
    let mut out: Vec<String> = Vec::new();
    match value {
        Json::Array(items) => {
            let ghost views = value.content()->Array_0;
            let mut i: usize = 0;
            assert(views.take(0) =~= Seq::<JsonView>::empty());
            assert(texts(out@) =~= str_items(views.take(0)));
            while i < items.len()
                invariant
                    i <= items@.len(),
                    *value == Json::Array(*items),
                    views == value.content()->Array_0,
                    views.len() == items@.len(),
                    texts(out@) == str_items(views.take(i as int)),
                decreases items@.len() - i,
            {
                let ghost upto = views.take(i + 1);
                assert(upto.drop_last() =~= views.take(i as int));
                assert(upto.last() == items@[i as int].content());
                match items[i].as_str() {
                    Some(s) => {
                        let ghost before = out@;
                        let word = String::from_str(s);
                        out.push(word);
                        assert(texts(out@) =~= texts(before).push(s@));
                    },
                    None => {},
                }
                i += 1;
            }
            assert(views.take(views.len() as int) =~= views);
        },
        _ => {},
    }
    out
}

/// The kind of every layer: the checkpoint's list where it covers all layers,
/// else four sliding layers and a global one in turn, or as
/// `sliding_window_pattern` says.
pub fn parse_layer_types(raw: &Json, text_cfg: Option<&Json>, num_layers: i32) -> (r: Vec<String>)
    requires
        num_layers >= 0,
        stated_layer_types(raw.content(), opt_content(text_cfg), num_layers as int) is None
            ==> config_int(
            raw.content(),
            opt_content(text_cfg),
            "sliding_window_pattern"@,
            5,
        ) >= 0,
    ensures
        texts(r@) == layer_type_list(raw.content(), opt_content(text_cfg), num_layers as int),
{
    let listed: Option<&Json> = match get_opt(text_cfg, "layer_types") {
        Some(v) => Some(v),
        None => raw.get("layer_types"),
    };
    match listed {
        Some(value) => match value {
            Json::Array(_) => {
                let types = strings_in(value);
                assert(texts(types@).len() == types@.len());
                if types.len() >= num_layers as usize {
                    return types;
                }
            },
            _ => {},
        },
        None => {},
    }
    let stated: i32 = get_config_i32(raw, text_cfg, "sliding_window_pattern", 5);
    let period: usize = if stated < 1 {
        1
    } else {
        stated as usize
    };
    let n: usize = num_layers as usize;
    let ghost want = default_layer_types(n as int, stated as int);
    let mut out: Vec<String> = Vec::new();
    let mut i: usize = 0;
    while i < n
        invariant
            i <= n,
            period >= 1,
            period == (if stated < 1 {
                1
            } else {
                stated as int
            }),
            want == default_layer_types(n as int, stated as int),
            out@.len() == i,
            forall|k: int| 0 <= k < i ==> (#[trigger] out@[k])@ == want[k],
        decreases n - i,
    {
        let word: String = if i % period == period - 1 {
            String::from_str("full_attention")
        } else {
            String::from_str("sliding_attention")
        };
        out.push(word);
        i += 1;
    }
    assert(texts(out@) =~= want);
    out
}

/// The base frequency of global layers, that of sliding layers, and the part of
/// a head that is rotated.
pub open spec fn rope_values(rope: Option<JsonView>) -> (u64, u64, u64) {
    (
        match double_at(get_in(get_in(rope, "full_attention"@), "rope_theta"@)) {
            Some(v) => v,
            None => BITS_1E6,
        },
        match double_at(get_in(get_in(rope, "sliding_attention"@), "rope_theta"@)) {
            Some(v) => v,
            None => BITS_1E4,
        },
        match double_at(get_in(get_in(rope, "full_attention"@), "partial_rotary_factor"@)) {
            Some(v) => v,
            None => BITS_QUARTER,
        },
    )
}

/// The rotary parameters under `rope_parameters`.
pub fn parse_rope_parameters(rope_params: Option<&Json>) -> (r: (Double, Double, Double))
    ensures
        (r.0.bits, r.1.bits, r.2.bits) == rope_values(opt_content(rope_params)),
{
    let full = get_opt(rope_params, "full_attention");
    let sliding = get_opt(rope_params, "sliding_attention");
    let global_theta: u64 = match double_opt(get_opt(full, "rope_theta")) {
        Some(v) => v,
        None => BITS_1E6,
    };
    let sliding_theta: u64 = match double_opt(get_opt(sliding, "rope_theta")) {
        Some(v) => v,
        None => BITS_1E4,
    };
    let partial_rotary: u64 = match double_opt(get_opt(full, "partial_rotary_factor")) {
        Some(v) => v,
        None => BITS_QUARTER,
    };
    (Double { bits: global_theta }, Double { bits: sliding_theta }, Double { bits: partial_rotary })
}

/// The double of what may be a number.
pub open spec fn opt_double(doc: Option<JsonView>) -> Option<Double> {
    match double_at(doc) {
        Some(bits) => Some(Double { bits }),
        None => None,
    }
}

pub(crate) fn double_field(doc: Option<&Json>) -> (r: Option<Double>)
    ensures
        r == opt_double(opt_content(doc)),
{
    match double_opt(doc) {
        Some(bits) => Some(Double { bits }),
        None => None,
    }
}

/// The vision tower that a `vision_config` section states.
pub open spec fn vision_of(doc: JsonView) -> Gemma4VisionConfig {
    Gemma4VisionConfig {
        hidden_size: wrapped_int_at(doc.get("hidden_size"@)),
        num_hidden_layers: wrapped_int_at(doc.get("num_hidden_layers"@)),
        patch_size: wrapped_int_at(doc.get("patch_size"@)),
        default_output_length: wrapped_int_at(doc.get("default_output_length"@)),
        pooling_kernel_size: wrapped_int_at(doc.get("pooling_kernel_size"@)),
        rms_norm_eps: opt_double(doc.get("rms_norm_eps"@)),
        use_clipped_linears: bool_at(doc.get("use_clipped_linears"@)) == Some(true),
        standardize: bool_at(doc.get("standardize"@)) == Some(true),
    }
}

impl Gemma4VisionConfig {
    /// Reads a `vision_config` section.
    pub fn from_json(doc: &Json) -> (r: Gemma4VisionConfig)
        ensures
            r == vision_of(doc.content()),
    {
        Gemma4VisionConfig {
            hidden_size: wrapped_int(doc.get("hidden_size")),
            num_hidden_layers: wrapped_int(doc.get("num_hidden_layers")),
            patch_size: wrapped_int(doc.get("patch_size")),
            default_output_length: wrapped_int(doc.get("default_output_length")),
            pooling_kernel_size: wrapped_int(doc.get("pooling_kernel_size")),
            rms_norm_eps: double_field(doc.get("rms_norm_eps")),
            use_clipped_linears: match bool_opt(doc.get("use_clipped_linears")) {
                Some(b) => b,
                None => false,
            },
            standardize: match bool_opt(doc.get("standardize")) {
                Some(b) => b,
                None => false,
            },
        }
    }
}

/// The vision embedder that a unified `vision_config` section states.
pub open spec fn unified_vision_of(doc: JsonView) -> UnifiedVisionConfig {
    UnifiedVisionConfig {
        model_patch_size: wrapped_int_at(doc.get("model_patch_size"@)),
        mm_embed_dim: wrapped_int_at(doc.get("mm_embed_dim"@)),
        mm_posemb_size: wrapped_int_at(doc.get("mm_posemb_size"@)),
        num_soft_tokens: wrapped_int_at(doc.get("num_soft_tokens"@)),
        output_proj_dims: wrapped_int_at(doc.get("output_proj_dims"@)),
        patch_size: wrapped_int_at(doc.get("patch_size"@)),
        pooling_kernel_size: wrapped_int_at(doc.get("pooling_kernel_size"@)),
        rms_norm_eps: opt_double(doc.get("rms_norm_eps"@)),
    }
}

impl UnifiedVisionConfig {
    /// Reads a unified `vision_config` section.
    pub fn from_json(doc: &Json) -> (r: UnifiedVisionConfig)
        ensures
            r == unified_vision_of(doc.content()),
    {
        UnifiedVisionConfig {
            model_patch_size: wrapped_int(doc.get("model_patch_size")),
            mm_embed_dim: wrapped_int(doc.get("mm_embed_dim")),
            mm_posemb_size: wrapped_int(doc.get("mm_posemb_size")),
            num_soft_tokens: wrapped_int(doc.get("num_soft_tokens")),
            output_proj_dims: wrapped_int(doc.get("output_proj_dims")),
            patch_size: wrapped_int(doc.get("patch_size")),
            pooling_kernel_size: wrapped_int(doc.get("pooling_kernel_size")),
            rms_norm_eps: double_field(doc.get("rms_norm_eps")),
        }
    }
}

/// A sliding layer has the dimensions of the configuration; a global one has its
/// own where they are given, and those of sliding layers otherwise.
pub proof fn law_dimensions_of_layers(c: Gemma4Config)
    ensures
        c.kv_heads_of(false) == c.num_key_value_heads,
        c.head_dim_of(false) == c.head_dim,
        c.global_num_key_value_heads is None ==> c.kv_heads_of(true) == c.num_key_value_heads,
        c.global_head_dim is None ==> c.head_dim_of(true) == c.head_dim,
        c.global_num_key_value_heads matches Some(h) ==> c.kv_heads_of(true) == h,
        c.global_head_dim matches Some(d) ==> c.head_dim_of(true) == d,
{
}

/// A layer is global where its kind is full attention, and sliding where it is
/// sliding attention or not listed.
pub proof fn law_kind_of_layer(c: Gemma4Config, i: int)
    ensures
        0 <= i < c.layer_types@.len() && c.layer_types@[i]@ == "full_attention"@ ==> c.global_at(i),
        0 <= i < c.layer_types@.len() && c.layer_types@[i]@ == "sliding_attention"@
            ==> !c.global_at(i),
        i >= c.layer_types@.len() ==> !c.global_at(i),
{
    reveal_strlit("full_attention");
    reveal_strlit("sliding_attention");
    assert("full_attention"@.len() == 14);
    assert("sliding_attention"@.len() == 17);
}

/// The last layers share, as many as the configuration says; with none to share,
/// no layer does.
pub proof fn law_last_layers_share(c: Gemma4Config, i: int)
    requires
        c.wf(),
        0 <= i < c.num_hidden_layers,
    ensures
        c.num_kv_shared_layers is None ==> !c.shared_at(i) && c.anchor_of(i) is None,
        c.num_kv_shared_layers matches Some(n) ==> {
            &&& n <= 0 ==> !c.shared_at(i)
            &&& n > 0 ==> (c.shared_at(i) <==> c.num_hidden_layers - i <= n)
        },
{
}

/// A layer that shares reads the last layer of its kind before the layers that
/// share, and where there is one such layer it always finds it.
pub proof fn law_anchor_is_the_last_of_its_kind(c: Gemma4Config, i: int, j: int)
    requires
        c.wf(),
        0 <= i < c.num_hidden_layers,
        c.num_kv_shared_layers matches Some(n) && n > 0 && c.num_hidden_layers - i <= n,
        0 <= j < c.num_hidden_layers - c.num_kv_shared_layers->0,
        c.global_at(j) == c.global_at(i),
    ensures
        c.anchor_of(i) matches Some(a) && j <= a < c.num_hidden_layers - c.num_kv_shared_layers->0
            && c.global_at(a) == c.global_at(i),
        c.stores_shared_at(j) <==> c.anchor_of(i) == Some(j),
{
    lemma_last_of_kind(c, c.first_shared(), c.global_at(i));
    lemma_last_is_last(c, c.first_shared(), c.global_at(i), j);
}

proof fn lemma_last_is_last(c: Gemma4Config, upto: int, global: bool, j: int)
    requires
        0 <= j < upto,
        c.global_at(j) == global,
    ensures
        c.last_of_kind(upto, global) matches Some(a) && j <= a,
    decreases upto,
{
    if c.global_at(upto - 1) != global {
        lemma_last_is_last(c, upto - 1, global, j);
    }
}

/// A double is above 0, at most 0, or no number; the sign bit tells the first two
/// apart.
pub proof fn law_sign_of_double(bits: u64)
    requires
        0 < bits <= 0x7ff0_0000_0000_0000,
    ensures
        (Double { bits }).positive(),
        !(Double { bits }).at_most_zero(),
        (Double { bits: (bits + 0x8000_0000_0000_0000) as u64 }).at_most_zero(),
        !(Double { bits: (bits + 0x8000_0000_0000_0000) as u64 }).positive(),
        (Double { bits: 0 }).at_most_zero(),
        (Double { bits: 0x8000_0000_0000_0000 }).at_most_zero(),
        !(Double { bits: 0 }).positive(),
{
}

/// Bit patterns beyond infinity are no numbers, and neither above nor below 0.
pub proof fn law_no_number_has_no_sign(bits: u64)
    requires
        0x7ff0_0000_0000_0000 < bits < 0x8000_0000_0000_0000 || bits > 0xfff0_0000_0000_0000,
    ensures
        !(Double { bits }).positive(),
        !(Double { bits }).at_most_zero(),
{
}

/// A member that is an integer of 32 bits.
pub open spec fn says(doc: JsonView, key: Seq<char>, v: i32) -> bool {
    doc.get(key) matches Some(m) && m.as_i64() == Some(v as i64)
}

/// A member that is a double.
pub open spec fn says_double(doc: JsonView, key: Seq<char>, bits: u64) -> bool {
    doc.get(key) matches Some(m) && m.as_double_bits() == Some(bits)
}

/// A member that is a flag.
pub open spec fn says_flag(doc: JsonView, key: Seq<char>, flag: bool) -> bool {
    doc.get(key) matches Some(m) && m.as_bool() == Some(flag)
}

/// What the text section says goes before what the file says, and that before the
/// default: `n`, `bits` and `flag` are what is said, the others the defaults.
pub proof fn law_text_section_goes_first(
    raw: JsonView,
    text: JsonView,
    key: Seq<char>,
    n: i32,
    bits: u64,
    flag: bool,
    other_n: int,
    other_bits: u64,
    other_flag: bool,
)
    ensures
        says(text, key, n) ==> config_int(raw, Some(text), key, other_n) == n,
        says_double(text, key, bits) ==> config_double(raw, Some(text), key, other_bits) == bits,
        says_flag(text, key, flag) ==> config_flag(raw, Some(text), key, other_flag) == flag,
        text.get(key) is None && says(raw, key, n) ==> config_int(raw, Some(text), key, other_n)
            == n,
        text.get(key) is None && says_double(raw, key, bits) ==> config_double(
            raw,
            Some(text),
            key,
            other_bits,
        ) == bits,
        text.get(key) is None && says_flag(raw, key, flag) ==> config_flag(
            raw,
            Some(text),
            key,
            other_flag,
        ) == flag,
        says(raw, key, n) ==> config_int(raw, None, key, other_n) == n,
        says_double(raw, key, bits) ==> config_double(raw, None, key, other_bits) == bits,
        says_flag(raw, key, flag) ==> config_flag(raw, None, key, other_flag) == flag,
        text.get(key) is None && raw.get(key) is None ==> {
            &&& config_int(raw, Some(text), key, other_n) == other_n
            &&& config_double(raw, Some(text), key, other_bits) == other_bits
            &&& config_flag(raw, Some(text), key, other_flag) == other_flag
        },
        raw.get(key) is None ==> {
            &&& config_int(raw, None, key, other_n) == other_n
            &&& config_double(raw, None, key, other_bits) == other_bits
            &&& config_flag(raw, None, key, other_flag) == other_flag
        },
{
}

/// A number of 32 bits is kept as it is, and one beyond loses what does not fit.
pub proof fn law_low_bits_are_kept(v: int)
    ensures
        i32::MIN <= v <= i32::MAX ==> wrap_i32(v) == v,
        i32::MIN <= wrap_i32(v) <= i32::MAX,
        wrap_i32(v + 0x1_0000_0000) == wrap_i32(v),
{
    vstd::arithmetic::div_mod::lemma_mod_multiples_vanish(1, v + 0x8000_0000, 0x1_0000_0000);
}

/// A list of numbers that end a turn is taken in order; a single number is a list
/// of one; without either, 1 ends a turn.
pub proof fn law_listed_ends_are_taken(items: Seq<JsonView>, value: JsonView, k: int)
    requires
        forall|i: int|
            0 <= i < items.len() ==> ((#[trigger] items[i]).as_i64() matches Some(v) && i32::MIN
                <= v <= i32::MAX),
    ensures
        eos_ids(JsonView::Array(items)).len() == items.len(),
        0 <= k < items.len() ==> eos_ids(JsonView::Array(items))[k] == items[k].as_i64()->0,
        value.as_i64() is Some && i32::MIN <= value.as_i64()->0 <= i32::MAX ==> eos_ids(value)
            == seq![value.as_i64()->0 as i32],
        value.as_i64() is None && !(value is Array) ==> eos_ids(value) == seq![1i32],
    decreases items.len(),
{
    if items.len() > 0 {
        let front = items.drop_last();
        assert forall|i: int| 0 <= i < front.len() implies ((#[trigger] front[i]).as_i64() matches Some(
            v,
        ) && i32::MIN <= v <= i32::MAX) by {
            assert(front[i] == items[i]);
        }
        law_listed_ends_are_taken(front, value, k);
        assert(items.last() == items[items.len() - 1]);
        if 0 <= k < front.len() {
            assert(front[k] == items[k]);
        }
    }
}

/// Where the file lists no kinds, of every `period` layers the last is global, and
/// no other.
pub proof fn law_pattern_of_layers(n: int, period: int, i: int)
    requires
        0 <= i < n,
        1 <= period,
    ensures
        default_layer_types(n, period).len() == n,
        (i + 1) % period == 0 ==> default_layer_types(n, period)[i] == "full_attention"@,
        (i + 1) % period != 0 ==> default_layer_types(n, period)[i] == "sliding_attention"@,
{
    let q = i / period;
    let r = i % period;
    vstd::arithmetic::div_mod::lemma_fundamental_div_mod(i, period);
    if r == period - 1 {
        assert(i + 1 == period * (q + 1)) by (nonlinear_arith)
            requires
                i == period * q + r,
                r == period - 1,
        ;
        vstd::arithmetic::div_mod::lemma_mod_multiples_basic(q + 1, period);
        assert((q + 1) * period == period * (q + 1)) by (nonlinear_arith);
    } else {
        assert(i + 1 == period * q + (r + 1));
        vstd::arithmetic::div_mod::lemma_fundamental_div_mod_converse(i + 1, period, q, r + 1);
    }
}

/// A list of kinds that is long enough is taken as it is; one in the text section
/// goes before one of the file.
pub proof fn law_listed_kinds_are_taken(
    raw: JsonView,
    text: Option<JsonView>,
    items: Seq<JsonView>,
    num_layers: int,
    k: int,
)
    requires
        get_in(text, "layer_types"@) == Some(JsonView::Array(items)) || (get_in(
            text,
            "layer_types"@,
        ) is None && raw.get("layer_types"@) == Some(JsonView::Array(items))),
        forall|i: int| 0 <= i < items.len() ==> (#[trigger] items[i]) is Str,
        items.len() >= num_layers,
        0 <= k < items.len(),
    ensures
        layer_type_list(raw, text, num_layers).len() == items.len(),
        Some(layer_type_list(raw, text, num_layers)[k]) == items[k].as_str(),
{
    lemma_str_items(items, k);
}

proof fn lemma_str_items(items: Seq<JsonView>, k: int)
    requires
        forall|i: int| 0 <= i < items.len() ==> (#[trigger] items[i]) is Str,
    ensures
        str_items(items).len() == items.len(),
        0 <= k < items.len() ==> Some(str_items(items)[k]) == items[k].as_str(),
    decreases items.len(),
{
    if items.len() > 0 {
        let front = items.drop_last();
        assert forall|i: int| 0 <= i < front.len() implies (#[trigger] front[i]) is Str by {
            assert(front[i] == items[i]);
        }
        lemma_str_items(front, k);
        assert(items.last() == items[items.len() - 1]);
        if 0 <= k < front.len() {
            assert(front[k] == items[k]);
        }
    }
}

/// A list that is too short is not taken: the kinds follow the pattern, whatever
/// the list holds.
pub proof fn law_short_list_is_not_taken(
    raw: JsonView,
    text: Option<JsonView>,
    items: Seq<JsonView>,
    num_layers: int,
)
    requires
        get_in(text, "layer_types"@) == Some(JsonView::Array(items)),
        items.len() < num_layers,
    ensures
        layer_type_list(raw, text, num_layers) == default_layer_types(
            num_layers,
            config_int(raw, text, "sliding_window_pattern"@, 5),
        ),
{
    lemma_str_items_len(items);
}

proof fn lemma_str_items_len(items: Seq<JsonView>)
    ensures
        str_items(items).len() <= items.len(),
    decreases items.len(),
{
    if items.len() > 0 {
        lemma_str_items_len(items.drop_last());
    }
}

/// The base of global layers and their rotated part come from the section of full
/// attention, the base of sliding layers from that of sliding attention; neither
/// section touches what the other gives.
pub proof fn law_rotary_sections(full: JsonView, sliding: JsonView, rope: JsonView, bits: u64)
    requires
        rope.get("full_attention"@) == Some(full),
        rope.get("sliding_attention"@) == Some(sliding),
    ensures
        says_double(full, "rope_theta"@, bits) ==> rope_values(Some(rope)).0 == bits,
        says_double(sliding, "rope_theta"@, bits) ==> rope_values(Some(rope)).1 == bits,
        says_double(full, "partial_rotary_factor"@, bits) ==> rope_values(Some(rope)).2 == bits,
        full.get("rope_theta"@) is None ==> rope_values(Some(rope)).0 == rope_values(None).0,
        sliding.get("rope_theta"@) is None ==> rope_values(Some(rope)).1 == rope_values(None).1,
        full.get("partial_rotary_factor"@) is None ==> rope_values(Some(rope)).2 == rope_values(
            None,
        ).2,
        rope_values(None) == (
            0x412e_8480_0000_0000u64,
            0x40c3_8800_0000_0000u64,
            0x3fd0_0000_0000_0000u64,
        ),
{
}

/// The vision section says what the vision tower is like, each member under its
/// own name; a member that is not there leaves its part open.
pub proof fn law_vision_section_is_read(doc: JsonView, v: i32, bits: u64)
    ensures
        says(doc, "hidden_size"@, v) ==> vision_of(doc).hidden_size == Some(v),
        says(doc, "num_hidden_layers"@, v) ==> vision_of(doc).num_hidden_layers == Some(v),
        says(doc, "patch_size"@, v) ==> vision_of(doc).patch_size == Some(v),
        says(doc, "default_output_length"@, v) ==> vision_of(doc).default_output_length == Some(v),
        says(doc, "pooling_kernel_size"@, v) ==> vision_of(doc).pooling_kernel_size == Some(v),
        doc.get("hidden_size"@) is None ==> vision_of(doc).hidden_size is None,
        doc.get("num_hidden_layers"@) is None ==> vision_of(doc).num_hidden_layers is None,
        doc.get("patch_size"@) is None ==> vision_of(doc).patch_size is None,
        doc.get("default_output_length"@) is None ==> vision_of(doc).default_output_length is None,
        doc.get("pooling_kernel_size"@) is None ==> vision_of(doc).pooling_kernel_size is None,
        vision_of(doc).use_clipped_linears == (doc.get("use_clipped_linears"@) == Some(
            JsonView::Bool(true),
        )),
        vision_of(doc).standardize == (doc.get("standardize"@) == Some(JsonView::Bool(true))),
        says_double(doc, "rms_norm_eps"@, bits) ==> vision_of(doc).rms_norm_eps == Some(
            Double { bits },
        ),
        doc.get("rms_norm_eps"@) is None ==> vision_of(doc).rms_norm_eps is None,
{
}

/// The same of the encoder-free vision embedder.
pub proof fn law_unified_vision_section_is_read(doc: JsonView, v: i32, bits: u64)
    ensures
        says(doc, "model_patch_size"@, v) ==> unified_vision_of(doc).model_patch_size == Some(v),
        says(doc, "mm_embed_dim"@, v) ==> unified_vision_of(doc).mm_embed_dim == Some(v),
        says(doc, "mm_posemb_size"@, v) ==> unified_vision_of(doc).mm_posemb_size == Some(v),
        says(doc, "num_soft_tokens"@, v) ==> unified_vision_of(doc).num_soft_tokens == Some(v),
        says(doc, "output_proj_dims"@, v) ==> unified_vision_of(doc).output_proj_dims == Some(v),
        says(doc, "patch_size"@, v) ==> unified_vision_of(doc).patch_size == Some(v),
        says(doc, "pooling_kernel_size"@, v) ==> unified_vision_of(doc).pooling_kernel_size == Some(
            v,
        ),
        doc.get("model_patch_size"@) is None ==> unified_vision_of(doc).model_patch_size is None,
        doc.get("mm_embed_dim"@) is None ==> unified_vision_of(doc).mm_embed_dim is None,
        doc.get("mm_posemb_size"@) is None ==> unified_vision_of(doc).mm_posemb_size is None,
        doc.get("num_soft_tokens"@) is None ==> unified_vision_of(doc).num_soft_tokens is None,
        doc.get("output_proj_dims"@) is None ==> unified_vision_of(doc).output_proj_dims is None,
        doc.get("patch_size"@) is None ==> unified_vision_of(doc).patch_size is None,
        doc.get("pooling_kernel_size"@) is None ==> unified_vision_of(
            doc,
        ).pooling_kernel_size is None,
        says_double(doc, "rms_norm_eps"@, bits) ==> unified_vision_of(doc).rms_norm_eps == Some(
            Double { bits },
        ),
        doc.get("rms_norm_eps"@) is None ==> unified_vision_of(doc).rms_norm_eps is None,
{
}

} // verus!
