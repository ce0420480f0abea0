//! Reading `config.json` and `generation_config.json`.

use vstd::prelude::*;
use vstd::string::*;

use crate::config::bool_at;
use crate::config::bool_opt;
use crate::config::config_double;
use crate::config::config_flag;
use crate::config::config_int;
use crate::config::double_field;
use crate::config::eos_ids;
use crate::config::get_config_bool;
use crate::config::get_config_f64;
use crate::config::get_config_i32;
use crate::config::get_opt;
use crate::config::int_items;
use crate::config::law_listed_kinds_are_taken;
use crate::config::layer_type_list;
use crate::config::opt_double;
use crate::config::parse_eos_token_ids;
use crate::config::parse_layer_types;
use crate::config::parse_rope_parameters;
use crate::config::positive_int;
use crate::config::positive_opt;
use crate::config::rope_values;
use crate::config::says;
use crate::config::says_double;
use crate::config::says_flag;
use crate::config::stated_layer_types;
use crate::config::strings_in;
use crate::config::str_at;
use crate::config::str_is;
use crate::config::texts;
use crate::config::unified_vision_of;
use crate::config::vision_of;
use crate::config::wrapped_int;
use crate::config::wrapped_int_at;
use crate::config::wrapped_uint;
use crate::config::wrapped_uint_at;
use crate::config::Double;
use crate::config::Gemma4Config;
use crate::config::Gemma4VisionConfig;
use crate::config::UnifiedVisionConfig;
use crate::config::BITS_1E_MINUS_6;
use crate::json::get_in;
use crate::json::json_document;
use crate::json::opt_content;
use crate::json::parse_json;
use crate::json::Json;
use crate::json::JsonView;
use crate::text::cat;
use crate::text::decimal;
use crate::text::law_ends_of_a_text;
use crate::text::signed_text;
use crate::text::str_eq;

verus! {

/// Why a configuration cannot be used.
#[derive(Debug)]
pub enum ConfigError {
    /// The text is no JSON; with the message of the parser.
    Syntax(String),
    /// The number of layers is negative.
    NegativeLayerCount(i32),
    /// The period of the layer pattern is negative.
    NegativeLayerPattern(i32),
    /// A draft model was asked for together with the paged cache.
    DraftNeedsFlatCache,
}

impl ConfigError {
    /// The message shown to a caller.
    pub open spec fn text(self) -> Seq<char> {
        match self {
            ConfigError::Syntax(m) => "Failed to parse config.json: "@ + m@,
            ConfigError::NegativeLayerCount(n) => "invalid num_hidden_layers "@ + decimal(n as int),
            ConfigError::NegativeLayerPattern(n) => "invalid sliding_window_pattern "@ + decimal(
                n as int,
            ),
            ConfigError::DraftNeedsFlatCache => DRAFT_CONFLICT@,
        }
    }

    /// The message shown to a caller.
    pub fn message(&self) -> (r: String)
        ensures
            r@ == self.text(),
    {
        match self {
            ConfigError::Syntax(m) => cat("Failed to parse config.json: ", m.as_str()),
            ConfigError::NegativeLayerCount(n) => cat(
                "invalid num_hidden_layers ",
                signed_text(*n as i64).as_str(),
            ),
            ConfigError::NegativeLayerPattern(n) => cat(
                "invalid sliding_window_pattern ",
                signed_text(*n as i64).as_str(),
            ),
            ConfigError::DraftNeedsFlatCache => String::from_str(DRAFT_CONFLICT),
        }
    }
}

/// The message of a draft request that meets the paged cache.
pub const DRAFT_CONFLICT: &'static str = "Gemma4 draft_model_path conflicts with use_block_paged_cache=true: DSpark speculative decoding runs only on the flat KV-cache path. Remove draft_model_path or set use_block_paged_cache to false in config.json.";

/// The first text of a list.
pub open spec fn first_text(doc: Option<JsonView>) -> Option<Seq<char>> {
    match doc {
        Some(JsonView::Array(items)) => if items.len() > 0 {
            items[0].as_str()
        } else {
            None
        },
        _ => None,
    }
}

/// Whether the checkpoint is the unified multimodal one.
pub open spec fn is_unified(raw: JsonView) -> bool {
    ||| str_at(raw.get("model_type"@)) == Some("gemma4_unified"@)
    ||| first_text(raw.get("architectures"@)) == Some("Gemma4UnifiedForConditionalGeneration"@)
}

/// Whether the checkpoint takes audio: unified, with an audio section that is
/// not null. Other checkpoints carry such sections without an audio embedder.
pub open spec fn has_audio(raw: JsonView) -> bool {
    is_unified(raw) && raw.get("audio_config"@) is Some && raw.get("audio_config"@)
        != Some(JsonView::Null)
}

/// The end-of-sequence value: that of the text section where there is one.
pub open spec fn eos_value(raw: JsonView) -> JsonView {
    let section = match raw.get("text_config"@) {
        Some(t) => t,
        None => raw,
    };
    match section.get("eos_token_id"@) {
        Some(v) => v,
        None => JsonView::Null,
    }
}

/// The rotary section, from the text section first.
pub open spec fn rope_section(raw: JsonView) -> Option<JsonView> {
    match get_in(raw.get("text_config"@), "rope_parameters"@) {
        Some(v) => Some(v),
        None => raw.get("rope_parameters"@),
    }
}

/// The number of layers. The list of layer kinds covers all of them.
pub open spec fn listed_layers(raw: JsonView) -> int {
    config_int(raw, raw.get("text_config"@), "num_hidden_layers"@, 42)
}

/// The layer count can be counted, and so can the pattern where it is needed.
pub open spec fn countable(raw: JsonView) -> bool {
    &&& listed_layers(raw) >= 0
    &&& pattern_countable(raw)
}

/// The period of the layer pattern can be counted where it is needed.
pub open spec fn pattern_countable(raw: JsonView) -> bool {
    stated_layer_types(raw, raw.get("text_config"@), listed_layers(raw)) is None ==> config_int(
        raw,
        raw.get("text_config"@),
        "sliding_window_pattern"@,
        5,
    ) >= 0
}

impl Gemma4Config {
    /// The configuration says what a `config.json` document says.
    pub open spec fn read_from(self, raw: JsonView) -> bool {
        let text = raw.get("text_config"@);
        &&& self.vocab_size == config_int(raw, text, "vocab_size"@, 262144)
        &&& self.hidden_size == config_int(raw, text, "hidden_size"@, 2560)
        &&& self.num_hidden_layers == config_int(raw, text, "num_hidden_layers"@, 42)
        &&& self.num_attention_heads == config_int(raw, text, "num_attention_heads"@, 8)
        &&& self.num_key_value_heads == config_int(raw, text, "num_key_value_heads"@, 2)
        &&& self.head_dim == config_int(raw, text, "head_dim"@, 256)
        &&& self.intermediate_size == config_int(raw, text, "intermediate_size"@, 10240)
        &&& self.max_position_embeddings == config_int(raw, text, "max_position_embeddings"@, 131072)
        &&& self.sliding_window == config_int(raw, text, "sliding_window"@, 512)
        &&& self.pad_token_id == config_int(raw, text, "pad_token_id"@, 0)
        &&& self.bos_token_id == config_int(raw, text, "bos_token_id"@, 2)
        &&& self.global_num_key_value_heads == positive_int(config_int(raw, text, "num_global_key_value_heads"@, -1))
        &&& self.global_head_dim == positive_int(config_int(raw, text, "global_head_dim"@, -1))
        &&& self.hidden_size_per_layer_input == positive_int(config_int(raw, text, "hidden_size_per_layer_input"@, -1))
        &&& self.vocab_size_per_layer_input == positive_int(config_int(raw, text, "vocab_size_per_layer_input"@, -1))
        &&& self.num_kv_shared_layers == positive_int(config_int(raw, text, "num_kv_shared_layers"@, -1))
        &&& self.num_experts == positive_int(config_int(raw, text, "num_experts"@, -1))
        &&& self.top_k_experts == positive_int(config_int(raw, text, "top_k_experts"@, -1))
        &&& self.moe_intermediate_size == positive_int(config_int(raw, text, "moe_intermediate_size"@, -1))
        &&& self.tie_word_embeddings == config_flag(raw, text, "tie_word_embeddings"@, true)
        &&& self.attention_k_eq_v == config_flag(raw, text, "attention_k_eq_v"@, false)
        &&& self.attention_bias == config_flag(raw, text, "attention_bias"@, false)
        &&& self.use_double_wide_mlp == config_flag(raw, text, "use_double_wide_mlp"@, true)
        &&& self.enable_moe_block == config_flag(raw, text, "enable_moe_block"@, false)
        &&& self.image_token_id == wrapped_int_at(raw.get("image_token_id"@))
        &&& self.boi_token_id == wrapped_int_at(raw.get("boi_token_id"@))
        &&& self.eoi_token_id == wrapped_int_at(raw.get("eoi_token_id"@))
        &&& self.vision_soft_tokens_per_image == wrapped_int_at(raw.get("vision_soft_tokens_per_image"@))
        &&& self.audio_token_id == if has_audio(raw) { wrapped_int_at(raw.get("audio_token_id"@)) } else { None }
        &&& self.boa_token_id == if has_audio(raw) { wrapped_int_at(raw.get("boa_token_id"@)) } else { None }
        &&& self.eoa_token_id == if has_audio(raw) { wrapped_int_at(raw.get("eoa_token_index"@)) } else { None }
        &&& self.paged_cache_memory_mb == wrapped_uint_at(raw.get("paged_cache_memory_mb"@))
        &&& self.paged_block_size == wrapped_uint_at(raw.get("paged_block_size"@))
        &&& self.rms_norm_eps.bits == config_double(raw, text, "rms_norm_eps"@, BITS_1E_MINUS_6)
        &&& texts(self.layer_types@) == layer_type_list(raw, text, listed_layers(raw))
        &&& self.layer_types@.len() >= self.num_hidden_layers
        &&& (self.rope_theta.bits, self.rope_local_base_freq.bits, self.partial_rotary_factor.bits)
            == rope_values(rope_section(raw))
        &&& self.is_unified == is_unified(raw)
        &&& opt_text(self.use_bidirectional_attention) == str_at(
            get_in(text, "use_bidirectional_attention"@),
        )
        &&& self.final_logit_softcapping == positive_double(
            config_double(raw, text, "final_logit_softcapping"@, 0),
        )
        &&& self.per_layer_input_embeds == (self.hidden_size_per_layer_input is Some
            && self.vocab_size_per_layer_input is Some)
        &&& self.eos_token_ids@ == eos_ids(eos_value(raw))
        &&& self.default_temperature is None
        &&& self.default_top_k is None
        &&& self.default_top_p is None
        &&& self.vision_config == if is_unified(raw) {
            None
        } else {
            match raw.get("vision_config"@) {
                Some(v) => Some(vision_of(v)),
                None => None,
            }
        }
        &&& self.unified_vision_config == if is_unified(raw) {
            match raw.get("vision_config"@) {
                Some(v) => Some(unified_vision_of(v)),
                None => None,
            }
        } else {
            None
        }
        &&& self.has_audio == has_audio(raw)
        &&& self.audio_samples_per_token == if has_audio(raw) {
            wrapped_int_at(get_in(raw.get("audio_config"@), "audio_samples_per_token"@))
        } else {
            None
        }
        &&& self.use_block_paged_cache == bool_at(raw.get("use_block_paged_cache"@))
    }
}

/// The text of what may be a string.
pub open spec fn opt_text(s: Option<String>) -> Option<Seq<char>> {
    match s {
        Some(t) => Some(t@),
        None => None,
    }
}

/// A number where it is greater than zero.
pub open spec fn positive_double(bits: u64) -> Option<Double> {
    if (Double { bits }).positive() {
        Some(Double { bits })
    } else {
        None
    }
}

fn first_is(doc: Option<&Json>, word: &str) -> (r: bool)
    ensures
        r == (first_text(opt_content(doc)) == Some(word@)),
{
    match doc {
        Some(d) => match d.as_array() {
            Some(items) => if items.len() > 0 {
                assert(d.content()->Array_0[0] == items@[0].content());
                str_is(Some(&items[0]), word)
            } else {
                false
            },
            None => false,
        },
        None => false,
    }
}

/// The configuration that a `config.json` document states.
#[verifier::rlimit(40)]
pub fn config_from_json(raw: &Json) -> (r: Gemma4Config)
    requires
        countable(raw.content()),
    ensures
        r.read_from(raw.content()),
{
    let text_cfg = raw.get("text_config");
    let unified: bool = str_is(raw.get("model_type"), "gemma4_unified") || first_is(
        raw.get("architectures"),
        "Gemma4UnifiedForConditionalGeneration",
    );
    let audio_section = raw.get("audio_config");
    let audio: bool = unified && match audio_section {
        Some(section) => !section.is_null(),
        None => false,
    };
    let bidirectional: Option<String> = match get_opt(text_cfg, "use_bidirectional_attention") {
        Some(v) => match v.as_str() {
            Some(s) => Some(String::from_str(s)),
            None => None,
        },
        None => None,
    };
    let section: &Json = match text_cfg {
        Some(t) => t,
        None => raw,
    };
    let eos_token_ids: Vec<i32> = match section.get("eos_token_id") {
        Some(v) => parse_eos_token_ids(v),
        None => parse_eos_token_ids(&Json::Null),
    };
    let listed: i32 = get_config_i32(raw, text_cfg, "num_hidden_layers", 42);
    let layer_types = parse_layer_types(raw, text_cfg, listed);
    assert(texts(layer_types@).len() == layer_types@.len());
    let rope_section: Option<&Json> = match get_opt(text_cfg, "rope_parameters") {
        Some(v) => Some(v),
        None => raw.get("rope_parameters"),
    };
    let rope: (Double, Double, Double) = parse_rope_parameters(rope_section);
    let hidden_size_per_layer_input: Option<i32> = positive_opt(
        get_config_i32(raw, text_cfg, "hidden_size_per_layer_input", -1),
    );
    let vocab_size_per_layer_input: Option<i32> = positive_opt(
        get_config_i32(raw, text_cfg, "vocab_size_per_layer_input", -1),
    );
    let softcap: Double = get_config_f64(raw, text_cfg, "final_logit_softcapping", 0);
    let vision_section = raw.get("vision_config");
    Gemma4Config {
        vocab_size: get_config_i32(raw, text_cfg, "vocab_size", 262144),
        hidden_size: get_config_i32(raw, text_cfg, "hidden_size", 2560),
        num_hidden_layers: get_config_i32(raw, text_cfg, "num_hidden_layers", 42),
        num_attention_heads: get_config_i32(raw, text_cfg, "num_attention_heads", 8),
        num_key_value_heads: get_config_i32(raw, text_cfg, "num_key_value_heads", 2),
        head_dim: get_config_i32(raw, text_cfg, "head_dim", 256),
        intermediate_size: get_config_i32(raw, text_cfg, "intermediate_size", 10240),
        max_position_embeddings: get_config_i32(raw, text_cfg, "max_position_embeddings", 131072),
        sliding_window: get_config_i32(raw, text_cfg, "sliding_window", 512),
        pad_token_id: get_config_i32(raw, text_cfg, "pad_token_id", 0),
        bos_token_id: get_config_i32(raw, text_cfg, "bos_token_id", 2),
        global_num_key_value_heads: positive_opt(get_config_i32(raw, text_cfg, "num_global_key_value_heads", -1)),
        global_head_dim: positive_opt(get_config_i32(raw, text_cfg, "global_head_dim", -1)),
        hidden_size_per_layer_input: hidden_size_per_layer_input,
        vocab_size_per_layer_input: vocab_size_per_layer_input,
        num_kv_shared_layers: positive_opt(get_config_i32(raw, text_cfg, "num_kv_shared_layers", -1)),
        num_experts: positive_opt(get_config_i32(raw, text_cfg, "num_experts", -1)),
        top_k_experts: positive_opt(get_config_i32(raw, text_cfg, "top_k_experts", -1)),
        moe_intermediate_size: positive_opt(get_config_i32(raw, text_cfg, "moe_intermediate_size", -1)),
        tie_word_embeddings: get_config_bool(raw, text_cfg, "tie_word_embeddings", true),
        attention_k_eq_v: get_config_bool(raw, text_cfg, "attention_k_eq_v", false),
        attention_bias: get_config_bool(raw, text_cfg, "attention_bias", false),
        use_double_wide_mlp: get_config_bool(raw, text_cfg, "use_double_wide_mlp", true),
        enable_moe_block: get_config_bool(raw, text_cfg, "enable_moe_block", false),
        image_token_id: wrapped_int(raw.get("image_token_id")),
        boi_token_id: wrapped_int(raw.get("boi_token_id")),
        eoi_token_id: wrapped_int(raw.get("eoi_token_id")),
        vision_soft_tokens_per_image: wrapped_int(raw.get("vision_soft_tokens_per_image")),
        audio_token_id: if audio { wrapped_int(raw.get("audio_token_id")) } else { None },
        boa_token_id: if audio { wrapped_int(raw.get("boa_token_id")) } else { None },
        eoa_token_id: if audio { wrapped_int(raw.get("eoa_token_index")) } else { None },
        paged_cache_memory_mb: wrapped_uint(raw.get("paged_cache_memory_mb")),
        paged_block_size: wrapped_uint(raw.get("paged_block_size")),
        rms_norm_eps: get_config_f64(raw, text_cfg, "rms_norm_eps", BITS_1E_MINUS_6),
        layer_types,
        rope_theta: rope.0,
        rope_local_base_freq: rope.1,
        partial_rotary_factor: rope.2,
        is_unified: unified,
        use_bidirectional_attention: bidirectional,
        final_logit_softcapping: if softcap.is_positive() {
            Some(softcap)
        } else {
            None
        },
        per_layer_input_embeds: hidden_size_per_layer_input.is_some()
            && vocab_size_per_layer_input.is_some(),
        eos_token_ids,
        default_temperature: None,
        default_top_k: None,
        default_top_p: None,
        vision_config: match vision_section {
            Some(v) => if unified {
                None
            } else {
                Some(Gemma4VisionConfig::from_json(v))
            },
            None => None,
        },
        unified_vision_config: match vision_section {
            Some(v) => if unified {
                Some(UnifiedVisionConfig::from_json(v))
            } else {
                None
            },
            None => None,
        },
        has_audio: audio,
        audio_samples_per_token: if audio {
            wrapped_int(get_opt(audio_section, "audio_samples_per_token"))
        } else {
            None
        },
        use_block_paged_cache: bool_opt(raw.get("use_block_paged_cache")),
    }
}

/// Reads the text of a `config.json`.
pub fn parse_config(text: &str) -> (r: Result<Gemma4Config, ConfigError>)
    ensures
        match json_document(text@) {
            Err(m) => r matches Err(ConfigError::Syntax(t)) && t@ == m,
            Ok(raw) => if listed_layers(raw) < 0 {
                r matches Err(ConfigError::NegativeLayerCount(n)) && n == listed_layers(raw)
            } else if !pattern_countable(raw) {
                r matches Err(ConfigError::NegativeLayerPattern(n)) && n == config_int(
                    raw,
                    raw.get("text_config"@),
                    "sliding_window_pattern"@,
                    5,
                )
            } else {
                r matches Ok(c) && c.read_from(raw)
            },
        },
{
    match parse_json(text) {
        Err(m) => Err(ConfigError::Syntax(m)),
        Ok(raw) => {
            let text_cfg = raw.get("text_config");
            let listed: i32 = get_config_i32(&raw, text_cfg, "num_hidden_layers", 42);
            if listed < 0 {
                return Err(ConfigError::NegativeLayerCount(listed));
            }
            let period: i32 = get_config_i32(&raw, text_cfg, "sliding_window_pattern", 5);
            if period < 0 && !states_layer_types(&raw, text_cfg, listed) {
                return Err(ConfigError::NegativeLayerPattern(period));
            }
            Ok(config_from_json(&raw))
        },
    }
}

fn states_layer_types(raw: &Json, text_cfg: Option<&Json>, num_layers: i32) -> (r: bool)
    requires
        num_layers >= 0,
    ensures
        r == (stated_layer_types(raw.content(), opt_content(text_cfg), num_layers as int) is Some),
{
    let listed: Option<&Json> = match get_opt(text_cfg, "layer_types") {
        Some(v) => Some(v),
        None => raw.get("layer_types"),
    };
    match listed {
        Some(value) => match value {
            Json::Array(_) => {
                let types = strings_in(value);
                assert(texts(types@).len() == types@.len());
                types.len() >= num_layers as usize
            },
            _ => false,
        },
        None => false,
    }
}

/// A draft model decodes on the flat cache only: an explicit request for the
/// paged cache is refused, and the unset default becomes flat.
pub fn apply_draft_request(config: &mut Gemma4Config, draft_requested: bool) -> (r: Result<
    (),
    ConfigError,
>)
    ensures
        draft_requested && old(config).use_block_paged_cache == Some(true) ==> r == Err::<
            (),
            ConfigError,
        >(ConfigError::DraftNeedsFlatCache) && *final(config) == *old(config),
        !(draft_requested && old(config).use_block_paged_cache == Some(true)) ==> r == Ok::<
            (),
            ConfigError,
        >(()) && *final(config) == (Gemma4Config {
            use_block_paged_cache: if draft_requested {
                Some(false)
            } else {
                old(config).use_block_paged_cache
            },
            ..*old(config)
        }),
{
    if draft_requested {
        match config.use_block_paged_cache {
            Some(true) => {
                return Err(ConfigError::DraftNeedsFlatCache);
            },
            _ => {},
        }
        config.use_block_paged_cache = Some(false);
    }
    Ok(())
}

/// Strictly increasing.
pub open spec fn increasing(s: Seq<i32>) -> bool {
    forall|i: int, j: int| 0 <= i < j < s.len() ==> s[i] < s[j]
}

fn insert_sorted(v: &mut Vec<i32>, x: i32)
    requires
        increasing(old(v)@),
    ensures
        increasing(final(v)@),
        final(v)@.to_set() == old(v)@.to_set().insert(x),
{
    let ghost before = v@;
    let mut i: usize = 0;
    while i < v.len() && v[i] < x
        invariant
            v@ == before,
            i <= v@.len(),
            forall|k: int| 0 <= k < i ==> v@[k] < x,
        decreases v@.len() - i,
    {
        i += 1;
    }
    if i < v.len() && v[i] == x {
        assert(before[i as int] == x);
        assert(before.to_set().insert(x) =~= before.to_set());
    } else {
        v.insert(i, x);
        let ghost after = v@;
        assert(after.to_set() =~= before.to_set().insert(x)) by {
            assert forall|y: i32| after.to_set().contains(y) == before.to_set().insert(
                x,
            ).contains(y) by {
                if before.contains(y) {
                    let k = choose|k: int| 0 <= k < before.len() && before[k] == y;
                    if k < i {
                        assert(after[k] == y);
                    } else {
                        assert(after[k + 1] == y);
                    }
                }
                if after.contains(y) && y != x {
                    let k = choose|k: int| 0 <= k < after.len() && after[k] == y;
                    if k < i {
                        assert(before[k] == y);
                    } else {
                        assert(before[k - 1] == y);
                    }
                }
                assert(after[i as int] == x);
            }
        }
    }
}

/// The end-of-sequence tokens that `generation_config.json` adds.
pub open spec fn added_eos(value: JsonView) -> Seq<i32> {
    match value {
        JsonView::Array(items) => int_items(items),
        JsonView::Number(_) => match wrapped_int_at(Some(value)) {
            Some(v) => seq![v],
            None => Seq::empty(),
        },
        _ => Seq::empty(),
    }
}

/// `after` is `before` with the stop tokens and the sampling defaults of a
/// `generation_config.json` document.
pub open spec fn generation_merged(
    before: Gemma4Config,
    after: Gemma4Config,
    generation: JsonView,
) -> bool {
    &&& after == (Gemma4Config {
        eos_token_ids: after.eos_token_ids,
        default_temperature: opt_double(generation.get("temperature"@)),
        default_top_k: wrapped_int_at(generation.get("top_k"@)),
        default_top_p: opt_double(generation.get("top_p"@)),
        ..before
    })
    &&& match generation.get("eos_token_id"@) {
        None => after.eos_token_ids@ == before.eos_token_ids@,
        Some(value) => increasing(after.eos_token_ids@) && after.eos_token_ids@.to_set()
            == before.eos_token_ids@.to_set().union(added_eos(value).to_set()),
    }
}

/// Takes stop tokens and sampling defaults from `generation_config.json`. Where
/// it names stop tokens, they join those of the model, in increasing order and
/// each once.
pub fn merge_generation_config(config: &mut Gemma4Config, generation: &Json)
    ensures
        generation_merged(*old(config), *final(config), generation.content()),
{
    match generation.get("eos_token_id") {
        None => {},
        Some(value) => {
            let added: Vec<i32> = match value {
                Json::Array(_) => parse_eos_token_ids(value),
                Json::Number(n) => {
                    assert(value.content() == JsonView::Number(n.content()));
                    let mut one: Vec<i32> = Vec::new();
                    match wrapped_int(Some(value)) {
                        Some(v) => one.push(v),
                        None => {},
                    }
                    assert(one@ =~= added_eos(value.content()));
                    one
                },
                _ => Vec::new(),
            };
            assert(added@ =~= added_eos(value.content()));
            let mut ids: Vec<i32> = Vec::new();
            insert_all(&mut ids, &config.eos_token_ids);
            insert_all(&mut ids, &added);
            assert(ids@.to_set() =~= old(config).eos_token_ids@.to_set().union(added@.to_set()));
            config.eos_token_ids = ids;
        },
    }
    config.default_temperature = double_field(generation.get("temperature"));
    config.default_top_k = wrapped_int(generation.get("top_k"));
    config.default_top_p = double_field(generation.get("top_p"));
}

/// The configuration of a model: what `config.json` says, with the flat cache
/// where a draft model is asked for, and with what `generation_config.json`
/// says where it can be read.
pub open spec fn assembled(
    c: Gemma4Config,
    raw: JsonView,
    draft_requested: bool,
    generation: Option<JsonView>,
) -> bool {
    exists|read: Gemma4Config|
        #[trigger] read.read_from(raw) && {
            let cached = Gemma4Config {
                use_block_paged_cache: if draft_requested {
                    Some(false)
                } else {
                    read.use_block_paged_cache
                },
                ..read
            };
            match generation {
                None => c == cached,
                Some(g) => generation_merged(cached, c, g),
            }
        }
}

/// What a text holds, where it is a document.
pub open spec fn readable(text: Option<Seq<char>>) -> Option<JsonView> {
    match text {
        Some(t) => match json_document(t) {
            Ok(doc) => Some(doc),
            Err(_) => None,
        },
        None => None,
    }
}

/// The configuration of a model from the texts of its files. A
/// `generation_config.json` that is not there or cannot be read is passed over.
pub fn load_config(config_text: &str, draft_requested: bool, generation_text: Option<&str>) -> (r:
    Result<Gemma4Config, ConfigError>)
    ensures
        match json_document(config_text@) {
            Err(m) => r matches Err(ConfigError::Syntax(t)) && t@ == m,
            Ok(raw) => if listed_layers(raw) < 0 {
                r matches Err(ConfigError::NegativeLayerCount(n)) && n == listed_layers(raw)
            } else if !pattern_countable(raw) {
                r matches Err(ConfigError::NegativeLayerPattern(n)) && n == config_int(
                    raw,
                    raw.get("text_config"@),
                    "sliding_window_pattern"@,
                    5,
                )
            } else if draft_requested && bool_at(raw.get("use_block_paged_cache"@)) == Some(true) {
                r matches Err(ConfigError::DraftNeedsFlatCache)
            } else {
                r matches Ok(c) && assembled(
                    c,
                    raw,
                    draft_requested,
                    readable(
                        match generation_text {
                            Some(t) => Some(t@),
                            None => None,
                        },
                    ),
                )
            },
        },
{
    let mut config = match parse_config(config_text) {
        Ok(config) => config,
        Err(e) => {
            return Err(e);
        },
    };
    let ghost read = config;
    match apply_draft_request(&mut config, draft_requested) {
        Ok(_) => {},
        Err(e) => {
            return Err(e);
        },
    }
    match generation_text {
        Some(text) => match parse_json(text) {
            Ok(generation) => merge_generation_config(&mut config, &generation),
            Err(_) => {},
        },
        None => {},
    }
    assert(read.read_from(json_document(config_text@)->Ok_0));
    Ok(config)
}

fn insert_all(v: &mut Vec<i32>, items: &Vec<i32>)
    requires
        increasing(old(v)@),
    ensures
        increasing(final(v)@),
        final(v)@.to_set() == old(v)@.to_set().union(items@.to_set()),
{
    let ghost before = v@;
    let mut i: usize = 0;
    assert(items@.take(0).to_set() =~= Set::<i32>::empty());
    assert(before.to_set().union(items@.take(0).to_set()) =~= before.to_set());
    while i < items.len()
        invariant
            i <= items@.len(),
            increasing(v@),
            v@.to_set() == before.to_set().union(items@.take(i as int).to_set()),
        decreases items@.len() - i,
    {
        insert_sorted(v, items[i]);
        proof {
            let a = items@.take(i as int);
            let b = items@.take(i + 1);
            assert(b =~= a.push(items@[i as int]));
            assert forall|y: i32| b.to_set().contains(y) == a.to_set().insert(
                items@[i as int],
            ).contains(y) by {
                if a.contains(y) {
                    let k = choose|k: int| 0 <= k < a.len() && a[k] == y;
                    assert(b[k] == y);
                }
                assert(b[i as int] == items@[i as int]);
                if b.contains(y) && y != items@[i as int] {
                    let k = choose|k: int| 0 <= k < b.len() && b[k] == y;
                    assert(a[k] == y);
                }
            }
            assert(b.to_set() =~= a.to_set().insert(items@[i as int]));
            assert(v@.to_set() =~= before.to_set().union(b.to_set()));
        }
        i += 1;
    }
    assert(items@.take(items@.len() as int) =~= items@);
}

/// Which draft model a checkpoint holds.
#[derive(Debug, Clone, Copy, PartialEq, Eq, Structural)]
pub enum DraftKind {
    Assistant,
    Dspark,
}

/// The draft that a checkpoint's identity names: an assistant by its model
/// type, else a DSpark model by one of its architectures.
pub open spec fn draft_kind(model_type: Option<Seq<char>>, architectures: Seq<Seq<char>>) -> Option<
    DraftKind,
> {
    if model_type == Some("gemma4_assistant"@) || model_type == Some("gemma4_unified_assistant"@) {
        Some(DraftKind::Assistant)
    } else if architectures.contains("Gemma4DSparkModel"@) {
        Some(DraftKind::Dspark)
    } else {
        None
    }
}

/// What is expected of a draft checkpoint, told where one is of neither kind.
pub const EXPECTED_DRAFT: &'static str = "expected an assistant draft (model_type one of [\"gemma4_assistant\", \"gemma4_unified_assistant\"]) or a DSpark draft (architectures containing \"Gemma4DSparkModel\")";

/// The draft that a checkpoint's identity names.
pub fn probe_draft_kind(model_type: Option<&str>, architectures: &Vec<String>) -> (r: Option<
    DraftKind,
>)
    ensures
        r == draft_kind(
            match model_type {
                Some(t) => Some(t@),
                None => None,
            },
            texts(architectures@),
        ),
{
    match model_type {
        Some(t) => {
            if str_eq(t, "gemma4_assistant") || str_eq(t, "gemma4_unified_assistant") {
                return Some(DraftKind::Assistant);
            }
        },
        None => {},
    }
    let ghost names = texts(architectures@);
    let ghost no_assistant = draft_kind(
        match model_type {
            Some(t) => Some(t@),
            None => None,
        },
        names,
    ) != Some(DraftKind::Assistant);
    let mut i: usize = 0;
    while i < architectures.len()
        invariant
            no_assistant,
            no_assistant == (draft_kind(
                match model_type {
                    Some(t) => Some(t@),
                    None => None,
                },
                names,
            ) != Some(DraftKind::Assistant)),
            i <= architectures@.len(),
            names == texts(architectures@),
            forall|k: int| 0 <= k < i ==> (#[trigger] names[k]) != "Gemma4DSparkModel"@,
        decreases architectures@.len() - i,
    {
        if str_eq(architectures[i].as_str(), "Gemma4DSparkModel") {
            assert(names[i as int] == "Gemma4DSparkModel"@);
            return Some(DraftKind::Dspark);
        }
        i += 1;
    }
    None
}

/// The section that speaks of a name: the text section where it has the name, else
/// the file.
pub open spec fn speaks(raw: JsonView, key: Seq<char>) -> JsonView {
    match raw.get("text_config"@) {
        Some(text) => if text.get(key) is Some {
            text
        } else {
            raw
        },
        None => raw,
    }
}

/// Neither the text section nor the file has a name.
pub open spec fn silent(raw: JsonView, key: Seq<char>) -> bool {
    &&& raw.get(key) is None
    &&& raw.get("text_config"@) matches Some(text) ==> text.get(key) is None
}

proof fn lemma_spoken_number(raw: JsonView, key: Seq<char>, v: i32, default: int)
    ensures
        says(speaks(raw, key), key, v) ==> config_int(raw, raw.get("text_config"@), key, default)
            == v,
        silent(raw, key) ==> config_int(raw, raw.get("text_config"@), key, default) == default,
{
}

/// Every number of the configuration is the one that the file gives under its name,
/// in the text section first, and a fixed one where the file gives none.
#[verifier::rlimit(40)]
pub proof fn law_numbers_of_the_file(c: Gemma4Config, raw: JsonView, v: i32)
    requires
        c.read_from(raw),
    ensures
        says(speaks(raw, "vocab_size"@), "vocab_size"@, v) ==> c.vocab_size == v,
        silent(raw, "vocab_size"@) ==> c.vocab_size == 262144,
        says(speaks(raw, "hidden_size"@), "hidden_size"@, v) ==> c.hidden_size == v,
        silent(raw, "hidden_size"@) ==> c.hidden_size == 2560,
        says(speaks(raw, "num_hidden_layers"@), "num_hidden_layers"@, v) ==> c.num_hidden_layers == v,
        silent(raw, "num_hidden_layers"@) ==> c.num_hidden_layers == 42,
        says(speaks(raw, "num_attention_heads"@), "num_attention_heads"@, v) ==> c.num_attention_heads == v,
        silent(raw, "num_attention_heads"@) ==> c.num_attention_heads == 8,
        says(speaks(raw, "num_key_value_heads"@), "num_key_value_heads"@, v) ==> c.num_key_value_heads == v,
        silent(raw, "num_key_value_heads"@) ==> c.num_key_value_heads == 2,
        says(speaks(raw, "head_dim"@), "head_dim"@, v) ==> c.head_dim == v,
        silent(raw, "head_dim"@) ==> c.head_dim == 256,
        says(speaks(raw, "intermediate_size"@), "intermediate_size"@, v) ==> c.intermediate_size == v,
        silent(raw, "intermediate_size"@) ==> c.intermediate_size == 10240,
        says(speaks(raw, "max_position_embeddings"@), "max_position_embeddings"@, v) ==> c.max_position_embeddings == v,
        silent(raw, "max_position_embeddings"@) ==> c.max_position_embeddings == 131072,
        says(speaks(raw, "sliding_window"@), "sliding_window"@, v) ==> c.sliding_window == v,
        silent(raw, "sliding_window"@) ==> c.sliding_window == 512,
        says(speaks(raw, "pad_token_id"@), "pad_token_id"@, v) ==> c.pad_token_id == v,
        silent(raw, "pad_token_id"@) ==> c.pad_token_id == 0,
        says(speaks(raw, "bos_token_id"@), "bos_token_id"@, v) ==> c.bos_token_id == v,
        silent(raw, "bos_token_id"@) ==> c.bos_token_id == 2,
{
    lemma_spoken_number(raw, "vocab_size"@, v, 262144);
    lemma_spoken_number(raw, "hidden_size"@, v, 2560);
    lemma_spoken_number(raw, "num_hidden_layers"@, v, 42);
    lemma_spoken_number(raw, "num_attention_heads"@, v, 8);
    lemma_spoken_number(raw, "num_key_value_heads"@, v, 2);
    lemma_spoken_number(raw, "head_dim"@, v, 256);
    lemma_spoken_number(raw, "intermediate_size"@, v, 10240);
    lemma_spoken_number(raw, "max_position_embeddings"@, v, 131072);
    lemma_spoken_number(raw, "sliding_window"@, v, 512);
    lemma_spoken_number(raw, "pad_token_id"@, v, 0);
    lemma_spoken_number(raw, "bos_token_id"@, v, 2);
}

/// A number that has to be above 0 is taken where it is; else it is not given.
#[verifier::rlimit(40)]
pub proof fn law_counts_of_the_file(c: Gemma4Config, raw: JsonView, v: i32)
    requires
        c.read_from(raw),
    ensures
        says(speaks(raw, "num_global_key_value_heads"@), "num_global_key_value_heads"@, v) ==> c.global_num_key_value_heads == if v > 0 {
            Some(v)
        } else {
            None
        },
        silent(raw, "num_global_key_value_heads"@) ==> c.global_num_key_value_heads is None,
        says(speaks(raw, "global_head_dim"@), "global_head_dim"@, v) ==> c.global_head_dim == if v > 0 {
            Some(v)
        } else {
            None
        },
        silent(raw, "global_head_dim"@) ==> c.global_head_dim is None,
        says(speaks(raw, "hidden_size_per_layer_input"@), "hidden_size_per_layer_input"@, v) ==> c.hidden_size_per_layer_input == if v > 0 {
            Some(v)
        } else {
            None
        },
        silent(raw, "hidden_size_per_layer_input"@) ==> c.hidden_size_per_layer_input is None,
        says(speaks(raw, "vocab_size_per_layer_input"@), "vocab_size_per_layer_input"@, v) ==> c.vocab_size_per_layer_input == if v > 0 {
            Some(v)
        } else {
            None
        },
        silent(raw, "vocab_size_per_layer_input"@) ==> c.vocab_size_per_layer_input is None,
        says(speaks(raw, "num_kv_shared_layers"@), "num_kv_shared_layers"@, v) ==> c.num_kv_shared_layers == if v > 0 {
            Some(v)
        } else {
            None
        },
        silent(raw, "num_kv_shared_layers"@) ==> c.num_kv_shared_layers is None,
        says(speaks(raw, "num_experts"@), "num_experts"@, v) ==> c.num_experts == if v > 0 {
            Some(v)
        } else {
            None
        },
        silent(raw, "num_experts"@) ==> c.num_experts is None,
        says(speaks(raw, "top_k_experts"@), "top_k_experts"@, v) ==> c.top_k_experts == if v > 0 {
            Some(v)
        } else {
            None
        },
        silent(raw, "top_k_experts"@) ==> c.top_k_experts is None,
        says(speaks(raw, "moe_intermediate_size"@), "moe_intermediate_size"@, v) ==> c.moe_intermediate_size == if v > 0 {
            Some(v)
        } else {
            None
        },
        silent(raw, "moe_intermediate_size"@) ==> c.moe_intermediate_size is None,
        c.per_layer_input_embeds <==> c.hidden_size_per_layer_input is Some
            && c.vocab_size_per_layer_input is Some,
{
    lemma_spoken_number(raw, "num_global_key_value_heads"@, v, -1);
    lemma_spoken_number(raw, "global_head_dim"@, v, -1);
    lemma_spoken_number(raw, "hidden_size_per_layer_input"@, v, -1);
    lemma_spoken_number(raw, "vocab_size_per_layer_input"@, v, -1);
    lemma_spoken_number(raw, "num_kv_shared_layers"@, v, -1);
    lemma_spoken_number(raw, "num_experts"@, v, -1);
    lemma_spoken_number(raw, "top_k_experts"@, v, -1);
    lemma_spoken_number(raw, "moe_intermediate_size"@, v, -1);
}

/// Every flag of the configuration is the one that the file gives under its name, in
/// the text section first, and a fixed one where the file gives none.
#[verifier::rlimit(40)]
pub proof fn law_flags_of_the_file(c: Gemma4Config, raw: JsonView, flag: bool)
    requires
        c.read_from(raw),
    ensures
        says_flag(speaks(raw, "tie_word_embeddings"@), "tie_word_embeddings"@, flag) ==> c.tie_word_embeddings == flag,
        silent(raw, "tie_word_embeddings"@) ==> c.tie_word_embeddings == true,
        says_flag(speaks(raw, "attention_k_eq_v"@), "attention_k_eq_v"@, flag) ==> c.attention_k_eq_v == flag,
        silent(raw, "attention_k_eq_v"@) ==> c.attention_k_eq_v == false,
        says_flag(speaks(raw, "attention_bias"@), "attention_bias"@, flag) ==> c.attention_bias == flag,
        silent(raw, "attention_bias"@) ==> c.attention_bias == false,
        says_flag(speaks(raw, "use_double_wide_mlp"@), "use_double_wide_mlp"@, flag) ==> c.use_double_wide_mlp == flag,
        silent(raw, "use_double_wide_mlp"@) ==> c.use_double_wide_mlp == true,
        says_flag(speaks(raw, "enable_moe_block"@), "enable_moe_block"@, flag) ==> c.enable_moe_block == flag,
        silent(raw, "enable_moe_block"@) ==> c.enable_moe_block == false,
        says_flag(raw, "use_block_paged_cache"@, flag) ==> c.use_block_paged_cache == Some(flag),
        raw.get("use_block_paged_cache"@) is None ==> c.use_block_paged_cache is None,
{
}

/// Doubles: the norm's epsilon is that of the file, or 1e-6; logits are capped only
/// where the file gives a cap above 0.
pub proof fn law_doubles_of_the_file(c: Gemma4Config, raw: JsonView, bits: u64)
    requires
        c.read_from(raw),
    ensures
        says_double(speaks(raw, "rms_norm_eps"@), "rms_norm_eps"@, bits) ==> c.rms_norm_eps.bits
            == bits,
        silent(raw, "rms_norm_eps"@) ==> c.rms_norm_eps.bits == 0x3eb0_c6f7_a0b5_ed8d,
        says_double(speaks(raw, "final_logit_softcapping"@), "final_logit_softcapping"@, bits) && (
        Double { bits }).positive() ==> c.final_logit_softcapping == Some(Double { bits }),
        says_double(speaks(raw, "final_logit_softcapping"@), "final_logit_softcapping"@, bits)
            && !(Double { bits }).positive() ==> c.final_logit_softcapping is None,
        silent(raw, "final_logit_softcapping"@) ==> c.final_logit_softcapping is None,
{
}

/// Tokens and sizes that stand at the top of the file; those of audio count only
/// with an audio section.
#[verifier::rlimit(40)]
pub proof fn law_tokens_of_the_file(c: Gemma4Config, raw: JsonView, v: i32)
    requires
        c.read_from(raw),
    ensures
        says(raw, "image_token_id"@, v) ==> c.image_token_id == Some(v),
        raw.get("image_token_id"@) is None ==> c.image_token_id is None,
        says(raw, "boi_token_id"@, v) ==> c.boi_token_id == Some(v),
        raw.get("boi_token_id"@) is None ==> c.boi_token_id is None,
        says(raw, "eoi_token_id"@, v) ==> c.eoi_token_id == Some(v),
        raw.get("eoi_token_id"@) is None ==> c.eoi_token_id is None,
        says(raw, "vision_soft_tokens_per_image"@, v) ==> c.vision_soft_tokens_per_image == Some(v),
        raw.get("vision_soft_tokens_per_image"@) is None ==> c.vision_soft_tokens_per_image is None,
        c.has_audio && says(raw, "audio_token_id"@, v) ==> c.audio_token_id == Some(v),
        !c.has_audio || raw.get("audio_token_id"@) is None ==> c.audio_token_id is None,
        c.has_audio && says(raw, "boa_token_id"@, v) ==> c.boa_token_id == Some(v),
        !c.has_audio || raw.get("boa_token_id"@) is None ==> c.boa_token_id is None,
        c.has_audio && says(raw, "eoa_token_index"@, v) ==> c.eoa_token_id == Some(v),
        !c.has_audio || raw.get("eoa_token_index"@) is None ==> c.eoa_token_id is None,
        !c.has_audio ==> c.audio_samples_per_token is None,
        c.has_audio && says(raw.get("audio_config"@)->0, "audio_samples_per_token"@, v)
            ==> c.audio_samples_per_token == Some(v),
        raw.get("paged_block_size"@) is None ==> c.paged_block_size is None,
        raw.get("paged_cache_memory_mb"@) is None ==> c.paged_cache_memory_mb is None,
{
}

/// The size of blocks and of the pool are those of the file, as far as they fit.
pub proof fn law_pool_settings_of_the_file(c: Gemma4Config, raw: JsonView, n: u32)
    requires
        c.read_from(raw),
    ensures
        raw.get("paged_block_size"@) is Some && raw.get("paged_block_size"@)->0.as_u64() == Some(
            n as u64,
        ) ==> c.paged_block_size == Some(n),
        raw.get("paged_cache_memory_mb"@) is Some && raw.get("paged_cache_memory_mb"@)->0.as_u64()
            == Some(n as u64) ==> c.paged_cache_memory_mb == Some(n),
{
}

/// A checkpoint of the unified family says so in its type or as its first
/// architecture. Its vision section describes an encoder-free embedder, that of
/// every other checkpoint a tower; only a unified one has audio, and only with an
/// audio section that is not null.
pub proof fn law_family_of_the_file(c: Gemma4Config, raw: JsonView, architectures: Seq<JsonView>)
    requires
        c.read_from(raw),
    ensures
        raw.get("model_type"@) == Some(JsonView::Str("gemma4_unified"@)) ==> c.is_unified,
        raw.get("architectures"@) == Some(JsonView::Array(architectures)) && architectures.len() > 0
            && architectures[0] == JsonView::Str("Gemma4UnifiedForConditionalGeneration"@)
            ==> c.is_unified,
        raw.get("model_type"@) == Some(JsonView::Str("gemma4"@)) && raw.get("architectures"@) is None
            ==> !c.is_unified,
        c.is_unified ==> c.vision_config is None && (c.unified_vision_config is Some <==> raw.get(
            "vision_config"@,
        ) is Some),
        !c.is_unified ==> c.unified_vision_config is None && !c.has_audio && (
        c.vision_config is Some <==> raw.get("vision_config"@) is Some),
        c.is_unified ==> (c.has_audio <==> raw.get("audio_config"@) is Some && !(raw.get(
            "audio_config"@,
        )->0 is Null)),
{
    reveal_strlit("gemma4");
    reveal_strlit("gemma4_unified");
    assert("gemma4"@.len() == 6 && "gemma4_unified"@.len() == 14);
}

/// The kinds of layers, the tokens that end a turn and the way attention looks at
/// images come from their own names.
#[verifier::rlimit(40)]
pub proof fn law_lists_of_the_file(
    c: Gemma4Config,
    raw: JsonView,
    items: Seq<JsonView>,
    k: int,
    word: Seq<char>,
)
    requires
        c.read_from(raw),
        0 <= k < items.len(),
    ensures
        speaks(raw, "layer_types"@).get("layer_types"@) == Some(JsonView::Array(items)) && (forall|
            i: int,
        |
            0 <= i < items.len() ==> (#[trigger] items[i]) is Str) && items.len()
            >= c.num_hidden_layers ==> c.layer_types@.len() == items.len() && Some(
            c.layer_types@[k]@,
        ) == items[k].as_str(),
        raw.get("text_config"@) is None && raw.get("eos_token_id"@) == Some(JsonView::Array(items))
            ==> c.eos_token_ids@ == eos_ids(JsonView::Array(items)),
        raw.get("text_config"@) is Some && raw.get("text_config"@)->0.get("eos_token_id"@) == Some(
            JsonView::Array(items),
        ) ==> c.eos_token_ids@ == eos_ids(JsonView::Array(items)),
        raw.get("text_config"@) is Some && raw.get("text_config"@)->0.get(
            "use_bidirectional_attention"@,
        ) == Some(JsonView::Str(word)) ==> (c.use_bidirectional_attention matches Some(t) && t@
            == word),
        raw.get("text_config"@) is None ==> c.use_bidirectional_attention is None,
{
    let text = raw.get("text_config"@);
    assert(texts(c.layer_types@).len() == c.layer_types@.len());
    if speaks(raw, "layer_types"@).get("layer_types"@) == Some(JsonView::Array(items)) && (forall|
        i: int,
    |
        0 <= i < items.len() ==> (#[trigger] items[i]) is Str) && items.len()
        >= c.num_hidden_layers {
        law_listed_kinds_are_taken(raw, text, items, c.num_hidden_layers as int, k);
        assert(texts(c.layer_types@)[k] == c.layer_types@[k]@);
    }
}

/// The rotary section is that of the text section where it has one, else that of the
/// file.
pub proof fn law_rotary_section_of_the_file(
    c: Gemma4Config,
    raw: JsonView,
    full: JsonView,
    sliding: JsonView,
    bits: u64,
)
    requires
        c.read_from(raw),
        speaks(raw, "rope_parameters"@).get("rope_parameters"@) is Some,
        speaks(raw, "rope_parameters"@).get("rope_parameters"@)->0.get("full_attention"@) == Some(
            full,
        ),
        speaks(raw, "rope_parameters"@).get("rope_parameters"@)->0.get("sliding_attention"@)
            == Some(sliding),
    ensures
        says_double(full, "rope_theta"@, bits) ==> c.rope_theta.bits == bits,
        says_double(sliding, "rope_theta"@, bits) ==> c.rope_local_base_freq.bits == bits,
        says_double(full, "partial_rotary_factor"@, bits) ==> c.partial_rotary_factor.bits == bits,
{
}

/// The generation file gives the defaults of sampling, each under its own name; what
/// it leaves out has no default. It adds tokens that end a turn and takes none away,
/// and changes nothing else.
pub proof fn law_generation_file_is_merged(
    before: Gemma4Config,
    after: Gemma4Config,
    generation: JsonView,
    v: i32,
    bits: u64,
    id: i32,
)
    requires
        generation_merged(before, after, generation),
    ensures
        says_double(generation, "temperature"@, bits) ==> after.default_temperature == Some(
            Double { bits },
        ),
        generation.get("temperature"@) is None ==> after.default_temperature is None,
        says_double(generation, "top_p"@, bits) ==> after.default_top_p == Some(Double { bits }),
        generation.get("top_p"@) is None ==> after.default_top_p is None,
        says(generation, "top_k"@, v) ==> after.default_top_k == Some(v),
        generation.get("top_k"@) is None ==> after.default_top_k is None,
        before.eos_token_ids@.contains(id) ==> after.eos_token_ids@.contains(id),
        says(generation, "eos_token_id"@, id) ==> after.eos_token_ids@.contains(id),
        after.vocab_size == before.vocab_size,
        after.layer_types == before.layer_types,
        after.bos_token_id == before.bos_token_id,
        after.use_block_paged_cache == before.use_block_paged_cache,
{
    if before.eos_token_ids@.contains(id) {
        assert(before.eos_token_ids@.to_set().contains(id));
        assert(after.eos_token_ids@.contains(id) <==> after.eos_token_ids@.to_set().contains(id));
    }
    if says(generation, "eos_token_id"@, id) {
        let value = generation.get("eos_token_id"@)->0;
        assert(added_eos(value) == seq![id]);
        assert(added_eos(value)[0] == id);
        assert(added_eos(value).to_set().contains(id));
        assert(after.eos_token_ids@.to_set().contains(id));
    }
}

/// With a draft the cache is flat, whatever the file says; without one the file
/// decides.
pub proof fn law_draft_makes_the_cache_flat(
    c: Gemma4Config,
    raw: JsonView,
    draft_requested: bool,
    generation: Option<JsonView>,
    flag: bool,
)
    requires
        assembled(c, raw, draft_requested, generation),
    ensures
        draft_requested ==> c.use_block_paged_cache == Some(false),
        !draft_requested && says_flag(raw, "use_block_paged_cache"@, flag)
            ==> c.use_block_paged_cache == Some(flag),
        !draft_requested && raw.get("use_block_paged_cache"@) is None
            ==> c.use_block_paged_cache is None,
        generation is None ==> c.default_temperature is None && c.default_top_k is None
            && c.default_top_p is None,
{
}

/// A draft is an assistant by its type, whatever its architectures; a DSpark model by
/// one of its architectures; and nothing else is a draft.
pub proof fn law_kind_of_draft(model_type: Option<Seq<char>>, architectures: Seq<Seq<char>>, k: int)
    ensures
        draft_kind(Some("gemma4_assistant"@), architectures) == Some(DraftKind::Assistant),
        draft_kind(Some("gemma4_unified_assistant"@), architectures) == Some(DraftKind::Assistant),
        model_type is None && 0 <= k < architectures.len() && architectures[k]
            == "Gemma4DSparkModel"@ ==> draft_kind(model_type, architectures) == Some(
            DraftKind::Dspark,
        ),
        model_type is None && (forall|i: int|
            0 <= i < architectures.len() ==> (#[trigger] architectures[i]) != "Gemma4DSparkModel"@)
            ==> draft_kind(model_type, architectures) is None,
{
}

/// A message about a number ends with it, and one about the file with what the parser
/// said; each begins with what it is about.
pub proof fn law_messages_about_a_config(n: i32, m: String)
    ensures
        "Failed to parse config.json: "@.is_prefix_of(ConfigError::Syntax(m).text()),
        m@.is_suffix_of(ConfigError::Syntax(m).text()),
        "invalid num_hidden_layers "@.is_prefix_of(ConfigError::NegativeLayerCount(n).text()),
        decimal(n as int).is_suffix_of(ConfigError::NegativeLayerCount(n).text()),
        "invalid sliding_window_pattern "@.is_prefix_of(
            ConfigError::NegativeLayerPattern(n).text(),
        ),
        decimal(n as int).is_suffix_of(ConfigError::NegativeLayerPattern(n).text()),
        ConfigError::Syntax(m).text().len() == "Failed to parse config.json: "@.len() + m@.len(),
        ConfigError::NegativeLayerCount(n).text().len() == "invalid num_hidden_layers "@.len()
            + decimal(n as int).len(),
        ConfigError::NegativeLayerPattern(n).text().len() == "invalid sliding_window_pattern "@.len()
            + decimal(n as int).len(),
{
    let none = Seq::<char>::empty();
    law_ends_of_a_text("Failed to parse config.json: "@, none, m@);
    law_ends_of_a_text("invalid num_hidden_layers "@, none, decimal(n as int));
    law_ends_of_a_text("invalid sliding_window_pattern "@, none, decimal(n as int));
    assert("Failed to parse config.json: "@ + none =~= "Failed to parse config.json: "@);
    assert("invalid num_hidden_layers "@ + none =~= "invalid num_hidden_layers "@);
    assert("invalid sliding_window_pattern "@ + none =~= "invalid sliding_window_pattern "@);
}

/// A file can be counted where it gives no negative number of layers and no negative period;
/// a period matters only where the kinds of the layers are not listed.
pub proof fn law_counts_that_are_accepted(raw: JsonView, n: i32, v: i32)
    ensures
        says(speaks(raw, "num_hidden_layers"@), "num_hidden_layers"@, n) && n < 0 ==> !countable(raw),
        says(speaks(raw, "sliding_window_pattern"@), "sliding_window_pattern"@, v) && v >= 0
            ==> pattern_countable(raw),
        silent(raw, "sliding_window_pattern"@) ==> pattern_countable(raw),
        says(speaks(raw, "sliding_window_pattern"@), "sliding_window_pattern"@, v) && v < 0
            && silent(raw, "layer_types"@) ==> !pattern_countable(raw) && !countable(raw),
        says(speaks(raw, "num_hidden_layers"@), "num_hidden_layers"@, n) && n >= 0 && says(
            speaks(raw, "sliding_window_pattern"@),
            "sliding_window_pattern"@,
            v,
        ) && v >= 0 ==> countable(raw),
{
    lemma_spoken_number(raw, "num_hidden_layers"@, n, 42);
    lemma_spoken_number(raw, "sliding_window_pattern"@, v, 5);
}

} // verus!
