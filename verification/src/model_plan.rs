//! What a model is built from: cache groups, the paged pool, and the optional
//! parts that a configuration calls for.

use vstd::prelude::*;
use vstd::string::*;

use crate::arith::ceil_div;
use crate::arith::div_ceil_u64;
use crate::arith::lemma_ceil_div_bounds;
use crate::config::law_anchor_owns_and_keeps;
use crate::config::Double;
use crate::config::Gemma4Config;
use crate::install_plan::has_ple;
use crate::kv::all_kinds;
use crate::kv::all_specs;
use crate::kv::block_size_of;
use crate::kv::compute_layer_kinds_from_kv_cache_specs;
use crate::kv::compute_layer_kv_cache_specs;
use crate::kv::default_memory_mb;
use crate::kv::gemma4_default_paged_cache_memory_mb;
use crate::kv::kinds_error;
use crate::kv::law_default_pool_grows;
use crate::kv::law_layout_of_layer;
use crate::kv::law_shared_layer_matches_anchor;
use crate::kv::lemma_physical_full_is_owning;
use crate::kv::owning_globals_before;
use crate::kv::paged_block_size;
use crate::kv::physical_full_attention_layer_count;
use crate::kv::lemma_physical_full_bound;
use crate::kv::physical_full_before;
use crate::kv::specs_error;
use crate::kv::AttentionKind;
use crate::kv::Gemma4LayerKind;
use crate::kv::KVCacheDType;
use crate::kv::KVCacheGroup;
use crate::kv::KVCachePhysicalLayout;
use crate::kv::KvSpecError;
use crate::kv::LayerKVCacheSpec;
use crate::text::cat;
use crate::text::decimal;
use crate::text::law_ends_of_a_text;
use crate::text::unsigned_text;

verus! {

/// What the layers of one group have in common.
#[derive(Debug, Clone, Copy, PartialEq, Eq, Structural)]
pub struct GroupKey {
    pub attention_kind: AttentionKind,
    pub physical_layout: KVCachePhysicalLayout,
}

/// The group that a layer belongs to.
pub open spec fn key_of(s: LayerKVCacheSpec) -> GroupKey {
    GroupKey { attention_kind: s.attention_kind, physical_layout: s.physical_layout }
}

/// The groups of the layers before `upto`, in the order of their first layers.
pub open spec fn group_keys(specs: Seq<LayerKVCacheSpec>, upto: int) -> Seq<GroupKey>
    decreases upto,
{
    if upto <= 0 {
        Seq::empty()
    } else {
        let keys = group_keys(specs, upto - 1);
        if keys.contains(key_of(specs[upto - 1])) {
            keys
        } else {
            keys.push(key_of(specs[upto - 1]))
        }
    }
}

/// The layers before `upto` of a group; with `physical`, those that store keys
/// and values.
pub open spec fn members(
    specs: Seq<LayerKVCacheSpec>,
    key: GroupKey,
    physical: bool,
    upto: int,
) -> Seq<usize>
    decreases upto,
{
    if upto <= 0 {
        Seq::empty()
    } else {
        let s = specs[upto - 1];
        let before = members(specs, key, physical, upto - 1);
        if key_of(s) == key && (!physical || s.shared_kv_anchor is None) {
            before.push(s.layer_index)
        } else {
            before
        }
    }
}

/// Blocks that one sequence can hold at once in a group. A window that is one
/// token short of full, plus a chunk, need not start at a block boundary.
pub open spec fn admission_blocks(key: GroupKey, max_model_len: int, max_chunk: int) -> int {
    let block = key.physical_layout.block_size as int;
    match key.attention_kind {
        AttentionKind::Full => ceil_div(max_model_len, block),
        AttentionKind::SlidingWindow { sliding_window } => ceil_div(
            sliding_window - 1 + max_chunk,
            block,
        ) + 1,
    }
}

/// The group `g` is the one of `key` among the layers.
pub open spec fn group_is(
    g: KVCacheGroup,
    key: GroupKey,
    specs: Seq<LayerKVCacheSpec>,
    max_model_len: int,
    max_chunk: int,
) -> bool {
    &&& g.attention_kind == key.attention_kind
    &&& g.physical_layout == key.physical_layout
    &&& g.layer_indices@ == members(specs, key, false, specs.len() as int)
    &&& g.physical_layer_indices@ == members(specs, key, true, specs.len() as int)
    &&& g.max_admission_blocks == admission_blocks(key, max_model_len, max_chunk)
}

fn collect_members(specs: &Vec<LayerKVCacheSpec>, key: GroupKey, physical: bool) -> (r: Vec<usize>)
    ensures
        r@ == members(specs@, key, physical, specs@.len() as int),
{
    let mut out: Vec<usize> = Vec::new();
    let mut i: usize = 0;
    while i < specs.len()
        invariant
            i <= specs@.len(),
            out@ == members(specs@, key, physical, i as int),
        decreases specs@.len() - i,
    {
        let s: LayerKVCacheSpec = specs[i];
        if s.attention_kind == key.attention_kind && s.physical_layout == key.physical_layout && (
        !physical || s.shared_kv_anchor.is_none()) {
            out.push(s.layer_index);
        }
        i += 1;
    }
    out
}

fn holds_key(keys: &Vec<GroupKey>, key: GroupKey) -> (r: bool)
    ensures
        r == keys@.contains(key),
{
    let mut i: usize = 0;
    while i < keys.len()
        invariant
            i <= keys@.len(),
            forall|k: int| 0 <= k < i ==> keys@[k] != key,
        decreases keys@.len() - i,
    {
        if keys[i] == key {
            return true;
        }
        i += 1;
    }
    false
}

fn collect_keys(specs: &Vec<LayerKVCacheSpec>) -> (r: Vec<GroupKey>)
    ensures
        r@ == group_keys(specs@, specs@.len() as int),
{
    let mut keys: Vec<GroupKey> = Vec::new();
    let mut i: usize = 0;
    while i < specs.len()
        invariant
            i <= specs@.len(),
            keys@ == group_keys(specs@, i as int),
        decreases specs@.len() - i,
    {
        let key = GroupKey {
            attention_kind: specs[i].attention_kind,
            physical_layout: specs[i].physical_layout,
        };
        if !holds_key(&keys, key) {
            keys.push(key);
        }
        i += 1;
    }
    keys
}

/// The groups of all layers: one for each pair of attention kind and block
/// layout, in the order of their first layers.
pub fn compute_layer_kv_cache_groups(
    config: &Gemma4Config,
    block_size: u32,
    cache_dtype: KVCacheDType,
    max_chunk: u32,
) -> (r: Result<Vec<KVCacheGroup>, KvSpecError>)
    requires
        config.wf(),
    ensures
        match specs_error(*config, block_size) {
            Some(e) => r == Err::<Vec<KVCacheGroup>, KvSpecError>(e),
            None => if config.max_position_embeddings < 0 {
                r == Err::<Vec<KVCacheGroup>, KvSpecError>(
                    KvSpecError::MaxPositions {
                        max_position_embeddings: config.max_position_embeddings,
                    },
                )
            } else {
                let specs = all_specs(*config, block_size, cache_dtype);
                let keys = group_keys(specs, specs.len() as int);
                r matches Ok(groups) && groups@.len() == keys.len() && forall|g: int|
                    0 <= g < keys.len() ==> group_is(
                        #[trigger] groups@[g],
                        keys[g],
                        specs,
                        config.max_position_embeddings as int,
                        max_chunk as int,
                    )
            },
        },
{
    match compute_layer_kv_cache_specs(config, block_size, cache_dtype) {
        Err(e) => Err(e),
        Ok(specs) => {
            if config.max_position_embeddings < 0 {
                return Err(
                    KvSpecError::MaxPositions {
                        max_position_embeddings: config.max_position_embeddings,
                    },
                );
            }
            let keys = collect_keys(&specs);
            let mut groups: Vec<KVCacheGroup> = Vec::new();
            let mut g: usize = 0;
            while g < keys.len()
                invariant
                    specs_error(*config, block_size) is None,
                    config.max_position_embeddings >= 0,
                    specs@ == all_specs(*config, block_size, cache_dtype),
                    keys@ == group_keys(specs@, specs@.len() as int),
                    g <= keys@.len(),
                    groups@.len() == g,
                    forall|k: int|
                        0 <= k < g ==> group_is(
                            #[trigger] groups@[k],
                            keys@[k],
                            specs@,
                            config.max_position_embeddings as int,
                            max_chunk as int,
                        ),
                decreases keys@.len() - g,
            {
                let key: GroupKey = keys[g];
                proof {
                    lemma_keys_have_layers(specs@, specs@.len() as int, g as int);
                }
                let block: u64 = key.physical_layout.block_size as u64;
                let max_admission_blocks: u64 = match key.attention_kind {
                    AttentionKind::Full => div_ceil_u64(
                        config.max_position_embeddings as u64,
                        block,
                    ),
                    AttentionKind::SlidingWindow { sliding_window } => {
                        proof {
                            lemma_ceil_div_bounds(sliding_window - 1 + max_chunk, block as int);
                        }
                        div_ceil_u64(sliding_window as u64 - 1 + max_chunk as u64, block) + 1
                    },
                };
                groups.push(
                    KVCacheGroup {
                        attention_kind: key.attention_kind,
                        physical_layout: key.physical_layout,
                        layer_indices: collect_members(&specs, key, false),
                        physical_layer_indices: collect_members(&specs, key, true),
                        max_admission_blocks,
                    },
                );
                g += 1;
            }
            Ok(groups)
        },
    }
}

/// Every group has a layer, and no two groups are the same.
proof fn lemma_keys_have_layers(specs: Seq<LayerKVCacheSpec>, upto: int, g: int)
    requires
        0 <= g < group_keys(specs, upto).len(),
    ensures
        exists|i: int|
            0 <= i < upto && key_of(#[trigger] specs[i]) == group_keys(specs, upto)[g],
    decreases upto,
{
    let keys = group_keys(specs, upto - 1);
    if g < keys.len() {
        lemma_keys_have_layers(specs, upto - 1, g);
        let i = choose|i: int| 0 <= i < upto - 1 && key_of(#[trigger] specs[i]) == keys[g];
        assert(key_of(specs[i]) == group_keys(specs, upto)[g]);
    } else {
        assert(key_of(specs[upto - 1]) == group_keys(specs, upto)[g]);
    }
}

proof fn lemma_keys_distinct(specs: Seq<LayerKVCacheSpec>, upto: int)
    ensures
        group_keys(specs, upto).no_duplicates(),
    decreases upto,
{
    if upto > 0 {
        lemma_keys_distinct(specs, upto - 1);
    }
}

proof fn lemma_layer_has_key(specs: Seq<LayerKVCacheSpec>, upto: int, i: int)
    requires
        0 <= i < upto,
    ensures
        group_keys(specs, upto).contains(key_of(specs[i])),
    decreases upto,
{
    let keys = group_keys(specs, upto - 1);
    if i < upto - 1 {
        lemma_layer_has_key(specs, upto - 1, i);
        let g = choose|g: int| 0 <= g < keys.len() && keys[g] == key_of(specs[i]);
        assert(group_keys(specs, upto)[g] == key_of(specs[i]));
    } else {
        if !keys.contains(key_of(specs[i])) {
            assert(group_keys(specs, upto).last() == key_of(specs[i]));
        }
    }
}

/// Every layer is in exactly one group.
pub proof fn law_layer_in_one_group(specs: Seq<LayerKVCacheSpec>, i: int)
    requires
        0 <= i < specs.len(),
    ensures
        exists|g: int|
            0 <= g < group_keys(specs, specs.len() as int).len() && #[trigger] group_keys(
                specs,
                specs.len() as int,
            )[g] == key_of(specs[i]),
        forall|g: int, h: int|
            0 <= g < group_keys(specs, specs.len() as int).len() && 0 <= h < group_keys(
                specs,
                specs.len() as int,
            ).len() && #[trigger] group_keys(specs, specs.len() as int)[g] == key_of(specs[i])
                && #[trigger] group_keys(specs, specs.len() as int)[h] == key_of(specs[i]) ==> g
                == h,
{
    lemma_layer_has_key(specs, specs.len() as int, i);
    lemma_keys_distinct(specs, specs.len() as int);
}

/// Some layer is global.
pub open spec fn has_global(c: Gemma4Config) -> bool {
    exists|i: int| 0 <= i < c.layers() && #[trigger] c.global_at(i)
}

/// All global layers are in one group, which exists where there is one.
pub proof fn law_one_full_group(c: Gemma4Config, block_size: u32, dtype: KVCacheDType, g: int, h: int)
    requires
        c.wf(),
        specs_error(c, block_size) is None,
        0 <= g < group_keys(all_specs(c, block_size, dtype), c.layers()).len(),
        0 <= h < group_keys(all_specs(c, block_size, dtype), c.layers()).len(),
        group_keys(all_specs(c, block_size, dtype), c.layers())[g].attention_kind
            == AttentionKind::Full,
        group_keys(all_specs(c, block_size, dtype), c.layers())[h].attention_kind
            == AttentionKind::Full,
    ensures
        g == h,
        group_keys(all_specs(c, block_size, dtype), c.layers())[g].physical_layout
            == (KVCachePhysicalLayout {
            block_size,
            num_kv_heads: c.kv_heads_of(true) as u32,
            head_size: c.head_dim_of(true) as u32,
            cache_dtype: dtype,
        }),
        has_global(c),
{
    let specs = all_specs(c, block_size, dtype);
    let n = c.layers();
    lemma_keys_have_layers(specs, n, g);
    lemma_keys_have_layers(specs, n, h);
    lemma_keys_distinct(specs, n);
    let i = choose|i: int| 0 <= i < n && key_of(#[trigger] specs[i]) == group_keys(specs, n)[g];
    let j = choose|j: int| 0 <= j < n && key_of(#[trigger] specs[j]) == group_keys(specs, n)[h];
    assert(c.global_at(i));
    assert(c.global_at(j));
}

/// Why no paged pool can be built.
#[derive(Debug, Clone, Copy, PartialEq, Eq, Structural)]
pub enum AdapterError {
    Specs { error: KvSpecError },
    Groups { error: KvSpecError },
    NoFullGroup,
    ZeroMaxPositions,
    MemoryTooSmall {
        gpu_memory_mb: u32,
        head_size: u32,
        num_kv_heads: u32,
        block_size: u32,
        num_layers: u32,
    },
    Routes { error: KvSpecError },
}

impl AdapterError {
    /// The message shown to a caller.
    pub open spec fn text(self) -> Seq<char> {
        match self {
            AdapterError::Specs {
                error,
            } => "Gemma4 block-paged adapter: failed to build KV cache specs: "@ + error.text(),
            AdapterError::Groups {
                error,
            } => "Gemma4 block-paged adapter: failed to group KV cache specs: "@ + error.text(),
            AdapterError::NoFullGroup =>
                "Gemma4 block-paged adapter: config has no full_attention KV group; paged KV cache requires at least one global attention layer"@,
            AdapterError::ZeroMaxPositions =>
                "Gemma4 block-paged adapter: max_position_embeddings must be > 0"@,
            AdapterError::MemoryTooSmall {
                gpu_memory_mb,
                head_size,
                num_kv_heads,
                block_size,
                num_layers,
            } => "Gemma4 block-paged adapter: gpu_memory_mb="@ + decimal(gpu_memory_mb as int)
                + " too small (head_size="@ + decimal(head_size as int) + ", num_kv_heads="@
                + decimal(num_kv_heads as int) + ", block_size="@ + decimal(block_size as int)
                + ", num_global_layers="@ + decimal(num_layers as int) + ")"@,
            AdapterError::Routes {
                error,
            } => "Gemma4Inner::new: failed to derive cached layer-kind routes: "@ + error.text(),
        }
    }

    /// The message shown to a caller.
    pub fn message(&self) -> (r: String)
        ensures
            r@ == self.text(),
    {
        match *self {
            AdapterError::Specs { error } => cat(
                "Gemma4 block-paged adapter: failed to build KV cache specs: ",
                error.message().as_str(),
            ),
            AdapterError::Groups { error } => cat(
                "Gemma4 block-paged adapter: failed to group KV cache specs: ",
                error.message().as_str(),
            ),
            AdapterError::NoFullGroup => String::from_str(
                "Gemma4 block-paged adapter: config has no full_attention KV group; paged KV cache requires at least one global attention layer",
            ),
            AdapterError::ZeroMaxPositions => String::from_str(
                "Gemma4 block-paged adapter: max_position_embeddings must be > 0",
            ),
            AdapterError::MemoryTooSmall {
                gpu_memory_mb,
                head_size,
                num_kv_heads,
                block_size,
                num_layers,
            } => {
                let mut out = cat(
                    "Gemma4 block-paged adapter: gpu_memory_mb=",
                    unsigned_text(gpu_memory_mb as u64).as_str(),
                );
                out.append(" too small (head_size=");
                out.append(unsigned_text(head_size as u64).as_str());
                out.append(", num_kv_heads=");
                out.append(unsigned_text(num_kv_heads as u64).as_str());
                out.append(", block_size=");
                out.append(unsigned_text(block_size as u64).as_str());
                out.append(", num_global_layers=");
                out.append(unsigned_text(num_layers as u64).as_str());
                out.append(")");
                out
            },
            AdapterError::Routes { error } => cat(
                "Gemma4Inner::new: failed to derive cached layer-kind routes: ",
                error.message().as_str(),
            ),
        }
    }
}

/// The pool to build, as the paged-attention engine takes it.
#[derive(Debug, Clone, Copy, PartialEq, Eq, Structural)]
pub struct PagedPoolPlan {
    pub block_size: u32,
    pub gpu_memory_mb: u32,
    /// Whether the memory size comes from the configuration.
    pub memory_configured: bool,
    pub head_size: u32,
    pub num_kv_heads: u32,
    /// Global layers that store keys and values.
    pub num_layers: u32,
    pub use_fp8_cache: bool,
    pub max_seq_len: u32,
    pub max_batch_size: u32,
    /// Number of cache groups.
    pub kv_groups: usize,
    pub full_group_max_admission_blocks: u64,
}

/// What keeps the pool from being built, if anything.
pub open spec fn pool_error(c: Gemma4Config) -> Option<AdapterError> {
    match specs_error(c, block_size_of(c)) {
        Some(error) => Some(AdapterError::Specs { error }),
        None => if c.max_position_embeddings < 0 {
            Some(
                AdapterError::Groups {
                    error: KvSpecError::MaxPositions {
                        max_position_embeddings: c.max_position_embeddings,
                    },
                },
            )
        } else if !has_global(c) {
            Some(AdapterError::NoFullGroup)
        } else if c.max_position_embeddings == 0 {
            Some(AdapterError::ZeroMaxPositions)
        } else {
            None
        },
    }
}

/// Whether the paged cache is used: on unless switched off, where the backend
/// has its kernels.
pub open spec fn paged_wanted(c: Gemma4Config, backend_available: bool) -> bool {
    c.use_block_paged_cache != Some(false) && backend_available
}

/// Global layers that store keys and values.
pub open spec fn physical_global_layers(c: Gemma4Config) -> int {
    physical_full_before(
        all_specs(c, block_size_of(c), KVCacheDType::BFloat16),
        c.layers(),
    ) as int
}

/// The pool of a configuration.
pub open spec fn pool_of(c: Gemma4Config) -> PagedPoolPlan {
    let block_size = block_size_of(c);
    let head_size = c.head_dim_of(true) as u32;
    let num_kv_heads = c.kv_heads_of(true) as u32;
    let num_layers = physical_global_layers(c) as u32;
    PagedPoolPlan {
        block_size,
        gpu_memory_mb: match c.paged_cache_memory_mb {
            Some(mb) => mb,
            None => default_memory_mb(
                c.max_position_embeddings as int,
                block_size as int,
                head_size as int,
                num_kv_heads as int,
                num_layers as int,
            ) as u32,
        },
        memory_configured: c.paged_cache_memory_mb is Some,
        head_size,
        num_kv_heads,
        num_layers,
        use_fp8_cache: false,
        max_seq_len: c.max_position_embeddings as u32,
        max_batch_size: 32,
        kv_groups: group_keys(
            all_specs(c, block_size, KVCacheDType::BFloat16),
            c.layers(),
        ).len() as usize,
        full_group_max_admission_blocks: ceil_div(
            c.max_position_embeddings as int,
            block_size as int,
        ) as u64,
    }
}

/// The pool that a configuration calls for; none where the cache is flat.
pub fn plan_paged_pool(config: &Gemma4Config, backend_available: bool, max_chunk: u32) -> (r:
    Result<Option<PagedPoolPlan>, AdapterError>)
    requires
        config.wf(),
    ensures
        !paged_wanted(*config, backend_available) ==> r == Ok::<_, AdapterError>(
            None::<PagedPoolPlan>,
        ),
        paged_wanted(*config, backend_available) ==> match pool_error(*config) {
            Some(e) => r == Err::<Option<PagedPoolPlan>, AdapterError>(e),
            None => r == Ok::<_, AdapterError>(Some(pool_of(*config))),
        },
{
    let wanted: bool = match config.use_block_paged_cache {
        Some(b) => b,
        None => true,
    };
    if !wanted || !backend_available {
        return Ok(None);
    }
    let block_size: u32 = paged_block_size(config);
    let ghost all = all_specs(*config, block_size, KVCacheDType::BFloat16);
    let specs = match compute_layer_kv_cache_specs(config, block_size, KVCacheDType::BFloat16) {
        Err(error) => {
            return Err(AdapterError::Specs { error });
        },
        Ok(specs) => specs,
    };
    let groups = match compute_layer_kv_cache_groups(
        config,
        block_size,
        KVCacheDType::BFloat16,
        max_chunk,
    ) {
        Err(error) => {
            return Err(AdapterError::Groups { error });
        },
        Ok(groups) => groups,
    };
    let ghost keys = group_keys(all, config.layers());
    let mut full: Option<usize> = None;
    let mut g: usize = 0;
    while g < groups.len()
        invariant
            g <= groups@.len(),
            groups@.len() == keys.len(),
            forall|k: int| 0 <= k < keys.len() ==> (#[trigger] groups@[k]).attention_kind
                == keys[k].attention_kind,
            match full {
                None => forall|k: int| 0 <= k < g ==> (#[trigger] keys[k]).attention_kind
                    != AttentionKind::Full,
                Some(f) => f < g && keys[f as int].attention_kind == AttentionKind::Full,
            },
        decreases groups@.len() - g,
    {
        if full.is_none() && groups[g].attention_kind == AttentionKind::Full {
            full = Some(g);
        }
        assert(keys[g as int].attention_kind == groups@[g as int].attention_kind);
        g += 1;
    }
    match full {
        None => {
            proof {
                if has_global(*config) {
                    let i = choose|i: int|
                        0 <= i < config.layers() && #[trigger] config.global_at(i);
                    lemma_layer_has_key(all, config.layers(), i);
                    let k = choose|k: int| 0 <= k < keys.len() && keys[k] == key_of(all[i]);
                    assert(keys[k].attention_kind == AttentionKind::Full);
                }
            }
            Err(AdapterError::NoFullGroup)
        },
        Some(f) => {
            proof {
                law_one_full_group(
                    *config,
                    block_size,
                    KVCacheDType::BFloat16,
                    f as int,
                    f as int,
                );
                lemma_physical_full_bound(specs@, specs@.len() as int);
            }
            let num_layers: u32 = physical_full_attention_layer_count(&specs) as u32;
            if config.max_position_embeddings == 0 {
                return Err(AdapterError::ZeroMaxPositions);
            }
            let max_seq_len: u32 = config.max_position_embeddings as u32;
            let head_size: u32 = groups[f].physical_layout.head_size;
            let num_kv_heads: u32 = groups[f].physical_layout.num_kv_heads;
            let default_mb: u32 = gemma4_default_paged_cache_memory_mb(
                max_seq_len,
                block_size,
                head_size,
                num_kv_heads,
                num_layers,
            );
            let gpu_memory_mb: u32 = match config.paged_cache_memory_mb {
                Some(mb) => mb,
                None => default_mb,
            };
            assert(group_is(
                groups@[f as int],
                keys[f as int],
                all,
                config.max_position_embeddings as int,
                max_chunk as int,
            ));
            Ok(
                Some(
                    PagedPoolPlan {
                        block_size,
                        gpu_memory_mb,
                        memory_configured: config.paged_cache_memory_mb.is_some(),
                        head_size,
                        num_kv_heads,
                        num_layers,
                        use_fp8_cache: false,
                        max_seq_len,
                        max_batch_size: 32,
                        kv_groups: groups.len(),
                        full_group_max_admission_blocks: groups[f].max_admission_blocks,
                    },
                ),
            )
        },
    }
}

/// A pool that can be built has a layer to store: where some layer is global,
/// one of them has keys and values of its own.
pub proof fn law_pool_stores_a_layer(c: Gemma4Config)
    requires
        c.wf(),
        pool_error(c) is None,
    ensures
        physical_global_layers(c) >= 1,
{
    let specs = all_specs(c, block_size_of(c), KVCacheDType::BFloat16);
    let i = choose|i: int| 0 <= i < c.layers() && #[trigger] c.global_at(i);
    law_shared_layer_matches_anchor(c, block_size_of(c), KVCacheDType::BFloat16, i);
    if c.shared_at(i) {
        law_anchor_owns_and_keeps(c, i);
        lemma_full_member(specs, c.anchor_of(i)->0, c.layers());
    } else {
        lemma_full_member(specs, i, c.layers());
    }
}

proof fn lemma_full_member(specs: Seq<LayerKVCacheSpec>, i: int, upto: int)
    requires
        0 <= i < upto,
        specs[i].shared_kv_anchor is None,
        specs[i].attention_kind == AttentionKind::Full,
    ensures
        physical_full_before(specs, upto) >= 1,
    decreases upto,
{
    if i < upto - 1 {
        lemma_full_member(specs, i, upto - 1);
    }
}

/// Accepts the number of blocks that the pool's memory holds.
pub fn check_pool_blocks(plan: &PagedPoolPlan, num_blocks: u32) -> (r: Result<u32, AdapterError>)
    ensures
        r == if num_blocks == 0 {
            Err::<u32, AdapterError>(
                AdapterError::MemoryTooSmall {
                    gpu_memory_mb: plan.gpu_memory_mb,
                    head_size: plan.head_size,
                    num_kv_heads: plan.num_kv_heads,
                    block_size: plan.block_size,
                    num_layers: plan.num_layers,
                },
            )
        } else {
            Ok::<u32, AdapterError>(num_blocks)
        },
{
    if num_blocks == 0 {
        Err(
            AdapterError::MemoryTooSmall {
                gpu_memory_mb: plan.gpu_memory_mb,
                head_size: plan.head_size,
                num_kv_heads: plan.num_kv_heads,
                block_size: plan.block_size,
                num_layers: plan.num_layers,
            },
        )
    } else {
        Ok(num_blocks)
    }
}

/// The routes of a model: those of all layers where the cache is paged, none
/// where it is flat.
pub fn plan_layer_kinds(config: &Gemma4Config, paged: bool) -> (r: Result<
    Vec<Gemma4LayerKind>,
    AdapterError,
>)
    requires
        config.wf(),
    ensures
        !paged ==> (r matches Ok(kinds) && kinds@ == Seq::<Gemma4LayerKind>::empty()),
        paged ==> match kinds_error(*config) {
            Some(error) => r == Err::<Vec<Gemma4LayerKind>, AdapterError>(
                AdapterError::Routes { error },
            ),
            None => r matches Ok(kinds) && kinds@ == all_kinds(*config, block_size_of(*config)),
        },
{
    if !paged {
        return Ok(Vec::new());
    }
    match compute_layer_kinds_from_kv_cache_specs(config) {
        Ok(kinds) => Ok(kinds),
        Err(error) => Err(AdapterError::Routes { error }),
    }
}

/// Wherever the pool can be built, the routes can be derived.
pub proof fn law_pool_implies_routes(c: Gemma4Config)
    requires
        c.wf(),
        pool_error(c) is None,
    ensures
        kinds_error(c) is None,
{
}

/// Per-layer embedding tables of a model.
#[derive(Debug, Clone, Copy, PartialEq, Eq, Structural)]
pub struct PlePlan {
    pub vocab_size: i32,
    pub ple_dim: i32,
    pub num_layers: i32,
    /// Width of the table: one embedding for each layer.
    pub total_dim: i32,
}

/// The vision part of a model.
#[derive(Debug, Clone, Copy, PartialEq, Eq, Structural)]
pub enum VisionPlan {
    Absent,
    /// SigLIP tower, multimodal projection and image processor.
    Tower {
        embedder_input: Option<i32>,
        rms_norm_eps: Option<Double>,
        patch_size: Option<i32>,
        max_soft_tokens: Option<i32>,
        pooling_kernel_size: Option<i32>,
    },
    /// Encoder-free embedder, multimodal projection and image processor.
    Unified {
        embedder_input: Option<i32>,
        rms_norm_eps: Option<Double>,
        patch_size: Option<i32>,
        max_soft_tokens: Option<i32>,
        pooling_kernel_size: Option<i32>,
        model_patch_size: Option<i32>,
    },
}

/// The optional parts of a model.
#[derive(Debug, Clone, Copy, PartialEq, Eq, Structural)]
pub struct ComponentPlan {
    /// Whether the output projection is a table of its own.
    pub lm_head: bool,
    pub ple: Option<PlePlan>,
    pub vision: VisionPlan,
    /// Samples of one audio window, where the model takes audio.
    pub audio_input: Option<i32>,
}

/// The per-layer embedding tables that a configuration calls for.
pub open spec fn ple_of(c: Gemma4Config) -> Option<PlePlan> {
    match (c.per_layer_input_embeds, c.hidden_size_per_layer_input, c.vocab_size_per_layer_input) {
        (true, Some(dim), Some(vocab)) => if dim > 0 && vocab > 0 {
            Some(
                PlePlan {
                    vocab_size: vocab,
                    ple_dim: dim,
                    num_layers: c.num_hidden_layers,
                    total_dim: (c.num_hidden_layers * dim) as i32,
                },
            )
        } else {
            None
        },
        _ => None,
    }
}

/// The vision part that a configuration calls for; a tower goes before the
/// encoder-free embedder.
pub open spec fn vision_plan_of(c: Gemma4Config) -> VisionPlan {
    match (c.vision_config, c.unified_vision_config) {
        (Some(v), _) => VisionPlan::Tower {
            embedder_input: v.hidden_size,
            rms_norm_eps: v.rms_norm_eps,
            patch_size: v.patch_size,
            max_soft_tokens: v.default_output_length,
            pooling_kernel_size: v.pooling_kernel_size,
        },
        (None, Some(u)) => VisionPlan::Unified {
            embedder_input: u.output_proj_dims,
            rms_norm_eps: u.rms_norm_eps,
            patch_size: u.patch_size,
            max_soft_tokens: u.num_soft_tokens,
            pooling_kernel_size: u.pooling_kernel_size,
            model_patch_size: u.model_patch_size,
        },
        (None, None) => VisionPlan::Absent,
    }
}

/// The optional parts that a configuration calls for.
pub fn plan_components(config: &Gemma4Config) -> (r: ComponentPlan)
    requires
        config.wf(),
        has_ple(*config) ==> config.num_hidden_layers * config.hidden_size_per_layer_input->0
            <= i32::MAX,
    ensures
        r.lm_head == !config.tie_word_embeddings,
        r.ple == ple_of(*config),
        r.vision == vision_plan_of(*config),
        r.audio_input == if config.has_audio {
            Some(
                match config.audio_samples_per_token {
                    Some(n) => n,
                    None => 640i32,
                },
            )
        } else {
            None
        },
{
    let ple: Option<PlePlan> = match (
        config.per_layer_input_embeds,
        config.hidden_size_per_layer_input,
        config.vocab_size_per_layer_input,
    ) {
        (true, Some(dim), Some(vocab)) => if dim > 0 && vocab > 0 {
            proof {
                let n = config.num_hidden_layers as int;
                let d = dim as int;
                assert(n * d >= 0) by (nonlinear_arith)
                    requires
                        n >= 0,
                        d > 0,
                ;
            }
            Some(
                PlePlan {
                    vocab_size: vocab,
                    ple_dim: dim,
                    num_layers: config.num_hidden_layers,
                    total_dim: config.num_hidden_layers * dim,
                },
            )
        } else {
            None
        },
        _ => None,
    };
    let vision: VisionPlan = match (config.vision_config, config.unified_vision_config) {
        (Some(v), _) => VisionPlan::Tower {
            embedder_input: v.hidden_size,
            rms_norm_eps: v.rms_norm_eps,
            patch_size: v.patch_size,
            max_soft_tokens: v.default_output_length,
            pooling_kernel_size: v.pooling_kernel_size,
        },
        (None, Some(u)) => VisionPlan::Unified {
            embedder_input: u.output_proj_dims,
            rms_norm_eps: u.rms_norm_eps,
            patch_size: u.patch_size,
            max_soft_tokens: u.num_soft_tokens,
            pooling_kernel_size: u.pooling_kernel_size,
            model_patch_size: u.model_patch_size,
        },
        (None, None) => VisionPlan::Absent,
    };
    let audio_input: Option<i32> = if config.has_audio {
        match config.audio_samples_per_token {
            Some(n) => Some(n),
            None => Some(640),
        }
    } else {
        None
    };
    ComponentPlan { lm_head: !config.tie_word_embeddings, ple, vision, audio_input }
}

/// The pool of a model, from the fields of its configuration: the blocks, heads and
/// head size of global layers, one slot for each global layer with keys and values of
/// its own, and room for the whole context.
#[verifier::rlimit(40)]
pub proof fn law_pool_of_model(c: Gemma4Config)
    requires
        c.wf(),
        pool_error(c) is None,
    ensures
        ({
            let p = pool_of(c);
            &&& p.block_size == if c.paged_block_size is Some {
                c.paged_block_size->0
            } else {
                16
            }
            &&& p.head_size == if c.global_head_dim is Some {
                c.global_head_dim->0
            } else {
                c.head_dim
            }
            &&& p.num_kv_heads == if c.global_num_key_value_heads is Some {
                c.global_num_key_value_heads->0
            } else {
                c.num_key_value_heads
            }
            &&& p.num_layers == owning_globals_before(c, c.num_hidden_layers as int)
            &&& p.max_seq_len == c.max_position_embeddings
            &&& p.max_batch_size == 32
            &&& !p.use_fp8_cache
            &&& c.paged_cache_memory_mb is Some ==> p.memory_configured && p.gpu_memory_mb
                == c.paged_cache_memory_mb->0
            &&& c.paged_cache_memory_mb is None ==> !p.memory_configured && p.gpu_memory_mb
                == default_memory_mb(
                p.max_seq_len as int,
                p.block_size as int,
                p.head_size as int,
                p.num_kv_heads as int,
                p.num_layers as int,
            )
            &&& p.full_group_max_admission_blocks * p.block_size >= c.max_position_embeddings
            &&& p.full_group_max_admission_blocks * p.block_size < c.max_position_embeddings
                + p.block_size
        }),
{
    let b = block_size_of(c);
    let i = choose|i: int| 0 <= i < c.layers() && #[trigger] c.global_at(i);
    law_layout_of_layer(c, b, KVCacheDType::BFloat16, i);
    lemma_physical_full_is_owning(c, b, KVCacheDType::BFloat16, c.layers());
    lemma_physical_full_bound(all_specs(c, b, KVCacheDType::BFloat16), c.layers());
    lemma_ceil_div_bounds(c.max_position_embeddings as int, b as int);
    law_default_pool_grows(
        c.max_position_embeddings as int,
        b as int,
        c.head_dim_of(true) as int,
        c.kv_heads_of(true) as int,
        physical_global_layers(c),
        physical_global_layers(c),
    );
    let n = ceil_div(c.max_position_embeddings as int, b as int);
    assert(b * n == n * b) by (nonlinear_arith);
}

/// A paged pool is built unless the configuration says no, where its kernels are
/// there; it can be built exactly where the cache can be laid out, some layer is
/// global and the context is not empty.
pub proof fn law_pool_is_built(c: Gemma4Config, backend_available: bool)
    requires
        c.wf(),
    ensures
        c.use_block_paged_cache == Some(false) ==> !paged_wanted(c, backend_available),
        c.use_block_paged_cache != Some(false) ==> paged_wanted(c, backend_available)
            == backend_available,
        pool_error(c) is None <==> specs_error(c, block_size_of(c)) is None && (exists|i: int|
            0 <= i < c.num_hidden_layers && #[trigger] c.global_at(i))
            && c.max_position_embeddings > 0,
{
}

/// Layers are in one group exactly where they attend alike and store alike: the
/// members of the group of layer `i` are the layers that do as it does, and of those
/// the ones without an anchor store.
pub proof fn law_members_of_a_group(specs: Seq<LayerKVCacheSpec>, i: int, j: int)
    requires
        0 <= i < specs.len(),
        0 <= j < specs.len(),
        forall|k: int| 0 <= k < specs.len() ==> (#[trigger] specs[k]).layer_index == k,
    ensures
        members(specs, key_of(specs[i]), false, specs.len() as int).contains(j as usize)
            <==> specs[j].attention_kind == specs[i].attention_kind && specs[j].physical_layout
            == specs[i].physical_layout,
        members(specs, key_of(specs[i]), true, specs.len() as int).contains(j as usize)
            <==> specs[j].attention_kind == specs[i].attention_kind && specs[j].physical_layout
            == specs[i].physical_layout && specs[j].shared_kv_anchor is None,
{
    lemma_members(specs, key_of(specs[i]), false, specs.len() as int, j);
    lemma_members(specs, key_of(specs[i]), true, specs.len() as int, j);
}

proof fn lemma_members(
    specs: Seq<LayerKVCacheSpec>,
    key: GroupKey,
    physical: bool,
    upto: int,
    j: int,
)
    requires
        0 <= upto <= specs.len(),
        0 <= j < specs.len(),
        forall|k: int| 0 <= k < specs.len() ==> (#[trigger] specs[k]).layer_index == k,
    ensures
        members(specs, key, physical, upto).contains(j as usize) <==> j < upto && key_of(specs[j])
            == key && (!physical || specs[j].shared_kv_anchor is None),
    decreases upto,
{
    if upto > 0 {
        lemma_members(specs, key, physical, upto - 1, j);
        let before = members(specs, key, physical, upto - 1);
        let all = members(specs, key, physical, upto);
        assert(specs[upto - 1].layer_index == upto - 1);
        if all.len() > before.len() {
            assert(all.last() == (upto - 1) as usize);
            assert forall|x: usize| all.contains(x) <==> before.contains(x) || x == (upto
                - 1) as usize by {
                if before.contains(x) {
                    let k = choose|k: int| 0 <= k < before.len() && before[k] == x;
                    assert(all[k] == x);
                }
                if x == (upto - 1) as usize {
                    assert(all[all.len() - 1] == x);
                }
                if all.contains(x) {
                    let k = choose|k: int| 0 <= k < all.len() && all[k] == x;
                    if k < before.len() {
                        assert(before[k] == x);
                    }
                }
            }
        }
    }
}

/// A group admits what it has to hold: the whole context, or the window behind a
/// chunk, in whole blocks and a block to spare.
pub proof fn law_group_admits_what_it_holds(key: GroupKey, max_model_len: int, max_chunk: int)
    requires
        key.physical_layout.block_size > 0,
        0 <= max_model_len,
        0 <= max_chunk,
    ensures
        key.attention_kind is Full ==> {
            let n = admission_blocks(key, max_model_len, max_chunk);
            let b = key.physical_layout.block_size as int;
            b * n >= max_model_len && b * n < max_model_len + b
        },
        key.attention_kind is SlidingWindow && key.attention_kind->sliding_window > 0 ==> {
            let n = admission_blocks(key, max_model_len, max_chunk);
            let b = key.physical_layout.block_size as int;
            let held = key.attention_kind->sliding_window - 1 + max_chunk;
            b * (n - 1) >= held && b * (n - 1) < held + b
        },
{
    let b = key.physical_layout.block_size as int;
    match key.attention_kind {
        AttentionKind::Full => {
            lemma_ceil_div_bounds(max_model_len, b);
        },
        AttentionKind::SlidingWindow { sliding_window } => {
            if sliding_window > 0 {
                lemma_ceil_div_bounds(sliding_window - 1 + max_chunk, b);
            }
        },
    }
}

/// A model has at most two groups of caches: one of its sliding layers and one of
/// its global layers.
pub proof fn law_groups_of_model(c: Gemma4Config, block_size: u32, dtype: KVCacheDType)
    requires
        c.wf(),
        specs_error(c, block_size) is None,
    ensures
        group_keys(all_specs(c, block_size, dtype), c.num_hidden_layers as int).len() == (if exists|
            i: int,
        |
            0 <= i < c.num_hidden_layers && #[trigger] c.global_at(i) {
            1int
        } else {
            0
        }) + (if exists|i: int| 0 <= i < c.num_hidden_layers && !(#[trigger] c.global_at(i)) {
            1int
        } else {
            0
        }),
{
    lemma_two_groups(c, block_size, dtype, c.layers());
}

spec fn some_of_kind(c: Gemma4Config, global: bool, upto: int) -> bool {
    exists|i: int| 0 <= i < upto && #[trigger] c.global_at(i) == global
}

#[verifier::rlimit(40)]
proof fn lemma_two_groups(c: Gemma4Config, block_size: u32, dtype: KVCacheDType, upto: int)
    requires
        0 <= upto <= c.layers(),
        specs_error(c, block_size) is None,
    ensures
        ({
            let keys = group_keys(all_specs(c, block_size, dtype), upto);
            let g = GroupKey {
                attention_kind: AttentionKind::Full,
                physical_layout: KVCachePhysicalLayout {
                    block_size,
                    num_kv_heads: c.kv_heads_of(true) as u32,
                    head_size: c.head_dim_of(true) as u32,
                    cache_dtype: dtype,
                },
            };
            let s = GroupKey {
                attention_kind: AttentionKind::SlidingWindow {
                    sliding_window: c.sliding_window as u32,
                },
                physical_layout: KVCachePhysicalLayout {
                    block_size,
                    num_kv_heads: c.kv_heads_of(false) as u32,
                    head_size: c.head_dim_of(false) as u32,
                    cache_dtype: dtype,
                },
            };
            &&& keys.contains(g) == some_of_kind(c, true, upto)
            &&& keys.contains(s) == some_of_kind(c, false, upto)
            &&& keys.len() == (if some_of_kind(c, true, upto) {
                1int
            } else {
                0
            }) + (if some_of_kind(c, false, upto) {
                1int
            } else {
                0
            })
        }),
    decreases upto,
{
    if upto > 0 {
        lemma_two_groups(c, block_size, dtype, upto - 1);
        let specs = all_specs(c, block_size, dtype);
        let before = group_keys(specs, upto - 1);
        let keys = group_keys(specs, upto);
        let k = key_of(specs[upto - 1]);
        let kind = c.global_at(upto - 1);
        assert(some_of_kind(c, kind, upto)) by {
            assert(c.global_at(upto - 1) == kind);
        }
        assert(some_of_kind(c, !kind, upto) == some_of_kind(c, !kind, upto - 1)) by {
            if some_of_kind(c, !kind, upto) {
                let i = choose|i: int| 0 <= i < upto && #[trigger] c.global_at(i) == !kind;
                assert(i < upto - 1);
            }
            if some_of_kind(c, !kind, upto - 1) {
                let i = choose|i: int| 0 <= i < upto - 1 && #[trigger] c.global_at(i) == !kind;
                assert(0 <= i < upto && c.global_at(i) == !kind);
            }
        }
        if !before.contains(k) {
            assert(keys == before.push(k));
            assert(keys[before.len() as int] == k);
            assert forall|x: GroupKey| keys.contains(x) <==> before.contains(x) || x == k by {
                if before.contains(x) {
                    let i = choose|i: int| 0 <= i < before.len() && before[i] == x;
                    assert(keys[i] == x);
                }
                if keys.contains(x) {
                    let i = choose|i: int| 0 <= i < keys.len() && keys[i] == x;
                    if i < before.len() {
                        assert(before[i] == x);
                    }
                }
            }
        }
    }
}

/// A model has per-layer tables exactly where they are wanted and have a size: a
/// vector of the given width for every layer and token.
pub proof fn law_per_layer_tables(c: Gemma4Config)
    requires
        c.wf(),
        has_ple(c) ==> c.num_hidden_layers * c.hidden_size_per_layer_input->0 <= i32::MAX,
    ensures
        ple_of(c) is Some <==> c.per_layer_input_embeds && c.hidden_size_per_layer_input is Some
            && c.hidden_size_per_layer_input->0 > 0 && c.vocab_size_per_layer_input is Some
            && c.vocab_size_per_layer_input->0 > 0,
        ple_of(c) is Some ==> {
            let p = ple_of(c)->0;
            &&& p.vocab_size == c.vocab_size_per_layer_input->0
            &&& p.ple_dim == c.hidden_size_per_layer_input->0
            &&& p.num_layers == c.num_hidden_layers
            &&& p.total_dim == c.num_hidden_layers * c.hidden_size_per_layer_input->0
        },
{
    if has_ple(c) {
        let n = c.num_hidden_layers as int;
        let d = c.hidden_size_per_layer_input->0 as int;
        assert(n * d >= 0) by (nonlinear_arith)
            requires
                n >= 0,
                d > 0,
        ;
    }
}

/// A tower goes before the encoder-free embedder, and without either there is no
/// vision; each is as its own section says.
pub proof fn law_vision_part(c: Gemma4Config)
    ensures
        vision_plan_of(c) is Absent <==> c.vision_config is None && c.unified_vision_config is None,
        c.vision_config is Some ==> {
            let v = c.vision_config->0;
            vision_plan_of(c) == (VisionPlan::Tower {
                embedder_input: v.hidden_size,
                rms_norm_eps: v.rms_norm_eps,
                patch_size: v.patch_size,
                max_soft_tokens: v.default_output_length,
                pooling_kernel_size: v.pooling_kernel_size,
            })
        },
        c.vision_config is None && c.unified_vision_config is Some ==> {
            let u = c.unified_vision_config->0;
            vision_plan_of(c) == (VisionPlan::Unified {
                embedder_input: u.output_proj_dims,
                rms_norm_eps: u.rms_norm_eps,
                patch_size: u.patch_size,
                max_soft_tokens: u.num_soft_tokens,
                pooling_kernel_size: u.pooling_kernel_size,
                model_patch_size: u.model_patch_size,
            })
        },
{
}

/// A group has the layers that attend and store alike, those of them that store, and the
/// blocks that it admits.
pub proof fn law_group_is_what_its_layers_are(
    g: KVCacheGroup,
    key: GroupKey,
    specs: Seq<LayerKVCacheSpec>,
    max_model_len: int,
    max_chunk: int,
)
    requires
        group_is(g, key, specs, max_model_len, max_chunk),
    ensures
        g.attention_kind == key.attention_kind,
        g.physical_layout == key.physical_layout,
        g.layer_indices@ == members(specs, key, false, specs.len() as int),
        g.physical_layer_indices@ == members(specs, key, true, specs.len() as int),
        g.max_admission_blocks == admission_blocks(key, max_model_len, max_chunk),
{
}

/// A message about a failed step of a pool ends with what that step said, and one about
/// memory begins with what there is of it.
pub proof fn law_messages_about_a_pool(error: KvSpecError, mb: u32, head: u32, heads: u32, block: u32, n: u32)
    ensures
        ({
            let t = (AdapterError::Specs { error }).text();
            &&& "Gemma4 block-paged adapter: failed to build KV cache specs: "@.is_prefix_of(t)
            &&& error.text().is_suffix_of(t)
        }),
        ({
            let t = (AdapterError::Groups { error }).text();
            &&& "Gemma4 block-paged adapter: failed to group KV cache specs: "@.is_prefix_of(t)
            &&& error.text().is_suffix_of(t)
        }),
        ({
            let t = (AdapterError::Routes { error }).text();
            &&& "Gemma4Inner::new: failed to derive cached layer-kind routes: "@.is_prefix_of(t)
            &&& error.text().is_suffix_of(t)
        }),
        ({
            let t = (AdapterError::MemoryTooSmall {
                gpu_memory_mb: mb,
                head_size: head,
                num_kv_heads: heads,
                block_size: block,
                num_layers: n,
            }).text();
            &&& ("Gemma4 block-paged adapter: gpu_memory_mb="@ + decimal(mb as int)).is_prefix_of(t)
            &&& (", num_global_layers="@ + decimal(n as int) + ")"@).is_suffix_of(t)
        }),
{
    let none = Seq::<char>::empty();
    let a = "Gemma4 block-paged adapter: failed to build KV cache specs: "@;
    let b = "Gemma4 block-paged adapter: failed to group KV cache specs: "@;
    let c = "Gemma4Inner::new: failed to derive cached layer-kind routes: "@;
    assert(a + none =~= a && b + none =~= b && c + none =~= c);
    law_ends_of_a_text(a, none, error.text());
    law_ends_of_a_text(b, none, error.text());
    law_ends_of_a_text(c, none, error.text());
    let first = "Gemma4 block-paged adapter: gpu_memory_mb="@ + decimal(mb as int);
    let middle = " too small (head_size="@ + decimal(head as int) + ", num_kv_heads="@ + decimal(
        heads as int,
    ) + ", block_size="@ + decimal(block as int);
    let last = ", num_global_layers="@ + decimal(n as int) + ")"@;
    law_ends_of_a_text(first, middle, last);
    assert(AdapterError::MemoryTooSmall {
        gpu_memory_mb: mb,
        head_size: head,
        num_kv_heads: heads,
        block_size: block,
        num_layers: n,
    }.text() =~= first + middle + last);
}

} // verus!
