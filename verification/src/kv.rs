//! Key/value cache layout: what each layer stores, which layers share a block
//! table, how the paged dispatch routes a layer, and how large the pool is.

use vstd::prelude::*;
use vstd::string::*;

use crate::arith::ceil_div;
use crate::arith::div_ceil_u32;
use crate::arith::div_ceil_u64;
use crate::arith::lemma_ceil_div_bounds;
use crate::config::law_anchor_owns_and_keeps;
use crate::config::Gemma4Config;
use crate::text::cat;
use crate::text::decimal;
use crate::text::law_ends_of_a_text;
use crate::text::signed_text;
use crate::text::unsigned_text;

verus! {

/// Least pool size that is chosen where none is configured.
pub const GEMMA4_PAGED_CACHE_MIN_DEFAULT_MEMORY_MB: u32 = 256;

/// Bytes of one MiB.
pub const BYTES_PER_MIB: u64 = 1_048_576;

/// Blocks hold this many tokens where the configuration names no number.
pub const DEFAULT_PAGED_BLOCK_SIZE: u32 = 16;

/// Element type of a cache.
#[derive(Debug, Clone, Copy, PartialEq, Eq, Structural)]
pub enum KVCacheDType {
    BFloat16,
    Float16,
}

/// What a layer attends to.
#[derive(Debug, Clone, Copy, PartialEq, Eq, Structural)]
pub enum AttentionKind {
    Full,
    SlidingWindow { sliding_window: u32 },
}

/// How one block of a layer is laid out.
#[derive(Debug, Clone, Copy, PartialEq, Eq, Structural)]
pub struct KVCachePhysicalLayout {
    pub block_size: u32,
    pub num_kv_heads: u32,
    pub head_size: u32,
    pub cache_dtype: KVCacheDType,
}

/// What one layer asks of the cache.
#[derive(Debug, Clone, Copy, PartialEq, Eq, Structural)]
pub struct LayerKVCacheSpec {
    pub layer_index: usize,
    pub attention_kind: AttentionKind,
    pub physical_layout: KVCachePhysicalLayout,
    /// The layer whose cache this one reads, where it has none of its own.
    pub shared_kv_anchor: Option<usize>,
}

/// Layers with one attention kind and one block layout.
#[derive(Debug)]
pub struct KVCacheGroup {
    pub attention_kind: AttentionKind,
    pub physical_layout: KVCachePhysicalLayout,
    /// All layers of the group.
    pub layer_indices: Vec<usize>,
    /// The layers of the group that store keys and values.
    pub physical_layer_indices: Vec<usize>,
    /// Blocks that one sequence can hold at once.
    pub max_admission_blocks: u64,
}

/// How the paged dispatch runs a layer.
#[derive(Debug, Clone, Copy, PartialEq, Eq, Structural)]
pub enum Gemma4LayerKind {
    /// Global attention with pool slot `paged_idx`.
    GlobalPaged { paged_idx: u32 },
    /// Sliding attention on the layer's own rotating cache.
    Sliding,
    /// Global attention that reads the pool slot of its anchor.
    SharedOnGlobal { anchor_paged_idx: u32 },
    /// Sliding attention that reads what its anchor stashed.
    SharedOnSliding { anchor_layer_idx: u32 },
}

/// Why no cache layout exists.
#[derive(Debug, Clone, Copy, PartialEq, Eq, Structural)]
pub enum KvSpecError {
    ZeroBlockSize,
    SlidingWindow { sliding_window: i32 },
    HeadDim { layer: usize, head_dim: i32 },
    KvHeads { layer: usize, num_kv_heads: i32 },
    Layout { layer: usize, block_size: u32, heads: u32, head_size: u32 },
    NoAnchor { layer: usize },
    MaxPositions { max_position_embeddings: i32 },
    RouteMaxPositions { max_position_embeddings: i32 },
}

impl KvSpecError {
    /// The message shown to a caller.
    pub open spec fn text(self) -> Seq<char> {
        match self {
            KvSpecError::ZeroBlockSize => "Gemma4 KV cache specs require block_size > 0"@,
            KvSpecError::SlidingWindow {
                sliding_window,
            } => "Gemma4 KV cache specs require sliding_window > 0, got "@ + decimal(
                sliding_window as int,
            ),
            KvSpecError::HeadDim { layer, head_dim } => "Gemma4 KV cache specs: layer "@ + decimal(
                layer as int,
            ) + " has invalid head_dim "@ + decimal(head_dim as int),
            KvSpecError::KvHeads {
                layer,
                num_kv_heads,
            } => "Gemma4 KV cache specs: layer "@ + decimal(layer as int)
                + " has invalid num_kv_heads "@ + decimal(num_kv_heads as int),
            KvSpecError::Layout {
                layer,
                block_size,
                heads,
                head_size,
            } => "Gemma4 KV cache specs: layer "@ + decimal(layer as int)
                + " has invalid physical layout block_size="@ + decimal(block_size as int)
                + ", num_kv_heads="@ + decimal(heads as int) + ", head_size="@ + decimal(
                head_size as int,
            ),
            KvSpecError::NoAnchor { layer } => "Gemma4 KV cache specs: layer "@ + decimal(
                layer as int,
            ) + " is KV-shared but has no resolvable anchor"@,
            KvSpecError::MaxPositions {
                max_position_embeddings,
            } => "Gemma4 KV cache groups: invalid max_position_embeddings "@ + decimal(
                max_position_embeddings as int,
            ),
            KvSpecError::RouteMaxPositions {
                max_position_embeddings,
            } => "Gemma4 layer kind routes: invalid max_position_embeddings "@ + decimal(
                max_position_embeddings as int,
            ),
        }
    }

    /// The message shown to a caller.
    pub fn message(&self) -> (r: String)
        ensures
            r@ == self.text(),
    {
        match *self {
            KvSpecError::ZeroBlockSize => String::from_str(
                "Gemma4 KV cache specs require block_size > 0",
            ),
            KvSpecError::SlidingWindow { sliding_window } => cat(
                "Gemma4 KV cache specs require sliding_window > 0, got ",
                signed_text(sliding_window as i64).as_str(),
            ),
            KvSpecError::HeadDim { layer, head_dim } => {
                let mut out = layer_prefix(layer);
                out.append(" has invalid head_dim ");
                out.append(signed_text(head_dim as i64).as_str());
                out
            },
            KvSpecError::KvHeads { layer, num_kv_heads } => {
                let mut out = layer_prefix(layer);
                out.append(" has invalid num_kv_heads ");
                out.append(signed_text(num_kv_heads as i64).as_str());
                out
            },
            KvSpecError::Layout { layer, block_size, heads, head_size } => {
                let mut out = layer_prefix(layer);
                out.append(" has invalid physical layout block_size=");
                out.append(unsigned_text(block_size as u64).as_str());
                out.append(", num_kv_heads=");
                out.append(unsigned_text(heads as u64).as_str());
                out.append(", head_size=");
                out.append(unsigned_text(head_size as u64).as_str());
                out
            },
            KvSpecError::NoAnchor { layer } => cat(
                layer_prefix(layer).as_str(),
                " is KV-shared but has no resolvable anchor",
            ),
            KvSpecError::MaxPositions { max_position_embeddings } => cat(
                "Gemma4 KV cache groups: invalid max_position_embeddings ",
                signed_text(max_position_embeddings as i64).as_str(),
            ),
            KvSpecError::RouteMaxPositions { max_position_embeddings } => cat(
                "Gemma4 layer kind routes: invalid max_position_embeddings ",
                signed_text(max_position_embeddings as i64).as_str(),
            ),
        }
    }
}

fn layer_prefix(layer: usize) -> (r: String)
    ensures
        r@ == "Gemma4 KV cache specs: layer "@ + decimal(layer as int),
{
    cat("Gemma4 KV cache specs: layer ", unsigned_text(layer as u64).as_str())
}

/// What layer `i` asks of the cache.
pub open spec fn spec_of(c: Gemma4Config, block_size: u32, dtype: KVCacheDType, i: int) -> LayerKVCacheSpec {
    LayerKVCacheSpec {
        layer_index: i as usize,
        attention_kind: if c.global_at(i) {
            AttentionKind::Full
        } else {
            AttentionKind::SlidingWindow { sliding_window: c.sliding_window as u32 }
        },
        physical_layout: KVCachePhysicalLayout {
            block_size,
            num_kv_heads: c.kv_heads_of(c.global_at(i)) as u32,
            head_size: c.head_dim_of(c.global_at(i)) as u32,
            cache_dtype: dtype,
        },
        shared_kv_anchor: match c.anchor_of(i) {
            Some(a) => Some(a as usize),
            None => None,
        },
    }
}

/// What is wrong with layer `i`, if anything.
pub open spec fn layer_error(c: Gemma4Config, block_size: u32, i: int) -> Option<KvSpecError> {
    let head_dim = c.head_dim_of(c.global_at(i));
    let kv_heads = c.kv_heads_of(c.global_at(i));
    if head_dim < 0 {
        Some(KvSpecError::HeadDim { layer: i as usize, head_dim })
    } else if kv_heads < 0 {
        Some(KvSpecError::KvHeads { layer: i as usize, num_kv_heads: kv_heads })
    } else if kv_heads == 0 || head_dim == 0 {
        Some(
            KvSpecError::Layout {
                layer: i as usize,
                block_size,
                heads: kv_heads as u32,
                head_size: head_dim as u32,
            },
        )
    } else if c.shared_at(i) && c.anchor_of(i) is None {
        Some(KvSpecError::NoAnchor { layer: i as usize })
    } else {
        None
    }
}

/// What is wrong with the first faulty layer from `from` on.
pub open spec fn first_layer_error(c: Gemma4Config, block_size: u32, from: int) -> Option<
    KvSpecError,
>
    decreases c.layers() - from,
{
    if from >= c.layers() {
        None
    } else {
        match layer_error(c, block_size, from) {
            Some(e) => Some(e),
            None => first_layer_error(c, block_size, from + 1),
        }
    }
}

/// What keeps the layers from having a cache layout, if anything.
pub open spec fn specs_error(c: Gemma4Config, block_size: u32) -> Option<KvSpecError> {
    if block_size == 0 {
        Some(KvSpecError::ZeroBlockSize)
    } else if c.sliding_window <= 0 {
        Some(KvSpecError::SlidingWindow { sliding_window: c.sliding_window })
    } else {
        first_layer_error(c, block_size, 0)
    }
}

/// What all layers ask of the cache.
pub open spec fn all_specs(c: Gemma4Config, block_size: u32, dtype: KVCacheDType) -> Seq<
    LayerKVCacheSpec,
> {
    Seq::new(c.layers() as nat, |i: int| spec_of(c, block_size, dtype, i))
}

/// What every layer asks of the cache. Layers that share keys and values are
/// aliases of their anchor.
pub fn compute_layer_kv_cache_specs(
    config: &Gemma4Config,
    block_size: u32,
    cache_dtype: KVCacheDType,
) -> (r: Result<Vec<LayerKVCacheSpec>, KvSpecError>)
    requires
        config.wf(),
    ensures
        match specs_error(*config, block_size) {
            Some(e) => r == Err::<Vec<LayerKVCacheSpec>, KvSpecError>(e),
            None => r matches Ok(specs) && specs@ == all_specs(*config, block_size, cache_dtype),
        },
{
    if block_size == 0 {
        return Err(KvSpecError::ZeroBlockSize);
    }
    if config.sliding_window <= 0 {
        return Err(KvSpecError::SlidingWindow { sliding_window: config.sliding_window });
    }
    let n: usize = config.num_hidden_layers as usize;
    let mut specs: Vec<LayerKVCacheSpec> = Vec::new();
    let mut i: usize = 0;
    while i < n
        invariant
            config.wf(),
            i <= n,
            n == config.layers(),
            block_size > 0,
            config.sliding_window > 0,
            specs@ == all_specs(*config, block_size, cache_dtype).take(i as int),
            specs_error(*config, block_size) == first_layer_error(*config, block_size, i as int),
        decreases n - i,
    {
        let is_global: bool = config.is_global_layer(i);
        let head_dim: i32 = config.effective_head_dim(is_global);
        let kv_heads: i32 = config.effective_kv_heads(is_global);
        if head_dim < 0 {
            return Err(KvSpecError::HeadDim { layer: i, head_dim });
        }
        if kv_heads < 0 {
            return Err(KvSpecError::KvHeads { layer: i, num_kv_heads: kv_heads });
        }
        if kv_heads == 0 || head_dim == 0 {
            return Err(
                KvSpecError::Layout {
                    layer: i,
                    block_size,
                    heads: kv_heads as u32,
                    head_size: head_dim as u32,
                },
            );
        }
        let anchor: Option<usize> = config.kv_shared_anchor(i);
        if config.is_kv_shared_layer(i) && anchor.is_none() {
            return Err(KvSpecError::NoAnchor { layer: i });
        }
        let attention_kind: AttentionKind = if is_global {
            AttentionKind::Full
        } else {
            AttentionKind::SlidingWindow { sliding_window: config.sliding_window as u32 }
        };
        let spec = LayerKVCacheSpec {
            layer_index: i,
            attention_kind,
            physical_layout: KVCachePhysicalLayout {
                block_size,
                num_kv_heads: kv_heads as u32,
                head_size: head_dim as u32,
                cache_dtype,
            },
            shared_kv_anchor: anchor,
        };
        proof {
            let all = all_specs(*config, block_size, cache_dtype);
            assert(all.take(i + 1) =~= all.take(i as int).push(all[i as int]));
            assert(all[i as int] == spec);
        }
        specs.push(spec);
        i += 1;
    }
    proof {
        let all = all_specs(*config, block_size, cache_dtype);
        assert(all.take(n as int) =~= all);
    }
    Ok(specs)
}

proof fn lemma_no_error_at(c: Gemma4Config, block_size: u32, from: int, i: int)
    requires
        first_layer_error(c, block_size, from) is None,
        from <= i < c.layers(),
    ensures
        layer_error(c, block_size, i) is None,
    decreases c.layers() - from,
{
    if from < i {
        lemma_no_error_at(c, block_size, from + 1, i);
    }
}

/// A layer without a cache of its own reads that of an earlier layer which has
/// one, with the same attention and the same block layout; a layer that does
/// not share has its own.
pub proof fn law_shared_layer_matches_anchor(
    c: Gemma4Config,
    block_size: u32,
    dtype: KVCacheDType,
    i: int,
)
    requires
        c.wf(),
        specs_error(c, block_size) is None,
        0 <= i < c.layers(),
    ensures
        ({
            let specs = all_specs(c, block_size, dtype);
            match specs[i].shared_kv_anchor {
                None => !c.shared_at(i),
                Some(a) => {
                    &&& a < i
                    &&& specs[a as int].shared_kv_anchor is None
                    &&& specs[a as int].attention_kind == specs[i].attention_kind
                    &&& specs[a as int].physical_layout == specs[i].physical_layout
                },
            }
        }),
{
    lemma_no_error_at(c, block_size, 0, i);
    if c.shared_at(i) {
        law_anchor_owns_and_keeps(c, i);
    }
}

/// Global layers before `upto` that store keys and values.
pub open spec fn physical_full_before(specs: Seq<LayerKVCacheSpec>, upto: int) -> nat
    decreases upto,
{
    if upto <= 0 {
        0
    } else {
        let s = specs[upto - 1];
        physical_full_before(specs, upto - 1) + if s.shared_kv_anchor is None && s.attention_kind
            == AttentionKind::Full {
            1nat
        } else {
            0nat
        }
    }
}

/// Of the first layers, no more store keys and values of full attention than
/// there are.
pub proof fn lemma_physical_full_bound(specs: Seq<LayerKVCacheSpec>, upto: int)
    requires
        0 <= upto,
    ensures
        physical_full_before(specs, upto) <= upto,
    decreases upto,
{
    if upto > 0 {
        lemma_physical_full_bound(specs, upto - 1);
    }
}

fn count_physical_full(specs: &Vec<LayerKVCacheSpec>, upto: usize) -> (r: usize)
    requires
        upto <= specs@.len(),
    ensures
        r == physical_full_before(specs@, upto as int),
{
    let mut count: usize = 0;
    let mut i: usize = 0;
    while i < upto
        invariant
            i <= upto <= specs@.len(),
            count == physical_full_before(specs@, i as int),
            count <= i,
        decreases upto - i,
    {
        if specs[i].shared_kv_anchor.is_none() && specs[i].attention_kind == AttentionKind::Full {
            count += 1;
        }
        i += 1;
    }
    count
}

/// Global layers that store keys and values.
pub fn physical_full_attention_layer_count(specs: &Vec<LayerKVCacheSpec>) -> (r: usize)
    ensures
        r == physical_full_before(specs@, specs@.len() as int),
{
    count_physical_full(specs, specs.len())
}

/// The route of a layer. A pool slot is the ordinal of the layer among the
/// global layers that store keys and values.
pub open spec fn kind_of(specs: Seq<LayerKVCacheSpec>, i: int) -> Gemma4LayerKind {
    match (specs[i].shared_kv_anchor, specs[i].attention_kind) {
        (Some(a), AttentionKind::Full) => Gemma4LayerKind::SharedOnGlobal {
            anchor_paged_idx: physical_full_before(specs, a as int) as u32,
        },
        (Some(a), AttentionKind::SlidingWindow { .. }) => Gemma4LayerKind::SharedOnSliding {
            anchor_layer_idx: a as u32,
        },
        (None, AttentionKind::Full) => Gemma4LayerKind::GlobalPaged {
            paged_idx: physical_full_before(specs, i) as u32,
        },
        (None, AttentionKind::SlidingWindow { .. }) => Gemma4LayerKind::Sliding,
    }
}

/// The routes of all layers.
pub open spec fn all_kinds(c: Gemma4Config, block_size: u32) -> Seq<Gemma4LayerKind> {
    let specs = all_specs(c, block_size, KVCacheDType::BFloat16);
    Seq::new(c.layers() as nat, |i: int| kind_of(specs, i))
}

/// The block size of a configuration.
pub open spec fn block_size_of(c: Gemma4Config) -> u32 {
    match c.paged_block_size {
        Some(b) => b,
        None => DEFAULT_PAGED_BLOCK_SIZE,
    }
}

/// Tokens per block.
pub fn paged_block_size(config: &Gemma4Config) -> (r: u32)
    ensures
        r == block_size_of(*config),
{
    match config.paged_block_size {
        Some(b) => b,
        None => DEFAULT_PAGED_BLOCK_SIZE,
    }
}

/// What keeps the layers from having routes, if anything.
pub open spec fn kinds_error(c: Gemma4Config) -> Option<KvSpecError> {
    match specs_error(c, block_size_of(c)) {
        Some(e) => Some(e),
        None => if c.max_position_embeddings < 0 {
            Some(
                KvSpecError::RouteMaxPositions { max_position_embeddings: c.max_position_embeddings },
            )
        } else {
            None
        },
    }
}

/// The route of every layer.
pub fn compute_layer_kinds_from_kv_cache_specs(config: &Gemma4Config) -> (r: Result<
    Vec<Gemma4LayerKind>,
    KvSpecError,
>)
    requires
        config.wf(),
    ensures
        match kinds_error(*config) {
            Some(e) => r == Err::<Vec<Gemma4LayerKind>, KvSpecError>(e),
            None => r matches Ok(kinds) && kinds@ == all_kinds(*config, block_size_of(*config)),
        },
{
    let block_size: u32 = paged_block_size(config);
    match compute_layer_kv_cache_specs(config, block_size, KVCacheDType::BFloat16) {
        Err(e) => Err(e),
        Ok(specs) => {
            if config.max_position_embeddings < 0 {
                return Err(
                    KvSpecError::RouteMaxPositions {
                        max_position_embeddings: config.max_position_embeddings,
                    },
                );
            }
            let mut kinds: Vec<Gemma4LayerKind> = Vec::new();
            let mut i: usize = 0;
            while i < specs.len()
                invariant
                    config.wf(),
                    i <= specs@.len(),
                    specs@ == all_specs(*config, block_size, KVCacheDType::BFloat16),
                    specs_error(*config, block_size) is None,
                    specs@.len() == config.layers(),
                    kinds@ == all_kinds(*config, block_size).take(i as int),
                decreases specs@.len() - i,
            {
                let spec: LayerKVCacheSpec = specs[i];
                proof {
                    law_shared_layer_matches_anchor(
                        *config,
                        block_size,
                        KVCacheDType::BFloat16,
                        i as int,
                    );
                    lemma_physical_full_bound(specs@, i as int);
                    if spec.shared_kv_anchor is Some {
                        lemma_physical_full_bound(specs@, spec.shared_kv_anchor->0 as int);
                    }
                }
                let kind: Gemma4LayerKind = match (spec.shared_kv_anchor, spec.attention_kind) {
                    (Some(a), AttentionKind::Full) => Gemma4LayerKind::SharedOnGlobal {
                        anchor_paged_idx: count_physical_full(&specs, a) as u32,
                    },
                    (Some(a), AttentionKind::SlidingWindow { .. }) =>
                        Gemma4LayerKind::SharedOnSliding { anchor_layer_idx: a as u32 },
                    (None, AttentionKind::Full) => Gemma4LayerKind::GlobalPaged {
                        paged_idx: count_physical_full(&specs, i) as u32,
                    },
                    (None, AttentionKind::SlidingWindow { .. }) => Gemma4LayerKind::Sliding,
                };
                proof {
                    let all = all_kinds(*config, block_size);
                    assert(all.take(i + 1) =~= all.take(i as int).push(all[i as int]));
                    assert(all[i as int] == kind);
                }
                kinds.push(kind);
                i += 1;
            }
            proof {
                let all = all_kinds(*config, block_size);
                assert(all.take(specs@.len() as int) =~= all);
            }
            Ok(kinds)
        },
    }
}

/// Global layers before `upto` that keep keys and values of their own.
pub open spec fn owning_globals_before(c: Gemma4Config, upto: int) -> int
    decreases upto,
{
    if upto <= 0 {
        0
    } else {
        owning_globals_before(c, upto - 1) + if c.global_at(upto - 1) && !c.shared_at(upto - 1) {
            1int
        } else {
            0
        }
    }
}

/// Global layers that store are those with keys and values of their own.
pub proof fn lemma_physical_full_is_owning(c: Gemma4Config, block_size: u32, dtype: KVCacheDType, upto: int)
    requires
        c.wf(),
        specs_error(c, block_size) is None,
        0 <= upto <= c.layers(),
    ensures
        physical_full_before(all_specs(c, block_size, dtype), upto) == owning_globals_before(
            c,
            upto,
        ),
    decreases upto,
{
    if upto > 0 {
        lemma_physical_full_is_owning(c, block_size, dtype, upto - 1);
        lemma_no_error_at(c, block_size, 0, upto - 1);
    }
}

/// The route of a layer, from the configuration alone. A sliding layer with a
/// cache of its own is flat; a global one has the pool slot that its rank among
/// the global layers with caches of their own gives it; a layer that shares
/// points at the slot, or the layer, of its anchor.
pub proof fn law_route_of_layer(c: Gemma4Config, i: int)
    requires
        c.wf(),
        kinds_error(c) is None,
        0 <= i < c.layers(),
    ensures
        all_kinds(c, block_size_of(c)).len() == c.layers(),
        c.shared_at(i) ==> (c.anchor_of(i) matches Some(a) && 0 <= a < i),
        all_kinds(c, block_size_of(c))[i] == if c.shared_at(i) && c.global_at(i) {
            Gemma4LayerKind::SharedOnGlobal {
                anchor_paged_idx: owning_globals_before(c, c.anchor_of(i)->0) as u32,
            }
        } else if c.shared_at(i) {
            Gemma4LayerKind::SharedOnSliding { anchor_layer_idx: c.anchor_of(i)->0 as u32 }
        } else if c.global_at(i) {
            Gemma4LayerKind::GlobalPaged { paged_idx: owning_globals_before(c, i) as u32 }
        } else {
            Gemma4LayerKind::Sliding
        },
{
    let b = block_size_of(c);
    lemma_no_error_at(c, b, 0, i);
    law_shared_layer_matches_anchor(c, b, KVCacheDType::BFloat16, i);
    lemma_physical_full_is_owning(c, b, KVCacheDType::BFloat16, i);
    if c.shared_at(i) {
        law_anchor_owns_and_keeps(c, i);
        lemma_physical_full_is_owning(c, b, KVCacheDType::BFloat16, c.anchor_of(i)->0);
    }
}

/// The routes agree with the layers: a layer that stores nothing takes no pool
/// slot and points at the slot, or the layer, of its anchor.
pub proof fn law_shared_layer_aliases_anchor(c: Gemma4Config, i: int)
    requires
        c.wf(),
        kinds_error(c) is None,
        0 <= i < c.layers(),
        c.shared_at(i),
    ensures
        c.anchor_of(i) matches Some(a) && match all_kinds(c, block_size_of(c))[a] {
            Gemma4LayerKind::GlobalPaged { paged_idx } => all_kinds(c, block_size_of(c))[i]
                == (Gemma4LayerKind::SharedOnGlobal { anchor_paged_idx: paged_idx }),
            Gemma4LayerKind::Sliding => all_kinds(c, block_size_of(c))[i]
                == (Gemma4LayerKind::SharedOnSliding { anchor_layer_idx: a as u32 }),
            _ => false,
        },
{
    let b = block_size_of(c);
    law_shared_layer_matches_anchor(c, b, KVCacheDType::BFloat16, i);
    law_anchor_owns_and_keeps(c, i);
    let a = c.anchor_of(i)->0;
    law_shared_layer_matches_anchor(c, b, KVCacheDType::BFloat16, a);
}

/// Pool slots are handed out without gaps, in layer order: of two global layers
/// that store keys and values the later one has the larger slot, and every slot
/// is below the number of such layers.
pub proof fn law_pool_slots_in_layer_order(c: Gemma4Config, i: int, j: int)
    requires
        c.wf(),
        kinds_error(c) is None,
        0 <= i < j < c.layers(),
        all_kinds(c, block_size_of(c))[i] is GlobalPaged,
        all_kinds(c, block_size_of(c))[j] is GlobalPaged,
    ensures
        all_kinds(c, block_size_of(c))[i]->paged_idx < all_kinds(c, block_size_of(c))[j]->paged_idx,
        all_kinds(c, block_size_of(c))[j]->paged_idx < physical_full_before(
            all_specs(c, block_size_of(c), KVCacheDType::BFloat16),
            c.layers(),
        ),
{
    let specs = all_specs(c, block_size_of(c), KVCacheDType::BFloat16);
    lemma_physical_full_grows(specs, i + 1, j);
    lemma_physical_full_grows(specs, j + 1, c.layers());
    lemma_physical_full_bound(specs, i);
    lemma_physical_full_bound(specs, j);
}

proof fn lemma_physical_full_grows(specs: Seq<LayerKVCacheSpec>, a: int, b: int)
    requires
        a <= b,
    ensures
        physical_full_before(specs, a) <= physical_full_before(specs, b),
    decreases b - a,
{
    if a < b {
        lemma_physical_full_grows(specs, a, b - 1);
    }
}

/// MiB of a pool that holds a whole context: keys and values of every global
/// layer in two-byte elements, in whole blocks, no less than the minimum and no
/// more than `u32::MAX`. The minimum where a dimension is zero.
pub open spec fn default_memory_mb(
    max_seq_len: int,
    block_size: int,
    head_size: int,
    num_kv_heads: int,
    num_layers: int,
) -> int {
    let bytes = 2 * num_kv_heads * head_size * block_size * 2 * num_layers * ceil_div(
        max_seq_len,
        block_size,
    );
    let mb = ceil_div(bytes, BYTES_PER_MIB as int);
    if max_seq_len == 0 || block_size == 0 || head_size == 0 || num_kv_heads == 0 || num_layers
        == 0 {
        GEMMA4_PAGED_CACHE_MIN_DEFAULT_MEMORY_MB as int
    } else if mb > u32::MAX {
        u32::MAX as int
    } else if mb < GEMMA4_PAGED_CACHE_MIN_DEFAULT_MEMORY_MB {
        GEMMA4_PAGED_CACHE_MIN_DEFAULT_MEMORY_MB as int
    } else {
        mb
    }
}

/// The default pool holds keys and values of a whole context in every global
/// layer, as far as its size can be written down; above the minimum it is the
/// smallest whole number of MiB that does so in whole blocks.
pub proof fn law_default_pool_holds_a_context(
    max_seq_len: int,
    block_size: int,
    head_size: int,
    num_kv_heads: int,
    num_layers: int,
)
    requires
        max_seq_len > 0,
        block_size > 0,
        head_size > 0,
        num_kv_heads > 0,
        num_layers > 0,
        default_memory_mb(max_seq_len, block_size, head_size, num_kv_heads, num_layers) < u32::MAX,
    ensures
        ({
            let mb = default_memory_mb(max_seq_len, block_size, head_size, num_kv_heads, num_layers);
            let token = 2 * num_kv_heads * head_size * 2 * num_layers;
            let blocks = ceil_div(max_seq_len, block_size);
            &&& mb >= GEMMA4_PAGED_CACHE_MIN_DEFAULT_MEMORY_MB
            &&& token * max_seq_len <= mb * BYTES_PER_MIB
            &&& mb > GEMMA4_PAGED_CACHE_MIN_DEFAULT_MEMORY_MB ==> (mb - 1) * BYTES_PER_MIB < token
                * (block_size * blocks)
        }),
{
    let mb = default_memory_mb(max_seq_len, block_size, head_size, num_kv_heads, num_layers);
    let token = 2 * num_kv_heads * head_size * 2 * num_layers;
    let blocks = ceil_div(max_seq_len, block_size);
    let bytes = 2 * num_kv_heads * head_size * block_size * 2 * num_layers * blocks;
    let mib = BYTES_PER_MIB as int;
    assert(token > 0) by (nonlinear_arith)
        requires
            token == 2 * num_kv_heads * head_size * 2 * num_layers,
            num_kv_heads > 0,
            head_size > 0,
            num_layers > 0,
    ;
    assert(bytes == token * (block_size * blocks)) by (nonlinear_arith)
        requires
            token == 2 * num_kv_heads * head_size * 2 * num_layers,
            bytes == 2 * num_kv_heads * head_size * block_size * 2 * num_layers * blocks,
    ;
    lemma_ceil_div_bounds(max_seq_len, block_size);
    assert(token * max_seq_len <= token * (block_size * blocks)) by (nonlinear_arith)
        requires
            token > 0,
            max_seq_len <= block_size * blocks,
    ;
    assert(bytes > 0) by (nonlinear_arith)
        requires
            token > 0,
            max_seq_len > 0,
            bytes == token * (block_size * blocks),
            max_seq_len <= block_size * blocks,
    ;
    lemma_ceil_div_bounds(bytes, mib);
}

fn saturating_product(a: u64, b: u64) -> (r: u64)
    requires
        a >= 1,
        b >= 1,
    ensures
        r == if a * b > u64::MAX {
            u64::MAX as int
        } else {
            a * b
        },
        r >= 1,
{
    proof {
        assert(a * b >= 1) by (nonlinear_arith)
            requires
                a >= 1,
                b >= 1,
        ;
    }
    match a.checked_mul(b) {
        Some(p) => p,
        None => u64::MAX,
    }
}

proof fn lemma_saturated_step(exact: int, shown: int, factor: int)
    requires
        shown == if exact > u64::MAX {
            u64::MAX as int
        } else {
            exact
        },
        exact >= 1,
        factor >= 1,
    ensures
        (if shown * factor > u64::MAX {
            u64::MAX as int
        } else {
            shown * factor
        }) == (if exact * factor > u64::MAX {
            u64::MAX as int
        } else {
            exact * factor
        }),
        exact * factor >= 1,
{
    assert(exact * factor >= exact) by (nonlinear_arith)
        requires
            exact >= 1,
            factor >= 1,
    ;
    if exact > u64::MAX {
        assert(shown * factor >= shown) by (nonlinear_arith)
            requires
                shown >= 1,
                factor >= 1,
        ;
    }
}

/// MiB of a pool that holds a whole context.
pub fn gemma4_default_paged_cache_memory_mb(
    max_seq_len: u32,
    block_size: u32,
    head_size: u32,
    num_kv_heads: u32,
    num_layers: u32,
) -> (r: u32)
    ensures
        r == default_memory_mb(
            max_seq_len as int,
            block_size as int,
            head_size as int,
            num_kv_heads as int,
            num_layers as int,
        ),
{
    if max_seq_len == 0 || block_size == 0 || head_size == 0 || num_kv_heads == 0 || num_layers
        == 0 {
        return GEMMA4_PAGED_CACHE_MIN_DEFAULT_MEMORY_MB;
    }
    let max_blocks: u64 = div_ceil_u32(max_seq_len, block_size) as u64;
    proof {
        lemma_ceil_div_bounds(max_seq_len as int, block_size as int);
        assert(ceil_div(max_seq_len as int, block_size as int) >= 1) by (nonlinear_arith)
            requires
                block_size * ceil_div(max_seq_len as int, block_size as int) >= max_seq_len,
                max_seq_len >= 1,
                block_size >= 1,
        ;
    }
    let b1: u64 = saturating_product(2, num_kv_heads as u64);
    let b2: u64 = saturating_product(b1, head_size as u64);
    let b3: u64 = saturating_product(b2, block_size as u64);
    let b4: u64 = saturating_product(b3, 2);
    let b5: u64 = saturating_product(b4, num_layers as u64);
    let bytes: u64 = saturating_product(b5, max_blocks);
    proof {
        let e1 = 2 * num_kv_heads as int;
        let e2 = e1 * head_size as int;
        let e3 = e2 * block_size as int;
        let e4 = e3 * 2;
        let e5 = e4 * num_layers as int;
        lemma_saturated_step(e1, b1 as int, head_size as int);
        lemma_saturated_step(e2, b2 as int, block_size as int);
        lemma_saturated_step(e3, b3 as int, 2);
        lemma_saturated_step(e4, b4 as int, num_layers as int);
        lemma_saturated_step(e5, b5 as int, max_blocks as int);
        let exact = e5 * max_blocks as int;
        assert(exact == 2 * num_kv_heads * head_size * block_size * 2 * num_layers * ceil_div(
            max_seq_len as int,
            block_size as int,
        ));
        if exact > u64::MAX {
            lemma_ceil_div_bounds(exact, BYTES_PER_MIB as int);
            lemma_ceil_div_bounds(u64::MAX as int, BYTES_PER_MIB as int);
        }
    }
    let mb: u64 = div_ceil_u64(bytes, BYTES_PER_MIB);
    if mb > u32::MAX as u64 {
        u32::MAX
    } else if mb < GEMMA4_PAGED_CACHE_MIN_DEFAULT_MEMORY_MB as u64 {
        GEMMA4_PAGED_CACHE_MIN_DEFAULT_MEMORY_MB
    } else {
        mb as u32
    }
}

/// What every layer stores, from the fields of the configuration. A sliding layer
/// has the key/value heads and the head size of the configuration and keeps a
/// window; a global one has its own where they are given, and keeps everything.
pub proof fn law_layout_of_layer(c: Gemma4Config, block_size: u32, dtype: KVCacheDType, i: int)
    requires
        c.wf(),
        specs_error(c, block_size) is None,
        0 <= i < c.num_hidden_layers,
    ensures
        ({
            let specs = all_specs(c, block_size, dtype);
            let s = specs[i];
            &&& specs.len() == c.num_hidden_layers
            &&& s.layer_index == i
            &&& s.physical_layout.block_size == block_size
            &&& s.physical_layout.cache_dtype == dtype
            &&& !c.global_at(i) ==> {
                &&& s.attention_kind == (AttentionKind::SlidingWindow {
                    sliding_window: c.sliding_window as u32,
                })
                &&& s.physical_layout.num_kv_heads == c.num_key_value_heads
                &&& s.physical_layout.head_size == c.head_dim
            }
            &&& c.global_at(i) ==> {
                &&& s.attention_kind == AttentionKind::Full
                &&& c.global_num_key_value_heads is Some ==> s.physical_layout.num_kv_heads
                    == c.global_num_key_value_heads->0
                &&& c.global_num_key_value_heads is None ==> s.physical_layout.num_kv_heads
                    == c.num_key_value_heads
                &&& c.global_head_dim is Some ==> s.physical_layout.head_size
                    == c.global_head_dim->0
                &&& c.global_head_dim is None ==> s.physical_layout.head_size == c.head_dim
            }
        }),
{
    lemma_no_error_at(c, block_size, 0, i);
}

/// The cache of a model can be laid out exactly where blocks and window have a size,
/// every layer has heads of a size, and every layer that shares has a layer of its
/// kind to read.
pub proof fn law_layout_exists(c: Gemma4Config, block_size: u32)
    requires
        c.wf(),
    ensures
        specs_error(c, block_size) is None <==> {
            &&& block_size > 0
            &&& c.sliding_window > 0
            &&& forall|i: int|
                0 <= i < c.num_hidden_layers && #[trigger] c.global_at(i) ==> (if c.global_head_dim is Some {
                    c.global_head_dim->0
                } else {
                    c.head_dim
                }) > 0 && (if c.global_num_key_value_heads is Some {
                    c.global_num_key_value_heads->0
                } else {
                    c.num_key_value_heads
                }) > 0
            &&& forall|i: int|
                0 <= i < c.num_hidden_layers && !(#[trigger] c.global_at(i)) ==> c.head_dim > 0
                    && c.num_key_value_heads > 0
            &&& forall|i: int|
                0 <= i < c.num_hidden_layers && #[trigger] c.shared_at(i) ==> c.anchor_of(
                    i,
                ) is Some
        },
{
    lemma_first_error(c, block_size, 0);
    if specs_error(c, block_size) is None {
        assert forall|i: int| 0 <= i < c.num_hidden_layers implies #[trigger] layer_error(
            c,
            block_size,
            i,
        ) is None by {
            lemma_no_error_at(c, block_size, 0, i);
        }
        assert forall|i: int| 0 <= i < c.num_hidden_layers && #[trigger] c.global_at(i) implies (if c.global_head_dim is Some {
            c.global_head_dim->0
        } else {
            c.head_dim
        }) > 0 && (if c.global_num_key_value_heads is Some {
            c.global_num_key_value_heads->0
        } else {
            c.num_key_value_heads
        }) > 0 by {
            assert(layer_error(c, block_size, i) is None);
        }
        assert forall|i: int| 0 <= i < c.num_hidden_layers && !(#[trigger] c.global_at(i)) implies c.head_dim
            > 0 && c.num_key_value_heads > 0 by {
            assert(layer_error(c, block_size, i) is None);
        }
        assert forall|i: int| 0 <= i < c.num_hidden_layers && #[trigger] c.shared_at(i) implies c.anchor_of(
            i,
        ) is Some by {
            assert(layer_error(c, block_size, i) is None);
        }
    } else if block_size > 0 && c.sliding_window > 0 {
        let i = choose|i: int|
            0 <= i < c.layers() && (#[trigger] layer_error(c, block_size, i)) is Some;
        assert(c.global_at(i) || !c.global_at(i));
        assert(c.shared_at(i) || !c.shared_at(i));
    }
}

proof fn lemma_first_error(c: Gemma4Config, block_size: u32, from: int)
    requires
        0 <= from,
    ensures
        first_layer_error(c, block_size, from) is Some ==> exists|i: int|
            0 <= i < c.layers() && (#[trigger] layer_error(c, block_size, i)) is Some,
    decreases c.layers() - from,
{
    if from < c.layers() {
        lemma_first_error(c, block_size, from + 1);
    }
}

/// The first layer that cannot be laid out is the one that is named.
pub proof fn law_first_bad_layer_is_named(c: Gemma4Config, block_size: u32, i: int)
    requires
        c.wf(),
        block_size > 0,
        c.sliding_window > 0,
        0 <= i < c.num_hidden_layers,
        layer_error(c, block_size, i) is Some,
        forall|k: int| 0 <= k < i ==> (#[trigger] layer_error(c, block_size, k)) is None,
    ensures
        specs_error(c, block_size) matches Some(e) && match e {
            KvSpecError::HeadDim { layer, .. } => layer == i,
            KvSpecError::KvHeads { layer, .. } => layer == i,
            KvSpecError::Layout { layer, .. } => layer == i,
            KvSpecError::NoAnchor { layer } => layer == i,
            _ => false,
        },
{
    lemma_error_at(c, block_size, 0, i);
}

proof fn lemma_error_at(c: Gemma4Config, block_size: u32, from: int, i: int)
    requires
        0 <= from <= i < c.layers(),
        layer_error(c, block_size, i) is Some,
        forall|k: int| 0 <= k < i ==> (#[trigger] layer_error(c, block_size, k)) is None,
    ensures
        first_layer_error(c, block_size, from) == layer_error(c, block_size, i),
    decreases i - from,
{
    if from < i {
        assert(layer_error(c, block_size, from) is None);
        lemma_error_at(c, block_size, from + 1, i);
    }
}

/// Blocks are as large as the configuration says, and hold 16 tokens otherwise.
pub proof fn law_tokens_of_a_block(c: Gemma4Config)
    ensures
        c.paged_block_size is Some ==> block_size_of(c) == c.paged_block_size->0,
        c.paged_block_size is None ==> block_size_of(c) == 16,
{
}

/// A pool that is not set has at least 256 MiB, and just that where a dimension is
/// missing; a larger context, larger blocks of heads or more layers never make it
/// smaller.
pub proof fn law_default_pool_grows(
    max_seq_len: int,
    block_size: int,
    head_size: int,
    num_kv_heads: int,
    num_layers: int,
    more_layers: int,
)
    requires
        0 <= max_seq_len,
        0 < block_size,
        0 <= head_size,
        0 <= num_kv_heads,
        0 <= num_layers <= more_layers,
    ensures
        256 <= default_memory_mb(max_seq_len, block_size, head_size, num_kv_heads, num_layers)
            <= u32::MAX,
        default_memory_mb(0, block_size, head_size, num_kv_heads, num_layers) == 256,
        default_memory_mb(max_seq_len, block_size, head_size, num_kv_heads, 0) == 256,
        default_memory_mb(max_seq_len, block_size, head_size, num_kv_heads, num_layers)
            <= default_memory_mb(max_seq_len, block_size, head_size, num_kv_heads, more_layers),
{
    let blocks = ceil_div(max_seq_len, block_size);
    lemma_ceil_div_bounds(max_seq_len, block_size);
    let bytes = 2 * num_kv_heads * head_size * block_size * 2 * num_layers * blocks;
    let more = 2 * num_kv_heads * head_size * block_size * 2 * more_layers * blocks;
    assert(0 <= bytes <= more) by (nonlinear_arith)
        requires
            0 <= num_kv_heads,
            0 <= head_size,
            0 < block_size,
            0 <= num_layers <= more_layers,
            0 <= blocks,
            bytes == 2 * num_kv_heads * head_size * block_size * 2 * num_layers * blocks,
            more == 2 * num_kv_heads * head_size * block_size * 2 * more_layers * blocks,
    ;
    let m = BYTES_PER_MIB as int;
    vstd::arithmetic::div_mod::lemma_div_is_ordered(bytes + m - 1, more + m - 1, m);
}

/// A message about a layer names it first and ends with the value that it cannot have.
pub proof fn law_messages_about_a_layer(layer: usize, n: i32)
    ensures
        ({
            let t = (KvSpecError::HeadDim { layer, head_dim: n }).text();
            &&& ("Gemma4 KV cache specs: layer "@ + decimal(layer as int)).is_prefix_of(t)
            &&& (" has invalid head_dim "@ + decimal(n as int)).is_suffix_of(t)
        }),
        ({
            let t = (KvSpecError::KvHeads { layer, num_kv_heads: n }).text();
            &&& ("Gemma4 KV cache specs: layer "@ + decimal(layer as int)).is_prefix_of(t)
            &&& (" has invalid num_kv_heads "@ + decimal(n as int)).is_suffix_of(t)
        }),
        ({
            let t = (KvSpecError::NoAnchor { layer }).text();
            &&& ("Gemma4 KV cache specs: layer "@ + decimal(layer as int)).is_prefix_of(t)
            &&& " is KV-shared but has no resolvable anchor"@.is_suffix_of(t)
        }),
        (KvSpecError::SlidingWindow { sliding_window: n }).text()
            == "Gemma4 KV cache specs require sliding_window > 0, got "@ + decimal(n as int),
        (KvSpecError::MaxPositions { max_position_embeddings: n }).text()
            == "Gemma4 KV cache groups: invalid max_position_embeddings "@ + decimal(n as int),
        (KvSpecError::RouteMaxPositions { max_position_embeddings: n }).text()
            == "Gemma4 layer kind routes: invalid max_position_embeddings "@ + decimal(n as int),
{
    let first = "Gemma4 KV cache specs: layer "@ + decimal(layer as int);
    law_ends_of_a_text(first, " has invalid head_dim "@, decimal(n as int));
    law_ends_of_a_text(first, " has invalid num_kv_heads "@, decimal(n as int));
    law_ends_of_a_text(
        "Gemma4 KV cache specs: layer "@,
        decimal(layer as int),
        " is KV-shared but has no resolvable anchor"@,
    );
}

} // verus!
