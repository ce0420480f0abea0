//! Sliding-window cache states that are remembered at block boundaries, and
//! how a prompt finds the longest one that it extends.

use vstd::prelude::*;
use vstd::slice::slice_subrange;

use crate::config::wrap_i32;
use crate::config::Gemma4Config;

verus! {

/// The keys and values of one sliding layer after `offset` tokens. The arrays
/// are immutable and live in the tensor runtime under the number `arrays`.
#[derive(Debug, Clone, Copy, PartialEq, Eq, Structural)]
pub struct RotatingKVCacheSnapshot {
    pub offset: i32,
    pub arrays: u64,
}

/// The cache of one layer. `arrays` names its keys and values in the tensor
/// runtime; there are none before the first token.
#[derive(Debug, Clone, Copy, PartialEq, Eq, Structural)]
pub enum Gemma4LayerCache {
    Global { offset: i32, arrays: Option<u64> },
    Sliding { offset: i32, window: i32, arrays: Option<u64> },
}

impl Gemma4LayerCache {
    /// An empty cache of a global layer.
    pub fn new_global() -> (r: Gemma4LayerCache)
        ensures
            r == (Gemma4LayerCache::Global { offset: 0, arrays: None }),
    {
        Gemma4LayerCache::Global { offset: 0, arrays: None }
    }

    /// An empty cache of a sliding layer.
    pub fn new_sliding(window: i32) -> (r: Gemma4LayerCache)
        ensures
            r == (Gemma4LayerCache::Sliding { offset: 0, window, arrays: None }),
    {
        Gemma4LayerCache::Sliding { offset: 0, window, arrays: None }
    }

    /// The cache is that of a sliding layer that has seen `offset` tokens.
    pub open spec fn slid_to(self, offset: int) -> bool {
        match self {
            Gemma4LayerCache::Sliding { offset: at, .. } => at == offset,
            Gemma4LayerCache::Global { .. } => false,
        }
    }

    /// What can be remembered of a sliding cache: nothing before its first
    /// token.
    pub open spec fn snapshot(self) -> Option<RotatingKVCacheSnapshot> {
        match self {
            Gemma4LayerCache::Sliding { offset, arrays: Some(arrays), .. } => Some(
                RotatingKVCacheSnapshot { offset, arrays },
            ),
            _ => None,
        }
    }

    /// Whether the cache is that of a sliding layer that has seen `offset`
    /// tokens.
    pub fn sliding_offset_matches(&self, offset: i32) -> (r: bool)
        ensures
            r == self.slid_to(offset as int),
    {
        match *self {
            Gemma4LayerCache::Sliding { offset: at, .. } => at == offset,
            Gemma4LayerCache::Global { .. } => false,
        }
    }

    /// What can be remembered of a sliding cache.
    pub fn snapshot_sliding(&self) -> (r: Option<RotatingKVCacheSnapshot>)
        ensures
            r == self.snapshot(),
    {
        match *self {
            Gemma4LayerCache::Sliding { offset, arrays: Some(arrays), .. } => Some(
                RotatingKVCacheSnapshot { offset, arrays },
            ),
            _ => None,
        }
    }
}

/// The empty cache of layer `i`.
pub open spec fn fresh_cache(c: Gemma4Config, i: int) -> Gemma4LayerCache {
    if c.global_at(i) {
        Gemma4LayerCache::Global { offset: 0, arrays: None }
    } else {
        Gemma4LayerCache::Sliding { offset: 0, window: c.sliding_window, arrays: None }
    }
}

/// The empty caches of all layers.
pub open spec fn fresh_caches(c: Gemma4Config) -> Seq<Gemma4LayerCache> {
    Seq::new(c.layers() as nat, |i: int| fresh_cache(c, i))
}

/// The empty caches of all layers.
pub fn init_caches_for_config(config: &Gemma4Config) -> (r: Vec<Gemma4LayerCache>)
    requires
        config.wf(),
    ensures
        r@ == fresh_caches(*config),
{
    let n: usize = config.num_hidden_layers as usize;
    let mut out: Vec<Gemma4LayerCache> = Vec::new();
    let mut i: usize = 0;
    while i < n
        invariant
            i <= n,
            n == config.layers(),
            out@ == fresh_caches(*config).take(i as int),
        decreases n - i,
    {
        let cache: Gemma4LayerCache = if config.is_global_layer(i) {
            Gemma4LayerCache::new_global()
        } else {
            Gemma4LayerCache::new_sliding(config.sliding_window)
        };
        proof {
            let all = fresh_caches(*config);
            assert(all.take(i + 1) =~= all.take(i as int).push(all[i as int]));
        }
        out.push(cache);
        i += 1;
    }
    assert(fresh_caches(*config).take(n as int) =~= fresh_caches(*config));
    out
}

fn offset_i32(offset: u32) -> (r: i32)
    ensures
        r == wrap_i32(offset as int),
{
    if offset <= 0x7fff_ffff {
        offset as i32
    } else {
        (offset as i64 - 0x1_0000_0000) as i32
    }
}

/// The low 32 bits of a count.
pub open spec fn wrap_u32(n: int) -> int {
    n % 0x1_0000_0000
}

/// The low 32 bits of a count.
pub(crate) fn wrapping_u32(n: usize) -> (r: u32)
    ensures
        r == wrap_u32(n as int),
{
    (n as u64 % 0x1_0000_0000) as u32
}

/// Every sliding layer has seen `offset` tokens.
pub open spec fn ready_at(c: Gemma4Config, caches: Seq<Gemma4LayerCache>, offset: u32) -> bool {
    &&& caches.len() == c.layers()
    &&& forall|i: int|
        0 <= i < caches.len() && !c.global_at(i) ==> (#[trigger] caches[i]).slid_to(
            wrap_i32(offset as int),
        )
}

/// Whether the caches are there and every sliding layer has seen `offset`
/// tokens.
pub fn gemma4_sliding_caches_ready_at(
    config: &Gemma4Config,
    caches: &Option<Vec<Gemma4LayerCache>>,
    offset: u32,
) -> (r: bool)
    requires
        config.wf(),
    ensures
        r == (caches matches Some(c) && ready_at(*config, c@, offset)),
{
    match caches {
        None => false,
        Some(list) => {
            if list.len() != config.num_hidden_layers as usize {
                return false;
            }
            let want: i32 = offset_i32(offset);
            let mut i: usize = 0;
            while i < list.len()
                invariant
                    *caches == Some(*list),
                    i <= list@.len(),
                    list@.len() == config.layers(),
                    want == wrap_i32(offset as int),
                    forall|k: int|
                        0 <= k < i && !config.global_at(k) ==> (#[trigger] list@[k]).slid_to(
                            want as int,
                        ),
                decreases list@.len() - i,
            {
                if config.is_sliding_layer(i) && !list[i].sliding_offset_matches(want) {
                    assert(!list@[i as int].slid_to(want as int));
                    return false;
                }
                i += 1;
            }
            true
        },
    }
}

/// What is remembered of layer `i`.
pub open spec fn layer_snapshot(c: Gemma4Config, caches: Seq<Gemma4LayerCache>, i: int) -> Option<
    RotatingKVCacheSnapshot,
> {
    if c.global_at(i) {
        None
    } else {
        caches[i].snapshot()
    }
}

/// What is remembered of all layers.
pub open spec fn layer_snapshots(c: Gemma4Config, caches: Seq<Gemma4LayerCache>) -> Seq<
    Option<RotatingKVCacheSnapshot>,
> {
    Seq::new(caches.len(), |i: int| layer_snapshot(c, caches, i))
}

/// Every sliding layer has seen `offset` tokens and holds arrays.
pub open spec fn snapshot_possible(
    c: Gemma4Config,
    caches: Seq<Gemma4LayerCache>,
    offset: u32,
) -> bool {
    &&& ready_at(c, caches, offset)
    &&& forall|i: int|
        0 <= i < caches.len() && !c.global_at(i) ==> (#[trigger] caches[i]).snapshot() is Some
}

/// Remembers the sliding layers, where all of them have seen `expected_offset`
/// tokens.
pub fn snapshot_gemma4_sliding_caches(
    config: &Gemma4Config,
    caches: &Option<Vec<Gemma4LayerCache>>,
    expected_offset: u32,
) -> (r: Option<Vec<Option<RotatingKVCacheSnapshot>>>)
    requires
        config.wf(),
    ensures
        match r {
            Some(snapshots) => caches matches Some(c) && snapshot_possible(
                *config,
                c@,
                expected_offset,
            ) && snapshots@ == layer_snapshots(*config, c@),
            None => !(caches matches Some(c) && snapshot_possible(*config, c@, expected_offset)),
        },
{
    if !gemma4_sliding_caches_ready_at(config, caches, expected_offset) {
        return None;
    }
    match caches {
        None => None,
        Some(list) => {
            let mut out: Vec<Option<RotatingKVCacheSnapshot>> = Vec::new();
            let mut i: usize = 0;
            while i < list.len()
                invariant
                    *caches == Some(*list),
                    i <= list@.len(),
                    out@ == layer_snapshots(*config, list@).take(i as int),
                    forall|k: int|
                        0 <= k < i && !config.global_at(k) ==> (
                        #[trigger] list@[k]).snapshot() is Some,
                decreases list@.len() - i,
            {
                let snapshot: Option<RotatingKVCacheSnapshot> = if config.is_sliding_layer(i) {
                    let taken = list[i].snapshot_sliding();
                    if taken.is_none() {
                        assert(list@[i as int].snapshot() is None);
                        return None;
                    }
                    taken
                } else {
                    None
                };
                proof {
                    let all = layer_snapshots(*config, list@);
                    assert(all.take(i + 1) =~= all.take(i as int).push(all[i as int]));
                }
                out.push(snapshot);
                i += 1;
            }
            proof {
                let all = layer_snapshots(*config, list@);
                assert(all.take(list@.len() as int) =~= all);
            }
            Some(out)
        },
    }
}

/// The snapshots cover every sliding layer at `offset` tokens.
pub open spec fn restorable(
    c: Gemma4Config,
    snapshots: Seq<Option<RotatingKVCacheSnapshot>>,
    offset: u32,
) -> bool {
    &&& snapshots.len() == c.layers()
    &&& forall|i: int|
        0 <= i < snapshots.len() && !c.global_at(i) ==> (#[trigger] snapshots[i] matches Some(s)
            && s.offset == wrap_i32(offset as int))
}

/// The caches that snapshots stand for: sliding layers as remembered, global
/// layers empty.
pub open spec fn restored(c: Gemma4Config, snapshots: Seq<Option<RotatingKVCacheSnapshot>>) -> Seq<
    Gemma4LayerCache,
> {
    Seq::new(
        c.layers() as nat,
        |i: int|
            if c.global_at(i) {
                fresh_cache(c, i)
            } else {
                Gemma4LayerCache::Sliding {
                    offset: snapshots[i]->0.offset,
                    window: c.sliding_window,
                    arrays: Some(snapshots[i]->0.arrays),
                }
            },
    )
}

/// The caches that snapshots stand for, where they cover every sliding layer.
pub fn restore_gemma4_sliding_caches(
    config: &Gemma4Config,
    snapshots: &Vec<Option<RotatingKVCacheSnapshot>>,
    expected_offset: u32,
) -> (r: Option<Vec<Gemma4LayerCache>>)
    requires
        config.wf(),
    ensures
        match r {
            Some(caches) => restorable(*config, snapshots@, expected_offset) && caches@ == restored(
                *config,
                snapshots@,
            ),
            None => !restorable(*config, snapshots@, expected_offset),
        },
{
    if snapshots.len() != config.num_hidden_layers as usize {
        return None;
    }
    let want: i32 = offset_i32(expected_offset);
    let mut out: Vec<Gemma4LayerCache> = Vec::new();
    let mut i: usize = 0;
    while i < snapshots.len()
        invariant
            i <= snapshots@.len(),
            snapshots@.len() == config.layers(),
            want == wrap_i32(expected_offset as int),
            out@ == restored(*config, snapshots@).take(i as int),
            forall|k: int|
                0 <= k < i && !config.global_at(k) ==> (#[trigger] snapshots@[k] matches Some(s)
                    && s.offset == want),
        decreases snapshots@.len() - i,
    {
        let cache: Gemma4LayerCache = if config.is_sliding_layer(i) {
            match snapshots[i] {
                None => {
                    assert(snapshots@[i as int] is None);
                    return None;
                },
                Some(snapshot) => {
                    if snapshot.offset != want {
                        assert(snapshots@[i as int] is Some);
                        return None;
                    }
                    Gemma4LayerCache::Sliding {
                        offset: snapshot.offset,
                        window: config.sliding_window,
                        arrays: Some(snapshot.arrays),
                    }
                },
            }
        } else {
            Gemma4LayerCache::new_global()
        };
        proof {
            let all = restored(*config, snapshots@);
            assert(all.take(i + 1) =~= all.take(i as int).push(all[i as int]));
        }
        out.push(cache);
        i += 1;
    }
    assert(restored(*config, snapshots@).take(snapshots@.len() as int) =~= restored(
        *config,
        snapshots@,
    ));
    Some(out)
}

/// What is remembered of caches restores to caches that hold the same sliding
/// state.
pub proof fn law_snapshot_restores(
    c: Gemma4Config,
    caches: Seq<Gemma4LayerCache>,
    offset: u32,
    i: int,
)
    requires
        c.wf(),
        snapshot_possible(c, caches, offset),
        0 <= i < c.layers(),
        !c.global_at(i),
    ensures
        restorable(c, layer_snapshots(c, caches), offset),
        ready_at(c, restored(c, layer_snapshots(c, caches)), offset),
        restored(c, layer_snapshots(c, caches))[i].snapshot() == caches[i].snapshot(),
{
    let snapshots = layer_snapshots(c, caches);
    assert forall|k: int| 0 <= k < snapshots.len() && !c.global_at(k) implies (
    #[trigger] snapshots[k] matches Some(s) && s.offset == wrap_i32(offset as int)) by {
        assert(caches[k].slid_to(wrap_i32(offset as int)));
        assert(caches[k].snapshot() is Some);
    }
    assert(snapshots[i] is Some);
}

/// A hash that takes any block, parent hash and salt.
pub open spec fn total_hash<H: Fn(&[u32], u64, &[u64]) -> u64>(hash: H) -> bool {
    forall|t: &[u32], p: u64, e: &[u64]| #[trigger] call_requires(hash, (t, p, e))
}

/// A hash whose result depends on its arguments alone.
pub open spec fn pure_hash<H: Fn(&[u32], u64, &[u64]) -> u64>(hash: H) -> bool {
    forall|t: &[u32], u: &[u32], p: u64, e: &[u64], f: &[u64], h: u64, k: u64|
        t@ == u@ && e@ == f@ && #[trigger] call_ensures(hash, (t, p, e), h)
            && #[trigger] call_ensures(hash, (u, p, f), k) ==> h == k
}

/// `h` is a hash of one block.
pub open spec fn hashes_to<H: Fn(&[u32], u64, &[u64]) -> u64>(
    hash: H,
    tokens: Seq<u32>,
    parent: u64,
    extra: Seq<u64>,
    h: u64,
) -> bool {
    exists|t: &[u32], e: &[u64]|
        t@ == tokens && e@ == extra && #[trigger] call_ensures(hash, (t, parent, e), h)
}

/// The hash of one block.
pub open spec fn block_hash<H: Fn(&[u32], u64, &[u64]) -> u64>(
    hash: H,
    tokens: Seq<u32>,
    parent: u64,
    extra: Seq<u64>,
) -> u64 {
    choose|h: u64| hashes_to(hash, tokens, parent, extra, h)
}

/// What the first block is hashed with besides its tokens.
pub open spec fn block_extra(index: int, cache_salt: u64) -> Seq<u64> {
    if index == 0 && cache_salt != 0 {
        seq![cache_salt]
    } else {
        Seq::empty()
    }
}

/// The hash of `n` blocks: each block is hashed with the hash of those before
/// it.
pub open spec fn blocks_hash<H: Fn(&[u32], u64, &[u64]) -> u64>(
    hash: H,
    tokens: Seq<u32>,
    block_size: int,
    n: int,
    cache_salt: u64,
) -> u64
    decreases n,
{
    if n <= 0 {
        0
    } else {
        block_hash(
            hash,
            tokens.subrange((n - 1) * block_size, n * block_size),
            blocks_hash(hash, tokens, block_size, n - 1, cache_salt),
            block_extra(n - 1, cache_salt),
        )
    }
}

/// The hash of a prefix: none where it is empty, does not end at a block
/// boundary or is longer than the prompt.
pub open spec fn prefix_hash<H: Fn(&[u32], u64, &[u64]) -> u64>(
    hash: H,
    tokens: Seq<u32>,
    prefix_len: u32,
    block_size: u32,
    cache_salt: u64,
) -> Option<u64> {
    if prefix_len == 0 || block_size == 0 || prefix_len as int % block_size as int != 0
        || prefix_len > tokens.len() {
        None
    } else {
        Some(
            blocks_hash(
                hash,
                tokens,
                block_size as int,
                prefix_len as int / block_size as int,
                cache_salt,
            ),
        )
    }
}

proof fn lemma_block_hash<H: Fn(&[u32], u64, &[u64]) -> u64>(
    hash: H,
    t: &[u32],
    p: u64,
    e: &[u64],
    h: u64,
)
    requires
        pure_hash(hash),
        call_ensures(hash, (t, p, e), h),
    ensures
        block_hash(hash, t@, p, e@) == h,
{
    let k = block_hash(hash, t@, p, e@);
    assert(hashes_to(hash, t@, p, e@, h));
    assert(hashes_to(hash, t@, p, e@, k));
}

/// The hash under which a paged prefix is filed: `hash` folded over its blocks.
pub fn compute_gemma4_paged_prefix_block_hash<H: Fn(&[u32], u64, &[u64]) -> u64>(
    tokens: &[u32],
    prefix_len: u32,
    block_size: u32,
    cache_salt: u64,
    hash: &H,
) -> (r: Option<u64>)
    requires
        total_hash(*hash),
        pure_hash(*hash),
    ensures
        r == prefix_hash(*hash, tokens@, prefix_len, block_size, cache_salt),
{
    if prefix_len == 0 || block_size == 0 || prefix_len % block_size != 0 {
        return None;
    }
    let len: usize = prefix_len as usize;
    let block: usize = block_size as usize;
    if len > tokens.len() {
        return None;
    }
    let blocks: usize = len / block;
    let mut parent: u64 = 0;
    let mut i: usize = 0;
    proof {
        vstd::arithmetic::div_mod::lemma_fundamental_div_mod(len as int, block as int);
    }
    while i < blocks
        invariant
            total_hash(*hash),
            pure_hash(*hash),
            i <= blocks,
            block == block_size,
            blocks * block == len,
            len <= tokens@.len(),
            parent == blocks_hash(*hash, tokens@, block as int, i as int, cache_salt),
        decreases blocks - i,
    {
        assert(0 <= i * block && (i + 1) * block <= blocks * block && (i + 1) * block == i * block
            + block) by (nonlinear_arith)
            requires
                0 <= i < blocks,
                0 <= block,
        ;
        let start: usize = i * block;
        let end: usize = start + block;
        let mut extra: Vec<u64> = Vec::new();
        if i == 0 && cache_salt != 0 {
            extra.push(cache_salt);
        }
        assert(extra@ =~= block_extra(i as int, cache_salt));
        let part: &[u32] = slice_subrange(tokens, start, end);
        let extra_slice: &[u64] = extra.as_slice();
        let next: u64 = hash(part, parent, extra_slice);
        proof {
            lemma_block_hash(*hash, part, parent, extra_slice, next);
        }
        parent = next;
        i += 1;
    }
    Some(parent)
}

/// New caches: one for each layer, all empty and at the start; global layers keep
/// everything, the others a window.
pub proof fn law_new_caches_are_empty(c: Gemma4Config, i: int)
    requires
        c.wf(),
        0 <= i < c.num_hidden_layers,
    ensures
        fresh_caches(c).len() == c.num_hidden_layers,
        c.global_at(i) ==> fresh_caches(c)[i] == (Gemma4LayerCache::Global {
            offset: 0,
            arrays: None,
        }),
        !c.global_at(i) ==> fresh_caches(c)[i] == (Gemma4LayerCache::Sliding {
            offset: 0,
            window: c.sliding_window,
            arrays: None,
        }),
        ready_at(c, fresh_caches(c), 0),
        fresh_caches(c)[i].snapshot() is None,
{
}

/// Caches are ready at one position only, where some layer slides.
pub proof fn law_caches_are_ready_at_one_position(
    c: Gemma4Config,
    caches: Seq<Gemma4LayerCache>,
    a: u32,
    b: u32,
    i: int,
)
    requires
        ready_at(c, caches, a),
        0 <= i < c.num_hidden_layers,
        !c.global_at(i),
    ensures
        ready_at(c, caches, b) ==> a == b,
        caches.len() == c.num_hidden_layers,
        a <= i32::MAX ==> (caches[i] matches Gemma4LayerCache::Sliding { offset, .. } && offset
            == a),
{
    assert(caches[i].slid_to(wrap_i32(a as int)));
    if ready_at(c, caches, b) {
        assert(caches[i].slid_to(wrap_i32(b as int)));
        vstd::arithmetic::div_mod::lemma_fundamental_div_mod(a + 0x8000_0000, 0x1_0000_0000);
        vstd::arithmetic::div_mod::lemma_fundamental_div_mod(b + 0x8000_0000, 0x1_0000_0000);
    }
}

/// What is remembered of a sliding layer is where it is and what it holds; nothing
/// is remembered of a global layer, or of one that holds nothing.
pub proof fn law_what_is_remembered(
    c: Gemma4Config,
    caches: Seq<Gemma4LayerCache>,
    i: int,
    offset: i32,
    window: i32,
    arrays: u64,
)
    requires
        0 <= i < caches.len(),
    ensures
        layer_snapshots(c, caches).len() == caches.len(),
        c.global_at(i) ==> layer_snapshots(c, caches)[i] is None,
        !c.global_at(i) && caches[i] == (Gemma4LayerCache::Sliding {
            offset,
            window,
            arrays: Some(arrays),
        }) ==> layer_snapshots(c, caches)[i] == Some(RotatingKVCacheSnapshot { offset, arrays }),
        caches[i] == (Gemma4LayerCache::Sliding { offset, window, arrays: None })
            ==> layer_snapshots(c, caches)[i] is None,
{
}

/// Caches that are restored: a sliding layer is where the snapshot was, holds what
/// it held and slides over the model's window; a global layer is empty.
pub proof fn law_what_is_restored(
    c: Gemma4Config,
    snapshots: Seq<Option<RotatingKVCacheSnapshot>>,
    position: u32,
    i: int,
)
    requires
        c.wf(),
        restorable(c, snapshots, position),
        0 <= i < c.num_hidden_layers,
    ensures
        restored(c, snapshots).len() == c.num_hidden_layers,
        ready_at(c, restored(c, snapshots), position),
        c.global_at(i) ==> restored(c, snapshots)[i] == (Gemma4LayerCache::Global {
            offset: 0,
            arrays: None,
        }),
        !c.global_at(i) ==> restored(c, snapshots)[i] == (Gemma4LayerCache::Sliding {
            offset: snapshots[i]->0.offset,
            window: c.sliding_window,
            arrays: Some(snapshots[i]->0.arrays),
        }),
{
    assert forall|k: int|
        0 <= k < restored(c, snapshots).len() && !c.global_at(k) implies (#[trigger] restored(
        c,
        snapshots,
    )[k]).slid_to(wrap_i32(position as int)) by {
        assert(snapshots[k] is Some);
    }
}

/// Snapshots can be restored at a position only where every sliding layer was there.
pub proof fn law_snapshot_of_another_position_is_refused(
    c: Gemma4Config,
    snapshots: Seq<Option<RotatingKVCacheSnapshot>>,
    position: u32,
    i: int,
)
    requires
        0 <= i < c.num_hidden_layers,
        !c.global_at(i),
        position <= i32::MAX,
        i < snapshots.len() ==> (snapshots[i] is None || snapshots[i]->0.offset != position),
    ensures
        !restorable(c, snapshots, position),
{
    if restorable(c, snapshots, position) {
        assert(snapshots[i] is Some);
    }
}

/// The hash of a prefix looks at the prefix and at nothing behind it, and there is
/// one exactly where the prefix is whole blocks of the prompt.
pub proof fn law_prefix_hash_looks_at_the_prefix<H: Fn(&[u32], u64, &[u64]) -> u64>(
    hash: H,
    a: Seq<u32>,
    b: Seq<u32>,
    prefix_len: u32,
    block_size: u32,
    cache_salt: u64,
)
    requires
        prefix_len <= a.len(),
        prefix_len <= b.len(),
        a.take(prefix_len as int) == b.take(prefix_len as int),
    ensures
        prefix_hash(hash, a, prefix_len, block_size, cache_salt) == prefix_hash(
            hash,
            b,
            prefix_len,
            block_size,
            cache_salt,
        ),
        prefix_hash(hash, a, prefix_len, block_size, cache_salt) is Some <==> prefix_len > 0
            && block_size > 0 && prefix_len as int % block_size as int == 0,
{
    if prefix_len > 0 && block_size > 0 && prefix_len as int % block_size as int == 0 {
        let n = prefix_len as int / block_size as int;
        vstd::arithmetic::div_mod::lemma_fundamental_div_mod(
            prefix_len as int,
            block_size as int,
        );
        assert(n * block_size as int == prefix_len) by (nonlinear_arith)
            requires
                prefix_len as int == block_size as int * n,
        ;
        lemma_blocks_hash_looks_back(
            hash,
            a,
            b,
            block_size as int,
            n,
            cache_salt,
            prefix_len as int,
        );
    }
}

proof fn lemma_blocks_hash_looks_back<H: Fn(&[u32], u64, &[u64]) -> u64>(
    hash: H,
    a: Seq<u32>,
    b: Seq<u32>,
    block_size: int,
    n: int,
    cache_salt: u64,
    upto: int,
)
    requires
        0 < block_size,
        0 <= upto <= a.len(),
        upto <= b.len(),
        n * block_size <= upto,
        a.take(upto) == b.take(upto),
    ensures
        blocks_hash(hash, a, block_size, n, cache_salt) == blocks_hash(
            hash,
            b,
            block_size,
            n,
            cache_salt,
        ),
    decreases n,
{
    if n > 0 {
        let from = (n - 1) * block_size;
        let to = n * block_size;
        assert(0 <= from && from + block_size == to) by (nonlinear_arith)
            requires
                n > 0,
                block_size > 0,
                from == (n - 1) * block_size,
                to == n * block_size,
        ;
        lemma_blocks_hash_looks_back(hash, a, b, block_size, n - 1, cache_salt, upto);
        assert(a.subrange(from, to) =~= a.take(upto).subrange(from, to));
        assert(b.subrange(from, to) =~= b.take(upto).subrange(from, to));
    }
}

/// Hashes are chained block by block: the hash of a prefix that is one block longer
/// is that of the new block behind the hash of the rest. The salt goes into the
/// first block only, and no salt is 0.
pub proof fn law_prefix_hash_is_chained<H: Fn(&[u32], u64, &[u64]) -> u64>(
    hash: H,
    tokens: Seq<u32>,
    prefix_len: u32,
    block_size: u32,
    cache_salt: u64,
)
    requires
        0 < block_size,
        prefix_len as int % block_size as int == 0,
        prefix_len + block_size <= tokens.len(),
        prefix_len + block_size <= u32::MAX,
    ensures
        prefix_hash(hash, tokens, (prefix_len + block_size) as u32, block_size, cache_salt) == Some(
            block_hash(
                hash,
                tokens.subrange(prefix_len as int, prefix_len + block_size),
                if prefix_len == 0 {
                    0
                } else {
                    prefix_hash(hash, tokens, prefix_len, block_size, cache_salt)->0
                },
                if prefix_len == 0 && cache_salt != 0 {
                    seq![cache_salt]
                } else {
                    Seq::empty()
                },
            ),
        ),
{
    let b = block_size as int;
    let n = prefix_len as int / b;
    vstd::arithmetic::div_mod::lemma_fundamental_div_mod(prefix_len as int, b);
    assert(prefix_len + b == b * (n + 1)) by (nonlinear_arith)
        requires
            prefix_len as int == b * n,
    ;
    vstd::arithmetic::div_mod::lemma_fundamental_div_mod_converse(prefix_len + b, b, n + 1, 0);
    assert(n * b == prefix_len && (n + 1) * b == prefix_len + b) by (nonlinear_arith)
        requires
            prefix_len as int == b * n,
    ;
    assert(n == 0 <==> prefix_len == 0) by (nonlinear_arith)
        requires
            prefix_len as int == b * n,
            b > 0,
    ;
    let whole = (prefix_len + block_size) as u32;
    assert(whole as int / b == n + 1 && whole as int % b == 0);
    assert(blocks_hash(hash, tokens, b, n + 1, cache_salt) == block_hash(
        hash,
        tokens.subrange(n * b, (n + 1) * b),
        blocks_hash(hash, tokens, b, n, cache_salt),
        block_extra(n, cache_salt),
    )) by {
        assert(n >= 0) by (nonlinear_arith)
            requires
                prefix_len as int == b * n,
                b > 0,
                prefix_len >= 0,
        ;
    }
}

} // verus!
