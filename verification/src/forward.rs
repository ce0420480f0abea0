//! What each layer of a forward pass is given: its mask, its cache, and the
//! keys and values that it shares.

use vstd::prelude::*;
use vstd::string::*;

use crate::checkpoints::Gemma4LayerCache;
use crate::checkpoints::ready_at;
use crate::config::law_anchor_owns_and_keeps;
use crate::config::Gemma4Config;
use crate::kv::all_kinds;
use crate::kv::all_specs;
use crate::kv::block_size_of;
use crate::kv::kind_of;
use crate::kv::law_route_of_layer;
use crate::kv::law_shared_layer_aliases_anchor;
use crate::kv::Gemma4LayerKind;
use crate::kv::KVCacheDType;
use crate::kv::owning_globals_before;
use crate::media::as_token;
use crate::media::image_token;
use crate::media::image_token_of;
use crate::media::token_of_id;
use crate::session::Gemma4Inner;
use crate::text::bracketed;
use crate::text::cat;
use crate::text::cat3;
use crate::text::decimal;
use crate::text::law_ends_of_a_text;
use crate::text::signed_list_text;
use crate::text::signed_text;
use crate::text::signed_values;
use crate::text::unsigned_list_text;
use crate::text::unsigned_text;
use crate::text::unsigned_values;

verus! {

impl Gemma4LayerCache {
    /// Tokens that the cache has seen.
    pub open spec fn offset_of(self) -> i32 {
        match self {
            Gemma4LayerCache::Global { offset, .. } => offset,
            Gemma4LayerCache::Sliding { offset, .. } => offset,
        }
    }

    /// Tokens that the cache has seen.
    pub fn get_offset(&self) -> (r: i32)
        ensures
            r == self.offset_of(),
    {
        match *self {
            Gemma4LayerCache::Global { offset, .. } => offset,
            Gemma4LayerCache::Sliding { offset, .. } => offset,
        }
    }
}

/// Where the rows of a sliding mask start, if a mask is needed: a chunk of one
/// token, or one that fits the window together with what the cache shows, needs
/// none.
pub open spec fn mask_offset(seq_len: int, cache_offset: int, window: int) -> Option<int> {
    let seen = if cache_offset > 0 {
        cache_offset
    } else {
        0
    };
    let prior = if seen < window {
        seen
    } else {
        window
    };
    if seq_len <= 1 || window <= 0 || prior + seq_len <= window {
        None
    } else {
        Some(prior)
    }
}

/// Where the rows of a sliding mask start, if a mask is needed.
pub fn sliding_mask_offset_for_chunk(seq_len: i64, cache_offset: i32, window_size: i64) -> (r:
    Option<i32>)
    requires
        seq_len + i32::MAX <= i64::MAX,
    ensures
        match r {
            Some(o) => mask_offset(seq_len as int, cache_offset as int, window_size as int) == Some(
                o as int,
            ),
            None => mask_offset(seq_len as int, cache_offset as int, window_size as int) is None,
        },
{
    if seq_len <= 1 || window_size <= 0 {
        return None;
    }
    let seen: i64 = if cache_offset > 0 {
        cache_offset as i64
    } else {
        0
    };
    let prior_len: i64 = if seen < window_size {
        seen
    } else {
        window_size
    };
    if prior_len + seq_len > window_size {
        Some(prior_len as i32)
    } else {
        None
    }
}

/// A position is seen from another: it is not later, and within the window.
pub open spec fn sees(row: int, col: int, offset: int, window: int) -> bool {
    0 <= offset + row - col < window
}

/// A boolean mask over `rows` queries and `cols` keys, row by row; true keeps.
#[derive(Debug)]
pub struct KeepMask {
    pub rows: usize,
    pub cols: usize,
    pub keep: Vec<bool>,
}

impl KeepMask {
    /// The mask has an entry for every pair.
    pub open spec fn wf(self) -> bool {
        self.keep@.len() == self.rows * self.cols
    }

    /// The entry of a pair.
    pub open spec fn at(self, row: int, col: int) -> bool {
        self.keep@[row * self.cols + col]
    }
}

proof fn lemma_entry_index(row: int, col: int, rows: int, cols: int)
    requires
        0 <= row < rows,
        0 <= col < cols,
    ensures
        0 <= row * cols + col < rows * cols,
{
    assert(row * cols + col < (row + 1) * cols) by (nonlinear_arith)
        requires
            col < cols,
    ;
    assert((row + 1) * cols <= rows * cols) by (nonlinear_arith)
        requires
            row + 1 <= rows,
            cols > 0,
    ;
    assert(0 <= row * cols) by (nonlinear_arith)
        requires
            0 <= row,
            0 <= cols,
    ;
}

/// The mask of a chunk of `seq_len` tokens of which `offset` come before it in
/// the attended keys.
pub fn create_sliding_mask(seq_len: usize, offset: i32, window_size: i64) -> (r: KeepMask)
    requires
        offset >= 0,
        seq_len + offset <= i32::MAX,
        seq_len * (seq_len + offset) <= usize::MAX,
    ensures
        r.wf(),
        r.rows == seq_len,
        r.cols == seq_len + offset,
        forall|row: int, col: int|
            0 <= row < r.rows && 0 <= col < r.cols ==> #[trigger] r.at(row, col) == sees(
                row,
                col,
                offset as int,
                window_size as int,
            ),
{
    let cols: usize = seq_len + offset as usize;
    let mut keep: Vec<bool> = Vec::new();
    let mut row: usize = 0;
    while row < seq_len
        invariant
            row <= seq_len,
            offset >= 0,
            cols == seq_len + offset,
            cols <= i32::MAX,
            keep@.len() == row * cols,
            forall|r: int, c: int|
                0 <= r < row && 0 <= c < cols ==> #[trigger] keep@[r * cols + c] == sees(
                    r,
                    c,
                    offset as int,
                    window_size as int,
                ),
        decreases seq_len - row,
    {
        let mut col: usize = 0;
        while col < cols
            invariant
                row < seq_len,
                col <= cols,
                offset >= 0,
                cols == seq_len + offset,
                cols <= i32::MAX,
                keep@.len() == row * cols + col,
                forall|r: int, c: int|
                    0 <= r < row && 0 <= c < cols ==> #[trigger] keep@[r * cols + c] == sees(
                        r,
                        c,
                        offset as int,
                        window_size as int,
                    ),
                forall|c: int|
                    0 <= c < col ==> #[trigger] keep@[row * cols + c] == sees(
                        row as int,
                        c,
                        offset as int,
                        window_size as int,
                    ),
            decreases cols - col,
        {
            let distance: i64 = offset as i64 + row as i64 - col as i64;
            let ghost before = keep@;
            keep.push(0 <= distance && distance < window_size);
            proof {
                assert forall|r: int, c: int| 0 <= r < row && 0 <= c < cols implies #[trigger] keep@[r
                    * cols + c] == sees(r, c, offset as int, window_size as int) by {
                    lemma_entry_index(r, c, row as int, cols as int);
                    assert(before[r * cols + c] == keep@[r * cols + c]);
                }
                assert forall|c: int| 0 <= c < col + 1 implies #[trigger] keep@[row * cols + c]
                    == sees(row as int, c, offset as int, window_size as int) by {
                    if c < col {
                        assert(before[row * cols + c] == keep@[row * cols + c]);
                    }
                }
            }
            col += 1;
        }
        proof {
            assert((row + 1) * cols == row * cols + cols) by (nonlinear_arith);
            assert forall|r: int, c: int| 0 <= r < row + 1 && 0 <= c < cols implies #[trigger] keep@[r
                * cols + c] == sees(r, c, offset as int, window_size as int) by {
                if r == row {
                    assert(keep@[row * cols + c] == sees(
                        row as int,
                        c,
                        offset as int,
                        window_size as int,
                    ));
                }
            }
        }
        row += 1;
    }
    KeepMask { rows: seq_len, cols, keep }
}

/// Whatever a token may attend to is kept where no mask is needed: the chunk
/// and what the cache shows fit the window together, so only later positions
/// are out of sight.
pub proof fn law_no_mask_needed(seq_len: int, cache_offset: int, window: int, row: int, col: int)
    requires
        cache_offset >= 0,
        window > 0,
        seq_len > 1,
        mask_offset(seq_len, cache_offset, window) is None,
        0 <= row < seq_len,
        0 <= col <= cache_offset + row,
    ensures
        sees(row, col, cache_offset, window),
{
}

/// The offset of the first sliding layer at or after `from`; 0 where there is
/// none.
pub open spec fn first_sliding_offset(
    c: Gemma4Config,
    caches: Seq<Gemma4LayerCache>,
    from: int,
) -> i32
    decreases caches.len() - from,
{
    if from >= caches.len() {
        0
    } else if !c.global_at(from) {
        caches[from].offset_of()
    } else {
        first_sliding_offset(c, caches, from + 1)
    }
}

/// The offset of the sliding layers.
pub open spec fn sliding_offset_of(c: Gemma4Config, caches: Option<Vec<Gemma4LayerCache>>) -> i32 {
    match caches {
        Some(list) => first_sliding_offset(c, list@, 0),
        None => 0,
    }
}

/// The offset of the sliding layers.
pub fn sliding_cache_offset(
    config: &Gemma4Config,
    caches: &Option<Vec<Gemma4LayerCache>>,
) -> (r: i32)
    ensures
        r == sliding_offset_of(*config, *caches),
{
    match caches {
        None => 0,
        Some(list) => {
            let mut i: usize = 0;
            while i < list.len()
                invariant
                    i <= list@.len(),
                    *caches == Some(*list),
                    first_sliding_offset(*config, list@, i as int) == sliding_offset_of(
                        *config,
                        *caches,
                    ),
                decreases list@.len() - i,
            {
                if config.is_sliding_layer(i) {
                    return list[i].get_offset();
                }
                i += 1;
            }
            0
        },
    }
}

/// The mask that a layer is given.
#[derive(Debug, Clone, Copy, PartialEq, Eq, Structural)]
pub enum LayerMask {
    /// None: the attention is causal by itself.
    Causal,
    /// The sliding mask whose rows start at `offset`.
    Window { offset: i32 },
    /// Causal, with every image seen as a whole.
    CausalWithImages,
    /// Causal within the window, with every image seen as a whole.
    WindowWithImages,
}

/// What a layer without keys and values of its own reads.
#[derive(Debug, Clone, Copy, PartialEq, Eq, Structural)]
pub struct SharedKvInputs {
    /// Position of the first query.
    pub cache_offset: i32,
    /// Tokens of the pool slot that are read; 0 for a stash.
    pub total_ctx: u32,
    /// The layer whose stash is read; none for a pool slot.
    pub stash_of: Option<u32>,
}

/// One layer of a paged forward pass.
#[derive(Debug, Clone, Copy, PartialEq, Eq, Structural)]
pub struct LayerStep {
    /// The route that the layer takes.
    pub kind: Gemma4LayerKind,
    pub first_position: u32,
    /// Tokens in the pool before this pass.
    pub cached_prefix_len: u32,
    pub is_prefill: bool,
    pub mask: LayerMask,
    /// The layer reads and writes its own sliding cache.
    pub flat_cache: bool,
    /// Keys and values are kept for later layers.
    pub needs_stash: bool,
    pub shared: Option<SharedKvInputs>,
}

/// What a paged forward pass is for.
#[derive(Debug, Clone, Copy, PartialEq, Eq, Structural)]
pub enum PassKind {
    /// Prompt tokens.
    Prefill,
    /// Embeddings of a prompt with media; with `images`, images are seen as a
    /// whole.
    MediaPrefill { images: bool },
    /// One generated token.
    Decode,
    /// Cached tokens once more, to bring the sliding layers to them. Global
    /// layers only read.
    Restore,
}

impl PassKind {
    /// The name that messages give the pass.
    pub open spec fn label(self) -> Seq<char> {
        match self {
            PassKind::Prefill => "run_paged_prefill_layer_loop"@,
            PassKind::MediaPrefill { .. } => "run_paged_vlm_prefill_layer_loop"@,
            PassKind::Decode => "run_paged_decode_step"@,
            PassKind::Restore => "run_sliding_prefix_restore_layer_loop"@,
        }
    }

    /// The name that messages give the pass.
    pub fn name(&self) -> (r: &'static str)
        ensures
            r@ == self.label(),
    {
        match *self {
            PassKind::Prefill => "run_paged_prefill_layer_loop",
            PassKind::MediaPrefill { .. } => "run_paged_vlm_prefill_layer_loop",
            PassKind::Decode => "run_paged_decode_step",
            PassKind::Restore => "run_sliding_prefix_restore_layer_loop",
        }
    }
}

/// A paged forward pass.
#[derive(Debug, Clone, Copy, PartialEq, Eq, Structural)]
pub struct PagedPass {
    pub kind: PassKind,
    pub chunk_len: u32,
    pub first_position: u32,
    pub cached_prefix_len: u32,
}

/// Why a paged forward pass cannot run.
#[derive(Debug, Clone, Copy, PartialEq, Eq, Structural)]
pub enum ForwardError {
    EmptyChunk,
    NoPagedPool,
    CachesMissing,
    OffsetMismatch { expected: u32, got: i32 },
}

impl ForwardError {
    /// The message shown to a caller of the pass.
    pub open spec fn text(self, pass: PassKind) -> Seq<char> {
        match self {
            ForwardError::EmptyChunk => pass.label() + match pass {
                PassKind::MediaPrefill { .. } => ": chunk_token_ids must be non-empty"@,
                _ => ": chunk_tokens must be non-empty"@,
            },
            ForwardError::NoPagedPool => pass.label() + match pass {
                PassKind::Decode => ": paged_adapter is None"@,
                PassKind::Restore => ": paged_adapter missing"@,
                _ => ": paged_adapter dropped mid-forward"@,
            },
            ForwardError::CachesMissing => pass.label() + match pass {
                PassKind::Restore => ": sliding cache missing"@,
                _ => ": sliding cache slot missing"@,
            },
            ForwardError::OffsetMismatch { expected, got } =>
                "Gemma4 sliding restore cache offset mismatch: expected "@ + decimal(
                expected as int,
            ) + " got "@ + decimal(got as int),
        }
    }

    /// The message shown to a caller of the pass.
    pub fn message(&self, pass: PassKind) -> (r: String)
        ensures
            r@ == self.text(pass),
    {
        match *self {
            ForwardError::EmptyChunk => cat(
                pass.name(),
                match pass {
                    PassKind::MediaPrefill { .. } => ": chunk_token_ids must be non-empty",
                    _ => ": chunk_tokens must be non-empty",
                },
            ),
            ForwardError::NoPagedPool => cat(
                pass.name(),
                match pass {
                    PassKind::Decode => ": paged_adapter is None",
                    PassKind::Restore => ": paged_adapter missing",
                    _ => ": paged_adapter dropped mid-forward",
                },
            ),
            ForwardError::CachesMissing => cat(
                pass.name(),
                match pass {
                    PassKind::Restore => ": sliding cache missing",
                    _ => ": sliding cache slot missing",
                },
            ),
            ForwardError::OffsetMismatch { expected, got } => {
                let mut out = cat(
                    "Gemma4 sliding restore cache offset mismatch: expected ",
                    unsigned_text(expected as u64).as_str(),
                );
                out.append(" got ");
                out.append(signed_text(got as i64).as_str());
                out
            },
        }
    }
}

/// A layer shares keys and values, and no layer of its kind has any.
#[derive(Debug, Clone, Copy, PartialEq, Eq, Structural)]
pub struct NoAnchor {
    pub layer: usize,
}

impl NoAnchor {
    /// The message shown to a caller.
    pub open spec fn text(self) -> Seq<char> {
        "Layer "@ + decimal(self.layer as int)
            + " is shared but has no anchor (missing layer type match)"@
    }

    /// The message shown to a caller.
    pub fn message(&self) -> (r: String)
        ensures
            r@ == self.text(),
    {
        cat3(
            "Layer ",
            unsigned_text(self.layer as u64).as_str(),
            " is shared but has no anchor (missing layer type match)",
        )
    }
}

impl Gemma4Inner {
    /// The sliding mask of a pass.
    pub open spec fn pass_window(self, p: PagedPass) -> LayerMask {
        match mask_offset(
            p.chunk_len as int,
            sliding_offset_of(self.config, self.caches) as int,
            self.config.sliding_window as int,
        ) {
            Some(o) => LayerMask::Window { offset: o as i32 },
            None => LayerMask::Causal,
        }
    }

    /// The mask of layer `i`.
    pub open spec fn pass_mask(self, p: PagedPass, i: int) -> LayerMask {
        let sliding = self.layer_kinds@[i] is Sliding;
        match p.kind {
            PassKind::MediaPrefill { images } => if images && p.cached_prefix_len == 0 {
                if sliding {
                    LayerMask::WindowWithImages
                } else {
                    LayerMask::CausalWithImages
                }
            } else if sliding {
                self.pass_window(p)
            } else {
                LayerMask::Causal
            },
            PassKind::Prefill | PassKind::Restore => if sliding {
                self.pass_window(p)
            } else {
                LayerMask::Causal
            },
            PassKind::Decode => LayerMask::Causal,
        }
    }

    /// Layer `i` keeps its keys and values for later layers.
    pub open spec fn stashes(self, i: int) -> bool {
        self.config.shares_kv() && self.layer_kinds@[i] is Sliding && self.config.stores_shared_at(
            i,
        )
    }

    /// The route of layer `i`: in a restore pass global layers only read.
    pub open spec fn pass_kind(self, p: PagedPass, i: int) -> Gemma4LayerKind {
        match (p.kind, self.layer_kinds@[i]) {
            (PassKind::Restore, Gemma4LayerKind::GlobalPaged { paged_idx }) =>
                Gemma4LayerKind::SharedOnGlobal { anchor_paged_idx: paged_idx },
            (_, k) => k,
        }
    }

    /// What layer `i` reads of another.
    pub open spec fn pass_shared(self, p: PagedPass, i: int) -> Option<SharedKvInputs> {
        match self.pass_kind(p, i) {
            Gemma4LayerKind::SharedOnGlobal { .. } => Some(
                SharedKvInputs {
                    cache_offset: p.first_position as i32,
                    total_ctx: (match p.kind {
                        PassKind::Prefill | PassKind::MediaPrefill { .. } => p.cached_prefix_len + p.chunk_len,
                        PassKind::Decode => p.first_position + 1,
                        PassKind::Restore => p.first_position + p.chunk_len,
                    }) as u32,
                    stash_of: None,
                },
            ),
            Gemma4LayerKind::SharedOnSliding { anchor_layer_idx } => Some(
                SharedKvInputs {
                    cache_offset: p.first_position as i32,
                    total_ctx: 0,
                    stash_of: Some(anchor_layer_idx),
                },
            ),
            _ => None,
        }
    }

    /// What layer `i` of a pass is given.
    pub open spec fn pass_step(self, p: PagedPass, i: int) -> LayerStep {
        LayerStep {
            kind: self.pass_kind(p, i),
            first_position: p.first_position,
            cached_prefix_len: match p.kind {
                PassKind::Prefill | PassKind::MediaPrefill { .. } => p.cached_prefix_len,
                PassKind::Decode => 0,
                PassKind::Restore => p.first_position,
            },
            is_prefill: !(p.kind is Decode),
            mask: self.pass_mask(p, i),
            flat_cache: self.layer_kinds@[i] is Sliding,
            needs_stash: self.stashes(i),
            shared: self.pass_shared(p, i),
        }
    }

    /// Some layer keeps a sliding cache.
    pub open spec fn needs_caches(self) -> bool {
        exists|i: int| 0 <= i < self.layer_kinds@.len() && #[trigger] self.layer_kinds@[i] is Sliding
    }

    /// No layer of the pass can reach the pool that it needs. A decode step asks
    /// for the pool itself; in the other passes its layers do. A session without
    /// a pool has no routes, so none of its layers can run.
    pub open spec fn lacks_pool(self, p: PagedPass) -> bool {
        self.paged is None && (p.kind is Decode || self.config.layers() > 0)
    }

    /// What keeps a pass from running, if anything. A restore looks first whether
    /// it goes on from where the sliding layers are.
    pub open spec fn pass_error(self, p: PagedPass) -> Option<ForwardError> {
        let got = sliding_offset_of(self.config, self.caches);
        if p.chunk_len == 0 {
            if p.kind is Restore {
                None
            } else {
                Some(ForwardError::EmptyChunk)
            }
        } else if p.kind is Restore && got != p.first_position {
            Some(ForwardError::OffsetMismatch { expected: p.first_position, got })
        } else if self.lacks_pool(p) {
            Some(ForwardError::NoPagedPool)
        } else if self.caches is None && self.needs_caches() {
            Some(ForwardError::CachesMissing)
        } else {
            None
        }
    }

    fn lacks_caches(&self) -> (r: bool)
        ensures
            r == (self.caches is None && self.needs_caches()),
    {
        if self.caches.is_some() {
            return false;
        }
        let mut i: usize = 0;
        while i < self.layer_kinds.len()
            invariant
                i <= self.layer_kinds@.len(),
                self.caches is None,
                forall|k: int| 0 <= k < i ==> !(#[trigger] self.layer_kinds@[k] is Sliding),
            decreases self.layer_kinds@.len() - i,
        {
            match self.layer_kinds[i] {
                Gemma4LayerKind::Sliding => {
                    assert(self.layer_kinds@[i as int] is Sliding);
                    return true;
                },
                _ => {},
            }
            i += 1;
        }
        false
    }

    /// What every layer of a paged forward pass is given. Restoring no tokens
    /// takes no layer; a decode step has one token.
    pub fn plan_paged_pass(&self, pass: PagedPass) -> (r: Result<Vec<LayerStep>, ForwardError>)
        requires
            self.wf(),
            pass.kind is Decode ==> pass.chunk_len == 1,
            pass.first_position + pass.chunk_len <= i32::MAX,
            pass.cached_prefix_len + pass.chunk_len <= i32::MAX,
        ensures
            match self.pass_error(pass) {
                Some(e) => r == Err::<Vec<LayerStep>, ForwardError>(e),
                None => r matches Ok(steps) && steps@.len() == (if pass.chunk_len == 0 {
                    0
                } else {
                    self.layer_kinds@.len()
                }) && forall|i: int|
                    0 <= i < steps@.len() ==> #[trigger] steps@[i] == self.pass_step(pass, i),
            },
    {
        let restoring: bool = match pass.kind {
            PassKind::Restore => true,
            _ => false,
        };
        if pass.chunk_len == 0 {
            return if restoring {
                Ok(Vec::new())
            } else {
                Err(ForwardError::EmptyChunk)
            };
        }
        let offset: i32 = sliding_cache_offset(&self.config, &self.caches);
        if restoring && offset as i64 != pass.first_position as i64 {
            return Err(
                ForwardError::OffsetMismatch { expected: pass.first_position, got: offset },
            );
        }
        let decoding: bool = match pass.kind {
            PassKind::Decode => true,
            _ => false,
        };
        if self.paged.is_none() && (decoding || self.config.num_hidden_layers > 0) {
            return Err(ForwardError::NoPagedPool);
        }
        if self.lacks_caches() {
            return Err(ForwardError::CachesMissing);
        }
        let window: LayerMask = match sliding_mask_offset_for_chunk(
            pass.chunk_len as i64,
            offset,
            self.config.sliding_window as i64,
        ) {
            Some(offset) => LayerMask::Window { offset },
            None => LayerMask::Causal,
        };
        assert(window == self.pass_window(pass));
        let sharing: bool = self.config.has_kv_sharing();
        let mut steps: Vec<LayerStep> = Vec::new();
        let mut i: usize = 0;
        while i < self.layer_kinds.len()
            invariant
                self.wf(),
                i <= self.layer_kinds@.len(),
                steps@.len() == i,
                window == self.pass_window(pass),
                sharing == self.config.shares_kv(),
                pass.first_position + pass.chunk_len <= i32::MAX,
                pass.cached_prefix_len + pass.chunk_len <= i32::MAX,
                pass.chunk_len > 0,
                forall|k: int| 0 <= k < i ==> #[trigger] steps@[k] == self.pass_step(pass, k),
            decreases self.layer_kinds@.len() - i,
        {
            let own: Gemma4LayerKind = self.layer_kinds[i];
            let sliding: bool = match own {
                Gemma4LayerKind::Sliding => true,
                _ => false,
            };
            let kind: Gemma4LayerKind = match (pass.kind, own) {
                (PassKind::Restore, Gemma4LayerKind::GlobalPaged { paged_idx }) =>
                    Gemma4LayerKind::SharedOnGlobal { anchor_paged_idx: paged_idx },
                (_, k) => k,
            };
            let mask: LayerMask = match pass.kind {
                PassKind::MediaPrefill { images } => if images && pass.cached_prefix_len == 0 {
                    if sliding {
                        LayerMask::WindowWithImages
                    } else {
                        LayerMask::CausalWithImages
                    }
                } else if sliding {
                    window
                } else {
                    LayerMask::Causal
                },
                PassKind::Prefill | PassKind::Restore => if sliding {
                    window
                } else {
                    LayerMask::Causal
                },
                PassKind::Decode => LayerMask::Causal,
            };
            let total_ctx: u32 = match pass.kind {
                PassKind::Prefill | PassKind::MediaPrefill { .. } => pass.cached_prefix_len + pass.chunk_len,
                PassKind::Decode => pass.first_position + 1,
                PassKind::Restore => pass.first_position + pass.chunk_len,
            };
            let shared: Option<SharedKvInputs> = match kind {
                Gemma4LayerKind::SharedOnGlobal { .. } => Some(
                    SharedKvInputs {
                        cache_offset: pass.first_position as i32,
                        total_ctx,
                        stash_of: None,
                    },
                ),
                Gemma4LayerKind::SharedOnSliding { anchor_layer_idx } => Some(
                    SharedKvInputs {
                        cache_offset: pass.first_position as i32,
                        total_ctx: 0,
                        stash_of: Some(anchor_layer_idx),
                    },
                ),
                _ => None,
            };
            let cached_prefix_len: u32 = match pass.kind {
                PassKind::Prefill | PassKind::MediaPrefill { .. } => pass.cached_prefix_len,
                PassKind::Decode => 0,
                PassKind::Restore => pass.first_position,
            };
            let is_prefill: bool = match pass.kind {
                PassKind::Decode => false,
                _ => true,
            };
            let step = LayerStep {
                kind,
                first_position: pass.first_position,
                cached_prefix_len,
                is_prefill,
                mask,
                flat_cache: sliding,
                needs_stash: sharing && sliding && self.config.should_store_shared_kv(i),
                shared,
            };
            assert(step == self.pass_step(pass, i as int));
            steps.push(step);
            i += 1;
        }
        Ok(steps)
    }
}

/// A stash is there when it is read: the layer it is read from comes earlier in
/// the pass, keeps its keys and values, and has a sliding cache.
pub proof fn law_stash_is_kept_before_it_is_read(inner: Gemma4Inner, p: PagedPass, i: int)
    requires
        inner.wf(),
        inner.paged is Some,
        0 <= i < inner.layer_kinds@.len(),
        inner.pass_step(p, i).shared matches Some(s) && s.stash_of is Some,
    ensures
        ({
            let a = inner.pass_step(p, i).shared->0.stash_of->0 as int;
            &&& 0 <= a < i
            &&& inner.pass_step(p, a).needs_stash
            &&& inner.pass_step(p, a).flat_cache
        }),
{
    let c = inner.config;
    let kinds = all_kinds(c, block_size_of(c));
    assert(inner.layer_kinds@[i] == kinds[i]);
    let specs = all_specs(c, block_size_of(c), KVCacheDType::BFloat16);
    assert(kinds[i] is SharedOnSliding);
    assert(kinds[i] == kind_of(specs, i));
    assert(c.shared_at(i)) by {
        assert(specs[i].shared_kv_anchor is Some);
    }
    law_shared_layer_aliases_anchor(c, i);
    law_anchor_owns_and_keeps(c, i);
    let a = c.anchor_of(i)->0;
    assert(inner.layer_kinds@[a] == kinds[a]);
}

/// A restore pass writes nothing to the pool: no layer takes the route that
/// writes a pool slot.
pub proof fn law_restore_writes_no_pool_slot(inner: Gemma4Inner, p: PagedPass, i: int)
    requires
        p.kind is Restore,
    ensures
        !(inner.pass_step(p, i).kind is GlobalPaged),
{
}

/// Whether images are seen as a whole: in the prompt of a unified checkpoint
/// that asks for it, with images and without audio.
pub fn vision_overlay_active(
    is_unified: bool,
    bidirectional_vision: bool,
    has_image: bool,
    has_audio: bool,
    seq_len: usize,
) -> (r: bool)
    ensures
        r == (is_unified && bidirectional_vision && has_image && !has_audio && seq_len > 1),
{
    is_unified && bidirectional_vision && has_image && !has_audio && seq_len > 1
}

/// One layer of a flat forward pass.
#[derive(Debug, Clone, Copy, PartialEq, Eq, Structural)]
pub enum FlatStep {
    /// The layer has keys and values of its own.
    Own { mask: LayerMask, needs_stash: bool },
    /// The layer reads those that `anchor` kept; `cache_offset` is the position
    /// of the first query.
    Shared { mask: LayerMask, anchor: usize, cache_offset: i32 },
}

/// The sliding mask of a flat pass. A model without a sliding layer asks its
/// first layer.
pub open spec fn flat_window(c: Gemma4Config, caches: Seq<Gemma4LayerCache>, seq_len: int) -> LayerMask {
    let first = first_sliding_index(c, 0);
    let offset = if first < caches.len() {
        caches[first].offset_of() as int
    } else {
        0
    };
    match mask_offset(seq_len, offset, c.sliding_window as int) {
        Some(o) => LayerMask::Window { offset: o as i32 },
        None => LayerMask::Causal,
    }
}

/// The first sliding layer at or after `from`; 0 where there is none.
pub open spec fn first_sliding_index(c: Gemma4Config, from: int) -> int
    decreases c.layers() - from,
{
    if from >= c.layers() {
        0
    } else if !c.global_at(from) {
        from
    } else {
        first_sliding_index(c, from + 1)
    }
}

/// What layer `i` of a flat pass is given.
pub open spec fn flat_step(
    c: Gemma4Config,
    caches: Seq<Gemma4LayerCache>,
    seq_len: int,
    i: int,
) -> FlatStep {
    let mask = if c.global_at(i) {
        LayerMask::Causal
    } else {
        flat_window(c, caches, seq_len)
    };
    if c.shared_at(i) {
        FlatStep::Shared {
            mask,
            anchor: c.anchor_of(i)->0 as usize,
            cache_offset: caches[c.anchor_of(i)->0].offset_of(),
        }
    } else {
        FlatStep::Own { mask, needs_stash: c.stores_shared_at(i) }
    }
}

/// The first layer that shares without an anchor, at or after `from`.
pub open spec fn first_unanchored(c: Gemma4Config, from: int) -> Option<int>
    decreases c.layers() - from,
{
    if from >= c.layers() {
        None
    } else if c.shared_at(from) && c.anchor_of(from) is None {
        Some(from)
    } else {
        first_unanchored(c, from + 1)
    }
}

fn first_sliding(config: &Gemma4Config) -> (r: usize)
    requires
        config.wf(),
    ensures
        r == first_sliding_index(*config, 0),
{
    let n: usize = config.num_hidden_layers as usize;
    let mut i: usize = 0;
    while i < n
        invariant
            i <= n,
            n == config.layers(),
            first_sliding_index(*config, i as int) == first_sliding_index(*config, 0),
        decreases n - i,
    {
        if config.is_sliding_layer(i) {
            return i;
        }
        i += 1;
    }
    0
}

/// What every layer of a flat forward pass over `seq_len` tokens is given.
pub fn plan_flat_pass(
    config: &Gemma4Config,
    caches: &Vec<Gemma4LayerCache>,
    seq_len: u32,
) -> (r: Result<Vec<FlatStep>, NoAnchor>)
    requires
        config.wf(),
        caches@.len() == config.layers(),
    ensures
        match first_unanchored(*config, 0) {
            Some(i) => r == Err::<Vec<FlatStep>, NoAnchor>(NoAnchor { layer: i as usize }),
            None => r matches Ok(steps) && steps@.len() == config.layers() && forall|i: int|
                0 <= i < steps@.len() ==> #[trigger] steps@[i] == flat_step(
                    *config,
                    caches@,
                    seq_len as int,
                    i,
                ),
        },
{
    let n: usize = config.num_hidden_layers as usize;
    let first: usize = first_sliding(config);
    let offset: i32 = if first < caches.len() {
        caches[first].get_offset()
    } else {
        0
    };
    let window: LayerMask = match sliding_mask_offset_for_chunk(
        seq_len as i64,
        offset,
        config.sliding_window as i64,
    ) {
        Some(offset) => LayerMask::Window { offset },
        None => LayerMask::Causal,
    };
    assert(window == flat_window(*config, caches@, seq_len as int));
    let mut steps: Vec<FlatStep> = Vec::new();
    let mut i: usize = 0;
    while i < n
        invariant
            config.wf(),
            caches@.len() == config.layers(),
            n == config.layers(),
            i <= n,
            window == flat_window(*config, caches@, seq_len as int),
            first_unanchored(*config, i as int) == first_unanchored(*config, 0),
            steps@.len() == i,
            forall|k: int|
                0 <= k < i ==> #[trigger] steps@[k] == flat_step(
                    *config,
                    caches@,
                    seq_len as int,
                    k,
                ),
        decreases n - i,
    {
        let mask: LayerMask = if config.is_global_layer(i) {
            LayerMask::Causal
        } else {
            window
        };
        let step: FlatStep = if config.is_kv_shared_layer(i) {
            match config.kv_shared_anchor(i) {
                None => {
                    return Err(NoAnchor { layer: i });
                },
                Some(anchor) => {
                    proof {
                        law_anchor_owns_and_keeps(*config, i as int);
                    }
                    FlatStep::Shared { mask, anchor, cache_offset: caches[anchor].get_offset() }
                },
            }
        } else {
            FlatStep::Own { mask, needs_stash: config.should_store_shared_kv(i) }
        };
        assert(step == flat_step(*config, caches@, seq_len as int, i as int));
        steps.push(step);
        i += 1;
    }
    Ok(steps)
}

/// A layer that shares reads what an earlier layer of the pass keeps.
pub proof fn law_flat_anchor_keeps(
    c: Gemma4Config,
    caches: Seq<Gemma4LayerCache>,
    seq_len: int,
    i: int,
)
    requires
        c.wf(),
        0 <= i < c.layers(),
        c.shared_at(i),
        c.anchor_of(i) is Some,
    ensures
        ({
            let a = c.anchor_of(i)->0;
            &&& 0 <= a < i
            &&& flat_step(c, caches, seq_len, a) matches FlatStep::Own { needs_stash, .. }
                && needs_stash
        }),
{
    law_anchor_owns_and_keeps(c, i);
}

/// The tapped layers are in order and there.
pub open spec fn tap_ok(layer_ids: Seq<usize>, num_layers: int) -> bool {
    &&& forall|i: int| 0 <= i < layer_ids.len() ==> #[trigger] layer_ids[i] < num_layers
    &&& forall|i: int, j: int| 0 <= i < j < layer_ids.len() ==> layer_ids[i] < layer_ids[j]
}

/// What layers that cannot be tapped are answered.
pub open spec fn tap_refusal(layer_ids: Seq<usize>, num_layers: int) -> Seq<char> {
    "forward_body: tap layer_ids "@ + bracketed(unsigned_values(layer_ids))
        + " must be strictly ascending decoder indices below "@ + decimal(num_layers)
}

fn tap_message(layer_ids: &Vec<usize>, num_layers: usize) -> (r: String)
    ensures
        r@ == tap_refusal(layer_ids@, num_layers as int),
{
    let mut out = cat3(
        "forward_body: tap layer_ids ",
        unsigned_list_text(layer_ids).as_str(),
        " must be strictly ascending decoder indices below ",
    );
    out.append(unsigned_text(num_layers as u64).as_str());
    out
}

/// Accepts the layers whose hidden states are captured: strictly ascending
/// layer indices.
pub fn check_tap_layers(layer_ids: &Vec<usize>, num_layers: usize) -> (r: Result<(), String>)
    ensures
        match r {
            Ok(_) => tap_ok(layer_ids@, num_layers as int),
            Err(m) => !tap_ok(layer_ids@, num_layers as int) && m@ == tap_refusal(
                layer_ids@,
                num_layers as int,
            ),
        },
{
    let mut i: usize = 0;
    while i < layer_ids.len()
        invariant
            i <= layer_ids@.len(),
            tap_ok(layer_ids@.take(i as int), num_layers as int),
        decreases layer_ids@.len() - i,
    {
        let id: usize = layer_ids[i];
        if id >= num_layers {
            assert(layer_ids@[i as int] >= num_layers);
            return Err(tap_message(layer_ids, num_layers));
        }
        if i > 0 && id <= layer_ids[i - 1] {
            assert(!(layer_ids@[i - 1] < layer_ids@[i as int]));
            return Err(tap_message(layer_ids, num_layers));
        }
        proof {
            let before = layer_ids@.take(i as int);
            let upto = layer_ids@.take(i + 1);
            assert forall|a: int, b: int| 0 <= a < b < upto.len() implies upto[a] < upto[b] by {
                if b < i {
                    assert(before[a] == upto[a] && before[b] == upto[b]);
                } else if a < i - 1 {
                    assert(before[a] < before[i - 1]);
                }
            }
            assert forall|a: int| 0 <= a < upto.len() implies #[trigger] upto[a] < num_layers by {
                if a < i {
                    assert(before[a] == upto[a]);
                }
            }
        }
        i += 1;
    }
    assert(layer_ids@.take(layer_ids@.len() as int) =~= layer_ids@);
    Ok(())
}

/// A verify block: one row of at least one token.
pub open spec fn verify_shape_ok(shape: Seq<i64>) -> bool {
    shape.len() == 2 && shape[0] == 1 && shape[1] >= 1
}

/// Accepts the shape of a verify block.
pub fn check_verify_shape(shape: &Vec<i64>) -> (r: Result<(), String>)
    ensures
        match r {
            Ok(_) => verify_shape_ok(shape@),
            Err(m) => !verify_shape_ok(shape@) && m@
                == "dspark_verify_forward expects block_ids shaped [1, T] with T >= 1, got "@
                + bracketed(signed_values(shape@)),
        },
{
    if shape.len() == 2 && shape[0] == 1 && shape[1] >= 1 {
        Ok(())
    } else {
        Err(
            cat(
                "dspark_verify_forward expects block_ids shaped [1, T] with T >= 1, got ",
                signed_list_text(shape).as_str(),
            ),
        )
    }
}

/// Which layers share keys and values; a forward pass never writes their own
/// cache.
pub fn dspark_shared_slot_mask(config: &Gemma4Config) -> (r: Vec<bool>)
    requires
        config.wf(),
    ensures
        r@.len() == config.layers(),
        forall|i: int| 0 <= i < r@.len() ==> #[trigger] r@[i] == config.shared_at(i),
{
    let n: usize = config.num_hidden_layers as usize;
    let mut out: Vec<bool> = Vec::new();
    let mut i: usize = 0;
    while i < n
        invariant
            n == config.layers(),
            i <= n,
            out@.len() == i,
            forall|k: int| 0 <= k < i ==> #[trigger] out@[k] == config.shared_at(k),
        decreases n - i,
    {
        out.push(config.is_kv_shared_layer(i));
        i += 1;
    }
    out
}

/// The id under which a token is looked up in the per-layer tables: its own
/// within their vocabulary, else 0.
pub open spec fn ple_id(token: u32, vocab: i32) -> u32 {
    if token < vocab {
        token
    } else {
        0
    }
}

/// The ids under which tokens are looked up in the per-layer tables.
pub fn ple_token_ids(tokens: &[u32], vocab_size: i32) -> (r: Vec<u32>)
    ensures
        r@.len() == tokens@.len(),
        forall|i: int| 0 <= i < tokens@.len() ==> #[trigger] r@[i] == ple_id(tokens@[i], vocab_size),
{
    let mut out: Vec<u32> = Vec::new();
    let mut i: usize = 0;
    while i < tokens.len()
        invariant
            i <= tokens@.len(),
            out@.len() == i,
            forall|k: int| 0 <= k < i ==> #[trigger] out@[k] == ple_id(tokens@[k], vocab_size),
        decreases tokens@.len() - i,
    {
        let token: u32 = tokens[i];
        out.push(
            if vocab_size > 0 && token < vocab_size as u32 {
                token
            } else {
                0
            },
        );
        i += 1;
    }
    out
}

/// A position holds a media feature, not a token.
pub open spec fn is_media(c: Gemma4Config, token: u32) -> bool {
    ||| token == image_token(c)
    ||| c.audio_token_id matches Some(id) && token == as_token(id)
}

/// Tokens with media placeholders set to 0: their embedding is the feature, so
/// they have no place in the per-layer tables.
pub fn ple_masked_media_ids(config: &Gemma4Config, tokens: &[u32]) -> (r: Vec<u32>)
    ensures
        r@.len() == tokens@.len(),
        forall|i: int|
            0 <= i < tokens@.len() ==> #[trigger] r@[i] == if is_media(*config, tokens@[i]) {
                0u32
            } else {
                tokens@[i]
            },
{
    let image: u32 = image_token_of(config);
    let audio: Option<u32> = match config.audio_token_id {
        Some(id) => Some(token_of_id(id)),
        None => None,
    };
    let mut out: Vec<u32> = Vec::new();
    let mut i: usize = 0;
    while i < tokens.len()
        invariant
            i <= tokens@.len(),
            out@.len() == i,
            image == image_token(*config),
            audio == (match config.audio_token_id {
                Some(id) => Some(as_token(id)),
                None => None,
            }),
            forall|k: int|
                0 <= k < i ==> #[trigger] out@[k] == if is_media(*config, tokens@[k]) {
                    0u32
                } else {
                    tokens@[k]
                },
        decreases tokens@.len() - i,
    {
        let token: u32 = tokens[i];
        let media: bool = token == image || match audio {
            Some(a) => token == a,
            None => false,
        };
        out.push(
            if media {
                0
            } else {
                token
            },
        );
        i += 1;
    }
    out
}

/// The first positive offset of the caches, at or after `from`; 0 where there
/// is none.
pub open spec fn first_positive_offset(caches: Seq<Gemma4LayerCache>, from: int) -> int
    decreases caches.len() - from,
{
    if from >= caches.len() {
        0
    } else if caches[from].offset_of() > 0 {
        caches[from].offset_of() as int
    } else {
        first_positive_offset(caches, from + 1)
    }
}

/// Where the per-layer inputs of a chunk start among those of a prompt: at the
/// tokens that the caches have seen, as far as the chunk fits.
pub fn ple_chunk_start(caches: &Vec<Gemma4LayerCache>, total_len: i64, seq_len: i64) -> (r: i64)
    requires
        0 <= seq_len <= total_len,
    ensures
        r == {
            let offset = first_positive_offset(caches@, 0);
            if offset < total_len - seq_len {
                offset
            } else {
                total_len - seq_len
            }
        },
{
    let mut offset: i64 = 0;
    let mut i: usize = 0;
    let mut found: bool = false;
    while i < caches.len() && !found
        invariant
            i <= caches@.len(),
            !found ==> offset == 0 && first_positive_offset(caches@, i as int)
                == first_positive_offset(caches@, 0),
            found ==> offset == first_positive_offset(caches@, 0),
        decreases caches@.len() - i,
    {
        let at: i32 = caches[i].get_offset();
        if at > 0 {
            offset = at as i64;
            found = true;
        }
        i += 1;
    }
    let max_start: i64 = total_len - seq_len;
    if offset < max_start {
        offset
    } else {
        max_start
    }
}

/// A pass goes on from where it begins: positions are those of the pass, keys and
/// values that are already cached are counted, and only a decode step is none of the
/// prompt.
pub proof fn law_positions_of_a_pass(inner: Gemma4Inner, p: PagedPass, i: int)
    ensures
        inner.pass_step(p, i).first_position == p.first_position,
        inner.pass_step(p, i).is_prefill <==> p.kind is Prefill || p.kind is MediaPrefill
            || p.kind is Restore,
        p.kind is Prefill || p.kind is MediaPrefill ==> inner.pass_step(p, i).cached_prefix_len
            == p.cached_prefix_len,
        p.kind is Restore ==> inner.pass_step(p, i).cached_prefix_len == p.first_position,
        p.kind is Decode ==> inner.pass_step(p, i).cached_prefix_len == 0,
{
}

/// A layer that reads a pool slot of another layer, or in a restore its own, reads
/// all tokens up to the end of the chunk, from the position at which the pass begins;
/// a layer that reads a stash reads that of its anchor. This holds of every pass that
/// goes on from what the pool holds.
pub proof fn law_shared_layers_read_the_whole_context(inner: Gemma4Inner, p: PagedPass, i: int)
    requires
        inner.wf(),
        inner.paged is Some,
        0 <= i < inner.config.num_hidden_layers,
        p.first_position + p.chunk_len <= i32::MAX,
        p.kind is Prefill || p.kind is MediaPrefill ==> p.cached_prefix_len == p.first_position,
        p.kind is Decode ==> p.chunk_len == 1,
    ensures
        inner.layer_kinds@.len() == inner.config.num_hidden_layers,
        ({
            let c = inner.config;
            let shared = inner.pass_step(p, i).shared;
            &&& c.global_at(i) && (c.shared_at(i) || p.kind is Restore) ==> {
                &&& shared is Some
                &&& shared->0.total_ctx == p.first_position + p.chunk_len
                &&& shared->0.cache_offset == p.first_position
                &&& shared->0.stash_of is None
            }
            &&& !c.global_at(i) && c.shared_at(i) ==> {
                &&& shared is Some
                &&& shared->0.cache_offset == p.first_position
                &&& c.anchor_of(i) is Some
                &&& shared->0.stash_of == Some(c.anchor_of(i)->0 as u32)
            }
            &&& !c.shared_at(i) && !(c.global_at(i) && p.kind is Restore) ==> shared is None
        }),
{
    law_route_of_layer(inner.config, i);
}

/// The route of every layer in a pass: a layer that shares reads the slot, or the
/// stash, of its anchor; a sliding layer with a cache of its own uses it; a global one
/// writes its slot, but in a restore only reads it.
pub proof fn law_routes_of_a_pass(inner: Gemma4Inner, p: PagedPass, i: int)
    requires
        inner.wf(),
        inner.paged is Some,
        0 <= i < inner.config.num_hidden_layers,
    ensures
        ({
            let c = inner.config;
            let step = inner.pass_step(p, i);
            let own = step.kind;
            &&& step.flat_cache <==> !c.global_at(i) && !c.shared_at(i)
            &&& !c.global_at(i) && !c.shared_at(i) ==> own is Sliding
            &&& !c.global_at(i) && c.shared_at(i) ==> own == (Gemma4LayerKind::SharedOnSliding {
                anchor_layer_idx: c.anchor_of(i)->0 as u32,
            })
            &&& c.global_at(i) && !c.shared_at(i) && !(p.kind is Restore) ==> own == (
            Gemma4LayerKind::GlobalPaged { paged_idx: owning_globals_before(c, i) as u32 })
            &&& c.global_at(i) && !c.shared_at(i) && p.kind is Restore ==> own == (
            Gemma4LayerKind::SharedOnGlobal {
                anchor_paged_idx: owning_globals_before(c, i) as u32,
            })
            &&& c.global_at(i) && c.shared_at(i) ==> own == (Gemma4LayerKind::SharedOnGlobal {
                anchor_paged_idx: owning_globals_before(c, c.anchor_of(i)->0) as u32,
            })
            &&& step.needs_stash <==> !c.global_at(i) && !c.shared_at(i) && c.stores_shared_at(i)
        }),
{
    law_route_of_layer(inner.config, i);
}

/// A window is laid over a chunk exactly where the chunk and what the layer still
/// holds of before are longer than it. Then what is held of before is all there is,
/// or as much as the window, and some token does not see the first one.
pub proof fn law_window_over_a_chunk(seq_len: int, seen: int, window: int)
    requires
        0 <= seen,
        0 < window,
        1 < seq_len,
    ensures
        mask_offset(seq_len, seen, window) is None <==> seen + seq_len <= window,
        mask_offset(seq_len, seen, window) matches Some(held) ==> {
            &&& held <= seen
            &&& held <= window
            &&& held == seen || held == window
            &&& !sees(seq_len - 1, 0, held, window)
        },
        mask_offset(1, seen, window) is None,
        mask_offset(seq_len, seen, 0) is None,
{
}

/// A token sees itself and the tokens before it within the window, and no other.
pub proof fn law_what_a_token_sees(row: int, col: int, held: int, window: int)
    requires
        0 < window,
    ensures
        sees(row, held + row, held, window),
        sees(row, col, held, window) ==> col <= held + row,
        col <= held + row ==> (sees(row, col, held, window) <==> held + row - col <= window - 1),
        sees(row, col, held, window) ==> sees(row + 1, col + 1, held, window),
{
}

/// The position of the sliding layers: where all of them are, and the start without
/// caches.
pub proof fn law_position_of_sliding_layers(
    c: Gemma4Config,
    caches: Option<Vec<Gemma4LayerCache>>,
    position: u32,
    i: int,
)
    ensures
        caches is None ==> sliding_offset_of(c, caches) == 0,
        caches is Some && ready_at(c, caches->0@, position) && position <= i32::MAX && 0 <= i
            < c.num_hidden_layers && !c.global_at(i) ==> sliding_offset_of(c, caches) == position,
{
    if caches is Some && ready_at(c, caches->0@, position) && position <= i32::MAX && 0 <= i
        < c.num_hidden_layers && !c.global_at(i) {
        lemma_first_sliding_is_there(c, caches->0@, position, 0, i);
    }
}

proof fn lemma_first_sliding_is_there(
    c: Gemma4Config,
    caches: Seq<Gemma4LayerCache>,
    position: u32,
    from: int,
    i: int,
)
    requires
        ready_at(c, caches, position),
        position <= i32::MAX,
        0 <= from <= i < caches.len(),
        !c.global_at(i),
    ensures
        first_sliding_offset(c, caches, from) == position,
    decreases i - from,
{
    if c.global_at(from) {
        lemma_first_sliding_is_there(c, caches, position, from + 1, i);
    } else {
        assert(caches[from].slid_to(crate::config::wrap_i32(position as int)));
    }
}

/// What hides tokens in a pass. A decode step hides nothing. Else a layer without a
/// sliding cache of its own is causal, and one with it has a window where the chunk
/// and what it holds of before do not fit. Only the first chunk of a prompt with
/// images shows images as a whole, in both kinds of layers.
pub proof fn law_masks_of_a_pass(inner: Gemma4Inner, p: PagedPass, i: int)
    requires
        inner.config.sliding_window > 0,
        p.chunk_len > 0,
    ensures
        ({
            let mask = inner.pass_step(p, i).mask;
            let flat = inner.pass_step(p, i).flat_cache;
            let whole_images = match p.kind {
                PassKind::MediaPrefill { images } => images && p.cached_prefix_len == 0,
                _ => false,
            };
            let offset = sliding_offset_of(inner.config, inner.caches) as int;
            let window = inner.config.sliding_window as int;
            &&& p.kind is Decode ==> mask == LayerMask::Causal
            &&& whole_images && flat ==> mask == LayerMask::WindowWithImages
            &&& whole_images && !flat ==> mask == LayerMask::CausalWithImages
            &&& !whole_images && !flat ==> mask == LayerMask::Causal
            &&& !(p.kind is Decode) && !whole_images && flat && offset >= 0 ==> mask == if p.chunk_len
                == 1 || offset + p.chunk_len <= window {
                LayerMask::Causal
            } else if offset < window {
                LayerMask::Window { offset: offset as i32 }
            } else {
                LayerMask::Window { offset: window as i32 }
            }
        }),
{
}

/// A pass of prompt tokens or media runs exactly where it has tokens, the pool and
/// the caches that its layers need; a restore of nothing always runs, and another one
/// only from the position at which the sliding layers are.
pub proof fn law_passes_that_run(inner: Gemma4Inner, p: PagedPass)
    requires
        inner.wf(),
        inner.paged is Some,
    ensures
        p.chunk_len == 0 && !(p.kind is Restore) ==> inner.pass_error(p) == Some(
            ForwardError::EmptyChunk,
        ),
        p.chunk_len == 0 && p.kind is Restore ==> inner.pass_error(p) is None,
        p.chunk_len > 0 && p.kind is Restore && sliding_offset_of(inner.config, inner.caches)
            != p.first_position ==> inner.pass_error(p) == Some(
            ForwardError::OffsetMismatch {
                expected: p.first_position,
                got: sliding_offset_of(inner.config, inner.caches),
            },
        ),
        p.chunk_len > 0 && inner.caches is Some && (p.kind is Restore ==> sliding_offset_of(
            inner.config,
            inner.caches,
        ) == p.first_position) ==> inner.pass_error(p) is None,
        p.chunk_len > 0 && inner.caches is None && !(p.kind is Restore) && (exists|i: int|
            0 <= i < inner.config.num_hidden_layers && !(#[trigger] inner.config.global_at(i))
                && !inner.config.shared_at(i)) ==> inner.pass_error(p) == Some(
            ForwardError::CachesMissing,
        ),
{
    if exists|i: int|
        0 <= i < inner.config.num_hidden_layers && !(#[trigger] inner.config.global_at(i))
            && !inner.config.shared_at(i) {
        let i = choose|i: int|
            0 <= i < inner.config.num_hidden_layers && !(#[trigger] inner.config.global_at(i))
                && !inner.config.shared_at(i);
        law_route_of_layer(inner.config, i);
        assert(inner.layer_kinds@[i] is Sliding);
    }
}

/// Without a pool no pass of a model with layers runs, whatever else is there.
pub proof fn law_no_pass_without_a_pool(inner: Gemma4Inner, p: PagedPass)
    requires
        inner.paged is None,
        inner.config.num_hidden_layers > 0,
        p.chunk_len > 0,
    ensures
        inner.pass_error(p) is Some,
        !(p.kind is Restore) ==> inner.pass_error(p) == Some(ForwardError::NoPagedPool),
{
}

/// Layers on the flat cache: one that shares reads its anchor, at the position where
/// the anchor is; every other one has its own cache, and keeps for others where it is
/// an anchor. Global layers are causal; sliding ones have a window where the tokens
/// and what is held of before do not fit.
pub proof fn law_layers_on_the_flat_cache(
    c: Gemma4Config,
    caches: Seq<Gemma4LayerCache>,
    seq_len: int,
    position: u32,
    i: int,
)
    requires
        c.wf(),
        0 <= i < c.num_hidden_layers,
        caches.len() == c.num_hidden_layers,
        first_unanchored(c, 0) is None,
        c.sliding_window > 0,
        ready_at(c, caches, position),
        position <= i32::MAX,
        1 < seq_len,
    ensures
        ({
            let step = flat_step(c, caches, seq_len, i);
            let window = c.sliding_window as int;
            &&& c.shared_at(i) <==> step is Shared
            &&& c.shared_at(i) ==> {
                &&& c.anchor_of(i) is Some
                &&& step->anchor == c.anchor_of(i)->0
                &&& step->cache_offset == caches[c.anchor_of(i)->0].offset_of()
                &&& !c.global_at(i) ==> step->cache_offset == position
            }
            &&& !c.shared_at(i) ==> step->needs_stash == c.stores_shared_at(i)
            &&& c.global_at(i) ==> mask_of(step) == LayerMask::Causal
            &&& !c.global_at(i) && position + seq_len <= window ==> mask_of(step)
                == LayerMask::Causal
            &&& !c.global_at(i) && position + seq_len > window ==> mask_of(step) == (
            LayerMask::Window {
                offset: if position < window {
                    position as i32
                } else {
                    c.sliding_window
                },
            })
        }),
{
    if c.shared_at(i) {
        lemma_anchored(c, 0, i);
        crate::config::law_anchor_owns_and_keeps(c, i);
        let a = c.anchor_of(i)->0;
        if !c.global_at(i) {
            assert(caches[a].slid_to(crate::config::wrap_i32(position as int)));
        }
    }
    if !c.global_at(i) {
        lemma_first_sliding_index(c, 0, i);
        let first = first_sliding_index(c, 0);
        assert(caches[first].slid_to(crate::config::wrap_i32(position as int)));
    }
}

/// The mask of a layer on the flat cache.
pub open spec fn mask_of(step: FlatStep) -> LayerMask {
    match step {
        FlatStep::Shared { mask, .. } => mask,
        FlatStep::Own { mask, .. } => mask,
    }
}

proof fn lemma_anchored(c: Gemma4Config, from: int, i: int)
    requires
        first_unanchored(c, from) is None,
        from <= i < c.layers(),
        c.shared_at(i),
    ensures
        c.anchor_of(i) is Some,
    decreases i - from,
{
    if from < i {
        lemma_anchored(c, from + 1, i);
    }
}

proof fn lemma_first_sliding_index(c: Gemma4Config, from: int, i: int)
    requires
        0 <= from <= i < c.layers(),
        !c.global_at(i),
    ensures
        from <= first_sliding_index(c, from) <= i,
        !c.global_at(first_sliding_index(c, from)),
    decreases i - from,
{
    if c.global_at(from) {
        lemma_first_sliding_index(c, from + 1, i);
    }
}

/// The flat pass is refused exactly where some layer that shares has no anchor, and
/// names the first such layer.
pub proof fn law_flat_pass_is_refused(c: Gemma4Config, i: int)
    requires
        c.wf(),
    ensures
        first_unanchored(c, 0) is None <==> (forall|k: int|
            0 <= k < c.num_hidden_layers && #[trigger] c.shared_at(k) ==> c.anchor_of(k) is Some),
        0 <= i < c.num_hidden_layers && c.shared_at(i) && c.anchor_of(i) is None && (forall|k: int|
            0 <= k < i && #[trigger] c.shared_at(k) ==> c.anchor_of(k) is Some)
            ==> first_unanchored(c, 0) == Some(i),
{
    lemma_unanchored(c, 0);
    if first_unanchored(c, 0) is None {
        assert forall|k: int|
            0 <= k < c.num_hidden_layers && #[trigger] c.shared_at(k) implies c.anchor_of(
            k,
        ) is Some by {
            lemma_anchored(c, 0, k);
        }
    }
}

proof fn lemma_unanchored(c: Gemma4Config, from: int)
    requires
        0 <= from,
    ensures
        first_unanchored(c, from) matches Some(j) ==> from <= j < c.layers() && c.shared_at(j)
            && c.anchor_of(j) is None && forall|k: int|
            from <= k < j && #[trigger] c.shared_at(k) ==> c.anchor_of(k) is Some,
        first_unanchored(c, from) is None ==> forall|k: int|
            from <= k < c.layers() && #[trigger] c.shared_at(k) ==> c.anchor_of(k) is Some,
    decreases c.layers() - from,
{
    if from < c.layers() {
        lemma_unanchored(c, from + 1);
    }
}

/// Tokens of the per-layer vocabulary keep their id, all others have id 0.
pub proof fn law_per_layer_ids(token: u32, vocab: i32)
    ensures
        token < vocab ==> ple_id(token, vocab) == token,
        token >= vocab ==> ple_id(token, vocab) == 0,
        vocab <= 0 ==> ple_id(token, vocab) == 0,
{
}

/// Placeholders of images and audio are media, and no other token is: 258880 stands
/// for an image where the model names no other, and only a model that names one has a
/// token for audio.
pub proof fn law_media_tokens(c: Gemma4Config, token: u32)
    ensures
        c.image_token_id is Some && c.image_token_id->0 >= 0 && token == c.image_token_id->0
            ==> is_media(c, token),
        c.image_token_id is None ==> is_media(c, 258880),
        c.audio_token_id is Some && c.audio_token_id->0 >= 0 && token == c.audio_token_id->0
            ==> is_media(c, token),
        c.image_token_id is Some && c.image_token_id->0 >= 0 && token != c.image_token_id->0
            && c.audio_token_id is None ==> !is_media(c, token),
        c.image_token_id is Some && c.image_token_id->0 >= 0 && token != c.image_token_id->0
            && c.audio_token_id is Some && c.audio_token_id->0 >= 0 && token != c.audio_token_id->0
            ==> !is_media(c, token),
{
}

/// The offset that per-layer inputs go on from is that of the first cache that holds
/// something.
pub proof fn law_first_cache_that_holds(caches: Seq<Gemma4LayerCache>, i: int)
    ensures
        0 <= i < caches.len() && caches[i].offset_of() > 0 && (forall|k: int|
            0 <= k < i ==> (#[trigger] caches[k]).offset_of() <= 0) ==> first_positive_offset(
            caches,
            0,
        ) == caches[i].offset_of(),
        (forall|k: int| 0 <= k < caches.len() ==> (#[trigger] caches[k]).offset_of() <= 0)
            ==> first_positive_offset(caches, 0) == 0,
{
    lemma_first_positive(caches, 0, i);
}

proof fn lemma_first_positive(caches: Seq<Gemma4LayerCache>, from: int, i: int)
    requires
        0 <= from,
    ensures
        from <= i < caches.len() && caches[i].offset_of() > 0 && (forall|k: int|
            from <= k < i ==> (#[trigger] caches[k]).offset_of() <= 0) ==> first_positive_offset(
            caches,
            from,
        ) == caches[i].offset_of(),
        (forall|k: int| from <= k < caches.len() ==> (#[trigger] caches[k]).offset_of() <= 0)
            ==> first_positive_offset(caches, from) == 0,
    decreases caches.len() - from,
{
    if from < caches.len() {
        lemma_first_positive(caches, from + 1, i);
    }
}

/// Layers to capture are accepted one behind the other: a further one has to be a layer of
/// the model and come after the last.
pub proof fn law_layers_that_are_captured(ids: Seq<usize>, next: usize, num_layers: int)
    ensures
        tap_ok(Seq::empty(), num_layers),
        tap_ok(ids.push(next), num_layers) ==> tap_ok(ids, num_layers) && next < num_layers,
        tap_ok(ids.push(next), num_layers) && ids.len() > 0 ==> ids.last() < next,
        tap_ok(ids, num_layers) && next < num_layers && (ids.len() == 0 || ids.last() < next)
            ==> tap_ok(ids.push(next), num_layers),
{
    let more = ids.push(next);
    let n = ids.len() as int;
    assert(more[n] == next);
    assert forall|i: int| 0 <= i < n implies more[i] == ids[i] by {}
    if tap_ok(more, num_layers) {
        assert forall|i: int| 0 <= i < n implies #[trigger] ids[i] < num_layers by {
            assert(more[i] < num_layers);
        }
        assert forall|i: int, j: int| 0 <= i < j < n implies ids[i] < ids[j] by {
            assert(more[i] < more[j]);
        }
        if n > 0 {
            assert(more[n - 1] < more[n]);
        }
    }
    if tap_ok(ids, num_layers) && next < num_layers && (n == 0 || ids.last() < next) {
        assert forall|i: int, j: int| 0 <= i < j < more.len() implies more[i] < more[j] by {
            if j == n && i < n - 1 {
                assert(ids[i] < ids[n - 1]);
            }
        }
    }
}

/// A block to verify is a single row: its length may be any that is not zero.
pub proof fn law_block_to_verify_is_a_row(rows: i64, tokens: i64, shape: Seq<i64>)
    ensures
        verify_shape_ok(seq![rows, tokens]) <==> rows == 1 && tokens >= 1,
        shape.len() != 2 ==> !verify_shape_ok(shape),
{
}

/// A message of a pass begins with the name of its kind; one about a position names the
/// expected position first.
pub proof fn law_messages_name_their_pass(p: PassKind, expected: u32, got: i32)
    ensures
        p.label().is_prefix_of(ForwardError::EmptyChunk.text(p)),
        p.label().is_prefix_of(ForwardError::NoPagedPool.text(p)),
        p.label().is_prefix_of(ForwardError::CachesMissing.text(p)),
        p is Prefill ==> p.label() == "run_paged_prefill_layer_loop"@,
        p is MediaPrefill ==> p.label() == "run_paged_vlm_prefill_layer_loop"@,
        p is Decode ==> p.label() == "run_paged_decode_step"@,
        p is Restore ==> p.label() == "run_sliding_prefix_restore_layer_loop"@,
        ": chunk_tokens must be non-empty"@.is_suffix_of(
            ForwardError::EmptyChunk.text(PassKind::Decode),
        ),
        ": paged_adapter is None"@.is_suffix_of(ForwardError::NoPagedPool.text(PassKind::Decode)),
        ": sliding cache missing"@.is_suffix_of(ForwardError::CachesMissing.text(PassKind::Restore)),
        ("Gemma4 sliding restore cache offset mismatch: expected "@ + decimal(
            expected as int,
        )).is_prefix_of(ForwardError::OffsetMismatch { expected, got }.text(p)),
        (" got "@ + decimal(got as int)).is_suffix_of(
            (ForwardError::OffsetMismatch { expected, got }).text(p),
        ),
{
    let none = Seq::<char>::empty();
    let chunk = match p {
        PassKind::MediaPrefill { .. } => ": chunk_token_ids must be non-empty"@,
        _ => ": chunk_tokens must be non-empty"@,
    };
    let pool = match p {
        PassKind::Decode => ": paged_adapter is None"@,
        PassKind::Restore => ": paged_adapter missing"@,
        _ => ": paged_adapter dropped mid-forward"@,
    };
    let cache = match p {
        PassKind::Restore => ": sliding cache missing"@,
        _ => ": sliding cache slot missing"@,
    };
    assert(p.label() + none =~= p.label());
    assert(PassKind::Decode.label() + none =~= PassKind::Decode.label());
    assert(PassKind::Restore.label() + none =~= PassKind::Restore.label());
    law_ends_of_a_text(p.label(), none, chunk);
    law_ends_of_a_text(p.label(), none, pool);
    law_ends_of_a_text(p.label(), none, cache);
    law_ends_of_a_text(PassKind::Decode.label(), none, ": chunk_tokens must be non-empty"@);
    law_ends_of_a_text(PassKind::Decode.label(), none, ": paged_adapter is None"@);
    law_ends_of_a_text(PassKind::Restore.label(), none, ": sliding cache missing"@);
    let a = "Gemma4 sliding restore cache offset mismatch: expected "@ + decimal(expected as int);
    law_ends_of_a_text(a, " got "@, decimal(got as int));
}

/// A pass on a model that has no caches yet starts at the first position: its window is one
/// over the tokens alone.
pub proof fn law_first_flat_pass(c: Gemma4Config, seq_len: int)
    requires
        c.sliding_window > 0,
        1 < seq_len,
    ensures
        flat_window(c, Seq::empty(), seq_len) == if seq_len <= c.sliding_window {
            LayerMask::Causal
        } else {
            LayerMask::Window { offset: 0 }
        },
{
    lemma_first_sliding_is_a_layer(c, 0);
}

proof fn lemma_first_sliding_is_a_layer(c: Gemma4Config, from: int)
    requires
        0 <= from,
    ensures
        0 <= first_sliding_index(c, from),
    decreases c.layers() - from,
{
    if from < c.layers() && c.global_at(from) {
        lemma_first_sliding_is_a_layer(c, from + 1);
    }
}

/// A prompt runs through a model without layers where there is no pool either; a decoding
/// step always needs one.
pub proof fn law_model_without_layers(inner: Gemma4Inner, p: PagedPass)
    requires
        inner.paged is None,
        inner.config.num_hidden_layers == 0,
        p.chunk_len > 0,
    ensures
        p.kind is Prefill || p.kind is MediaPrefill ==> inner.pass_error(p) != Some(
            ForwardError::NoPagedPool,
        ),
        p.kind is Decode ==> inner.pass_error(p) == Some(ForwardError::NoPagedPool),
{
}

} // verus!
