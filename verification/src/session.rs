//! The state of one model: its live caches, what they hold, and what is
//! remembered for the next turn.

use std::collections::VecDeque;

use vstd::prelude::*;

use crate::checkpoint_store::file_checkpoint;
use crate::checkpoint_store::filed;
use crate::checkpoint_store::find_prefix_checkpoint;
use crate::checkpoint_store::found;
use crate::checkpoint_store::hit_is;
use crate::checkpoint_store::opt_view;
use crate::checkpoint_store::tokens_start_with;
use crate::checkpoint_store::views;
use crate::checkpoint_store::CheckpointView;
use crate::checkpoint_store::Gemma4SlidingHistoryCheckpoint;
use crate::checkpoint_store::Gemma4SlidingPrefixCheckpoint;
use crate::checkpoint_store::Gemma4SlidingPrefixCheckpointHit;
use crate::checkpoints::compute_gemma4_paged_prefix_block_hash;
use crate::checkpoints::fresh_caches;
use crate::checkpoints::init_caches_for_config;
use crate::checkpoints::law_snapshot_restores;
use crate::checkpoints::layer_snapshots;
use crate::checkpoints::prefix_hash;
use crate::checkpoints::pure_hash;
use crate::checkpoints::ready_at;
use crate::checkpoints::restorable;
use crate::checkpoints::restore_gemma4_sliding_caches;
use crate::checkpoints::restored;
use crate::checkpoints::snapshot_gemma4_sliding_caches;
use crate::checkpoints::snapshot_possible;
use crate::checkpoints::total_hash;
use crate::checkpoints::wrap_u32;
use crate::checkpoints::wrapping_u32;
use crate::checkpoints::Gemma4LayerCache;
use crate::checkpoints::RotatingKVCacheSnapshot;
use crate::config::Gemma4Config;
use crate::kv::all_kinds;
use crate::kv::block_size_of;
use crate::kv::kinds_error;
use crate::kv::Gemma4LayerKind;
use crate::limits::checkpoint_interval;
use crate::limits::checkpoint_limit;
use crate::limits::gemma4_sliding_decode_checkpoint_interval;
use crate::limits::gemma4_sliding_prefix_checkpoint_limit_for_override;
use crate::limits::Gemma4SlidingRestoreLimitOverride;
use crate::model_plan::check_pool_blocks;
use crate::model_plan::law_pool_implies_routes;
use crate::model_plan::paged_wanted;
use crate::model_plan::plan_layer_kinds;
use crate::model_plan::plan_paged_pool;
use crate::model_plan::pool_error;
use crate::model_plan::pool_of;
use crate::model_plan::AdapterError;
use crate::model_plan::PagedPoolPlan;

verus! {

/// The pool of the block-paged cache.
#[derive(Debug, Clone, Copy, PartialEq, Eq, Structural)]
pub struct PagedPool {
    pub plan: PagedPoolPlan,
    pub num_blocks: u32,
}

/// Settings that a user can override.
#[derive(Debug, Clone, Copy, PartialEq, Eq, Structural)]
pub struct SlidingSettings {
    pub restore_limit: Option<Gemma4SlidingRestoreLimitOverride>,
    pub checkpoint_limit: Option<usize>,
}

/// The state of a model that its own thread owns.
#[derive(Debug)]
pub struct Gemma4Inner {
    pub config: Gemma4Config,
    /// Caches of all layers; none before the first turn and after a reset.
    pub caches: Option<Vec<Gemma4LayerCache>>,
    /// Tokens, media expanded, whose keys and values are live.
    pub cached_token_history: Vec<u32>,
    /// Content hash of the images of the live caches.
    pub cached_image_key: Option<u64>,
    /// Content hash of the audio of the live caches.
    pub cached_audio_key: Option<u64>,
    /// The pool of the block-paged cache; none where the cache is flat.
    pub paged: Option<PagedPool>,
    /// Draft tokens of one block, where a draft model is loaded. Excludes a
    /// paged pool.
    pub draft_block_size: Option<usize>,
    /// The route of every layer where the cache is paged; else empty.
    pub layer_kinds: Vec<Gemma4LayerKind>,
    pub sliding_prefix_checkpoints: VecDeque<Gemma4SlidingPrefixCheckpoint>,
    pub sliding_prompt_boundary_checkpoint: Option<Gemma4SlidingPrefixCheckpoint>,
    pub sliding_last_history_checkpoint: Option<Gemma4SlidingHistoryCheckpoint>,
    /// A media turn left its caches live and its sliding layers remembered, so
    /// a text turn can go on from them.
    pub media_session_continuable: bool,
    pub settings: SlidingSettings,
    pub model_id: u64,
}

/// Which reset is asked for.
#[derive(Debug, Clone, Copy, PartialEq, Eq, Structural)]
pub enum ResetScope {
    /// A turn whose prompt does not extend the history.
    PrefixMiss,
    /// An explicit request.
    Command,
}

impl Gemma4Inner {
    /// The configuration is valid and the routes belong to it.
    pub open spec fn wf(self) -> bool {
        &&& self.config.wf()
        &&& self.paged is Some ==> kinds_error(self.config) is None && self.layer_kinds@
            == all_kinds(self.config, block_size_of(self.config))
        &&& self.paged is None ==> self.layer_kinds@ == Seq::<Gemma4LayerKind>::empty()
    }

    /// Nothing is remembered of earlier turns.
    pub open spec fn nothing_remembered(self) -> bool {
        &&& self.cached_token_history@ == Seq::<u32>::empty()
        &&& self.cached_image_key is None
        &&& self.cached_audio_key is None
        &&& self.sliding_prefix_checkpoints@ == Seq::<Gemma4SlidingPrefixCheckpoint>::empty()
        &&& self.sliding_prompt_boundary_checkpoint is None
        &&& self.sliding_last_history_checkpoint is None
        &&& !self.media_session_continuable
    }

    /// Everything but what a turn leaves behind.
    pub open spec fn same_model(self, other: Gemma4Inner) -> bool {
        &&& self.config == other.config
        &&& self.paged == other.paged
        &&& self.draft_block_size == other.draft_block_size
        &&& self.layer_kinds == other.layer_kinds
        &&& self.settings == other.settings
        &&& self.model_id == other.model_id
    }

    /// A model without weights. `count_blocks` tells how many blocks the
    /// memory of a pool holds.
    pub fn new<F: Fn(PagedPoolPlan) -> u32>(
        config: Gemma4Config,
        backend_available: bool,
        max_chunk: u32,
        count_blocks: F,
        settings: SlidingSettings,
        model_id: u64,
    ) -> (r: Result<Gemma4Inner, AdapterError>)
        requires
            config.wf(),
            forall|p: PagedPoolPlan| #[trigger] call_requires(count_blocks, (p,)),
        ensures
            match r {
                Ok(inner) => {
                    &&& inner.wf()
                    &&& inner.nothing_remembered()
                    &&& inner.config == config
                    &&& inner.caches is None
                    &&& inner.draft_block_size is None
                    &&& inner.settings == settings
                    &&& inner.model_id == model_id
                    &&& match inner.paged {
                        None => !paged_wanted(config, backend_available),
                        Some(pool) => paged_wanted(config, backend_available) && pool_error(
                            config,
                        ) is None && pool.plan == pool_of(config) && pool.num_blocks > 0
                            && call_ensures(count_blocks, (pool.plan,), pool.num_blocks),
                    }
                },
                Err(e) => paged_wanted(config, backend_available) && match pool_error(config) {
                    Some(pe) => e == pe,
                    None => call_ensures(count_blocks, (pool_of(config),), 0u32) && e
                        == (AdapterError::MemoryTooSmall {
                        gpu_memory_mb: pool_of(config).gpu_memory_mb,
                        head_size: pool_of(config).head_size,
                        num_kv_heads: pool_of(config).num_kv_heads,
                        block_size: pool_of(config).block_size,
                        num_layers: pool_of(config).num_layers,
                    }),
                },
            },
    {
        let plan = match plan_paged_pool(&config, backend_available, max_chunk) {
            Err(e) => {
                return Err(e);
            },
            Ok(plan) => plan,
        };
        let paged: Option<PagedPool> = match plan {
            None => None,
            Some(plan) => {
                let counted: u32 = count_blocks(plan);
                match check_pool_blocks(&plan, counted) {
                    Err(e) => {
                        return Err(e);
                    },
                    Ok(num_blocks) => Some(PagedPool { plan, num_blocks }),
                }
            },
        };
        proof {
            if paged is Some {
                law_pool_implies_routes(config);
            }
        }
        let layer_kinds = match plan_layer_kinds(&config, paged.is_some()) {
            Err(e) => {
                return Err(e);
            },
            Ok(kinds) => kinds,
        };
        Ok(
            Gemma4Inner {
                config,
                caches: None,
                cached_token_history: Vec::new(),
                cached_image_key: None,
                cached_audio_key: None,
                paged,
                draft_block_size: None,
                layer_kinds,
                sliding_prefix_checkpoints: VecDeque::new(),
                sliding_prompt_boundary_checkpoint: None,
                sliding_last_history_checkpoint: None,
                media_session_continuable: false,
                settings,
                model_id,
            },
        )
    }

    /// Forgets everything that earlier turns left behind, but for the caches.
    pub fn clear_reuse_state(&mut self)
        ensures
            final(self).nothing_remembered(),
            final(self).same_model(*old(self)),
            final(self).caches == old(self).caches,
    {
        self.cached_token_history = Vec::new();
        self.cached_image_key = None;
        self.cached_audio_key = None;
        self.sliding_prefix_checkpoints.clear();
        self.sliding_prompt_boundary_checkpoint = None;
        self.sliding_last_history_checkpoint = None;
        self.media_session_continuable = false;
    }

    /// Starts over with empty caches.
    pub fn init_caches_sync(&mut self)
        requires
            old(self).wf(),
        ensures
            final(self).nothing_remembered(),
            final(self).same_model(*old(self)),
            final(self).caches matches Some(c) && c@ == fresh_caches(old(self).config),
    {
        self.caches = Some(init_caches_for_config(&self.config));
        self.clear_reuse_state();
    }

    /// Drops the caches.
    pub fn reset_caches_sync(&mut self)
        ensures
            final(self).nothing_remembered(),
            final(self).same_model(*old(self)),
            final(self).caches is None,
    {
        self.caches = None;
        self.clear_reuse_state();
    }

    /// Resets for a new prompt, or on request. Tells whether the paged pool
    /// must release its request and drop its content-addressed blocks: an
    /// explicit reset leaves nothing to reuse.
    pub fn reset_caches(&mut self, scope: ResetScope) -> (purge_pool: bool)
        requires
            old(self).wf(),
        ensures
            final(self).nothing_remembered(),
            final(self).same_model(*old(self)),
            match scope {
                ResetScope::PrefixMiss => final(self).caches matches Some(c) && c@ == fresh_caches(
                    old(self).config,
                ),
                ResetScope::Command => final(self).caches is None,
            },
            purge_pool == (scope == ResetScope::Command && old(self).paged is Some),
    {
        self.reset_caches_sync();
        match scope {
            ResetScope::PrefixMiss => {
                self.init_caches_sync();
                false
            },
            ResetScope::Command => self.paged.is_some(),
        }
    }

    /// The caches of the longest remembered prefix that a prompt extends, up to
    /// `prefix_len` tokens.
    pub fn find_gemma4_sliding_prefix_checkpoint<H: Fn(&[u32], u64, &[u64]) -> u64>(
        &self,
        tokens: &[u32],
        prefix_len: u32,
        block_size: u32,
        cache_salt: u64,
        hash: &H,
    ) -> (r: Option<Gemma4SlidingPrefixCheckpointHit>)
        requires
            self.wf(),
            total_hash(*hash),
            pure_hash(*hash),
        ensures
            hit_is(
                r,
                found(
                    opt_view(self.sliding_prompt_boundary_checkpoint),
                    views(self.sliding_prefix_checkpoints@),
                    self.config,
                    *hash,
                    tokens@,
                    prefix_len,
                    block_size,
                    cache_salt,
                ),
                self.config,
            ),
    {
        find_prefix_checkpoint(
            &self.config,
            &self.sliding_prompt_boundary_checkpoint,
            &self.sliding_prefix_checkpoints,
            tokens,
            prefix_len,
            block_size,
            cache_salt,
            hash,
        )
    }

    /// The remembered history is `tokens[..prefix_len]` and can be restored.
    pub open spec fn history_serves(self, tokens: Seq<u32>, prefix_len: u32) -> bool {
        &&& prefix_len <= tokens.len()
        &&& self.sliding_last_history_checkpoint matches Some(h) && h.tokens@ == tokens.take(
            prefix_len as int,
        ) && restorable(self.config, h.snapshots@, prefix_len)
    }

    /// The caches of the remembered history, where the prompt begins with it.
    pub fn find_gemma4_sliding_history_checkpoint(&self, tokens: &[u32], prefix_len: u32) -> (r:
        Option<Vec<Gemma4LayerCache>>)
        requires
            self.wf(),
        ensures
            match r {
                Some(caches) => self.history_serves(tokens@, prefix_len) && caches@ == restored(
                    self.config,
                    self.sliding_last_history_checkpoint->0.snapshots@,
                ),
                None => !self.history_serves(tokens@, prefix_len),
            },
    {
        if prefix_len as usize > tokens.len() {
            return None;
        }
        match &self.sliding_last_history_checkpoint {
            None => None,
            Some(checkpoint) => {
                if checkpoint.tokens.len() != prefix_len as usize || !tokens_start_with(
                    tokens,
                    &checkpoint.tokens,
                ) {
                    proof {
                        let prefix = tokens@.take(prefix_len as int);
                        assert(tokens@.subrange(0, prefix.len() as int) =~= prefix);
                    }
                    return None;
                }
                assert(checkpoint.tokens@ =~= tokens@.take(prefix_len as int));
                restore_gemma4_sliding_caches(&self.config, &checkpoint.snapshots, prefix_len)
            },
        }
    }

    /// The sliding layers are live and at the end of a history; positions are
    /// counted in 32 bits.
    pub open spec fn at_history(self, history: Seq<u32>) -> bool {
        &&& history.len() > 0
        &&& self.caches matches Some(c) && snapshot_possible(
            self.config,
            c@,
            wrap_u32(history.len() as int) as u32,
        )
    }

    /// A session after a history is remembered: the sliding layers are filed under
    /// it where they are at its end; else no history is remembered any more.
    pub open spec fn remembers_history(self, after: Gemma4Inner, history: Seq<u32>) -> bool {
        &&& after == (Gemma4Inner {
            sliding_last_history_checkpoint: after.sliding_last_history_checkpoint,
            ..self
        })
        &&& match after.sliding_last_history_checkpoint {
            None => !self.at_history(history),
            Some(h) => self.at_history(history) && h.tokens@ == history && h.snapshots@
                == layer_snapshots(self.config, self.caches->0@),
        }
    }

    /// Remembers the sliding layers after a whole history; forgets what was
    /// remembered where they are not at its end. Tells whether they were.
    pub fn remember_gemma4_sliding_history_checkpoint(&mut self, history_tokens: &Vec<u32>) -> (
    stored: bool)
        requires
            old(self).wf(),
        ensures
            stored == old(self).at_history(history_tokens@),
            old(self).remembers_history(*final(self), history_tokens@),
    {
        if history_tokens.len() == 0 {
            self.sliding_last_history_checkpoint = None;
            return false;
        }
        let expected_offset: u32 = wrapping_u32(history_tokens.len());
        match snapshot_gemma4_sliding_caches(&self.config, &self.caches, expected_offset) {
            None => {
                self.sliding_last_history_checkpoint = None;
                false
            },
            Some(snapshots) => {
                let tokens = copy_tokens(history_tokens.as_slice(), history_tokens.len());
                assert(tokens@ =~= history_tokens@);
                self.sliding_last_history_checkpoint = Some(
                    Gemma4SlidingHistoryCheckpoint { tokens, snapshots },
                );
                true
            },
        }
    }

    /// The checkpoint of a prefix whose sliding layers are live; none where
    /// the prefix does not end at a block boundary of the prompt or the layers
    /// are not at its end.
    pub open spec fn live_checkpoint<H: Fn(&[u32], u64, &[u64]) -> u64>(
        self,
        hash: H,
        tokens: Seq<u32>,
        prefix_len: u32,
        block_size: u32,
        cache_salt: u64,
    ) -> Option<CheckpointView> {
        match (prefix_hash(hash, tokens, prefix_len, block_size, cache_salt), self.caches) {
            (Some(final_block_hash), Some(c)) => if snapshot_possible(
                self.config,
                c@,
                prefix_len,
            ) {
                Some(
                    CheckpointView {
                        prefix_len,
                        block_size,
                        final_block_hash,
                        tokens: tokens.take(prefix_len as int),
                        snapshots: layer_snapshots(self.config, c@),
                    },
                )
            } else {
                None
            },
            _ => None,
        }
    }

    fn take_checkpoint<H: Fn(&[u32], u64, &[u64]) -> u64>(
        &self,
        tokens: &[u32],
        prefix_len: u32,
        block_size: u32,
        cache_salt: u64,
        hash: &H,
    ) -> (r: Option<Gemma4SlidingPrefixCheckpoint>)
        requires
            self.wf(),
            total_hash(*hash),
            pure_hash(*hash),
        ensures
            opt_view(r) == self.live_checkpoint(
                *hash,
                tokens@,
                prefix_len,
                block_size,
                cache_salt,
            ),
    {
        match compute_gemma4_paged_prefix_block_hash(
            tokens,
            prefix_len,
            block_size,
            cache_salt,
            hash,
        ) {
            None => None,
            Some(final_block_hash) => match snapshot_gemma4_sliding_caches(
                &self.config,
                &self.caches,
                prefix_len,
            ) {
                None => None,
                Some(snapshots) => {
                    let prefix_tokens = copy_tokens(tokens, prefix_len as usize);
                    Some(
                        Gemma4SlidingPrefixCheckpoint {
                            prefix_len,
                            block_size,
                            final_block_hash,
                            tokens: prefix_tokens,
                            snapshots,
                        },
                    )
                },
            },
        }
    }

    /// The store after a checkpoint is filed.
    pub open spec fn store_after(self, block_size: u32, c: CheckpointView) -> Seq<CheckpointView> {
        filed(
            views(self.sliding_prefix_checkpoints@),
            c,
            checkpoint_limit(
                self.config.sliding_window as int,
                block_size as int,
                self.settings.checkpoint_limit,
            ),
        )
    }

    fn file(&mut self, checkpoint: Gemma4SlidingPrefixCheckpoint, block_size: u32)
        ensures
            *final(self) == (Gemma4Inner {
                sliding_prefix_checkpoints: final(self).sliding_prefix_checkpoints,
                ..*old(self)
            }),
            views(final(self).sliding_prefix_checkpoints@) == old(self).store_after(
                block_size,
                checkpoint.view(),
            ),
    {
        let limit: usize = gemma4_sliding_prefix_checkpoint_limit_for_override(
            &self.config,
            block_size,
            self.settings.checkpoint_limit,
        );
        file_checkpoint(&mut self.sliding_prefix_checkpoints, checkpoint, limit);
    }

    /// Files the live sliding layers under a prefix. Tells whether they were
    /// at its end.
    pub fn remember_gemma4_sliding_prefix_checkpoint<H: Fn(&[u32], u64, &[u64]) -> u64>(
        &mut self,
        tokens: &[u32],
        prefix_len: u32,
        block_size: u32,
        cache_salt: u64,
        hash: &H,
    ) -> (stored: bool)
        requires
            old(self).wf(),
            total_hash(*hash),
            pure_hash(*hash),
        ensures
            *final(self) == (Gemma4Inner {
                sliding_prefix_checkpoints: final(self).sliding_prefix_checkpoints,
                ..*old(self)
            }),
            match old(self).live_checkpoint(
                *hash,
                tokens@,
                prefix_len,
                block_size,
                cache_salt,
            ) {
                None => !stored && *final(self) == *old(self),
                Some(c) => stored && views(final(self).sliding_prefix_checkpoints@) == old(self).store_after(block_size, c),
            },
    {
        match self.take_checkpoint(tokens, prefix_len, block_size, cache_salt, hash) {
            None => false,
            Some(checkpoint) => {
                self.file(checkpoint, block_size);
                true
            },
        }
    }

    /// Files a copy of the live sliding layers under a prefix. `copy` gives
    /// the number of a materialized copy of arrays, or fails; then nothing
    /// changes.
    pub fn remember_gemma4_sliding_materialized_prefix_checkpoint<
        H: Fn(&[u32], u64, &[u64]) -> u64,
        C: Fn(u64) -> Option<u64>,
    >(
        &mut self,
        tokens: &[u32],
        prefix_len: u32,
        block_size: u32,
        cache_salt: u64,
        hash: &H,
        copy: &C,
    ) -> (r: Result<bool, CopyFailed>)
        requires
            old(self).wf(),
            total_hash(*hash),
            pure_hash(*hash),
            forall|a: u64| #[trigger] call_requires(*copy, (a,)),
        ensures
            *final(self) == (Gemma4Inner {
                sliding_prefix_checkpoints: final(self).sliding_prefix_checkpoints,
                ..*old(self)
            }),
            match old(self).live_checkpoint(
                *hash,
                tokens@,
                prefix_len,
                block_size,
                cache_salt,
            ) {
                None => r == Ok::<bool, CopyFailed>(false) && *final(self) == *old(self),
                Some(c) => match r {
                    Ok(stored) => stored && exists|m: CheckpointView|
                        materialized(*copy, c, m) && views(
                            final(self).sliding_prefix_checkpoints@,
                        ) == #[trigger] old(self).store_after(block_size, m),
                    Err(_) => *final(self) == *old(self) && copy_can_fail(*copy, c.snapshots),
                },
            },
    {
        match self.take_checkpoint(tokens, prefix_len, block_size, cache_salt, hash) {
            None => Ok(false),
            Some(checkpoint) => match materialize_checkpoint(checkpoint, copy) {
                None => Err(CopyFailed),
                Some(copied) => {
                    self.file(copied, block_size);
                    Ok(true)
                },
            },
        }
    }

    /// Keeps a copy of the live sliding layers at the end of a prompt, apart
    /// from the store; forgets the one before where they are not there.
    pub fn remember_gemma4_sliding_materialized_prompt_boundary_checkpoint<
        H: Fn(&[u32], u64, &[u64]) -> u64,
        C: Fn(u64) -> Option<u64>,
    >(
        &mut self,
        tokens: &[u32],
        prefix_len: u32,
        block_size: u32,
        cache_salt: u64,
        hash: &H,
        copy: &C,
    ) -> (r: Result<bool, CopyFailed>)
        requires
            old(self).wf(),
            total_hash(*hash),
            pure_hash(*hash),
            forall|a: u64| #[trigger] call_requires(*copy, (a,)),
        ensures
            *final(self) == (Gemma4Inner {
                sliding_prompt_boundary_checkpoint: final(self).sliding_prompt_boundary_checkpoint,
                ..*old(self)
            }),
            match old(self).live_checkpoint(
                *hash,
                tokens@,
                prefix_len,
                block_size,
                cache_salt,
            ) {
                None => r == Ok::<bool, CopyFailed>(false) && final(self).sliding_prompt_boundary_checkpoint is None,
                Some(c) => match r {
                    Ok(stored) => stored && (final(self).sliding_prompt_boundary_checkpoint matches Some(
                        m,
                    ) && materialized(*copy, c, m.view())),
                    Err(_) => *final(self) == *old(self) && copy_can_fail(*copy, c.snapshots),
                },
            },
    {
        match self.take_checkpoint(tokens, prefix_len, block_size, cache_salt, hash) {
            None => {
                self.sliding_prompt_boundary_checkpoint = None;
                Ok(false)
            },
            Some(checkpoint) => match materialize_checkpoint(checkpoint, copy) {
                None => Err(CopyFailed),
                Some(copied) => {
                    self.sliding_prompt_boundary_checkpoint = Some(copied);
                    Ok(true)
                },
            },
        }
    }

    /// A decode step that ends at `prefix_len` tokens is due a checkpoint.
    pub open spec fn decode_checkpoint_due(self, prefix_len: u32) -> bool {
        match self.paged {
            None => false,
            Some(pool) => {
                let interval = checkpoint_interval(
                    self.config.sliding_window as int,
                    pool.plan.block_size as int,
                );
                prefix_len > 0 && interval > 0 && prefix_len as int % interval == 0
            },
        }
    }

    /// Files a checkpoint where a decode step ends at a checkpoint boundary.
    pub fn maybe_remember_gemma4_sliding_decode_boundary_checkpoint<
        H: Fn(&[u32], u64, &[u64]) -> u64,
        C: Fn(u64) -> Option<u64>,
    >(&mut self, request_tokens: &[u32], hash: &H, copy: &C) -> (r: Result<bool, CopyFailed>)
        requires
            old(self).wf(),
            request_tokens@.len() <= u32::MAX,
            total_hash(*hash),
            pure_hash(*hash),
            forall|a: u64| #[trigger] call_requires(*copy, (a,)),
        ensures
            *final(self) == (Gemma4Inner {
                sliding_prefix_checkpoints: final(self).sliding_prefix_checkpoints,
                ..*old(self)
            }),
            !old(self).decode_checkpoint_due(request_tokens@.len() as u32) ==> r == Ok::<
                bool,
                CopyFailed,
            >(false) && *final(self) == *old(self),
            old(self).decode_checkpoint_due(request_tokens@.len() as u32) ==> match old(self).live_checkpoint(
                *hash,
                request_tokens@,
                request_tokens@.len() as u32,
                old(self).paged->0.plan.block_size,
                0,
            ) {
                None => r == Ok::<bool, CopyFailed>(false) && *final(self) == *old(self),
                Some(c) => match r {
                    Ok(stored) => stored && exists|m: CheckpointView|
                        materialized(*copy, c, m) && views(
                            final(self).sliding_prefix_checkpoints@,
                        ) == #[trigger] old(self).store_after(
                            old(self).paged->0.plan.block_size,
                            m,
                        ),
                    Err(_) => *final(self) == *old(self) && copy_can_fail(*copy, c.snapshots),
                },
            },
    {
        let block_size: u32 = match self.paged {
            None => {
                return Ok(false);
            },
            Some(pool) => pool.plan.block_size,
        };
        let prefix_len: u32 = request_tokens.len() as u32;
        let interval: u32 = gemma4_sliding_decode_checkpoint_interval(&self.config, block_size);
        if prefix_len == 0 || interval == 0 || prefix_len % interval != 0 {
            return Ok(false);
        }
        self.remember_gemma4_sliding_materialized_prefix_checkpoint(
            request_tokens,
            prefix_len,
            block_size,
            0,
            hash,
            copy,
        )
    }

    /// The end of a prompt is due a checkpoint.
    pub open spec fn prompt_checkpoint_due(self, boundary_len: u32) -> bool {
        match self.paged {
            None => false,
            Some(pool) => boundary_len > 0 && pool.plan.block_size > 0 && boundary_len as int
                % pool.plan.block_size as int == 0,
        }
    }

    /// Keeps a checkpoint of a prompt that ends at a block boundary.
    pub fn maybe_remember_gemma4_sliding_prompt_boundary_checkpoint<
        H: Fn(&[u32], u64, &[u64]) -> u64,
        C: Fn(u64) -> Option<u64>,
    >(&mut self, tokens: &[u32], boundary_len: u32, hash: &H, copy: &C) -> (r: Result<
        bool,
        CopyFailed,
    >)
        requires
            old(self).wf(),
            total_hash(*hash),
            pure_hash(*hash),
            forall|a: u64| #[trigger] call_requires(*copy, (a,)),
        ensures
            *final(self) == (Gemma4Inner {
                sliding_prompt_boundary_checkpoint: final(self).sliding_prompt_boundary_checkpoint,
                ..*old(self)
            }),
            !old(self).prompt_checkpoint_due(boundary_len) ==> r == Ok::<bool, CopyFailed>(false)
                && *final(self) == *old(self),
            old(self).prompt_checkpoint_due(boundary_len) ==> match old(self).live_checkpoint(
                *hash,
                tokens@,
                boundary_len,
                old(self).paged->0.plan.block_size,
                0,
            ) {
                None => r == Ok::<bool, CopyFailed>(false) && final(self).sliding_prompt_boundary_checkpoint is None,
                Some(c) => match r {
                    Ok(stored) => stored && (final(self).sliding_prompt_boundary_checkpoint matches Some(
                        m,
                    ) && materialized(*copy, c, m.view())),
                    Err(_) => *final(self) == *old(self) && copy_can_fail(*copy, c.snapshots),
                },
            },
    {
        let block_size: u32 = match self.paged {
            None => {
                return Ok(false);
            },
            Some(pool) => pool.plan.block_size,
        };
        if boundary_len == 0 || block_size == 0 || boundary_len % block_size != 0 {
            return Ok(false);
        }
        self.remember_gemma4_sliding_materialized_prompt_boundary_checkpoint(
            tokens,
            boundary_len,
            block_size,
            0,
            hash,
            copy,
        )
    }
}

/// A copy of arrays could not be made.
#[derive(Debug, Clone, Copy, PartialEq, Eq, Structural)]
pub struct CopyFailed;

/// `m` is `c` with every array replaced by a copy.
pub open spec fn materialized<C: Fn(u64) -> Option<u64>>(
    copy: C,
    c: CheckpointView,
    m: CheckpointView,
) -> bool {
    &&& m.prefix_len == c.prefix_len
    &&& m.block_size == c.block_size
    &&& m.final_block_hash == c.final_block_hash
    &&& m.tokens == c.tokens
    &&& m.snapshots.len() == c.snapshots.len()
    &&& forall|i: int| 0 <= i < c.snapshots.len() ==> copied(copy, c.snapshots[i], #[trigger] m.snapshots[i])
}

/// One snapshot replaced by a copy.
pub open spec fn copied<C: Fn(u64) -> Option<u64>>(
    copy: C,
    a: Option<RotatingKVCacheSnapshot>,
    b: Option<RotatingKVCacheSnapshot>,
) -> bool {
    match (a, b) {
        (None, None) => true,
        (Some(x), Some(y)) => x.offset == y.offset && call_ensures(
            copy,
            (x.arrays,),
            Some(y.arrays),
        ),
        _ => false,
    }
}

/// Some array cannot be copied.
pub open spec fn copy_can_fail<C: Fn(u64) -> Option<u64>>(
    copy: C,
    snapshots: Seq<Option<RotatingKVCacheSnapshot>>,
) -> bool {
    exists|i: int|
        0 <= i < snapshots.len() && (#[trigger] snapshots[i] matches Some(s) && call_ensures(
            copy,
            (s.arrays,),
            None::<u64>,
        ))
}

fn materialize_checkpoint<C: Fn(u64) -> Option<u64>>(
    checkpoint: Gemma4SlidingPrefixCheckpoint,
    copy: &C,
) -> (r: Option<Gemma4SlidingPrefixCheckpoint>)
    requires
        forall|a: u64| #[trigger] call_requires(*copy, (a,)),
    ensures
        match r {
            Some(m) => materialized(*copy, checkpoint.view(), m.view()),
            None => copy_can_fail(*copy, checkpoint.snapshots@),
        },
{
    match materialize_gemma4_sliding_snapshots(&checkpoint.snapshots, copy) {
        None => None,
        Some(snapshots) => Some(Gemma4SlidingPrefixCheckpoint { snapshots, ..checkpoint }),
    }
}

/// Copies the arrays of all snapshots; none where one cannot be copied.
pub fn materialize_gemma4_sliding_snapshots<C: Fn(u64) -> Option<u64>>(
    snapshots: &Vec<Option<RotatingKVCacheSnapshot>>,
    copy: &C,
) -> (r: Option<Vec<Option<RotatingKVCacheSnapshot>>>)
    requires
        forall|a: u64| #[trigger] call_requires(*copy, (a,)),
    ensures
        match r {
            Some(copies) => copies@.len() == snapshots@.len() && forall|i: int|
                0 <= i < snapshots@.len() ==> copied(*copy, snapshots@[i], #[trigger] copies@[i]),
            None => copy_can_fail(*copy, snapshots@),
        },
{
    let mut out: Vec<Option<RotatingKVCacheSnapshot>> = Vec::new();
    let mut i: usize = 0;
    while i < snapshots.len()
        invariant
            i <= snapshots@.len(),
            forall|a: u64| #[trigger] call_requires(*copy, (a,)),
            out@.len() == i,
            forall|k: int| 0 <= k < i ==> copied(*copy, snapshots@[k], #[trigger] out@[k]),
        decreases snapshots@.len() - i,
    {
        match snapshots[i] {
            None => out.push(None),
            Some(snapshot) => {
                let made: Option<u64> = copy(snapshot.arrays);
                match made {
                    None => {
                        assert(snapshots@[i as int] == Some(snapshot));
                        return None;
                    },
                    Some(arrays) => out.push(
                        Some(RotatingKVCacheSnapshot { offset: snapshot.offset, arrays }),
                    ),
                }
            },
        }
        i += 1;
    }
    Some(out)
}

/// The first `n` tokens.
pub fn copy_tokens(tokens: &[u32], n: usize) -> (r: Vec<u32>)
    requires
        n <= tokens@.len(),
    ensures
        r@ == tokens@.take(n as int),
{
    let mut out: Vec<u32> = Vec::new();
    let mut i: usize = 0;
    assert(out@ =~= tokens@.take(0));
    while i < n
        invariant
            i <= n <= tokens@.len(),
            out@ == tokens@.take(i as int),
        decreases n - i,
    {
        out.push(tokens[i]);
        i += 1;
        assert(out@ =~= tokens@.take(i as int));
    }
    out
}

/// A history that was remembered is found again by every prompt that begins with
/// it, and by no other prompt or length; what is found are caches whose sliding
/// layers are at its end and hold what they held. An empty history, or one that
/// the sliding layers were not at the end of, leaves none remembered.
pub proof fn law_remembered_history_is_found(
    before: Gemma4Inner,
    after: Gemma4Inner,
    history: Seq<u32>,
    tokens: Seq<u32>,
    prefix_len: u32,
)
    requires
        before.wf(),
        before.remembers_history(after, history),
    ensures
        after.history_serves(tokens, prefix_len) <==> before.at_history(history) && prefix_len
            <= tokens.len() && tokens.take(prefix_len as int) == history,
        after.history_serves(tokens, prefix_len) ==> ({
            let found = restored(
                after.config,
                after.sliding_last_history_checkpoint->0.snapshots@,
            );
            &&& ready_at(after.config, found, prefix_len)
            &&& forall|i: int|
                0 <= i < after.config.layers() && !after.config.global_at(i) ==> (
                #[trigger] found[i]).snapshot() == before.caches->0@[i].snapshot()
        }),
        history.len() == 0 || !(before.caches matches Some(c) && ready_at(
            before.config,
            c@,
            wrap_u32(history.len() as int) as u32,
        )) ==> after.sliding_last_history_checkpoint is None,
{
    if before.at_history(history) {
        let n = wrap_u32(history.len() as int) as u32;
        let c = before.config;
        let caches = before.caches->0@;
        let snapshots = layer_snapshots(c, caches);
        assert forall|k: int| 0 <= k < snapshots.len() && !c.global_at(k) implies (
        #[trigger] snapshots[k] matches Some(s) && s.offset == crate::config::wrap_i32(n as int)) by {
            assert(caches[k].slid_to(crate::config::wrap_i32(n as int)));
            assert(caches[k].snapshot() is Some);
        }
        assert(restorable(c, snapshots, n));
        let found = restored(c, snapshots);
        assert forall|i: int| 0 <= i < c.layers() && !c.global_at(i) implies (
        #[trigger] found[i]).snapshot() == caches[i].snapshot() && found[i].slid_to(
            crate::config::wrap_i32(n as int),
        ) by {
            law_snapshot_restores(c, caches, n, i);
        }
        if prefix_len <= tokens.len() && tokens.take(prefix_len as int) == history {
            assert(tokens.take(prefix_len as int).len() == prefix_len);
            assert(n == prefix_len);
        }
    }
}

/// A session that was reset holds nothing of the turns before: no history, no media, no
/// checkpoint of any kind.
pub proof fn law_reset_session_holds_nothing(inner: Gemma4Inner, tokens: Seq<u32>, n: u32)
    requires
        inner.nothing_remembered(),
    ensures
        inner.cached_token_history@.len() == 0,
        inner.cached_image_key is None,
        inner.cached_audio_key is None,
        inner.sliding_prefix_checkpoints@.len() == 0,
        inner.sliding_prompt_boundary_checkpoint is None,
        inner.sliding_last_history_checkpoint is None,
        !inner.media_session_continuable,
        !inner.history_serves(tokens, n),
{
}

/// The model of a session is its configuration, its pool and routes, its draft, its
/// settings and its number: what a reset keeps.
pub proof fn law_same_model_is_the_same(a: Gemma4Inner, b: Gemma4Inner)
    requires
        a.same_model(b),
    ensures
        a.config == b.config,
        a.paged == b.paged,
        a.layer_kinds == b.layer_kinds,
        a.draft_block_size == b.draft_block_size,
        a.settings == b.settings,
        a.model_id == b.model_id,
        b.wf() ==> a.wf(),
{
}

/// A session has a route for every layer exactly where it has a pool.
pub proof fn law_routes_of_a_session(inner: Gemma4Inner)
    requires
        inner.wf(),
    ensures
        inner.config.num_hidden_layers >= 0,
        inner.paged is Some ==> inner.layer_kinds@.len() == inner.config.num_hidden_layers,
        inner.paged is None ==> inner.layer_kinds@.len() == 0,
{
}

/// A remembered history serves the prompts that begin with it, for its own length.
pub proof fn law_history_serves_its_own_prompts(inner: Gemma4Inner, tokens: Seq<u32>, n: u32)
    ensures
        inner.sliding_last_history_checkpoint is None ==> !inner.history_serves(tokens, n),
        n > tokens.len() ==> !inner.history_serves(tokens, n),
        inner.history_serves(tokens, n) ==> {
            let h = inner.sliding_last_history_checkpoint->0;
            &&& h.tokens@.len() == n
            &&& h.tokens@ == tokens.take(n as int)
            &&& restorable(inner.config, h.snapshots@, n)
        },
{
}

/// A checkpoint can be taken of a prefix exactly where it is whole blocks of the prompt
/// and the sliding layers are live at its end and hold something; it holds the prefix
/// and what the layers hold.
pub proof fn law_checkpoint_of_a_prefix<H: Fn(&[u32], u64, &[u64]) -> u64>(
    inner: Gemma4Inner,
    hash: H,
    tokens: Seq<u32>,
    prefix_len: u32,
    block_size: u32,
    cache_salt: u64,
)
    ensures
        inner.live_checkpoint(hash, tokens, prefix_len, block_size, cache_salt) is Some
            <==> prefix_len > 0 && block_size > 0 && prefix_len as int % block_size as int == 0
            && prefix_len <= tokens.len() && inner.caches is Some && snapshot_possible(
            inner.config,
            inner.caches->0@,
            prefix_len,
        ),
        inner.live_checkpoint(hash, tokens, prefix_len, block_size, cache_salt) is Some ==> {
            let c = inner.live_checkpoint(hash, tokens, prefix_len, block_size, cache_salt)->0;
            &&& c.prefix_len == prefix_len
            &&& c.block_size == block_size
            &&& c.tokens == tokens.take(prefix_len as int)
            &&& c.tokens.len() == prefix_len
            &&& prefix_hash(hash, tokens, prefix_len, block_size, cache_salt) == Some(
                c.final_block_hash,
            )
            &&& c.snapshots == layer_snapshots(inner.config, inner.caches->0@)
        },
{
}

/// A decode step is due a checkpoint at every whole interval, and at no other length;
/// the end of a prompt is where it is whole blocks. Without a pool none is due.
pub proof fn law_checkpoints_that_are_due(inner: Gemma4Inner, n: u32)
    ensures
        inner.paged is None ==> !inner.decode_checkpoint_due(n) && !inner.prompt_checkpoint_due(n),
        inner.paged is Some && inner.paged->0.plan.block_size > 0 ==> {
            let block = inner.paged->0.plan.block_size as int;
            let interval = checkpoint_interval(inner.config.sliding_window as int, block);
            &&& inner.decode_checkpoint_due(n) <==> n > 0 && n as int % interval == 0
            &&& inner.prompt_checkpoint_due(n) <==> n > 0 && n as int % block == 0
        },
        inner.paged is Some && inner.paged->0.plan.block_size == 0 ==> !inner.decode_checkpoint_due(
            n,
        ) && !inner.prompt_checkpoint_due(n),
{
    if inner.paged is Some && inner.paged->0.plan.block_size > 0 {
        crate::limits::lemma_interval_is_not_negative(
            inner.config.sliding_window as int,
            inner.paged->0.plan.block_size as int,
        );
    }
}

/// A checkpoint that is filed is the newest of the store, which keeps as many as the
/// setting says.
pub proof fn law_filed_checkpoint_is_the_newest(
    inner: Gemma4Inner,
    block_size: u32,
    c: CheckpointView,
    n: usize,
)
    ensures
        inner.store_after(block_size, c).len() > 0,
        inner.store_after(block_size, c).last() == c,
        inner.settings.checkpoint_limit == Some(n) && n > 0 ==> inner.store_after(
            block_size,
            c,
        ).len() <= n,
        inner.settings.checkpoint_limit is None ==> inner.store_after(block_size, c).len() <= 128,
{
    let limit = checkpoint_limit(
        inner.config.sliding_window as int,
        block_size as int,
        inner.settings.checkpoint_limit,
    );
    if limit > 0 {
        crate::checkpoint_store::law_store_is_bounded(
            views(inner.sliding_prefix_checkpoints@),
            c,
            limit,
        );
    }
}

/// A copy of a checkpoint is of the same prefix and the same positions; only its arrays
/// are copies.
pub proof fn law_copy_of_a_checkpoint<C: Fn(u64) -> Option<u64>>(
    copy: C,
    c: CheckpointView,
    m: CheckpointView,
    i: int,
)
    requires
        materialized(copy, c, m),
        0 <= i < c.snapshots.len(),
    ensures
        m.prefix_len == c.prefix_len,
        m.block_size == c.block_size,
        m.final_block_hash == c.final_block_hash,
        m.tokens == c.tokens,
        m.snapshots.len() == c.snapshots.len(),
        m.snapshots[i] is Some <==> c.snapshots[i] is Some,
        c.snapshots[i] is Some ==> m.snapshots[i]->0.offset == c.snapshots[i]->0.offset
            && call_ensures(copy, (c.snapshots[i]->0.arrays,), Some(m.snapshots[i]->0.arrays)),
{
    assert(copied(copy, c.snapshots[i], m.snapshots[i]));
}

} // verus!
