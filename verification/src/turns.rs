//! What a turn reuses of the one before it, and what it leaves behind.

use vstd::prelude::*;
use vstd::string::*;

use crate::checkpoint_store::found;
use crate::checkpoint_store::opt_view;
use crate::checkpoint_store::tokens_start_with;
use crate::checkpoint_store::views;
use crate::checkpoints::fresh_caches;
use crate::checkpoints::gemma4_sliding_caches_ready_at;
use crate::checkpoints::init_caches_for_config;
use crate::checkpoints::layer_snapshots;
use crate::checkpoints::pure_hash;
use crate::checkpoints::ready_at;
use crate::checkpoints::restorable;
use crate::checkpoints::restored;
use crate::checkpoints::snapshot_possible;
use crate::checkpoints::total_hash;
use crate::checkpoints::Gemma4LayerCache;
use crate::config::Gemma4Config;
use crate::limits::Gemma4SlidingRestoreLimitOverride;
use crate::limits::gemma4_large_sliding_restore_suppression_limit_for_override;
use crate::limits::restore_suppression;
use crate::limits::Gemma4SlidingRestoreSuppression;
use crate::media::audio_token;
use crate::media::audio_token_of;
use crate::media::image_token;
use crate::media::image_token_of;
use crate::media::prompt_holds_media_placeholders;
use crate::model_plan::paged_wanted;
use crate::session::copy_tokens;
use crate::session::Gemma4Inner;
use crate::text::cat;
use crate::text::cat3;
use crate::text::decimal;
use crate::text::law_ends_of_a_text;
use crate::text::str_eq;
use crate::text::unsigned_text;

verus! {

/// How the sliding layers came to a cached prefix.
#[derive(Debug, Clone, Copy, PartialEq, Eq, Structural)]
pub enum SlidingPrefixState {
    /// There is no cached prefix.
    Fresh,
    /// The live caches are at its end.
    Live,
    /// The live caches are at the end of the history, which it is.
    LastHistory,
    /// The remembered history is it.
    LastHistoryCheckpoint,
    /// A checkpoint of it was found.
    PrefixCheckpoint,
    /// A checkpoint of a part of it was found.
    PartialPrefixCheckpoint,
    /// It must be replayed from its first token.
    Replay,
}

impl SlidingPrefixState {
    /// The name in traces.
    pub fn name(&self) -> (r: &'static str)
        ensures
            r@ == match *self {
                SlidingPrefixState::Fresh => "fresh"@,
                SlidingPrefixState::Live => "live"@,
                SlidingPrefixState::LastHistory => "last_history"@,
                SlidingPrefixState::LastHistoryCheckpoint => "last_history_checkpoint"@,
                SlidingPrefixState::PrefixCheckpoint => "prefix_checkpoint"@,
                SlidingPrefixState::PartialPrefixCheckpoint => "partial_prefix_checkpoint"@,
                SlidingPrefixState::Replay => "replay"@,
            },
    {
        match self {
            SlidingPrefixState::Fresh => "fresh",
            SlidingPrefixState::Live => "live",
            SlidingPrefixState::LastHistory => "last_history",
            SlidingPrefixState::LastHistoryCheckpoint => "last_history_checkpoint",
            SlidingPrefixState::PrefixCheckpoint => "prefix_checkpoint",
            SlidingPrefixState::PartialPrefixCheckpoint => "partial_prefix_checkpoint",
            SlidingPrefixState::Replay => "replay",
        }
    }
}

/// How far the sliding layers are primed.
#[derive(Debug, Clone, Copy, PartialEq, Eq, Structural)]
pub struct Gemma4SlidingPrefixPreparation {
    pub state: SlidingPrefixState,
    pub primed_prefix_len: u32,
}

/// How a paged turn starts.
#[derive(Debug, Clone, Copy, PartialEq, Eq, Structural)]
pub struct Gemma4PagedTurnPreparation {
    pub cached_prefix_len: u32,
    pub suffix_len: u32,
    pub sliding_primed_prefix_len: u32,
}

/// What the pool is asked for at the start of a turn.
#[derive(Debug, Clone, Copy, PartialEq, Eq, Structural)]
pub struct PagedTurnRequest {
    /// Blocks must not be looked up by their content.
    pub skip_lookup: bool,
    /// Most tokens of the prompt that may come from the cache.
    pub max_cache_hit_tokens: u32,
}

/// What the pool answered.
#[derive(Debug, Clone, Copy, PartialEq, Eq, Structural)]
pub struct PagedLookup {
    pub cached_prefix_len: u32,
    /// The request of the turn before goes on.
    pub continued_live_prefix: bool,
}

/// What comes next in the preparation of a paged turn.
#[derive(Debug, Clone, Copy, PartialEq, Eq, Structural)]
pub enum PagedTurnStep {
    /// The turn can start.
    Ready(Gemma4PagedTurnPreparation),
    /// Replay would take longer than a cold prefill: the pool must release the
    /// request, start over without a lookup and allocate the whole budget.
    RestartPool(Gemma4SlidingRestoreSuppression),
}

/// Why a turn cannot start.
#[derive(Debug, Clone, Copy, PartialEq, Eq, Structural)]
pub enum TurnError {
    NoPagedPool,
    CachedPrefixTooLong { cached_prefix_len: u32, total_budget: u32 },
    VisionNeedsPagedPool,
    EmptyTurnEnd,
    LongTurnEnd { tokens: usize },
}

/// The message of an image turn on a flat cache.
pub const VISION_NEEDS_PAGED_POOL: &'static str = "gemma4 image turns require the block-paged KV backend; the model was loaded without a paged adapter (use_block_paged_cache=false, non-Metal build, or paged init failed)";

impl TurnError {
    /// The message shown to a caller; `label` names the turn.
    pub open spec fn text(self, label: Seq<char>) -> Seq<char> {
        match self {
            TurnError::NoPagedPool => label
                + ": paged_adapter is None while preparing paged turn"@,
            TurnError::CachedPrefixTooLong { cached_prefix_len, total_budget } => label
                + ": cached_prefix_len "@ + decimal(cached_prefix_len as int)
                + " exceeds total_budget "@ + decimal(total_budget as int),
            TurnError::VisionNeedsPagedPool => VISION_NEEDS_PAGED_POOL@,
            TurnError::EmptyTurnEnd => "Tokenizer encoded <turn|> to empty id vector"@,
            TurnError::LongTurnEnd { tokens } => "Tokenizer encoded <turn|> to "@ + decimal(
                tokens as int,
            ) + " tokens; expected 1"@,
        }
    }

    /// The message shown to a caller; `label` names the turn.
    pub fn message(&self, label: &str) -> (r: String)
        ensures
            r@ == self.text(label@),
    {
        match *self {
            TurnError::NoPagedPool => cat(
                label,
                ": paged_adapter is None while preparing paged turn",
            ),
            TurnError::CachedPrefixTooLong { cached_prefix_len, total_budget } => {
                let mut out = cat(label, ": cached_prefix_len ");
                out.append(unsigned_text(cached_prefix_len as u64).as_str());
                out.append(" exceeds total_budget ");
                out.append(unsigned_text(total_budget as u64).as_str());
                out
            },
            TurnError::VisionNeedsPagedPool => String::from_str(VISION_NEEDS_PAGED_POOL),
            TurnError::EmptyTurnEnd => String::from_str(
                "Tokenizer encoded <turn|> to empty id vector",
            ),
            TurnError::LongTurnEnd { tokens } => cat3(
                "Tokenizer encoded <turn|> to ",
                unsigned_text(tokens as u64).as_str(),
                " tokens; expected 1",
            ),
        }
    }
}

/// What is kept of a turn: the prompt and what was generated, but for the last
/// token, which ended the turn. All of it with `keep_all`.
pub open spec fn saved_history(prompt: Seq<u32>, generated: Seq<u32>, keep_all: bool) -> Seq<u32> {
    if keep_all || generated.len() == 0 {
        prompt + generated
    } else {
        prompt + generated.drop_last()
    }
}

/// What is kept of a turn.
pub fn history_of_turn(prompt: &[u32], generated: &[u32], keep_all: bool) -> (r: Vec<u32>)
    ensures
        r@ == saved_history(prompt@, generated@, keep_all),
{
    let kept: usize = if keep_all || generated.len() == 0 {
        generated.len()
    } else {
        generated.len() - 1
    };
    let mut out = copy_tokens(prompt, prompt.len());
    let mut i: usize = 0;
    proof {
        assert(prompt@.take(prompt@.len() as int) =~= prompt@);
        assert(out@ =~= prompt@ + generated@.take(0));
    }
    while i < kept
        invariant
            i <= kept <= generated@.len(),
            out@ == prompt@ + generated@.take(i as int),
        decreases kept - i,
    {
        out.push(generated[i]);
        i += 1;
        assert(out@ =~= prompt@ + generated@.take(i as int));
    }
    proof {
        if kept == generated@.len() {
            assert(generated@.take(kept as int) =~= generated@);
        } else {
            assert(generated@.take(kept as int) =~= generated@.drop_last());
        }
    }
    out
}

/// Whether a prompt can go on from the caches.
#[derive(Debug, Clone, Copy, PartialEq, Eq, Structural)]
pub enum PrefixCacheDecision {
    /// The prompt is longer than the cached prefix: only its rest is computed.
    StrictExtendHit,
    /// Everything is computed. So it is where the prompt is the cached prefix:
    /// the logits of its last token are not kept, and a sliding window cannot
    /// be wound back.
    Miss,
}

/// Whether a prompt of `tokens_len` tokens goes on from `cached_prefix_len`.
pub fn classify_prefix_cache_decision(cached_prefix_len: usize, tokens_len: usize) -> (r:
    PrefixCacheDecision)
    ensures
        r == if 0 < cached_prefix_len < tokens_len {
            PrefixCacheDecision::StrictExtendHit
        } else {
            PrefixCacheDecision::Miss
        },
{
    if cached_prefix_len > 0 && cached_prefix_len < tokens_len {
        PrefixCacheDecision::StrictExtendHit
    } else {
        PrefixCacheDecision::Miss
    }
}

/// What the pool does with its request at the end of a turn.
#[derive(Debug, Clone, Copy, PartialEq, Eq, Structural)]
pub enum PoolTeardown {
    /// There is no pool.
    Nothing,
    /// The request stays live for the next turn.
    KeepLive,
    /// Full blocks are registered for reuse, then the request is released.
    RegisterAndRelease,
    /// The request is released.
    Release,
}

/// The prefix of a message that asks for a new session.
pub const IMAGE_CHANGE_RESTART_PREFIX: &'static str = "IMAGE_CHANGE_REQUIRES_SESSION_RESTART:";

/// The non-negative ids of a list.
pub open spec fn usable_ids(ids: Seq<i32>) -> Seq<u32>
    decreases ids.len(),
{
    if ids.len() == 0 {
        Seq::empty()
    } else if ids.last() >= 0 {
        usable_ids(ids.drop_last()).push(ids.last() as u32)
    } else {
        usable_ids(ids.drop_last())
    }
}

impl Gemma4Inner {
    /// The block size of the pool; 0 without one.
    pub open spec fn pool_block_size(self) -> u32 {
        match self.paged {
            Some(pool) => pool.plan.block_size,
            None => 0,
        }
    }

    fn pool_block(&self) -> (r: u32)
        ensures
            r == self.pool_block_size(),
    {
        match self.paged {
            Some(pool) => pool.plan.block_size,
            None => 0,
        }
    }

    /// The live caches are at `offset` tokens.
    pub open spec fn live_at(self, offset: u32) -> bool {
        self.caches matches Some(c) && ready_at(self.config, c@, offset)
    }

    /// How the sliding layers come to a cached prefix.
    pub open spec fn prefix_state<H: Fn(&[u32], u64, &[u64]) -> u64>(
        self,
        hash: H,
        tokens: Seq<u32>,
        cached_prefix_len: u32,
        continued_live_prefix: bool,
    ) -> SlidingPrefixState {
        if cached_prefix_len == 0 {
            SlidingPrefixState::Fresh
        } else if continued_live_prefix && self.live_at(cached_prefix_len) {
            SlidingPrefixState::Live
        } else if self.cached_token_history@.len() == cached_prefix_len
            && self.cached_token_history@.is_prefix_of(tokens) && self.live_at(cached_prefix_len) {
            SlidingPrefixState::LastHistory
        } else if self.history_serves(tokens, cached_prefix_len) {
            SlidingPrefixState::LastHistoryCheckpoint
        } else {
            match self.found_checkpoint(hash, tokens, cached_prefix_len) {
                Some(c) => if c.prefix_len == cached_prefix_len {
                    SlidingPrefixState::PrefixCheckpoint
                } else {
                    SlidingPrefixState::PartialPrefixCheckpoint
                },
                None => SlidingPrefixState::Replay,
            }
        }
    }

    /// The checkpoint that a cached prefix goes on from.
    pub open spec fn found_checkpoint<H: Fn(&[u32], u64, &[u64]) -> u64>(
        self,
        hash: H,
        tokens: Seq<u32>,
        cached_prefix_len: u32,
    ) -> Option<crate::checkpoint_store::CheckpointView> {
        found(
            opt_view(self.sliding_prompt_boundary_checkpoint),
            views(self.sliding_prefix_checkpoints@),
            self.config,
            hash,
            tokens,
            cached_prefix_len,
            self.pool_block_size(),
            0,
        )
    }

    /// How far the sliding layers are primed.
    pub open spec fn primed_len<H: Fn(&[u32], u64, &[u64]) -> u64>(
        self,
        hash: H,
        tokens: Seq<u32>,
        cached_prefix_len: u32,
        continued_live_prefix: bool,
    ) -> u32 {
        match self.prefix_state(hash, tokens, cached_prefix_len, continued_live_prefix) {
            SlidingPrefixState::Fresh | SlidingPrefixState::Replay => 0,
            SlidingPrefixState::PrefixCheckpoint | SlidingPrefixState::PartialPrefixCheckpoint =>
                self.found_checkpoint(hash, tokens, cached_prefix_len)->0.prefix_len,
            _ => cached_prefix_len,
        }
    }

    /// The caches that a turn starts with.
    pub open spec fn primed_caches<H: Fn(&[u32], u64, &[u64]) -> u64>(
        self,
        hash: H,
        tokens: Seq<u32>,
        cached_prefix_len: u32,
        continued_live_prefix: bool,
    ) -> Seq<Gemma4LayerCache> {
        match self.prefix_state(hash, tokens, cached_prefix_len, continued_live_prefix) {
            SlidingPrefixState::Fresh | SlidingPrefixState::Replay => fresh_caches(self.config),
            SlidingPrefixState::Live | SlidingPrefixState::LastHistory => self.caches->0@,
            SlidingPrefixState::LastHistoryCheckpoint => restored(
                self.config,
                self.sliding_last_history_checkpoint->0.snapshots@,
            ),
            _ => restored(
                self.config,
                self.found_checkpoint(hash, tokens, cached_prefix_len)->0.snapshots,
            ),
        }
    }

    /// Brings the sliding layers as close to the end of a cached prefix as
    /// what is live or remembered allows.
    pub fn prepare_gemma4_sliding_prefix_state<H: Fn(&[u32], u64, &[u64]) -> u64>(
        &mut self,
        tokens: &[u32],
        cached_prefix_len: u32,
        continued_live_prefix: bool,
        hash: &H,
    ) -> (r: Gemma4SlidingPrefixPreparation)
        requires
            old(self).wf(),
            total_hash(*hash),
            pure_hash(*hash),
        ensures
            r.state == old(self).prefix_state(
                *hash,
                tokens@,
                cached_prefix_len,
                continued_live_prefix,
            ),
            r.primed_prefix_len == old(self).primed_len(
                *hash,
                tokens@,
                cached_prefix_len,
                continued_live_prefix,
            ),
            *final(self) == (Gemma4Inner { caches: final(self).caches, ..*old(self) }),
            final(self).caches matches Some(c) && c@ == old(self).primed_caches(
                *hash,
                tokens@,
                cached_prefix_len,
                continued_live_prefix,
            ),
    {
        if cached_prefix_len == 0 {
            self.caches = Some(init_caches_for_config(&self.config));
            return Gemma4SlidingPrefixPreparation {
                state: SlidingPrefixState::Fresh,
                primed_prefix_len: 0,
            };
        }
        let live: bool = gemma4_sliding_caches_ready_at(
            &self.config,
            &self.caches,
            cached_prefix_len,
        );
        if continued_live_prefix && live {
            return Gemma4SlidingPrefixPreparation {
                state: SlidingPrefixState::Live,
                primed_prefix_len: cached_prefix_len,
            };
        }
        if self.cached_token_history.len() == cached_prefix_len as usize && tokens_start_with(
            tokens,
            &self.cached_token_history,
        ) && live {
            return Gemma4SlidingPrefixPreparation {
                state: SlidingPrefixState::LastHistory,
                primed_prefix_len: cached_prefix_len,
            };
        }
        match self.find_gemma4_sliding_history_checkpoint(tokens, cached_prefix_len) {
            Some(caches) => {
                self.caches = Some(caches);
                return Gemma4SlidingPrefixPreparation {
                    state: SlidingPrefixState::LastHistoryCheckpoint,
                    primed_prefix_len: cached_prefix_len,
                };
            },
            None => {},
        }
        let block_size: u32 = self.pool_block();
        match self.find_gemma4_sliding_prefix_checkpoint(
            tokens,
            cached_prefix_len,
            block_size,
            0,
            hash,
        ) {
            Some(hit) => {
                let primed_prefix_len: u32 = hit.prefix_len;
                self.caches = Some(hit.caches);
                let state = if primed_prefix_len == cached_prefix_len {
                    SlidingPrefixState::PrefixCheckpoint
                } else {
                    SlidingPrefixState::PartialPrefixCheckpoint
                };
                Gemma4SlidingPrefixPreparation { state, primed_prefix_len }
            },
            None => {
                self.caches = Some(init_caches_for_config(&self.config));
                Gemma4SlidingPrefixPreparation {
                    state: SlidingPrefixState::Replay,
                    primed_prefix_len: 0,
                }
            },
        }
    }
}

/// However the sliding layers come to a cached prefix, all of them are then at
/// the reported length, which is no longer than the prefix.
pub proof fn law_primed_caches_are_ready<H: Fn(&[u32], u64, &[u64]) -> u64>(
    inner: Gemma4Inner,
    hash: H,
    tokens: Seq<u32>,
    cached_prefix_len: u32,
    continued_live_prefix: bool,
)
    requires
        inner.wf(),
    ensures
        inner.primed_len(hash, tokens, cached_prefix_len, continued_live_prefix)
            <= cached_prefix_len,
        ready_at(
            inner.config,
            inner.primed_caches(hash, tokens, cached_prefix_len, continued_live_prefix),
            inner.primed_len(hash, tokens, cached_prefix_len, continued_live_prefix),
        ),
{
    let c = inner.config;
    match inner.prefix_state(hash, tokens, cached_prefix_len, continued_live_prefix) {
        SlidingPrefixState::PrefixCheckpoint | SlidingPrefixState::PartialPrefixCheckpoint => {
            let f = inner.found_checkpoint(hash, tokens, cached_prefix_len)->0;
            crate::checkpoint_store::law_found_serves(
                opt_view(inner.sliding_prompt_boundary_checkpoint),
                views(inner.sliding_prefix_checkpoints@),
                c,
                hash,
                tokens,
                cached_prefix_len,
                inner.pool_block_size(),
                0,
            );
            lemma_restored_ready(c, f.snapshots, f.prefix_len);
        },
        SlidingPrefixState::LastHistoryCheckpoint => {
            lemma_restored_ready(
                c,
                inner.sliding_last_history_checkpoint->0.snapshots@,
                cached_prefix_len,
            );
        },
        _ => {},
    }
}

proof fn lemma_restored_ready(
    c: Gemma4Config,
    snapshots: Seq<Option<crate::checkpoints::RotatingKVCacheSnapshot>>,
    offset: u32,
)
    requires
        c.wf(),
        restorable(c, snapshots, offset),
    ensures
        ready_at(c, restored(c, snapshots), offset),
{
    let caches = restored(c, snapshots);
    assert forall|i: int| 0 <= i < caches.len() && !c.global_at(i) implies (
    #[trigger] caches[i]).slid_to(crate::config::wrap_i32(offset as int)) by {
        assert(snapshots[i] is Some);
    }
}

impl Gemma4Inner {
    /// What the pool is asked for at the start of a turn over `tokens`. The
    /// last token is always computed, for its logits; a prompt with media
    /// placeholders is not looked up by content.
    pub fn request_paged_turn(&self, tokens: &[u32], total_budget: u32) -> (r: Result<
        PagedTurnRequest,
        TurnError,
    >)
        ensures
            r == if self.paged is None {
                Err::<PagedTurnRequest, TurnError>(TurnError::NoPagedPool)
            } else {
                Ok::<PagedTurnRequest, TurnError>(
                    PagedTurnRequest {
                        skip_lookup: tokens@.contains(image_token(self.config)) || tokens@.contains(
                            audio_token(self.config),
                        ),
                        max_cache_hit_tokens: if total_budget == 0 {
                            0u32
                        } else {
                            (total_budget - 1) as u32
                        },
                    },
                )
            },
    {
        if self.paged.is_none() {
            return Err(TurnError::NoPagedPool);
        }
        let skip_lookup: bool = prompt_holds_media_placeholders(
            tokens,
            image_token_of(&self.config),
            audio_token_of(&self.config),
        );
        Ok(
            PagedTurnRequest {
                skip_lookup,
                max_cache_hit_tokens: total_budget.saturating_sub(1),
            },
        )
    }

    /// The limit that the replay of a cached prefix exceeds, if any.
    pub open spec fn replay_suppressed(self, cached_prefix_len: u32, primed_len: u32) -> Option<
        Gemma4SlidingRestoreSuppression,
    > {
        if primed_len < cached_prefix_len {
            restore_suppression(
                self.config.sliding_window as int,
                self.pool_block_size() as int,
                self.settings.restore_limit,
                (cached_prefix_len - primed_len) as u32,
            )
        } else {
            None
        }
    }

    /// Goes on with a paged turn after the pool has answered: primes the
    /// sliding layers, and gives the cached prefix up where they are too far
    /// behind it.
    pub fn prepare_gemma4_paged_turn<H: Fn(&[u32], u64, &[u64]) -> u64>(
        &mut self,
        tokens: &[u32],
        total_budget: u32,
        lookup: PagedLookup,
        hash: &H,
    ) -> (r: Result<PagedTurnStep, TurnError>)
        requires
            old(self).wf(),
            total_hash(*hash),
            pure_hash(*hash),
        ensures
            *final(self) == (Gemma4Inner { caches: final(self).caches, ..*old(self) }),
            final(self).caches matches Some(c) && c@ == old(self).primed_caches(
                *hash,
                tokens@,
                lookup.cached_prefix_len,
                lookup.continued_live_prefix,
            ),
            ({
                let primed = old(self).primed_len(
                    *hash,
                    tokens@,
                    lookup.cached_prefix_len,
                    lookup.continued_live_prefix,
                );
                match old(self).replay_suppressed(lookup.cached_prefix_len, primed) {
                    Some(s) => r == Ok::<PagedTurnStep, TurnError>(PagedTurnStep::RestartPool(s)),
                    None => if lookup.cached_prefix_len > total_budget {
                        r == Err::<PagedTurnStep, TurnError>(
                            TurnError::CachedPrefixTooLong {
                                cached_prefix_len: lookup.cached_prefix_len,
                                total_budget,
                            },
                        )
                    } else {
                        r == Ok::<PagedTurnStep, TurnError>(
                            PagedTurnStep::Ready(
                                Gemma4PagedTurnPreparation {
                                    cached_prefix_len: lookup.cached_prefix_len,
                                    suffix_len: (total_budget - lookup.cached_prefix_len) as u32,
                                    sliding_primed_prefix_len: primed,
                                },
                            ),
                        )
                    },
                }
            }),
    {
        let cached: u32 = lookup.cached_prefix_len;
        let preparation: Gemma4SlidingPrefixPreparation = self.prepare_gemma4_sliding_prefix_state(
            tokens,
            cached,
            lookup.continued_live_prefix,
            hash,
        );
        if preparation.primed_prefix_len < cached {
            let block_size: u32 = self.pool_block();
            match gemma4_large_sliding_restore_suppression_limit_for_override(
                &self.config,
                block_size,
                self.settings.restore_limit,
                cached - preparation.primed_prefix_len,
            ) {
                Some(suppression) => {
                    return Ok(PagedTurnStep::RestartPool(suppression));
                },
                None => {},
            }
        }
        if cached > total_budget {
            return Err(
                TurnError::CachedPrefixTooLong { cached_prefix_len: cached, total_budget },
            );
        }
        Ok(
            PagedTurnStep::Ready(
                Gemma4PagedTurnPreparation {
                    cached_prefix_len: cached,
                    suffix_len: total_budget - cached,
                    sliding_primed_prefix_len: preparation.primed_prefix_len,
                },
            ),
        )
    }

    /// Starts a paged turn cold, after the pool has started over.
    pub fn restart_paged_turn(&mut self, total_budget: u32) -> (r: Gemma4PagedTurnPreparation)
        requires
            old(self).wf(),
        ensures
            *final(self) == (Gemma4Inner { caches: final(self).caches, ..*old(self) }),
            final(self).caches matches Some(c) && c@ == fresh_caches(old(self).config),
            r == (Gemma4PagedTurnPreparation {
                cached_prefix_len: 0,
                suffix_len: total_budget,
                sliding_primed_prefix_len: 0,
            }),
    {
        self.caches = Some(init_caches_for_config(&self.config));
        Gemma4PagedTurnPreparation {
            cached_prefix_len: 0,
            suffix_len: total_budget,
            sliding_primed_prefix_len: 0,
        }
    }

    /// The part of a prompt that the flat caches hold: all of the history, or
    /// nothing.
    pub open spec fn reusable_prefix(self, tokens: Seq<u32>, reuse_cache: bool) -> int {
        if reuse_cache && !((self.cached_image_key is Some || self.cached_audio_key is Some)
            && !self.media_session_continuable) && self.caches is Some
            && self.cached_token_history@.is_prefix_of(tokens) {
            self.cached_token_history@.len() as int
        } else {
            0
        }
    }

    /// The part of a prompt that the flat caches hold. Sessions with media are
    /// left out unless a text turn can go on from them.
    pub fn verify_cache_prefix(&self, tokens: &[u32], reuse_cache: bool) -> (r: usize)
        ensures
            r == self.reusable_prefix(tokens@, reuse_cache),
    {
        if !reuse_cache {
            return 0;
        }
        if (self.cached_image_key.is_some() || self.cached_audio_key.is_some())
            && !self.media_session_continuable {
            return 0;
        }
        if self.caches.is_none() {
            return 0;
        }
        if !tokens_start_with(tokens, &self.cached_token_history) {
            return 0;
        }
        self.cached_token_history.len()
    }

    /// Keeps the history of a flat turn. A fresh turn is text only and clears
    /// the media keys.
    pub fn save_cache_state(
        &mut self,
        save_tokens: &[u32],
        generated_tokens: &[u32],
        finish_reason: &str,
        is_delta: bool,
    )
        ensures
            *final(self) == (Gemma4Inner {
                cached_token_history: final(self).cached_token_history,
                cached_image_key: if is_delta {
                    old(self).cached_image_key
                } else {
                    None
                },
                cached_audio_key: if is_delta {
                    old(self).cached_audio_key
                } else {
                    None
                },
                ..*old(self)
            }),
            final(self).cached_token_history@ == saved_history(
                save_tokens@,
                generated_tokens@,
                finish_reason@ == "length"@,
            ),
    {
        let keep_all: bool = str_eq(finish_reason, "length");
        self.cached_token_history = history_of_turn(save_tokens, generated_tokens, keep_all);
        if !is_delta {
            self.cached_image_key = None;
            self.cached_audio_key = None;
        }
    }

    /// Keeps the history of a paged turn and remembers its sliding layers;
    /// forgets both without `reuse_cache`. Tells whether the layers were
    /// remembered. The pool owns the keys and values.
    pub fn save_paged_history(
        &mut self,
        save_tokens: &[u32],
        generated: &[u32],
        keep_all: bool,
        reuse_cache: bool,
    ) -> (stored: bool)
        requires
            old(self).wf(),
        ensures
            *final(self) == (Gemma4Inner {
                cached_token_history: final(self).cached_token_history,
                cached_image_key: None,
                cached_audio_key: None,
                sliding_last_history_checkpoint: final(self).sliding_last_history_checkpoint,
                ..*old(self)
            }),
            final(self).cached_token_history@ == if reuse_cache {
                saved_history(save_tokens@, generated@, keep_all)
            } else {
                Seq::empty()
            },
            stored == (reuse_cache && old(self).at_history(final(self).cached_token_history@)),
            match final(self).sliding_last_history_checkpoint {
                None => !stored,
                Some(h) => stored && h.tokens@ == final(self).cached_token_history@
                    && h.snapshots@ == layer_snapshots(old(self).config, old(self).caches->0@),
            },
    {
        self.cached_image_key = None;
        self.cached_audio_key = None;
        if reuse_cache {
            let history = history_of_turn(save_tokens, generated, keep_all);
            let stored: bool = self.remember_gemma4_sliding_history_checkpoint(&history);
            self.cached_token_history = history;
            stored
        } else {
            self.cached_token_history = Vec::new();
            self.sliding_last_history_checkpoint = None;
            false
        }
    }

    /// Tokens that the pool has recorded beyond the history to be saved.
    pub open spec fn request_surplus(
        self,
        request_len: int,
        prompt_len: int,
        generated: int,
        keep_all: bool,
    ) -> int {
        let kept = if keep_all || generated == 0 {
            generated
        } else {
            generated - 1
        };
        if self.paged is Some && request_len > prompt_len + kept {
            request_len - (prompt_len + kept)
        } else {
            0
        }
    }

    /// Tokens that the pool has recorded beyond the history to be saved, to be
    /// rolled back; none without a pool.
    pub fn paged_request_surplus(
        &self,
        request_len: usize,
        prompt_len: usize,
        generated: &[u32],
        keep_all: bool,
    ) -> (r: usize)
        requires
            prompt_len + generated@.len() <= usize::MAX,
        ensures
            r == self.request_surplus(
                request_len as int,
                prompt_len as int,
                generated@.len() as int,
                keep_all,
            ),
    {
        if self.paged.is_none() {
            return 0;
        }
        let kept: usize = if keep_all || generated.len() == 0 {
            generated.len()
        } else {
            generated.len() - 1
        };
        request_len.saturating_sub(prompt_len + kept)
    }

    /// What the pool does at the end of a text turn that went well.
    pub fn finalize_paged_turn(&self, reuse_cache: bool) -> (r: PoolTeardown)
        ensures
            r == if self.paged is None {
                PoolTeardown::Nothing
            } else if reuse_cache {
                PoolTeardown::KeepLive
            } else {
                PoolTeardown::RegisterAndRelease
            },
    {
        if self.paged.is_none() {
            PoolTeardown::Nothing
        } else if reuse_cache {
            PoolTeardown::KeepLive
        } else {
            PoolTeardown::RegisterAndRelease
        }
    }

    /// What the pool does at the end of a turn that failed: a partial request
    /// is not kept.
    pub fn abort_paged_turn(&self) -> (r: PoolTeardown)
        ensures
            r == if self.paged is None {
                PoolTeardown::Nothing
            } else {
                PoolTeardown::Release
            },
    {
        if self.paged.is_none() {
            PoolTeardown::Nothing
        } else {
            PoolTeardown::Release
        }
    }

    /// Whether a text turn may be able to go on from this media turn.
    pub fn gemma4_media_continuable(&self, expanded_tokens: &[u32]) -> (r: bool)
        ensures
            r == (expanded_tokens@.contains(image_token(self.config)) || expanded_tokens@.contains(
                audio_token(self.config),
            )),
    {
        prompt_holds_media_placeholders(
            expanded_tokens,
            image_token_of(&self.config),
            audio_token_of(&self.config),
        )
    }

    /// The generated token that a media turn must still run before it ends:
    /// one cut off by its length never ran its last token, and the next turn
    /// goes on behind it.
    pub fn vision_turn_pending_token(
        &self,
        generated_tokens: &[u32],
        finish_reason: &str,
        media_continuable: bool,
        reuse_cache: bool,
    ) -> (r: Option<u32>)
        ensures
            r == if reuse_cache && media_continuable && finish_reason@ == "length"@
                && generated_tokens@.len() > 0 {
                Some(generated_tokens@.last())
            } else {
                None
            },
    {
        if reuse_cache && media_continuable && generated_tokens.len() > 0 && str_eq(
            finish_reason,
            "length",
        ) {
            Some(generated_tokens[generated_tokens.len() - 1])
        } else {
            None
        }
    }

    /// Ends a media turn: keeps its history and media keys, and arms the next
    /// text turn where the pool keeps the request live and the sliding layers
    /// are remembered. `kept_live` and `live_for_continue` are the pool's
    /// answers to the request to keep it, which is made where `reuse_cache`
    /// and `media_continuable` hold. Returns what the pool does then.
    pub fn finalize_vision_turn_media_state(
        &mut self,
        expanded_tokens: &[u32],
        generated_tokens: &[u32],
        finish_reason: &str,
        new_image_key: Option<u64>,
        new_audio_key: Option<u64>,
        media_continuable: bool,
        reuse_cache: bool,
        kept_live: bool,
        live_for_continue: bool,
    ) -> (r: PoolTeardown)
        requires
            old(self).wf(),
        ensures
            ({
                let history = saved_history(
                    expanded_tokens@,
                    generated_tokens@,
                    finish_reason@ == "length"@,
                );
                let kept = reuse_cache && media_continuable && old(self).paged is Some && kept_live;
                let stored = kept && old(self).at_history(history);
                &&& *final(self) == (Gemma4Inner {
                    cached_token_history: final(self).cached_token_history,
                    cached_image_key: new_image_key,
                    cached_audio_key: new_audio_key,
                    sliding_last_history_checkpoint: final(self).sliding_last_history_checkpoint,
                    media_session_continuable: stored && live_for_continue,
                    ..*old(self)
                })
                &&& final(self).cached_token_history@ == history
                &&& !kept ==> final(self).sliding_last_history_checkpoint == old(self).sliding_last_history_checkpoint
                &&& kept ==> match final(self).sliding_last_history_checkpoint {
                    None => !stored,
                    Some(h) => stored && h.tokens@ == history && h.snapshots@ == layer_snapshots(
                        old(self).config,
                        old(self).caches->0@,
                    ),
                }
                &&& r == if stored && live_for_continue {
                    PoolTeardown::KeepLive
                } else if old(self).paged is Some {
                    PoolTeardown::Release
                } else {
                    PoolTeardown::Nothing
                }
            }),
    {
        let keep_all: bool = str_eq(finish_reason, "length");
        let history = history_of_turn(expanded_tokens, generated_tokens, keep_all);
        self.cached_image_key = new_image_key;
        self.cached_audio_key = new_audio_key;
        let kept: bool = reuse_cache && media_continuable && self.paged.is_some() && kept_live;
        let stored: bool = if kept {
            self.remember_gemma4_sliding_history_checkpoint(&history)
        } else {
            false
        };
        self.cached_token_history = history;
        self.media_session_continuable = stored && live_for_continue;
        if self.media_session_continuable {
            PoolTeardown::KeepLive
        } else if self.paged.is_some() {
            PoolTeardown::Release
        } else {
            PoolTeardown::Nothing
        }
    }

    /// What a text turn is answered on a session with media; none where it may
    /// go on. `live` tells whether the pool still holds the request.
    pub open spec fn delta_refusal(self, entry_fn: Seq<char>, live: bool) -> Option<Seq<char>> {
        let image = IMAGE_CHANGE_RESTART_PREFIX@ + entry_fn
            + " is text-only; session currently holds image state"@;
        let audio = IMAGE_CHANGE_RESTART_PREFIX@ + entry_fn
            + " is text-only; session currently holds audio state"@;
        if self.media_session_continuable {
            if self.paged is Some && live {
                None
            } else if self.cached_audio_key is Some {
                Some(audio)
            } else {
                Some(image)
            }
        } else if self.cached_image_key is Some {
            Some(image)
        } else if self.cached_audio_key is Some {
            Some(audio)
        } else {
            None
        }
    }

    /// What a text turn is answered on a session with media.
    pub fn text_delta_image_guard(&self, entry_fn: &str, live: bool) -> (r: Option<String>)
        ensures
            match r {
                Some(m) => self.delta_refusal(entry_fn@, live) == Some(m@),
                None => self.delta_refusal(entry_fn@, live) is None,
            },
    {
        let audio: bool = if self.media_session_continuable {
            if self.paged.is_some() && live {
                return None;
            }
            self.cached_audio_key.is_some()
        } else if self.cached_image_key.is_some() {
            false
        } else if self.cached_audio_key.is_some() {
            true
        } else {
            return None;
        };
        let state: &str = if audio {
            " is text-only; session currently holds audio state"
        } else {
            " is text-only; session currently holds image state"
        };
        Some(cat3(IMAGE_CHANGE_RESTART_PREFIX, entry_fn, state))
    }

    /// Whether a session is live: a history and its caches.
    pub fn has_live_session(&self) -> (r: bool)
        ensures
            r == (self.cached_token_history@.len() > 0 && self.caches is Some),
    {
        self.cached_token_history.len() > 0 && self.caches.is_some()
    }

    /// Whether the session holds images.
    pub fn session_holds_images(&self) -> (r: bool)
        ensures
            r == (self.cached_image_key is Some),
    {
        self.cached_image_key.is_some()
    }

    /// Whether the model takes audio.
    pub fn supports_audio(&self) -> (r: bool)
        ensures
            r == self.config.has_audio,
    {
        self.config.has_audio
    }

    /// Whether the cache is paged.
    pub fn has_paged_adapter(&self) -> (r: bool)
        ensures
            r == (self.paged is Some),
    {
        self.paged.is_some()
    }

    /// The tokens that end a turn besides the turn terminator.
    pub fn extra_eos_ids(&self) -> (r: Vec<u32>)
        ensures
            r@ == usable_ids(self.config.eos_token_ids@),
    {
        let ids = &self.config.eos_token_ids;
        let mut out: Vec<u32> = Vec::new();
        let mut i: usize = 0;
        assert(ids@.take(0) =~= Seq::<i32>::empty());
        while i < ids.len()
            invariant
                i <= ids@.len(),
                out@ == usable_ids(ids@.take(i as int)),
            decreases ids@.len() - i,
        {
            assert(ids@.take(i + 1).drop_last() =~= ids@.take(i as int));
            if ids[i] >= 0 {
                out.push(ids[i] as u32);
            }
            i += 1;
        }
        assert(ids@.take(ids@.len() as int) =~= ids@);
        out
    }

    /// Whether a turn is decoded with the draft model: where it is asked for,
    /// one is loaded, the cache is flat and there is no media.
    pub fn takes_draft_turn(&self, enable_mtp: bool, has_images: bool, has_audio: bool) -> (r: bool)
        ensures
            r == (enable_mtp && self.draft_block_size is Some && self.paged is None && !has_images
                && !has_audio),
    {
        enable_mtp && self.draft_block_size.is_some() && self.paged.is_none() && !has_images
            && !has_audio
    }

    /// Draft tokens of one cycle, where a draft is loaded: as many as its block
    /// holds, or as many as asked for within it.
    pub open spec fn depth_of(self, requested: Option<i32>) -> Option<usize> {
        match (self.draft_block_size, requested) {
            (None, _) => None,
            (Some(b), None) => Some(b),
            (Some(b), Some(d)) => Some(
                if d < 1 {
                    if 1 < b {
                        1usize
                    } else {
                        b
                    }
                } else if d < b {
                    d as usize
                } else {
                    b
                },
            ),
        }
    }

    /// Draft tokens of one step: a block, or what is asked for within 1 and a
    /// block. None without a draft model.
    pub fn draft_depth(&self, requested: Option<i32>) -> (r: Option<usize>)
        ensures
            r == self.depth_of(requested),
    {
        match self.draft_block_size {
            None => None,
            Some(block) => match requested {
                None => Some(block),
                Some(d) => {
                    let wanted: usize = if d < 1 {
                        1
                    } else {
                        d as usize
                    };
                    Some(
                        if wanted < block {
                            wanted
                        } else {
                            block
                        },
                    )
                },
            },
        }
    }

    /// Refuses an image turn on a flat cache.
    pub fn check_vision_turn(&self) -> (r: Result<(), TurnError>)
        ensures
            r == if self.paged is None {
                Err::<(), TurnError>(TurnError::VisionNeedsPagedPool)
            } else {
                Ok::<(), TurnError>(())
            },
    {
        if self.paged.is_none() {
            Err(TurnError::VisionNeedsPagedPool)
        } else {
            Ok(())
        }
    }
}

/// The turn terminator, from what the tokenizer makes of its text: exactly one
/// token.
pub fn turn_end_id(ids: &Vec<u32>) -> (r: Result<u32, TurnError>)
    ensures
        r == if ids@.len() == 0 {
            Err::<u32, TurnError>(TurnError::EmptyTurnEnd)
        } else if ids@.len() != 1 {
            Err::<u32, TurnError>(TurnError::LongTurnEnd { tokens: ids@.len() as usize })
        } else {
            Ok::<u32, TurnError>(ids@[0])
        },
{
    if ids.len() == 0 {
        Err(TurnError::EmptyTurnEnd)
    } else if ids.len() != 1 {
        Err(TurnError::LongTurnEnd { tokens: ids.len() })
    } else {
        Ok(ids[0])
    }
}

/// A session with media refuses a text turn, with the answer that asks for a
/// restart, unless its media turn can be continued and the pool still holds its
/// request.
pub proof fn law_media_session_refuses_text(inner: Gemma4Inner, entry_fn: Seq<char>, live: bool)
    requires
        inner.cached_image_key is Some || inner.cached_audio_key is Some
            || inner.media_session_continuable,
        !(inner.media_session_continuable && inner.paged is Some && live),
    ensures
        inner.delta_refusal(entry_fn, live) is Some,
        IMAGE_CHANGE_RESTART_PREFIX@.is_prefix_of(inner.delta_refusal(entry_fn, live)->0),
{
    let answer = inner.delta_refusal(entry_fn, live)->0;
    let n = IMAGE_CHANGE_RESTART_PREFIX@.len() as int;
    assert(answer.subrange(0, n) =~= IMAGE_CHANGE_RESTART_PREFIX@);
}

/// Once its surplus is rolled back, the request of a paged turn is as long as
/// the history that is saved, provided that the turn recorded all of it.
pub proof fn law_reconciled_request_is_history(
    inner: Gemma4Inner,
    request_len: int,
    prompt: Seq<u32>,
    generated: Seq<u32>,
    keep_all: bool,
)
    requires
        inner.paged is Some,
        request_len >= saved_history(prompt, generated, keep_all).len(),
    ensures
        request_len - inner.request_surplus(
            request_len,
            prompt.len() as int,
            generated.len() as int,
            keep_all,
        ) == saved_history(prompt, generated, keep_all).len(),
{
}

/// A saved text turn is a hit for every prompt that goes on from it: the whole
/// history is reused, and only what follows is computed.
pub proof fn law_saved_turn_is_reused(
    before: Gemma4Inner,
    after: Gemma4Inner,
    prompt: Seq<u32>,
    generated: Seq<u32>,
    keep_all: bool,
    rest: Seq<u32>,
)
    requires
        before.caches is Some,
        after.caches == before.caches,
        after.cached_image_key is None,
        after.cached_audio_key is None,
        after.cached_token_history@ == saved_history(prompt, generated, keep_all),
    ensures
        after.reusable_prefix(saved_history(prompt, generated, keep_all) + rest, true)
            == saved_history(prompt, generated, keep_all).len(),
{
    let h = saved_history(prompt, generated, keep_all);
    assert((h + rest).subrange(0, h.len() as int) =~= h);
}

/// A paged turn whose sliding layers were remembered is continued without a
/// replay: a prompt that goes on from its history, with the whole history in
/// the pool, finds the sliding layers primed to its end, whatever the live
/// caches hold by then.
pub proof fn law_remembered_turn_needs_no_replay<H: Fn(&[u32], u64, &[u64]) -> u64>(
    inner: Gemma4Inner,
    hash: H,
    remembered: Seq<Gemma4LayerCache>,
    history: Seq<u32>,
    rest: Seq<u32>,
    continued_live_prefix: bool,
)
    requires
        inner.wf(),
        0 < history.len() <= u32::MAX,
        snapshot_possible(inner.config, remembered, history.len() as u32),
        inner.sliding_last_history_checkpoint matches Some(h) && h.tokens@ == history
            && h.snapshots@ == layer_snapshots(inner.config, remembered),
    ensures
        inner.primed_len(hash, history + rest, history.len() as u32, continued_live_prefix)
            == history.len(),
{
    let n = history.len() as u32;
    let tokens = history + rest;
    assert(tokens.take(n as int) =~= history);
    let snapshots = layer_snapshots(inner.config, remembered);
    assert forall|k: int| 0 <= k < snapshots.len() && !inner.config.global_at(k) implies (
    #[trigger] snapshots[k] matches Some(s) && s.offset == crate::config::wrap_i32(n as int)) by {
        assert(remembered[k].slid_to(crate::config::wrap_i32(n as int)));
        assert(remembered[k].snapshot() is Some);
    }
    assert(restorable(inner.config, snapshots, n));
    assert(inner.history_serves(tokens, n));
}

/// A reset session reuses nothing and refuses no text turn.
pub proof fn law_reset_reuses_nothing(
    inner: Gemma4Inner,
    tokens: Seq<u32>,
    entry_fn: Seq<char>,
    live: bool,
)
    requires
        inner.nothing_remembered(),
    ensures
        inner.reusable_prefix(tokens, true) == 0,
        inner.delta_refusal(entry_fn, live) is None,
{
}

/// A session with media that no text turn can go on from reuses nothing, and
/// refuses every text turn.
pub proof fn law_media_session_is_not_reused(
    inner: Gemma4Inner,
    tokens: Seq<u32>,
    entry_fn: Seq<char>,
    live: bool,
)
    requires
        inner.cached_image_key is Some || inner.cached_audio_key is Some,
        !inner.media_session_continuable,
    ensures
        inner.reusable_prefix(tokens, true) == 0,
        inner.delta_refusal(entry_fn, live) is Some,
{
}

/// A request for a draft model leaves no paged pool: the configuration that
/// comes out of it never asks for one.
pub proof fn law_draft_excludes_paged_pool(c: Gemma4Config, backend_available: bool)
    requires
        c.use_block_paged_cache == Some(false),
    ensures
        !paged_wanted(c, backend_available),
{
}

/// The history of a turn is its prompt and what was generated; the token that ended the
/// turn is left out, unless all are kept.
pub proof fn law_history_of_a_turn(prompt: Seq<u32>, generated: Seq<u32>, token: u32)
    ensures
        saved_history(prompt, generated, true) == prompt + generated,
        saved_history(prompt, generated.push(token), false) == prompt + generated,
        saved_history(prompt, Seq::empty(), false) == prompt,
{
    assert(generated.push(token).drop_last() =~= generated);
    assert(prompt + Seq::<u32>::empty() =~= prompt);
}

/// Ids that can be tokens are taken in order, and negative ones are left out.
pub proof fn law_usable_ids(ids: Seq<i32>, more: Seq<i32>, id: i32)
    ensures
        usable_ids(ids + more) == usable_ids(ids) + usable_ids(more),
        id >= 0 ==> usable_ids(seq![id]) == seq![id as u32],
        id < 0 ==> usable_ids(seq![id]) == Seq::<u32>::empty(),
    decreases more.len(),
{
    let one = seq![id];
    assert(one.drop_last() =~= Seq::<i32>::empty());
    assert(one.last() == id);
    assert(usable_ids(one.drop_last()) =~= Seq::<u32>::empty());
    assert(id >= 0 ==> usable_ids(one) =~= seq![id as u32]);
    if more.len() == 0 {
        assert(ids + more =~= ids);
        assert(usable_ids(ids) + usable_ids(more) =~= usable_ids(ids));
    } else {
        assert((ids + more).drop_last() =~= ids + more.drop_last());
        assert((ids + more).last() == more.last());
        law_usable_ids(ids, more.drop_last(), id);
        assert(usable_ids(ids + more) =~= usable_ids(ids) + usable_ids(more));
    }
}

/// A prompt of which nothing is cached starts from empty caches. Live sliding layers at
/// the end of what is cached are used as they are, where the request is continued or the
/// last history is what is cached; then nothing is replayed.
pub proof fn law_live_layers_are_used<H: Fn(&[u32], u64, &[u64]) -> u64>(
    inner: Gemma4Inner,
    hash: H,
    tokens: Seq<u32>,
    cached: u32,
    continued: bool,
)
    ensures
        cached == 0 ==> inner.primed_len(hash, tokens, cached, continued) == 0
            && inner.primed_caches(hash, tokens, cached, continued) == fresh_caches(inner.config),
        cached > 0 && continued && inner.caches is Some && ready_at(
            inner.config,
            inner.caches->0@,
            cached,
        ) ==> inner.primed_len(hash, tokens, cached, continued) == cached && inner.primed_caches(
            hash,
            tokens,
            cached,
            continued,
        ) == inner.caches->0@,
        cached > 0 && cached <= tokens.len() && inner.caches is Some && ready_at(
            inner.config,
            inner.caches->0@,
            cached,
        ) && inner.cached_token_history@ == tokens.take(cached as int) ==> inner.primed_len(
            hash,
            tokens,
            cached,
            continued,
        ) == cached && inner.primed_caches(hash, tokens, cached, continued) == inner.caches->0@,
{
    if cached <= tokens.len() && inner.cached_token_history@ == tokens.take(cached as int) {
        assert(tokens.subrange(0, cached as int) =~= tokens.take(cached as int));
        assert(inner.cached_token_history@.is_prefix_of(tokens));
    }
}

/// Where no live layer, no remembered history and no checkpoint serves, all that is
/// cached is replayed from empty caches; layers that are elsewhere are not used.
pub proof fn law_nothing_that_serves_is_a_replay<H: Fn(&[u32], u64, &[u64]) -> u64>(
    inner: Gemma4Inner,
    hash: H,
    tokens: Seq<u32>,
    cached: u32,
    continued: bool,
)
    requires
        cached > 0,
        inner.caches is None || !ready_at(inner.config, inner.caches->0@, cached),
        inner.sliding_last_history_checkpoint is None,
        inner.sliding_prompt_boundary_checkpoint is None,
        inner.sliding_prefix_checkpoints@.len() == 0,
    ensures
        inner.primed_len(hash, tokens, cached, continued) == 0,
        inner.primed_caches(hash, tokens, cached, continued) == fresh_caches(inner.config),
        inner.prefix_state(hash, tokens, cached, continued) == SlidingPrefixState::Replay,
{
}

/// Layers that are restored from a checkpoint are those of the longest one that serves,
/// where nothing live and no history does.
pub proof fn law_checkpoint_is_used<H: Fn(&[u32], u64, &[u64]) -> u64>(
    inner: Gemma4Inner,
    hash: H,
    tokens: Seq<u32>,
    cached: u32,
    continued: bool,
)
    requires
        cached > 0,
        inner.caches is None || !ready_at(inner.config, inner.caches->0@, cached),
        inner.sliding_last_history_checkpoint is None,
        inner.found_checkpoint(hash, tokens, cached) is Some,
    ensures
        ({
            let c = inner.found_checkpoint(hash, tokens, cached)->0;
            &&& inner.primed_len(hash, tokens, cached, continued) == c.prefix_len
            &&& inner.primed_caches(hash, tokens, cached, continued) == restored(
                inner.config,
                c.snapshots,
            )
            &&& (inner.prefix_state(hash, tokens, cached, continued)
                == SlidingPrefixState::PrefixCheckpoint <==> c.prefix_len == cached)
        }),
{
}

/// A turn is restarted where what is left to replay is longer than the limit, and never
/// where nothing is left.
pub proof fn law_replay_is_limited(inner: Gemma4Inner, cached: u32, primed: u32, cap: u32)
    ensures
        primed >= cached ==> inner.replay_suppressed(cached, primed) is None,
        primed < cached && inner.settings.restore_limit == Some(
            Gemma4SlidingRestoreLimitOverride::Cap(cap),
        ) ==> (inner.replay_suppressed(cached, primed) is Some <==> cached - primed > cap),
        inner.settings.restore_limit == Some(Gemma4SlidingRestoreLimitOverride::Uncapped)
            ==> inner.replay_suppressed(cached, primed) is None,
{
}

/// A history is reused as a whole or not at all: where reuse is asked for, the caches
/// are live, no media stands in the way and the prompt begins with it.
pub proof fn law_history_is_reused(inner: Gemma4Inner, rest: Seq<u32>, tokens: Seq<u32>)
    ensures
        inner.reusable_prefix(tokens, false) == 0,
        inner.caches is None ==> inner.reusable_prefix(tokens, true) == 0,
        (inner.cached_image_key is Some || inner.cached_audio_key is Some)
            && !inner.media_session_continuable ==> inner.reusable_prefix(tokens, true) == 0,
        inner.caches is Some && inner.cached_image_key is None && inner.cached_audio_key is None
            ==> inner.reusable_prefix(inner.cached_token_history@ + rest, true)
            == inner.cached_token_history@.len(),
        inner.caches is Some && inner.media_session_continuable ==> inner.reusable_prefix(
            inner.cached_token_history@ + rest,
            true,
        ) == inner.cached_token_history@.len(),
        tokens.len() < inner.cached_token_history@.len() ==> inner.reusable_prefix(tokens, true)
            == 0,
        tokens.len() >= inner.cached_token_history@.len() && tokens.take(
            inner.cached_token_history@.len() as int,
        ) != inner.cached_token_history@ ==> inner.reusable_prefix(tokens, true) == 0,
{
    let h = inner.cached_token_history@;
    assert((h + rest).subrange(0, h.len() as int) =~= h);
    if h.is_prefix_of(tokens) {
        assert(tokens.take(h.len() as int) =~= h);
    }
}

/// Without a pool nothing is rolled back; with one, what was recorded beyond the prompt
/// and the tokens that are kept.
pub proof fn law_surplus_of_a_request(
    inner: Gemma4Inner,
    request_len: int,
    prompt_len: int,
    generated: int,
)
    requires
        0 <= prompt_len,
        0 < generated,
    ensures
        inner.paged is None ==> inner.request_surplus(request_len, prompt_len, generated, true) == 0,
        inner.paged is Some && request_len >= prompt_len + generated ==> inner.request_surplus(
            request_len,
            prompt_len,
            generated,
            true,
        ) == request_len - prompt_len - generated,
        inner.paged is Some && request_len >= prompt_len + generated - 1 ==> inner.request_surplus(
            request_len,
            prompt_len,
            generated,
            false,
        ) == request_len - prompt_len - generated + 1,
        request_len <= prompt_len ==> inner.request_surplus(
            request_len,
            prompt_len,
            generated,
            false,
        ) == 0,
{
}

/// What a text turn is answered: nothing on a session of text, nor on media that are
/// still live; else that the session holds images or audio.
pub proof fn law_answer_on_media(inner: Gemma4Inner, entry_fn: Seq<char>, live: bool)
    ensures
        !inner.media_session_continuable && inner.cached_image_key is None
            && inner.cached_audio_key is None ==> inner.delta_refusal(entry_fn, live) is None,
        inner.media_session_continuable && inner.paged is Some && live ==> inner.delta_refusal(
            entry_fn,
            live,
        ) is None,
        !inner.media_session_continuable && inner.cached_image_key is Some ==> inner.delta_refusal(
            entry_fn,
            live,
        ) == Some(
            "IMAGE_CHANGE_REQUIRES_SESSION_RESTART:"@ + entry_fn
                + " is text-only; session currently holds image state"@,
        ),
        !inner.media_session_continuable && inner.cached_image_key is None
            && inner.cached_audio_key is Some ==> inner.delta_refusal(entry_fn, live) == Some(
            "IMAGE_CHANGE_REQUIRES_SESSION_RESTART:"@ + entry_fn
                + " is text-only; session currently holds audio state"@,
        ),
        inner.media_session_continuable && (inner.paged is None || !live)
            && inner.cached_audio_key is Some ==> inner.delta_refusal(entry_fn, live) == Some(
            "IMAGE_CHANGE_REQUIRES_SESSION_RESTART:"@ + entry_fn
                + " is text-only; session currently holds audio state"@,
        ),
        inner.media_session_continuable && (inner.paged is None || !live)
            && inner.cached_audio_key is None ==> inner.delta_refusal(entry_fn, live) == Some(
            "IMAGE_CHANGE_REQUIRES_SESSION_RESTART:"@ + entry_fn
                + " is text-only; session currently holds image state"@,
        ),
{
}

/// A draft proposes a block, or what is asked for, but at least one token and at most a
/// block; without a draft there is no depth.
pub proof fn law_depth_of_a_draft(inner: Gemma4Inner, requested: i32)
    ensures
        inner.draft_block_size is None ==> inner.depth_of(Some(requested)) is None
            && inner.depth_of(None) is None,
        inner.draft_block_size is Some && inner.draft_block_size->0 >= 1 ==> {
            let block = inner.draft_block_size->0;
            &&& inner.depth_of(None) == Some(block)
            &&& 1 <= requested <= block ==> inner.depth_of(Some(requested)) == Some(
                requested as usize,
            )
            &&& requested < 1 ==> inner.depth_of(Some(requested)) == Some(1usize)
            &&& requested > block ==> inner.depth_of(Some(requested)) == Some(block)
        },
{
}

/// The blocks of a session are those of its pool; without one there are none. Layers are
/// live where there are caches at the position.
pub proof fn law_blocks_of_a_session(inner: Gemma4Inner, position: u32)
    ensures
        inner.paged is Some ==> inner.pool_block_size() == inner.paged->0.plan.block_size,
        inner.paged is None ==> inner.pool_block_size() == 0,
        inner.caches is None ==> !inner.live_at(position),
        inner.caches is Some ==> inner.live_at(position) == ready_at(
            inner.config,
            inner.caches->0@,
            position,
        ),
{
}

/// A message of a turn begins with its label, and one about two lengths names the cached one
/// first.
pub proof fn law_messages_of_a_turn(label: Seq<char>, a: u32, b: u32, n: usize)
    ensures
        label.is_prefix_of(TurnError::NoPagedPool.text(label)),
        ": paged_adapter is None while preparing paged turn"@.is_suffix_of(
            TurnError::NoPagedPool.text(label),
        ),
        (label + (": cached_prefix_len "@ + decimal(a as int))).is_prefix_of(
            (TurnError::CachedPrefixTooLong { cached_prefix_len: a, total_budget: b }).text(label),
        ),
        (" exceeds total_budget "@ + decimal(b as int)).is_suffix_of(
            (TurnError::CachedPrefixTooLong { cached_prefix_len: a, total_budget: b }).text(label),
        ),
        ("Tokenizer encoded <turn|> to "@ + decimal(n as int)).is_prefix_of(
            (TurnError::LongTurnEnd { tokens: n }).text(label),
        ),
        " tokens; expected 1"@.is_suffix_of(TurnError::LongTurnEnd { tokens: n }.text(label)),
        TurnError::EmptyTurnEnd.text(label) == "Tokenizer encoded <turn|> to empty id vector"@,
{
    let none = Seq::<char>::empty();
    assert(label + none =~= label);
    law_ends_of_a_text(label, none, ": paged_adapter is None while preparing paged turn"@);
    let first = label + (": cached_prefix_len "@ + decimal(a as int));
    law_ends_of_a_text(first, " exceeds total_budget "@, decimal(b as int));
    assert(TurnError::CachedPrefixTooLong { cached_prefix_len: a, total_budget: b }.text(label)
        =~= first + " exceeds total_budget "@ + decimal(b as int));
    law_ends_of_a_text("Tokenizer encoded <turn|> to "@, decimal(n as int), " tokens; expected 1"@);
}

} // verus!
