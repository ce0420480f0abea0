//! How a prompt is run: what is replayed, in which chunks, and what is
//! remembered on the way.

use vstd::prelude::*;
use vstd::string::*;

use crate::checkpoint_store::views;
use crate::checkpoint_store::CheckpointView;
use crate::checkpoints::pure_hash;
use crate::checkpoints::total_hash;
use crate::chunks::coalesced_onto;
use crate::chunks::gemma4_coalesce_single_token_restore_chunks;
use crate::chunks::gemma4_paged_prefill_body_chunk_plan;
use crate::chunks::gemma4_paged_prefill_body_chunk_plan_with_checkpoint_interval;
use crate::chunks::gemma4_split_body_chunk_plan_at_position;
use crate::chunks::law_coalescing_keeps_tiling;
use crate::chunks::law_plan_exists;
use crate::chunks::law_plan_tiles_body;
use crate::chunks::law_split_keeps_tiling;
use crate::chunks::lemma_tiles_bounds;
use crate::chunks::lemma_tiles_total_len;
use crate::chunks::split_at;
use crate::chunks::tiles;
use crate::chunks::total_len;
use crate::chunks::ChunkLimits;
use crate::chunks::Gemma4PagedPrefillBodyChunk;
use crate::config::Gemma4Config;
use crate::forward::vision_overlay_active;
use crate::limits::checkpoint_interval;
use crate::limits::gemma4_sliding_decode_checkpoint_interval;
use crate::media::audio_token;
use crate::media::audio_token_of;
use crate::media::holds_token;
use crate::media::image_token;
use crate::media::image_token_of;
use crate::session::copy_can_fail;
use crate::session::materialized;
use crate::session::CopyFailed;
use crate::session::Gemma4Inner;
use crate::text::cat;
use crate::text::decimal;
use crate::text::law_ends_of_a_text;
use crate::text::signed_text;
use crate::text::str_eq;
use crate::text::unsigned_text;

verus! {

/// Why a prompt cannot be run.
#[derive(Debug, Clone, Copy, PartialEq, Eq, Structural)]
pub enum PrefillError {
    EmptySuffix,
    PrimedBeyondCached { primed: u32, cached: u32 },
    QueryHeads { num_attention_heads: i32 },
    GlobalHeadDim { head_dim: i32 },
    RestoreQueryHeads { num_attention_heads: i32 },
    RestoreGlobalHeadDim { head_dim: i32 },
    TooManyTokens,
    PositionOverflow,
    EmptyPrompt,
    OverlayWithSharedLayers,
}

/// The message of images seen as a whole by a model with shared layers.
pub const OVERLAY_WITH_SHARED_LAYERS: &'static str = "Gemma4 unified-vision bidirectional overlay is unsupported with KV-shared layers (num_kv_shared_layers > 0): forward_paged_shared does not carry the overlay mask";

impl PrefillError {
    /// The message shown to a caller.
    pub open spec fn text(self) -> Seq<char> {
        match self {
            PrefillError::EmptySuffix => "run_paged_prefill_chunk called with empty suffix"@,
            PrefillError::PrimedBeyondCached { primed, cached } =>
                "Gemma4 paged prefill sliding_primed_prefix_len "@ + decimal(primed as int)
                + " exceeds cached_prefix_len "@ + decimal(cached as int),
            PrefillError::QueryHeads { num_attention_heads } =>
                "Gemma4 paged prefill invalid num_attention_heads="@ + decimal(
                num_attention_heads as int,
            ),
            PrefillError::GlobalHeadDim { head_dim } =>
                "Gemma4 paged prefill invalid global head_dim="@ + decimal(head_dim as int),
            PrefillError::RestoreQueryHeads { num_attention_heads } =>
                "Gemma4 sliding restore invalid num_attention_heads="@ + decimal(
                num_attention_heads as int,
            ),
            PrefillError::RestoreGlobalHeadDim { head_dim } =>
                "Gemma4 sliding restore invalid global head_dim="@ + decimal(head_dim as int),
            PrefillError::TooManyTokens => "Gemma4 paged prefill token count exceeds u32"@,
            PrefillError::PositionOverflow => "Gemma4 paged prefill token position overflow"@,
            PrefillError::EmptyPrompt => "run_paged_vlm_prefill called with empty prompt"@,
            PrefillError::OverlayWithSharedLayers => OVERLAY_WITH_SHARED_LAYERS@,
        }
    }

    /// The message shown to a caller.
    pub fn message(&self) -> (r: String)
        ensures
            r@ == self.text(),
    {
        match *self {
            PrefillError::EmptySuffix => String::from_str(
                "run_paged_prefill_chunk called with empty suffix",
            ),
            PrefillError::PrimedBeyondCached { primed, cached } => {
                let mut out = cat(
                    "Gemma4 paged prefill sliding_primed_prefix_len ",
                    unsigned_text(primed as u64).as_str(),
                );
                out.append(" exceeds cached_prefix_len ");
                out.append(unsigned_text(cached as u64).as_str());
                out
            },
            PrefillError::QueryHeads { num_attention_heads } => cat(
                "Gemma4 paged prefill invalid num_attention_heads=",
                signed_text(num_attention_heads as i64).as_str(),
            ),
            PrefillError::GlobalHeadDim { head_dim } => cat(
                "Gemma4 paged prefill invalid global head_dim=",
                signed_text(head_dim as i64).as_str(),
            ),
            PrefillError::RestoreQueryHeads { num_attention_heads } => cat(
                "Gemma4 sliding restore invalid num_attention_heads=",
                signed_text(num_attention_heads as i64).as_str(),
            ),
            PrefillError::RestoreGlobalHeadDim { head_dim } => cat(
                "Gemma4 sliding restore invalid global head_dim=",
                signed_text(head_dim as i64).as_str(),
            ),
            PrefillError::TooManyTokens => String::from_str(
                "Gemma4 paged prefill token count exceeds u32",
            ),
            PrefillError::PositionOverflow => String::from_str(
                "Gemma4 paged prefill token position overflow",
            ),
            PrefillError::EmptyPrompt => String::from_str(
                "run_paged_vlm_prefill called with empty prompt",
            ),
            PrefillError::OverlayWithSharedLayers => String::from_str(OVERLAY_WITH_SHARED_LAYERS),
        }
    }
}

/// How a paged prompt is run. First the cached tokens that the sliding layers
/// have not seen are replayed; then the new tokens but the last run in chunks;
/// then the last one alone, by the route that decoding takes.
#[derive(Debug)]
pub struct PagedPrefillPlan {
    /// Chunks of the replay; `start` counts from the first replayed token.
    pub replay: Vec<Gemma4PagedPrefillBodyChunk>,
    /// Chunks of the new tokens but the last; `start` counts from the first
    /// new token.
    pub body: Vec<Gemma4PagedPrefillBodyChunk>,
    /// The last block boundary of the prompt, at which no chunk is cut.
    pub prompt_boundary_len: u32,
    /// Position of the last token.
    pub final_position: u32,
}

/// The settings that chunks depend on.
#[derive(Debug, Clone, Copy, PartialEq, Eq, Structural)]
pub struct ChunkSettings {
    pub configured_chunk_size: i32,
    pub paged_attention_enabled: bool,
}

impl Gemma4Inner {
    /// The limits of chunks, with or without checkpoint boundaries.
    pub open spec fn chunk_limits(self, settings: ChunkSettings, at_checkpoints: bool) -> ChunkLimits {
        ChunkLimits {
            configured_chunk_size: settings.configured_chunk_size,
            num_query_heads: self.config.num_attention_heads as u32,
            head_size: self.config.head_dim_of(true) as u32,
            paged_attention_enabled: settings.paged_attention_enabled,
            checkpoint_interval: if at_checkpoints {
                checkpoint_interval(
                    self.config.sliding_window as int,
                    self.pool_block_size() as int,
                ) as u32
            } else {
                0
            },
        }
    }

    /// The last block boundary of a prompt.
    pub open spec fn prompt_boundary(self, full_len: int) -> u32 {
        let block = self.pool_block_size() as int;
        if block == 0 {
            0
        } else {
            (full_len / block * block) as u32
        }
    }

    /// What keeps a paged prompt from being run, if anything.
    pub open spec fn prefill_error(
        self,
        full_len: int,
        suffix_len: int,
        cached: u32,
        primed: u32,
    ) -> Option<PrefillError> {
        let heads = self.config.num_attention_heads;
        let head_dim = self.config.head_dim_of(true);
        if suffix_len == 0 {
            Some(PrefillError::EmptySuffix)
        } else if primed > cached {
            Some(PrefillError::PrimedBeyondCached { primed, cached })
        } else if primed == cached && suffix_len == 1 {
            None
        } else if heads < 0 {
            Some(
                if primed < cached {
                    PrefillError::RestoreQueryHeads { num_attention_heads: heads }
                } else {
                    PrefillError::QueryHeads { num_attention_heads: heads }
                },
            )
        } else if head_dim < 0 {
            Some(
                if primed < cached {
                    PrefillError::RestoreGlobalHeadDim { head_dim }
                } else {
                    PrefillError::GlobalHeadDim { head_dim }
                },
            )
        } else if suffix_len > 1 && full_len > u32::MAX {
            Some(PrefillError::TooManyTokens)
        } else if suffix_len > 1 && cached + suffix_len - 1 > u32::MAX {
            Some(PrefillError::PositionOverflow)
        } else {
            None
        }
    }

    /// Plans how a paged prompt of `full_len` tokens is run of which `cached`
    /// are cached and the sliding layers have seen `primed`.
    pub fn plan_paged_prefill(
        &self,
        full_len: usize,
        suffix_len: usize,
        cached_prefix_len: u32,
        sliding_primed_prefix_len: u32,
        settings: ChunkSettings,
    ) -> (r: Result<PagedPrefillPlan, PrefillError>)
        requires
            self.wf(),
            suffix_len <= u32::MAX,
        ensures
            match self.prefill_error(
                full_len as int,
                suffix_len as int,
                cached_prefix_len,
                sliding_primed_prefix_len,
            ) {
                Some(e) => r == Err::<PagedPrefillPlan, PrefillError>(e),
                None => {
                    let replayed = cached_prefix_len - sliding_primed_prefix_len;
                    let body = suffix_len - 1;
                    &&& r matches Ok(plan)
                    &&& plan.replay@ == coalesced_onto(
                        Seq::empty(),
                        self.chunk_limits(settings, false).plan_from(
                            replayed,
                            0,
                            sliding_primed_prefix_len as int,
                        )->0,
                    )
                    &&& tiles(plan.replay@, replayed, 0, sliding_primed_prefix_len as int)
                    &&& plan.body@ == split_at(
                        self.chunk_limits(settings, true).plan_from(
                            body,
                            0,
                            cached_prefix_len as int,
                        )->0,
                        plan.prompt_boundary_len,
                    )
                    &&& tiles(plan.body@, body, 0, cached_prefix_len as int)
                    &&& plan.prompt_boundary_len == if body > 0 {
                        self.prompt_boundary(full_len as int)
                    } else {
                        0
                    }
                    &&& plan.final_position == cached_prefix_len + body
                },
            },
    {
        if suffix_len == 0 {
            return Err(PrefillError::EmptySuffix);
        }
        if sliding_primed_prefix_len > cached_prefix_len {
            return Err(
                PrefillError::PrimedBeyondCached {
                    primed: sliding_primed_prefix_len,
                    cached: cached_prefix_len,
                },
            );
        }
        let mut replay: Vec<Gemma4PagedPrefillBodyChunk> = Vec::new();
        let mut body: Vec<Gemma4PagedPrefillBodyChunk> = Vec::new();
        let mut prompt_boundary_len: u32 = 0;
        let ghost none = Seq::<Gemma4PagedPrefillBodyChunk>::empty();
        let ghost replayed = cached_prefix_len - sliding_primed_prefix_len;
        if sliding_primed_prefix_len < cached_prefix_len {
            replay = match self.plan_replay(
                (cached_prefix_len - sliding_primed_prefix_len) as usize,
                sliding_primed_prefix_len,
                settings,
            ) {
                Ok(chunks) => chunks,
                Err(e) => {
                    return Err(e);
                },
            };
        } else {
            assert(replay@ =~= none);
            assert(coalesced_onto(none, none) == none);
            assert(self.chunk_limits(settings, false).plan_from(
                replayed,
                0,
                sliding_primed_prefix_len as int,
            ) == Some(none));
        }
        let ghost limits = self.chunk_limits(settings, true);
        if suffix_len > 1 {
            let heads: u32 = if self.config.num_attention_heads < 0 {
                return Err(
                    PrefillError::QueryHeads {
                        num_attention_heads: self.config.num_attention_heads,
                    },
                );
            } else {
                self.config.num_attention_heads as u32
            };
            let head_dim: i32 = self.config.effective_head_dim(true);
            if head_dim < 0 {
                return Err(PrefillError::GlobalHeadDim { head_dim });
            }
            if full_len as u64 > u32::MAX as u64 {
                return Err(PrefillError::TooManyTokens);
            }
            let block_size: u32 = match self.paged {
                Some(pool) => pool.plan.block_size,
                None => 0,
            };
            if block_size > 0 {
                let full: u32 = full_len as u32;
                proof {
                    vstd::arithmetic::div_mod::lemma_fundamental_div_mod(
                        full as int,
                        block_size as int,
                    );
                    assert(full / block_size * block_size == block_size * (full / block_size))
                        by (nonlinear_arith);
                }
                prompt_boundary_len = full / block_size * block_size;
            }
            let interval: u32 = gemma4_sliding_decode_checkpoint_interval(&self.config, block_size);
            proof {
                law_plan_exists(limits, suffix_len - 1, 0, cached_prefix_len as int);
            }
            body = match gemma4_paged_prefill_body_chunk_plan_with_checkpoint_interval(
                settings.configured_chunk_size,
                suffix_len - 1,
                cached_prefix_len,
                heads,
                head_dim as u32,
                settings.paged_attention_enabled,
                interval,
            ) {
                Ok(chunks) => chunks,
                Err(_) => {
                    return Err(PrefillError::PositionOverflow);
                },
            };
            proof {
                let b = suffix_len - 1;
                law_plan_tiles_body(limits, b, 0, cached_prefix_len as int);
                assert forall|i: int| 0 <= i < body@.len() implies {
                    let c = #[trigger] body@[i];
                    c.first_position + c.len <= u64::MAX && c.start + c.len <= usize::MAX
                } by {
                    lemma_tiles_bounds(body@, b, 0, cached_prefix_len as int, i);
                }
                law_split_keeps_tiling(
                    body@,
                    prompt_boundary_len,
                    b,
                    0,
                    cached_prefix_len as int,
                );
            }
            gemma4_split_body_chunk_plan_at_position(&mut body, prompt_boundary_len);
        } else {
            assert(body@ =~= none);
            assert(limits.plan_from(0, 0, cached_prefix_len as int) == Some(none));
            assert(split_at(none, 0) == none);
        }
        Ok(
            PagedPrefillPlan {
                replay,
                body,
                prompt_boundary_len,
                final_position: cached_prefix_len + (suffix_len - 1) as u32,
            },
        )
    }

    /// The chunks in which `len` cached tokens from `first_position` on are
    /// replayed. None holds a single token, unless it is all there is.
    pub fn plan_replay(&self, len: usize, first_position: u32, settings: ChunkSettings) -> (r:
        Result<Vec<Gemma4PagedPrefillBodyChunk>, PrefillError>)
        requires
            first_position + len <= u32::MAX,
        ensures
            len == 0 ==> (r matches Ok(chunks) && chunks@ == Seq::<
                Gemma4PagedPrefillBodyChunk,
            >::empty()),
            len > 0 && self.config.num_attention_heads < 0 ==> r == Err::<
                Vec<Gemma4PagedPrefillBodyChunk>,
                PrefillError,
            >(
                PrefillError::RestoreQueryHeads { num_attention_heads: self.config.num_attention_heads },
            ),
            len > 0 && self.config.num_attention_heads >= 0 && self.config.head_dim_of(true) < 0
                ==> r == Err::<Vec<Gemma4PagedPrefillBodyChunk>, PrefillError>(
                PrefillError::RestoreGlobalHeadDim { head_dim: self.config.head_dim_of(true) },
            ),
            len > 0 && self.config.num_attention_heads >= 0 && self.config.head_dim_of(true) >= 0
                ==> (r matches Ok(chunks) && chunks@ == coalesced_onto(
                Seq::empty(),
                self.chunk_limits(settings, false).plan_from(
                    len as int,
                    0,
                    first_position as int,
                )->0,
            ) && tiles(chunks@, len as int, 0, first_position as int)),
    {
        if len == 0 {
            return Ok(Vec::new());
        }
        if self.config.num_attention_heads < 0 {
            return Err(
                PrefillError::RestoreQueryHeads { num_attention_heads: self.config.num_attention_heads },
            );
        }
        let head_dim: i32 = self.config.effective_head_dim(true);
        if head_dim < 0 {
            return Err(PrefillError::RestoreGlobalHeadDim { head_dim });
        }
        let ghost limits = self.chunk_limits(settings, false);
        proof {
            law_plan_exists(limits, len as int, 0, first_position as int);
            law_plan_tiles_body(limits, len as int, 0, first_position as int);
        }
        match gemma4_paged_prefill_body_chunk_plan(
            settings.configured_chunk_size,
            len,
            first_position,
            self.config.num_attention_heads as u32,
            head_dim as u32,
            settings.paged_attention_enabled,
        ) {
            Err(_) => Err(PrefillError::PositionOverflow),
            Ok(chunks) => {
                let mut chunks = chunks;
                proof {
                    lemma_tiles_total_len(chunks@, len as int, 0, first_position as int);
                    law_coalescing_keeps_tiling(chunks@, len as int, 0, first_position as int);
                }
                gemma4_coalesce_single_token_restore_chunks(&mut chunks);
                Ok(chunks)
            },
        }
    }
}

/// A checkpoint was filed, or could not be copied, or was not due.
pub open spec fn filed_if_due<C: Fn(u64) -> Option<u64>>(
    before: Gemma4Inner,
    store: Seq<CheckpointView>,
    due: bool,
    live: Option<CheckpointView>,
    copy: C,
    failed: bool,
) -> bool {
    let old_store = views(before.sliding_prefix_checkpoints@);
    match live {
        Some(c) => if due {
            if failed {
                store == old_store && copy_can_fail(copy, c.snapshots)
            } else {
                exists|m: CheckpointView|
                    materialized(copy, c, m) && store == #[trigger] before.store_after(
                        before.pool_block_size(),
                        m,
                    )
            }
        } else {
            store == old_store && !failed
        },
        None => store == old_store && !failed,
    }
}

impl Gemma4Inner {
    /// Remembers the sliding layers at the end of a replayed prefix.
    pub fn after_replay<H: Fn(&[u32], u64, &[u64]) -> u64>(
        &mut self,
        full_tokens: &[u32],
        cached_prefix_len: u32,
        hash: &H,
    ) -> (stored: bool)
        requires
            old(self).wf(),
            total_hash(*hash),
            pure_hash(*hash),
        ensures
            *final(self) == (Gemma4Inner {
                sliding_prefix_checkpoints: final(self).sliding_prefix_checkpoints,
                ..*old(self)
            }),
            match old(self).live_checkpoint(
                *hash,
                full_tokens@,
                cached_prefix_len,
                old(self).pool_block_size(),
                0,
            ) {
                None => !stored && *final(self) == *old(self),
                Some(c) => stored && views(final(self).sliding_prefix_checkpoints@) == old(self).store_after(old(self).pool_block_size(), c),
            },
    {
        let block_size: u32 = match self.paged {
            Some(pool) => pool.plan.block_size,
            None => 0,
        };
        self.remember_gemma4_sliding_prefix_checkpoint(
            full_tokens,
            cached_prefix_len,
            block_size,
            0,
            hash,
        )
    }

    /// Remembers what is due after a body chunk that ends at `next_position`:
    /// a checkpoint in the store at every checkpoint boundary, and the prompt
    /// checkpoint at the last block boundary of the prompt. `request_tokens`
    /// are those that the pool has recorded.
    pub fn after_body_chunk<H: Fn(&[u32], u64, &[u64]) -> u64, C: Fn(u64) -> Option<u64>>(
        &mut self,
        full_tokens: &[u32],
        request_tokens: &[u32],
        next_position: u32,
        prompt_boundary_len: u32,
        hash: &H,
        copy: &C,
    ) -> (r: Result<(), CopyFailed>)
        requires
            old(self).wf(),
            request_tokens@.len() <= u32::MAX,
            total_hash(*hash),
            pure_hash(*hash),
            forall|a: u64| #[trigger] call_requires(*copy, (a,)),
        ensures
            *final(self) == (Gemma4Inner {
                sliding_prefix_checkpoints: final(self).sliding_prefix_checkpoints,
                sliding_prompt_boundary_checkpoint: final(self).sliding_prompt_boundary_checkpoint,
                ..*old(self)
            }),
            ({
                let n = request_tokens@.len() as u32;
                let due = old(self).decode_checkpoint_due(n);
                let live = old(self).live_checkpoint(
                    *hash,
                    request_tokens@,
                    n,
                    old(self).pool_block_size(),
                    0,
                );
                let store = views(final(self).sliding_prefix_checkpoints@);
                let at_end = next_position == prompt_boundary_len && old(self).prompt_checkpoint_due(prompt_boundary_len);
                let prompt = old(self).live_checkpoint(
                    *hash,
                    full_tokens@,
                    prompt_boundary_len,
                    old(self).pool_block_size(),
                    0,
                );
                match r {
                    Ok(_) => {
                        &&& filed_if_due(*old(self), store, due, live, *copy, false)
                        &&& !at_end ==> final(self).sliding_prompt_boundary_checkpoint == old(self).sliding_prompt_boundary_checkpoint
                        &&& at_end ==> match prompt {
                            None => final(self).sliding_prompt_boundary_checkpoint is None,
                            Some(c) => final(self).sliding_prompt_boundary_checkpoint matches Some(
                                m,
                            ) && materialized(*copy, c, m.view()),
                        }
                    },
                    Err(_) => {
                        &&& final(self).sliding_prompt_boundary_checkpoint == old(self).sliding_prompt_boundary_checkpoint
                        &&& filed_if_due(*old(self), store, due, live, *copy, true) || (
                        filed_if_due(*old(self), store, due, live, *copy, false) && at_end && (
                        prompt matches Some(c) && copy_can_fail(*copy, c.snapshots)))
                    },
                }
            }),
    {
        let first: Result<bool, CopyFailed> =
            self.maybe_remember_gemma4_sliding_decode_boundary_checkpoint(
            request_tokens,
            hash,
            copy,
        );
        match first {
            Err(e) => {
                return Err(e);
            },
            Ok(_) => {},
        }
        if next_position == prompt_boundary_len {
            match self.maybe_remember_gemma4_sliding_prompt_boundary_checkpoint(
                full_tokens,
                prompt_boundary_len,
                hash,
                copy,
            ) {
                Err(e) => Err(e),
                Ok(_) => Ok(()),
            }
        } else {
            Ok(())
        }
    }
}

/// A part of a prompt.
#[derive(Debug, Clone, Copy, PartialEq, Eq, Structural)]
pub struct TokenSpan {
    pub start: usize,
    pub end: usize,
}

/// `len` tokens from `start` on in spans of `size`, the last one shorter.
pub open spec fn spans_from(len: int, size: int, start: int) -> Seq<TokenSpan>
    decreases len - start,
{
    if start >= len || size <= 0 {
        Seq::empty()
    } else if len - start <= size {
        seq![TokenSpan { start: start as usize, end: len as usize }]
    } else {
        seq![TokenSpan { start: start as usize, end: (start + size) as usize }] + spans_from(
            len,
            size,
            start + size,
        )
    }
}

/// `len` tokens in spans of `size`, the last one shorter.
pub fn uniform_spans(len: usize, size: usize) -> (r: Vec<TokenSpan>)
    requires
        size > 0,
    ensures
        r@ == spans_from(len as int, size as int, 0),
{
    let mut out: Vec<TokenSpan> = Vec::new();
    let mut start: usize = 0;
    let ghost whole = spans_from(len as int, size as int, 0);
    assert(out@ + whole =~= whole);
    while start < len
        invariant
            size > 0,
            start <= len,
            whole == spans_from(len as int, size as int, 0),
            out@ + spans_from(len as int, size as int, start as int) == whole,
        decreases len - start,
    {
        let end: usize = if len - start <= size {
            len
        } else {
            start + size
        };
        let ghost before = out@;
        let span = TokenSpan { start, end };
        out.push(span);
        proof {
            let rest = spans_from(len as int, size as int, end as int);
            assert(before + (seq![span] + rest) =~= out@ + rest);
            assert(seq![span] + Seq::<TokenSpan>::empty() =~= seq![span]);
        }
        start = end;
    }
    assert(out@ + Seq::<TokenSpan>::empty() =~= out@);
    out
}

/// Spans are in a row, cover everything, and none is empty or too long.
pub proof fn law_spans_cover(len: int, size: int, start: int, i: int)
    requires
        0 <= start <= len <= usize::MAX,
        size > 0,
        0 <= i < spans_from(len, size, start).len(),
    ensures
        ({
            let s = spans_from(len, size, start);
            &&& s[0].start == start
            &&& s.last().end == len
            &&& s[i].start < s[i].end
            &&& s[i].end - s[i].start <= size
            &&& i + 1 < s.len() ==> s[i].end == s[i + 1].start
        }),
    decreases len - start,
{
    let s = spans_from(len, size, start);
    if len - start > size {
        let rest = spans_from(len, size, start + size);
        assert(rest.len() > 0);
        assert(s =~= seq![s[0]] + rest);
        law_spans_cover(len, size, start + size, 0);
        if i > 0 {
            law_spans_cover(len, size, start + size, i - 1);
            assert(s[i] == rest[i - 1]);
        }
        assert(s.last() == rest.last());
    }
}

/// The spans of a flat prompt of `total_len` tokens: all but the last token,
/// which the caller runs for its logits, a prefill step at a time.
pub fn flat_prefill_spans(total_len: usize) -> (r: Vec<TokenSpan>)
    ensures
        r@ == spans_from(total_len - 1, 512, 0),
{
    if total_len <= 1 {
        return Vec::new();
    }
    uniform_spans(total_len - 1, 512)
}

/// How a media prompt is run: all tokens but the last in spans, then the last.
#[derive(Debug)]
pub struct VlmPrefillPlan {
    /// Images are seen as a whole.
    pub images: bool,
    pub spans: Vec<TokenSpan>,
}

/// Images of a prompt are seen as a whole.
pub open spec fn overlay_wanted(c: Gemma4Config, tokens: Seq<u32>) -> bool {
    &&& c.is_unified
    &&& c.use_bidirectional_attention matches Some(t) && t@ == "vision"@
    &&& tokens.contains(image_token(c))
    &&& !tokens.contains(audio_token(c))
    &&& tokens.len() > 1
}

/// Plans how a media prompt is run. Where images are seen as a whole, all of it
/// is one span, so that no image is cut; shared layers take no mask, so a model
/// with them refuses.
pub fn plan_vlm_prefill(config: &Gemma4Config, tokens: &[u32], configured_chunk_size: i32) -> (r:
    Result<VlmPrefillPlan, PrefillError>)
    ensures
        if tokens@.len() == 0 {
            r == Err::<VlmPrefillPlan, PrefillError>(PrefillError::EmptyPrompt)
        } else if overlay_wanted(*config, tokens@) && config.shares_kv() {
            r == Err::<VlmPrefillPlan, PrefillError>(PrefillError::OverlayWithSharedLayers)
        } else {
            let body = tokens@.len() - 1;
            let size = if overlay_wanted(*config, tokens@) || configured_chunk_size <= 0 {
                body
            } else {
                configured_chunk_size as int
            };
            r matches Ok(plan) && plan.images == overlay_wanted(*config, tokens@) && plan.spans@
                == spans_from(body, size, 0)
        },
{
    if tokens.len() == 0 {
        return Err(PrefillError::EmptyPrompt);
    }
    let bidirectional: bool = match &config.use_bidirectional_attention {
        Some(t) => str_eq(t.as_str(), "vision"),
        None => false,
    };
    let images: bool = vision_overlay_active(
        config.is_unified,
        bidirectional,
        holds_token(tokens, image_token_of(config)),
        holds_token(tokens, audio_token_of(config)),
        tokens.len(),
    );
    if images && config.has_kv_sharing() {
        return Err(PrefillError::OverlayWithSharedLayers);
    }
    let body: usize = tokens.len() - 1;
    let spans: Vec<TokenSpan> = if body == 0 {
        Vec::new()
    } else if images || configured_chunk_size <= 0 {
        uniform_spans(body, body)
    } else {
        uniform_spans(body, configured_chunk_size as usize)
    };
    Ok(VlmPrefillPlan { images, spans })
}

/// Where images are seen as a whole, the body of the prompt is one span.
pub proof fn law_overlay_is_one_span(tokens_len: int)
    requires
        1 < tokens_len <= usize::MAX,
    ensures
        spans_from(tokens_len - 1, tokens_len - 1, 0) == seq![
            TokenSpan { start: 0, end: (tokens_len - 1) as usize },
        ],
{
}

/// The boundary of a prompt is the end of its last whole block.
pub proof fn law_boundary_of_a_prompt(inner: Gemma4Inner, full_len: int)
    requires
        0 <= full_len <= u32::MAX,
        inner.pool_block_size() > 0,
    ensures
        inner.prompt_boundary(full_len) <= full_len,
        full_len < inner.prompt_boundary(full_len) + inner.pool_block_size(),
        inner.prompt_boundary(full_len) as int % inner.pool_block_size() as int == 0,
{
    let b = inner.pool_block_size() as int;
    let q = full_len / b;
    vstd::arithmetic::div_mod::lemma_fundamental_div_mod(full_len, b);
    vstd::arithmetic::div_mod::lemma_mod_multiples_basic(q, b);
    assert(q * b == b * q) by (nonlinear_arith);
    assert(q * b >= 0) by (nonlinear_arith)
        requires
            q >= 0,
            b > 0,
    ;
}

/// Chunks are limited by the settings, by the query heads of the model and by the head
/// size of its global layers; where checkpoints count, by their interval.
pub proof fn law_limits_of_chunks(inner: Gemma4Inner, settings: ChunkSettings, at_checkpoints: bool)
    requires
        inner.config.num_attention_heads >= 0,
        inner.config.head_dim >= 0,
        inner.config.global_head_dim is Some ==> inner.config.global_head_dim->0 >= 0,
    ensures
        ({
            let l = inner.chunk_limits(settings, at_checkpoints);
            &&& l.configured_chunk_size == settings.configured_chunk_size
            &&& l.paged_attention_enabled == settings.paged_attention_enabled
            &&& l.num_query_heads == inner.config.num_attention_heads
            &&& inner.config.global_head_dim is Some ==> l.head_size
                == inner.config.global_head_dim->0
            &&& inner.config.global_head_dim is None ==> l.head_size == inner.config.head_dim
            &&& !at_checkpoints ==> l.checkpoint_interval == 0
            &&& at_checkpoints && inner.pool_block_size() > 0 ==> l.checkpoint_interval
                == checkpoint_interval(
                inner.config.sliding_window as int,
                inner.pool_block_size() as int,
            )
        }),
{
    if inner.pool_block_size() > 0 {
        crate::limits::law_interval_is_no_longer_than_needed(
            inner.config.sliding_window as int,
            inner.pool_block_size() as int,
        );
        crate::limits::lemma_interval_is_not_negative(
            inner.config.sliding_window as int,
            inner.pool_block_size() as int,
        );
    }
}

/// A prompt is refused where it has no new token, where more is primed than cached,
/// where the model's heads cannot be counted although chunks are planned, and where
/// tokens or positions do not fit; and it is taken otherwise.
pub proof fn law_prompts_that_are_taken(
    inner: Gemma4Inner,
    full_len: int,
    suffix_len: int,
    cached: u32,
    primed: u32,
)
    requires
        0 <= suffix_len <= full_len,
    ensures
        suffix_len == 0 ==> inner.prefill_error(full_len, suffix_len, cached, primed) == Some(
            PrefillError::EmptySuffix,
        ),
        suffix_len > 0 && primed > cached ==> inner.prefill_error(
            full_len,
            suffix_len,
            cached,
            primed,
        ) == Some(PrefillError::PrimedBeyondCached { primed, cached }),
        suffix_len > 0 && primed <= cached && inner.config.num_attention_heads >= 0
            && inner.config.head_dim_of(true) >= 0 && full_len <= u32::MAX && cached + suffix_len
            <= u32::MAX ==> inner.prefill_error(full_len, suffix_len, cached, primed) is None,
        suffix_len == 1 && primed == cached ==> inner.prefill_error(
            full_len,
            suffix_len,
            cached,
            primed,
        ) is None,
        suffix_len > 1 && primed == cached && inner.config.num_attention_heads < 0
            ==> inner.prefill_error(full_len, suffix_len, cached, primed) == Some(
            PrefillError::QueryHeads { num_attention_heads: inner.config.num_attention_heads },
        ),
        suffix_len > 0 && primed < cached && inner.config.num_attention_heads < 0
            ==> inner.prefill_error(full_len, suffix_len, cached, primed) == Some(
            PrefillError::RestoreQueryHeads {
                num_attention_heads: inner.config.num_attention_heads,
            },
        ),
        suffix_len > 1 && primed <= cached && inner.config.num_attention_heads >= 0
            && inner.config.head_dim_of(true) >= 0 && full_len > u32::MAX ==> inner.prefill_error(
            full_len,
            suffix_len,
            cached,
            primed,
        ) == Some(PrefillError::TooManyTokens),
{
}

/// Spans are of full size but for the last, which has what is left.
pub proof fn law_spans_are_of_full_size(len: int, size: int, start: int, i: int)
    requires
        0 <= start <= len <= usize::MAX,
        size > 0,
        0 <= i < spans_from(len, size, start).len() - 1,
    ensures
        spans_from(len, size, start)[i].end - spans_from(len, size, start)[i].start == size,
    decreases len - start,
{
    if len - start > size && i > 0 {
        law_spans_are_of_full_size(len, size, start + size, i - 1);
        assert(spans_from(len, size, start)[i] == spans_from(len, size, start + size)[i - 1]);
    }
}

/// Images are seen as a whole in a prompt of the unified family that asks for it by the
/// word vision, has an image and no audio, and more than one token.
pub proof fn law_prompts_with_whole_images(c: Gemma4Config, tokens: Seq<u32>, i: int, word: String)
    ensures
        !c.is_unified ==> !overlay_wanted(c, tokens),
        c.use_bidirectional_attention is None ==> !overlay_wanted(c, tokens),
        c.use_bidirectional_attention == Some(word) && word@ != "vision"@ ==> !overlay_wanted(
            c,
            tokens,
        ),
        0 <= i < tokens.len() && tokens[i] == audio_token(c) ==> !overlay_wanted(c, tokens),
        (forall|k: int| 0 <= k < tokens.len() ==> tokens[k] != image_token(c)) ==> !overlay_wanted(
            c,
            tokens,
        ),
        c.is_unified && c.use_bidirectional_attention == Some(word) && word@ == "vision"@ && 0 <= i
            < tokens.len() && tokens.len() > 1 && tokens[i] == image_token(c) && (forall|k: int|
            0 <= k < tokens.len() ==> tokens[k] != audio_token(c)) ==> overlay_wanted(c, tokens),
{
}

/// Where no checkpoint is due, or there is nothing to remember, nothing is filed. Where one
/// is due a copy of what is live becomes the newest, and where a copy fails the store stays.
pub proof fn law_what_is_filed_after_a_chunk<C: Fn(u64) -> Option<u64>>(
    before: Gemma4Inner,
    store: Seq<CheckpointView>,
    due: bool,
    live: Option<CheckpointView>,
    copy: C,
    failed: bool,
)
    requires
        filed_if_due(before, store, due, live, copy, failed),
    ensures
        !due || live is None ==> store == views(before.sliding_prefix_checkpoints@) && !failed,
        failed ==> store == views(before.sliding_prefix_checkpoints@) && exists|i: int|
            0 <= i < live->0.snapshots.len() && (#[trigger] live->0.snapshots[i]) is Some
                && call_ensures(copy, (live->0.snapshots[i]->0.arrays,), None::<u64>),
        due && live is Some && !failed ==> {
            &&& store.len() > 0
            &&& store.last().tokens == live->0.tokens
            &&& store.last().prefix_len == live->0.prefix_len
            &&& store.last().block_size == live->0.block_size
            &&& store.last().final_block_hash == live->0.final_block_hash
            &&& store.last().snapshots.len() == live->0.snapshots.len()
        },
{
    if due && live is Some && !failed {
        let m = choose|m: CheckpointView|
            materialized(copy, live->0, m) && store == #[trigger] before.store_after(
                before.pool_block_size(),
                m,
            );
        crate::session::law_filed_checkpoint_is_the_newest(before, before.pool_block_size(), m, 0);
    }
    if failed && due && live is Some {
        let i = choose|i: int|
            0 <= i < live->0.snapshots.len() && (#[trigger] live->0.snapshots[i] matches Some(s)
                && call_ensures(copy, (s.arrays,), None::<u64>));
        assert(live->0.snapshots[i] is Some);
    }
}

/// A message about two lengths names the one that is too long first, and a message about a
/// setting ends with its value.
pub proof fn law_messages_about_a_prompt(a: u32, b: u32, n: i32)
    ensures
        ("Gemma4 paged prefill sliding_primed_prefix_len "@ + decimal(a as int)).is_prefix_of(
            (PrefillError::PrimedBeyondCached { primed: a, cached: b }).text(),
        ),
        (" exceeds cached_prefix_len "@ + decimal(b as int)).is_suffix_of(
            (PrefillError::PrimedBeyondCached { primed: a, cached: b }).text(),
        ),
        (PrefillError::QueryHeads { num_attention_heads: n }).text()
            == "Gemma4 paged prefill invalid num_attention_heads="@ + decimal(n as int),
        (PrefillError::GlobalHeadDim { head_dim: n }).text()
            == "Gemma4 paged prefill invalid global head_dim="@ + decimal(n as int),
        (PrefillError::RestoreQueryHeads { num_attention_heads: n }).text()
            == "Gemma4 sliding restore invalid num_attention_heads="@ + decimal(n as int),
        (PrefillError::RestoreGlobalHeadDim { head_dim: n }).text()
            == "Gemma4 sliding restore invalid global head_dim="@ + decimal(n as int),
        PrefillError::EmptySuffix.text() == "run_paged_prefill_chunk called with empty suffix"@,
        PrefillError::EmptyPrompt.text() == "run_paged_vlm_prefill called with empty prompt"@,
{
    law_ends_of_a_text(
        "Gemma4 paged prefill sliding_primed_prefix_len "@ + decimal(a as int),
        " exceeds cached_prefix_len "@,
        decimal(b as int),
    );
}

} // verus!
