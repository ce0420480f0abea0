//! How a paged prefill body is cut into forward chunks.

use vstd::prelude::*;

use crate::arith::ceil_div;
use crate::arith::div_ceil_u64;
use crate::arith::lemma_ceil_div_bounds;
use crate::arith::lemma_ceil_div_mono;

verus! {

/// Tokens of one chunk when no chunk size is configured.
///
/// A first forward over a very large graph compiles shaders for so long that
/// the device may time out; 512 tokens keep a command buffer short enough.
pub const GEMMA4_PREFILL_STEP_SIZE: i64 = 512;

/// Context positions that one partition of the two-pass attention kernel covers.
pub const GEMMA4_PAGED_ATTENTION_V2_PARTITION_SIZE: u64 = 512;

/// Largest element count of an auxiliary buffer of the two-pass kernel.
pub const GEMMA4_PAGED_ATTENTION_V2_AUX_ELEM_LIMIT: u128 = 2_147_483_647;

/// One forward of a prefill body.
#[derive(Debug, Clone, Copy, PartialEq, Eq, Structural)]
pub struct Gemma4PagedPrefillBodyChunk {
    /// Index of the first token, counted from the start of the body.
    pub start: usize,
    /// Number of tokens.
    pub len: usize,
    /// Context position of the first token.
    pub first_position: u32,
    /// Whether the auxiliary-buffer limit made the chunk shorter.
    pub capped_by_v2_aux_limit: bool,
}

/// Why no chunk plan exists.
#[derive(Debug, Clone, Copy, PartialEq, Eq, Structural)]
pub enum ChunkPlanError {
    /// A chunk would end past the last representable token position.
    PositionOverflow,
}

impl ChunkPlanError {
    /// The message shown to a caller.
    pub fn message(&self) -> (r: &'static str)
        ensures
            r@ == "Gemma4 paged prefill token position overflow"@,
    {
        "Gemma4 paged prefill token position overflow"
    }
}

/// The chunk size that a configured value stands for: itself where positive,
/// the whole body otherwise.
pub open spec fn body_chunk_size(configured: int, body: int) -> int {
    if configured > 0 {
        configured
    } else {
        body
    }
}

/// Chunk size of a body of `body_tokens` tokens.
pub fn gemma4_paged_prefill_body_chunk_size(configured_chunk_size: i32, body_tokens: usize) -> (r:
    usize)
    ensures
        r == body_chunk_size(configured_chunk_size as int, body_tokens as int),
{
    if configured_chunk_size > 0 {
        configured_chunk_size as usize
    } else {
        body_tokens
    }
}

/// Largest chunk that the cache groups must be able to admit.
pub fn gemma4_paged_prefill_group_max_chunk(configured_chunk_size: i32) -> (r: u32)
    ensures
        r == body_chunk_size(configured_chunk_size as int, GEMMA4_PREFILL_STEP_SIZE as int),
{
    if configured_chunk_size > 0 {
        configured_chunk_size as u32
    } else {
        GEMMA4_PREFILL_STEP_SIZE as u32
    }
}

/// Whether the auxiliary buffers of the two-pass kernel stay within their
/// limit for `n` new tokens that start at position `first`.
///
/// A context of one partition needs no buffer. Otherwise the larger of the two
/// buffers holds one head vector per token, head and partition.
pub open spec fn v2_aux_fits(n: int, first: int, heads: int, head_size: int) -> bool {
    &&& n > 0
    &&& heads > 0
    &&& head_size > 0
    &&& (first + n <= GEMMA4_PAGED_ATTENTION_V2_PARTITION_SIZE || aux_elems(
        n,
        first,
        heads,
        head_size,
    ) <= GEMMA4_PAGED_ATTENTION_V2_AUX_ELEM_LIMIT)
}

/// Elements of the larger auxiliary buffer.
pub open spec fn aux_elems(n: int, first: int, heads: int, head_size: int) -> int {
    n * heads * ceil_div(first + n, GEMMA4_PAGED_ATTENTION_V2_PARTITION_SIZE as int) * head_size
}

/// Tells whether the auxiliary buffers fit.
pub fn gemma4_paged_attention_v2_aux_fits(
    num_new_tokens: usize,
    first_position: u32,
    num_query_heads: u32,
    head_size: u32,
) -> (r: bool)
    requires
        first_position + num_new_tokens <= u64::MAX,
    ensures
        r == v2_aux_fits(
            num_new_tokens as int,
            first_position as int,
            num_query_heads as int,
            head_size as int,
        ),
{
    if num_new_tokens == 0 || num_query_heads == 0 || head_size == 0 {
        return false;
    }
    let max_context_len: u64 = first_position as u64 + num_new_tokens as u64;
    if max_context_len <= GEMMA4_PAGED_ATTENTION_V2_PARTITION_SIZE {
        return true;
    }
    let partitions: u64 = div_ceil_u64(max_context_len, GEMMA4_PAGED_ATTENTION_V2_PARTITION_SIZE);
    let ghost n = num_new_tokens as int;
    let ghost h = num_query_heads as int;
    let ghost p = partitions as int;
    let ghost d = head_size as int;
    let limit: u128 = GEMMA4_PAGED_ATTENTION_V2_AUX_ELEM_LIMIT;
    proof {
        assert(n * h <= 0xffff_ffff_ffff_ffff * 0xffff_ffff) by (nonlinear_arith)
            requires
                0 <= n <= 0xffff_ffff_ffff_ffff,
                0 <= h <= 0xffff_ffff,
        ;
        lemma_ceil_div_bounds(max_context_len as int, 512);
    }
    let per_partition: u128 = num_new_tokens as u128 * num_query_heads as u128;
    let exp_sums: Option<u128> = per_partition.checked_mul(partitions as u128);
    proof {
        assert(per_partition * partitions == n * h * p);
        assert(n * h * p >= 1) by (nonlinear_arith)
            requires
                n >= 1,
                h >= 1,
                p >= 1,
        ;
        assert(n * h * p * d >= n * h * p) by (nonlinear_arith)
            requires
                n * h * p >= 1,
                d >= 1,
        ;
    }
    match exp_sums {
        None => false,
        Some(exp_sums_size) => {
            let tmp_out: Option<u128> = exp_sums_size.checked_mul(head_size as u128);
            match tmp_out {
                None => false,
                Some(tmp_out_size) => exp_sums_size <= limit && tmp_out_size <= limit,
            }
        },
    }
}

/// A shorter chunk at the same position fits wherever a longer one does.
pub proof fn law_v2_aux_fits_shorter(m: int, n: int, first: int, heads: int, head_size: int)
    requires
        0 < m <= n,
        first >= 0,
        v2_aux_fits(n, first, heads, head_size),
    ensures
        v2_aux_fits(m, first, heads, head_size),
{
    if first + m > 512 {
        let pm = ceil_div(first + m, 512);
        let pn = ceil_div(first + n, 512);
        lemma_ceil_div_mono(first + m, first + n, 512);
        lemma_ceil_div_bounds(first + m, 512);
        assert(m * heads <= n * heads) by (nonlinear_arith)
            requires
                0 < m <= n,
                heads > 0,
        ;
        assert(m * heads * pm <= n * heads * pn) by (nonlinear_arith)
            requires
                0 <= m * heads <= n * heads,
                0 <= pm <= pn,
        ;
        assert(m * heads * pm * head_size <= n * heads * pn * head_size) by (nonlinear_arith)
            requires
                m * heads * pm <= n * heads * pn,
                head_size > 0,
        ;
    }
}

/// The longest chunk of at most `hi` tokens that fits; 1 where none does.
pub open spec fn largest_fitting(hi: int, first: int, heads: int, head_size: int) -> int
    decreases hi,
{
    if hi <= 1 {
        1
    } else if v2_aux_fits(hi, first, heads, head_size) {
        hi
    } else {
        largest_fitting(hi - 1, first, heads, head_size)
    }
}

proof fn lemma_largest_fitting(lo: int, hi: int, first: int, heads: int, head_size: int)
    requires
        1 <= lo <= hi,
        lo == 1 || v2_aux_fits(lo, first, heads, head_size),
        forall|k: int| lo < k <= hi ==> !v2_aux_fits(k, first, heads, head_size),
    ensures
        largest_fitting(hi, first, heads, head_size) == lo,
    decreases hi,
{
    if hi > lo {
        assert(!v2_aux_fits(hi, first, heads, head_size));
        lemma_largest_fitting(lo, hi - 1, first, heads, head_size);
    }
}

/// Chunk length before the auxiliary-buffer limit.
pub open spec fn base_len(configured: int, remaining: int) -> int {
    let size = body_chunk_size(configured, remaining);
    let short = if size < remaining {
        size
    } else {
        remaining
    };
    if short < 1 {
        1
    } else {
        short
    }
}

/// Whether the limit makes a chunk shorter.
pub open spec fn aux_capped(
    configured: int,
    remaining: int,
    first: int,
    heads: int,
    head_size: int,
    enabled: bool,
) -> bool {
    enabled && !v2_aux_fits(base_len(configured, remaining), first, heads, head_size)
}

/// Chunk length under the auxiliary-buffer limit.
pub open spec fn aux_limited_len(
    configured: int,
    remaining: int,
    first: int,
    heads: int,
    head_size: int,
    enabled: bool,
) -> int {
    let base = base_len(configured, remaining);
    if aux_capped(configured, remaining, first, heads, head_size, enabled) {
        largest_fitting(base - 1, first, heads, head_size)
    } else {
        base
    }
}

/// Length of the next chunk, and whether the auxiliary-buffer limit cut it.
pub fn gemma4_paged_prefill_aux_limited_chunk_size(
    configured_chunk_size: i32,
    remaining_tokens: usize,
    first_position: u32,
    num_query_heads: u32,
    head_size: u32,
    paged_attention_enabled: bool,
) -> (r: (usize, bool))
    requires
        first_position + remaining_tokens < u64::MAX,
    ensures
        r.0 == aux_limited_len(
            configured_chunk_size as int,
            remaining_tokens as int,
            first_position as int,
            num_query_heads as int,
            head_size as int,
            paged_attention_enabled,
        ),
        r.1 == aux_capped(
            configured_chunk_size as int,
            remaining_tokens as int,
            first_position as int,
            num_query_heads as int,
            head_size as int,
            paged_attention_enabled,
        ),
        1 <= r.0,
        remaining_tokens > 0 ==> r.0 <= remaining_tokens,
{
    let size: usize = gemma4_paged_prefill_body_chunk_size(configured_chunk_size, remaining_tokens);
    let short: usize = if size < remaining_tokens {
        size
    } else {
        remaining_tokens
    };
    let base: usize = if short < 1 {
        1
    } else {
        short
    };
    let ghost first = first_position as int;
    let ghost heads = num_query_heads as int;
    let ghost dim = head_size as int;
    if !paged_attention_enabled || gemma4_paged_attention_v2_aux_fits(
        base,
        first_position,
        num_query_heads,
        head_size,
    ) {
        return (base, false);
    }
    let mut lo: usize = 1;
    let mut hi: usize = if base <= 2 {
        1
    } else {
        base - 1
    };
    let top: usize = hi;
    while lo < hi
        invariant
            1 <= lo <= hi <= top <= base,
            first_position + base <= u64::MAX,
            first == first_position,
            heads == num_query_heads,
            dim == head_size,
            lo == 1 || v2_aux_fits(lo as int, first, heads, dim),
            forall|k: int| hi < k <= top ==> !v2_aux_fits(k, first, heads, dim),
        decreases hi - lo,
    {
        let gap: usize = hi - lo;
        let half: usize = gap / 2 + gap % 2;
        let mid: usize = lo + half;
        if gemma4_paged_attention_v2_aux_fits(mid, first_position, num_query_heads, head_size) {
            lo = mid;
        } else {
            proof {
                assert forall|k: int| mid - 1 < k <= top implies !v2_aux_fits(
                    k,
                    first,
                    heads,
                    dim,
                ) by {
                    if v2_aux_fits(k, first, heads, dim) {
                        law_v2_aux_fits_shorter(mid as int, k, first, heads, dim);
                    }
                }
            }
            hi = mid - 1;
        }
    }
    proof {
        lemma_largest_fitting(lo as int, top as int, first, heads, dim);
    }
    (lo, true)
}

/// First multiple of `interval` past `position`.
pub open spec fn next_checkpoint(position: int, interval: int) -> int {
    (position / interval + 1) * interval
}

/// What the length of every chunk of one plan depends on.
#[derive(Debug, Clone, Copy, PartialEq, Eq, Structural)]
pub struct ChunkLimits {
    /// Configured tokens per chunk; the whole body where not positive.
    pub configured_chunk_size: i32,
    /// Query heads of the attention layers.
    pub num_query_heads: u32,
    /// Elements of one head vector.
    pub head_size: u32,
    /// Whether prefill runs the paged attention kernel.
    pub paged_attention_enabled: bool,
    /// Positions between checkpoint boundaries; 0 for none.
    pub checkpoint_interval: u32,
}

impl ChunkLimits {
    /// Whether the auxiliary-buffer limit makes the chunk at `position` shorter.
    pub open spec fn capped(self, remaining: int, position: int) -> bool {
        aux_capped(
            self.configured_chunk_size as int,
            remaining,
            position,
            self.num_query_heads as int,
            self.head_size as int,
            self.paged_attention_enabled,
        )
    }

    /// Length of the chunk at `position` before checkpoint boundaries.
    pub open spec fn limited_len(self, remaining: int, position: int) -> int {
        aux_limited_len(
            self.configured_chunk_size as int,
            remaining,
            position,
            self.num_query_heads as int,
            self.head_size as int,
            self.paged_attention_enabled,
        )
    }

    /// Length of the chunk at `position`: the limited length, cut at the next
    /// checkpoint boundary.
    pub open spec fn step_len(self, remaining: int, position: int) -> int {
        cut_at_checkpoint(
            position,
            self.limited_len(remaining, position),
            self.checkpoint_interval as int,
        )
    }

    /// The chunk at `position`.
    pub open spec fn step(self, body: int, start: int, position: int) -> Gemma4PagedPrefillBodyChunk {
        Gemma4PagedPrefillBodyChunk {
            start: start as usize,
            len: self.step_len(body - start, position) as usize,
            first_position: position as u32,
            capped_by_v2_aux_limit: self.capped(body - start, position),
        }
    }

    /// The plan from `start` on: chunks are taken from the left, each as long
    /// as the limits allow. `None` where a chunk would end past the last
    /// position; the position advances by the chunk length modulo 2^32.
    pub open spec fn plan_from(self, body: int, start: int, position: int) -> Option<
        Seq<Gemma4PagedPrefillBodyChunk>,
    >
        decreases body - start,
    {
        let len = self.step_len(body - start, position);
        let next = position + len % 0x1_0000_0000;
        if start >= body {
            Some(Seq::empty())
        } else if len <= 0 || len > body - start || next > u32::MAX {
            None
        } else {
            match self.plan_from(body, start + len, next) {
                None => None,
                Some(rest) => Some(seq![self.step(body, start, position)] + rest),
            }
        }
    }
}

/// `len` tokens from `position` on, cut at the next checkpoint boundary.
pub open spec fn cut_at_checkpoint(position: int, len: int, interval: int) -> int {
    if interval > 0 && next_checkpoint(position, interval) < position + len {
        next_checkpoint(position, interval) - position
    } else {
        len
    }
}

fn cut_len(position: u32, len: usize, interval: u32) -> (r: usize)
    requires
        position + len <= u64::MAX,
        len >= 1,
    ensures
        r == cut_at_checkpoint(position as int, len as int, interval as int),
        1 <= r <= len,
{
    if interval == 0 {
        return len;
    }
    proof {
        lemma_next_checkpoint(position as int, interval as int);
    }
    let boundary: u64 = (position as u64 / interval as u64 + 1) * interval as u64;
    if boundary < position as u64 + len as u64 {
        (boundary - position as u64) as usize
    } else {
        len
    }
}

proof fn lemma_largest_fitting_range(hi: int, first: int, heads: int, head_size: int)
    ensures
        1 <= largest_fitting(hi, first, heads, head_size),
        hi >= 1 ==> largest_fitting(hi, first, heads, head_size) <= hi,
        largest_fitting(hi, first, heads, head_size) > 1 ==> v2_aux_fits(
            largest_fitting(hi, first, heads, head_size),
            first,
            heads,
            head_size,
        ),
    decreases hi,
{
    if hi > 1 && !v2_aux_fits(hi, first, heads, head_size) {
        lemma_largest_fitting_range(hi - 1, first, heads, head_size);
    }
}

proof fn lemma_next_checkpoint(position: int, interval: int)
    requires
        position >= 0,
        interval > 0,
    ensures
        position < next_checkpoint(position, interval) <= position + interval,
        next_checkpoint(position, interval) % interval == 0,
{
    vstd::arithmetic::div_mod::lemma_fundamental_div_mod(position, interval);
    let q = position / interval;
    assert((q + 1) * interval == interval * q + interval) by (nonlinear_arith);
    assert(0 <= position % interval < interval);
    vstd::arithmetic::div_mod::lemma_mod_multiples_basic(q + 1, interval);
}

proof fn lemma_step_len(limits: ChunkLimits, remaining: int, position: int)
    requires
        remaining > 0,
        position >= 0,
    ensures
        1 <= limits.step_len(remaining, position) <= limits.limited_len(remaining, position)
            <= remaining,
        limits.step_len(remaining, position) > 1 && limits.paged_attention_enabled ==> v2_aux_fits(
            limits.step_len(remaining, position),
            position,
            limits.num_query_heads as int,
            limits.head_size as int,
        ),
        limits.configured_chunk_size > 0 ==> limits.step_len(remaining, position)
            <= limits.configured_chunk_size,
{
    let heads = limits.num_query_heads as int;
    let dim = limits.head_size as int;
    let base = base_len(limits.configured_chunk_size as int, remaining);
    lemma_largest_fitting_range(base - 1, position, heads, dim);
    let interval = limits.checkpoint_interval as int;
    if interval > 0 {
        lemma_next_checkpoint(position, interval);
    }
    let len = limits.step_len(remaining, position);
    let limited = limits.limited_len(remaining, position);
    if len > 1 && limits.paged_attention_enabled {
        law_v2_aux_fits_shorter(len, limited, position, heads, dim);
    }
}

/// The chunk plan of a body, without checkpoint boundaries.
pub fn gemma4_paged_prefill_body_chunk_plan(
    configured_chunk_size: i32,
    body_tokens: usize,
    first_position: u32,
    num_query_heads: u32,
    head_size: u32,
    paged_attention_enabled: bool,
) -> (r: Result<Vec<Gemma4PagedPrefillBodyChunk>, ChunkPlanError>)
    requires
        body_tokens + u32::MAX < u64::MAX,
    ensures
        ({
            let limits = ChunkLimits {
                configured_chunk_size,
                num_query_heads,
                head_size,
                paged_attention_enabled,
                checkpoint_interval: 0,
            };
            match r {
                Ok(chunks) => limits.plan_from(body_tokens as int, 0, first_position as int)
                    == Some(chunks@),
                Err(_) => limits.plan_from(body_tokens as int, 0, first_position as int) is None,
            }
        }),
{
    gemma4_paged_prefill_body_chunk_plan_with_checkpoint_interval(
        configured_chunk_size,
        body_tokens,
        first_position,
        num_query_heads,
        head_size,
        paged_attention_enabled,
        0,
    )
}

/// The chunk plan of a body in which no chunk crosses a multiple of
/// `checkpoint_interval`; 0 sets no boundary.
pub fn gemma4_paged_prefill_body_chunk_plan_with_checkpoint_interval(
    configured_chunk_size: i32,
    body_tokens: usize,
    first_position: u32,
    num_query_heads: u32,
    head_size: u32,
    paged_attention_enabled: bool,
    checkpoint_interval: u32,
) -> (r: Result<Vec<Gemma4PagedPrefillBodyChunk>, ChunkPlanError>)
    requires
        body_tokens + u32::MAX < u64::MAX,
    ensures
        ({
            let limits = ChunkLimits {
                configured_chunk_size,
                num_query_heads,
                head_size,
                paged_attention_enabled,
                checkpoint_interval,
            };
            match r {
                Ok(chunks) => limits.plan_from(body_tokens as int, 0, first_position as int)
                    == Some(chunks@),
                Err(_) => limits.plan_from(body_tokens as int, 0, first_position as int) is None,
            }
        }),
{
    let ghost limits = ChunkLimits {
        configured_chunk_size,
        num_query_heads,
        head_size,
        paged_attention_enabled,
        checkpoint_interval,
    };
    let ghost body = body_tokens as int;
    let ghost whole = limits.plan_from(body, 0, first_position as int);
    let mut chunks: Vec<Gemma4PagedPrefillBodyChunk> = Vec::new();
    let mut start: usize = 0;
    let mut position: u32 = first_position;
    proof {
        if whole is Some {
            assert(chunks@ + whole->0 =~= whole->0);
        }
    }
    while start < body_tokens
        invariant
            start <= body_tokens,
            body_tokens + u32::MAX < u64::MAX,
            body == body_tokens,
            whole == limits.plan_from(body, 0, first_position as int),
            limits == (ChunkLimits {
                configured_chunk_size,
                num_query_heads,
                head_size,
                paged_attention_enabled,
                checkpoint_interval,
            }),
            whole == match limits.plan_from(body, start as int, position as int) {
                None => None,
                Some(rest) => Some(chunks@ + rest),
            },
        decreases body_tokens - start,
    {
        let remaining: usize = body_tokens - start;
        let limited: (usize, bool) = gemma4_paged_prefill_aux_limited_chunk_size(
            configured_chunk_size,
            remaining,
            position,
            num_query_heads,
            head_size,
            paged_attention_enabled,
        );
        let len: usize = cut_len(position, limited.0, checkpoint_interval);
        let chunk = Gemma4PagedPrefillBodyChunk {
            start,
            len,
            first_position: position,
            capped_by_v2_aux_limit: limited.1,
        };
        assert(chunk == limits.step(body, start as int, position as int));
        let advance: u32 = (len as u64 % 0x1_0000_0000u64) as u32;
        match position.checked_add(advance) {
            None => {
                return Err(ChunkPlanError::PositionOverflow);
            },
            Some(next) => {
                proof {
                    let rest = limits.plan_from(body, start + len, next as int);
                    if rest is Some {
                        assert(chunks@ + (seq![chunk] + rest->0) =~= chunks@.push(chunk) + rest->0);
                    }
                }
                chunks.push(chunk);
                start = start + len;
                position = next;
            },
        }
    }
    proof {
        assert(chunks@ + Seq::<Gemma4PagedPrefillBodyChunk>::empty() =~= chunks@);
    }
    Ok(chunks)
}

/// The chunks cover `body` tokens from `start` on without gap or overlap, and
/// their positions follow: every chunk holds a token, begins where the one
/// before it ends, and the last ends at `body`.
pub open spec fn tiles(
    chunks: Seq<Gemma4PagedPrefillBodyChunk>,
    body: int,
    start: int,
    position: int,
) -> bool
    decreases chunks.len(),
{
    if chunks.len() == 0 {
        start == body
    } else {
        &&& chunks[0].start == start
        &&& chunks[0].first_position == position
        &&& chunks[0].len >= 1
        &&& tiles(chunks.skip(1), body, start + chunks[0].len, position + chunks[0].len)
    }
}

/// No chunk exceeds what its limits allow: it fits the auxiliary buffers or
/// holds one token, is no longer than the configured size, and does not cross
/// a checkpoint boundary.
pub open spec fn respects(chunks: Seq<Gemma4PagedPrefillBodyChunk>, limits: ChunkLimits) -> bool {
    forall|i: int| 0 <= i < chunks.len() ==> chunk_respects(#[trigger] chunks[i], limits)
}

/// One chunk stays within its limits.
pub open spec fn chunk_respects(c: Gemma4PagedPrefillBodyChunk, limits: ChunkLimits) -> bool {
    &&& limits.paged_attention_enabled && c.len > 1 ==> v2_aux_fits(
        c.len as int,
        c.first_position as int,
        limits.num_query_heads as int,
        limits.head_size as int,
    )
    &&& limits.configured_chunk_size > 0 ==> c.len <= limits.configured_chunk_size
    &&& limits.checkpoint_interval > 0 ==> c.first_position + c.len <= next_checkpoint(
        c.first_position as int,
        limits.checkpoint_interval as int,
    )
}

/// Where all positions of the body are representable, a plan exists; it covers
/// the body exactly and every chunk stays within its limits.
pub proof fn law_plan_tiles_body(limits: ChunkLimits, body: int, start: int, position: int)
    requires
        0 <= start <= body <= usize::MAX,
        0 <= position,
        position + (body - start) <= u32::MAX,
    ensures
        limits.plan_from(body, start, position) matches Some(chunks) && tiles(
            chunks,
            body,
            start,
            position,
        ) && respects(chunks, limits),
    decreases body - start,
{
    if start < body {
        lemma_step_len(limits, body - start, position);
        let len = limits.step_len(body - start, position);
        if limits.checkpoint_interval > 0 {
            lemma_next_checkpoint(position, limits.checkpoint_interval as int);
        }
        law_plan_tiles_body(limits, body, start + len, position + len);
        let rest = limits.plan_from(body, start + len, position + len)->0;
        let c = limits.step(body, start, position);
        let all = seq![c] + rest;
        assert(all.skip(1) =~= rest);
        assert(chunk_respects(c, limits));
        assert forall|i: int| 0 <= i < all.len() implies chunk_respects(#[trigger] all[i], limits) by {
            if i > 0 {
                assert(all[i] == rest[i - 1]);
            }
        }
    }
}

/// Tokens of all chunks.
pub open spec fn total_len(chunks: Seq<Gemma4PagedPrefillBodyChunk>) -> int
    decreases chunks.len(),
{
    if chunks.len() == 0 {
        0
    } else {
        chunks[0].len + total_len(chunks.skip(1))
    }
}

/// Chunk `a` lengthened by the tokens of the chunk `b` behind it.
pub open spec fn joined(
    a: Gemma4PagedPrefillBodyChunk,
    b: Gemma4PagedPrefillBodyChunk,
) -> Gemma4PagedPrefillBodyChunk {
    Gemma4PagedPrefillBodyChunk {
        start: a.start,
        len: (a.len + b.len) as usize,
        first_position: a.first_position,
        capped_by_v2_aux_limit: a.capped_by_v2_aux_limit || b.capped_by_v2_aux_limit,
    }
}

/// `merged` followed by `rest` without single-token chunks: such a chunk joins
/// the one behind it, or, at the end, the one before it.
pub open spec fn coalesced_onto(
    merged: Seq<Gemma4PagedPrefillBodyChunk>,
    rest: Seq<Gemma4PagedPrefillBodyChunk>,
) -> Seq<Gemma4PagedPrefillBodyChunk>
    decreases rest.len(),
{
    if rest.len() == 0 {
        merged
    } else if rest[0].len == 1 && rest.len() >= 2 {
        coalesced_onto(merged.push(joined(rest[0], rest[1])), rest.skip(2))
    } else if rest[0].len == 1 && merged.len() > 0 {
        coalesced_onto(
            merged.update(merged.len() - 1, joined(merged.last(), rest[0])),
            rest.skip(1),
        )
    } else {
        coalesced_onto(merged.push(rest[0]), rest.skip(1))
    }
}

proof fn lemma_total_len_nonneg(chunks: Seq<Gemma4PagedPrefillBodyChunk>)
    ensures
        total_len(chunks) >= 0,
    decreases chunks.len(),
{
    if chunks.len() > 0 {
        lemma_total_len_nonneg(chunks.skip(1));
    }
}

proof fn lemma_total_len_push(
    chunks: Seq<Gemma4PagedPrefillBodyChunk>,
    c: Gemma4PagedPrefillBodyChunk,
)
    ensures
        total_len(chunks.push(c)) == total_len(chunks) + c.len,
    decreases chunks.len(),
{
    if chunks.len() > 0 {
        assert(chunks.push(c).skip(1) =~= chunks.skip(1).push(c));
        lemma_total_len_push(chunks.skip(1), c);
    } else {
        assert(chunks.push(c).skip(1) =~= Seq::<Gemma4PagedPrefillBodyChunk>::empty());
        reveal_with_fuel(total_len, 2);
    }
}

proof fn lemma_coalesced_onto_long(
    merged: Seq<Gemma4PagedPrefillBodyChunk>,
    rest: Seq<Gemma4PagedPrefillBodyChunk>,
)
    requires
        forall|i: int| 0 <= i < rest.len() ==> (#[trigger] rest[i]).len != 1,
    ensures
        coalesced_onto(merged, rest) == merged + rest,
    decreases rest.len(),
{
    if rest.len() > 0 {
        assert(rest[0].len != 1);
        lemma_coalesced_onto_long(merged.push(rest[0]), rest.skip(1));
        assert(merged.push(rest[0]) + rest.skip(1) =~= merged + rest);
    } else {
        assert(merged + rest =~= merged);
    }
}

/// Joins single-token chunks with a neighbour.
pub fn gemma4_coalesce_single_token_restore_chunks(chunks: &mut Vec<Gemma4PagedPrefillBodyChunk>)
    requires
        total_len(old(chunks)@) <= usize::MAX,
    ensures
        final(chunks)@ == coalesced_onto(Seq::empty(), old(chunks)@),
{
    let ghost all = chunks@;
    let mut long: bool = true;
    let mut i: usize = 0;
    while i < chunks.len()
        invariant
            chunks@ == all,
            i <= chunks.len(),
            long == (forall|k: int| 0 <= k < i ==> (#[trigger] all[k]).len > 1),
        decreases chunks.len() - i,
    {
        if chunks[i].len <= 1 {
            long = false;
        }
        i += 1;
    }
    if chunks.len() < 2 || long {
        proof {
            if long {
                lemma_coalesced_onto_long(Seq::empty(), all);
                assert(Seq::<Gemma4PagedPrefillBodyChunk>::empty() + all =~= all);
            } else {
                let none = Seq::<Gemma4PagedPrefillBodyChunk>::empty();
                assert(all.len() == 1);
                assert(all.skip(1) =~= none);
                assert(none.push(all[0]) =~= all);
                reveal_with_fuel(coalesced_onto, 2);
            }
        }
        return;
    }
    let mut merged: Vec<Gemma4PagedPrefillBodyChunk> = Vec::new();
    let mut idx: usize = 0;
    proof {
        assert(all.skip(0) =~= all);
        assert(total_len(merged@) == 0);
    }
    while idx < chunks.len()
        invariant
            chunks@ == all,
            idx <= chunks.len(),
            total_len(all) <= usize::MAX,
            coalesced_onto(merged@, all.skip(idx as int)) == coalesced_onto(Seq::empty(), all),
            total_len(merged@) + total_len(all.skip(idx as int)) == total_len(all),
        decreases chunks.len() - idx,
    {
        let ghost rest = all.skip(idx as int);
        let chunk: Gemma4PagedPrefillBodyChunk = chunks[idx];
        proof {
            assert(rest[0] == chunk);
            assert(rest.skip(1) =~= all.skip(idx + 1));
            lemma_total_len_nonneg(merged@);
            lemma_total_len_nonneg(rest.skip(1));
        }
        if chunk.len == 1 && idx + 1 < chunks.len() {
            let next: Gemma4PagedPrefillBodyChunk = chunks[idx + 1];
            proof {
                assert(rest[1] == next);
                assert(rest.skip(1).skip(1) =~= all.skip(idx + 2));
                assert(rest.skip(2) =~= all.skip(idx + 2));
                lemma_total_len_nonneg(rest.skip(1).skip(1));
                assert(rest.skip(1)[0] == next);
                lemma_total_len_push(merged@, joined(chunk, next));
            }
            merged.push(
                Gemma4PagedPrefillBodyChunk {
                    start: chunk.start,
                    len: chunk.len + next.len,
                    first_position: chunk.first_position,
                    capped_by_v2_aux_limit: chunk.capped_by_v2_aux_limit
                        || next.capped_by_v2_aux_limit,
                },
            );
            idx += 2;
        } else if chunk.len == 1 && merged.len() > 0 {
            let last: usize = merged.len() - 1;
            let previous: Gemma4PagedPrefillBodyChunk = merged[last];
            proof {
                let front = merged@.drop_last();
                assert(merged@ =~= front.push(previous));
                lemma_total_len_push(front, previous);
                lemma_total_len_nonneg(front);
                lemma_total_len_push(front, joined(previous, chunk));
                assert(merged@.update(last as int, joined(previous, chunk)) =~= front.push(
                    joined(previous, chunk),
                ));
            }
            merged.set(
                last,
                Gemma4PagedPrefillBodyChunk {
                    start: previous.start,
                    len: previous.len + 1,
                    first_position: previous.first_position,
                    capped_by_v2_aux_limit: previous.capped_by_v2_aux_limit
                        || chunk.capped_by_v2_aux_limit,
                },
            );
            idx += 1;
        } else {
            proof {
                lemma_total_len_push(merged@, chunk);
            }
            merged.push(chunk);
            idx += 1;
        }
    }
    *chunks = merged;
}

/// Joining single-token chunks keeps what the chunks cover.
pub proof fn law_coalescing_keeps_tiling(
    chunks: Seq<Gemma4PagedPrefillBodyChunk>,
    body: int,
    start: int,
    position: int,
)
    requires
        tiles(chunks, body, start, position),
        body <= usize::MAX,
    ensures
        tiles(coalesced_onto(Seq::empty(), chunks), body, start, position),
{
    let none = Seq::<Gemma4PagedPrefillBodyChunk>::empty();
    assert(none + chunks =~= chunks);
    lemma_coalesced_tiles(none, chunks, body, start, position);
}

proof fn lemma_tiles_split(
    a: Seq<Gemma4PagedPrefillBodyChunk>,
    b: Seq<Gemma4PagedPrefillBodyChunk>,
    body: int,
    start: int,
    position: int,
)
    ensures
        tiles(a + b, body, start, position) == (tiles(
            a,
            start + total_len(a),
            start,
            position,
        ) && tiles(b, body, start + total_len(a), position + total_len(a))),
    decreases a.len(),
{
    if a.len() == 0 {
        assert(a + b =~= b);
    } else {
        assert((a + b).skip(1) =~= a.skip(1) + b);
        lemma_tiles_split(a.skip(1), b, body, start + a[0].len, position + a[0].len);
    }
}

proof fn lemma_tiles_total(
    a: Seq<Gemma4PagedPrefillBodyChunk>,
    body: int,
    start: int,
    position: int,
)
    requires
        tiles(a, body, start, position),
    ensures
        body == start + total_len(a),
    decreases a.len(),
{
    if a.len() > 0 {
        lemma_tiles_total(a.skip(1), body, start + a[0].len, position + a[0].len);
    }
}

proof fn lemma_coalesced_tiles(
    merged: Seq<Gemma4PagedPrefillBodyChunk>,
    rest: Seq<Gemma4PagedPrefillBodyChunk>,
    body: int,
    start: int,
    position: int,
)
    requires
        tiles(merged + rest, body, start, position),
        body <= usize::MAX,
    ensures
        tiles(coalesced_onto(merged, rest), body, start, position),
    decreases rest.len(),
{
    lemma_tiles_total(merged + rest, body, start, position);
    lemma_tiles_split(merged, rest, body, start, position);
    lemma_total_len_nonneg(merged);
    if rest.len() == 0 {
        assert(merged + rest =~= merged);
    } else if rest[0].len == 1 && rest.len() >= 2 {
        let j = joined(rest[0], rest[1]);
        let tail = rest.skip(2);
        assert(rest.skip(1).skip(1) =~= tail);
        assert(rest.skip(1)[0] == rest[1]);
        lemma_total_len_nonneg(tail);
        let at = start + total_len(merged);
        let pos = position + total_len(merged);
        lemma_tiles_total(rest, body, at, pos);
        reveal_with_fuel(total_len, 3);
        reveal_with_fuel(tiles, 3);
        let second = seq![j] + tail;
        assert(second.skip(1) =~= tail);
        assert(tiles(second, body, at, pos));
        lemma_tiles_split(merged, second, body, start, position);
        assert(merged + second =~= merged.push(j) + tail);
        lemma_coalesced_tiles(merged.push(j), tail, body, start, position);
    } else if rest[0].len == 1 && merged.len() > 0 {
        assert(rest.len() == 1);
        let front = merged.drop_last();
        let last = merged.last();
        let j = joined(last, rest[0]);
        let tail = rest.skip(1);
        assert(merged =~= front + seq![last]);
        assert(tail =~= Seq::<Gemma4PagedPrefillBodyChunk>::empty());
        let two = seq![last] + rest;
        assert(merged + rest =~= front + two);
        lemma_tiles_split(front, two, body, start, position);
        let at = start + total_len(front);
        let pos = position + total_len(front);
        lemma_total_len_nonneg(front);
        assert(two.skip(1) =~= rest);
        reveal_with_fuel(tiles, 3);
        reveal_with_fuel(total_len, 3);
        lemma_tiles_total(two, body, at, pos);
        let one = seq![j] + tail;
        assert(one.skip(1) =~= tail);
        assert(tiles(one, body, at, pos));
        lemma_tiles_split(front, one, body, start, position);
        let updated = merged.update(merged.len() - 1, j);
        assert(updated + tail =~= front + one);
        lemma_coalesced_tiles(updated, tail, body, start, position);
    } else {
        let tail = rest.skip(1);
        assert(merged + rest =~= merged.push(rest[0]) + tail);
        lemma_coalesced_tiles(merged.push(rest[0]), tail, body, start, position);
    }
}

/// After joining, a chunk of one token is left only where it is all there is.
pub proof fn law_coalescing_leaves_no_single_token(
    chunks: Seq<Gemma4PagedPrefillBodyChunk>,
    i: int,
)
    requires
        forall|k: int| 0 <= k < chunks.len() ==> (#[trigger] chunks[k]).len >= 1,
        total_len(chunks) <= usize::MAX,
        chunks.len() >= 2,
        0 <= i < coalesced_onto(Seq::empty(), chunks).len(),
    ensures
        coalesced_onto(Seq::empty(), chunks)[i].len >= 2,
{
    lemma_coalesced_long(Seq::empty(), chunks, i);
}

proof fn lemma_coalesced_long(
    merged: Seq<Gemma4PagedPrefillBodyChunk>,
    rest: Seq<Gemma4PagedPrefillBodyChunk>,
    i: int,
)
    requires
        forall|k: int| 0 <= k < merged.len() ==> (#[trigger] merged[k]).len >= 2,
        forall|k: int| 0 <= k < rest.len() ==> (#[trigger] rest[k]).len >= 1,
        total_len(merged) + total_len(rest) <= usize::MAX,
        merged.len() > 0 || rest.len() != 1,
        0 <= i < coalesced_onto(merged, rest).len(),
    ensures
        coalesced_onto(merged, rest)[i].len >= 2,
    decreases rest.len(),
{
    lemma_total_len_nonneg(merged);
    if rest.len() == 0 {
    } else if rest[0].len == 1 && rest.len() >= 2 {
        let j = joined(rest[0], rest[1]);
        assert(rest.skip(1).skip(1) =~= rest.skip(2));
        assert(rest.skip(1)[0] == rest[1]);
        lemma_total_len_nonneg(rest.skip(2));
        reveal_with_fuel(total_len, 3);
        lemma_total_len_push(merged, j);
        lemma_coalesced_long(merged.push(j), rest.skip(2), i);
    } else if rest[0].len == 1 && merged.len() > 0 {
        let front = merged.drop_last();
        let last = merged.last();
        let j = joined(last, rest[0]);
        assert(merged =~= front.push(last));
        lemma_total_len_push(front, last);
        lemma_total_len_nonneg(front);
        lemma_total_len_nonneg(rest.skip(1));
        lemma_total_len_push(front, j);
        let updated = merged.update(merged.len() - 1, j);
        assert(updated =~= front.push(j));
        lemma_coalesced_long(updated, rest.skip(1), i);
    } else {
        lemma_total_len_push(merged, rest[0]);
        lemma_coalesced_long(merged.push(rest[0]), rest.skip(1), i);
    }
}

/// A plan without single-token chunks stays as it is.
pub proof fn law_coalescing_keeps_longer_chunks(chunks: Seq<Gemma4PagedPrefillBodyChunk>)
    requires
        forall|k: int| 0 <= k < chunks.len() ==> (#[trigger] chunks[k]).len != 1,
    ensures
        coalesced_onto(Seq::empty(), chunks) == chunks,
{
    let none = Seq::<Gemma4PagedPrefillBodyChunk>::empty();
    lemma_coalesced_onto_long(none, chunks);
    assert(none + chunks =~= chunks);
}

/// Joining a second time changes nothing.
pub proof fn law_coalescing_twice_is_coalescing_once(chunks: Seq<Gemma4PagedPrefillBodyChunk>)
    requires
        forall|k: int| 0 <= k < chunks.len() ==> (#[trigger] chunks[k]).len >= 1,
        total_len(chunks) <= usize::MAX,
    ensures
        coalesced_onto(Seq::empty(), coalesced_onto(Seq::empty(), chunks)) == coalesced_onto(
            Seq::empty(),
            chunks,
        ),
{
    let none = Seq::<Gemma4PagedPrefillBodyChunk>::empty();
    let once = coalesced_onto(none, chunks);
    if chunks.len() >= 2 {
        assert forall|k: int| 0 <= k < once.len() implies (#[trigger] once[k]).len != 1 by {
            law_coalescing_leaves_no_single_token(chunks, k);
        }
        law_coalescing_keeps_longer_chunks(once);
    } else if chunks.len() == 1 {
        assert(chunks.skip(1) =~= none);
        assert(none.push(chunks[0]) =~= chunks);
        reveal_with_fuel(coalesced_onto, 2);
    }
}

/// A run of chunks as one chunk: it begins where the run begins, has all of its
/// tokens, and is marked where one of the run is.
pub open spec fn united(run: Seq<Gemma4PagedPrefillBodyChunk>) -> Gemma4PagedPrefillBodyChunk {
    Gemma4PagedPrefillBodyChunk {
        start: run[0].start,
        len: total_len(run) as usize,
        first_position: run[0].first_position,
        capped_by_v2_aux_limit: exists|k: int|
            0 <= k < run.len() && (#[trigger] run[k]).capped_by_v2_aux_limit,
    }
}

/// The new chunks are the runs of the old ones between the cuts, each as one chunk.
pub open spec fn unites(
    old_chunks: Seq<Gemma4PagedPrefillBodyChunk>,
    new_chunks: Seq<Gemma4PagedPrefillBodyChunk>,
    cuts: Seq<int>,
) -> bool {
    &&& cuts.len() == new_chunks.len() + 1
    &&& cuts[0] == 0
    &&& cuts.last() == old_chunks.len()
    &&& forall|j: int|
        0 <= j < new_chunks.len() ==> 0 <= #[trigger] cuts[j] < cuts[j + 1] <= old_chunks.len()
    &&& forall|j: int|
        0 <= j < new_chunks.len() ==> #[trigger] new_chunks[j] == united(
            old_chunks.subrange(cuts[j], cuts[j + 1]),
        )
}

/// Joining unites whole neighbouring chunks, and loses neither tokens nor marks.
pub proof fn law_coalescing_unites_neighbours(chunks: Seq<Gemma4PagedPrefillBodyChunk>)
    requires
        total_len(chunks) <= usize::MAX,
    ensures
        exists|cuts: Seq<int>| unites(chunks, coalesced_onto(Seq::empty(), chunks), cuts),
        total_len(coalesced_onto(Seq::empty(), chunks)) == total_len(chunks),
{
    let none = Seq::<Gemma4PagedPrefillBodyChunk>::empty();
    assert(chunks.take(0) =~= none);
    assert(chunks.skip(0) =~= chunks);
    assert(unites(chunks.take(0), none, seq![0int]));
    let cuts = lemma_coalescing_unites(chunks, 0, none, seq![0int]);
    assert(unites(chunks, coalesced_onto(none, chunks), cuts));
}

proof fn lemma_total_len_concat(
    a: Seq<Gemma4PagedPrefillBodyChunk>,
    b: Seq<Gemma4PagedPrefillBodyChunk>,
)
    ensures
        total_len(a + b) == total_len(a) + total_len(b),
    decreases a.len(),
{
    if a.len() > 0 {
        assert((a + b).skip(1) =~= a.skip(1) + b);
        lemma_total_len_concat(a.skip(1), b);
    } else {
        assert(a + b =~= b);
    }
}

/// A run has no more tokens than the whole.
proof fn lemma_run_fits(chunks: Seq<Gemma4PagedPrefillBodyChunk>, from: int, to: int)
    requires
        0 <= from <= to <= chunks.len(),
    ensures
        0 <= total_len(chunks.subrange(from, to)) <= total_len(chunks),
{
    let a = chunks.take(from);
    let b = chunks.subrange(from, to);
    let c = chunks.skip(to);
    assert(chunks =~= a + b + c);
    lemma_total_len_concat(a + b, c);
    lemma_total_len_concat(a, b);
    lemma_total_len_nonneg(a);
    lemma_total_len_nonneg(b);
    lemma_total_len_nonneg(c);
}

/// A run with one more chunk.
proof fn lemma_united_grows(chunks: Seq<Gemma4PagedPrefillBodyChunk>, from: int, to: int)
    requires
        0 <= from < to < chunks.len(),
        total_len(chunks) <= usize::MAX,
    ensures
        united(chunks.subrange(from, to + 1)) == joined(
            united(chunks.subrange(from, to)),
            chunks[to],
        ),
{
    let run = chunks.subrange(from, to);
    let more = chunks.subrange(from, to + 1);
    assert(more =~= run.push(chunks[to]));
    lemma_total_len_push(run, chunks[to]);
    lemma_run_fits(chunks, from, to);
    lemma_run_fits(chunks, from, to + 1);
    let a = united(run).capped_by_v2_aux_limit;
    let b = united(more).capped_by_v2_aux_limit;
    if a {
        let k = choose|k: int| 0 <= k < run.len() && (#[trigger] run[k]).capped_by_v2_aux_limit;
        assert(more[k] == run[k]);
    }
    if chunks[to].capped_by_v2_aux_limit {
        assert(more[to - from] == chunks[to]);
    }
    if b && !chunks[to].capped_by_v2_aux_limit {
        let k = choose|k: int| 0 <= k < more.len() && (#[trigger] more[k]).capped_by_v2_aux_limit;
        assert(run[k] == more[k]);
    }
}

proof fn lemma_united_alone(chunks: Seq<Gemma4PagedPrefillBodyChunk>, at: int)
    requires
        0 <= at < chunks.len(),
    ensures
        united(chunks.subrange(at, at + 1)) == chunks[at],
{
    let run = chunks.subrange(at, at + 1);
    assert(run[0] == chunks[at]);
    assert(run.skip(1) =~= Seq::<Gemma4PagedPrefillBodyChunk>::empty());
    reveal_with_fuel(total_len, 2);
    if chunks[at].capped_by_v2_aux_limit {
        assert(run[0].capped_by_v2_aux_limit);
    }
}

proof fn lemma_united_total(
    chunks: Seq<Gemma4PagedPrefillBodyChunk>,
    merged: Seq<Gemma4PagedPrefillBodyChunk>,
    cuts: Seq<int>,
)
    requires
        unites(chunks, merged, cuts),
        total_len(chunks) <= usize::MAX,
    ensures
        total_len(merged) == total_len(chunks),
    decreases merged.len(),
{
    if merged.len() > 0 {
        let all = chunks.len() as int;
        let at = cuts[merged.len() - 1];
        let front = chunks.take(at);
        let back = chunks.subrange(at, all);
        assert(chunks.take(all) =~= chunks);
        lemma_unites_drop(chunks, all, merged, cuts);
        assert(chunks =~= front + back);
        lemma_total_len_concat(front, back);
        lemma_total_len_nonneg(front);
        lemma_total_len_nonneg(back);
        lemma_united_total(front, merged.drop_last(), cuts.drop_last());
        assert(merged =~= merged.drop_last().push(merged.last()));
        lemma_total_len_push(merged.drop_last(), merged.last());
    } else {
        assert(chunks =~= Seq::<Gemma4PagedPrefillBodyChunk>::empty());
    }
}

proof fn lemma_cuts_rise(
    chunks: Seq<Gemma4PagedPrefillBodyChunk>,
    merged: Seq<Gemma4PagedPrefillBodyChunk>,
    cuts: Seq<int>,
    a: int,
    b: int,
)
    requires
        unites(chunks, merged, cuts),
        0 <= a <= b <= merged.len(),
    ensures
        cuts[a] <= cuts[b],
    decreases b - a,
{
    if a < b {
        lemma_cuts_rise(chunks, merged, cuts, a, b - 1);
        assert(cuts[b - 1] < cuts[b - 1 + 1]);
    }
}

proof fn lemma_coalescing_unites(
    all: Seq<Gemma4PagedPrefillBodyChunk>,
    n: int,
    merged: Seq<Gemma4PagedPrefillBodyChunk>,
    cuts: Seq<int>,
) -> (c: Seq<int>)
    requires
        total_len(all) <= usize::MAX,
        0 <= n <= all.len(),
        unites(all.take(n), merged, cuts),
    ensures
        unites(all, coalesced_onto(merged, all.skip(n)), c),
        total_len(coalesced_onto(merged, all.skip(n))) == total_len(all),
    decreases all.len() - n,
{
    let rest = all.skip(n);
    if rest.len() == 0 {
        assert(all.take(n) =~= all);
        assert(unites(all, merged, cuts));
        lemma_united_total(all, merged, cuts);
        cuts
    } else if rest[0].len == 1 && rest.len() >= 2 {
        let j = joined(rest[0], rest[1]);
        lemma_united_alone(all, n);
        lemma_united_grows(all, n, n + 1);
        assert(rest.skip(2) =~= all.skip(n + 2));
        lemma_unites_push(all, n, n + 2, merged, cuts);
        lemma_coalescing_unites(all, n + 2, merged.push(j), cuts.push(n + 2))
    } else if rest[0].len == 1 && merged.len() > 0 {
        let m = merged.len() - 1;
        let front = merged.drop_last();
        let less = cuts.drop_last();
        let from = cuts[m];
        assert(rest.skip(1) =~= all.skip(n + 1));
        lemma_unites_drop(all, n, merged, cuts);
        lemma_united_grows(all, from, n);
        let j = joined(merged.last(), rest[0]);
        lemma_unites_push(all, from, n + 1, front, less);
        assert(merged.update(m, j) =~= front.push(j));
        lemma_coalescing_unites(all, n + 1, front.push(j), less.push(n + 1))
    } else {
        lemma_united_alone(all, n);
        assert(rest.skip(1) =~= all.skip(n + 1));
        lemma_unites_push(all, n, n + 1, merged, cuts);
        lemma_coalescing_unites(all, n + 1, merged.push(rest[0]), cuts.push(n + 1))
    }
}

proof fn lemma_unites_drop(
    all: Seq<Gemma4PagedPrefillBodyChunk>,
    n: int,
    merged: Seq<Gemma4PagedPrefillBodyChunk>,
    cuts: Seq<int>,
)
    requires
        0 <= n <= all.len(),
        unites(all.take(n), merged, cuts),
        merged.len() > 0,
    ensures
        0 <= cuts[merged.len() - 1] < n,
        unites(all.take(cuts[merged.len() - 1]), merged.drop_last(), cuts.drop_last()),
        merged.last() == united(all.subrange(cuts[merged.len() - 1], n)),
{
    let m = merged.len() - 1;
    let front = merged.drop_last();
    let less = cuts.drop_last();
    let from = cuts[m];
    assert(0 <= cuts[m] < cuts[m + 1]);
    assert(cuts[m + 1] == n);
    assert forall|i: int| 0 <= i < m implies 0 <= #[trigger] less[i] < less[i + 1] <= from by {
        assert(cuts[i] < cuts[i + 1]);
        lemma_cuts_rise(all.take(n), merged, cuts, i + 1, m);
    }
    assert forall|i: int| 0 <= i < m implies #[trigger] front[i] == united(
        all.take(from).subrange(less[i], less[i + 1]),
    ) by {
        assert(0 <= less[i] < less[i + 1] <= from);
        assert(merged[i] == united(all.take(n).subrange(cuts[i], cuts[i + 1])));
        assert(all.take(n).subrange(cuts[i], cuts[i + 1]) =~= all.take(from).subrange(
            less[i],
            less[i + 1],
        ));
    }
    assert(merged[m] == united(all.take(n).subrange(cuts[m], cuts[m + 1])));
    assert(all.take(n).subrange(from, n) =~= all.subrange(from, n));
}

proof fn lemma_unites_push(
    all: Seq<Gemma4PagedPrefillBodyChunk>,
    n: int,
    to: int,
    merged: Seq<Gemma4PagedPrefillBodyChunk>,
    cuts: Seq<int>,
)
    requires
        0 <= n < to <= all.len(),
        unites(all.take(n), merged, cuts),
    ensures
        unites(all.take(to), merged.push(united(all.subrange(n, to))), cuts.push(to)),
{
    let more = merged.push(united(all.subrange(n, to)));
    let wider = cuts.push(to);
    assert forall|j: int| 0 <= j < more.len() implies 0 <= #[trigger] wider[j] < wider[j + 1]
        <= to by {
        if j < merged.len() {
            assert(0 <= cuts[j] < cuts[j + 1] <= n);
        } else {
            assert(wider[j] == n);
        }
    }
    assert forall|j: int| 0 <= j < more.len() implies #[trigger] more[j] == united(
        all.take(to).subrange(wider[j], wider[j + 1]),
    ) by {
        assert(0 <= wider[j] < wider[j + 1] <= to);
        if j < merged.len() {
            assert(0 <= cuts[j] < cuts[j + 1] <= n);
            assert(merged[j] == united(all.take(n).subrange(cuts[j], cuts[j + 1])));
            assert(all.take(to).subrange(wider[j], wider[j + 1]) =~= all.take(n).subrange(
                cuts[j],
                cuts[j + 1],
            ));
        } else {
            assert(all.take(to).subrange(n, to) =~= all.subrange(n, to));
        }
    }
}

/// Whether `boundary` lies strictly inside a chunk.
pub open spec fn holds_inside(c: Gemma4PagedPrefillBodyChunk, boundary: u32) -> bool {
    c.first_position < boundary < c.first_position + c.len
}

/// The part of a chunk before `boundary`.
pub open spec fn part_before(c: Gemma4PagedPrefillBodyChunk, boundary: u32) -> Gemma4PagedPrefillBodyChunk {
    Gemma4PagedPrefillBodyChunk { len: (boundary - c.first_position) as usize, ..c }
}

/// The part of a chunk from `boundary` on.
pub open spec fn part_after(c: Gemma4PagedPrefillBodyChunk, boundary: u32) -> Gemma4PagedPrefillBodyChunk {
    Gemma4PagedPrefillBodyChunk {
        start: (c.start + (boundary - c.first_position)) as usize,
        len: (c.len - (boundary - c.first_position)) as usize,
        first_position: boundary,
        capped_by_v2_aux_limit: c.capped_by_v2_aux_limit,
    }
}

/// The plan with the first chunk that holds `boundary` inside cut in two there.
pub open spec fn split_at(chunks: Seq<Gemma4PagedPrefillBodyChunk>, boundary: u32) -> Seq<
    Gemma4PagedPrefillBodyChunk,
>
    decreases chunks.len(),
{
    if chunks.len() == 0 {
        chunks
    } else if holds_inside(chunks[0], boundary) {
        seq![part_before(chunks[0], boundary), part_after(chunks[0], boundary)] + chunks.skip(1)
    } else {
        seq![chunks[0]] + split_at(chunks.skip(1), boundary)
    }
}

proof fn lemma_split_at_index(chunks: Seq<Gemma4PagedPrefillBodyChunk>, boundary: u32, idx: int)
    requires
        0 <= idx <= chunks.len(),
        forall|k: int| 0 <= k < idx ==> !holds_inside(#[trigger] chunks[k], boundary),
    ensures
        idx == chunks.len() ==> split_at(chunks, boundary) == chunks,
        idx < chunks.len() && holds_inside(chunks[idx], boundary) ==> split_at(chunks, boundary)
            == chunks.update(idx, part_before(chunks[idx], boundary)).insert(
            idx + 1,
            part_after(chunks[idx], boundary),
        ),
    decreases chunks.len(),
{
    if chunks.len() > 0 {
        if idx > 0 {
            assert(!holds_inside(chunks[0], boundary));
            let rest = chunks.skip(1);
            assert forall|k: int| 0 <= k < idx - 1 implies !holds_inside(
                #[trigger] rest[k],
                boundary,
            ) by {
                assert(rest[k] == chunks[k + 1]);
            }
            lemma_split_at_index(rest, boundary, idx - 1);
            if idx == chunks.len() {
                assert(seq![chunks[0]] + rest =~= chunks);
            } else if holds_inside(chunks[idx], boundary) {
                assert(rest[idx - 1] == chunks[idx]);
                assert(split_at(chunks, boundary) =~= chunks.update(
                    idx,
                    part_before(chunks[idx], boundary),
                ).insert(idx + 1, part_after(chunks[idx], boundary)));
            }
        } else if holds_inside(chunks[0], boundary) {
            assert(split_at(chunks, boundary) =~= chunks.update(
                0,
                part_before(chunks[0], boundary),
            ).insert(1, part_after(chunks[0], boundary)));
        }
    }
}

/// Cuts the chunk that holds `boundary_position` inside, so that a chunk
/// begins there.
pub fn gemma4_split_body_chunk_plan_at_position(
    chunks: &mut Vec<Gemma4PagedPrefillBodyChunk>,
    boundary_position: u32,
)
    requires
        forall|i: int|
            0 <= i < old(chunks)@.len() ==> {
                let c = #[trigger] old(chunks)@[i];
                &&& c.first_position + c.len <= u64::MAX
                &&& holds_inside(c, boundary_position) ==> c.start + (boundary_position
                    - c.first_position) <= usize::MAX
            },
    ensures
        final(chunks)@ == split_at(old(chunks)@, boundary_position),
{
    let ghost all = chunks@;
    let mut idx: usize = 0;
    while idx < chunks.len()
        invariant
            chunks@ == all,
            idx <= chunks.len(),
            forall|i: int|
                0 <= i < all.len() ==> {
                    let c = #[trigger] all[i];
                    &&& c.first_position + c.len <= u64::MAX
                    &&& holds_inside(c, boundary_position) ==> c.start + (boundary_position
                        - c.first_position) <= usize::MAX
                },
            forall|k: int| 0 <= k < idx ==> !holds_inside(#[trigger] all[k], boundary_position),
            old(chunks)@ == all,
        decreases chunks.len() - idx,
    {
        let chunk: Gemma4PagedPrefillBodyChunk = chunks[idx];
        let first: u64 = chunk.first_position as u64;
        let end: u64 = first + chunk.len as u64;
        let boundary: u64 = boundary_position as u64;
        if boundary > first && boundary < end {
            let before_len: usize = (boundary_position - chunk.first_position) as usize;
            let after_chunk = Gemma4PagedPrefillBodyChunk {
                start: chunk.start + before_len,
                len: chunk.len - before_len,
                first_position: boundary_position,
                capped_by_v2_aux_limit: chunk.capped_by_v2_aux_limit,
            };
            proof {
                lemma_split_at_index(all, boundary_position, idx as int);
            }
            chunks.set(idx, Gemma4PagedPrefillBodyChunk { len: before_len, ..chunk });
            chunks.insert(idx + 1, after_chunk);
            return;
        }
        idx += 1;
    }
    proof {
        lemma_split_at_index(all, boundary_position, idx as int);
    }
}

/// A plan is cut in the chunk that holds the boundary inside: that chunk becomes
/// two, of which the first ends and the second begins at the boundary; both have
/// its mark, and all other chunks stay.
pub proof fn law_split_cuts_one_chunk(
    chunks: Seq<Gemma4PagedPrefillBodyChunk>,
    boundary: u32,
    body: int,
    start: int,
    position: int,
    i: int,
)
    requires
        tiles(chunks, body, start, position),
        0 <= i < chunks.len(),
        holds_inside(chunks[i], boundary),
        chunks[i].start + (boundary - chunks[i].first_position) <= usize::MAX,
    ensures
        ({
            let c = chunks[i];
            let out = split_at(chunks, boundary);
            &&& out.len() == chunks.len() + 1
            &&& out[i].start == c.start
            &&& out[i].len == boundary - c.first_position
            &&& out[i].first_position == c.first_position
            &&& out[i].capped_by_v2_aux_limit == c.capped_by_v2_aux_limit
            &&& out[i + 1].start == c.start + (boundary - c.first_position)
            &&& out[i + 1].len == c.len - (boundary - c.first_position)
            &&& out[i + 1].first_position == boundary
            &&& out[i + 1].capped_by_v2_aux_limit == c.capped_by_v2_aux_limit
            &&& forall|k: int| 0 <= k < i ==> #[trigger] out[k] == chunks[k]
            &&& forall|k: int| i + 1 < k < out.len() ==> #[trigger] out[k] == chunks[k - 1]
        }),
{
    assert forall|k: int| 0 <= k < i implies !holds_inside(#[trigger] chunks[k], boundary) by {
        lemma_tiles_order(chunks, body, start, position, k, i);
    }
    lemma_split_at_index(chunks, boundary, i);
}

/// A plan in which no chunk holds the boundary inside stays as it is.
pub proof fn law_split_at_edge_changes_nothing(
    chunks: Seq<Gemma4PagedPrefillBodyChunk>,
    boundary: u32,
)
    requires
        forall|k: int| 0 <= k < chunks.len() ==> !holds_inside(#[trigger] chunks[k], boundary),
    ensures
        split_at(chunks, boundary) == chunks,
{
    lemma_split_at_index(chunks, boundary, chunks.len() as int);
}

/// Cutting a plan at one position twice is cutting it once.
pub proof fn law_splitting_twice_is_splitting_once(
    chunks: Seq<Gemma4PagedPrefillBodyChunk>,
    boundary: u32,
    body: int,
    start: int,
    position: int,
)
    requires
        tiles(chunks, body, start, position),
    ensures
        split_at(split_at(chunks, boundary), boundary) == split_at(chunks, boundary),
{
    lemma_split_leaves_none_inside(chunks, boundary, body, start, position);
    law_split_at_edge_changes_nothing(split_at(chunks, boundary), boundary);
}

proof fn lemma_split_leaves_none_inside(
    chunks: Seq<Gemma4PagedPrefillBodyChunk>,
    boundary: u32,
    body: int,
    start: int,
    position: int,
)
    requires
        tiles(chunks, body, start, position),
    ensures
        forall|i: int|
            0 <= i < split_at(chunks, boundary).len() ==> !holds_inside(
                #[trigger] split_at(chunks, boundary)[i],
                boundary,
            ),
    decreases chunks.len(),
{
    if chunks.len() > 0 {
        let c = chunks[0];
        let rest = chunks.skip(1);
        let out = split_at(chunks, boundary);
        if !holds_inside(c, boundary) {
            lemma_split_leaves_none_inside(
                rest,
                boundary,
                body,
                start + c.len,
                position + c.len,
            );
        }
        let tail = split_at(rest, boundary);
        assert forall|i: int| 0 <= i < out.len() implies !holds_inside(
            #[trigger] out[i],
            boundary,
        ) by {
            if holds_inside(c, boundary) {
                if i >= 2 {
                    lemma_tiles_positions(rest, body, start + c.len, position + c.len, i - 2);
                    assert(out[i] == rest[i - 2]);
                }
            } else if i >= 1 {
                assert(out[i] == tail[i - 1]);
            }
        }
    }
}

/// A later chunk begins where an earlier one has ended, or behind.
proof fn lemma_tiles_order(
    chunks: Seq<Gemma4PagedPrefillBodyChunk>,
    body: int,
    start: int,
    position: int,
    k: int,
    i: int,
)
    requires
        tiles(chunks, body, start, position),
        0 <= k < i < chunks.len(),
    ensures
        chunks[k].first_position + chunks[k].len <= chunks[i].first_position,
    decreases chunks.len(),
{
    let c = chunks[0];
    let rest = chunks.skip(1);
    if k == 0 {
        lemma_tiles_positions(rest, body, start + c.len, position + c.len, i - 1);
    } else {
        lemma_tiles_order(rest, body, start + c.len, position + c.len, k - 1, i - 1);
    }
}

/// Cutting a plan keeps what it covers, and no chunk holds the boundary inside
/// any more.
pub proof fn law_split_keeps_tiling(
    chunks: Seq<Gemma4PagedPrefillBodyChunk>,
    boundary: u32,
    body: int,
    start: int,
    position: int,
)
    requires
        tiles(chunks, body, start, position),
        0 <= start,
        body <= usize::MAX,
    ensures
        tiles(split_at(chunks, boundary), body, start, position),
        forall|i: int|
            0 <= i < split_at(chunks, boundary).len() ==> !holds_inside(
                #[trigger] split_at(chunks, boundary)[i],
                boundary,
            ),
    decreases chunks.len(),
{
    if chunks.len() > 0 {
        let c = chunks[0];
        let rest = chunks.skip(1);
        lemma_tiles_total(chunks, body, start, position);
        lemma_total_len_nonneg(rest);
        let out = split_at(chunks, boundary);
        lemma_split_leaves_none_inside(chunks, boundary, body, start, position);
        if holds_inside(c, boundary) {
            let b = part_after(c, boundary);
            assert(out.skip(1) =~= seq![b] + rest);
            assert((seq![b] + rest).skip(1) =~= rest);
            reveal_with_fuel(tiles, 3);
        } else {
            law_split_keeps_tiling(rest, boundary, body, start + c.len, position + c.len);
            assert(out.skip(1) =~= split_at(rest, boundary));
        }
    }
}

proof fn lemma_tiles_positions(
    chunks: Seq<Gemma4PagedPrefillBodyChunk>,
    body: int,
    start: int,
    position: int,
    i: int,
)
    requires
        tiles(chunks, body, start, position),
        0 <= i < chunks.len(),
    ensures
        chunks[i].first_position >= position,
    decreases chunks.len(),
{
    if i > 0 {
        lemma_tiles_positions(
            chunks.skip(1),
            body,
            start + chunks[0].len,
            position + chunks[0].len,
            i - 1,
        );
    }
}

/// A plan for fewer than 2^32 tokens exists exactly where all of its positions
/// are representable.
pub proof fn law_plan_exists(limits: ChunkLimits, body: int, start: int, position: int)
    requires
        0 <= start <= body <= u32::MAX,
        body <= usize::MAX,
        0 <= position,
    ensures
        limits.plan_from(body, start, position) is Some <==> start == body || position + (body
            - start) <= u32::MAX,
    decreases body - start,
{
    if start < body {
        lemma_step_len(limits, body - start, position);
        let len = limits.step_len(body - start, position);
        law_plan_exists(limits, body, start + len, position + len);
    }
}

/// Chunks that cover a body end within it.
pub proof fn lemma_tiles_bounds(
    chunks: Seq<Gemma4PagedPrefillBodyChunk>,
    body: int,
    start: int,
    position: int,
    i: int,
)
    requires
        tiles(chunks, body, start, position),
        0 <= i < chunks.len(),
    ensures
        start <= chunks[i].start,
        chunks[i].start + chunks[i].len <= body,
        chunks[i].first_position - position == chunks[i].start - start,
    decreases chunks.len(),
{
    lemma_tiles_total(chunks, body, start, position);
    lemma_total_len_nonneg(chunks.skip(1));
    if i > 0 {
        lemma_tiles_bounds(
            chunks.skip(1),
            body,
            start + chunks[0].len,
            position + chunks[0].len,
            i - 1,
        );
    }
}

/// Chunks that cover a body hold its tokens.
pub proof fn lemma_tiles_total_len(
    chunks: Seq<Gemma4PagedPrefillBodyChunk>,
    body: int,
    start: int,
    position: int,
)
    requires
        tiles(chunks, body, start, position),
    ensures
        total_len(chunks) == body - start,
{
    lemma_tiles_total(chunks, body, start, position);
}

/// A chunk has as many tokens as is configured, or all that remain; where nothing is
/// configured, all that remain.
pub proof fn law_configured_size(configured: int, body: int)
    ensures
        configured > 0 ==> body_chunk_size(configured, body) == configured,
        configured <= 0 ==> body_chunk_size(configured, body) == body,
{
}

/// The buffers of a chunk fit where the context is at most one partition of 512, and
/// else where tokens, heads, partitions of the context and head size come to at most
/// 2^31 - 1 elements. A chunk without tokens, heads or head size never fits.
pub proof fn law_buffers_fit(n: int, first: int, heads: int, head_size: int, partitions: int)
    requires
        0 <= first,
    ensures
        n > 0 && heads > 0 && head_size > 0 && first + n <= 512 ==> v2_aux_fits(
            n,
            first,
            heads,
            head_size,
        ),
        n > 0 && heads > 0 && head_size > 0 && first + n > 512 && 512 * (partitions - 1) < first + n
            <= 512 * partitions ==> (v2_aux_fits(n, first, heads, head_size) <==> n * heads
            * partitions * head_size <= 2_147_483_647),
        n <= 0 || heads <= 0 || head_size <= 0 ==> !v2_aux_fits(n, first, heads, head_size),
{
    if n > 0 && 512 * (partitions - 1) < first + n <= 512 * partitions {
        lemma_ceil_div_bounds(first + n, 512);
        assert(ceil_div(first + n, 512) == partitions);
    }
}

/// A chunk begins at `position` of a prompt of which `remaining` tokens are left: it
/// has at least one token, no more than remain or are configured, and its buffers fit
/// where that counts, unless it has a single token. No boundary of checkpoints lies
/// inside. It is no shorter than that asks for: the token behind it would be one too
/// many, or a checkpoint is due there.
#[verifier::rlimit(40)]
pub proof fn law_chunk_is_as_long_as_it_may_be(limits: ChunkLimits, remaining: int, position: int)
    requires
        0 < remaining,
        0 <= position,
    ensures
        ({
            let len = limits.step_len(remaining, position);
            let interval = limits.checkpoint_interval as int;
            let heads = limits.num_query_heads as int;
            let size = limits.head_size as int;
            &&& 1 <= len <= remaining
            &&& limits.configured_chunk_size > 0 ==> len <= limits.configured_chunk_size
            &&& limits.paged_attention_enabled ==> len == 1 || v2_aux_fits(
                len,
                position,
                heads,
                size,
            )
            &&& interval > 0 ==> forall|k: int|
                position < k < position + len ==> #[trigger] (k % interval) != 0
            &&& len == remaining || len == limits.configured_chunk_size || (interval > 0 && (
            position + len) % interval == 0) || (limits.paged_attention_enabled && !v2_aux_fits(
                len + 1,
                position,
                heads,
                size,
            ))
        }),
{
    let interval = limits.checkpoint_interval as int;
    let heads = limits.num_query_heads as int;
    let size = limits.head_size as int;
    let base = base_len(limits.configured_chunk_size as int, remaining);
    let limited = limits.limited_len(remaining, position);
    if limits.capped(remaining, position) {
        lemma_largest_is_largest(base - 1, position, heads, size);
    }
    assert(1 <= limited <= base);
    let len = limits.step_len(remaining, position);
    if interval > 0 {
        let next = next_checkpoint(position, interval);
        let q = position / interval;
        vstd::arithmetic::div_mod::lemma_fundamental_div_mod(position, interval);
        assert(next == interval * q + interval) by (nonlinear_arith)
            requires
                next == (q + 1) * interval,
        ;
        assert(q * interval == interval * q) by (nonlinear_arith);
        assert(position < next <= position + interval);
        assert forall|k: int| position < k < position + len implies #[trigger] (k % interval)
            != 0 by {
            assert(interval * q <= position < k < interval * q + interval);
            vstd::arithmetic::div_mod::lemma_fundamental_div_mod_converse(
                k,
                interval,
                q,
                k - interval * q,
            );
        }
        if next < position + limited {
            assert(len == next - position);
            vstd::arithmetic::div_mod::lemma_mod_multiples_basic(q + 1, interval);
            if limits.paged_attention_enabled && limited > 1 {
                if v2_aux_fits(limited, position, heads, size) {
                    law_v2_aux_fits_shorter(len, limited, position, heads, size);
                }
            }
        }
    }
}

proof fn lemma_largest_is_largest(hi: int, first: int, heads: int, head_size: int)
    requires
        0 <= first,
        0 <= hi,
        !v2_aux_fits(hi + 1, first, heads, head_size),
    ensures
        ({
            let n = largest_fitting(hi, first, heads, head_size);
            &&& 1 <= n
            &&& hi >= 1 ==> n <= hi
            &&& n == 1 || v2_aux_fits(n, first, heads, head_size)
            &&& hi >= 1 ==> !v2_aux_fits(n + 1, first, heads, head_size)
        }),
    decreases hi,
{
    if hi > 1 && !v2_aux_fits(hi, first, heads, head_size) {
        lemma_largest_is_largest(hi - 1, first, heads, head_size);
    }
}

/// A chunk is marked exactly where its buffers would not fit at the configured size.
pub proof fn law_mark_of_a_shortened_chunk(limits: ChunkLimits, remaining: int, position: int)
    requires
        0 < remaining,
    ensures
        limits.capped(remaining, position) <==> limits.paged_attention_enabled && !v2_aux_fits(
            if 0 < limits.configured_chunk_size < remaining {
                limits.configured_chunk_size as int
            } else {
                remaining
            },
            position,
            limits.num_query_heads as int,
            limits.head_size as int,
        ),
{
}

/// Every chunk of a plan is as long as it may be at its place, and marked as it is due.
pub proof fn law_every_chunk_of_a_plan(
    limits: ChunkLimits,
    body: int,
    start: int,
    position: int,
    i: int,
)
    requires
        0 <= start <= body <= u32::MAX,
        0 <= position,
        position + (body - start) <= u32::MAX,
        limits.plan_from(body, start, position) is Some,
        0 <= i < limits.plan_from(body, start, position)->0.len(),
    ensures
        ({
            let c = limits.plan_from(body, start, position)->0[i];
            &&& c.len == limits.step_len(body - c.start, c.first_position as int)
            &&& c.capped_by_v2_aux_limit == limits.capped(body - c.start, c.first_position as int)
            &&& start <= c.start < body
            &&& c.first_position - position == c.start - start
        }),
    decreases body - start,
{
    let len = limits.step_len(body - start, position);
    law_chunk_is_as_long_as_it_may_be(limits, body - start, position);
    let plan = limits.plan_from(body, start, position)->0;
    let rest = limits.plan_from(body, start + len, position + len)->0;
    assert(len % 0x1_0000_0000 == len);
    assert(plan == seq![limits.step(body, start, position)] + rest);
    if i > 0 {
        law_every_chunk_of_a_plan(limits, body, start + len, position + len, i - 1);
        assert(plan[i] == rest[i - 1]);
    }
}

/// Chunks that tile a body begin where it begins, follow each other without a gap in
/// tokens and positions, have at least one token each and end where it ends.
pub proof fn law_chunks_tile_without_a_gap(
    chunks: Seq<Gemma4PagedPrefillBodyChunk>,
    body: int,
    start: int,
    position: int,
    i: int,
)
    requires
        tiles(chunks, body, start, position),
        0 <= i < chunks.len(),
    ensures
        chunks[0].start == start,
        chunks[0].first_position == position,
        chunks[i].len >= 1,
        i + 1 < chunks.len() ==> chunks[i + 1].start == chunks[i].start + chunks[i].len && chunks[i
            + 1].first_position == chunks[i].first_position + chunks[i].len,
        chunks.last().start + chunks.last().len == body,
    decreases chunks.len(),
{
    let rest = chunks.skip(1);
    if rest.len() > 0 {
        let k = if i > 0 {
            i - 1
        } else {
            0
        };
        law_chunks_tile_without_a_gap(
            rest,
            body,
            start + chunks[0].len,
            position + chunks[0].len,
            k,
        );
        assert(rest[0] == chunks[1]);
        assert(rest[k] == chunks[k + 1]);
        assert(rest.last() == chunks.last());
        if i > 0 {
            assert(rest[i - 1] == chunks[i]);
            if i + 1 < chunks.len() {
                assert(rest[i] == chunks[i + 1]);
            }
        }
    } else {
        assert(tiles(rest, body, start + chunks[0].len, position + chunks[0].len));
    }
}

} // verus!
