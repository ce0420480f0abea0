//! The steps of a prompt, in the order in which the host takes them.

use vstd::prelude::*;

use crate::chunks::lemma_tiles_bounds;
use crate::chunks::tiles;
use crate::chunks::Gemma4PagedPrefillBodyChunk;
use crate::prefill::law_spans_cover;
use crate::prefill::spans_from;
use crate::prefill::PagedPrefillPlan;
use crate::prefill::TokenSpan;
use crate::prefill::VlmPrefillPlan;

verus! {

/// A step of a prompt.
#[derive(Debug, Clone, Copy, PartialEq, Eq, Structural)]
pub enum PrefillStep {
    /// Run tokens of the cached prefix through the sliding layers. `start` and
    /// `end` count from the start of the prompt.
    Replay { start: usize, end: usize },
    /// Remember the sliding layers at the end of the replay.
    FileReplayed,
    /// Have the pool record new tokens.
    Record { start: usize, end: usize },
    /// Run new tokens, the first one at a position of the context.
    Run { start: usize, end: usize, first_position: u32 },
    /// Run new tokens from their embeddings; with images seen as a whole or not.
    RunEmbeds { start: usize, end: usize, first_position: u32, images: bool },
    /// Have the pool carry out its pending writes.
    EvalPool,
    /// Have the caches of the layers computed, and spare memory released.
    EvalCaches,
    /// Remember what is due behind a chunk.
    Remember { next_position: u32 },
    /// Remember the end of the prompt, where that is due.
    RememberPrompt { position: u32 },
    /// Compute the logits of the last token.
    Logits,
}

/// The steps of a replayed chunk.
pub open spec fn replayed_chunk(c: Gemma4PagedPrefillBodyChunk, primed: int) -> Seq<PrefillStep> {
    seq![
        PrefillStep::Replay {
            start: (primed + c.start) as usize,
            end: (primed + c.start + c.len) as usize,
        },
        PrefillStep::EvalCaches,
    ]
}

/// The steps of a chunk of new tokens.
pub open spec fn body_chunk(c: Gemma4PagedPrefillBodyChunk) -> Seq<PrefillStep> {
    seq![
        PrefillStep::Record { start: c.start, end: (c.start + c.len) as usize },
        PrefillStep::Run {
            start: c.start,
            end: (c.start + c.len) as usize,
            first_position: c.first_position,
        },
        PrefillStep::EvalPool,
        PrefillStep::EvalCaches,
        PrefillStep::Remember { next_position: (c.first_position + c.len) as u32 },
    ]
}

/// The steps of replayed chunks.
pub open spec fn replay_steps(chunks: Seq<Gemma4PagedPrefillBodyChunk>, primed: int) -> Seq<
    PrefillStep,
>
    decreases chunks.len(),
{
    if chunks.len() == 0 {
        Seq::empty()
    } else {
        replay_steps(chunks.drop_last(), primed) + replayed_chunk(chunks.last(), primed)
    }
}

/// The steps of chunks of new tokens.
pub open spec fn body_steps(chunks: Seq<Gemma4PagedPrefillBodyChunk>) -> Seq<PrefillStep>
    decreases chunks.len(),
{
    if chunks.len() == 0 {
        Seq::empty()
    } else {
        body_steps(chunks.drop_last()) + body_chunk(chunks.last())
    }
}

/// The steps of the last new token, which runs alone.
pub open spec fn last_steps(suffix: int, position: u32) -> Seq<PrefillStep> {
    seq![
        PrefillStep::Record { start: (suffix - 1) as usize, end: suffix as usize },
        PrefillStep::Run {
            start: (suffix - 1) as usize,
            end: suffix as usize,
            first_position: position,
        },
        PrefillStep::EvalPool,
        PrefillStep::RememberPrompt { position: (position + 1) as u32 },
        PrefillStep::Logits,
    ]
}

/// The steps of a paged prompt.
pub open spec fn paged_steps(
    replay: Seq<Gemma4PagedPrefillBodyChunk>,
    body: Seq<Gemma4PagedPrefillBodyChunk>,
    suffix: int,
    primed: int,
    final_position: u32,
) -> Seq<PrefillStep> {
    replay_steps(replay, primed) + (if replay.len() > 0 {
        seq![PrefillStep::FileReplayed]
    } else {
        Seq::empty()
    }) + body_steps(body) + last_steps(suffix, final_position)
}

/// The steps of a paged prompt with `suffix_len` new tokens, of whose cached
/// prefix the sliding layers have seen `primed` tokens and lack `replayed`.
pub fn paged_prefill_steps(
    plan: &PagedPrefillPlan,
    suffix_len: usize,
    primed: u32,
    replayed: u32,
) -> (r: Vec<PrefillStep>)
    requires
        suffix_len > 0,
        plan.final_position < u32::MAX,
        primed + replayed + (suffix_len - 1) == plan.final_position,
        tiles(plan.replay@, replayed as int, 0, primed as int),
        tiles(plan.body@, suffix_len - 1, 0, primed + replayed),
    ensures
        r@ == paged_steps(
            plan.replay@,
            plan.body@,
            suffix_len as int,
            primed as int,
            plan.final_position,
        ),
{
    let mut out: Vec<PrefillStep> = Vec::new();
    let mut i: usize = 0;
    assert(plan.replay@.take(0) =~= Seq::<Gemma4PagedPrefillBodyChunk>::empty());
    while i < plan.replay.len()
        invariant
            i <= plan.replay@.len(),
            primed + replayed < u32::MAX,
            tiles(plan.replay@, replayed as int, 0, primed as int),
            out@ == replay_steps(plan.replay@.take(i as int), primed as int),
        decreases plan.replay@.len() - i,
    {
        let c: Gemma4PagedPrefillBodyChunk = plan.replay[i];
        proof {
            lemma_tiles_bounds(plan.replay@, replayed as int, 0, primed as int, i as int);
            assert(plan.replay@.take(i + 1).drop_last() =~= plan.replay@.take(i as int));
        }
        let start: usize = primed as usize + c.start;
        let end: usize = start + c.len;
        let ghost before = out@;
        out.push(PrefillStep::Replay { start, end });
        out.push(PrefillStep::EvalCaches);
        assert(out@ =~= before + replayed_chunk(c, primed as int));
        i += 1;
    }
    assert(plan.replay@.take(i as int) =~= plan.replay@);
    if plan.replay.len() > 0 {
        out.push(PrefillStep::FileReplayed);
    }
    let ghost front = out@;
    let ghost first = primed + replayed;
    let mut j: usize = 0;
    assert(plan.body@.take(0) =~= Seq::<Gemma4PagedPrefillBodyChunk>::empty());
    assert(front + body_steps(plan.body@.take(0)) =~= front);
    while j < plan.body.len()
        invariant
            j <= plan.body@.len(),
            suffix_len > 0,
            first >= 0,
            first + (suffix_len - 1) < u32::MAX,
            tiles(plan.body@, suffix_len - 1, 0, first),
            out@ == front + body_steps(plan.body@.take(j as int)),
        decreases plan.body@.len() - j,
    {
        let c: Gemma4PagedPrefillBodyChunk = plan.body[j];
        proof {
            lemma_tiles_bounds(plan.body@, suffix_len - 1, 0, first, j as int);
            assert(plan.body@.take(j + 1).drop_last() =~= plan.body@.take(j as int));
        }
        let end: usize = c.start + c.len;
        let ghost before = out@;
        out.push(PrefillStep::Record { start: c.start, end });
        out.push(PrefillStep::Run { start: c.start, end, first_position: c.first_position });
        out.push(PrefillStep::EvalPool);
        out.push(PrefillStep::EvalCaches);
        out.push(PrefillStep::Remember { next_position: c.first_position + c.len as u32 });
        assert(out@ =~= before + body_chunk(c));
        assert(out@ =~= front + body_steps(plan.body@.take(j + 1)));
        j += 1;
    }
    assert(plan.body@.take(j as int) =~= plan.body@);
    let position: u32 = plan.final_position;
    let ghost before = out@;
    out.push(PrefillStep::Record { start: suffix_len - 1, end: suffix_len });
    out.push(
        PrefillStep::Run { start: suffix_len - 1, end: suffix_len, first_position: position },
    );
    out.push(PrefillStep::EvalPool);
    out.push(PrefillStep::RememberPrompt { position: position + 1 });
    out.push(PrefillStep::Logits);
    assert(out@ =~= before + last_steps(suffix_len as int, position));
    out
}

/// The steps of a span of a media prompt.
pub open spec fn span_steps(s: TokenSpan, images: bool) -> Seq<PrefillStep> {
    seq![
        PrefillStep::Record { start: s.start, end: s.end },
        PrefillStep::RunEmbeds {
            start: s.start,
            end: s.end,
            first_position: s.start as u32,
            images,
        },
        PrefillStep::EvalPool,
        PrefillStep::EvalCaches,
    ]
}

/// The steps of spans of a media prompt.
pub open spec fn spans_steps(spans: Seq<TokenSpan>, images: bool) -> Seq<PrefillStep>
    decreases spans.len(),
{
    if spans.len() == 0 {
        Seq::empty()
    } else {
        spans_steps(spans.drop_last(), images) + span_steps(spans.last(), images)
    }
}

/// The steps of the last token of a media prompt. It is the turn marker, so no
/// image reaches it.
pub open spec fn media_last_steps(total: int) -> Seq<PrefillStep> {
    seq![
        PrefillStep::Record { start: (total - 1) as usize, end: total as usize },
        PrefillStep::RunEmbeds {
            start: (total - 1) as usize,
            end: total as usize,
            first_position: (total - 1) as u32,
            images: false,
        },
        PrefillStep::EvalPool,
        PrefillStep::Logits,
    ]
}

/// The steps of a media prompt of `total` tokens.
pub open spec fn media_steps(spans: Seq<TokenSpan>, images: bool, total: int) -> Seq<PrefillStep> {
    spans_steps(spans, images) + media_last_steps(total)
}

/// The steps of a media prompt of `total` tokens, whose spans hold `size`
/// tokens each but for the last.
pub fn vlm_prefill_steps(plan: &VlmPrefillPlan, total: usize) -> (r: Vec<PrefillStep>)
    requires
        0 < total <= u32::MAX,
        exists|size: int| plan.spans@ == #[trigger] spans_from(total - 1, size, 0),
    ensures
        r@ == media_steps(plan.spans@, plan.images, total as int),
{
    let mut out: Vec<PrefillStep> = Vec::new();
    let images: bool = plan.images;
    let ghost size = choose|size: int| plan.spans@ == #[trigger] spans_from(total - 1, size, 0);
    let mut i: usize = 0;
    assert(plan.spans@.take(0) =~= Seq::<TokenSpan>::empty());
    while i < plan.spans.len()
        invariant
            i <= plan.spans@.len(),
            images == plan.images,
            0 < total <= u32::MAX,
            plan.spans@ == spans_from(total - 1, size, 0),
            out@ == spans_steps(plan.spans@.take(i as int), images),
        decreases plan.spans@.len() - i,
    {
        let s: TokenSpan = plan.spans[i];
        proof {
            lemma_span_in(total - 1, size, 0, i as int);
            assert(plan.spans@.take(i + 1).drop_last() =~= plan.spans@.take(i as int));
        }
        let ghost before = out@;
        out.push(PrefillStep::Record { start: s.start, end: s.end });
        out.push(
            PrefillStep::RunEmbeds {
                start: s.start,
                end: s.end,
                first_position: s.start as u32,
                images,
            },
        );
        out.push(PrefillStep::EvalPool);
        out.push(PrefillStep::EvalCaches);
        assert(out@ =~= before + span_steps(s, images));
        i += 1;
    }
    assert(plan.spans@.take(i as int) =~= plan.spans@);
    let ghost before = out@;
    out.push(PrefillStep::Record { start: total - 1, end: total });
    out.push(
        PrefillStep::RunEmbeds {
            start: total - 1,
            end: total,
            first_position: (total - 1) as u32,
            images: false,
        },
    );
    out.push(PrefillStep::EvalPool);
    out.push(PrefillStep::Logits);
    assert(out@ =~= before + media_last_steps(total as int));
    out
}

proof fn lemma_span_in(len: int, size: int, start: int, i: int)
    requires
        0 <= start <= len <= usize::MAX,
        0 <= i < spans_from(len, size, start).len(),
    ensures
        start <= spans_from(len, size, start)[i].start < spans_from(len, size, start)[i].end <= len,
    decreases len - start,
{
    if size > 0 && len - start > size && i > 0 {
        lemma_span_in(len, size, start + size, i - 1);
        assert(spans_from(len, size, start)[i] == spans_from(len, size, start + size)[i - 1]);
    }
}

/// How far a prompt has come: how many new tokens the pool has recorded, and how
/// many have run.
pub ghost struct Progress {
    pub recorded: int,
    pub ran: int,
}

/// How far a step takes a prompt whose new tokens begin at position `first`;
/// none where the step is out of order: tokens are recorded in order, and run
/// in order, at their positions, all that are recorded and no others.
pub open spec fn advance(p: Progress, step: PrefillStep, first: int) -> Option<Progress> {
    match step {
        PrefillStep::Record { start, end } => if start == p.recorded && p.ran == p.recorded && start
            < end {
            Some(Progress { recorded: end as int, ran: p.ran })
        } else {
            None
        },
        PrefillStep::Run { start, end, first_position } => if start == p.ran && end == p.recorded
            && first_position == first + start {
            Some(Progress { recorded: p.recorded, ran: end as int })
        } else {
            None
        },
        PrefillStep::RunEmbeds { start, end, first_position, .. } => if start == p.ran && end
            == p.recorded && first_position == first + start {
            Some(Progress { recorded: p.recorded, ran: end as int })
        } else {
            None
        },
        _ => Some(p),
    }
}

/// How far steps take a prompt.
pub open spec fn progress(steps: Seq<PrefillStep>, first: int) -> Option<Progress>
    decreases steps.len(),
{
    if steps.len() == 0 {
        Some(Progress { recorded: 0, ran: 0 })
    } else {
        match progress(steps.drop_last(), first) {
            None => None,
            Some(p) => advance(p, steps.last(), first),
        }
    }
}

proof fn lemma_progress_push(steps: Seq<PrefillStep>, step: PrefillStep, first: int)
    ensures
        progress(steps.push(step), first) == match progress(steps, first) {
            None => None,
            Some(p) => advance(p, step, first),
        },
{
    assert(steps.push(step).drop_last() =~= steps);
}

proof fn lemma_replay_progress(
    front: Seq<PrefillStep>,
    chunks: Seq<Gemma4PagedPrefillBodyChunk>,
    primed: int,
    first: int,
)
    ensures
        progress(front + replay_steps(chunks, primed), first) == progress(front, first),
    decreases chunks.len(),
{
    if chunks.len() == 0 {
        assert(front + replay_steps(chunks, primed) =~= front);
    } else {
        lemma_replay_progress(front, chunks.drop_last(), primed, first);
        let a = front + replay_steps(chunks.drop_last(), primed);
        let one = replayed_chunk(chunks.last(), primed);
        lemma_progress_push(a, one[0], first);
        lemma_progress_push(a.push(one[0]), one[1], first);
        assert(front + replay_steps(chunks, primed) =~= a.push(one[0]).push(one[1]));
    }
}

proof fn lemma_body_progress(
    front: Seq<PrefillStep>,
    chunks: Seq<Gemma4PagedPrefillBodyChunk>,
    n: int,
    body: int,
    first: int,
)
    requires
        0 <= n <= chunks.len(),
        tiles(chunks, body, 0, first),
        body <= usize::MAX,
        progress(front, first) == Some(Progress { recorded: 0, ran: 0 }),
    ensures
        ({
            let at = if n == 0 {
                0int
            } else {
                chunks[n - 1].start + chunks[n - 1].len
            };
            progress(front + body_steps(chunks.take(n)), first) == Some(
                Progress { recorded: at, ran: at },
            )
        }),
    decreases n,
{
    if n == 0 {
        assert(front + body_steps(chunks.take(0)) =~= front);
    } else {
        lemma_body_progress(front, chunks, n - 1, body, first);
        lemma_tiles_bounds(chunks, body, 0, first, n - 1);
        lemma_tiles_adjacent(chunks, body, 0, first, n - 1);
        assert(chunks.take(n).drop_last() =~= chunks.take(n - 1));
        let a = front + body_steps(chunks.take(n - 1));
        let one = body_chunk(chunks[n - 1]);
        lemma_progress_push(a, one[0], first);
        lemma_progress_push(a.push(one[0]), one[1], first);
        lemma_progress_push(a.push(one[0]).push(one[1]), one[2], first);
        lemma_progress_push(a.push(one[0]).push(one[1]).push(one[2]), one[3], first);
        lemma_progress_push(a.push(one[0]).push(one[1]).push(one[2]).push(one[3]), one[4], first);
        assert(front + body_steps(chunks.take(n)) =~= a.push(one[0]).push(one[1]).push(
            one[2],
        ).push(one[3]).push(one[4]));
    }
}

proof fn lemma_tiles_adjacent(
    chunks: Seq<Gemma4PagedPrefillBodyChunk>,
    body: int,
    start: int,
    position: int,
    i: int,
)
    requires
        tiles(chunks, body, start, position),
        0 <= i < chunks.len(),
    ensures
        chunks[i].start == if i == 0 {
            start
        } else {
            chunks[i - 1].start + chunks[i - 1].len
        },
        chunks[i].len >= 1,
        i == chunks.len() - 1 ==> chunks[i].start + chunks[i].len == body,
    decreases chunks.len(),
{
    reveal_with_fuel(tiles, 2);
    let rest = chunks.skip(1);
    if i > 0 {
        lemma_tiles_adjacent(rest, body, start + chunks[0].len, position + chunks[0].len, i - 1);
        assert(rest[i - 1] == chunks[i]);
        if i > 1 {
            assert(rest[i - 2] == chunks[i - 1]);
        }
    } else if chunks.len() == 1 {
        assert(tiles(rest, body, start + chunks[0].len, position + chunks[0].len));
        assert(rest.len() == 0);
    }
}

/// Every new token of a paged prompt is recorded and run exactly once, in order
/// and at its position, and none is run before the pool has recorded it. What is
/// replayed is neither recorded nor run anew.
#[verifier::rlimit(40)]
pub proof fn law_prompt_runs_once(
    replay: Seq<Gemma4PagedPrefillBodyChunk>,
    body: Seq<Gemma4PagedPrefillBodyChunk>,
    suffix: int,
    primed: int,
    cached: int,
    final_position: u32,
)
    requires
        0 < suffix <= usize::MAX,
        final_position == cached + suffix - 1,
        tiles(body, suffix - 1, 0, cached),
    ensures
        progress(paged_steps(replay, body, suffix, primed, final_position), cached) == Some(
            Progress { recorded: suffix, ran: suffix },
        ),
{
    let none = Seq::<PrefillStep>::empty();
    lemma_replay_progress(none, replay, primed, cached);
    assert(none + replay_steps(replay, primed) =~= replay_steps(replay, primed));
    let filed = if replay.len() > 0 {
        seq![PrefillStep::FileReplayed]
    } else {
        none
    };
    let front = replay_steps(replay, primed) + filed;
    if replay.len() > 0 {
        lemma_progress_push(replay_steps(replay, primed), PrefillStep::FileReplayed, cached);
        assert(front =~= replay_steps(replay, primed).push(PrefillStep::FileReplayed));
    } else {
        assert(front =~= replay_steps(replay, primed));
    }
    lemma_body_progress(front, body, body.len() as int, suffix - 1, cached);
    assert(body.take(body.len() as int) =~= body);
    if body.len() > 0 {
        lemma_tiles_adjacent(body, suffix - 1, 0, cached, body.len() - 1);
    }
    let a = front + body_steps(body);
    let one = last_steps(suffix, final_position);
    lemma_progress_push(a, one[0], cached);
    lemma_progress_push(a.push(one[0]), one[1], cached);
    lemma_progress_push(a.push(one[0]).push(one[1]), one[2], cached);
    lemma_progress_push(a.push(one[0]).push(one[1]).push(one[2]), one[3], cached);
    lemma_progress_push(a.push(one[0]).push(one[1]).push(one[2]).push(one[3]), one[4], cached);
    assert(paged_steps(replay, body, suffix, primed, final_position) =~= a.push(one[0]).push(
        one[1],
    ).push(one[2]).push(one[3]).push(one[4]));
}

proof fn lemma_spans_progress(spans: Seq<TokenSpan>, images: bool, n: int, len: int, size: int)
    requires
        0 <= n <= spans.len(),
        0 < len < u32::MAX,
        size > 0,
        spans == spans_from(len, size, 0),
    ensures
        ({
            let at = if n == 0 {
                0int
            } else {
                spans[n - 1].end as int
            };
            progress(spans_steps(spans.take(n), images), 0) == Some(
                Progress { recorded: at, ran: at },
            )
        }),
    decreases n,
{
    if n > 0 {
        lemma_spans_progress(spans, images, n - 1, len, size);
        law_spans_cover(len, size, 0, n - 1);
        lemma_span_in(len, size, 0, n - 1);
        if n > 1 {
            law_spans_cover(len, size, 0, n - 2);
        }
        assert(spans.take(n).drop_last() =~= spans.take(n - 1));
        let a = spans_steps(spans.take(n - 1), images);
        let one = span_steps(spans[n - 1], images);
        lemma_progress_push(a, one[0], 0);
        lemma_progress_push(a.push(one[0]), one[1], 0);
        lemma_progress_push(a.push(one[0]).push(one[1]), one[2], 0);
        lemma_progress_push(a.push(one[0]).push(one[1]).push(one[2]), one[3], 0);
        assert(spans_steps(spans.take(n), images) =~= a.push(one[0]).push(one[1]).push(
            one[2],
        ).push(one[3]));
    }
}

/// Every token of a media prompt is recorded and run exactly once, in order and
/// at its position, whatever the size of its spans.
pub proof fn law_media_prompt_runs_once(images: bool, total: int, size: int)
    requires
        0 < total <= u32::MAX,
        size > 0,
    ensures
        progress(media_steps(spans_from(total - 1, size, 0), images, total), 0) == Some(
            Progress { recorded: total, ran: total },
        ),
{
    let spans = spans_from(total - 1, size, 0);
    let a = spans_steps(spans, images);
    if total > 1 {
        lemma_spans_progress(spans, images, spans.len() as int, total - 1, size);
        assert(spans.take(spans.len() as int) =~= spans);
        assert(spans.len() > 0);
        law_spans_cover(total - 1, size, 0, 0);
    }
    let one = media_last_steps(total);
    lemma_progress_push(a, one[0], 0);
    lemma_progress_push(a.push(one[0]), one[1], 0);
    lemma_progress_push(a.push(one[0]).push(one[1]), one[2], 0);
    lemma_progress_push(a.push(one[0]).push(one[1]).push(one[2]), one[3], 0);
    assert(media_steps(spans, images, total) =~= a.push(one[0]).push(one[1]).push(one[2]).push(
        one[3],
    ));
}

/// A chunk of new tokens is recorded, run at its position, written out, and then the
/// state behind it may be remembered; chunk after chunk.
pub proof fn law_steps_of_a_chunk(
    chunks: Seq<Gemma4PagedPrefillBodyChunk>,
    body: int,
    cached: int,
    k: int,
)
    requires
        tiles(chunks, body, 0, cached),
        body <= usize::MAX,
        0 <= k < chunks.len(),
        0 <= cached,
        cached + body <= u32::MAX,
    ensures
        ({
            let c = chunks[k];
            let steps = body_steps(chunks);
            &&& steps.len() == 5 * chunks.len()
            &&& steps[5 * k] == (PrefillStep::Record {
                start: c.start,
                end: (c.start + c.len) as usize,
            })
            &&& steps[5 * k + 1] == (PrefillStep::Run {
                start: c.start,
                end: (c.start + c.len) as usize,
                first_position: (cached + c.start) as u32,
            })
            &&& steps[5 * k + 2] == PrefillStep::EvalPool
            &&& steps[5 * k + 3] == PrefillStep::EvalCaches
            &&& steps[5 * k + 4] == (PrefillStep::Remember {
                next_position: (cached + c.start + c.len) as u32,
            })
        }),
{
    lemma_body_steps_at(chunks, k);
    lemma_tiles_bounds(chunks, body, 0, cached, k);
}

proof fn lemma_body_steps_at(chunks: Seq<Gemma4PagedPrefillBodyChunk>, k: int)
    requires
        0 <= k < chunks.len(),
    ensures
        body_steps(chunks).len() == 5 * chunks.len(),
        body_steps(chunks).subrange(5 * k, 5 * k + 5) == body_chunk(chunks[k]),
        body_steps(chunks)[5 * k] == body_chunk(chunks[k])[0],
        body_steps(chunks)[5 * k + 1] == body_chunk(chunks[k])[1],
        body_steps(chunks)[5 * k + 2] == body_chunk(chunks[k])[2],
        body_steps(chunks)[5 * k + 3] == body_chunk(chunks[k])[3],
        body_steps(chunks)[5 * k + 4] == body_chunk(chunks[k])[4],
    decreases chunks.len(),
{
    let front = chunks.drop_last();
    lemma_body_steps_len(front);
    if k < front.len() {
        lemma_body_steps_at(front, k);
        assert(front[k] == chunks[k]);
        assert(body_steps(chunks).subrange(5 * k, 5 * k + 5) =~= body_steps(front).subrange(
            5 * k,
            5 * k + 5,
        ));
    } else {
        assert(body_steps(chunks).subrange(5 * k, 5 * k + 5) =~= body_chunk(chunks[k]));
    }
}

proof fn lemma_body_steps_len(chunks: Seq<Gemma4PagedPrefillBodyChunk>)
    ensures
        body_steps(chunks).len() == 5 * chunks.len(),
    decreases chunks.len(),
{
    if chunks.len() > 0 {
        lemma_body_steps_len(chunks.drop_last());
    }
}

/// A chunk of cached tokens is replayed where it stands in the prompt, and the caches
/// are written out.
pub proof fn law_steps_of_a_replay(
    chunks: Seq<Gemma4PagedPrefillBodyChunk>,
    replayed: int,
    primed: int,
    k: int,
)
    requires
        tiles(chunks, replayed, 0, primed),
        0 <= primed,
        primed + replayed <= usize::MAX,
        0 <= k < chunks.len(),
    ensures
        ({
            let c = chunks[k];
            let steps = replay_steps(chunks, primed);
            &&& steps.len() == 2 * chunks.len()
            &&& steps[2 * k] == (PrefillStep::Replay {
                start: (primed + c.start) as usize,
                end: (primed + c.start + c.len) as usize,
            })
            &&& steps[2 * k + 1] == PrefillStep::EvalCaches
            &&& primed <= primed + c.start < primed + c.start + c.len <= primed + replayed
        }),
{
    lemma_replay_steps_at(chunks, primed, k);
    lemma_tiles_bounds(chunks, replayed, 0, primed, k);
    lemma_tiles_len(chunks, replayed, 0, primed, k);
}

proof fn lemma_tiles_len(
    chunks: Seq<Gemma4PagedPrefillBodyChunk>,
    body: int,
    start: int,
    position: int,
    k: int,
)
    requires
        tiles(chunks, body, start, position),
        0 <= k < chunks.len(),
    ensures
        chunks[k].len >= 1,
    decreases chunks.len(),
{
    if k > 0 {
        lemma_tiles_len(
            chunks.skip(1),
            body,
            start + chunks[0].len,
            position + chunks[0].len,
            k - 1,
        );
    }
}

proof fn lemma_replay_steps_at(chunks: Seq<Gemma4PagedPrefillBodyChunk>, primed: int, k: int)
    requires
        0 <= k < chunks.len(),
    ensures
        replay_steps(chunks, primed).len() == 2 * chunks.len(),
        replay_steps(chunks, primed)[2 * k] == replayed_chunk(chunks[k], primed)[0],
        replay_steps(chunks, primed)[2 * k + 1] == replayed_chunk(chunks[k], primed)[1],
    decreases chunks.len(),
{
    let front = chunks.drop_last();
    lemma_replay_steps_len(front, primed);
    if k < front.len() {
        lemma_replay_steps_at(front, primed, k);
        assert(front[k] == chunks[k]);
    }
}

proof fn lemma_replay_steps_len(chunks: Seq<Gemma4PagedPrefillBodyChunk>, primed: int)
    ensures
        replay_steps(chunks, primed).len() == 2 * chunks.len(),
    decreases chunks.len(),
{
    if chunks.len() > 0 {
        lemma_replay_steps_len(chunks.drop_last(), primed);
    }
}

/// A prompt begins with its replay, which is filed where there was one, goes on with
/// its chunks, and ends with its last token: recorded, run at its position, written out
/// and remembered as the end of the prompt, before its logits are computed.
pub proof fn law_order_of_a_prompt(
    replay: Seq<Gemma4PagedPrefillBodyChunk>,
    body: Seq<Gemma4PagedPrefillBodyChunk>,
    suffix: int,
    primed: int,
    position: u32,
)
    requires
        0 < suffix <= usize::MAX,
        position < u32::MAX,
    ensures
        ({
            let steps = paged_steps(replay, body, suffix, primed, position);
            let n = steps.len();
            let r = replay_steps(replay, primed).len() as int;
            let filed: int = if replay.len() > 0 {
                1
            } else {
                0
            };
            &&& n == r + filed + body_steps(body).len() + 5
            &&& steps.take(r) == replay_steps(replay, primed)
            &&& replay.len() > 0 ==> steps[r] == PrefillStep::FileReplayed
            &&& steps.subrange(r + filed, n - 5) == body_steps(body)
            &&& steps[n - 5] == (PrefillStep::Record {
                start: (suffix - 1) as usize,
                end: suffix as usize,
            })
            &&& steps[n - 4] == (PrefillStep::Run {
                start: (suffix - 1) as usize,
                end: suffix as usize,
                first_position: position,
            })
            &&& steps[n - 3] == PrefillStep::EvalPool
            &&& steps[n - 2] == (PrefillStep::RememberPrompt { position: (position + 1) as u32 })
            &&& steps[n - 1] == PrefillStep::Logits
        }),
{
    let steps = paged_steps(replay, body, suffix, primed, position);
    let n = steps.len();
    let r = replay_steps(replay, primed).len() as int;
    let filed: int = if replay.len() > 0 {
        1
    } else {
        0
    };
    assert(steps.take(r) =~= replay_steps(replay, primed));
    assert(steps.subrange(r + filed, n - 5) =~= body_steps(body));
}

/// A media prompt is run span by span: recorded, run at its position with images as a
/// whole where asked for, and written out; then its last token, which is no image, and
/// its logits.
pub proof fn law_order_of_a_media_prompt(spans: Seq<TokenSpan>, images: bool, total: int, k: int)
    requires
        0 < total <= u32::MAX,
        0 <= k < spans.len(),
        spans[k].start <= u32::MAX,
    ensures
        ({
            let steps = media_steps(spans, images, total);
            let s = spans[k];
            let n = steps.len();
            &&& n == 4 * spans.len() + 4
            &&& steps[4 * k] == (PrefillStep::Record { start: s.start, end: s.end })
            &&& steps[4 * k + 1] == (PrefillStep::RunEmbeds {
                start: s.start,
                end: s.end,
                first_position: s.start as u32,
                images,
            })
            &&& steps[4 * k + 2] == PrefillStep::EvalPool
            &&& steps[4 * k + 3] == PrefillStep::EvalCaches
            &&& steps[n - 4] == (PrefillStep::Record {
                start: (total - 1) as usize,
                end: total as usize,
            })
            &&& steps[n - 3] == (PrefillStep::RunEmbeds {
                start: (total - 1) as usize,
                end: total as usize,
                first_position: (total - 1) as u32,
                images: false,
            })
            &&& steps[n - 2] == PrefillStep::EvalPool
            &&& steps[n - 1] == PrefillStep::Logits
        }),
{
    lemma_spans_steps_at(spans, images, k);
}

proof fn lemma_spans_steps_at(spans: Seq<TokenSpan>, images: bool, k: int)
    requires
        0 <= k < spans.len(),
    ensures
        spans_steps(spans, images).len() == 4 * spans.len(),
        spans_steps(spans, images)[4 * k] == span_steps(spans[k], images)[0],
        spans_steps(spans, images)[4 * k + 1] == span_steps(spans[k], images)[1],
        spans_steps(spans, images)[4 * k + 2] == span_steps(spans[k], images)[2],
        spans_steps(spans, images)[4 * k + 3] == span_steps(spans[k], images)[3],
    decreases spans.len(),
{
    let front = spans.drop_last();
    lemma_spans_steps_len(front, images);
    if k < front.len() {
        lemma_spans_steps_at(front, images, k);
        assert(front[k] == spans[k]);
    }
}

proof fn lemma_spans_steps_len(spans: Seq<TokenSpan>, images: bool)
    ensures
        spans_steps(spans, images).len() == 4 * spans.len(),
    decreases spans.len(),
{
    if spans.len() > 0 {
        lemma_spans_steps_len(spans.drop_last(), images);
    }
}

} // verus!
