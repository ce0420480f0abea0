//! The remembered sliding-window states: filing, eviction and lookup.

use std::collections::VecDeque;

use vstd::prelude::*;

use crate::checkpoints::compute_gemma4_paged_prefix_block_hash;
use crate::checkpoints::prefix_hash;
use crate::checkpoints::pure_hash;
use crate::checkpoints::restorable;
use crate::checkpoints::restore_gemma4_sliding_caches;
use crate::checkpoints::restored;
use crate::checkpoints::total_hash;
use crate::checkpoints::Gemma4LayerCache;
use crate::checkpoints::RotatingKVCacheSnapshot;
use crate::config::Gemma4Config;

verus! {

/// What a checkpoint holds.
#[verifier::ext_equal]
pub ghost struct CheckpointView {
    pub prefix_len: u32,
    pub block_size: u32,
    pub final_block_hash: u64,
    pub tokens: Seq<u32>,
    pub snapshots: Seq<Option<RotatingKVCacheSnapshot>>,
}

/// The sliding layers after a prefix that ends at a block boundary.
#[derive(Debug)]
pub struct Gemma4SlidingPrefixCheckpoint {
    pub prefix_len: u32,
    pub block_size: u32,
    pub final_block_hash: u64,
    pub tokens: Vec<u32>,
    pub snapshots: Vec<Option<RotatingKVCacheSnapshot>>,
}

impl Gemma4SlidingPrefixCheckpoint {
    /// What the checkpoint holds.
    pub open spec fn view(self) -> CheckpointView {
        CheckpointView {
            prefix_len: self.prefix_len,
            block_size: self.block_size,
            final_block_hash: self.final_block_hash,
            tokens: self.tokens@,
            snapshots: self.snapshots@,
        }
    }
}

/// What checkpoints hold.
pub open spec fn views(store: Seq<Gemma4SlidingPrefixCheckpoint>) -> Seq<CheckpointView> {
    Seq::new(store.len(), |i: int| store[i].view())
}

/// What a checkpoint that may be missing holds.
pub open spec fn opt_view(c: Option<Gemma4SlidingPrefixCheckpoint>) -> Option<CheckpointView> {
    match c {
        Some(c) => Some(c.view()),
        None => None,
    }
}

/// The sliding layers after a whole history.
#[derive(Debug)]
pub struct Gemma4SlidingHistoryCheckpoint {
    pub tokens: Vec<u32>,
    pub snapshots: Vec<Option<RotatingKVCacheSnapshot>>,
}

/// Caches for a prefix, and its length.
#[derive(Debug)]
pub struct Gemma4SlidingPrefixCheckpointHit {
    pub prefix_len: u32,
    pub caches: Vec<Gemma4LayerCache>,
}

/// Two checkpoints are of the same prefix.
pub open spec fn same_prefix(a: CheckpointView, b: CheckpointView) -> bool {
    &&& a.prefix_len == b.prefix_len
    &&& a.block_size == b.block_size
    &&& a.final_block_hash == b.final_block_hash
    &&& a.tokens == b.tokens
}

/// `store` without the checkpoints of the prefix of `c`.
pub open spec fn without_prefix(store: Seq<CheckpointView>, c: CheckpointView) -> Seq<
    CheckpointView,
>
    decreases store.len(),
{
    if store.len() == 0 {
        store
    } else if same_prefix(store.last(), c) {
        without_prefix(store.drop_last(), c)
    } else {
        without_prefix(store.drop_last(), c).push(store.last())
    }
}

/// The newest `limit` checkpoints; all of them where the limit is 0.
pub open spec fn newest(store: Seq<CheckpointView>, limit: int) -> Seq<CheckpointView> {
    if limit <= 0 || store.len() <= limit {
        store
    } else {
        store.skip(store.len() - limit)
    }
}

/// `store` after `c` is filed: `c` becomes the newest, replaces what was filed
/// for its prefix, and the oldest go where there are too many.
pub open spec fn filed(store: Seq<CheckpointView>, c: CheckpointView, limit: int) -> Seq<
    CheckpointView,
> {
    newest(without_prefix(store, c).push(c), limit)
}

/// Whether two token lists are the same.
pub fn tokens_eq(a: &Vec<u32>, b: &Vec<u32>) -> (r: bool)
    ensures
        r == (a@ == b@),
{
    if a.len() != b.len() {
        return false;
    }
    let mut i: usize = 0;
    while i < a.len()
        invariant
            a@.len() == b@.len(),
            i <= a@.len(),
            forall|k: int| 0 <= k < i ==> a@[k] == b@[k],
        decreases a@.len() - i,
    {
        if a[i] != b[i] {
            return false;
        }
        i += 1;
    }
    assert(a@ =~= b@);
    true
}

/// Whether `tokens` begin with `prefix`.
pub fn tokens_start_with(tokens: &[u32], prefix: &Vec<u32>) -> (r: bool)
    ensures
        r == prefix@.is_prefix_of(tokens@),
{
    if prefix.len() > tokens.len() {
        return false;
    }
    let mut i: usize = 0;
    while i < prefix.len()
        invariant
            prefix@.len() <= tokens@.len(),
            i <= prefix@.len(),
            forall|k: int| 0 <= k < i ==> prefix@[k] == tokens@[k],
        decreases prefix@.len() - i,
    {
        if prefix[i] != tokens[i] {
            assert(tokens@.subrange(0, prefix@.len() as int)[i as int] == tokens@[i as int]);
            return false;
        }
        i += 1;
    }
    assert(tokens@.subrange(0, prefix@.len() as int) =~= prefix@);
    true
}

/// Drops the oldest checkpoints beyond `limit`; tells how many went.
pub fn trim_gemma4_sliding_prefix_checkpoints(
    checkpoints: &mut VecDeque<Gemma4SlidingPrefixCheckpoint>,
    limit: usize,
) -> (evicted: usize)
    ensures
        views(final(checkpoints)@) == newest(views(old(checkpoints)@), limit as int),
        evicted == old(checkpoints)@.len() - final(checkpoints)@.len(),
{
    let ghost all = checkpoints@;
    if limit == 0 {
        return 0;
    }
    let mut evicted: usize = 0;
    let before: usize = checkpoints.len();
    assert(all.skip(0) =~= all);
    while checkpoints.len() > limit
        invariant
            limit > 0,
            evicted + checkpoints@.len() == all.len(),
            checkpoints@ == all.skip(evicted as int),
            evicted > 0 ==> checkpoints@.len() >= limit,
            all.len() == before,
        decreases checkpoints@.len(),
    {
        checkpoints.pop_front();
        assert(checkpoints@ =~= all.skip(evicted + 1));
        evicted += 1;
    }
    proof {
        assert(views(checkpoints@) =~= newest(views(all), limit as int));
    }
    evicted
}

fn is_same_prefix(a: &Gemma4SlidingPrefixCheckpoint, b: &Gemma4SlidingPrefixCheckpoint) -> (r: bool)
    ensures
        r == same_prefix(a.view(), b.view()),
{
    a.prefix_len == b.prefix_len && a.block_size == b.block_size && a.final_block_hash
        == b.final_block_hash && tokens_eq(&a.tokens, &b.tokens)
}

fn drop_prefix(
    checkpoints: &mut VecDeque<Gemma4SlidingPrefixCheckpoint>,
    c: &Gemma4SlidingPrefixCheckpoint,
)
    ensures
        views(final(checkpoints)@) == without_prefix(views(old(checkpoints)@), c.view()),
        final(checkpoints)@.len() <= old(checkpoints)@.len(),
{
    let ghost all = views(checkpoints@);
    let ghost mut seen: int = 0;
    let mut i: usize = 0;
    proof {
        assert(all.take(0) =~= Seq::<CheckpointView>::empty());
        assert(views(checkpoints@).take(0) =~= without_prefix(all.take(0), c.view()));
        assert(views(checkpoints@).skip(0) =~= all.skip(0));
    }
    while i < checkpoints.len()
        invariant
            i <= checkpoints@.len(),
            0 <= seen <= all.len(),
            views(checkpoints@).take(i as int) == without_prefix(all.take(seen), c.view()),
            views(checkpoints@).skip(i as int) == all.skip(seen),
            checkpoints@.len() - i == all.len() - seen,
            checkpoints@.len() <= all.len(),
        decreases checkpoints@.len() - i,
    {
        let ghost before = checkpoints@;
        proof {
            assert(views(before).skip(i as int)[0] == before[i as int].view());
            assert(all.skip(seen)[0] == all[seen]);
            assert(all.take(seen + 1).drop_last() =~= all.take(seen));
            assert(all.take(seen + 1).last() == all[seen]);
        }
        if is_same_prefix(&checkpoints[i], c) {
            checkpoints.remove(i);
            proof {
                assert(views(checkpoints@).take(i as int) =~= views(before).take(i as int));
                assert(views(checkpoints@).skip(i as int) =~= all.skip(seen + 1)) by {
                    assert(views(before).skip(i as int).skip(1) =~= all.skip(seen).skip(1));
                    assert(views(before).skip(i as int).skip(1) =~= views(checkpoints@).skip(
                        i as int,
                    ));
                    assert(all.skip(seen).skip(1) =~= all.skip(seen + 1));
                }
                seen = seen + 1;
            }
        } else {
            i += 1;
            proof {
                assert(views(before).take(i as int) =~= views(before).take(i - 1).push(all[seen]));
                assert(views(before).skip(i as int) =~= all.skip(seen + 1)) by {
                    assert(views(before).skip(i - 1).skip(1) =~= all.skip(seen).skip(1));
                    assert(views(before).skip(i - 1).skip(1) =~= views(before).skip(i as int));
                    assert(all.skip(seen).skip(1) =~= all.skip(seen + 1));
                }
                seen = seen + 1;
            }
        }
    }
    proof {
        assert(views(checkpoints@).take(i as int) =~= views(checkpoints@));
        assert(all.take(seen) =~= all);
    }
}

/// Files a checkpoint as the newest one.
pub fn file_checkpoint(
    checkpoints: &mut VecDeque<Gemma4SlidingPrefixCheckpoint>,
    checkpoint: Gemma4SlidingPrefixCheckpoint,
    limit: usize,
)
    ensures
        views(final(checkpoints)@) == filed(
            views(old(checkpoints)@),
            checkpoint.view(),
            limit as int,
        ),
{
    drop_prefix(checkpoints, &checkpoint);
    let ghost before = checkpoints@;
    checkpoints.push_back(checkpoint);
    assert(views(checkpoints@) =~= views(before).push(checkpoint.view()));
    trim_gemma4_sliding_prefix_checkpoints(checkpoints, limit);
}

/// A positive limit bounds the store, and what was filed last is in it.
pub proof fn law_store_is_bounded(store: Seq<CheckpointView>, c: CheckpointView, limit: int)
    requires
        limit > 0,
    ensures
        filed(store, c, limit).len() <= limit,
        filed(store, c, limit).last() == c,
        filed(store, c, limit).len() >= 1,
{
}

proof fn lemma_without_prefix_members(store: Seq<CheckpointView>, c: CheckpointView, i: int)
    requires
        0 <= i < without_prefix(store, c).len(),
    ensures
        !same_prefix(without_prefix(store, c)[i], c),
        store.contains(without_prefix(store, c)[i]),
    decreases store.len(),
{
    let rest = without_prefix(store.drop_last(), c);
    if same_prefix(store.last(), c) || i < rest.len() {
        lemma_without_prefix_members(store.drop_last(), c, i);
        let k = choose|k: int|
            0 <= k < store.drop_last().len() && store.drop_last()[k] == rest[i];
        assert(store[k] == rest[i]);
    } else {
        assert(store[store.len() - 1] == without_prefix(store, c)[i]);
    }
}

/// A store holds one checkpoint for each prefix that was filed: only the last
/// entry is of the prefix of what was filed last.
pub proof fn law_filed_prefix_occurs_once(
    store: Seq<CheckpointView>,
    c: CheckpointView,
    limit: int,
    i: int,
)
    requires
        0 <= i < filed(store, c, limit).len() - 1,
    ensures
        !same_prefix(filed(store, c, limit)[i], c),
{
    let rest = without_prefix(store, c);
    let all = rest.push(c);
    let shift = if limit <= 0 || all.len() <= limit {
        0
    } else {
        all.len() - limit
    };
    assert(filed(store, c, limit)[i] == rest[i + shift]);
    lemma_without_prefix_members(store, c, i + shift);
}

/// `c` is in the store, with at most `newer` checkpoints behind it.
pub open spec fn among_newest(store: Seq<CheckpointView>, c: CheckpointView, newer: int) -> bool {
    exists|i: int|
        0 <= i < store.len() && #[trigger] store[i] == c && store.len() - 1 - i <= newer
}

/// The store after checkpoints are filed one after the other.
pub open spec fn filed_all(
    store: Seq<CheckpointView>,
    newer: Seq<CheckpointView>,
    limit: int,
) -> Seq<CheckpointView>
    decreases newer.len(),
{
    if newer.len() == 0 {
        store
    } else {
        filed(filed_all(store, newer.drop_last(), limit), newer.last(), limit)
    }
}

proof fn lemma_without_prefix_keeps(
    store: Seq<CheckpointView>,
    other: CheckpointView,
    c: CheckpointView,
    newer: int,
)
    requires
        among_newest(store, c, newer),
        !same_prefix(c, other),
    ensures
        among_newest(without_prefix(store, other), c, newer),
    decreases store.len(),
{
    let out = without_prefix(store, other);
    let i = choose|i: int|
        0 <= i < store.len() && #[trigger] store[i] == c && store.len() - 1 - i <= newer;
    if i == store.len() - 1 {
        assert(out[out.len() - 1] == c);
    } else {
        let front = store.drop_last();
        assert(front[i] == c);
        assert(among_newest(front, c, newer - 1));
        lemma_without_prefix_keeps(front, other, c, newer - 1);
        let rest = without_prefix(front, other);
        let k = choose|k: int|
            0 <= k < rest.len() && #[trigger] rest[k] == c && rest.len() - 1 - k <= newer - 1;
        assert(out[k] == c);
    }
}

/// A checkpoint outlives newer ones of other prefixes, as long as there are
/// fewer of them than the limit.
pub proof fn law_checkpoint_outlives_newer_ones(
    store: Seq<CheckpointView>,
    c: CheckpointView,
    newer: Seq<CheckpointView>,
    limit: int,
)
    requires
        newer.len() < limit,
        forall|i: int| 0 <= i < newer.len() ==> !same_prefix(c, #[trigger] newer[i]),
    ensures
        filed_all(filed(store, c, limit), newer, limit).contains(c),
        among_newest(filed_all(filed(store, c, limit), newer, limit), c, newer.len() as int),
    decreases newer.len(),
{
    let start = filed(store, c, limit);
    if newer.len() == 0 {
        assert(start[start.len() - 1] == c);
    } else {
        let front = newer.drop_last();
        let last = newer.last();
        assert forall|i: int| 0 <= i < front.len() implies !same_prefix(c, #[trigger] front[i]) by {
            assert(front[i] == newer[i]);
        }
        law_checkpoint_outlives_newer_ones(store, c, front, limit);
        let before = filed_all(start, front, limit);
        assert(!same_prefix(c, newer[newer.len() - 1]));
        lemma_without_prefix_keeps(before, last, c, front.len() as int);
        let kept = without_prefix(before, last);
        let k = choose|k: int|
            0 <= k < kept.len() && #[trigger] kept[k] == c && kept.len() - 1 - k <= front.len();
        let all = kept.push(last);
        assert(all[k] == c);
        let after = filed_all(start, newer, limit);
        assert(after == newest(all, limit));
        if all.len() > limit {
            assert(after[k - (all.len() - limit)] == c);
        } else {
            assert(after[k] == c);
        }
    }
}

/// A checkpoint serves a prompt of which at least `target` tokens are cached:
/// it is no longer than that, was taken of the same tokens and blocks, and its
/// states can be restored.
pub open spec fn serves<H: Fn(&[u32], u64, &[u64]) -> u64>(
    c: CheckpointView,
    config: Gemma4Config,
    hash: H,
    tokens: Seq<u32>,
    target: u32,
    block_size: u32,
    cache_salt: u64,
) -> bool {
    &&& c.prefix_len <= target
    &&& c.block_size == block_size
    &&& c.prefix_len <= tokens.len()
    &&& c.tokens == tokens.take(c.prefix_len as int)
    &&& prefix_hash(hash, tokens, c.prefix_len, block_size, cache_salt) == Some(c.final_block_hash)
    &&& restorable(config, c.snapshots, c.prefix_len)
}

/// The better of `best` and the first `n` checkpoints, looked at from the
/// newest on: a longer prefix wins.
pub open spec fn best_of<H: Fn(&[u32], u64, &[u64]) -> u64>(
    store: Seq<CheckpointView>,
    n: int,
    best: Option<CheckpointView>,
    config: Gemma4Config,
    hash: H,
    tokens: Seq<u32>,
    target: u32,
    block_size: u32,
    cache_salt: u64,
) -> Option<CheckpointView>
    decreases n,
{
    if n <= 0 {
        best
    } else {
        let c = store[n - 1];
        let next = if best matches Some(b) && b.prefix_len >= c.prefix_len {
            best
        } else if serves(c, config, hash, tokens, target, block_size, cache_salt) {
            Some(c)
        } else {
            best
        };
        best_of(store, n - 1, next, config, hash, tokens, target, block_size, cache_salt)
    }
}

/// The boundary checkpoint where it serves.
pub open spec fn first_best<H: Fn(&[u32], u64, &[u64]) -> u64>(
    boundary: Option<CheckpointView>,
    config: Gemma4Config,
    hash: H,
    tokens: Seq<u32>,
    target: u32,
    block_size: u32,
    cache_salt: u64,
) -> Option<CheckpointView> {
    match boundary {
        Some(c) => if serves(c, config, hash, tokens, target, block_size, cache_salt) {
            Some(c)
        } else {
            None
        },
        None => None,
    }
}

/// The checkpoint that a prompt continues from.
pub open spec fn found<H: Fn(&[u32], u64, &[u64]) -> u64>(
    boundary: Option<CheckpointView>,
    store: Seq<CheckpointView>,
    config: Gemma4Config,
    hash: H,
    tokens: Seq<u32>,
    target: u32,
    block_size: u32,
    cache_salt: u64,
) -> Option<CheckpointView> {
    best_of(
        store,
        store.len() as int,
        first_best(boundary, config, hash, tokens, target, block_size, cache_salt),
        config,
        hash,
        tokens,
        target,
        block_size,
        cache_salt,
    )
}

fn try_restore_checkpoint<H: Fn(&[u32], u64, &[u64]) -> u64>(
    config: &Gemma4Config,
    checkpoint: &Gemma4SlidingPrefixCheckpoint,
    tokens: &[u32],
    target_prefix_len: u32,
    block_size: u32,
    cache_salt: u64,
    hash: &H,
) -> (r: Option<Gemma4SlidingPrefixCheckpointHit>)
    requires
        config.wf(),
        total_hash(*hash),
        pure_hash(*hash),
    ensures
        match r {
            Some(hit) => serves(
                checkpoint.view(),
                *config,
                *hash,
                tokens@,
                target_prefix_len,
                block_size,
                cache_salt,
            ) && hit.prefix_len == checkpoint.prefix_len && hit.caches@ == restored(
                *config,
                checkpoint.snapshots@,
            ),
            None => !serves(
                checkpoint.view(),
                *config,
                *hash,
                tokens@,
                target_prefix_len,
                block_size,
                cache_salt,
            ),
        },
{
    if checkpoint.prefix_len > target_prefix_len || checkpoint.block_size != block_size {
        return None;
    }
    if checkpoint.prefix_len as usize > tokens.len() {
        return None;
    }
    if checkpoint.tokens.len() != checkpoint.prefix_len as usize || !tokens_start_with(
        tokens,
        &checkpoint.tokens,
    ) {
        proof {
            let prefix = tokens@.take(checkpoint.prefix_len as int);
            if checkpoint.tokens@ == prefix {
                assert(tokens@.subrange(0, prefix.len() as int) =~= prefix);
            }
        }
        return None;
    }
    assert(checkpoint.tokens@ =~= tokens@.take(checkpoint.prefix_len as int));
    match compute_gemma4_paged_prefix_block_hash(
        tokens,
        checkpoint.prefix_len,
        block_size,
        cache_salt,
        hash,
    ) {
        None => {
            return None;
        },
        Some(h) => {
            if h != checkpoint.final_block_hash {
                return None;
            }
        },
    }
    match restore_gemma4_sliding_caches(config, &checkpoint.snapshots, checkpoint.prefix_len) {
        None => None,
        Some(caches) => Some(
            Gemma4SlidingPrefixCheckpointHit { prefix_len: checkpoint.prefix_len, caches },
        ),
    }
}

/// A hit is the restored form of a checkpoint.
pub open spec fn hit_is(
    hit: Option<Gemma4SlidingPrefixCheckpointHit>,
    c: Option<CheckpointView>,
    config: Gemma4Config,
) -> bool {
    match (hit, c) {
        (None, None) => true,
        (Some(h), Some(v)) => h.prefix_len == v.prefix_len && h.caches@ == restored(
            config,
            v.snapshots,
        ),
        _ => false,
    }
}

proof fn lemma_full_hit_stays<H: Fn(&[u32], u64, &[u64]) -> u64>(
    store: Seq<CheckpointView>,
    n: int,
    best: Option<CheckpointView>,
    config: Gemma4Config,
    hash: H,
    tokens: Seq<u32>,
    target: u32,
    block_size: u32,
    cache_salt: u64,
)
    requires
        best matches Some(b) && b.prefix_len == target,
    ensures
        best_of(store, n, best, config, hash, tokens, target, block_size, cache_salt) == best,
    decreases n,
{
    if n > 0 {
        lemma_full_hit_stays(
            store,
            n - 1,
            best,
            config,
            hash,
            tokens,
            target,
            block_size,
            cache_salt,
        );
    }
}

/// The longest remembered prefix that a prompt extends, up to `prefix_len`
/// tokens. Of equally long ones the boundary checkpoint goes first, then the
/// newest.
pub fn find_prefix_checkpoint<H: Fn(&[u32], u64, &[u64]) -> u64>(
    config: &Gemma4Config,
    boundary: &Option<Gemma4SlidingPrefixCheckpoint>,
    checkpoints: &VecDeque<Gemma4SlidingPrefixCheckpoint>,
    tokens: &[u32],
    prefix_len: u32,
    block_size: u32,
    cache_salt: u64,
    hash: &H,
) -> (r: Option<Gemma4SlidingPrefixCheckpointHit>)
    requires
        config.wf(),
        total_hash(*hash),
        pure_hash(*hash),
    ensures
        hit_is(
            r,
            found(
                opt_view(*boundary),
                views(checkpoints@),
                *config,
                *hash,
                tokens@,
                prefix_len,
                block_size,
                cache_salt,
            ),
            *config,
        ),
{
    let ghost store = views(checkpoints@);
    let ghost want = found(
        opt_view(*boundary),
        store,
        *config,
        *hash,
        tokens@,
        prefix_len,
        block_size,
        cache_salt,
    );
    let mut best: Option<Gemma4SlidingPrefixCheckpointHit> = match boundary {
        Some(c) => try_restore_checkpoint(
            config,
            c,
            tokens,
            prefix_len,
            block_size,
            cache_salt,
            hash,
        ),
        None => None,
    };
    let ghost mut best_view = first_best(
        opt_view(*boundary),
        *config,
        *hash,
        tokens@,
        prefix_len,
        block_size,
        cache_salt,
    );
    let mut n: usize = checkpoints.len();
    while n > 0
        invariant
            config.wf(),
            total_hash(*hash),
            pure_hash(*hash),
            n <= checkpoints@.len(),
            store == views(checkpoints@),
            hit_is(best, best_view, *config),
            want == found(
                opt_view(*boundary),
                store,
                *config,
                *hash,
                tokens@,
                prefix_len,
                block_size,
                cache_salt,
            ),
            want == best_of(
                store,
                n as int,
                best_view,
                *config,
                *hash,
                tokens@,
                prefix_len,
                block_size,
                cache_salt,
            ),
        decreases n,
    {
        n -= 1;
        let checkpoint = &checkpoints[n];
        assert(store[n as int] == checkpoint.view());
        let shorter: bool = match &best {
            Some(hit) => hit.prefix_len >= checkpoint.prefix_len,
            None => false,
        };
        if !shorter {
            match try_restore_checkpoint(
                config,
                checkpoint,
                tokens,
                prefix_len,
                block_size,
                cache_salt,
                hash,
            ) {
                Some(hit) => {
                    proof {
                        best_view = Some(checkpoint.view());
                    }
                    if hit.prefix_len == prefix_len {
                        proof {
                            lemma_full_hit_stays(
                                store,
                                n as int,
                                best_view,
                                *config,
                                *hash,
                                tokens@,
                                prefix_len,
                                block_size,
                                cache_salt,
                            );
                        }
                        return Some(hit);
                    }
                    best = Some(hit);
                },
                None => {},
            }
        }
    }
    best
}

/// What is found serves the prompt, and nothing that serves it is longer. So
/// nothing is found only where nothing serves.
pub proof fn law_found_is_longest<H: Fn(&[u32], u64, &[u64]) -> u64>(
    boundary: Option<CheckpointView>,
    store: Seq<CheckpointView>,
    config: Gemma4Config,
    hash: H,
    tokens: Seq<u32>,
    target: u32,
    block_size: u32,
    cache_salt: u64,
    c: CheckpointView,
)
    requires
        store.contains(c) || boundary == Some(c),
        serves(c, config, hash, tokens, target, block_size, cache_salt),
    ensures
        found(boundary, store, config, hash, tokens, target, block_size, cache_salt) matches Some(f)
            && serves(f, config, hash, tokens, target, block_size, cache_salt) && f.prefix_len
            >= c.prefix_len,
{
    let first = first_best(boundary, config, hash, tokens, target, block_size, cache_salt);
    let n = store.len() as int;
    lemma_best_of(store, n, first, config, hash, tokens, target, block_size, cache_salt);
    if store.contains(c) {
        let i = choose|i: int| 0 <= i < store.len() && store[i] == c;
        assert(store[i] == c);
    }
}

/// What is found serves the prompt.
pub proof fn law_found_serves<H: Fn(&[u32], u64, &[u64]) -> u64>(
    boundary: Option<CheckpointView>,
    store: Seq<CheckpointView>,
    config: Gemma4Config,
    hash: H,
    tokens: Seq<u32>,
    target: u32,
    block_size: u32,
    cache_salt: u64,
)
    ensures
        found(boundary, store, config, hash, tokens, target, block_size, cache_salt) matches Some(f)
            ==> serves(f, config, hash, tokens, target, block_size, cache_salt),
{
    let first = first_best(boundary, config, hash, tokens, target, block_size, cache_salt);
    lemma_best_of(
        store,
        store.len() as int,
        first,
        config,
        hash,
        tokens,
        target,
        block_size,
        cache_salt,
    );
}

proof fn lemma_best_of<H: Fn(&[u32], u64, &[u64]) -> u64>(
    store: Seq<CheckpointView>,
    n: int,
    best: Option<CheckpointView>,
    config: Gemma4Config,
    hash: H,
    tokens: Seq<u32>,
    target: u32,
    block_size: u32,
    cache_salt: u64,
)
    requires
        0 <= n <= store.len(),
        best matches Some(b) ==> serves(b, config, hash, tokens, target, block_size, cache_salt),
    ensures
        ({
            let f = best_of(store, n, best, config, hash, tokens, target, block_size, cache_salt);
            &&& f matches Some(v) ==> serves(
                v,
                config,
                hash,
                tokens,
                target,
                block_size,
                cache_salt,
            )
            &&& best matches Some(b) ==> (f matches Some(v) && v.prefix_len >= b.prefix_len)
            &&& forall|i: int|
                0 <= i < n && serves(
                    #[trigger] store[i],
                    config,
                    hash,
                    tokens,
                    target,
                    block_size,
                    cache_salt,
                ) ==> (f matches Some(v) && v.prefix_len >= store[i].prefix_len)
        }),
    decreases n,
{
    if n > 0 {
        let c = store[n - 1];
        let next = if best matches Some(b) && b.prefix_len >= c.prefix_len {
            best
        } else if serves(c, config, hash, tokens, target, block_size, cache_salt) {
            Some(c)
        } else {
            best
        };
        lemma_best_of(store, n - 1, next, config, hash, tokens, target, block_size, cache_salt);
    }
}

/// What was filed last is found again by every prompt that begins with its
/// tokens, unless something longer is.
pub proof fn law_filed_is_found<H: Fn(&[u32], u64, &[u64]) -> u64>(
    boundary: Option<CheckpointView>,
    store: Seq<CheckpointView>,
    c: CheckpointView,
    limit: int,
    config: Gemma4Config,
    hash: H,
    tokens: Seq<u32>,
    target: u32,
    block_size: u32,
    cache_salt: u64,
)
    requires
        limit > 0,
        serves(c, config, hash, tokens, target, block_size, cache_salt),
    ensures
        found(
            boundary,
            filed(store, c, limit),
            config,
            hash,
            tokens,
            target,
            block_size,
            cache_salt,
        ) matches Some(f) && f.prefix_len >= c.prefix_len,
{
    let after = filed(store, c, limit);
    assert(after.contains(after[after.len() - 1]));
    law_found_is_longest(
        boundary,
        after,
        config,
        hash,
        tokens,
        target,
        block_size,
        cache_salt,
        c,
    );
}

/// Filing a checkpoint drops those of the same prefix and, where there are too many, the
/// oldest; every other one stays, in its order.
pub proof fn law_other_checkpoints_stay(
    store: Seq<CheckpointView>,
    c: CheckpointView,
    limit: int,
    i: int,
)
    requires
        0 <= i < store.len(),
        !same_prefix(store[i], c),
        limit <= 0 || store.len() < limit,
    ensures
        filed(store, c, limit).contains(store[i]),
{
    lemma_without_prefix_holds(store, c, i);
    let rest = without_prefix(store, c);
    let k = choose|k: int| 0 <= k < rest.len() && rest[k] == store[i];
    assert(rest.push(c)[k] == store[i]);
}

proof fn lemma_without_prefix_holds(store: Seq<CheckpointView>, c: CheckpointView, i: int)
    requires
        0 <= i < store.len(),
        !same_prefix(store[i], c),
    ensures
        without_prefix(store, c).contains(store[i]),
        without_prefix(store, c).len() <= store.len(),
    decreases store.len(),
{
    let front = store.drop_last();
    let rest = without_prefix(front, c);
    if i < front.len() {
        lemma_without_prefix_holds(front, c, i);
        let k = choose|k: int| 0 <= k < rest.len() && rest[k] == front[i];
        if !same_prefix(store.last(), c) {
            assert(rest.push(store.last())[k] == store[i]);
        } else {
            assert(rest[k] == store[i]);
        }
    } else {
        lemma_without_prefix_len(front, c);
        assert(without_prefix(store, c)[rest.len() as int] == store[i]);
    }
}

proof fn lemma_without_prefix_len(store: Seq<CheckpointView>, c: CheckpointView)
    ensures
        without_prefix(store, c).len() <= store.len(),
    decreases store.len(),
{
    if store.len() > 0 {
        lemma_without_prefix_len(store.drop_last(), c);
    }
}

/// The newest of a store are its last ones, as many as the limit; without a limit all.
pub proof fn law_newest_are_the_last(store: Seq<CheckpointView>, limit: int, i: int)
    requires
        limit > 0,
    ensures
        newest(store, 0) == store,
        store.len() <= limit ==> newest(store, limit) == store,
        store.len() > limit ==> newest(store, limit).len() == limit && (0 <= i < limit ==> newest(
            store,
            limit,
        )[i] == store[store.len() - limit + i]),
{
}

/// Two checkpoints are of one prefix where length, blocks, hash and tokens are the same,
/// whatever they hold.
pub proof fn law_checkpoints_of_one_prefix(a: CheckpointView, b: CheckpointView)
    ensures
        same_prefix(a, b) <==> a.prefix_len == b.prefix_len && a.block_size == b.block_size
            && a.final_block_hash == b.final_block_hash && a.tokens == b.tokens,
        same_prefix(a, a),
{
}

/// A checkpoint serves a prompt that begins with its tokens, up to the length that is
/// cached, with the same blocks and hash, where it can be restored; and no other.
pub proof fn law_checkpoint_that_serves<H: Fn(&[u32], u64, &[u64]) -> u64>(
    c: CheckpointView,
    config: Gemma4Config,
    hash: H,
    tokens: Seq<u32>,
    target: u32,
    block_size: u32,
    cache_salt: u64,
)
    ensures
        c.prefix_len > target ==> !serves(c, config, hash, tokens, target, block_size, cache_salt),
        c.prefix_len > tokens.len() ==> !serves(
            c,
            config,
            hash,
            tokens,
            target,
            block_size,
            cache_salt,
        ),
        c.block_size != block_size ==> !serves(
            c,
            config,
            hash,
            tokens,
            target,
            block_size,
            cache_salt,
        ),
        c.prefix_len <= tokens.len() && c.tokens != tokens.take(c.prefix_len as int) ==> !serves(
            c,
            config,
            hash,
            tokens,
            target,
            block_size,
            cache_salt,
        ),
        prefix_hash(hash, tokens, c.prefix_len, block_size, cache_salt) != Some(c.final_block_hash)
            ==> !serves(c, config, hash, tokens, target, block_size, cache_salt),
        !restorable(config, c.snapshots, c.prefix_len) ==> !serves(
            c,
            config,
            hash,
            tokens,
            target,
            block_size,
            cache_salt,
        ),
        c.prefix_len <= target && c.prefix_len <= tokens.len() && c.block_size == block_size
            && c.tokens == tokens.take(c.prefix_len as int) && prefix_hash(
            hash,
            tokens,
            c.prefix_len,
            block_size,
            cache_salt,
        ) == Some(c.final_block_hash) && restorable(config, c.snapshots, c.prefix_len) ==> serves(
            c,
            config,
            hash,
            tokens,
            target,
            block_size,
            cache_salt,
        ),
{
}

/// What is handed out for a checkpoint is its length and the caches that it restores to.
pub proof fn law_hit_is_the_checkpoint(
    hit: Option<Gemma4SlidingPrefixCheckpointHit>,
    c: Option<CheckpointView>,
    config: Gemma4Config,
)
    requires
        hit_is(hit, c, config),
    ensures
        hit is Some <==> c is Some,
        c is Some ==> hit->0.prefix_len == c->0.prefix_len && hit->0.caches@ == restored(
            config,
            c->0.snapshots,
        ),
{
}

} // verus!
