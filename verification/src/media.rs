//! Media placeholders in a prompt: expansion, detection, and where features go.

use vstd::prelude::*;

use crate::config::Gemma4Config;

verus! {

/// Image placeholder of a checkpoint that names none.
pub const DEFAULT_IMAGE_TOKEN_ID: i32 = 258880;

/// Audio placeholder of a checkpoint that names none.
pub const DEFAULT_AUDIO_TOKEN_ID: i32 = 258881;

/// The low 32 bits of a signed number, unsigned.
pub open spec fn as_token(id: i32) -> u32 {
    (id as int % 0x1_0000_0000) as u32
}

/// A configured token id as a token.
pub fn token_of_id(id: i32) -> (r: u32)
    ensures
        r == as_token(id),
{
    if id >= 0 {
        id as u32
    } else {
        (id as i64 + 0x1_0000_0000) as u32
    }
}

/// The image placeholder of a model.
pub open spec fn image_token(c: Gemma4Config) -> u32 {
    as_token(
        match c.image_token_id {
            Some(id) => id,
            None => DEFAULT_IMAGE_TOKEN_ID,
        },
    )
}

/// The audio placeholder of a model.
pub open spec fn audio_token(c: Gemma4Config) -> u32 {
    as_token(
        match c.audio_token_id {
            Some(id) => id,
            None => DEFAULT_AUDIO_TOKEN_ID,
        },
    )
}

/// The image placeholder of a model.
pub fn image_token_of(config: &Gemma4Config) -> (r: u32)
    ensures
        r == image_token(*config),
{
    match config.image_token_id {
        Some(id) => token_of_id(id),
        None => token_of_id(DEFAULT_IMAGE_TOKEN_ID),
    }
}

/// The audio placeholder of a model.
pub fn audio_token_of(config: &Gemma4Config) -> (r: u32)
    ensures
        r == audio_token(*config),
{
    match config.audio_token_id {
        Some(id) => token_of_id(id),
        None => token_of_id(DEFAULT_AUDIO_TOKEN_ID),
    }
}

/// Whether `tokens` hold `token`.
pub fn holds_token(tokens: &[u32], token: u32) -> (r: bool)
    ensures
        r == tokens@.contains(token),
{
    let mut i: usize = 0;
    while i < tokens.len()
        invariant
            i <= tokens@.len(),
            forall|k: int| 0 <= k < i ==> tokens@[k] != token,
        decreases tokens@.len() - i,
    {
        if tokens[i] == token {
            return true;
        }
        i += 1;
    }
    false
}

/// Whether a prompt holds an image or audio placeholder.
///
/// Block hashes cover token ids, not media features, so such a prompt must not
/// look up blocks by their content.
pub fn prompt_holds_media_placeholders(
    tokens: &[u32],
    image_token_id: u32,
    audio_token_id: u32,
) -> (r: bool)
    ensures
        r == (tokens@.contains(image_token_id) || tokens@.contains(audio_token_id)),
{
    holds_token(tokens, image_token_id) || holds_token(tokens, audio_token_id)
}

/// Occurrences of `token`.
pub open spec fn occurrences(tokens: Seq<u32>, token: u32) -> nat
    decreases tokens.len(),
{
    if tokens.len() == 0 {
        0
    } else {
        occurrences(tokens.drop_last(), token) + if tokens.last() == token {
            1nat
        } else {
            0nat
        }
    }
}

/// Occurrences of `token`.
pub fn count_token(tokens: &[u32], token: u32) -> (r: usize)
    ensures
        r == occurrences(tokens@, token),
{
    let mut count: usize = 0;
    let mut i: usize = 0;
    assert(tokens@.take(0) =~= Seq::<u32>::empty());
    while i < tokens.len()
        invariant
            i <= tokens@.len(),
            count <= i,
            count == occurrences(tokens@.take(i as int), token),
        decreases tokens@.len() - i,
    {
        proof {
            assert(tokens@.take(i + 1).drop_last() =~= tokens@.take(i as int));
        }
        if tokens[i] == token {
            count += 1;
        }
        i += 1;
    }
    assert(tokens@.take(tokens@.len() as int) =~= tokens@);
    count
}

/// One expanded item: the opening token, `n` placeholders, the closing token.
pub open spec fn span(open: u32, token: u32, close: u32, n: nat) -> Seq<u32> {
    seq![open] + Seq::new(n, |i: int| token) + seq![close]
}

/// The spans of all items in a row.
pub open spec fn spans(open: u32, token: u32, close: u32, counts: Seq<u32>) -> Seq<u32>
    decreases counts.len(),
{
    if counts.len() == 0 {
        Seq::empty()
    } else {
        spans(open, token, close, counts.drop_last()) + span(
            open,
            token,
            close,
            counts.last() as nat,
        )
    }
}

/// `tokens` with placeholders replaced from the left: the next one by the span
/// of item `next`, as long as there are items.
pub open spec fn replaced(
    tokens: Seq<u32>,
    counts: Seq<u32>,
    next: int,
    open: u32,
    token: u32,
    close: u32,
) -> Seq<u32>
    decreases tokens.len(),
{
    if tokens.len() == 0 {
        Seq::empty()
    } else if tokens[0] == token && 0 <= next < counts.len() {
        span(open, token, close, counts[next] as nat) + replaced(
            tokens.skip(1),
            counts,
            next + 1,
            open,
            token,
            close,
        )
    } else {
        seq![tokens[0]] + replaced(tokens.skip(1), counts, next, open, token, close)
    }
}

/// A prompt with its media expanded. `counts` gives the placeholders of each
/// item. A prompt without a placeholder gets all items after its first token.
pub open spec fn expanded(
    tokens: Seq<u32>,
    counts: Seq<u32>,
    open: u32,
    token: u32,
    close: u32,
) -> Seq<u32> {
    if !tokens.contains(token) && counts.len() > 0 {
        if tokens.len() == 0 {
            Seq::empty()
        } else {
            seq![tokens[0]] + spans(open, token, close, counts) + tokens.skip(1)
        }
    } else {
        replaced(tokens, counts, 0, open, token, close)
    }
}

fn push_span(out: &mut Vec<u32>, open: u32, token: u32, close: u32, n: u32)
    ensures
        final(out)@ == old(out)@ + span(open, token, close, n as nat),
{
    let ghost before = out@;
    out.push(open);
    let mut i: u32 = 0;
    assert(out@ =~= before + (seq![open] + Seq::new(0, |k: int| token)));
    while i < n
        invariant
            i <= n,
            out@ == before + (seq![open] + Seq::new(i as nat, |k: int| token)),
        decreases n - i,
    {
        out.push(token);
        i += 1;
        assert(out@ =~= before + (seq![open] + Seq::new(i as nat, |k: int| token)));
    }
    out.push(close);
    assert(out@ =~= before + span(open, token, close, n as nat));
}

fn push_tokens(out: &mut Vec<u32>, tokens: &[u32], from: usize)
    requires
        from <= tokens@.len(),
    ensures
        final(out)@ == old(out)@ + tokens@.skip(from as int),
{
    let ghost before = out@;
    let mut i: usize = from;
    assert(out@ =~= before + tokens@.subrange(from as int, from as int));
    while i < tokens.len()
        invariant
            from <= i <= tokens@.len(),
            out@ == before + tokens@.subrange(from as int, i as int),
        decreases tokens@.len() - i,
    {
        out.push(tokens[i]);
        i += 1;
        assert(out@ =~= before + tokens@.subrange(from as int, i as int));
    }
    assert(tokens@.subrange(from as int, i as int) =~= tokens@.skip(from as int));
}

/// A prompt with one kind of media expanded.
pub fn expand_media_tokens(
    tokens: &[u32],
    counts: &Vec<u32>,
    token_id: u32,
    open_id: u32,
    close_id: u32,
) -> (r: Vec<u32>)
    ensures
        r@ == expanded(tokens@, counts@, open_id, token_id, close_id),
{
    let mut out: Vec<u32> = Vec::new();
    if !holds_token(tokens, token_id) && counts.len() > 0 {
        if tokens.len() == 0 {
            return out;
        }
        out.push(tokens[0]);
        let mut k: usize = 0;
        proof {
            assert(counts@.take(0) =~= Seq::<u32>::empty());
            assert(out@ =~= seq![tokens@[0]] + spans(open_id, token_id, close_id, counts@.take(0)));
        }
        while k < counts.len()
            invariant
                tokens@.len() > 0,
                k <= counts@.len(),
                out@ == seq![tokens@[0]] + spans(
                    open_id,
                    token_id,
                    close_id,
                    counts@.take(k as int),
                ),
            decreases counts@.len() - k,
        {
            push_span(&mut out, open_id, token_id, close_id, counts[k]);
            proof {
                let upto = counts@.take(k + 1);
                assert(upto.drop_last() =~= counts@.take(k as int));
                assert(out@ =~= seq![tokens@[0]] + spans(open_id, token_id, close_id, upto));
            }
            k += 1;
        }
        assert(counts@.take(counts@.len() as int) =~= counts@);
        push_tokens(&mut out, tokens, 1);
        return out;
    }
    let mut next: usize = 0;
    let mut i: usize = 0;
    let ghost whole = replaced(tokens@, counts@, 0, open_id, token_id, close_id);
    proof {
        assert(tokens@.skip(0) =~= tokens@);
        assert(out@ + whole =~= whole);
    }
    while i < tokens.len()
        invariant
            i <= tokens@.len(),
            next <= counts@.len(),
            out@ + replaced(
                tokens@.skip(i as int),
                counts@,
                next as int,
                open_id,
                token_id,
                close_id,
            ) == whole,
        decreases tokens@.len() - i,
    {
        let ghost rest = tokens@.skip(i as int);
        let ghost before = out@;
        assert(rest.skip(1) =~= tokens@.skip(i + 1));
        if tokens[i] == token_id && next < counts.len() {
            push_span(&mut out, open_id, token_id, close_id, counts[next]);
            proof {
                let s = span(open_id, token_id, close_id, counts@[next as int] as nat);
                let tail = replaced(
                    rest.skip(1),
                    counts@,
                    next + 1,
                    open_id,
                    token_id,
                    close_id,
                );
                assert(before + (s + tail) =~= out@ + tail);
            }
            next += 1;
        } else {
            out.push(tokens[i]);
            proof {
                let tail = replaced(
                    rest.skip(1),
                    counts@,
                    next as int,
                    open_id,
                    token_id,
                    close_id,
                );
                assert(before + (seq![rest[0]] + tail) =~= out@ + tail);
            }
        }
        i += 1;
    }
    assert(out@ + Seq::<u32>::empty() =~= out@);
    out
}

/// A prompt with its images expanded; `num_soft_tokens` gives the tokens of
/// each image.
pub fn expand_image_tokens(
    tokens: &[u32],
    num_soft_tokens: &Vec<u32>,
    image_token_id: u32,
    boi_token_id: u32,
    eoi_token_id: u32,
) -> (r: Vec<u32>)
    ensures
        r@ == expanded(
            tokens@,
            num_soft_tokens@,
            boi_token_id,
            image_token_id,
            eoi_token_id,
        ),
{
    expand_media_tokens(tokens, num_soft_tokens, image_token_id, boi_token_id, eoi_token_id)
}

/// A prompt without media is left as it is.
pub proof fn law_expansion_keeps_plain_prompt(
    tokens: Seq<u32>,
    counts: Seq<u32>,
    open: u32,
    token: u32,
    close: u32,
)
    requires
        counts.len() == 0,
    ensures
        expanded(tokens, counts, open, token, close) == tokens,
{
    lemma_replaced_without_items(tokens, counts, 0, open, token, close);
}

proof fn lemma_replaced_without_items(
    tokens: Seq<u32>,
    counts: Seq<u32>,
    next: int,
    open: u32,
    token: u32,
    close: u32,
)
    requires
        next >= counts.len() || !tokens.contains(token),
    ensures
        replaced(tokens, counts, next, open, token, close) == tokens,
    decreases tokens.len(),
{
    if tokens.len() > 0 {
        if next < counts.len() {
            assert(tokens.contains(tokens[0]));
            assert forall|t: u32| tokens.skip(1).contains(t) implies tokens.contains(t) by {
                let k = choose|k: int| 0 <= k < tokens.skip(1).len() && tokens.skip(1)[k] == t;
                assert(tokens[k + 1] == t);
            }
        }
        lemma_replaced_without_items(tokens.skip(1), counts, next, open, token, close);
        assert(seq![tokens[0]] + tokens.skip(1) =~= tokens);
    }
}

proof fn lemma_occurrences_concat(a: Seq<u32>, b: Seq<u32>, token: u32)
    ensures
        occurrences(a + b, token) == occurrences(a, token) + occurrences(b, token),
    decreases b.len(),
{
    if b.len() == 0 {
        assert(a + b =~= a);
    } else {
        assert((a + b).drop_last() =~= a + b.drop_last());
        lemma_occurrences_concat(a, b.drop_last(), token);
    }
}

proof fn lemma_occurrences_repeat(n: nat, token: u32)
    ensures
        occurrences(Seq::new(n, |i: int| token), token) == n,
    decreases n,
{
    if n > 0 {
        assert(Seq::new(n, |i: int| token).drop_last() =~= Seq::new(
            (n - 1) as nat,
            |i: int| token,
        ));
        lemma_occurrences_repeat((n - 1) as nat, token);
    }
}

proof fn lemma_span_occurrences(open: u32, token: u32, close: u32, n: nat)
    requires
        open != token,
        close != token,
    ensures
        occurrences(span(open, token, close, n), token) == n,
{
    let middle = Seq::new(n, |i: int| token);
    lemma_occurrences_concat(seq![open] + middle, seq![close], token);
    lemma_occurrences_concat(seq![open], middle, token);
    lemma_occurrences_repeat(n, token);
    assert(seq![open].drop_last() =~= Seq::<u32>::empty());
    assert(seq![close].drop_last() =~= Seq::<u32>::empty());
    reveal_with_fuel(occurrences, 2);
}

/// Placeholders of the items `from` to `to`.
pub open spec fn total(counts: Seq<u32>, from: int, to: int) -> int
    decreases to - from,
{
    if to <= from {
        0
    } else {
        counts[from] + total(counts, from + 1, to)
    }
}

proof fn lemma_replaced_occurrences(
    tokens: Seq<u32>,
    counts: Seq<u32>,
    next: int,
    open: u32,
    token: u32,
    close: u32,
)
    requires
        open != token,
        close != token,
        0 <= next,
        next + occurrences(tokens, token) <= counts.len(),
    ensures
        occurrences(replaced(tokens, counts, next, open, token, close), token) == total(
            counts,
            next,
            next + occurrences(tokens, token),
        ),
    decreases tokens.len(),
{
    if tokens.len() > 0 {
        let rest = tokens.skip(1);
        assert(tokens =~= seq![tokens[0]] + rest);
        lemma_occurrences_concat(seq![tokens[0]], rest, token);
        assert(seq![tokens[0]].drop_last() =~= Seq::<u32>::empty());
        reveal_with_fuel(occurrences, 2);
        if tokens[0] == token {
            lemma_replaced_occurrences(rest, counts, next + 1, open, token, close);
            let s = span(open, token, close, counts[next] as nat);
            lemma_span_occurrences(open, token, close, counts[next] as nat);
            lemma_occurrences_concat(
                s,
                replaced(rest, counts, next + 1, open, token, close),
                token,
            );
        } else {
            lemma_replaced_occurrences(rest, counts, next, open, token, close);
            lemma_occurrences_concat(
                seq![tokens[0]],
                replaced(rest, counts, next, open, token, close),
                token,
            );
        }
    }
}

/// Where every placeholder of a prompt has its item, the expanded prompt holds
/// exactly the placeholders that the items ask for, so features can be laid
/// over them one by one.
pub proof fn law_expansion_counts_match(
    tokens: Seq<u32>,
    counts: Seq<u32>,
    open: u32,
    token: u32,
    close: u32,
)
    requires
        open != token,
        close != token,
        occurrences(tokens, token) == counts.len(),
    ensures
        occurrences(expanded(tokens, counts, open, token, close), token) == total(
            counts,
            0,
            counts.len() as int,
        ),
{
    if !tokens.contains(token) && counts.len() > 0 {
        lemma_no_occurrence(tokens, token);
    } else {
        lemma_replaced_occurrences(tokens, counts, 0, open, token, close);
    }
}

proof fn lemma_no_occurrence(tokens: Seq<u32>, token: u32)
    requires
        !tokens.contains(token),
    ensures
        occurrences(tokens, token) == 0,
    decreases tokens.len(),
{
    if tokens.len() > 0 {
        assert(tokens.contains(tokens[tokens.len() - 1]));
        assert forall|t: u32| tokens.drop_last().contains(t) implies tokens.contains(t) by {
            let k = choose|k: int| 0 <= k < tokens.drop_last().len() && tokens.drop_last()[k] == t;
            assert(tokens[k] == t);
        }
        lemma_no_occurrence(tokens.drop_last(), token);
    }
}

/// Entries of a mask that are set before `upto`.
pub open spec fn set_before(mask: Seq<bool>, upto: int) -> int
    decreases upto,
{
    if upto <= 0 {
        0
    } else {
        set_before(mask, upto - 1) + if mask[upto - 1] {
            1int
        } else {
            0
        }
    }
}

/// Where each element of a scattered result comes from: `Some(k)` the source
/// element `k`, `None` the input. Source elements are taken in turn, from the
/// first on again where they do not suffice.
pub open spec fn scatter_source(mask: Seq<bool>, source_len: int, i: int) -> Option<int> {
    if mask[i] {
        Some(set_before(mask, i) % source_len)
    } else {
        None
    }
}

/// Where each element of `masked_scatter` comes from.
pub fn masked_scatter_plan(mask: &Vec<bool>, source_len: usize) -> (r: Vec<Option<usize>>)
    requires
        source_len > 0,
    ensures
        r@.len() == mask@.len(),
        forall|i: int|
            0 <= i < mask@.len() ==> match scatter_source(mask@, source_len as int, i) {
                Some(k) => #[trigger] r@[i] == Some(k as usize) && 0 <= k < source_len,
                None => r@[i] is None,
            },
{
    let mut out: Vec<Option<usize>> = Vec::new();
    let mut seen: usize = 0;
    let mut i: usize = 0;
    while i < mask.len()
        invariant
            source_len > 0,
            i <= mask@.len(),
            seen <= i,
            seen == set_before(mask@, i as int),
            out@.len() == i,
            forall|k: int|
                0 <= k < i ==> match scatter_source(mask@, source_len as int, k) {
                    Some(s) => #[trigger] out@[k] == Some(s as usize) && 0 <= s < source_len,
                    None => out@[k] is None,
                },
        decreases mask@.len() - i,
    {
        if mask[i] {
            out.push(Some(seen % source_len));
            seen += 1;
        } else {
            out.push(None);
        }
        i += 1;
    }
    out
}

/// `masked_scatter`: `source` laid over the set positions of `input`.
pub fn masked_scatter<T: Copy>(input: &Vec<T>, mask: &Vec<bool>, source: &Vec<T>) -> (r: Vec<T>)
    requires
        source@.len() > 0,
        input@.len() == mask@.len(),
    ensures
        r@.len() == input@.len(),
        forall|i: int|
            0 <= i < input@.len() ==> #[trigger] r@[i] == match scatter_source(
                mask@,
                source@.len() as int,
                i,
            ) {
                Some(k) => source@[k],
                None => input@[i],
            },
{
    let source_len: usize = source.len();
    let plan = masked_scatter_plan(mask, source_len);
    let mut out: Vec<T> = Vec::new();
    let mut i: usize = 0;
    while i < input.len()
        invariant
            source_len == source@.len(),
            i <= input@.len(),
            input@.len() == mask@.len(),
            plan@.len() == mask@.len(),
            out@.len() == i,
            forall|k: int|
                0 <= k < mask@.len() ==> match scatter_source(mask@, source@.len() as int, k) {
                    Some(s) => #[trigger] plan@[k] == Some(s as usize) && 0 <= s < source@.len(),
                    None => plan@[k] is None,
                },
            forall|k: int|
                0 <= k < i ==> #[trigger] out@[k] == match scatter_source(
                    mask@,
                    source@.len() as int,
                    k,
                ) {
                    Some(s) => source@[s],
                    None => input@[k],
                },
        decreases input@.len() - i,
    {
        let from: Option<usize> = plan[i];
        assert(plan@[i as int] == from);
        match from {
            Some(s) => out.push(source[s]),
            None => out.push(input[i]),
        }
        i += 1;
    }
    out
}

/// An id of 0 or more is its own token; a negative one wraps.
pub proof fn law_ids_are_tokens(id: i32)
    ensures
        id >= 0 ==> as_token(id) == id,
        id < 0 ==> as_token(id) == id + 0x1_0000_0000,
{
    if id < 0 {
        vstd::arithmetic::div_mod::lemma_mod_multiples_vanish(
            1,
            id as int,
            0x1_0000_0000,
        );
    }
}

/// Placeholders are the tokens that the model names, else 258880 for an image and 258881
/// for audio.
pub proof fn law_placeholders(c: Gemma4Config)
    ensures
        c.image_token_id is None ==> image_token(c) == 258880,
        c.audio_token_id is None ==> audio_token(c) == 258881,
        c.image_token_id is Some && c.image_token_id->0 >= 0 ==> image_token(c)
            == c.image_token_id->0,
        c.audio_token_id is Some && c.audio_token_id->0 >= 0 ==> audio_token(c)
            == c.audio_token_id->0,
{
}

/// Tokens are counted: each occurrence once, and no other token.
pub proof fn law_tokens_are_counted(a: Seq<u32>, b: Seq<u32>, token: u32, other: u32)
    ensures
        occurrences(a + b, token) == occurrences(a, token) + occurrences(b, token),
        occurrences(seq![token], token) == 1,
        token != other ==> occurrences(seq![other], token) == 0,
        occurrences(Seq::empty(), token) == 0,
    decreases b.len(),
{
    reveal_with_fuel(occurrences, 2);
    assert(seq![token].drop_last() =~= Seq::<u32>::empty());
    assert(seq![other].drop_last() =~= Seq::<u32>::empty());
    assert(seq![token].last() == token && seq![other].last() == other);
    if b.len() == 0 {
        assert(a + b =~= a);
    } else {
        assert((a + b).drop_last() =~= a + b.drop_last());
        assert((a + b).last() == b.last());
        law_tokens_are_counted(a, b.drop_last(), token, other);
    }
}

/// A span is its opening token, as many placeholders as it has, and its closing token;
/// several spans stand one after the other.
pub proof fn law_spans_of_media(
    open: u32,
    token: u32,
    close: u32,
    n: u32,
    counts: Seq<u32>,
    more: Seq<u32>,
    i: int,
)
    ensures
        span(open, token, close, n as nat).len() == n + 2,
        span(open, token, close, n as nat)[0] == open,
        1 <= i <= n ==> span(open, token, close, n as nat)[i] == token,
        span(open, token, close, n as nat)[n + 1] == close,
        spans(open, token, close, counts + more) == spans(open, token, close, counts) + spans(
            open,
            token,
            close,
            more,
        ),
        spans(open, token, close, seq![n]) == span(open, token, close, n as nat),
    decreases more.len(),
{
    assert(seq![n].drop_last() =~= Seq::<u32>::empty());
    assert(seq![n].last() == n);
    assert(spans(open, token, close, Seq::empty()) =~= Seq::<u32>::empty());
    assert(spans(open, token, close, seq![n]) =~= span(open, token, close, n as nat));
    if more.len() == 0 {
        assert(counts + more =~= counts);
        assert(spans(open, token, close, counts) + spans(open, token, close, more) =~= spans(
            open,
            token,
            close,
            counts,
        ));
    } else {
        assert((counts + more).drop_last() =~= counts + more.drop_last());
        assert((counts + more).last() == more.last());
        law_spans_of_media(open, token, close, n, counts, more.drop_last(), i);
        assert(spans(open, token, close, counts + more) =~= spans(open, token, close, counts)
            + spans(open, token, close, more));
    }
}

/// The first placeholder of a prompt becomes the first span, with the text before it as
/// it is; what follows goes on with the spans that are left.
pub proof fn law_first_placeholder_becomes_first_span(
    front: Seq<u32>,
    back: Seq<u32>,
    counts: Seq<u32>,
    open: u32,
    token: u32,
    close: u32,
)
    requires
        counts.len() > 0,
        forall|k: int| 0 <= k < front.len() ==> front[k] != token,
    ensures
        expanded(front + seq![token] + back, counts, open, token, close) == front + span(
            open,
            token,
            close,
            counts[0] as nat,
        ) + replaced(back, counts, 1, open, token, close),
{
    let tokens = front + seq![token] + back;
    assert(tokens[front.len() as int] == token);
    assert(tokens.contains(token));
    lemma_replaced_from(front, back, counts, 0, open, token, close);
}

proof fn lemma_replaced_from(
    front: Seq<u32>,
    back: Seq<u32>,
    counts: Seq<u32>,
    next: int,
    open: u32,
    token: u32,
    close: u32,
)
    requires
        0 <= next < counts.len(),
        forall|k: int| 0 <= k < front.len() ==> front[k] != token,
    ensures
        replaced(front + seq![token] + back, counts, next, open, token, close) == front + span(
            open,
            token,
            close,
            counts[next] as nat,
        ) + replaced(back, counts, next + 1, open, token, close),
    decreases front.len(),
{
    let all = front + seq![token] + back;
    let s = span(open, token, close, counts[next] as nat);
    let rest = replaced(back, counts, next + 1, open, token, close);
    if front.len() == 0 {
        assert(all[0] == token);
        assert(all.skip(1) =~= back);
        assert(s + rest =~= front + s + rest);
    } else {
        let less = front.skip(1);
        assert(all[0] == front[0]);
        assert(all.skip(1) =~= less + seq![token] + back);
        assert forall|k: int| 0 <= k < less.len() implies less[k] != token by {
            assert(less[k] == front[k + 1]);
        }
        lemma_replaced_from(less, back, counts, next, open, token, close);
        assert(seq![front[0]] + (less + s + rest) =~= front + s + rest);
    }
}

/// A placeholder for which there is no span is left as it is, and so is text without
/// one behind the spans.
pub proof fn law_left_over_placeholders_stay(
    tokens: Seq<u32>,
    counts: Seq<u32>,
    open: u32,
    token: u32,
    close: u32,
)
    ensures
        replaced(tokens, counts, counts.len() as int, open, token, close) == tokens,
    decreases tokens.len(),
{
    if tokens.len() > 0 {
        law_left_over_placeholders_stay(tokens.skip(1), counts, open, token, close);
        assert(seq![tokens[0]] + tokens.skip(1) =~= tokens);
    } else {
        assert(tokens =~= Seq::<u32>::empty());
    }
}

/// A prompt without a placeholder gets all spans behind its first token.
pub proof fn law_spans_behind_the_first_token(
    first: u32,
    rest: Seq<u32>,
    counts: Seq<u32>,
    open: u32,
    token: u32,
    close: u32,
)
    requires
        counts.len() > 0,
        first != token,
        forall|k: int| 0 <= k < rest.len() ==> rest[k] != token,
    ensures
        expanded(seq![first] + rest, counts, open, token, close) == seq![first] + spans(
            open,
            token,
            close,
            counts,
        ) + rest,
{
    let tokens = seq![first] + rest;
    assert(!tokens.contains(token)) by {
        if tokens.contains(token) {
            let k = choose|k: int| 0 <= k < tokens.len() && tokens[k] == token;
            if k > 0 {
                assert(tokens[k] == rest[k - 1]);
            }
        }
    }
    assert(tokens.skip(1) =~= rest);
}

/// Features are laid over the set positions in order, one for each, and begin again
/// where they run out; positions that are not set keep what they have.
pub proof fn law_features_are_laid_in_order(mask: Seq<bool>, source_len: int, i: int, j: int)
    requires
        0 <= i < j < mask.len(),
        source_len > 0,
    ensures
        !mask[i] ==> scatter_source(mask, source_len, i) is None,
        mask[i] && (forall|k: int| 0 <= k < i ==> !mask[k]) ==> scatter_source(mask, source_len, i)
            == Some(0int),
        mask[i] && mask[j] && (forall|k: int| i < k < j ==> !mask[k]) && scatter_source(
            mask,
            source_len,
            i,
        )->0 + 1 < source_len ==> scatter_source(mask, source_len, j) == Some(
            scatter_source(mask, source_len, i)->0 + 1,
        ),
        mask[i] && mask[j] && (forall|k: int| i < k < j ==> !mask[k]) && scatter_source(
            mask,
            source_len,
            i,
        )->0 + 1 == source_len ==> scatter_source(mask, source_len, j) == Some(0int),
{
    if forall|k: int| 0 <= k < i ==> !mask[k] {
        lemma_none_set(mask, 0, i);
    }
    if mask[i] && mask[j] && (forall|k: int| i < k < j ==> !mask[k]) {
        lemma_none_set(mask, i + 1, j);
        let n = set_before(mask, i);
        assert(set_before(mask, i + 1) == n + 1);
        let q = n / source_len;
        let r = n % source_len;
        vstd::arithmetic::div_mod::lemma_fundamental_div_mod(n, source_len);
        assert(q * source_len == source_len * q) by (nonlinear_arith);
        if r + 1 < source_len {
            vstd::arithmetic::div_mod::lemma_fundamental_div_mod_converse(
                n + 1,
                source_len,
                q,
                r + 1,
            );
        } else {
            assert((q + 1) * source_len == q * source_len + source_len) by (nonlinear_arith);
            vstd::arithmetic::div_mod::lemma_fundamental_div_mod_converse(
                n + 1,
                source_len,
                q + 1,
                0,
            );
        }
    }
}

proof fn lemma_none_set(mask: Seq<bool>, from: int, to: int)
    requires
        0 <= from <= to <= mask.len(),
        forall|k: int| from <= k < to ==> !mask[k],
    ensures
        set_before(mask, to) == set_before(mask, from),
    decreases to - from,
{
    if from < to {
        lemma_none_set(mask, from, to - 1);
    }
}

} // verus!
