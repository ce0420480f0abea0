//! How many sliding-window checkpoints are kept, how often they are taken, and
//! how long a prefix may be replayed.

use vstd::prelude::*;
use vstd::string::*;

use crate::arith::ceil_div;
use crate::arith::div_ceil_u32;
use crate::arith::div_ceil_usize;
use crate::arith::lemma_ceil_div_bounds;
use crate::config::Gemma4Config;
use crate::text::decimal;
use crate::text::equals_lowered;
use crate::text::is_white;
use crate::text::law_decimal_is_read_back;
use crate::text::law_only_digits_are_a_number;
use crate::text::law_trimming;
use crate::text::lemma_decimal_digits;
use crate::text::lowered;
use crate::text::parse_unsigned;
use crate::text::parse_unsigned_chars;
use crate::text::trim_chars;
use crate::text::trimmed;

verus! {

/// Least number of checkpoints that are kept by default.
pub const GEMMA4_SLIDING_PREFIX_CHECKPOINT_MIN_LIMIT: usize = 16;

/// Checkpoints that are kept for each block of a window.
pub const GEMMA4_SLIDING_PREFIX_CHECKPOINT_WINDOW_MULTIPLIER: usize = 2;

/// Largest number of checkpoints that are kept by default.
pub const GEMMA4_SLIDING_PREFIX_CHECKPOINT_MAX_DEFAULT_LIMIT: usize = 128;

/// A limit on replayed tokens that a user sets.
#[derive(Debug, Clone, Copy, PartialEq, Eq, Structural)]
pub enum Gemma4SlidingRestoreLimitOverride {
    Cap(u32),
    Uncapped,
}

/// Where a limit comes from.
#[derive(Debug, Clone, Copy, PartialEq, Eq, Structural)]
pub enum LimitSource {
    Env,
    Default,
}

impl LimitSource {
    /// The name in traces.
    pub fn name(&self) -> (r: &'static str)
        ensures
            r@ == match *self {
                LimitSource::Env => "env"@,
                LimitSource::Default => "default"@,
            },
    {
        match self {
            LimitSource::Env => "env",
            LimitSource::Default => "default",
        }
    }
}

/// A replay that is longer than its limit.
#[derive(Debug, Clone, Copy, PartialEq, Eq, Structural)]
pub struct Gemma4SlidingRestoreSuppression {
    pub limit: u32,
    pub source: LimitSource,
}

/// A word that lifts the limit.
pub open spec fn lifts_limit(word: Seq<char>) -> bool {
    ||| word == "off"@
    ||| word == "none"@
    ||| word == "false"@
    ||| word == "no"@
    ||| word == "unlimited"@
    ||| word == "uncapped"@
}

/// The limit that a setting stands for: a word that lifts it, in any case, or a
/// number of tokens. White space around it does not count.
pub open spec fn restore_limit_setting(value: Seq<char>) -> Option<
    Gemma4SlidingRestoreLimitOverride,
> {
    let word = trimmed(value);
    if word.len() == 0 {
        None
    } else if lifts_limit(lowered(word)) {
        Some(Gemma4SlidingRestoreLimitOverride::Uncapped)
    } else {
        match parse_unsigned(word, u32::MAX as int) {
            Some(n) => Some(Gemma4SlidingRestoreLimitOverride::Cap(n as u32)),
            None => None,
        }
    }
}

/// Reads a limit on replayed tokens.
pub fn parse_gemma4_sliding_restore_limit(value: &str) -> (r: Option<
    Gemma4SlidingRestoreLimitOverride,
>)
    ensures
        r == restore_limit_setting(value@),
{
    let word = trim_chars(value);
    if word.len() == 0 {
        return None;
    }
    if equals_lowered(&word, "off") || equals_lowered(&word, "none") || equals_lowered(
        &word,
        "false",
    ) || equals_lowered(&word, "no") || equals_lowered(&word, "unlimited") || equals_lowered(
        &word,
        "uncapped",
    ) {
        return Some(Gemma4SlidingRestoreLimitOverride::Uncapped);
    }
    match parse_unsigned_chars(&word, u32::MAX as u64) {
        Some(n) => Some(Gemma4SlidingRestoreLimitOverride::Cap(n as u32)),
        None => None,
    }
}

/// The number of checkpoints that a setting stands for: a positive number.
pub open spec fn checkpoint_limit_setting(value: Seq<char>) -> Option<usize> {
    let word = trimmed(value);
    match parse_unsigned(word, usize::MAX as int) {
        Some(n) => if n > 0 {
            Some(n as usize)
        } else {
            None
        },
        None => None,
    }
}

/// Reads a number of checkpoints.
pub fn parse_gemma4_sliding_checkpoint_limit(value: &str) -> (r: Option<usize>)
    ensures
        r == checkpoint_limit_setting(value@),
{
    let word = trim_chars(value);
    if word.len() == 0 {
        return None;
    }
    match parse_unsigned_chars(&word, usize::MAX as u64) {
        Some(n) => if n > 0 {
            Some(n as usize)
        } else {
            None
        },
        None => None,
    }
}

/// Positions between checkpoints: the window in whole blocks, at least one
/// block; 0 without blocks.
pub open spec fn checkpoint_interval(sliding_window: int, block_size: int) -> int {
    let target = if sliding_window > block_size {
        sliding_window
    } else {
        block_size
    };
    let whole = ceil_div(target, block_size) * block_size;
    if block_size == 0 {
        0
    } else if whole > u32::MAX {
        u32::MAX as int
    } else {
        whole
    }
}

/// Positions between checkpoints.
pub fn gemma4_sliding_decode_checkpoint_interval(config: &Gemma4Config, block_size: u32) -> (r: u32)
    ensures
        r == checkpoint_interval(config.sliding_window as int, block_size as int),
{
    if block_size == 0 {
        return 0;
    }
    let window: u32 = if config.sliding_window > 0 {
        config.sliding_window as u32
    } else {
        0
    };
    let target: u32 = if window > block_size {
        window
    } else {
        block_size
    };
    let blocks: u32 = div_ceil_u32(target, block_size);
    proof {
        lemma_ceil_div_bounds(target as int, block_size as int);
        assert(blocks * block_size == block_size * blocks) by (nonlinear_arith);
    }
    match blocks.checked_mul(block_size) {
        Some(whole) => whole,
        None => u32::MAX,
    }
}

/// Where blocks and the window are not empty, the interval is a positive number
/// of whole blocks that spans the window, unless it would not be representable.
pub proof fn law_interval_spans_window(sliding_window: int, block_size: int)
    requires
        0 < block_size,
        checkpoint_interval(sliding_window, block_size) < u32::MAX,
    ensures
        checkpoint_interval(sliding_window, block_size) >= sliding_window,
        checkpoint_interval(sliding_window, block_size) >= block_size,
        checkpoint_interval(sliding_window, block_size) % block_size == 0,
{
    let target = if sliding_window > block_size {
        sliding_window
    } else {
        block_size
    };
    lemma_ceil_div_bounds(target, block_size);
    let q = ceil_div(target, block_size);
    assert(q * block_size == block_size * q) by (nonlinear_arith);
    vstd::arithmetic::div_mod::lemma_mod_multiples_basic(q, block_size);
}

/// The limit on replayed tokens that holds without a setting.
pub open spec fn default_restore_limit(sliding_window: int, block_size: int) -> Option<u32> {
    let interval = checkpoint_interval(sliding_window, block_size);
    if interval > 0 {
        Some(interval as u32)
    } else {
        None
    }
}

/// The limit on replayed tokens that holds without a setting.
pub fn gemma4_default_sliding_restore_limit(config: &Gemma4Config, block_size: u32) -> (r: Option<
    u32,
>)
    ensures
        r == default_restore_limit(config.sliding_window as int, block_size as int),
{
    let interval: u32 = gemma4_sliding_decode_checkpoint_interval(config, block_size);
    if interval > 0 {
        Some(interval)
    } else {
        None
    }
}

/// The limit that a replay exceeds, if any.
pub open spec fn restore_suppression(
    sliding_window: int,
    block_size: int,
    setting: Option<Gemma4SlidingRestoreLimitOverride>,
    restore_tokens: u32,
) -> Option<Gemma4SlidingRestoreSuppression> {
    let limit = match setting {
        Some(Gemma4SlidingRestoreLimitOverride::Uncapped) => None,
        Some(Gemma4SlidingRestoreLimitOverride::Cap(limit)) => Some(
            Gemma4SlidingRestoreSuppression { limit, source: LimitSource::Env },
        ),
        None => match default_restore_limit(sliding_window, block_size) {
            Some(limit) => Some(
                Gemma4SlidingRestoreSuppression { limit, source: LimitSource::Default },
            ),
            None => None,
        },
    };
    match limit {
        Some(s) => if restore_tokens > s.limit {
            Some(s)
        } else {
            None
        },
        None => None,
    }
}

/// The limit that a replay of `restore_tokens` tokens exceeds, if any.
pub fn gemma4_large_sliding_restore_suppression_limit_for_override(
    config: &Gemma4Config,
    block_size: u32,
    override_limit: Option<Gemma4SlidingRestoreLimitOverride>,
    restore_tokens: u32,
) -> (r: Option<Gemma4SlidingRestoreSuppression>)
    ensures
        r == restore_suppression(
            config.sliding_window as int,
            block_size as int,
            override_limit,
            restore_tokens,
        ),
{
    let suppression = match override_limit {
        Some(Gemma4SlidingRestoreLimitOverride::Uncapped) => {
            return None;
        },
        Some(Gemma4SlidingRestoreLimitOverride::Cap(limit)) => Gemma4SlidingRestoreSuppression {
            limit,
            source: LimitSource::Env,
        },
        None => match gemma4_default_sliding_restore_limit(config, block_size) {
            Some(limit) => Gemma4SlidingRestoreSuppression { limit, source: LimitSource::Default },
            None => {
                return None;
            },
        },
    };
    if restore_tokens > suppression.limit {
        Some(suppression)
    } else {
        None
    }
}

/// Number of checkpoints that are kept: a setting, or two for each block of a
/// window, within the default bounds.
pub open spec fn checkpoint_limit(
    sliding_window: int,
    block_size: int,
    setting: Option<usize>,
) -> int {
    match setting {
        Some(limit) => limit as int,
        None => {
            let wanted = ceil_div(sliding_window, block_size) * 2;
            if sliding_window <= 0 || block_size == 0 || wanted < 16 {
                16
            } else if wanted > 128 {
                128
            } else {
                wanted
            }
        },
    }
}

/// Number of checkpoints that are kept.
pub fn gemma4_sliding_prefix_checkpoint_limit_for_override(
    config: &Gemma4Config,
    block_size: u32,
    override_limit: Option<usize>,
) -> (r: usize)
    ensures
        r == checkpoint_limit(config.sliding_window as int, block_size as int, override_limit),
{
    match override_limit {
        Some(limit) => {
            return limit;
        },
        None => {},
    }
    if config.sliding_window <= 0 || block_size == 0 {
        return GEMMA4_SLIDING_PREFIX_CHECKPOINT_MIN_LIMIT;
    }
    let blocks: usize = div_ceil_usize(config.sliding_window as usize, block_size as usize);
    if blocks >= 64 {
        GEMMA4_SLIDING_PREFIX_CHECKPOINT_MAX_DEFAULT_LIMIT
    } else {
        let wanted: usize = blocks * GEMMA4_SLIDING_PREFIX_CHECKPOINT_WINDOW_MULTIPLIER;
        if wanted < GEMMA4_SLIDING_PREFIX_CHECKPOINT_MIN_LIMIT {
            GEMMA4_SLIDING_PREFIX_CHECKPOINT_MIN_LIMIT
        } else {
            wanted
        }
    }
}

/// Text with white space around it.
pub open spec fn padded(front: Seq<char>, word: Seq<char>, back: Seq<char>) -> Seq<char> {
    front + word + back
}

/// White space alone.
pub open spec fn blank(s: Seq<char>) -> bool {
    forall|k: int| 0 <= k < s.len() ==> is_white(#[trigger] s[k])
}

/// A number sets the limit, whatever white space is around it; 0 is a limit too,
/// and a number that does not fit sets nothing. White space alone sets nothing.
#[verifier::rlimit(40)]
pub proof fn law_number_sets_restore_limit(front: Seq<char>, n: int, back: Seq<char>)
    requires
        0 <= n,
        blank(front),
        blank(back),
    ensures
        n <= u32::MAX ==> restore_limit_setting(padded(front, decimal(n), back)) == Some(
            Gemma4SlidingRestoreLimitOverride::Cap(n as u32),
        ),
        n > u32::MAX ==> restore_limit_setting(padded(front, decimal(n), back)) is None,
        restore_limit_setting(front) is None,
        0 < n <= usize::MAX ==> checkpoint_limit_setting(padded(front, decimal(n), back)) == Some(
            n as usize,
        ),
        n == 0 || n > usize::MAX ==> checkpoint_limit_setting(
            padded(front, decimal(n), back),
        ) is None,
        checkpoint_limit_setting(front) is None,
{
    let d = decimal(n);
    lemma_decimal_digits(n);
    assert(!is_white(d[0]) && !is_white(d.last()));
    law_trimming(front, d, back);
    law_trimming(front, Seq::empty(), Seq::empty());
    assert(front + Seq::<char>::empty() + Seq::<char>::empty() =~= front);
    law_decimal_is_read_back(n, u32::MAX as int);
    law_decimal_is_read_back(n, usize::MAX as int);
    reveal_strlit("off");
    reveal_strlit("none");
    reveal_strlit("false");
    reveal_strlit("no");
    reveal_strlit("unlimited");
    reveal_strlit("uncapped");
    assert(lowered(d)[0] == d[0]);
    assert("off"@[0] == 'o');
    assert("none"@[0] == 'n');
    assert("false"@[0] == 'f');
    assert("no"@[0] == 'n');
    assert("unlimited"@[0] == 'u');
    assert("uncapped"@[0] == 'u');
}

/// A word that means no lifts the limit, in upper or lower case and whatever white
/// space is around it; a word that is neither that nor a number sets nothing.
pub proof fn law_word_lifts_restore_limit(front: Seq<char>, word: Seq<char>, back: Seq<char>)
    requires
        blank(front),
        blank(back),
        word.len() >= 2,
        !is_white(word[0]),
        !is_white(word.last()),
        !('0' <= word[1] <= '9'),
    ensures
        lowered(word) == "off"@ || lowered(word) == "none"@ || lowered(word) == "false"@ || lowered(
            word,
        ) == "no"@ || lowered(word) == "unlimited"@ || lowered(word) == "uncapped"@
            ==> restore_limit_setting(padded(front, word, back)) == Some(
            Gemma4SlidingRestoreLimitOverride::Uncapped,
        ),
        lowered(word) != "off"@ && lowered(word) != "none"@ && lowered(word) != "false"@ && lowered(
            word,
        ) != "no"@ && lowered(word) != "unlimited"@ && lowered(word) != "uncapped"@
            ==> restore_limit_setting(padded(front, word, back)) is None,
        checkpoint_limit_setting(padded(front, word, back)) is None,
{
    law_trimming(front, word, back);
    law_only_digits_are_a_number(word, u32::MAX as int, 1);
    law_only_digits_are_a_number(word, usize::MAX as int, 1);
}

/// Checkpoints come as often as whole blocks that span the window allow: not one
/// block later than needed.
pub proof fn law_interval_is_no_longer_than_needed(sliding_window: int, block_size: int)
    requires
        0 < block_size,
    ensures
        checkpoint_interval(sliding_window, block_size) < block_size + if sliding_window
            > block_size {
            sliding_window
        } else {
            block_size
        },
        checkpoint_interval(sliding_window, block_size) <= u32::MAX,
        checkpoint_interval(sliding_window, 0) == 0,
{
    let target = if sliding_window > block_size {
        sliding_window
    } else {
        block_size
    };
    lemma_ceil_div_bounds(target, block_size);
    assert(block_size * ceil_div(target, block_size) == ceil_div(target, block_size) * block_size)
        by (nonlinear_arith);
}

/// A replay is suppressed where it is longer than the limit: that of the setting
/// where there is one, else that of one interval; and never where the setting lifts
/// it.
pub proof fn law_long_replay_is_suppressed(
    sliding_window: int,
    block_size: int,
    cap: u32,
    tokens: u32,
)
    ensures
        restore_suppression(
            sliding_window,
            block_size,
            Some(Gemma4SlidingRestoreLimitOverride::Uncapped),
            tokens,
        ) is None,
        tokens <= cap ==> restore_suppression(
            sliding_window,
            block_size,
            Some(Gemma4SlidingRestoreLimitOverride::Cap(cap)),
            tokens,
        ) is None,
        tokens > cap ==> restore_suppression(
            sliding_window,
            block_size,
            Some(Gemma4SlidingRestoreLimitOverride::Cap(cap)),
            tokens,
        ) == Some(Gemma4SlidingRestoreSuppression { limit: cap, source: LimitSource::Env }),
        block_size > 0 && tokens as int <= checkpoint_interval(sliding_window, block_size)
            ==> restore_suppression(sliding_window, block_size, None, tokens) is None,
        block_size > 0 && tokens as int > checkpoint_interval(sliding_window, block_size)
            ==> restore_suppression(sliding_window, block_size, None, tokens) == Some(
            Gemma4SlidingRestoreSuppression {
                limit: checkpoint_interval(sliding_window, block_size) as u32,
                source: LimitSource::Default,
            },
        ),
        block_size == 0 ==> restore_suppression(sliding_window, block_size, None, tokens) is None,
{
    if block_size > 0 {
        let target = if sliding_window > block_size {
            sliding_window
        } else {
            block_size
        };
        lemma_ceil_div_bounds(target, block_size);
        assert(block_size * ceil_div(target, block_size) == ceil_div(target, block_size)
            * block_size) by (nonlinear_arith);
    }
}

/// The setting is the number of checkpoints that are kept; without one it is twice
/// the blocks of the window, and between 16 and 128.
pub proof fn law_checkpoints_that_are_kept(sliding_window: int, block_size: int, n: usize)
    requires
        0 < block_size,
    ensures
        checkpoint_limit(sliding_window, block_size, Some(n)) == n,
        16 <= checkpoint_limit(sliding_window, block_size, None) <= 128,
        checkpoint_limit(sliding_window, block_size, None) < 128 ==> checkpoint_limit(
            sliding_window,
            block_size,
            None,
        ) * block_size >= 2 * sliding_window,
        checkpoint_limit(sliding_window, block_size, None) > 16 ==> checkpoint_limit(
            sliding_window,
            block_size,
            None,
        ) * block_size < 2 * sliding_window + 2 * block_size,
        checkpoint_limit(sliding_window, 0, None) == 16,
{
    if sliding_window > 0 {
        lemma_ceil_div_bounds(sliding_window, block_size);
        let q = ceil_div(sliding_window, block_size);
        let k = checkpoint_limit(sliding_window, block_size, None);
        assert((q * 2) * block_size == 2 * (block_size * q)) by (nonlinear_arith);
        if k < 128 {
            assert(k * block_size >= (q * 2) * block_size) by (nonlinear_arith)
                requires
                    k >= q * 2,
                    block_size > 0,
            ;
        }
        if k > 16 {
            assert(k * block_size <= (q * 2) * block_size) by (nonlinear_arith)
                requires
                    k <= q * 2,
                    block_size > 0,
            ;
        }
    } else {
        assert(16 * block_size >= 2 * sliding_window);
    }
}

/// An interval is not negative.
pub proof fn lemma_interval_is_not_negative(sliding_window: int, block_size: int)
    requires
        0 < block_size,
    ensures
        0 < checkpoint_interval(sliding_window, block_size),
{
    let target = if sliding_window > block_size {
        sliding_window
    } else {
        block_size
    };
    lemma_ceil_div_bounds(target, block_size);
    assert(block_size * ceil_div(target, block_size) == ceil_div(target, block_size) * block_size)
        by (nonlinear_arith);
}

} // verus!
