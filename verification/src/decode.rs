//! The decode loop of a turn: sampling parameters, when it ends, and the order
//! of work in a media turn.

use vstd::prelude::*;
use vstd::string::*;

use crate::checkpoints::fresh_caches;
use crate::config::wrap_i32;
use crate::config::Double;
use crate::config::Gemma4Config;
use crate::session::Gemma4Inner;
use crate::turns::saved_history;

verus! {

/// 1.0
pub const BITS_ONE: u64 = 0x3ff0_0000_0000_0000;

/// What a request asks of a turn.
#[derive(Debug, Clone, Copy, PartialEq, Eq, Structural)]
pub struct ChatConfig {
    pub temperature: Option<Double>,
    pub top_k: Option<i32>,
    pub top_p: Option<Double>,
    pub min_p: Option<Double>,
    pub max_new_tokens: Option<i32>,
    pub max_consecutive_tokens: Option<i32>,
    pub max_ngram_repeats: Option<i32>,
    pub ngram_size: Option<i32>,
    pub reuse_cache: Option<bool>,
}

/// How tokens are sampled.
#[derive(Debug, Clone, Copy, PartialEq, Eq, Structural)]
pub struct SamplingConfig {
    pub temperature: Option<Double>,
    pub top_k: Option<i32>,
    pub top_p: Option<Double>,
    pub min_p: Option<Double>,
}

/// The first of two optional values.
pub open spec fn either<T>(a: Option<T>, b: Option<T>) -> Option<T> {
    match a {
        Some(_) => a,
        None => b,
    }
}

/// The temperature of a turn: the request's, the model's, else 0.
pub open spec fn turn_temperature(c: ChatConfig, m: Gemma4Config) -> Double {
    match either(c.temperature, m.default_temperature) {
        Some(t) => t,
        None => Double { bits: 0 },
    }
}

/// How the tokens of a turn are sampled. A temperature of 0 or less takes the
/// likeliest token and sets nothing else.
pub open spec fn sampling_of(config: ChatConfig, model: Gemma4Config) -> SamplingConfig {
    if turn_temperature(config, model).at_most_zero() {
        SamplingConfig {
            temperature: Some(Double { bits: 0 }),
            top_k: None,
            top_p: None,
            min_p: None,
        }
    } else {
        SamplingConfig {
            temperature: Some(turn_temperature(config, model)),
            top_k: either(config.top_k, model.default_top_k),
            top_p: either(config.top_p, model.default_top_p),
            min_p: config.min_p,
        }
    }
}

/// How the tokens of a turn are sampled.
pub fn make_sampling_config(config: &ChatConfig, model_config: &Gemma4Config) -> (r: SamplingConfig)
    ensures
        r == sampling_of(*config, *model_config),
{
    let temp: Double = match config.temperature {
        Some(t) => t,
        None => match model_config.default_temperature {
            Some(t) => t,
            None => Double { bits: 0 },
        },
    };
    if temp.is_at_most_zero() {
        return SamplingConfig {
            temperature: Some(Double { bits: 0 }),
            top_k: None,
            top_p: None,
            min_p: None,
        };
    }
    SamplingConfig {
        temperature: Some(temp),
        top_k: match config.top_k {
            Some(k) => Some(k),
            None => model_config.default_top_k,
        },
        top_p: match config.top_p {
            Some(p) => Some(p),
            None => model_config.default_top_p,
        },
        min_p: config.min_p,
    }
}

/// The likeliest token is taken.
pub open spec fn greedy(c: SamplingConfig) -> bool {
    &&& match c.temperature {
        Some(t) => t.at_most_zero(),
        None => false,
    }
    &&& c.top_k is None
    &&& c.top_p is None
    &&& c.min_p is None
}

/// Whether the likeliest token is taken.
pub fn is_greedy_sampling(config: Option<SamplingConfig>) -> (r: bool)
    ensures
        r == (config matches Some(c) && greedy(c)),
{
    match config {
        None => false,
        Some(c) => {
            let cold: bool = match c.temperature {
                Some(t) => t.is_at_most_zero(),
                None => false,
            };
            cold && c.top_k.is_none() && c.top_p.is_none() && c.min_p.is_none()
        },
    }
}

/// A turn without a temperature of its own or of its model is greedy; so is
/// every turn of temperature 0 or less, and no other.
pub proof fn law_cold_turn_is_greedy(config: ChatConfig, model: Gemma4Config)
    ensures
        greedy(sampling_of(config, model)) == turn_temperature(config, model).at_most_zero(),
        config.temperature is None && model.default_temperature is None ==> greedy(
            sampling_of(config, model),
        ),
{
}

/// The parameters of a turn.
#[derive(Debug, Clone, Copy, PartialEq, Eq, Structural)]
pub struct TurnParams {
    pub sampling: SamplingConfig,
    pub repetition_penalty: Double,
    pub presence_penalty: Double,
    pub frequency_penalty: Double,
    pub report_performance: bool,
    pub include_reasoning: bool,
    /// Draft tokens of one cycle.
    pub mtp_depth: usize,
}

impl Gemma4Inner {
    /// The parameters of a turn: sampled as the request and the model say,
    /// without penalties, with its times reported and no reasoning held back.
    /// A model with a draft clamps the requested depth to the draft's block;
    /// without one `engine_depth` stands.
    pub fn resolve_params(
        &self,
        config: &ChatConfig,
        requested_depth: Option<i32>,
        engine_depth: usize,
    ) -> (r: TurnParams)
        ensures
            r.sampling == sampling_of(*config, self.config),
            r.repetition_penalty == (Double { bits: BITS_ONE }),
            r.presence_penalty == (Double { bits: 0 }),
            r.frequency_penalty == (Double { bits: 0 }),
            r.report_performance,
            r.include_reasoning,
            r.mtp_depth == match self.depth_of(requested_depth) {
                Some(d) => d,
                None => engine_depth,
            },
    {
        TurnParams {
            sampling: make_sampling_config(config, &self.config),
            repetition_penalty: Double { bits: BITS_ONE },
            presence_penalty: Double { bits: 0 },
            frequency_penalty: Double { bits: 0 },
            report_performance: true,
            include_reasoning: true,
            mtp_depth: match self.draft_depth(requested_depth) {
                Some(d) => d,
                None => engine_depth,
            },
        }
    }
}

/// When repetition ends a turn.
#[derive(Debug, Clone, Copy, PartialEq, Eq, Structural)]
pub struct Gemma4RepetitionCutoff {
    pub max_consecutive_tokens: i32,
    pub max_ngram_repeats: i32,
    pub ngram_size: i32,
}

/// When repetition ends a turn: what the request sets, else `defaults`.
pub fn repetition_cutoff_from_config(
    config: &ChatConfig,
    defaults: Gemma4RepetitionCutoff,
) -> (r: Gemma4RepetitionCutoff)
    ensures
        r.max_consecutive_tokens == match config.max_consecutive_tokens {
            Some(n) => n,
            None => defaults.max_consecutive_tokens,
        },
        r.max_ngram_repeats == match config.max_ngram_repeats {
            Some(n) => n,
            None => defaults.max_ngram_repeats,
        },
        r.ngram_size == match config.ngram_size {
            Some(n) => n,
            None => defaults.ngram_size,
        },
{
    Gemma4RepetitionCutoff {
        max_consecutive_tokens: match config.max_consecutive_tokens {
            Some(n) => n,
            None => defaults.max_consecutive_tokens,
        },
        max_ngram_repeats: match config.max_ngram_repeats {
            Some(n) => n,
            None => defaults.max_ngram_repeats,
        },
        ngram_size: match config.ngram_size {
            Some(n) => n,
            None => defaults.ngram_size,
        },
    }
}

/// A token ends a turn: it is the turn terminator or one of the model's list.
pub open spec fn ends_turn(token: u32, eos_ids: Seq<i32>, eos_token_id: u32) -> bool {
    token == eos_token_id || eos_ids.contains(wrap_i32(token as int) as i32)
}

/// Whether a token ends a turn.
pub fn is_eos_token(token: u32, eos_ids: &Vec<i32>, eos_token_id: u32) -> (r: bool)
    ensures
        r == ends_turn(token, eos_ids@, eos_token_id),
{
    let id: i32 = if token <= 0x7fff_ffff {
        token as i32
    } else {
        (token as i64 - 0x1_0000_0000) as i32
    };
    let mut i: usize = 0;
    while i < eos_ids.len()
        invariant
            i <= eos_ids@.len(),
            id == wrap_i32(token as int),
            forall|k: int| 0 <= k < i ==> eos_ids@[k] != id,
        decreases eos_ids@.len() - i,
    {
        if eos_ids[i] == id {
            return true;
        }
        i += 1;
    }
    token == eos_token_id
}

/// Why a decode loop ended.
#[derive(Debug, Clone, Copy, PartialEq, Eq, Structural)]
pub enum FinishReason {
    Length,
    Stop,
    Cancelled,
    /// Repetition; the reason is the one that was reported.
    Repetition,
}

/// What a decode loop does next.
#[derive(Debug, Clone, Copy, PartialEq, Eq, Structural)]
pub enum DecodeStep {
    /// Run this token, and sample the next.
    Forward { token: u32 },
    /// The loop is over.
    Done(FinishReason),
}

/// A decode loop.
#[derive(Debug)]
pub struct DecodeLoop {
    pub max_new_tokens: i32,
    pub generated: Vec<u32>,
}

impl DecodeLoop {
    /// No more tokens than asked for.
    pub open spec fn wf(self) -> bool {
        self.generated@.len() <= if self.max_new_tokens > 0 {
            self.max_new_tokens as int
        } else {
            0
        }
    }

    /// A loop of at most 2048 tokens, or as many as asked for.
    pub fn new(config: &ChatConfig) -> (r: DecodeLoop)
        ensures
            r.wf(),
            r.generated@ == Seq::<u32>::empty(),
            r.max_new_tokens == match config.max_new_tokens {
                Some(n) => n,
                None => 2048i32,
            },
    {
        DecodeLoop {
            max_new_tokens: match config.max_new_tokens {
                Some(n) => n,
                None => 2048,
            },
            generated: Vec::new(),
        }
    }

    /// Whether another token may be taken.
    pub fn wants_token(&self) -> (r: bool)
        ensures
            r == (self.generated@.len() < self.max_new_tokens),
    {
        self.max_new_tokens > 0 && self.generated.len() < self.max_new_tokens as usize
    }

    /// Takes the token that was sampled.
    pub fn push_token(&mut self, token: u32)
        requires
            old(self).wf(),
            old(self).generated@.len() < old(self).max_new_tokens,
        ensures
            final(self).wf(),
            final(self).max_new_tokens == old(self).max_new_tokens,
            final(self).generated@ == old(self).generated@.push(token),
    {
        self.generated.push(token);
    }

    /// What comes after the token that was taken last. `cancelled` is asked
    /// before its text is shown, `repeats` after.
    pub fn step(
        &self,
        cancelled: bool,
        repeats: bool,
        eos_ids: &Vec<i32>,
        eos_token_id: u32,
    ) -> (r: DecodeStep)
        requires
            self.generated@.len() > 0,
        ensures
            r == if cancelled {
                DecodeStep::Done(FinishReason::Cancelled)
            } else if ends_turn(self.generated@.last(), eos_ids@, eos_token_id) {
                DecodeStep::Done(FinishReason::Stop)
            } else if repeats {
                DecodeStep::Done(FinishReason::Repetition)
            } else if self.generated@.len() >= self.max_new_tokens {
                DecodeStep::Done(FinishReason::Length)
            } else {
                DecodeStep::Forward { token: self.generated@.last() }
            },
    {
        let token: u32 = self.generated[self.generated.len() - 1];
        if cancelled {
            DecodeStep::Done(FinishReason::Cancelled)
        } else if is_eos_token(token, eos_ids, eos_token_id) {
            DecodeStep::Done(FinishReason::Stop)
        } else if repeats {
            DecodeStep::Done(FinishReason::Repetition)
        } else if !self.wants_token() {
            DecodeStep::Done(FinishReason::Length)
        } else {
            DecodeStep::Forward { token }
        }
    }
}

impl FinishReason {
    /// The name of the reason; that of repetition is the one reported by the
    /// sampler.
    pub fn name<'a>(&self, repetition: &'a str) -> (r: &'a str)
        ensures
            r@ == match *self {
                FinishReason::Length => "length"@,
                FinishReason::Stop => "stop"@,
                FinishReason::Cancelled => "cancelled"@,
                FinishReason::Repetition => repetition@,
            },
    {
        match self {
            FinishReason::Length => "length",
            FinishReason::Stop => "stop",
            FinishReason::Cancelled => "cancelled",
            FinishReason::Repetition => repetition,
        }
    }
}

/// Why a media turn cannot start.
#[derive(Debug, Clone, Copy, PartialEq, Eq, Structural)]
pub enum VisionTurnError {
    EmptyPrompt,
    NoPagedPool,
}

/// What a media turn does next. The host performs it and reports back.
#[derive(Debug, Clone, Copy, PartialEq, Eq, Structural)]
pub enum VisionAction {
    /// Prepare the pool for all of the prompt: without reuse or lookup.
    PreparePool { total_budget: u32 },
    /// Run the prompt, and sample a token.
    Prefill,
    /// Run a generated token, and sample the next.
    Forward { token: u32 },
    /// Run the last generated token, without sampling.
    ForwardPending { token: u32 },
    /// Ask the pool to keep the request live.
    KeepLive,
    /// End the turn with the recorded state.
    Finalize,
    /// Release the request and report the failure.
    Abort,
}

/// Where a media turn stands.
#[derive(Debug, Clone, Copy, PartialEq, Eq, Structural)]
pub enum VisionPhase {
    Preparing,
    Prefilling,
    Decoding,
    Pending,
    KeepingLive,
    Finalizing,
    Failed,
}

/// A media turn.
#[derive(Debug)]
pub struct VisionTurn {
    pub phase: VisionPhase,
    pub decode: DecodeLoop,
    pub finish: FinishReason,
    /// A text turn may be able to go on from this one.
    pub continuable: bool,
    pub reuse_cache: bool,
}

impl VisionTurn {
    /// The loop is valid, and a turn that decodes has taken a token.
    pub open spec fn wf(self) -> bool {
        &&& self.decode.wf()
        &&& self.phase is Decoding ==> self.decode.generated@.len() > 0
    }

    /// What follows the decode loop: a turn that may go on runs its last token
    /// where its length cut it off, and keeps the request.
    pub open spec fn after_loop(self, finish: FinishReason) -> (VisionPhase, VisionAction) {
        if !(self.continuable && self.reuse_cache) {
            (VisionPhase::Finalizing, VisionAction::Finalize)
        } else if finish is Length && self.decode.generated@.len() > 0 {
            (
                VisionPhase::Pending,
                VisionAction::ForwardPending { token: self.decode.generated@.last() },
            )
        } else {
            (VisionPhase::KeepingLive, VisionAction::KeepLive)
        }
    }

    /// Starts a media turn over an expanded prompt. From here on no text turn
    /// can go on from the media before it, even if this turn fails.
    pub fn start(inner: &mut Gemma4Inner, tokens: &[u32], config: &ChatConfig) -> (r: Result<
        (VisionTurn, VisionAction),
        VisionTurnError,
    >)
        requires
            tokens@.len() <= u32::MAX,
        ensures
            tokens@.len() == 0 ==> r == Err::<(VisionTurn, VisionAction), VisionTurnError>(
                VisionTurnError::EmptyPrompt,
            ) && *final(inner) == *old(inner),
            tokens@.len() > 0 ==> *final(inner) == (Gemma4Inner {
                media_session_continuable: false,
                ..*old(inner)
            }),
            tokens@.len() > 0 && old(inner).paged is None ==> r == Err::<
                (VisionTurn, VisionAction),
                VisionTurnError,
            >(VisionTurnError::NoPagedPool),
            tokens@.len() > 0 && old(inner).paged is Some ==> (r matches Ok((turn, action))
                && turn.wf() && turn.phase == VisionPhase::Preparing && turn.decode.generated@
                == Seq::<u32>::empty() && turn.decode.max_new_tokens
                == (match config.max_new_tokens {
                Some(n) => n,
                None => 2048i32,
            }) && turn.finish == FinishReason::Length && turn.reuse_cache
                == (config.reuse_cache != Some(false)) && turn.continuable == (tokens@.contains(
                crate::media::image_token(old(inner).config),
            ) || tokens@.contains(crate::media::audio_token(old(inner).config))) && action
                == (VisionAction::PreparePool { total_budget: tokens@.len() as u32 })),
    {
        if tokens.len() == 0 {
            return Err(VisionTurnError::EmptyPrompt);
        }
        inner.media_session_continuable = false;
        if inner.paged.is_none() {
            return Err(VisionTurnError::NoPagedPool);
        }
        let turn = VisionTurn {
            phase: VisionPhase::Preparing,
            decode: DecodeLoop::new(config),
            finish: FinishReason::Length,
            continuable: inner.gemma4_media_continuable(tokens),
            reuse_cache: match config.reuse_cache {
                Some(b) => b,
                None => true,
            },
        };
        Ok((turn, VisionAction::PreparePool { total_budget: tokens.len() as u32 }))
    }

    /// The pool is prepared: starts from empty caches and forgets everything
    /// before.
    pub fn pool_prepared(&mut self, inner: &mut Gemma4Inner) -> (r: VisionAction)
        requires
            old(self).wf(),
            old(inner).wf(),
            old(self).phase == VisionPhase::Preparing,
        ensures
            final(self).wf(),
            *final(self) == (VisionTurn { phase: VisionPhase::Prefilling, ..*old(self) }),
            r == VisionAction::Prefill,
            final(inner).nothing_remembered(),
            final(inner).same_model(*old(inner)),
            final(inner).caches matches Some(c) && c@ == fresh_caches(old(inner).config),
    {
        inner.init_caches_sync();
        self.phase = VisionPhase::Prefilling;
        VisionAction::Prefill
    }

    /// A token was sampled, behind the prompt or behind the token that was run
    /// last. A turn that takes no token ends at once.
    pub fn token_sampled(
        &mut self,
        token: u32,
        cancelled: bool,
        repeats: bool,
        eos_ids: &Vec<i32>,
        eos_token_id: u32,
    ) -> (r: VisionAction)
        requires
            old(self).wf(),
            old(self).phase == VisionPhase::Prefilling || old(self).phase == VisionPhase::Decoding,
        ensures
            final(self).wf(),
            final(self).continuable == old(self).continuable,
            final(self).reuse_cache == old(self).reuse_cache,
            final(self).decode.max_new_tokens == old(self).decode.max_new_tokens,
            old(self).decode.generated@.len() >= old(self).decode.max_new_tokens ==> final(self).decode.generated@ == old(self).decode.generated@ && final(self).finish
                == FinishReason::Length && (final(self).phase, r) == old(self).after_loop(
                FinishReason::Length,
            ),
            old(self).decode.generated@.len() < old(self).decode.max_new_tokens ==> {
                let taken = old(self).decode.generated@.push(token);
                &&& final(self).decode.generated@ == taken
                &&& if !cancelled && !ends_turn(token, eos_ids@, eos_token_id) && !repeats
                    && taken.len() < old(self).decode.max_new_tokens {
                    &&& final(self).phase == VisionPhase::Decoding
                    &&& r == (VisionAction::Forward { token })
                    &&& final(self).finish == old(self).finish
                } else {
                    &&& final(self).finish == if cancelled {
                        FinishReason::Cancelled
                    } else if ends_turn(token, eos_ids@, eos_token_id) {
                        FinishReason::Stop
                    } else if repeats {
                        FinishReason::Repetition
                    } else {
                        FinishReason::Length
                    }
                    &&& (final(self).phase, r) == final(self).after_loop(final(self).finish)
                }
            },
    {
        if !self.decode.wants_token() {
            self.finish = FinishReason::Length;
            return self.leave_loop();
        }
        self.decode.push_token(token);
        match self.decode.step(cancelled, repeats, eos_ids, eos_token_id) {
            DecodeStep::Forward { token } => {
                self.phase = VisionPhase::Decoding;
                VisionAction::Forward { token }
            },
            DecodeStep::Done(reason) => {
                self.finish = reason;
                self.leave_loop()
            },
        }
    }

    fn leave_loop(&mut self) -> (r: VisionAction)
        requires
            old(self).decode.wf(),
        ensures
            *final(self) == (VisionTurn { phase: final(self).phase, ..*old(self) }),
            final(self).wf(),
            (final(self).phase, r) == old(self).after_loop(old(self).finish),
    {
        if !(self.continuable && self.reuse_cache) {
            self.phase = VisionPhase::Finalizing;
            return VisionAction::Finalize;
        }
        let n: usize = self.decode.generated.len();
        if self.finish == FinishReason::Length && n > 0 {
            let token: u32 = self.decode.generated[n - 1];
            self.phase = VisionPhase::Pending;
            VisionAction::ForwardPending { token }
        } else {
            self.phase = VisionPhase::KeepingLive;
            VisionAction::KeepLive
        }
    }

    /// The pending token was run.
    pub fn pending_forwarded(&mut self) -> (r: VisionAction)
        requires
            old(self).wf(),
            old(self).phase == VisionPhase::Pending,
        ensures
            final(self).wf(),
            *final(self) == (VisionTurn { phase: VisionPhase::KeepingLive, ..*old(self) }),
            r == VisionAction::KeepLive,
    {
        self.phase = VisionPhase::KeepingLive;
        VisionAction::KeepLive
    }

    /// The pool has answered whether it keeps the request.
    pub fn keep_live_answered(&mut self) -> (r: VisionAction)
        requires
            old(self).wf(),
            old(self).phase == VisionPhase::KeepingLive,
        ensures
            final(self).wf(),
            *final(self) == (VisionTurn { phase: VisionPhase::Finalizing, ..*old(self) }),
            r == VisionAction::Finalize,
    {
        self.phase = VisionPhase::Finalizing;
        VisionAction::Finalize
    }

    /// A step failed: the request is released, whatever the turn was at.
    pub fn failed(&mut self) -> (r: VisionAction)
        requires
            old(self).wf(),
        ensures
            final(self).wf(),
            *final(self) == (VisionTurn { phase: VisionPhase::Failed, ..*old(self) }),
            r == VisionAction::Abort,
    {
        self.phase = VisionPhase::Failed;
        VisionAction::Abort
    }
}

impl VisionTurn {
    /// Generated tokens that have run when the turn ends for the reason
    /// `finish`: every token but the last runs before the next is sampled, and
    /// the last one where it is still pending.
    pub open spec fn generated_run(self, finish: FinishReason) -> int {
        if self.decode.generated@.len() == 0 {
            0
        } else if self.after_loop(finish).1 is ForwardPending {
            self.decode.generated@.len() as int
        } else {
            self.decode.generated@.len() - 1
        }
    }
}

/// A media turn that a text turn may go on from keeps as its history exactly
/// the tokens that have run, so the caches and the history are of one length.
pub proof fn law_media_history_is_what_ran(
    turn: VisionTurn,
    finish: FinishReason,
    prompt: Seq<u32>,
)
    requires
        turn.continuable,
        turn.reuse_cache,
    ensures
        saved_history(prompt, turn.decode.generated@, finish is Length).len() == prompt.len()
            + turn.generated_run(finish),
{
}

/// How many layers are evaluated at once while shaders are compiled: larger
/// devices take longer command buffers.
pub fn warmup_layer_batch_size(working_set_bytes: u64) -> (r: usize)
    ensures
        r == {
            let gb = working_set_bytes as int / 0x4000_0000;
            if gb <= 128 {
                1int
            } else if gb <= 384 {
                2
            } else {
                4
            }
        },
{
    let gb: u64 = working_set_bytes / 0x4000_0000;
    if gb <= 128 {
        1
    } else if gb <= 384 {
        2
    } else {
        4
    }
}

/// Whether the warmup evaluates after layer `layer`.
pub fn warmup_evaluates_after(layer: usize, num_layers: usize, batch: usize) -> (r: bool)
    requires
        batch > 0,
        layer < num_layers,
    ensures
        r == ((layer + 1) % batch as int == 0 || layer + 1 == num_layers),
{
    (layer + 1) % batch == 0 || layer + 1 == num_layers
}

/// What a request sets goes before what the model sets, for every model; the model
/// decides only what the request leaves open; `min_p` is the request's alone.
pub proof fn law_request_goes_before_model(config: ChatConfig, model: Gemma4Config)
    ensures
        config.temperature is Some && config.temperature->0.positive() ==> {
            let s = sampling_of(config, model);
            &&& s.temperature == config.temperature
            &&& config.top_k is Some ==> s.top_k == config.top_k
            &&& config.top_k is None ==> s.top_k == model.default_top_k
            &&& config.top_p is Some ==> s.top_p == config.top_p
            &&& config.top_p is None ==> s.top_p == model.default_top_p
            &&& s.min_p == config.min_p
        },
        config.temperature is None && model.default_temperature is Some
            && model.default_temperature->0.positive() ==> {
            let s = sampling_of(config, model);
            &&& s.temperature == model.default_temperature
            &&& config.top_k is Some ==> s.top_k == config.top_k
            &&& config.top_k is None ==> s.top_k == model.default_top_k
            &&& config.top_p is Some ==> s.top_p == config.top_p
            &&& config.top_p is None ==> s.top_p == model.default_top_p
            &&& s.min_p == config.min_p
        },
{
}

/// A request of temperature 0 is greedy on every model, and so is a request without
/// a temperature on a model without one: neither looks at anything else.
pub proof fn law_cold_request_is_greedy_on_every_model(config: ChatConfig, model: Gemma4Config)
    requires
        config.temperature is Some ==> config.temperature->0.at_most_zero(),
        config.temperature is None ==> model.default_temperature is None
            || model.default_temperature->0.at_most_zero(),
    ensures
        sampling_of(config, model) == (SamplingConfig {
            temperature: Some(Double { bits: 0 }),
            top_k: None,
            top_p: None,
            min_p: None,
        }),
        greedy(sampling_of(config, model)),
{
}

/// Two models that differ in their defaults sample alike for a request that sets
/// everything itself.
pub proof fn law_full_request_ignores_model(config: ChatConfig, a: Gemma4Config, b: Gemma4Config)
    requires
        config.temperature is Some,
        config.top_k is Some,
        config.top_p is Some,
    ensures
        sampling_of(config, a) == sampling_of(config, b),
{
}

/// A turn ends at its terminator and at every id of the model's list, and at no
/// other token.
pub proof fn law_tokens_that_end_a_turn(token: u32, eos_ids: Seq<i32>, eos_token_id: u32, k: int)
    requires
        token <= i32::MAX,
    ensures
        ends_turn(eos_token_id, eos_ids, eos_token_id),
        0 <= k < eos_ids.len() && eos_ids[k] == token ==> ends_turn(token, eos_ids, eos_token_id),
        token != eos_token_id && (forall|i: int| 0 <= i < eos_ids.len() ==> eos_ids[i] != token)
            ==> !ends_turn(token, eos_ids, eos_token_id),
{
}

/// A media turn is kept for the next one only where it may be: its pool request is
/// kept live, and a turn of full length first runs the token that it ends with.
pub proof fn law_end_of_media_turn(turn: VisionTurn, finish: FinishReason)
    ensures
        !turn.continuable || !turn.reuse_cache ==> turn.after_loop(finish).1
            == VisionAction::Finalize,
        turn.continuable && turn.reuse_cache && !(finish is Length) ==> turn.after_loop(finish).1
            == VisionAction::KeepLive,
        turn.continuable && turn.reuse_cache && finish is Length && turn.decode.generated@.len() > 0
            ==> turn.after_loop(finish).1 == (VisionAction::ForwardPending {
            token: turn.decode.generated@[turn.decode.generated@.len() - 1],
        }),
        turn.after_loop(finish).1 == VisionAction::Finalize <==> turn.after_loop(finish).0
            == VisionPhase::Finalizing,
        turn.after_loop(finish).1 == VisionAction::KeepLive <==> turn.after_loop(finish).0
            == VisionPhase::KeepingLive,
{
}

/// Sampling that cuts off tokens in any way is not greedy, however cold it is, and neither
/// is sampling without a temperature. What is left is greedy at 0 and below.
pub proof fn law_sampling_that_is_greedy(c: SamplingConfig)
    ensures
        c.top_k is Some ==> !greedy(c),
        c.top_p is Some ==> !greedy(c),
        c.min_p is Some ==> !greedy(c),
        c.temperature is None ==> !greedy(c),
        c.top_k is None && c.top_p is None && c.min_p is None && c.temperature is Some ==> (greedy(c)
            <==> c.temperature->0.at_most_zero()),
{
}

} // verus!
