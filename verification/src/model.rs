//! The handle of a model: what callers can ask without its thread.

use vstd::prelude::*;
use vstd::string::*;

use crate::config::Gemma4Config;
use crate::session::Gemma4Inner;

verus! {

/// What a call on a model without weights is answered.
pub const NOT_INITIALIZED: &'static str = "Model not initialized. Call Gemma4Model.load() first.";

/// Settings of a load.
#[derive(Debug)]
pub struct Gemma4LoadOptions {
    /// Directory of a draft checkpoint that is loaded alongside, for speculative
    /// decoding on the flat cache.
    pub draft_model_path: Option<String>,
}

impl Default for Gemma4LoadOptions {
    fn default() -> (r: Gemma4LoadOptions)
        ensures
            r.draft_model_path is None,
    {
        Gemma4LoadOptions { draft_model_path: None }
    }
}

/// The directory of the draft model that a load asks for.
pub fn draft_path(options: Option<Gemma4LoadOptions>) -> (r: Option<String>)
    ensures
        r == match options {
            Some(o) => o.draft_model_path,
            None => None,
        },
{
    match options {
        Some(o) => o.draft_model_path,
        None => None,
    }
}

/// A model as its callers see it. Only one that was loaded has a thread that
/// runs turns.
#[derive(Debug)]
pub struct Gemma4Model {
    pub model_id: u64,
    /// Takes images.
    pub has_vision: bool,
    /// Takes audio.
    pub has_audio: bool,
    pub initialized: bool,
    /// The cache is paged.
    pub paged_active: bool,
    /// A draft model is loaded.
    pub draft_active: bool,
}

/// A configuration with vision.
pub open spec fn takes_images(c: Gemma4Config) -> bool {
    c.vision_config is Some || c.unified_vision_config is Some
}

impl Gemma4Model {
    /// A stub that can be inspected and not run.
    pub fn new(config: Gemma4Config) -> (r: Gemma4Model)
        ensures
            r == (Gemma4Model {
                model_id: 0,
                has_vision: takes_images(config),
                has_audio: config.has_audio,
                initialized: false,
                paged_active: false,
                draft_active: false,
            }),
    {
        Gemma4Model {
            model_id: 0,
            has_vision: config.vision_config.is_some() || config.unified_vision_config.is_some(),
            has_audio: config.has_audio,
            initialized: false,
            paged_active: false,
            draft_active: false,
        }
    }

    /// The handle of a model whose weights are loaded.
    pub fn loaded(inner: &Gemma4Inner) -> (r: Gemma4Model)
        ensures
            r == (Gemma4Model {
                model_id: inner.model_id,
                has_vision: takes_images(inner.config),
                has_audio: inner.config.has_audio,
                initialized: true,
                paged_active: inner.paged is Some,
                draft_active: inner.draft_block_size is Some,
            }),
    {
        Gemma4Model {
            model_id: inner.model_id,
            has_vision: inner.config.vision_config.is_some()
                || inner.config.unified_vision_config.is_some(),
            has_audio: inner.config.has_audio,
            initialized: true,
            paged_active: inner.paged.is_some(),
            draft_active: inner.draft_block_size.is_some(),
        }
    }

    /// Whether weights are loaded.
    pub fn is_initialized(&self) -> (r: bool)
        ensures
            r == self.initialized,
    {
        self.initialized
    }

    /// Whether the block-paged cache is active; never for a stub.
    pub fn has_block_paged_cache(&self) -> (r: bool)
        ensures
            r == self.paged_active,
    {
        self.paged_active
    }

    /// The number of the model, in the width that callers use.
    pub fn model_id(&self) -> (r: u32)
        ensures
            r as int == self.model_id as int % 0x1_0000_0000,
    {
        (self.model_id % 0x1_0000_0000) as u32
    }

    /// Whether a draft model is loaded; never for a stub.
    pub fn has_mtp_weights(&self) -> (r: bool)
        ensures
            r == self.draft_active,
    {
        self.draft_active
    }

    /// Whether a turn may be sent to the thread of the model, and what a stub
    /// answers.
    pub fn check_runnable(&self) -> (r: Result<(), String>)
        ensures
            match r {
                Ok(_) => self.initialized,
                Err(m) => !self.initialized && m@ == NOT_INITIALIZED@,
            },
    {
        if self.initialized {
            Ok(())
        } else {
            Err(String::from_str(NOT_INITIALIZED))
        }
    }
}

} // verus!
