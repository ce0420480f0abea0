//! The media of a turn: the order of expansion, and whether features fit the
//! placeholders that they are laid over.

use vstd::prelude::*;
use vstd::string::*;

use crate::config::Gemma4Config;
use crate::media::as_token;
use crate::media::audio_token;
use crate::media::audio_token_of;
use crate::media::count_token;
use crate::media::expand_media_tokens;
use crate::media::expanded;
use crate::media::image_token;
use crate::media::image_token_of;
use crate::media::occurrences;
use crate::media::spans;
use crate::media::token_of_id;
use crate::session::copy_tokens;
use crate::text::decimal;
use crate::text::cat;
use crate::text::law_ends_of_a_text;
use crate::text::signed_text;
use crate::text::unsigned_text;

verus! {

/// Why the media of a turn cannot be used.
#[derive(Debug, Clone, Copy, PartialEq, Eq, Structural)]
pub enum MediaError {
    NoVisionSupport,
    ImageCount { tokens: usize, features: i64 },
    AudioCount { tokens: usize, features: i64 },
}

impl MediaError {
    /// The message shown to a caller.
    pub open spec fn text(self) -> Seq<char> {
        match self {
            MediaError::NoVisionSupport =>
                "Images provided but model has no vision support (no vision_config in config.json)"@,
            MediaError::ImageCount { tokens, features } => "Image token count ("@ + decimal(
                tokens as int,
            ) + ") does not match vision feature count ("@ + decimal(features as int)
                + "). Check that image token expansion produced the correct number of tokens."@,
            MediaError::AudioCount { tokens, features } => "Audio token count ("@ + decimal(
                tokens as int,
            ) + ") does not match audio frame count ("@ + decimal(features as int)
                + "). Check that audio token expansion produced the correct number of frames."@,
        }
    }

    /// The message shown to a caller.
    pub fn message(&self) -> (r: String)
        ensures
            r@ == self.text(),
    {
        match *self {
            MediaError::NoVisionSupport => String::from_str(
                "Images provided but model has no vision support (no vision_config in config.json)",
            ),
            MediaError::ImageCount { tokens, features } => {
                let mut out = cat("Image token count (", unsigned_text(tokens as u64).as_str());
                out.append(") does not match vision feature count (");
                out.append(signed_text(features).as_str());
                out.append(
                    "). Check that image token expansion produced the correct number of tokens.",
                );
                out
            },
            MediaError::AudioCount { tokens, features } => {
                let mut out = cat("Audio token count (", unsigned_text(tokens as u64).as_str());
                out.append(") does not match audio frame count (");
                out.append(signed_text(features).as_str());
                out.append(
                    "). Check that audio token expansion produced the correct number of frames.",
                );
                out
            },
        }
    }
}

/// A configured token, or a default.
pub open spec fn token_or(id: Option<i32>, default: i32) -> u32 {
    as_token(
        match id {
            Some(v) => v,
            None => default,
        },
    )
}

fn token_with_default(id: Option<i32>, default: i32) -> (r: u32)
    ensures
        r == token_or(id, default),
{
    match id {
        Some(v) => token_of_id(v),
        None => token_of_id(default),
    }
}

/// A prompt with its audio expanded; `frames` gives the frames of each clip.
pub open spec fn audio_expanded(c: Gemma4Config, tokens: Seq<u32>, frames: Seq<u32>) -> Seq<u32> {
    if frames.len() == 0 {
        tokens
    } else {
        expanded(
            tokens,
            frames,
            token_or(c.boa_token_id, 256000),
            audio_token(c),
            token_or(c.eoa_token_id, 258883),
        )
    }
}

/// A prompt with its images expanded; `soft` gives the tokens of each image.
pub open spec fn image_expanded(c: Gemma4Config, tokens: Seq<u32>, soft: Seq<u32>) -> Seq<u32> {
    if soft.len() == 0 {
        tokens
    } else {
        expanded(
            tokens,
            soft,
            token_or(c.boi_token_id, 255999),
            image_token(c),
            token_or(c.eoi_token_id, 258882),
        )
    }
}

/// Whether the model takes images.
pub open spec fn has_vision(c: Gemma4Config) -> bool {
    c.vision_config is Some || c.unified_vision_config is Some
}

/// A prompt with its media expanded: audio first, then images, so that images
/// come first where the prompt holds no placeholder.
pub fn prepare_multimodal_tokens(
    config: &Gemma4Config,
    rendered_tokens: &[u32],
    image_soft_tokens: &Vec<u32>,
    audio_frames: &Vec<u32>,
) -> (r: Result<Vec<u32>, MediaError>)
    ensures
        if image_soft_tokens@.len() > 0 && !has_vision(*config) {
            r == Err::<Vec<u32>, MediaError>(MediaError::NoVisionSupport)
        } else {
            r matches Ok(tokens) && tokens@ == image_expanded(
                *config,
                audio_expanded(*config, rendered_tokens@, audio_frames@),
                image_soft_tokens@,
            )
        },
{
    let after_audio: Vec<u32> = if audio_frames.len() == 0 {
        copy_tokens(rendered_tokens, rendered_tokens.len())
    } else {
        expand_media_tokens(
            rendered_tokens,
            audio_frames,
            audio_token_of(config),
            token_with_default(config.boa_token_id, 256000),
            token_with_default(config.eoa_token_id, 258883),
        )
    };
    assert(rendered_tokens@.take(rendered_tokens@.len() as int) =~= rendered_tokens@);
    if image_soft_tokens.len() == 0 {
        return Ok(after_audio);
    }
    if config.vision_config.is_none() && config.unified_vision_config.is_none() {
        return Err(MediaError::NoVisionSupport);
    }
    Ok(
        expand_media_tokens(
            after_audio.as_slice(),
            image_soft_tokens,
            image_token_of(config),
            token_with_default(config.boi_token_id, 255999),
            token_with_default(config.eoi_token_id, 258882),
        ),
    )
}

/// The prompt of a tokenizer without a chat template, with images and audio and
/// no placeholder of its own, holds its first token, then the images, then the
/// audio, then the rest.
pub proof fn law_images_before_audio(
    c: Gemma4Config,
    tokens: Seq<u32>,
    soft: Seq<u32>,
    frames: Seq<u32>,
)
    requires
        tokens.len() > 0,
        soft.len() > 0,
        frames.len() > 0,
        !tokens.contains(audio_token(c)),
        !tokens.contains(image_token(c)),
        image_token(c) != audio_token(c),
        image_token(c) != token_or(c.boa_token_id, 256000),
        image_token(c) != token_or(c.eoa_token_id, 258883),
    ensures
        image_expanded(c, audio_expanded(c, tokens, frames), soft) == seq![tokens[0]] + spans(
            token_or(c.boi_token_id, 255999),
            image_token(c),
            token_or(c.eoi_token_id, 258882),
            soft,
        ) + spans(
            token_or(c.boa_token_id, 256000),
            audio_token(c),
            token_or(c.eoa_token_id, 258883),
            frames,
        ) + tokens.skip(1),
{
    let boa = token_or(c.boa_token_id, 256000);
    let eoa = token_or(c.eoa_token_id, 258883);
    let audio = spans(boa, audio_token(c), eoa, frames);
    let mid = audio_expanded(c, tokens, frames);
    assert(mid == seq![tokens[0]] + audio + tokens.skip(1));
    lemma_spans_free(boa, audio_token(c), eoa, frames, image_token(c));
    assert forall|i: int| 0 <= i < mid.len() implies mid[i] != image_token(c) by {
        if i == 0 {
            assert(tokens.contains(tokens[0]));
        } else if i < 1 + audio.len() {
            assert(mid[i] == audio[i - 1]);
        } else {
            assert(mid[i] == tokens[i - audio.len()]);
            assert(tokens.contains(tokens[i - audio.len()]));
        }
    }
    assert(mid[0] == tokens[0]);
    assert(mid.skip(1) =~= audio + tokens.skip(1));
    let images = spans(
        token_or(c.boi_token_id, 255999),
        image_token(c),
        token_or(c.eoi_token_id, 258882),
        soft,
    );
    assert(seq![tokens[0]] + images + (audio + tokens.skip(1)) =~= seq![tokens[0]] + images + audio
        + tokens.skip(1));
}

proof fn lemma_spans_free(open: u32, token: u32, close: u32, counts: Seq<u32>, other: u32)
    requires
        other != open,
        other != token,
        other != close,
    ensures
        forall|i: int|
            0 <= i < spans(open, token, close, counts).len() ==> #[trigger] spans(
                open,
                token,
                close,
                counts,
            )[i] != other,
    decreases counts.len(),
{
    if counts.len() > 0 {
        lemma_spans_free(open, token, close, counts.drop_last(), other);
        let a = spans(open, token, close, counts.drop_last());
        let b = crate::media::span(open, token, close, counts.last() as nat);
        let all = spans(open, token, close, counts);
        assert forall|i: int| 0 <= i < all.len() implies #[trigger] all[i] != other by {
            if i < a.len() {
                assert(all[i] == a[i]);
            } else {
                assert(all[i] == b[i - a.len()]);
            }
        }
    }
}

/// Which features are laid over the embeddings of a prompt.
#[derive(Debug, Clone, Copy, PartialEq, Eq, Structural)]
pub struct MergePlan {
    pub images: bool,
    pub audio: bool,
}

/// Which features are laid over the embeddings of a prompt; none where it has
/// no media that the model takes.
pub fn plan_multimodal_embeds(config: &Gemma4Config, has_images: bool, has_audio: bool) -> (r:
    Option<MergePlan>)
    ensures
        ({
            let images = has_images && has_vision(*config);
            let audio = has_audio && config.has_audio;
            r == if images || audio {
                Some(MergePlan { images, audio })
            } else {
                None
            }
        }),
{
    let images: bool = has_images && (config.vision_config.is_some()
        || config.unified_vision_config.is_some());
    let audio: bool = has_audio && config.has_audio;
    if images || audio {
        Some(MergePlan { images, audio })
    } else {
        None
    }
}

/// Accepts image features where there is one for every placeholder.
pub fn check_image_features(config: &Gemma4Config, tokens: &[u32], features: i64) -> (r: Result<
    (),
    MediaError,
>)
    ensures
        r == if occurrences(tokens@, image_token(*config)) == features {
            Ok::<(), MediaError>(())
        } else {
            Err::<(), MediaError>(
                MediaError::ImageCount {
                    tokens: occurrences(tokens@, image_token(*config)) as usize,
                    features,
                },
            )
        },
{
    let count: usize = count_token(tokens, image_token_of(config));
    if count as i128 == features as i128 {
        Ok(())
    } else {
        Err(MediaError::ImageCount { tokens: count, features })
    }
}

/// Accepts audio features where there is one for every placeholder. Tells
/// whether there are any to lay over the embeddings.
pub fn check_audio_features(config: &Gemma4Config, tokens: &[u32], features: i64) -> (r: Result<
    bool,
    MediaError,
>)
    ensures
        r == if occurrences(tokens@, audio_token(*config)) == features {
            Ok::<bool, MediaError>(features > 0)
        } else {
            Err::<bool, MediaError>(
                MediaError::AudioCount {
                    tokens: occurrences(tokens@, audio_token(*config)) as usize,
                    features,
                },
            )
        },
{
    let count: usize = count_token(tokens, audio_token_of(config));
    if count as i128 == features as i128 {
        Ok(features > 0)
    } else {
        Err(MediaError::AudioCount { tokens: count, features })
    }
}

/// The tokens around media are those that the model names, else 255999 and 258882 around
/// an image, and 256000 and 258883 around audio. A prompt without media of a kind is
/// left as it is by that kind.
pub proof fn law_tokens_around_media(c: Gemma4Config, tokens: Seq<u32>, n: Seq<u32>, id: i32)
    requires
        n.len() > 0,
        id >= 0,
    ensures
        image_expanded(c, tokens, Seq::empty()) == tokens,
        audio_expanded(c, tokens, Seq::empty()) == tokens,
        c.boi_token_id is None && c.eoi_token_id is None ==> image_expanded(c, tokens, n)
            == expanded(tokens, n, 255999, image_token(c), 258882),
        c.boa_token_id is None && c.eoa_token_id is None ==> audio_expanded(c, tokens, n)
            == expanded(tokens, n, 256000, audio_token(c), 258883),
        c.boi_token_id == Some(id) && c.eoi_token_id is None ==> image_expanded(c, tokens, n)
            == expanded(tokens, n, id as u32, image_token(c), 258882),
        c.boi_token_id is None && c.eoi_token_id == Some(id) ==> image_expanded(c, tokens, n)
            == expanded(tokens, n, 255999, image_token(c), id as u32),
        c.boa_token_id == Some(id) && c.eoa_token_id is None ==> audio_expanded(c, tokens, n)
            == expanded(tokens, n, id as u32, audio_token(c), 258883),
        c.boa_token_id is None && c.eoa_token_id == Some(id) ==> audio_expanded(c, tokens, n)
            == expanded(tokens, n, 256000, audio_token(c), id as u32),
{
}

/// A model takes images with a tower as well as with an encoder-free embedder, and not
/// without either.
pub proof fn law_models_with_vision(c: Gemma4Config)
    ensures
        c.vision_config is Some ==> has_vision(c),
        c.unified_vision_config is Some ==> has_vision(c),
        c.vision_config is None && c.unified_vision_config is None ==> !has_vision(c),
        has_vision(c) == crate::model::takes_images(c),
{
}

/// A message about a count names both numbers: the tokens first, then the features.
pub proof fn law_messages_about_media(tokens: usize, features: i64)
    ensures
        ({
            let t = (MediaError::ImageCount { tokens, features }).text();
            &&& ("Image token count ("@ + decimal(tokens as int)).is_prefix_of(t)
            &&& (decimal(features as int)
                + "). Check that image token expansion produced the correct number of tokens."@).is_suffix_of(
                t,
            )
        }),
        ({
            let t = (MediaError::AudioCount { tokens, features }).text();
            &&& ("Audio token count ("@ + decimal(tokens as int)).is_prefix_of(t)
            &&& (decimal(features as int)
                + "). Check that audio token expansion produced the correct number of frames."@).is_suffix_of(
                t,
            )
        }),
{
    let n = decimal(tokens as int);
    let m = decimal(features as int);
    let a = "Image token count ("@ + n;
    let z = "). Check that image token expansion produced the correct number of tokens."@;
    law_ends_of_a_text(a, ") does not match vision feature count ("@, m + z);
    assert(MediaError::ImageCount { tokens, features }.text() =~= a
        + ") does not match vision feature count ("@ + (m + z));
    let b = "Audio token count ("@ + n;
    let y = "). Check that audio token expansion produced the correct number of frames."@;
    law_ends_of_a_text(b, ") does not match audio frame count ("@, m + y);
    assert(MediaError::AudioCount { tokens, features }.text() =~= b
        + ") does not match audio frame count ("@ + (m + y));
}

} // verus!
