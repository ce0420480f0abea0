//! Host-side logic of the Gemma 4 model family: prefill chunk planning, KV
//! cache layout, sliding-window checkpoints, session reuse, media expansion,
//! prompt rendering, configuration parsing and the weight install plan.

pub mod arith;
pub mod checkpoint_store;
pub mod checkpoints;
pub mod chunks;
pub mod config;
pub mod config_file;
pub mod decode;
pub mod experts;
pub mod forward;
pub mod install;
pub mod install_plan;
pub mod json;
pub mod kv;
pub mod limits;
pub mod load;
pub mod load_laws;
pub mod media;
pub mod media_turn;
pub mod model;
pub mod model_plan;
pub mod prefill;
pub mod prefill_steps;
pub mod prompt;
pub mod session;
pub mod stream;
pub mod table;
pub mod text;
pub mod turns;
pub mod weight_laws;
pub mod weights;
