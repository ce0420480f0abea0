# gemma4

Host-side logic of the Gemma 4 model family, written in Verus: what a checkpoint
is made of, how its cache is laid out, how prompts are cut into passes, what a
turn reuses of the one before it, and what it leaves behind. Tensors are known
to the library by numbers and shapes; a host performs what the library plans.

- `src/` is the library. Every function states what it returns or changes, and
  Verus proves it. Proof functions named `law_...` state what holds of several
  functions together.
- `tests/` runs the library on concrete values.
- `app/` is the host: files, environment, threads, streaming, and the traits
  that a tensor runtime, a block pool, a tokenizer and an output parser
  implement.

## Modules

| Module | What it holds |
| --- | --- |
| `config`, `config_file` | the model configuration and the files it is read from |
| `weights`, `weight_laws`, `experts`, `install`, `install_plan`, `load`, `load_laws` | names, forms and completeness of tensors |
| `kv`, `model_plan` | cache layout, layer routes, the block pool, the parts of a model |
| `chunks`, `prefill`, `prefill_steps`, `forward` | how prompts and tokens are run |
| `limits`, `checkpoints`, `checkpoint_store` | sliding-window checkpoints |
| `session`, `turns`, `decode`, `model` | the state of a model, and its turns |
| `media`, `media_turn` | images and audio in prompts |
| `prompt`, `stream` | the wire format of prompts and output |
| `json`, `table`, `text`, `arith` | what the others build on |

## What is believed

JSON text is parsed by `serde_json`. `json.rs` declares its value type, names the
document that a text spells, and believes two things: that `serde_json::from_str`
is a function of the text, and that taking a value apart one level at a time
gives its content. `text.rs` believes that `String::push` appends a character.
Block hashes, block counts and array copies come in as closures, and every
contract holds for whatever they return, as long as a hash is a function of its
arguments.
