# BitLLM

An inference engine for language models with weights of one bit, written in Rust and proved with
Verus. The library under `src/` holds everything that can be decided without floating point and
without the outside world; each of its functions states what it does and is proved to do it. The
program under `app/` adds files, network and float arithmetic.

## Library

| Module | Holds |
|---|---|
| `tensor` | tensors of floats and of signs, views, packed trits, popcount kernels |
| `tokenizer` | byte-pair encoding, byte-level text, `tokenizer.json` and SentencePiece files |
| `runtime` | configurations, weight files, attention, layers, caches, generation, scheduling |
| `server` | requests, plans, answers, errors, the request queue and the sources of models |
| `json`, `text`, `bytes`, `grid` | what the others share |

Floats are bit patterns. Where floats have to be computed with, the caller hands in a function, the
float unit, and contracts speak of what the unit gives: a forward pass is stated exactly, row by
row, for every unit whose answers depend on its arguments alone. In the same way the caller hands
in how tokens are picked and how weights are packed.

Some of what is proved beyond the single functions:

- decoding what a tokenizer encoded gives the text back;
- a batch of sequences, a continuous batch and a run with a draft model give what each sequence
  gives alone;
- a continuous batch answers each request once, and where all ask for as many tokens and none is
  ended by one, in the order of the requests;
- how a sequence is cut into blocks changes no row, with or without a sliding window;
- a draft model changes none of the tokens that the target gives greedily;
- a weight whose shape does not fit its place is refused and changes nothing;
- a model that runs still runs when its weights are packed, and only its projections are packed;
- a mapped file and the same bytes in memory give the same tensors;
- every tensor of a weights file is placed or named as left out.

A few functions of the standard library and of `serde_json` are called through items whose
contracts are believed; their doc comments say what is claimed.

## Program

```
bitllm serve --safetensors model.safetensors --config-json config.json --quantize ternary
bitllm bench --model tiny --iterations 100
```

The server speaks the OpenAI protocol under `/v1/chat/completions` and `/v1/completions`, streams
over `/v1/ws`, swaps models under `/v1/model`, and reports under `/health` and `/metrics`.

## Tests

The files under `tests/` run the library on concrete values with a plain float unit.
