# turbo_serving

The decisions of a text-model serving stack, verified with Verus: what a request
means, which session serves it, how rows of tokens are cut and packed, how results
are gathered and ranked, and what every refusal says. The calls into devices, files
and sockets stand outside, under `app/`.

## Layout

- `src/wordpiece.rs`, `spans.rs`, `rank.rs`: rows of a WordPiece tokenizer, word
  spans and entity groups, rankings.
- `src/cuda.rs`, `cuda_session.rs`, `preload.rs`: the CUDA provider.
- `src/ggml.rs`, `stop.rs`: the llama.cpp provider; stop strings that never leak.
- `src/static_table.rs`, `static_session.rs`: static embedding tables.
- `src/provider.rs`, `types.rs`, `error.rs`: devices, capabilities, shared types.
- `src/engine.rs`, `gather.rs`: buckets, leases, and the results of a request's chunks.
- `src/oip.rs`, `answer.rs`, `grpc.rs`, `http.rs`: the Open Inference Protocol and
  the OpenAI-shaped routes.
- `src/infer.rs`, `serve.rs`, `status.rs`, `config.rs`, `names.rs`, `api.rs`: the
  KServe server over the C library.
- `src/import.rs`, `staging.rs`, `safetensors.rs`: bundles.
- `src/reference.rs`: the benchmarks of the runtimes alone.
- `src/text.rs`, `order.rs`, `bytes.rs`, `convert.rs`, `json.rs`: texts, orders,
  bytes, and what is read out of JSON.

Floating-point numbers are carried as their bits; arithmetic on them is in
`app/floats.rs`. `tests/` runs the library.
