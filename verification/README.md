# kv_router

Verified routing logic for a fleet of inference workers: which worker holds the
cache of a prompt, what a cache view may be trusted for, and what is recorded of
a request.

`src/` is the library. Every function states its contract, and Verus proves it.
The exceptions are the few functions marked `external_body`, and one
`assume_specification`: they make a call into another crate or the standard
library, and what they state of it is believed. They stand in `block_hash`,
`id_map`, `json`, `kv_cache_sol_estimator`, `prompt` and `text`.

| Modules | What they hold |
|---|---|
| `protocols`, `id_map`, `edge_table`, `keyed_table`, `sums`, `table_fit`, `text`, `json` | shared values and tables |
| `block_hash`, `hash_continuation` | block hashes and their rolling continuation |
| `logical`, `publisher`, `logical_view`, `logical_laws` | the model of logical CPU cache views |
| `logical_wire`, `logical_normalizer`, `logical_stream`, `logical_stream_laws`, `logical_registry` | decoding, normalizing, fencing and consulting those views |
| `cache_coverage`, `router_hint`, `two_tier_cost_fn` | choosing a worker, and explaining the choice |
| `zmq_wire`, `kv_events`, `event_dedup`, `event_batching` | normalizing, counting and coalescing cache events |
| `kv_cache_sol`, `kv_cache_sol_producer`, `kv_cache_sol_estimator`, `kv_cache_sol_laws`, `choice_map` | the estimate of the best possible hit rate |
| `cache_history`, `minimal_cache_loss` | bounded histories of computed prefixes |
| `audit`, `otel_sink`, `payload_logger`, `payload_logging_stream` | what is logged of requests and responses |
| `request_trace`, `request_replay` | trace records and replay hashes |
| `prompt` | tool declarations and template sources |

Functions named `law_*` state what holds across calls.

`tests/` runs the library on concrete values. `app/` holds the services around
it: sockets, clocks, metrics, serialization and locks.
