use vstd::prelude::*;

pub mod audit;
pub mod block_hash;
pub mod cache_coverage;
pub mod cache_history;
pub mod choice_map;
pub mod edge_table;
pub mod event_batching;
pub mod event_dedup;
pub mod event_laws;
pub mod export_laws;
pub mod hash_continuation;
pub mod history_laws;
pub mod id_map;
pub mod json;
pub mod keyed_table;
pub mod kv_cache_sol;
pub mod kv_cache_sol_estimator;
pub mod kv_cache_sol_laws;
pub mod kv_cache_sol_producer;
pub mod kv_events;
pub mod label_laws;
pub mod logical;
pub mod logical_laws;
pub mod logical_normalizer;
pub mod logical_registry;
pub mod logical_stream;
pub mod logical_stream_laws;
pub mod logical_view;
pub mod logical_view_laws;
pub mod logical_wire;
pub mod minimal_cache_loss;
pub mod otel_sink;
pub mod payload_logger;
pub mod payload_logging_laws;
pub mod payload_logging_stream;
pub mod producer_laws;
pub mod prompt;
pub mod protocols;
pub mod publisher;
pub mod publisher_laws;
pub mod request_replay;
pub mod request_trace;
pub mod router_hint;
pub mod routing_laws;
pub mod sums;
pub mod table_fit;
pub mod text;
pub mod text_laws;
pub mod two_tier_cost_fn;
pub mod zmq_laws;
pub mod zmq_wire;

verus! {

} // verus!
