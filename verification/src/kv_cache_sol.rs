//! Out-of-band estimator for the workload-specific KV-cache speed-of-light hit
//! rate: what its producers and its estimator tell each other.

use crate::keyed_table::TableKey;
use std::collections::BTreeMap;
use vstd::prelude::*;

verus! {

/// The topic on which events travel.
pub const KV_CACHE_SOL_TOPIC: &'static str = "kv-cache-sol-v1";

/// Requests whose hashes are only comparable with each other.
#[derive(Debug)]
pub struct KvCacheSolDomain {
    pub model: String,
    pub model_config: String,
    pub block_size: u32,
    pub is_eagle: bool,
}

/// What a domain stands for.
pub ghost struct Domain {
    pub model: Seq<char>,
    pub model_config: Seq<char>,
    pub block_size: u32,
    pub is_eagle: bool,
}

impl TableKey for KvCacheSolDomain {
    type Key = Domain;

    open spec fn key(&self) -> Domain {
        Domain {
            model: self.model@,
            model_config: self.model_config@,
            block_size: self.block_size,
            is_eagle: self.is_eagle,
        }
    }

    fn same_key(&self, other: &Self) -> (same: bool) {
        self.model == other.model && self.model_config == other.model_config && self.block_size
            == other.block_size && self.is_eagle == other.is_eagle
    }
}

impl KvCacheSolDomain {
    pub fn copied(&self) -> (copy: Self)
        ensures
            copy == *self,
    {
        KvCacheSolDomain {
            model: self.model.clone(),
            model_config: self.model_config.clone(),
            block_size: self.block_size,
            is_eagle: self.is_eagle,
        }
    }
}

/// What happened to a request.
#[derive(Debug)]
pub enum KvCacheSolEventKind {
    RequestStart { prompt_sequence_hashes: Vec<u64>, prompt_tokens: u64 },
    RequestEnd {
        /// By choice.
        continuation_sequence_hashes: BTreeMap<u32, Vec<u64>>,
        observed_cached_tokens: Option<u64>,
    },
}

impl KvCacheSolEventKind {
    pub open spec fn label(self) -> Seq<char> {
        match self {
            KvCacheSolEventKind::RequestStart { .. } => "request_start"@,
            KvCacheSolEventKind::RequestEnd { .. } => "request_end"@,
        }
    }

    /// The label under which events of this kind are counted.
    pub fn event_type(&self) -> (label: &'static str)
        ensures
            label@ == self.label(),
    {
        match self {
            KvCacheSolEventKind::RequestStart { .. } => "request_start",
            KvCacheSolEventKind::RequestEnd { .. } => "request_end",
        }
    }
}

/// One event of a producer. It carries hashes, never tokens.
#[derive(Debug)]
pub struct KvCacheSolEvent {
    pub producer_sequence: u64,
    pub occurred_at_ms: u64,
    pub request_id: String,
    pub domain: KvCacheSolDomain,
    pub kind: KvCacheSolEventKind,
}

} // verus!
