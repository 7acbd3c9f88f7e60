//! Generic CPU-root logical cache model. This is not an engine wire schema.
//! The engine certifies readiness; coverage alone never declares a resume point.

use crate::protocols::{ExternalSequenceBlockHash, LocalBlockHash, ResidencyOwner};
use vstd::prelude::*;

verus! {

#[derive(Debug, Clone, Copy, PartialEq, Eq, Structural)]
pub struct Profile {
    pub version: u32,
    pub block_size: u32,
    pub hash_unit: u32,
}

/// Whether `x` is a multiple of `m`; only zero is a multiple of zero.
pub open spec fn is_multiple(x: int, m: int) -> bool {
    if m == 0 {
        x == 0
    } else {
        x % m == 0
    }
}

/// Decides [`is_multiple`].
pub fn multiple_of(x: u32, m: u32) -> (b: bool)
    ensures
        b == is_multiple(x as int, m as int),
{
    if m == 0 {
        x == 0
    } else {
        x % m == 0
    }
}

impl Profile {
    pub open spec fn is_supported(self) -> bool {
        &&& self.version == 1
        &&& self.hash_unit > 0
        &&& self.block_size > self.hash_unit
        &&& self.block_size as int % self.hash_unit as int == 0
    }

    /// How many tokens one edge of the given role spans.
    pub open spec fn unit_of(self, role: CoverageRole) -> u32 {
        match role {
            CoverageRole::Prefix => self.block_size,
            CoverageRole::Tail => self.hash_unit,
        }
    }

    /// How many plans a binding of the given role may carry.
    pub open spec fn plan_cap(self, role: CoverageRole) -> int {
        match role {
            CoverageRole::Prefix => self.block_size as int / self.hash_unit as int,
            CoverageRole::Tail => 1,
        }
    }

    /// Whether this is a geometry that the model knows how to match.
    pub fn supported(self) -> (b: bool)
        ensures
            b == self.is_supported(),
    {
        self.version == 1 && self.hash_unit > 0 && self.block_size > self.hash_unit && self.block_size
            % self.hash_unit == 0
    }

    pub fn unit(self, role: CoverageRole) -> (n: u32)
        ensures
            n == self.unit_of(role),
    {
        match role {
            CoverageRole::Prefix => self.block_size,
            CoverageRole::Tail => self.hash_unit,
        }
    }

    pub fn cap(self, role: CoverageRole) -> (n: usize)
        requires
            self.is_supported(),
        ensures
            n == self.plan_cap(role),
    {
        match role {
            CoverageRole::Prefix => (self.block_size / self.hash_unit) as usize,
            CoverageRole::Tail => 1,
        }
    }
}

/// Exactly one owner/rank, matching domain and source lifetime. Never project
/// several owners onto a worker before matching their independent CPU roots.
#[derive(Debug, Clone, PartialEq, Eq)]
pub struct Scope {
    pub owner: ResidencyOwner,
    pub namespace: String,
    pub incarnation: [u8; 16],
    pub generation: u64,
}

/// What a [`Scope`] names.
pub struct ScopeView {
    pub owner: ResidencyOwner,
    pub namespace: Seq<char>,
    pub incarnation: Seq<u8>,
    pub generation: u64,
}

impl View for Scope {
    type V = ScopeView;

    open spec fn view(&self) -> ScopeView {
        ScopeView {
            owner: self.owner,
            namespace: self.namespace@,
            incarnation: self.incarnation@,
            generation: self.generation,
        }
    }
}

/// Whether two incarnations are the same sixteen bytes.
pub fn same_incarnation(a: &[u8; 16], b: &[u8; 16]) -> (same: bool)
    ensures
        same == (a@ == b@),
{
    let mut i: usize = 0;
    while i < 16
        invariant
            i <= 16,
            forall|j: int| 0 <= j < i ==> a@[j] == b@[j],
        decreases 16 - i,
    {
        if a[i] != b[i] {
            assert(a@[i as int] != b@[i as int]);
            return false;
        }
        i = i + 1;
    }
    assert(a@ =~= b@);
    true
}

impl Scope {
    /// Whether two scopes name the same owner, domain and source lifetime.
    pub fn same(&self, other: &Scope) -> (b: bool)
        ensures
            b == (self@ == other@),
    {
        self.owner == other.owner && self.namespace == other.namespace && same_incarnation(
            &self.incarnation,
            &other.incarnation,
        ) && self.generation == other.generation
    }

    /// A copy of the scope.
    pub fn copied(&self) -> (s: Scope)
        ensures
            s == *self,
    {
        Scope {
            owner: self.owner,
            namespace: self.namespace.clone(),
            incarnation: self.incarnation,
            generation: self.generation,
        }
    }
}

#[derive(Debug, Clone, Copy, PartialEq, Eq, Structural, Hash)]
pub enum CoverageRole {
    Prefix,
    Tail,
}

#[derive(Debug, Clone, Copy, PartialEq, Eq, Structural, Hash)]
pub struct Edge {
    pub role: CoverageRole,
    pub parent: Option<ExternalSequenceBlockHash>,
    pub local: LocalBlockHash,
    pub child: ExternalSequenceBlockHash,
}

#[derive(Debug, Clone, Copy, PartialEq, Eq, Structural)]
pub struct Binding {
    pub id: u64,
    pub role: CoverageRole,
    pub start: u32,
    pub end: u32,
    pub parent: Option<ExternalSequenceBlockHash>,
    pub child: ExternalSequenceBlockHash,
}

impl Binding {
    /// A span starts on a block boundary, hangs off a parent unless it starts
    /// the prompt, and covers one block (`Prefix`) or a shorter run that ends
    /// on a hash unit (`Tail`).
    pub open spec fn is_valid(self, profile: Profile) -> bool {
        &&& self.start < self.end
        &&& is_multiple(self.start as int, profile.block_size as int)
        &&& (self.start == 0) == (self.parent is None)
        &&& match self.role {
            CoverageRole::Prefix => self.end - self.start == profile.block_size,
            CoverageRole::Tail => {
                &&& self.end - self.start < profile.block_size
                &&& is_multiple(self.end as int, profile.hash_unit as int)
            },
        }
    }

    /// How many edges the span is made of.
    pub open spec fn edge_count(self, profile: Profile) -> int {
        (self.end - self.start) / profile.unit_of(self.role) as int
    }

    pub fn valid(&self, profile: Profile) -> (b: bool)
        ensures
            b == self.is_valid(profile),
    {
        self.start < self.end && multiple_of(self.start, profile.block_size) && (self.start == 0)
            == self.parent.is_none() && match self.role {
            CoverageRole::Prefix => self.end - self.start == profile.block_size,
            CoverageRole::Tail => self.end - self.start < profile.block_size && multiple_of(
                self.end,
                profile.hash_unit,
            ),
        }
    }
}

#[derive(Debug, Clone, PartialEq, Eq)]
pub struct Contribution {
    pub binding: Binding,
    pub edges: Vec<Edge>,
}

#[derive(Debug, Clone, Copy, PartialEq, Eq, Structural)]
pub struct Plan {
    pub id: u64,
    pub binding: u64,
    pub end: u32,
    pub anchor_end: u32,
    pub anchor: Option<ExternalSequenceBlockHash>,
    pub minimum_prompt_tokens: u32,
}

impl Plan {
    /// A plan resumes at a positive hash-unit boundary, from an anchor on a
    /// block boundary, for prompts that reach past both, and agrees with the
    /// binding that backs it.
    pub open spec fn is_valid(self, binding: Binding, profile: Profile) -> bool {
        &&& self.end != 0
        &&& is_multiple(self.end as int, profile.hash_unit as int)
        &&& is_multiple(self.anchor_end as int, profile.block_size as int)
        &&& self.minimum_prompt_tokens > self.end
        &&& self.minimum_prompt_tokens > self.anchor_end
        &&& (self.anchor_end == 0) == (self.anchor is None)
        &&& match binding.role {
            CoverageRole::Prefix => {
                &&& self.anchor_end == binding.end
                &&& self.anchor == Some(binding.child)
                &&& binding.start < self.end <= binding.end
            },
            CoverageRole::Tail => {
                &&& self.anchor_end == binding.start
                &&& self.anchor == binding.parent
                &&& self.end == binding.end
            },
        }
    }

    pub fn valid(&self, binding: &Binding, profile: Profile) -> (b: bool)
        ensures
            b == self.is_valid(*binding, profile),
    {
        if self.end == 0 || !multiple_of(self.end, profile.hash_unit) || !multiple_of(
            self.anchor_end,
            profile.block_size,
        ) || self.minimum_prompt_tokens <= self.end || self.minimum_prompt_tokens <= self.anchor_end
            || (self.anchor_end == 0) != self.anchor.is_none() {
            return false;
        }
        match binding.role {
            CoverageRole::Prefix => {
                self.anchor_end == binding.end && self.anchor == Some(binding.child) && self.end
                    > binding.start && self.end <= binding.end
            },
            CoverageRole::Tail => {
                self.anchor_end == binding.start && self.anchor == binding.parent && self.end
                    == binding.end
            },
        }
    }
}

#[derive(Debug, Clone)]
pub enum Mutation {
    Coverage(Contribution),
    RemoveCoverage(u64),
    Plan(Plan),
    RemovePlan(u64),
    ClearCpu,
}

#[derive(Debug, Clone, Copy, PartialEq, Eq, Structural)]
pub enum Confidence {
    Known,
    Gap,
    UnsupportedProfile,
    Invalid,
    Overflow,
    UnsupportedQuery,
    ScopeMismatch,
}

/// Explicit local ceilings, independent of an engine's advertised capacity.
#[derive(Debug, Clone, Copy)]
pub struct Limits {
    pub bindings: usize,
    pub edges: usize,
    pub plans: usize,
}

impl Default for Limits {
    fn default() -> (limits: Self)
        ensures
            limits.bindings == 4096,
            limits.edges == 262_144,
            limits.plans == 65_536,
    {
        Limits { bindings: 4096, edges: 262_144, plans: 65_536 }
    }
}

#[derive(Debug, Clone)]
pub struct Snapshot {
    pub profile: Profile,
    pub scope: Scope,
    pub cursor: u64,
    pub confidence: Confidence,
    pub edges: Vec<Edge>,
    pub bindings: Vec<Binding>,
    pub plans: Vec<Plan>,
}

/// A materialized mutation cut, not an engine event. Semantic tables are retained
/// even when ownership coalescing produces no edge changes.
#[derive(Debug, Clone)]
pub struct MaterializedBatch {
    pub profile: Profile,
    pub scope: Scope,
    pub cursor: u64,
    pub confidence: Confidence,
    pub added_edges: Vec<Edge>,
    pub removed_edges: Vec<Edge>,
    pub bindings: Vec<Binding>,
    pub plans: Vec<Plan>,
}

} // verus!
