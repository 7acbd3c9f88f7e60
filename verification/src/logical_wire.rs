//! The native CPU-root cuts as they arrive, and the checks that each must pass
//! before anything of it is believed.
//!
//! The engine publishes a `LogicalSnapshot` baseline followed by contiguous
//! `LogicalUpdate` cuts. A snapshot re-bases its consumer unconditionally; an
//! update is applied only when it continues the accepted cut in the same epoch,
//! so a lost message leaves the view unknown until the next authoritative
//! snapshot rather than producing a half-restored index.

use crate::logical::Limits;
use crate::protocols::ResidencyOwner;
use vstd::prelude::*;
use vstd::string::*;
use vstd::utf8::*;

verus! {

pub const LOGICAL_TOPIC: &'static str = "logical-cache-v1";

/// A hash of the engine, as bytes.
#[derive(Debug, Clone, PartialEq, Eq)]
pub struct NativeHash(pub Vec<u8>);

impl NativeHash {
    /// A hash of admissible size.
    pub fn new(bytes: Vec<u8>) -> (hash: Option<Self>)
        ensures
            hash is Some <==> 1 <= bytes@.len() <= 128,
            hash is Some ==> hash->Some_0.0@ == bytes@,
    {
        if bytes.len() == 0 || bytes.len() > 128 {
            None
        } else {
            Some(NativeHash(bytes))
        }
    }
}

/// One strict schema for both cut shapes. Exactly one shape's fields are
/// present; the other's are absent rather than empty, so a truncated snapshot
/// cannot be read as an update that changed nothing.
#[derive(Debug, Clone)]
pub struct WireCut {
    pub event_type: String,
    pub profile: String,
    pub version: u32,
    pub namespace: String,
    pub epoch: String,
    pub cursor: u64,
    pub confidence: String,
    pub reason: String,
    pub block_size: u32,
    pub hash_unit: u32,
    pub max_rows: u64,
    pub max_plans: u64,
    pub segments: Option<Vec<WireSegment>>,
    pub plans: Option<Vec<WirePlan>>,
    pub added_segments: Option<Vec<WireSegment>>,
    pub removed_segments: Option<Vec<String>>,
    pub added_plans: Option<Vec<WirePlan>>,
    pub removed_plans: Option<Vec<String>>,
}

/// Validated scope and geometry fields, shared by both shapes so that those
/// checks cannot diverge between the two messages.
#[derive(Debug, Clone)]
pub struct WireHeader {
    pub epoch: String,
    pub cursor: u64,
    pub confidence: String,
    pub reason: String,
    pub block_size: u32,
    pub hash_unit: u32,
    pub max_rows: u64,
}

/// A run of blocks that is resident in the engine's CPU pool.
#[derive(Debug, Clone)]
pub struct WireSegment {
    pub id: String,
    pub kind: String,
    pub start: u64,
    pub end: u64,
    pub parent_hash: Option<NativeHash>,
    pub end_hash: NativeHash,
    pub token_ids: Vec<u32>,
    pub hash_unit: u32,
    pub hashes: Vec<NativeHash>,
}

/// A point from which the engine declares that it can resume.
#[derive(Debug, Clone)]
pub struct WirePlan {
    pub id: String,
    pub kind: String,
    pub end: u64,
    pub anchor: u64,
    pub anchor_hash: Option<NativeHash>,
    pub terminal_hash: NativeHash,
    pub minimum_prompt_tokens: u64,
    pub binding: String,
}

/// The message around the cuts.
#[derive(Debug, Clone)]
pub struct WireEnvelope {
    /// Whether the timestamp is a finite number.
    pub finite_timestamp: bool,
    pub cuts: Vec<WireCut>,
    pub dp_rank: i32,
}

/// A message: how long it was, and what it held, or why that cannot be read.
#[derive(Debug)]
pub struct WirePayload {
    pub bytes: usize,
    pub envelope: Result<WireEnvelope, String>,
}

/// Explicit local ceilings on what a consumer admits.
#[derive(Debug, Clone, Copy)]
pub struct DecodeLimits {
    pub bytes: usize,
    pub state: Limits,
    pub epochs: usize,
}

impl Default for DecodeLimits {
    fn default() -> (limits: Self)
        ensures
            limits.bytes == 16 * 1024 * 1024,
            limits.state.bindings == 4096,
            limits.state.edges == 262_144,
            limits.state.plans == 65_536,
            limits.epochs == 256,
    {
        DecodeLimits { bytes: 16 * 1024 * 1024, state: Limits::default(), epochs: 256 }
    }
}

/// A geometry with which cuts can be made.
pub open spec fn good_geometry(block_size: u32, hash_unit: u32) -> bool {
    &&& hash_unit > 0
    &&& block_size > hash_unit
    &&& block_size as int % hash_unit as int == 0
}

/// How many plans a row may carry at a geometry, and one more.
pub open spec fn plans_per_row(block_size: u32, hash_unit: u32) -> int {
    block_size as int / hash_unit as int + 1
}

impl DecodeLimits {
    /// Size the ceilings for an engine that advertises `max_rows` at this
    /// geometry, instead of guessing.
    ///
    /// The defaults are deliberately conservative and are reached by pool size
    /// alone, not by traffic: an engine whose pool exceeds them has every cut
    /// refused, permanently, for that worker. The plan ceiling binds first and
    /// is easy to miss: `max_plans` is `max_rows * (B/h + 1)`.
    ///
    /// Callers must still size `bytes` against a measured snapshot; this helper
    /// only makes the state ceilings consistent with the advertised pool.
    pub fn for_pool(max_rows: u64, block_size: u32, hash_unit: u32) -> (limits: Option<Self>)
        ensures
            limits is Some <==> {
                &&& good_geometry(block_size, hash_unit)
                &&& max_rows * plans_per_row(block_size, hash_unit) <= u64::MAX
                &&& max_rows * plans_per_row(block_size, hash_unit) <= usize::MAX
            },
            limits is Some ==> {
                &&& limits->Some_0.bytes == 16 * 1024 * 1024
                &&& limits->Some_0.epochs == 256
                &&& limits->Some_0.state.bindings == max_rows
                &&& limits->Some_0.state.plans == max_rows * plans_per_row(block_size, hash_unit)
                &&& limits->Some_0.state.edges == max_rows * (block_size as int
                    / hash_unit as int)
            },
    {
        if hash_unit == 0 || block_size <= hash_unit || block_size % hash_unit != 0 {
            return None;
        }
        let ratio: u32 = block_size / hash_unit;
        let per_row: u64 = ratio as u64 + 1;
        proof {
            assert(max_rows * per_row <= u64::MAX * u64::MAX) by (nonlinear_arith)
                requires
                    0 <= max_rows <= u64::MAX,
                    0 <= per_row <= u64::MAX,
            ;
            assert(max_rows * per_row == max_rows * ratio + max_rows) by (nonlinear_arith)
                requires
                    per_row == ratio + 1,
            ;
            assert(max_rows * ratio >= 0) by (nonlinear_arith)
                requires
                    max_rows >= 0,
                    ratio >= 0,
            ;
        }
        let plans: u128 = max_rows as u128 * per_row as u128;
        if plans > u64::MAX as u128 || plans > usize::MAX as u128 {
            return None;
        }
        let defaults = DecodeLimits::default();
        Some(
            DecodeLimits {
                bytes: defaults.bytes,
                state: Limits {
                    bindings: max_rows as usize,
                    plans: plans as usize,
                    edges: max_rows as usize * ratio as usize,
                },
                epochs: defaults.epochs,
            },
        )
    }
}

/// Why a cut is unsupported or invalid.
#[derive(Debug)]
pub enum LogicalDecodeError {
    PayloadBudget,
    Unreadable(String),
    Envelope,
    CacheOwner,
    RankMismatch,
    ProfileVersion,
    NamespaceMismatch,
    Geometry,
    CapacityOverflow,
    PlanCeiling,
    TooManyRows { max_rows: u64, bindings: usize },
    TooManyPlans { max_plans: u64, plans: usize },
    Epoch,
    StateBudget,
    SnapshotShape,
    UpdateShape,
    EventType,
    NotASnapshot,
    Position,
    Kind,
    Identity,
    Collision,
    SegmentMaterial,
    DuplicateSegment,
    MissingBinding,
    PlanMismatch,
    DuplicatePlan,
    RetainedBudget,
    Inconsistent,
    ConfidenceState,
    KnownWithReason,
    UpdateNotKnown,
    GeometryChanged,
    RetiredEpoch,
}

impl LogicalDecodeError {
    /// What the error says.
    pub open spec fn detail(self) -> Seq<char> {
        match self {
            LogicalDecodeError::PayloadBudget => "payload budget exceeded"@,
            LogicalDecodeError::Unreadable(text) => text@,
            LogicalDecodeError::Envelope => "invalid logical envelope"@,
            LogicalDecodeError::CacheOwner => "cpu-root profile supports worker owners only"@,
            LogicalDecodeError::RankMismatch => "endpoint DP rank mismatch"@,
            LogicalDecodeError::ProfileVersion => "unsupported profile/version"@,
            LogicalDecodeError::NamespaceMismatch => "namespace mismatch"@,
            LogicalDecodeError::Geometry => "invalid geometry"@,
            LogicalDecodeError::CapacityOverflow => "capacity overflow"@,
            LogicalDecodeError::PlanCeiling => {
                "max_plans is not the declared capacity-derived ceiling"@
            },
            LogicalDecodeError::TooManyRows { max_rows, bindings } => {
                "engine advertises max_rows="@ + crate::text::decimal(max_rows as nat)
                    + " but this consumer admits at most "@ + crate::text::decimal(
                    bindings as nat,
                )
                    + " bindings; raise Limits::bindings to at least the engine's CPU pool capacity"@
            },
            LogicalDecodeError::TooManyPlans { max_plans, plans } => {
                "engine advertises max_plans="@ + crate::text::decimal(max_plans as nat)
                    + " but this consumer admits at most "@ + crate::text::decimal(plans as nat)
                    + "; raise Limits::plans alongside Limits::bindings"@
            },
            LogicalDecodeError::Epoch => "epoch must be UUID hex"@,
            LogicalDecodeError::StateBudget => "state budget exceeded"@,
            LogicalDecodeError::SnapshotShape => "snapshot must carry exactly its own fields"@,
            LogicalDecodeError::UpdateShape => "update must carry exactly its own fields"@,
            LogicalDecodeError::EventType => "unsupported logical event type"@,
            LogicalDecodeError::NotASnapshot => "expected an authoritative snapshot"@,
            LogicalDecodeError::Position => "token position exceeds u32"@,
            LogicalDecodeError::Kind => "unknown segment/plan kind"@,
            LogicalDecodeError::Identity => "empty/oversize identity"@,
            LogicalDecodeError::Collision => "identity collision"@,
            LogicalDecodeError::SegmentMaterial => "malformed segment geometry/material"@,
            LogicalDecodeError::DuplicateSegment => "duplicate segment ID"@,
            LogicalDecodeError::MissingBinding => "plan has missing binding"@,
            LogicalDecodeError::PlanMismatch => "plan/binding mismatch"@,
            LogicalDecodeError::DuplicatePlan => "duplicate plan ID"@,
            LogicalDecodeError::RetainedBudget => "retained normalizer state budget exceeded"@,
            LogicalDecodeError::Inconsistent => "inconsistent contribution/plan state"@,
            LogicalDecodeError::ConfidenceState => "invalid confidence state"@,
            LogicalDecodeError::KnownWithReason => "known cut carries a failure reason"@,
            LogicalDecodeError::UpdateNotKnown => "update must carry a known view"@,
            LogicalDecodeError::GeometryChanged => "geometry changed without a snapshot"@,
            LogicalDecodeError::RetiredEpoch => "retired epoch"@,
        }
    }

    fn detail_text(&self) -> (text: String)
        ensures
            text@ == self.detail(),
    {
        match self {
            LogicalDecodeError::PayloadBudget => "payload budget exceeded".to_owned(),
            LogicalDecodeError::Unreadable(text) => text.clone(),
            LogicalDecodeError::Envelope => "invalid logical envelope".to_owned(),
            LogicalDecodeError::CacheOwner => {
                "cpu-root profile supports worker owners only".to_owned()
            },
            LogicalDecodeError::RankMismatch => "endpoint DP rank mismatch".to_owned(),
            LogicalDecodeError::ProfileVersion => "unsupported profile/version".to_owned(),
            LogicalDecodeError::NamespaceMismatch => "namespace mismatch".to_owned(),
            LogicalDecodeError::Geometry => "invalid geometry".to_owned(),
            LogicalDecodeError::CapacityOverflow => "capacity overflow".to_owned(),
            LogicalDecodeError::PlanCeiling => {
                "max_plans is not the declared capacity-derived ceiling".to_owned()
            },
            LogicalDecodeError::TooManyRows { max_rows, bindings } => {
                let mut text = "engine advertises max_rows=".to_owned();
                text.append(crate::text::render_number(*max_rows).as_str());
                text.append(" but this consumer admits at most ");
                text.append(crate::text::render_number(*bindings as u64).as_str());
                text.append(
                    " bindings; raise Limits::bindings to at least the engine's CPU pool capacity",
                );
                text
            },
            LogicalDecodeError::TooManyPlans { max_plans, plans } => {
                let mut text = "engine advertises max_plans=".to_owned();
                text.append(crate::text::render_number(*max_plans).as_str());
                text.append(" but this consumer admits at most ");
                text.append(crate::text::render_number(*plans as u64).as_str());
                text.append("; raise Limits::plans alongside Limits::bindings");
                text
            },
            LogicalDecodeError::Epoch => "epoch must be UUID hex".to_owned(),
            LogicalDecodeError::StateBudget => "state budget exceeded".to_owned(),
            LogicalDecodeError::SnapshotShape => {
                "snapshot must carry exactly its own fields".to_owned()
            },
            LogicalDecodeError::UpdateShape => "update must carry exactly its own fields".to_owned(),
            LogicalDecodeError::EventType => "unsupported logical event type".to_owned(),
            LogicalDecodeError::NotASnapshot => "expected an authoritative snapshot".to_owned(),
            LogicalDecodeError::Position => "token position exceeds u32".to_owned(),
            LogicalDecodeError::Kind => "unknown segment/plan kind".to_owned(),
            LogicalDecodeError::Identity => "empty/oversize identity".to_owned(),
            LogicalDecodeError::Collision => "identity collision".to_owned(),
            LogicalDecodeError::SegmentMaterial => {
                "malformed segment geometry/material".to_owned()
            },
            LogicalDecodeError::DuplicateSegment => "duplicate segment ID".to_owned(),
            LogicalDecodeError::MissingBinding => "plan has missing binding".to_owned(),
            LogicalDecodeError::PlanMismatch => "plan/binding mismatch".to_owned(),
            LogicalDecodeError::DuplicatePlan => "duplicate plan ID".to_owned(),
            LogicalDecodeError::RetainedBudget => {
                "retained normalizer state budget exceeded".to_owned()
            },
            LogicalDecodeError::Inconsistent => "inconsistent contribution/plan state".to_owned(),
            LogicalDecodeError::ConfidenceState => "invalid confidence state".to_owned(),
            LogicalDecodeError::KnownWithReason => "known cut carries a failure reason".to_owned(),
            LogicalDecodeError::UpdateNotKnown => "update must carry a known view".to_owned(),
            LogicalDecodeError::GeometryChanged => {
                "geometry changed without a snapshot".to_owned()
            },
            LogicalDecodeError::RetiredEpoch => "retired epoch".to_owned(),
        }
    }

    /// The error as a sentence.
    pub fn message(&self) -> (text: String)
        ensures
            text@ == "unsupported or invalid logical CPU cut: "@ + self.detail(),
    {
        let mut text = "unsupported or invalid logical CPU cut: ".to_owned();
        text.append(self.detail_text().as_str());
        text
    }
}

/// A hexadecimal digit, as a byte.
pub open spec fn hex_digit(byte: u8) -> bool {
    (48 <= byte <= 57) || (65 <= byte <= 70) || (97 <= byte <= 102)
}

/// The value of a hexadecimal digit.
pub open spec fn hex_value(byte: u8) -> int {
    if byte <= 57 {
        byte - 48
    } else if byte <= 70 {
        byte - 55
    } else {
        byte - 87
    }
}

/// Thirty-two hexadecimal digits.
pub open spec fn is_epoch(epoch: Seq<char>) -> bool {
    let bytes = encode_utf8(epoch);
    bytes.len() == 32 && forall|i: int| 0 <= i < 32 ==> hex_digit(#[trigger] bytes[i])
}

/// The sixteen bytes that an epoch spells.
pub open spec fn epoch_of(epoch: Seq<char>) -> Seq<u8> {
    let bytes = encode_utf8(epoch);
    Seq::new(16, |i: int| (hex_value(bytes[2 * i]) * 16 + hex_value(bytes[2 * i + 1])) as u8)
}

/// A list, where present, longer than `most`.
pub open spec fn longer<T>(list: Option<Vec<T>>, most: u64) -> bool {
    list is Some && list->Some_0@.len() > most
}

/// What is wrong with the scope and geometry of a cut, if anything.
pub open spec fn header_error(wire: WireCut, namespace: Seq<char>, limits: DecodeLimits) -> Option<
    LogicalDecodeError,
> {
    let name = encode_utf8(namespace);
    if wire.profile@ != "native-cpu-root"@ || wire.version != 1 {
        Some(LogicalDecodeError::ProfileVersion)
    } else if wire.namespace@ != namespace || name.len() == 0 || name.len() > 1024 {
        Some(LogicalDecodeError::NamespaceMismatch)
    } else if !good_geometry(wire.block_size, wire.hash_unit) {
        Some(LogicalDecodeError::Geometry)
    } else if wire.max_rows * plans_per_row(wire.block_size, wire.hash_unit) > u64::MAX {
        Some(LogicalDecodeError::CapacityOverflow)
    } else if wire.max_plans != wire.max_rows * plans_per_row(wire.block_size, wire.hash_unit) {
        Some(LogicalDecodeError::PlanCeiling)
    } else if wire.max_rows > limits.state.bindings {
        Some(
            LogicalDecodeError::TooManyRows {
                max_rows: wire.max_rows,
                bindings: limits.state.bindings,
            },
        )
    } else if wire.max_plans > limits.state.plans {
        Some(
            LogicalDecodeError::TooManyPlans {
                max_plans: wire.max_plans,
                plans: limits.state.plans,
            },
        )
    } else if !is_epoch(wire.epoch@) {
        Some(LogicalDecodeError::Epoch)
    } else if longer(wire.plans, wire.max_plans) || longer(wire.added_plans, wire.max_plans) {
        Some(LogicalDecodeError::StateBudget)
    } else {
        None
    }
}

/// `header` carries the validated fields of `wire`.
pub open spec fn header_of(wire: WireCut, header: WireHeader) -> bool {
    &&& header.epoch@ == wire.epoch@
    &&& header.cursor == wire.cursor
    &&& header.confidence@ == wire.confidence@
    &&& header.reason@ == wire.reason@
    &&& header.block_size == wire.block_size
    &&& header.hash_unit == wire.hash_unit
    &&& header.max_rows == wire.max_rows
}

/// A cut of the snapshot shape.
pub open spec fn snapshot_shape(wire: WireCut) -> bool {
    wire.segments is Some || wire.plans is Some
}

/// A cut of the update shape.
pub open spec fn update_shape(wire: WireCut) -> bool {
    wire.added_segments is Some || wire.removed_segments is Some || wire.added_plans is Some
        || wire.removed_plans is Some
}

/// What is wrong with a message, if anything.
pub open spec fn cut_error(
    payload: WirePayload,
    owner: ResidencyOwner,
    namespace: Seq<char>,
    limits: DecodeLimits,
) -> Option<LogicalDecodeError> {
    if payload.bytes > limits.bytes {
        Some(LogicalDecodeError::PayloadBudget)
    } else {
        match payload.envelope {
            Err(text) => Some(LogicalDecodeError::Unreadable(text)),
            Ok(envelope) => if !envelope.finite_timestamp || envelope.cuts@.len() != 1
                || envelope.dp_rank < 0 {
                Some(LogicalDecodeError::Envelope)
            } else if owner is CacheOwner {
                Some(LogicalDecodeError::CacheOwner)
            } else if owner->Worker_0.dp_rank != envelope.dp_rank {
                Some(LogicalDecodeError::RankMismatch)
            } else {
                let wire = envelope.cuts@[0];
                if header_error(wire, namespace, limits) is Some {
                    header_error(wire, namespace, limits)
                } else if wire.event_type@ == "LogicalSnapshot"@ {
                    if wire.segments is None || wire.plans is None || update_shape(wire) {
                        Some(LogicalDecodeError::SnapshotShape)
                    } else if wire.segments->Some_0@.len() > wire.max_rows {
                        Some(LogicalDecodeError::StateBudget)
                    } else {
                        None
                    }
                } else if wire.event_type@ == "LogicalUpdate"@ {
                    if wire.added_segments is None || wire.removed_segments is None
                        || wire.added_plans is None || wire.removed_plans is None || snapshot_shape(
                        wire,
                    ) {
                        Some(LogicalDecodeError::UpdateShape)
                    } else {
                        None
                    }
                } else {
                    Some(LogicalDecodeError::EventType)
                }
            },
        }
    }
}

/// What a decoded cut asks the consumer to do.
#[derive(Debug)]
pub enum Cut {
    /// Authoritative replacement: accepted whatever the consumer already holds.
    Snapshot { header: WireHeader, segments: Vec<WireSegment>, plans: Vec<WirePlan> },
    /// Continuation: valid only against the immediately preceding accepted cut.
    Update {
        header: WireHeader,
        added_segments: Vec<WireSegment>,
        removed_segments: Vec<String>,
        added_plans: Vec<WirePlan>,
        removed_plans: Vec<String>,
    },
}

/// `cut` is what `wire` asks for.
pub open spec fn cut_of(wire: WireCut, cut: Cut) -> bool {
    match cut {
        Cut::Snapshot { header, segments, plans } => {
            &&& wire.event_type@ == "LogicalSnapshot"@
            &&& header_of(wire, header)
            &&& wire.segments == Some(segments)
            &&& wire.plans == Some(plans)
        },
        Cut::Update { header, added_segments, removed_segments, added_plans, removed_plans } => {
            &&& wire.event_type@ == "LogicalUpdate"@
            &&& header_of(wire, header)
            &&& wire.added_segments == Some(added_segments)
            &&& wire.removed_segments == Some(removed_segments)
            &&& wire.added_plans == Some(added_plans)
            &&& wire.removed_plans == Some(removed_plans)
        },
    }
}

fn all_hex(bytes: &[u8]) -> (yes: bool)
    ensures
        yes == forall|i: int| 0 <= i < bytes@.len() ==> hex_digit(#[trigger] bytes@[i]),
{
    let mut i: usize = 0;
    while i < bytes.len()
        invariant
            i <= bytes@.len(),
            forall|j: int| 0 <= j < i ==> hex_digit(#[trigger] bytes@[j]),
        decreases bytes@.len() - i,
    {
        let b: u8 = bytes[i];
        if !((48 <= b && b <= 57) || (65 <= b && b <= 70) || (97 <= b && b <= 102)) {
            assert(!hex_digit(bytes@[i as int]));
            return false;
        }
        i = i + 1;
    }
    true
}

fn is_longer<T>(list: &Option<Vec<T>>, most: u64) -> (yes: bool)
    ensures
        yes == longer(*list, most),
{
    match list {
        Some(list) => list.len() as u64 > most,
        None => false,
    }
}

pub fn check_header(wire: &WireCut, namespace: &str, limits: DecodeLimits) -> (header: Result<
    WireHeader,
    LogicalDecodeError,
>)
    ensures
        match header_error(*wire, namespace@, limits) {
            Some(error) => header is Err && header->Err_0 == error,
            None => header is Ok && header_of(*wire, header->Ok_0),
        },
{
    if !crate::text::same_text(wire.profile.as_str(), "native-cpu-root") || wire.version != 1 {
        return Err(LogicalDecodeError::ProfileVersion);
    }
    let name: &[u8] = namespace.as_bytes();
    if !crate::text::same_text(wire.namespace.as_str(), namespace) || name.len() == 0 || name.len()
        > 1024 {
        return Err(LogicalDecodeError::NamespaceMismatch);
    }
    if wire.hash_unit == 0 || wire.block_size <= wire.hash_unit || wire.block_size % wire.hash_unit
        != 0 {
        return Err(LogicalDecodeError::Geometry);
    }
    let per_row: u64 = (wire.block_size / wire.hash_unit) as u64 + 1;
    let max_rows: u64 = wire.max_rows;
    assert(max_rows * per_row <= u64::MAX * u64::MAX) by (nonlinear_arith)
        requires
            0 <= max_rows <= u64::MAX,
            0 <= per_row <= u64::MAX,
    ;
    let expected: u128 = max_rows as u128 * per_row as u128;
    if expected > u64::MAX as u128 {
        return Err(LogicalDecodeError::CapacityOverflow);
    }
    if wire.max_plans as u128 != expected {
        return Err(LogicalDecodeError::PlanCeiling);
    }
    // `max_rows` is the engine's whole CPU pool capacity, so a production-sized
    // pool can exceed a conservative consumer default and be refused here,
    // permanently, for that worker. Name both numbers so an operator can size
    // the limits instead of guessing at "budget exceeded".

    if wire.max_rows > limits.state.bindings as u64 {
        return Err(
            LogicalDecodeError::TooManyRows {
                max_rows: wire.max_rows,
                bindings: limits.state.bindings,
            },
        );
    }
    if wire.max_plans > limits.state.plans as u64 {
        return Err(
            LogicalDecodeError::TooManyPlans {
                max_plans: wire.max_plans,
                plans: limits.state.plans,
            },
        );
    }
    let epoch: &[u8] = wire.epoch.as_str().as_bytes();
    if epoch.len() != 32 || !all_hex(epoch) {
        return Err(LogicalDecodeError::Epoch);
    }
    if is_longer(&wire.plans, wire.max_plans) || is_longer(&wire.added_plans, wire.max_plans) {
        return Err(LogicalDecodeError::StateBudget);
    }
    Ok(
        WireHeader {
            epoch: wire.epoch.clone(),
            cursor: wire.cursor,
            confidence: wire.confidence.clone(),
            reason: wire.reason.clone(),
            block_size: wire.block_size,
            hash_unit: wire.hash_unit,
            max_rows: wire.max_rows,
        },
    )
}

fn hex_number(byte: u8) -> (n: u8)
    requires
        hex_digit(byte),
    ensures
        n == hex_value(byte),
        n < 16,
{
    if byte <= 57 {
        byte - 48
    } else if byte <= 70 {
        byte - 55
    } else {
        byte - 87
    }
}

/// The bytes of the epoch of a validated header.
pub fn epoch_bytes(header: &WireHeader) -> (epoch: [u8; 16])
    requires
        is_epoch(header.epoch@),
    ensures
        epoch@ == epoch_of(header.epoch@),
{
    let bytes: &[u8] = header.epoch.as_str().as_bytes();
    let mut epoch: [u8; 16] = [0; 16];
    let mut i: usize = 0;
    while i < 16
        invariant
            i <= 16,
            bytes@ == encode_utf8(header.epoch@),
            is_epoch(header.epoch@),
            forall|j: int| 0 <= j < i ==> epoch@[j] == epoch_of(header.epoch@)[j],
        decreases 16 - i,
    {
        assert(hex_digit(bytes@[2 * i]) && hex_digit(bytes@[2 * i + 1]));
        epoch[i] = hex_number(bytes[2 * i]) * 16 + hex_number(bytes[2 * i + 1]);
        i = i + 1;
    }
    assert(epoch@ =~= epoch_of(header.epoch@));
    epoch
}

/// Checks a message and takes the one cut out of it.
pub fn decode_cut(
    payload: WirePayload,
    owner: ResidencyOwner,
    namespace: &str,
    limits: DecodeLimits,
) -> (cut: Result<Cut, LogicalDecodeError>)
    ensures
        match cut_error(payload, owner, namespace@, limits) {
            Some(error) => cut is Err && cut->Err_0 == error,
            None => cut is Ok && cut_of(payload.envelope->Ok_0.cuts@[0], cut->Ok_0),
        },
{
    if payload.bytes > limits.bytes {
        return Err(LogicalDecodeError::PayloadBudget);
    }
    let mut envelope = match payload.envelope {
        Ok(envelope) => envelope,
        Err(text) => {
            return Err(LogicalDecodeError::Unreadable(text));
        },
    };
    if !envelope.finite_timestamp || envelope.cuts.len() != 1 || envelope.dp_rank < 0 {
        return Err(LogicalDecodeError::Envelope);
    }
    // A CPU-root view is bound to exactly one engine worker rank. A cache owner
    // has no DP rank to check, so it is out of scope rather than unchecked.

    let worker = match owner {
        ResidencyOwner::Worker(worker) => worker,
        ResidencyOwner::CacheOwner { .. } => {
            return Err(LogicalDecodeError::CacheOwner);
        },
    };
    if worker.dp_rank != envelope.dp_rank as u32 {
        return Err(LogicalDecodeError::RankMismatch);
    }
    let wire: WireCut = envelope.cuts.remove(0);
    let header = match check_header(&wire, namespace, limits) {
        Ok(header) => header,
        Err(error) => {
            return Err(error);
        },
    };
    let as_snapshot: bool = wire.segments.is_some() || wire.plans.is_some();
    let as_update: bool = wire.added_segments.is_some() || wire.removed_segments.is_some()
        || wire.added_plans.is_some() || wire.removed_plans.is_some();
    if crate::text::same_text(wire.event_type.as_str(), "LogicalSnapshot") {
        match (wire.segments, wire.plans, as_update) {
            (Some(segments), Some(plans), false) => {
                if segments.len() as u64 > header.max_rows {
                    return Err(LogicalDecodeError::StateBudget);
                }
                Ok(Cut::Snapshot { header, segments, plans })
            },
            _ => Err(LogicalDecodeError::SnapshotShape),
        }
    } else if crate::text::same_text(wire.event_type.as_str(), "LogicalUpdate") {
        match (
            wire.added_segments,
            wire.removed_segments,
            wire.added_plans,
            wire.removed_plans,
            as_snapshot,
        ) {
            (
                Some(added_segments),
                Some(removed_segments),
                Some(added_plans),
                Some(removed_plans),
                false,
            ) => Ok(
                Cut::Update { header, added_segments, removed_segments, added_plans, removed_plans },
            ),
            _ => Err(LogicalDecodeError::UpdateShape),
        }
    } else {
        Err(LogicalDecodeError::EventType)
    }
}

} // verus!
