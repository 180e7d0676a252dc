//! Errors of the library and their stable machine codes.
//!
//! Callers match on [`Error::code`] rather than on the English text.
use crate::text::{cat2, cat4, cat5, decimal, decimal_text, same_text};
use vstd::prelude::*;

verus! {

/// Stable machine-readable error codes.
#[derive(Debug, Clone, Copy, PartialEq, Eq, Structural)]
pub enum ErrorCode {
    /// Store or path already exists when exclusive create was requested.
    AlreadyExists,
    /// Requested key or entity is absent, where an API chooses an error over `None`.
    NotFound,
    /// Optimistic concurrency or version precondition failed.
    VersionConflict,
    /// Collection name, key, or argument failed validation.
    ValidationFailed,
    /// Filter or query object is malformed or uses unknown operators.
    QueryInvalid,
    /// Query needs an explicit resource budget.
    QueryBudgetRequired,
    /// Configured resource limit hit.
    ResourceLimit,
    /// Coverage is incomplete; absence cannot be proven.
    CoverageIncomplete,
    /// Required partition or tier is offline.
    PartitionUnavailable,
    /// Cached placement route was stale.
    StaleRoute,
    /// Consistency mode does not allow the operation.
    ConsistencyViolation,
    /// Requested durability mode cannot be met.
    DurabilityUnavailable,
    /// Payload or store bytes failed integrity or are damaged.
    DataDamaged,
    /// Payload is only partially available.
    PayloadPartial,
    /// Encoding or format is not supported by this build.
    FormatUnsupported,
    /// JSON against bytes (or other) type mismatch on get.
    TypeMismatch,
    /// Shared token or authentication failed.
    AuthenticationFailed,
    /// Permission denied after authentication.
    PermissionDenied,
    /// Connect or request deadline exceeded.
    DeadlineExceeded,
    /// Underlying IO failure.
    Io,
    /// Wire fields missing, malformed, or inconsistently optimistic.
    ProtocolViolation,
    /// Exclusive store writer ownership is held elsewhere.
    WriterLockHeld,
    /// Internal or unexpected failure.
    Internal,
}

impl ErrorCode {
    /// The code in snake case.
    pub open spec fn name(self) -> Seq<char> {
        match self {
            ErrorCode::AlreadyExists => "already_exists"@,
            ErrorCode::NotFound => "not_found"@,
            ErrorCode::VersionConflict => "version_conflict"@,
            ErrorCode::ValidationFailed => "validation_failed"@,
            ErrorCode::QueryInvalid => "query_invalid"@,
            ErrorCode::QueryBudgetRequired => "query_budget_required"@,
            ErrorCode::ResourceLimit => "resource_limit"@,
            ErrorCode::CoverageIncomplete => "coverage_incomplete"@,
            ErrorCode::PartitionUnavailable => "partition_unavailable"@,
            ErrorCode::StaleRoute => "stale_route"@,
            ErrorCode::ConsistencyViolation => "consistency_violation"@,
            ErrorCode::DurabilityUnavailable => "durability_unavailable"@,
            ErrorCode::DataDamaged => "data_damaged"@,
            ErrorCode::PayloadPartial => "payload_partial"@,
            ErrorCode::FormatUnsupported => "format_unsupported"@,
            ErrorCode::TypeMismatch => "type_mismatch"@,
            ErrorCode::AuthenticationFailed => "authentication_failed"@,
            ErrorCode::PermissionDenied => "permission_denied"@,
            ErrorCode::DeadlineExceeded => "deadline_exceeded"@,
            ErrorCode::Io => "io"@,
            ErrorCode::ProtocolViolation => "protocol_violation"@,
            ErrorCode::WriterLockHeld => "writer_lock_held"@,
            ErrorCode::Internal => "internal"@,
        }
    }

    /// Stable snake-case code string for logs and interop.
    pub fn as_str(self) -> (r: &'static str)
        ensures
            r@ == self.name(),
    {
        match self {
            ErrorCode::AlreadyExists => "already_exists",
            ErrorCode::NotFound => "not_found",
            ErrorCode::VersionConflict => "version_conflict",
            ErrorCode::ValidationFailed => "validation_failed",
            ErrorCode::QueryInvalid => "query_invalid",
            ErrorCode::QueryBudgetRequired => "query_budget_required",
            ErrorCode::ResourceLimit => "resource_limit",
            ErrorCode::CoverageIncomplete => "coverage_incomplete",
            ErrorCode::PartitionUnavailable => "partition_unavailable",
            ErrorCode::StaleRoute => "stale_route",
            ErrorCode::ConsistencyViolation => "consistency_violation",
            ErrorCode::DurabilityUnavailable => "durability_unavailable",
            ErrorCode::DataDamaged => "data_damaged",
            ErrorCode::PayloadPartial => "payload_partial",
            ErrorCode::FormatUnsupported => "format_unsupported",
            ErrorCode::TypeMismatch => "type_mismatch",
            ErrorCode::AuthenticationFailed => "authentication_failed",
            ErrorCode::PermissionDenied => "permission_denied",
            ErrorCode::DeadlineExceeded => "deadline_exceeded",
            ErrorCode::Io => "io",
            ErrorCode::ProtocolViolation => "protocol_violation",
            ErrorCode::WriterLockHeld => "writer_lock_held",
            ErrorCode::Internal => "internal",
        }
    }
}

/// The code that a code string of a remote server stands for; an unknown
/// string stands for an internal failure.
pub open spec fn code_of_remote(code: Seq<char>) -> ErrorCode {
    if code == "authentication_failed"@ {
        ErrorCode::AuthenticationFailed
    } else if code == "permission_denied"@ {
        ErrorCode::PermissionDenied
    } else if code == "deadline_exceeded"@ {
        ErrorCode::DeadlineExceeded
    } else if code == "validation_failed"@ {
        ErrorCode::ValidationFailed
    } else if code == "not_found"@ {
        ErrorCode::NotFound
    } else if code == "resource_limit"@ {
        ErrorCode::ResourceLimit
    } else if code == "data_damaged"@ {
        ErrorCode::DataDamaged
    } else if code == "query_invalid"@ {
        ErrorCode::QueryInvalid
    } else if code == "query_budget_required"@ {
        ErrorCode::QueryBudgetRequired
    } else if code == "partition_unavailable"@ {
        ErrorCode::PartitionUnavailable
    } else if code == "stale_route"@ {
        ErrorCode::StaleRoute
    } else if code == "stale_epoch"@ {
        ErrorCode::StaleRoute
    } else if code == "not_leader"@ {
        ErrorCode::StaleRoute
    } else if code == "consistency_violation"@ {
        ErrorCode::ConsistencyViolation
    } else if code == "durability_unavailable"@ {
        ErrorCode::DurabilityUnavailable
    } else if code == "protocol_violation"@ {
        ErrorCode::ProtocolViolation
    } else if code == "writer_lock_held"@ {
        ErrorCode::WriterLockHeld
    } else if code == "coverage_incomplete"@ {
        ErrorCode::CoverageIncomplete
    } else if code == "payload_partial"@ {
        ErrorCode::PayloadPartial
    } else if code == "already_exists"@ {
        ErrorCode::AlreadyExists
    } else if code == "version_conflict"@ {
        ErrorCode::VersionConflict
    } else if code == "io"@ {
        ErrorCode::Io
    } else {
        ErrorCode::Internal
    }
}

/// A code that a server sends by its name is read back as the same code, but
/// for the two that a server does not send: `format_unsupported` and
/// `type_mismatch` read as internal failures.
pub proof fn law_code_travels(c: ErrorCode)
    requires
        c != ErrorCode::FormatUnsupported,
        c != ErrorCode::TypeMismatch,
    ensures
        code_of_remote(c.name()) == c,
{
    reveal_strlit("already_exists");
    assert("already_exists"@.len() == 14);
    reveal_strlit("not_found");
    assert("not_found"@.len() == 9);
    reveal_strlit("version_conflict");
    assert("version_conflict"@.len() == 16);
    reveal_strlit("validation_failed");
    assert("validation_failed"@.len() == 17);
    reveal_strlit("query_invalid");
    assert("query_invalid"@.len() == 13);
    reveal_strlit("query_budget_required");
    assert("query_budget_required"@.len() == 21);
    reveal_strlit("resource_limit");
    assert("resource_limit"@.len() == 14);
    reveal_strlit("coverage_incomplete");
    assert("coverage_incomplete"@.len() == 19);
    reveal_strlit("partition_unavailable");
    assert("partition_unavailable"@.len() == 21);
    reveal_strlit("stale_route");
    assert("stale_route"@.len() == 11);
    reveal_strlit("consistency_violation");
    assert("consistency_violation"@.len() == 21);
    reveal_strlit("durability_unavailable");
    assert("durability_unavailable"@.len() == 22);
    reveal_strlit("data_damaged");
    assert("data_damaged"@.len() == 12);
    reveal_strlit("payload_partial");
    assert("payload_partial"@.len() == 15);
    reveal_strlit("authentication_failed");
    assert("authentication_failed"@.len() == 21);
    reveal_strlit("permission_denied");
    assert("permission_denied"@.len() == 17);
    reveal_strlit("deadline_exceeded");
    assert("deadline_exceeded"@.len() == 17);
    reveal_strlit("io");
    assert("io"@.len() == 2);
    reveal_strlit("protocol_violation");
    assert("protocol_violation"@.len() == 18);
    reveal_strlit("writer_lock_held");
    assert("writer_lock_held"@.len() == 16);
    reveal_strlit("internal");
    assert("internal"@.len() == 8);
    reveal_strlit("stale_epoch");
    assert("stale_epoch"@.len() == 11);
    reveal_strlit("not_leader");
    assert("not_leader"@.len() == 10);
    assert("already_exists"@[0] != "resource_limit"@[0]);
    assert("version_conflict"@[0] != "writer_lock_held"@[0]);
    assert("validation_failed"@[0] != "permission_denied"@[0]);
    assert("validation_failed"@[0] != "deadline_exceeded"@[0]);
    assert("permission_denied"@[0] != "deadline_exceeded"@[0]);
    assert("query_budget_required"@[0] != "partition_unavailable"@[0]);
    assert("query_budget_required"@[0] != "consistency_violation"@[0]);
    assert("partition_unavailable"@[0] != "consistency_violation"@[0]);
    assert("query_budget_required"@[0] != "authentication_failed"@[0]);
    assert("partition_unavailable"@[0] != "authentication_failed"@[0]);
    assert("consistency_violation"@[0] != "authentication_failed"@[0]);
    assert("stale_route"@[6] != "stale_epoch"@[6]);
}

/// The code that a code string of a remote server stands for.
pub fn remote_code(code: &str) -> (r: ErrorCode)
    ensures
        r == code_of_remote(code@),
{
    if same_text(code, "authentication_failed") {
        ErrorCode::AuthenticationFailed
    } else if same_text(code, "permission_denied") {
        ErrorCode::PermissionDenied
    } else if same_text(code, "deadline_exceeded") {
        ErrorCode::DeadlineExceeded
    } else if same_text(code, "validation_failed") {
        ErrorCode::ValidationFailed
    } else if same_text(code, "not_found") {
        ErrorCode::NotFound
    } else if same_text(code, "resource_limit") {
        ErrorCode::ResourceLimit
    } else if same_text(code, "data_damaged") {
        ErrorCode::DataDamaged
    } else if same_text(code, "query_invalid") {
        ErrorCode::QueryInvalid
    } else if same_text(code, "query_budget_required") {
        ErrorCode::QueryBudgetRequired
    } else if same_text(code, "partition_unavailable") {
        ErrorCode::PartitionUnavailable
    } else if same_text(code, "stale_route") {
        ErrorCode::StaleRoute
    } else if same_text(code, "stale_epoch") {
        ErrorCode::StaleRoute
    } else if same_text(code, "not_leader") {
        ErrorCode::StaleRoute
    } else if same_text(code, "consistency_violation") {
        ErrorCode::ConsistencyViolation
    } else if same_text(code, "durability_unavailable") {
        ErrorCode::DurabilityUnavailable
    } else if same_text(code, "protocol_violation") {
        ErrorCode::ProtocolViolation
    } else if same_text(code, "writer_lock_held") {
        ErrorCode::WriterLockHeld
    } else if same_text(code, "coverage_incomplete") {
        ErrorCode::CoverageIncomplete
    } else if same_text(code, "payload_partial") {
        ErrorCode::PayloadPartial
    } else if same_text(code, "already_exists") {
        ErrorCode::AlreadyExists
    } else if same_text(code, "version_conflict") {
        ErrorCode::VersionConflict
    } else if same_text(code, "io") {
        ErrorCode::Io
    } else {
        ErrorCode::Internal
    }
}

/// Ways in which the store fails.
#[derive(Debug)]
pub enum StoreErrorKind {
    /// Storage I/O failed.
    Io,
    /// The store path already exists.
    AlreadyExists,
    /// The path holds no store.
    NotAStore,
    /// A subject exceeds the store's length limit.
    SubjectTooLong,
    /// A payload exceeds the store's size limit.
    PayloadTooLarge,
    /// The write admission queue is full.
    WriteAdmissionFull,
    /// An envelope does not decode.
    BadEnvelope,
    /// Store metadata does not decode.
    CorruptMeta,
    /// A control record does not decode.
    CorruptControl,
    /// A frame does not decode.
    Frame,
    /// A segment does not decode.
    Segment,
    /// Only part of a payload is available.
    PayloadPartial,
    /// Two copies of a payload disagree.
    PayloadConflict,
    /// No such event in the history.
    HistoryEventNotFound,
    /// No such segment.
    SegmentNotFound,
    /// A locator names a segment that is gone.
    LocatorSegmentNotFound,
    /// A locator fails for any other reason.
    LocatorFault,
    /// A storage tier is offline.
    TierOffline,
    /// The on-disk format is not supported.
    FormatUnsupported,
    /// The storage medium is not supported.
    MediaUnsupported,
    /// Another writer owns the store.
    WriterLockHeld,
    /// Coverage is incomplete.
    CoverageIncomplete,
    /// The consistency mode forbids the operation.
    ConsistencyViolation,
    /// An operation id was reused for another request.
    OperationIdentityConflict,
    /// An injected failure.
    Failpoint,
    /// The system has no randomness to give.
    RandomUnavailable,
    /// A cursor is malformed or was tampered with.
    CursorInvalid,
    /// A cursor belongs to another generation.
    CursorStale,
    /// The capability does not allow the operation.
    HeapCapability,
    /// The heap refuses the request, with its reason.
    HeapAdmit(String),
    /// The live version is not the expected one.
    VersionConflict {
        /// Version the caller required.
        expected: [u8; 16],
        /// Live version, or `None` when the key is absent.
        observed: Option<[u8; 16]>,
    },
    /// The key is already present.
    KeyExists,
    /// The adaptive writer is busy.
    AdaptiveWriterActive,
    /// The adaptive writer failed.
    AdaptiveWriterPoisoned,
    /// An atomic stage refuses the request.
    AtomicStage,
    /// A sealed segment id is already taken.
    SegmentIdCollision,
}

/// A failure of the store: its kind and the store's own words for it.
#[derive(Debug)]
pub struct StoreError {
    /// What failed.
    pub kind: StoreErrorKind,
    /// The store's message.
    pub text: String,
}

/// Model of a [`StoreErrorKind`].
#[verifier::ext_equal]
pub enum StoreErrorKindView {
    Io,
    AlreadyExists,
    NotAStore,
    SubjectTooLong,
    PayloadTooLarge,
    WriteAdmissionFull,
    BadEnvelope,
    CorruptMeta,
    CorruptControl,
    Frame,
    Segment,
    PayloadPartial,
    PayloadConflict,
    HistoryEventNotFound,
    SegmentNotFound,
    LocatorSegmentNotFound,
    LocatorFault,
    TierOffline,
    FormatUnsupported,
    MediaUnsupported,
    WriterLockHeld,
    CoverageIncomplete,
    ConsistencyViolation,
    OperationIdentityConflict,
    Failpoint,
    RandomUnavailable,
    CursorInvalid,
    CursorStale,
    HeapCapability,
    HeapAdmit(Seq<char>),
    VersionConflict { expected: [u8; 16], observed: Option<[u8; 16]> },
    KeyExists,
    AdaptiveWriterActive,
    AdaptiveWriterPoisoned,
    AtomicStage,
    SegmentIdCollision,
}

/// Model of a [`StoreError`].
#[verifier::ext_equal]
pub struct StoreErrorView {
    pub kind: StoreErrorKindView,
    pub text: Seq<char>,
}

impl View for StoreErrorKind {
    type V = StoreErrorKindView;

    open spec fn view(&self) -> StoreErrorKindView {
        match self {
            StoreErrorKind::Io => StoreErrorKindView::Io,
            StoreErrorKind::AlreadyExists => StoreErrorKindView::AlreadyExists,
            StoreErrorKind::NotAStore => StoreErrorKindView::NotAStore,
            StoreErrorKind::SubjectTooLong => StoreErrorKindView::SubjectTooLong,
            StoreErrorKind::PayloadTooLarge => StoreErrorKindView::PayloadTooLarge,
            StoreErrorKind::WriteAdmissionFull => StoreErrorKindView::WriteAdmissionFull,
            StoreErrorKind::BadEnvelope => StoreErrorKindView::BadEnvelope,
            StoreErrorKind::CorruptMeta => StoreErrorKindView::CorruptMeta,
            StoreErrorKind::CorruptControl => StoreErrorKindView::CorruptControl,
            StoreErrorKind::Frame => StoreErrorKindView::Frame,
            StoreErrorKind::Segment => StoreErrorKindView::Segment,
            StoreErrorKind::PayloadPartial => StoreErrorKindView::PayloadPartial,
            StoreErrorKind::PayloadConflict => StoreErrorKindView::PayloadConflict,
            StoreErrorKind::HistoryEventNotFound => StoreErrorKindView::HistoryEventNotFound,
            StoreErrorKind::SegmentNotFound => StoreErrorKindView::SegmentNotFound,
            StoreErrorKind::LocatorSegmentNotFound => StoreErrorKindView::LocatorSegmentNotFound,
            StoreErrorKind::LocatorFault => StoreErrorKindView::LocatorFault,
            StoreErrorKind::TierOffline => StoreErrorKindView::TierOffline,
            StoreErrorKind::FormatUnsupported => StoreErrorKindView::FormatUnsupported,
            StoreErrorKind::MediaUnsupported => StoreErrorKindView::MediaUnsupported,
            StoreErrorKind::WriterLockHeld => StoreErrorKindView::WriterLockHeld,
            StoreErrorKind::CoverageIncomplete => StoreErrorKindView::CoverageIncomplete,
            StoreErrorKind::ConsistencyViolation => StoreErrorKindView::ConsistencyViolation,
            StoreErrorKind::OperationIdentityConflict => StoreErrorKindView::OperationIdentityConflict,
            StoreErrorKind::Failpoint => StoreErrorKindView::Failpoint,
            StoreErrorKind::RandomUnavailable => StoreErrorKindView::RandomUnavailable,
            StoreErrorKind::CursorInvalid => StoreErrorKindView::CursorInvalid,
            StoreErrorKind::CursorStale => StoreErrorKindView::CursorStale,
            StoreErrorKind::HeapCapability => StoreErrorKindView::HeapCapability,
            StoreErrorKind::HeapAdmit(s) => StoreErrorKindView::HeapAdmit(s@),
            StoreErrorKind::VersionConflict { expected, observed } => StoreErrorKindView::VersionConflict {
                expected: *expected,
                observed: *observed,
            },
            StoreErrorKind::KeyExists => StoreErrorKindView::KeyExists,
            StoreErrorKind::AdaptiveWriterActive => StoreErrorKindView::AdaptiveWriterActive,
            StoreErrorKind::AdaptiveWriterPoisoned => StoreErrorKindView::AdaptiveWriterPoisoned,
            StoreErrorKind::AtomicStage => StoreErrorKindView::AtomicStage,
            StoreErrorKind::SegmentIdCollision => StoreErrorKindView::SegmentIdCollision,
        }
    }
}

impl View for StoreError {
    type V = StoreErrorView;

    open spec fn view(&self) -> StoreErrorView {
        StoreErrorView { kind: self.kind@, text: self.text@ }
    }
}

/// The code of a store failure.
pub open spec fn code_of_store(kind: StoreErrorKindView) -> ErrorCode {
    match kind {
        StoreErrorKindView::Io => ErrorCode::Io,
        StoreErrorKindView::AlreadyExists => ErrorCode::AlreadyExists,
        StoreErrorKindView::NotAStore => ErrorCode::ValidationFailed,
        StoreErrorKindView::SubjectTooLong => ErrorCode::ValidationFailed,
        StoreErrorKindView::PayloadTooLarge => ErrorCode::ResourceLimit,
        StoreErrorKindView::WriteAdmissionFull => ErrorCode::ResourceLimit,
        StoreErrorKindView::BadEnvelope => ErrorCode::DataDamaged,
        StoreErrorKindView::CorruptMeta => ErrorCode::DataDamaged,
        StoreErrorKindView::CorruptControl => ErrorCode::DataDamaged,
        StoreErrorKindView::Frame => ErrorCode::DataDamaged,
        StoreErrorKindView::Segment => ErrorCode::DataDamaged,
        StoreErrorKindView::PayloadPartial => ErrorCode::PayloadPartial,
        StoreErrorKindView::PayloadConflict => ErrorCode::DataDamaged,
        StoreErrorKindView::HistoryEventNotFound => ErrorCode::NotFound,
        StoreErrorKindView::SegmentNotFound => ErrorCode::NotFound,
        StoreErrorKindView::LocatorSegmentNotFound => ErrorCode::NotFound,
        StoreErrorKindView::LocatorFault => ErrorCode::DataDamaged,
        StoreErrorKindView::TierOffline => ErrorCode::PartitionUnavailable,
        StoreErrorKindView::FormatUnsupported => ErrorCode::FormatUnsupported,
        StoreErrorKindView::MediaUnsupported => ErrorCode::FormatUnsupported,
        StoreErrorKindView::WriterLockHeld => ErrorCode::WriterLockHeld,
        StoreErrorKindView::CoverageIncomplete => ErrorCode::CoverageIncomplete,
        StoreErrorKindView::ConsistencyViolation => ErrorCode::ConsistencyViolation,
        StoreErrorKindView::OperationIdentityConflict => ErrorCode::ConsistencyViolation,
        StoreErrorKindView::Failpoint => ErrorCode::Io,
        StoreErrorKindView::RandomUnavailable => ErrorCode::Internal,
        StoreErrorKindView::CursorInvalid => ErrorCode::QueryInvalid,
        StoreErrorKindView::CursorStale => ErrorCode::ConsistencyViolation,
        StoreErrorKindView::HeapCapability => ErrorCode::PermissionDenied,
        StoreErrorKindView::HeapAdmit(_) => ErrorCode::PermissionDenied,
        StoreErrorKindView::VersionConflict { .. } => ErrorCode::VersionConflict,
        StoreErrorKindView::KeyExists => ErrorCode::AlreadyExists,
        StoreErrorKindView::AdaptiveWriterActive => ErrorCode::Io,
        StoreErrorKindView::AdaptiveWriterPoisoned => ErrorCode::Io,
        StoreErrorKindView::AtomicStage => ErrorCode::ConsistencyViolation,
        StoreErrorKindView::SegmentIdCollision => ErrorCode::ConsistencyViolation,
    }
}

/// The code of a store failure.
pub fn map_store(e: &StoreError) -> (r: ErrorCode)
    ensures
        r == code_of_store(e@.kind),
{
    match &e.kind {
        StoreErrorKind::Io => ErrorCode::Io,
        StoreErrorKind::AlreadyExists => ErrorCode::AlreadyExists,
        StoreErrorKind::NotAStore => ErrorCode::ValidationFailed,
        StoreErrorKind::SubjectTooLong => ErrorCode::ValidationFailed,
        StoreErrorKind::PayloadTooLarge => ErrorCode::ResourceLimit,
        StoreErrorKind::WriteAdmissionFull => ErrorCode::ResourceLimit,
        StoreErrorKind::BadEnvelope => ErrorCode::DataDamaged,
        StoreErrorKind::CorruptMeta => ErrorCode::DataDamaged,
        StoreErrorKind::CorruptControl => ErrorCode::DataDamaged,
        StoreErrorKind::Frame => ErrorCode::DataDamaged,
        StoreErrorKind::Segment => ErrorCode::DataDamaged,
        StoreErrorKind::PayloadPartial => ErrorCode::PayloadPartial,
        StoreErrorKind::PayloadConflict => ErrorCode::DataDamaged,
        StoreErrorKind::HistoryEventNotFound => ErrorCode::NotFound,
        StoreErrorKind::SegmentNotFound => ErrorCode::NotFound,
        StoreErrorKind::LocatorSegmentNotFound => ErrorCode::NotFound,
        StoreErrorKind::LocatorFault => ErrorCode::DataDamaged,
        StoreErrorKind::TierOffline => ErrorCode::PartitionUnavailable,
        StoreErrorKind::FormatUnsupported => ErrorCode::FormatUnsupported,
        StoreErrorKind::MediaUnsupported => ErrorCode::FormatUnsupported,
        StoreErrorKind::WriterLockHeld => ErrorCode::WriterLockHeld,
        StoreErrorKind::CoverageIncomplete => ErrorCode::CoverageIncomplete,
        StoreErrorKind::ConsistencyViolation => ErrorCode::ConsistencyViolation,
        StoreErrorKind::OperationIdentityConflict => ErrorCode::ConsistencyViolation,
        StoreErrorKind::Failpoint => ErrorCode::Io,
        StoreErrorKind::RandomUnavailable => ErrorCode::Internal,
        StoreErrorKind::CursorInvalid => ErrorCode::QueryInvalid,
        StoreErrorKind::CursorStale => ErrorCode::ConsistencyViolation,
        StoreErrorKind::HeapCapability => ErrorCode::PermissionDenied,
        StoreErrorKind::HeapAdmit(_) => ErrorCode::PermissionDenied,
        StoreErrorKind::VersionConflict { .. } => ErrorCode::VersionConflict,
        StoreErrorKind::KeyExists => ErrorCode::AlreadyExists,
        StoreErrorKind::AdaptiveWriterActive => ErrorCode::Io,
        StoreErrorKind::AdaptiveWriterPoisoned => ErrorCode::Io,
        StoreErrorKind::AtomicStage => ErrorCode::ConsistencyViolation,
        StoreErrorKind::SegmentIdCollision => ErrorCode::ConsistencyViolation,
    }
}

/// Errors from open, collection access, put/get/delete, and query.
#[derive(Debug)]
#[allow(inconsistent_fields)]
pub enum Error {
    /// Underlying store failure.
    Store(StoreError),
    /// Collection name is empty, too long, or contains NUL.
    InvalidCollectionName(&'static str),
    /// Key is empty, too long, or contains NUL.
    InvalidKey(&'static str),
    /// Stored payload is not valid UTF-8 JSON for a JSON get.
    InvalidJson(String),
    /// Payload type tag does not match the requested API.
    TypeMismatch {
        /// Expected side.
        expected: &'static str,
        /// Found side.
        found: &'static str,
    },
    /// Payload is missing a type tag, truncated, or fails integrity.
    BadPayload,
    /// Filter or query specification is invalid.
    QueryInvalid(String),
    /// Result materialization exceeded a limit.
    ResourceLimit(String),
    /// Query needs an explicit budget.
    QueryBudgetRequired(String),
    /// Payload only partially available.
    PayloadPartial,
    /// Coverage incomplete; absence cannot be proven.
    CoverageIncomplete(String),
    /// Required partition is offline or has no electable leader.
    PartitionUnavailable {
        /// Virtual partition id.
        partition: u32,
        /// Human-readable reason.
        reason: &'static str,
    },
    /// Client directory cache held a stale placement route.
    StaleRoute {
        /// Virtual partition id.
        partition: u32,
        /// Detail.
        message: String,
    },
    /// Consistency mode does not allow this operation.
    ConsistencyViolation(String),
    /// Requested durability cannot be met.
    DurabilityUnavailable(String),
    /// Validation failure with a dynamic message.
    ValidationMsg(String),
    /// Optimistic concurrency precondition failed.
    VersionConflict {
        /// Expected side.
        expected: [u8; 16],
        /// Live version, or `None` when the key is absent.
        observed: Option<[u8; 16]>,
    },
    /// Key or entity not found where presence is required.
    NotFound(String),
    /// Remote server returned an error.
    Remote {
        /// Stable code from the server when available.
        code: String,
        /// Detail.
        message: String,
    },
    /// Feature not available on remote connections.
    RemoteUnsupported(&'static str),
    /// Shared token missing or wrong.
    AuthenticationFailed(String),
    /// Authenticated principal lacks the required privilege.
    PermissionDenied(String),
    /// Connect or request deadline exceeded.
    DeadlineExceeded(String),
    /// Wire response omitted or weakened required guarantee fields.
    ProtocolViolation(String),
    /// Internal failure.
    Internal(String),
    /// Direct IO failure.
    Io(String),
}

/// Model of an [`Error`].
#[verifier::ext_equal]
#[allow(inconsistent_fields)]
pub enum ErrorView {
    Store(StoreErrorView),
    InvalidCollectionName(Seq<char>),
    InvalidKey(Seq<char>),
    InvalidJson(Seq<char>),
    TypeMismatch { expected: Seq<char>, found: Seq<char> },
    BadPayload,
    QueryInvalid(Seq<char>),
    ResourceLimit(Seq<char>),
    QueryBudgetRequired(Seq<char>),
    PayloadPartial,
    CoverageIncomplete(Seq<char>),
    PartitionUnavailable { partition: u32, reason: Seq<char> },
    StaleRoute { partition: u32, message: Seq<char> },
    ConsistencyViolation(Seq<char>),
    DurabilityUnavailable(Seq<char>),
    ValidationMsg(Seq<char>),
    VersionConflict { expected: [u8; 16], observed: Option<[u8; 16]> },
    NotFound(Seq<char>),
    Remote { code: Seq<char>, message: Seq<char> },
    RemoteUnsupported(Seq<char>),
    AuthenticationFailed(Seq<char>),
    PermissionDenied(Seq<char>),
    DeadlineExceeded(Seq<char>),
    ProtocolViolation(Seq<char>),
    Internal(Seq<char>),
    Io(Seq<char>),
}

impl View for Error {
    type V = ErrorView;

    open spec fn view(&self) -> ErrorView {
        match self {
            Error::Store(x) => ErrorView::Store(x@),
            Error::InvalidCollectionName(x) => ErrorView::InvalidCollectionName(x@),
            Error::InvalidKey(x) => ErrorView::InvalidKey(x@),
            Error::InvalidJson(x) => ErrorView::InvalidJson(x@),
            Error::TypeMismatch { expected, found } => ErrorView::TypeMismatch { expected: expected@, found: found@ },
            Error::BadPayload => ErrorView::BadPayload,
            Error::QueryInvalid(x) => ErrorView::QueryInvalid(x@),
            Error::ResourceLimit(x) => ErrorView::ResourceLimit(x@),
            Error::QueryBudgetRequired(x) => ErrorView::QueryBudgetRequired(x@),
            Error::PayloadPartial => ErrorView::PayloadPartial,
            Error::CoverageIncomplete(x) => ErrorView::CoverageIncomplete(x@),
            Error::PartitionUnavailable { partition, reason } => ErrorView::PartitionUnavailable { partition: *partition, reason: reason@ },
            Error::StaleRoute { partition, message } => ErrorView::StaleRoute { partition: *partition, message: message@ },
            Error::ConsistencyViolation(x) => ErrorView::ConsistencyViolation(x@),
            Error::DurabilityUnavailable(x) => ErrorView::DurabilityUnavailable(x@),
            Error::ValidationMsg(x) => ErrorView::ValidationMsg(x@),
            Error::VersionConflict { expected, observed } => ErrorView::VersionConflict { expected: *expected, observed: *observed },
            Error::NotFound(x) => ErrorView::NotFound(x@),
            Error::Remote { code, message } => ErrorView::Remote { code: code@, message: message@ },
            Error::RemoteUnsupported(x) => ErrorView::RemoteUnsupported(x@),
            Error::AuthenticationFailed(x) => ErrorView::AuthenticationFailed(x@),
            Error::PermissionDenied(x) => ErrorView::PermissionDenied(x@),
            Error::DeadlineExceeded(x) => ErrorView::DeadlineExceeded(x@),
            Error::ProtocolViolation(x) => ErrorView::ProtocolViolation(x@),
            Error::Internal(x) => ErrorView::Internal(x@),
            Error::Io(x) => ErrorView::Io(x@),
        }
    }
}

/// The outcome of a fallible call, value and error by their models.
pub open spec fn outcome<T: View>(r: Result<T, Error>) -> Result<T::V, ErrorView> {
    match r {
        Ok(t) => Ok(t@),
        Err(e) => Err(e@),
    }
}

/// The code of an error.
pub open spec fn code_of(e: ErrorView) -> ErrorCode {
    match e {
        ErrorView::Store(s) => code_of_store(s.kind),
        ErrorView::InvalidCollectionName(_) => ErrorCode::ValidationFailed,
        ErrorView::InvalidKey(_) => ErrorCode::ValidationFailed,
        ErrorView::InvalidJson(_) => ErrorCode::DataDamaged,
        ErrorView::TypeMismatch { .. } => ErrorCode::TypeMismatch,
        ErrorView::BadPayload => ErrorCode::DataDamaged,
        ErrorView::QueryInvalid(_) => ErrorCode::QueryInvalid,
        ErrorView::ResourceLimit(_) => ErrorCode::ResourceLimit,
        ErrorView::QueryBudgetRequired(_) => ErrorCode::QueryBudgetRequired,
        ErrorView::PayloadPartial => ErrorCode::PayloadPartial,
        ErrorView::CoverageIncomplete(_) => ErrorCode::CoverageIncomplete,
        ErrorView::PartitionUnavailable { .. } => ErrorCode::PartitionUnavailable,
        ErrorView::StaleRoute { .. } => ErrorCode::StaleRoute,
        ErrorView::ConsistencyViolation(_) => ErrorCode::ConsistencyViolation,
        ErrorView::DurabilityUnavailable(_) => ErrorCode::DurabilityUnavailable,
        ErrorView::ValidationMsg(_) => ErrorCode::ValidationFailed,
        ErrorView::VersionConflict { .. } => ErrorCode::VersionConflict,
        ErrorView::NotFound(_) => ErrorCode::NotFound,
        ErrorView::Remote { code, .. } => code_of_remote(code),
        ErrorView::RemoteUnsupported(_) => ErrorCode::FormatUnsupported,
        ErrorView::AuthenticationFailed(_) => ErrorCode::AuthenticationFailed,
        ErrorView::PermissionDenied(_) => ErrorCode::PermissionDenied,
        ErrorView::DeadlineExceeded(_) => ErrorCode::DeadlineExceeded,
        ErrorView::ProtocolViolation(_) => ErrorCode::ProtocolViolation,
        ErrorView::Internal(_) => ErrorCode::Internal,
        ErrorView::Io(_) => ErrorCode::Io,
    }
}

/// The message of an error.
pub open spec fn message_of(e: ErrorView) -> Seq<char> {
    match e {
        ErrorView::Store(s) => s.text,
        ErrorView::BadPayload => "corrupt or unsupported payload encoding"@,
        ErrorView::PayloadPartial => "payload only partially available"@,
        ErrorView::VersionConflict { .. } => "version conflict"@,
        ErrorView::TypeMismatch { expected, found } => "payload type mismatch: expected "@ + expected
            + ", found "@ + found,
        ErrorView::PartitionUnavailable { partition, reason } => "partition unavailable: partition "@
            + decimal(partition as nat) + " ("@ + reason + ")"@,
        ErrorView::StaleRoute { partition, message } => "stale route for partition "@ + decimal(
            partition as nat,
        ) + ": "@ + message,
        ErrorView::Remote { code, message } => "remote error ("@ + code + "): "@ + message,
        ErrorView::InvalidCollectionName(m) => "invalid collection name: "@ + m,
        ErrorView::InvalidKey(m) => "invalid key: "@ + m,
        ErrorView::InvalidJson(m) => "invalid JSON payload: "@ + m,
        ErrorView::QueryInvalid(m) => "invalid query: "@ + m,
        ErrorView::ResourceLimit(m) => "resource limit exceeded: "@ + m,
        ErrorView::QueryBudgetRequired(m) => "query budget required: "@ + m,
        ErrorView::CoverageIncomplete(m) => "coverage incomplete: "@ + m,
        ErrorView::ConsistencyViolation(m) => "consistency mode violation: "@ + m,
        ErrorView::DurabilityUnavailable(m) => "durability unavailable: "@ + m,
        ErrorView::ValidationMsg(m) => "validation failed: "@ + m,
        ErrorView::NotFound(m) => "not found: "@ + m,
        ErrorView::RemoteUnsupported(m) => "not available over remote connection: "@ + m,
        ErrorView::AuthenticationFailed(m) => "authentication failed: "@ + m,
        ErrorView::PermissionDenied(m) => "permission denied: "@ + m,
        ErrorView::DeadlineExceeded(m) => "deadline exceeded: "@ + m,
        ErrorView::ProtocolViolation(m) => "protocol violation: "@ + m,
        ErrorView::Internal(m) => "internal: "@ + m,
        ErrorView::Io(m) => "io: "@ + m,
    }
}

/// Kinds of I/O failure that are told apart.
#[derive(Debug, Clone, Copy, PartialEq, Eq, Structural)]
pub enum IoErrorKind {
    /// The operation timed out.
    TimedOut,
    /// The operation would have blocked.
    WouldBlock,
    /// Anything else.
    Other,
}

impl Error {
    /// Wraps an I/O failure of the transport. Timeouts become
    /// [`Error::DeadlineExceeded`].
    pub fn from_io(kind: IoErrorKind, text: String) -> (r: Error)
        ensures
            r@ == (if kind == IoErrorKind::Other {
                ErrorView::Io(text@)
            } else {
                ErrorView::DeadlineExceeded(text@)
            }),
    {
        match kind {
            IoErrorKind::TimedOut => Error::DeadlineExceeded(text),
            IoErrorKind::WouldBlock => Error::DeadlineExceeded(text),
            IoErrorKind::Other => Error::Io(text),
        }
    }

    /// Stable machine code.
    pub fn code(&self) -> (r: ErrorCode)
        ensures
            r == code_of(self@),
    {
        match self {
            Error::Store(e) => map_store(e),
            Error::Remote { code, .. } => remote_code(code.as_str()),
            Error::InvalidCollectionName(_) => ErrorCode::ValidationFailed,
            Error::InvalidKey(_) => ErrorCode::ValidationFailed,
            Error::InvalidJson(_) => ErrorCode::DataDamaged,
            Error::TypeMismatch { .. } => ErrorCode::TypeMismatch,
            Error::BadPayload => ErrorCode::DataDamaged,
            Error::QueryInvalid(_) => ErrorCode::QueryInvalid,
            Error::ResourceLimit(_) => ErrorCode::ResourceLimit,
            Error::QueryBudgetRequired(_) => ErrorCode::QueryBudgetRequired,
            Error::PayloadPartial => ErrorCode::PayloadPartial,
            Error::CoverageIncomplete(_) => ErrorCode::CoverageIncomplete,
            Error::PartitionUnavailable { .. } => ErrorCode::PartitionUnavailable,
            Error::StaleRoute { .. } => ErrorCode::StaleRoute,
            Error::ConsistencyViolation(_) => ErrorCode::ConsistencyViolation,
            Error::DurabilityUnavailable(_) => ErrorCode::DurabilityUnavailable,
            Error::ValidationMsg(_) => ErrorCode::ValidationFailed,
            Error::VersionConflict { .. } => ErrorCode::VersionConflict,
            Error::NotFound(_) => ErrorCode::NotFound,
            Error::RemoteUnsupported(_) => ErrorCode::FormatUnsupported,
            Error::AuthenticationFailed(_) => ErrorCode::AuthenticationFailed,
            Error::PermissionDenied(_) => ErrorCode::PermissionDenied,
            Error::DeadlineExceeded(_) => ErrorCode::DeadlineExceeded,
            Error::ProtocolViolation(_) => ErrorCode::ProtocolViolation,
            Error::Internal(_) => ErrorCode::Internal,
            Error::Io(_) => ErrorCode::Io,
        }
    }

    /// The message of this error.
    pub fn to_text(&self) -> (r: String)
        ensures
            r@ == message_of(self@),
    {
        match self {
            Error::Store(e) => e.text.clone(),
            Error::BadPayload => "corrupt or unsupported payload encoding".to_string(),
            Error::PayloadPartial => "payload only partially available".to_string(),
            Error::VersionConflict { .. } => "version conflict".to_string(),
            Error::TypeMismatch { expected, found } => cat4(
                "payload type mismatch: expected ",
                expected,
                ", found ",
                found,
            ),
            Error::PartitionUnavailable { partition, reason } => cat5(
                "partition unavailable: partition ",
                decimal_text(*partition as u64).as_str(),
                " (",
                reason,
                ")",
            ),
            Error::StaleRoute { partition, message } => cat4(
                "stale route for partition ",
                decimal_text(*partition as u64).as_str(),
                ": ",
                message.as_str(),
            ),
            Error::Remote { code, message } => cat4(
                "remote error (",
                code.as_str(),
                "): ",
                message.as_str(),
            ),
            Error::InvalidCollectionName(m) => cat2("invalid collection name: ", m),
            Error::InvalidKey(m) => cat2("invalid key: ", m),
            Error::InvalidJson(m) => cat2("invalid JSON payload: ", m.as_str()),
            Error::QueryInvalid(m) => cat2("invalid query: ", m.as_str()),
            Error::ResourceLimit(m) => cat2("resource limit exceeded: ", m.as_str()),
            Error::QueryBudgetRequired(m) => cat2("query budget required: ", m.as_str()),
            Error::CoverageIncomplete(m) => cat2("coverage incomplete: ", m.as_str()),
            Error::ConsistencyViolation(m) => cat2("consistency mode violation: ", m.as_str()),
            Error::DurabilityUnavailable(m) => cat2("durability unavailable: ", m.as_str()),
            Error::ValidationMsg(m) => cat2("validation failed: ", m.as_str()),
            Error::NotFound(m) => cat2("not found: ", m.as_str()),
            Error::RemoteUnsupported(m) => cat2("not available over remote connection: ", m),
            Error::AuthenticationFailed(m) => cat2("authentication failed: ", m.as_str()),
            Error::PermissionDenied(m) => cat2("permission denied: ", m.as_str()),
            Error::DeadlineExceeded(m) => cat2("deadline exceeded: ", m.as_str()),
            Error::ProtocolViolation(m) => cat2("protocol violation: ", m.as_str()),
            Error::Internal(m) => cat2("internal: ", m.as_str()),
            Error::Io(m) => cat2("io: ", m.as_str()),
        }
    }

    /// Whether this is an ordinary store I/O failure.
    pub fn is_io(&self) -> (r: bool)
        ensures
            r == (code_of(self@) == ErrorCode::Io),
    {
        self.code() == ErrorCode::Io
    }

    /// Whether the payload appears damaged or unreadable as requested.
    pub fn is_data_damaged(&self) -> (r: bool)
        ensures
            r == (code_of(self@) == ErrorCode::DataDamaged),
    {
        self.code() == ErrorCode::DataDamaged
    }

    /// Whether the error is a validation problem on names or keys.
    pub fn is_validation(&self) -> (r: bool)
        ensures
            r == (code_of(self@) == ErrorCode::ValidationFailed),
    {
        self.code() == ErrorCode::ValidationFailed
    }

    /// Whether the filter or query object was rejected.
    pub fn is_query_invalid(&self) -> (r: bool)
        ensures
            r == (code_of(self@) == ErrorCode::QueryInvalid),
    {
        self.code() == ErrorCode::QueryInvalid
    }
}

/// A conditional-write failure of the store in the form callers match on; any
/// other error as it is.
pub open spec fn lifted(e: ErrorView) -> ErrorView {
    match e {
        ErrorView::Store(
            StoreErrorView { kind: StoreErrorKindView::VersionConflict { expected, observed }, .. },
        ) => ErrorView::VersionConflict { expected, observed },
        ErrorView::Store(StoreErrorView { kind: StoreErrorKindView::KeyExists, .. }) =>
            ErrorView::Remote { code: "already_exists"@, message: "key already present"@ },
        _ => e,
    }
}

/// Lifts the store's conditional-write failures into structured variants.
pub fn lift_store_cas(err: Error) -> (r: Error)
    ensures
        r@ == lifted(err@),
        code_of(r@) == code_of(err@),
{
    match err {
        Error::Store(e) => match e.kind {
            StoreErrorKind::VersionConflict { expected, observed } => Error::VersionConflict {
                expected,
                observed,
            },
            StoreErrorKind::KeyExists => {
                proof {
                    lemma_already_exists_code();
                }
                Error::Remote {
                    code: "already_exists".to_string(),
                    message: "key already present".to_string(),
                }
            },
            kind => Error::Store(StoreError { kind, text: e.text }),
        },
        other => other,
    }
}

/// The wire string of the already-exists code names that code and no other.
proof fn lemma_already_exists_code()
    ensures
        code_of_remote("already_exists"@) == ErrorCode::AlreadyExists,
{
    reveal_strlit("authentication_failed");
    reveal_strlit("permission_denied");
    reveal_strlit("deadline_exceeded");
    reveal_strlit("validation_failed");
    reveal_strlit("not_found");
    reveal_strlit("resource_limit");
    reveal_strlit("data_damaged");
    reveal_strlit("query_invalid");
    reveal_strlit("query_budget_required");
    reveal_strlit("partition_unavailable");
    reveal_strlit("stale_route");
    reveal_strlit("stale_epoch");
    reveal_strlit("not_leader");
    reveal_strlit("consistency_violation");
    reveal_strlit("durability_unavailable");
    reveal_strlit("protocol_violation");
    reveal_strlit("writer_lock_held");
    reveal_strlit("coverage_incomplete");
    reveal_strlit("payload_partial");
    reveal_strlit("already_exists");
    reveal_strlit("version_conflict");
    reveal_strlit("io");
    let c = "already_exists"@;
    assert(c.len() == 14);
    assert(c[0] != "resource_limit"@[0]);
}

/// A failure of the remote client.
#[derive(Debug)]
pub enum ClientError {
    /// The reply breaks the protocol.
    ProtocolViolation(String),
    /// A resource limit was hit.
    ResourceLimit(String),
    /// Authentication failed.
    AuthenticationFailed(String),
    /// A deadline passed.
    DeadlineExceeded(String),
    /// The server answered with an error.
    Remote {
        /// Its code.
        code: String,
        /// Its message.
        message: String,
    },
    /// The client failed internally.
    Internal(String),
    /// Transport I/O failed.
    Io(IoErrorKind, String),
}

impl Error {
    /// Wraps a failure of the remote client.
    pub fn from_client(e: ClientError) -> (r: Error)
        ensures
            r@ == (match e {
                ClientError::ProtocolViolation(s) => ErrorView::ProtocolViolation(s@),
                ClientError::ResourceLimit(s) => ErrorView::ResourceLimit(s@),
                ClientError::AuthenticationFailed(s) => ErrorView::AuthenticationFailed(s@),
                ClientError::DeadlineExceeded(s) => ErrorView::DeadlineExceeded(s@),
                ClientError::Remote { code, message } => ErrorView::Remote {
                    code: code@,
                    message: message@,
                },
                ClientError::Internal(s) => ErrorView::Internal(s@),
                ClientError::Io(kind, s) => if kind == IoErrorKind::Other {
                    ErrorView::Io(s@)
                } else {
                    ErrorView::DeadlineExceeded(s@)
                },
            }),
    {
        match e {
            ClientError::ProtocolViolation(s) => Error::ProtocolViolation(s),
            ClientError::ResourceLimit(s) => Error::ResourceLimit(s),
            ClientError::AuthenticationFailed(s) => Error::AuthenticationFailed(s),
            ClientError::DeadlineExceeded(s) => Error::DeadlineExceeded(s),
            ClientError::Remote { code, message } => Error::Remote { code, message },
            ClientError::Internal(s) => Error::Internal(s),
            ClientError::Io(kind, s) => Error::from_io(kind, s),
        }
    }
}

/// The error of an invalid query, with that message.
pub(crate) fn query_invalid(message: &str) -> (r: Error)
    ensures
        r@ == ErrorView::QueryInvalid(message@),
{
    Error::QueryInvalid(message.to_string())
}

} // verus!
