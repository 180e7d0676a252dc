//! The embedded driver: options, identities, errors and requests.
//!
//! Threads, locks and clocks belong to the caller. [`schedule`] decides what
//! happens to each request; this module builds requests, tells what an error
//! means for a retry, and turns raw pages into typed ones.
use crate::app_v1::{CollectionId, HeapId};
use crate::codec::{le8, law_le8_round_trip, push_le8, push_text, read_utf8, same16, utf8_in};
use crate::covered_reads::queue_of;
use crate::digest::{blake3_digest, hash_bytes};
use crate::error::{
    code_of, message_of, outcome, Error as SdkError, ErrorCode as SdkErrorCode,
    ErrorView as SdkErrorView, StoreErrorKind, StoreErrorKindView,
};
use crate::driver::mutations::{create_given, delete_given, put_given, replace_given};
use crate::heap::{cursor_refused, signed, HeapCollection, ObjectKind, SignedCursor, WriteCondition};
use crate::text::cat2;
use vstd::prelude::*;

pub mod atomics;
pub mod handles;
pub mod mutations;
pub mod schedule;

verus! {

/// Identity of a request.
#[derive(Debug, Clone, Copy, PartialEq, Eq)]
pub struct RequestId(pub [u8; 16]);

/// Identity of a mutation.
#[derive(Debug, Clone, Copy, PartialEq, Eq)]
pub struct OperationId(pub [u8; 16]);

/// Whether and how a request may be sent again.
#[derive(Debug, Clone, Copy, PartialEq, Eq, Structural)]
pub enum RetryDisposition {
    /// Not at all.
    Never,
    /// The same request, safely.
    SafeSameRequest,
    /// Only after its outcome was looked up.
    OutcomeLookupRequired,
    /// After this many milliseconds.
    After(u64),
}

/// How a request ended.
#[derive(Debug, Clone, Copy, PartialEq, Eq, Structural)]
pub enum TerminalOutcome {
    /// It was refused.
    Refused,
    /// Its deadline passed.
    DeadlineExceeded,
    /// It was cancelled before a worker took it.
    CancelledBeforeDispatch,
    /// Whether it took effect is not known.
    CommitOutcomeUnknown,
}

/// Options of an embedded driver.
#[derive(Debug)]
pub struct EmbeddedOptions {
    /// Root of the deployment.
    pub path: String,
    /// Dedicated workers.
    pub workers: usize,
    /// Most queued operations, beside those that run.
    pub queue_capacity: usize,
}

impl EmbeddedOptions {
    /// Options with defaults for a machine with this much parallelism: as many
    /// workers, at least one and at most four, and a queue of 1024.
    pub fn new(path: String, parallelism: Option<usize>) -> (r: EmbeddedOptions)
        ensures
            r.path == path,
            r.queue_capacity == 1024,
            r.workers == ({
                let n = match parallelism {
                    Some(n) => n,
                    None => 1,
                };
                if n < 1 {
                    1
                } else if n > 4 {
                    4
                } else {
                    n as int
                }
            }),
    {
        let n: usize = match parallelism {
            Some(n) => n,
            None => 1,
        };
        let workers: usize = if n < 1 {
            1
        } else if n > 4 {
            4
        } else {
            n
        };
        EmbeddedOptions { path, workers, queue_capacity: 1024 }
    }

    /// The same options with another number of workers.
    pub fn workers(self, workers: usize) -> (r: EmbeddedOptions)
        ensures
            r == (EmbeddedOptions { workers, ..self }),
    {
        EmbeddedOptions { path: self.path, workers, queue_capacity: self.queue_capacity }
    }

    /// The same options with another queue bound.
    pub fn queue_capacity(self, queue_capacity: usize) -> (r: EmbeddedOptions)
        ensures
            r == (EmbeddedOptions { queue_capacity, ..self }),
    {
        EmbeddedOptions { path: self.path, workers: self.workers, queue_capacity }
    }

    /// Refuses options without a worker or without a queue.
    pub fn check(&self) -> (r: Result<(), Error>)
        ensures
            match r {
                Ok(_) => self.workers > 0 && self.queue_capacity > 0,
                Err(e) => (self.workers == 0 || self.queue_capacity == 0) && e@ == local_error(
                    ErrorCode::Validation,
                    ErrorClass::Request,
                    "embedded workers and queue capacity must be non-zero"@,
                ),
            },
    {
        if self.workers == 0 || self.queue_capacity == 0 {
            return Err(
                Error::local(
                    ErrorCode::Validation,
                    ErrorClass::Request,
                    "embedded workers and queue capacity must be non-zero",
                ),
            );
        }
        Ok(())
    }
}

/// Identity and deadline of one operation. Times are nanoseconds of one
/// monotonic clock.
#[derive(Debug, Clone, Copy)]
pub struct OperationContext {
    /// Request identity; made up when absent.
    pub request_id: Option<RequestId>,
    /// Mutation identity; made up when absent.
    pub operation_id: Option<OperationId>,
    /// Deadline from end to end.
    pub deadline: Option<u64>,
}

impl Default for OperationContext {
    fn default() -> (r: OperationContext)
        ensures
            r == (OperationContext { request_id: None, operation_id: None, deadline: None }),
    {
        OperationContext { request_id: None, operation_id: None, deadline: None }
    }
}

impl OperationContext {
    /// The same context with a deadline from now. A time that the clock cannot
    /// show is due at once.
    pub fn timeout(self, now: u64, duration: u64) -> (r: OperationContext)
        ensures
            r == (OperationContext {
                deadline: Some(
                    if now + duration <= u64::MAX {
                        (now + duration) as u64
                    } else {
                        now
                    },
                ),
                ..self
            }),
    {
        let deadline: u64 = match now.checked_add(duration) {
            Some(at) => at,
            None => now,
        };
        OperationContext {
            request_id: self.request_id,
            operation_id: self.operation_id,
            deadline: Some(deadline),
        }
    }
}

/// Options of a put.
#[derive(Debug, Clone, Copy)]
pub struct PutOptions {
    /// Identity and deadline.
    pub context: OperationContext,
}

/// Options of a create.
#[derive(Debug, Clone, Copy)]
pub struct CreateOptions {
    /// Identity and deadline.
    pub context: OperationContext,
}

/// Options of a replace.
#[derive(Debug, Clone, Copy)]
pub struct ReplaceOptions {
    /// Version that must still be live.
    pub if_version: [u8; 16],
    /// Identity and deadline.
    pub context: OperationContext,
}

/// Options of a delete.
#[derive(Debug, Clone, Copy)]
pub struct DeleteOptions {
    /// Version that must still be live.
    pub if_version: Option<[u8; 16]>,
    /// Whether the key has to be there.
    pub if_present: bool,
    /// Identity and deadline.
    pub context: OperationContext,
}

impl Default for DeleteOptions {
    fn default() -> (r: DeleteOptions)
        ensures
            r.if_version is None,
            r.if_present,
            r.context == (OperationContext { request_id: None, operation_id: None, deadline: None }),
    {
        DeleteOptions { if_version: None, if_present: true, context: OperationContext::default() }
    }
}

/// Options of the creation of a collection.
#[derive(Debug, Clone, Copy)]
pub struct CreateCollectionOptions {
    /// Identity and deadline.
    pub context: OperationContext,
}

/// Most rows in a page.
pub const MAX_SCAN_PAGE_SIZE: usize = 1_000;

/// Options of a scan.
#[derive(Debug)]
pub struct ScanOptions {
    /// Rows in the page, from one to [`MAX_SCAN_PAGE_SIZE`].
    pub page_size: usize,
    /// Where the page before ended.
    pub continuation: Option<ScanContinuation>,
    /// Identity and deadline. A read has no mutation identity.
    pub context: OperationContext,
}

impl Default for ScanOptions {
    fn default() -> (r: ScanOptions)
        ensures
            r.page_size == 64,
            r.continuation is None,
            r.context == (OperationContext { request_id: None, operation_id: None, deadline: None }),
    {
        ScanOptions { page_size: 64, continuation: None, context: OperationContext::default() }
    }
}

/// Where a scan goes on, bound to a capability and a collection.
#[derive(Debug)]
pub struct ScanContinuation(pub SignedCursor);

/// A row of a page.
#[derive(Debug)]
pub struct ScanRow<T> {
    /// Application key.
    pub key: String,
    /// Decoded value.
    pub value: T,
    /// Version of the value.
    pub version: [u8; 16],
}

/// A value with its version.
#[derive(Debug)]
pub struct VersionedValue<T> {
    /// Decoded value.
    pub value: T,
    /// Version of the value.
    pub version: [u8; 16],
}

/// A live key whose body cannot be read.
#[derive(Debug)]
pub struct ScanHole {
    /// Application key.
    pub key: String,
    /// What the store says of the hole.
    pub reason: String,
}

/// A page of a scan.
#[derive(Debug)]
pub struct ScanPage<T> {
    /// Rows, by key.
    pub rows: Vec<ScanRow<T>>,
    /// Keys whose body cannot be read.
    pub incomplete: Vec<ScanHole>,
    /// Keys examined.
    pub examined: usize,
    /// Whether no key is incomplete.
    pub complete: bool,
    /// Where to go on, where there is more.
    pub continuation: Option<ScanContinuation>,
}

/// What a driver handle can do.
#[derive(Debug, Clone, Copy, PartialEq, Eq, Structural)]
pub struct Capabilities {
    /// Operations go through the embedded scheduler.
    pub embedded: bool,
    /// One connection hosts several heaps.
    pub multi_heap_bindings: bool,
    /// Outcomes of mutations are kept by operation identity.
    pub mutation_identity: bool,
    /// Queries stream.
    pub query_streaming: bool,
    /// Scans come in pages.
    pub bounded_scan_pages: bool,
    /// Several records change at once.
    pub atomics: bool,
    /// Remote connections are pooled.
    pub remote_pooling: bool,
}

/// What the embedded driver can do.
pub fn embedded_capabilities() -> (r: Capabilities)
    ensures
        r == (Capabilities {
            embedded: true,
            multi_heap_bindings: true,
            mutation_identity: true,
            query_streaming: false,
            bounded_scan_pages: true,
            atomics: false,
            remote_pooling: false,
        }),
{
    Capabilities {
        embedded: true,
        multi_heap_bindings: true,
        mutation_identity: true,
        query_streaming: false,
        bounded_scan_pages: true,
        atomics: false,
        remote_pooling: false,
    }
}

/// Driver error code.
#[derive(Debug, Clone, Copy, PartialEq, Eq, Structural)]
pub enum ErrorCode {
    /// Options or input are invalid.
    Validation,
    /// The queue is full.
    Overloaded,
    /// The client is closed.
    Closed,
    /// The deadline passed before there was a result.
    DeadlineExceeded,
    /// A mutation that a worker had taken passed its deadline.
    CommitOutcomeUnknown,
    /// The request was cancelled before a worker took it.
    CancelledBeforeDispatch,
    /// An operation identity was used for something else.
    OperationIdentityConflict,
    /// The capability or the credentials do not allow it.
    PermissionDenied,
    /// What was asked for is absent.
    NotFound,
    /// A condition did not hold.
    Conflict,
    /// Stored data is damaged.
    DataDamaged,
    /// The storage failed.
    Unavailable,
    /// A plan is larger than allowed.
    ResourceLimit,
    /// The identity of a plan was used for another one.
    AtomicIdConflict,
    /// Anything else.
    Internal,
}

/// Class of a driver error.
#[derive(Debug, Clone, Copy, PartialEq, Eq, Structural)]
pub enum ErrorClass {
    /// The caller can mend the request.
    Request,
    /// The driver did not take the work.
    Admission,
    /// A deadline or a cancellation ended it.
    Cancellation,
    /// The storage or the capability service failed.
    Service,
    /// Something is wrong inside.
    Internal,
}

/// Driver error.
#[derive(Debug)]
pub struct Error {
    /// Code.
    pub code: ErrorCode,
    /// Class.
    pub class: ErrorClass,
    /// Message for an operator.
    pub message: String,
    /// Request identity.
    pub request_id: Option<RequestId>,
    /// Mutation identity, where there is one.
    pub operation_id: Option<OperationId>,
    /// What a retry has to heed.
    pub retry: RetryDisposition,
    /// How the request ended.
    pub terminal: TerminalOutcome,
    /// What it came from.
    pub source: Option<SdkError>,
}

/// Model of an [`Error`].
#[verifier::ext_equal]
pub struct ErrorView {
    pub code: ErrorCode,
    pub class: ErrorClass,
    pub message: Seq<char>,
    pub request_id: Option<RequestId>,
    pub operation_id: Option<OperationId>,
    pub retry: RetryDisposition,
    pub terminal: TerminalOutcome,
    pub source: Option<SdkErrorView>,
}

impl View for Error {
    type V = ErrorView;

    open spec fn view(&self) -> ErrorView {
        ErrorView {
            code: self.code,
            class: self.class,
            message: self.message@,
            request_id: self.request_id,
            operation_id: self.operation_id,
            retry: self.retry,
            terminal: self.terminal,
            source: match self.source {
                Some(s) => Some(s@),
                None => None,
            },
        }
    }
}

/// An error before there is a request.
pub open spec fn local_error(code: ErrorCode, class: ErrorClass, message: Seq<char>) -> ErrorView {
    ErrorView {
        code,
        class,
        message,
        request_id: None,
        operation_id: None,
        retry: RetryDisposition::Never,
        terminal: TerminalOutcome::Refused,
        source: None,
    }
}

/// Code, class and retry of a failure of the library.
pub open spec fn driver_class(e: SdkErrorView, mutation: bool) -> (
    ErrorCode,
    ErrorClass,
    RetryDisposition,
) {
    if e matches SdkErrorView::Store(s) && s.kind == StoreErrorKindView::OperationIdentityConflict {
        (ErrorCode::OperationIdentityConflict, ErrorClass::Request, RetryDisposition::Never)
    } else {
        match code_of(e) {
            SdkErrorCode::ValidationFailed | SdkErrorCode::QueryInvalid => (
                ErrorCode::Validation,
                ErrorClass::Request,
                RetryDisposition::Never,
            ),
            SdkErrorCode::PermissionDenied | SdkErrorCode::AuthenticationFailed => (
                ErrorCode::PermissionDenied,
                ErrorClass::Service,
                RetryDisposition::Never,
            ),
            SdkErrorCode::NotFound => (
                ErrorCode::NotFound,
                ErrorClass::Request,
                RetryDisposition::Never,
            ),
            SdkErrorCode::AlreadyExists | SdkErrorCode::VersionConflict
            | SdkErrorCode::ConsistencyViolation => (
                ErrorCode::Conflict,
                ErrorClass::Request,
                RetryDisposition::Never,
            ),
            SdkErrorCode::DataDamaged | SdkErrorCode::PayloadPartial
            | SdkErrorCode::CoverageIncomplete => (
                ErrorCode::DataDamaged,
                ErrorClass::Service,
                RetryDisposition::Never,
            ),
            SdkErrorCode::DeadlineExceeded => (
                ErrorCode::DeadlineExceeded,
                ErrorClass::Cancellation,
                RetryDisposition::Never,
            ),
            SdkErrorCode::Io | SdkErrorCode::PartitionUnavailable
            | SdkErrorCode::WriterLockHeld => (
                ErrorCode::Unavailable,
                ErrorClass::Service,
                if mutation {
                    RetryDisposition::OutcomeLookupRequired
                } else {
                    RetryDisposition::SafeSameRequest
                },
            ),
            _ => (ErrorCode::Internal, ErrorClass::Internal, RetryDisposition::Never),
        }
    }
}

/// A failure of the library as a driver error.
pub open spec fn sdk_error(
    e: SdkErrorView,
    request_id: RequestId,
    operation_id: Option<OperationId>,
) -> ErrorView {
    let c = driver_class(e, operation_id is Some);
    ErrorView {
        code: c.0,
        class: c.1,
        message: message_of(e),
        request_id: Some(request_id),
        operation_id,
        retry: c.2,
        terminal: TerminalOutcome::Refused,
        source: Some(e),
    }
}

impl Error {
    /// An error before there is a request.
    pub fn local(code: ErrorCode, class: ErrorClass, message: &str) -> (r: Error)
        ensures
            r@ == local_error(code, class, message@),
    {
        Error {
            code,
            class,
            message: message.to_string(),
            request_id: None,
            operation_id: None,
            retry: RetryDisposition::Never,
            terminal: TerminalOutcome::Refused,
            source: None,
        }
    }

    /// An error of a request.
    pub fn for_request(
        code: ErrorCode,
        class: ErrorClass,
        message: &str,
        request_id: RequestId,
        operation_id: Option<OperationId>,
        terminal: TerminalOutcome,
        retry: RetryDisposition,
    ) -> (r: Error)
        ensures
            r@ == (ErrorView {
                code,
                class,
                message: message@,
                request_id: Some(request_id),
                operation_id,
                retry,
                terminal,
                source: None,
            }),
    {
        Error {
            code,
            class,
            message: message.to_string(),
            request_id: Some(request_id),
            operation_id,
            retry,
            terminal,
            source: None,
        }
    }

    /// A failure of the library as an error of a request.
    pub fn from_sdk(source: SdkError, request_id: RequestId, operation_id: Option<OperationId>) -> (r:
        Error)
        ensures
            r@ == sdk_error(source@, request_id, operation_id),
    {
        let reused = match &source {
            SdkError::Store(s) => match s.kind {
                StoreErrorKind::OperationIdentityConflict => true,
                _ => false,
            },
            _ => false,
        };
        let (code, class, retry) = if reused {
            (ErrorCode::OperationIdentityConflict, ErrorClass::Request, RetryDisposition::Never)
        } else {
            match source.code() {
                SdkErrorCode::ValidationFailed | SdkErrorCode::QueryInvalid => (
                    ErrorCode::Validation,
                    ErrorClass::Request,
                    RetryDisposition::Never,
                ),
                SdkErrorCode::PermissionDenied | SdkErrorCode::AuthenticationFailed => (
                    ErrorCode::PermissionDenied,
                    ErrorClass::Service,
                    RetryDisposition::Never,
                ),
                SdkErrorCode::NotFound => (
                    ErrorCode::NotFound,
                    ErrorClass::Request,
                    RetryDisposition::Never,
                ),
                SdkErrorCode::AlreadyExists | SdkErrorCode::VersionConflict
                | SdkErrorCode::ConsistencyViolation => (
                    ErrorCode::Conflict,
                    ErrorClass::Request,
                    RetryDisposition::Never,
                ),
                SdkErrorCode::DataDamaged | SdkErrorCode::PayloadPartial
                | SdkErrorCode::CoverageIncomplete => (
                    ErrorCode::DataDamaged,
                    ErrorClass::Service,
                    RetryDisposition::Never,
                ),
                SdkErrorCode::DeadlineExceeded => (
                    ErrorCode::DeadlineExceeded,
                    ErrorClass::Cancellation,
                    RetryDisposition::Never,
                ),
                SdkErrorCode::Io | SdkErrorCode::PartitionUnavailable
                | SdkErrorCode::WriterLockHeld => (
                    ErrorCode::Unavailable,
                    ErrorClass::Service,
                    if operation_id.is_some() {
                        RetryDisposition::OutcomeLookupRequired
                    } else {
                        RetryDisposition::SafeSameRequest
                    },
                ),
                _ => (ErrorCode::Internal, ErrorClass::Internal, RetryDisposition::Never),
            }
        };
        let message = source.to_text();
        Error {
            code,
            class,
            message,
            request_id: Some(request_id),
            operation_id,
            retry,
            terminal: TerminalOutcome::Refused,
            source: Some(source),
        }
    }
}

/// A failed write may be repeated only where the failure says so: a mutation
/// is never offered the same request again without a lookup of its outcome.
pub proof fn law_no_blind_mutation_retry(
    e: SdkErrorView,
    request_id: RequestId,
    operation_id: OperationId,
)
    ensures
        sdk_error(e, request_id, Some(operation_id)).retry == RetryDisposition::Never || sdk_error(
            e,
            request_id,
            Some(operation_id),
        ).retry == RetryDisposition::OutcomeLookupRequired,
{
}

/// A receipt of a write, with what the storage gave.
#[derive(Debug)]
pub struct WriteReceipt<S> {
    /// Request identity.
    pub request_id: RequestId,
    /// Mutation identity.
    pub operation_id: OperationId,
    /// Heap.
    pub heap_id: HeapId,
    /// Collection.
    pub collection_id: CollectionId,
    /// Whether a stored outcome was returned.
    pub deduplicated: bool,
    /// Receipt of the storage.
    pub storage: S,
}

/// A receipt of a delete, with what the storage gave.
#[derive(Debug)]
pub struct DeleteReceipt<S> {
    /// Request identity.
    pub request_id: RequestId,
    /// Mutation identity.
    pub operation_id: OperationId,
    /// Heap.
    pub heap_id: HeapId,
    /// Collection.
    pub collection_id: CollectionId,
    /// Whether a stored outcome was returned.
    pub deduplicated: bool,
    /// Receipt of the storage.
    pub storage: S,
}

/// The bytes that a condition adds to a mutation.
pub open spec fn condition_bytes(condition: WriteCondition) -> Seq<u8> {
    match condition {
        WriteCondition::Unconditional => vstd::utf8::encode_utf8("unconditional"@),
        WriteCondition::Absent => vstd::utf8::encode_utf8("absent"@),
        WriteCondition::Present => vstd::utf8::encode_utf8("present"@),
        WriteCondition::LiveEventId(v) => vstd::utf8::encode_utf8("live-event-id:"@) + v@,
    }
}

/// The bytes that a condition adds to a mutation.
pub fn write_condition_bytes(condition: &WriteCondition) -> (r: Vec<u8>)
    ensures
        r@ == condition_bytes(*condition),
{
    let mut out: Vec<u8> = Vec::new();
    match condition {
        WriteCondition::Unconditional => push_text(&mut out, "unconditional"),
        WriteCondition::Absent => push_text(&mut out, "absent"),
        WriteCondition::Present => push_text(&mut out, "present"),
        WriteCondition::LiveEventId(v) => {
            push_text(&mut out, "live-event-id:");
            out.extend_from_slice(v.as_slice());
        },
    }
    proof {
        assert(out@ =~= condition_bytes(*condition));
    }
    out
}

/// A field with its length before it.
pub open spec fn framed(field: Seq<u8>) -> Seq<u8> {
    le8(field.len() as u64) + field
}

/// Fields with their lengths before them.
pub open spec fn frames(fields: Seq<Seq<u8>>) -> Seq<u8>
    decreases fields.len(),
{
    if fields.len() == 0 {
        Seq::empty()
    } else {
        frames(fields.drop_last()) + framed(fields.last())
    }
}

/// What the content hash of a mutation covers.
pub open spec fn mutation_fields(
    operation: Seq<u8>,
    heap_id: Seq<u8>,
    collection_id: Seq<u8>,
    key: Seq<u8>,
    fields: Seq<Seq<u8>>,
) -> Seq<Seq<u8>> {
    (seq![operation, heap_id, collection_id, key] + fields).push(
        vstd::utf8::encode_utf8("durable"@),
    )
}

/// The models of byte fields.
pub open spec fn field_views(v: Seq<Vec<u8>>) -> Seq<Seq<u8>> {
    v.map_values(|f: Vec<u8>| f@)
}

fn push_frame(out: &mut Vec<u8>, field: &[u8])
    ensures
        final(out)@ == old(out)@ + framed(field@),
{
    let ghost before = out@;
    push_le8(out, field.len() as u64);
    out.extend_from_slice(field);
    proof {
        assert(out@ =~= before + framed(field@));
    }
}

/// The content hash of a mutation: every field with its length, then the
/// durability.
pub fn canonical_mutation_hash(
    operation: &[u8],
    heap_id: HeapId,
    collection_id: CollectionId,
    key: &[u8],
    request_fields: &Vec<Vec<u8>>,
) -> (r: [u8; 32])
    ensures
        r@ == blake3_digest(
            frames(
                mutation_fields(
                    operation@,
                    heap_id.0@,
                    collection_id.0@,
                    key@,
                    field_views(request_fields@),
                ),
            ),
        ),
{
    let ghost views = field_views(request_fields@);
    let ghost head = seq![operation@, heap_id.0@, collection_id.0@, key@];
    let mut input: Vec<u8> = Vec::new();
    push_frame(&mut input, operation);
    push_frame(&mut input, heap_id.0.as_slice());
    push_frame(&mut input, collection_id.0.as_slice());
    push_frame(&mut input, key);
    proof {
        reveal_with_fuel(frames, 5);
        assert(head.drop_last() =~= seq![operation@, heap_id.0@, collection_id.0@]);
        assert(head.drop_last().drop_last() =~= seq![operation@, heap_id.0@]);
        assert(head.drop_last().drop_last().drop_last() =~= seq![operation@]);
        assert(head.drop_last().drop_last().drop_last().drop_last() =~= Seq::empty());
        assert(head + views.take(0) =~= head);
        assert(input@ =~= frames(head));
    }
    let mut i: usize = 0;
    while i < request_fields.len()
        invariant
            i <= request_fields@.len(),
            views == field_views(request_fields@),
            input@ == frames(head + views.take(i as int)),
        decreases request_fields@.len() - i,
    {
        push_frame(&mut input, request_fields[i].as_slice());
        proof {
            let next = head + views.take(i + 1);
            assert(next.drop_last() =~= head + views.take(i as int));
            assert(next.last() == request_fields@[i as int]@);
        }
        i = i + 1;
    }
    let mut durability: Vec<u8> = Vec::new();
    push_text(&mut durability, "durable");
    push_frame(&mut input, durability.as_slice());
    proof {
        let all = (head + views).push(vstd::utf8::encode_utf8("durable"@));
        assert(views.take(views.len() as int) =~= views);
        assert(all.drop_last() =~= head + views);
        assert(durability@ =~= vstd::utf8::encode_utf8("durable"@));
    }
    hash_bytes(input.as_slice())
}

proof fn lemma_frames_front(fields: Seq<Seq<u8>>)
    requires
        fields.len() > 0,
    ensures
        frames(fields) == framed(fields[0]) + frames(fields.skip(1)),
    decreases fields.len(),
{
    if fields.len() == 1 {
        assert(fields.drop_last() =~= Seq::empty());
        assert(fields.skip(1) =~= Seq::empty());
        assert(frames(fields) =~= framed(fields[0]) + frames(fields.skip(1)));
    } else {
        lemma_frames_front(fields.drop_last());
        assert(fields.drop_last().skip(1) =~= fields.skip(1).drop_last());
        assert(fields.skip(1).last() == fields.last());
        assert(frames(fields) =~= framed(fields[0]) + frames(fields.skip(1)));
    }
}

proof fn lemma_framed_injective(x: Seq<u8>, y: Seq<u8>, after_x: Seq<u8>, after_y: Seq<u8>)
    requires
        framed(x) + after_x == framed(y) + after_y,
        x.len() <= u64::MAX,
        y.len() <= u64::MAX,
    ensures
        x == y,
        after_x == after_y,
{
    let whole = framed(x) + after_x;
    law_le8_round_trip(x.len() as u64);
    law_le8_round_trip(y.len() as u64);
    assert(le8(x.len() as u64) =~= whole.take(8));
    assert(le8(y.len() as u64) =~= whole.take(8));
    let n = 8 + x.len() as int;
    assert(x =~= whole.subrange(8, n));
    assert(y =~= whole.subrange(8, n));
    assert(after_x =~= whole.skip(n));
    assert(after_y =~= whole.skip(n));
}

/// Every field has a length that eight bytes hold.
#[verifier::opaque]
spec fn all_short(fields: Seq<Seq<u8>>) -> bool {
    forall|i: int| 0 <= i < fields.len() ==> (#[trigger] fields[i]).len() <= u64::MAX
}

proof fn lemma_rest_short(fields: Seq<Seq<u8>>)
    requires
        all_short(fields),
        fields.len() > 0,
    ensures
        fields[0].len() <= u64::MAX,
        all_short(fields.skip(1)),
{
    reveal(all_short);
    assert forall|i: int| 0 <= i < fields.skip(1).len() implies (
    #[trigger] fields.skip(1)[i]).len() <= u64::MAX by {
        assert(fields.skip(1)[i] == fields[i + 1]);
    }
}

proof fn lemma_same_front(a: Seq<Seq<u8>>, b: Seq<Seq<u8>>)
    requires
        a.len() > 0,
        b.len() > 0,
        a[0] == b[0],
        a.skip(1) == b.skip(1),
    ensures
        a == b,
{
    assert(a.len() == a.skip(1).len() + 1);
    assert(b.len() == b.skip(1).len() + 1);
    assert forall|i: int| 0 <= i < a.len() implies a[i] == b[i] by {
        if i > 0 {
            assert(a.skip(1)[i - 1] == b.skip(1)[i - 1]);
        }
    }
    assert(a =~= b);
}

proof fn lemma_frames_injective(a: Seq<Seq<u8>>, b: Seq<Seq<u8>>)
    requires
        frames(a) == frames(b),
        all_short(a),
        all_short(b),
    ensures
        a == b,
    decreases a.len(),
{
    if a.len() == 0 || b.len() == 0 {
        if b.len() > 0 {
            lemma_frames_front(b);
            law_le8_round_trip(b[0].len() as u64);
            assert(frames(b).len() >= 8);
        }
        if a.len() > 0 {
            lemma_frames_front(a);
            law_le8_round_trip(a[0].len() as u64);
            assert(frames(a).len() >= 8);
        }
        assert(a =~= b);
    } else {
        lemma_frames_front(a);
        lemma_frames_front(b);
        lemma_rest_short(a);
        lemma_rest_short(b);
        lemma_framed_injective(a[0], b[0], frames(a.skip(1)), frames(b.skip(1)));
        lemma_frames_injective(a.skip(1), b.skip(1));
        lemma_same_front(a, b);
    }
}

/// What is hashed keeps the boundaries of the fields: mutations that differ in
/// any field, or in how the same bytes are split into fields, differ in what
/// is hashed.
pub proof fn law_hashed_fields_are_told_apart(
    operation1: Seq<u8>,
    heap1: Seq<u8>,
    collection1: Seq<u8>,
    key1: Seq<u8>,
    fields1: Seq<Seq<u8>>,
    operation2: Seq<u8>,
    heap2: Seq<u8>,
    collection2: Seq<u8>,
    key2: Seq<u8>,
    fields2: Seq<Seq<u8>>,
)
    requires
        operation1.len() <= u64::MAX && operation2.len() <= u64::MAX,
        heap1.len() <= u64::MAX && heap2.len() <= u64::MAX,
        collection1.len() <= u64::MAX && collection2.len() <= u64::MAX,
        key1.len() <= u64::MAX && key2.len() <= u64::MAX,
        forall|i: int| 0 <= i < fields1.len() ==> (#[trigger] fields1[i]).len() <= u64::MAX,
        forall|i: int| 0 <= i < fields2.len() ==> (#[trigger] fields2[i]).len() <= u64::MAX,
        frames(mutation_fields(operation1, heap1, collection1, key1, fields1)) == frames(
            mutation_fields(operation2, heap2, collection2, key2, fields2),
        ),
    ensures
        operation1 == operation2,
        heap1 == heap2,
        collection1 == collection2,
        key1 == key2,
        fields1 == fields2,
{
    let a = mutation_fields(operation1, heap1, collection1, key1, fields1);
    let b = mutation_fields(operation2, heap2, collection2, key2, fields2);
    assert(vstd::utf8::encode_utf8("durable"@).len() <= u64::MAX) by {
        reveal_strlit("durable");
        vstd::utf8::is_ascii_chars_encode_utf8("durable"@);
    }
    assert forall|i: int| 0 <= i < a.len() implies (#[trigger] a[i]).len() <= u64::MAX by {
        if 4 <= i < a.len() - 1 {
            assert(a[i] == fields1[i - 4]);
        }
    }
    assert forall|i: int| 0 <= i < b.len() implies (#[trigger] b[i]).len() <= u64::MAX by {
        if 4 <= i < b.len() - 1 {
            assert(b[i] == fields2[i - 4]);
        }
    }
    assert(all_short(a) && all_short(b)) by {
        reveal(all_short);
    }
    lemma_frames_injective(a, b);
    assert(a[0] == b[0] && a[1] == b[1] && a[2] == b[2] && a[3] == b[3]);
    assert(fields1.len() == fields2.len());
    assert forall|i: int| 0 <= i < fields1.len() implies fields1[i] == fields2[i] by {
        assert(a[i + 4] == fields1[i]);
        assert(b[i + 4] == fields2[i]);
    }
    assert(fields1 =~= fields2);
}

/// `getrandom::fill` on sixteen bytes: fresh random bytes, or the message of
/// the failure. Nothing is claimed of the bytes.
#[verifier::external_body]
fn random_bytes() -> (r: Result<[u8; 16], String>) {
    let mut id = [0u8; 16];
    match getrandom::fill(&mut id) {
        Ok(()) => Ok(id),
        Err(e) => Err(e.to_string()),
    }
}

/// Sixteen zero bytes.
pub open spec fn zero_id() -> Seq<u8> {
    Seq::new(16, |i: int| 0u8)
}

fn is_zero(id: &[u8; 16]) -> (r: bool)
    ensures
        r == (id@ == zero_id()),
{
    let zero: [u8; 16] = [0u8; 16];
    proof {
        assert(zero@ =~= zero_id());
    }
    same16(id, &zero)
}

/// An identity from random bytes. The identity of zeros stands for none, so
/// its last byte becomes one.
pub fn id_from_random(filled: Result<[u8; 16], String>) -> (r: Result<[u8; 16], Error>)
    ensures
        match filled {
            Err(m) => r is Err && r->Err_0@ == local_error(
                ErrorCode::Internal,
                ErrorClass::Internal,
                "secure identity generation failed: "@ + m@,
            ),
            Ok(id) => r is Ok && r->Ok_0@ == (if id@ == zero_id() {
                id@.update(15, 1)
            } else {
                id@
            }),
        },
{
    match filled {
        Err(m) => {
            let message = cat2("secure identity generation failed: ", m.as_str());
            Err(Error::local(ErrorCode::Internal, ErrorClass::Internal, message.as_str()))
        },
        Ok(id) => {
            let mut out = id;
            if is_zero(&out) {
                out[15] = 1;
            }
            Ok(out)
        },
    }
}

/// An error says that no identity could be made up.
pub open spec fn identity_failure(e: ErrorView) -> bool {
    exists|m: Seq<char>|
        e == #[trigger] local_error(
            ErrorCode::Internal,
            ErrorClass::Internal,
            "secure identity generation failed: "@ + m,
        )
}

/// Makes up an identity; it is never all zeros.
pub fn mint_id() -> (r: Result<[u8; 16], Error>)
    ensures
        match r {
            Ok(id) => id@ != zero_id(),
            Err(e) => identity_failure(e@),
        },
{
    let r = id_from_random(random_bytes());
    proof {
        assert(zero_id()[15] == 0u8);
    }
    r
}

/// The request identity that was given, or a new one. An identity of zeros is
/// refused.
pub fn resolve_request_id(request_id: Option<RequestId>) -> (r: Result<RequestId, Error>)
    ensures
        match request_id {
            Some(id) => match r {
                Ok(v) => v == id && id.0@ != zero_id(),
                Err(e) => id.0@ == zero_id() && e@ == local_error(
                    ErrorCode::Validation,
                    ErrorClass::Request,
                    "request_id must be non-zero"@,
                ),
            },
            None => match r {
                Ok(v) => v.0@ != zero_id(),
                Err(e) => identity_failure(e@),
            },
        },
{
    match request_id {
        Some(id) => if is_zero(&id.0) {
            Err(
                Error::local(
                    ErrorCode::Validation,
                    ErrorClass::Request,
                    "request_id must be non-zero",
                ),
            )
        } else {
            Ok(id)
        },
        None => {
            let id = mint_id()?;
            Ok(RequestId(id))
        },
    }
}

/// The mutation identity that was given, or a new one. An identity of zeros is
/// refused.
pub fn resolve_operation_id(operation_id: Option<OperationId>) -> (r: Result<OperationId, Error>)
    ensures
        match operation_id {
            Some(id) => match r {
                Ok(v) => v == id && id.0@ != zero_id(),
                Err(e) => id.0@ == zero_id() && e@ == local_error(
                    ErrorCode::Validation,
                    ErrorClass::Request,
                    "operation_id must be non-zero"@,
                ),
            },
            None => match r {
                Ok(v) => v.0@ != zero_id(),
                Err(e) => identity_failure(e@),
            },
        },
{
    match operation_id {
        Some(id) => if is_zero(&id.0) {
            Err(
                Error::local(
                    ErrorCode::Validation,
                    ErrorClass::Request,
                    "operation_id must be non-zero",
                ),
            )
        } else {
            Ok(id)
        },
        None => {
            let id = mint_id()?;
            Ok(OperationId(id))
        },
    }
}

/// A mutation that is ready for the scheduler.
#[derive(Debug)]
pub struct Mutation {
    /// Request identity.
    pub request_id: RequestId,
    /// Mutation identity.
    pub operation_id: OperationId,
    /// Deadline.
    pub deadline: Option<u64>,
    /// Application key.
    pub key: String,
    /// Encoded value, where there is one.
    pub body: Option<Vec<u8>>,
    /// What must hold of the key.
    pub condition: WriteCondition,
    /// Hash of the content.
    pub content_hash: [u8; 32],
}

/// An identity of a request is the one that was given, or new.
pub open spec fn request_resolved(given: Option<RequestId>, id: RequestId) -> bool {
    &&& id.0@ != zero_id()
    &&& given is Some ==> id == given->0
}

/// An identity of a mutation is the one that was given, or new.
pub open spec fn operation_resolved(given: Option<OperationId>, id: OperationId) -> bool {
    &&& id.0@ != zero_id()
    &&& given is Some ==> id == given->0
}

/// The identities of a context are not settled: one is of zeros, or one that
/// was not given could not be made up. The request identity comes first.
pub open spec fn context_unresolved(context: OperationContext, e: ErrorView) -> bool {
    if context.request_id matches Some(id) && id.0@ == zero_id() {
        e == local_error(
            ErrorCode::Validation,
            ErrorClass::Request,
            "request_id must be non-zero"@,
        )
    } else {
        ||| context.request_id is None && identity_failure(e)
        ||| match context.operation_id {
            Some(id) => id.0@ == zero_id() && e == local_error(
                ErrorCode::Validation,
                ErrorClass::Request,
                "operation_id must be non-zero"@,
            ),
            None => identity_failure(e),
        }
    }
}

/// A mutation is prepared: it carries the key, the body, the condition and the
/// deadline that it was given, identities that stand, and the hash of its
/// content. It is refused only where its identities are not settled.
pub open spec fn prepared(
    r: Result<Mutation, Error>,
    heap_id: HeapId,
    collection_id: CollectionId,
    key: String,
    body: Option<Vec<u8>>,
    condition: WriteCondition,
    context: OperationContext,
    domain: Seq<char>,
    fields: Seq<Seq<u8>>,
) -> bool {
    match r {
        Ok(m) => {
            &&& m.key == key
            &&& m.body == body
            &&& m.condition == condition
            &&& m.deadline == context.deadline
            &&& request_resolved(context.request_id, m.request_id)
            &&& operation_resolved(context.operation_id, m.operation_id)
            &&& m.content_hash@ == blake3_digest(
                frames(
                    mutation_fields(
                        vstd::utf8::encode_utf8(domain),
                        heap_id.0@,
                        collection_id.0@,
                        vstd::utf8::encode_utf8(key@),
                        fields,
                    ),
                ),
            )
        },
        Err(e) => context_unresolved(context, e@),
    }
}

/// A write is prepared, or refused because its value does not encode. The hash
/// covers the body and what else is named.
pub open spec fn write_prepared(
    r: Result<Mutation, Error>,
    heap_id: HeapId,
    collection_id: CollectionId,
    key: String,
    encoded: Result<Vec<u8>, String>,
    condition: WriteCondition,
    context: OperationContext,
    domain: Seq<char>,
    more: Seq<Seq<u8>>,
) -> bool {
    match encoded {
        Err(m) => r is Err && r->Err_0@ == local_error(
            ErrorCode::Validation,
            ErrorClass::Request,
            m@,
        ),
        Ok(body) => prepared(
            r,
            heap_id,
            collection_id,
            key,
            Some(body),
            condition,
            context,
            domain,
            seq![body@] + more,
        ),
    }
}

/// Prepares a put.
pub fn put_request(
    heap_id: HeapId,
    collection_id: CollectionId,
    key: String,
    encoded: Result<Vec<u8>, String>,
    options: &PutOptions,
) -> (r: Result<Mutation, Error>)
    ensures
        write_prepared(
            r,
            heap_id,
            collection_id,
            key,
            encoded,
            WriteCondition::Unconditional,
            options.context,
            "put-v1"@,
            Seq::empty(),
        ),
        put_given(r, heap_id, collection_id, key, encoded, *options),
        r is Ok ==> r->Ok_0.condition == WriteCondition::Unconditional,
{
    let body = match encoded {
        Ok(b) => b,
        Err(m) => {
            return Err(Error::local(ErrorCode::Validation, ErrorClass::Request, m.as_str()));
        },
    };
    let request_id = resolve_request_id(options.context.request_id)?;
    let operation_id = resolve_operation_id(options.context.operation_id)?;
    let mut domain: Vec<u8> = Vec::new();
    push_text(&mut domain, "put-v1");
    let mut fields: Vec<Vec<u8>> = Vec::new();
    fields.push(crate::covered_reads::copy_bytes(body.as_slice()));
    proof {
        assert(domain@ =~= vstd::utf8::encode_utf8("put-v1"@));
        assert(field_views(fields@) =~= seq![body@] + Seq::<Seq<u8>>::empty());
    }
    let content_hash = canonical_mutation_hash(
        domain.as_slice(),
        heap_id,
        collection_id,
        key.as_str().as_bytes(),
        &fields,
    );
    Ok(
        Mutation {
            request_id,
            operation_id,
            deadline: options.context.deadline,
            key,
            body: Some(body),
            condition: WriteCondition::Unconditional,
            content_hash,
        },
    )
}

/// Prepares a conditional write of the given kind.
pub fn write_request(
    heap_id: HeapId,
    collection_id: CollectionId,
    key: String,
    encoded: Result<Vec<u8>, String>,
    context: &OperationContext,
    condition: WriteCondition,
    domain_text: &str,
) -> (r: Result<Mutation, Error>)
    ensures
        write_prepared(
            r,
            heap_id,
            collection_id,
            key,
            encoded,
            condition,
            *context,
            domain_text@,
            seq![condition_bytes(condition)],
        ),
        r is Ok ==> r->Ok_0.condition == condition,
{
    let body = match encoded {
        Ok(b) => b,
        Err(m) => {
            return Err(Error::local(ErrorCode::Validation, ErrorClass::Request, m.as_str()));
        },
    };
    let request_id = resolve_request_id(context.request_id)?;
    let operation_id = resolve_operation_id(context.operation_id)?;
    let mut domain: Vec<u8> = Vec::new();
    push_text(&mut domain, domain_text);
    let mut fields: Vec<Vec<u8>> = Vec::new();
    fields.push(crate::covered_reads::copy_bytes(body.as_slice()));
    fields.push(write_condition_bytes(&condition));
    proof {
        assert(domain@ =~= vstd::utf8::encode_utf8(domain_text@));
        assert(field_views(fields@) =~= seq![body@] + seq![condition_bytes(condition)]);
    }
    let content_hash = canonical_mutation_hash(
        domain.as_slice(),
        heap_id,
        collection_id,
        key.as_str().as_bytes(),
        &fields,
    );
    Ok(
        Mutation {
            request_id,
            operation_id,
            deadline: context.deadline,
            key,
            body: Some(body),
            condition,
            content_hash,
        },
    )
}

/// Condition and kind of a create.
pub const CREATE_DOMAIN: &'static str = "create-absent-v1";

/// Kind of a replace.
pub const REPLACE_DOMAIN: &'static str = "replace-version-v1";

/// Prepares a create: the key has to be absent.
pub fn create_request(
    heap_id: HeapId,
    collection_id: CollectionId,
    key: String,
    encoded: Result<Vec<u8>, String>,
    options: &CreateOptions,
) -> (r: Result<Mutation, Error>)
    ensures
        write_prepared(
            r,
            heap_id,
            collection_id,
            key,
            encoded,
            WriteCondition::Absent,
            options.context,
            CREATE_DOMAIN@,
            seq![condition_bytes(WriteCondition::Absent)],
        ),
        create_given(r, heap_id, collection_id, key, encoded, *options),
        r is Ok ==> r->Ok_0.condition == WriteCondition::Absent,
{
    write_request(
        heap_id,
        collection_id,
        key,
        encoded,
        &options.context,
        WriteCondition::Absent,
        CREATE_DOMAIN,
    )
}

/// Prepares a replace: the given version has to be live.
pub fn replace_request(
    heap_id: HeapId,
    collection_id: CollectionId,
    key: String,
    encoded: Result<Vec<u8>, String>,
    options: &ReplaceOptions,
) -> (r: Result<Mutation, Error>)
    ensures
        write_prepared(
            r,
            heap_id,
            collection_id,
            key,
            encoded,
            WriteCondition::LiveEventId(options.if_version),
            options.context,
            REPLACE_DOMAIN@,
            seq![condition_bytes(WriteCondition::LiveEventId(options.if_version))],
        ),
        replace_given(r, heap_id, collection_id, key, encoded, *options),
        r is Ok ==> r->Ok_0.condition == WriteCondition::LiveEventId(options.if_version),
{
    write_request(
        heap_id,
        collection_id,
        key,
        encoded,
        &options.context,
        WriteCondition::LiveEventId(options.if_version),
        REPLACE_DOMAIN,
    )
}

/// What a delete demands of the key.
pub open spec fn delete_condition(if_version: Option<[u8; 16]>) -> WriteCondition {
    match if_version {
        Some(v) => WriteCondition::LiveEventId(v),
        None => WriteCondition::Present,
    }
}

/// Prepares a delete of a key that has to be there.
pub fn delete_request(
    heap_id: HeapId,
    collection_id: CollectionId,
    key: String,
    options: &DeleteOptions,
) -> (r: Result<Mutation, Error>)
    ensures
        if !options.if_present {
            r is Err && r->Err_0@ == local_error(
                ErrorCode::Validation,
                ErrorClass::Request,
                "embedded v1 requires delete if_present=true for replay-stable receipts"@,
            )
        } else {
            prepared(
                r,
                heap_id,
                collection_id,
                key,
                None,
                delete_condition(options.if_version),
                options.context,
                "delete-present-v1"@,
                seq![condition_bytes(delete_condition(options.if_version))],
            )
        },
        delete_given(r, heap_id, collection_id, key, *options),
        r is Ok && options.if_version is Some ==> r->Ok_0.condition == WriteCondition::LiveEventId(
            options.if_version->0,
        ),
        r is Ok && options.if_version is None ==> r->Ok_0.condition == WriteCondition::Present,
{
    if !options.if_present {
        return Err(
            Error::local(
                ErrorCode::Validation,
                ErrorClass::Request,
                "embedded v1 requires delete if_present=true for replay-stable receipts",
            ),
        );
    }
    let request_id = resolve_request_id(options.context.request_id)?;
    let operation_id = resolve_operation_id(options.context.operation_id)?;
    let condition = match options.if_version {
        Some(v) => WriteCondition::LiveEventId(v),
        None => WriteCondition::Present,
    };
    let mut domain: Vec<u8> = Vec::new();
    push_text(&mut domain, "delete-present-v1");
    let mut fields: Vec<Vec<u8>> = Vec::new();
    fields.push(write_condition_bytes(&condition));
    proof {
        assert(domain@ =~= vstd::utf8::encode_utf8("delete-present-v1"@));
        assert(field_views(fields@) =~= seq![condition_bytes(condition)]);
    }
    let content_hash = canonical_mutation_hash(
        domain.as_slice(),
        heap_id,
        collection_id,
        key.as_str().as_bytes(),
        &fields,
    );
    Ok(
        Mutation {
            request_id,
            operation_id,
            deadline: options.context.deadline,
            key,
            body: None,
            condition,
            content_hash,
        },
    )
}

/// Refuses a scan with a page size out of bounds or with a mutation identity.
pub fn check_scan(options: &ScanOptions) -> (r: Result<(), Error>)
    ensures
        match r {
            Ok(_) => 1 <= options.page_size <= MAX_SCAN_PAGE_SIZE && options.context.operation_id
                is None,
            Err(e) => if options.page_size < 1 || options.page_size > MAX_SCAN_PAGE_SIZE {
                e@ == local_error(
                    ErrorCode::Validation,
                    ErrorClass::Request,
                    "scan page_size must be between 1 and 1000"@,
                )
            } else {
                options.context.operation_id is Some && e@ == local_error(
                    ErrorCode::Validation,
                    ErrorClass::Request,
                    "scan reads do not accept operation_id"@,
                )
            },
        },
{
    if options.page_size < 1 || options.page_size > MAX_SCAN_PAGE_SIZE {
        return Err(
            Error::local(
                ErrorCode::Validation,
                ErrorClass::Request,
                "scan page_size must be between 1 and 1000",
            ),
        );
    }
    if options.context.operation_id.is_some() {
        return Err(
            Error::local(
                ErrorCode::Validation,
                ErrorClass::Request,
                "scan reads do not accept operation_id",
            ),
        );
    }
    Ok(())
}

/// A scan that is ready for the scheduler.
#[derive(Debug)]
pub struct ScanRequest {
    /// Request identity.
    pub request_id: RequestId,
    /// Deadline.
    pub deadline: Option<u64>,
    /// Key that the page stands behind.
    pub after_key: Option<Vec<u8>>,
    /// Rows in the page.
    pub page_size: usize,
}

/// Prepares a scan. `kind` is the store's code for collections.
pub fn scan_request(collection: &HeapCollection, kind: ObjectKind, options: &ScanOptions) -> (r:
    Result<ScanRequest, Error>)
    ensures
        match r {
            Ok(q) => 1 <= options.page_size <= MAX_SCAN_PAGE_SIZE && options.context.operation_id
                is None && q.page_size == options.page_size && q.deadline
                == options.context.deadline && request_resolved(
                options.context.request_id,
                q.request_id,
            ) && (match options.continuation {
                Some(c) => cursor_refused(c.0@, collection.cap, kind, collection.id@) is None
                    && q.after_key is Some && q.after_key->0@ == c.0@.position,
                None => q.after_key is None,
            }),
            Err(e) => if options.page_size < 1 || options.page_size > MAX_SCAN_PAGE_SIZE {
                e@ == local_error(
                    ErrorCode::Validation,
                    ErrorClass::Request,
                    "scan page_size must be between 1 and 1000"@,
                )
            } else if options.context.operation_id is Some {
                e@ == local_error(
                    ErrorCode::Validation,
                    ErrorClass::Request,
                    "scan reads do not accept operation_id"@,
                )
            } else if options.context.request_id matches Some(id) && id.0@ == zero_id() {
                e@ == local_error(
                    ErrorCode::Validation,
                    ErrorClass::Request,
                    "request_id must be non-zero"@,
                )
            } else if options.context.request_id is Some {
                options.continuation matches Some(c) && (cursor_refused(
                    c.0@,
                    collection.cap,
                    kind,
                    collection.id@,
                ) matches Some(x) && e@ == sdk_error(x, options.context.request_id->0, None))
            } else {
                identity_failure(e@) || (options.continuation matches Some(c) && (
                cursor_refused(c.0@, collection.cap, kind, collection.id@) matches Some(x)
                    && e@.request_id matches Some(id) && e@ == sdk_error(x, id, None)))
            },
        },
{
    check_scan(options)?;
    let request_id = resolve_request_id(options.context.request_id)?;
    let after_key = match &options.continuation {
        Some(c) => match collection.verify_cursor(kind, &c.0) {
            Ok(_) => Some(crate::covered_reads::copy_bytes(c.0.position())),
            Err(e) => {
                return Err(Error::from_sdk(e, request_id, None));
            },
        },
        None => None,
    };
    Ok(
        ScanRequest {
            request_id,
            deadline: options.context.deadline,
            after_key,
            page_size: options.page_size,
        },
    )
}

/// The text that bytes spell, with a replacement for what is not UTF-8.
pub uninterp spec fn lossy_text(bytes: Seq<u8>) -> Seq<char>;

/// `String::from_utf8_lossy`: the text that bytes spell, with replacement
/// characters where they are not UTF-8. The result is named `lossy_text`;
/// bytes that are UTF-8 are taken as they are.
#[verifier::external_body]
fn read_lossy(bytes: &[u8]) -> (r: String)
    ensures
        r@ == lossy_text(bytes@),
        utf8_in(bytes@) is Some ==> r@ == utf8_in(bytes@)->0,
{
    String::from_utf8_lossy(bytes).into_owned()
}

/// A row as the store gives it, with its body decoded.
#[derive(Debug)]
pub struct RawRow<T> {
    /// Key bytes.
    pub key: Vec<u8>,
    /// The value, or why the body does not decode.
    pub decoded: Result<T, SdkError>,
    /// Version.
    pub version: [u8; 16],
}

/// A page as the store gives it.
#[derive(Debug)]
pub struct RawPage<T> {
    /// Rows.
    pub entries: Vec<RawRow<T>>,
    /// Key bytes of holes with their reasons.
    pub incomplete: Vec<(Vec<u8>, String)>,
    /// Keys examined.
    pub examined: usize,
    /// Whether no key is incomplete.
    pub complete: bool,
    /// Whether there is more.
    pub has_more: bool,
    /// Last key of the page.
    pub last_key: Option<Vec<u8>>,
}

/// Model of a [`ScanRow`].
#[verifier::ext_equal]
pub struct ScanRowView<T> {
    pub key: Seq<char>,
    pub value: T,
    pub version: [u8; 16],
}

/// The models of rows.
pub open spec fn scan_rows<T>(v: Seq<ScanRow<T>>) -> Seq<ScanRowView<T>> {
    v.map_values(|r: ScanRow<T>| ScanRowView { key: r.key@, value: r.value, version: r.version })
}

/// The models of holes.
pub open spec fn scan_holes(v: Seq<ScanHole>) -> Seq<(Seq<char>, Seq<char>)> {
    v.map_values(|h: ScanHole| (h.key@, h.reason@))
}

/// A row as it leaves the store, or why it does not.
pub open spec fn typed_row<T>(row: RawRow<T>) -> Result<ScanRowView<T>, SdkErrorView> {
    match utf8_in(row.key@) {
        None => Err(SdkErrorView::Internal("scan returned a non-UTF-8 application key"@)),
        Some(key) => match row.decoded {
            Err(e) => Err(e@),
            Ok(value) => Ok(ScanRowView { key, value, version: row.version }),
        },
    }
}

/// The rows of a page; the first that does not read refuses the page.
pub open spec fn typed_rows<T>(entries: Seq<RawRow<T>>) -> Result<
    Seq<ScanRowView<T>>,
    SdkErrorView,
>
    decreases entries.len(),
{
    if entries.len() == 0 {
        Ok(Seq::empty())
    } else {
        match typed_rows(entries.drop_last()) {
            Err(e) => Err(e),
            Ok(rows) => match typed_row(entries.last()) {
                Err(e) => Err(e),
                Ok(row) => Ok(rows.push(row)),
            },
        }
    }
}

proof fn lemma_rows_refused<T>(entries: Seq<RawRow<T>>, n: int)
    requires
        0 <= n <= entries.len(),
        typed_rows(entries.take(n)) is Err,
    ensures
        typed_rows(entries) == typed_rows(entries.take(n)),
    decreases entries.len(),
{
    if n < entries.len() {
        assert(entries.drop_last().take(n) =~= entries.take(n));
        lemma_rows_refused(entries.drop_last(), n);
    } else {
        assert(entries.take(n) =~= entries);
    }
}

fn type_rows<T>(entries: Vec<RawRow<T>>) -> (r: Result<Vec<ScanRow<T>>, SdkError>)
    ensures
        match r {
            Ok(rows) => typed_rows(entries@) == Ok::<Seq<ScanRowView<T>>, SdkErrorView>(
                scan_rows(rows@),
            ),
            Err(e) => typed_rows(entries@) == Err::<Seq<ScanRowView<T>>, SdkErrorView>(e@),
        },
{
    let ghost all = entries@;
    let mut rest = queue_of(entries);
    let mut rows: Vec<ScanRow<T>> = Vec::new();
    let ghost mut i: int = 0;
    proof {
        assert(all.take(0) =~= Seq::empty());
        assert(scan_rows(rows@) =~= Seq::empty());
    }
    while rest.len() > 0
        invariant
            all == entries@,
            0 <= i <= all.len(),
            rest@ =~= all.skip(i),
            typed_rows(all.take(i)) == Ok::<Seq<ScanRowView<T>>, SdkErrorView>(scan_rows(rows@)),
        decreases rest@.len(),
    {
        if let Some(row) = rest.pop_front() {
            proof {
                assert(row == all[i]);
                assert(all.take(i + 1).drop_last() =~= all.take(i));
                assert(all.take(i + 1).last() == row);
            }
            let ghost before = scan_rows(rows@);
            let key = match read_utf8(row.key.as_slice()) {
                Some(k) => k,
                None => {
                    proof {
                        lemma_rows_refused(all, i + 1);
                    }
                    return Err(
                        SdkError::Internal(
                            "scan returned a non-UTF-8 application key".to_string(),
                        ),
                    );
                },
            };
            let value = match row.decoded {
                Ok(v) => v,
                Err(e) => {
                    proof {
                        lemma_rows_refused(all, i + 1);
                    }
                    return Err(e);
                },
            };
            rows.push(ScanRow { key, value, version: row.version });
            proof {
                assert(scan_rows(rows@) =~= before.push(
                    ScanRowView { key: key@, value, version: row.version },
                ));
                i = i + 1;
            }
        }
    }
    proof {
        assert(all.take(all.len() as int) =~= all);
    }
    Ok(rows)
}

fn type_holes(raw: Vec<(Vec<u8>, String)>) -> (r: Vec<ScanHole>)
    ensures
        scan_holes(r@) == raw@.map_values(|h: (Vec<u8>, String)| (lossy_text(h.0@), h.1@)),
{
    let ghost all = raw@;
    let mut rest = queue_of(raw);
    let mut out: Vec<ScanHole> = Vec::new();
    let ghost mut i: int = 0;
    while rest.len() > 0
        invariant
            all == raw@,
            0 <= i <= all.len(),
            rest@ =~= all.skip(i),
            scan_holes(out@) =~= all.take(i).map_values(
                |h: (Vec<u8>, String)| (lossy_text(h.0@), h.1@),
            ),
        decreases rest@.len(),
    {
        if let Some(h) = rest.pop_front() {
            let ghost before = scan_holes(out@);
            out.push(ScanHole { key: read_lossy(h.0.as_slice()), reason: h.1 });
            proof {
                assert(h == all[i]);
                assert(scan_holes(out@) =~= before.push((lossy_text(h.0@), h.1@)));
                i = i + 1;
            }
        }
    }
    proof {
        assert(all.take(i) =~= all);
    }
    out
}

/// Turns a raw page into a typed one. The continuation is signed for the
/// collection and stands at the last key.
pub fn scan_page<T>(collection: &HeapCollection, kind: ObjectKind, raw: RawPage<T>) -> (r: Result<
    ScanPage<T>,
    SdkError,
>)
    ensures
        match r {
            Err(e) => typed_rows(raw.entries@) == Err::<Seq<ScanRowView<T>>, SdkErrorView>(e@),
            Ok(p) => typed_rows(raw.entries@) == Ok::<Seq<ScanRowView<T>>, SdkErrorView>(
                scan_rows(p.rows@),
            ) && scan_holes(p.incomplete@) == raw.incomplete@.map_values(
                |h: (Vec<u8>, String)| (lossy_text(h.0@), h.1@),
            ) && p.examined == raw.examined && p.complete == raw.complete && (match p.continuation {
                Some(c) => raw.has_more && (raw.last_key matches Some(k) && c.0@ == signed(
                    collection.cap,
                    kind,
                    collection.id@,
                    k@,
                )),
                None => !raw.has_more || raw.last_key is None,
            }),
        },
{
    let rows = type_rows(raw.entries)?;
    let incomplete = type_holes(raw.incomplete);
    let continuation = if raw.has_more {
        match &raw.last_key {
            Some(k) => Some(ScanContinuation(collection.sign_cursor(kind, k.as_slice()))),
            None => None,
        }
    } else {
        None
    };
    Ok(
        ScanPage {
            rows,
            incomplete,
            examined: raw.examined,
            complete: raw.complete,
            continuation,
        },
    )
}

/// The continuation of a page is accepted by the collection that made it, and
/// the next page stands behind the last key of this one.
pub proof fn law_continuation_resumes(cap: crate::heap::HeapCap, kind: ObjectKind, id: Seq<u8>, last_key: Seq<u8>)
    ensures
        cursor_refused(signed(cap, kind, id, last_key), cap, kind, id) is None,
        signed(cap, kind, id, last_key).position == last_key,
{
}

} // verus!
