//! Application surface (`residiuum-rust-app-v1`): options, evidence and handles.
use crate::error::{Error, ErrorView};
use crate::json::{Json, JsonMap, JsonView};
use vstd::prelude::*;

verus! {

/// Profile label for the public application façade.
pub const RUST_APP_PROFILE: &'static str = "residiuum-rust-app-v1";

/// Application Core source profile.
pub const RQL_APP_CORE_PROFILE: &'static str = "rql-app-core-v1";

/// Canonical logical plan profile.
pub const RQL_PLAN_PROFILE: &'static str = "rql-plan-v1";

/// Authenticated continuation profile.
pub const CURSOR_PROFILE: &'static str = "residiuum-cursor-v1";

/// Shared predicate profile.
pub const PREDICATE_PROFILE: &'static str = "residiuum-predicate-v1";

/// Profile of the Full language.
pub const RQL_FULL_PROFILE: &'static str = "rql-full-v1";

/// Profile of randomly generated keys.
pub const KEY_PROFILE_RANDOM_V1: &'static str = "residiuum-key-random-v1";

/// How many generated keys an add tries.
pub const ADD_KEY_MINT_ATTEMPTS: usize = 8;

/// Heap id.
#[derive(Debug, Clone, Copy, PartialEq, Eq)]
pub struct HeapId(pub [u8; 16]);

/// Collection id.
#[derive(Debug, Clone, Copy, PartialEq, Eq)]
pub struct CollectionId(pub [u8; 16]);

/// Opaque authenticated continuation (`residiuum-cursor-v1`).
#[derive(Debug, PartialEq, Eq)]
pub struct Continuation {
    /// Opaque token bytes (never log).
    pub token: Vec<u8>,
}

/// How a key is generated for an add.
#[derive(Debug, Clone, Copy, PartialEq, Eq, Structural)]
pub enum KeyProfile {
    /// Sixteen random bytes in hexadecimal.
    RandomV1,
}

impl Default for KeyProfile {
    fn default() -> (r: KeyProfile)
        ensures
            r == KeyProfile::RandomV1,
    {
        KeyProfile::RandomV1
    }
}

impl KeyProfile {
    /// Profile label.
    pub fn as_str(self) -> (r: &'static str)
        ensures
            r@ == KEY_PROFILE_RANDOM_V1@,
    {
        match self {
            KeyProfile::RandomV1 => KEY_PROFILE_RANDOM_V1,
        }
    }

    /// The key that random bytes give.
    pub fn key_of(self, random: &[u8; 16]) -> (r: String)
        ensures
            r@ == crate::codec::hex_text(random@),
    {
        match self {
            KeyProfile::RandomV1 => crate::codec::hex_of(random.as_slice()),
        }
    }
}

/// Options of a collection create.
#[derive(Debug, Clone, Copy, PartialEq, Eq)]
pub struct CreateCollectionOptions {
    /// Client operation id, the idempotency key.
    pub operation_id: Option<[u8; 16]>,
}

impl Default for CreateCollectionOptions {
    fn default() -> (r: CreateCollectionOptions)
        ensures
            r.operation_id is None,
    {
        CreateCollectionOptions { operation_id: None }
    }
}

/// Options of a replace.
#[derive(Debug, Clone, Copy, PartialEq, Eq)]
pub struct ReplaceOptions {
    /// The version that must be live.
    pub if_version: [u8; 16],
}

/// Options of a delete.
#[derive(Debug, Clone, Copy, PartialEq, Eq)]
pub struct DeleteWithOptions {
    /// The version that must be live.
    pub if_version: Option<[u8; 16]>,
    /// Whether the key must be present.
    pub if_present: bool,
}

impl Default for DeleteWithOptions {
    fn default() -> (r: DeleteWithOptions)
        ensures
            r.if_version is None,
            !r.if_present,
    {
        DeleteWithOptions { if_version: None, if_present: false }
    }
}

/// Administrative operations that leave a receipt.
#[derive(Debug, Clone, Copy, PartialEq, Eq, Structural)]
pub enum AdminOperation {
    /// A collection was created.
    CreateCollection,
}

/// Query id.
#[derive(Debug, Clone, Copy, PartialEq, Eq, Hash)]
pub struct QueryId(pub [u8; 16]);

/// Named parameters of a query.
#[derive(Debug)]
pub struct Parameters {
    /// The values by name.
    pub values: JsonMap,
}

impl Default for Parameters {
    fn default() -> (r: Parameters)
        ensures
            r.values@ == Seq::<(Seq<char>, JsonView)>::empty(),
    {
        Parameters { values: JsonMap::new() }
    }
}

/// What a query may leave out.
#[derive(Debug, Clone, Copy, PartialEq, Eq, Structural)]
pub enum CoveragePolicy {
    /// Nothing.
    Complete,
    /// What cannot be read, with evidence.
    IncompleteAllowed,
}

/// How fresh a read has to be.
#[derive(Debug, Clone, Copy, PartialEq, Eq, Structural)]
pub enum ConsistencyMode {
    /// Whatever is available.
    Available,
    /// Current.
    Current,
}

/// Limits on a query.
#[derive(Debug, Clone, Copy, PartialEq, Eq, Structural)]
pub struct QueryBudget {
    /// Most documents examined.
    pub max_documents: Option<u64>,
    /// Most bytes examined.
    pub max_bytes: Option<u64>,
    /// Most bytes of results.
    pub max_result_bytes: Option<u64>,
}

impl QueryBudget {
    /// A limit on documents alone.
    pub fn documents(max_documents: u64) -> (r: QueryBudget)
        ensures
            r == (QueryBudget {
                max_documents: Some(max_documents),
                max_bytes: None,
                max_result_bytes: None,
            }),
    {
        QueryBudget { max_documents: Some(max_documents), max_bytes: None, max_result_bytes: None }
    }
}

/// Options of a query run.
#[derive(Debug)]
pub struct QueryRunOptions {
    /// Rows per page.
    pub page_size: Option<u32>,
    /// What may be left out.
    pub coverage: CoveragePolicy,
    /// How fresh the read has to be.
    pub consistency: ConsistencyMode,
    /// Limits.
    pub budget: Option<QueryBudget>,
    /// Explain instead of running.
    pub explain: bool,
    /// Where to go on.
    pub after: Option<Continuation>,
    /// Deadline in nanoseconds.
    pub deadline: Option<u64>,
    /// Cancellation.
    pub cancel: Option<crate::filter::CancelToken>,
    /// Whether to measure.
    pub diagnostics: bool,
}

impl Default for QueryRunOptions {
    fn default() -> (r: QueryRunOptions)
        ensures
            r.page_size is None,
            r.coverage == CoveragePolicy::Complete,
            r.consistency == ConsistencyMode::Available,
            r.budget is None,
            !r.explain,
            r.after is None,
            r.deadline is None,
            r.cancel is None,
            !r.diagnostics,
    {
        QueryRunOptions {
            page_size: None,
            coverage: CoveragePolicy::Complete,
            consistency: ConsistencyMode::Available,
            budget: None,
            explain: false,
            after: None,
            deadline: None,
            cancel: None,
            diagnostics: false,
        }
    }
}

/// Where the time of a query went, in nanoseconds.
#[derive(Debug, Clone, Copy, PartialEq, Eq, Structural)]
pub struct QueryDiagnostics {
    /// Compiling.
    pub compile_ns: u64,
    /// Lowering.
    pub lower_ns: u64,
    /// Decoding.
    pub decode_ns: u64,
    /// Verifying.
    pub verify_ns: u64,
    /// Binding.
    pub bind_ns: u64,
    /// Index lookups.
    pub index_ns: u64,
    /// Scanning.
    pub scan_ns: u64,
    /// Filtering.
    pub filter_ns: u64,
    /// Ordering.
    pub order_ns: u64,
    /// Paging.
    pub page_ns: u64,
    /// Projecting.
    pub project_ns: u64,
    /// Attaching.
    pub attach_ns: u64,
    /// Host reads.
    pub host_read_ns: u64,
    /// Counting bytes.
    pub byte_account_ns: u64,
    /// Number of host reads.
    pub host_read_calls: u64,
}

impl Default for QueryDiagnostics {
    fn default() -> (r: QueryDiagnostics)
        ensures
            r == (QueryDiagnostics {
                compile_ns: 0,
                lower_ns: 0,
                decode_ns: 0,
                verify_ns: 0,
                bind_ns: 0,
                index_ns: 0,
                scan_ns: 0,
                filter_ns: 0,
                order_ns: 0,
                page_ns: 0,
                project_ns: 0,
                attach_ns: 0,
                host_read_ns: 0,
                byte_account_ns: 0,
                host_read_calls: 0,
            }),
    {
        QueryDiagnostics {
            compile_ns: 0,
            lower_ns: 0,
            decode_ns: 0,
            verify_ns: 0,
            bind_ns: 0,
            index_ns: 0,
            scan_ns: 0,
            filter_ns: 0,
            order_ns: 0,
            page_ns: 0,
            project_ns: 0,
            attach_ns: 0,
            host_read_ns: 0,
            byte_account_ns: 0,
            host_read_calls: 0,
        }
    }
}

/// What a result covers.
#[derive(Debug, Clone, Copy, PartialEq, Eq, Structural)]
pub struct CoverageEvidence {
    /// Whether nothing was left out.
    pub complete: bool,
    /// The policy.
    pub mode: CoveragePolicy,
    /// Documents examined.
    pub examined_documents: u64,
    /// Documents that could not be read.
    pub hole_count: u32,
}

impl CoverageEvidence {
    /// Nothing was left out.
    pub fn complete(mode: CoveragePolicy, examined_documents: u64) -> (r: CoverageEvidence)
        ensures
            r == (CoverageEvidence { complete: true, mode, examined_documents, hole_count: 0 }),
    {
        CoverageEvidence { complete: true, mode, examined_documents, hole_count: 0 }
    }

    /// Something was left out.
    pub fn incomplete(mode: CoveragePolicy, examined_documents: u64, hole_count: u32) -> (r:
        CoverageEvidence)
        ensures
            r == (CoverageEvidence { complete: false, mode, examined_documents, hole_count }),
    {
        CoverageEvidence { complete: false, mode, examined_documents, hole_count }
    }
}

/// How fresh a result is.
#[derive(Debug, Clone, Copy, PartialEq, Eq, Structural)]
pub struct ConsistencyEvidence {
    /// The mode.
    pub mode: ConsistencyMode,
}

/// A document that could not be read.
#[derive(Debug, PartialEq, Eq)]
pub struct HoleEvidence {
    /// Why.
    pub code: String,
    /// Its key, where it is known.
    pub key: Option<String>,
}

/// Model of a [`HoleEvidence`].
#[verifier::ext_equal]
pub struct HoleView {
    pub code: Seq<char>,
    pub key: Option<Seq<char>>,
}

/// An optional text by its model.
pub open spec fn optional_text(t: Option<String>) -> Option<Seq<char>> {
    match t {
        Some(s) => Some(s@),
        None => None,
    }
}

impl View for HoleEvidence {
    type V = HoleView;

    open spec fn view(&self) -> HoleView {
        HoleView { code: self.code@, key: optional_text(self.key) }
    }
}

/// The models of a list of holes.
pub open spec fn hole_views(v: Seq<HoleEvidence>) -> Seq<HoleView> {
    v.map_values(|h: HoleEvidence| h@)
}

/// One row of a result.
#[derive(Debug, PartialEq)]
pub struct QueryRow {
    /// Key.
    pub key: String,
    /// Document.
    pub value: Json,
}

impl View for QueryRow {
    type V = (Seq<char>, JsonView);

    open spec fn view(&self) -> (Seq<char>, JsonView) {
        (self.key@, self.value@)
    }
}

/// The models of a list of rows.
pub open spec fn query_rows(v: Seq<QueryRow>) -> Seq<(Seq<char>, JsonView)> {
    v.map_values(|r: QueryRow| r@)
}

/// One page of a query.
#[derive(Debug)]
pub struct QueryPage {
    /// Query id.
    pub query_id: QueryId,
    /// Hash of the plan.
    pub plan_hash: [u8; 32],
    /// Heap id.
    pub heap_id: HeapId,
    /// Collection id.
    pub collection_id: CollectionId,
    /// Rows.
    pub rows: Vec<QueryRow>,
    /// Where to go on.
    pub next: Option<Continuation>,
    /// Whether there is no more.
    pub exhausted: bool,
    /// What the page covers.
    pub coverage: CoverageEvidence,
    /// How fresh it is.
    pub consistency: ConsistencyEvidence,
    /// What is left of the limit.
    pub remaining_limit: Option<u64>,
    /// What could not be read.
    pub known_holes: Vec<HoleEvidence>,
    /// Bytes examined.
    pub logical_bytes_examined: u64,
    /// Measurements.
    pub diagnostics: Option<QueryDiagnostics>,
}

/// Model of a [`QueryPage`].
#[verifier::ext_equal]
pub struct QueryPageView {
    pub query_id: Seq<u8>,
    pub plan_hash: Seq<u8>,
    pub heap_id: Seq<u8>,
    pub collection_id: Seq<u8>,
    pub rows: Seq<(Seq<char>, JsonView)>,
    pub next: Option<Seq<u8>>,
    pub exhausted: bool,
    pub coverage: CoverageEvidence,
    pub consistency: ConsistencyEvidence,
    pub remaining_limit: Option<u64>,
    pub known_holes: Seq<HoleView>,
    pub logical_bytes_examined: u64,
    pub diagnostics: Option<QueryDiagnostics>,
}

impl View for QueryPage {
    type V = QueryPageView;

    open spec fn view(&self) -> QueryPageView {
        QueryPageView {
            query_id: self.query_id.0@,
            plan_hash: self.plan_hash@,
            heap_id: self.heap_id.0@,
            collection_id: self.collection_id.0@,
            rows: query_rows(self.rows@),
            next: match self.next {
                Some(c) => Some(c.token@),
                None => None,
            },
            exhausted: self.exhausted,
            coverage: self.coverage,
            consistency: self.consistency,
            remaining_limit: self.remaining_limit,
            known_holes: hole_views(self.known_holes@),
            logical_bytes_examined: self.logical_bytes_examined,
            diagnostics: self.diagnostics,
        }
    }
}

/// Options of a scan.
#[derive(Debug, PartialEq, Eq)]
pub struct ScanJsonOptions {
    /// Rows per page.
    pub limit: Option<u32>,
    /// Key to go on behind.
    pub after_key: Option<String>,
}

impl Default for ScanJsonOptions {
    fn default() -> (r: ScanJsonOptions)
        ensures
            r.limit is None,
            r.after_key is None,
    {
        ScanJsonOptions { limit: None, after_key: None }
    }
}

/// One page of a scan.
#[derive(Debug)]
pub struct ScanJsonPage {
    /// Heap id.
    pub heap_id: HeapId,
    /// Collection id.
    pub collection_id: CollectionId,
    /// Rows.
    pub rows: Vec<QueryRow>,
    /// Key to go on behind.
    pub next_after_key: Option<String>,
    /// Whether there is no more.
    pub exhausted: bool,
    /// What the page covers.
    pub coverage: CoverageEvidence,
    /// What could not be read.
    pub known_holes: Vec<HoleEvidence>,
}

/// Options of a find.
#[derive(Debug, Clone, Copy, PartialEq, Eq)]
pub struct FindJsonOptions {
    /// Most rows.
    pub limit: Option<u32>,
}

impl Default for FindJsonOptions {
    fn default() -> (r: FindJsonOptions)
        ensures
            r.limit is None,
    {
        FindJsonOptions { limit: None }
    }
}

/// What a collection is.
#[derive(Debug)]
pub struct CollectionInfo {
    /// Heap id.
    pub heap_id: HeapId,
    /// Collection id.
    pub collection_id: CollectionId,
    /// Canonical name.
    pub name: String,
    /// Hash of its descriptor; zeros where it is not known.
    pub descriptor_hash: [u8; 32],
}

/// How a write was acknowledged.
#[derive(Debug, Clone, Copy, PartialEq, Eq, Structural)]
pub enum DurabilityMode {
    /// On durable storage.
    Durable,
    /// Any other mode, by the store's code.
    Other(u8),
}

/// Receipt of a write.
#[derive(Debug, PartialEq, Eq)]
pub struct WriteReceipt {
    /// Key.
    pub key: String,
    /// Event that was written.
    pub event_id: [u8; 16],
    /// Version to name in a conditional write.
    pub version: [u8; 16],
    /// How it was acknowledged.
    pub acknowledgement: DurabilityMode,
    /// Whether it is committed.
    pub committed: bool,
    /// Store id.
    pub store_id: [u8; 16],
    /// Segment id.
    pub segment_id: [u8; 16],
}

/// Receipt of a delete.
#[derive(Debug, PartialEq, Eq)]
pub struct DeleteReceipt {
    /// Key.
    pub key: String,
    /// Whether something was removed.
    pub removed: bool,
    /// Event that was written.
    pub event_id: [u8; 16],
    /// Version of the delete.
    pub version: [u8; 16],
    /// How it was acknowledged.
    pub acknowledgement: DurabilityMode,
    /// Whether it is committed.
    pub committed: bool,
    /// Store id.
    pub store_id: [u8; 16],
    /// Segment id.
    pub segment_id: [u8; 16],
}

/// Result of an upsert.
#[derive(Debug, PartialEq, Eq)]
pub struct UpsertResult {
    /// Whether the key was new.
    pub inserted: bool,
    /// Receipt.
    pub receipt: WriteReceipt,
}

/// Result of an add.
#[derive(Debug, PartialEq, Eq)]
pub struct AddResult {
    /// The generated key.
    pub key: String,
    /// How it was generated.
    pub key_profile: &'static str,
    /// Receipt.
    pub receipt: WriteReceipt,
}

/// Sixteen zero bytes.
pub(crate) fn zero16() -> (r: [u8; 16])
    ensures
        r@ == Seq::new(16, |i: int| 0u8),
{
    let r: [u8; 16] = [0u8; 16];
    proof {
        assert(r@ =~= Seq::new(16, |i: int| 0u8));
    }
    r
}

/// What a handle talks to.
#[derive(Debug, Clone, Copy, PartialEq, Eq, Structural)]
pub enum Backend {
    /// Nothing yet.
    Unbound,
    /// A store in this process.
    Embedded,
    /// A server.
    Remote,
}

/// Handle on a heap.
#[derive(Debug)]
pub struct HeapClient {
    heap_id: HeapId,
    backend: Backend,
}

/// A collection create to be carried out.
#[derive(Debug)]
pub struct CreateRequest {
    /// Where.
    pub backend: Backend,
    /// Name.
    pub name: String,
    /// Idempotency key.
    pub operation_id: Option<[u8; 16]>,
}

/// Why an unbound heap handle cannot do anything.
pub const HEAP_UNBOUND: &'static str =
    "HeapClient unbound; construct with From<Heap|RemoteHeap> (APB-1)";

/// Why an unbound collection handle cannot do anything.
pub const COLLECTION_UNBOUND: &'static str = "CollectionClient unbound; open via HeapClient (APB-1)";

/// Why an unbound collection handle cannot write.
pub const PUT_UNBOUND: &'static str =
    "CollectionClient unbound; open via HeapClient::open_collection / create (APB-1)";

/// Why the indexes of an unbound collection handle cannot be managed.
pub const INDEX_UNBOUND: &'static str = "IndexManager unbound; open via HeapClient (APB-1)";

/// The backend of a bound handle; an unbound one is an error.
pub fn bound(backend: Backend, message: &str) -> (r: Result<Backend, Error>)
    ensures
        match r {
            Ok(b) => b == backend && backend != Backend::Unbound,
            Err(e) => backend == Backend::Unbound && e@ == ErrorView::Internal(message@),
        },
{
    match backend {
        Backend::Unbound => Err(Error::Internal(message.to_string())),
        _ => Ok(backend),
    }
}

impl HeapClient {
    /// The heap.
    pub closed spec fn heap(&self) -> HeapId {
        self.heap_id
    }

    /// What the handle talks to.
    pub closed spec fn target(&self) -> Backend {
        self.backend
    }

    /// A handle that is bound to nothing.
    pub fn from_id_for_contract(heap_id: HeapId) -> (r: HeapClient)
        ensures
            r.heap() == heap_id,
            r.target() == Backend::Unbound,
    {
        HeapClient { heap_id, backend: Backend::Unbound }
    }

    /// A handle on a heap of a store or of a server.
    pub fn bind(heap_id: HeapId, backend: Backend) -> (r: HeapClient)
        ensures
            r.heap() == heap_id,
            r.target() == backend,
    {
        HeapClient { heap_id, backend }
    }

    /// Heap id.
    pub fn id(&self) -> (r: HeapId)
        ensures
            r == self.heap(),
    {
        self.heap_id
    }

    /// Whether the handle talks to anything.
    pub fn is_bound(&self) -> (r: bool)
        ensures
            r == (self.target() != Backend::Unbound),
    {
        !matches!(self.backend, Backend::Unbound)
    }

    /// The backend; an unbound handle is an error.
    pub fn require_bound(&self) -> (r: Result<Backend, Error>)
        ensures
            match r {
                Ok(b) => b == self.target() && b != Backend::Unbound,
                Err(e) => self.target() == Backend::Unbound && e@ == ErrorView::Internal(
                    HEAP_UNBOUND@,
                ),
            },
    {
        bound(self.backend, HEAP_UNBOUND)
    }

    /// Asks for a collection to be created.
    pub fn create_collection(&mut self, name: &str) -> (r: Result<CreateRequest, Error>)
        ensures
            *final(self) == *old(self),
            match r {
                Ok(q) => q.backend == old(self).target() && q.backend != Backend::Unbound
                    && q.name@ == name@ && q.operation_id is None,
                Err(e) => old(self).target() == Backend::Unbound && e@ == ErrorView::Internal(
                    HEAP_UNBOUND@,
                ),
            },
    {
        self.create_collection_with(name, CreateCollectionOptions::default())
    }

    /// Asks for a collection to be created, with an idempotency key.
    pub fn create_collection_with(&mut self, name: &str, options: CreateCollectionOptions) -> (r:
        Result<CreateRequest, Error>)
        ensures
            *final(self) == *old(self),
            match r {
                Ok(q) => q.backend == old(self).target() && q.backend != Backend::Unbound
                    && q.name@ == name@ && q.operation_id == options.operation_id,
                Err(e) => old(self).target() == Backend::Unbound && e@ == ErrorView::Internal(
                    HEAP_UNBOUND@,
                ),
            },
    {
        let backend = self.require_bound()?;
        Ok(
            CreateRequest {
                backend,
                name: name.to_string(),
                operation_id: options.operation_id,
            },
        )
    }
}

/// Handle on a collection.
#[derive(Debug)]
pub struct CollectionClient {
    heap_id: HeapId,
    collection_id: CollectionId,
    name: String,
    backend: Backend,
    wire_collection_id: Option<String>,
}

impl CollectionClient {
    /// The heap.
    pub closed spec fn heap(&self) -> HeapId {
        self.heap_id
    }

    /// The collection.
    pub closed spec fn collection(&self) -> CollectionId {
        self.collection_id
    }

    /// The name.
    pub closed spec fn label(&self) -> Seq<char> {
        self.name@
    }

    /// What the handle talks to.
    pub closed spec fn target(&self) -> Backend {
        self.backend
    }

    /// The id that the server knows the collection by.
    pub closed spec fn wire(&self) -> Option<Seq<char>> {
        match self.wire_collection_id {
            Some(id) => Some(id@),
            None => None,
        }
    }

    /// A handle that is bound to nothing.
    pub fn from_parts_for_contract(heap_id: HeapId, collection_id: CollectionId, name: &str) -> (r:
        CollectionClient)
        ensures
            r.heap() == heap_id,
            r.collection() == collection_id,
            r.label() == name@,
            r.target() == Backend::Unbound,
            r.wire() is None,
    {
        CollectionClient {
            heap_id,
            collection_id,
            name: name.to_string(),
            backend: Backend::Unbound,
            wire_collection_id: None,
        }
    }

    /// A handle on a collection of a store in this process.
    pub fn from_embedded(heap_id: HeapId, collection_id: CollectionId, name: String) -> (r:
        CollectionClient)
        ensures
            r.heap() == heap_id,
            r.collection() == collection_id,
            r.label() == name@,
            r.target() == Backend::Embedded,
            r.wire() is None,
    {
        CollectionClient {
            heap_id,
            collection_id,
            name,
            backend: Backend::Embedded,
            wire_collection_id: None,
        }
    }

    /// A handle on a collection of a server, with the id that the server knows
    /// it by.
    pub fn from_remote(
        heap_id: HeapId,
        collection_id: CollectionId,
        name: String,
        wire_collection_id: String,
    ) -> (r: CollectionClient)
        ensures
            r.heap() == heap_id,
            r.collection() == collection_id,
            r.label() == name@,
            r.target() == Backend::Remote,
            r.wire() == Some(wire_collection_id@),
    {
        CollectionClient {
            heap_id,
            collection_id,
            name,
            backend: Backend::Remote,
            wire_collection_id: Some(wire_collection_id),
        }
    }

    /// Whether the handle talks to anything.
    pub fn is_bound(&self) -> (r: bool)
        ensures
            r == (self.target() != Backend::Unbound),
    {
        !matches!(self.backend, Backend::Unbound)
    }

    /// Heap id.
    pub fn heap_id(&self) -> (r: HeapId)
        ensures
            r == self.heap(),
    {
        self.heap_id
    }

    /// Collection id.
    pub fn id(&self) -> (r: CollectionId)
        ensures
            r == self.collection(),
    {
        self.collection_id
    }

    /// Name.
    pub fn name(&self) -> (r: &str)
        ensures
            r@ == self.label(),
    {
        self.name.as_str()
    }

    /// What the handle talks to.
    pub fn backend(&self) -> (r: Backend)
        ensures
            r == self.target(),
    {
        self.backend
    }

    /// The id that the server knows the collection by.
    pub fn wire_collection_id(&self) -> (r: Option<&str>)
        ensures
            match r {
                Some(id) => self.wire() == Some(id@),
                None => self.wire() is None,
            },
    {
        match &self.wire_collection_id {
            Some(id) => Some(id.as_str()),
            None => None,
        }
    }

    /// Refuses a host call that is for another collection.
    pub fn require_collection(&self, asked: CollectionId) -> (r: Result<(), Error>)
        ensures
            match r {
                Ok(_) => asked == self.collection(),
                Err(e) => asked != self.collection() && e@ == ErrorView::QueryInvalid(
                    "HostCapabilities: collection_id mismatch on CollectionClient"@,
                ),
            },
    {
        if crate::codec::same16(&asked.0, &self.collection_id.0) {
            Ok(())
        } else {
            Err(
                Error::QueryInvalid(
                    "HostCapabilities: collection_id mismatch on CollectionClient".to_string(),
                ),
            )
        }
    }
}

} // verus!
