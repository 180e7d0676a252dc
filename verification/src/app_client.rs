//! What the handles on heaps and collections ask of a store or of a server.
//!
//! A handle carries nothing out. Each method refuses what can be refused
//! without the backend, and says otherwise what is to be asked of it. What the
//! answers mean stands in [`crate::app_calls`] and [`crate::app_wire`].
use crate::app_calls::{delete_start, fetched, page_limit, scan_fetch, DeleteStep, KeyPage};
use crate::app_v1::{
    bound, AdminOperation, Backend, CollectionClient, CollectionId, CollectionInfo,
    DeleteReceipt, DeleteWithOptions, DurabilityMode, FindJsonOptions, HeapClient, HeapId,
    KeyProfile, Parameters, QueryRunOptions, ReplaceOptions, ScanJsonOptions, zero16,
    COLLECTION_UNBOUND, HEAP_UNBOUND, INDEX_UNBOUND, PUT_UNBOUND,
};
use crate::app_wire::{
    collection_id_from_wire, id_bytes, parse_hex16, parse_hex32, query_args, rql_wire_args,
    wire_bytes, wire_collection, IndexInfo,
};
use crate::codec::hex_text;
use crate::covered_reads::copy_bytes;
use crate::error::{outcome, Error, ErrorView};
use crate::filter::{filter_in, Filter, FilterView};
use crate::heap::WriteCondition;
use crate::indexes::find_by_name;
use crate::json::{Json, JsonMap, JsonView};
use crate::text::{cat2, texts};
use vstd::prelude::*;

verus! {

/// What is asked of a backend.
#[derive(Debug)]
pub enum Operation {
    /// Put a document.
    Put {
        /// Key.
        key: String,
        /// Document.
        value: Json,
    },
    /// Put bytes.
    PutBytes {
        /// Key.
        key: String,
        /// Bytes.
        bytes: Vec<u8>,
    },
    /// Put a document where the key is absent.
    Create {
        /// Key.
        key: String,
        /// Document.
        value: Json,
    },
    /// Put a document where a version is live.
    Replace {
        /// Key.
        key: String,
        /// Document.
        value: Json,
        /// The version.
        if_version: [u8; 16],
    },
    /// Get a document.
    Get {
        /// Key.
        key: String,
    },
    /// Get bytes.
    GetBytes {
        /// Key.
        key: String,
    },
    /// Delete a key.
    Delete {
        /// Key.
        key: String,
    },
    /// Delete a key under a condition of the store.
    DeleteIf {
        /// Key.
        key: String,
        /// The condition.
        condition: WriteCondition,
    },
    /// Delete a key under a condition of the server.
    DeleteWith {
        /// Key.
        key: String,
        /// The condition.
        options: DeleteWithOptions,
    },
    /// List keys.
    ListKeys {
        /// Most keys.
        limit: usize,
        /// Key to go on behind.
        after_key: Option<String>,
    },
    /// Read the history of a key.
    History {
        /// Key.
        key: String,
    },
    /// Look keys up in an index.
    LookupIndexKeys {
        /// The equalities.
        equalities: Vec<(String, Json)>,
    },
    /// Scan documents on the server.
    Scan {
        /// Most rows.
        limit: usize,
        /// Key to go on behind.
        after_key: Option<String>,
    },
    /// Find documents on the server.
    Find {
        /// The filter.
        filter: Json,
        /// Most rows.
        limit: usize,
    },
    /// Run a query in this process.
    Run {
        /// The source.
        source: String,
    },
    /// Explain a query in this process.
    Explain {
        /// The source.
        source: String,
    },
    /// Run a query on the server.
    Query {
        /// The arguments.
        args: JsonMap,
    },
    /// List collections.
    ListCollections,
    /// Open a collection.
    OpenCollection {
        /// Name.
        name: String,
    },
    /// List indexes.
    ListIndexes,
    /// Create an index.
    CreateIndex {
        /// Name.
        name: String,
        /// Fields in order.
        fields: Vec<String>,
    },
    /// Drop an index.
    DropIndex {
        /// Name.
        name: String,
    },
    /// Build an index anew.
    RebuildIndex {
        /// Name.
        name: String,
    },
    /// Pin a view at the frontier of the store.
    PinView,
    /// Open a view that nothing pins.
    OpenView,
}

/// Model of an [`Operation`].
#[verifier::ext_equal]
#[allow(inconsistent_fields)]
pub enum OperationView {
    Put { key: Seq<char>, value: JsonView },
    PutBytes { key: Seq<char>, bytes: Seq<u8> },
    Create { key: Seq<char>, value: JsonView },
    Replace { key: Seq<char>, value: JsonView, if_version: [u8; 16] },
    Get { key: Seq<char> },
    GetBytes { key: Seq<char> },
    Delete { key: Seq<char> },
    DeleteIf { key: Seq<char>, condition: WriteCondition },
    DeleteWith { key: Seq<char>, options: DeleteWithOptions },
    ListKeys { limit: usize, after_key: Option<Seq<char>> },
    History { key: Seq<char> },
    LookupIndexKeys { equalities: Seq<(Seq<char>, JsonView)> },
    Scan { limit: usize, after_key: Option<Seq<char>> },
    Find { filter: JsonView, limit: usize },
    Run { source: Seq<char> },
    Explain { source: Seq<char> },
    Query { args: Seq<(Seq<char>, JsonView)> },
    ListCollections,
    OpenCollection { name: Seq<char> },
    ListIndexes,
    CreateIndex { name: Seq<char>, fields: Seq<Seq<char>> },
    DropIndex { name: Seq<char> },
    RebuildIndex { name: Seq<char> },
    PinView,
    OpenView,
}

/// A text that may be absent.
pub open spec fn text_view(t: Option<String>) -> Option<Seq<char>> {
    match t {
        Some(s) => Some(s@),
        None => None,
    }
}

/// A borrowed text that may be absent.
pub open spec fn str_view(t: Option<&str>) -> Option<Seq<char>> {
    match t {
        Some(s) => Some(s@),
        None => None,
    }
}

impl View for Operation {
    type V = OperationView;

    open spec fn view(&self) -> OperationView {
        match self {
            Operation::Put { key, value } => OperationView::Put { key: key@, value: value@ },
            Operation::PutBytes { key, bytes } => OperationView::PutBytes {
                key: key@,
                bytes: bytes@,
            },
            Operation::Create { key, value } => OperationView::Create { key: key@, value: value@ },
            Operation::Replace { key, value, if_version } => OperationView::Replace {
                key: key@,
                value: value@,
                if_version: *if_version,
            },
            Operation::Get { key } => OperationView::Get { key: key@ },
            Operation::GetBytes { key } => OperationView::GetBytes { key: key@ },
            Operation::Delete { key } => OperationView::Delete { key: key@ },
            Operation::DeleteIf { key, condition } => OperationView::DeleteIf {
                key: key@,
                condition: *condition,
            },
            Operation::DeleteWith { key, options } => OperationView::DeleteWith {
                key: key@,
                options: *options,
            },
            Operation::ListKeys { limit, after_key } => OperationView::ListKeys {
                limit: *limit,
                after_key: text_view(*after_key),
            },
            Operation::History { key } => OperationView::History { key: key@ },
            Operation::LookupIndexKeys { equalities } => OperationView::LookupIndexKeys {
                equalities: crate::indexes::pair_views(equalities@),
            },
            Operation::Scan { limit, after_key } => OperationView::Scan {
                limit: *limit,
                after_key: text_view(*after_key),
            },
            Operation::Find { filter, limit } => OperationView::Find {
                filter: filter@,
                limit: *limit,
            },
            Operation::Run { source } => OperationView::Run { source: source@ },
            Operation::Explain { source } => OperationView::Explain { source: source@ },
            Operation::Query { args } => OperationView::Query { args: args@ },
            Operation::ListCollections => OperationView::ListCollections,
            Operation::OpenCollection { name } => OperationView::OpenCollection { name: name@ },
            Operation::ListIndexes => OperationView::ListIndexes,
            Operation::CreateIndex { name, fields } => OperationView::CreateIndex {
                name: name@,
                fields: texts(fields@),
            },
            Operation::DropIndex { name } => OperationView::DropIndex { name: name@ },
            Operation::RebuildIndex { name } => OperationView::RebuildIndex { name: name@ },
            Operation::PinView => OperationView::PinView,
            Operation::OpenView => OperationView::OpenView,
        }
    }
}

/// An operation and the backend that it is asked of.
#[derive(Debug)]
pub struct Call {
    /// Backend; a bound one.
    pub backend: Backend,
    /// Operation.
    pub operation: Operation,
}

/// Model of a [`Call`].
#[verifier::ext_equal]
pub struct CallView {
    pub backend: Backend,
    pub operation: OperationView,
}

impl View for Call {
    type V = CallView;

    open spec fn view(&self) -> CallView {
        CallView { backend: self.backend, operation: self.operation@ }
    }
}

/// What a handle asks: nothing while it is unbound, else the operation.
pub open spec fn asked(target: Backend, message: Seq<char>, operation: OperationView) -> Result<
    CallView,
    ErrorView,
> {
    if target == Backend::Unbound {
        Err(ErrorView::Internal(message))
    } else {
        Ok(CallView { backend: target, operation })
    }
}

fn ask(target: Backend, message: &str, operation: Operation) -> (r: Result<Call, Error>)
    ensures
        outcome(r) == asked(target, message@, operation@),
{
    let backend = bound(target, message)?;
    Ok(Call { backend, operation })
}

fn owned(t: Option<&str>) -> (r: Option<String>)
    ensures
        text_view(r) == str_view(t),
{
    match t {
        Some(s) => Some(s.to_string()),
        None => None,
    }
}

/// What a handle asks with a value that has to serialize first; `refusal` is
/// the error where it does not.
pub open spec fn asked_with_value(
    target: Backend,
    message: Seq<char>,
    value: Result<Json, String>,
    refusal: ErrorView,
    operation: OperationView,
) -> Result<CallView, ErrorView> {
    if target != Backend::Unbound && value is Err {
        Err(refusal)
    } else {
        asked(target, message, operation)
    }
}

/// The refusal of a put whose value does not serialize.
pub open spec fn put_refusal(target: Backend, value: Result<Json, String>) -> ErrorView {
    if target == Backend::Remote {
        ErrorView::ValidationMsg("serialize: "@ + value->Err_0@)
    } else {
        ErrorView::InvalidJson(value->Err_0@)
    }
}

impl CollectionClient {
    /// Puts a document. `value` is what the value serializes to.
    pub fn put(&self, key: &str, value: Result<Json, String>) -> (r: Result<Call, Error>)
        ensures
            outcome(r) == asked_with_value(
                self.target(),
                PUT_UNBOUND@,
                value,
                put_refusal(self.target(), value),
                OperationView::Put { key: key@, value: value->Ok_0@ },
            ),
    {
        let backend = bound(self.backend(), PUT_UNBOUND)?;
        match value {
            Ok(value) => Ok(
                Call { backend, operation: Operation::Put { key: key.to_string(), value } },
            ),
            Err(m) => match backend {
                Backend::Remote => Err(Error::ValidationMsg(cat2("serialize: ", m.as_str()))),
                _ => Err(Error::InvalidJson(m)),
            },
        }
    }

    /// Puts a document with options. Neither backend takes a durability with a
    /// put: a write is durable.
    pub fn put_with(&self, key: &str, value: Result<Json, String>, _options: DurabilityMode) -> (r:
        Result<Call, Error>)
        ensures
            outcome(r) == asked_with_value(
                self.target(),
                COLLECTION_UNBOUND@,
                value,
                put_refusal(self.target(), value),
                OperationView::Put { key: key@, value: value->Ok_0@ },
            ),
    {
        let _ = bound(self.backend(), COLLECTION_UNBOUND)?;
        self.put(key, value)
    }

    /// Puts bytes.
    pub fn put_bytes(&self, key: &str, bytes: &[u8]) -> (r: Result<Call, Error>)
        ensures
            outcome(r) == asked(
                self.target(),
                COLLECTION_UNBOUND@,
                OperationView::PutBytes { key: key@, bytes: bytes@ },
            ),
    {
        ask(
            self.backend(),
            COLLECTION_UNBOUND,
            Operation::PutBytes { key: key.to_string(), bytes: copy_bytes(bytes) },
        )
    }

    /// Gets a document.
    pub fn get(&self, key: &str) -> (r: Result<Call, Error>)
        ensures
            outcome(r) == asked(
                self.target(),
                COLLECTION_UNBOUND@,
                OperationView::Get { key: key@ },
            ),
    {
        ask(self.backend(), COLLECTION_UNBOUND, Operation::Get { key: key.to_string() })
    }

    /// Gets bytes.
    pub fn get_bytes(&self, key: &str) -> (r: Result<Call, Error>)
        ensures
            outcome(r) == asked(
                self.target(),
                COLLECTION_UNBOUND@,
                OperationView::GetBytes { key: key@ },
            ),
    {
        ask(self.backend(), COLLECTION_UNBOUND, Operation::GetBytes { key: key.to_string() })
    }

    /// Deletes a key.
    pub fn delete(&self, key: &str) -> (r: Result<Call, Error>)
        ensures
            outcome(r) == asked(
                self.target(),
                COLLECTION_UNBOUND@,
                OperationView::Delete { key: key@ },
            ),
    {
        ask(self.backend(), COLLECTION_UNBOUND, Operation::Delete { key: key.to_string() })
    }

    /// Puts a document where the key is absent.
    pub fn create(&self, key: &str, value: Result<Json, String>) -> (r: Result<Call, Error>)
        ensures
            outcome(r) == asked_with_value(
                self.target(),
                COLLECTION_UNBOUND@,
                value,
                ErrorView::InvalidJson(value->Err_0@),
                OperationView::Create { key: key@, value: value->Ok_0@ },
            ),
    {
        let backend = bound(self.backend(), COLLECTION_UNBOUND)?;
        match value {
            Ok(value) => Ok(
                Call { backend, operation: Operation::Create { key: key.to_string(), value } },
            ),
            Err(m) => Err(Error::InvalidJson(m)),
        }
    }

    /// Puts a document, whether or not the key is there. It begins with a
    /// create; [`crate::app_calls::upsert_after_create`] says how it goes on.
    pub fn upsert(&self, key: &str, value: Result<Json, String>) -> (r: Result<Call, Error>)
        ensures
            outcome(r) == asked_with_value(
                self.target(),
                COLLECTION_UNBOUND@,
                value,
                ErrorView::InvalidJson(value->Err_0@),
                OperationView::Create { key: key@, value: value->Ok_0@ },
            ),
    {
        self.create(key, value)
    }

    /// Puts a document where a version is live.
    pub fn replace(&self, key: &str, value: Result<Json, String>, if_version: [u8; 16]) -> (r: Result<
        Call,
        Error,
    >)
        ensures
            outcome(r) == asked_with_value(
                self.target(),
                COLLECTION_UNBOUND@,
                value,
                ErrorView::InvalidJson(value->Err_0@),
                OperationView::Replace { key: key@, value: value->Ok_0@, if_version },
            ),
    {
        self.replace_with(key, value, ReplaceOptions { if_version })
    }

    /// Puts a document where a version is live.
    pub fn replace_with(&self, key: &str, value: Result<Json, String>, replace: ReplaceOptions) -> (r:
        Result<Call, Error>)
        ensures
            outcome(r) == asked_with_value(
                self.target(),
                COLLECTION_UNBOUND@,
                value,
                ErrorView::InvalidJson(value->Err_0@),
                OperationView::Replace {
                    key: key@,
                    value: value->Ok_0@,
                    if_version: replace.if_version,
                },
            ),
    {
        let backend = bound(self.backend(), COLLECTION_UNBOUND)?;
        match value {
            Ok(value) => Ok(
                Call {
                    backend,
                    operation: Operation::Replace {
                        key: key.to_string(),
                        value,
                        if_version: replace.if_version,
                    },
                },
            ),
            Err(m) => Err(Error::InvalidJson(m)),
        }
    }

    /// Begins an attempt of an add: the key that random bytes give, and the
    /// question whether it is taken. [`crate::app_calls::add_step`] says how it
    /// goes on.
    pub fn add(&self, random: &[u8; 16]) -> (r: Result<(String, Call), Error>)
        ensures
            match r {
                Ok(a) => a.0@ == hex_text(random@) && asked(
                    self.target(),
                    COLLECTION_UNBOUND@,
                    OperationView::Get { key: hex_text(random@) },
                ) == Ok::<CallView, ErrorView>(a.1@),
                Err(e) => self.target() == Backend::Unbound && e@ == ErrorView::Internal(
                    COLLECTION_UNBOUND@,
                ),
            },
    {
        self.add_with(random, KeyProfile::RandomV1)
    }

    /// Begins an attempt of an add under a profile of keys.
    pub fn add_with(&self, random: &[u8; 16], profile: KeyProfile) -> (r: Result<
        (String, Call),
        Error,
    >)
        ensures
            match r {
                Ok(a) => a.0@ == hex_text(random@) && asked(
                    self.target(),
                    COLLECTION_UNBOUND@,
                    OperationView::Get { key: hex_text(random@) },
                ) == Ok::<CallView, ErrorView>(a.1@),
                Err(e) => self.target() == Backend::Unbound && e@ == ErrorView::Internal(
                    COLLECTION_UNBOUND@,
                ),
            },
    {
        let key = profile.key_of(random);
        let call = self.get(key.as_str())?;
        Ok((key, call))
    }

    /// Deletes a key under conditions.
    pub fn delete_with(&self, key: &str, if_version: Option<[u8; 16]>, if_present: bool) -> (r: Result<
        Call,
        Error,
    >)
        ensures
            outcome(r) == asked(
                self.target(),
                COLLECTION_UNBOUND@,
                delete_operation(
                    self.target(),
                    key@,
                    DeleteWithOptions { if_version, if_present },
                ),
            ),
    {
        self.delete_with_options(key, DeleteWithOptions { if_version, if_present })
    }

    /// Deletes a key under conditions. A server is told the conditions; a store
    /// of this process is asked for a conditional delete, or first whether the
    /// key is there.
    pub fn delete_with_options(&self, key: &str, cond: DeleteWithOptions) -> (r: Result<Call, Error>)
        ensures
            outcome(r) == asked(
                self.target(),
                COLLECTION_UNBOUND@,
                delete_operation(self.target(), key@, cond),
            ),
    {
        let backend = bound(self.backend(), COLLECTION_UNBOUND)?;
        let operation = match backend {
            Backend::Remote => Operation::DeleteWith { key: key.to_string(), options: cond },
            _ => match delete_start(&cond) {
                DeleteStep::Delete(condition) => Operation::DeleteIf {
                    key: key.to_string(),
                    condition,
                },
                DeleteStep::Look => Operation::Get { key: key.to_string() },
            },
        };
        Ok(Call { backend, operation })
    }

    /// Lists keys, 256 where no limit is given.
    pub fn list_keys(&self, limit: Option<usize>, after_key: Option<&str>) -> (r: Result<Call, Error>)
        ensures
            outcome(r) == asked(
                self.target(),
                COLLECTION_UNBOUND@,
                OperationView::ListKeys {
                    limit: if limit is Some {
                        limit->0
                    } else {
                        256
                    },
                    after_key: str_view(after_key),
                },
            ),
    {
        let limit = match limit {
            Some(n) => n,
            None => 256,
        };
        ask(
            self.backend(),
            COLLECTION_UNBOUND,
            Operation::ListKeys { limit, after_key: owned(after_key) },
        )
    }

    /// Reads the history of a key.
    pub fn history(&self, key: &str) -> (r: Result<Call, Error>)
        ensures
            outcome(r) == asked(
                self.target(),
                COLLECTION_UNBOUND@,
                OperationView::History { key: key@ },
            ),
    {
        ask(self.backend(), COLLECTION_UNBOUND, Operation::History { key: key.to_string() })
    }

    /// Looks keys up in an index. A server is not asked: the answer is `None`.
    pub fn lookup_index_keys(&self, equalities: Vec<(String, Json)>) -> (r: Result<
        Option<Call>,
        Error,
    >)
        ensures
            match r {
                Ok(Some(c)) => self.target() == Backend::Embedded && c@ == (CallView {
                    backend: Backend::Embedded,
                    operation: OperationView::LookupIndexKeys {
                        equalities: crate::indexes::pair_views(equalities@),
                    },
                }),
                Ok(None) => self.target() == Backend::Remote,
                Err(e) => self.target() == Backend::Unbound && e@ == ErrorView::Internal(
                    COLLECTION_UNBOUND@,
                ),
            },
    {
        match bound(self.backend(), COLLECTION_UNBOUND)? {
            Backend::Embedded => Ok(
                Some(
                    Call {
                        backend: Backend::Embedded,
                        operation: Operation::LookupIndexKeys { equalities },
                    },
                ),
            ),
            _ => Ok(None),
        }
    }

    /// Scans documents: a server in one call, a store of this process by its
    /// keys.
    pub fn scan_json(&self, options: ScanJsonOptions) -> (r: Result<Call, Error>)
        ensures
            outcome(r) == asked(
                self.target(),
                COLLECTION_UNBOUND@,
                scan_operation(self.target(), options.limit, text_view(options.after_key)),
            ),
    {
        let backend = bound(self.backend(), COLLECTION_UNBOUND)?;
        let limit = page_limit(options.limit);
        let operation = match backend {
            Backend::Remote => Operation::Scan { limit, after_key: options.after_key },
            _ => Operation::ListKeys { limit: scan_fetch(limit), after_key: options.after_key },
        };
        Ok(Call { backend, operation })
    }

    /// Looks behind the last key of a scan page whose listing did not tell
    /// whether there are more; `None` where it did.
    pub fn scan_json_more(&self, page: &KeyPage) -> (r: Result<Option<Call>, Error>)
        ensures
            match r {
                Ok(Some(c)) => page.has_more is None && page.keys@.len() > 0 && asked(
                    self.target(),
                    COLLECTION_UNBOUND@,
                    OperationView::ListKeys {
                        limit: 1,
                        after_key: Some(texts(page.keys@).last()),
                    },
                ) == Ok::<CallView, ErrorView>(c@),
                Ok(None) => page.has_more is Some || page.keys@.len() == 0,
                Err(e) => self.target() == Backend::Unbound && e@ == ErrorView::Internal(
                    COLLECTION_UNBOUND@,
                ),
            },
    {
        match page.look_behind() {
            None => Ok(None),
            Some(last) => Ok(Some(self.list_keys(Some(1), Some(last))?)),
        }
    }

    /// Finds documents: a server in one call, a store of this process by its
    /// keys. Gives the call with the filter that was read.
    pub fn find_json(&self, filter: &Json, options: FindJsonOptions) -> (r: Result<
        (Call, Filter),
        Error,
    >)
        ensures
            if self.target() == Backend::Unbound {
                r is Err && r->Err_0@ == ErrorView::Internal(COLLECTION_UNBOUND@)
            } else {
                match r {
                    Err(e) => filter_in(filter@) == Err::<FilterView, ErrorView>(e@),
                    Ok(f) => filter_in(filter@) == Ok::<FilterView, ErrorView>(f.1@) && f.0@ == (
                    CallView {
                        backend: self.target(),
                        operation: if self.target() == Backend::Remote {
                            OperationView::Find { filter: filter@, limit: paged(options.limit) }
                        } else {
                            OperationView::ListKeys { limit: 256, after_key: None }
                        },
                    }),
                }
            },
    {
        let backend = bound(self.backend(), COLLECTION_UNBOUND)?;
        let limit = page_limit(options.limit);
        let parsed = Filter::from_json(filter)?;
        let operation = match backend {
            Backend::Remote => Operation::Find { filter: filter.clone(), limit },
            _ => Operation::ListKeys { limit: 256, after_key: None },
        };
        Ok((Call { backend, operation }, parsed))
    }

    /// Runs a query. `core` is the refusal of a source that is not of the core
    /// language, which a server is not sent.
    pub fn rql(
        &self,
        source: &str,
        parameters: &Parameters,
        options: &QueryRunOptions,
        core: Result<(), Error>,
    ) -> (r: Result<Call, Error>)
        ensures
            outcome(r) == query_call(
                self.target(),
                source@,
                parameters.values@,
                *options,
                outcome(core),
                OperationView::Run { source: source@ },
            ),
    {
        match bound(self.backend(), COLLECTION_UNBOUND)? {
            Backend::Remote => {
                core?;
                let args = rql_wire_args(source, parameters, options, None)?;
                Ok(Call { backend: Backend::Remote, operation: Operation::Query { args } })
            },
            backend => Ok(
                Call { backend, operation: Operation::Run { source: source.to_string() } },
            ),
        }
    }

    /// Explains a query. A server is asked for the explanation by its hash; the
    /// tree is made in this process.
    pub fn explain_rql(
        &self,
        source: &str,
        parameters: &Parameters,
        options: QueryRunOptions,
        core: Result<(), Error>,
    ) -> (r: Result<Call, Error>)
        ensures
            outcome(r) == query_call(
                self.target(),
                source@,
                parameters.values@,
                QueryRunOptions { explain: true, ..options },
                outcome(core),
                OperationView::Explain { source: source@ },
            ),
    {
        match bound(self.backend(), COLLECTION_UNBOUND)? {
            Backend::Remote => {
                let mut options = options;
                options.explain = true;
                self.rql(source, parameters, &options, core)
            },
            backend => Ok(
                Call { backend, operation: Operation::Explain { source: source.to_string() } },
            ),
        }
    }

    /// The manager of the collection's indexes.
    pub fn indexes(&self) -> (r: IndexManager<'_>)
        ensures
            r.target() == self.target(),
    {
        IndexManager { client: self }
    }
}

/// What a delete under conditions asks first.
pub open spec fn delete_operation(target: Backend, key: Seq<char>, cond: DeleteWithOptions) -> OperationView {
    if target == Backend::Remote {
        OperationView::DeleteWith { key, options: cond }
    } else if cond.if_version is Some {
        OperationView::DeleteIf {
            key,
            condition: WriteCondition::LiveEventId(cond.if_version->0),
        }
    } else if cond.if_present {
        OperationView::DeleteIf { key, condition: WriteCondition::Present }
    } else {
        OperationView::Get { key }
    }
}

/// Rows per page that a request is served with.
pub open spec fn paged(limit: Option<u32>) -> usize {
    match limit {
        None => 256,
        Some(n) => if n < 1 {
            1
        } else if n > 4096 {
            4096
        } else {
            n as usize
        },
    }
}

/// What a scan asks first.
pub open spec fn scan_operation(
    target: Backend,
    limit: Option<u32>,
    after_key: Option<Seq<char>>,
) -> OperationView {
    if target == Backend::Remote {
        OperationView::Scan { limit: paged(limit), after_key }
    } else {
        OperationView::ListKeys {
            limit: fetched(paged(limit) as nat) as usize,
            after_key,
        }
    }
}

/// What a query asks: `local` of a store of this process, the arguments of a
/// server.
pub open spec fn query_call(
    target: Backend,
    source: Seq<char>,
    parameters: Seq<(Seq<char>, JsonView)>,
    options: QueryRunOptions,
    core: Result<(), ErrorView>,
    local: OperationView,
) -> Result<CallView, ErrorView> {
    if target != Backend::Remote {
        asked(target, COLLECTION_UNBOUND@, local)
    } else {
        match core {
            Err(e) => Err(e),
            Ok(_) => match query_args(source, parameters, options, None) {
                Err(e) => Err(e),
                Ok(args) => Ok(
                    CallView { backend: target, operation: OperationView::Query { args } },
                ),
            },
        }
    }
}

/// Structured explanation of a query.
#[derive(Debug)]
pub struct QueryExplanation {
    /// Label of the plan's profile.
    pub plan_profile: String,
    /// Hash of the executable plan.
    pub plan_hash: [u8; 32],
    /// The tree, for people.
    pub tree: Json,
}

/// The explanation that a server and this process make together: the server's
/// hash stands where it gave one.
pub fn explained(local: QueryExplanation, wire_hash: [u8; 32]) -> (r: QueryExplanation)
    ensures
        r.plan_profile == local.plan_profile,
        r.tree == local.tree,
        r.plan_hash@ == (if wire_hash@ == Seq::new(32, |i: int| 0u8) {
            local.plan_hash@
        } else {
            wire_hash@
        }),
{
    let zero: [u8; 32] = [0u8; 32];
    proof {
        assert(zero@ =~= Seq::new(32, |i: int| 0u8));
    }
    if crate::text::same_bytes(wire_hash.as_slice(), zero.as_slice()) {
        local
    } else {
        QueryExplanation {
            plan_profile: local.plan_profile,
            plan_hash: wire_hash,
            tree: local.tree,
        }
    }
}

/// The receipt of a plain delete on a server, which says no more than whether
/// something was removed.
pub fn plain_delete_receipt(key: &str, removed: bool) -> (r: DeleteReceipt)
    ensures
        r.key@ == key@,
        r.removed == removed,
        r.event_id@ == Seq::new(16, |i: int| 0u8),
        r.version@ == Seq::new(16, |i: int| 0u8),
        r.acknowledgement == DurabilityMode::Durable,
        r.committed,
        r.store_id@ == Seq::new(16, |i: int| 0u8),
        r.segment_id@ == Seq::new(16, |i: int| 0u8),
{
    DeleteReceipt {
        key: key.to_string(),
        removed,
        event_id: zero16(),
        version: zero16(),
        acknowledgement: DurabilityMode::Durable,
        committed: true,
        store_id: zero16(),
        segment_id: zero16(),
    }
}

/// Manager of the indexes of a collection.
#[derive(Debug)]
pub struct IndexManager<'a> {
    client: &'a CollectionClient,
}

impl<'a> IndexManager<'a> {
    /// What the manager talks to.
    pub closed spec fn target(&self) -> Backend {
        self.client.target()
    }

    /// Lists the indexes.
    pub fn list(&self) -> (r: Result<Call, Error>)
        ensures
            outcome(r) == asked(self.target(), INDEX_UNBOUND@, OperationView::ListIndexes),
    {
        ask(self.client.backend(), INDEX_UNBOUND, Operation::ListIndexes)
    }

    /// Creates an index.
    pub fn create(&self, name: &str, fields: Vec<String>) -> (r: Result<Call, Error>)
        ensures
            outcome(r) == asked(
                self.target(),
                INDEX_UNBOUND@,
                OperationView::CreateIndex { name: name@, fields: texts(fields@) },
            ),
    {
        ask(
            self.client.backend(),
            INDEX_UNBOUND,
            Operation::CreateIndex { name: name.to_string(), fields },
        )
    }

    /// Drops an index.
    pub fn drop(&self, name: &str) -> (r: Result<Call, Error>)
        ensures
            outcome(r) == asked(
                self.target(),
                INDEX_UNBOUND@,
                OperationView::DropIndex { name: name@ },
            ),
    {
        ask(self.client.backend(), INDEX_UNBOUND, Operation::DropIndex { name: name.to_string() })
    }

    /// Builds an index anew.
    pub fn rebuild(&self, name: &str) -> (r: Result<Call, Error>)
        ensures
            outcome(r) == asked(
                self.target(),
                INDEX_UNBOUND@,
                OperationView::RebuildIndex { name: name@ },
            ),
    {
        ask(
            self.client.backend(),
            INDEX_UNBOUND,
            Operation::RebuildIndex { name: name.to_string() },
        )
    }

    /// The index of a name in the listing that [`IndexManager::list`] asks for.
    pub fn get(listed: Vec<IndexInfo>, name: &str) -> (r: Option<IndexInfo>)
        ensures
            match r {
                Some(x) => exists|i: int|
                    {
                        &&& 0 <= i < listed@.len()
                        &&& #[trigger] listed@[i] == x
                        &&& x.name@ == name@
                        &&& forall|j: int| 0 <= j < i ==> (#[trigger] listed@[j]).name@ != name@
                    },
                None => forall|j: int|
                    0 <= j < listed@.len() ==> (#[trigger] listed@[j]).name@ != name@,
            },
    {
        let at = find_by_name(&listed, name)?;
        let mut listed = listed;
        Some(listed.swap_remove(at))
    }
}

/// Receipt of the creation of a collection.
#[derive(Debug)]
pub struct CollectionCreateReceipt {
    /// Receipt id.
    pub receipt_id: [u8; 16],
    /// What was done.
    pub operation: AdminOperation,
    /// Heap id.
    pub heap_id: HeapId,
    /// Collection id.
    pub collection_id: CollectionId,
    /// Hash of its descriptor.
    pub descriptor_hash: [u8; 32],
    /// When, in seconds since the epoch.
    pub created_at: u64,
}

/// A new collection with its receipt.
#[derive(Debug)]
pub struct CreateCollectionResult {
    /// Handle.
    pub collection: CollectionClient,
    /// Receipt.
    pub receipt: CollectionCreateReceipt,
}

/// A collection that a store of this process created.
#[derive(Debug)]
pub struct CreatedCollection {
    /// Heap id.
    pub heap_id: HeapId,
    /// Collection id.
    pub collection_id: CollectionId,
    /// Name.
    pub name: String,
    /// Receipt id.
    pub receipt_id: [u8; 16],
    /// Hash of its descriptor.
    pub descriptor_hash: [u8; 32],
    /// When, in seconds since the epoch.
    pub created_at_unix_s: u64,
}

/// A collection that a server created, as it travels.
#[derive(Debug)]
pub struct RemoteCreatedCollection {
    /// Collection id.
    pub collection_id: String,
    /// Canonical name.
    pub canonical_name: String,
    /// Receipt id; empty where there is none.
    pub receipt_id: String,
    /// Hash of its descriptor.
    pub descriptor_hash: String,
}

/// The handle and receipt of a collection that a store of this process created.
pub fn create_result_from_embedded(created: CreatedCollection) -> (r: CreateCollectionResult)
    ensures
        r.collection.heap() == created.heap_id,
        r.collection.collection() == created.collection_id,
        r.collection.label() == created.name@,
        r.collection.target() == Backend::Embedded,
        r.receipt == (CollectionCreateReceipt {
            receipt_id: created.receipt_id,
            operation: AdminOperation::CreateCollection,
            heap_id: created.heap_id,
            collection_id: created.collection_id,
            descriptor_hash: created.descriptor_hash,
            created_at: created.created_at_unix_s,
        }),
{
    CreateCollectionResult {
        receipt: CollectionCreateReceipt {
            receipt_id: created.receipt_id,
            operation: AdminOperation::CreateCollection,
            heap_id: created.heap_id,
            collection_id: created.collection_id,
            descriptor_hash: created.descriptor_hash,
            created_at: created.created_at_unix_s,
        },
        collection: CollectionClient::from_embedded(
            created.heap_id,
            created.collection_id,
            created.name,
        ),
    }
}

/// What is wrong with the reply to a create, where something is.
pub open spec fn created_refused(
    created: RemoteCreatedCollection,
    parsed: Option<[u8; 16]>,
    zero: Seq<char>,
) -> Option<ErrorView> {
    match wire_collection(created.collection_id@, id_bytes(parsed), zero) {
        Err(e) => Some(e),
        Ok(_) => match wire_bytes(created.descriptor_hash@, 32) {
            Err(e) => Some(e),
            Ok(_) => if created.receipt_id@.len() == 0 {
                None
            } else {
                match wire_bytes(created.receipt_id@, 16) {
                    Err(e) => Some(e),
                    Ok(_) => None,
                }
            },
        },
    }
}

/// The handle and receipt of a collection that a server created. `parsed` and
/// `zero` are what the id type says of the collection id; `now` is the clock.
pub fn create_result_from_remote(
    heap_id: HeapId,
    created: RemoteCreatedCollection,
    parsed: Option<[u8; 16]>,
    zero: &str,
    now: u64,
) -> (r: Result<CreateCollectionResult, Error>)
    ensures
        match r {
            Err(e) => created_refused(created, parsed, zero@) == Some(e@),
            Ok(c) => {
                &&& created_refused(created, parsed, zero@) is None
                &&& c.collection.heap() == heap_id
                &&& c.collection.collection() == c.receipt.collection_id
                &&& c.collection.label() == created.canonical_name@
                &&& c.collection.target() == Backend::Remote
                &&& c.collection.wire() == Some(created.collection_id@)
                &&& wire_collection(created.collection_id@, id_bytes(parsed), zero@) == Ok::<
                    Seq<u8>,
                    ErrorView,
                >(c.receipt.collection_id.0@)
                &&& c.receipt.heap_id == heap_id
                &&& c.receipt.operation == AdminOperation::CreateCollection
                &&& wire_bytes(created.descriptor_hash@, 32) == Ok::<Seq<u8>, ErrorView>(
                    c.receipt.descriptor_hash@,
                )
                &&& if created.receipt_id@.len() == 0 {
                    c.receipt.receipt_id@ == Seq::new(16, |i: int| 0u8)
                } else {
                    wire_bytes(created.receipt_id@, 16) == Ok::<Seq<u8>, ErrorView>(
                        c.receipt.receipt_id@,
                    )
                }
                &&& c.receipt.created_at == now
            },
        },
{
    let collection_id = collection_id_from_wire(created.collection_id.as_str(), parsed, zero)?;
    let descriptor_hash = parse_hex32(created.descriptor_hash.as_str())?;
    let receipt_id = if created.receipt_id.as_str().is_empty() {
        zero16()
    } else {
        parse_hex16(created.receipt_id.as_str())?
    };
    Ok(
        CreateCollectionResult {
            collection: CollectionClient::from_remote(
                heap_id,
                collection_id,
                created.canonical_name,
                created.collection_id,
            ),
            receipt: CollectionCreateReceipt {
                receipt_id,
                operation: AdminOperation::CreateCollection,
                heap_id,
                collection_id,
                descriptor_hash,
                created_at: now,
            },
        },
    )
}

impl HeapClient {
    /// Opens a view of the heap: pinned on a store of this process, unpinned on
    /// a server.
    pub fn read_view(&self) -> (r: Result<Call, Error>)
        ensures
            outcome(r) == asked(
                self.target(),
                HEAP_UNBOUND@,
                if self.target() == Backend::Remote {
                    OperationView::OpenView
                } else {
                    OperationView::PinView
                },
            ),
    {
        let backend = self.require_bound()?;
        let operation = match backend {
            Backend::Remote => Operation::OpenView,
            _ => Operation::PinView,
        };
        Ok(Call { backend, operation })
    }

    /// Opens a collection by name.
    pub fn open_collection(&self, name: &str) -> (r: Result<Call, Error>)
        ensures
            outcome(r) == asked(
                self.target(),
                HEAP_UNBOUND@,
                OperationView::OpenCollection { name: name@ },
            ),
    {
        let backend = self.require_bound()?;
        Ok(Call { backend, operation: Operation::OpenCollection { name: name.to_string() } })
    }

    /// Opens a collection by id: its name is looked up first, see
    /// [`crate::app_calls::name_of_collection`].
    pub fn open_collection_by_id(&self) -> (r: Result<Call, Error>)
        ensures
            outcome(r) == asked(self.target(), HEAP_UNBOUND@, OperationView::ListCollections),
    {
        self.list_collections()
    }

    /// Lists the collections.
    pub fn list_collections(&self) -> (r: Result<Call, Error>)
        ensures
            outcome(r) == asked(self.target(), HEAP_UNBOUND@, OperationView::ListCollections),
    {
        let backend = self.require_bound()?;
        Ok(Call { backend, operation: Operation::ListCollections })
    }

    /// Runs a query of the full language. A server is first asked for the
    /// collections, which the source is compiled against.
    pub fn rql_full(&self, source: &str, options: &QueryRunOptions) -> (r: Result<Call, Error>)
        ensures
            outcome(r) == (if options.explain {
                Err::<CallView, ErrorView>(ErrorView::QueryInvalid(FULL_EXPLAIN@))
            } else {
                asked(
                    self.target(),
                    HEAP_UNBOUND@,
                    if self.target() == Backend::Remote {
                        OperationView::ListCollections
                    } else {
                        OperationView::Run { source: source@ }
                    },
                )
            }),
    {
        if options.explain {
            return Err(Error::QueryInvalid(FULL_EXPLAIN.to_string()));
        }
        let backend = self.require_bound()?;
        let operation = match backend {
            Backend::Remote => Operation::ListCollections,
            _ => Operation::Run { source: source.to_string() },
        };
        Ok(Call { backend, operation })
    }
}

/// Why the full language is not explained by a run.
pub const FULL_EXPLAIN: &'static str =
    "HeapClient::rql_full executes pages; use explain_rql_full_on_heap for compile-only Full explanation";

/// A collection in a server's listing, as it travels.
#[derive(Debug)]
pub struct RemoteListed {
    /// Collection id.
    pub id: String,
    /// What the id type reads the id as, where it does.
    pub parsed: Option<[u8; 16]>,
    /// Name.
    pub name: String,
}

/// Model of a [`CollectionInfo`].
#[verifier::ext_equal]
pub struct InfoView {
    pub heap_id: HeapId,
    pub collection_id: Seq<u8>,
    pub name: Seq<char>,
    pub descriptor_hash: Seq<u8>,
}

/// The model of a collection in a listing.
pub open spec fn info_view(c: CollectionInfo) -> InfoView {
    InfoView {
        heap_id: c.heap_id,
        collection_id: c.collection_id.0@,
        name: c.name@,
        descriptor_hash: c.descriptor_hash@,
    }
}

/// The models of a listing.
pub open spec fn info_views(v: Seq<CollectionInfo>) -> Seq<InfoView> {
    v.map_values(|c: CollectionInfo| info_view(c))
}

/// The collections that a server lists. It does not tell their descriptors; the
/// first id that does not read is the error.
pub open spec fn remote_listing(heap_id: HeapId, listed: Seq<RemoteListed>, zero: Seq<char>) -> Result<
    Seq<InfoView>,
    ErrorView,
>
    decreases listed.len(),
{
    if listed.len() == 0 {
        Ok(Seq::empty())
    } else {
        match remote_listing(heap_id, listed.drop_last(), zero) {
            Err(e) => Err(e),
            Ok(list) => match wire_collection(
                listed.last().id@,
                id_bytes(listed.last().parsed),
                zero,
            ) {
                Err(e) => Err(e),
                Ok(id) => Ok(
                    list.push(
                        InfoView {
                            heap_id,
                            collection_id: id,
                            name: listed.last().name@,
                            descriptor_hash: Seq::new(32, |i: int| 0u8),
                        },
                    ),
                ),
            },
        }
    }
}

proof fn lemma_listing_refused(heap_id: HeapId, listed: Seq<RemoteListed>, zero: Seq<char>, n: int)
    requires
        0 <= n <= listed.len(),
        remote_listing(heap_id, listed.take(n), zero) is Err,
    ensures
        remote_listing(heap_id, listed, zero) == remote_listing(heap_id, listed.take(n), zero),
    decreases listed.len(),
{
    if n < listed.len() {
        assert(listed.drop_last().take(n) =~= listed.take(n));
        lemma_listing_refused(heap_id, listed.drop_last(), zero, n);
    } else {
        assert(listed.take(n) =~= listed);
    }
}

/// Reads the listing of a server.
pub fn listed_from_remote(heap_id: HeapId, listed: &Vec<RemoteListed>, zero: &str) -> (r: Result<
    Vec<CollectionInfo>,
    Error,
>)
    ensures
        match r {
            Ok(v) => remote_listing(heap_id, listed@, zero@) == Ok::<Seq<InfoView>, ErrorView>(
                info_views(v@),
            ),
            Err(e) => remote_listing(heap_id, listed@, zero@) == Err::<Seq<InfoView>, ErrorView>(
                e@,
            ),
        },
{
    let mut out: Vec<CollectionInfo> = Vec::new();
    proof {
        assert(listed@.take(0) =~= Seq::empty());
        assert(info_views(out@) =~= Seq::empty());
    }
    for i in 0..listed.len()
        invariant
            remote_listing(heap_id, listed@.take(i as int), zero@) == Ok::<Seq<InfoView>, ErrorView>(
                info_views(out@),
            ),
    {
        proof {
            assert(listed@.take(i + 1).drop_last() =~= listed@.take(i as int));
            assert(listed@.take(i + 1).last() == listed@[i as int]);
        }
        let ghost before = info_views(out@);
        match collection_id_from_wire(listed[i].id.as_str(), listed[i].parsed, zero) {
            Ok(collection_id) => {
                let hash: [u8; 32] = [0u8; 32];
                let info = CollectionInfo {
                    heap_id,
                    collection_id,
                    name: listed[i].name.clone(),
                    descriptor_hash: hash,
                };
                let ghost shown = info_view(info);
                out.push(info);
                proof {
                    assert(hash@ =~= Seq::new(32, |i: int| 0u8));
                    assert(info_views(out@) =~= before.push(shown));
                }
            },
            Err(e) => {
                proof {
                    lemma_listing_refused(heap_id, listed@, zero@, i + 1);
                }
                return Err(e);
            },
        }
    }
    proof {
        assert(listed@.take(listed@.len() as int) =~= listed@);
    }
    Ok(out)
}

/// The handle on a collection that a server opened by name. `id` is the
/// server's reply; `parsed` and `zero` are what the id type says of it.
pub fn opened_from_remote(
    heap_id: HeapId,
    name: &str,
    id: String,
    parsed: Option<[u8; 16]>,
    zero: &str,
) -> (r: Result<CollectionClient, Error>)
    ensures
        match r {
            Ok(c) => c.heap() == heap_id && wire_collection(id@, id_bytes(parsed), zero@) == Ok::<
                Seq<u8>,
                ErrorView,
            >(c.collection().0@) && c.label() == name@ && c.target() == Backend::Remote && c.wire()
                == Some(id@),
            Err(e) => wire_collection(id@, id_bytes(parsed), zero@) == Err::<Seq<u8>, ErrorView>(
                e@,
            ),
        },
{
    let collection_id = collection_id_from_wire(id.as_str(), parsed, zero)?;
    Ok(CollectionClient::from_remote(heap_id, collection_id, name.to_string(), id))
}

} // verus!
