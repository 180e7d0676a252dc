//! Finds in a dialect: how a compiled query is run over a named collection.
//!
//! The ids that a portable plan is bound to come from the id of the store and
//! the name of the collection. SDA programs and plans are evaluated by the
//! caller; their outcomes arrive as arguments.
use crate::app_v1::{CollectionId, CoveragePolicy, HeapId, QueryBudget as RunBudget};
use crate::codec::{array16, push_text, same16};
use crate::collection::{row_models, rows_limited, FindStep};
use crate::covered_reads::{queue_of, HostDocument, HostDocumentView};
use crate::dialects::portable::{
    CompiledDialect, CompiledDialectView, CompiledPortable, CompiledPortableView,
};
use crate::dialects::SdaShape;
use crate::digest::{blake3_digest, hash_bytes};
use crate::error::{code_of, outcome, Error, ErrorCode, ErrorView};
use crate::filter::{filter_lowered, CancelToken, QueryOptions, QueryOptionsView, SortOrder};
use crate::indexes::copy_texts;
use crate::json::{lemma_array_model, models, Json, JsonView};
use crate::predicate::{Predicate, PredicateView};
use crate::sorting::{sort, sorted, Sorter};
use crate::text::{cat4, cat5, compare_text, text_order, texts, Order};
use std::sync::Arc;
use vstd::prelude::*;

verus! {

/// Sixteen bytes with the version and variant bits of a random UUID.
pub open spec fn v4_shaped(bytes: Seq<u8>) -> Seq<u8> {
    bytes.update(6, (bytes[6] & 0x0f) | 0x40).update(8, (bytes[8] & 0x3f) | 0x80)
}

/// Sets the version and variant bits of a random UUID.
pub fn uuid_v4_shape(bytes: [u8; 16]) -> (r: [u8; 16])
    ensures
        r@ == v4_shaped(bytes@),
{
    let mut out = bytes;
    out[6] = (bytes[6] & 0x0f) | 0x40;
    out[8] = (bytes[8] & 0x3f) | 0x80;
    proof {
        assert(out@ =~= v4_shaped(bytes@));
    }
    out
}

/// What the id of a collection in a store is derived from.
pub open spec fn dialect_id_input(store_id: Seq<u8>, name: Seq<char>) -> Seq<u8> {
    vstd::utf8::encode_utf8("residiuum-dialect-collection-id-v2"@) + seq![0u8] + store_id + seq![
        0u8,
    ] + vstd::utf8::encode_utf8(name)
}

/// The id of a collection in a store, for plans of a portable dialect.
pub open spec fn dialect_collection_id(store_id: Seq<u8>, name: Seq<char>) -> Seq<u8> {
    v4_shaped(blake3_digest(dialect_id_input(store_id, name)).take(16))
}

/// Derives the id of a collection from the id of its store and its name.
pub fn dialect_collection_id_bytes(store_id: [u8; 16], name: &str) -> (r: [u8; 16])
    ensures
        r@ == dialect_collection_id(store_id@, name@),
{
    let mut input: Vec<u8> = Vec::new();
    push_text(&mut input, "residiuum-dialect-collection-id-v2");
    input.push(0);
    input.extend_from_slice(store_id.as_slice());
    input.push(0);
    push_text(&mut input, name);
    proof {
        assert(input@ =~= dialect_id_input(store_id@, name@));
    }
    let digest = hash_bytes(input.as_slice());
    let mut first: Vec<u8> = Vec::new();
    let mut i: usize = 0;
    while i < 16
        invariant
            i <= 16,
            first@ == digest@.take(i as int),
        decreases 16 - i,
    {
        first.push(digest[i]);
        proof {
            assert(first@ =~= digest@.take(i + 1));
        }
        i = i + 1;
    }
    uuid_v4_shape(array16(first.as_slice()))
}

/// Derived ids carry the version and variant bits of a random UUID.
pub proof fn law_shaped_id(bytes: Seq<u8>)
    requires
        bytes.len() == 16,
    ensures
        v4_shaped(bytes).len() == 16,
        v4_shaped(bytes)[6] & 0xf0 == 0x40,
        v4_shaped(bytes)[8] & 0xc0 == 0x80,
        forall|i: int|
            0 <= i < 16 && i != 6 && i != 8 ==> #[trigger] v4_shaped(bytes)[i] == bytes[i],
{
    let a = bytes[6];
    let b = bytes[8];
    assert(((a & 0x0fu8) | 0x40u8) & 0xf0u8 == 0x40u8) by (bit_vector);
    assert(((b & 0x3fu8) | 0x80u8) & 0xc0u8 == 0x80u8) by (bit_vector);
}

/// Refuses a store without a durable id.
pub fn durable_store_id_bytes(id: [u8; 16]) -> (r: Result<[u8; 16], Error>)
    ensures
        match r {
            Ok(v) => v == id && id@ != Seq::new(16, |i: int| 0u8),
            Err(e) => id@ == Seq::new(16, |i: int| 0u8) && e@ == ErrorView::QueryInvalid(
                "portable dialect requires non-zero durable store_id (Q0.A6)"@,
            ),
        },
{
    let zero: [u8; 16] = [0u8; 16];
    proof {
        assert(zero@ =~= Seq::new(16, |i: int| 0u8));
    }
    if same16(&id, &zero) {
        return Err(
            Error::QueryInvalid(
                "portable dialect requires non-zero durable store_id (Q0.A6)".to_string(),
            ),
        );
    }
    Ok(id)
}

/// What the plan of a portable query is built and run with.
#[derive(Debug)]
pub struct PortableRequest {
    /// Name of the collection that the plan reads.
    pub source: String,
    /// Which documents match.
    pub predicate: Predicate,
    /// Field paths to project; `None` keeps the whole document.
    pub project: Option<Vec<String>>,
    /// Field path and direction that the rows are ordered by.
    pub order_by: Option<(String, SortOrder)>,
    /// Maximum number of rows.
    pub limit: Option<u64>,
    /// Scan even where an index exists.
    pub force_scan: bool,
    /// Heap id that the plan is bound to.
    pub heap_id: HeapId,
    /// Collection id that the plan is bound to.
    pub collection_id: CollectionId,
    /// What may be missing.
    pub coverage: CoveragePolicy,
    /// Rows per page.
    pub page_size: Option<u32>,
    /// Limits.
    pub budget: Option<RunBudget>,
    /// Token that ends the run.
    pub cancel: Option<CancelToken>,
}

/// Model of a [`PortableRequest`].
#[verifier::ext_equal]
pub struct PortableRequestView {
    pub source: Seq<char>,
    pub predicate: PredicateView,
    pub project: Option<Seq<Seq<char>>>,
    pub order_by: Option<(Seq<char>, SortOrder)>,
    pub limit: Option<u64>,
    pub force_scan: bool,
    pub heap_id: Seq<u8>,
    pub collection_id: Seq<u8>,
    pub coverage: CoveragePolicy,
    pub page_size: Option<u32>,
    pub budget: Option<RunBudget>,
    pub cancel: Option<CancelToken>,
}

impl View for PortableRequest {
    type V = PortableRequestView;

    open spec fn view(&self) -> PortableRequestView {
        PortableRequestView {
            source: self.source@,
            predicate: self.predicate@,
            project: match self.project {
                Some(cols) => Some(texts(cols@)),
                None => None,
            },
            order_by: match self.order_by {
                Some(o) => Some((o.0@, o.1)),
                None => None,
            },
            limit: self.limit,
            force_scan: self.force_scan,
            heap_id: self.heap_id.0@,
            collection_id: self.collection_id.0@,
            coverage: self.coverage,
            page_size: self.page_size,
            budget: self.budget,
            cancel: self.cancel,
        }
    }
}

/// The request for a compiled query: what matches and what is shown come from
/// the query, order, limits and coverage from the options, the ids from the
/// store and the name of the collection.
pub open spec fn portable_requested(
    compiled: CompiledPortableView,
    predicate: PredicateView,
    options: QueryOptionsView,
    store_id: Seq<u8>,
    name: Seq<char>,
    max_page: u32,
) -> PortableRequestView {
    PortableRequestView {
        source: name,
        predicate,
        project: compiled.project,
        order_by: options.order_by,
        limit: match options.limit {
            Some(n) => Some(n as u64),
            None => None,
        },
        force_scan: options.force_scan,
        heap_id: v4_shaped(store_id),
        collection_id: dialect_collection_id(store_id, name),
        coverage: if options.allow_partial_coverage {
            CoveragePolicy::IncompleteAllowed
        } else {
            CoveragePolicy::Complete
        },
        page_size: portable_page_size(options.limit, max_page),
        budget: run_budget(options),
        cancel: options.cancel,
    }
}

/// Rows per page for a limit.
pub open spec fn portable_page_size(limit: Option<usize>, max_page: u32) -> Option<u32> {
    match limit {
        Some(n) => Some(
            if (n as u32) < 1 {
                1
            } else if (n as u32) > max_page {
                max_page
            } else {
                n as u32
            },
        ),
        None => None,
    }
}

/// The budget of a run.
pub open spec fn run_budget(options: QueryOptionsView) -> Option<RunBudget> {
    match options.budget {
        Some(b) => Some(
            RunBudget {
                max_documents: match b.max_docs_scanned {
                    Some(n) => Some(n as u64),
                    None => None,
                },
                max_bytes: b.max_bytes_scanned,
                max_result_bytes: b.max_result_bytes,
            },
        ),
        None => None,
    }
}

/// Prepares a portable query for a collection of a store.
pub fn portable_request(
    compiled: &CompiledPortable,
    options: &QueryOptions,
    store_id: [u8; 16],
    name: &str,
    max_page: u32,
) -> (r: Result<PortableRequest, Error>)
    requires
        1 <= max_page,
    ensures
        match filter_lowered(compiled@.filter) {
            Err(e) => r is Err && r->Err_0@ == e,
            Ok(p) => match r {
                Err(e) => store_id@ == Seq::new(16, |i: int| 0u8) && e@ == ErrorView::QueryInvalid(
                    "portable dialect requires non-zero durable store_id (Q0.A6)"@,
                ),
                Ok(q) => store_id@ != Seq::new(16, |i: int| 0u8) && q@ == portable_requested(
                    compiled@,
                    p,
                    options@,
                    store_id@,
                    name@,
                    max_page,
                ),
            },
        },
{
    let predicate = compiled.filter.to_predicate()?;
    let id = durable_store_id_bytes(store_id)?;
    let heap_id = HeapId(uuid_v4_shape(id));
    let collection_id = CollectionId(dialect_collection_id_bytes(id, name));
    let coverage = if options.allow_partial_coverage {
        CoveragePolicy::IncompleteAllowed
    } else {
        CoveragePolicy::Complete
    };
    let page_size = match options.limit {
        Some(n) => {
            let k: u32 = n as u32;
            if k < 1 {
                Some(1)
            } else if k > max_page {
                Some(max_page)
            } else {
                Some(k)
            }
        },
        None => None,
    };
    let budget = match &options.budget {
        Some(b) => Some(
            RunBudget {
                max_documents: match b.max_docs_scanned {
                    Some(n) => Some(n as u64),
                    None => None,
                },
                max_bytes: b.max_bytes_scanned,
                max_result_bytes: b.max_result_bytes,
            },
        ),
        None => None,
    };
    let project = match &compiled.project {
        Some(cols) => Some(copy_texts(cols)),
        None => None,
    };
    let order_by = match &options.order_by {
        Some(o) => Some((o.0.clone(), o.1)),
        None => None,
    };
    let limit = match options.limit {
        Some(n) => Some(n as u64),
        None => None,
    };
    Ok(
        PortableRequest {
            source: name.to_string(),
            predicate,
            project,
            order_by,
            limit,
            force_scan: options.force_scan,
            heap_id,
            collection_id,
            coverage,
            page_size,
            budget,
            cancel: options.cancel,
        },
    )
}

/// Orders keys as text.
pub struct KeyOrder {}

impl Sorter for KeyOrder {
    type Item = String;

    open spec fn order_of(self, a: String, b: String) -> Order {
        text_order(a@, b@)
    }

    fn order(&self, a: &String, b: &String) -> (r: Order) {
        compare_text(a.as_str(), b.as_str())
    }
}

/// The host of a portable plan over a named collection: it knows the one
/// collection, and its keys once they were asked for.
#[derive(Debug)]
pub struct DialectHost {
    /// The collection that the plan is bound to.
    pub bound_id: CollectionId,
    /// Keys in order, where they are known.
    pub keys: Option<Vec<String>>,
}

/// A key stands behind another.
pub open spec fn behind(key: Seq<char>, after: Option<Seq<char>>) -> bool {
    after is Some ==> text_order(key, after->0) == Order::Greater
}

/// The keys that stand behind another.
pub open spec fn keys_behind(keys: Seq<Seq<char>>, after: Option<Seq<char>>) -> Seq<Seq<char>> {
    keys.filter(|k: Seq<char>| behind(k, after))
}

/// No more than `limit` of the keys.
pub open spec fn keys_limited(keys: Seq<Seq<char>>, limit: Option<usize>) -> Seq<Seq<char>> {
    if limit is Some && limit->0 < keys.len() {
        keys.take(limit->0 as int)
    } else {
        keys
    }
}

impl DialectHost {
    /// A host for a collection.
    pub fn new(bound_id: CollectionId) -> (r: DialectHost)
        ensures
            r.bound_id == bound_id,
            r.keys is None,
    {
        DialectHost { bound_id, keys: None }
    }

    /// Refuses a collection that the host does not know. The ids are shown as
    /// the given texts.
    pub fn check_id(&self, id: &CollectionId, shown: &str, bound_shown: &str) -> (r: Result<
        (),
        Error,
    >)
        ensures
            match r {
                Ok(_) => id.0@ == self.bound_id.0@,
                Err(e) => id.0@ != self.bound_id.0@ && e@ == ErrorView::QueryInvalid(
                    "dialect host: collection_id mismatch (got "@ + shown@ + ", bound "@
                        + bound_shown@ + ")"@,
                ),
            },
    {
        if same16(&id.0, &self.bound_id.0) {
            return Ok(());
        }
        Err(
            Error::QueryInvalid(
                cat5(
                    "dialect host: collection_id mismatch (got ",
                    shown,
                    ", bound ",
                    bound_shown,
                    ")",
                ),
            ),
        )
    }

    /// Takes the keys of the collection.
    pub fn fill(&mut self, keys: Vec<String>)
        ensures
            final(self).bound_id == old(self).bound_id,
            final(self).keys is Some,
            final(self).keys->0@ == sorted(KeyOrder {  }, keys@),
    {
        self.keys = Some(sort(&KeyOrder {  }, keys));
    }

    /// Lists the keys behind `after`, in order, at most `limit` of them. The
    /// keys were taken before.
    pub fn list_keys(&self, limit: Option<usize>, after: Option<&str>) -> (r: Vec<String>)
        requires
            self.keys is Some,
        ensures
            texts(r@) == keys_limited(
                keys_behind(
                    texts(self.keys->0@),
                    match after {
                        Some(a) => Some(a@),
                        None => None,
                    },
                ),
                limit,
            ),
    {
        let mut out: Vec<String> = Vec::new();
        match &self.keys {
            Some(keys) => {
                let ghost all = texts(keys@);
                let ghost bound = match after {
                    Some(a) => Some(a@),
                    None => None,
                };
                let ghost keep = |k: Seq<char>| behind(k, bound);
                let mut i: usize = 0;
                proof {
                    reveal(Seq::filter);
                    assert(all.take(0) =~= Seq::empty());
                    assert(texts(out@) =~= keys_limited(keys_behind(all.take(0), bound), limit));
                }
                while i < keys.len()
                    invariant
                        i <= keys@.len(),
                        all == texts(keys@),
                        bound == (match after {
                            Some(a) => Some(a@),
                            None => None,
                        }),
                        keep == (|k: Seq<char>| behind(k, bound)),
                        texts(out@) == keys_limited(
                            keys_behind(all.take(i as int), bound),
                            limit,
                        ),
                    decreases keys@.len() - i,
                {
                    let key = keys[i].as_str();
                    let past = match after {
                        Some(a) => compare_text(key, a) == Order::Greater,
                        None => true,
                    };
                    let ghost before = texts(out@);
                    let ghost listed = keys_behind(all.take(i as int), bound);
                    proof {
                        reveal(Seq::filter);
                        assert(all.take(i + 1).drop_last() =~= all.take(i as int));
                        assert(all.take(i + 1).last() == key@);
                        assert(keys_behind(all.take(i + 1), bound) == if past {
                            listed.push(key@)
                        } else {
                            listed
                        });
                        assert(before.len() == out@.len());
                    }
                    let room = match limit {
                        Some(n) => out.len() < n,
                        None => true,
                    };
                    if past && room {
                        out.push(key.to_string());
                        proof {
                            assert(texts(out@) =~= before.push(key@));
                            assert(before == listed);
                        }
                    }
                    proof {
                        assert(texts(out@) =~= keys_limited(
                            keys_behind(all.take(i + 1), bound),
                            limit,
                        ));
                    }
                    i = i + 1;
                }
                proof {
                    assert(all.take(all.len() as int) =~= all);
                }
            },
            None => {},
        }
        out
    }
}

/// The codes of failures that a document cannot be read for.
pub open spec fn unreadable(code: ErrorCode) -> bool {
    code == ErrorCode::DataDamaged || code == ErrorCode::PayloadPartial || code
        == ErrorCode::CoverageIncomplete || code == ErrorCode::TypeMismatch
}

/// What a read of one document is to the run of a plan: a document that cannot
/// be read is a hole, any other failure ends the run.
pub open spec fn dialect_read(read: Result<Option<JsonView>, ErrorView>) -> Result<
    HostDocumentView,
    ErrorView,
> {
    match read {
        Ok(Some(value)) => Ok(HostDocumentView::Present { value, logical_bytes: None }),
        Ok(None) => Ok(HostDocumentView::Absent),
        Err(e) => if unreadable(code_of(e)) {
            Ok(HostDocumentView::Hole { code: code_of(e).name() })
        } else {
            Err(e)
        },
    }
}

/// Tells a document that cannot be read from a failure.
pub fn dialect_document(read: Result<Option<Json>, Error>) -> (r: Result<HostDocument, Error>)
    ensures
        outcome(r) == dialect_read(
            match read {
                Ok(Some(v)) => Ok(Some(v@)),
                Ok(None) => Ok(None),
                Err(e) => Err(e@),
            },
        ),
{
    match read {
        Ok(Some(value)) => Ok(
            HostDocument::Present { value: Arc::new(value), logical_bytes: None },
        ),
        Ok(None) => Ok(HostDocument::Absent),
        Err(e) => {
            let code = e.code();
            if code == ErrorCode::DataDamaged || code == ErrorCode::PayloadPartial || code
                == ErrorCode::CoverageIncomplete || code == ErrorCode::TypeMismatch {
                Ok(HostDocument::Hole { code: code.as_str().to_string() })
            } else {
                Err(e)
            }
        },
    }
}

/// Rows that the pages of a portable run bring.
#[derive(Debug)]
pub struct PortableRows {
    /// Rows so far.
    pub out: Vec<(String, Json)>,
}

impl PortableRows {
    /// No rows.
    pub fn start() -> (r: PortableRows)
        ensures
            r.out@ == Seq::<(String, Json)>::empty(),
    {
        PortableRows { out: Vec::new() }
    }

    /// Takes a page. The run ends with the last page, and once there are as
    /// many rows as asked for.
    pub fn take_page(
        &mut self,
        rows: Vec<(String, Json)>,
        exhausted: bool,
        goes_on: bool,
        limit: Option<usize>,
    ) -> (r: FindStep)
        ensures
            final(self).out@ == old(self).out@ + rows@,
            r == (if (limit is Some && old(self).out@.len() + rows@.len() >= limit->0) || exhausted
                || !goes_on {
                FindStep::Finish
            } else {
                FindStep::More
            }),
    {
        let ghost start = self.out@;
        let mut rest = queue_of(rows);
        let ghost mut i: int = 0;
        while rest.len() > 0
            invariant
                0 <= i <= rows@.len(),
                start == old(self).out@,
                rest@ =~= rows@.skip(i),
                self.out@ =~= start + rows@.take(i),
            decreases rest@.len(),
        {
            if let Some(row) = rest.pop_front() {
                self.out.push(row);
                proof {
                    assert(self.out@ =~= start + rows@.take(i + 1));
                    i = i + 1;
                }
            }
        }
        let enough = match limit {
            Some(n) => self.out.len() >= n,
            None => false,
        };
        if enough || exhausted || !goes_on {
            FindStep::Finish
        } else {
            FindStep::More
        }
    }

    /// The rows of the run, no more than asked for.
    pub fn finish(self, limit: Option<usize>) -> (r: Vec<(String, Json)>)
        ensures
            row_models(r@) == rows_limited(row_models(self.out@), limit),
    {
        let mut out = self.out;
        if let Some(n) = limit {
            if n < out.len() {
                out.truncate(n);
            }
        }
        proof {
            assert(row_models(out@) =~= rows_limited(row_models(self.out@), limit));
        }
        out
    }
}

/// How a compiled dialect query is run.
#[derive(Debug)]
pub enum DialectRun {
    /// Keep the documents for which this SDA predicate is true.
    Filter(String),
    /// Evaluate this SDA program over all documents.
    Program(String),
    /// Run the portable plan.
    Portable(CompiledPortable),
}

/// Model of a [`DialectRun`].
#[verifier::ext_equal]
pub enum DialectRunView {
    Filter(Seq<char>),
    Program(Seq<char>),
    Portable(CompiledPortableView),
}

impl View for DialectRun {
    type V = DialectRunView;

    open spec fn view(&self) -> DialectRunView {
        match self {
            DialectRun::Filter(t) => DialectRunView::Filter(t@),
            DialectRun::Program(t) => DialectRunView::Program(t@),
            DialectRun::Portable(p) => DialectRunView::Portable(p@),
        }
    }
}

/// How a compiled dialect query is run.
pub open spec fn run_of(compiled: CompiledDialectView) -> DialectRunView {
    match compiled {
        CompiledDialectView::Sda(sda) => match sda.shape {
            SdaShape::DocumentPredicate => DialectRunView::Filter(sda.sda),
            SdaShape::Program => DialectRunView::Program(sda.sda),
        },
        CompiledDialectView::Portable(p) => DialectRunView::Portable(p),
    }
}

/// Decides how a compiled dialect query is run.
pub fn dialect_run(compiled: CompiledDialect) -> (r: DialectRun)
    ensures
        r@ == run_of(compiled@),
{
    match compiled {
        CompiledDialect::Sda(sda) => match sda.shape {
            SdaShape::DocumentPredicate => DialectRun::Filter(sda.sda),
            SdaShape::Program => DialectRun::Program(sda.sda),
        },
        CompiledDialect::Portable(p) => DialectRun::Portable(p),
    }
}

/// The one row that the value of a program makes.
pub fn program_rows(value: Json) -> (r: Vec<(String, Json)>)
    ensures
        row_models(r@) == seq![("$result"@, value@)],
{
    let mut out: Vec<(String, Json)> = Vec::new();
    out.push(("$result".to_string(), value));
    proof {
        assert(row_models(out@) =~= seq![("$result"@, value@)]);
    }
    out
}

/// The documents of rows, as the array that a program takes as its input.
pub fn program_input(rows: Vec<(String, Json)>) -> (r: Json)
    ensures
        r@ == JsonView::Array(row_models(rows@).map_values(|p: (Seq<char>, JsonView)| p.1)),
{
    let ghost all = row_models(rows@);
    let mut rest = queue_of(rows);
    let mut docs: Vec<Json> = Vec::new();
    let ghost mut i: int = 0;
    while rest.len() > 0
        invariant
            all == row_models(rows@),
            0 <= i <= rows@.len(),
            rest@ =~= rows@.skip(i),
            models(docs@) =~= all.take(i).map_values(|p: (Seq<char>, JsonView)| p.1),
        decreases rest@.len(),
    {
        if let Some(row) = rest.pop_front() {
            let ghost before = models(docs@);
            docs.push(row.1);
            proof {
                assert(models(docs@) =~= before.push(all[i].1));
                i = i + 1;
            }
        }
    }
    proof {
        assert(all.take(i) =~= all);
        assert(models(docs@) =~= all.map_values(|p: (Seq<char>, JsonView)| p.1));
        lemma_array_model(docs);
    }
    Json::Array(docs)
}

/// What an SDA predicate gave for a document.
#[derive(Debug)]
pub enum SdaOutcome {
    /// A value.
    Value(Json),
    /// A failure.
    Failed(String),
}

/// The refusal of a predicate that does not parse.
pub fn sda_parse_refusal(message: &str, predicate: &str) -> (r: Error)
    ensures
        r@ == ErrorView::QueryInvalid(
            "filter_sda parse failed: "@ + message@ + "; src="@ + predicate@,
        ),
{
    Error::QueryInvalid(cat4("filter_sda parse failed: ", message, "; src=", predicate))
}

/// Keeps a row where the predicate is true for its document. Any other value
/// is no match; a failure ends the find.
pub fn keep_sda_row(
    out: &mut Vec<(String, Json)>,
    row: (String, Json),
    outcome: SdaOutcome,
    predicate: &str,
) -> (r: Result<(), Error>)
    ensures
        match outcome {
            SdaOutcome::Value(v) => r is Ok && final(out)@ == (if v@ == JsonView::Bool(true) {
                old(out)@.push(row)
            } else {
                old(out)@
            }),
            SdaOutcome::Failed(m) => r is Err && r->Err_0@ == ErrorView::QueryInvalid(
                "filter_sda eval failed: "@ + m@ + "; src="@ + predicate@,
            ) && final(out)@ == old(out)@,
        },
{
    match outcome {
        SdaOutcome::Value(Json::Bool(true)) => {
            out.push(row);
            Ok(())
        },
        SdaOutcome::Value(_) => Ok(()),
        SdaOutcome::Failed(m) => Err(
            Error::QueryInvalid(
                cat4("filter_sda eval failed: ", m.as_str(), "; src=", predicate),
            ),
        ),
    }
}

} // verus!
