//! Reads of many documents, with holes told apart from absence.
//!
//! A read first learns the version of each document, takes from the cache what
//! it holds under exactly that version, and fetches the rest in one batch. A
//! batch that does not match what was asked for refuses the short cut. The
//! store is asked by the caller; the functions here decide what to ask and
//! what to make of the answers.
use crate::codec::{read_utf8, same16, utf8_in};
use crate::decoded_cache::{
    cached, observed, with_document, CacheView, DecodedJsonCache, DecodedJsonKey, DocumentKey,
};
use crate::error::{code_of, outcome, Error, ErrorView};
use crate::json::{models, Json, JsonView};
use crate::text::{same_bytes, texts};
use std::collections::VecDeque;
use std::sync::Arc;
use vstd::prelude::*;

verus! {

/// A document as a query host sees it.
#[derive(Debug)]
pub enum HostDocument {
    /// The document is there.
    Present {
        /// The document.
        value: Arc<Json>,
        /// Payload length, where it is known.
        logical_bytes: Option<u64>,
    },
    /// The document cannot be read.
    Hole {
        /// Why.
        code: String,
    },
    /// There is no document.
    Absent,
}

/// Model of a [`HostDocument`].
#[verifier::ext_equal]
pub enum HostDocumentView {
    Present { value: JsonView, logical_bytes: Option<u64> },
    Hole { code: Seq<char> },
    Absent,
}

impl View for HostDocument {
    type V = HostDocumentView;

    open spec fn view(&self) -> HostDocumentView {
        match self {
            HostDocument::Present { value, logical_bytes } => HostDocumentView::Present {
                value: value@,
                logical_bytes: *logical_bytes,
            },
            HostDocument::Hole { code } => HostDocumentView::Hole { code: code@ },
            HostDocument::Absent => HostDocumentView::Absent,
        }
    }
}

/// A stored body as the host has read it.
#[derive(Debug)]
pub struct Body {
    /// Encoded length in bytes.
    pub len: usize,
    /// Length of the JSON payload, where the body has one.
    pub payload_len: Option<u64>,
    /// The decoded document, or why it does not decode.
    pub decoded: Result<Json, Error>,
}

/// Model of a [`Body`].
#[verifier::ext_equal]
pub struct BodyView {
    pub len: usize,
    pub payload_len: Option<u64>,
    pub decoded: Result<JsonView, ErrorView>,
}

impl View for Body {
    type V = BodyView;

    open spec fn view(&self) -> BodyView {
        BodyView {
            len: self.len,
            payload_len: self.payload_len,
            decoded: outcome(self.decoded),
        }
    }
}

/// One answer of a batch fetch.
#[derive(Debug)]
pub struct Resolved {
    /// The key the answer is for.
    pub key: Vec<u8>,
    /// The body, where there is one.
    pub body: Option<Body>,
    /// The version, where there is one.
    pub version: Option<[u8; 16]>,
    /// Why the document cannot be read, where it cannot.
    pub hole: Option<String>,
}

/// Model of a [`Resolved`].
#[verifier::ext_equal]
pub struct ResolvedView {
    pub key: Seq<u8>,
    pub body: Option<BodyView>,
    pub version: Option<Seq<u8>>,
    pub hole: Option<Seq<char>>,
}

/// A version by its bytes.
pub open spec fn version_bytes(v: Option<[u8; 16]>) -> Option<Seq<u8>> {
    match v {
        Some(b) => Some(b@),
        None => None,
    }
}

impl View for Resolved {
    type V = ResolvedView;

    open spec fn view(&self) -> ResolvedView {
        ResolvedView {
            key: self.key@,
            body: match self.body {
                Some(b) => Some(b@),
                None => None,
            },
            version: version_bytes(self.version),
            hole: match self.hole {
                Some(h) => Some(h@),
                None => None,
            },
        }
    }
}

/// The models of a batch of answers.
pub open spec fn resolved_views(v: Seq<Resolved>) -> Seq<ResolvedView> {
    v.map_values(|r: Resolved| r@)
}

/// The collection that is read.
#[derive(Debug, Clone, Copy)]
pub struct Scope {
    /// Heap id.
    pub heap_id: [u8; 16],
    /// Collection id.
    pub collection_id: [u8; 16],
}

impl Scope {
    /// The identity of a document of the collection.
    pub open spec fn document(self, key: Seq<char>) -> DocumentKey {
        DocumentKey { heap: self.heap_id@, collection: self.collection_id@, key }
    }

    fn key(&self, key: &str) -> (r: DecodedJsonKey)
        ensures
            r@ == self.document(key@),
    {
        DecodedJsonKey {
            heap_id: self.heap_id,
            collection_id: self.collection_id,
            key: key.to_string(),
        }
    }
}

/// One row of a read: what was asked for, and the document where it is known.
#[derive(Debug)]
pub struct CoveredRow {
    /// Application key.
    pub key: String,
    /// The key as the store has it.
    pub raw_key: Vec<u8>,
    /// The version that was seen; `None` where there is no document.
    pub version: Option<[u8; 16]>,
    /// The document, where it need not be fetched.
    pub document: Option<HostDocument>,
}

/// Model of a [`CoveredRow`].
#[verifier::ext_equal]
pub struct CoveredRowView {
    pub key: Seq<char>,
    pub raw_key: Seq<u8>,
    pub version: Option<Seq<u8>>,
    pub document: Option<HostDocumentView>,
}

impl View for CoveredRow {
    type V = CoveredRowView;

    open spec fn view(&self) -> CoveredRowView {
        CoveredRowView {
            key: self.key@,
            raw_key: self.raw_key@,
            version: version_bytes(self.version),
            document: match self.document {
                Some(d) => Some(d@),
                None => None,
            },
        }
    }
}

/// The models of the rows of a read.
pub open spec fn row_views(v: Seq<CoveredRow>) -> Seq<CoveredRowView> {
    v.map_values(|r: CoveredRow| r@)
}

/// What is known of a document before anything is fetched: its absence, or
/// what the cache holds under the version that was seen.
pub open spec fn known_document(
    c: CacheView,
    scope: Scope,
    key: Seq<char>,
    version: Option<Seq<u8>>,
) -> Option<HostDocumentView> {
    match version {
        None => Some(HostDocumentView::Absent),
        Some(v) => match cached(c, scope.document(key), v) {
            Some(found) => Some(
                HostDocumentView::Present { value: found.0, logical_bytes: Some(found.1) },
            ),
            None => None,
        },
    }
}

/// The row that a key and the version seen for it give.
pub open spec fn planned_row(
    c: CacheView,
    scope: Scope,
    key: Seq<char>,
    raw_key: Seq<u8>,
    version: Option<Seq<u8>>,
) -> CoveredRowView {
    CoveredRowView { key, raw_key, version, document: known_document(c, scope, key, version) }
}

/// The cache after the lookups that planning these rows makes.
pub open spec fn looked_up(c: CacheView, rows: Seq<CoveredRowView>) -> CacheView
    decreases rows.len(),
{
    if rows.len() == 0 {
        c
    } else {
        let before = looked_up(c, rows.drop_last());
        if rows.last().version is Some {
            observed(before, rows.last().document is Some)
        } else {
            before
        }
    }
}

/// Lookups change the counters alone.
proof fn lemma_looked_up(c: CacheView, rows: Seq<CoveredRowView>)
    ensures
        looked_up(c, rows).documents == c.documents,
        looked_up(c, rows).projections == c.projections,
        looked_up(c, rows).max == c.max,
    decreases rows.len(),
{
    if rows.len() > 0 {
        lemma_looked_up(c, rows.drop_last());
    }
}

/// Plans one row.
fn plan_row(
    cache: &mut DecodedJsonCache,
    scope: &Scope,
    key: String,
    raw_key: Vec<u8>,
    version: Option<[u8; 16]>,
) -> (r: CoveredRow)
    ensures
        r@ == planned_row(old(cache)@, *scope, key@, raw_key@, version_bytes(version)),
        final(cache)@ == (if version is Some {
            observed(old(cache)@, r@.document is Some)
        } else {
            old(cache)@
        }),
{
    let document = match &version {
        None => Some(HostDocument::Absent),
        Some(v) => match cache.get_with_len(&scope.key(key.as_str()), v) {
            Some(found) => Some(
                HostDocument::Present { value: found.0, logical_bytes: Some(found.1) },
            ),
            None => None,
        },
    };
    CoveredRow { key, raw_key, version, document }
}

/// The elements of a list as a queue, in order.
pub(crate) fn queue_of<T>(v: Vec<T>) -> (r: VecDeque<T>)
    ensures
        r@ == v@,
{
    let ghost all = v@;
    let mut left = v;
    let mut out: VecDeque<T> = VecDeque::new();
    while left.len() > 0
        invariant
            left@ + out@ == all,
        decreases left@.len(),
    {
        let ghost before = left@;
        let ghost queued = out@;
        match left.pop() {
            Some(x) => {
                out.push_front(x);
                proof {
                    assert(left@ + out@ =~= before + queued);
                }
            },
            None => {},
        }
    }
    proof {
        assert(left@ + out@ =~= out@);
    }
    out
}

/// A copy of some bytes.
pub(crate) fn copy_bytes(b: &[u8]) -> (r: Vec<u8>)
    ensures
        r@ == b@,
{
    let mut out: Vec<u8> = Vec::new();
    out.extend_from_slice(b);
    proof {
        assert(out@ =~= b@);
    }
    out
}

/// The versions that a store gave for keys, as models.
pub open spec fn identity_views(v: Seq<(Vec<u8>, Option<[u8; 16]>)>) -> Seq<
    (Seq<u8>, Option<Seq<u8>>),
> {
    v.map_values(|e: (Vec<u8>, Option<[u8; 16]>)| (e.0@, version_bytes(e.1)))
}

/// The first `n` answers are for the keys that were asked for.
pub open spec fn aligned(
    keys: Seq<Seq<char>>,
    ids: Seq<(Seq<u8>, Option<Seq<u8>>)>,
    n: int,
) -> bool {
    forall|i: int|
        0 <= i < n ==> (#[trigger] ids[i]).0 == vstd::utf8::encode_utf8(keys[i])
}

/// The first `n` rows of a read by key.
pub open spec fn rows_by_key(
    c: CacheView,
    scope: Scope,
    keys: Seq<Seq<char>>,
    ids: Seq<(Seq<u8>, Option<Seq<u8>>)>,
    n: int,
) -> Seq<CoveredRowView> {
    Seq::new(
        n as nat,
        |i: int|
            planned_row(c, scope, keys[i], vstd::utf8::encode_utf8(keys[i]), ids[i].1),
    )
}

/// Plans a read of documents by key from the versions the store gave for them.
/// `None` where the store answered for other keys than those asked for: the
/// caller then reads without the cache's help.
pub fn plan_many(
    cache: &mut DecodedJsonCache,
    scope: &Scope,
    keys: &Vec<String>,
    identities: &Vec<(Vec<u8>, Option<[u8; 16]>)>,
) -> (r: Option<Vec<CoveredRow>>)
    ensures
        match r {
            Some(rows) => {
                &&& identities@.len() == keys@.len()
                &&& aligned(texts(keys@), identity_views(identities@), keys@.len() as int)
                &&& row_views(rows@) == rows_by_key(
                    old(cache)@,
                    *scope,
                    texts(keys@),
                    identity_views(identities@),
                    keys@.len() as int,
                )
                &&& final(cache)@ == looked_up(old(cache)@, row_views(rows@))
            },
            None => {
                ||| identities@.len() != keys@.len() && final(cache)@ == old(cache)@
                ||| exists|n: int|
                    {
                        &&& 0 <= n < keys@.len()
                        &&& identities@.len() == keys@.len()
                        &&& #[trigger] aligned(texts(keys@), identity_views(identities@), n)
                        &&& !aligned(texts(keys@), identity_views(identities@), n + 1)
                        &&& final(cache)@ == looked_up(
                            old(cache)@,
                            rows_by_key(
                                old(cache)@,
                                *scope,
                                texts(keys@),
                                identity_views(identities@),
                                n,
                            ),
                        )
                    }
            },
        },
{
    if identities.len() != keys.len() {
        return None;
    }
    let ghost c = cache@;
    let ghost names = texts(keys@);
    let ghost ids = identity_views(identities@);
    let mut rows: Vec<CoveredRow> = Vec::new();
    proof {
        assert(row_views(rows@) =~= rows_by_key(c, *scope, names, ids, 0));
    }
    for i in 0..keys.len()
        invariant
            identities@.len() == keys@.len(),
            c == old(cache)@,
            names == texts(keys@),
            ids == identity_views(identities@),
            aligned(names, ids, i as int),
            row_views(rows@) == rows_by_key(c, *scope, names, ids, i as int),
            cache@ == looked_up(c, row_views(rows@)),
    {
        let raw = keys[i].as_str().as_bytes();
        proof {
            assert(ids[i as int].0 == identities@[i as int].0@);
        }
        if !same_bytes(identities[i].0.as_slice(), raw) {
            proof {
                assert(!aligned(names, ids, i + 1)) by {
                    assert(ids[i as int].0 != vstd::utf8::encode_utf8(names[i as int]));
                }
            }
            return None;
        }
        let ghost before = row_views(rows@);
        let row = plan_row(cache, scope, keys[i].clone(), copy_bytes(raw), identities[i].1);
        proof {
            lemma_looked_up(c, before);
            assert(row@ == planned_row(
                c,
                *scope,
                names[i as int],
                vstd::utf8::encode_utf8(names[i as int]),
                ids[i as int].1,
            ));
        }
        rows.push(row);
        proof {
            assert(row_views(rows@) =~= before.push(row@));
            assert(row_views(rows@) =~= rows_by_key(c, *scope, names, ids, i + 1));
            assert(row_views(rows@).drop_last() =~= before);
        }
    }
    Some(rows)
}

/// How many of the first `n` rows have to be fetched.
pub open spec fn missing_before(rows: Seq<CoveredRowView>, n: int) -> int
    decreases n,
{
    if n <= 0 {
        0
    } else if rows[n - 1].document is None {
        missing_before(rows, n - 1) + 1
    } else {
        missing_before(rows, n - 1)
    }
}

/// The store keys of the first `n` rows that have to be fetched.
pub open spec fn missing_keys_before(rows: Seq<CoveredRowView>, n: int) -> Seq<Seq<u8>>
    decreases n,
{
    if n <= 0 {
        Seq::empty()
    } else if rows[n - 1].document is None {
        missing_keys_before(rows, n - 1).push(rows[n - 1].raw_key)
    } else {
        missing_keys_before(rows, n - 1)
    }
}

/// The bytes of a list of keys.
pub open spec fn byte_views(v: Seq<Vec<u8>>) -> Seq<Seq<u8>> {
    v.map_values(|b: Vec<u8>| b@)
}

/// The store keys of the rows that have to be fetched, in order.
pub fn keys_to_fetch(rows: &Vec<CoveredRow>) -> (r: Vec<Vec<u8>>)
    ensures
        byte_views(r@) == missing_keys_before(row_views(rows@), rows@.len() as int),
{
    let ghost all = row_views(rows@);
    let mut out: Vec<Vec<u8>> = Vec::new();
    proof {
        assert(byte_views(out@) =~= missing_keys_before(all, 0));
    }
    for i in 0..rows.len()
        invariant
            all == row_views(rows@),
            byte_views(out@) == missing_keys_before(all, i as int),
    {
        proof {
            assert(all[i as int] == rows@[i as int]@);
        }
        if rows[i].document.is_none() {
            let ghost before = byte_views(out@);
            out.push(copy_bytes(rows[i].raw_key.as_slice()));
            proof {
                assert(byte_views(out@) =~= before.push(all[i as int].raw_key));
            }
        }
    }
    out
}

/// The document that a fetched body gives: what it decodes to, or a hole with
/// the code of the failure.
pub open spec fn body_document(b: BodyView) -> HostDocumentView {
    match b.decoded {
        Ok(value) => HostDocumentView::Present { value, logical_bytes: b.payload_len },
        Err(e) => HostDocumentView::Hole { code: code_of(e).name() },
    }
}

/// What an answer makes of a row that was fetched; `None` where the answer is
/// for another key, another version, or has neither body nor hole.
pub open spec fn answered(row: CoveredRowView, r: ResolvedView) -> Option<HostDocumentView> {
    if r.key != row.raw_key {
        None
    } else {
        match r.hole {
            Some(code) => Some(HostDocumentView::Hole { code }),
            None => if r.version != row.version {
                None
            } else {
                match r.body {
                    Some(b) => Some(body_document(b)),
                    None => None,
                }
            },
        }
    }
}

/// What becomes of row `i`, given the answers for the rows that were fetched.
pub open spec fn row_document(
    rows: Seq<CoveredRowView>,
    answers: Seq<ResolvedView>,
    i: int,
) -> Option<HostDocumentView> {
    match rows[i].document {
        Some(d) => Some(d),
        None => answered(rows[i], answers[missing_before(rows, i)]),
    }
}

/// The first `n` rows all have a document.
pub open spec fn documented(
    rows: Seq<CoveredRowView>,
    answers: Seq<ResolvedView>,
    n: int,
) -> bool {
    forall|i: int| 0 <= i < n ==> (#[trigger] row_document(rows, answers, i)) is Some
}

/// The first `n` documents by key.
pub open spec fn documents_of(
    rows: Seq<CoveredRowView>,
    answers: Seq<ResolvedView>,
    n: int,
) -> Seq<(Seq<char>, HostDocumentView)> {
    Seq::new(n as nat, |i: int| (rows[i].key, row_document(rows, answers, i)->0))
}

/// The cache after the documents fetched for the first `n` rows were put into
/// it.
pub open spec fn cache_after(
    c: CacheView,
    scope: Scope,
    rows: Seq<CoveredRowView>,
    answers: Seq<ResolvedView>,
    n: int,
) -> CacheView
    decreases n,
{
    if n <= 0 {
        c
    } else {
        let before = cache_after(c, scope, rows, answers, n - 1);
        let a = answers[missing_before(rows, n - 1)];
        if rows[n - 1].document is None && a.hole is None && a.body is Some && a.body->0.decoded is Ok
            && a.version is Some {
            with_document(
                before,
                scope.document(rows[n - 1].key),
                a.version->0,
                a.body->0.decoded->Ok_0,
                a.body->0.len,
            )
        } else {
            before
        }
    }
}

/// The models of documents by key.
pub open spec fn document_views(v: Seq<(String, HostDocument)>) -> Seq<
    (Seq<char>, HostDocumentView),
> {
    v.map_values(|d: (String, HostDocument)| (d.0@, d.1@))
}

/// Counting never goes down, and within the rows it stays within their number.
proof fn lemma_missing_bounds(rows: Seq<CoveredRowView>, i: int, n: int)
    requires
        0 <= i <= n <= rows.len(),
    ensures
        0 <= missing_before(rows, i) <= missing_before(rows, n),
        missing_before(rows, n) - missing_before(rows, i) <= n - i,
    decreases n,
{
    if i < n {
        lemma_missing_bounds(rows, i, n - 1);
    } else if 0 < n {
        lemma_missing_bounds(rows, i - 1, n - 1);
    }
}

/// What a fetched row gives: the document, and what goes into the cache.
struct Fetched {
    document: HostDocument,
    admission: Option<(Arc<Json>, usize)>,
}

/// Makes a document of a body.
fn document_of_body(b: Body) -> (r: Fetched)
    ensures
        r.document@ == body_document(b@),
        match r.admission {
            Some(a) => b@.decoded is Ok && a.0@ == b@.decoded->Ok_0 && a.1 == b.len,
            None => b@.decoded is Err,
        },
{
    match b.decoded {
        Ok(value) => {
            let shared = Arc::new(value);
            let copy = crate::decoded_cache::share(&shared);
            Fetched {
                document: HostDocument::Present { value: shared, logical_bytes: b.payload_len },
                admission: Some((copy, b.len)),
            }
        },
        Err(e) => Fetched {
            document: HostDocument::Hole { code: e.code().as_str().to_string() },
            admission: None,
        },
    }
}

fn same_version(a: &Option<[u8; 16]>, b: &Option<[u8; 16]>) -> (r: bool)
    ensures
        r == (version_bytes(*a) == version_bytes(*b)),
{
    match (a, b) {
        (Some(x), Some(y)) => same16(x, y),
        (None, None) => true,
        _ => false,
    }
}

/// Holds an answer against the row it was fetched for.
fn take_answer(row: &CoveredRow, answer: Resolved) -> (r: Option<Fetched>)
    ensures
        match r {
            Some(f) => {
                &&& answered(row@, answer@) == Some(f.document@)
                &&& match f.admission {
                    Some(a) => answer@.hole is None && answer@.body is Some
                        && answer@.body->0.decoded is Ok && a.0@ == answer@.body->0.decoded->Ok_0
                        && a.1 == answer@.body->0.len && answer@.version == row@.version,
                    None => answer@.hole is Some || answer@.body->0.decoded is Err,
                }
            },
            None => answered(row@, answer@) is None,
        },
{
    if !same_bytes(answer.key.as_slice(), row.raw_key.as_slice()) {
        return None;
    }
    match answer.hole {
        Some(code) => Some(Fetched { document: HostDocument::Hole { code }, admission: None }),
        None => {
            if !same_version(&answer.version, &row.version) {
                return None;
            }
            match answer.body {
                Some(b) => Some(document_of_body(b)),
                None => None,
            }
        },
    }
}

/// Finishes a read by key with the answers for the rows that were fetched, and
/// puts what was decoded into the cache as it goes. `None` where an answer
/// does not match its row: the caller then reads without the cache's help.
pub fn finish_many(
    cache: &mut DecodedJsonCache,
    scope: &Scope,
    rows: Vec<CoveredRow>,
    answers: Vec<Resolved>,
) -> (r: Option<Vec<(String, HostDocument)>>)
    requires
        forall|i: int|
            0 <= i < rows@.len() && (#[trigger] rows@[i]).document is None ==> rows@[i].version is Some,
    ensures
        ({
            let plan = row_views(rows@);
            let got = resolved_views(answers@);
            let n = plan.len() as int;
            match r {
                Some(docs) => {
                    &&& got.len() == missing_before(plan, n)
                    &&& documented(plan, got, n)
                    &&& document_views(docs@) == documents_of(plan, got, n)
                    &&& final(cache)@ == cache_after(old(cache)@, *scope, plan, got, n)
                },
                None => {
                    ||| got.len() != missing_before(plan, n) && final(cache)@ == old(cache)@
                    ||| exists|k: int|
                        {
                            &&& 0 <= k < n
                            &&& got.len() == missing_before(plan, n)
                            &&& #[trigger] documented(plan, got, k)
                            &&& !documented(plan, got, k + 1)
                            &&& final(cache)@ == cache_after(old(cache)@, *scope, plan, got, k)
                        }
                },
            }
        }),
{
    let ghost plan = row_views(rows@);
    let ghost got = resolved_views(answers@);
    let ghost c = cache@;
    let ghost n = plan.len() as int;
    let missing = keys_to_fetch(&rows);
    proof {
        lemma_missing_keys(plan, n);
        assert(missing@.len() == byte_views(missing@).len());
    }
    if answers.len() != missing.len() {
        return None;
    }
    let mut rest = queue_of(answers);
    let mut docs: Vec<(String, HostDocument)> = Vec::new();
    let mut pending = queue_of(rows);
    proof {
        assert(document_views(docs@) =~= documents_of(plan, got, 0));
    }
    let ghost mut i: int = 0;
    while pending.len() > 0
        invariant
            c == old(cache)@,
            plan == row_views(rows@),
            got == resolved_views(answers@),
            n == plan.len(),
            0 <= i <= n,
            pending@.len() == n - i,
            got.len() == missing_before(plan, n),
            rest@.len() == got.len() - missing_before(plan, i),
            forall|k: int| 0 <= k < pending@.len() ==> (#[trigger] pending@[k])@ == plan[i + k],
            forall|k: int|
                0 <= k < rest@.len() ==> (#[trigger] rest@[k])@ == got[missing_before(plan, i) + k],
            forall|k: int|
                0 <= k < n && (#[trigger] plan[k]).document is None ==> plan[k].version is Some,
            documented(plan, got, i),
            document_views(docs@) == documents_of(plan, got, i),
            cache@ == cache_after(c, *scope, plan, got, i),
        decreases pending@.len(),
    {
        let ghost left = pending@;
        let row = match pending.pop_front() {
            Some(row) => row,
            None => {
                return None;
            },
        };
        proof {
            assert(left[0] == row);
            assert(row@ == plan[i]);
            lemma_missing_bounds(plan, i + 1, n);
            lemma_missing_bounds(plan, i, i + 1);
        }
        let ghost done = document_views(docs@);
        match row.document {
            Some(d) => {
                docs.push((row.key, d));
                proof {
                    assert(document_views(docs@) =~= done.push((plan[i].key, d@)));
                }
            },
            None => {
                let ghost answers_left = rest@;
                proof {
                    assert(plan[i].document is None);
                    assert(missing_before(plan, i + 1) == missing_before(plan, i) + 1);
                }
                let answer = match rest.pop_front() {
                    Some(a) => a,
                    None => {
                        return None;
                    },
                };
                proof {
                    assert(answers_left[0] == answer);
                    assert(answer@ == got[missing_before(plan, i)]);
                }
                match take_answer(&row, answer) {
                    None => {
                        proof {
                            assert(row_document(plan, got, i) is None);
                            assert(!documented(plan, got, i + 1));
                        }
                        return None;
                    },
                    Some(f) => {
                        if let Some(a) = f.admission {
                            if let Some(version) = row.version {
                                cache.insert(scope.key(row.key.as_str()), version, a.0, a.1);
                            }
                        }
                        docs.push((row.key, f.document));
                        proof {
                            assert(document_views(docs@) =~= done.push(
                                (plan[i].key, row_document(plan, got, i)->0),
                            ));
                        }
                    },
                }
            },
        }
        proof {
            assert(document_views(docs@) =~= documents_of(plan, got, i + 1));
            i = i + 1;
        }
    }
    Some(docs)
}

/// As many keys are fetched as there are rows to fetch.
proof fn lemma_missing_keys(rows: Seq<CoveredRowView>, n: int)
    requires
        0 <= n <= rows.len(),
    ensures
        missing_keys_before(rows, n).len() == missing_before(rows, n),
    decreases n,
{
    if n > 0 {
        lemma_missing_keys(rows, n - 1);
    }
}

/// Keys and versions of a page, as models.
pub open spec fn entry_views(v: Seq<(Vec<u8>, [u8; 16])>) -> Seq<(Seq<u8>, Seq<u8>)> {
    v.map_values(|e: (Vec<u8>, [u8; 16])| (e.0@, e.1@))
}

/// The first `n` keys of a page are UTF-8.
pub open spec fn readable(entries: Seq<(Seq<u8>, Seq<u8>)>, n: int) -> bool {
    forall|i: int| 0 <= i < n ==> utf8_in((#[trigger] entries[i]).0) is Some
}

/// The first `n` rows of a page.
pub open spec fn rows_of_page(
    c: CacheView,
    scope: Scope,
    entries: Seq<(Seq<u8>, Seq<u8>)>,
    n: int,
) -> Seq<CoveredRowView> {
    Seq::new(
        n as nat,
        |i: int|
            planned_row(c, scope, utf8_in(entries[i].0)->0, entries[i].0, Some(entries[i].1)),
    )
}

/// Plans the read of a page from its keys and versions. A key that is not
/// UTF-8 is an error.
pub fn plan_page(
    cache: &mut DecodedJsonCache,
    scope: &Scope,
    entries: &Vec<(Vec<u8>, [u8; 16])>,
) -> (r: Result<Vec<CoveredRow>, Error>)
    ensures
        ({
            let page = entry_views(entries@);
            let n = page.len() as int;
            match r {
                Ok(rows) => {
                    &&& readable(page, n)
                    &&& row_views(rows@) == rows_of_page(old(cache)@, *scope, page, n)
                    &&& final(cache)@ == looked_up(old(cache)@, row_views(rows@))
                },
                Err(e) => {
                    &&& e@ == ErrorView::Internal("cached scan: non-UTF-8 key"@)
                    &&& exists|k: int|
                        {
                            &&& 0 <= k < n
                            &&& #[trigger] readable(page, k)
                            &&& !readable(page, k + 1)
                            &&& final(cache)@ == looked_up(
                                old(cache)@,
                                rows_of_page(old(cache)@, *scope, page, k),
                            )
                        }
                },
            }
        }),
{
    let ghost c = cache@;
    let ghost page = entry_views(entries@);
    let mut rows: Vec<CoveredRow> = Vec::new();
    proof {
        assert(row_views(rows@) =~= rows_of_page(c, *scope, page, 0));
    }
    for i in 0..entries.len()
        invariant
            c == old(cache)@,
            page == entry_views(entries@),
            readable(page, i as int),
            row_views(rows@) == rows_of_page(c, *scope, page, i as int),
            cache@ == looked_up(c, row_views(rows@)),
    {
        let raw = entries[i].0.as_slice();
        proof {
            assert(page[i as int].0 == raw@);
        }
        match read_utf8(raw) {
            None => {
                proof {
                    assert(!readable(page, i + 1)) by {
                        assert(utf8_in(page[i as int].0) is None);
                    }
                }
                return Err(Error::Internal("cached scan: non-UTF-8 key".to_string()));
            },
            Some(key) => {
                let ghost before = row_views(rows@);
                let row = plan_row(cache, scope, key, copy_bytes(raw), Some(entries[i].1));
                proof {
                    lemma_looked_up(c, before);
                    assert(row@ == planned_row(
                        c,
                        *scope,
                        utf8_in(page[i as int].0)->0,
                        page[i as int].0,
                        Some(page[i as int].1),
                    ));
                }
                rows.push(row);
                proof {
                    assert(row_views(rows@) =~= before.push(row@));
                    assert(row_views(rows@) =~= rows_of_page(c, *scope, page, i + 1));
                    assert(row_views(rows@).drop_last() =~= before);
                }
            },
        }
    }
    Ok(rows)
}

/// A decoded document on its way into the cache.
#[derive(Debug)]
pub struct Admission {
    /// Application key.
    pub key: String,
    /// Version.
    pub version: [u8; 16],
    /// The document.
    pub value: Arc<Json>,
    /// Encoded length in bytes.
    pub len: usize,
}

/// Model of an [`Admission`].
#[verifier::ext_equal]
pub struct AdmissionView {
    pub key: Seq<char>,
    pub version: Seq<u8>,
    pub value: JsonView,
    pub len: usize,
}

impl View for Admission {
    type V = AdmissionView;

    open spec fn view(&self) -> AdmissionView {
        AdmissionView {
            key: self.key@,
            version: self.version@,
            value: self.value@,
            len: self.len,
        }
    }
}

/// The models of a list of admissions.
pub open spec fn admission_views(v: Seq<Admission>) -> Seq<AdmissionView> {
    v.map_values(|a: Admission| a@)
}

/// The cache after a list of admissions.
pub open spec fn with_admissions(c: CacheView, scope: Scope, list: Seq<AdmissionView>) -> CacheView
    decreases list.len(),
{
    if list.len() == 0 {
        c
    } else {
        let a = list.last();
        with_document(
            with_admissions(c, scope, list.drop_last()),
            scope.document(a.key),
            a.version,
            a.value,
            a.len,
        )
    }
}

/// Puts a list of documents into the cache, in order.
pub fn put_all(cache: &mut DecodedJsonCache, scope: &Scope, list: Vec<Admission>)
    ensures
        final(cache)@ == with_admissions(old(cache)@, *scope, admission_views(list@)),
{
    let ghost all = admission_views(list@);
    let ghost c = cache@;
    let mut rest = queue_of(list);
    let ghost mut i: int = 0;
    proof {
        assert(all.take(0) =~= Seq::empty());
    }
    while rest.len() > 0
        invariant
            c == old(cache)@,
            all == admission_views(list@),
            0 <= i <= all.len(),
            rest@.len() == all.len() - i,
            forall|k: int| 0 <= k < rest@.len() ==> (#[trigger] rest@[k])@ == all[i + k],
            cache@ == with_admissions(c, *scope, all.take(i)),
        decreases rest@.len(),
    {
        let ghost left = rest@;
        if let Some(a) = rest.pop_front() {
            proof {
                assert(left[0] == a);
                assert(a@ == all[i]);
                assert(all.take(i + 1).drop_last() =~= all.take(i));
            }
            cache.insert(scope.key(a.key.as_str()), a.version, a.value, a.len);
            proof {
                i = i + 1;
            }
        }
    }
    proof {
        assert(all.take(all.len() as int) =~= all);
    }
}

/// The documents fetched for the first `n` rows, on their way into the cache.
pub open spec fn admissions_of(
    rows: Seq<CoveredRowView>,
    answers: Seq<ResolvedView>,
    n: int,
) -> Seq<AdmissionView>
    decreases n,
{
    if n <= 0 {
        Seq::empty()
    } else {
        let before = admissions_of(rows, answers, n - 1);
        let a = answers[missing_before(rows, n - 1)];
        if rows[n - 1].document is None && a.hole is None && a.body is Some && a.body->0.decoded is Ok
            && a.version is Some {
            before.push(
                AdmissionView {
                    key: rows[n - 1].key,
                    version: a.version->0,
                    value: a.body->0.decoded->Ok_0,
                    len: a.body->0.len,
                },
            )
        } else {
            before
        }
    }
}

/// Putting the fetched documents into the cache at the end leaves the same
/// cache as putting each one in as it comes.
pub proof fn law_admissions_in_order(
    c: CacheView,
    scope: Scope,
    rows: Seq<CoveredRowView>,
    answers: Seq<ResolvedView>,
    n: int,
)
    ensures
        with_admissions(c, scope, admissions_of(rows, answers, n)) == cache_after(
            c,
            scope,
            rows,
            answers,
            n,
        ),
    decreases n,
{
    if n > 0 {
        law_admissions_in_order(c, scope, rows, answers, n - 1);
        let before = admissions_of(rows, answers, n - 1);
        let now = admissions_of(rows, answers, n);
        if now != before {
            assert(now.drop_last() =~= before);
        }
    }
}

/// Finishes the read of a page with the answers for the rows that were
/// fetched. `None` where an answer does not match its row: the short cut is
/// refused and the cache is as it was.
pub fn finish_page(
    cache: &mut DecodedJsonCache,
    scope: &Scope,
    rows: Vec<CoveredRow>,
    answers: Vec<Resolved>,
) -> (r: Option<Vec<(String, HostDocument)>>)
    requires
        forall|i: int|
            0 <= i < rows@.len() && (#[trigger] rows@[i]).document is None ==> rows@[i].version is Some,
    ensures
        ({
            let plan = row_views(rows@);
            let got = resolved_views(answers@);
            let n = plan.len() as int;
            match r {
                Some(docs) => {
                    &&& got.len() == missing_before(plan, n)
                    &&& documented(plan, got, n)
                    &&& document_views(docs@) == documents_of(plan, got, n)
                    &&& final(cache)@ == cache_after(old(cache)@, *scope, plan, got, n)
                },
                None => {
                    &&& got.len() != missing_before(plan, n) || !documented(plan, got, n)
                    &&& final(cache)@ == old(cache)@
                },
            }
        }),
{
    let ghost plan = row_views(rows@);
    let ghost got = resolved_views(answers@);
    let ghost n = plan.len() as int;
    let missing = keys_to_fetch(&rows);
    proof {
        lemma_missing_keys(plan, n);
        assert(missing@.len() == byte_views(missing@).len());
    }
    if answers.len() != missing.len() {
        return None;
    }
    let mut rest = queue_of(answers);
    let mut docs: Vec<(String, HostDocument)> = Vec::new();
    let mut list: Vec<Admission> = Vec::new();
    let mut pending = queue_of(rows);
    proof {
        assert(document_views(docs@) =~= documents_of(plan, got, 0));
        assert(admission_views(list@) =~= admissions_of(plan, got, 0));
    }
    let ghost mut i: int = 0;
    while pending.len() > 0
        invariant
            cache@ == old(cache)@,
            plan == row_views(rows@),
            got == resolved_views(answers@),
            n == plan.len(),
            0 <= i <= n,
            pending@.len() == n - i,
            got.len() == missing_before(plan, n),
            rest@.len() == got.len() - missing_before(plan, i),
            forall|k: int| 0 <= k < pending@.len() ==> (#[trigger] pending@[k])@ == plan[i + k],
            forall|k: int|
                0 <= k < rest@.len() ==> (#[trigger] rest@[k])@ == got[missing_before(plan, i) + k],
            forall|k: int|
                0 <= k < n && (#[trigger] plan[k]).document is None ==> plan[k].version is Some,
            documented(plan, got, i),
            document_views(docs@) == documents_of(plan, got, i),
            admission_views(list@) == admissions_of(plan, got, i),
        decreases pending@.len(),
    {
        let ghost left = pending@;
        let row = match pending.pop_front() {
            Some(row) => row,
            None => {
                return None;
            },
        };
        proof {
            assert(left[0] == row);
            assert(row@ == plan[i]);
            lemma_missing_bounds(plan, i + 1, n);
            lemma_missing_bounds(plan, i, i + 1);
        }
        let ghost done = document_views(docs@);
        let ghost listed = admission_views(list@);
        match row.document {
            Some(d) => {
                docs.push((row.key, d));
                proof {
                    assert(document_views(docs@) =~= done.push((plan[i].key, d@)));
                }
            },
            None => {
                let ghost answers_left = rest@;
                proof {
                    assert(plan[i].document is None);
                    assert(missing_before(plan, i + 1) == missing_before(plan, i) + 1);
                }
                let answer = match rest.pop_front() {
                    Some(a) => a,
                    None => {
                        return None;
                    },
                };
                proof {
                    assert(answers_left[0] == answer);
                    assert(answer@ == got[missing_before(plan, i)]);
                }
                match take_answer(&row, answer) {
                    None => {
                        proof {
                            assert(row_document(plan, got, i) is None);
                            assert(!documented(plan, got, n));
                        }
                        return None;
                    },
                    Some(f) => {
                        if let Some(a) = f.admission {
                            if let Some(version) = row.version {
                                list.push(
                                    Admission {
                                        key: row.key.clone(),
                                        version,
                                        value: a.0,
                                        len: a.1,
                                    },
                                );
                                proof {
                                    assert(admission_views(list@) =~= listed.push(
                                        list@[list@.len() - 1]@,
                                    ));
                                }
                            }
                        }
                        docs.push((row.key, f.document));
                        proof {
                            assert(document_views(docs@) =~= done.push(
                                (plan[i].key, row_document(plan, got, i)->0),
                            ));
                        }
                    },
                }
            },
        }
        proof {
            assert(document_views(docs@) =~= documents_of(plan, got, i + 1));
            assert(admission_views(list@) =~= admissions_of(plan, got, i + 1));
            i = i + 1;
        }
    }
    put_all(cache, scope, list);
    proof {
        law_admissions_in_order(old(cache)@, *scope, plan, got, n);
    }
    Some(docs)
}

/// The document that one answer of a plain batch read gives, and the cache
/// after it. A body whose version the cache holds is not decoded again.
pub open spec fn raw_step(c: CacheView, scope: Scope, r: ResolvedView) -> (
    CacheView,
    Result<(Seq<char>, HostDocumentView), ErrorView>,
) {
    match utf8_in(r.key) {
        None => (c, Err(ErrorView::Internal("get-many: non-UTF-8 key"@))),
        Some(key) => match (r.body, r.version, r.hole) {
            (Some(b), Some(v), None) => {
                let seen = observed(c, cached(c, scope.document(key), v) is Some);
                match cached(c, scope.document(key), v) {
                    Some(found) => (
                        seen,
                        Ok(
                            (
                                key,
                                HostDocumentView::Present {
                                    value: found.0,
                                    logical_bytes: b.payload_len,
                                },
                            ),
                        ),
                    ),
                    None => (
                        match b.decoded {
                            Ok(value) => with_document(
                                seen,
                                scope.document(key),
                                v,
                                value,
                                b.len,
                            ),
                            Err(_) => seen,
                        },
                        Ok((key, body_document(b))),
                    ),
                }
            },
            (None, _, Some(code)) => (c, Ok((key, HostDocumentView::Hole { code }))),
            (None, None, None) => (c, Ok((key, HostDocumentView::Absent))),
            _ => (
                c,
                Err(
                    ErrorView::Internal("get-many returned incoherent body/version/hole"@),
                ),
            ),
        },
    }
}

/// What a plain batch read gives, and the cache after it. The first refused
/// answer ends the read.
pub open spec fn raw_read(c: CacheView, scope: Scope, answers: Seq<ResolvedView>) -> (
    CacheView,
    Result<Seq<(Seq<char>, HostDocumentView)>, ErrorView>,
)
    decreases answers.len(),
{
    if answers.len() == 0 {
        (c, Ok(Seq::empty()))
    } else {
        let before = raw_read(c, scope, answers.drop_last());
        match before.1 {
            Err(_) => before,
            Ok(docs) => {
                let step = raw_step(before.0, scope, answers.last());
                match step.1 {
                    Ok(d) => (step.0, Ok(docs.push(d))),
                    Err(e) => (step.0, Err(e)),
                }
            },
        }
    }
}

/// A refusal stays one, whatever follows.
proof fn lemma_raw_refused(c: CacheView, scope: Scope, answers: Seq<ResolvedView>, n: int)
    requires
        0 <= n <= answers.len(),
        raw_read(c, scope, answers.take(n)).1 is Err,
    ensures
        raw_read(c, scope, answers) == raw_read(c, scope, answers.take(n)),
    decreases answers.len(),
{
    if n < answers.len() {
        assert(answers.drop_last().take(n) =~= answers.take(n));
        lemma_raw_refused(c, scope, answers.drop_last(), n);
    } else {
        assert(answers.take(n) =~= answers);
    }
}

/// Makes a document of one answer of a plain batch read.
fn raw_row(cache: &mut DecodedJsonCache, scope: &Scope, answer: Resolved) -> (r: Result<
    (String, HostDocument),
    Error,
>)
    ensures
        ({
            let step = raw_step(old(cache)@, *scope, answer@);
            &&& final(cache)@ == step.0
            &&& match r {
                Ok(d) => step.1 == Ok::<(Seq<char>, HostDocumentView), ErrorView>((d.0@, d.1@)),
                Err(e) => step.1 == Err::<(Seq<char>, HostDocumentView), ErrorView>(e@),
            }
        }),
{
    let key = match read_utf8(answer.key.as_slice()) {
        Some(key) => key,
        None => {
            return Err(Error::Internal("get-many: non-UTF-8 key".to_string()));
        },
    };
    match (answer.body, answer.version, answer.hole) {
        (Some(b), Some(v), None) => {
            let identity = scope.key(key.as_str());
            match cache.get(&identity, &v) {
                Some(value) => Ok(
                    (key, HostDocument::Present { value, logical_bytes: b.payload_len }),
                ),
                None => {
                    let f = document_of_body(b);
                    if let Some(a) = f.admission {
                        cache.insert(identity, v, a.0, a.1);
                    }
                    Ok((key, f.document))
                },
            }
        },
        (None, _, Some(code)) => Ok((key, HostDocument::Hole { code })),
        (None, None, None) => Ok((key, HostDocument::Absent)),
        _ => Err(
            Error::Internal("get-many returned incoherent body/version/hole".to_string()),
        ),
    }
}

/// Makes documents of the answers of a plain batch read.
pub fn read_raw(cache: &mut DecodedJsonCache, scope: &Scope, answers: Vec<Resolved>) -> (r: Result<
    Vec<(String, HostDocument)>,
    Error,
>)
    ensures
        ({
            let read = raw_read(old(cache)@, *scope, resolved_views(answers@));
            &&& final(cache)@ == read.0
            &&& match r {
                Ok(docs) => read.1 == Ok::<Seq<(Seq<char>, HostDocumentView)>, ErrorView>(
                    document_views(docs@),
                ),
                Err(e) => read.1 == Err::<Seq<(Seq<char>, HostDocumentView)>, ErrorView>(e@),
            }
        }),
{
    let ghost all = resolved_views(answers@);
    let ghost c = cache@;
    let mut rest = queue_of(answers);
    let mut docs: Vec<(String, HostDocument)> = Vec::new();
    let ghost mut i: int = 0;
    proof {
        assert(all.take(0) =~= Seq::empty());
        assert(document_views(docs@) =~= Seq::empty());
    }
    while rest.len() > 0
        invariant
            c == old(cache)@,
            all == resolved_views(answers@),
            0 <= i <= all.len(),
            rest@.len() == all.len() - i,
            forall|k: int| 0 <= k < rest@.len() ==> (#[trigger] rest@[k])@ == all[i + k],
            raw_read(c, *scope, all.take(i)) == (
                cache@,
                Ok::<Seq<(Seq<char>, HostDocumentView)>, ErrorView>(document_views(docs@)),
            ),
        decreases rest@.len(),
    {
        let ghost left = rest@;
        if let Some(a) = rest.pop_front() {
            proof {
                assert(left[0] == a);
                assert(a@ == all[i]);
                assert(all.take(i + 1).drop_last() =~= all.take(i));
                assert(all.take(i + 1).last() == all[i]);
            }
            let ghost done = document_views(docs@);
            match raw_row(cache, scope, a) {
                Ok(d) => {
                    let ghost view = (d.0@, d.1@);
                    docs.push(d);
                    proof {
                        assert(document_views(docs@) =~= done.push(view));
                        i = i + 1;
                    }
                },
                Err(e) => {
                    proof {
                        lemma_raw_refused(c, *scope, all, i + 1);
                    }
                    return Err(e);
                },
            }
        }
    }
    proof {
        assert(all.take(all.len() as int) =~= all);
    }
    Ok(docs)
}

} // verus!
