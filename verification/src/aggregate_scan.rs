//! Scans that need only some fields of each document.
//!
//! Like a covered read, a scan learns keys and versions first and takes what
//! it can from the cache. Unlike a covered read it has no place for holes: any
//! answer that is not exactly the version that was asked for refuses the short
//! cut, and the caller runs the ordinary query.
use crate::codec::{read_utf8, same16, utf8_in};
use crate::covered_reads::{
    admission_views, copy_bytes, entry_views, identity_views, put_all, queue_of, resolved_views,
    with_admissions, Admission, AdmissionView, BodyView, Resolved, ResolvedView, Scope,
};
use crate::decoded_cache::{
    cached, cached_projection, clone_optional, field_values, observed, project_json_fields,
    projection_fields_hash, value_views, with_projection, CacheView, DecodedJsonCache,
    DecodedJsonKey, ProjectedJsonKey, Projection, field_list_bytes,
};
use crate::digest::blake3_digest;
use crate::error::{Error, ErrorView};
use crate::json::{models, Json, JsonView};
use crate::text::{same_bytes, same_text, texts};
use std::sync::Arc;
use vstd::prelude::*;

verus! {

/// A document that a scan needs, by key and version.
#[derive(Debug)]
pub struct Required {
    /// Application key.
    pub key: String,
    /// The key as the store has it.
    pub raw_key: Vec<u8>,
    /// The version that was seen.
    pub version: [u8; 16],
}

/// Model of a [`Required`].
#[verifier::ext_equal]
pub struct RequiredView {
    pub key: Seq<char>,
    pub raw_key: Seq<u8>,
    pub version: Seq<u8>,
}

impl View for Required {
    type V = RequiredView;

    open spec fn view(&self) -> RequiredView {
        RequiredView { key: self.key@, raw_key: self.raw_key@, version: self.version@ }
    }
}

impl Clone for Required {
    fn clone(&self) -> (r: Required)
        ensures
            r@ == self@,
    {
        Required {
            key: self.key.clone(),
            raw_key: copy_bytes(self.raw_key.as_slice()),
            version: self.version,
        }
    }
}

/// The models of a list of requirements.
pub open spec fn required_views(v: Seq<Required>) -> Seq<RequiredView> {
    v.map_values(|r: Required| r@)
}

/// The body of an answer that is exactly what was asked for.
pub open spec fn exact_body(want: RequiredView, r: ResolvedView) -> Option<BodyView> {
    if r.key == want.raw_key && r.hole is None && r.version == Some(want.version) {
        r.body
    } else {
        None
    }
}

/// What was read for an answer: the document and its encoded length, or why it
/// does not decode.
enum Exact {
    Drift,
    Failed(Error),
    Document(Json, usize),
}

fn take_exact(want: &Required, answer: Resolved) -> (r: Exact)
    ensures
        match r {
            Exact::Drift => exact_body(want@, answer@) is None,
            Exact::Failed(e) => (exact_body(want@, answer@) matches Some(b) && b.decoded == Err::<
                JsonView,
                ErrorView,
            >(e@)),
            Exact::Document(v, len) => (exact_body(want@, answer@) matches Some(b) && b.decoded
                == Ok::<JsonView, ErrorView>(v@) && b.len == len),
        },
{
    if !same_bytes(answer.key.as_slice(), want.raw_key.as_slice()) || answer.hole.is_some() {
        return Exact::Drift;
    }
    match answer.version {
        Some(v) => if !same16(&v, &want.version) {
            return Exact::Drift;
        },
        None => {
            return Exact::Drift;
        },
    }
    match answer.body {
        None => Exact::Drift,
        Some(b) => match b.decoded {
            Ok(v) => Exact::Document(v, b.len),
            Err(e) => Exact::Failed(e),
        },
    }
}

/// The requirements that the cache does not meet.
pub open spec fn unmet(c: CacheView, scope: Scope, required: Seq<RequiredView>) -> Seq<
    RequiredView,
>
    decreases required.len(),
{
    if required.len() == 0 {
        Seq::empty()
    } else {
        let before = unmet(c, scope, required.drop_last());
        let last = required.last();
        if cached(c, scope.document(last.key), last.version) is None {
            before.push(last)
        } else {
            before
        }
    }
}

/// The cache after looking every requirement up.
pub open spec fn looked_for(c: CacheView, scope: Scope, required: Seq<RequiredView>) -> CacheView
    decreases required.len(),
{
    if required.len() == 0 {
        c
    } else {
        let last = required.last();
        observed(
            looked_for(c, scope, required.drop_last()),
            cached(c, scope.document(last.key), last.version) is Some,
        )
    }
}

proof fn lemma_looked_for(c: CacheView, scope: Scope, required: Seq<RequiredView>)
    ensures
        looked_for(c, scope, required).documents == c.documents,
        looked_for(c, scope, required).projections == c.projections,
        looked_for(c, scope, required).max == c.max,
    decreases required.len(),
{
    if required.len() > 0 {
        lemma_looked_for(c, scope, required.drop_last());
    }
}

fn identity(scope: &Scope, key: &str) -> (r: DecodedJsonKey)
    ensures
        r@ == scope.document(key@),
{
    DecodedJsonKey {
        heap_id: scope.heap_id,
        collection_id: scope.collection_id,
        key: key.to_string(),
    }
}

/// Looks every requirement up and gives those that have to be fetched.
pub fn plan_entries(cache: &mut DecodedJsonCache, scope: &Scope, required: &Vec<Required>) -> (r:
    Vec<Required>)
    ensures
        required_views(r@) == unmet(old(cache)@, *scope, required_views(required@)),
        final(cache)@ == looked_for(old(cache)@, *scope, required_views(required@)),
{
    let ghost c = cache@;
    let ghost all = required_views(required@);
    let mut out: Vec<Required> = Vec::new();
    proof {
        assert(required_views(out@) =~= unmet(c, *scope, all.take(0)));
    }
    for i in 0..required.len()
        invariant
            c == old(cache)@,
            all == required_views(required@),
            required_views(out@) == unmet(c, *scope, all.take(i as int)),
            cache@ == looked_for(c, *scope, all.take(i as int)),
    {
        proof {
            assert(all.take(i + 1).drop_last() =~= all.take(i as int));
            assert(all.take(i + 1).last() == required@[i as int]@);
            lemma_looked_for(c, *scope, all.take(i as int));
        }
        let ghost before = required_views(out@);
        if cache.get(
            &identity(scope, required[i].key.as_str()),
            &required[i].version,
        ).is_none() {
            out.push(required[i].clone());
            proof {
                assert(required_views(out@) =~= before.push(all[i as int]));
            }
        }
    }
    proof {
        assert(all.take(all.len() as int) =~= all);
    }
    out
}

/// What answers make of requirements, one by one: documents on their way into
/// the cache, until one answer drifts or does not decode.
#[verifier::ext_equal]
pub enum Fetch {
    Documents(Seq<AdmissionView>),
    Drift,
    Failed(ErrorView),
}

/// What the first `n` answers make of the first `n` requirements.
pub open spec fn fetched(wanted: Seq<RequiredView>, answers: Seq<ResolvedView>, n: int) -> Fetch
    decreases n,
{
    if n <= 0 {
        Fetch::Documents(Seq::empty())
    } else {
        match fetched(wanted, answers, n - 1) {
            Fetch::Documents(list) => match exact_body(wanted[n - 1], answers[n - 1]) {
                None => Fetch::Drift,
                Some(b) => match b.decoded {
                    Ok(value) => Fetch::Documents(
                        list.push(
                            AdmissionView {
                                key: wanted[n - 1].key,
                                version: wanted[n - 1].version,
                                value,
                                len: b.len,
                            },
                        ),
                    ),
                    Err(e) => Fetch::Failed(e),
                },
            },
            other => other,
        }
    }
}

/// The first answer that drifts or fails decides.
proof fn lemma_fetched_stuck(
    wanted: Seq<RequiredView>,
    answers: Seq<ResolvedView>,
    i: int,
    n: int,
)
    requires
        i <= n,
        !(fetched(wanted, answers, i) is Documents),
    ensures
        fetched(wanted, answers, n) == fetched(wanted, answers, i),
    decreases n - i,
{
    if i < n {
        lemma_fetched_stuck(wanted, answers, i, n - 1);
    }
}

/// Puts the fetched documents into the cache. `false` where an answer is not
/// what was asked for: the short cut is refused and the cache is as it was.
pub fn finish_entries(
    cache: &mut DecodedJsonCache,
    scope: &Scope,
    wanted: &Vec<Required>,
    answers: Vec<Resolved>,
) -> (r: Result<bool, Error>)
    ensures
        ({
            let want = required_views(wanted@);
            let got = resolved_views(answers@);
            if got.len() != want.len() {
                r == Ok::<bool, Error>(false) && final(cache)@ == old(cache)@
            } else {
                match fetched(want, got, want.len() as int) {
                    Fetch::Documents(list) => r == Ok::<bool, Error>(true) && final(cache)@
                        == with_admissions(old(cache)@, *scope, list),
                    Fetch::Drift => r == Ok::<bool, Error>(false) && final(cache)@ == old(cache)@,
                    Fetch::Failed(e) => r is Err && r->Err_0@ == e && final(cache)@ == old(cache)@,
                }
            }
        }),
{
    let ghost want = required_views(wanted@);
    let ghost got = resolved_views(answers@);
    let ghost n = want.len() as int;
    if answers.len() != wanted.len() {
        return Ok(false);
    }
    let mut rest = queue_of(answers);
    let mut list: Vec<Admission> = Vec::new();
    proof {
        assert(admission_views(list@) =~= Seq::empty());
    }
    for i in 0..wanted.len()
        invariant
            cache@ == old(cache)@,
            want == required_views(wanted@),
            got == resolved_views(answers@),
            n == want.len(),
            got.len() == n,
            rest@.len() == n - i,
            forall|k: int| 0 <= k < rest@.len() ==> (#[trigger] rest@[k])@ == got[i + k],
            fetched(want, got, i as int) == Fetch::Documents(admission_views(list@)),
    {
        let ghost left = rest@;
        let ghost listed = admission_views(list@);
        if let Some(answer) = rest.pop_front() {
            proof {
                assert(left[0] == answer);
                assert(answer@ == got[i as int]);
                assert(want[i as int] == wanted@[i as int]@);
            }
            match take_exact(&wanted[i], answer) {
                Exact::Drift => {
                    proof {
                        lemma_fetched_stuck(want, got, i + 1, n);
                    }
                    return Ok(false);
                },
                Exact::Failed(e) => {
                    proof {
                        lemma_fetched_stuck(want, got, i + 1, n);
                    }
                    return Err(e);
                },
                Exact::Document(value, len) => {
                    list.push(
                        Admission {
                            key: wanted[i].key.clone(),
                            version: wanted[i].version,
                            value: Arc::new(value),
                            len,
                        },
                    );
                    proof {
                        assert(admission_views(list@) =~= listed.push(list@[list@.len() - 1]@));
                    }
                },
            }
        }
    }
    put_all(cache, scope, list);
    Ok(true)
}

/// What the keys and versions of a page require. A key that is not UTF-8 is an
/// error.
pub open spec fn page_required(entries: Seq<(Seq<u8>, Seq<u8>)>, message: Seq<char>) -> Result<
    Seq<RequiredView>,
    ErrorView,
>
    decreases entries.len(),
{
    if entries.len() == 0 {
        Ok(Seq::empty())
    } else {
        match page_required(entries.drop_last(), message) {
            Err(e) => Err(e),
            Ok(list) => match utf8_in(entries.last().0) {
                Some(key) => Ok(
                    list.push(
                        RequiredView {
                            key,
                            raw_key: entries.last().0,
                            version: entries.last().1,
                        },
                    ),
                ),
                None => Err(ErrorView::Internal(message)),
            },
        }
    }
}

proof fn lemma_page_refused(entries: Seq<(Seq<u8>, Seq<u8>)>, message: Seq<char>, n: int)
    requires
        0 <= n <= entries.len(),
        page_required(entries.take(n), message) is Err,
    ensures
        page_required(entries, message) == page_required(entries.take(n), message),
    decreases entries.len(),
{
    if n < entries.len() {
        assert(entries.drop_last().take(n) =~= entries.take(n));
        lemma_page_refused(entries.drop_last(), message, n);
    } else {
        assert(entries.take(n) =~= entries);
    }
}

/// Reads the keys and versions of a page.
pub fn require_page(entries: &Vec<(Vec<u8>, [u8; 16])>, message: &str) -> (r: Result<
    Vec<Required>,
    Error,
>)
    ensures
        match r {
            Ok(list) => page_required(entry_views(entries@), message@) == Ok::<
                Seq<RequiredView>,
                ErrorView,
            >(required_views(list@)),
            Err(e) => page_required(entry_views(entries@), message@) == Err::<
                Seq<RequiredView>,
                ErrorView,
            >(e@),
        },
{
    let ghost page = entry_views(entries@);
    let mut out: Vec<Required> = Vec::new();
    proof {
        assert(page.take(0) =~= Seq::empty());
        assert(required_views(out@) =~= Seq::empty());
    }
    for i in 0..entries.len()
        invariant
            page == entry_views(entries@),
            page_required(page.take(i as int), message@) == Ok::<Seq<RequiredView>, ErrorView>(
                required_views(out@),
            ),
    {
        let raw = entries[i].0.as_slice();
        let ghost before = required_views(out@);
        proof {
            assert(page.take(i + 1).drop_last() =~= page.take(i as int));
            assert(page.take(i + 1).last() == (raw@, entries@[i as int].1@));
        }
        match read_utf8(raw) {
            Some(key) => {
                out.push(Required { key, raw_key: copy_bytes(raw), version: entries[i].1 });
                proof {
                    assert(required_views(out@) =~= before.push(out@[out@.len() - 1]@));
                }
            },
            None => {
                proof {
                    lemma_page_refused(page, message@, i + 1);
                }
                return Err(Error::Internal(message.to_string()));
            },
        }
    }
    proof {
        assert(page.take(page.len() as int) =~= page);
    }
    Ok(out)
}

/// What candidate keys require, given the versions the store gave for them;
/// `None` where the store answered for other keys or one has no document.
pub open spec fn candidates_required(
    keys: Seq<Seq<char>>,
    ids: Seq<(Seq<u8>, Option<Seq<u8>>)>,
) -> Option<Seq<RequiredView>> {
    if ids.len() == keys.len() && forall|i: int|
        0 <= i < keys.len() ==> (#[trigger] ids[i]).0 == vstd::utf8::encode_utf8(keys[i])
            && ids[i].1 is Some {
        Some(
            Seq::new(
                keys.len(),
                |i: int|
                    RequiredView { key: keys[i], raw_key: ids[i].0, version: ids[i].1->0 },
            ),
        )
    } else {
        None
    }
}

/// Most candidate keys that an aggregate scan takes.
pub const MAX_CANDIDATES: usize = 4096;

/// Reads the versions of candidate keys. More candidates than the limit are
/// refused.
pub fn require_candidates(
    keys: &Vec<String>,
    identities: &Vec<(Vec<u8>, Option<[u8; 16]>)>,
) -> (r: Option<Vec<Required>>)
    ensures
        match r {
            Some(list) => keys@.len() <= MAX_CANDIDATES && candidates_required(
                texts(keys@),
                identity_views(identities@),
            ) == Some(required_views(list@)),
            None => keys@.len() > MAX_CANDIDATES || candidates_required(
                texts(keys@),
                identity_views(identities@),
            ) is None,
        },
{
    if keys.len() > MAX_CANDIDATES || identities.len() != keys.len() {
        return None;
    }
    let ghost names = texts(keys@);
    let ghost ids = identity_views(identities@);
    let mut out: Vec<Required> = Vec::new();
    for i in 0..keys.len()
        invariant
            names == texts(keys@),
            ids == identity_views(identities@),
            identities@.len() == keys@.len(),
            out@.len() == i,
            forall|k: int|
                0 <= k < i ==> (#[trigger] ids[k]).0 == vstd::utf8::encode_utf8(names[k])
                    && ids[k].1 is Some,
            forall|k: int|
                0 <= k < i ==> (#[trigger] out@[k])@ == (RequiredView {
                    key: names[k],
                    raw_key: ids[k].0,
                    version: ids[k].1->0,
                }),
    {
        let raw = keys[i].as_str().as_bytes();
        proof {
            assert(ids[i as int] == (identities@[i as int].0@, ids[i as int].1));
            assert(names[i as int] == keys@[i as int]@);
        }
        if !same_bytes(identities[i].0.as_slice(), raw) {
            return None;
        }
        match identities[i].1 {
            Some(version) => {
                out.push(Required { key: keys[i].clone(), raw_key: copy_bytes(raw), version });
            },
            None => {
                return None;
            },
        }
    }
    proof {
        assert(required_views(out@) =~= candidates_required(names, ids)->0);
    }
    Some(out)
}

/// A row of a projected scan: what is required, and the values of the fields
/// where the cache has the document.
#[derive(Debug)]
pub struct ProjectedRow {
    /// The document.
    pub required: Required,
    /// The values of the fields, where they need not be fetched.
    pub values: Option<Vec<Json>>,
}

/// Model of a [`ProjectedRow`].
#[verifier::ext_equal]
pub struct ProjectedRowView {
    pub required: RequiredView,
    pub values: Option<Seq<JsonView>>,
}

impl View for ProjectedRow {
    type V = ProjectedRowView;

    open spec fn view(&self) -> ProjectedRowView {
        ProjectedRowView {
            required: self.required@,
            values: match self.values {
                Some(v) => Some(models(v@)),
                None => None,
            },
        }
    }
}

/// The models of the rows of a projected scan.
pub open spec fn projected_views(v: Seq<ProjectedRow>) -> Seq<ProjectedRowView> {
    v.map_values(|r: ProjectedRow| r@)
}

/// The rows of a projected scan before anything is fetched.
pub open spec fn projected_plan(
    c: CacheView,
    scope: Scope,
    required: Seq<RequiredView>,
    fields: Seq<Seq<char>>,
) -> Seq<ProjectedRowView> {
    Seq::new(
        required.len(),
        |i: int|
            ProjectedRowView {
                required: required[i],
                values: match cached(c, scope.document(required[i].key), required[i].version) {
                    Some(found) => Some(field_values(found.0, fields)),
                    None => None,
                },
            },
    )
}

/// Takes the values of the fields from the cache where it has the document.
pub fn plan_projected(
    cache: &mut DecodedJsonCache,
    scope: &Scope,
    required: &Vec<Required>,
    fields: &Vec<String>,
) -> (r: Vec<ProjectedRow>)
    ensures
        projected_views(r@) == projected_plan(
            old(cache)@,
            *scope,
            required_views(required@),
            texts(fields@),
        ),
        final(cache)@ == looked_for(old(cache)@, *scope, required_views(required@)),
{
    let ghost c = cache@;
    let ghost all = required_views(required@);
    let ghost names = texts(fields@);
    let ghost plan = projected_plan(c, *scope, all, names);
    let mut out: Vec<ProjectedRow> = Vec::new();
    proof {
        assert(all.take(0) =~= Seq::empty());
    }
    for i in 0..required.len()
        invariant
            c == old(cache)@,
            all == required_views(required@),
            names == texts(fields@),
            plan == projected_plan(c, *scope, all, names),
            out@.len() == i,
            forall|k: int| 0 <= k < i ==> (#[trigger] out@[k])@ == plan[k],
            cache@ == looked_for(c, *scope, all.take(i as int)),
    {
        proof {
            assert(all.take(i + 1).drop_last() =~= all.take(i as int));
            assert(all.take(i + 1).last() == required@[i as int]@);
            lemma_looked_for(c, *scope, all.take(i as int));
        }
        let values = cache.get_projected(
            &identity(scope, required[i].key.as_str()),
            &required[i].version,
            fields,
        );
        out.push(ProjectedRow { required: required[i].clone(), values });
        proof {
            assert(all[i as int] == required@[i as int]@);
            assert(out@[i as int]@ == plan[i as int]);
        }
    }
    proof {
        assert(all.take(all.len() as int) =~= all);
        assert(projected_views(out@) =~= plan);
    }
    out
}

/// How many of the first `n` rows have to be fetched.
pub open spec fn rows_to_fetch(rows: Seq<ProjectedRowView>, n: int) -> int
    decreases n,
{
    if n <= 0 {
        0
    } else if rows[n - 1].values is None {
        rows_to_fetch(rows, n - 1) + 1
    } else {
        rows_to_fetch(rows, n - 1)
    }
}

/// Counting stays within the rows and never goes down.
proof fn lemma_rows_to_fetch(rows: Seq<ProjectedRowView>, n: int)
    requires
        0 <= n,
    ensures
        0 <= rows_to_fetch(rows, n) <= n,
    decreases n,
{
    if n > 0 {
        lemma_rows_to_fetch(rows, n - 1);
    }
}

/// What the answers make of the first rows of a projected scan. A row that no
/// answer came for stays open.
#[verifier::ext_equal]
pub enum ProjectedPass {
    Rows(Seq<Option<Seq<JsonView>>>, Seq<AdmissionView>),
    Drift,
    Failed(ErrorView),
}

/// What the answers make of the first `n` rows.
pub open spec fn projected_pass(
    rows: Seq<ProjectedRowView>,
    answers: Seq<ResolvedView>,
    fields: Seq<Seq<char>>,
    n: int,
) -> ProjectedPass
    decreases n,
{
    if n <= 0 {
        ProjectedPass::Rows(Seq::empty(), Seq::empty())
    } else {
        match projected_pass(rows, answers, fields, n - 1) {
            ProjectedPass::Rows(done, list) => {
                let row = rows[n - 1];
                let at = rows_to_fetch(rows, n - 1);
                if row.values is Some {
                    ProjectedPass::Rows(done.push(row.values), list)
                } else if at >= answers.len() {
                    ProjectedPass::Rows(done.push(None), list)
                } else {
                    match exact_body(row.required, answers[at]) {
                        None => ProjectedPass::Drift,
                        Some(b) => match b.decoded {
                            Err(e) => ProjectedPass::Failed(e),
                            Ok(value) => ProjectedPass::Rows(
                                done.push(Some(field_values(value, fields))),
                                list.push(
                                    AdmissionView {
                                        key: row.required.key,
                                        version: row.required.version,
                                        value,
                                        len: b.len,
                                    },
                                ),
                            ),
                        },
                    }
                }
            },
            other => other,
        }
    }
}

proof fn lemma_projected_stuck(
    rows: Seq<ProjectedRowView>,
    answers: Seq<ResolvedView>,
    fields: Seq<Seq<char>>,
    i: int,
    n: int,
)
    requires
        i <= n,
        !(projected_pass(rows, answers, fields, i) is Rows),
    ensures
        projected_pass(rows, answers, fields, n) == projected_pass(rows, answers, fields, i),
    decreases n - i,
{
    if i < n {
        lemma_projected_stuck(rows, answers, fields, i, n - 1);
    }
}

/// The models of rows of values.
pub open spec fn value_rows(v: Seq<Vec<Json>>) -> Seq<Seq<JsonView>> {
    v.map_values(|r: Vec<Json>| models(r@))
}

/// Every row has its values.
pub open spec fn all_there(rows: Seq<Option<Seq<JsonView>>>) -> bool {
    forall|i: int| 0 <= i < rows.len() ==> (#[trigger] rows[i]) is Some
}

/// The values of rows that all have them.
pub open spec fn values_of(rows: Seq<Option<Seq<JsonView>>>) -> Seq<Seq<JsonView>> {
    rows.map_values(|r: Option<Seq<JsonView>>| r->0)
}

/// Finishes one page of a projected scan. `None` where an answer is not what
/// was asked for; a body that does not decode, or a row without an answer, is
/// an error.
pub fn finish_projected(
    cache: &mut DecodedJsonCache,
    scope: &Scope,
    fields: &Vec<String>,
    rows: Vec<ProjectedRow>,
    answers: Vec<Resolved>,
) -> (r: Result<Option<Vec<Vec<Json>>>, Error>)
    ensures
        ({
            let plan = projected_views(rows@);
            match projected_pass(
                plan,
                resolved_views(answers@),
                texts(fields@),
                plan.len() as int,
            ) {
                ProjectedPass::Drift => r == Ok::<Option<Vec<Vec<Json>>>, Error>(None)
                    && final(cache)@ == old(cache)@,
                ProjectedPass::Failed(e) => r is Err && r->Err_0@ == e && final(cache)@
                    == old(cache)@,
                ProjectedPass::Rows(done, list) => {
                    &&& final(cache)@ == with_admissions(old(cache)@, *scope, list)
                    &&& if all_there(done) {
                        (r matches Ok(Some(out)) && value_rows(out@) == values_of(done))
                    } else {
                        r is Err && r->Err_0@ == ErrorView::Internal(
                            "projected scan left an unresolved row"@,
                        )
                    }
                },
            }
        }),
{
    let ghost plan = projected_views(rows@);
    let ghost got = resolved_views(answers@);
    let ghost names = texts(fields@);
    let ghost n = plan.len() as int;
    let mut pending = queue_of(rows);
    let mut rest = queue_of(answers);
    let mut out: Vec<Vec<Json>> = Vec::new();
    let mut list: Vec<Admission> = Vec::new();
    let mut open = false;
    let ghost mut done: Seq<Option<Seq<JsonView>>> = Seq::empty();
    let ghost mut i: int = 0;
    proof {
        assert(admission_views(list@) =~= Seq::empty());
        assert(value_rows(out@) =~= values_of(done));
    }
    while pending.len() > 0
        invariant
            cache@ == old(cache)@,
            plan == projected_views(rows@),
            got == resolved_views(answers@),
            names == texts(fields@),
            n == plan.len(),
            0 <= i <= n,
            pending@.len() == n - i,
            forall|k: int| 0 <= k < pending@.len() ==> (#[trigger] pending@[k])@ == plan[i + k],
            rest@.len() == (if rows_to_fetch(plan, i) < got.len() {
                got.len() - rows_to_fetch(plan, i)
            } else {
                0
            }),
            forall|k: int|
                0 <= k < rest@.len() ==> (#[trigger] rest@[k])@ == got[rows_to_fetch(plan, i) + k],
            projected_pass(plan, got, names, i) == ProjectedPass::Rows(done, admission_views(list@)),
            done.len() == i,
            open == !all_there(done),
            !open ==> value_rows(out@) == values_of(done),
        decreases pending@.len(),
    {
        let ghost left = pending@;
        if let Some(row) = pending.pop_front() {
            proof {
                assert(left[0] == row);
                assert(row@ == plan[i]);
                lemma_rows_to_fetch(plan, i);
            }
            let ghost listed = admission_views(list@);
            let ghost before = value_rows(out@);
            let ghost answers_left = rest@;
            match row.values {
                Some(v) => {
                    out.push(v);
                    proof {
                        let longer = done.push(Some(models(v@)));
                        assert(value_rows(out@) =~= before.push(models(v@)));
                        assert(all_there(longer) == all_there(done)) by {
                            lemma_all_there_push(done, Some(models(v@)));
                        }
                        assert(values_of(longer) =~= values_of(done).push(models(v@)));
                        done = longer;
                    }
                },
                None => {
                    match rest.pop_front() {
                        None => {
                            open = true;
                            proof {
                                lemma_all_there_push(done, None);
                                done = done.push(None);
                            }
                        },
                        Some(answer) => {
                            proof {
                                assert(answers_left[0] == answer);
                                assert(answer@ == got[rows_to_fetch(plan, i)]);
                            }
                            match take_exact(&row.required, answer) {
                                Exact::Drift => {
                                    proof {
                                        lemma_projected_stuck(plan, got, names, i + 1, n);
                                    }
                                    return Ok(None);
                                },
                                Exact::Failed(e) => {
                                    proof {
                                        lemma_projected_stuck(plan, got, names, i + 1, n);
                                    }
                                    return Err(e);
                                },
                                Exact::Document(value, len) => {
                                    let v = project_json_fields(&value, fields);
                                    let ghost view = models(v@);
                                    out.push(v);
                                    list.push(
                                        Admission {
                                            key: row.required.key,
                                            version: row.required.version,
                                            value: Arc::new(value),
                                            len,
                                        },
                                    );
                                    proof {
                                        let longer = done.push(Some(view));
                                        assert(value_rows(out@) =~= before.push(view));
                                        lemma_all_there_push(done, Some(view));
                                        assert(values_of(longer) =~= values_of(done).push(view));
                                        assert(admission_views(list@) =~= listed.push(
                                            list@[list@.len() - 1]@,
                                        ));
                                        done = longer;
                                    }
                                },
                            }
                        },
                    }
                },
            }
            proof {
                i = i + 1;
            }
        }
    }
    put_all(cache, scope, list);
    if open {
        return Err(Error::Internal("projected scan left an unresolved row".to_string()));
    }
    Ok(Some(out))
}

proof fn lemma_all_there_push(rows: Seq<Option<Seq<JsonView>>>, row: Option<Seq<JsonView>>)
    ensures
        all_there(rows.push(row)) == (all_there(rows) && row is Some),
{
    let longer = rows.push(row);
    if all_there(longer) {
        assert forall|i: int| 0 <= i < rows.len() implies (#[trigger] rows[i]) is Some by {
            assert(longer[i] == rows[i]);
        }
        assert(longer[rows.len() as int] == row);
    }
}

/// Where a scan goes on after a page.
#[verifier::ext_equal]
pub enum NextPage {
    /// There are no more pages.
    Done,
    /// Go on behind this key.
    After(Vec<u8>),
}

/// Decides where a scan goes on. A page that has more behind it must say where.
pub fn next_page(has_more: bool, last_key: Option<Vec<u8>>, message: &str) -> (r: Result<
    NextPage,
    Error,
>)
    ensures
        match r {
            Ok(NextPage::Done) => !has_more,
            Ok(NextPage::After(k)) => has_more && last_key == Some(k),
            Err(e) => has_more && last_key is None && e@ == ErrorView::Internal(message@),
        },
{
    if !has_more {
        return Ok(NextPage::Done);
    }
    match last_key {
        Some(k) => Ok(NextPage::After(k)),
        None => Err(Error::Internal(message.to_string())),
    }
}

/// A stored body of which only some fields were read.
#[derive(Debug)]
pub struct FieldBody {
    /// Length of the JSON payload, or why the body has none.
    pub payload_len: Result<u64, Error>,
    /// The value of each field, `None` where a field is absent. `Ok(None)`
    /// where the fields cannot be read apart from the document.
    pub fields: Result<Option<Vec<Option<Json>>>, Error>,
    /// Size estimate of the values that are there.
    pub value_charge: usize,
}

/// One answer of a batch fetch for some fields.
#[derive(Debug)]
pub struct FieldAnswer {
    /// The key the answer is for.
    pub key: Vec<u8>,
    /// The body, where there is one.
    pub body: Option<FieldBody>,
    /// The version, where there is one.
    pub version: Option<[u8; 16]>,
    /// Whether the document cannot be read.
    pub hole: bool,
}

/// What an answer makes of a requirement.
#[verifier::ext_equal]
pub enum FieldRead {
    /// The values, the payload length and the size estimate.
    Values(Seq<Option<JsonView>>, u64, usize),
    Drift,
    Failed(ErrorView),
}

/// What an answer makes of a requirement.
pub open spec fn field_read(want: RequiredView, a: FieldAnswer) -> FieldRead {
    if a.key@ != want.raw_key || a.hole || !(a.version is Some && a.version->0@ == want.version) {
        FieldRead::Drift
    } else {
        match a.body {
            None => FieldRead::Drift,
            Some(b) => match b.payload_len {
                Err(e) => FieldRead::Failed(e@),
                Ok(len) => match b.fields {
                    Err(e) => FieldRead::Failed(e@),
                    Ok(None) => FieldRead::Drift,
                    Ok(Some(v)) => FieldRead::Values(value_views(v@), len, b.value_charge),
                },
            },
        }
    }
}

enum FieldTake {
    Values(Vec<Option<Json>>, u64, usize),
    Drift,
    Failed(Error),
}

fn take_fields(want: &Required, a: FieldAnswer) -> (r: FieldTake)
    ensures
        match r {
            FieldTake::Values(v, len, charge) => field_read(want@, a) == FieldRead::Values(
                value_views(v@),
                len,
                charge,
            ),
            FieldTake::Drift => field_read(want@, a) is Drift,
            FieldTake::Failed(e) => field_read(want@, a) == FieldRead::Failed(e@),
        },
{
    if !same_bytes(a.key.as_slice(), want.raw_key.as_slice()) || a.hole {
        return FieldTake::Drift;
    }
    match a.version {
        Some(v) => if !same16(&v, &want.version) {
            return FieldTake::Drift;
        },
        None => {
            return FieldTake::Drift;
        },
    }
    match a.body {
        None => FieldTake::Drift,
        Some(b) => match b.payload_len {
            Err(e) => FieldTake::Failed(e),
            Ok(len) => match b.fields {
                Err(e) => FieldTake::Failed(e),
                Ok(None) => FieldTake::Drift,
                Ok(Some(v)) => FieldTake::Values(v, len, b.value_charge),
            },
        },
    }
}

/// A row of an aggregate scan: the key, the values of the fields and the
/// payload length.
#[derive(Debug)]
pub struct FieldRow {
    /// Application key.
    pub key: String,
    /// The value of each field; `None` where it is absent.
    pub values: Vec<Option<Json>>,
    /// Payload length in bytes.
    pub logical_bytes: u64,
}

/// Model of a [`FieldRow`].
#[verifier::ext_equal]
pub struct FieldRowView {
    pub key: Seq<char>,
    pub values: Seq<Option<JsonView>>,
    pub logical_bytes: u64,
}

impl View for FieldRow {
    type V = FieldRowView;

    open spec fn view(&self) -> FieldRowView {
        FieldRowView {
            key: self.key@,
            values: value_views(self.values@),
            logical_bytes: self.logical_bytes,
        }
    }
}

/// The models of rows of an aggregate scan.
pub open spec fn field_rows(v: Seq<FieldRow>) -> Seq<FieldRowView> {
    v.map_values(|r: FieldRow| r@)
}

/// The cached projection of a required document.
pub open spec fn cached_fields(
    c: CacheView,
    scope: Scope,
    want: RequiredView,
    fields: Seq<Seq<char>>,
) -> Option<Projection> {
    cached_projection(
        c,
        (scope.document(want.key), blake3_digest(field_list_bytes(fields))),
        want.version,
        fields,
    )
}

/// The requirements whose projection is not cached.
pub open spec fn unprojected(
    c: CacheView,
    scope: Scope,
    required: Seq<RequiredView>,
    fields: Seq<Seq<char>>,
    n: int,
) -> Seq<RequiredView>
    decreases n,
{
    if n <= 0 {
        Seq::empty()
    } else if cached_fields(c, scope, required[n - 1], fields) is None {
        unprojected(c, scope, required, fields, n - 1).push(required[n - 1])
    } else {
        unprojected(c, scope, required, fields, n - 1)
    }
}

fn projected_identity(scope: &Scope, key: &str, fields_hash: [u8; 32]) -> (r: ProjectedJsonKey)
    ensures
        r@ == (scope.document(key@), fields_hash@),
{
    ProjectedJsonKey { document: identity(scope, key), fields_hash }
}

/// The required documents whose projection has to be fetched.
pub fn plan_fields(
    cache: &DecodedJsonCache,
    scope: &Scope,
    required: &Vec<Required>,
    fields: &Vec<String>,
) -> (r: Vec<Required>)
    ensures
        required_views(r@) == unprojected(
            cache@,
            *scope,
            required_views(required@),
            texts(fields@),
            required@.len() as int,
        ),
{
    let ghost all = required_views(required@);
    let ghost names = texts(fields@);
    let fields_hash = projection_fields_hash(fields);
    let mut out: Vec<Required> = Vec::new();
    proof {
        assert(required_views(out@) =~= Seq::empty());
    }
    for i in 0..required.len()
        invariant
            all == required_views(required@),
            names == texts(fields@),
            fields_hash@ == blake3_digest(field_list_bytes(names)),
            required_views(out@) == unprojected(cache@, *scope, all, names, i as int),
    {
        proof {
            assert(all[i as int] == required@[i as int]@);
        }
        let ghost before = required_views(out@);
        let key = projected_identity(scope, required[i].key.as_str(), fields_hash);
        if cache.get_projection_raw(&key, &required[i].version, fields).is_none() {
            out.push(required[i].clone());
            proof {
                assert(required_views(out@) =~= before.push(all[i as int]));
            }
        }
    }
    out
}

/// What the answers make of the first rows of an aggregate scan.
#[verifier::ext_equal]
pub enum FieldPass {
    Rows(Seq<FieldRowView>),
    Drift,
    Failed(ErrorView),
}

/// What the cache and the answers make of the first `n` requirements.
pub open spec fn field_pass(
    c: CacheView,
    scope: Scope,
    required: Seq<RequiredView>,
    fields: Seq<Seq<char>>,
    answers: Seq<FieldAnswer>,
    n: int,
) -> FieldPass
    decreases n,
{
    if n <= 0 {
        FieldPass::Rows(Seq::empty())
    } else {
        match field_pass(c, scope, required, fields, answers, n - 1) {
            FieldPass::Rows(done) => {
                let want = required[n - 1];
                match cached_fields(c, scope, want, fields) {
                    Some(p) => FieldPass::Rows(
                        done.push(
                            FieldRowView {
                                key: want.key,
                                values: p.values,
                                logical_bytes: p.logical_bytes,
                            },
                        ),
                    ),
                    None => match field_read(
                        want,
                        answers[unprojected(c, scope, required, fields, n - 1).len() as int],
                    ) {
                        FieldRead::Drift => FieldPass::Drift,
                        FieldRead::Failed(e) => FieldPass::Failed(e),
                        FieldRead::Values(values, logical_bytes, _) => FieldPass::Rows(
                            done.push(FieldRowView { key: want.key, values, logical_bytes }),
                        ),
                    },
                }
            },
            other => other,
        }
    }
}

proof fn lemma_field_pass_stuck(
    c: CacheView,
    scope: Scope,
    required: Seq<RequiredView>,
    fields: Seq<Seq<char>>,
    answers: Seq<FieldAnswer>,
    i: int,
    n: int,
)
    requires
        i <= n,
        !(field_pass(c, scope, required, fields, answers, i) is Rows),
    ensures
        field_pass(c, scope, required, fields, answers, n) == field_pass(
            c,
            scope,
            required,
            fields,
            answers,
            i,
        ),
    decreases n - i,
{
    if i < n {
        lemma_field_pass_stuck(c, scope, required, fields, answers, i, n - 1);
    }
}

proof fn lemma_unprojected_grows(
    c: CacheView,
    scope: Scope,
    required: Seq<RequiredView>,
    fields: Seq<Seq<char>>,
    i: int,
    n: int,
)
    requires
        0 <= i <= n,
    ensures
        unprojected(c, scope, required, fields, i).len() <= unprojected(
            c,
            scope,
            required,
            fields,
            n,
        ).len(),
    decreases n - i,
{
    if i < n {
        lemma_unprojected_grows(c, scope, required, fields, i, n - 1);
    }
}

/// The cache after the projections of the first `n` fetched documents were put
/// into it.
pub open spec fn with_fetched_fields(
    c: CacheView,
    scope: Scope,
    wanted: Seq<RequiredView>,
    fields: Seq<Seq<char>>,
    answers: Seq<FieldAnswer>,
    n: int,
) -> CacheView
    decreases n,
{
    if n <= 0 {
        c
    } else {
        let before = with_fetched_fields(c, scope, wanted, fields, answers, n - 1);
        match field_read(wanted[n - 1], answers[n - 1]) {
            FieldRead::Values(values, logical_bytes, value_charge) => with_projection(
                before,
                (scope.document(wanted[n - 1].key), blake3_digest(field_list_bytes(fields))),
                wanted[n - 1].version,
                Projection { fields, values, logical_bytes },
                value_charge,
            ),
            _ => before,
        }
    }
}

/// A projection on its way into the cache.
struct FieldAdmission {
    key: ProjectedJsonKey,
    version: [u8; 16],
    values: Vec<Option<Json>>,
    value_charge: usize,
    logical_bytes: u64,
}

fn clone_texts(v: &Vec<String>) -> (r: Vec<String>)
    ensures
        texts(r@) == texts(v@),
{
    let mut out: Vec<String> = Vec::new();
    for i in 0..v.len()
        invariant
            texts(out@) =~= texts(v@).take(i as int),
    {
        let ghost before = texts(out@);
        out.push(v[i].clone());
        proof {
            assert(texts(out@) =~= before.push(v@[i as int]@));
        }
    }
    proof {
        assert(texts(v@).take(v@.len() as int) =~= texts(v@));
    }
    out
}

/// Gives the fields of every required document, from the cache and from the
/// answers for those that had to be fetched, and then puts what was fetched
/// into the cache. `None` where an answer is not what was asked for.
pub fn finish_fields(
    cache: &mut DecodedJsonCache,
    scope: &Scope,
    required: &Vec<Required>,
    fields: &Vec<String>,
    answers: Vec<FieldAnswer>,
) -> (r: Result<Option<Vec<FieldRow>>, Error>)
    ensures
        ({
            let c = old(cache)@;
            let want = required_views(required@);
            let names = texts(fields@);
            let n = want.len() as int;
            let open = unprojected(c, *scope, want, names, n);
            if answers@.len() != open.len() {
                r == Ok::<Option<Vec<FieldRow>>, Error>(None) && final(cache)@ == c
            } else {
                match field_pass(c, *scope, want, names, answers@, n) {
                    FieldPass::Drift => r == Ok::<Option<Vec<FieldRow>>, Error>(None)
                        && final(cache)@ == c,
                    FieldPass::Failed(e) => r is Err && r->Err_0@ == e && final(cache)@ == c,
                    FieldPass::Rows(rows) => {
                        &&& (r matches Ok(Some(out)) && field_rows(out@) == rows)
                        &&& final(cache)@ == with_fetched_fields(
                            c,
                            *scope,
                            open,
                            names,
                            answers@,
                            open.len() as int,
                        )
                    },
                }
            }
        }),
{
    let ghost c = cache@;
    let ghost want = required_views(required@);
    let ghost names = texts(fields@);
    let ghost n = want.len() as int;
    let ghost open = unprojected(c, *scope, want, names, n);
    let ghost got = answers@;
    let missing = plan_fields(cache, scope, required, fields);
    proof {
        assert(missing@.len() == required_views(missing@).len());
    }
    if answers.len() != missing.len() {
        return Ok(None);
    }
    let fields_hash = projection_fields_hash(fields);
    let mut rest = queue_of(answers);
    let mut out: Vec<FieldRow> = Vec::new();
    let mut list: Vec<FieldAdmission> = Vec::new();
    proof {
        assert(field_rows(out@) =~= Seq::empty());
    }
    for i in 0..required.len()
        invariant
            c == old(cache)@,
            cache@ == c,
            want == required_views(required@),
            names == texts(fields@),
            n == want.len(),
            open == unprojected(c, *scope, want, names, n),
            got == answers@,
            got.len() == open.len(),
            fields_hash@ == blake3_digest(field_list_bytes(names)),
            list@.len() == unprojected(c, *scope, want, names, i as int).len(),
            rest@ =~= got.skip(list@.len() as int),
            list@.len() <= got.len(),
            field_pass(c, *scope, want, names, got, i as int) == FieldPass::Rows(field_rows(out@)),
            forall|k: int|
                0 <= k < list@.len() ==> admits(#[trigger] list@[k], *scope, unprojected(
                    c,
                    *scope,
                    want,
                    names,
                    i as int,
                )[k], got[k], fields_hash@),
    {
        proof {
            assert(want[i as int] == required@[i as int]@);
            lemma_unprojected_grows(c, *scope, want, names, i + 1, n);
        }
        let ghost before = field_rows(out@);
        let ghost seen = unprojected(c, *scope, want, names, i as int);
        let key = projected_identity(scope, required[i].key.as_str(), fields_hash);
        match cache.get_projection_raw(&key, &required[i].version, fields) {
            Some(found) => {
                out.push(
                    FieldRow {
                        key: required[i].key.clone(),
                        values: found.0,
                        logical_bytes: found.1,
                    },
                );
                proof {
                    assert(field_rows(out@) =~= before.push(out@[out@.len() - 1]@));
                }
            },
            None => {
                let ghost at = list@.len() as int;
                proof {
                    assert(unprojected(c, *scope, want, names, i + 1) == seen.push(want[i as int]));
                }
                let answer = match rest.pop_front() {
                    Some(a) => a,
                    None => {
                        return Ok(None);
                    },
                };
                proof {
                    assert(answer == got[at]);
                }
                match take_fields(&required[i], answer) {
                    FieldTake::Drift => {
                        proof {
                            lemma_field_pass_stuck(c, *scope, want, names, got, i + 1, n);
                        }
                        return Ok(None);
                    },
                    FieldTake::Failed(e) => {
                        proof {
                            lemma_field_pass_stuck(c, *scope, want, names, got, i + 1, n);
                        }
                        return Err(e);
                    },
                    FieldTake::Values(values, logical_bytes, value_charge) => {
                        let copy = clone_optional(&values);
                        list.push(
                            FieldAdmission {
                                key,
                                version: required[i].version,
                                values: copy,
                                value_charge,
                                logical_bytes,
                            },
                        );
                        out.push(
                            FieldRow { key: required[i].key.clone(), values, logical_bytes },
                        );
                        proof {
                            assert(field_rows(out@) =~= before.push(out@[out@.len() - 1]@));
                            assert(rest@ =~= got.skip(at + 1));
                        }
                    },
                }
            },
        }
    }
    let mut queue = queue_of(list);
    let ghost mut k: int = 0;
    while queue.len() > 0
        invariant
            c == old(cache)@,
            names == texts(fields@),
            got.len() == open.len(),
            fields_hash@ == blake3_digest(field_list_bytes(names)),
            list@.len() == open.len(),
            0 <= k <= list@.len(),
            queue@ =~= list@.skip(k),
            forall|j: int|
                0 <= j < list@.len() ==> admits(
                    #[trigger] list@[j],
                    *scope,
                    open[j],
                    got[j],
                    fields_hash@,
                ),
            cache@ == with_fetched_fields(c, *scope, open, names, got, k),
        decreases queue@.len(),
    {
        let ghost left = queue@;
        if let Some(a) = queue.pop_front() {
            proof {
                assert(left[0] == a);
                assert(a == list@[k]);
                assert(admits(list@[k], *scope, open[k], got[k], fields_hash@));
            }
            cache.insert_projection(
                a.key,
                a.version,
                clone_texts(fields),
                a.values,
                a.value_charge,
                a.logical_bytes,
            );
            proof {
                k = k + 1;
            }
        }
    }
    Ok(Some(out))
}

/// A projection on its way into the cache is what was read for a requirement.
spec fn admits(
    a: FieldAdmission,
    scope: Scope,
    want: RequiredView,
    answer: FieldAnswer,
    digest: Seq<u8>,
) -> bool {
    &&& a.key@ == (scope.document(want.key), digest)
    &&& a.version@ == want.version
    &&& field_read(want, answer) == FieldRead::Values(
        value_views(a.values@),
        a.logical_bytes,
        a.value_charge,
    )
}

/// What an aggregation reads of each document.
#[derive(Debug)]
pub struct AggregateShape {
    /// The fields that cover it, where some do.
    pub covering: Option<Vec<String>>,
    /// Whether it counts exact logical keys and reads nothing else.
    pub key_only: bool,
    /// Whether it reads the exact logical key.
    pub exact_key: bool,
}

/// What a condition reads of each document.
#[derive(Debug)]
pub struct WhereShape {
    /// The value of a condition that is constant.
    pub constant: Option<bool>,
    /// The fields that a condition on fields alone reads.
    pub direct_fields: Option<Vec<String>>,
}

/// `fields` followed by those of `more` that are not there yet.
pub open spec fn merged(fields: Seq<Seq<char>>, more: Seq<Seq<char>>) -> Seq<Seq<char>>
    decreases more.len(),
{
    if more.len() == 0 {
        fields
    } else {
        let before = merged(fields, more.drop_last());
        if before.contains(more.last()) {
            before
        } else {
            before.push(more.last())
        }
    }
}

/// An optional list of texts by its model.
pub open spec fn optional_texts(v: Option<Vec<String>>) -> Option<Seq<Seq<char>>> {
    match v {
        Some(list) => Some(texts(list@)),
        None => None,
    }
}

/// The fields that a scan reads of each document, where it need not read whole
/// documents, and whether the condition is evaluated on them.
pub open spec fn scan_fields(shape: AggregateShape, filter: WhereShape) -> (
    Option<Seq<Seq<char>>>,
    bool,
) {
    let covering = optional_texts(shape.covering);
    if filter.constant == Some(true) {
        match covering {
            Some(f) => (Some(f), false),
            None => if shape.key_only {
                (Some(Seq::empty()), false)
            } else {
                (None, false)
            },
        }
    } else {
        match optional_texts(filter.direct_fields) {
            Some(direct) => match covering {
                Some(f) => (Some(merged(direct, f)), true),
                None => if shape.key_only {
                    (Some(direct), true)
                } else {
                    (None, false)
                },
            },
            None => (None, false),
        }
    }
}

fn holds_field(fields: &Vec<String>, field: &str) -> (r: bool)
    ensures
        r == texts(fields@).contains(field@),
{
    for i in 0..fields.len()
        invariant
            forall|k: int| 0 <= k < i ==> (#[trigger] fields@[k])@ != field@,
    {
        if same_text(fields[i].as_str(), field) {
            proof {
                assert(texts(fields@)[i as int] == field@);
            }
            return true;
        }
    }
    proof {
        assert forall|k: int| 0 <= k < texts(fields@).len() implies texts(fields@)[k]
            != field@ by {
            assert(fields@[k]@ != field@);
        }
    }
    false
}

fn merge_fields(fields: Vec<String>, more: &Vec<String>) -> (r: Vec<String>)
    ensures
        texts(r@) == merged(texts(fields@), texts(more@)),
{
    let ghost start = texts(fields@);
    let ghost all = texts(more@);
    let mut out = fields;
    proof {
        assert(all.take(0) =~= Seq::empty());
    }
    for i in 0..more.len()
        invariant
            all == texts(more@),
            texts(out@) == merged(start, all.take(i as int)),
    {
        proof {
            assert(all.take(i + 1).drop_last() =~= all.take(i as int));
            assert(all.take(i + 1).last() == more@[i as int]@);
        }
        if !holds_field(&out, more[i].as_str()) {
            let ghost before = texts(out@);
            out.push(more[i].clone());
            proof {
                assert(texts(out@) =~= before.push(more@[i as int]@));
            }
        }
    }
    proof {
        assert(all.take(all.len() as int) =~= all);
    }
    out
}

/// What the accumulator takes of one row.
#[derive(Debug)]
pub enum Ingest {
    /// Nothing: the condition does not hold.
    Skip,
    /// The logical key alone.
    Key,
    /// The values of the covering fields.
    Covering(Vec<Json>),
    /// The logical key and the document.
    KeyAndDocument,
    /// The document.
    Document,
}

/// Progress of an aggregate scan.
#[derive(Debug)]
pub struct GroupScan {
    /// The fields that are read, where whole documents need not be.
    pub fields: Option<Vec<String>>,
    /// Whether the condition is evaluated on the fields.
    pub predicate: bool,
    /// Whether only logical keys are counted.
    pub key_only: bool,
    /// Whether the logical key is read with each document.
    pub exact_key: bool,
    /// Documents examined so far.
    pub examined_documents: u64,
    /// Payload bytes examined so far.
    pub examined_bytes: u64,
}

/// A counter with something added, at most its last value.
pub open spec fn added(count: u64, n: u64) -> u64 {
    if count + n > u64::MAX {
        u64::MAX
    } else {
        (count + n) as u64
    }
}

/// The present values of a row, `null` where a field is absent.
pub open spec fn filled(values: Seq<Option<JsonView>>) -> Seq<JsonView> {
    values.map_values(
        |v: Option<JsonView>|
            match v {
                Some(j) => j,
                None => JsonView::Null,
            },
    )
}

fn fill(values: Vec<Option<Json>>) -> (r: Vec<Json>)
    ensures
        models(r@) == filled(value_views(values@)),
{
    let ghost all = value_views(values@);
    let mut rest = queue_of(values);
    let mut out: Vec<Json> = Vec::new();
    while rest.len() > 0
        invariant
            all == value_views(values@),
            out@.len() + rest@.len() == all.len(),
            rest@ =~= values@.skip(out@.len() as int),
            forall|k: int| 0 <= k < out@.len() ==> (#[trigger] out@[k])@ == filled(all)[k],
        decreases rest@.len(),
    {
        let ghost at = out@.len() as int;
        let ghost left = rest@;
        if let Some(v) = rest.pop_front() {
            proof {
                assert(left[0] == values@[at]);
                assert(v == values@[at]);
                assert(all[at] == value_views(values@)[at]);
            }
            match v {
                Some(j) => out.push(j),
                None => out.push(Json::Null),
            }
        }
    }
    proof {
        assert(models(out@) =~= filled(all));
    }
    out
}

impl GroupScan {
    /// A scan at its beginning.
    pub fn start(shape: &AggregateShape, filter: &WhereShape) -> (r: GroupScan)
        ensures
            optional_texts(r.fields) == scan_fields(*shape, *filter).0,
            r.predicate == scan_fields(*shape, *filter).1,
            r.key_only == shape.key_only,
            r.exact_key == shape.exact_key,
            r.examined_documents == 0,
            r.examined_bytes == 0,
    {
        let constant = match filter.constant {
            Some(b) => b,
            None => false,
        };
        let (fields, predicate): (Option<Vec<String>>, bool) = if constant {
            match &shape.covering {
                Some(f) => (Some(clone_texts(f)), false),
                None => if shape.key_only {
                    let none: Vec<String> = Vec::new();
                    proof {
                        assert(texts(none@) =~= Seq::empty());
                    }
                    (Some(none), false)
                } else {
                    (None, false)
                },
            }
        } else {
            match &filter.direct_fields {
                Some(direct) => match &shape.covering {
                    Some(f) => (Some(merge_fields(clone_texts(direct), f)), true),
                    None => if shape.key_only {
                        (Some(clone_texts(direct)), true)
                    } else {
                        (None, false)
                    },
                },
                None => (None, false),
            }
        };
        GroupScan {
            fields,
            predicate,
            key_only: shape.key_only,
            exact_key: shape.exact_key,
            examined_documents: 0,
            examined_bytes: 0,
        }
    }

    /// The scan has gone on by one document of this length.
    pub open spec fn advanced(self, bytes: u64, next: GroupScan) -> bool {
        &&& next.fields == self.fields
        &&& next.predicate == self.predicate
        &&& next.key_only == self.key_only
        &&& next.exact_key == self.exact_key
        &&& next.examined_documents == added(self.examined_documents, 1)
        &&& next.examined_bytes == added(self.examined_bytes, bytes)
    }

    /// Decides what the accumulator takes of a row of fields. `verdict` is what
    /// the condition says of the values; `None` where it cannot be evaluated on
    /// these fields, which is an error where it has to be.
    pub fn take_fields(&mut self, row: FieldRow, verdict: Option<bool>) -> (r: Result<
        Ingest,
        Error,
    >)
        ensures
            old(self).advanced(row.logical_bytes, *final(self)),
            match r {
                Err(e) => old(self).predicate && verdict is None && e@ == ErrorView::Internal(
                    "projected predicate field mismatch"@,
                ),
                Ok(Ingest::Skip) => old(self).predicate && verdict == Some(false),
                Ok(Ingest::Key) => (old(self).predicate ==> verdict == Some(true))
                    && old(self).key_only,
                Ok(Ingest::Covering(v)) => (old(self).predicate ==> verdict == Some(true))
                    && !old(self).key_only && models(v@) == filled(row@.values),
                Ok(_) => false,
            },
    {
        self.examined_documents = self.examined_documents.saturating_add(1);
        self.examined_bytes = self.examined_bytes.saturating_add(row.logical_bytes);
        if self.predicate {
            match verdict {
                None => {
                    return Err(Error::Internal("projected predicate field mismatch".to_string()));
                },
                Some(false) => {
                    return Ok(Ingest::Skip);
                },
                Some(true) => {},
            }
        }
        if self.key_only {
            Ok(Ingest::Key)
        } else {
            Ok(Ingest::Covering(fill(row.values)))
        }
    }

    /// Decides what the accumulator takes of a whole document, given whether
    /// the condition holds of it.
    pub fn take_document(&mut self, logical_bytes: u64, matches: bool) -> (r: Ingest)
        ensures
            old(self).advanced(logical_bytes, *final(self)),
            match r {
                Ingest::Skip => !matches,
                Ingest::KeyAndDocument => matches && old(self).exact_key,
                Ingest::Document => matches && !old(self).exact_key,
                _ => false,
            },
    {
        self.examined_documents = self.examined_documents.saturating_add(1);
        self.examined_bytes = self.examined_bytes.saturating_add(logical_bytes);
        if !matches {
            Ingest::Skip
        } else if self.exact_key {
            Ingest::KeyAndDocument
        } else {
            Ingest::Document
        }
    }
}

/// Merging keeps the fields that were there, in their places, adds each new
/// field once and loses none.
pub proof fn law_merged_fields(fields: Seq<Seq<char>>, more: Seq<Seq<char>>)
    ensures
        fields.len() <= merged(fields, more).len(),
        merged(fields, more).take(fields.len() as int) == fields,
        forall|f: Seq<char>| #[trigger] more.contains(f) ==> merged(fields, more).contains(f),
        forall|i: int, j: int|
            fields.len() <= j < merged(fields, more).len() && 0 <= i < j ==> (
            #[trigger] merged(fields, more)[i]) != (#[trigger] merged(fields, more)[j]),
    decreases more.len(),
{
    if more.len() == 0 {
        assert(fields.take(fields.len() as int) =~= fields);
    } else {
        law_merged_fields(fields, more.drop_last());
        let before = merged(fields, more.drop_last());
        let after = merged(fields, more);
        assert forall|f: Seq<char>| #[trigger] more.contains(f) implies after.contains(f) by {
            let at = choose|at: int| 0 <= at < more.len() && more[at] == f;
            if at < more.len() - 1 {
                assert(more.drop_last()[at] == f);
                assert(more.drop_last().contains(f));
                let w = choose|w: int| 0 <= w < before.len() && before[w] == f;
                assert(after[w] == f);
            } else if !before.contains(f) {
                assert(after[before.len() as int] == f);
            }
        }
        assert(after.take(fields.len() as int) =~= before.take(fields.len() as int));
        assert forall|i: int, j: int|
            fields.len() <= j < after.len() && 0 <= i < j implies (#[trigger] after[i]) != (
        #[trigger] after[j]) by {
            if j < before.len() {
                assert(after[i] == before[i] && after[j] == before[j]);
            } else {
                assert(after[i] == before[i]);
                assert(before.contains(before[i]));
            }
        }
    }
}

} // verus!
