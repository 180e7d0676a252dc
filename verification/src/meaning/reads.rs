//! What cached reads promise: with a cache and answers that tell the truth,
//! every document that is given out is the one that the store holds under that
//! key in that version.
use crate::aggregate_scan::{
    exact_body, fetched, merged, projected_pass, rows_to_fetch, scan_fields, unmet, AggregateShape, Fetch, ProjectedPass,
    ProjectedRowView, RequiredView, WhereShape,
};
use crate::codec::utf8_in;
use crate::covered_reads::{
    answered, missing_before, missing_keys_before, planned_row, raw_read, raw_step, row_document,
    with_admissions, AdmissionView, CoveredRowView, HostDocumentView, ResolvedView, Scope,
};
use crate::decoded_cache::{cached, field_values, observed, with_document, CacheView, DocumentKey};
use crate::json::JsonView;
use crate::meaning::caches::law_document_is_found_under_its_version;
use crate::text::texts;
use vstd::prelude::*;

verus! {

/// What a store holds: a document for each key and version.
pub type Store = spec_fn(DocumentKey, Seq<u8>) -> JsonView;

/// A cache tells the truth: what it has of a key in a version is what the store
/// holds there.
pub open spec fn true_cache(c: CacheView, store: Store) -> bool {
    forall|k: DocumentKey, v: Seq<u8>|
        (#[trigger] cached(c, k, v)) is Some ==> (cached(c, k, v)->0).0 == store(k, v)
}

/// An answer tells the truth: a body that decodes is what the store holds under
/// the key and the version of the answer.
pub open spec fn true_answer(scope: Scope, r: ResolvedView, store: Store) -> bool {
    utf8_in(r.key) is Some && r.version is Some && r.body is Some && r.body->0.decoded is Ok
        ==> r.body->0.decoded->Ok_0 == store(scope.document(utf8_in(r.key)->0), r.version->0)
}

/// All answers tell the truth.
pub open spec fn true_answers(scope: Scope, answers: Seq<ResolvedView>, store: Store) -> bool {
    forall|i: int| 0 <= i < answers.len() ==> true_answer(scope, #[trigger] answers[i], store)
}

proof fn lemma_key_text(key: Seq<char>)
    ensures
        utf8_in(vstd::utf8::encode_utf8(key)) == Some(key),
{
    vstd::utf8::encode_utf8_decode_utf8(key);
    vstd::utf8::encode_utf8_valid_utf8(key);
}

/// A cache goes on telling the truth when a true document is put into it, and
/// when a lookup is counted.
pub proof fn law_cache_keeps_telling_the_truth(
    c: CacheView,
    store: Store,
    key: DocumentKey,
    version: Seq<u8>,
    value: JsonView,
    len: usize,
    hit: bool,
)
    requires
        true_cache(c, store),
        value == store(key, version),
    ensures
        true_cache(with_document(c, key, version, value, len), store),
        true_cache(observed(c, hit), store),
{
    let after = with_document(c, key, version, value, len);
    assert forall|k: DocumentKey, v: Seq<u8>| (#[trigger] cached(after, k, v)) is Some implies (
    cached(after, k, v)->0).0 == store(k, v) by {
        law_document_is_found_under_its_version(c, key, version, value, len, k, v);
        law_document_is_found_under_its_version(c, key, version, value, len, key, v);
        law_document_is_found_under_its_version(c, key, version, value, len, key, version);
        assert(cached(c, k, v) is Some ==> (cached(c, k, v)->0).0 == store(k, v));
        assert(cached(c, key, version) is Some ==> (cached(c, key, version)->0).0 == store(
            key,
            version,
        ));
    }
    let seen = observed(c, hit);
    assert forall|k: DocumentKey, v: Seq<u8>| (#[trigger] cached(seen, k, v)) is Some implies (
    cached(seen, k, v)->0).0 == store(k, v) by {
        assert(cached(seen, k, v) == cached(c, k, v));
    }
}

/// A row of a covered read gives the document that the store holds under its
/// key in its version. It is absent exactly where it has no version, and a
/// hole only where it was answered with one or with a body that does not
/// decode.
pub proof fn law_covered_row_is_true(
    c: CacheView,
    scope: Scope,
    rows: Seq<CoveredRowView>,
    answers: Seq<ResolvedView>,
    store: Store,
    i: int,
    key: Seq<char>,
    version: Option<Seq<u8>>,
)
    requires
        0 <= i < rows.len(),
        rows[i] == planned_row(c, scope, key, vstd::utf8::encode_utf8(key), version),
        true_cache(c, store),
        true_answers(scope, answers, store),
        rows[i].document is None ==> 0 <= missing_before(rows, i) < answers.len(),
        row_document(rows, answers, i) is Some,
    ensures
        match row_document(rows, answers, i)->0 {
            HostDocumentView::Present { value, .. } => version is Some && value == store(
                scope.document(key),
                version->0,
            ),
            HostDocumentView::Absent => version is None,
            HostDocumentView::Hole { code } => {
                let a = answers[missing_before(rows, i)];
                &&& version is Some
                &&& a.key == vstd::utf8::encode_utf8(key)
                &&& a.hole == Some(code) || (a.hole is None && a.version == version && a.body
                    is Some && a.body->0.decoded is Err)
            },
        },
        version is None ==> row_document(rows, answers, i) == Some(HostDocumentView::Absent),
{
    lemma_key_text(key);
    if rows[i].document is None {
        let a = answers[missing_before(rows, i)];
        assert(true_answer(scope, a, store));
    } else if version is Some {
        assert(cached(c, scope.document(key), version->0) is Some);
    }
}

/// An answer for another key, or for another version of the key without a hole,
/// is no answer.
pub proof fn law_foreign_answers_are_refused(row: CoveredRowView, r: ResolvedView)
    ensures
        r.key != row.raw_key ==> answered(row, r) is None,
        r.hole is None && r.version != row.version ==> answered(row, r) is None,
        r.key == row.raw_key && r.hole is Some ==> answered(row, r) == Some(
            HostDocumentView::Hole { code: r.hole->0 },
        ),
        r.key == row.raw_key && r.hole is None && r.version == row.version && r.body is Some
            && r.body->0.decoded is Ok ==> answered(row, r) == Some(
            HostDocumentView::Present {
                value: r.body->0.decoded->Ok_0,
                logical_bytes: r.body->0.payload_len,
            },
        ),
{
}

/// What is asked for of a read is the keys of the rows that the cache does not
/// have, in their order.
pub proof fn law_missing_rows_are_asked_for(rows: Seq<CoveredRowView>, n: int, i: int)
    requires
        0 <= n <= rows.len(),
    ensures
        missing_keys_before(rows, n).len() == missing_before(rows, n),
        0 <= missing_before(rows, n) <= n,
        0 <= i < n && rows[i].document is None ==> missing_before(rows, i) < missing_before(rows, n)
            && missing_keys_before(rows, n)[missing_before(rows, i)] == rows[i].raw_key,
    decreases n,
{
    if n > 0 {
        law_missing_rows_are_asked_for(rows, n - 1, i);
        let before = missing_keys_before(rows, n - 1);
        if rows[n - 1].document is None {
            let after = before.push(rows[n - 1].raw_key);
            assert(missing_keys_before(rows, n) == after);
            assert(after[before.len() as int] == rows[n - 1].raw_key);
            if 0 <= i < n - 1 && rows[i].document is None {
                law_missing_rows_are_asked_for(rows, i, 0);
                assert(after[missing_before(rows, i)] == before[missing_before(rows, i)]);
            }
        } else {
            assert(missing_keys_before(rows, n) == before);
        }
    }
}

/// An answer hangs together: its key is text, and it has a body with a version,
/// or a hole, or nothing at all.
pub open spec fn coherent(r: ResolvedView) -> bool {
    &&& utf8_in(r.key) is Some
    &&& {
        ||| r.body is Some && r.version is Some && r.hole is None
        ||| r.body is None && r.hole is Some
        ||| r.body is None && r.version is None && r.hole is None
    }
}

/// A raw read gives one document for each answer, under the key of the answer,
/// and each that is there is the one that the store holds. It is refused
/// exactly where an answer does not hang together. The cache goes on telling
/// the truth.
pub proof fn law_raw_read_is_true(
    c: CacheView,
    scope: Scope,
    answers: Seq<ResolvedView>,
    store: Store,
)
    requires
        true_cache(c, store),
        true_answers(scope, answers, store),
    ensures
        true_cache(raw_read(c, scope, answers).0, store),
        raw_read(c, scope, answers).1 is Ok <==> forall|i: int|
            0 <= i < answers.len() ==> coherent(#[trigger] answers[i]),
        raw_read(c, scope, answers).1 is Ok ==> {
            let docs = raw_read(c, scope, answers).1->Ok_0;
            &&& docs.len() == answers.len()
            &&& forall|i: int|
                0 <= i < docs.len() ==> Some((#[trigger] docs[i]).0) == utf8_in(answers[i].key) && (
                docs[i].1 matches HostDocumentView::Present { value, .. } ==> answers[i].version
                    is Some && value == store(scope.document(docs[i].0), answers[i].version->0))
        },
    decreases answers.len(),
{
    if answers.len() > 0 {
        let shorter = answers.drop_last();
        let n = answers.len() - 1;
        assert forall|i: int| 0 <= i < shorter.len() implies true_answer(
            scope,
            #[trigger] shorter[i],
            store,
        ) by {
            assert(shorter[i] == answers[i]);
            assert(true_answer(scope, answers[i], store));
        }
        law_raw_read_is_true(c, scope, shorter, store);
        let before = raw_read(c, scope, shorter);
        let r = answers[n];
        assert(r == answers.last());
        assert(true_answer(scope, r, store));
        if forall|i: int| 0 <= i < answers.len() ==> coherent(#[trigger] answers[i]) {
            assert forall|i: int| 0 <= i < shorter.len() implies coherent(
                #[trigger] shorter[i],
            ) by {
                assert(coherent(answers[i]));
            }
            assert(coherent(answers[n]));
        }
        if before.1 is Ok {
            lemma_raw_step(before.0, scope, r, store);
            let docs = before.1->Ok_0;
            if raw_step(before.0, scope, r).1 is Ok {
                assert forall|i: int| 0 <= i < answers.len() implies coherent(
                    #[trigger] answers[i],
                ) by {
                    if i < n {
                        assert(coherent(shorter[i]));
                    }
                }
                let all = raw_read(c, scope, answers).1->Ok_0;
                assert forall|i: int| 0 <= i < all.len() implies Some((#[trigger] all[i]).0)
                    == utf8_in(answers[i].key) && (all[i].1 matches HostDocumentView::Present {
                    value,
                    ..
                } ==> answers[i].version is Some && value == store(
                    scope.document(all[i].0),
                    answers[i].version->0,
                )) by {
                    if i < n {
                        assert(all[i] == docs[i]);
                        assert(shorter[i] == answers[i]);
                    }
                }
            }
        }
    }
}

proof fn lemma_raw_step(c: CacheView, scope: Scope, r: ResolvedView, store: Store)
    requires
        true_cache(c, store),
        true_answer(scope, r, store),
    ensures
        true_cache(raw_step(c, scope, r).0, store),
        raw_step(c, scope, r).1 is Ok <==> coherent(r),
        raw_step(c, scope, r).1 is Ok ==> {
            let d = raw_step(c, scope, r).1->Ok_0;
            &&& Some(d.0) == utf8_in(r.key)
            &&& d.1 matches HostDocumentView::Present { value, .. } ==> r.version is Some && value
                == store(scope.document(d.0), r.version->0)
        },
{
    if utf8_in(r.key) is Some && r.body is Some && r.version is Some && r.hole is None {
        let key = scope.document(utf8_in(r.key)->0);
        let version = r.version->0;
        let hit = cached(c, key, version) is Some;
        let truth = store(key, version);
        law_cache_keeps_telling_the_truth(c, store, key, version, truth, 0, hit);
        let seen = observed(c, hit);
        let len = r.body->0.len;
        law_cache_keeps_telling_the_truth(seen, store, key, version, truth, len, hit);
    }
}

/// Documents that are fetched for required versions are those that the store
/// holds, one for each, in order. The fetch drifts exactly where the first
/// answer that gives no document is for another key or version, has a hole or
/// has no body.
pub proof fn law_fetched_documents_are_true(
    scope: Scope,
    wanted: Seq<RequiredView>,
    answers: Seq<ResolvedView>,
    n: int,
    store: Store,
)
    requires
        0 <= n <= wanted.len(),
        n <= answers.len(),
        true_answers(scope, answers, store),
        forall|i: int|
            0 <= i < n ==> (#[trigger] wanted[i]).raw_key == vstd::utf8::encode_utf8(wanted[i].key),
    ensures
        match fetched(wanted, answers, n) {
            Fetch::Documents(list) => {
                &&& list.len() == n
                &&& forall|i: int|
                    0 <= i < n ==> (#[trigger] list[i]).key == wanted[i].key && list[i].version
                        == wanted[i].version && list[i].value == store(
                        scope.document(wanted[i].key),
                        wanted[i].version,
                    )
            },
            Fetch::Drift => exists|i: int| 0 <= i < n && !exact(wanted[i], #[trigger] answers[i]),
            Fetch::Failed(e) => exists|i: int|
                0 <= i < n && exact(wanted[i], #[trigger] answers[i]) && answers[i].body->0.decoded
                    == Err::<JsonView, crate::error::ErrorView>(e),
        },
        (forall|i: int|
            0 <= i < n ==> exact(wanted[i], #[trigger] answers[i]) && answers[i].body->0.decoded
                is Ok) ==> fetched(wanted, answers, n) is Documents,
    decreases n,
{
    if n > 0 {
        law_fetched_documents_are_true(scope, wanted, answers, n - 1, store);
        let want = wanted[n - 1];
        let a = answers[n - 1];
        assert(true_answer(scope, a, store));
        lemma_key_text(want.key);
        assert(exact(want, a) <==> exact_body(want, a) is Some);
        if fetched(wanted, answers, n) is Documents {
            let before = fetched(wanted, answers, n - 1)->Documents_0;
            let list = fetched(wanted, answers, n)->Documents_0;
            assert forall|i: int| 0 <= i < n implies (#[trigger] list[i]).key == wanted[i].key
                && list[i].version == wanted[i].version && list[i].value == store(
                scope.document(wanted[i].key),
                wanted[i].version,
            ) by {
                if i < n - 1 {
                    assert(list[i] == before[i]);
                }
            }
        }
    }
}

/// An answer is for exactly the key and the version that are required, and has
/// a body and no hole.
pub open spec fn exact(want: RequiredView, r: ResolvedView) -> bool {
    &&& r.key == want.raw_key
    &&& r.version == Some(want.version)
    &&& r.hole is None
    &&& r.body is Some
}

/// A required version that the cache does not have.
pub open spec fn not_cached(c: CacheView, scope: Scope) -> spec_fn(RequiredView) -> Option<
    RequiredView,
> {
    |want: RequiredView|
        if cached(c, scope.document(want.key), want.version) is None {
            Some(want)
        } else {
            None
        }
}

/// What is still to be fetched is what the cache does not have in the required
/// version, in its order.
pub proof fn law_unmet_is_what_is_not_cached(
    c: CacheView,
    scope: Scope,
    required: Seq<RequiredView>,
)
    ensures
        unmet(c, scope, required) == required.filter_map(not_cached(c, scope)),
    decreases required.len(),
{
    if required.len() > 0 {
        let shorter = required.drop_last();
        law_unmet_is_what_is_not_cached(c, scope, shorter);
        let before = shorter.filter_map(not_cached(c, scope));
        assert(before + seq![required.last()] =~= before.push(required.last()));
    }
}

/// Fields are merged by adding those that are not there yet: all of both lists
/// are in the result and nothing else is, and the first list stands first.
pub proof fn law_merged_fields_are_all_fields(
    fields: Seq<Seq<char>>,
    more: Seq<Seq<char>>,
    name: Seq<char>,
)
    ensures
        merged(fields, more).contains(name) <==> fields.contains(name) || more.contains(name),
        merged(fields, more).len() >= fields.len(),
        merged(fields, more).take(fields.len() as int) == fields,
        fields.no_duplicates() ==> merged(fields, more).no_duplicates(),
    decreases more.len(),
{
    if more.len() == 0 {
        assert(fields.take(fields.len() as int) =~= fields);
    } else {
        let shorter = more.drop_last();
        let last = more.last();
        law_merged_fields_are_all_fields(fields, shorter, name);
        law_merged_fields_are_all_fields(fields, shorter, last);
        let before = merged(fields, shorter);
        assert(more[more.len() - 1] == last);
        assert(more =~= shorter.push(last));
        if shorter.contains(name) {
            let i = choose|i: int| 0 <= i < shorter.len() && shorter[i] == name;
            assert(more[i] == name);
        }
        if more.contains(name) && name != last {
            let i = choose|i: int| 0 <= i < more.len() && more[i] == name;
            assert(shorter[i] == name);
        }
        if !before.contains(last) {
            let after = before.push(last);
            assert(after.take(fields.len() as int) =~= before.take(fields.len() as int));
            if before.contains(name) {
                let i = choose|i: int| 0 <= i < before.len() && before[i] == name;
                assert(after[i] == name);
            }
            assert(after[before.len() as int] == last);
            if after.contains(name) && name != last {
                let i = choose|i: int| 0 <= i < after.len() && after[i] == name;
                assert(before[i] == name);
            }
        }
    }
}

/// The rows of a projected read hold the values of the fields of the documents
/// that the store holds, in the required versions.
pub proof fn law_projected_rows_are_true(
    c: CacheView,
    scope: Scope,
    rows: Seq<ProjectedRowView>,
    answers: Seq<ResolvedView>,
    fields: Seq<Seq<char>>,
    n: int,
    store: Store,
)
    requires
        0 <= n <= rows.len(),
        true_cache(c, store),
        true_answers(scope, answers, store),
        forall|i: int|
            0 <= i < rows.len() ==> (#[trigger] rows[i]).required.raw_key
                == vstd::utf8::encode_utf8(rows[i].required.key),
        forall|i: int|
            0 <= i < rows.len() && (#[trigger] rows[i]).values is Some ==> {
                let want = rows[i].required;
                &&& cached(c, scope.document(want.key), want.version) is Some
                &&& rows[i].values->0 == field_values(
                    (cached(c, scope.document(want.key), want.version)->0).0,
                    fields,
                )
            },
    ensures
        projected_pass(rows, answers, fields, n) matches ProjectedPass::Rows(done, list) ==> {
            &&& done.len() == n
            &&& forall|i: int|
                0 <= i < n && (#[trigger] done[i]) is Some ==> done[i]->0 == field_values(
                    store(scope.document(rows[i].required.key), rows[i].required.version),
                    fields,
                )
        },
    decreases n,
{
    if n > 0 {
        law_projected_rows_are_true(c, scope, rows, answers, fields, n - 1, store);
        lemma_rows_to_fetch(rows, n - 1);
        let row = rows[n - 1];
        let want = row.required;
        let at = rows_to_fetch(rows, n - 1);
        lemma_key_text(want.key);
        if 0 <= at < answers.len() {
            assert(true_answer(scope, answers[at], store));
        }
        if row.values is Some {
            assert(cached(c, scope.document(want.key), want.version) is Some);
        }
        if let ProjectedPass::Rows(done, list) = projected_pass(rows, answers, fields, n) {
            let before = projected_pass(rows, answers, fields, n - 1)->Rows_0;
            assert forall|i: int| 0 <= i < n && (#[trigger] done[i]) is Some implies done[i]->0
                == field_values(
                store(scope.document(rows[i].required.key), rows[i].required.version),
                fields,
            ) by {
                if i < n - 1 {
                    assert(done[i] == before[i]);
                }
            }
        }
    }
}

proof fn lemma_rows_to_fetch(rows: Seq<ProjectedRowView>, n: int)
    ensures
        rows_to_fetch(rows, n) >= 0,
    decreases n,
{
    if n > 0 {
        lemma_rows_to_fetch(rows, n - 1);
    }
}

/// Documents that are admitted one after the other leave a true cache true.
pub proof fn law_admissions_keep_the_truth(
    c: CacheView,
    scope: Scope,
    list: Seq<AdmissionView>,
    store: Store,
)
    requires
        true_cache(c, store),
        forall|i: int|
            0 <= i < list.len() ==> (#[trigger] list[i]).value == store(
                scope.document(list[i].key),
                list[i].version,
            ),
    ensures
        true_cache(with_admissions(c, scope, list), store),
    decreases list.len(),
{
    if list.len() > 0 {
        let shorter = list.drop_last();
        assert forall|i: int| 0 <= i < shorter.len() implies (#[trigger] shorter[i]).value == store(
            scope.document(shorter[i].key),
            shorter[i].version,
        ) by {
            assert(shorter[i] == list[i]);
        }
        law_admissions_keep_the_truth(c, scope, shorter, store);
        let a = list[list.len() - 1];
        law_cache_keeps_telling_the_truth(
            with_admissions(c, scope, shorter),
            store,
            scope.document(a.key),
            a.version,
            a.value,
            a.len,
            true,
        );
    }
}

/// An aggregate scan that reads fields in place of documents reads every field
/// that it needs: those that the aggregate covers and, where the condition is
/// not always true, those that the condition tests; then it evaluates the
/// condition on them. It reads whole documents where it does not know which
/// fields it needs.
pub proof fn law_scan_reads_the_fields_that_it_needs(
    shape: AggregateShape,
    filter: WhereShape,
    name: Seq<char>,
)
    ensures
        ({
            let (fields, on_fields) = scan_fields(shape, filter);
            let always = filter.constant == Some(true);
            &&& fields is Some && shape.covering is Some && texts(shape.covering->0@).contains(name)
                ==> fields->0.contains(name)
            &&& fields is Some && !always ==> filter.direct_fields is Some && on_fields
            &&& fields is Some && !always && texts(filter.direct_fields->0@).contains(name)
                ==> fields->0.contains(name)
            &&& fields is Some ==> shape.covering is Some || shape.key_only
            &&& on_fields ==> fields is Some && !always
            &&& fields is None <==> (shape.covering is None && !shape.key_only) || (!always
                && filter.direct_fields is None)
        }),
{
    if shape.covering is Some && filter.direct_fields is Some {
        law_merged_fields_are_all_fields(
            texts(filter.direct_fields->0@),
            texts(shape.covering->0@),
            name,
        );
    }
}

} // verus!
