//! What finds and query plans mean: which rows a find keeps, in what order and
//! how many, what stops it, and what the members of a plan ask for.
use crate::collection::{
    budget_outcome, decoded_rows, finished, key_in, matched, own_keys, page_rows,
    rows_sorted, undecoded, LiveEntryView, LiveKey, LocalFindView, ResultCap,
    SizedRowView,
};
use crate::error::ErrorView;
use crate::filter::{
    filter_in, filter_matches, FilterView, QueryOptionsView, SortOrder, QUERY_PLAN_PROFILE,
};
use crate::json::{JsonView, NumberView};
use crate::meaning::predicates::lemma_member;
use crate::meaning::{has_member, lacks_member};
use crate::query_plan::{options_in, plan_in};
use vstd::prelude::*;

verus! {

/// A row that a filter keeps.
pub open spec fn row_kept(filter: FilterView) -> spec_fn(SizedRowView) -> Option<
    (Seq<char>, JsonView),
> {
    |row: SizedRowView|
        if filter_matches(filter, row.value) {
            Some((row.key, row.value))
        } else {
            None
        }
}

/// The bytes of the rows that a filter keeps.
pub open spec fn kept_bytes(filter: FilterView, rows: Seq<SizedRowView>) -> int
    decreases rows.len(),
{
    if rows.len() == 0 {
        0
    } else {
        kept_bytes(filter, rows.drop_last()) + if filter_matches(filter, rows.last().value) {
            rows.last().size as int
        } else {
            0
        }
    }
}

proof fn lemma_kept_bytes(filter: FilterView, rows: Seq<SizedRowView>)
    ensures
        kept_bytes(filter, rows) >= 0,
    decreases rows.len(),
{
    if rows.len() > 0 {
        lemma_kept_bytes(filter, rows.drop_last());
    }
}

/// A find keeps the rows whose documents match, all of them, as they are and
/// in the order in which they come, behind those that it had. It is refused
/// exactly where their bytes pass the cap.
pub proof fn law_find_keeps_exactly_the_matches(
    s: LocalFindView,
    filter: FilterView,
    rows: Seq<SizedRowView>,
    cap: ResultCap,
)
    requires
        s.result_bytes + kept_bytes(filter, rows) <= u64::MAX,
        s.result_bytes <= cap.max,
    ensures
        matched(s, filter, rows, cap) is Ok <==> s.result_bytes + kept_bytes(filter, rows)
            <= cap.max,
        matched(s, filter, rows, cap) is Ok ==> {
            let t = matched(s, filter, rows, cap)->Ok_0;
            &&& t.out == s.out + rows.filter_map(row_kept(filter))
            &&& t.result_bytes == s.result_bytes + kept_bytes(filter, rows)
            &&& t.scanned == s.scanned
            &&& t.bytes_scanned == s.bytes_scanned
        },
    decreases rows.len(),
{
    lemma_kept_bytes(filter, rows);
    if rows.len() == 0 {
        assert(s.out + rows.filter_map(row_kept(filter)) =~= s.out);
    } else {
        let shorter = rows.drop_last();
        lemma_kept_bytes(filter, shorter);
        law_find_keeps_exactly_the_matches(s, filter, shorter, cap);
        let before = shorter.filter_map(row_kept(filter));
        let row = rows.last();
        if filter_matches(filter, row.value) {
            assert(s.out + (before + seq![(row.key, row.value)]) =~= (s.out + before).push(
                (row.key, row.value),
            ));
        }
    }
}

/// A finished find is refused exactly where it was cancelled or its bytes pass
/// the cap. Without a limit it gives all its rows, in another order at most;
/// with one it gives the first of those that it gives without.
pub proof fn law_find_gives_all_or_the_first(
    rows: Seq<(Seq<char>, JsonView)>,
    bytes: u64,
    options: QueryOptionsView,
    cap: ResultCap,
    token: Result<(), ErrorView>,
)
    ensures
        finished(rows, bytes, options, cap, token) is Err <==> (options.cancel is Some && token
            is Err) || bytes > cap.max,
        ({
            let free = QueryOptionsView { limit: None, ..options };
            let all = finished(rows, bytes, free, cap, token);
            let some = finished(rows, bytes, options, cap, token);
            &&& all is Ok <==> some is Ok
            &&& all is Ok ==> all->Ok_0.to_multiset() == rows.to_multiset()
            &&& all is Ok && options.limit is None ==> some->Ok_0 == all->Ok_0
            &&& all is Ok && options.limit is Some ==> some->Ok_0 == all->Ok_0.take(
                if options.limit->0 < rows.len() {
                    options.limit->0 as int
                } else {
                    rows.len() as int
                },
            )
        }),
{
    let sorted = rows_sorted(options.order_by, rows);
    crate::collection::law_ordering_keeps_rows(options.order_by, rows);
    sorted.to_multiset_ensures();
    rows.to_multiset_ensures();
    assert(sorted.len() == rows.len());
    assert(sorted.take(sorted.len() as int) =~= sorted);
}

/// A find goes on while neither bound of its budget is passed. Where one is, it
/// is refused, or ends with what it has where that is allowed.
pub proof fn law_budget_stops_a_find(
    options: QueryOptionsView,
    scanned: usize,
    bytes: u64,
    context: Seq<char>,
)
    ensures
        ({
            let docs_passed = options.budget is Some && options.budget->0.max_docs_scanned is Some
                && scanned > options.budget->0.max_docs_scanned->0;
            let bytes_passed = options.budget is Some && options.budget->0.max_bytes_scanned is Some
                && bytes > options.budget->0.max_bytes_scanned->0;
            let r = budget_outcome(options, scanned, bytes, context);
            &&& r == Ok::<bool, ErrorView>(false) <==> !docs_passed && !bytes_passed
            &&& r == Ok::<bool, ErrorView>(true) <==> (docs_passed || bytes_passed)
                && options.allow_partial_coverage
            &&& r is Err <==> (docs_passed || bytes_passed) && !options.allow_partial_coverage
            &&& r is Err ==> r->Err_0 is QueryBudgetRequired
        }),
{
}

/// An entry is one of a collection's own: it stands under the prefix of the
/// collections, and its subject names the collection.
pub open spec fn owned(e: LiveEntryView, collection: Seq<char>) -> bool {
    e.in_prefix && e.subject is Some && (e.subject->0).0 == collection
}

/// The row of an entry of the collection that decodes.
pub open spec fn entry_row(collection: Seq<char>) -> spec_fn(LiveEntryView) -> Option<
    (Seq<char>, JsonView),
> {
    |e: LiveEntryView|
        if owned(e, collection) && e.decoded is Ok {
            Some(((e.subject->0).1, e.decoded->Ok_0))
        } else {
            None
        }
}

/// The key of an entry of the collection that does not decode, with the kind
/// of the failure.
pub open spec fn entry_failure(collection: Seq<char>) -> spec_fn(LiveEntryView) -> Option<
    (Seq<char>, Seq<char>),
> {
    |e: LiveEntryView|
        if owned(e, collection) && e.decoded is Err {
            Some(
                (
                    (e.subject->0).1,
                    if e.decoded->Err_0 is TypeMismatch {
                        "type_mismatch"@
                    } else {
                        "invalid_json"@
                    },
                ),
            )
        } else {
            None
        }
}

/// A page gives the rows of the entries of its collection, and of no other, in
/// their order. It is refused exactly where one of them does not decode; a
/// partial page gives the others and tells which do not.
pub proof fn law_page_gives_its_own_rows(entries: Seq<LiveEntryView>, collection: Seq<char>)
    ensures
        page_rows(entries, collection) is Err <==> exists|i: int|
            0 <= i < entries.len() && owned(#[trigger] entries[i], collection)
                && entries[i].decoded is Err,
        page_rows(entries, collection) is Ok ==> page_rows(entries, collection)->Ok_0
            == entries.filter_map(entry_row(collection)),
        decoded_rows(entries, collection) == entries.filter_map(entry_row(collection)),
        undecoded(entries, collection) == entries.filter_map(entry_failure(collection)),
    decreases entries.len(),
{
    if entries.len() > 0 {
        let shorter = entries.drop_last();
        let n = entries.len() - 1;
        law_page_gives_its_own_rows(shorter, collection);
        if exists|i: int|
            0 <= i < shorter.len() && owned(#[trigger] shorter[i], collection)
                && shorter[i].decoded is Err {
            let i = choose|i: int|
                0 <= i < shorter.len() && owned(#[trigger] shorter[i], collection)
                    && shorter[i].decoded is Err;
            assert(owned(entries[i], collection));
        }
        if exists|i: int|
            0 <= i < entries.len() && owned(#[trigger] entries[i], collection)
                && entries[i].decoded is Err {
            let i = choose|i: int|
                0 <= i < entries.len() && owned(#[trigger] entries[i], collection)
                    && entries[i].decoded is Err;
            if i < n {
                assert(owned(shorter[i], collection));
            }
        }
        assert(owned(entries[n], collection) == (key_in(
            entries[n].in_prefix,
            entries[n].subject,
            collection,
        ) is Some));
        let rows = shorter.filter_map(entry_row(collection));
        let failures = shorter.filter_map(entry_failure(collection));
        let last = entries.last();
        if owned(last, collection) {
            if last.decoded is Ok {
                let row = ((last.subject->0).1, last.decoded->Ok_0);
                assert(rows + seq![row] =~= rows.push(row));
            } else {
                let failure = entry_failure(collection)(last)->0;
                assert(failures + seq![failure] =~= failures.push(failure));
            }
        }
    }
}

/// The key of a subject of the collection.
pub open spec fn subject_key(collection: Seq<char>) -> spec_fn(LiveKey) -> Option<Seq<char>> {
    |k: LiveKey|
        if k.in_prefix && k.subject is Some && (k.subject->0).0@ == collection {
            Some((k.subject->0).1@)
        } else {
            None
        }
}

/// The keys of a collection are those of its own subjects, in their order.
pub proof fn law_keys_are_those_of_the_collection(subjects: Seq<LiveKey>, collection: Seq<char>)
    ensures
        own_keys(subjects, collection) == subjects.filter_map(subject_key(collection)),
    decreases subjects.len(),
{
    if subjects.len() > 0 {
        let shorter = subjects.drop_last();
        law_keys_are_those_of_the_collection(shorter, collection);
        let before = shorter.filter_map(subject_key(collection));
        if subject_key(collection)(subjects.last()) is Some {
            let key = subject_key(collection)(subjects.last())->0;
            assert(before + seq![key] =~= before.push(key));
        }
    }
}

/// A count as a JSON value.
pub open spec fn count(n: u64) -> JsonView {
    JsonView::Number(NumberView::PosInt(n))
}

/// The options of a plan are read member by member: the limit, the field to
/// order by and the direction, and the two marks, which count only where they
/// are true.
pub proof fn law_plan_options_are_read(
    object: JsonView,
    by: JsonView,
    limit: u64,
    field: Seq<char>,
    word: Seq<char>,
    force: JsonView,
    partial: JsonView,
)
    requires
        object is Object,
        has_member(object, "limit"@, count(limit)),
        has_member(object, "order_by"@, by),
        has_member(object, "force_scan"@, force),
        has_member(object, "allow_partial_coverage"@, partial),
        lacks_member(object, "budget"@),
        has_member(by, "field"@, JsonView::Text(field)),
        has_member(by, "order"@, JsonView::Text(word)),
        limit <= usize::MAX,
    ensures
        options_in(object) is Ok <==> word == "asc"@ || word == "desc"@,
        options_in(object) is Ok ==> {
            let o = options_in(object)->Ok_0;
            &&& o.limit == Some(limit as usize)
            &&& word == "asc"@ ==> o.order_by == Some((field, SortOrder::Asc))
            &&& word == "desc"@ ==> o.order_by == Some((field, SortOrder::Desc))
            &&& o.force_scan <==> force == JsonView::Bool(true)
            &&& o.allow_partial_coverage <==> partial == JsonView::Bool(true)
            &&& o.budget is None
            &&& o.cancel is None
        },
{
    let m = object->Object_0;
    lemma_member(m, "limit"@, count(limit));
    lemma_member(m, "order_by"@, by);
    lemma_member(m, "force_scan"@, force);
    lemma_member(m, "allow_partial_coverage"@, partial);
    lemma_member(m, "budget"@, JsonView::Null);
    lemma_member(by->Object_0, "field"@, JsonView::Text(field));
    lemma_member(by->Object_0, "order"@, JsonView::Text(word));
    reveal_strlit("asc");
    reveal_strlit("desc");
    assert("asc"@.len() != "desc"@.len());
}

/// An order without a direction ascends. Options without members ask for
/// nothing.
pub proof fn law_plan_options_default(object: JsonView, by: JsonView, field: Seq<char>)
    requires
        object is Object,
        lacks_member(object, "limit"@),
        lacks_member(object, "force_scan"@),
        lacks_member(object, "allow_partial_coverage"@),
        lacks_member(object, "budget"@),
        has_member(by, "field"@, JsonView::Text(field)),
        lacks_member(by, "order"@),
    ensures
        has_member(object, "order_by"@, by) ==> options_in(object) is Ok && options_in(
            object,
        )->Ok_0.order_by == Some((field, SortOrder::Asc)),
        lacks_member(object, "order_by"@) ==> options_in(object) is Ok && options_in(
            object,
        )->Ok_0.order_by is None,
        options_in(object) is Ok ==> {
            let o = options_in(object)->Ok_0;
            &&& o.limit is None
            &&& !o.force_scan
            &&& !o.allow_partial_coverage
            &&& o.budget is None
        },
{
    let m = object->Object_0;
    lemma_member(m, "limit"@, JsonView::Null);
    lemma_member(m, "order_by"@, by);
    lemma_member(m, "force_scan"@, JsonView::Null);
    lemma_member(m, "allow_partial_coverage"@, JsonView::Null);
    lemma_member(m, "budget"@, JsonView::Null);
    lemma_member(by->Object_0, "field"@, JsonView::Text(field));
    lemma_member(by->Object_0, "order"@, JsonView::Null);
}

/// The bounds of a budget are read each from its own member.
pub proof fn law_plan_budget_is_read(
    object: JsonView,
    budget: JsonView,
    docs: u64,
    bytes: u64,
    result: u64,
)
    requires
        has_member(object, "budget"@, budget),
        lacks_member(object, "limit"@),
        lacks_member(object, "order_by"@),
        has_member(budget, "max_docs_scanned"@, count(docs)),
        has_member(budget, "max_bytes_scanned"@, count(bytes)),
        has_member(budget, "max_result_bytes"@, count(result)),
        docs <= usize::MAX,
    ensures
        options_in(object) is Ok,
        options_in(object)->Ok_0.budget is Some,
        options_in(object)->Ok_0.budget->0.max_docs_scanned == Some(docs as usize),
        options_in(object)->Ok_0.budget->0.max_bytes_scanned == Some(bytes),
        options_in(object)->Ok_0.budget->0.max_result_bytes == Some(result),
{
    let m = object->Object_0;
    lemma_member(m, "limit"@, JsonView::Null);
    lemma_member(m, "order_by"@, JsonView::Null);
    lemma_member(m, "budget"@, budget);
    lemma_member(budget->Object_0, "max_docs_scanned"@, count(docs));
    lemma_member(budget->Object_0, "max_bytes_scanned"@, count(bytes));
    lemma_member(budget->Object_0, "max_result_bytes"@, count(result));
}

/// A plan has its filter and its options from the members of those names, and
/// matches everything without options where they are missing. A plan of
/// another profile is refused.
pub proof fn law_plan_is_read(
    object: JsonView,
    profile: Seq<char>,
    filter: JsonView,
    options: JsonView,
)
    requires
        has_member(object, "profile"@, JsonView::Text(profile)),
    ensures
        profile != QUERY_PLAN_PROFILE@ ==> plan_in(object) is Err,
        profile == QUERY_PLAN_PROFILE@ && has_member(object, "filter"@, filter) && has_member(
            object,
            "options"@,
            options,
        ) ==> {
            &&& plan_in(object) is Ok <==> filter_in(filter) is Ok && options_in(options) is Ok
            &&& plan_in(object) is Ok ==> plan_in(object)->Ok_0.filter == filter_in(filter)->Ok_0
                && plan_in(object)->Ok_0.options == options_in(options)->Ok_0
        },
        profile == QUERY_PLAN_PROFILE@ && lacks_member(object, "filter"@) && lacks_member(
            object,
            "options"@,
        ) ==> {
            &&& plan_in(object) is Ok
            &&& plan_in(object)->Ok_0.filter == FilterView::Always
            &&& plan_in(object)->Ok_0.options.limit is None
            &&& plan_in(object)->Ok_0.options.order_by is None
            &&& plan_in(object)->Ok_0.options.budget is None
        },
{
    let m = object->Object_0;
    lemma_member(m, "profile"@, JsonView::Text(profile));
    lemma_member(m, "filter"@, filter);
    lemma_member(m, "options"@, options);
}

} // verus!
