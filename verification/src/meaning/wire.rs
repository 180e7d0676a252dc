//! What is said on the wire and in texts: which members a request carries, what
//! is read of a reply, what a failure is called, and how a test is written.
use crate::app_calls::covered_read;
use crate::app_v1::{ConsistencyMode, CoveragePolicy, QueryRunOptions};
use crate::app_wire::{query_args, reply_page, reply_rows, WireIds};
use crate::codec::utf8_in;
use crate::covered_reads::HostDocumentView;
use crate::dialects::portable::CompiledPortableView;
use crate::driver::{driver_class, ErrorCode as DriverCode, RetryDisposition};
use crate::error::{code_of, lifted, ErrorCode, ErrorView, StoreErrorKindView, StoreErrorView};
use crate::filter::{FilterView, PredView, QueryOptionsView};
use crate::json::{law_lookup_with_member, lookup, JsonView, NumberView};
use crate::meaning::{before, law_texts_are_ordered};
use crate::portable_find::{dialect_read, keys_behind, portable_requested};
use crate::predicate::PredicateView;
use crate::sda_text::{filter_text, literal, path_text, pred_text};
use vstd::prelude::*;

verus! {

proof fn lemma_argument_names()
    ensures
        "source"@.len() == 6 && "source"@[0] == 's',
        "profile"@.len() == 7 && "profile"@[0] == 'p',
        "parameters"@.len() == 10,
        "explain"@.len() == 7 && "explain"@[0] == 'e',
        "page_size"@.len() == 9,
        "coverage"@.len() == 8 && "coverage"@[0] == 'c',
        "consistency"@.len() == 11,
        "budget"@.len() == 6 && "budget"@[0] == 'b',
        "continuation"@.len() == 12,
{
    reveal_strlit("source");
    reveal_strlit("profile");
    reveal_strlit("parameters");
    reveal_strlit("explain");
    reveal_strlit("page_size");
    reveal_strlit("coverage");
    reveal_strlit("consistency");
    reveal_strlit("budget");
    reveal_strlit("continuation");
}

/// A query request says its source, its page size, its coverage, its
/// consistency, whether it is only explained and where it goes on, as its
/// options do, and nothing that they do not ask for. It is refused exactly
/// where the place to go on at is no text.
pub proof fn law_query_request_says_its_options(
    source: Seq<char>,
    parameters: Seq<(Seq<char>, JsonView)>,
    options: QueryRunOptions,
    profile: Option<Seq<char>>,
)
    ensures
        query_args(source, parameters, options, profile) is Err <==> options.after is Some
            && utf8_in(options.after->0.token@) is None,
        query_args(source, parameters, options, profile) is Ok ==> {
            let args = query_args(source, parameters, options, profile)->Ok_0;
            &&& lookup(args, "source"@) == Some(JsonView::Text(source))
            &&& options.coverage == CoveragePolicy::Complete ==> lookup(args, "coverage"@) == Some(
                JsonView::Text("complete"@),
            )
            &&& options.coverage == CoveragePolicy::IncompleteAllowed ==> lookup(args, "coverage"@)
                == Some(JsonView::Text("incomplete_allowed"@))
            &&& options.consistency == ConsistencyMode::Available ==> lookup(args, "consistency"@)
                == Some(JsonView::Text("available"@))
            &&& options.consistency == ConsistencyMode::Current ==> lookup(args, "consistency"@)
                == Some(JsonView::Text("current"@))
            &&& options.page_size is Some ==> lookup(args, "page_size"@) == Some(
                JsonView::Number(NumberView::PosInt(options.page_size->0 as u64)),
            )
            &&& options.page_size is None ==> lookup(args, "page_size"@) is None
            &&& options.explain ==> lookup(args, "explain"@) == Some(JsonView::Bool(true))
            &&& !options.explain ==> lookup(args, "explain"@) is None
            &&& options.after is Some ==> lookup(args, "continuation"@) == Some(
                JsonView::Text(utf8_in(options.after->0.token@)->0),
            )
            &&& options.after is None ==> lookup(args, "continuation"@) is None
            &&& parameters.len() > 0 ==> lookup(args, "parameters"@) == Some(
                JsonView::Object(parameters),
            )
            &&& parameters.len() == 0 ==> lookup(args, "parameters"@) is None
            &&& profile is Some ==> lookup(args, "profile"@) == Some(JsonView::Text(profile->0))
            &&& profile is None ==> lookup(args, "profile"@) is None
            &&& options.budget is None ==> lookup(args, "budget"@) is None
        },
{
    broadcast use law_lookup_with_member;

    lemma_argument_names();
    let none = Seq::<(Seq<char>, JsonView)>::empty();
    assert(lookup(none, "continuation"@) is None && lookup(none, "budget"@) is None);
    assert(lookup(none, "profile"@) is None && lookup(none, "explain"@) is None);
    assert(lookup(none, "page_size"@) is None && lookup(none, "parameters"@) is None);
}

/// An item of a reply has a key and a value.
pub open spec fn is_row(item: JsonView, key: Seq<char>, value: JsonView) -> bool {
    item is Object && lookup(item->Object_0, "key"@) == Some(JsonView::Text(key)) && lookup(
        item->Object_0,
        "value"@,
    ) == Some(value)
}

/// The rows of a reply are its items, one for one, each with the key and the
/// value that it says.
pub proof fn law_reply_rows_are_its_items(
    items: Seq<JsonView>,
    no_key: Seq<char>,
    no_value: Seq<char>,
)
    ensures
        reply_rows(items, no_key, no_value) is Ok ==> {
            let rows = reply_rows(items, no_key, no_value)->Ok_0;
            &&& rows.len() == items.len()
            &&& forall|i: int|
                0 <= i < items.len() ==> is_row(
                    items[i],
                    (#[trigger] rows[i]).0,
                    rows[i].1,
                )
        },
    decreases items.len(),
{
    if items.len() > 0 && reply_rows(items, no_key, no_value) is Ok {
        let shorter = items.drop_last();
        law_reply_rows_are_its_items(shorter, no_key, no_value);
        let earlier = reply_rows(shorter, no_key, no_value)->Ok_0;
        let rows = reply_rows(items, no_key, no_value)->Ok_0;
        assert forall|i: int| 0 <= i < items.len() implies is_row(
            items[i],
            (#[trigger] rows[i]).0,
            rows[i].1,
        ) by {
            if i < shorter.len() {
                assert(rows[i] == earlier[i]);
                assert(shorter[i] == items[i]);
            }
        }
    }
}

/// A page of a reply goes on where the reply says, is exhausted only where the
/// reply says so, and is complete only where nothing in the reply is missing.
pub proof fn law_reply_page_says_what_the_reply_says(
    result: JsonView,
    ids: WireIds,
    heap: Seq<u8>,
    collection: Seq<u8>,
)
    requires
        reply_page(result, ids, heap, collection) is Ok,
    ensures
        ({
            let page = reply_page(result, ids, heap, collection)->Ok_0;
            let m = result->Object_0;
            &&& result is Object
            &&& page.exhausted <==> lookup(m, "exhausted"@) == Some(JsonView::Bool(true))
            &&& lookup(m, "next"@) matches Some(JsonView::Text(s)) ==> page.next == Some(
                vstd::utf8::encode_utf8(s),
            )
            &&& lookup(m, "next"@) is None || lookup(m, "next"@) == Some(JsonView::Null)
                ==> page.next is None
            &&& page.remaining_limit is Some ==> lookup(m, "remaining_limit"@) == Some(
                JsonView::Number(NumberView::PosInt(page.remaining_limit->0)),
            )
            &&& page.coverage.complete ==> page.known_holes.len() == 0
            &&& lookup(m, "known_holes"@) is None ==> page.known_holes.len() == 0
            &&& lookup(m, "known_holes"@) matches Some(JsonView::Array(holes))
                ==> page.known_holes.len() == holes.len()
            &&& lookup(m, "rows"@) matches Some(JsonView::Array(items)) && page.rows.len()
                == items.len()
        }),
{
    let items = crate::app_wire::array_member(result, "rows"@)->0;
    law_reply_rows_are_its_items(items, "rql_query row key"@, "rql_query row value"@);
}

/// A portable request asks for what the options ask for: their order, their
/// limit, their bounds and their coverage, under the name of the collection.
pub proof fn law_portable_request_asks_as_the_options(
    compiled: CompiledPortableView,
    predicate: PredicateView,
    options: QueryOptionsView,
    store_id: Seq<u8>,
    name: Seq<char>,
    max_page: u32,
)
    requires
        max_page >= 1,
    ensures
        ({
            let r = portable_requested(compiled, predicate, options, store_id, name, max_page);
            &&& r.source == name
            &&& r.predicate == predicate
            &&& r.project == compiled.project
            &&& r.order_by == options.order_by
            &&& r.limit is Some <==> options.limit is Some
            &&& r.limit is Some ==> r.limit->0 == options.limit->0
            &&& r.force_scan == options.force_scan
            &&& r.coverage == CoveragePolicy::IncompleteAllowed <==> options.allow_partial_coverage
            &&& r.page_size is Some <==> options.limit is Some
            &&& r.page_size is Some ==> 1 <= r.page_size->0 <= max_page
            &&& options.limit is Some && 1 <= options.limit->0 <= max_page ==> r.page_size
                == Some(options.limit->0 as u32)
            &&& r.budget is Some <==> options.budget is Some
            &&& r.budget is Some ==> r.budget->0.max_bytes == options.budget->0.max_bytes_scanned
                && r.budget->0.max_result_bytes == options.budget->0.max_result_bytes && (
            r.budget->0.max_documents is Some <==> options.budget->0.max_docs_scanned is Some) && (
            r.budget->0.max_documents is Some ==> r.budget->0.max_documents->0
                == options.budget->0.max_docs_scanned->0)
        }),
{
}

/// A listing that goes on behind a key gives the keys behind it in the order of
/// texts, and no other; one that begins gives all.
pub proof fn law_listing_goes_on_behind_its_key(
    keys: Seq<Seq<char>>,
    after: Seq<char>,
    key: Seq<char>,
)
    ensures
        keys_behind(keys, Some(after)).contains(key) <==> keys.contains(key) && before(after, key),
        keys_behind(keys, None) == keys,
{
    let later = |k: Seq<char>| crate::portable_find::behind(k, Some(after));
    let any = |k: Seq<char>| crate::portable_find::behind(k, None);
    law_texts_are_ordered(key, after);
    lemma_filter_member(keys, later, key);
    lemma_filter_all(keys, any);
}

proof fn lemma_filter_member(
    keys: Seq<Seq<char>>,
    p: spec_fn(Seq<char>) -> bool,
    key: Seq<char>,
)
    ensures
        keys.filter(p).contains(key) <==> keys.contains(key) && p(key),
    decreases keys.len(),
{
    reveal(Seq::filter);
    if keys.len() > 0 {
        let shorter = keys.drop_last();
        let last = keys.last();
        lemma_filter_member(shorter, p, key);
        let earlier = shorter.filter(p);
        assert(keys[keys.len() - 1] == last);
        if shorter.contains(key) {
            let i = choose|i: int| 0 <= i < shorter.len() && shorter[i] == key;
            assert(keys[i] == key);
        }
        if keys.contains(key) && key != last {
            let i = choose|i: int| 0 <= i < keys.len() && keys[i] == key;
            assert(shorter[i] == key);
        }
        if p(last) {
            let out = earlier.push(last);
            assert(out[earlier.len() as int] == last);
            if earlier.contains(key) {
                let i = choose|i: int| 0 <= i < earlier.len() && earlier[i] == key;
                assert(out[i] == key);
            }
            if out.contains(key) && key != last {
                let i = choose|i: int| 0 <= i < out.len() && out[i] == key;
                assert(earlier[i] == key);
            }
        }
    }
}

proof fn lemma_filter_all(keys: Seq<Seq<char>>, p: spec_fn(Seq<char>) -> bool)
    requires
        forall|k: Seq<char>| #[trigger] p(k),
    ensures
        keys.filter(p) == keys,
    decreases keys.len(),
{
    reveal(Seq::filter);
    if keys.len() > 0 {
        lemma_filter_all(keys.drop_last(), p);
        assert(p(keys.last()));
        assert(keys.drop_last().push(keys.last()) =~= keys);
    }
}

/// A read of a document that is damaged, partial, not covered or of another
/// type is a hole; one of a key without a document is an absence; every other
/// failure is a failure.
pub proof fn law_unreadable_documents_are_holes(read: Result<Option<JsonView>, ErrorView>)
    ensures
        read matches Ok(Some(v)) ==> dialect_read(read) == Ok::<HostDocumentView, ErrorView>(
            HostDocumentView::Present { value: v, logical_bytes: None },
        ),
        read matches Ok(None) ==> dialect_read(read) == Ok::<HostDocumentView, ErrorView>(
            HostDocumentView::Absent,
        ),
        read matches Err(e) ==> (dialect_read(read) is Err <==> code_of(e) != ErrorCode::DataDamaged
            && code_of(e) != ErrorCode::PayloadPartial && code_of(e)
            != ErrorCode::CoverageIncomplete && code_of(e) != ErrorCode::TypeMismatch),
        read is Err && dialect_read(read) is Err ==> dialect_read(read)->Err_0 == read->Err_0,
        read is Err && dialect_read(read) is Ok ==> dialect_read(read)->Ok_0 is Hole,
{
}

/// A failure that is named after a code has that code. Damaged content has one
/// code, however it was found.
pub proof fn law_failures_have_their_codes(m: Seq<char>, n: Seq<char>, p: u32, v: [u8; 16])
    ensures
        code_of(ErrorView::NotFound(m)) == ErrorCode::NotFound,
        code_of(ErrorView::VersionConflict { expected: v, observed: None })
            == ErrorCode::VersionConflict,
        code_of(ErrorView::QueryInvalid(m)) == ErrorCode::QueryInvalid,
        code_of(ErrorView::QueryBudgetRequired(m)) == ErrorCode::QueryBudgetRequired,
        code_of(ErrorView::ResourceLimit(m)) == ErrorCode::ResourceLimit,
        code_of(ErrorView::CoverageIncomplete(m)) == ErrorCode::CoverageIncomplete,
        code_of(ErrorView::PartitionUnavailable { partition: p, reason: m })
            == ErrorCode::PartitionUnavailable,
        code_of(ErrorView::StaleRoute { partition: p, message: m }) == ErrorCode::StaleRoute,
        code_of(ErrorView::ConsistencyViolation(m)) == ErrorCode::ConsistencyViolation,
        code_of(ErrorView::DurabilityUnavailable(m)) == ErrorCode::DurabilityUnavailable,
        code_of(ErrorView::PayloadPartial) == ErrorCode::PayloadPartial,
        code_of(ErrorView::TypeMismatch { expected: m, found: n }) == ErrorCode::TypeMismatch,
        code_of(ErrorView::AuthenticationFailed(m)) == ErrorCode::AuthenticationFailed,
        code_of(ErrorView::PermissionDenied(m)) == ErrorCode::PermissionDenied,
        code_of(ErrorView::DeadlineExceeded(m)) == ErrorCode::DeadlineExceeded,
        code_of(ErrorView::ProtocolViolation(m)) == ErrorCode::ProtocolViolation,
        code_of(ErrorView::Io(m)) == ErrorCode::Io,
        code_of(ErrorView::Internal(m)) == ErrorCode::Internal,
        code_of(ErrorView::RemoteUnsupported(m)) == ErrorCode::FormatUnsupported,
        code_of(ErrorView::BadPayload) == ErrorCode::DataDamaged,
        code_of(ErrorView::InvalidJson(m)) == ErrorCode::DataDamaged,
        code_of(ErrorView::InvalidKey(m)) == ErrorCode::ValidationFailed,
        code_of(ErrorView::InvalidCollectionName(m)) == ErrorCode::ValidationFailed,
        code_of(ErrorView::ValidationMsg(m)) == ErrorCode::ValidationFailed,
{
}

/// The failures of a store have the codes of what failed.
pub proof fn law_store_failures_have_their_codes(kind: StoreErrorKindView, text: Seq<char>)
    ensures
        ({
            let code = code_of(ErrorView::Store(StoreErrorView { kind, text }));
            &&& kind is VersionConflict <==> code == ErrorCode::VersionConflict
            &&& kind is KeyExists || kind is AlreadyExists <==> code == ErrorCode::AlreadyExists
            &&& kind is WriterLockHeld <==> code == ErrorCode::WriterLockHeld
            &&& kind is CoverageIncomplete <==> code == ErrorCode::CoverageIncomplete
            &&& kind is PayloadPartial <==> code == ErrorCode::PayloadPartial
            &&& kind is TierOffline <==> code == ErrorCode::PartitionUnavailable
            &&& kind is HeapCapability || kind is HeapAdmit <==> code == ErrorCode::PermissionDenied
            &&& kind is PayloadTooLarge || kind is WriteAdmissionFull <==> code
                == ErrorCode::ResourceLimit
            &&& kind is NotAStore || kind is SubjectTooLong <==> code
                == ErrorCode::ValidationFailed
            &&& kind is HistoryEventNotFound || kind is SegmentNotFound || kind
                is LocatorSegmentNotFound <==> code == ErrorCode::NotFound
            &&& kind is FormatUnsupported || kind is MediaUnsupported <==> code
                == ErrorCode::FormatUnsupported
            &&& kind is BadEnvelope || kind is CorruptMeta || kind is CorruptControl || kind
                is Frame || kind is Segment || kind is PayloadConflict || kind is LocatorFault
                <==> code == ErrorCode::DataDamaged
            &&& kind is CursorInvalid <==> code == ErrorCode::QueryInvalid
            &&& kind is RandomUnavailable <==> code == ErrorCode::Internal
        }),
{
}

/// A conflict of versions that the store found says which version was expected
/// and which was there.
pub proof fn law_store_conflicts_are_lifted(
    expected: [u8; 16],
    observed: Option<[u8; 16]>,
    text: Seq<char>,
    other: ErrorView,
)
    ensures
        lifted(
            ErrorView::Store(
                StoreErrorView {
                    kind: StoreErrorKindView::VersionConflict { expected, observed },
                    text,
                },
            ),
        ) == (ErrorView::VersionConflict { expected, observed }),
        !(other is Store) ==> lifted(other) == other,
        code_of(lifted(other)) == code_of(other),
{
    match other {
        ErrorView::Store(StoreErrorView { kind: StoreErrorKindView::KeyExists, .. }) => {
            crate::error::law_code_travels(ErrorCode::AlreadyExists);
        },
        _ => {},
    }
}

/// The driver tells a request at fault from a service at fault, and offers a
/// request again only where the store could not be reached: as it is where it
/// only reads, after a lookup of its outcome where it writes.
pub proof fn law_driver_offers_a_retry_only_when_unreachable(e: ErrorView, mutation: bool)
    requires
        !(e is Store),
    ensures
        ({
            let (code, _, retry) = driver_class(e, mutation);
            let unreachable = code_of(e) == ErrorCode::Io || code_of(e)
                == ErrorCode::PartitionUnavailable || code_of(e) == ErrorCode::WriterLockHeld;
            &&& unreachable <==> code == DriverCode::Unavailable
            &&& !unreachable <==> retry == RetryDisposition::Never
            &&& unreachable && mutation ==> retry == RetryDisposition::OutcomeLookupRequired
            &&& unreachable && !mutation ==> retry == RetryDisposition::SafeSameRequest
            &&& code_of(e) == ErrorCode::NotFound <==> code == DriverCode::NotFound
            &&& code_of(e) == ErrorCode::DeadlineExceeded <==> code == DriverCode::DeadlineExceeded
            &&& code_of(e) == ErrorCode::PermissionDenied || code_of(e)
                == ErrorCode::AuthenticationFailed <==> code == DriverCode::PermissionDenied
            &&& code_of(e) == ErrorCode::ValidationFailed || code_of(e) == ErrorCode::QueryInvalid
                <==> code == DriverCode::Validation
            &&& code_of(e) == ErrorCode::AlreadyExists || code_of(e) == ErrorCode::VersionConflict
                || code_of(e) == ErrorCode::ConsistencyViolation <==> code == DriverCode::Conflict
        }),
{
}

/// A test is written with the sign of its comparison between the path and the
/// value.
pub proof fn law_test_is_written_with_its_sign(path: Seq<char>, v: JsonView, p: Seq<char>)
    ensures
        pred_text(path, PredView::Lt(v)) == "mapOpt("@ + path_text(path) + ", x => x "@ + "< "@
            + literal(v) + ") = Some(true)"@,
        pred_text(path, PredView::Lte(v)) == "mapOpt("@ + path_text(path) + ", x => x "@ + "<= "@
            + literal(v) + ") = Some(true)"@,
        pred_text(path, PredView::Gt(v)) == "mapOpt("@ + path_text(path) + ", x => x "@ + "> "@
            + literal(v) + ") = Some(true)"@,
        pred_text(path, PredView::Gte(v)) == "mapOpt("@ + path_text(path) + ", x => x "@ + ">= "@
            + literal(v) + ") = Some(true)"@,
        pred_text(path, PredView::Eq(v)) == path_text(path) + " = Some("@ + literal(v) + ")"@,
        pred_text(path, PredView::Ne(v)) == path_text(path) + " != Some("@ + literal(v) + ")"@,
        pred_text(path, PredView::Exists(true)) == path_text(path) + " != None"@,
        pred_text(path, PredView::Exists(false)) == path_text(path) + " = None"@,
{
}

/// Filters are written with `and`, `or` and `not` between and before their
/// parts, each part in brackets.
pub proof fn law_combined_filters_are_written_with_their_words(a: FilterView, b: FilterView)
    ensures
        filter_text(FilterView::And(seq![a, b])) == "("@ + filter_text(a) + ")"@ + " and "@ + ("("@
            + filter_text(b) + ")"@),
        filter_text(FilterView::Or(seq![a, b])) == "("@ + filter_text(a) + ")"@ + " or "@ + ("("@
            + filter_text(b) + ")"@),
        filter_text(FilterView::Not(Box::new(a))) == "not ("@ + filter_text(a) + ")"@,
        filter_text(FilterView::Always) == "true"@,
        filter_text(FilterView::And(Seq::empty())) == "true"@,
        filter_text(FilterView::Or(Seq::empty())) == "false"@,
{
    reveal_with_fuel(crate::text::joined, 3);
    let and = FilterView::And(seq![a, b]);
    let or = FilterView::Or(seq![a, b]);
    let parts = seq![a, b];
    let written = crate::sda_text::filter_texts(parts);
    assert(written.len() == 2);
    assert(written[0] == "("@ + filter_text(a) + ")"@);
    assert(written[1] == "("@ + filter_text(b) + ")"@);
    assert(written.drop_last().len() == 1 && written.drop_last()[0] == written[0]);
    assert(and->And_0 == parts && or->Or_0 == parts);
}

/// A covered read gives what was read: the document, its absence, or a hole
/// where the content is damaged, partial, not covered or of another type. A
/// failure of the store is a hole only where the store says which.
pub proof fn law_covered_read_tells_holes_from_failures(
    read: Result<Option<JsonView>, ErrorView>,
    store_hole: Option<Seq<char>>,
)
    ensures
        read matches Ok(Some(v)) ==> covered_read(read, store_hole) == Ok::<
            HostDocumentView,
            ErrorView,
        >(HostDocumentView::Present { value: v, logical_bytes: None }),
        read matches Ok(None) ==> covered_read(read, store_hole) == Ok::<
            HostDocumentView,
            ErrorView,
        >(HostDocumentView::Absent),
        read is Err && read->Err_0 is Store ==> (covered_read(read, store_hole) is Ok
            <==> store_hole is Some),
        read is Err && read->Err_0 is Store && store_hole is Some ==> covered_read(
            read,
            store_hole,
        )->Ok_0 == (HostDocumentView::Hole { code: store_hole->0 }),
        read is Err && !(read->Err_0 is Store) ==> (covered_read(read, store_hole) is Ok <==> code_of(
            read->Err_0,
        ) == ErrorCode::DataDamaged || code_of(read->Err_0) == ErrorCode::PayloadPartial || code_of(
            read->Err_0,
        ) == ErrorCode::CoverageIncomplete || code_of(read->Err_0) == ErrorCode::TypeMismatch),
        read is Err && covered_read(read, store_hole) is Err ==> covered_read(
            read,
            store_hole,
        )->Err_0 == read->Err_0,
{
}

} // verus!
