//! What the clients ask and what they make of the answers: deletes, scans,
//! queries, listings, histories, plans and the steps of an aggregate.
use crate::aggregate_scan::{
    cached_fields, candidates_required, field_pass, field_read, page_required, unprojected,
    FieldAnswer, FieldPass, RequiredView,
};
use crate::app_calls::{delete_refusal, remote_delete_refusal, MAX_LISTING};
use crate::app_client::{
    delete_operation, paged, query_call, remote_listing, scan_operation, OperationView,
    RemoteListed,
};
use crate::app_v1::{Backend, DeleteWithOptions, HeapId, QueryRunOptions};
use crate::app_wire::{full_reply, strings_in, WireIds};
use crate::codec::utf8_in;
use crate::collection::{probed, LocalFindView, Probed, ResultCap};
use crate::covered_reads::Scope;
use crate::decoded_cache::CacheView;
use crate::driver::atomics::{atomics_code, stepped, AtomicBuilder, PlanStep, RefuseReason};
use crate::driver::schedule::{earliest, DeadlineEntry};
use crate::driver::{Error as DriverError, ErrorCode as DriverCode, ErrorView as DriverErrorView};
use crate::error::{code_of, lifted, ErrorCode, ErrorView};
use crate::filter::{filter_matches, FilterView};
use crate::heap::{key_texts, named_object, CatalogEntry, WriteCondition};
use crate::json::JsonView;
use crate::meaning::law_filters_combine;
use crate::meaning::routes::{carries_name, law_name_leads_to_the_first_entry};
use crate::multi_query::{joined_query, right_narrowed, JoinBuilderView};
use crate::predicate::{nodes, nodes_of, within_ceiling, PredicateView};
use vstd::prelude::*;

verus! {

/// A delete of a client demands the version of its options where they have one,
/// else the presence of the key where they ask for it, and else looks first. A
/// server is handed the options as they are.
pub proof fn law_client_delete_demands_its_version(
    target: Backend,
    key: Seq<char>,
    options: DeleteWithOptions,
)
    ensures
        target == Backend::Remote ==> delete_operation(target, key, options)
            == (OperationView::DeleteWith { key, options }),
        target != Backend::Remote && options.if_version is Some ==> delete_operation(
            target,
            key,
            options,
        ) == (OperationView::DeleteIf {
            key,
            condition: WriteCondition::LiveEventId(options.if_version->0),
        }),
        target != Backend::Remote && options.if_version is None && options.if_present
            ==> delete_operation(target, key, options) == (OperationView::DeleteIf {
            key,
            condition: WriteCondition::Present,
        }),
        target != Backend::Remote && options.if_version is None && !options.if_present
            ==> delete_operation(target, key, options) == (OperationView::Get { key }),
{
}

/// A delete that found its key missing says so where it demanded presence, and
/// names the version that it demanded where it demanded one. Every other
/// failure keeps its code.
pub proof fn law_delete_tells_what_was_missing(
    e: ErrorView,
    options: DeleteWithOptions,
    key: Seq<char>,
    expected: [u8; 16],
    observed: Option<[u8; 16]>,
)
    ensures
        code_of(delete_refusal(e, false, key)) == code_of(lifted(e)),
        code_of(lifted(e)) != ErrorCode::VersionConflict ==> delete_refusal(e, true, key) == lifted(
            e,
        ),
        code_of(lifted(e)) == ErrorCode::VersionConflict ==> delete_refusal(e, true, key)
            is NotFound,
        ({
            let r = remote_delete_refusal(
                ErrorView::VersionConflict { expected, observed },
                options,
                key,
            );
            &&& options.if_version is Some ==> r == (ErrorView::VersionConflict {
                expected: options.if_version->0,
                observed,
            })
            &&& options.if_version is None && options.if_present ==> r is NotFound
            &&& options.if_version is None && !options.if_present ==> r
                == (ErrorView::VersionConflict { expected, observed })
        }),
        !(e is VersionConflict) && !(e is Remote) ==> remote_delete_refusal(e, options, key) == e,
{
}

/// A scan asks for as many rows as its limit says, at least one and at most
/// four thousand and ninety-six, and for two hundred and fifty-six where it
/// says nothing; a listing asks for one more, to know whether there are more.
/// It goes on behind the key that it was given.
pub proof fn law_scan_asks_for_its_limit(
    target: Backend,
    limit: Option<u32>,
    after_key: Option<Seq<char>>,
)
    ensures
        1 <= paged(limit) <= 4096,
        limit is None ==> paged(limit) == 256,
        limit is Some && 1 <= limit->0 <= 4096 ==> paged(limit) == limit->0,
        limit is Some && limit->0 > 4096 ==> paged(limit) == 4096,
        target == Backend::Remote ==> scan_operation(target, limit, after_key)
            == (OperationView::Scan { limit: paged(limit), after_key }),
        target != Backend::Remote ==> {
            let op = scan_operation(target, limit, after_key);
            &&& op is ListKeys
            &&& op->ListKeys_after_key == after_key
            &&& paged(limit) < MAX_LISTING ==> op->ListKeys_limit == paged(limit) + 1
            &&& op->ListKeys_limit >= 1
        },
{
}

/// A query of a server is sent as a query; one of a store in this process is
/// run here. One whose options the core refuses is not sent.
pub proof fn law_query_is_sent_to_servers_only(
    target: Backend,
    source: Seq<char>,
    parameters: Seq<(Seq<char>, JsonView)>,
    options: QueryRunOptions,
    core: Result<(), ErrorView>,
    local: OperationView,
)
    ensures
        ({
            let r = query_call(target, source, parameters, options, core, local);
            &&& target == Backend::Unbound ==> r is Err
            &&& target == Backend::Embedded ==> r is Ok && r->Ok_0.operation == local
                && r->Ok_0.backend == target
            &&& target == Backend::Remote && core is Err ==> r is Err && r->Err_0 == core->Err_0
            &&& target == Backend::Remote && r is Ok ==> r->Ok_0.operation is Query
                && r->Ok_0.backend == target
        }),
{
}

/// The listing of a server is read one for one, in its order, with the names as
/// they are.
pub proof fn law_remote_listing_is_read_one_for_one(
    heap_id: HeapId,
    listed: Seq<RemoteListed>,
    zero: Seq<char>,
)
    ensures
        remote_listing(heap_id, listed, zero) is Ok ==> {
            let list = remote_listing(heap_id, listed, zero)->Ok_0;
            &&& list.len() == listed.len()
            &&& forall|i: int|
                0 <= i < list.len() ==> (#[trigger] list[i]).name == listed[i].name@
                    && list[i].heap_id == heap_id && (listed[i].parsed is Some
                    ==> list[i].collection_id == listed[i].parsed->0@)
        },
    decreases listed.len(),
{
    if listed.len() > 0 && remote_listing(heap_id, listed, zero) is Ok {
        let shorter = listed.drop_last();
        law_remote_listing_is_read_one_for_one(heap_id, shorter, zero);
        let earlier = remote_listing(heap_id, shorter, zero)->Ok_0;
        let list = remote_listing(heap_id, listed, zero)->Ok_0;
        assert forall|i: int| 0 <= i < list.len() implies (#[trigger] list[i]).name
            == listed[i].name@ && list[i].heap_id == heap_id && (listed[i].parsed is Some
            ==> list[i].collection_id == listed[i].parsed->0@) by {
            if i < earlier.len() {
                assert(list[i] == earlier[i]);
                assert(shorter[i] == listed[i]);
            }
        }
    }
}

/// The full reply of a query is taken only for the heap and the collection that
/// were asked, and only for the program that was compiled here.
pub proof fn law_full_reply_is_for_its_program(
    result: JsonView,
    ids: WireIds,
    heap: Seq<u8>,
    root: Seq<u8>,
    program: Seq<u8>,
)
    requires
        full_reply(result, ids, heap, root, program) is Ok,
    ensures
        full_reply(result, ids, heap, root, program)->Ok_0.base.plan_hash == program,
        full_reply(result, ids, heap, root, program)->Ok_0.base.heap_id == heap,
        full_reply(result, ids, heap, root, program)->Ok_0.base.collection_id == root,
{
}

/// The texts of a list are its texts, in order, whatever else it holds.
pub proof fn law_texts_of_a_list(items: Seq<JsonView>)
    ensures
        strings_in(items) == items.filter_map(
            |item: JsonView|
                match item {
                    JsonView::Text(s) => Some(s),
                    _ => None,
                },
        ),
    decreases items.len(),
{
    let text = |item: JsonView|
        match item {
            JsonView::Text(s) => Some(s),
            _ => None,
        };
    if items.len() > 0 {
        let shorter = items.drop_last();
        law_texts_of_a_list(shorter);
        let earlier = shorter.filter_map(text);
        if let JsonView::Text(s) = items.last() {
            assert(earlier + seq![s] =~= earlier.push(s));
        }
    }
}

/// A step is added to a plan behind the others exactly where it is allowed;
/// else the plan is as it was, and says why. Nothing else of the plan changes.
pub proof fn law_step_is_added_where_it_is_allowed(
    earlier: AtomicBuilder,
    later: AtomicBuilder,
    outcome: Result<crate::driver::atomics::BoundCollection, DriverErrorView>,
    step: PlanStep,
    r: Result<(), DriverError>,
)
    requires
        stepped(earlier, later, outcome, step, r),
    ensures
        r is Ok <==> outcome is Ok,
        r is Ok ==> later.steps@.len() == earlier.steps@.len() + 1 && later.steps@.drop_last()
            == earlier.steps@ && later.steps@.last() == (outcome->Ok_0, step),
        r is Err ==> later.steps@ == earlier.steps@ && r->Err_0@ == outcome->Err_0,
        later.atomic_id == earlier.atomic_id,
        later.deadline == earlier.deadline,
        later.cap == earlier.cap,
{
    if outcome is Ok {
        assert(earlier.steps@.push((outcome->Ok_0, step)).drop_last() =~= earlier.steps@);
    }
}

/// A plan that is refused for want of rights is denied, one that is too large
/// meets a limit, and every other refusal is one of validation.
pub proof fn law_plan_refusals_have_their_codes(reason: Option<RefuseReason>)
    ensures
        atomics_code(reason) == DriverCode::PermissionDenied <==> reason == Some(
            RefuseReason::AuthorizationFailure,
        ) || reason == Some(RefuseReason::CrossHeapCollection) || reason == Some(
            RefuseReason::StaleOrForeignCapability,
        ),
        atomics_code(reason) == DriverCode::ResourceLimit <==> reason == Some(
            RefuseReason::LimitExceeded,
        ),
        atomics_code(reason) == DriverCode::Validation <==> reason is None || reason == Some(
            RefuseReason::Other,
        ),
{
}

/// What a probe of an index found is kept exactly where it belongs to the
/// collection and matches the filter; what does not decode refuses the find.
pub proof fn law_probe_keeps_what_matches(
    s: LocalFindView,
    collection: Seq<char>,
    filter: FilterView,
    cap: ResultCap,
    found: Probed,
)
    ensures
        found.decoded is Err ==> probed(s, collection, filter, cap, found) is Err,
        found.decoded is Ok && (found.subject is None || (found.subject->0).0@ != collection
            || !filter_matches(filter, found.decoded->Ok_0@)) ==> probed(
            s,
            collection,
            filter,
            cap,
            found,
        ) == Ok::<LocalFindView, ErrorView>(s),
        found.decoded is Ok && found.subject is Some && (found.subject->0).0@ == collection
            && filter_matches(filter, found.decoded->Ok_0@) && s.result_bytes + found.size
            <= cap.max ==> {
            let r = probed(s, collection, filter, cap, found);
            &&& r is Ok
            &&& r->Ok_0.out == s.out.push(((found.subject->0).1@, found.decoded->Ok_0@))
            &&& r->Ok_0.result_bytes == s.result_bytes + found.size
        },
{
}

/// The next deadline is the earliest of those that are registered.
pub proof fn law_next_deadline_is_the_earliest(entries: Seq<DeadlineEntry>)
    ensures
        earliest(entries) is None <==> entries.len() == 0,
        earliest(entries) matches Some(at) ==> forall|i: int|
            0 <= i < entries.len() ==> at <= (#[trigger] entries[i]).at,
        earliest(entries) matches Some(at) ==> exists|i: int|
            0 <= i < entries.len() && (#[trigger] entries[i]).at == at,
    decreases entries.len(),
{
    if entries.len() > 0 {
        let shorter = entries.drop_last();
        let n = entries.len() - 1;
        law_next_deadline_is_the_earliest(shorter);
        let at = earliest(entries)->0;
        assert(entries[n] == entries.last());
        assert forall|i: int| 0 <= i < entries.len() implies at <= (#[trigger] entries[i]).at by {
            if i < n {
                assert(shorter[i] == entries[i]);
            }
        }
        if at != entries.last().at {
            let i = choose|i: int| 0 <= i < shorter.len() && (#[trigger] shorter[i]).at == at;
            assert(entries[i].at == at);
        }
    }
}

/// A page of keys and versions is required one for one; it is refused exactly
/// where a key is no text.
pub proof fn law_page_is_required_one_for_one(
    entries: Seq<(Seq<u8>, Seq<u8>)>,
    message: Seq<char>,
)
    ensures
        page_required(entries, message) is Ok ==> {
            let list = page_required(entries, message)->Ok_0;
            &&& list.len() == entries.len()
            &&& forall|i: int|
                0 <= i < list.len() ==> (#[trigger] list[i]).raw_key == entries[i].0
                    && list[i].version == entries[i].1 && Some(list[i].key) == utf8_in(entries[i].0)
        },
        (forall|i: int| 0 <= i < entries.len() ==> utf8_in((#[trigger] entries[i]).0) is Some)
            ==> page_required(entries, message) is Ok,
    decreases entries.len(),
{
    if entries.len() > 0 {
        let shorter = entries.drop_last();
        law_page_is_required_one_for_one(shorter, message);
        if forall|i: int| 0 <= i < entries.len() ==> utf8_in((#[trigger] entries[i]).0) is Some {
            assert forall|i: int| 0 <= i < shorter.len() implies utf8_in(
                (#[trigger] shorter[i]).0,
            ) is Some by {
                assert(entries[i] == shorter[i]);
            }
            assert(utf8_in(entries[entries.len() - 1].0) is Some);
        }
        if page_required(entries, message) is Ok {
            let earlier = page_required(shorter, message)->Ok_0;
            let list = page_required(entries, message)->Ok_0;
            assert forall|i: int| 0 <= i < list.len() implies (#[trigger] list[i]).raw_key
                == entries[i].0 && list[i].version == entries[i].1 && Some(list[i].key) == utf8_in(
                entries[i].0,
            ) by {
                if i < earlier.len() {
                    assert(list[i] == earlier[i]);
                    assert(shorter[i] == entries[i]);
                }
            }
        }
    }
}

/// The candidates of an index are required in the versions that the store names
/// for exactly those keys, and not at all where it names another key or no
/// version.
pub proof fn law_candidates_are_required_as_named(
    keys: Seq<Seq<char>>,
    ids: Seq<(Seq<u8>, Option<Seq<u8>>)>,
)
    ensures
        candidates_required(keys, ids) matches Some(list) ==> list.len() == keys.len()
            && ids.len() == keys.len() && forall|i: int|
            0 <= i < list.len() ==> (#[trigger] list[i]).key == keys[i] && list[i].raw_key
                == vstd::utf8::encode_utf8(keys[i]) && Some(list[i].version) == ids[i].1,
        ids.len() != keys.len() ==> candidates_required(keys, ids) is None,
        (exists|i: int|
            0 <= i < keys.len() && ((#[trigger] ids[i]).0 != vstd::utf8::encode_utf8(keys[i])
                || ids[i].1 is None)) ==> candidates_required(keys, ids) is None,
{
    if let Some(list) = candidates_required(keys, ids) {
        assert forall|i: int| 0 <= i < list.len() implies (#[trigger] list[i]).key == keys[i]
            && list[i].raw_key == vstd::utf8::encode_utf8(keys[i]) && Some(list[i].version)
            == ids[i].1 by {
            assert(ids[i].0 == vstd::utf8::encode_utf8(keys[i]));
        }
    }
}

/// An answer with fields is taken only for exactly the required key and
/// version, and without a hole.
pub proof fn law_field_answers_are_exact(want: RequiredView, a: FieldAnswer)
    ensures
        field_read(want, a) is Values ==> a.key@ == want.raw_key && !a.hole && a.version is Some
            && a.version->0@ == want.version && a.body is Some,
        a.key@ != want.raw_key ==> field_read(want, a) is Drift,
        a.version is None || a.version->0@ != want.version ==> field_read(want, a) is Drift,
        a.hole ==> field_read(want, a) is Drift,
{
}

/// The rows of a field scan come one for each required document, under its key,
/// each from the cache where it has the fields in that version, else from the
/// answer for it.
pub proof fn law_field_rows_are_one_for_one(
    c: CacheView,
    scope: Scope,
    required: Seq<RequiredView>,
    fields: Seq<Seq<char>>,
    answers: Seq<FieldAnswer>,
    n: int,
)
    requires
        0 <= n <= required.len(),
    ensures
        field_pass(c, scope, required, fields, answers, n) matches FieldPass::Rows(done) ==> {
            &&& done.len() == n
            &&& forall|i: int|
                0 <= i < n ==> (#[trigger] done[i]).key == required[i].key && (cached_fields(
                    c,
                    scope,
                    required[i],
                    fields,
                ) is Some ==> done[i].values == cached_fields(
                    c,
                    scope,
                    required[i],
                    fields,
                )->0.values) && (cached_fields(c, scope, required[i], fields) is None ==> {
                    let a = answers[unprojected(c, scope, required, fields, i).len() as int];
                    &&& field_read(required[i], a) is Values
                    &&& done[i].values == field_read(required[i], a)->Values_0
                })
        },
    decreases n,
{
    if n > 0 {
        law_field_rows_are_one_for_one(c, scope, required, fields, answers, n - 1);
        if let FieldPass::Rows(done) = field_pass(c, scope, required, fields, answers, n) {
            let earlier = field_pass(c, scope, required, fields, answers, n - 1)->Rows_0;
            assert forall|i: int| 0 <= i < n - 1 implies #[trigger] done[i] == earlier[i] by {}
        }
    }
}

/// A name of a catalog leads to the id and the own name of the first entry that
/// carries it.
pub proof fn law_name_leads_to_an_object(entries: Seq<CatalogEntry>, name: Seq<char>, i: int)
    requires
        0 <= i < entries.len(),
        carries_name(entries[i], name),
        forall|j: int| 0 <= j < i ==> !carries_name(#[trigger] entries[j], name),
    ensures
        entries[i].object_id is Ok ==> named_object(Some(entries), name) == Ok::<
            ([u8; 16], Seq<char>),
            ErrorView,
        >((entries[i].object_id->Ok_0, entries[i].name@)),
        entries[i].object_id is Err ==> named_object(Some(entries), name) is Err,
        named_object(None, name) is Err,
{
    law_name_leads_to_the_first_entry(entries, name);
}

/// Keys are read one for one.
pub proof fn law_keys_are_read_one_for_one(raw: Seq<Seq<u8>>, message: Seq<char>)
    ensures
        key_texts(raw, message) is Ok ==> {
            let list = key_texts(raw, message)->Ok_0;
            &&& list.len() == raw.len()
            &&& forall|i: int|
                0 <= i < raw.len() ==> Some(#[trigger] list[i]) == utf8_in(raw[i])
        },
    decreases raw.len(),
{
    if raw.len() > 0 && key_texts(raw, message) is Ok {
        let shorter = raw.drop_last();
        law_keys_are_read_one_for_one(shorter, message);
        let earlier = key_texts(shorter, message)->Ok_0;
        let list = key_texts(raw, message)->Ok_0;
        assert forall|i: int| 0 <= i < raw.len() implies Some(#[trigger] list[i]) == utf8_in(
            raw[i],
        ) by {
            if i < shorter.len() {
                assert(list[i] == earlier[i]);
                assert(shorter[i] == raw[i]);
            }
        }
    }
}

/// A predicate counts itself and its parts, and is refused exactly where it has
/// more than four thousand and ninety-six.
pub proof fn law_predicates_are_counted(
    p: PredicateView,
    args: Seq<PredicateView>,
    last: PredicateView,
)
    ensures
        nodes(PredicateView::Not { arg: Box::new(p) }) == nodes(p) + 1,
        nodes(PredicateView::And { args }) == nodes_of(args) + 1,
        nodes(PredicateView::Or { args }) == nodes_of(args) + 1,
        nodes_of(args.push(last)) == nodes_of(args) + nodes(last),
        nodes_of(Seq::empty()) == 0,
        !(p is Not) && !(p is And) && !(p is Or) ==> nodes(p) == 1,
        within_ceiling(p) is Ok <==> nodes(p) <= 4096,
{
    let and = PredicateView::And { args };
    let or = PredicateView::Or { args };
    assert(nodes(and) == nodes_of(and->And_args) + 1);
    assert(nodes(or) == nodes_of(or->Or_args) + 1);
    assert(args.push(last).drop_last() =~= args);
    assert(args.push(last).last() == last);
}

/// A finished join adds its source behind the others and one join on the fields
/// and the alias that it was given. Narrowing it before narrows its source
/// alone.
pub proof fn law_join_adds_its_source(
    b: JoinBuilderView,
    f: FilterView,
    doc: JsonView,
    left_alias: Seq<char>,
    left_field: Seq<char>,
    right_field: Seq<char>,
)
    ensures
        ({
            let q = joined_query(b, left_alias, left_field, right_field);
            &&& q.sources.len() == b.query.sources.len() + 1
            &&& q.sources.drop_last() == b.query.sources
            &&& q.sources.last() == b.right
            &&& q.joins.len() == b.query.joins.len() + 1
            &&& q.joins.drop_last() == b.query.joins
            &&& q.joins.last().left_alias == left_alias
            &&& q.joins.last().left_field == left_field
            &&& q.joins.last().right_field == right_field
            &&& q.limit == b.query.limit
            &&& q.include_keys == b.query.include_keys
        }),
        filter_matches(right_narrowed(b, f).right.filter, doc) <==> filter_matches(
            b.right.filter,
            doc,
        ) && filter_matches(f, doc),
        right_narrowed(b, f).right.alias == b.right.alias,
        right_narrowed(b, f).query == b.query,
{
    let q = joined_query(b, left_alias, left_field, right_field);
    assert(q.sources.drop_last() =~= b.query.sources);
    assert(q.joins.drop_last() =~= b.query.joins);
    let parts = seq![b.right.filter, f];
    law_filters_combine(parts, f, doc);
    assert(filter_matches(parts[0], doc) == filter_matches(b.right.filter, doc));
    assert(filter_matches(parts[1], doc) == filter_matches(f, doc));
}

} // verus!
