//! Finds, scans, indexes and heap handles.
use residiuum_sdk::app_calls::{
    add_step, delete_after_look, delete_start, map_delete_error, map_remote_delete_error,
    map_replace_error, page_keys, page_limit, remote_find, scan_fetch, scan_page,
    upsert_after_create, upsert_after_put, AddStep, DeleteStep, FindScan, Listed, UpsertStep,
};
use residiuum_sdk::app_v1::{
    CollectionId, CoveragePolicy, DeleteWithOptions, DurabilityMode, HeapId, WriteReceipt,
    ADD_KEY_MINT_ATTEMPTS,
};
use residiuum_sdk::collection::{
    budget_stop, scan_json_partial_page_on_store, find_page_size, find_start, finish_query, goes_by_index,
    scan_json_page_on_store, scan_keys_page_on_store, take_key_page, CoverageGap, FindStep, IncompleteReason,
    IndexAnswer, JsonScan, JsonScanPage, KeyScanStep, LiveDocumentPage, LiveEntry, LiveIncomplete,
    LiveKey, LiveKeyPage, LivePage, LocalFind, Probed, ResultCap, ScanAction, ScanPage, SizedRow,
};
use residiuum_sdk::covered_reads::HostDocument;
use residiuum_sdk::dialects::compile_json_value;
use residiuum_sdk::error::{Error, ErrorCode};
use residiuum_sdk::filter::{CancelToken, Filter, QueryBudget, QueryOptions, SortOrder};
use residiuum_sdk::heap::{
    application_keys, check_heap_name, delete_removed, list_collections, lookup_named, CatalogEntry,
    Heap, HeapCap, HeapCollection, HeapPool, ObjectKind, WriteCondition,
};
use residiuum_sdk::indexes::{
    check_continues, choose_index, end_build, equality_fields, index_key_for_doc, needs_catch_up,
    start_build, BuildEnd, BuildStart, BuildWalk, IndexMeta, IndexState,
};
use residiuum_sdk::json::{text_value, Json, JsonMap, JsonNumber};
use residiuum_sdk::portable_find::{
    dialect_collection_id_bytes, dialect_document, keep_sda_row, portable_request, program_input, program_rows,
    uuid_v4_shape, DialectHost, PortableRows, SdaOutcome,
};

fn of_value(v: &serde_json::Value) -> Json {
    match v {
        serde_json::Value::Null => Json::Null,
        serde_json::Value::Bool(b) => Json::Bool(*b),
        serde_json::Value::Number(n) => Json::Number(match (n.as_u64(), n.as_i64()) {
            (Some(u), _) => JsonNumber::PosInt(u),
            (None, Some(i)) => JsonNumber::NegInt(i),
            (None, None) => JsonNumber::Float(n.to_string()),
        }),
        serde_json::Value::String(s) => Json::Text(s.clone()),
        serde_json::Value::Array(a) => Json::Array(a.iter().map(of_value).collect()),
        serde_json::Value::Object(o) => {
            let mut m = JsonMap::new();
            for (k, x) in o {
                m.insert(k.clone(), of_value(x));
            }
            Json::Object(m)
        }
    }
}

fn doc(text: &str) -> Json {
    of_value(&serde_json::from_str(text).unwrap())
}

fn rows(list: &[(&str, &str)]) -> Vec<(String, Json)> {
    list.iter().map(|(k, d)| (k.to_string(), doc(d))).collect()
}

fn cap(max: u64) -> ResultCap {
    ResultCap { max, refusal: "too large".into() }
}

#[test]
fn budgets_stop_or_refuse() {
    let open = QueryOptions::new();
    assert!(!budget_stop(&open, 1_000, 1_000, "scan").unwrap());
    let bounded = QueryOptions::new().budget(QueryBudget::max_docs(2));
    assert!(!budget_stop(&bounded, 2, 0, "scan").unwrap());
    let err = budget_stop(&bounded, 3, 0, "scan").unwrap_err();
    assert_eq!(err.code(), ErrorCode::QueryBudgetRequired);
    assert!(err.to_text().contains("scan (docs examined 3 > 2)"), "{}", err.to_text());
    let mut partial = QueryOptions::new().budget(QueryBudget::max_docs(2));
    partial.allow_partial_coverage = true;
    assert!(budget_stop(&partial, 3, 0, "scan").unwrap());
}

#[test]
fn finished_rows_are_ordered_and_cut() {
    let all = || rows(&[("a", r#"{"n":2}"#), ("b", r#"{"n":1}"#), ("c", r#"{"n":3}"#)]);
    let by_n = QueryOptions::new().order_by("n", SortOrder::Asc);
    let keys = |v: Vec<(String, Json)>| v.into_iter().map(|r| r.0).collect::<Vec<_>>();
    assert_eq!(keys(finish_query(all(), 9, &by_n, &cap(10), Ok(())).unwrap()), ["b", "a", "c"]);
    let desc = QueryOptions::new().order_by("n", SortOrder::Desc).limit(2);
    assert_eq!(keys(finish_query(all(), 9, &desc, &cap(10), Ok(())).unwrap()), ["c", "a"]);
    let err = finish_query(all(), 11, &by_n, &cap(10), Ok(())).unwrap_err();
    assert_eq!(err.code(), ErrorCode::ResourceLimit);
    let stop = || Err(Error::Internal("stopped".into()));
    assert_eq!(finish_query(all(), 9, &by_n, &cap(10), stop()).unwrap().len(), 3);
    let watched = QueryOptions::new().cancel(CancelToken { cancelled: true });
    let err = finish_query(all(), 11, &watched, &cap(10), stop()).unwrap_err();
    assert_eq!(err.code(), ErrorCode::Internal);
}

#[test]
fn rows_come_in_order() {
    let keys = |v: Vec<(String, Json)>| v.into_iter().map(|r| r.0).collect::<Vec<_>>();
    let find = |list: &[(&str, &str)], options: &QueryOptions| {
        keys(finish_query(rows(list), 1, options, &cap(10), Ok(())).unwrap())
    };
    let all = [("c", r#"{"n":"b"}"#), ("a", r#"{"n":"b"}"#), ("d", "{}"), ("b", r#"{"n":"a"}"#)];
    assert_eq!(find(&all, &QueryOptions::new()), ["a", "b", "c", "d"]);
    assert_eq!(find(&all, &QueryOptions::new().limit(2)), ["a", "b"]);
    let asc = QueryOptions::new().order_by("n", SortOrder::Asc);
    let desc = QueryOptions::new().order_by("n", SortOrder::Desc);
    assert_eq!(find(&all, &asc), ["d", "b", "a", "c"]);
    assert_eq!(find(&all, &desc), ["a", "c", "b", "d"]);
    let numbers = [("a", r#"{"n":10}"#), ("b", r#"{"n":-9}"#), ("c", r#"{"n":9}"#)];
    assert_eq!(find(&numbers, &asc), ["b", "c", "a"]);
    let truths = [("a", r#"{"n":true}"#), ("b", r#"{"n":false}"#)];
    assert_eq!(find(&truths, &asc), ["b", "a"]);
    assert_eq!(find(&truths, &desc), ["a", "b"]);
}

fn live(collection: &str, key: &str, text: &str) -> LiveEntry {
    LiveEntry {
        in_prefix: true,
        subject: Some((collection.into(), key.into())),
        len: text.len() as u64,
        decoded: Ok(doc(text)),
    }
}

#[test]
fn pages_hold_the_own_documents() {
    let page = LivePage {
        entries: vec![live("c", "1", "1"), live("other", "2", "2"), live("c", "3", "3")],
        incomplete: 0,
        continuation: Some(vec![9]),
        has_more: true,
        examined: 3,
    };
    let out = scan_json_page_on_store("c", page).unwrap();
    assert_eq!(out.rows, rows(&[("1", "1"), ("3", "3")]));
    assert!(!out.complete);
    assert_eq!(out.continuation, Some(vec![9]));
    let broken = LivePage {
        entries: Vec::new(),
        incomplete: 2,
        continuation: None,
        has_more: false,
        examined: 0,
    };
    let err = scan_json_page_on_store("c", broken).unwrap_err();
    assert!(err.to_text().contains("2 live subject(s) incomplete during paged scan"));
}

#[test]
fn partial_pages_name_what_is_missing() {
    let mut bad = live("c", "2", "2");
    bad.decoded = Err(Error::Internal("x".into()));
    let page = LiveDocumentPage {
        rows: vec![live("c", "1", "1"), bad],
        incomplete: vec![LiveIncomplete {
            in_prefix: true,
            subject: Some(("c".into(), "3".into())),
            reason: IncompleteReason::PayloadPartial,
        }],
        coverage_gaps: vec![CoverageGap { kind: "tier".into(), detail: "offline".into() }],
        key_coverage_complete: false,
        continuation: None,
        has_more: false,
        examined: 3,
    };
    let out = scan_json_partial_page_on_store("c", page);
    assert_eq!(out.rows, rows(&[("1", "1")]));
    assert_eq!(out.undecodable[0].key, "2");
    assert_eq!(out.incomplete[0].completeness, "partial");
    assert_eq!(out.coverage_gaps, ["tier: offline"]);
}

#[test]
fn key_listings_need_full_coverage() {
    let page = |has_more: bool, complete: bool| {
        scan_keys_page_on_store(
            "c",
            LiveKeyPage {
                keys: vec![
                    LiveKey { in_prefix: true, subject: Some(("c".into(), "1".into())) },
                    LiveKey { in_prefix: false, subject: Some(("c".into(), "2".into())) },
                ],
                coverage_gaps: Vec::new(),
                coverage_complete: complete,
                continuation: Some(vec![1]),
                has_more,
                examined: 2,
            },
        )
    };
    let mut keys = Vec::new();
    match take_key_page(&mut keys, page(true, false)).unwrap() {
        KeyScanStep::More(c) => assert_eq!(c, Some(vec![1])),
        KeyScanStep::Done => panic!("there is more"),
    }
    assert!(matches!(take_key_page(&mut keys, page(false, true)).unwrap(), KeyScanStep::Done));
    assert_eq!(keys, ["1", "1"]);
    assert!(take_key_page(&mut keys, page(false, false)).is_err());
}

fn sized(key: &str, text: &str) -> SizedRow {
    SizedRow { key: key.into(), value: doc(text), size: 10 }
}

#[test]
fn local_finds_keep_the_matches() {
    let filter = Filter::field("n").gte(Json::Number(JsonNumber::from_i64(2)));
    let options = QueryOptions::new();
    let mut find = LocalFind::start();
    let page = ScanPage {
        rows: vec![sized("a", r#"{"n":1}"#), sized("b", r#"{"n":2}"#)],
        complete: false,
        goes_on: true,
        examined: 2,
        bytes_examined: 14,
    };
    assert_eq!(find.take_page(&filter, &options, &cap(100), page).unwrap(), FindStep::More);
    let last = ScanPage {
        rows: vec![sized("c", r#"{"n":3}"#)],
        complete: true,
        goes_on: false,
        examined: 1,
        bytes_examined: 7,
    };
    assert_eq!(find.take_page(&filter, &options, &cap(100), last).unwrap(), FindStep::Finish);
    assert_eq!(find.scanned, 3);
    assert_eq!(find.bytes_scanned, 21);
    assert_eq!(find.out, rows(&[("b", r#"{"n":2}"#), ("c", r#"{"n":3}"#)]));
}

#[test]
fn probes_check_what_the_index_named() {
    let filter = Filter::field("n").eq(doc("1"));
    let options = QueryOptions::new();
    let mut find = LocalFind::start();
    let probed = |collection: &str, text: &str| Probed {
        subject: Some((collection.into(), "k".into())),
        len: 7,
        decoded: Ok(doc(text)),
        size: 10,
    };
    for (collection, text) in [("c", r#"{"n":1}"#), ("c", r#"{"n":2}"#), ("d", r#"{"n":1}"#)] {
        assert_eq!(find.probe(&options).unwrap(), FindStep::More);
        let step = find.take_probe("c", &filter, &options, &cap(100), probed(collection, text));
        assert_eq!(step.unwrap(), FindStep::More);
    }
    assert_eq!(find.out, rows(&[("k", r#"{"n":1}"#)]));
    let answer = |usable, complete_coverage, subjects| {
        Some(IndexAnswer { usable, complete_coverage, subjects })
    };
    assert!(goes_by_index(&options, &answer(true, false, 1)));
    assert!(goes_by_index(&options, &answer(true, true, 0)));
    assert!(!goes_by_index(&options, &answer(true, false, 0)));
    assert!(!goes_by_index(&options, &answer(false, true, 1)));
    assert!(!goes_by_index(&options, &None));
}

#[test]
fn finds_start_and_page() {
    assert!(find_start(&QueryOptions::new(), false).is_ok());
    assert_eq!(
        find_start(&QueryOptions::new(), true).unwrap_err().code(),
        ErrorCode::CoverageIncomplete
    );
    assert_eq!(find_page_size(&QueryOptions::new(), 256, 4096), 256);
    assert_eq!(find_page_size(&QueryOptions::new().limit(0), 256, 4096), 1);
    assert_eq!(find_page_size(&QueryOptions::new().limit(9_999), 256, 4096), 4096);
}

#[test]
fn walks_hand_out_every_row_once() {
    let page = |list: &[(&str, &str)], complete: bool| JsonScanPage {
        rows: rows(list),
        continuation: if complete { None } else { Some(vec![7]) },
        complete,
        examined: list.len(),
        bytes_examined: 0,
    };
    let mut pages = vec![page(&[("c", "3")], true), page(&[("a", "1"), ("b", "2")], false)];
    let mut walk = JsonScan::start();
    let mut seen = Vec::new();
    loop {
        match walk.advance() {
            ScanAction::Row(row) => seen.push(row.0),
            ScanAction::End => break,
            ScanAction::Fetch(c) => {
                assert_eq!(c.is_none(), pages.len() == 2);
                assert!(walk.take_page(Ok(pages.pop().unwrap())).is_none());
            }
        }
    }
    assert_eq!(seen, ["a", "b", "c"]);
    let mut failing = JsonScan::start();
    assert!(matches!(failing.advance(), ScanAction::Fetch(None)));
    assert!(failing.take_page(Err(Error::Internal("gone".into()))).is_some());
    assert!(matches!(failing.advance(), ScanAction::End));
}

fn meta(name: &str, fields: &[&str], state: IndexState) -> IndexMeta {
    IndexMeta {
        name: name.into(),
        collection: "c".into(),
        fields: fields.iter().map(|f| f.to_string()).collect(),
        state,
        entry_count: 0,
        complete_coverage: true,
        failure_reason: String::new(),
        build_id: [0; 16],
    }
}

#[test]
fn index_keys_are_json_texts() {
    let fields = vec!["a".to_string(), "b.c".to_string()];
    let key = index_key_for_doc(&doc(r#"{"a": "x", "b": {"c": 2}}"#), &fields).unwrap();
    assert_eq!(key, b"\"x\"\x1f2");
    assert!(index_key_for_doc(&doc(r#"{"a": "x"}"#), &fields).is_none());
}

#[test]
fn filters_choose_an_index() {
    let filter = Filter::and(vec![
        Filter::field("a").eq(text_value("x")),
        Filter::field("b").eq(doc("2")),
        Filter::field("n").gte(doc("1")),
    ]);
    let eqs = equality_fields(&filter);
    assert_eq!(eqs.len(), 2);
    let list = vec![
        meta("wide", &["a", "z"], IndexState::Ready),
        meta("fits", &["b", "a"], IndexState::Ready),
    ];
    let (at, key) = choose_index(&list, &filter).unwrap();
    assert_eq!(at, 1);
    assert_eq!(key, b"2\x1f\"x\"");
    assert!(choose_index(&list, &Filter::field("n").gte(doc("1"))).is_none());
}

#[test]
fn builds_begin_and_end() {
    let fields = vec!["a".to_string()];
    assert_eq!(
        start_build(&None, "i", &fields, false).unwrap(),
        BuildStart::Fresh { rebuild: false }
    );
    let building = Some(meta("i", &["a"], IndexState::Building));
    assert_eq!(start_build(&building, "i", &fields, false).unwrap(), BuildStart::Resume);
    assert_eq!(
        start_build(&building, "i", &fields, true).unwrap(),
        BuildStart::Fresh { rebuild: true }
    );
    assert!(start_build(&None, "", &fields, false).is_err());
    assert!(start_build(&None, "i", &Vec::new(), false).is_err());
    assert!(check_continues(&building, "i").is_ok());
    let ready = Some(meta("i", &["a"], IndexState::Ready));
    let err = check_continues(&ready, "i").unwrap_err().to_text();
    assert!(err.contains("index i is not building (state=ready)"), "{err}");
    assert!(needs_catch_up(&[1], &[2]));
    assert_eq!(end_build(false, &[1], &[1]), BuildEnd::Ready);
    assert!(matches!(end_build(true, &[1], &[1]), BuildEnd::Partial(_)));
    assert!(matches!(end_build(false, &[2], &[1]), BuildEnd::Partial(_)));
}

#[test]
fn build_walks_go_on_where_they_stopped() {
    let fields = vec!["a".to_string()];
    let mut walk = BuildWalk::start(vec![5]);
    assert_eq!(walk.after, Some(vec![5]));
    walk.begin_page(0);
    let step = walk.take_entry(vec![6], &Some(doc(r#"{"a":1}"#)), &fields);
    assert_eq!(step.posting, Some(b"1".to_vec()));
    let step = walk.take_entry(vec![7], &None, &fields);
    assert!(step.posting.is_none());
    assert_eq!(walk.after, Some(vec![7]));
    assert!(!walk.end_page(Some(vec![8]), false));
    assert_eq!(walk.after, Some(vec![8]));
    assert!(!walk.saw_incomplete);
    walk.begin_page(1);
    assert!(walk.saw_incomplete);
}

fn cap_of(instance: u64, heap: u8) -> HeapCap {
    HeapCap {
        instance,
        capability_id: [heap; 16],
        heap_id: [heap; 16],
        security_revision: 1,
    }
}

const KIND: ObjectKind = ObjectKind { code: 2 };

fn handle(instance: u64, heap: u8, id: u8) -> HeapCollection {
    HeapCollection { cap: cap_of(instance, heap), id: [id; 16], name_at_open: "c".into() }
}

#[test]
fn cursors_are_bound_to_their_object() {
    let c = handle(1, 1, 5);
    let cursor = c.sign_cursor(KIND, b"key");
    assert_eq!(cursor.position(), b"key");
    assert!(c.verify_cursor(KIND, &cursor).is_ok());
    assert!(handle(1, 1, 6).verify_cursor(KIND, &cursor).is_err());
    assert!(handle(1, 2, 5).verify_cursor(KIND, &cursor).is_err());
    assert!(c.verify_cursor(ObjectKind { code: 3 }, &cursor).is_err());
}

#[test]
fn connections_and_batches_stay_with_their_heap() {
    let heap = Heap { cap: cap_of(1, 1) };
    let reissued = Heap { cap: cap_of(2, 1) };
    assert!(heap.require_same_instance(&heap).is_ok());
    assert!(heap.require_same_instance(&reissued).is_err());
    let mut pool = HeapPool::new();
    let connection = heap.checkout_connection(&mut pool, 7);
    assert_eq!(connection.token.minted_unix_s, 7);
    assert!(connection.require_heap(&heap).is_ok());
    assert!(connection.require_heap(&reissued).is_err());
    pool.give_back(connection);
    assert_eq!(heap.checkout_connection(&mut pool, 9).token.minted_unix_s, 7);
    let mut batch = heap.begin_batch();
    assert!(batch.add_collection(&handle(1, 1, 5)).is_ok());
    assert!(batch.add_collection(&handle(2, 1, 6)).is_err());
    assert_eq!(batch.members(), [[5; 16]]);
}

fn entry(name: &str, aliases: &[&str], id: u8) -> CatalogEntry {
    CatalogEntry {
        object_id: Ok([id; 16]),
        name: name.into(),
        aliases: aliases.iter().map(|a| a.to_string()).collect(),
        retired: false,
        descriptor_hash: [0; 32],
    }
}

#[test]
fn catalogues_are_searched_by_name_and_alias() {
    let list = Some(vec![entry("b", &["x"], 1), entry("a", &[], 2)]);
    assert_eq!(lookup_named(&list, "x").unwrap(), ([1; 16], "b".to_string()));
    assert!(lookup_named(&list, "zz").unwrap_err().to_text().contains("name not found: zz"));
    assert!(lookup_named(&None, "a").is_err());
    assert!(check_heap_name(&Some(entry("h", &["alias"], 1)), "alias").is_ok());
    assert!(check_heap_name(&Some(entry("h", &[], 1)), "other").is_err());
    assert!(check_heap_name(&None, "h").is_err());
    let mut retired = entry("c", &[], 3);
    retired.retired = true;
    let listed = list_collections([9; 16], &vec![entry("b", &[], 1), retired, entry("a", &[], 2)]);
    let names: Vec<String> = listed.unwrap().into_iter().map(|c| c.name).collect();
    assert_eq!(names, ["a", "b"]);
}

#[test]
fn deletes_say_whether_they_removed() {
    assert!(delete_removed(&WriteCondition::Present, false));
    assert!(!delete_removed(&WriteCondition::Unconditional, false));
    let look = DeleteWithOptions { if_version: None, if_present: false };
    assert!(matches!(delete_start(&look), DeleteStep::Look));
    let versioned = DeleteWithOptions { if_version: Some([3; 16]), if_present: true };
    assert!(matches!(
        delete_start(&versioned),
        DeleteStep::Delete(WriteCondition::LiveEventId(v)) if v == [3; 16]
    ));
    let nothing = delete_after_look("k", false, DurabilityMode::Durable).unwrap_err();
    assert!(!nothing.removed && nothing.committed);
    assert_eq!(nothing.store_id, [0; 16]);
    assert!(delete_after_look("k", true, DurabilityMode::Durable).is_ok());
    let conflict = || Error::VersionConflict { expected: [1; 16], observed: None };
    let err = map_delete_error(conflict(), &WriteCondition::Present, "k");
    assert_eq!(err.code(), ErrorCode::NotFound);
    let err = map_remote_delete_error(conflict(), &versioned, "k");
    assert!(matches!(err, Error::VersionConflict { expected, .. } if expected == [3; 16]));
    let err = map_replace_error(conflict(), [4; 16]);
    assert!(matches!(err, Error::VersionConflict { expected, .. } if expected == [4; 16]));
}

fn receipt() -> WriteReceipt {
    WriteReceipt {
        key: "k".into(),
        event_id: [1; 16],
        version: [1; 16],
        acknowledgement: DurabilityMode::Durable,
        committed: true,
        store_id: [0; 16],
        segment_id: [0; 16],
    }
}

#[test]
fn upserts_fall_back_to_a_put() {
    assert!(matches!(
        upsert_after_create(Ok(receipt())),
        UpsertStep::Done(r) if r.inserted
    ));
    let taken = Error::Remote { code: "already_exists".into(), message: "k".into() };
    assert!(matches!(upsert_after_create(Err(taken)), UpsertStep::Put));
    assert!(matches!(
        upsert_after_create(Err(Error::Internal("x".into()))),
        UpsertStep::Failed(_)
    ));
    assert!(!upsert_after_put(Ok(receipt())).unwrap().inserted);
}

#[test]
fn adds_try_a_bounded_number_of_keys() {
    assert!(matches!(add_step(0, false), AddStep::Put));
    assert!(matches!(add_step(0, true), AddStep::Again));
    assert!(matches!(add_step(ADD_KEY_MINT_ATTEMPTS - 1, true), AddStep::Exhausted(_)));
}

#[test]
fn listed_pages_report_holes() {
    let listed = vec![
        Listed { key: "a".into(), value: Some(doc("1")) },
        Listed { key: "b".into(), value: None },
    ];
    let page = scan_page(HeapId([1; 16]), CollectionId([2; 16]), listed, true);
    assert_eq!(page.rows.len(), 1);
    assert_eq!(page.known_holes.len(), 1);
    assert_eq!(page.next_after_key, Some("b".to_string()));
    assert!(!page.exhausted && !page.coverage.complete);
    assert_eq!(page_limit(None), 256);
    assert_eq!(page_limit(Some(0)), 1);
    assert_eq!(page_limit(Some(9_999)), 4_096);
    assert_eq!(scan_fetch(10), 11);
    let page = page_keys(vec!["a".into(), "b".into()], 1);
    assert_eq!((page.look_behind(), page.has_more), (None, Some(true)));
    assert_eq!(page.settled(&Vec::new()), (vec!["a".to_string()], true));
    assert_eq!(page_keys(vec!["a".into()], 1).has_more, Some(false));
    assert!(remote_find(Vec::new(), false, 2)
        .unwrap_err()
        .to_text()
        .contains("find incomplete: 2 hole(s)"));
}

#[test]
fn a_full_page_is_looked_behind() {
    assert_eq!(scan_fetch(4_096), 4_096);
    let keys: Vec<String> = (0..4_096).map(|i| format!("k{i:05}")).collect();
    let page = page_keys(keys.clone(), 4_096);
    assert_eq!((page.look_behind(), page.has_more), (Some("k04095"), None));
    assert!(page.settled(&vec!["k04096".into()]).1);
    assert!(!page_keys(keys, 4_096).settled(&Vec::new()).1);
}

#[test]
fn find_scans_stop_when_they_have_enough() {
    let mut scan = FindScan::start(1);
    let filter = Filter::field("n").eq(doc("1"));
    scan.take(&filter, Listed { key: "a".into(), value: Some(doc(r#"{"n":2}"#)) });
    assert!(!scan.is_done());
    scan.take(&filter, Listed { key: "b".into(), value: Some(doc(r#"{"n":1}"#)) });
    assert!(scan.is_done());
    scan.take(&filter, Listed { key: "c".into(), value: Some(doc(r#"{"n":1}"#)) });
    assert_eq!(scan.out.len(), 1);
    assert_eq!(scan.out[0].key, "b");
}

#[test]
fn store_keys_must_be_text() {
    assert_eq!(application_keys(&vec![b"a".to_vec()], "bad").unwrap(), ["a"]);
    let err = application_keys(&vec![vec![0xff]], "bad").unwrap_err();
    assert!(err.to_text().contains("bad"));
}

#[test]
fn portable_queries_are_bound_to_the_store() {
    let compiled = compile_json_value(&doc(r#"{"a": 1}"#)).unwrap();
    let options = QueryOptions::new().limit(5).order_by("n", SortOrder::Desc).force_scan();
    let request = portable_request(&compiled, &options, [7; 16], "c", 1_000).unwrap();
    assert_eq!(request.heap_id.0, uuid_v4_shape([7; 16]));
    assert_eq!(request.collection_id.0, dialect_collection_id_bytes([7; 16], "c"));
    assert_ne!(request.collection_id.0, dialect_collection_id_bytes([7; 16], "d"));
    assert_eq!(request.page_size, Some(5));
    assert_eq!(request.limit, Some(5));
    assert_eq!(request.source, "c");
    assert_eq!(request.project, None);
    assert_eq!(request.order_by, Some(("n".to_string(), SortOrder::Desc)));
    assert!(request.force_scan);
    assert!(request.cancel.is_none());
    let mut shown = compile_json_value(&doc(r#"{"a": 1}"#)).unwrap();
    shown.project = Some(vec!["n".into()]);
    let request = portable_request(&shown, &QueryOptions::new(), [7; 16], "c", 1_000).unwrap();
    assert_eq!(request.project, Some(vec!["n".to_string()]));
    assert_eq!(request.limit, None);
    assert!(!request.force_scan);
    assert_eq!(request.coverage, CoveragePolicy::Complete);
    assert_eq!(request.heap_id.0[6] >> 4, 4);
    assert_eq!(request.heap_id.0[8] >> 6, 2);
    let err = portable_request(&compiled, &options, [0; 16], "c", 1_000).unwrap_err();
    assert!(err.to_text().contains("non-zero durable store_id"));
}

#[test]
fn dialect_hosts_list_keys_in_order() {
    let mut host = DialectHost::new(CollectionId([1; 16]));
    assert!(host.check_id(&CollectionId([1; 16]), "one", "one").is_ok());
    let err = host.check_id(&CollectionId([2; 16]), "two", "one").unwrap_err();
    assert!(err.to_text().contains("collection_id mismatch (got two, bound one)"));
    host.fill(vec!["c".into(), "a".into(), "b".into()]);
    assert_eq!(host.list_keys(None, None), ["a", "b", "c"]);
    assert_eq!(host.list_keys(Some(1), Some("a")), ["b"]);
}

#[test]
fn documents_that_cannot_be_read_are_holes() {
    assert!(matches!(dialect_document(Ok(None)), Ok(HostDocument::Absent)));
    match dialect_document(Ok(Some(doc("7")))).unwrap() {
        HostDocument::Present { value, logical_bytes } => {
            assert_eq!(*value, doc("7"));
            assert_eq!(logical_bytes, None);
        }
        other => panic!("{other:?}"),
    }
    match dialect_document(Err(Error::CoverageIncomplete("x".into()))).unwrap() {
        HostDocument::Hole { code } => assert_eq!(code, "coverage_incomplete"),
        other => panic!("{other:?}"),
    }
    let err = dialect_document(Err(Error::Internal("x".into()))).unwrap_err();
    assert_eq!(err.code(), ErrorCode::Internal);
}

#[test]
fn portable_rows_are_cut_to_the_limit() {
    let mut run = PortableRows::start();
    let step = run.take_page(rows(&[("a", "1"), ("b", "2")]), false, true, Some(2));
    assert_eq!(step, FindStep::Finish);
    assert_eq!(run.finish(Some(1)), rows(&[("a", "1")]));
}

#[test]
fn programs_take_and_give_values() {
    assert_eq!(program_input(rows(&[("a", "1"), ("b", "2")])), doc("[1,2]"));
    assert_eq!(program_rows(doc("5")), rows(&[("$result", "5")]));
    let mut out = Vec::new();
    let row = || ("k".to_string(), doc("1"));
    keep_sda_row(&mut out, row(), SdaOutcome::Value(Json::Bool(true)), "p").unwrap();
    keep_sda_row(&mut out, row(), SdaOutcome::Value(doc("1")), "p").unwrap();
    assert_eq!(out.len(), 1);
    let err = keep_sda_row(&mut out, row(), SdaOutcome::Failed("no".into()), "p").unwrap_err();
    assert!(err.to_text().contains("filter_sda eval failed: no; src=p"));
}
