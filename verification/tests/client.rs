//! What handles ask of their backends, and what the replies mean.
use residiuum_sdk::app_calls::{
    added_result, check_opened, check_root, check_view_heap, covered_document, name_of_collection,
    page_keys,
    remote_delete_receipt, remote_scan_page, RemoteScanPage,
};
use residiuum_sdk::app_client::{
    create_result_from_embedded, create_result_from_remote, explained, listed_from_remote,
    opened_from_remote, plain_delete_receipt, Call, CreatedCollection, IndexManager, Operation,
    QueryExplanation, RemoteCreatedCollection, RemoteListed,
};
use residiuum_sdk::app_v1::{
    AdminOperation, Backend, CollectionClient, CollectionId, CollectionInfo, CoveragePolicy,
    CreateCollectionOptions, DeleteWithOptions, DurabilityMode, FindJsonOptions, HeapClient,
    HeapId, KeyProfile, Parameters, QueryRow, QueryRunOptions, ReplaceOptions, ScanJsonOptions,
    WriteReceipt,
};
use residiuum_sdk::app_wire::IndexInfo;
use residiuum_sdk::covered_reads::HostDocument;
use residiuum_sdk::error::{
    lift_store_cas, remote_code, ClientError, Error, ErrorCode, IoErrorKind, StoreError,
    StoreErrorKind,
};
use residiuum_sdk::heap::{map_create_object_err, WriteCondition};
use residiuum_sdk::json::{Json, JsonMap, JsonNumber};

fn of_value(v: &serde_json::Value) -> Json {
    match v {
        serde_json::Value::Null => Json::Null,
        serde_json::Value::Bool(b) => Json::Bool(*b),
        serde_json::Value::Number(n) => Json::Number(match (n.as_u64(), n.as_i64()) {
            (Some(u), _) => JsonNumber::PosInt(u),
            (None, Some(i)) => JsonNumber::NegInt(i),
            (None, None) => JsonNumber::Float(n.to_string()),
        }),
        serde_json::Value::String(s) => Json::Text(s.clone()),
        serde_json::Value::Array(a) => Json::Array(a.iter().map(of_value).collect()),
        serde_json::Value::Object(o) => {
            let mut m = JsonMap::new();
            for (k, x) in o {
                m.insert(k.clone(), of_value(x));
            }
            Json::Object(m)
        }
    }
}

fn doc(text: &str) -> Json {
    of_value(&serde_json::from_str(text).unwrap())
}

const HEAP: HeapId = HeapId([7; 16]);
const ORDERS: CollectionId = CollectionId([9; 16]);

fn unbound() -> CollectionClient {
    CollectionClient::from_parts_for_contract(HEAP, ORDERS, "orders")
}

fn embedded() -> CollectionClient {
    CollectionClient::from_embedded(HEAP, ORDERS, "orders".into())
}

fn remote() -> CollectionClient {
    CollectionClient::from_remote(HEAP, ORDERS, "orders".into(), "wire-id".into())
}

fn internal(r: Result<Call, Error>, text: &str) {
    match r {
        Err(Error::Internal(m)) => assert_eq!(m, text),
        other => panic!("{other:?}"),
    }
}

#[test]
fn unbound_handles_ask_nothing() {
    let c = unbound();
    let text = "CollectionClient unbound; open via HeapClient (APB-1)";
    internal(
        c.put("k", Ok(Json::Null)),
        "CollectionClient unbound; open via HeapClient::open_collection / create (APB-1)",
    );
    internal(c.put_with("k", Err("no".into()), DurabilityMode::Durable), text);
    internal(c.put_bytes("k", &[1]), text);
    internal(c.get("k"), text);
    internal(c.get_bytes("k"), text);
    internal(c.delete("k"), text);
    internal(c.create("k", Err("no".into())), text);
    internal(c.upsert("k", Ok(Json::Null)), text);
    internal(c.replace("k", Ok(Json::Null), [1; 16]), text);
    internal(c.delete_with("k", None, true), text);
    internal(c.list_keys(None, None), text);
    internal(c.history("k"), text);
    internal(c.scan_json(ScanJsonOptions::default()), text);
    internal(
        c.rql("from orders", &Parameters::default(), &QueryRunOptions::default(), Ok(())),
        text,
    );
    internal(c.indexes().list(), "IndexManager unbound; open via HeapClient (APB-1)");
    assert!(c.add(&[1; 16]).is_err());
    assert!(c.lookup_index_keys(Vec::new()).is_err());
    assert!(c.find_json(&doc("{}"), FindJsonOptions::default()).is_err());
    assert_eq!(c.wire_collection_id(), None);
}

#[test]
fn a_value_that_does_not_serialize_is_refused() {
    match embedded().put("k", Err("bad".into())) {
        Err(Error::InvalidJson(m)) => assert_eq!(m, "bad"),
        other => panic!("{other:?}"),
    }
    match remote().put_with("k", Err("bad".into()), DurabilityMode::Durable) {
        Err(Error::ValidationMsg(m)) => assert_eq!(m, "serialize: bad"),
        other => panic!("{other:?}"),
    }
    match remote().create("k", Err("bad".into())) {
        Err(Error::InvalidJson(m)) => assert_eq!(m, "bad"),
        other => panic!("{other:?}"),
    }
    let replace = ReplaceOptions { if_version: [1; 16] };
    match remote().replace_with("k", Err("bad".into()), replace) {
        Err(Error::InvalidJson(m)) => assert_eq!(m, "bad"),
        other => panic!("{other:?}"),
    }
}

#[test]
fn writes_are_handed_on() {
    match remote().put("k", Ok(doc(r#"{"a": 1}"#))).unwrap() {
        Call { backend: Backend::Remote, operation: Operation::Put { key, value } } => {
            assert_eq!(key, "k");
            assert!(value.same(&doc(r#"{"a": 1}"#)));
        }
        other => panic!("{other:?}"),
    }
    match embedded().put_bytes("k", &[1, 2]).unwrap() {
        Call { backend: Backend::Embedded, operation: Operation::PutBytes { key, bytes } } => {
            assert_eq!((key.as_str(), bytes), ("k", vec![1, 2]));
        }
        other => panic!("{other:?}"),
    }
    match embedded().upsert("k", Ok(Json::Bool(true))).unwrap().operation {
        Operation::Create { key, value } => {
            assert_eq!(key, "k");
            assert!(value.same(&Json::Bool(true)));
        }
        other => panic!("{other:?}"),
    }
    match embedded().replace("k", Ok(Json::Null), [4; 16]).unwrap().operation {
        Operation::Replace { key, if_version, .. } => {
            assert_eq!((key.as_str(), if_version), ("k", [4; 16]));
        }
        other => panic!("{other:?}"),
    }
}

#[test]
fn an_add_asks_whether_its_key_is_taken() {
    let (key, call) = remote().add_with(&[0xab; 16], KeyProfile::RandomV1).unwrap();
    assert_eq!(key, "ab".repeat(16));
    assert!(matches!(call.operation, Operation::Get { key } if key == "ab".repeat(16)));
    let receipt = WriteReceipt {
        key: key.clone(),
        event_id: [1; 16],
        version: [1; 16],
        acknowledgement: DurabilityMode::Durable,
        committed: true,
        store_id: [0; 16],
        segment_id: [0; 16],
    };
    let added = added_result(key, KeyProfile::RandomV1, receipt);
    assert_eq!(added.key, "ab".repeat(16));
    assert_eq!(added.key_profile, KeyProfile::RandomV1.as_str());
    assert_eq!(added.receipt.event_id, [1; 16]);
}

#[test]
fn deletes_carry_their_conditions() {
    let cond = DeleteWithOptions { if_version: Some([2; 16]), if_present: true };
    match remote().delete_with_options("k", cond).unwrap().operation {
        Operation::DeleteWith { key, options } => {
            assert_eq!((key.as_str(), options), ("k", cond));
        }
        other => panic!("{other:?}"),
    }
    match embedded().delete_with_options("k", cond).unwrap().operation {
        Operation::DeleteIf { condition: WriteCondition::LiveEventId(v), .. } => {
            assert_eq!(v, [2; 16]);
        }
        other => panic!("{other:?}"),
    }
    match embedded().delete_with("k", None, true).unwrap().operation {
        Operation::DeleteIf { condition: WriteCondition::Present, .. } => {}
        other => panic!("{other:?}"),
    }
    match embedded().delete_with("k", None, false).unwrap().operation {
        Operation::Get { key } => assert_eq!(key, "k"),
        other => panic!("{other:?}"),
    }
    assert!(matches!(embedded().delete("k").unwrap().operation, Operation::Delete { .. }));
    let plain = plain_delete_receipt("k", true);
    assert!(plain.removed && plain.committed);
    assert_eq!((plain.event_id, plain.version), ([0; 16], [0; 16]));
}

#[test]
fn a_remote_delete_reads_its_ids_leniently() {
    let r = remote_delete_receipt("k", true, &"11".repeat(16), "short", DurabilityMode::Durable);
    assert_eq!((r.event_id, r.version), ([0x11; 16], [0x11; 16]));
    let r = remote_delete_receipt("k", false, "short", &"22".repeat(16), DurabilityMode::Durable);
    assert_eq!((r.event_id, r.version, r.removed), ([0; 16], [0x22; 16], false));
}

#[test]
fn listings_and_scans_are_bounded() {
    match remote().list_keys(None, Some("a")).unwrap().operation {
        Operation::ListKeys { limit, after_key } => {
            assert_eq!((limit, after_key.as_deref()), (256, Some("a")));
        }
        other => panic!("{other:?}"),
    }
    let options = ScanJsonOptions { limit: Some(9_000), after_key: Some("b".into()) };
    match remote().scan_json(options).unwrap().operation {
        Operation::Scan { limit, after_key } => {
            assert_eq!((limit, after_key.as_deref()), (4_096, Some("b")));
        }
        other => panic!("{other:?}"),
    }
    let options = ScanJsonOptions { limit: Some(0), after_key: None };
    match embedded().scan_json(options).unwrap().operation {
        Operation::ListKeys { limit, after_key } => assert_eq!((limit, after_key), (2, None)),
        other => panic!("{other:?}"),
    }
}

#[test]
fn a_scan_looks_behind_a_full_page() {
    let options = ScanJsonOptions { limit: Some(4_096), after_key: None };
    let Operation::ListKeys { limit, .. } = embedded().scan_json(options).unwrap().operation else {
        panic!("keys are listed");
    };
    assert_eq!(limit, 4_096);
    let keys: Vec<String> = (0..limit).map(|i| format!("{i:04}")).collect();
    let page = page_keys(keys, 4_096);
    match embedded().scan_json_more(&page).unwrap().unwrap().operation {
        Operation::ListKeys { limit, after_key } => {
            assert_eq!((limit, after_key.as_deref()), (1, Some("4095")));
        }
        other => panic!("{other:?}"),
    }
    assert!(page.settled(&vec!["4096".to_string()]).1);
    let told = page_keys(vec!["a".into(), "b".into()], 1);
    assert!(embedded().scan_json_more(&told).unwrap().is_none());
}

#[test]
fn a_find_reads_its_filter_first() {
    let (call, filter) =
        remote().find_json(&doc(r#"{"a": 1}"#), FindJsonOptions { limit: Some(3) }).unwrap();
    assert!(matches!(call.operation, Operation::Find { limit: 3, .. }));
    assert!(filter.matches(&doc(r#"{"a": 1}"#)));
    assert!(!filter.matches(&doc(r#"{"a": 2}"#)));
    let (call, _) = embedded().find_json(&doc("{}"), FindJsonOptions::default()).unwrap();
    assert!(matches!(call.operation, Operation::ListKeys { limit: 256, after_key: None }));
    let err = embedded().find_json(&doc("[]"), FindJsonOptions::default()).unwrap_err();
    assert_eq!(err.code(), ErrorCode::QueryInvalid);
}

#[test]
fn an_index_probe_is_not_sent() {
    let equalities = vec![("a".to_string(), Json::Null)];
    assert!(remote().lookup_index_keys(equalities).unwrap().is_none());
    let equalities = vec![("a".to_string(), Json::Null)];
    match embedded().lookup_index_keys(equalities).unwrap().unwrap().operation {
        Operation::LookupIndexKeys { equalities } => assert_eq!(equalities[0].0, "a"),
        other => panic!("{other:?}"),
    }
}

#[test]
fn queries_run_here_or_travel() {
    let none = Parameters::default();
    match embedded().rql("from orders", &none, &QueryRunOptions::default(), Ok(())).unwrap().operation
    {
        Operation::Run { source } => assert_eq!(source, "from orders"),
        other => panic!("{other:?}"),
    }
    match remote().explain_rql("from orders", &none, QueryRunOptions::default(), Ok(())).unwrap() {
        Call { operation: Operation::Query { args }, .. } => {
            let args = Json::Object(args);
            assert!(args.get("source").unwrap().same(&Json::Text("from orders".into())));
            assert!(args.get("explain").unwrap().same(&Json::Bool(true)));
        }
        other => panic!("{other:?}"),
    }
    let refused = Err(Error::QueryInvalid("full".into()));
    let err = remote().rql("enrich", &none, &QueryRunOptions::default(), refused).unwrap_err();
    assert_eq!(err.code(), ErrorCode::QueryInvalid);
    match embedded().explain_rql("x", &none, QueryRunOptions::default(), Ok(())).unwrap().operation {
        Operation::Explain { source } => assert_eq!(source, "x"),
        other => panic!("{other:?}"),
    }
    let local = QueryExplanation {
        plan_profile: "p".into(),
        plan_hash: [1; 32],
        tree: Json::Null,
    };
    let kept = explained(local, [0; 32]);
    assert_eq!(kept.plan_hash, [1; 32]);
    assert_eq!(explained(kept, [2; 32]).plan_hash, [2; 32]);
}

fn index(name: &str) -> IndexInfo {
    IndexInfo {
        name: name.into(),
        collection: "orders".into(),
        fields: vec!["a".into()],
        state: "ready".into(),
        entry_count: 0,
        complete_coverage: true,
        failure_reason: String::new(),
        build_id_hex: String::new(),
    }
}

#[test]
fn indexes_are_managed_by_name() {
    let c = embedded();
    let m = c.indexes();
    match m.create("by_a", vec!["a".into()]).unwrap().operation {
        Operation::CreateIndex { name, fields } => {
            assert_eq!((name.as_str(), fields), ("by_a", vec!["a".to_string()]));
        }
        other => panic!("{other:?}"),
    }
    assert!(matches!(m.drop("by_a").unwrap().operation, Operation::DropIndex { .. }));
    assert!(matches!(m.rebuild("by_a").unwrap().operation, Operation::RebuildIndex { .. }));
    let listed = vec![index("x"), index("by_a")];
    assert_eq!(IndexManager::get(listed, "by_a").unwrap().name, "by_a");
    assert!(IndexManager::get(vec![index("x")], "by_a").is_none());
}

#[test]
fn heap_handles_ask_for_collections() {
    let heap = HeapClient::bind(HEAP, Backend::Remote);
    assert!(matches!(heap.read_view().unwrap().operation, Operation::OpenView));
    assert!(matches!(
        heap.open_collection("orders").unwrap().operation,
        Operation::OpenCollection { name } if name == "orders"
    ));
    assert!(matches!(heap.open_collection_by_id().unwrap().operation, Operation::ListCollections));
    let options = QueryRunOptions::default();
    assert!(matches!(
        heap.rql_full("q", &options).unwrap().operation,
        Operation::ListCollections
    ));
    let here = HeapClient::bind(HEAP, Backend::Embedded);
    assert!(matches!(here.read_view().unwrap().operation, Operation::PinView));
    assert!(matches!(here.rql_full("q", &options).unwrap().operation, Operation::Run { .. }));
    let explain = QueryRunOptions { explain: true, ..QueryRunOptions::default() };
    let err = HeapClient::from_id_for_contract(HEAP).rql_full("q", &explain).unwrap_err();
    assert_eq!(err.code(), ErrorCode::QueryInvalid);
    internal(
        HeapClient::from_id_for_contract(HEAP).list_collections(),
        "HeapClient unbound; construct with From<Heap|RemoteHeap> (APB-1)",
    );
    let mut heap = heap;
    let options = CreateCollectionOptions { operation_id: Some([3; 16]) };
    let request = heap.create_collection_with("orders", options).unwrap();
    assert_eq!(request.operation_id, Some([3; 16]));
    assert_eq!(heap.require_bound().unwrap(), Backend::Remote);
}

fn created(id: &str, receipt: &str, hash: &str) -> RemoteCreatedCollection {
    RemoteCreatedCollection {
        collection_id: id.into(),
        canonical_name: "orders".into(),
        receipt_id: receipt.into(),
        descriptor_hash: hash.into(),
    }
}

#[test]
fn created_collections_have_receipts() {
    let r = create_result_from_embedded(CreatedCollection {
        heap_id: HEAP,
        collection_id: ORDERS,
        name: "orders".into(),
        receipt_id: [5; 16],
        descriptor_hash: [6; 32],
        created_at_unix_s: 77,
    });
    assert_eq!((r.collection.id(), r.collection.heap_id()), (ORDERS, HEAP));
    assert_eq!((r.receipt.receipt_id, r.receipt.created_at), ([5; 16], 77));
    assert!(matches!(r.receipt.operation, AdminOperation::CreateCollection));

    let ids = created(&"09".repeat(16), "", &"06".repeat(32));
    let r = create_result_from_remote(HEAP, ids, None, "zero", 88).unwrap();
    assert_eq!(r.collection.id(), ORDERS);
    assert_eq!(r.collection.name(), "orders");
    assert_eq!(r.collection.wire_collection_id(), Some("09".repeat(16).as_str()));
    assert_eq!((r.receipt.receipt_id, r.receipt.created_at), ([0; 16], 88));
    assert_eq!(r.receipt.descriptor_hash, [6; 32]);

    let ids = created(&"09".repeat(16), "5", &"06".repeat(32));
    let err = create_result_from_remote(HEAP, ids, None, "zero", 88).unwrap_err();
    assert_eq!(err.code(), ErrorCode::ProtocolViolation);
    let ids = created(&"09".repeat(16), "", "06");
    assert!(create_result_from_remote(HEAP, ids, None, "zero", 88).is_err());
    let ids = created(&"00".repeat(16), "", &"06".repeat(32));
    assert!(create_result_from_remote(HEAP, ids, None, "zero", 88).is_err());
}

#[test]
fn opened_and_listed_collections_are_read() {
    let c = opened_from_remote(HEAP, "orders", "09".repeat(16), None, "zero").unwrap();
    assert_eq!((c.id(), c.name()), (ORDERS, "orders"));
    assert!(c.is_bound());
    assert!(opened_from_remote(HEAP, "orders", "9".into(), None, "zero").is_err());

    let row = |id: &str, name: &str| RemoteListed {
        id: id.into(),
        parsed: None,
        name: name.into(),
    };
    let listed = vec![row(&"09".repeat(16), "orders"), row(&"0a".repeat(16), "items")];
    let infos = listed_from_remote(HEAP, &listed, "zero").unwrap();
    assert_eq!(infos.len(), 2);
    assert_eq!(infos[1].collection_id, CollectionId([10; 16]));
    assert_eq!(infos[1].name, "items");
    assert_eq!(infos[1].descriptor_hash, [0; 32]);
    let listed = vec![row("bad", "x"), row(&"00".repeat(16), "y")];
    let err = listed_from_remote(HEAP, &listed, "zero").unwrap_err();
    assert!(err.to_text().contains("expected 16-byte hex, got len 3"), "{}", err.to_text());
}

#[test]
fn collections_are_found_by_id() {
    let infos = vec![CollectionInfo {
        heap_id: HEAP,
        collection_id: ORDERS,
        name: "orders".into(),
        descriptor_hash: [0; 32],
    }];
    assert_eq!(name_of_collection(&infos, &ORDERS, "shown").unwrap(), "orders");
    let other = CollectionId([1; 16]);
    let err = name_of_collection(&infos, &other, "shown").unwrap_err();
    assert!(err.to_text().contains("open_collection_by_id: unknown collection shown"));
    assert!(check_opened("orders", &ORDERS, &ORDERS, "a", "b").is_ok());
    let err = check_opened("orders", &ORDERS, &other, "a", "b").unwrap_err();
    assert!(err.to_text().contains("collection id mismatch for `orders`: opened a, want b"));
    assert!(check_root(&infos, &ORDERS, "shown").is_ok());
    let err = check_root(&infos, &other, "shown").unwrap_err();
    assert!(err
        .to_text()
        .contains("Full RQL root collection shown is outside the authorised Heap catalogue"));
    assert!(check_view_heap(&HEAP, &HEAP).is_ok());
    let err = check_view_heap(&HEAP, &HeapId([1; 16])).unwrap_err();
    assert_eq!(err.code(), ErrorCode::ConsistencyViolation);
    assert!(unbound().require_collection(ORDERS).is_ok());
    assert!(unbound().require_collection(other).is_err());
}

#[test]
fn a_server_page_with_holes_is_incomplete() {
    let page = |incomplete: Vec<Json>, complete: bool| RemoteScanPage {
        rows: vec![QueryRow { key: "a".into(), value: Json::Null }],
        incomplete,
        coverage_complete: complete,
        exhausted: false,
        next_after_key: Some("a".into()),
    };
    let r = remote_scan_page(HEAP, ORDERS, page(Vec::new(), true));
    assert!(r.coverage.complete);
    assert_eq!(r.next_after_key.as_deref(), Some("a"));
    let holes = vec![doc(r#"{"key": "b", "reason": "lost"}"#), doc("{}")];
    let r = remote_scan_page(HEAP, ORDERS, page(holes, true));
    assert!(!r.coverage.complete);
    assert_eq!(r.coverage.mode, CoveragePolicy::IncompleteAllowed);
    assert_eq!(r.known_holes[0].code, "lost");
    assert_eq!(r.known_holes[0].key.as_deref(), Some("b"));
    assert_eq!(r.known_holes[1].code, "incomplete");
    assert_eq!(r.known_holes[1].key, None);
}

#[test]
fn holes_are_told_from_failures() {
    let damaged = StoreError { kind: StoreErrorKind::CorruptMeta, text: "bad".into() };
    let read = covered_document(Err(Error::Store(damaged)), Some("frame".into())).unwrap();
    assert!(matches!(read, HostDocument::Hole { code } if code == "frame"));
    assert!(matches!(covered_document(Ok(None), None).unwrap(), HostDocument::Absent));
    let read = covered_document(Ok(Some(Json::Bool(true))), None).unwrap();
    assert!(matches!(read, HostDocument::Present { logical_bytes: None, .. }));
    assert!(covered_document(Err(Error::Internal("x".into())), None).is_err());
}

#[test]
fn codes_travel_by_name() {
    for code in [
        ErrorCode::AlreadyExists,
        ErrorCode::NotFound,
        ErrorCode::VersionConflict,
        ErrorCode::StaleRoute,
        ErrorCode::Io,
        ErrorCode::Internal,
    ] {
        assert_eq!(remote_code(code.as_str()), code);
    }
    assert_eq!(remote_code("not_leader"), ErrorCode::StaleRoute);
    assert_eq!(remote_code(ErrorCode::TypeMismatch.as_str()), ErrorCode::Internal);
}

#[test]
fn client_failures_are_wrapped() {
    let e = Error::from_client(ClientError::Io(IoErrorKind::Other, "pipe".into()));
    assert!(e.is_io());
    let e = Error::from_client(ClientError::Remote { code: "query_invalid".into(), message: "m".into() });
    assert!(e.is_query_invalid());
    let e = Error::from_client(ClientError::ResourceLimit("m".into()));
    assert_eq!(e.code(), ErrorCode::ResourceLimit);
}

#[test]
fn store_conflicts_are_lifted() {
    let e = Error::Store(StoreError { kind: StoreErrorKind::KeyExists, text: "x".into() });
    match lift_store_cas(e) {
        Error::Remote { code, message } => {
            assert_eq!((code.as_str(), message.as_str()), ("already_exists", "key already present"));
        }
        other => panic!("{other:?}"),
    }
    let kind = StoreErrorKind::HeapAdmit("name/alias conflict: orders".into());
    let e = map_create_object_err(StoreError { kind, text: "x".into() });
    assert_eq!(e.code(), ErrorCode::AlreadyExists);
}
