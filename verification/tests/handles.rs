//! Handles on heaps, named collections and the driver.
use residiuum_sdk::app_v1::{
    Backend, CollectionClient, CollectionId, DurabilityMode, HeapId, QueryRunOptions,
};
use residiuum_sdk::decoded_cache::DecodedJsonCache;
use residiuum_sdk::dialects::SdaParse;
use residiuum_sdk::driver::handles::{create_collection, Client, Collection as TypedCollection};
use residiuum_sdk::driver::{
    CreateCollectionOptions, CreateOptions, DeleteOptions, EmbeddedOptions, Error as DriverError,
    ErrorClass, ErrorCode as DriverCode, OperationContext, OperationId, ReplaceOptions, RequestId,
};
use residiuum_sdk::error::{Error, ErrorCode, StoreError, StoreErrorKind};
use residiuum_sdk::heap::{CatalogEntry, Heap, HeapCap, HeapCollection, WriteCondition};
use residiuum_sdk::heap_calls::AdminReceipt;
use residiuum_sdk::indexes::{IndexMeta, IndexState};
use residiuum_sdk::json::Json;
use residiuum_sdk::named_collection::{
    Collection, IndexRequest, Indexes, PutVerdicts, Request, Site,
};
use residiuum_sdk::portable_find::DialectRun;
use residiuum_sdk::view_bound::ViewBoundCollection;

fn cap() -> HeapCap {
    HeapCap { instance: 1, capability_id: [1; 16], heap_id: [2; 16], security_revision: 3 }
}

fn orders() -> HeapCollection {
    HeapCollection { cap: cap(), id: [4; 16], name_at_open: "orders".into() }
}

fn entry(name: &str, alias: &str) -> CatalogEntry {
    CatalogEntry {
        object_id: Ok([4; 16]),
        name: name.into(),
        aliases: vec![alias.into()],
        retired: false,
        descriptor_hash: [0; 32],
    }
}

fn bad_key() -> Result<(), Error> {
    Err(Error::InvalidKey("key empty"))
}

#[test]
fn heap_writes_carry_conditions() {
    let c = orders();
    let put = c.put("k", Ok(vec![1]), Ok(())).unwrap();
    assert_eq!((put.collection_id, put.key.as_str(), put.body), ([4; 16], "k", vec![1]));
    assert!(matches!(put.condition, WriteCondition::Unconditional));
    let put = c.create_if_absent("k", Ok(vec![1]), Ok(())).unwrap();
    assert!(matches!(put.condition, WriteCondition::Absent));
    let put = c.replace_if_version("k", Ok(vec![1]), Ok(()), [9; 16]).unwrap();
    assert!(matches!(put.condition, WriteCondition::LiveEventId(v) if v == [9; 16]));
    let del = c.delete_if("k", Ok(()), WriteCondition::Present).unwrap();
    assert!(!del.observe);
    assert!(c.delete("k", Ok(())).unwrap().observe);
}

#[test]
fn a_body_is_refused_before_a_key() {
    let c = orders();
    let err = c.put("", Err(Error::InvalidJson("deep".into())), bad_key()).unwrap_err();
    assert!(matches!(err, Error::InvalidJson(m) if m == "deep"));
    let err = c.put_bytes("", vec![1], bad_key()).unwrap_err();
    assert!(matches!(err, Error::InvalidKey("key empty")));
    assert!(c.delete("", bad_key()).is_err());
}

#[test]
fn a_second_read_comes_from_the_cache() {
    let c = orders();
    let mut cache = DecodedJsonCache::new(100_000);
    let first = c
        .decode_json_versioned(&mut cache, "k", [1; 16], Ok(Json::Text("a".into())), 10)
        .unwrap();
    assert!(first.same(&Json::Text("a".into())));
    let again = Err(Error::Internal("not looked at".into()));
    let second = c.decode_json_versioned(&mut cache, "k", [1; 16], again, 10).unwrap();
    assert!(second.same(&Json::Text("a".into())));
    let other = Err(Error::InvalidJson("bad".into()));
    assert!(c.decode_json_versioned_shared(&mut cache, "k", [2; 16], other, 10).is_err());
    assert_eq!((cache.stats().hits, cache.stats().misses), (1, 2));
}

#[test]
fn store_keys_are_texts() {
    assert_eq!(HeapCollection::list_keys(&vec![b"a".to_vec()]).unwrap(), vec!["a".to_string()]);
    let bad = vec![b"a".to_vec(), vec![0xff]];
    match HeapCollection::list_keys(&bad) {
        Err(Error::Internal(m)) => assert_eq!(m, "list_keys: non-UTF-8 application key"),
        other => panic!("{other:?}"),
    }
    assert!(HeapCollection::lookup_index_keys(&None).unwrap().is_none());
    match HeapCollection::lookup_index_keys_many(&Some(bad)) {
        Err(Error::Internal(m)) => assert_eq!(m, "index lookup-many: non-UTF-8 application key"),
        other => panic!("{other:?}"),
    }
    let keys = HeapCollection::lookup_ordered_index_keys(&Some(vec![b"b".to_vec()])).unwrap();
    assert_eq!(keys, Some(vec!["b".to_string()]));
}

#[test]
fn heap_objects_are_opened_by_name_or_id() {
    let heap = Heap::open_heap(cap());
    let entries = Some(vec![entry("orders", "o")]);
    let c = heap.collection(&entries, "o").unwrap();
    assert_eq!((c.id(), c.name()), ([4; 16], "orders"));
    assert!(heap.collection(&entries, "x").is_err());
    assert_eq!(heap.stream(&entries, "orders").unwrap().name(), "orders");
    assert_eq!(heap.collection_by_id([8; 16], Some(entry("a", "b"))).unwrap().id(), [8; 16]);
    let err = heap.collection_by_id([8; 16], None).unwrap_err();
    assert!(err.to_text().contains("collection id unknown"));
    let err = heap.stream_by_id([8; 16], None).unwrap_err();
    assert!(err.to_text().contains("stream id unknown"));
    assert!(Heap::open_named_heap(cap(), &Some(entry("main", "m")), "m").is_ok());
    let err = Heap::open_named_heap(cap(), &Some(entry("main", "m")), "x").unwrap_err();
    assert!(err.to_text().contains("heap name \"x\" does not match the supplied capability"));
    let err = Heap::open_named_heap(cap(), &None, "x").unwrap_err();
    assert!(err.to_text().contains("capability heap is not published"));
}

#[test]
fn a_collection_is_created_once() {
    let ask = Heap::create_collection_with("a", Ok(()), Some([1; 16]), Ok([2; 16])).unwrap();
    assert_eq!((ask.name.as_str(), ask.operation_id), ("a", [1; 16]));
    let ask = Heap::create_collection_with("a", Ok(()), None, Ok([2; 16])).unwrap();
    assert_eq!(ask.operation_id, [2; 16]);
    assert!(Heap::create_collection_with("a", Ok(()), None, Err("no".into())).is_err());
    assert!(Heap::create_collection_with("", bad_key(), None, Ok([2; 16])).is_err());
    let receipt = AdminReceipt {
        object_id: Ok([4; 16]),
        name: "a".into(),
        receipt_id: [5; 16],
        descriptor_hash: [6; 32],
        created_at: 7,
        operation_id: [1; 16],
        replayed: true,
    };
    let heap = Heap::open_heap(cap());
    let created = heap.collection_created(Ok(receipt)).unwrap();
    assert_eq!((created.collection.id(), created.replayed), ([4; 16], true));
    let kind = StoreErrorKind::HeapAdmit("object id already exists".into());
    let err = heap.collection_created(Err(StoreError { kind, text: "x".into() })).unwrap_err();
    assert_eq!(err.code(), ErrorCode::AlreadyExists);
}

fn accepted() -> PutVerdicts {
    PutVerdicts {
        depth: Ok(()),
        subject: Ok(vec![1]),
        body: Ok(vec![2]),
        length: Ok(()),
    }
}

#[test]
fn a_named_put_goes_to_its_place() {
    let local = Collection::new(Site::Local, "c".into());
    match local.put("k", Ok(Json::Null), accepted()).unwrap() {
        Request::StorePut { subject, body, durability } => {
            assert_eq!((subject, body, durability), (vec![1], vec![2], DurabilityMode::Durable));
        }
        other => panic!("{other:?}"),
    }
    let remote = Collection::new(Site::Remote, "c".into());
    let verdicts = PutVerdicts { subject: Err(Error::InvalidKey("key empty")), ..accepted() };
    assert!(matches!(
        remote.put_with("k", Ok(Json::Null), verdicts, DurabilityMode::Other(1)).unwrap(),
        Request::PutJson { durability: DurabilityMode::Other(1), .. }
    ));
    let verdicts = PutVerdicts {
        depth: Err(Error::ResourceLimit("deep".into())),
        subject: Err(Error::InvalidKey("key empty")),
        ..accepted()
    };
    let err = local.put("k", Ok(Json::Null), verdicts).unwrap_err();
    assert_eq!(err.code(), ErrorCode::ResourceLimit);
    let err = local.put("k", Err("no".into()), accepted()).unwrap_err();
    assert!(matches!(err, Error::InvalidJson(_)));
    let too_long = Err(Error::ResourceLimit("long".into()));
    assert!(remote.put_bytes("k", &[1], too_long, Ok(vec![1]), vec![2]).is_err());
    assert!(matches!(
        local.put_bytes("k", &[1], Ok(()), Ok(vec![1]), vec![2]).unwrap(),
        Request::StorePut { .. }
    ));
}

fn unsupported(r: Result<Request, Error>, text: &str) {
    match r {
        Err(Error::RemoteUnsupported(m)) => assert_eq!(m, text),
        other => panic!("{other:?}"),
    }
}

#[test]
fn some_reads_are_for_a_store_of_this_process() {
    let cluster = Collection::new(Site::Cluster, "c".into());
    let remote = Collection::new(Site::Remote, "c".into());
    let local = Collection::new(Site::Local, "c".into());
    unsupported(cluster.get_payload("k", Ok(vec![1])), "get_payload on cluster (use get)");
    assert!(matches!(remote.get_payload("k", Ok(vec![1])).unwrap(), Request::GetPayload { .. }));
    unsupported(remote.get_version(Ok(vec![1]), [1; 16]), "get_version (embedded only)");
    unsupported(remote.find_last_complete(Ok(vec![1])), "find_last_complete (embedded only)");
    unsupported(cluster.scan_keys_page(Ok(vec![1]), 5, None), "scan_keys_page (embedded only)");
    unsupported(
        remote.scan_json_partial_page(Ok(vec![1]), 5, None),
        "scan_json_partial_page (embedded only)",
    );
    unsupported(remote.scan_json_page(Ok(vec![1]), 5, None), "scan_json_page (embedded only)");
    unsupported(
        remote.scan_json_iter_paged(Ok(vec![1]), 5, 9),
        "scan_json_iter (embedded only)",
    );
    let bad = Err(Error::InvalidKey("key empty"));
    assert!(matches!(remote.get_version(bad, [1; 16]), Err(Error::InvalidKey(_))));
    match local.scan_json_iter_paged(Ok(vec![1]), 50, 9).unwrap() {
        Request::StorePage { page_size, .. } => assert_eq!(page_size, 9),
        other => panic!("{other:?}"),
    }
    assert!(matches!(local.get("k", Ok(vec![1])).unwrap(), Request::StoreGet { .. }));
    assert!(matches!(cluster.get("k", Ok(vec![1])).unwrap(), Request::GetJson { .. }));
    assert!(matches!(remote.scan_keys(Ok(vec![1]), 5).unwrap(), Request::ListKeys));
    assert!(matches!(local.scan_keys(Ok(vec![1]), 5).unwrap(), Request::StorePage { .. }));
    assert!(matches!(local.delete("k", Ok(vec![1])).unwrap(), Request::StoreDelete { .. }));
    assert!(matches!(remote.history("k", Ok(vec![1])).unwrap(), Request::History { .. }));
    assert!(cluster.durable_store_id_bytes([1; 16]).is_err());
    assert!(local.durable_store_id_bytes([0; 16]).is_err());
    assert_eq!(remote.durable_store_id_bytes([1; 16]).unwrap(), [1; 16]);
}

#[test]
fn a_dialect_says_how_it_is_run() {
    let run = Collection::find_dialect("json", r#"{"a": 1}"#, &SdaParse::Accepted).unwrap();
    assert!(matches!(run, DialectRun::Portable(_)));
    let run = Collection::find_dialect("sda", "input", &SdaParse::Accepted).unwrap();
    assert!(matches!(run, DialectRun::Program(p) if p == "input"));
    assert!(Collection::find_dialect("nope", "x", &SdaParse::Accepted).is_err());
    let found = Collection::find_with_coverage(vec![("a".into(), Json::Null)]);
    assert_eq!((found.rows.len(), found.query_id.as_str()), (1, "local-or-remote"));
    assert!(!found.coverage.incomplete);
}

fn meta(state: IndexState) -> IndexMeta {
    IndexMeta {
        name: "i".into(),
        collection: "c".into(),
        fields: vec!["a".into()],
        state,
        entry_count: 0,
        complete_coverage: false,
        failure_reason: String::new(),
        build_id: [0; 16],
    }
}

#[test]
fn indexes_are_not_for_clusters() {
    let cluster = Collection::new(Site::Cluster, "c".into()).indexes();
    assert!(cluster.list().is_none());
    assert!(matches!(
        cluster.create("i", vec!["a".into()]),
        Err(Error::RemoteUnsupported("secondary indexes on cluster (Stage 8e+)"))
    ));
    assert!(cluster.drop("i").is_err());
    let local = Collection::new(Site::Local, "c".into()).indexes();
    assert_eq!(local.collection(), "c");
    match local.rebuild("i", Some(meta(IndexState::Ready))).unwrap() {
        IndexRequest::Build { fields, force_rebuild, .. } => {
            assert_eq!((fields, force_rebuild), (vec!["a".to_string()], true));
        }
        other => panic!("{other:?}"),
    }
    assert!(local.rebuild("i", None).is_err());
    assert!(matches!(
        local.continue_build("i", Some(meta(IndexState::Building))).unwrap(),
        IndexRequest::Build { force_rebuild: false, .. }
    ));
    let err = local.continue_build("i", Some(meta(IndexState::Ready))).unwrap_err();
    assert!(err.to_text().contains("index i is not building (state=ready)"));
    let remote = Collection::new(Site::Remote, "c".into()).indexes();
    assert!(remote.continue_build("i", None).is_err());
    assert!(matches!(remote.rebuild("i", None).unwrap(), IndexRequest::Rebuild { .. }));
    assert!(Indexes::get(Vec::new(), "i").is_none());
}

#[test]
fn queries_run_on_bound_handles() {
    let heap = HeapId([7; 16]);
    let id = CollectionId([9; 16]);
    let c = CollectionClient::from_embedded(heap, id, "orders".into());
    assert_eq!(c.run_query(&QueryRunOptions::default()).unwrap(), Backend::Embedded);
    let explain = QueryRunOptions { explain: true, ..QueryRunOptions::default() };
    assert_eq!(c.run_query(&explain).unwrap_err().code(), ErrorCode::QueryInvalid);
    let unbound = CollectionClient::from_parts_for_contract(heap, id, "orders");
    assert_eq!(unbound.run_query(&explain).unwrap_err().code(), ErrorCode::Internal);
    assert_eq!(c.plan_source(CollectionId([1; 16])), id);
    assert!(c.reads_in_batch(id).unwrap());
    assert!(!unbound.asks_store(id).unwrap());
    assert!(c.asks_store(CollectionId([1; 16])).is_err());
}

#[test]
fn a_moved_view_gives_no_page() {
    let heap = HeapId([7; 16]);
    let opened = || {
        Ok(CollectionClient::from_embedded(heap, CollectionId([9; 16]), "orders".into()))
    };
    let c = ViewBoundCollection::open_collection(Ok(()), heap, heap, opened()).unwrap();
    assert_eq!((c.id(), c.name(), c.heap_id()), (CollectionId([9; 16]), "orders", heap));
    assert!(c.inner().is_bound());
    let err = ViewBoundCollection::open_collection(Ok(()), heap, HeapId([1; 16]), opened())
        .unwrap_err();
    assert_eq!(err.code(), ErrorCode::ConsistencyViolation);
    let moved = || Err(Error::ConsistencyViolation("moved".into()));
    assert!(ViewBoundCollection::open_collection(moved(), heap, heap, opened()).is_err());
    let err = ViewBoundCollection::rql(
        Ok(()),
        Err(Error::QueryInvalid("q".into())),
        moved(),
        Ok(()),
    )
    .unwrap_err();
    assert_eq!(err.code(), ErrorCode::QueryInvalid);
    let err = ViewBoundCollection::rql(
        moved(),
        Err(Error::QueryInvalid("q".into())),
        Ok(()),
        Ok(()),
    )
    .unwrap_err();
    assert_eq!(err.code(), ErrorCode::ConsistencyViolation);
    let explain = QueryRunOptions { explain: true, ..QueryRunOptions::default() };
    let err = ViewBoundCollection::run_query(Ok(()), &explain).unwrap_err();
    assert!(err.to_text().contains("use explain_rql; ViewBoundQuery::run executes rows"));
}

fn context() -> OperationContext {
    OperationContext {
        request_id: Some(RequestId([1; 16])),
        operation_id: Some(OperationId([2; 16])),
        deadline: Some(5),
    }
}

#[test]
fn typed_handles_prepare_mutations() {
    let c = TypedCollection { inner: orders() };
    assert_eq!((c.heap_id(), c.id(), c.name()), (HeapId([2; 16]), CollectionId([4; 16]), "orders"));
    let m = c.put("k".into(), Ok(vec![1])).unwrap();
    assert_ne!(m.request_id, RequestId([0; 16]));
    let created = c.create("k".into(), Ok(vec![1]), &CreateOptions { context: context() }).unwrap();
    assert_eq!((created.request_id, created.deadline), (RequestId([1; 16]), Some(5)));
    assert_ne!(created.content_hash, m.content_hash);
    let options = ReplaceOptions { context: context(), if_version: [3; 16] };
    let replaced = c.replace("k".into(), Ok(vec![1]), &options).unwrap();
    assert_ne!(created.content_hash, replaced.content_hash);
    let receipt = replaced.written(&c, "stored", true);
    assert_eq!((receipt.operation_id, receipt.deduplicated), (OperationId([2; 16]), true));
    assert_eq!((receipt.heap_id, receipt.storage), (HeapId([2; 16]), "stored"));
    let options = DeleteOptions { context: context(), ..DeleteOptions::default() };
    let removed = c.delete("k".into(), &options).unwrap();
    assert!(removed.body.is_none());
    assert_eq!(removed.deleted(&c, 1u8, false).collection_id, CollectionId([4; 16]));
    let options = DeleteOptions { if_present: false, ..options };
    assert_eq!(c.delete("k".into(), &options).unwrap_err().code, DriverCode::Validation);
}

#[test]
fn typed_reads_keep_their_version() {
    let read = TypedCollection::get_versioned(Some((Ok(5u8), [1; 16]))).unwrap().unwrap();
    assert_eq!((read.value, read.version), (5, [1; 16]));
    assert_eq!(TypedCollection::get(Some((Ok(5u8), [1; 16]))).unwrap(), Some(5));
    assert!(TypedCollection::get::<u8>(None).unwrap().is_none());
    let bad = Some((Err(Error::InvalidJson("x".into())), [1; 16]));
    assert!(TypedCollection::get::<u8>(bad).is_err());
}

#[test]
fn a_client_is_opened_with_workers() {
    let made = create_collection("a", &CreateCollectionOptions { context: context() }).unwrap();
    assert_eq!((made.operation_id, made.name.as_str()), (OperationId([2; 16]), "a"));
    let zero = OperationContext { request_id: Some(RequestId([0; 16])), ..context() };
    assert!(create_collection("a", &CreateCollectionOptions { context: zero }).is_err());
    let options = EmbeddedOptions::new("/data".into(), None).workers(0);
    let err = Client::open_embedded(&options, Ok(())).map(|_| ()).unwrap_err();
    assert_eq!(err.code, DriverCode::Validation);
    let options = options.workers(2).queue_capacity(3);
    let client = Client::open_embedded(&options, Ok(())).map_err(|_| ()).unwrap();
    assert!(client.capabilities().embedded && !client.capabilities().atomics);
    assert_eq!(client.schedule.inspect().workers, 2);
    let failed = DriverError::local(DriverCode::Internal, ErrorClass::Internal, "no store");
    assert!(Client::<()>::open_embedded(&options, Err(failed)).is_err());
}
