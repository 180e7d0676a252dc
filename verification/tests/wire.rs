//! Replies and requests as they travel, and the values they are made of.
use residiuum_sdk::app_v1::{
    CollectionId, ConsistencyMode, Continuation, CoveragePolicy, HeapId, Parameters, QueryBudget,
    QueryRunOptions,
};
use residiuum_sdk::app_wire::{
    collection_id_from_wire, hex_to_16, index_info_from_remote_json,
    key_history_from_remote_versions, parse_hex16, parse_rql_full_result, parse_rql_query_result,
    rql_wire_args, version_from_remote_json, write_receipt_from_remote_ids, WireIds,
};
use residiuum_sdk::codec::{hex_of, push_le8, read_le8, read_utf8};
use residiuum_sdk::driver::atomics::{
    commit, commit_as, commit_ended, commit_lost, commit_ran, read_observed, witness_for, AtomicBuilder,
    AtomicCounters, AtomicId, AtomicRead, AtomicVerdict, AtomicsError, ConstructionRead, Frontier,
    PlanStep, ReadStep, RefuseReason, Witness,
};
use residiuum_sdk::driver::{Error as DriverError, ErrorClass, ErrorCode as DriverCode, RequestId};
use residiuum_sdk::error::{Error, ErrorCode};
use residiuum_sdk::heap::{HeapCap, HeapCollection};
use residiuum_sdk::json::{Json, JsonMap, JsonNumber};

fn of_value(v: &serde_json::Value) -> Json {
    match v {
        serde_json::Value::Null => Json::Null,
        serde_json::Value::Bool(b) => Json::Bool(*b),
        serde_json::Value::Number(n) => Json::Number(match (n.as_u64(), n.as_i64()) {
            (Some(u), _) => JsonNumber::PosInt(u),
            (None, Some(i)) => JsonNumber::NegInt(i),
            (None, None) => JsonNumber::Float(n.to_string()),
        }),
        serde_json::Value::String(s) => Json::Text(s.clone()),
        serde_json::Value::Array(a) => Json::Array(a.iter().map(of_value).collect()),
        serde_json::Value::Object(o) => {
            let mut m = JsonMap::new();
            for (k, x) in o {
                m.insert(k.clone(), of_value(x));
            }
            Json::Object(m)
        }
    }
}

fn doc(text: &str) -> Json {
    of_value(&serde_json::from_str(text).unwrap())
}

const HEAP: HeapId = HeapId([1; 16]);
const COLLECTION: CollectionId = CollectionId([2; 16]);

fn ids() -> WireIds {
    WireIds {
        heap: Ok([1; 16]),
        collection: Some([2; 16]),
        zero: "zero id".into(),
    }
}

fn reply(extra: &str) -> Json {
    doc(&format!(
        r#"{{"heap_id": "h", "collection_id": "c", "plan_hash": "{}", "query_id": "{}",
            "rows": [{{"key": "a", "value": 1}}] {extra}}}"#,
        "ab".repeat(32),
        "cd".repeat(16),
    ))
}

#[test]
fn query_replies_are_read() {
    let page = parse_rql_query_result(
        &reply(
            r#", "next": "tok", "exhausted": false, "remaining_limit": 4,
               "coverage": {"complete": false, "mode": "incomplete_allowed"},
               "consistency": {"mode": "current"},
               "known_holes": [{"code": "gone", "key": "z"}, {}],
               "logical_bytes_examined": 77"#,
        ),
        &ids(),
        HEAP,
        COLLECTION,
    )
    .unwrap();
    assert_eq!(page.plan_hash, [0xab; 32]);
    assert_eq!(page.query_id.0, [0xcd; 16]);
    assert_eq!(page.rows.len(), 1);
    assert_eq!(page.next, Some(Continuation { token: b"tok".to_vec() }));
    assert!(!page.coverage.complete);
    assert_eq!(page.coverage.hole_count, 2);
    assert_eq!(page.coverage.mode, CoveragePolicy::IncompleteAllowed);
    assert_eq!(page.coverage.examined_documents, 3);
    assert_eq!(page.consistency.mode, ConsistencyMode::Current);
    assert_eq!(page.remaining_limit, Some(4));
    assert_eq!(page.known_holes[1].code, "unknown");
    assert_eq!(page.logical_bytes_examined, 77);
}

#[test]
fn pages_with_holes_are_not_complete() {
    let read = |extra: &str| {
        parse_rql_query_result(&reply(extra), &ids(), HEAP, COLLECTION).unwrap().coverage
    };
    let silent = read(r#", "known_holes": [{"code": "gone", "key": "z"}]"#);
    assert!(!silent.complete);
    assert_eq!(silent.hole_count, 1);
    let affirming = read(
        r#", "coverage": {"complete": true}, "known_holes": [{"code": "gone"}, {"code": "lost"}]"#,
    );
    assert!(!affirming.complete);
    assert_eq!(affirming.hole_count, 2);
    let whole = read(r#", "coverage": {"complete": true}, "known_holes": []"#);
    assert!(whole.complete);
    assert_eq!(whole.hole_count, 0);
    let denied = read(r#", "coverage": {"complete": false}"#);
    assert!(!denied.complete);
    assert_eq!(denied.hole_count, 0);
}

#[test]
fn replies_of_other_handles_are_refused() {
    let text = |r: Json, ids: WireIds, heap, coll| {
        parse_rql_query_result(&r, &ids, heap, coll).unwrap_err().to_text()
    };
    assert!(text(reply(""), ids(), HeapId([9; 16]), COLLECTION).contains("bound Heap identity"));
    assert!(text(reply(""), ids(), HEAP, CollectionId([9; 16])).contains("bound collection identity"));
    assert!(text(doc("{}"), ids(), HEAP, COLLECTION).contains("rql_query missing heap_id"));
    let mut bad = ids();
    bad.heap = Err("not a uuid".into());
    assert!(text(reply(""), bad, HEAP, COLLECTION).contains("rql_query bad heap_id: not a uuid"));
    assert!(text(reply(r#", "next": 5"#), ids(), HEAP, COLLECTION)
        .contains("rql_query next must be string or null"));
}

#[test]
fn full_replies_are_read() {
    let full = reply(
        r#", "profile": "rql-full-v1", "base_rows": [{"key": "b", "value": 2}],
            "enrich_loads": [{"using": "u", "output": "o", "mode": "equality_index"}]"#,
    );
    let page = parse_rql_full_result(&full, &ids(), HEAP, COLLECTION, &[0xab; 32]).unwrap();
    assert_eq!(page.rows.len(), 1);
    assert_eq!(page.base.rows[0].key, "b");
    assert_eq!(page.enrich_loads[0].using, "u");
    let err = parse_rql_full_result(&full, &ids(), HEAP, COLLECTION, &[0; 32]).unwrap_err();
    assert!(err.to_text().contains("QVM identity differs"));
    let err = parse_rql_full_result(&reply(""), &ids(), HEAP, COLLECTION, &[0; 32]).unwrap_err();
    assert_eq!(err.code(), ErrorCode::ProtocolViolation);
}

#[test]
fn query_arguments_are_written() {
    let mut options = QueryRunOptions::default();
    options.page_size = Some(10);
    options.after = Some(Continuation { token: b"tok".to_vec() });
    options.budget = Some(QueryBudget::documents(3));
    let args = rql_wire_args("from c", &Parameters::default(), &options, Some("p")).unwrap();
    assert_eq!(args.get("source").unwrap().as_str(), Some("from c"));
    assert_eq!(args.get("profile").unwrap().as_str(), Some("p"));
    assert_eq!(args.get("page_size").unwrap(), &doc("10"));
    assert_eq!(args.get("coverage").unwrap().as_str(), Some("complete"));
    assert_eq!(args.get("continuation").unwrap().as_str(), Some("tok"));
    assert_eq!(args.get("budget").unwrap(), &doc(r#"{"max_documents": 3}"#));
    assert!(args.get("parameters").is_none());
    options.after = Some(Continuation { token: vec![0xff] });
    let err = rql_wire_args("x", &Parameters::default(), &options, None).unwrap_err();
    assert_eq!(err.code(), ErrorCode::QueryInvalid);
}

#[test]
fn ids_are_hexadecimal() {
    assert_eq!(parse_hex16(&"0a".repeat(16)).unwrap(), [10; 16]);
    assert!(parse_hex16("0a").is_err());
    assert_eq!(hex_to_16(&"ff".repeat(16)), Some([255; 16]));
    assert_eq!(hex_to_16(&"+f".repeat(16)), Some([15; 16]));
    assert_eq!(hex_to_16(&"zz".repeat(16)), None);
    assert_eq!(hex_of(&[0, 255]), "00ff");
    assert_eq!(collection_id_from_wire("x", Some([3; 16]), "zero").unwrap(), CollectionId([3; 16]));
    let err = collection_id_from_wire(&"00".repeat(16), None, "zero id").unwrap_err();
    assert!(err.to_text().contains("collection_id: zero id"), "{}", err.to_text());
}

#[test]
fn numbers_and_texts_are_bytes() {
    let mut out = Vec::new();
    push_le8(&mut out, 0x0102);
    assert_eq!(out, 0x0102u64.to_le_bytes());
    assert_eq!(read_le8(&out), 0x0102);
    assert_eq!(read_utf8("\u{e4}".as_bytes()), Some("\u{e4}".to_string()));
    assert_eq!(read_utf8(&[0xff]), None);
}

#[test]
fn server_receipts_and_indexes_are_read() {
    let receipt = write_receipt_from_remote_ids("k", &"07".repeat(16));
    assert_eq!(receipt.version, [7; 16]);
    assert_eq!(write_receipt_from_remote_ids("k", "?").event_id, [0; 16]);
    let row = doc(r#"{"name": "i", "fields": ["a", 5], "entry_count": 3}"#);
    let info = index_info_from_remote_json(&row, "shown", true).unwrap();
    assert_eq!(info.fields, ["a"]);
    assert_eq!(info.state, "ready");
    assert_eq!(info.collection, "shown");
    assert!(index_info_from_remote_json(&doc("{}"), "c", true).is_err());
    assert!(index_info_from_remote_json(&row, "c", false)
        .unwrap_err()
        .to_text()
        .contains("unknown index state from remote: ready"));
}

#[test]
fn server_histories_are_read() {
    let put = doc(r#"{"kind": "put", "event_id": "e", "json": 1, "known_gap_before": true}"#);
    let v = version_from_remote_json(&put).unwrap();
    assert_eq!((v.kind, v.json), ("put", Some(doc("1"))));
    assert!(v.known_gap_before);
    let odd = doc(r#"{"kind": "merge"}"#);
    assert!(version_from_remote_json(&odd).unwrap_err().to_text().contains("merge"));
    let history = key_history_from_remote_versions("k", &vec![put.clone()], true).unwrap();
    assert_eq!(history.versions.len(), 1);
    assert!(key_history_from_remote_versions("k", &vec![put, odd], true).is_err());
}

#[test]
fn codes_survive_the_wire() {
    let codes = [
        ErrorCode::NotFound,
        ErrorCode::AlreadyExists,
        ErrorCode::PermissionDenied,
        ErrorCode::QueryInvalid,
    ];
    for code in codes {
        let remote = Error::Remote { code: code.as_str().into(), message: "m".into() };
        assert_eq!(remote.code(), code);
    }
}

fn cap(instance: u64) -> HeapCap {
    HeapCap { instance, capability_id: [1; 16], heap_id: [4; 16], security_revision: 1 }
}

fn collection(instance: u64) -> HeapCollection {
    HeapCollection { cap: cap(instance), id: [5; 16], name_at_open: "c".into() }
}

const STANDS: Frontier = Frontier::Stands { read: true, write: false, revision: 3 };

fn builder() -> AtomicBuilder {
    AtomicBuilder::new(cap(1), AtomicId([9; 16]), Some(100), Ok(())).unwrap()
}

fn refused(reason: RefuseReason) -> Result<(), AtomicsError> {
    Err(AtomicsError { refused: Some(reason), text: "no".into() })
}

#[test]
fn plans_collect_their_steps() {
    let mut b = builder();
    b.create(&collection(1), &STANDS, "a".into(), Ok(vec![1]), Ok(())).unwrap();
    b.put_unconditional(&collection(1), &STANDS, "b".into(), Ok(vec![2]), Ok(())).unwrap();
    b.replace(&collection(1), &STANDS, "c".into(), [7; 16], Ok(()), Ok(vec![3]), Ok(())).unwrap();
    b.delete(&collection(1), &STANDS, "d".into(), [8; 16], Ok(())).unwrap();
    b.assert_absent(&collection(1), &STANDS, "e".into(), Ok(())).unwrap();
    b.assert_present(&collection(1), &STANDS, "f".into(), Ok(())).unwrap();
    b.assert_version(&collection(1), &STANDS, "g".into(), [9; 16], Ok(())).unwrap();
    let plan = b.build(Ok(())).unwrap();
    assert_eq!(plan.steps().len(), 7);
    let (bound, step) = &plan.steps()[0];
    assert!(bound.rights.read && !bound.rights.create);
    assert_eq!(bound.revision, 3);
    assert!(matches!(step, PlanStep::Create { key, value } if key == "a" && *value == vec![1]));
}

#[test]
fn refused_steps_leave_the_plan() {
    let mut b = builder();
    let foreign = b.delete(&collection(2), &STANDS, "d".into(), [8; 16], Ok(())).unwrap_err();
    assert_eq!(foreign.code, DriverCode::PermissionDenied);
    assert_eq!(foreign.class, ErrorClass::Request);
    let poisoned = b.assert_absent(&collection(1), &Frontier::Poisoned, "e".into(), Ok(()));
    assert_eq!(poisoned.unwrap_err().class, ErrorClass::Service);
    let limit = b.delete(
        &collection(1),
        &STANDS,
        "d".into(),
        [8; 16],
        refused(RefuseReason::LimitExceeded),
    );
    assert_eq!(limit.unwrap_err().code, DriverCode::ResourceLimit);
    let broken = DriverError::local(DriverCode::Validation, ErrorClass::Request, "encode");
    let value = b.create(&collection(1), &STANDS, "a".into(), Err(broken), Ok(())).unwrap_err();
    assert_eq!(value.message, "encode");
    assert_eq!(b.build(Ok(())).unwrap().steps().len(), 0);
}

#[test]
fn plans_answer_their_own_reads() {
    let b = builder();
    let read = |planned, decoded: Result<u8, String>| {
        b.read(&collection(1), &STANDS, Ok(planned), decoded).unwrap()
    };
    assert!(matches!(
        read(ConstructionRead::Present, Ok(5)),
        ReadStep::Done(AtomicRead::Present { value: 5, version: None })
    ));
    assert!(matches!(read(ConstructionRead::Absent, Ok(5)), ReadStep::Done(AtomicRead::Absent)));
    assert!(matches!(read(ConstructionRead::External, Ok(5)), ReadStep::Fetch));
    let seen: Result<AtomicRead<u8>, DriverError> =
        read_observed(Ok(()), Ok(()), Some(([3; 16], Ok(6))));
    assert!(matches!(seen.unwrap(), AtomicRead::Present { value: 6, version: Some(_) }));
    let bad: Result<AtomicRead<u8>, DriverError> =
        read_observed(Ok(()), Ok(()), Some(([3; 16], Err("torn".into()))));
    assert_eq!(bad.unwrap_err().code, DriverCode::DataDamaged);
    match witness_for(&COLLECTION, "k", &Some((vec![1, 2], [3; 16]))) {
        Witness::Version { version, body_hash } => {
            assert_eq!(version, [3; 16]);
            assert_eq!(body_hash, *blake3::hash(&[1, 2]).as_bytes());
        }
        other => panic!("{other:?}"),
    }
}

#[test]
fn submissions_keep_their_identity() {
    let mut counters = AtomicCounters::new();
    let plan = builder().build(Ok(())).unwrap();
    let request = commit_as(&mut counters, &[4; 16], &plan, Ok((100, 2)), Ok([6; 16])).unwrap();
    assert_eq!(request.request_id, RequestId([6; 16]));
    assert_eq!((request.atomic_id, request.bytes), (AtomicId([9; 16]), 100));
    assert_eq!((counters.submitted, counters.inflight, counters.max_plan_bytes), (1, 1, 100));
    let before = counters;
    let none = DriverError::local(DriverCode::Internal, ErrorClass::Internal, "no entropy");
    let err = commit_as(&mut counters, &[4; 16], &plan, Ok((100, 2)), Err(none)).unwrap_err();
    assert_eq!(err.message, "no entropy");
    let bad = AtomicsError { refused: Some(RefuseReason::LimitExceeded), text: "big".into() };
    let err = commit_as(&mut counters, &[4; 16], &plan, Err(bad), Ok([6; 16])).unwrap_err();
    assert_eq!(err.message, "big");
    let foreign = commit_as(&mut counters, &[8; 16], &plan, Ok((100, 2)), Ok([6; 16]));
    assert_eq!(foreign.unwrap_err().code, DriverCode::PermissionDenied);
    assert_eq!(counters, before);
}

#[test]
fn commits_are_accounted_for() {
    let mut counters = AtomicCounters::new();
    let plan = builder().build(Ok(())).unwrap();
    let foreign = commit(&mut counters, &[8; 16], &plan, Ok((100, 2))).unwrap_err();
    assert_eq!(foreign.message, "Atomic plan belongs to a foreign Heap");
    assert_eq!(counters, AtomicCounters::new());
    let request = commit(&mut counters, &[4; 16], &plan, Ok((100, 2))).unwrap();
    assert_eq!((request.bytes, request.deadline), (100, Some(100)));
    assert_eq!(request.atomic_id, AtomicId([9; 16]));
    assert_eq!((counters.submitted, counters.inflight, counters.max_members), (1, 1, 2));
    let verdict = commit_ran(&mut counters, Ok(AtomicVerdict::Committed), 50).unwrap();
    assert_eq!(verdict, AtomicVerdict::Committed);
    assert_eq!((counters.committed, counters.inflight), (1, 0));
    assert_eq!(counters.max_engine_latency_ns, 50);
    let lost = commit_ran(&mut counters, Err(Error::Internal("io".into())), 1).unwrap();
    assert_eq!(lost, AtomicVerdict::Unknown);
    assert_eq!(commit_lost(&mut counters), AtomicVerdict::Unknown);
    assert_eq!(counters.unknown, 2);
    let conflict = DriverError::local(DriverCode::AtomicIdConflict, ErrorClass::Request, "used");
    assert!(commit_ended(&mut counters, Err(conflict)).is_err());
    assert_eq!((counters.refused, counters.identity_conflicts), (1, 1));
}
