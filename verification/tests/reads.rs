//! Reads through the cache, aggregate scans and driver pages.
use residiuum_sdk::aggregate_scan::{
    finish_entries, finish_fields, finish_projected, next_page, plan_entries, plan_fields,
    plan_projected, require_candidates, require_page, AggregateShape, FieldAnswer, FieldBody,
    GroupScan, Ingest, NextPage, WhereShape,
};
use residiuum_sdk::covered_reads::{
    finish_many, finish_page, keys_to_fetch, plan_many, plan_page, read_raw, Body, HostDocument,
    Resolved, Scope,
};
use residiuum_sdk::decoded_cache::DecodedJsonCache;
use residiuum_sdk::driver::{
    scan_page, scan_request, ErrorCode as DriverCode, OperationContext, OperationId, RawPage,
    RawRow, RequestId, ScanOptions,
};
use residiuum_sdk::error::{Error, ErrorCode};
use residiuum_sdk::heap::{HeapCap, HeapCollection, ObjectKind};
use residiuum_sdk::json::{Json, JsonMap, JsonNumber};

fn of_value(v: &serde_json::Value) -> Json {
    match v {
        serde_json::Value::Null => Json::Null,
        serde_json::Value::Bool(b) => Json::Bool(*b),
        serde_json::Value::Number(n) => Json::Number(match (n.as_u64(), n.as_i64()) {
            (Some(u), _) => JsonNumber::PosInt(u),
            (None, Some(i)) => JsonNumber::NegInt(i),
            (None, None) => JsonNumber::Float(n.to_string()),
        }),
        serde_json::Value::String(s) => Json::Text(s.clone()),
        serde_json::Value::Array(a) => Json::Array(a.iter().map(of_value).collect()),
        serde_json::Value::Object(o) => {
            let mut m = JsonMap::new();
            for (k, x) in o {
                m.insert(k.clone(), of_value(x));
            }
            Json::Object(m)
        }
    }
}

fn doc(text: &str) -> Json {
    of_value(&serde_json::from_str(text).unwrap())
}

const SCOPE: Scope = Scope { heap_id: [1; 16], collection_id: [2; 16] };

fn cache() -> DecodedJsonCache {
    DecodedJsonCache::new(100_000)
}

fn answer(key: &str, version: u8, text: &str) -> Resolved {
    Resolved {
        key: key.as_bytes().to_vec(),
        body: Some(Body {
            len: text.len() + 1,
            payload_len: Some(text.len() as u64),
            decoded: Ok(doc(text)),
        }),
        version: Some([version; 16]),
        hole: None,
    }
}

fn shown(docs: Vec<(String, HostDocument)>) -> Vec<String> {
    docs.into_iter()
        .map(|(k, d)| match d {
            HostDocument::Present { value, logical_bytes } => {
                format!("{k}={:?}/{:?}", value.as_u64(), logical_bytes)
            }
            HostDocument::Hole { code } => format!("{k}!{code}"),
            HostDocument::Absent => format!("{k}-"),
        })
        .collect()
}

#[test]
fn reads_by_key_fetch_what_is_not_cached() {
    let mut cache = cache();
    let keys = vec!["a".to_string(), "b".to_string(), "c".to_string()];
    let ids = vec![
        (b"a".to_vec(), Some([1; 16])),
        (b"b".to_vec(), None),
        (b"c".to_vec(), Some([3; 16])),
    ];
    let plan = plan_many(&mut cache, &SCOPE, &keys, &ids).unwrap();
    assert_eq!(keys_to_fetch(&plan), [b"a".to_vec(), b"c".to_vec()]);
    let answers = vec![answer("a", 1, "10"), answer("c", 3, "30")];
    let docs = finish_many(&mut cache, &SCOPE, plan, answers).unwrap();
    assert_eq!(shown(docs), ["a=Some(10)/Some(2)", "b-", "c=Some(30)/Some(2)"]);
    let again = plan_many(&mut cache, &SCOPE, &keys, &ids).unwrap();
    assert!(keys_to_fetch(&again).is_empty());
}

#[test]
fn answers_of_another_version_refuse_the_short_cut() {
    let mut cache = cache();
    let entries = vec![(b"a".to_vec(), [1; 16])];
    let plan = plan_page(&mut cache, &SCOPE, &entries).unwrap();
    assert!(finish_page(&mut cache, &SCOPE, plan, vec![answer("a", 9, "10")]).is_none());
    assert_eq!(cache.stats().entries, 0);
    let plan = plan_page(&mut cache, &SCOPE, &entries).unwrap();
    let docs = finish_page(&mut cache, &SCOPE, plan, vec![answer("a", 1, "10")]).unwrap();
    assert_eq!(shown(docs), ["a=Some(10)/Some(2)"]);
    let err = plan_page(&mut cache, &SCOPE, &vec![(vec![0xff], [1; 16])]).unwrap_err();
    assert!(err.to_text().contains("cached scan: non-UTF-8 key"));
}

#[test]
fn keys_in_another_order_are_not_planned() {
    let mut cache = cache();
    let keys = vec!["a".to_string()];
    assert!(plan_many(&mut cache, &SCOPE, &keys, &vec![(b"b".to_vec(), None)]).is_none());
    assert!(plan_many(&mut cache, &SCOPE, &keys, &Vec::new()).is_none());
}

#[test]
fn plain_reads_report_holes() {
    let mut cache = cache();
    let hole = Resolved {
        key: b"h".to_vec(),
        body: None,
        version: Some([1; 16]),
        hole: Some("torn".into()),
    };
    let docs = read_raw(&mut cache, &SCOPE, vec![answer("a", 1, "10"), hole]).unwrap();
    assert_eq!(shown(docs), ["a=Some(10)/Some(2)", "h!torn"]);
    let odd = Resolved { key: b"x".to_vec(), body: None, version: Some([1; 16]), hole: None };
    let err = read_raw(&mut cache, &SCOPE, vec![odd]).unwrap_err();
    assert!(err.to_text().contains("incoherent body/version/hole"), "{}", err.to_text());
}

#[test]
fn required_documents_are_fetched_once() {
    let mut cache = cache();
    let required = require_page(&vec![(b"a".to_vec(), [1; 16])], "bad key").unwrap();
    let open = plan_entries(&mut cache, &SCOPE, &required);
    assert_eq!(open.len(), 1);
    assert!(!finish_entries(&mut cache, &SCOPE, &open, vec![answer("a", 2, "1")]).unwrap());
    assert!(finish_entries(&mut cache, &SCOPE, &open, vec![answer("a", 1, "1")]).unwrap());
    assert!(plan_entries(&mut cache, &SCOPE, &required).is_empty());
    assert!(require_page(&vec![(vec![0xff], [1; 16])], "bad key").is_err());
    let keys = vec!["a".to_string(), "b".to_string()];
    let with = |version| vec![(b"a".to_vec(), Some([1; 16])), (b"b".to_vec(), version)];
    assert_eq!(require_candidates(&keys, &with(Some([2; 16]))).map(|c| c.len()), Some(2));
    assert!(require_candidates(&keys, &with(None)).is_none());
}

#[test]
fn projected_scans_take_the_fields() {
    let mut cache = cache();
    let fields = vec!["x".to_string(), "y".to_string()];
    let required = require_page(&vec![(b"a".to_vec(), [1; 16])], "bad key").unwrap();
    let rows = plan_projected(&mut cache, &SCOPE, &required, &fields);
    let got = finish_projected(
        &mut cache,
        &SCOPE,
        &fields,
        rows,
        vec![answer("a", 1, r#"{"x": 5}"#)],
    )
    .unwrap()
    .unwrap();
    assert_eq!(got, [[doc("5"), Json::Null]]);
    let rows = plan_projected(&mut cache, &SCOPE, &required, &fields);
    assert!(rows[0].values.is_some());
}

#[test]
fn aggregate_fields_are_cached() {
    let mut cache = cache();
    let fields = vec!["x".to_string()];
    let required = require_page(&vec![(b"a".to_vec(), [1; 16])], "bad key").unwrap();
    assert_eq!(plan_fields(&cache, &SCOPE, &required, &fields).len(), 1);
    let field_answer = FieldAnswer {
        key: b"a".to_vec(),
        body: Some(FieldBody {
            payload_len: Ok(9),
            fields: Ok(Some(vec![Some(doc("5"))])),
            value_charge: 8,
        }),
        version: Some([1; 16]),
        hole: false,
    };
    let rows = finish_fields(&mut cache, &SCOPE, &required, &fields, vec![field_answer])
        .unwrap()
        .unwrap();
    assert_eq!(rows[0].values, [Some(doc("5"))]);
    assert_eq!(rows[0].logical_bytes, 9);
    assert!(plan_fields(&cache, &SCOPE, &required, &fields).is_empty());
    let cached = finish_fields(&mut cache, &SCOPE, &required, &fields, Vec::new()).unwrap();
    assert_eq!(cached.unwrap()[0].key, "a");
}

#[test]
fn group_scans_read_no_more_than_they_need() {
    let shape = |covering: Option<&[&str]>, key_only, exact_key| AggregateShape {
        covering: covering.map(|c| c.iter().map(|f| f.to_string()).collect()),
        key_only,
        exact_key,
    };
    let always = WhereShape { constant: Some(true), direct_fields: None };
    let on_x = WhereShape { constant: None, direct_fields: Some(vec!["x".into(), "y".into()]) };
    let scan = GroupScan::start(&shape(Some(&["y", "z"]), false, false), &on_x);
    assert_eq!(scan.fields, Some(vec!["x".into(), "y".into(), "z".into()]));
    assert!(scan.predicate);
    let scan = GroupScan::start(&shape(None, true, true), &always);
    assert_eq!(scan.fields, Some(Vec::new()));
    let mut scan = GroupScan::start(&shape(None, false, true), &always);
    assert_eq!(scan.fields, None);
    assert!(matches!(scan.take_document(5, true), Ingest::KeyAndDocument));
    assert!(matches!(scan.take_document(5, false), Ingest::Skip));
    assert_eq!((scan.examined_documents, scan.examined_bytes), (2, 10));
}

#[test]
fn pages_say_where_they_go_on() {
    assert!(matches!(next_page(false, None, "m"), Ok(NextPage::Done)));
    assert!(matches!(next_page(true, Some(vec![1]), "m"), Ok(NextPage::After(k)) if k == [1]));
    assert!(matches!(next_page(true, None, "m"), Err(e) if e.code() == ErrorCode::Internal));
}

const KIND: ObjectKind = ObjectKind { code: 2 };

fn collection(id: u8) -> HeapCollection {
    HeapCollection {
        cap: HeapCap {
            instance: 1,
            capability_id: [3; 16],
            heap_id: [4; 16],
            security_revision: 1,
        },
        id: [id; 16],
        name_at_open: "c".into(),
    }
}

fn raw_page(has_more: bool) -> RawPage<u8> {
    RawPage {
        entries: vec![RawRow { key: b"a".to_vec(), decoded: Ok(1), version: [1; 16] }],
        incomplete: vec![(vec![b'x', 0xff], "torn".into())],
        examined: 2,
        complete: false,
        has_more,
        last_key: Some(b"a".to_vec()),
    }
}

#[test]
fn driver_pages_continue_where_they_ended() {
    let page = scan_page(&collection(5), KIND, raw_page(true)).unwrap();
    assert_eq!(page.rows[0].key, "a");
    assert_eq!(page.incomplete[0].key, "x\u{fffd}");
    let options = ScanOptions {
        page_size: 10,
        continuation: page.continuation,
        context: OperationContext::default(),
    };
    let request = scan_request(&collection(5), KIND, &options).unwrap();
    assert_eq!(request.after_key, Some(b"a".to_vec()));
    assert!(scan_request(&collection(6), KIND, &options).is_err());
    assert!(scan_page(&collection(5), KIND, raw_page(false)).unwrap().continuation.is_none());
}

#[test]
fn driver_scans_check_their_options() {
    let options = |page_size, operation_id| ScanOptions {
        page_size,
        continuation: None,
        context: OperationContext {
            request_id: Some(RequestId([1; 16])),
            operation_id,
            deadline: Some(4),
        },
    };
    let request = scan_request(&collection(5), KIND, &options(1, None)).unwrap();
    assert_eq!((request.page_size, request.deadline), (1, Some(4)));
    for bad in [0, 1_001] {
        let e = scan_request(&collection(5), KIND, &options(bad, None)).unwrap_err();
        assert_eq!(e.code, DriverCode::Validation);
    }
    let e = scan_request(&collection(5), KIND, &options(1, Some(OperationId([2; 16])))).unwrap_err();
    assert_eq!(e.message, "scan reads do not accept operation_id");
}

#[test]
fn undecodable_rows_fail_the_page() {
    let mut raw = raw_page(false);
    raw.entries[0].decoded = Err(Error::Internal("x".into()));
    assert!(scan_page(&collection(5), KIND, raw).is_err());
    let mut raw = raw_page(false);
    raw.entries[0].key = vec![0xff];
    assert!(scan_page(&collection(5), KIND, raw).is_err());
}
