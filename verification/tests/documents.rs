//! The cache of decoded documents and the joins of several collections.
use residiuum_sdk::decoded_cache::{
    projection_fields_hash, DecodedJsonCache, DecodedJsonKey, ProjectedJsonKey,
};
use residiuum_sdk::error::Error;
use residiuum_sdk::json::{text_value, Json, JsonMap, JsonNumber};
use residiuum_sdk::multi_query::{
    join_key, joined_sda_parse_refusal, joined_sda_result, namespaced_doc, MultiQuery,
    MULTI_QUERY_PROFILE,
};
use std::sync::Arc;

fn of_value(v: &serde_json::Value) -> Json {
    match v {
        serde_json::Value::Null => Json::Null,
        serde_json::Value::Bool(b) => Json::Bool(*b),
        serde_json::Value::Number(n) => Json::Number(match (n.as_u64(), n.as_i64()) {
            (Some(u), _) => JsonNumber::PosInt(u),
            (None, Some(i)) => JsonNumber::NegInt(i),
            (None, None) => JsonNumber::Float(n.to_string()),
        }),
        serde_json::Value::String(s) => Json::Text(s.clone()),
        serde_json::Value::Array(a) => Json::Array(a.iter().map(of_value).collect()),
        serde_json::Value::Object(o) => {
            let mut m = JsonMap::new();
            for (k, x) in o {
                m.insert(k.clone(), of_value(x));
            }
            Json::Object(m)
        }
    }
}

fn doc(text: &str) -> Json {
    of_value(&serde_json::from_str(text).unwrap())
}

fn key(name: &str) -> DecodedJsonKey {
    DecodedJsonKey {
        heap_id: [1; 16],
        collection_id: [2; 16],
        key: name.to_string(),
    }
}

#[test]
fn decoded_cache_is_version_keyed_clone_isolated_and_bounded() {
    let mut cache = DecodedJsonCache::new(160);
    let first_key = key("a");
    cache.insert(first_key.clone(), [3; 16], Arc::new(doc(r#"{"v": 1}"#)), 4);
    let mut returned = cache.get(&first_key, &[3; 16]).unwrap().as_ref().clone();
    if let Json::Object(m) = &mut returned {
        m.insert("v".into(), doc("99"));
    }
    assert_eq!(cache.get(&first_key, &[3; 16]).unwrap().as_ref(), &doc(r#"{"v": 1}"#));
    assert!(cache.get(&first_key, &[4; 16]).is_none());

    cache.insert(first_key.clone(), [4; 16], Arc::new(doc(r#"{"v": 2}"#)), 4);
    assert!(cache.get(&first_key, &[3; 16]).is_none());
    assert_eq!(cache.get(&first_key, &[4; 16]).unwrap().as_ref(), &doc(r#"{"v": 2}"#));

    let second_key = key("b");
    cache.insert(second_key.clone(), [5; 16], Arc::new(doc(r#"{"v": 3}"#)), 4);
    assert!(cache.stats().resident_charge <= cache.stats().max_charge);
    assert!(cache.get(&first_key, &[4; 16]).is_none());
    assert_eq!(cache.get(&second_key, &[5; 16]).unwrap().as_ref(), &doc(r#"{"v": 3}"#));
    let stats = cache.stats();
    assert_eq!(stats.hits, 4);
    assert_eq!(stats.misses, 3);
    assert_eq!(stats.entries, 1);
    assert!(stats.resident_charge <= stats.max_charge);
}

#[test]
fn projected_cache_is_version_and_exact_field_list_fenced_and_bounded() {
    let mut cache = DecodedJsonCache::new(1_024);
    let fields = vec!["region".to_string()];
    let first = ProjectedJsonKey {
        document: key("a"),
        fields_hash: projection_fields_hash(&fields),
    };
    let value = |text: &str| vec![Some(text_value(text))];
    let charge = 64;
    cache.insert_projection(first.clone(), [3; 16], fields.clone(), value("us"), charge, 1_000);
    assert_eq!(
        cache.get_projection_raw(&first, &[3; 16], &fields).unwrap().0,
        [Some(text_value("us"))]
    );
    assert!(cache.get_projection_raw(&first, &[4; 16], &fields).is_none());
    assert!(cache
        .get_projection_raw(&first, &[3; 16], &vec!["status".to_string()])
        .is_none());

    let second = ProjectedJsonKey {
        document: key("b"),
        fields_hash: first.fields_hash,
    };
    cache.insert_projection(second.clone(), [5; 16], fields, value("eu"), charge, 1_000);
    assert!(cache.projected_resident_charge() <= 1_024 / 4);
    assert!(!cache.holds_projection(&first));
    assert!(cache.holds_projection(&second));
}

#[test]
fn field_lists_are_told_apart_by_their_digest() {
    let a = projection_fields_hash(&vec!["ab".into(), "c".into()]);
    let b = projection_fields_hash(&vec!["a".into(), "bc".into()]);
    assert_ne!(a, b);
    assert_eq!(a, projection_fields_hash(&vec!["ab".into(), "c".into()]));
}

#[test]
fn what_is_too_large_is_not_kept() {
    let mut cache = DecodedJsonCache::new(160);
    cache.insert(key("a"), [3; 16], Arc::new(doc("1")), 4);
    cache.insert(key("b"), [3; 16], Arc::new(doc("2")), 1_000);
    assert!(cache.get(&key("b"), &[3; 16]).is_none());
    assert_eq!(cache.stats().entries, 1);
}

#[test]
fn projections_come_out_of_cached_documents() {
    let mut cache = DecodedJsonCache::new(10_000);
    cache.insert(key("a"), [3; 16], Arc::new(doc(r#"{"x": {"y": 1}, "z": 2}"#)), 20);
    let fields = vec!["z".to_string(), "missing".to_string()];
    let got = cache.get_projected(&key("a"), &[3; 16], &fields).unwrap();
    assert_eq!(got, [doc("2"), Json::Null]);
}

fn rows(list: &[(&str, &str)]) -> Vec<(String, Json)> {
    list.iter().map(|(k, d)| (k.to_string(), doc(d))).collect()
}

#[test]
fn equijoin_two_collections() {
    let a = rows(&[("1", r#"{"id": 1, "x": "aa"}"#), ("2", r#"{"id": 2, "x": "bb"}"#)]);
    let b = rows(&[("10", r#"{"a_id": 1, "y": "yy"}"#), ("20", r#"{"a_id": 99, "y": "zz"}"#)]);
    let q = MultiQuery::new().from("a").join("b").on("id", "a_id");
    q.check(None).unwrap();
    let rows = q.collect(&vec![a, b]).unwrap();
    assert_eq!(rows.len(), 1);
    assert_eq!(rows[0].get("a").unwrap().get("x").unwrap(), &text_value("aa"));
    assert_eq!(rows[0].get("b").unwrap().get("y").unwrap(), &text_value("yy"));
}

#[test]
fn describe_plan_shape() {
    let plan = MultiQuery::new()
        .from("orders")
        .where_eq("status", text_value("paid"))
        .join("customers")
        .on("customer_id", "id")
        .describe();
    assert_eq!(plan.get("profile").unwrap(), &text_value(MULTI_QUERY_PROFILE));
    match plan.get("joins").unwrap() {
        Json::Array(joins) => assert_eq!(joins.len(), 1),
        other => panic!("joins is {other:?}"),
    }
}

#[test]
fn limits_cut_the_joined_rows() {
    let a = || rows(&[("1", r#"{"id": 1}"#), ("2", r#"{"id": 1}"#)]);
    let b = || rows(&[("x", r#"{"id": 1}"#), ("y", r#"{"id": 1}"#)]);
    let count = |n: usize| {
        let q = MultiQuery::new().from("a").join("b").on("id", "id").limit(n);
        q.collect(&vec![a(), b()]).unwrap().len()
    };
    assert_eq!(count(0), 0);
    assert_eq!(count(3), 3);
    assert_eq!(count(9), 4);
}

#[test]
fn keys_are_told_apart_by_type() {
    assert_eq!(join_key(&Json::Null), "null");
    assert_eq!(join_key(&Json::Bool(true)), "b:true");
    assert_eq!(join_key(&doc("1")), "n:1");
    assert_eq!(join_key(&text_value("1")), "s:1");
    assert_eq!(join_key(&doc("[1,2]")), "j:[1,2]");
}

#[test]
fn keys_are_put_beside_documents() {
    assert_eq!(namespaced_doc(&doc(r#"{"a":1}"#), "k", true), doc(r#"{"_key":"k","a":1}"#));
    assert_eq!(namespaced_doc(&doc("5"), "k", true), doc(r#"{"_key":"k","_value":5}"#));
    assert_eq!(namespaced_doc(&doc("5"), "k", false), doc("5"));
}

#[test]
fn incomplete_queries_are_refused() {
    let text = |q: MultiQuery| q.check(None).unwrap_err().to_text();
    assert!(text(MultiQuery::new()).contains("multi-query requires .from(\"collection\")"));
    let twice = MultiQuery::new().from("a").join("a").on("id", "id");
    assert!(text(twice).contains("duplicate join alias \"a\""));
    let unnamed = MultiQuery::new().from_as("a", "");
    assert!(text(unnamed).contains("join source alias must be non-empty"));
    let bad = MultiQuery::new().from("a");
    let err = bad.check(Some((0, Error::QueryInvalid("name".into())))).unwrap_err();
    assert!(err.to_text().contains("name"));
}

#[test]
fn joins_name_their_left_source() {
    let q = MultiQuery::new()
        .from("a")
        .join("b")
        .on("id", "a_id")
        .join_as("c", "cc")
        .on_from("a", "id", "a_id");
    let one_row = || rows(&[("1", r#"{"id": 1, "a_id": 1}"#)]);
    let rows = q.collect(&vec![one_row(), one_row(), one_row()]).unwrap();
    assert_eq!(rows.len(), 1);
    assert!(rows[0].get("cc").is_some());
    assert!(rows[0].get("c").is_none());
    let unknown = MultiQuery::new().from("a").join("b").on_from("zz", "id", "a_id");
    assert!(unknown
        .collect(&vec![one_row(), one_row()])
        .unwrap_err()
        .to_text()
        .contains("zz"));
}

#[test]
fn joined_programs_report_their_errors() {
    let parse = joined_sda_parse_refusal("bad", "prog").to_text();
    assert!(parse.contains("bad") && parse.contains("prog"), "{parse}");
    assert_eq!(joined_sda_result(Ok(doc("1")), "prog").unwrap(), doc("1"));
    let run = joined_sda_result(Err("oops".into()), "prog").unwrap_err().to_text();
    assert!(run.contains("oops"), "{run}");
}
