//! Filters, query plans and predicates.
use residiuum_sdk::error::{Error, ErrorCode};
use residiuum_sdk::filter::{Filter, QueryBudget, QueryOptions, SortOrder, QUERY_PLAN_PROFILE};
use residiuum_sdk::json::{text_value, Json, JsonMap, JsonNumber};
use residiuum_sdk::predicate::{field, param, CompareOp, Operand, Path, Predicate};
use residiuum_sdk::query_plan::QueryPlan;

fn of_value(v: &serde_json::Value) -> Json {
    match v {
        serde_json::Value::Null => Json::Null,
        serde_json::Value::Bool(b) => Json::Bool(*b),
        serde_json::Value::Number(n) => Json::Number(match (n.as_u64(), n.as_i64()) {
            (Some(u), _) => JsonNumber::PosInt(u),
            (None, Some(i)) => JsonNumber::NegInt(i),
            (None, None) => JsonNumber::Float(n.to_string()),
        }),
        serde_json::Value::String(s) => Json::Text(s.clone()),
        serde_json::Value::Array(a) => Json::Array(a.iter().map(of_value).collect()),
        serde_json::Value::Object(o) => {
            let mut m = JsonMap::new();
            for (k, x) in o {
                m.insert(k.clone(), of_value(x));
            }
            Json::Object(m)
        }
    }
}

fn doc(text: &str) -> Json {
    of_value(&serde_json::from_str(text).unwrap())
}

fn number(n: i64) -> Json {
    Json::Number(JsonNumber::from_i64(n))
}

fn params(pairs: &[(&str, Json)]) -> JsonMap {
    let mut m = JsonMap::new();
    for (k, v) in pairs {
        m.insert(k.to_string(), v.clone());
    }
    m
}

#[test]
fn eq_and_gte() {
    let f = Filter::and(vec![
        Filter::field("status").eq(text_value("active")),
        Filter::field("age").gte(number(18)),
    ]);
    assert!(f.matches(&doc(r#"{"status": "active", "age": 21}"#)));
    assert!(!f.matches(&doc(r#"{"status": "active", "age": 17}"#)));
    assert!(!f.matches(&doc(r#"{"status": "paused", "age": 30}"#)));
}

#[test]
fn from_json_object_filter() {
    let f = Filter::from_json(&doc(
        r#"{"status": "active", "age": { "$gte": 18 }, "country": { "$in": ["TH", "SG"] }}"#,
    ))
    .unwrap();
    assert!(f.matches(&doc(r#"{"status":"active","age":20,"country":"TH"}"#)));
    assert!(!f.matches(&doc(r#"{"status":"active","age":20,"country":"US"}"#)));
}

#[test]
fn missing_field_and_exists() {
    let d = doc(r#"{"a": 1}"#);
    assert!(!Filter::field("b").eq(number(1)).matches(&d));
    assert!(Filter::field("b").presence(false).matches(&d));
    assert!(Filter::field("a").presence(true).matches(&d));
    assert!(Filter::field("b").ne(number(1)).matches(&d));
}

#[test]
fn prefix_and_contains() {
    let d = doc(r#"{"name": "Alice", "tags": ["x", "y"]}"#);
    assert!(Filter::field("name").prefix("Al").matches(&d));
    assert!(Filter::field("name").contains(text_value("ice")).matches(&d));
    assert!(Filter::field("tags").contains(text_value("y")).matches(&d));
}

#[test]
fn dotted_path() {
    let d = doc(r#"{"address": {"city": "Bangkok"}}"#);
    assert!(Filter::field("address.city").eq(text_value("Bangkok")).matches(&d));
    assert!(!Filter::field("address.city").eq(text_value("Singapore")).matches(&d));
}

#[test]
fn to_json_roundtrip() {
    let f = Filter::and(vec![
        Filter::field("status").eq(text_value("active")),
        Filter::field("age").gte(number(18)),
    ]);
    let j = f.to_json();
    let back = Filter::from_json(&j).unwrap();
    assert!(back.matches(&doc(r#"{"status": "active", "age": 21}"#)));
    assert!(!back.matches(&doc(r#"{"status": "active", "age": 10}"#)));
}

#[test]
fn core_vocabulary_matches() {
    let cases: Vec<(Filter, Json, bool)> = vec![
        (Filter::field("status").eq(text_value("active")), doc(r#"{"status": "active"}"#), true),
        (Filter::field("status").eq(text_value("active")), doc(r#"{"status": "paused"}"#), false),
        (Filter::field("n").eq(Json::Null), doc(r#"{"n": null}"#), true),
        (Filter::field("n").eq(Json::Null), doc("{}"), false),
        (Filter::field("missing").ne(number(1)), doc("{}"), true),
        (Filter::field("age").gte(number(18)), doc(r#"{"age": 21}"#), true),
        (Filter::field("age").gte(number(18)), doc(r#"{"age": 10}"#), false),
        (Filter::field("age").gte(number(18)), doc("{}"), false),
        (Filter::field("age").gte(number(18)), doc(r#"{"age": null}"#), false),
        (Filter::field("a").presence(true), doc(r#"{"a": null}"#), true),
        (Filter::field("a").presence(false), doc("{}"), true),
        (Filter::field("a").presence(false), doc(r#"{"a": null}"#), false),
        (Filter::field("name").prefix("Al"), doc(r#"{"name": "Alice"}"#), true),
        (Filter::field("tags").contains(text_value("y")), doc(r#"{"tags": ["x", "y"]}"#), true),
        (Filter::field("name").contains(text_value("ice")), doc(r#"{"name": "Alice"}"#), true),
        (
            Filter::field("address.city").eq(text_value("Bangkok")),
            doc(r#"{"address": {"city": "Bangkok"}}"#),
            true,
        ),
        (Filter::field("a.city").presence(false), doc(r#"{"a": "x"}"#), true),
        (
            Filter::or(vec![
                Filter::field("status").eq(text_value("active")),
                Filter::field("status").eq(text_value("trial")),
            ]),
            doc(r#"{"status": "trial"}"#),
            true,
        ),
        (
            Filter::not(Filter::field("status").eq(text_value("active"))),
            doc(r#"{"status": "paused"}"#),
            true,
        ),
        (
            Filter::field("c").is_in(vec![text_value("TH"), text_value("SG")]),
            doc(r#"{"c": "TH"}"#),
            true,
        ),
    ];
    for (i, (filter, d, want)) in cases.iter().enumerate() {
        assert_eq!(filter.matches(d), *want, "case {i}: {}", filter.to_sda());
    }
}

#[test]
fn filter_text_is_an_expression_over_the_input() {
    let f = Filter::field("status").eq(text_value("active"));
    let text = f.to_sda();
    assert!(text.contains("getPath(input, Seq[\"status\"])"), "{text}");
    assert!(text.contains("\"active\""), "{text}");
    assert_eq!(Filter::always().to_sda(), "true");
    assert_eq!(Filter::and(vec![]).to_sda(), "true");
}

#[test]
fn numbers_compare_as_doubles() {
    let d = doc(r#"{"x": 1.5}"#);
    assert!(Filter::field("x").gt(number(1)).matches(&d));
    assert!(Filter::field("x").lt(number(2)).matches(&d));
    assert!(Filter::field("x").eq(doc("1.5")).matches(&d));
    assert!(!Filter::field("x").eq(number(1)).matches(&d));
}

#[test]
fn unknown_operators_are_refused() {
    for bad in [
        r#"{"a": {"$like": 1}}"#,
        r#"{"$xor": []}"#,
        r#"{"a": {"$in": 1}}"#,
        r#"[1]"#,
    ] {
        let err = Filter::from_json(&doc(bad)).unwrap_err();
        assert_eq!(err.code(), ErrorCode::QueryInvalid, "{bad}");
    }
}

#[test]
fn lowered_filters_mean_the_same() {
    let f = Filter::and(vec![
        Filter::field("a").ne(number(1)),
        Filter::field("b").is_in(vec![number(1), number(2)]),
    ]);
    let p = f.to_predicate().unwrap();
    let none = params(&[]);
    for text in [r#"{"b": 1}"#, r#"{"a": 1, "b": 1}"#, r#"{"a": 2, "b": 3}"#, r#"{"a": 2, "b": 2}"#] {
        let d = doc(text);
        assert_eq!(p.eval(&d, &none).unwrap(), f.matches(&d), "{text}");
    }
    assert!(Filter::field("a..b").eq(number(1)).to_predicate().is_err());
}

#[test]
fn truth_values_are_not_ordered() {
    let none = params(&[]);
    for b in [false, true] {
        let v = || Json::Bool(b);
        for f in [
            Filter::field("a").lt(v()),
            Filter::field("a").lte(v()),
            Filter::field("a").gt(v()),
            Filter::field("a").gte(v()),
        ] {
            let p = f.to_predicate().unwrap();
            for text in [r#"{"a": false}"#, r#"{"a": true}"#, r#"{"a": 1}"#, r#"{}"#] {
                let d = doc(text);
                assert!(!f.matches(&d), "{text} {f:?}");
                assert!(!p.eval(&d, &none).unwrap(), "{text} {f:?}");
            }
        }
    }
}

#[test]
fn equality_with_an_object_roundtrips() {
    let f = Filter::field("a").eq(doc("{}"));
    let j = f.to_json();
    assert_eq!(j, doc(r#"{"a": {"$eq": {}}}"#));
    let back = Filter::from_json(&j).unwrap();
    assert_eq!(back, f);
    assert!(back.matches(&doc(r#"{"a": {}}"#)));
    assert!(!back.matches(&doc(r#"{"a": 1}"#)));
    let nested = Filter::field("a").eq(doc(r#"{"$gt": 1}"#));
    assert_eq!(Filter::from_json(&nested.to_json()).unwrap(), nested);
}

#[test]
fn dotless_segments_parse_back() {
    let path = Path::from_segments(vec!["a".into(), "b c".into()]).unwrap();
    assert_eq!(path.dotted(), "a.b c");
    assert_eq!(Path::parse_dotted(&path.dotted()).unwrap(), path);
    let dotted = Path::from_segments(vec!["a.b".into()]).unwrap();
    assert_ne!(Path::parse_dotted(&dotted.dotted()).unwrap(), dotted);
}

#[test]
fn query_plan_roundtrip() {
    let plan = QueryPlan::new(
        Filter::field("status").eq(text_value("active")),
        QueryOptions::new().limit(10).order_by("age", SortOrder::Desc),
    );
    let j = plan.to_json();
    assert_eq!(j.get("profile").unwrap().as_str(), Some(QUERY_PLAN_PROFILE));
    let back = QueryPlan::from_json(&j).unwrap();
    assert_eq!(back.profile, QUERY_PLAN_PROFILE);
    assert_eq!(back.options.limit, Some(10));
    assert!(back.filter.matches(&doc(r#"{"status": "active"}"#)));
    assert_eq!(back.to_sda(), plan.filter.to_sda());
}

#[test]
fn foreign_plan_profiles_are_refused() {
    let err = QueryPlan::from_json(&doc(r#"{"profile": "other"}"#)).unwrap_err();
    assert!(err.to_text().contains("unsupported query plan profile \"other\""), "{}", err.to_text());
    assert!(QueryPlan::from_json(&doc(r#"{}"#)).is_err());
}

#[test]
fn budgets_build_up() {
    let b = QueryBudget::max_docs(5).max_bytes(100).max_result_memory(7);
    assert_eq!(b.max_docs_scanned, Some(5));
    assert_eq!(b.max_bytes_scanned, Some(100));
    assert_eq!(b.max_result_bytes, Some(7));
}

#[test]
fn absent_ne_is_false() {
    let p = field("missing").unwrap().ne(Operand::literal(text_value("x")));
    assert!(!p.eval(&doc(r#"{"status": "open"}"#), &params(&[])).unwrap());
}

#[test]
fn present_eq_param() {
    let p = field("status").unwrap().eq(param("status"));
    let d = doc(r#"{"status": "open"}"#);
    assert!(p.eval(&d, &params(&[("status", text_value("open"))])).unwrap());
    assert!(!p.eval(&d, &params(&[("status", text_value("closed"))])).unwrap());
}

#[test]
fn unbound_param_errors() {
    let p = field("status").unwrap().eq(param("status"));
    let err = p.eval(&doc(r#"{"status": "open"}"#), &params(&[])).unwrap_err();
    assert!(matches!(err, Error::QueryInvalid(_)));
}

#[test]
fn null_vs_absent() {
    let d = doc(r#"{"a": null}"#);
    let none = params(&[]);
    assert!(Predicate::Present { path: Path::parse_dotted("a").unwrap() }.eval(&d, &none).unwrap());
    assert!(!Predicate::Missing { path: Path::parse_dotted("a").unwrap() }.eval(&d, &none).unwrap());
    assert!(Predicate::IsNull { path: Path::parse_dotted("a").unwrap(), negated: false }
        .eval(&d, &none)
        .unwrap());
    assert!(!Predicate::IsNull { path: Path::parse_dotted("b").unwrap(), negated: false }
        .eval(&d, &none)
        .unwrap());
}

#[test]
fn plan_json_round_trips_every_op() {
    let path = || Path::parse_dotted("a.b").unwrap();
    let cases = vec![
        Predicate::True,
        Predicate::False,
        Predicate::Cmp {
            cmp: CompareOp::Eq,
            left: Operand::path(path()),
            right: Operand::literal(number(1)),
        },
        Predicate::In {
            left: Operand::path(path()),
            list: vec![number(1), text_value("x")],
            negated: true,
        },
        Predicate::Present { path: path() },
        Predicate::Missing { path: path() },
        Predicate::IsNull { path: path(), negated: true },
        Predicate::StartsWith { path: path(), prefix: "pre".into() },
        Predicate::Contains { path: path(), needle: text_value("needle") },
        Predicate::And { args: vec![Predicate::True, Predicate::False] },
        Predicate::Or { args: vec![Predicate::True, Predicate::False] },
        Predicate::Not { arg: Box::new(Predicate::True) },
    ];
    for p in cases {
        let j = p.to_canonical_json();
        let back = match Predicate::from_plan_json(&j) {
            Ok(b) => b,
            Err(e) => panic!("round-trip decode failed for {p:?}: {}", e.to_text()),
        };
        assert_eq!(back, p, "round-trip mismatch for {p:?}");
    }
}
