//! Query dialects: JSON, SQL, SDA and RQL.
use residiuum_sdk::dialects::portable::CompiledPortable;
use residiuum_sdk::dialects::rql::{compile_rql, parse_rql, rql_to_sda};
use residiuum_sdk::dialects::sql::compile_sql;
use residiuum_sdk::dialects::{
    compile_dialect, compile_json_value, compile_sda_source, list_builtin_dialects,
    program_to_parse, BuiltinDialect, DialectRegistry, QueryDialect, SdaParse, SdaShape,
};
use residiuum_sdk::error::Error;
use residiuum_sdk::filter::Filter;
use residiuum_sdk::json::{Json, JsonMap, JsonNumber};
use std::sync::Arc;

fn of_value(v: &serde_json::Value) -> Json {
    match v {
        serde_json::Value::Null => Json::Null,
        serde_json::Value::Bool(b) => Json::Bool(*b),
        serde_json::Value::Number(n) => Json::Number(match (n.as_u64(), n.as_i64()) {
            (Some(u), _) => JsonNumber::PosInt(u),
            (None, Some(i)) => JsonNumber::NegInt(i),
            (None, None) => JsonNumber::Float(n.to_string()),
        }),
        serde_json::Value::String(s) => Json::Text(s.clone()),
        serde_json::Value::Array(a) => Json::Array(a.iter().map(of_value).collect()),
        serde_json::Value::Object(o) => {
            let mut m = JsonMap::new();
            for (k, x) in o {
                m.insert(k.clone(), of_value(x));
            }
            Json::Object(m)
        }
    }
}
fn doc(text: &str) -> Json {
    of_value(&serde_json::from_str(text).unwrap())
}

const OK: SdaParse = SdaParse::Accepted;

#[test]
fn list_includes_scaffolds() {
    let list = list_builtin_dialects();
    let ids: Vec<_> = list.iter().map(|d| d.id).collect();
    assert!(ids.contains(&"sda"));
    assert!(ids.contains(&"rql"));
    assert!(ids.contains(&"json"));
    assert!(ids.contains(&"mongo"));
    assert!(ids.contains(&"sql"));
    assert!(ids.contains(&"graphql"));
    assert!(list.iter().find(|d| d.id == "rql").unwrap().implemented == false);
    assert!(!list.iter().find(|d| d.id == "graphql").unwrap().implemented);
}

#[test]
fn rql_dialect_refuses_sda_compile() {
    let err = compile_dialect(
        "rql",
        r#"
            from orders
            enrich customer using customers
              matching customer_id = id
              expect exactly_one
        "#,
        &OK,
    )
    .unwrap_err();
    let msg = err.to_text();
    assert!(
        msg.contains("no longer compiles to SDA") || msg.contains("RQL-R1"),
        "got {msg}"
    );
}

#[test]
fn json_dialect_compiles_and_matches() {
    let src = r#"{"status":"active","age":{"$gte":18}}"#;
    let compiled = compile_dialect("json", src, &OK).unwrap();
    assert_eq!(compiled.dialect_id(), "json");
    let p = compiled.as_portable().expect("portable (RQL-DQ1)");
    assert!(p.filter.matches(&doc(r#"{"status": "active", "age": 21}"#)));
    assert!(!p.filter.matches(&doc(r#"{"status": "active", "age": 10}"#)));
    let pred = p.filter.to_predicate().unwrap();
    let params = JsonMap::new();
    assert!(pred.eval(&doc(r#"{"status": "active", "age": 21}"#), &params).unwrap());
}

#[test]
fn mongo_alias_matches_json() {
    let src = r#"{"x":1}"#;
    let a = compile_dialect("mongo", src, &OK).unwrap();
    let b = compile_dialect("json", src, &OK).unwrap();
    let pa = a.as_portable().expect("portable");
    let pb = b.as_portable().expect("portable");
    assert_eq!(pa.filter, pb.filter);
    assert_eq!(a.dialect_id(), "mongo");
}

#[test]
fn sda_pass_through() {
    let src = r#"getPath(input, Seq["a"]) = Some(1)"#;
    let c = compile_dialect("sda", src, &OK).unwrap();
    let s = c.as_sda().expect("sda");
    assert_eq!(s.shape, SdaShape::Program);
    assert_eq!(s.sda, src);
}

#[test]
fn graphql_refuses() {
    let err = compile_dialect("graphql", "{ user { id } }", &OK).unwrap_err();
    assert!(err.to_text().contains("not implemented"));
}

#[test]
fn unknown_dialect() {
    let err = compile_dialect("cypher", "MATCH (n)", &OK).unwrap_err();
    assert!(err.to_text().contains("unknown query dialect"));
}

#[test]
fn sql_select_star_where() {
    let c = compile_dialect("sql", "SELECT * WHERE status = 'active' AND age >= 18", &OK).unwrap();
    let p = c.as_portable().expect("portable (RQL-DQ1)");
    assert!(p.project.is_none());
    assert!(p.filter.matches(&doc(r#"{"status": "active", "age": 20}"#)));
    assert!(!p.filter.matches(&doc(r#"{"status": "active", "age": 10}"#)));
}

#[test]
fn sql_projection_program() {
    let c = compile_dialect("sql", "SELECT name, city WHERE status = 'active'", &OK).unwrap();
    let p = c.as_portable().expect("portable (RQL-DQ1)");
    assert_eq!(p.project, Some(vec!["name".to_string(), "city".to_string()]));
    assert!(!p.notes.is_empty());
    assert!(p
        .filter
        .matches(&doc(r#"{"name": "Ada", "city": "LA", "status": "active"}"#)));
    assert!(!p
        .filter
        .matches(&doc(r#"{"name": "Bob", "city": "NY", "status": "idle"}"#)));
}

struct Echo;

impl QueryDialect for Echo {
    fn id(&self) -> &str {
        "echo"
    }
    fn name(&self) -> &str {
        "Echo"
    }
    fn description(&self) -> &str {
        "test"
    }
    fn compile(&self, source: &str, _parse: &SdaParse) -> Result<CompiledPortable, Error> {
        Ok(CompiledPortable::new(
            "echo",
            Filter::Always,
            None,
            vec![format!("echoed:{source}")],
        ))
    }
}

#[test]
fn registry_custom_dialect() {
    let mut reg = DialectRegistry::new();
    reg.register(Arc::new(Echo)).unwrap();
    let c = reg.compile("echo", "hi", &OK).unwrap();
    let p = c.as_portable().expect("portable only for custom dialects");
    assert_eq!(p.dialect, "echo");
    assert!(p.notes.iter().any(|n| n.contains("hi")));
    assert!(reg.register(Arc::new(Echo)).is_err());
    assert!(reg.register(Arc::new(BuiltinDialect::Json)).is_err());
}

#[test]
fn registry_lists_in_order() {
    let mut reg = DialectRegistry::new();
    reg.register(Arc::new(Echo)).unwrap();
    let ids: Vec<String> = reg.list().into_iter().map(|d| d.id).collect();
    assert_eq!(ids, ["echo", "graphql", "json", "mongo", "rql", "sda", "sql"]);
    let err = reg.compile("Cypher", "x", &OK).unwrap_err();
    assert!(
        err.to_text()
            .contains("unknown query dialect \"Cypher\"; known: echo, graphql, json, mongo, rql, sda, sql"),
        "{}",
        err.to_text()
    );
}

struct Fussy;

impl QueryDialect for Fussy {
    fn id(&self) -> &str {
        "fussy"
    }
    fn name(&self) -> &str {
        "Fussy"
    }
    fn description(&self) -> &str {
        "refuses what does not parse"
    }
    fn compile(&self, source: &str, parse: &SdaParse) -> Result<CompiledPortable, Error> {
        match parse {
            SdaParse::Accepted => {
                Ok(CompiledPortable::new("fussy", Filter::Always, None, vec![source.into()]))
            }
            SdaParse::Refused(m) => Err(Error::QueryInvalid(m.clone())),
        }
    }
}

#[test]
fn the_registered_dialect_compiles() {
    let mut reg = DialectRegistry::new();
    reg.register(Arc::new(Echo)).unwrap();
    reg.register(Arc::new(Fussy)).unwrap();
    reg.register_as(("Second".to_string(), Arc::new(Echo))).unwrap();
    let notes = |id: &str| {
        reg.compile(id, "src", &OK).unwrap().as_portable().unwrap().notes.clone()
    };
    assert_eq!(notes("echo"), ["echoed:src"]);
    assert_eq!(notes("FUSSY"), ["src"]);
    assert_eq!(notes("second"), ["echoed:src"]);
    let refused = SdaParse::Refused("no".into());
    assert!(reg.compile("fussy", "src", &refused).unwrap_err().to_text().contains("no"));
}

#[test]
fn a_refused_registration_changes_nothing() {
    let mut reg = DialectRegistry::new();
    reg.register(Arc::new(Echo)).unwrap();
    let before = reg.list();
    assert!(reg.register_as(("echo".to_string(), Arc::new(Fussy))).is_err());
    assert!(reg.register_as(("json".to_string(), Arc::new(Fussy))).is_err());
    assert!(reg.register_as((String::new(), Arc::new(Fussy))).is_err());
    assert_eq!(reg.list(), before);
    let c = reg.compile("echo", "hi", &OK).unwrap();
    assert_eq!(c.as_portable().unwrap().notes, ["echoed:hi"]);
    let shown = before.iter().find(|d| d.id == "echo").unwrap();
    assert_eq!((shown.name.as_str(), shown.description.as_str()), ("Echo", "test"));
}

#[test]
fn the_sda_dialect_gives_the_parse_failure() {
    let refused = SdaParse::Refused("bad token".into());
    let err = QueryDialect::compile(&BuiltinDialect::Sda, "((", &refused).unwrap_err();
    assert!(err.to_text().contains("bad token"), "{}", err.to_text());
    let err = QueryDialect::compile(&BuiltinDialect::Sda, "true", &OK).unwrap_err();
    assert!(!err.to_text().contains("bad token"), "{}", err.to_text());
}

#[test]
fn compile_json_value_api() {
    let c = compile_json_value(&doc(r#"{"a": {"$exists": true}}"#)).unwrap();
    assert_eq!(c.dialect, "json");
    let _ = c.filter.to_predicate().unwrap();
    assert!(c.notes.iter().any(|n| n.contains("Query VM") || n.contains("portable")));
}

#[test]
fn refused_programs_say_why() {
    let refused = SdaParse::Refused("bad token".into());
    let err = compile_sda_source("((", &refused).unwrap_err();
    assert!(err.to_text().contains("dialect 'sda' parse failed: bad token"));
    let err = compile_sda_source("   ", &OK).unwrap_err();
    assert!(err.to_text().contains("dialect 'sda': empty program"));
    let err = compile_dialect("json", "{", &OK).unwrap_err();
    assert!(err.to_text().contains("dialect 'json': filter must be a JSON object: "));
    let err = compile_dialect("mongo", " ", &OK).unwrap_err();
    assert!(err.to_text().contains("dialect 'mongo': empty filter"));
}

#[test]
fn only_sda_asks_the_parser() {
    assert_eq!(program_to_parse(" SDA ", "  x "), Some("x".to_string()));
    assert_eq!(program_to_parse("sda", "  "), None);
    assert_eq!(program_to_parse("json", "{}"), None);
}

#[test]
fn bare_predicate() {
    let c = compile_sql("status = 'active'").unwrap();
    assert!(c.project.is_none());
    assert!(c.filter.matches(&doc(r#"{"status": "active"}"#)));
    assert!(!c.filter.matches(&doc(r#"{"status": "idle"}"#)));
    let pred = c.filter.to_predicate().unwrap();
    let params = JsonMap::new();
    assert!(pred.eval(&doc(r#"{"status": "active"}"#), &params).unwrap());
}

#[test]
fn in_list() {
    let c = compile_sql("country IN ('TH', 'SG')").unwrap();
    assert!(c.filter.matches(&doc(r#"{"country": "TH"}"#)));
    assert!(!c.filter.matches(&doc(r#"{"country": "US"}"#)));
}

#[test]
fn is_null_missing() {
    let c = compile_sql("nickname IS NULL").unwrap();
    assert!(
        c.notes.iter().any(|n| n.contains("Null") || n.contains("absence")),
        "expected null-vs-absence note, got {:?}",
        c.notes
    );
    assert!(c.filter.matches(&doc("{}")));
    assert!(c.filter.matches(&doc(r#"{"nickname": null}"#)));
    assert!(!c.filter.matches(&doc(r#"{"nickname": "x"}"#)));
}

#[test]
fn sql_precedence_and_negation() {
    let c = compile_sql("a = 1 OR b = 2 AND NOT c = 3").unwrap();
    assert!(c.filter.matches(&doc(r#"{"a": 1, "c": 3}"#)));
    assert!(c.filter.matches(&doc(r#"{"a": 0, "b": 2, "c": 4}"#)));
    assert!(!c.filter.matches(&doc(r#"{"a": 0, "b": 2, "c": 3}"#)));
    let c = compile_sql("(a = 1 OR b = 2) AND x <= -1.5").unwrap();
    assert!(c.filter.matches(&doc(r#"{"b": 2, "x": -2}"#)));
    assert!(!c.filter.matches(&doc(r#"{"b": 2, "x": -1}"#)));
}

#[test]
fn sql_refuses_what_it_cannot_map() {
    for bad in ["", "SELECT * WHERE a = 1 ORDER BY a", "a ~ 1", "a =", "a IN 1", "(a = 1"] {
        assert!(compile_sql(bad).is_err(), "{bad}");
    }
}

const EXACTLY_ONE: &str = r#"
            from orders
            enrich customer using customers
              matching customer_id = id
              expect exactly_one
        "#;

#[test]
fn enrich_exactly_one_lowers() {
    let compiled = compile_rql(EXACTLY_ONE, &OK).unwrap();
    assert_eq!(compiled.dialect, "rql");
    assert_eq!(compiled.shape, SdaShape::Program);
    assert!(compiled.sda.contains("Match("));
    assert!(compiled.sda.contains("one!("));
    assert!(compiled.sda.contains("enrich"));
    assert_eq!(compiled.sda, rql_to_sda(EXACTLY_ONE).unwrap());
}

#[test]
fn optional_and_many_cardinality() {
    let opt = compile_rql(
        r#"
            from orders
            enrich customer using customers
              matching customer_id = id
              expect optional
        "#,
        &OK,
    )
    .unwrap();
    assert!(opt.sda.contains("one?("));

    let many = compile_rql(
        r#"
            from orders
            enrich items using items
              matching id = order_id
              expect many
        "#,
        &OK,
    )
    .unwrap();
    assert!(many.sda.contains("Match("));
    assert!(!many.sda.contains("one!("));
    assert!(!many.sda.contains("one?("));
}

#[test]
fn rql_refuses_bad_source() {
    assert!(parse_rql("").is_err());
    assert!(parse_rql("from").is_err());
    assert!(parse_rql("from orders enrich x using y matching a = b expect some").is_err());
    let refused = SdaParse::Refused("no".into());
    let err = compile_rql(EXACTLY_ONE, &refused).unwrap_err();
    assert!(err.to_text().contains("internal SDA compile failed: no; sda="), "{}", err.to_text());
}
