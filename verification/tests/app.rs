//! The application surface: profiles, handles, cursors, wire values.
use residiuum_sdk::app_v1::{
    Backend, CollectionClient, CollectionId, HeapClient, HeapId, KeyProfile, CURSOR_PROFILE,
    PREDICATE_PROFILE, RQL_APP_CORE_PROFILE, RQL_PLAN_PROFILE, RUST_APP_PROFILE,
};
use residiuum_sdk::cursor_v1::{
    active_cursor_key_ring, mint, mint_now, parameter_hash, verify, CursorKeyRing,
    CursorKeyRingGuard, CursorKeyRingSlot, CursorLogical, VerifyContext, PROFILE,
};
use residiuum_sdk::error::ErrorCode;
use residiuum_sdk::json::{text_value, Json, JsonMap, JsonNumber};

fn of_value(v: &serde_json::Value) -> Json {
    match v {
        serde_json::Value::Null => Json::Null,
        serde_json::Value::Bool(b) => Json::Bool(*b),
        serde_json::Value::Number(n) => Json::Number(match (n.as_u64(), n.as_i64()) {
            (Some(u), _) => JsonNumber::PosInt(u),
            (None, Some(i)) => JsonNumber::NegInt(i),
            (None, None) => JsonNumber::Float(n.to_string()),
        }),
        serde_json::Value::String(s) => Json::Text(s.clone()),
        serde_json::Value::Array(a) => Json::Array(a.iter().map(of_value).collect()),
        serde_json::Value::Object(o) => {
            let mut m = JsonMap::new();
            for (k, x) in o {
                m.insert(k.clone(), of_value(x));
            }
            Json::Object(m)
        }
    }
}

fn doc(text: &str) -> Json {
    of_value(&serde_json::from_str(text).unwrap())
}

#[test]
fn profiles_are_stable() {
    assert_eq!(RUST_APP_PROFILE, "residiuum-rust-app-v1");
    assert_eq!(RQL_APP_CORE_PROFILE, "rql-app-core-v1");
    assert_eq!(RQL_PLAN_PROFILE, "rql-plan-v1");
    assert_eq!(CURSOR_PROFILE, "residiuum-cursor-v1");
    assert_eq!(PREDICATE_PROFILE, "residiuum-predicate-v1");
}

fn v4(seed: u8) -> [u8; 16] {
    let mut b = [seed; 16];
    b[6] = (b[6] & 0x0f) | 0x40;
    b[8] = (b[8] & 0x3f) | 0x80;
    if b == [0u8; 16] {
        b[0] = 1;
    }
    b
}

#[test]
fn facade_constructors_compile() {
    let hid = HeapId(v4(1));
    let cid = CollectionId(v4(2));
    let mut heap = HeapClient::from_id_for_contract(hid);
    assert_eq!(heap.id(), hid);
    let col = CollectionClient::from_parts_for_contract(hid, cid, "orders");
    assert_eq!(col.name(), "orders");
    assert_eq!(col.id(), cid);
    let err = heap.create_collection("orders").unwrap_err();
    assert_eq!(err.code().as_str(), "internal");
}

#[test]
fn bound_handles_ask_their_backend() {
    let mut heap = HeapClient::bind(HeapId(v4(1)), Backend::Embedded);
    assert!(heap.is_bound());
    let request = heap.create_collection("orders").unwrap();
    assert_eq!(request.name, "orders");
    assert_eq!(request.backend, Backend::Embedded);
    assert_eq!(request.operation_id, None);
}

#[test]
fn random_keys_are_hexadecimal() {
    let mut random = [0u8; 16];
    random[0] = 0xab;
    random[15] = 0x01;
    assert_eq!(KeyProfile::RandomV1.key_of(&random), "ab000000000000000000000000000001");
}

fn sample_logical() -> CursorLogical {
    CursorLogical {
        cursor_profile: PROFILE.into(),
        key_id: "ck-0001".into(),
        heap_id: "00000000-0000-4000-8000-0000000000b1".into(),
        collection_id: "00000000-0000-4000-8000-0000000000a1".into(),
        authority_epoch: 1,
        plan_hash: "bb".repeat(32),
        parameter_hash: "cc".repeat(32),
        order_normalized: doc(
            r#"[{"path": ["created_at"], "dir": "desc"},
                {"path": ["$key"], "dir": "asc", "tie_break": true}]"#,
        ),
        last_sort_tuple: doc(r#"[1785360000, "ord-1"]"#),
        source_frontier: doc(&format!(
            r#"{{"generation": 7, "segment_id": "{}"}}"#,
            "dd".repeat(16)
        )),
        remaining_limit: 900,
        page_size: 100,
        coverage_mode: "complete".into(),
        consistency_mode: "available".into(),
        issued_at: 1_785_360_100,
        expires_at: 1_785_361_000,
    }
}

fn context(l: &CursorLogical) -> VerifyContext {
    VerifyContext {
        heap_id: l.heap_id.clone(),
        collection_id: l.collection_id.clone(),
        plan_hash: None,
        parameter_hash: None,
    }
}

#[test]
fn mint_verify_roundtrip() {
    let ring = CursorKeyRing::vector_lock();
    let logical = sample_logical();
    let cont = mint(&logical, &ring).unwrap();
    let ctx = VerifyContext {
        heap_id: logical.heap_id.clone(),
        collection_id: logical.collection_id.clone(),
        plan_hash: Some(logical.plan_hash.clone()),
        parameter_hash: Some(logical.parameter_hash.clone()),
    };
    let got = verify(&cont.token, &ctx, &ring, logical.issued_at + 10).unwrap();
    assert_eq!(got.heap_id, logical.heap_id);
    assert_eq!(got.remaining_limit, 900);
    assert_eq!(got, logical);
}

#[test]
fn heap_mismatch_fails() {
    let ring = CursorKeyRing::vector_lock();
    let logical = sample_logical();
    let cont = mint(&logical, &ring).unwrap();
    let ctx = VerifyContext {
        heap_id: "00000000-0000-4000-8000-0000000000ff".into(),
        collection_id: logical.collection_id.clone(),
        plan_hash: None,
        parameter_hash: None,
    };
    let err = verify(&cont.token, &ctx, &ring, logical.issued_at + 10).unwrap_err();
    assert_eq!(err.code(), ErrorCode::ConsistencyViolation);
}

#[test]
fn expired_fails() {
    let ring = CursorKeyRing::vector_lock();
    let mut logical = sample_logical();
    logical.issued_at = 0;
    logical.expires_at = 1;
    let cont = mint(&logical, &ring).unwrap();
    let err = verify(&cont.token, &context(&logical), &ring, 10_000).unwrap_err();
    assert_eq!(err.code(), ErrorCode::ConsistencyViolation);
}

#[test]
fn tampered_mac_fails() {
    let ring = CursorKeyRing::vector_lock();
    let logical = sample_logical();
    let cont = mint(&logical, &ring).unwrap();
    let mut v: serde_json::Value = serde_json::from_slice(&cont.token).unwrap();
    v.as_object_mut()
        .unwrap()
        .insert("mac".into(), serde_json::Value::String("00".repeat(32)));
    let bad = serde_json::to_vec(&v).unwrap();
    let err = verify(&bad, &context(&logical), &ring, logical.issued_at + 10).unwrap_err();
    assert_eq!(err.code(), ErrorCode::ConsistencyViolation);
}

#[test]
fn a_rotated_key_still_verifies() {
    let old = CursorKeyRing::product("k1", [7; 32]);
    let mut logical = sample_logical();
    logical.key_id = "k1".into();
    let cont = mint(&logical, &old).unwrap();
    let ring = CursorKeyRing::product_with_previous("k2", [8; 32], "k1", [7; 32]);
    assert!(verify(&cont.token, &context(&logical), &ring, logical.issued_at + 1).is_ok());
    let without = CursorKeyRing::product("k2", [8; 32]);
    assert!(verify(&cont.token, &context(&logical), &without, logical.issued_at + 1).is_err());
}

#[test]
fn parameter_hashes_tell_parameters_apart() {
    let mut a = JsonMap::new();
    a.insert("x".into(), text_value("1"));
    let mut b = JsonMap::new();
    b.insert("x".into(), Json::Number(JsonNumber::from_i64(1)));
    assert_eq!(parameter_hash(&a).len(), 64);
    assert_eq!(parameter_hash(&a), parameter_hash(&a));
    assert_ne!(parameter_hash(&a), parameter_hash(&b));
}

#[test]
fn minting_now_uses_the_clock() {
    let ring = CursorKeyRing::vector_lock();
    let mut logical = sample_logical();
    logical.issued_at = 0;
    logical.expires_at = 1;
    let cont = mint_now(&logical, &ring).unwrap();
    let now = std::time::SystemTime::now()
        .duration_since(std::time::UNIX_EPOCH)
        .unwrap()
        .as_secs();
    assert!(verify(&cont.token, &context(&logical), &ring, now).is_ok());
    assert!(verify(&cont.token, &context(&logical), &ring, now + 2_000).is_err());
    assert!(verify(&cont.token, &context(&logical), &ring, now - 2_000).is_err());
}

#[test]
fn a_guard_puts_the_ring_back() {
    let mut slot = CursorKeyRingSlot::new();
    let first = active_cursor_key_ring(&slot).current.key_id;
    let mut guard = CursorKeyRingGuard::install(&mut slot, CursorKeyRing::product("k9", [9; 32]));
    assert_eq!(active_cursor_key_ring(&slot).current.key_id, "k9");
    guard.restore(&mut slot);
    assert_eq!(active_cursor_key_ring(&slot).current.key_id, first);
}
