//! Authenticated query continuation (`residiuum-cursor-v1`).
//!
//! A token is a JSON object of the cursor's fields together with a keyed BLAKE3
//! MAC over their canonical text. Verification refuses a token that is not
//! authentic, is bound to something else, or is too old.
use crate::app_v1::{Continuation, CURSOR_PROFILE};
use crate::codec::{hex_of, hex_text, push_text};
use crate::digest::{blake3_digest, blake3_keyed, hash_bytes, keyed_hash_bytes};
use crate::error::{outcome, query_invalid, Error, ErrorView};
use crate::json::{
    group_json_model, law_lookup_with_member, lemma_with_member_ascends, lookup, member_in, text_in,
    text_value, with_member, Json, JsonMap, JsonNumber, JsonView, NumberView,
};
use crate::json_text::{json_read, json_text, plain, read_json, reads_as, write_json};
use crate::text::{cat2, cat3, same_text};
use vstd::prelude::*;
use vstd::utf8::encode_utf8;

verus! {

broadcast use group_json_model;

/// Domain separation for parameter binding hashes.
pub const PARAMETER_HASH_DOMAIN: &'static str = "residiuum:cursor-v1:parameter-hash-v1";

/// Cursor profile label.
pub const PROFILE: &'static str = CURSOR_PROFILE;

/// Domain separation for the MAC.
pub const MAC_DOMAIN: &'static str = "residiuum:cursor-v1:mac-v1";

/// Key material profile id for the fixed ring.
pub const CURSOR_KEY_MATERIAL_PROFILE: &'static str = "residiuum-cursor-key-material-v1";

/// Token lifetime in seconds.
pub const TTL_SECONDS: u64 = 900;

/// Accepted clock skew in seconds.
pub const SKEW_SECONDS: u64 = 120;

/// Greatest age from issue that is still accepted.
pub const MAX_ACCEPT_AGE_SECONDS: u64 = 1020;

/// Seed label of the fixed ring.
pub const VECTOR_LOCK_SEED: &'static str = "vector-lock-seed-v1";

/// Logical fields inside a token, before authentication.
#[derive(Debug, PartialEq)]
pub struct CursorLogical {
    /// Profile id.
    pub cursor_profile: String,
    /// Signing key id.
    pub key_id: String,
    /// Bound heap id.
    pub heap_id: String,
    /// Bound collection id.
    pub collection_id: String,
    /// Authority epoch fence.
    pub authority_epoch: u64,
    /// Canonical plan hash (64 hex digits).
    pub plan_hash: String,
    /// Canonical parameter hash (64 hex digits).
    pub parameter_hash: String,
    /// Normalized order terms.
    pub order_normalized: Json,
    /// Last sort tuple of the page before.
    pub last_sort_tuple: Json,
    /// Source frontier evidence.
    pub source_frontier: Json,
    /// Remaining total limit across pages.
    pub remaining_limit: u64,
    /// Effective page size.
    pub page_size: u32,
    /// Coverage mode.
    pub coverage_mode: String,
    /// Consistency mode.
    pub consistency_mode: String,
    /// Issue time (unix seconds).
    pub issued_at: u64,
    /// Expiry time (unix seconds).
    pub expires_at: u64,
}

/// Model of a [`CursorLogical`].
#[verifier::ext_equal]
pub struct CursorView {
    pub cursor_profile: Seq<char>,
    pub key_id: Seq<char>,
    pub heap_id: Seq<char>,
    pub collection_id: Seq<char>,
    pub authority_epoch: u64,
    pub plan_hash: Seq<char>,
    pub parameter_hash: Seq<char>,
    pub order_normalized: JsonView,
    pub last_sort_tuple: JsonView,
    pub source_frontier: JsonView,
    pub remaining_limit: u64,
    pub page_size: u32,
    pub coverage_mode: Seq<char>,
    pub consistency_mode: Seq<char>,
    pub issued_at: u64,
    pub expires_at: u64,
}

impl View for CursorLogical {
    type V = CursorView;

    open spec fn view(&self) -> CursorView {
        CursorView {
            cursor_profile: self.cursor_profile@,
            key_id: self.key_id@,
            heap_id: self.heap_id@,
            collection_id: self.collection_id@,
            authority_epoch: self.authority_epoch,
            plan_hash: self.plan_hash@,
            parameter_hash: self.parameter_hash@,
            order_normalized: self.order_normalized@,
            last_sort_tuple: self.last_sort_tuple@,
            source_frontier: self.source_frontier@,
            remaining_limit: self.remaining_limit,
            page_size: self.page_size,
            coverage_mode: self.coverage_mode@,
            consistency_mode: self.consistency_mode@,
            issued_at: self.issued_at,
            expires_at: self.expires_at,
        }
    }
}

impl Clone for CursorLogical {
    fn clone(&self) -> (r: CursorLogical)
        ensures
            r@ == self@,
    {
        CursorLogical {
            cursor_profile: self.cursor_profile.clone(),
            key_id: self.key_id.clone(),
            heap_id: self.heap_id.clone(),
            collection_id: self.collection_id.clone(),
            authority_epoch: self.authority_epoch,
            plan_hash: self.plan_hash.clone(),
            parameter_hash: self.parameter_hash.clone(),
            order_normalized: self.order_normalized.clone(),
            last_sort_tuple: self.last_sort_tuple.clone(),
            source_frontier: self.source_frontier.clone(),
            remaining_limit: self.remaining_limit,
            page_size: self.page_size,
            coverage_mode: self.coverage_mode.clone(),
            consistency_mode: self.consistency_mode.clone(),
            issued_at: self.issued_at,
            expires_at: self.expires_at,
        }
    }
}

/// Binding context that a token must meet.
#[derive(Debug, PartialEq, Eq)]
pub struct VerifyContext {
    /// Expected heap id.
    pub heap_id: String,
    /// Expected collection id.
    pub collection_id: String,
    /// Expected plan hash, when set.
    pub plan_hash: Option<String>,
    /// Expected parameter hash, when set.
    pub parameter_hash: Option<String>,
}

/// Model of a [`VerifyContext`].
#[verifier::ext_equal]
pub struct VerifyContextView {
    pub heap_id: Seq<char>,
    pub collection_id: Seq<char>,
    pub plan_hash: Option<Seq<char>>,
    pub parameter_hash: Option<Seq<char>>,
}

/// The text of an optional string.
pub open spec fn optional_text(s: Option<String>) -> Option<Seq<char>> {
    match s {
        Some(s) => Some(s@),
        None => None,
    }
}

impl View for VerifyContext {
    type V = VerifyContextView;

    open spec fn view(&self) -> VerifyContextView {
        VerifyContextView {
            heap_id: self.heap_id@,
            collection_id: self.collection_id@,
            plan_hash: optional_text(self.plan_hash),
            parameter_hash: optional_text(self.parameter_hash),
        }
    }
}

/// One MAC key of the verification window.
#[derive(Debug)]
pub struct CursorKey {
    /// Public key id carried in the token.
    pub key_id: String,
    /// 32-byte secret (never log or export).
    pub secret: [u8; 32],
}

/// Model of a [`CursorKey`].
#[verifier::ext_equal]
pub struct CursorKeyView {
    pub key_id: Seq<char>,
    pub secret: Seq<u8>,
}

impl View for CursorKey {
    type V = CursorKeyView;

    open spec fn view(&self) -> CursorKeyView {
        CursorKeyView { key_id: self.key_id@, secret: self.secret@ }
    }
}

impl Clone for CursorKey {
    fn clone(&self) -> (r: CursorKey)
        ensures
            r@ == self@,
    {
        CursorKey { key_id: self.key_id.clone(), secret: self.secret }
    }
}

/// Current and previous keys.
#[derive(Debug)]
pub struct CursorKeyRing {
    /// Active signing key.
    pub current: CursorKey,
    /// Previous key still accepted.
    pub previous: Option<CursorKey>,
}

/// Model of a [`CursorKeyRing`].
#[verifier::ext_equal]
pub struct CursorKeyRingView {
    pub current: CursorKeyView,
    pub previous: Option<CursorKeyView>,
}

impl View for CursorKeyRing {
    type V = CursorKeyRingView;

    open spec fn view(&self) -> CursorKeyRingView {
        CursorKeyRingView {
            current: self.current@,
            previous: match self.previous {
                Some(k) => Some(k@),
                None => None,
            },
        }
    }
}

impl Clone for CursorKeyRing {
    fn clone(&self) -> (r: CursorKeyRing)
        ensures
            r@ == self@,
    {
        CursorKeyRing {
            current: self.current.clone(),
            previous: match &self.previous {
                Some(k) => Some(k.clone()),
                None => None,
            },
        }
    }
}

/// The bytes the fixed key of a key id is derived from.
pub open spec fn vector_lock_material(key_id: Seq<char>) -> Seq<u8> {
    encode_utf8(CURSOR_KEY_MATERIAL_PROFILE@) + seq![0u8] + encode_utf8(key_id) + seq![0u8]
        + encode_utf8(VECTOR_LOCK_SEED@)
}

/// Derives the fixed secret for a key id.
pub fn derive_vector_lock_key(key_id: &str) -> (r: [u8; 32])
    ensures
        r@ == blake3_digest(vector_lock_material(key_id@)),
{
    let mut bytes: Vec<u8> = Vec::new();
    push_text(&mut bytes, CURSOR_KEY_MATERIAL_PROFILE);
    bytes.push(0);
    push_text(&mut bytes, key_id);
    bytes.push(0);
    push_text(&mut bytes, VECTOR_LOCK_SEED);
    proof {
        assert(bytes@ =~= vector_lock_material(key_id@));
    }
    hash_bytes(bytes.as_slice())
}

/// The key of a ring with that id; the current key comes first.
pub open spec fn ring_key(ring: CursorKeyRingView, key_id: Seq<char>) -> Option<CursorKeyView> {
    if ring.current.key_id == key_id {
        Some(ring.current)
    } else {
        match ring.previous {
            Some(k) => if k.key_id == key_id {
                Some(k)
            } else {
                None
            },
            None => None,
        }
    }
}

impl CursorKeyRing {
    /// Fixed ring: the single key id `ck-0001`, derived from fixed labels. For
    /// fixtures, not for secrets.
    pub fn vector_lock() -> (r: CursorKeyRing)
        ensures
            r@ == (CursorKeyRingView {
                current: CursorKeyView {
                    key_id: "ck-0001"@,
                    secret: blake3_digest(vector_lock_material("ck-0001"@)),
                },
                previous: None,
            }),
    {
        CursorKeyRing {
            current: CursorKey {
                key_id: "ck-0001".to_string(),
                secret: derive_vector_lock_key("ck-0001"),
            },
            previous: None,
        }
    }

    /// Ring of a host-provided secret.
    pub fn product(key_id: &str, secret: [u8; 32]) -> (r: CursorKeyRing)
        ensures
            r@ == (CursorKeyRingView {
                current: CursorKeyView { key_id: key_id@, secret: secret@ },
                previous: None,
            }),
    {
        CursorKeyRing {
            current: CursorKey { key_id: key_id.to_string(), secret },
            previous: None,
        }
    }

    /// Ring with a previous key still accepted.
    pub fn product_with_previous(
        current_key_id: &str,
        current_secret: [u8; 32],
        previous_key_id: &str,
        previous_secret: [u8; 32],
    ) -> (r: CursorKeyRing)
        ensures
            r@ == (CursorKeyRingView {
                current: CursorKeyView { key_id: current_key_id@, secret: current_secret@ },
                previous: Some(
                    CursorKeyView { key_id: previous_key_id@, secret: previous_secret@ },
                ),
            }),
    {
        CursorKeyRing {
            current: CursorKey { key_id: current_key_id.to_string(), secret: current_secret },
            previous: Some(
                CursorKey { key_id: previous_key_id.to_string(), secret: previous_secret },
            ),
        }
    }

    /// The key with that id.
    pub fn lookup(&self, key_id: &str) -> (r: Option<&CursorKey>)
        ensures
            match r {
                Some(k) => ring_key(self@, key_id@) == Some(k@),
                None => ring_key(self@, key_id@) is None,
            },
    {
        if same_text(self.current.key_id.as_str(), key_id) {
            return Some(&self.current);
        }
        match &self.previous {
            Some(k) => if same_text(k.key_id.as_str(), key_id) {
                Some(k)
            } else {
                None
            },
            None => None,
        }
    }
}

/// The bytes a parameter hash is taken of.
pub open spec fn parameter_material(params: Seq<(Seq<char>, JsonView)>) -> Seq<u8> {
    encode_utf8(PARAMETER_HASH_DOMAIN@) + seq![0u8] + encode_utf8(
        json_text(JsonView::Object(params)),
    )
}

/// Canonical parameter hash bound into a token (64 hex digits).
pub fn parameter_hash(params: &JsonMap) -> (r: String)
    ensures
        r@ == hex_text(blake3_digest(parameter_material(params@))),
{
    let body = write_json(&Json::Object(params.clone()));
    let mut bytes: Vec<u8> = Vec::new();
    push_text(&mut bytes, PARAMETER_HASH_DOMAIN);
    bytes.push(0);
    push_text(&mut bytes, body.as_str());
    proof {
        assert(bytes@ =~= parameter_material(params@));
    }
    let digest = hash_bytes(bytes.as_slice());
    hex_of(digest.as_slice())
}

/// Where the ring in use is kept.
#[derive(Debug)]
pub struct CursorKeyRingSlot {
    ring: CursorKeyRing,
}

impl View for CursorKeyRingSlot {
    type V = CursorKeyRingView;

    closed spec fn view(&self) -> CursorKeyRingView {
        self.ring@
    }
}

impl CursorKeyRingSlot {
    /// A slot that holds the fixed ring.
    pub fn new() -> (r: CursorKeyRingSlot)
        ensures
            r@ == (CursorKeyRingView {
                current: CursorKeyView {
                    key_id: "ck-0001"@,
                    secret: blake3_digest(vector_lock_material("ck-0001"@)),
                },
                previous: None,
            }),
    {
        CursorKeyRingSlot { ring: CursorKeyRing::vector_lock() }
    }
}

/// Installs the ring that pages are minted and verified with; gives the ring
/// that was in use before.
pub fn install_cursor_key_ring(slot: &mut CursorKeyRingSlot, ring: CursorKeyRing) -> (r:
    CursorKeyRing)
    ensures
        r@ == old(slot)@,
        final(slot)@ == ring@,
{
    let mut taken = ring;
    std::mem::swap(&mut slot.ring, &mut taken);
    taken
}

/// A copy of the ring in use.
pub fn active_cursor_key_ring(slot: &CursorKeyRingSlot) -> (r: CursorKeyRing)
    ensures
        r@ == slot@,
{
    slot.ring.clone()
}

/// The ring to put back once a temporary one is done with.
#[derive(Debug)]
pub struct CursorKeyRingGuard {
    previous: Option<CursorKeyRing>,
}

impl CursorKeyRingGuard {
    /// The ring that will be put back.
    pub closed spec fn kept(&self) -> Option<CursorKeyRingView> {
        match self.previous {
            Some(r) => Some(r@),
            None => None,
        }
    }

    /// Installs `ring` until [`CursorKeyRingGuard::restore`].
    pub fn install(slot: &mut CursorKeyRingSlot, ring: CursorKeyRing) -> (r: CursorKeyRingGuard)
        ensures
            r.kept() == Some(old(slot)@),
            final(slot)@ == ring@,
    {
        CursorKeyRingGuard { previous: Some(install_cursor_key_ring(slot, ring)) }
    }

    /// Puts the ring back that was in use before; a second call does nothing.
    pub fn restore(&mut self, slot: &mut CursorKeyRingSlot)
        ensures
            final(slot)@ == (match old(self).kept() {
                Some(ring) => ring,
                None => old(slot)@,
            }),
            final(self).kept() is None,
    {
        match self.previous.take() {
            Some(ring) => {
                let _replaced = install_cursor_key_ring(slot, ring);
            },
            None => {},
        }
    }
}

/// An integer as a JSON number.
pub open spec fn number_json(n: u64) -> JsonView {
    JsonView::Number(NumberView::PosInt(n))
}

/// The canonical JSON members of a cursor (no `mac`).
pub open spec fn cursor_members(c: CursorView) -> Seq<(Seq<char>, JsonView)> {
    let m0 = Seq::<(Seq<char>, JsonView)>::empty();
    let m1 = with_member(m0, "authority_epoch"@, number_json(c.authority_epoch));
    let m2 = with_member(m1, "collection_id"@, JsonView::Text(c.collection_id));
    let m3 = with_member(m2, "consistency_mode"@, JsonView::Text(c.consistency_mode));
    let m4 = with_member(m3, "coverage_mode"@, JsonView::Text(c.coverage_mode));
    let m5 = with_member(m4, "cursor_profile"@, JsonView::Text(c.cursor_profile));
    let m6 = with_member(m5, "expires_at"@, number_json(c.expires_at));
    let m7 = with_member(m6, "heap_id"@, JsonView::Text(c.heap_id));
    let m8 = with_member(m7, "issued_at"@, number_json(c.issued_at));
    let m9 = with_member(m8, "key_id"@, JsonView::Text(c.key_id));
    let m10 = with_member(m9, "last_sort_tuple"@, c.last_sort_tuple);
    let m11 = with_member(m10, "order_normalized"@, c.order_normalized);
    let m12 = with_member(m11, "page_size"@, number_json(c.page_size as u64));
    let m13 = with_member(m12, "parameter_hash"@, JsonView::Text(c.parameter_hash));
    let m14 = with_member(m13, "plan_hash"@, JsonView::Text(c.plan_hash));
    let m15 = with_member(m14, "remaining_limit"@, number_json(c.remaining_limit));
    let m16 = with_member(m15, "source_frontier"@, c.source_frontier);
    m16
}

/// The bytes a cursor's MAC is taken of.
pub open spec fn mac_material(c: CursorView) -> Seq<u8> {
    encode_utf8(MAC_DOMAIN@) + seq![0u8] + encode_utf8(
        json_text(JsonView::Object(cursor_members(c))),
    )
}

/// The MAC of a cursor under a secret (64 hex digits).
pub open spec fn cursor_mac(c: CursorView, secret: Seq<u8>) -> Seq<char> {
    hex_text(blake3_keyed(secret, mac_material(c)))
}

/// The JSON of a token.
pub open spec fn token_json(c: CursorView, mac: Seq<char>) -> JsonView {
    JsonView::Object(with_member(cursor_members(c), "mac"@, JsonView::Text(mac)))
}

/// The string under `key`, or the message that asks for it.
pub open spec fn cursor_text(
    m: Seq<(Seq<char>, JsonView)>,
    key: Seq<char>,
) -> Result<Seq<char>, ErrorView> {
    match text_in(lookup(m, key)) {
        Some(s) => Ok(s),
        None => Err(ErrorView::QueryInvalid("cursor missing string field `"@ + key + "`"@)),
    }
}

/// The integer under `key`, or the message that asks for it.
pub open spec fn cursor_number(
    m: Seq<(Seq<char>, JsonView)>,
    key: Seq<char>,
) -> Result<u64, ErrorView> {
    match lookup(m, key) {
        Some(JsonView::Number(NumberView::PosInt(n))) => Ok(n),
        _ => Err(ErrorView::QueryInvalid("cursor missing u64 field `"@ + key + "`"@)),
    }
}

/// The value under `key`, or the message that asks for it.
pub open spec fn cursor_value(
    m: Seq<(Seq<char>, JsonView)>,
    key: Seq<char>,
) -> Result<JsonView, ErrorView> {
    match lookup(m, key) {
        Some(v) => Ok(v),
        None => Err(ErrorView::QueryInvalid("cursor missing "@ + key)),
    }
}

/// The cursor that a token's JSON holds, or why it holds none. Fields are asked
/// for in this order.
pub open spec fn cursor_in(v: JsonView) -> Result<CursorView, ErrorView> {
    match v {
        JsonView::Object(m) => match cursor_text(m, "cursor_profile"@) {
            Err(e) => Err(e),
            Ok(cursor_profile) => if cursor_profile != PROFILE@ {
                Err(
                    ErrorView::ConsistencyViolation("cursor profile mismatch: "@ + cursor_profile),
                )
            } else {
                cursor_body_in(m, cursor_profile)
            },
        },
        _ => Err(ErrorView::QueryInvalid("cursor token must be object"@)),
    }
}

/// The cursor that a token's members hold, once its profile is known.
pub open spec fn cursor_body_in(
    m: Seq<(Seq<char>, JsonView)>,
    cursor_profile: Seq<char>,
) -> Result<CursorView, ErrorView> {
    let texts = (
        cursor_text(m, "key_id"@),
        cursor_text(m, "heap_id"@),
        cursor_text(m, "collection_id"@),
        cursor_number(m, "authority_epoch"@),
        cursor_text(m, "plan_hash"@),
        cursor_text(m, "parameter_hash"@),
    );
    let values = (
        cursor_value(m, "order_normalized"@),
        cursor_value(m, "last_sort_tuple"@),
        cursor_value(m, "source_frontier"@),
        cursor_number(m, "remaining_limit"@),
        cursor_number(m, "page_size"@),
    );
    let modes = (
        cursor_text(m, "coverage_mode"@),
        cursor_text(m, "consistency_mode"@),
        cursor_number(m, "issued_at"@),
        cursor_number(m, "expires_at"@),
    );
    if texts.0 is Err {
        Err(texts.0->Err_0)
    } else if texts.1 is Err {
        Err(texts.1->Err_0)
    } else if texts.2 is Err {
        Err(texts.2->Err_0)
    } else if texts.3 is Err {
        Err(texts.3->Err_0)
    } else if texts.4 is Err {
        Err(texts.4->Err_0)
    } else if texts.5 is Err {
        Err(texts.5->Err_0)
    } else if values.0 is Err {
        Err(values.0->Err_0)
    } else if values.1 is Err {
        Err(values.1->Err_0)
    } else if values.2 is Err {
        Err(values.2->Err_0)
    } else if values.3 is Err {
        Err(values.3->Err_0)
    } else if values.4 is Err {
        Err(values.4->Err_0)
    } else if modes.0 is Err {
        Err(modes.0->Err_0)
    } else if modes.1 is Err {
        Err(modes.1->Err_0)
    } else if modes.2 is Err {
        Err(modes.2->Err_0)
    } else if modes.3 is Err {
        Err(modes.3->Err_0)
    } else {
        Ok(
            CursorView {
                cursor_profile,
                key_id: texts.0->Ok_0,
                heap_id: texts.1->Ok_0,
                collection_id: texts.2->Ok_0,
                authority_epoch: texts.3->Ok_0,
                plan_hash: texts.4->Ok_0,
                parameter_hash: texts.5->Ok_0,
                order_normalized: values.0->Ok_0,
                last_sort_tuple: values.1->Ok_0,
                source_frontier: values.2->Ok_0,
                remaining_limit: values.3->Ok_0,
                page_size: values.4->Ok_0 as u32,
                coverage_mode: modes.0->Ok_0,
                consistency_mode: modes.1->Ok_0,
                issued_at: modes.2->Ok_0,
                expires_at: modes.3->Ok_0,
            },
        )
    }
}

/// `a + b`, or the largest 64-bit number where that exceeds it.
pub open spec fn capped_add(a: u64, b: u64) -> u64 {
    if a + b <= u64::MAX {
        (a + b) as u64
    } else {
        u64::MAX
    }
}

/// Why a cursor is refused at time `now`, if it is.
pub open spec fn time_fence(c: CursorView, now: u64) -> Option<Seq<char>> {
    if capped_add(now, SKEW_SECONDS) < c.issued_at {
        Some("cursor issued_at is in the future beyond skew"@)
    } else if now > capped_add(c.issued_at, MAX_ACCEPT_AGE_SECONDS) {
        Some("cursor exceeded max accept age"@)
    } else if now > capped_add(c.expires_at, SKEW_SECONDS) {
        Some("cursor expired"@)
    } else {
        None
    }
}

/// Why a cursor is refused in a context, if it is.
pub open spec fn binding_fence(c: CursorView, ctx: VerifyContextView) -> Option<Seq<char>> {
    if c.heap_id != ctx.heap_id {
        Some("cursor heap_id mismatch"@)
    } else if c.collection_id != ctx.collection_id {
        Some("cursor collection_id mismatch"@)
    } else if ctx.plan_hash is Some && c.plan_hash != ctx.plan_hash->0 {
        Some("cursor plan_hash mismatch"@)
    } else if ctx.parameter_hash is Some && c.parameter_hash != ctx.parameter_hash->0 {
        Some("cursor parameter_hash mismatch"@)
    } else {
        None
    }
}

/// What verifying a token gives, once its text is read.
pub open spec fn verified_read(
    read: Result<JsonView, Seq<char>>,
    ctx: VerifyContextView,
    ring: CursorKeyRingView,
    now: u64,
) -> Result<CursorView, ErrorView> {
    match read {
        Err(e) => Err(ErrorView::ConsistencyViolation("cursor parse: "@ + e)),
        Ok(v) => match text_in(member_in(v, "mac"@)) {
            None => Err(ErrorView::ConsistencyViolation("cursor missing mac"@)),
            Some(mac) => match cursor_in(v) {
                Err(e) => Err(e),
                Ok(c) => if time_fence(c, now) is Some {
                    Err(ErrorView::ConsistencyViolation(time_fence(c, now)->0))
                } else if binding_fence(c, ctx) is Some {
                    Err(ErrorView::ConsistencyViolation(binding_fence(c, ctx)->0))
                } else {
                    match ring_key(ring, c.key_id) {
                        None => Err(
                            ErrorView::ConsistencyViolation("cursor unknown key_id "@ + c.key_id),
                        ),
                        Some(key) => if mac == cursor_mac(c, key.secret) {
                            Ok(c)
                        } else {
                            Err(ErrorView::ConsistencyViolation("cursor mac invalid"@))
                        },
                    }
                },
            },
        },
    }
}

/// What verifying a token gives.
pub open spec fn verified(
    token: Seq<u8>,
    ctx: VerifyContextView,
    ring: CursorKeyRingView,
    now: u64,
) -> Result<CursorView, ErrorView> {
    verified_read(json_read(token), ctx, ring, now)
}

/// A cursor as it is minted: signed by the ring's current key, under the
/// current profile.
pub open spec fn minted_body(c: CursorView, ring: CursorKeyRingView) -> CursorView {
    CursorView { key_id: ring.current.key_id, cursor_profile: PROFILE@, ..c }
}

/// The JSON of the token minted for a cursor.
pub open spec fn minted_json(c: CursorView, ring: CursorKeyRingView) -> JsonView {
    let body = minted_body(c, ring);
    token_json(body, cursor_mac(body, ring.current.secret))
}

/// The token minted for a cursor.
pub open spec fn minted(c: CursorView, ring: CursorKeyRingView) -> Seq<u8> {
    encode_utf8(json_text(minted_json(c, ring)))
}

/// The free-form values of a cursor survive being written and read back.
pub open spec fn cursor_plain(c: CursorView) -> bool {
    &&& plain(c.order_normalized, 126)
    &&& plain(c.last_sort_tuple, 126)
    &&& plain(c.source_frontier, 126)
}

/// No two fields of a token have the same name.
proof fn lemma_cursor_names()
    ensures
        "authority_epoch"@ != "collection_id"@,
        "authority_epoch"@ != "consistency_mode"@,
        "authority_epoch"@ != "coverage_mode"@,
        "authority_epoch"@ != "cursor_profile"@,
        "authority_epoch"@ != "expires_at"@,
        "authority_epoch"@ != "heap_id"@,
        "authority_epoch"@ != "issued_at"@,
        "authority_epoch"@ != "key_id"@,
        "authority_epoch"@ != "last_sort_tuple"@,
        "authority_epoch"@ != "mac"@,
        "authority_epoch"@ != "order_normalized"@,
        "authority_epoch"@ != "page_size"@,
        "authority_epoch"@ != "parameter_hash"@,
        "authority_epoch"@ != "plan_hash"@,
        "authority_epoch"@ != "remaining_limit"@,
        "authority_epoch"@ != "source_frontier"@,
        "collection_id"@ != "consistency_mode"@,
        "collection_id"@ != "coverage_mode"@,
        "collection_id"@ != "cursor_profile"@,
        "collection_id"@ != "expires_at"@,
        "collection_id"@ != "heap_id"@,
        "collection_id"@ != "issued_at"@,
        "collection_id"@ != "key_id"@,
        "collection_id"@ != "last_sort_tuple"@,
        "collection_id"@ != "mac"@,
        "collection_id"@ != "order_normalized"@,
        "collection_id"@ != "page_size"@,
        "collection_id"@ != "parameter_hash"@,
        "collection_id"@ != "plan_hash"@,
        "collection_id"@ != "remaining_limit"@,
        "collection_id"@ != "source_frontier"@,
        "consistency_mode"@ != "coverage_mode"@,
        "consistency_mode"@ != "cursor_profile"@,
        "consistency_mode"@ != "expires_at"@,
        "consistency_mode"@ != "heap_id"@,
        "consistency_mode"@ != "issued_at"@,
        "consistency_mode"@ != "key_id"@,
        "consistency_mode"@ != "last_sort_tuple"@,
        "consistency_mode"@ != "mac"@,
        "consistency_mode"@ != "order_normalized"@,
        "consistency_mode"@ != "page_size"@,
        "consistency_mode"@ != "parameter_hash"@,
        "consistency_mode"@ != "plan_hash"@,
        "consistency_mode"@ != "remaining_limit"@,
        "consistency_mode"@ != "source_frontier"@,
        "coverage_mode"@ != "cursor_profile"@,
        "coverage_mode"@ != "expires_at"@,
        "coverage_mode"@ != "heap_id"@,
        "coverage_mode"@ != "issued_at"@,
        "coverage_mode"@ != "key_id"@,
        "coverage_mode"@ != "last_sort_tuple"@,
        "coverage_mode"@ != "mac"@,
        "coverage_mode"@ != "order_normalized"@,
        "coverage_mode"@ != "page_size"@,
        "coverage_mode"@ != "parameter_hash"@,
        "coverage_mode"@ != "plan_hash"@,
        "coverage_mode"@ != "remaining_limit"@,
        "coverage_mode"@ != "source_frontier"@,
        "cursor_profile"@ != "expires_at"@,
        "cursor_profile"@ != "heap_id"@,
        "cursor_profile"@ != "issued_at"@,
        "cursor_profile"@ != "key_id"@,
        "cursor_profile"@ != "last_sort_tuple"@,
        "cursor_profile"@ != "mac"@,
        "cursor_profile"@ != "order_normalized"@,
        "cursor_profile"@ != "page_size"@,
        "cursor_profile"@ != "parameter_hash"@,
        "cursor_profile"@ != "plan_hash"@,
        "cursor_profile"@ != "remaining_limit"@,
        "cursor_profile"@ != "source_frontier"@,
        "expires_at"@ != "heap_id"@,
        "expires_at"@ != "issued_at"@,
        "expires_at"@ != "key_id"@,
        "expires_at"@ != "last_sort_tuple"@,
        "expires_at"@ != "mac"@,
        "expires_at"@ != "order_normalized"@,
        "expires_at"@ != "page_size"@,
        "expires_at"@ != "parameter_hash"@,
        "expires_at"@ != "plan_hash"@,
        "expires_at"@ != "remaining_limit"@,
        "expires_at"@ != "source_frontier"@,
        "heap_id"@ != "issued_at"@,
        "heap_id"@ != "key_id"@,
        "heap_id"@ != "last_sort_tuple"@,
        "heap_id"@ != "mac"@,
        "heap_id"@ != "order_normalized"@,
        "heap_id"@ != "page_size"@,
        "heap_id"@ != "parameter_hash"@,
        "heap_id"@ != "plan_hash"@,
        "heap_id"@ != "remaining_limit"@,
        "heap_id"@ != "source_frontier"@,
        "issued_at"@ != "key_id"@,
        "issued_at"@ != "last_sort_tuple"@,
        "issued_at"@ != "mac"@,
        "issued_at"@ != "order_normalized"@,
        "issued_at"@ != "page_size"@,
        "issued_at"@ != "parameter_hash"@,
        "issued_at"@ != "plan_hash"@,
        "issued_at"@ != "remaining_limit"@,
        "issued_at"@ != "source_frontier"@,
        "key_id"@ != "last_sort_tuple"@,
        "key_id"@ != "mac"@,
        "key_id"@ != "order_normalized"@,
        "key_id"@ != "page_size"@,
        "key_id"@ != "parameter_hash"@,
        "key_id"@ != "plan_hash"@,
        "key_id"@ != "remaining_limit"@,
        "key_id"@ != "source_frontier"@,
        "last_sort_tuple"@ != "mac"@,
        "last_sort_tuple"@ != "order_normalized"@,
        "last_sort_tuple"@ != "page_size"@,
        "last_sort_tuple"@ != "parameter_hash"@,
        "last_sort_tuple"@ != "plan_hash"@,
        "last_sort_tuple"@ != "remaining_limit"@,
        "last_sort_tuple"@ != "source_frontier"@,
        "mac"@ != "order_normalized"@,
        "mac"@ != "page_size"@,
        "mac"@ != "parameter_hash"@,
        "mac"@ != "plan_hash"@,
        "mac"@ != "remaining_limit"@,
        "mac"@ != "source_frontier"@,
        "order_normalized"@ != "page_size"@,
        "order_normalized"@ != "parameter_hash"@,
        "order_normalized"@ != "plan_hash"@,
        "order_normalized"@ != "remaining_limit"@,
        "order_normalized"@ != "source_frontier"@,
        "page_size"@ != "parameter_hash"@,
        "page_size"@ != "plan_hash"@,
        "page_size"@ != "remaining_limit"@,
        "page_size"@ != "source_frontier"@,
        "parameter_hash"@ != "plan_hash"@,
        "parameter_hash"@ != "remaining_limit"@,
        "parameter_hash"@ != "source_frontier"@,
        "plan_hash"@ != "remaining_limit"@,
        "plan_hash"@ != "source_frontier"@,
        "remaining_limit"@ != "source_frontier"@,
{
    reveal_strlit("authority_epoch");
    assert("authority_epoch"@.len() == 15);
    reveal_strlit("collection_id");
    assert("collection_id"@.len() == 13);
    reveal_strlit("consistency_mode");
    assert("consistency_mode"@.len() == 16);
    reveal_strlit("coverage_mode");
    assert("coverage_mode"@.len() == 13);
    reveal_strlit("cursor_profile");
    assert("cursor_profile"@.len() == 14);
    reveal_strlit("expires_at");
    assert("expires_at"@.len() == 10);
    reveal_strlit("heap_id");
    assert("heap_id"@.len() == 7);
    reveal_strlit("issued_at");
    assert("issued_at"@.len() == 9);
    reveal_strlit("key_id");
    assert("key_id"@.len() == 6);
    reveal_strlit("last_sort_tuple");
    assert("last_sort_tuple"@.len() == 15);
    reveal_strlit("mac");
    assert("mac"@.len() == 3);
    reveal_strlit("order_normalized");
    assert("order_normalized"@.len() == 16);
    reveal_strlit("page_size");
    assert("page_size"@.len() == 9);
    reveal_strlit("parameter_hash");
    assert("parameter_hash"@.len() == 14);
    reveal_strlit("plan_hash");
    assert("plan_hash"@.len() == 9);
    reveal_strlit("remaining_limit");
    assert("remaining_limit"@.len() == 15);
    reveal_strlit("source_frontier");
    assert("source_frontier"@.len() == 15);
    assert("authority_epoch"@[0] != "last_sort_tuple"@[0]);
    assert("authority_epoch"@[0] != "remaining_limit"@[0]);
    assert("authority_epoch"@[0] != "source_frontier"@[0]);
    assert("collection_id"@[2] != "coverage_mode"@[2]);
    assert("consistency_mode"@[0] != "order_normalized"@[0]);
    assert("cursor_profile"@[0] != "parameter_hash"@[0]);
    assert("issued_at"@[0] != "page_size"@[0]);
    assert("issued_at"@[0] != "plan_hash"@[0]);
    assert("last_sort_tuple"@[0] != "remaining_limit"@[0]);
    assert("last_sort_tuple"@[0] != "source_frontier"@[0]);
    assert("page_size"@[1] != "plan_hash"@[1]);
    assert("remaining_limit"@[0] != "source_frontier"@[0]);
}

/// Setting a plain value keeps an object's values plain and its keys in order.
proof fn lemma_plain_member(
    m: Seq<(Seq<char>, JsonView)>,
    key: Seq<char>,
    value: JsonView,
    depth: nat,
)
    requires
        depth > 0,
        plain(JsonView::Object(m), depth),
        plain(value, (depth - 1) as nat),
    ensures
        plain(JsonView::Object(with_member(m, key, value)), depth),
{
    let out = with_member(m, key, value);
    lemma_with_member_ascends(m, key, value);
    assert forall|i: int| 0 <= i < out.len() implies plain(
        (#[trigger] out[i]).1,
        (depth - 1) as nat,
    ) by {
        if out[i] != (key, value) {
            let j = choose|j: int| 0 <= j < m.len() && out[i] == m[j];
            assert(plain(m[j].1, (depth - 1) as nat));
        }
    }
}

/// The members of a plain cursor are plain.
proof fn lemma_cursor_plain(c: CursorView)
    requires
        cursor_plain(c),
    ensures
        plain(JsonView::Object(cursor_members(c)), 127),
{
    let m0 = Seq::<(Seq<char>, JsonView)>::empty();
    assert(plain(JsonView::Object(m0), 127));
    let m1 = with_member(m0, "authority_epoch"@, number_json(c.authority_epoch));
    lemma_plain_member(m0, "authority_epoch"@, number_json(c.authority_epoch), 127);
    let m2 = with_member(m1, "collection_id"@, JsonView::Text(c.collection_id));
    lemma_plain_member(m1, "collection_id"@, JsonView::Text(c.collection_id), 127);
    let m3 = with_member(m2, "consistency_mode"@, JsonView::Text(c.consistency_mode));
    lemma_plain_member(m2, "consistency_mode"@, JsonView::Text(c.consistency_mode), 127);
    let m4 = with_member(m3, "coverage_mode"@, JsonView::Text(c.coverage_mode));
    lemma_plain_member(m3, "coverage_mode"@, JsonView::Text(c.coverage_mode), 127);
    let m5 = with_member(m4, "cursor_profile"@, JsonView::Text(c.cursor_profile));
    lemma_plain_member(m4, "cursor_profile"@, JsonView::Text(c.cursor_profile), 127);
    let m6 = with_member(m5, "expires_at"@, number_json(c.expires_at));
    lemma_plain_member(m5, "expires_at"@, number_json(c.expires_at), 127);
    let m7 = with_member(m6, "heap_id"@, JsonView::Text(c.heap_id));
    lemma_plain_member(m6, "heap_id"@, JsonView::Text(c.heap_id), 127);
    let m8 = with_member(m7, "issued_at"@, number_json(c.issued_at));
    lemma_plain_member(m7, "issued_at"@, number_json(c.issued_at), 127);
    let m9 = with_member(m8, "key_id"@, JsonView::Text(c.key_id));
    lemma_plain_member(m8, "key_id"@, JsonView::Text(c.key_id), 127);
    let m10 = with_member(m9, "last_sort_tuple"@, c.last_sort_tuple);
    lemma_plain_member(m9, "last_sort_tuple"@, c.last_sort_tuple, 127);
    let m11 = with_member(m10, "order_normalized"@, c.order_normalized);
    lemma_plain_member(m10, "order_normalized"@, c.order_normalized, 127);
    let m12 = with_member(m11, "page_size"@, number_json(c.page_size as u64));
    lemma_plain_member(m11, "page_size"@, number_json(c.page_size as u64), 127);
    let m13 = with_member(m12, "parameter_hash"@, JsonView::Text(c.parameter_hash));
    lemma_plain_member(m12, "parameter_hash"@, JsonView::Text(c.parameter_hash), 127);
    let m14 = with_member(m13, "plan_hash"@, JsonView::Text(c.plan_hash));
    lemma_plain_member(m13, "plan_hash"@, JsonView::Text(c.plan_hash), 127);
    let m15 = with_member(m14, "remaining_limit"@, number_json(c.remaining_limit));
    lemma_plain_member(m14, "remaining_limit"@, number_json(c.remaining_limit), 127);
    let m16 = with_member(m15, "source_frontier"@, c.source_frontier);
    lemma_plain_member(m15, "source_frontier"@, c.source_frontier, 127);
}

/// The members of a cursor read back as that cursor, whatever member is set
/// besides.
pub proof fn lemma_cursor_reads_back(c: CursorView, mac: Seq<char>)
    requires
        c.cursor_profile == PROFILE@,
    ensures
        cursor_in(token_json(c, mac)) == Ok::<CursorView, ErrorView>(c),
        text_in(member_in(token_json(c, mac), "mac"@)) == Some(mac),
{
    broadcast use law_lookup_with_member;

    lemma_cursor_names();
    let m = token_json(c, mac)->Object_0;
    assert(lookup(m, "cursor_profile"@) == Some(JsonView::Text(c.cursor_profile)));
    assert(lookup(m, "key_id"@) == Some(JsonView::Text(c.key_id)));
    assert(lookup(m, "heap_id"@) == Some(JsonView::Text(c.heap_id)));
    assert(lookup(m, "collection_id"@) == Some(JsonView::Text(c.collection_id)));
    assert(lookup(m, "authority_epoch"@) == Some(number_json(c.authority_epoch)));
    assert(lookup(m, "plan_hash"@) == Some(JsonView::Text(c.plan_hash)));
    assert(lookup(m, "parameter_hash"@) == Some(JsonView::Text(c.parameter_hash)));
    assert(lookup(m, "order_normalized"@) == Some(c.order_normalized));
    assert(lookup(m, "last_sort_tuple"@) == Some(c.last_sort_tuple));
    assert(lookup(m, "source_frontier"@) == Some(c.source_frontier));
    assert(lookup(m, "remaining_limit"@) == Some(number_json(c.remaining_limit)));
    assert(lookup(m, "page_size"@) == Some(number_json(c.page_size as u64)));
    assert(lookup(m, "coverage_mode"@) == Some(JsonView::Text(c.coverage_mode)));
    assert(lookup(m, "consistency_mode"@) == Some(JsonView::Text(c.consistency_mode)));
    assert(lookup(m, "issued_at"@) == Some(number_json(c.issued_at)));
    assert(lookup(m, "expires_at"@) == Some(number_json(c.expires_at)));
    let back = cursor_in(token_json(c, mac));
    assert(back is Ok);
    assert(back->Ok_0 =~= c);
}

/// A minted token, once read, verifies as the cursor it was minted for, in
/// every context that the cursor meets and at every time in its window.
pub proof fn law_minted_token_verifies(
    c: CursorView,
    ring: CursorKeyRingView,
    ctx: VerifyContextView,
    now: u64,
)
    requires
        time_fence(c, now) is None,
        binding_fence(c, ctx) is None,
    ensures
        verified_read(Ok(minted_json(c, ring)), ctx, ring, now) == Ok::<CursorView, ErrorView>(
            minted_body(c, ring),
        ),
{
    let body = minted_body(c, ring);
    lemma_cursor_reads_back(body, cursor_mac(body, ring.current.secret));
}

/// A token whose MAC is not the one of its fields is refused, whatever else it
/// says.
pub proof fn law_wrong_mac_refused(
    v: JsonView,
    ctx: VerifyContextView,
    ring: CursorKeyRingView,
    now: u64,
)
    requires
        cursor_in(v) is Ok,
        forall|key: CursorKeyView|
            ring_key(ring, cursor_in(v)->Ok_0.key_id) == Some(key) ==> text_in(
                member_in(v, "mac"@),
            ) != Some(#[trigger] cursor_mac(cursor_in(v)->Ok_0, key.secret)),
    ensures
        verified_read(Ok(v), ctx, ring, now) is Err,
{
}

fn number_value(n: u64) -> (r: Json)
    ensures
        r@ == number_json(n),
{
    Json::Number(JsonNumber::PosInt(n))
}

fn member_string(m: &JsonMap, key: &str) -> (r: Result<String, Error>)
    ensures
        outcome(r) == cursor_text(m@, key@),
{
    match m.get(key) {
        Some(Json::Text(s)) => Ok(s.clone()),
        _ => Err(Error::QueryInvalid(cat3("cursor missing string field `", key, "`"))),
    }
}

fn member_number(m: &JsonMap, key: &str) -> (r: Result<u64, Error>)
    ensures
        match r {
            Ok(n) => cursor_number(m@, key@) == Ok::<u64, ErrorView>(n),
            Err(e) => cursor_number(m@, key@) == Err::<u64, ErrorView>(e@),
        },
{
    match m.get(key) {
        Some(Json::Number(JsonNumber::PosInt(n))) => Ok(*n),
        _ => Err(Error::QueryInvalid(cat3("cursor missing u64 field `", key, "`"))),
    }
}

fn member_value(m: &JsonMap, key: &str) -> (r: Result<Json, Error>)
    ensures
        outcome(r) == cursor_value(m@, key@),
{
    match m.get(key) {
        Some(v) => Ok(v.clone()),
        None => Err(Error::QueryInvalid(cat2("cursor missing ", key))),
    }
}

fn bytes_of(s: &String) -> (r: Vec<u8>)
    ensures
        r@ == encode_utf8(s@),
{
    let mut out: Vec<u8> = Vec::new();
    push_text(&mut out, s.as_str());
    proof {
        assert(out@ =~= encode_utf8(s@));
    }
    out
}

impl CursorLogical {
    /// Parses a token's JSON (with or without `mac`).
    pub fn from_json(v: &Json) -> (r: Result<CursorLogical, Error>)
        ensures
            outcome(r) == cursor_in(v@),
    {
        match v {
            Json::Object(m) => {
                let cursor_profile = member_string(m, "cursor_profile")?;
                if !same_text(cursor_profile.as_str(), PROFILE) {
                    return Err(
                        Error::ConsistencyViolation(
                            cat2("cursor profile mismatch: ", cursor_profile.as_str()),
                        ),
                    );
                }
                let key_id = member_string(m, "key_id")?;
                let heap_id = member_string(m, "heap_id")?;
                let collection_id = member_string(m, "collection_id")?;
                let authority_epoch: u64 = member_number(m, "authority_epoch")?;
                let plan_hash = member_string(m, "plan_hash")?;
                let parameter_hash = member_string(m, "parameter_hash")?;
                let order_normalized = member_value(m, "order_normalized")?;
                let last_sort_tuple = member_value(m, "last_sort_tuple")?;
                let source_frontier = member_value(m, "source_frontier")?;
                let remaining_limit: u64 = member_number(m, "remaining_limit")?;
                let page_size: u64 = member_number(m, "page_size")?;
                let coverage_mode = member_string(m, "coverage_mode")?;
                let consistency_mode = member_string(m, "consistency_mode")?;
                let issued_at: u64 = member_number(m, "issued_at")?;
                let expires_at: u64 = member_number(m, "expires_at")?;
                Ok(
                    CursorLogical {
                        cursor_profile,
                        key_id,
                        heap_id,
                        collection_id,
                        authority_epoch,
                        plan_hash,
                        parameter_hash,
                        order_normalized,
                        last_sort_tuple,
                        source_frontier,
                        remaining_limit,
                        page_size: page_size as u32,
                        coverage_mode,
                        consistency_mode,
                        issued_at,
                        expires_at,
                    },
                )
            },
            _ => Err(query_invalid("cursor token must be object")),
        }
    }

    fn canonical_map(&self) -> (r: JsonMap)
        ensures
            r@ == cursor_members(self@),
    {
        let mut m = JsonMap::new();
        m.insert("authority_epoch".to_string(), number_value(self.authority_epoch));
        m.insert("collection_id".to_string(), text_value(self.collection_id.as_str()));
        m.insert("consistency_mode".to_string(), text_value(self.consistency_mode.as_str()));
        m.insert("coverage_mode".to_string(), text_value(self.coverage_mode.as_str()));
        m.insert("cursor_profile".to_string(), text_value(self.cursor_profile.as_str()));
        m.insert("expires_at".to_string(), number_value(self.expires_at));
        m.insert("heap_id".to_string(), text_value(self.heap_id.as_str()));
        m.insert("issued_at".to_string(), number_value(self.issued_at));
        m.insert("key_id".to_string(), text_value(self.key_id.as_str()));
        m.insert("last_sort_tuple".to_string(), self.last_sort_tuple.clone());
        m.insert("order_normalized".to_string(), self.order_normalized.clone());
        m.insert("page_size".to_string(), number_value(self.page_size as u64));
        m.insert("parameter_hash".to_string(), text_value(self.parameter_hash.as_str()));
        m.insert("plan_hash".to_string(), text_value(self.plan_hash.as_str()));
        m.insert("remaining_limit".to_string(), number_value(self.remaining_limit));
        m.insert("source_frontier".to_string(), self.source_frontier.clone());
        m
    }

    /// Canonical JSON object the MAC is taken of (no `mac`).
    pub fn to_canonical_json(&self) -> (r: Json)
        ensures
            r@ == JsonView::Object(cursor_members(self@)),
    {
        Json::Object(self.canonical_map())
    }

    /// Canonical body bytes.
    pub fn canonical_bytes(&self) -> (r: Vec<u8>)
        ensures
            r@ == encode_utf8(json_text(JsonView::Object(cursor_members(self@)))),
    {
        let text = write_json(&self.to_canonical_json());
        bytes_of(&text)
    }

    /// The MAC of this cursor under `secret` (64 hex digits).
    pub fn mac_hex(&self, secret: &[u8; 32]) -> (r: String)
        ensures
            r@ == cursor_mac(self@, secret@),
    {
        let body = self.canonical_bytes();
        let mac = mac_bytes(secret, body.as_slice());
        hex_of(mac.as_slice())
    }

    /// Token JSON, `mac` included.
    pub fn to_token_json(&self, mac_hex: &str) -> (r: Json)
        ensures
            r@ == token_json(self@, mac_hex@),
    {
        let mut m = self.canonical_map();
        m.insert("mac".to_string(), text_value(mac_hex));
        Json::Object(m)
    }
}

fn mac_bytes(secret: &[u8; 32], body: &[u8]) -> (r: [u8; 32])
    ensures
        r@ == blake3_keyed(secret@, encode_utf8(MAC_DOMAIN@) + seq![0u8] + body@),
{
    let mut bytes: Vec<u8> = Vec::new();
    push_text(&mut bytes, MAC_DOMAIN);
    bytes.push(0);
    bytes.extend_from_slice(body);
    proof {
        assert(bytes@ =~= encode_utf8(MAC_DOMAIN@) + seq![0u8] + body@);
    }
    keyed_hash_bytes(secret, bytes.as_slice())
}

/// Compares two texts without stopping at the first difference.
pub fn constant_time_eq_hex(a: &str, b: &str) -> (r: bool)
    ensures
        r == (a@ == b@),
{
    let aa = a.as_bytes();
    let bb = b.as_bytes();
    proof {
        vstd::utf8::encode_utf8_decode_utf8(a@);
        vstd::utf8::encode_utf8_decode_utf8(b@);
    }
    if aa.len() != bb.len() {
        return false;
    }
    let mut diff: u8 = 0;
    let mut i: usize = 0;
    while i < aa.len()
        invariant
            aa@.len() == bb@.len(),
            i <= aa@.len(),
            diff == 0 <==> (forall|k: int| 0 <= k < i ==> aa@[k] == bb@[k]),
        decreases aa@.len() - i,
    {
        let x = aa[i];
        let y = bb[i];
        proof {
            assert((diff | (x ^ y)) == 0 <==> (diff == 0 && x == y)) by (bit_vector);
        }
        diff = diff | (x ^ y);
        i = i + 1;
    }
    proof {
        if diff == 0 {
            assert(aa@ =~= bb@);
        }
    }
    diff == 0
}

/// Mints a token for `logical` with the ring's current key. The caller supplies
/// issue and expiry times.
///
/// A cursor whose free-form values are plain verifies with the same ring in
/// every context it meets, at every time in its window.
pub fn mint(logical: &CursorLogical, ring: &CursorKeyRing) -> (r: Result<Continuation, Error>)
    ensures
        r is Ok,
        r->Ok_0.token@ == minted(logical@, ring@),
        cursor_plain(logical@) ==> forall|ctx: VerifyContextView, now: u64|
            time_fence(logical@, now) is None && binding_fence(logical@, ctx) is None
                ==> #[trigger] verified(r->Ok_0.token@, ctx, ring@, now) == Ok::<
                CursorView,
                ErrorView,
            >(minted_body(logical@, ring@)),
{
    let mut body = logical.clone();
    body.key_id = ring.current.key_id.clone();
    if !same_text(body.cursor_profile.as_str(), PROFILE) {
        body.cursor_profile = PROFILE.to_string();
    }
    proof {
        assert(body@ =~= minted_body(logical@, ring@));
    }
    let mac = body.mac_hex(&ring.current.secret);
    let json = body.to_token_json(mac.as_str());
    let text = write_json(&json);
    let token = bytes_of(&text);
    proof {
        if cursor_plain(logical@) {
            lemma_cursor_plain(body@);
            lemma_plain_member(cursor_members(body@), "mac"@, JsonView::Text(mac@), 127);
            assert(reads_as(token@, minted_json(logical@, ring@)));
            assert forall|ctx: VerifyContextView, now: u64|
                time_fence(logical@, now) is None && binding_fence(
                    logical@,
                    ctx,
                ) is None implies #[trigger] verified(token@, ctx, ring@, now) == Ok::<
                CursorView,
                ErrorView,
            >(minted_body(logical@, ring@)) by {
                law_minted_token_verifies(logical@, ring@, ctx, now);
            }
        }
    }
    Ok(Continuation { token })
}

/// A cursor issued at `now`, with the usual lifetime.
pub open spec fn stamped(c: CursorView, now: u64) -> CursorView {
    CursorView { issued_at: now, expires_at: capped_add(now, TTL_SECONDS), ..c }
}

/// Mints a token issued at `now`.
pub fn mint_at(logical: &CursorLogical, ring: &CursorKeyRing, now: u64) -> (r: Result<
    Continuation,
    Error,
>)
    ensures
        r is Ok,
        r->Ok_0.token@ == minted(stamped(logical@, now), ring@),
{
    let mut body = logical.clone();
    body.issued_at = now;
    body.expires_at = now.saturating_add(TTL_SECONDS);
    proof {
        assert(body@ =~= stamped(logical@, now));
    }
    mint(&body, ring)
}

/// `std::time::SystemTime::now`: seconds since the Unix epoch, or the message
/// of a clock before it.
#[verifier::external_body]
fn unix_now() -> Result<u64, String> {
    std::time::SystemTime::now().duration_since(std::time::UNIX_EPOCH).map(|d| d.as_secs()).map_err(
        |e| e.to_string(),
    )
}

/// Mints a token issued now.
pub fn mint_now(logical: &CursorLogical, ring: &CursorKeyRing) -> (r: Result<Continuation, Error>)
    ensures
        match r {
            Ok(c) => exists|now: u64| c.token@ == #[trigger] minted(stamped(logical@, now), ring@),
            Err(e) => exists|text: Seq<char>| e@ == ErrorView::Internal(#[trigger] ("clock: "@ + text)),
        },
{
    match unix_now() {
        Ok(now) => mint_at(logical, ring, now),
        Err(e) => {
            proof {
                assert("clock: "@ + e@ == "clock: "@ + e@);
            }
            Err(Error::Internal(cat2("clock: ", e.as_str())))
        },
    }
}

/// Verifies a token whose text was read, against a context and a ring.
pub fn verify_read(
    read: Result<Json, String>,
    ctx: &VerifyContext,
    ring: &CursorKeyRing,
    now_unix: u64,
) -> (r: Result<CursorLogical, Error>)
    ensures
        outcome(r) == verified_read(
            match read {
                Ok(v) => Ok(v@),
                Err(e) => Err(e@),
            },
            ctx@,
            ring@,
            now_unix,
        ),
{
    let v = match read {
        Ok(v) => v,
        Err(e) => {
            return Err(Error::ConsistencyViolation(cat2("cursor parse: ", e.as_str())));
        },
    };
    let mac = match v.get("mac") {
        Some(Json::Text(s)) => s.clone(),
        _ => {
            return Err(Error::ConsistencyViolation("cursor missing mac".to_string()));
        },
    };
    let logical = CursorLogical::from_json(&v)?;
    if now_unix.saturating_add(SKEW_SECONDS) < logical.issued_at {
        return Err(
            Error::ConsistencyViolation(
                "cursor issued_at is in the future beyond skew".to_string(),
            ),
        );
    }
    if now_unix > logical.issued_at.saturating_add(MAX_ACCEPT_AGE_SECONDS) {
        return Err(Error::ConsistencyViolation("cursor exceeded max accept age".to_string()));
    }
    if now_unix > logical.expires_at.saturating_add(SKEW_SECONDS) {
        return Err(Error::ConsistencyViolation("cursor expired".to_string()));
    }
    if !same_text(logical.heap_id.as_str(), ctx.heap_id.as_str()) {
        return Err(Error::ConsistencyViolation("cursor heap_id mismatch".to_string()));
    }
    if !same_text(logical.collection_id.as_str(), ctx.collection_id.as_str()) {
        return Err(Error::ConsistencyViolation("cursor collection_id mismatch".to_string()));
    }
    if let Some(want) = &ctx.plan_hash {
        if !same_text(logical.plan_hash.as_str(), want.as_str()) {
            return Err(Error::ConsistencyViolation("cursor plan_hash mismatch".to_string()));
        }
    }
    if let Some(want) = &ctx.parameter_hash {
        if !same_text(logical.parameter_hash.as_str(), want.as_str()) {
            return Err(Error::ConsistencyViolation("cursor parameter_hash mismatch".to_string()));
        }
    }
    match ring.lookup(logical.key_id.as_str()) {
        None => Err(
            Error::ConsistencyViolation(cat2("cursor unknown key_id ", logical.key_id.as_str())),
        ),
        Some(key) => {
            let expect = logical.mac_hex(&key.secret);
            if constant_time_eq_hex(expect.as_str(), mac.as_str()) {
                Ok(logical)
            } else {
                Err(Error::ConsistencyViolation("cursor mac invalid".to_string()))
            }
        },
    }
}

/// Verifies a token against a context and a ring: profile, age, heap and
/// collection binding, plan and parameter hashes where asked for, and MAC.
pub fn verify(token: &[u8], ctx: &VerifyContext, ring: &CursorKeyRing, now_unix: u64) -> (r: Result<
    CursorLogical,
    Error,
>)
    ensures
        outcome(r) == verified(token@, ctx@, ring@, now_unix),
{
    verify_read(read_json(token), ctx, ring, now_unix)
}

} // verus!
