//! What cursors promise: a cursor is taken only where it was issued, for what
//! it was issued, while it is fresh, and under a seal that covers all of it.
use crate::codec::{be8, hex_text, law_le8_round_trip, le8};
use crate::cursor_v1::{
    binding_fence, cursor_in, cursor_members, lemma_cursor_reads_back, mac_material, minted_body,
    minted_json, stamped, time_fence, token_json, verified_read, CursorKeyRingView, CursorKeyView,
    CursorView, VerifyContextView, PROFILE,
};
use crate::digest::{blake3_digest, blake3_keyed};
use crate::error::ErrorView;
use crate::heap::{cursor_refused, sealed_bytes, signed, HeapCap, ObjectKind, SignedCursorView};
use crate::json::{lookup, JsonView, NumberView};
use vstd::prelude::*;

verus! {

/// A cursor is issued for a context: for its heap, its collection and, where
/// they are given, its plan and its parameters.
pub open spec fn issued_for(c: CursorView, ctx: VerifyContextView) -> bool {
    &&& c.heap_id == ctx.heap_id
    &&& c.collection_id == ctx.collection_id
    &&& ctx.plan_hash is Some ==> c.plan_hash == ctx.plan_hash->0
    &&& ctx.parameter_hash is Some ==> c.parameter_hash == ctx.parameter_hash->0
}

/// A cursor is fresh: it was issued no more than two minutes ahead of the clock
/// and no more than seventeen minutes before it, and it has expired no more
/// than two minutes ago.
pub open spec fn fresh(c: CursorView, now: u64) -> bool {
    &&& c.issued_at <= now + 120
    &&& now <= c.issued_at + 1020
    &&& now <= c.expires_at + 120
}

/// A ring has a key.
pub open spec fn ring_has(ring: CursorKeyRingView, key: CursorKeyView) -> bool {
    ring.current == key || (ring.current.key_id != key.key_id && ring.previous == Some(key))
}

/// A cursor that is taken is fresh, was issued for the context, and carries the
/// seal of a key of the ring over all that it says; what it says is what
/// stands in the token.
pub proof fn law_taken_cursor_is_fresh_bound_and_sealed(
    token: JsonView,
    ctx: VerifyContextView,
    ring: CursorKeyRingView,
    now: u64,
)
    requires
        verified_read(Ok(token), ctx, ring, now) is Ok,
    ensures
        ({
            let c = verified_read(Ok(token), ctx, ring, now)->Ok_0;
            &&& fresh(c, now)
            &&& issued_for(c, ctx)
            &&& c.cursor_profile == PROFILE@
            &&& exists|key: CursorKeyView|
                {
                    &&& #[trigger] ring_has(ring, key)
                    &&& key.key_id == c.key_id
                    &&& lookup(token->Object_0, "mac"@) == Some(
                        JsonView::Text(hex_text(blake3_keyed(key.secret, mac_material(c)))),
                    )
                }
            &&& lookup(token->Object_0, "heap_id"@) == Some(JsonView::Text(c.heap_id))
            &&& lookup(token->Object_0, "collection_id"@) == Some(JsonView::Text(c.collection_id))
            &&& lookup(token->Object_0, "plan_hash"@) == Some(JsonView::Text(c.plan_hash))
            &&& lookup(token->Object_0, "parameter_hash"@) == Some(JsonView::Text(c.parameter_hash))
            &&& lookup(token->Object_0, "last_sort_tuple"@) == Some(c.last_sort_tuple)
            &&& lookup(token->Object_0, "order_normalized"@) == Some(c.order_normalized)
            &&& lookup(token->Object_0, "source_frontier"@) == Some(c.source_frontier)
            &&& lookup(token->Object_0, "issued_at"@) == Some(
                JsonView::Number(NumberView::PosInt(c.issued_at)),
            )
            &&& lookup(token->Object_0, "expires_at"@) == Some(
                JsonView::Number(NumberView::PosInt(c.expires_at)),
            )
            &&& lookup(token->Object_0, "remaining_limit"@) == Some(
                JsonView::Number(NumberView::PosInt(c.remaining_limit)),
            )
            &&& lookup(token->Object_0, "authority_epoch"@) == Some(
                JsonView::Number(NumberView::PosInt(c.authority_epoch)),
            )
        }),
{
    let c = verified_read(Ok(token), ctx, ring, now)->Ok_0;
    assert(cursor_in(token) == Ok::<CursorView, ErrorView>(c));
    let key = if ring.current.key_id == c.key_id {
        ring.current
    } else {
        ring.previous->0
    };
    assert(ring_has(ring, key));
}

/// A cursor that was minted is taken wherever it is fresh, was issued for the
/// context, and its key is still the current or the previous one of the ring.
/// It says there what it said when it was minted.
pub proof fn law_minted_cursor_is_taken_while_it_stands(
    c: CursorView,
    ring: CursorKeyRingView,
    later: CursorKeyRingView,
    ctx: VerifyContextView,
    now: u64,
)
    requires
        ring_has(later, ring.current),
    ensures
        verified_read(Ok(minted_json(c, ring)), ctx, later, now) is Ok <==> fresh(c, now)
            && issued_for(c, ctx),
        fresh(c, now) && issued_for(c, ctx) ==> verified_read(
            Ok(minted_json(c, ring)),
            ctx,
            later,
            now,
        ) == Ok::<CursorView, ErrorView>(
            CursorView { key_id: ring.current.key_id, cursor_profile: PROFILE@, ..c },
        ),
{
    let body = minted_body(c, ring);
    lemma_cursor_reads_back(body, crate::cursor_v1::cursor_mac(body, ring.current.secret));
    assert(time_fence(body, now) is None <==> fresh(c, now));
    assert(binding_fence(body, ctx) is None <==> issued_for(c, ctx));
}

/// A cursor stamped at a time lives for fifteen minutes, with two of grace, and
/// is not taken from a clock that is more than two minutes behind.
pub proof fn law_stamped_cursor_lives_its_time(c: CursorView, issued: u64, now: u64)
    requires
        issued + 1020 <= u64::MAX,
        now + 1020 <= u64::MAX,
    ensures
        time_fence(stamped(c, issued), now) is None <==> issued - 120 <= now <= issued + 1020,
        stamped(c, issued).issued_at == issued,
        stamped(c, issued).expires_at == issued + 900,
        stamped(c, issued) == (CursorView {
            issued_at: issued,
            expires_at: (issued + 900) as u64,
            ..c
        }),
{
}

/// What the seal of a cursor covers tells apart every two cursors: two that
/// differ in anything have different members under the seal.
pub proof fn law_seal_covers_the_whole_cursor(a: CursorView, b: CursorView)
    requires
        a.cursor_profile == PROFILE@,
        b.cursor_profile == PROFILE@,
    ensures
        cursor_members(a) == cursor_members(b) <==> a == b,
{
    let mac = Seq::<char>::empty();
    if cursor_members(a) == cursor_members(b) {
        lemma_cursor_reads_back(a, mac);
        lemma_cursor_reads_back(b, mac);
        assert(token_json(a, mac) == token_json(b, mac));
    }
}

/// A cursor of a heap is taken exactly where it names the capability, the heap,
/// the kind and the object that it is shown for, and its seal is the digest of
/// all of these with the position and the security revision.
pub proof fn law_heap_cursor_is_bound(
    cursor: SignedCursorView,
    cap: HeapCap,
    kind: ObjectKind,
    object_id: Seq<u8>,
)
    ensures
        cursor_refused(cursor, cap, kind, object_id) is None <==> {
            &&& cursor.capability_id == cap.capability_id@
            &&& cursor.heap_id == cap.heap_id@
            &&& cursor.object_kind == kind.code
            &&& cursor.object_id == object_id
            &&& cursor.mac == blake3_digest(
                sealed_bytes(
                    cursor.capability_id,
                    cursor.heap_id,
                    cursor.object_kind,
                    cursor.object_id,
                    cursor.position,
                    cap.security_revision,
                ),
            )
        },
        cursor_refused(cursor, cap, kind, object_id) is Some ==> cursor_refused(
            cursor,
            cap,
            kind,
            object_id,
        )->0 is PermissionDenied,
{
}

/// A signed cursor keeps the position that it was signed with.
pub proof fn law_signed_cursor_keeps_its_position(
    cap: HeapCap,
    kind: ObjectKind,
    object_id: Seq<u8>,
    position: Seq<u8>,
)
    ensures
        signed(cap, kind, object_id, position).position == position,
        signed(cap, kind, object_id, position).object_id == object_id,
        signed(cap, kind, object_id, position).heap_id == cap.heap_id@,
        signed(cap, kind, object_id, position).capability_id == cap.capability_id@,
        signed(cap, kind, object_id, position).object_kind == kind.code,
{
}

/// What the seal of a heap cursor covers tells apart cursors that differ in the
/// capability, the heap, the kind, the object, the security revision or the
/// position.
pub proof fn law_heap_seal_covers_everything(
    capability1: Seq<u8>,
    heap1: Seq<u8>,
    kind1: u8,
    object1: Seq<u8>,
    position1: Seq<u8>,
    revision1: u64,
    capability2: Seq<u8>,
    heap2: Seq<u8>,
    kind2: u8,
    object2: Seq<u8>,
    position2: Seq<u8>,
    revision2: u64,
)
    requires
        capability1.len() == 16 && capability2.len() == 16,
        heap1.len() == 16 && heap2.len() == 16,
        object1.len() == 16 && object2.len() == 16,
        sealed_bytes(capability1, heap1, kind1, object1, position1, revision1) == sealed_bytes(
            capability2,
            heap2,
            kind2,
            object2,
            position2,
            revision2,
        ),
    ensures
        capability1 == capability2,
        heap1 == heap2,
        kind1 == kind2,
        object1 == object2,
        position1 == position2,
        revision1 == revision2,
{
    let d = vstd::utf8::encode_utf8("RESIDIUUM-HEAP-CURSOR-V1"@).len() as int + 1;
    let a = sealed_bytes(capability1, heap1, kind1, object1, position1, revision1);
    let b = sealed_bytes(capability2, heap2, kind2, object2, position2, revision2);
    law_le8_round_trip(revision1);
    law_le8_round_trip(revision2);
    assert(be8(revision1).len() == 8 && be8(revision2).len() == 8);
    assert(capability1 =~= a.subrange(d, d + 16));
    assert(capability2 =~= b.subrange(d, d + 16));
    assert(heap1 =~= a.subrange(d + 16, d + 32));
    assert(heap2 =~= b.subrange(d + 16, d + 32));
    assert(a[d + 32] == kind1 && b[d + 32] == kind2);
    assert(object1 =~= a.subrange(d + 33, d + 49));
    assert(object2 =~= b.subrange(d + 33, d + 49));
    assert(be8(revision1) =~= a.subrange(d + 49, d + 57));
    assert(be8(revision2) =~= b.subrange(d + 49, d + 57));
    assert(position1 =~= a.skip(d + 57));
    assert(position2 =~= b.skip(d + 57));
    assert(le8(revision1) =~= be8(revision1).reverse());
    assert(le8(revision2) =~= be8(revision2).reverse());
}

} // verus!
