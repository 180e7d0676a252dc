//! What the mutations of the driver carry, stated on the options that they
//! were asked with.
//!
//! A put, a create, a replace and a delete each hand the scheduler the key and
//! the body that they were given, and the condition that their name and their
//! options promise. What is hashed of two mutations is the same exactly where
//! they ask for the same thing.
use crate::app_v1::{CollectionId, HeapId};
use crate::digest::blake3_digest;
use crate::driver::{
    condition_bytes, delete_condition, frames, law_hashed_fields_are_told_apart,
    local_error, mutation_fields, prepared, write_prepared, zero_id, CreateOptions, DeleteOptions,
    Error, ErrorClass, ErrorCode, Mutation, OperationContext, PutOptions, ReplaceOptions,
    CREATE_DOMAIN, REPLACE_DOMAIN,
};
use crate::heap::WriteCondition;
use vstd::prelude::*;

verus! {

/// What a put gives.
pub open spec fn put_given(
    r: Result<Mutation, Error>,
    heap_id: HeapId,
    collection_id: CollectionId,
    key: String,
    encoded: Result<Vec<u8>, String>,
    options: PutOptions,
) -> bool {
    write_prepared(
        r,
        heap_id,
        collection_id,
        key,
        encoded,
        WriteCondition::Unconditional,
        options.context,
        "put-v1"@,
        Seq::empty(),
    )
}

/// What a create gives.
pub open spec fn create_given(
    r: Result<Mutation, Error>,
    heap_id: HeapId,
    collection_id: CollectionId,
    key: String,
    encoded: Result<Vec<u8>, String>,
    options: CreateOptions,
) -> bool {
    write_prepared(
        r,
        heap_id,
        collection_id,
        key,
        encoded,
        WriteCondition::Absent,
        options.context,
        CREATE_DOMAIN@,
        seq![condition_bytes(WriteCondition::Absent)],
    )
}

/// What a replace gives.
pub open spec fn replace_given(
    r: Result<Mutation, Error>,
    heap_id: HeapId,
    collection_id: CollectionId,
    key: String,
    encoded: Result<Vec<u8>, String>,
    options: ReplaceOptions,
) -> bool {
    write_prepared(
        r,
        heap_id,
        collection_id,
        key,
        encoded,
        WriteCondition::LiveEventId(options.if_version),
        options.context,
        REPLACE_DOMAIN@,
        seq![condition_bytes(WriteCondition::LiveEventId(options.if_version))],
    )
}

/// What a delete gives.
pub open spec fn delete_given(
    r: Result<Mutation, Error>,
    heap_id: HeapId,
    collection_id: CollectionId,
    key: String,
    options: DeleteOptions,
) -> bool {
    if !options.if_present {
        r is Err && r->Err_0@ == local_error(
            ErrorCode::Validation,
            ErrorClass::Request,
            "embedded v1 requires delete if_present=true for replay-stable receipts"@,
        )
    } else {
        prepared(
            r,
            heap_id,
            collection_id,
            key,
            None,
            delete_condition(options.if_version),
            options.context,
            "delete-present-v1"@,
            seq![condition_bytes(delete_condition(options.if_version))],
        )
    }
}

/// A mutation carries the deadline and the identities of its context: those
/// that were given as they are, and none of zeros.
pub open spec fn carries(m: Mutation, context: OperationContext) -> bool {
    &&& m.deadline == context.deadline
    &&& m.request_id.0@ != Seq::new(16, |i: int| 0u8)
    &&& m.operation_id.0@ != Seq::new(16, |i: int| 0u8)
    &&& context.request_id is Some ==> m.request_id == context.request_id->0
    &&& context.operation_id is Some ==> m.operation_id == context.operation_id->0
}

/// Both identities of a context were given, and neither is of zeros.
pub open spec fn identified(context: OperationContext) -> bool {
    &&& context.request_id is Some
    &&& context.operation_id is Some
    &&& (context.request_id->0).0@ != Seq::new(16, |i: int| 0u8)
    &&& (context.operation_id->0).0@ != Seq::new(16, |i: int| 0u8)
}

/// An identity of zeros was given.
pub open spec fn misidentified(context: OperationContext) -> bool {
    ||| context.request_id is Some && (context.request_id->0).0@ == Seq::new(16, |i: int| 0u8)
    ||| context.operation_id is Some && (context.operation_id->0).0@ == Seq::new(16, |i: int| 0u8)
}

/// The content hash of a mutation is that of these bytes.
pub open spec fn hashed_from(m: Mutation, input: Seq<u8>) -> bool {
    m.content_hash@ == blake3_digest(input)
}

/// Two mutations hash the same bytes exactly where `same` holds.
pub open spec fn hash_alike(a: Mutation, b: Mutation, same: bool) -> bool {
    exists|x: Seq<u8>, y: Seq<u8>|
        #[trigger] hashed_from(a, x) && #[trigger] hashed_from(b, y) && (x == y <==> same)
}

/// Keys whose encoding has a length that eight bytes hold.
pub open spec fn short_key(key: String) -> bool {
    vstd::utf8::encode_utf8(key@).len() <= u64::MAX
}

proof fn lemma_zero_id()
    ensures
        zero_id() == Seq::new(16, |i: int| 0u8),
{
    assert(zero_id() =~= Seq::new(16, |i: int| 0u8));
}

/// A delete with a version demands that this version be live, and one without
/// demands that the key be there. It names the key that it was given and has
/// no body. It is refused where the key need not be there, and given wherever
/// its identities stand.
pub proof fn law_delete_demands_its_version(
    r: Result<Mutation, Error>,
    heap_id: HeapId,
    collection_id: CollectionId,
    key: String,
    options: DeleteOptions,
)
    requires
        delete_given(r, heap_id, collection_id, key, options),
    ensures
        r is Ok ==> {
            let m = r->Ok_0;
            &&& options.if_present
            &&& options.if_version is Some ==> m.condition == WriteCondition::LiveEventId(
                options.if_version->0,
            )
            &&& options.if_version is None ==> m.condition == WriteCondition::Present
            &&& m.key == key
            &&& m.body is None
            &&& carries(m, options.context)
        },
        options.if_present && identified(options.context) ==> r is Ok,
        misidentified(options.context) ==> r is Err,
{
    lemma_zero_id();
}

/// A put writes the body under the key whatever stands there.
pub proof fn law_put_demands_nothing(
    r: Result<Mutation, Error>,
    heap_id: HeapId,
    collection_id: CollectionId,
    key: String,
    encoded: Result<Vec<u8>, String>,
    options: PutOptions,
)
    requires
        put_given(r, heap_id, collection_id, key, encoded, options),
    ensures
        r is Ok ==> {
            let m = r->Ok_0;
            &&& m.condition == WriteCondition::Unconditional
            &&& m.key == key
            &&& encoded is Ok && m.body == Some(encoded->Ok_0)
            &&& carries(m, options.context)
        },
        encoded is Ok && identified(options.context) ==> r is Ok,
        encoded is Err || misidentified(options.context) ==> r is Err,
{
    lemma_zero_id();
}

/// A create writes the body under the key where nothing stands there.
pub proof fn law_create_demands_absence(
    r: Result<Mutation, Error>,
    heap_id: HeapId,
    collection_id: CollectionId,
    key: String,
    encoded: Result<Vec<u8>, String>,
    options: CreateOptions,
)
    requires
        create_given(r, heap_id, collection_id, key, encoded, options),
    ensures
        r is Ok ==> {
            let m = r->Ok_0;
            &&& m.condition == WriteCondition::Absent
            &&& m.key == key
            &&& encoded is Ok && m.body == Some(encoded->Ok_0)
            &&& carries(m, options.context)
        },
        encoded is Ok && identified(options.context) ==> r is Ok,
        encoded is Err || misidentified(options.context) ==> r is Err,
{
    lemma_zero_id();
}

/// A replace writes the body under the key where the version of its options is
/// live.
pub proof fn law_replace_demands_its_version(
    r: Result<Mutation, Error>,
    heap_id: HeapId,
    collection_id: CollectionId,
    key: String,
    encoded: Result<Vec<u8>, String>,
    options: ReplaceOptions,
)
    requires
        replace_given(r, heap_id, collection_id, key, encoded, options),
    ensures
        r is Ok ==> {
            let m = r->Ok_0;
            &&& m.condition == WriteCondition::LiveEventId(options.if_version)
            &&& m.key == key
            &&& encoded is Ok && m.body == Some(encoded->Ok_0)
            &&& carries(m, options.context)
        },
        encoded is Ok && identified(options.context) ==> r is Ok,
        encoded is Err || misidentified(options.context) ==> r is Err,
{
    lemma_zero_id();
}

/// Two conditions ask for the same thing.
pub open spec fn same_condition(a: WriteCondition, b: WriteCondition) -> bool {
    match (a, b) {
        (WriteCondition::Unconditional, WriteCondition::Unconditional) => true,
        (WriteCondition::Absent, WriteCondition::Absent) => true,
        (WriteCondition::Present, WriteCondition::Present) => true,
        (WriteCondition::LiveEventId(v), WriteCondition::LiveEventId(w)) => v@ == w@,
        _ => false,
    }
}

proof fn lemma_lengths()
    ensures
        vstd::utf8::encode_utf8("unconditional"@).len() == 13,
        vstd::utf8::encode_utf8("absent"@).len() == 6,
        vstd::utf8::encode_utf8("present"@).len() == 7,
        vstd::utf8::encode_utf8("live-event-id:"@).len() == 14,
        vstd::utf8::encode_utf8("put-v1"@).len() == 6,
        vstd::utf8::encode_utf8(CREATE_DOMAIN@).len() == 16,
        vstd::utf8::encode_utf8(REPLACE_DOMAIN@).len() == 18,
        vstd::utf8::encode_utf8("delete-present-v1"@).len() == 17,
{
    reveal_strlit("unconditional");
    reveal_strlit("absent");
    reveal_strlit("present");
    reveal_strlit("live-event-id:");
    reveal_strlit("put-v1");
    reveal_strlit("create-absent-v1");
    reveal_strlit("replace-version-v1");
    reveal_strlit("delete-present-v1");
    vstd::utf8::is_ascii_chars_encode_utf8("unconditional"@);
    vstd::utf8::is_ascii_chars_encode_utf8("absent"@);
    vstd::utf8::is_ascii_chars_encode_utf8("present"@);
    vstd::utf8::is_ascii_chars_encode_utf8("live-event-id:"@);
    vstd::utf8::is_ascii_chars_encode_utf8("put-v1"@);
    vstd::utf8::is_ascii_chars_encode_utf8("create-absent-v1"@);
    vstd::utf8::is_ascii_chars_encode_utf8("replace-version-v1"@);
    vstd::utf8::is_ascii_chars_encode_utf8("delete-present-v1"@);
}

/// The bytes of conditions tell apart every two that ask for different things.
pub proof fn law_condition_bytes_tell_apart(a: WriteCondition, b: WriteCondition)
    ensures
        condition_bytes(a) == condition_bytes(b) <==> same_condition(a, b),
{
    lemma_lengths();
    match (a, b) {
        (WriteCondition::LiveEventId(v), WriteCondition::LiveEventId(w)) => {
            if condition_bytes(a) == condition_bytes(b) {
                assert(v@ =~= condition_bytes(a).skip(14));
                assert(w@ =~= condition_bytes(b).skip(14));
            }
        },
        _ => {},
    }
}

proof fn lemma_same_key(a: String, b: String)
    ensures
        vstd::utf8::encode_utf8(a@) == vstd::utf8::encode_utf8(b@) <==> a@ == b@,
{
    vstd::utf8::encode_utf8_decode_utf8(a@);
    vstd::utf8::encode_utf8_decode_utf8(b@);
}

/// What the hash of a mutation of a kind covers.
spec fn input_of(
    domain: Seq<char>,
    heap_id: HeapId,
    collection_id: CollectionId,
    key: String,
    fields: Seq<Seq<u8>>,
) -> Seq<u8> {
    frames(
        mutation_fields(
            vstd::utf8::encode_utf8(domain),
            heap_id.0@,
            collection_id.0@,
            vstd::utf8::encode_utf8(key@),
            fields,
        ),
    )
}

/// Fields whose lengths eight bytes hold.
spec fn short_fields(fields: Seq<Seq<u8>>) -> bool {
    forall|i: int| 0 <= i < fields.len() ==> (#[trigger] fields[i]).len() <= u64::MAX
}

proof fn lemma_inputs(
    domain1: Seq<char>,
    heap1: HeapId,
    collection1: CollectionId,
    key1: String,
    fields1: Seq<Seq<u8>>,
    domain2: Seq<char>,
    heap2: HeapId,
    collection2: CollectionId,
    key2: String,
    fields2: Seq<Seq<u8>>,
)
    requires
        vstd::utf8::encode_utf8(domain1).len() <= u64::MAX,
        vstd::utf8::encode_utf8(domain2).len() <= u64::MAX,
        short_key(key1),
        short_key(key2),
        short_fields(fields1),
        short_fields(fields2),
    ensures
        input_of(domain1, heap1, collection1, key1, fields1) == input_of(
            domain2,
            heap2,
            collection2,
            key2,
            fields2,
        ) <==> (domain1 == domain2 && heap1.0@ == heap2.0@ && collection1.0@ == collection2.0@
            && key1@ == key2@ && fields1 == fields2),
{
    lemma_same_key(key1, key2);
    vstd::utf8::encode_utf8_decode_utf8(domain1);
    vstd::utf8::encode_utf8_decode_utf8(domain2);
    if input_of(domain1, heap1, collection1, key1, fields1) == input_of(
        domain2,
        heap2,
        collection2,
        key2,
        fields2,
    ) {
        law_hashed_fields_are_told_apart(
            vstd::utf8::encode_utf8(domain1),
            heap1.0@,
            collection1.0@,
            vstd::utf8::encode_utf8(key1@),
            fields1,
            vstd::utf8::encode_utf8(domain2),
            heap2.0@,
            collection2.0@,
            vstd::utf8::encode_utf8(key2@),
            fields2,
        );
    }
}

/// Versions ask for the same thing: none both times, or the same one.
pub open spec fn same_version(a: Option<[u8; 16]>, b: Option<[u8; 16]>) -> bool {
    match (a, b) {
        (Some(v), Some(w)) => v@ == w@,
        (None, None) => true,
        _ => false,
    }
}

/// Two deletes hash the same bytes exactly where they name the same key of the
/// same collection and demand the same version. So two that differ only in the
/// version hash different bytes.
pub proof fn law_deletes_are_told_apart(
    a: Result<Mutation, Error>,
    heap1: HeapId,
    collection1: CollectionId,
    key1: String,
    options1: DeleteOptions,
    b: Result<Mutation, Error>,
    heap2: HeapId,
    collection2: CollectionId,
    key2: String,
    options2: DeleteOptions,
)
    requires
        delete_given(a, heap1, collection1, key1, options1),
        delete_given(b, heap2, collection2, key2, options2),
        a is Ok && b is Ok,
        short_key(key1) && short_key(key2),
    ensures
        hash_alike(
            a->Ok_0,
            b->Ok_0,
            heap1.0@ == heap2.0@ && collection1.0@ == collection2.0@ && key1@ == key2@
                && same_version(options1.if_version, options2.if_version),
        ),
{
    lemma_lengths();
    let c1 = delete_condition(options1.if_version);
    let c2 = delete_condition(options2.if_version);
    let f1 = seq![condition_bytes(c1)];
    let f2 = seq![condition_bytes(c2)];
    law_condition_bytes_tell_apart(c1, c2);
    assert(f1 == f2 <==> condition_bytes(c1) == condition_bytes(c2)) by {
        assert(f1[0] == condition_bytes(c1) && f2[0] == condition_bytes(c2));
    }
    let domain = "delete-present-v1"@;
    lemma_inputs(domain, heap1, collection1, key1, f1, domain, heap2, collection2, key2, f2);
    assert(hashed_from(a->Ok_0, input_of(domain, heap1, collection1, key1, f1)));
    assert(hashed_from(b->Ok_0, input_of(domain, heap2, collection2, key2, f2)));
}

/// Two puts hash the same bytes exactly where they write the same body under
/// the same key of the same collection.
pub proof fn law_puts_are_told_apart(
    a: Result<Mutation, Error>,
    heap1: HeapId,
    collection1: CollectionId,
    key1: String,
    encoded1: Result<Vec<u8>, String>,
    options1: PutOptions,
    b: Result<Mutation, Error>,
    heap2: HeapId,
    collection2: CollectionId,
    key2: String,
    encoded2: Result<Vec<u8>, String>,
    options2: PutOptions,
)
    requires
        put_given(a, heap1, collection1, key1, encoded1, options1),
        put_given(b, heap2, collection2, key2, encoded2, options2),
        a is Ok && b is Ok,
        short_key(key1) && short_key(key2),
        encoded1->Ok_0@.len() <= u64::MAX && encoded2->Ok_0@.len() <= u64::MAX,
    ensures
        hash_alike(
            a->Ok_0,
            b->Ok_0,
            heap1.0@ == heap2.0@ && collection1.0@ == collection2.0@ && key1@ == key2@
                && encoded1->Ok_0@ == encoded2->Ok_0@,
        ),
{
    lemma_lengths();
    let f1 = seq![encoded1->Ok_0@] + Seq::<Seq<u8>>::empty();
    let f2 = seq![encoded2->Ok_0@] + Seq::<Seq<u8>>::empty();
    assert(f1 == f2 <==> encoded1->Ok_0@ == encoded2->Ok_0@) by {
        assert(f1[0] == encoded1->Ok_0@ && f2[0] == encoded2->Ok_0@);
    }
    let domain = "put-v1"@;
    lemma_inputs(domain, heap1, collection1, key1, f1, domain, heap2, collection2, key2, f2);
    assert(hashed_from(a->Ok_0, input_of(domain, heap1, collection1, key1, f1)));
    assert(hashed_from(b->Ok_0, input_of(domain, heap2, collection2, key2, f2)));
}

/// Two replaces hash the same bytes exactly where they write the same body
/// under the same key of the same collection over the same version.
pub proof fn law_replaces_are_told_apart(
    a: Result<Mutation, Error>,
    heap1: HeapId,
    collection1: CollectionId,
    key1: String,
    encoded1: Result<Vec<u8>, String>,
    options1: ReplaceOptions,
    b: Result<Mutation, Error>,
    heap2: HeapId,
    collection2: CollectionId,
    key2: String,
    encoded2: Result<Vec<u8>, String>,
    options2: ReplaceOptions,
)
    requires
        replace_given(a, heap1, collection1, key1, encoded1, options1),
        replace_given(b, heap2, collection2, key2, encoded2, options2),
        a is Ok && b is Ok,
        short_key(key1) && short_key(key2),
        encoded1->Ok_0@.len() <= u64::MAX && encoded2->Ok_0@.len() <= u64::MAX,
    ensures
        hash_alike(
            a->Ok_0,
            b->Ok_0,
            heap1.0@ == heap2.0@ && collection1.0@ == collection2.0@ && key1@ == key2@
                && encoded1->Ok_0@ == encoded2->Ok_0@ && options1.if_version@
                == options2.if_version@,
        ),
{
    lemma_lengths();
    let c1 = WriteCondition::LiveEventId(options1.if_version);
    let c2 = WriteCondition::LiveEventId(options2.if_version);
    let f1 = seq![encoded1->Ok_0@] + seq![condition_bytes(c1)];
    let f2 = seq![encoded2->Ok_0@] + seq![condition_bytes(c2)];
    law_condition_bytes_tell_apart(c1, c2);
    assert(f1 == f2 <==> (encoded1->Ok_0@ == encoded2->Ok_0@ && condition_bytes(c1)
        == condition_bytes(c2))) by {
        assert(f1[0] == encoded1->Ok_0@ && f2[0] == encoded2->Ok_0@);
        assert(f1[1] == condition_bytes(c1) && f2[1] == condition_bytes(c2));
    }
    let domain = REPLACE_DOMAIN@;
    lemma_inputs(domain, heap1, collection1, key1, f1, domain, heap2, collection2, key2, f2);
    assert(hashed_from(a->Ok_0, input_of(domain, heap1, collection1, key1, f1)));
    assert(hashed_from(b->Ok_0, input_of(domain, heap2, collection2, key2, f2)));
}

/// Two creates hash the same bytes exactly where they write the same body
/// under the same key of the same collection.
pub proof fn law_creates_are_told_apart(
    a: Result<Mutation, Error>,
    heap1: HeapId,
    collection1: CollectionId,
    key1: String,
    encoded1: Result<Vec<u8>, String>,
    options1: CreateOptions,
    b: Result<Mutation, Error>,
    heap2: HeapId,
    collection2: CollectionId,
    key2: String,
    encoded2: Result<Vec<u8>, String>,
    options2: CreateOptions,
)
    requires
        create_given(a, heap1, collection1, key1, encoded1, options1),
        create_given(b, heap2, collection2, key2, encoded2, options2),
        a is Ok && b is Ok,
        short_key(key1) && short_key(key2),
        encoded1->Ok_0@.len() <= u64::MAX && encoded2->Ok_0@.len() <= u64::MAX,
    ensures
        hash_alike(
            a->Ok_0,
            b->Ok_0,
            heap1.0@ == heap2.0@ && collection1.0@ == collection2.0@ && key1@ == key2@
                && encoded1->Ok_0@ == encoded2->Ok_0@,
        ),
{
    lemma_lengths();
    let bytes = condition_bytes(WriteCondition::Absent);
    let f1 = seq![encoded1->Ok_0@] + seq![bytes];
    let f2 = seq![encoded2->Ok_0@] + seq![bytes];
    assert(f1 == f2 <==> encoded1->Ok_0@ == encoded2->Ok_0@) by {
        assert(f1[0] == encoded1->Ok_0@ && f2[0] == encoded2->Ok_0@);
    }
    let domain = CREATE_DOMAIN@;
    lemma_inputs(domain, heap1, collection1, key1, f1, domain, heap2, collection2, key2, f2);
    assert(hashed_from(a->Ok_0, input_of(domain, heap1, collection1, key1, f1)));
    assert(hashed_from(b->Ok_0, input_of(domain, heap2, collection2, key2, f2)));
}

/// A put, a create, a replace and a delete never hash the same bytes, whatever
/// they are about.
pub proof fn law_kinds_are_told_apart(
    heap_id: HeapId,
    collection_id: CollectionId,
    key: String,
    encoded: Result<Vec<u8>, String>,
    put: Result<Mutation, Error>,
    put_options: PutOptions,
    create: Result<Mutation, Error>,
    create_options: CreateOptions,
    replace: Result<Mutation, Error>,
    replace_options: ReplaceOptions,
    delete: Result<Mutation, Error>,
    delete_options: DeleteOptions,
)
    requires
        put_given(put, heap_id, collection_id, key, encoded, put_options),
        create_given(create, heap_id, collection_id, key, encoded, create_options),
        replace_given(replace, heap_id, collection_id, key, encoded, replace_options),
        delete_given(delete, heap_id, collection_id, key, delete_options),
        put is Ok && create is Ok && replace is Ok && delete is Ok,
        short_key(key),
        encoded->Ok_0@.len() <= u64::MAX,
    ensures
        hash_alike(put->Ok_0, create->Ok_0, false),
        hash_alike(put->Ok_0, replace->Ok_0, false),
        hash_alike(put->Ok_0, delete->Ok_0, false),
        hash_alike(create->Ok_0, replace->Ok_0, false),
        hash_alike(create->Ok_0, delete->Ok_0, false),
        hash_alike(replace->Ok_0, delete->Ok_0, false),
{
    lemma_lengths();
    let body = encoded->Ok_0@;
    let version = WriteCondition::LiveEventId(replace_options.if_version);
    let condition = delete_condition(delete_options.if_version);
    let f1 = seq![body] + Seq::<Seq<u8>>::empty();
    let f2 = seq![body] + seq![condition_bytes(WriteCondition::Absent)];
    let f3 = seq![body] + seq![condition_bytes(version)];
    let f4 = seq![condition_bytes(condition)];
    let (d1, d2, d3, d4) = ("put-v1"@, CREATE_DOMAIN@, REPLACE_DOMAIN@, "delete-present-v1"@);
    assert(short_fields(f1) && short_fields(f2) && short_fields(f3) && short_fields(f4));
    lemma_inputs(d1, heap_id, collection_id, key, f1, d2, heap_id, collection_id, key, f2);
    lemma_inputs(d1, heap_id, collection_id, key, f1, d3, heap_id, collection_id, key, f3);
    lemma_inputs(d1, heap_id, collection_id, key, f1, d4, heap_id, collection_id, key, f4);
    lemma_inputs(d2, heap_id, collection_id, key, f2, d3, heap_id, collection_id, key, f3);
    lemma_inputs(d2, heap_id, collection_id, key, f2, d4, heap_id, collection_id, key, f4);
    lemma_inputs(d3, heap_id, collection_id, key, f3, d4, heap_id, collection_id, key, f4);
    assert(hashed_from(put->Ok_0, input_of(d1, heap_id, collection_id, key, f1)));
    assert(hashed_from(create->Ok_0, input_of(d2, heap_id, collection_id, key, f2)));
    assert(hashed_from(replace->Ok_0, input_of(d3, heap_id, collection_id, key, f3)));
    assert(hashed_from(delete->Ok_0, input_of(d4, heap_id, collection_id, key, f4)));
}

} // verus!
