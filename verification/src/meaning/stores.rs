//! What the calls on heaps, indexes and dialects promise: what a write carries,
//! what a read gives, what an index is keyed by, what a narrowed join matches
//! and which language a text is read in.
use crate::app_client::{asked, CallView, OperationView};
use crate::app_v1::Backend;
use crate::decoded_cache::{cached, observed, CacheView, DocumentKey};
use crate::dialects::{dialect_of, BuiltinDialect, SdaParse};
use crate::error::ErrorView;
use crate::filter::{field_value, filter_in, filter_lowered, filter_matches, FilterView};
use crate::heap::WriteCondition;
use crate::heap_calls::{delete_asked, put_asked, read_through};
use crate::indexes::{doc_key, key_bytes, values_of};
use crate::json::JsonView;
use crate::json_text::{json_read, json_text};
use crate::meaning::joins::{distinct_aliases, law_aliases_are_distinct};
use crate::meaning::law_filters_combine;
use crate::meaning::reads::{law_cache_keeps_telling_the_truth, true_cache, Store};
use crate::multi_query::{narrowed, query_refused, refused_source, MultiQueryView, SourceView};
use crate::text::{lowered, trimmed};
use vstd::prelude::*;

verus! {

/// A put carries the collection, the key, the body and the condition that it
/// was asked with, and is refused exactly where the body does not encode or
/// the key is not valid.
pub proof fn law_put_carries_what_was_asked(
    collection_id: [u8; 16],
    key: Seq<char>,
    body: Result<Seq<u8>, ErrorView>,
    valid: Result<(), ErrorView>,
    condition: WriteCondition,
)
    ensures
        ({
            let r = put_asked(collection_id, key, body, valid, condition);
            &&& r is Ok <==> body is Ok && valid is Ok
            &&& r is Ok ==> r->Ok_0.collection_id == collection_id && r->Ok_0.key == key
                && r->Ok_0.body == body->Ok_0 && r->Ok_0.condition == condition
            &&& body is Err ==> r->Err_0 == body->Err_0
            &&& body is Ok && valid is Err ==> r->Err_0 == valid->Err_0
        }),
{
}

/// A delete carries the collection, the key and the condition that it was asked
/// with. It has to look first only where the condition does not say that the
/// key is there.
pub proof fn law_delete_carries_what_was_asked(
    collection_id: [u8; 16],
    key: Seq<char>,
    valid: Result<(), ErrorView>,
    condition: WriteCondition,
)
    ensures
        ({
            let r = delete_asked(collection_id, key, valid, condition);
            &&& r is Ok <==> valid is Ok
            &&& r is Ok ==> r->Ok_0.collection_id == collection_id && r->Ok_0.key == key
                && r->Ok_0.condition == condition
            &&& r is Ok ==> (!r->Ok_0.observe <==> condition is Present || condition is LiveEventId)
            &&& valid is Err ==> r->Err_0 == valid->Err_0
        }),
{
}

/// A read through a cache that tells the truth gives what the store holds under
/// the key in that version, and leaves a cache that tells the truth. It fails
/// only where the cache has nothing and the body does not decode.
pub proof fn law_read_through_is_true(
    c: CacheView,
    key: DocumentKey,
    version: Seq<u8>,
    decoded: Result<JsonView, ErrorView>,
    len: usize,
    store: Store,
)
    requires
        true_cache(c, store),
        decoded is Ok ==> decoded->Ok_0 == store(key, version),
    ensures
        ({
            let (after, r) = read_through(c, key, version, decoded, len);
            &&& true_cache(after, store)
            &&& r is Ok ==> r->Ok_0 == store(key, version)
            &&& r is Err <==> cached(c, key, version) is None && decoded is Err
            &&& r is Err ==> r->Err_0 == decoded->Err_0
        }),
{
    let truth = store(key, version);
    law_cache_keeps_telling_the_truth(c, store, key, version, truth, len, true);
    law_cache_keeps_telling_the_truth(c, store, key, version, truth, len, false);
    law_cache_keeps_telling_the_truth(observed(c, false), store, key, version, truth, len, false);
    assert(cached(c, key, version) is Some ==> (cached(c, key, version)->0).0 == truth);
}

/// A document is keyed in an index by the values of the index's fields, in
/// their order, and is left out exactly where one of them is not there.
pub proof fn law_index_key_is_of_the_field_values(doc: JsonView, fields: Seq<Seq<char>>)
    ensures
        match values_of(doc, fields) {
            Some(values) => {
                &&& doc_key(doc, fields) == Some(key_bytes(values))
                &&& values.len() == fields.len()
                &&& forall|n: int|
                    0 <= n < fields.len() ==> field_value(doc, #[trigger] fields[n]) == Some(
                        values[n],
                    )
            },
            None => doc_key(doc, fields) is None && exists|n: int|
                0 <= n < fields.len() && field_value(doc, #[trigger] fields[n]) is None,
        },
    decreases fields.len(),
{
    if fields.len() > 0 {
        let shorter = fields.drop_last();
        let last = fields.len() - 1;
        law_index_key_is_of_the_field_values(doc, shorter);
        match values_of(doc, shorter) {
            Some(before) => {
                if field_value(doc, fields[last]) is Some {
                    let values = values_of(doc, fields)->0;
                    assert forall|n: int| 0 <= n < fields.len() implies field_value(
                        doc,
                        #[trigger] fields[n],
                    ) == Some(values[n]) by {
                        if n < last {
                            assert(shorter[n] == fields[n]);
                        }
                    }
                } else {
                    assert(field_value(doc, fields[last]) is None);
                }
            },
            None => {
                let n = choose|n: int|
                    0 <= n < shorter.len() && field_value(doc, #[trigger] shorter[n]) is None;
                assert(fields[n] == shorter[n]);
            },
        }
    }
}

/// The keys of an index tell apart documents that differ in one value: keys of
/// the same values but for the last are equal exactly where the last values
/// are written alike.
pub proof fn law_index_keys_tell_values_apart(values: Seq<JsonView>, a: JsonView, b: JsonView)
    ensures
        key_bytes(values.push(a)) == key_bytes(values.push(b)) <==> json_text(a) == json_text(b),
{
    let x = key_bytes(values.push(a));
    let y = key_bytes(values.push(b));
    assert(values.push(a).drop_last() =~= values);
    assert(values.push(b).drop_last() =~= values);
    let (s, t) = (vstd::utf8::encode_utf8(json_text(a)), vstd::utf8::encode_utf8(json_text(b)));
    let n: int = if values.len() == 0 {
        0
    } else {
        key_bytes(values).len() as int + 1
    };
    assert(s =~= x.skip(n));
    assert(t =~= y.skip(n));
    vstd::utf8::encode_utf8_decode_utf8(json_text(a));
    vstd::utf8::encode_utf8_decode_utf8(json_text(b));
}

/// A call goes to the backend that the client is bound to, with the operation
/// that was asked for, and nowhere where it is bound to none.
pub proof fn law_call_goes_to_its_backend(
    target: Backend,
    message: Seq<char>,
    operation: OperationView,
)
    ensures
        asked(target, message, operation) is Err <==> target == Backend::Unbound,
        target != Backend::Unbound ==> asked(target, message, operation) == Ok::<
            CallView,
            ErrorView,
        >(CallView { backend: target, operation }),
{
}

/// Narrowing a join narrows the source that was added last: its documents have
/// to match both filters. The other sources, the joins and the limit stay.
pub proof fn law_narrowing_matches_both(q: MultiQueryView, f: FilterView, doc: JsonView, s: int)
    requires
        q.sources.len() > 0,
    ensures
        ({
            let after = narrowed(q, f);
            let last = q.sources[q.sources.len() - 1];
            &&& after.sources.len() == q.sources.len()
            &&& filter_matches(after.sources[q.sources.len() - 1].filter, doc) <==> filter_matches(
                last.filter,
                doc,
            ) && filter_matches(f, doc)
            &&& after.sources[q.sources.len() - 1].alias == last.alias
            &&& after.sources[q.sources.len() - 1].collection == last.collection
            &&& 0 <= s < q.sources.len() - 1 ==> after.sources[s] == q.sources[s]
            &&& after.joins == q.joins
            &&& after.limit == q.limit
            &&& after.include_keys == q.include_keys
        }),
{
    let last = q.sources[q.sources.len() - 1];
    let parts = seq![last.filter, f];
    law_filters_combine(parts, f, doc);
    assert(filter_matches(parts[0], doc) == filter_matches(last.filter, doc));
    assert(filter_matches(parts[1], doc) == filter_matches(f, doc));
}

proof fn lemma_no_refused_source(sources: Seq<SourceView>, from: int)
    requires
        0 <= from <= sources.len(),
    ensures
        refused_source(sources, None, from) is None <==> forall|i: int|
            from <= i < sources.len() ==> (#[trigger] sources[i]).alias.len() > 0,
    decreases sources.len() - from,
{
    if from < sources.len() {
        lemma_no_refused_source(sources, from + 1);
        if refused_source(sources, None, from) is None {
            assert forall|i: int| from <= i < sources.len() implies (
            #[trigger] sources[i]).alias.len() > 0 by {}
        }
        if forall|i: int| from <= i < sources.len() ==> (#[trigger] sources[i]).alias.len() > 0 {
            assert(sources[from].alias.len() > 0);
        }
    }
}

/// Where all names are good, a join is run exactly where it has sources, one
/// join for each but the first, and aliases that are not empty and differ.
pub proof fn law_joins_are_refused_for_their_shape(q: MultiQueryView)
    ensures
        query_refused(q, None) is None <==> {
            &&& q.sources.len() > 0
            &&& q.joins.len() + 1 == q.sources.len()
            &&& forall|i: int|
                0 <= i < q.sources.len() ==> (#[trigger] q.sources[i]).alias.len() > 0
            &&& distinct_aliases(q.sources)
        },
{
    lemma_no_refused_source(q.sources, 0);
    law_aliases_are_distinct(q.sources);
}

/// A text of the JSON dialects, once read, compiles to the filter of the object
/// that it holds, for both of their names, and selects no fields.
pub proof fn law_json_dialect_reads_filter_objects(
    source: Seq<char>,
    parse: SdaParse,
    object: JsonView,
)
    requires
        trimmed(source).len() > 0,
        json_read(vstd::utf8::encode_utf8(trimmed(source))) == Ok::<JsonView, Seq<char>>(object),
        filter_in(object) is Ok,
        filter_lowered(filter_in(object)->Ok_0) is Ok,
    ensures
        ({
            let json = BuiltinDialect::Json.compiled(source, parse);
            let mongo = BuiltinDialect::Mongo.compiled(source, parse);
            &&& json is Ok && json->Ok_0 is Portable
            &&& json->Ok_0->Portable_0.filter == filter_in(object)->Ok_0
            &&& json->Ok_0->Portable_0.project is None
            &&& mongo is Ok && mongo->Ok_0 is Portable
            &&& mongo->Ok_0->Portable_0.filter == filter_in(object)->Ok_0
            &&& mongo->Ok_0->Portable_0.project is None
        }),
{
}

/// The SQL dialect compiles a text as SQL, the SDA dialect keeps a program that
/// parses as it stands, and the others refuse every text.
pub proof fn law_dialects_read_their_languages(source: Seq<char>, parse: SdaParse)
    ensures
        ({
            let sql = BuiltinDialect::Sql.compiled(source, parse);
            let compiled = crate::dialects::sql::sql_compiled(source);
            &&& sql is Ok <==> compiled is Ok
            &&& sql is Ok ==> sql->Ok_0 is Portable && sql->Ok_0->Portable_0.filter
                == compiled->Ok_0.filter && sql->Ok_0->Portable_0.project == compiled->Ok_0.project
        }),
        ({
            let sda = BuiltinDialect::Sda.compiled(source, parse);
            &&& sda is Ok <==> trimmed(source).len() > 0 && parse is Accepted
            &&& sda is Ok ==> sda->Ok_0 is Sda && sda->Ok_0->Sda_0.sda == trimmed(source)
        }),
        BuiltinDialect::Rql.compiled(source, parse) is Err,
        BuiltinDialect::Graphql.compiled(source, parse) is Err,
{
}

/// A dialect is found under its names.
pub proof fn law_dialects_are_found_by_name(name: Seq<char>)
    requires
        trimmed(name) == name,
    ensures
        lowered(name) == "sql"@ ==> dialect_of(name) == Some(BuiltinDialect::Sql),
        lowered(name) == "json"@ || lowered(name) == "filter"@ ==> dialect_of(name) == Some(
            BuiltinDialect::Json,
        ),
        lowered(name) == "mongo"@ || lowered(name) == "mongodb"@ ==> dialect_of(name) == Some(
            BuiltinDialect::Mongo,
        ),
        lowered(name) == "sda"@ ==> dialect_of(name) == Some(BuiltinDialect::Sda),
        lowered(name) == "graphql"@ || lowered(name) == "gql"@ ==> dialect_of(name) == Some(
            BuiltinDialect::Graphql,
        ),
        lowered(name) == "rql"@ ==> dialect_of(name) == Some(BuiltinDialect::Rql),
{
    reveal_strlit("sda");
    reveal_strlit("rql");
    reveal_strlit("sql");
    reveal_strlit("gql");
    reveal_strlit("json");
    reveal_strlit("json-filter");
    reveal_strlit("filter");
    reveal_strlit("mongo");
    reveal_strlit("mongodb");
    reveal_strlit("graphql");
    assert("sda"@.len() == 3 && "rql"@.len() == 3 && "sql"@.len() == 3 && "gql"@.len() == 3);
    assert("json"@.len() == 4 && "json-filter"@.len() == 11 && "filter"@.len() == 6);
    assert("mongo"@.len() == 5 && "mongodb"@.len() == 7 && "graphql"@.len() == 7);
    assert("sda"@[0] == 's' && "sda"@[1] == 'd' && "sql"@[1] == 'q' && "sql"@[0] == 's');
    assert("rql"@[0] == 'r' && "gql"@[0] == 'g');
    assert("mongodb"@[0] == 'm' && "graphql"@[0] == 'g');
}

} // verus!
