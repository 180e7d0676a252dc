//! What the caches promise: what is found was put there under that key and
//! version, and what is given up is the oldest and no more than must be.
use crate::decoded_cache::{
    cached, cached_projection, field_values, projected_bound, with_document, with_projection,
    CacheView, DocumentKey, Projection,
};
use crate::json::JsonView;
use crate::predicate::resolve;
use crate::shelf::{admitted, evicted, live, Held, Shelf};
use crate::text::pieces;
use vstd::prelude::*;

verus! {

/// A key was given up with the first places of the queue.
spec fn given_up<K, P>(s: Shelf<K, P>, n: int, k: K) -> bool {
    exists|i: int| 0 <= i < n && #[trigger] s.order[i] == (k, s.entries[k].version)
}

proof fn lemma_evicted_oldest<K, P>(s: Shelf<K, P>, max: nat) -> (n: int)
    ensures
        0 <= n <= s.order.len(),
        evicted(s, max).order == s.order.skip(n),
        forall|k: K| #[trigger]
            evicted(s, max).entries.contains_key(k) <==> s.entries.contains_key(k) && !given_up(
                s,
                n,
                k,
            ),
        forall|k: K| #[trigger]
            evicted(s, max).entries.contains_key(k) ==> evicted(s, max).entries[k] == s.entries[k],
        s.resident <= max ==> evicted(s, max) == s && n == 0,
    decreases s.order.len(),
{
    if s.resident > max && s.order.len() > 0 {
        let rest = Shelf { order: s.order.drop_first(), ..s };
        let next = if live(s.entries, s.order[0]) {
            crate::shelf::without(rest, s.order[0].0)
        } else {
            rest
        };
        let m = lemma_evicted_oldest(next, max);
        let n = m + 1;
        assert(next.order =~= s.order.skip(1));
        assert(next.order.skip(m) =~= s.order.skip(n));
        assert forall|k: K| #[trigger]
            evicted(s, max).entries.contains_key(k) <==> s.entries.contains_key(k) && !given_up(
                s,
                n,
                k,
            ) by {
            if s.entries.contains_key(k) {
                let item = (k, s.entries[k].version);
                if s.order[0] == item {
                    assert(live(s.entries, s.order[0]));
                    assert(!next.entries.contains_key(k));
                    assert(given_up(s, n, k));
                } else {
                    if live(s.entries, s.order[0]) && s.order[0].0 == k {
                        assert(s.order[0] == item);
                    }
                    assert(next.entries.contains_key(k));
                    assert(next.entries[k] == s.entries[k]);
                    if given_up(s, n, k) {
                        let i = choose|i: int| 0 <= i < n && #[trigger] s.order[i] == item;
                        assert(next.order[i - 1] == item);
                        assert(given_up(next, m, k));
                    }
                    if given_up(next, m, k) {
                        let i = choose|i: int| 0 <= i < m && #[trigger] next.order[i] == item;
                        assert(s.order[i + 1] == item);
                    }
                }
            }
        }
        n
    } else {
        assert(s.order.skip(0) =~= s.order);
        0
    }
}

/// What a shelf gives up is the front of its queue: it drops a number of places
/// there, and with them the entries that still stand under them, and keeps all
/// others as they are. It drops nothing where the charge is within the bound.
pub proof fn law_oldest_entries_are_given_up<K, P>(s: Shelf<K, P>, max: nat)
    ensures
        exists|n: int|
            {
                &&& 0 <= n <= s.order.len()
                &&& evicted(s, max).order == #[trigger] s.order.skip(n)
                &&& forall|k: K| #[trigger]
                    evicted(s, max).entries.contains_key(k) <==> s.entries.contains_key(k)
                        && !s.order.take(n).contains((k, s.entries[k].version))
            },
        forall|k: K| #[trigger]
            evicted(s, max).entries.contains_key(k) ==> s.entries.contains_key(k) && evicted(
                s,
                max,
            ).entries[k] == s.entries[k],
        s.resident <= max ==> evicted(s, max) == s,
{
    let n = lemma_evicted_oldest(s, max);
    assert forall|k: K| #[trigger]
        evicted(s, max).entries.contains_key(k) <==> s.entries.contains_key(k) && !s.order.take(
            n,
        ).contains((k, s.entries[k].version)) by {
        let item = (k, s.entries[k].version);
        if given_up(s, n, k) {
            let i = choose|i: int| 0 <= i < n && #[trigger] s.order[i] == item;
            assert(s.order.take(n)[i] == item);
        }
        if s.order.take(n).contains(item) {
            let i = choose|i: int| 0 <= i < n && s.order.take(n)[i] == item;
            assert(s.order[i] == item);
        }
    }
    assert(evicted(s, max).order == s.order.skip(n));
}

/// An entry that is put on a shelf takes the place of the one under its key and
/// changes no other: each other one stays as it is or is given up. Where all
/// fits, none is given up. An entry too large for the shelf is not taken.
pub proof fn law_admission_changes_one_entry<K, P>(
    s: Shelf<K, P>,
    key: K,
    entry: Held<P>,
    max: nat,
    other: K,
)
    ensures
        admitted(s, key, entry, max).entries.contains_key(other) && other != key
            ==> s.entries.contains_key(other) && admitted(s, key, entry, max).entries[other]
            == s.entries[other],
        admitted(s, key, entry, max).entries.contains_key(key) ==> admitted(
            s,
            key,
            entry,
            max,
        ).entries[key] == entry,
        entry.charge > max ==> !admitted(s, key, entry, max).entries.contains_key(key),
        entry.charge > max && other != key && s.entries.contains_key(other) ==> admitted(
            s,
            key,
            entry,
            max,
        ).entries.contains_key(other),
        s.resident + entry.charge <= max && max <= usize::MAX ==> admitted(
            s,
            key,
            entry,
            max,
        ).entries.contains_key(key) && (s.entries.contains_key(other) ==> admitted(
            s,
            key,
            entry,
            max,
        ).entries.contains_key(other)),
{
    let cleared = crate::shelf::without(s, key);
    let entries = cleared.entries.insert(key, entry);
    let full = Shelf {
        entries,
        order: crate::shelf::compacted(entries, cleared.order.push((key, entry.version))),
        resident: crate::shelf::clipped(cleared.resident + entry.charge),
    };
    law_oldest_entries_are_given_up(full, max);
}

/// A document is found only under the key and the version that it was put
/// under. Putting one leaves what is found under every other key, but for what
/// is given up for it.
pub proof fn law_document_is_found_under_its_version(
    c: CacheView,
    key: DocumentKey,
    version: Seq<u8>,
    value: JsonView,
    encoded_len: usize,
    other: DocumentKey,
    asked: Seq<u8>,
)
    ensures
        ({
            let after = with_document(c, key, version, value, encoded_len);
            &&& other != key && cached(after, other, asked) is Some ==> cached(after, other, asked)
                == cached(c, other, asked)
            &&& asked != version && cached(c, key, version) is None ==> cached(after, key, asked)
                is None
            &&& cached(c, key, version) is None && cached(after, key, version) is Some ==> (cached(
                after,
                key,
                version,
            )->0).0 == value
            &&& cached(c, key, version) is Some ==> after == c
            &&& after.projections == c.projections
            &&& after.max == c.max
        }),
        cached(c, key, version) is Some ==> c.documents.entries.contains_key(key)
            && c.documents.entries[key].version == version && cached(c, key, version)
            == Some(c.documents.entries[key].payload),
{
    if !live(c.documents.entries, (key, version)) {
        let entry = Held {
            version,
            charge: crate::decoded_cache::document_charge(encoded_len, key.key),
            payload: (value, crate::shelf::less(encoded_len as nat, 1) as u64),
        };
        law_admission_changes_one_entry(c.documents, key, entry, c.max as nat, other);
        law_admission_changes_one_entry(c.documents, key, entry, c.max as nat, key);
    }
}

/// A projection is found only for the fields, the key and the version that it
/// was made for.
pub proof fn law_projection_is_found_for_its_fields(
    c: CacheView,
    key: (DocumentKey, Seq<u8>),
    version: Seq<u8>,
    payload: Projection,
    value_charge: usize,
    other: (DocumentKey, Seq<u8>),
    asked: Seq<u8>,
    fields: Seq<Seq<char>>,
)
    ensures
        cached_projection(c, key, version, fields) is Some ==> cached_projection(
            c,
            key,
            version,
            fields,
        )->0.fields == fields && c.projections.entries[key].version == version,
        ({
            let after = with_projection(c, key, version, payload, value_charge);
            &&& other != key && cached_projection(after, other, asked, fields) is Some
                ==> cached_projection(after, other, asked, fields) == cached_projection(
                c,
                other,
                asked,
                fields,
            )
            &&& cached_projection(c, key, version, payload.fields) is None && cached_projection(
                after,
                key,
                version,
                payload.fields,
            ) is Some ==> cached_projection(after, key, version, payload.fields) == Some(payload)
            &&& after.documents == c.documents
        }),
        projected_bound(c.max) >= 1,
        c.max >= 4 ==> 4 * projected_bound(c.max) <= c.max,
{
    if cached_projection(c, key, version, payload.fields) is None {
        let entry = Held {
            version,
            charge: crate::decoded_cache::projection_charge(value_charge, key.0.key),
            payload,
        };
        let max = projected_bound(c.max) as nat;
        law_admission_changes_one_entry(c.projections, key, entry, max, other);
        law_admission_changes_one_entry(c.projections, key, entry, max, key);
    }
}

/// The values of a projection are those that the paths of its fields lead to,
/// in the order of the fields, and `null` where one leads nowhere.
pub proof fn law_projection_holds_the_values_of_its_fields(
    value: JsonView,
    fields: Seq<Seq<char>>,
    i: int,
)
    requires
        0 <= i < fields.len(),
    ensures
        field_values(value, fields).len() == fields.len(),
        resolve(value, pieces(fields[i], '.')) is Some ==> Some(field_values(value, fields)[i])
            == resolve(value, pieces(fields[i], '.')),
        resolve(value, pieces(fields[i], '.')) is None ==> field_values(value, fields)[i] is Null,
{
}

} // verus!
