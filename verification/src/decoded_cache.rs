//! Decoded documents kept in memory, by heap, collection, key and version.
//!
//! Two caches share one bound: whole documents, and the values of a list of
//! fields. Both evict in admission order; see [`crate::shelf`] for the model.
use crate::codec::{le8, push_le8, same16};
use crate::digest::{blake3_digest, hash_bytes};
use crate::json::{models, Json, JsonView};
use crate::predicate::{find, resolve};
use crate::shelf::{
    admitted, bounded, clipped, compacted, empty_shelf, evicted, law_admission_keeps_bound,
    law_admitted_entry_is_found, less, live, still_live, without, Held, Shelf,
};
use crate::text::{pieces, same_text, split, texts};
use std::collections::VecDeque;
use std::sync::Arc;
use vstd::prelude::*;

verus! {

/// Bound of the whole-document cache where none is asked for, in bytes.
pub const DEFAULT_DECODED_JSON_CACHE_CHARGE: usize = 67_108_864;

/// Identity of a document.
#[derive(Debug, PartialEq, Eq)]
pub struct DecodedJsonKey {
    /// Heap id.
    pub heap_id: [u8; 16],
    /// Collection id.
    pub collection_id: [u8; 16],
    /// Application key.
    pub key: String,
}

/// Model of a [`DecodedJsonKey`].
#[verifier::ext_equal]
pub struct DocumentKey {
    pub heap: Seq<u8>,
    pub collection: Seq<u8>,
    pub key: Seq<char>,
}

impl View for DecodedJsonKey {
    type V = DocumentKey;

    open spec fn view(&self) -> DocumentKey {
        DocumentKey { heap: self.heap_id@, collection: self.collection_id@, key: self.key@ }
    }
}

impl Clone for DecodedJsonKey {
    fn clone(&self) -> (r: DecodedJsonKey)
        ensures
            r@ == self@,
    {
        DecodedJsonKey {
            heap_id: self.heap_id,
            collection_id: self.collection_id,
            key: self.key.clone(),
        }
    }
}

/// Identity of the projection of a document to a list of fields.
#[derive(Debug, PartialEq, Eq)]
pub struct ProjectedJsonKey {
    /// The document.
    pub document: DecodedJsonKey,
    /// Digest of the field list.
    pub fields_hash: [u8; 32],
}

impl View for ProjectedJsonKey {
    type V = (DocumentKey, Seq<u8>);

    open spec fn view(&self) -> (DocumentKey, Seq<u8>) {
        (self.document@, self.fields_hash@)
    }
}

impl Clone for ProjectedJsonKey {
    fn clone(&self) -> (r: ProjectedJsonKey)
        ensures
            r@ == self@,
    {
        ProjectedJsonKey { document: self.document.clone(), fields_hash: self.fields_hash }
    }
}

/// A cached document.
#[derive(Debug)]
pub struct CachedDecodedJson {
    /// Version the document was decoded from.
    pub version: [u8; 16],
    /// The document.
    pub value: Arc<Json>,
    /// Payload length in bytes.
    pub logical_bytes: u64,
    /// Memory charge.
    pub charge: usize,
}

impl View for CachedDecodedJson {
    type V = Held<(JsonView, u64)>;

    open spec fn view(&self) -> Held<(JsonView, u64)> {
        Held {
            version: self.version@,
            charge: self.charge as nat,
            payload: (self.value@, self.logical_bytes),
        }
    }
}

/// The models of projected values.
pub open spec fn value_views(values: Seq<Option<Json>>) -> Seq<Option<JsonView>> {
    values.map_values(
        |v: Option<Json>|
            match v {
                Some(j) => Some(j@),
                None => None,
            },
    )
}

/// What a projection cache holds of one document: the fields, their values and
/// the payload length.
#[verifier::ext_equal]
pub struct Projection {
    pub fields: Seq<Seq<char>>,
    pub values: Seq<Option<JsonView>>,
    pub logical_bytes: u64,
}

/// The cached values of a list of fields.
#[derive(Debug)]
pub struct CachedProjectedJson {
    /// Version the values were read from.
    pub version: [u8; 16],
    /// The fields.
    pub fields: Vec<String>,
    /// The value of each field; `None` where it is absent.
    pub values: Vec<Option<Json>>,
    /// Payload length in bytes.
    pub logical_bytes: u64,
    /// Memory charge.
    pub charge: usize,
}

impl View for CachedProjectedJson {
    type V = Held<Projection>;

    open spec fn view(&self) -> Held<Projection> {
        Held {
            version: self.version@,
            charge: self.charge as nat,
            payload: Projection {
                fields: texts(self.fields@),
                values: value_views(self.values@),
                logical_bytes: self.logical_bytes,
            },
        }
    }
}

/// Another handle on the same document. `Arc::clone` gives a handle whose
/// target is the one the first handle has.
#[verifier::external_body]
pub(crate) fn share(value: &Arc<Json>) -> (r: Arc<Json>)
    ensures
        r@ == value@,
{
    Arc::clone(value)
}

/// Cached documents by identity, in a `hashbrown::HashMap`.
#[verifier::external_body]
pub struct DocumentTable {
    map: hashbrown::HashMap<([u8; 16], [u8; 16], String), CachedDecodedJson>,
}

/// What a table holds.
pub uninterp spec fn documents_held(table: DocumentTable) -> Map<DocumentKey, Held<(JsonView, u64)>>;

/// A table that holds nothing.
pub open spec fn no_documents_held() -> Map<DocumentKey, Held<(JsonView, u64)>> {
    Map::empty()
}

impl DocumentTable {
    /// `hashbrown::HashMap::new`: a table that holds nothing.
    #[verifier::external_body]
    fn new() -> (r: DocumentTable)
        ensures
            documents_held(r) == no_documents_held(),
    {
        DocumentTable { map: hashbrown::HashMap::new() }
    }

    /// `hashbrown::HashMap::len`: how many entries the table holds.
    #[verifier::external_body]
    fn len(&self) -> (r: usize)
        ensures
            r == documents_held(*self).len(),
    {
        self.map.len()
    }

    /// `hashbrown::HashMap::get`: the entry under a key, where there is one.
    #[verifier::external_body]
    fn get(&self, key: &DecodedJsonKey) -> (r: Option<&CachedDecodedJson>)
        ensures
            match r {
                Some(e) => documents_held(*self).contains_key(key@) && documents_held(*self)[key@] == e@,
                None => !documents_held(*self).contains_key(key@),
            },
    {
        self.map.get(&(key.heap_id, key.collection_id, key.key.clone()))
    }

    /// `hashbrown::HashMap::insert`: the entry stands under the key, in place
    /// of one that stood there.
    #[verifier::external_body]
    fn insert(&mut self, key: DecodedJsonKey, entry: CachedDecodedJson)
        ensures
            documents_held(*final(self)) == documents_held(*old(self)).insert(key@, entry@),
    {
        self.map.insert((key.heap_id, key.collection_id, key.key), entry);
    }

    /// `hashbrown::HashMap::remove`: the entry under the key leaves and is
    /// handed out, where there is one; nothing else changes.
    #[verifier::external_body]
    fn remove(&mut self, key: &DecodedJsonKey) -> (r: Option<CachedDecodedJson>)
        ensures
            documents_held(*final(self)) == documents_held(*old(self)).remove(key@),
            match r {
                Some(e) => documents_held(*old(self)).contains_key(key@) && documents_held(*old(self))[key@] == e@,
                None => !documents_held(*old(self)).contains_key(key@),
            },
    {
        self.map.remove(&(key.heap_id, key.collection_id, key.key.clone()))
    }
}

/// Cached projections by identity, in a `hashbrown::HashMap`.
#[verifier::external_body]
pub struct ProjectionTable {
    map: hashbrown::HashMap<([u8; 16], [u8; 16], String, [u8; 32]), CachedProjectedJson>,
}

/// What a table holds.
pub uninterp spec fn projections_held(table: ProjectionTable) -> Map<(DocumentKey, Seq<u8>), Held<Projection>>;

/// A table that holds nothing.
pub open spec fn no_projections_held() -> Map<(DocumentKey, Seq<u8>), Held<Projection>> {
    Map::empty()
}

impl ProjectionTable {
    /// `hashbrown::HashMap::new`: a table that holds nothing.
    #[verifier::external_body]
    fn new() -> (r: ProjectionTable)
        ensures
            projections_held(r) == no_projections_held(),
    {
        ProjectionTable { map: hashbrown::HashMap::new() }
    }

    /// `hashbrown::HashMap::len`: how many entries the table holds.
    #[verifier::external_body]
    fn len(&self) -> (r: usize)
        ensures
            r == projections_held(*self).len(),
    {
        self.map.len()
    }

    /// `hashbrown::HashMap::get`: the entry under a key, where there is one.
    #[verifier::external_body]
    fn get(&self, key: &ProjectedJsonKey) -> (r: Option<&CachedProjectedJson>)
        ensures
            match r {
                Some(e) => projections_held(*self).contains_key(key@) && projections_held(*self)[key@] == e@,
                None => !projections_held(*self).contains_key(key@),
            },
    {
        self.map.get(&(key.document.heap_id, key.document.collection_id, key.document.key.clone(), key.fields_hash))
    }

    /// `hashbrown::HashMap::insert`: the entry stands under the key, in place
    /// of one that stood there.
    #[verifier::external_body]
    fn insert(&mut self, key: ProjectedJsonKey, entry: CachedProjectedJson)
        ensures
            projections_held(*final(self)) == projections_held(*old(self)).insert(key@, entry@),
    {
        self.map.insert((key.document.heap_id, key.document.collection_id, key.document.key, key.fields_hash), entry);
    }

    /// `hashbrown::HashMap::remove`: the entry under the key leaves and is
    /// handed out, where there is one; nothing else changes.
    #[verifier::external_body]
    fn remove(&mut self, key: &ProjectedJsonKey) -> (r: Option<CachedProjectedJson>)
        ensures
            projections_held(*final(self)) == projections_held(*old(self)).remove(key@),
            match r {
                Some(e) => projections_held(*old(self)).contains_key(key@) && projections_held(*old(self))[key@] == e@,
                None => !projections_held(*old(self)).contains_key(key@),
            },
    {
        self.map.remove(&(key.document.heap_id, key.document.collection_id, key.document.key.clone(), key.fields_hash))
    }
}

/// Cached documents with their admissions in order.
pub struct DocumentShelf {
    entries: DocumentTable,
    order: VecDeque<(DecodedJsonKey, [u8; 16])>,
    resident: usize,
}

impl View for DocumentShelf {
    type V = Shelf<DocumentKey, (JsonView, u64)>;

    closed spec fn view(&self) -> Shelf<DocumentKey, (JsonView, u64)> {
        Shelf {
            entries: documents_held(self.entries),
            order: Seq::new(
                self.order@.len(),
                |i: int| (self.order@[i].0@, self.order@[i].1@),
            ),
            resident: self.resident as nat,
        }
    }
}

impl DocumentShelf {
    fn new() -> (r: DocumentShelf)
        ensures
            r@ == empty_shelf::<DocumentKey, (JsonView, u64)>(),
    {
        let r = DocumentShelf { entries: DocumentTable::new(), order: VecDeque::new(), resident: 0 };
        proof {
            assert(r@.order =~= Seq::empty());
        }
        r
    }

    /// Whether the entry of a queued admission is still there.
    fn is_live(&self, key: &DecodedJsonKey, version: &[u8; 16]) -> (r: bool)
        ensures
            r == live(self@.entries, (key@, version@)),
    {
        match self.entries.get(key) {
            Some(e) => same16(&e.version, version),
            None => false,
        }
    }

    /// Takes the entry under `key` out.
    fn clear(&mut self, key: &DecodedJsonKey)
        ensures
            final(self)@ == without(old(self)@, key@),
    {
        let ghost before = self@;
        if let Some(previous) = self.entries.remove(key) {
            self.resident = self.resident.saturating_sub(previous.charge);
        } else {
            proof {
                assert(before.entries.remove(key@) =~= before.entries);
            }
        }
        proof {
            assert(self@.order =~= before.order);
        }
    }

    /// Drops the admissions whose entries are gone.
    fn compact(&mut self)
        ensures
            final(self)@ == (Shelf {
                order: still_live(old(self)@.entries, old(self)@.order),
                ..old(self)@
            }),
    {
        let ghost before = self@;
        let ghost all = before.order;
        let mut old_order: VecDeque<(DecodedJsonKey, [u8; 16])> = VecDeque::new();
        std::mem::swap(&mut old_order, &mut self.order);
        let ghost n = all.len() as int;
        proof {
            assert(self@.order =~= still_live(before.entries, all.take(0)));
            assert(old_order@.len() == n);
        }
        loop
            invariant
                n == all.len(),
                all == before.order,
                self@.entries == before.entries,
                self@.resident == before.resident,
                old_order@.len() <= n,
                forall|i: int|
                    0 <= i < old_order@.len() ==> (#[trigger] old_order@[i].0@, old_order@[i].1@)
                        == all[n - old_order@.len() + i],
                self@.order == still_live(before.entries, all.take(n - old_order@.len())),
            ensures
                self@.entries == before.entries,
                self@.resident == before.resident,
                self@.order == still_live(before.entries, all),
            decreases old_order@.len(),
        {
            let ghost left = old_order@;
            match old_order.pop_front() {
                Some(item) => {
                    let ghost at = n - left.len();
                    proof {
                        assert(left[0].0@ == item.0@ && left[0].1@ == item.1@);
                        assert((left[0].0@, left[0].1@) == all[at]);
                        assert(all.take(at + 1).drop_last() =~= all.take(at));
                        assert(all.take(at + 1).last() == all[at]);
                        assert forall|i: int| 0 <= i < old_order@.len() implies (
                            #[trigger] old_order@[i].0@,
                            old_order@[i].1@,
                        ) == all[n - old_order@.len() + i] by {
                            assert(old_order@[i] == left[i + 1]);
                        }
                    }
                    let ghost kept = self@.order;
                    if self.is_live(&item.0, &item.1) {
                        self.order.push_back(item);
                        proof {
                            assert(self@.order =~= kept.push(all[at]));
                        }
                    }
                },
                None => {
                    proof {
                        assert(all.take(n) =~= all);
                    }
                    break;
                },
            }
        }
        proof {
            assert(self@ =~= (Shelf { order: still_live(before.entries, all), ..before }));
        }
    }

    /// Takes entries out in admission order until the bound is met.
    fn evict(&mut self, max: usize)
        ensures
            final(self)@ == evicted(old(self)@, max as nat),
    {
        let ghost before = self@;
        while self.resident > max
            invariant_except_break
                evicted(before, max as nat) == evicted(self@, max as nat),
            ensures
                self@ == evicted(before, max as nat),
            decreases self.order@.len(),
        {
            let ghost s = self@;
            match self.order.pop_front() {
                Some(item) => {
                    proof {
                        assert((item.0@, item.1@) == s.order[0]);
                        assert(self@.order =~= s.order.drop_first());
                        assert(self@ == (Shelf { order: s.order.drop_first(), ..s }));
                    }
                    if self.is_live(&item.0, &item.1) {
                        let ghost rest = self.order@;
                        self.clear(&item.0);
                        proof {
                            assert(self@.order.len() == s.order.drop_first().len());
                        }
                    }
                },
                None => {
                    break;
                },
            }
        }
    }

    /// Admits an entry under `key`.
    fn keep(&mut self, key: DecodedJsonKey, entry: CachedDecodedJson, max: usize)
        ensures
            final(self)@ == admitted(old(self)@, key@, entry@, max as nat),
    {
        let ghost before = self@;
        let ghost k = key@;
        let ghost held = entry@;
        self.clear(&key);
        if entry.charge > max {
            return;
        }
        let ghost cleared = self@;
        let version = entry.version;
        self.resident = self.resident.saturating_add(entry.charge);
        self.entries.insert(key.clone(), entry);
        self.order.push_back((key, version));
        let count: usize = self.entries.len();
        let twice: usize = if count > usize::MAX / 2 {
            usize::MAX
        } else {
            2 * count
        };
        proof {
            assert(self@.order =~= cleared.order.push((k, held.version)));
            assert(self@.entries == cleared.entries.insert(k, held));
            assert(self@.resident == clipped(cleared.resident + held.charge));
        }
        if self.order.len() > twice.saturating_add(1024) {
            self.compact();
        }
        proof {
            assert(self@.order == compacted(
                cleared.entries.insert(k, held),
                cleared.order.push((k, held.version)),
            ));
        }
        self.evict(max);
    }
}

/// Cached projections with their admissions in order.
pub struct ProjectionShelf {
    entries: ProjectionTable,
    order: VecDeque<(ProjectedJsonKey, [u8; 16])>,
    resident: usize,
}

impl View for ProjectionShelf {
    type V = Shelf<(DocumentKey, Seq<u8>), Projection>;

    closed spec fn view(&self) -> Shelf<(DocumentKey, Seq<u8>), Projection> {
        Shelf {
            entries: projections_held(self.entries),
            order: Seq::new(
                self.order@.len(),
                |i: int| (self.order@[i].0@, self.order@[i].1@),
            ),
            resident: self.resident as nat,
        }
    }
}

impl ProjectionShelf {
    fn new() -> (r: ProjectionShelf)
        ensures
            r@ == empty_shelf::<(DocumentKey, Seq<u8>), Projection>(),
    {
        let r = ProjectionShelf { entries: ProjectionTable::new(), order: VecDeque::new(), resident: 0 };
        proof {
            assert(r@.order =~= Seq::empty());
        }
        r
    }

    /// Whether the entry of a queued admission is still there.
    fn is_live(&self, key: &ProjectedJsonKey, version: &[u8; 16]) -> (r: bool)
        ensures
            r == live(self@.entries, (key@, version@)),
    {
        match self.entries.get(key) {
            Some(e) => same16(&e.version, version),
            None => false,
        }
    }

    /// Takes the entry under `key` out.
    fn clear(&mut self, key: &ProjectedJsonKey)
        ensures
            final(self)@ == without(old(self)@, key@),
    {
        let ghost before = self@;
        if let Some(previous) = self.entries.remove(key) {
            self.resident = self.resident.saturating_sub(previous.charge);
        } else {
            proof {
                assert(before.entries.remove(key@) =~= before.entries);
            }
        }
        proof {
            assert(self@.order =~= before.order);
        }
    }

    /// Drops the admissions whose entries are gone.
    fn compact(&mut self)
        ensures
            final(self)@ == (Shelf {
                order: still_live(old(self)@.entries, old(self)@.order),
                ..old(self)@
            }),
    {
        let ghost before = self@;
        let ghost all = before.order;
        let mut old_order: VecDeque<(ProjectedJsonKey, [u8; 16])> = VecDeque::new();
        std::mem::swap(&mut old_order, &mut self.order);
        let ghost n = all.len() as int;
        proof {
            assert(self@.order =~= still_live(before.entries, all.take(0)));
            assert(old_order@.len() == n);
        }
        loop
            invariant
                n == all.len(),
                all == before.order,
                self@.entries == before.entries,
                self@.resident == before.resident,
                old_order@.len() <= n,
                forall|i: int|
                    0 <= i < old_order@.len() ==> (#[trigger] old_order@[i].0@, old_order@[i].1@)
                        == all[n - old_order@.len() + i],
                self@.order == still_live(before.entries, all.take(n - old_order@.len())),
            ensures
                self@.entries == before.entries,
                self@.resident == before.resident,
                self@.order == still_live(before.entries, all),
            decreases old_order@.len(),
        {
            let ghost left = old_order@;
            match old_order.pop_front() {
                Some(item) => {
                    let ghost at = n - left.len();
                    proof {
                        assert(left[0].0@ == item.0@ && left[0].1@ == item.1@);
                        assert((left[0].0@, left[0].1@) == all[at]);
                        assert(all.take(at + 1).drop_last() =~= all.take(at));
                        assert(all.take(at + 1).last() == all[at]);
                        assert forall|i: int| 0 <= i < old_order@.len() implies (
                            #[trigger] old_order@[i].0@,
                            old_order@[i].1@,
                        ) == all[n - old_order@.len() + i] by {
                            assert(old_order@[i] == left[i + 1]);
                        }
                    }
                    let ghost kept = self@.order;
                    if self.is_live(&item.0, &item.1) {
                        self.order.push_back(item);
                        proof {
                            assert(self@.order =~= kept.push(all[at]));
                        }
                    }
                },
                None => {
                    proof {
                        assert(all.take(n) =~= all);
                    }
                    break;
                },
            }
        }
        proof {
            assert(self@ =~= (Shelf { order: still_live(before.entries, all), ..before }));
        }
    }

    /// Takes entries out in admission order until the bound is met.
    fn evict(&mut self, max: usize)
        ensures
            final(self)@ == evicted(old(self)@, max as nat),
    {
        let ghost before = self@;
        while self.resident > max
            invariant_except_break
                evicted(before, max as nat) == evicted(self@, max as nat),
            ensures
                self@ == evicted(before, max as nat),
            decreases self.order@.len(),
        {
            let ghost s = self@;
            match self.order.pop_front() {
                Some(item) => {
                    proof {
                        assert((item.0@, item.1@) == s.order[0]);
                        assert(self@.order =~= s.order.drop_first());
                        assert(self@ == (Shelf { order: s.order.drop_first(), ..s }));
                    }
                    if self.is_live(&item.0, &item.1) {
                        let ghost rest = self.order@;
                        self.clear(&item.0);
                        proof {
                            assert(self@.order.len() == s.order.drop_first().len());
                        }
                    }
                },
                None => {
                    break;
                },
            }
        }
    }

    /// Admits an entry under `key`.
    fn keep(&mut self, key: ProjectedJsonKey, entry: CachedProjectedJson, max: usize)
        ensures
            final(self)@ == admitted(old(self)@, key@, entry@, max as nat),
    {
        let ghost before = self@;
        let ghost k = key@;
        let ghost held = entry@;
        self.clear(&key);
        if entry.charge > max {
            return;
        }
        let ghost cleared = self@;
        let version = entry.version;
        self.resident = self.resident.saturating_add(entry.charge);
        self.entries.insert(key.clone(), entry);
        self.order.push_back((key, version));
        let count: usize = self.entries.len();
        let twice: usize = if count > usize::MAX / 2 {
            usize::MAX
        } else {
            2 * count
        };
        proof {
            assert(self@.order =~= cleared.order.push((k, held.version)));
            assert(self@.entries == cleared.entries.insert(k, held));
            assert(self@.resident == clipped(cleared.resident + held.charge));
        }
        if self.order.len() > twice.saturating_add(1024) {
            self.compact();
        }
        proof {
            assert(self@.order == compacted(
                cleared.entries.insert(k, held),
                cleared.order.push((k, held.version)),
            ));
        }
        self.evict(max);
    }
}

/// The bytes that identify a list of fields: each one's length and text.
pub open spec fn field_list_bytes(fields: Seq<Seq<char>>) -> Seq<u8>
    decreases fields.len(),
{
    if fields.len() == 0 {
        Seq::empty()
    } else {
        let text = vstd::utf8::encode_utf8(fields.last());
        field_list_bytes(fields.drop_last()) + le8(text.len() as u64) + text
    }
}

/// Digest of a list of fields.
pub fn projection_fields_hash(fields: &Vec<String>) -> (r: [u8; 32])
    ensures
        r@ == blake3_digest(field_list_bytes(texts(fields@))),
{
    let mut bytes: Vec<u8> = Vec::new();
    let ghost all = texts(fields@);
    proof {
        assert(bytes@ =~= field_list_bytes(all.take(0)));
    }
    for i in 0..fields.len()
        invariant
            all == texts(fields@),
            bytes@ == field_list_bytes(all.take(i as int)),
    {
        let text = fields[i].as_str().as_bytes();
        proof {
            assert(all.take(i + 1).drop_last() =~= all.take(i as int));
            assert(all.take(i + 1).last() == fields@[i as int]@);
        }
        push_le8(&mut bytes, text.len() as u64);
        bytes.extend_from_slice(text);
    }
    proof {
        assert(all.take(all.len() as int) =~= all);
    }
    hash_bytes(bytes.as_slice())
}

/// The value of each field of a document, `null` where there is none.
pub open spec fn field_values(value: JsonView, fields: Seq<Seq<char>>) -> Seq<JsonView> {
    fields.map_values(
        |f: Seq<char>|
            match resolve(value, pieces(f, '.')) {
                Some(v) => v,
                None => JsonView::Null,
            },
    )
}

/// Reads the value of each field of a document.
pub fn project_json_fields(value: &Json, fields: &Vec<String>) -> (r: Vec<Json>)
    ensures
        models(r@) == field_values(value@, texts(fields@)),
{
    let mut out: Vec<Json> = Vec::new();
    for i in 0..fields.len()
        invariant
            out@.len() == i,
            forall|k: int|
                0 <= k < i ==> (#[trigger] out@[k])@ == field_values(value@, texts(fields@))[k],
    {
        let path = split(fields[i].as_str(), '.');
        let found = match find(value, &path) {
            Some(v) => v.clone(),
            None => Json::Null,
        };
        out.push(found);
    }
    proof {
        assert(models(out@) =~= field_values(value@, texts(fields@)));
    }
    out
}

/// Counters of the cache since it was made.
#[derive(Debug, Clone, Copy, PartialEq, Eq, Structural)]
pub struct DecodedJsonCacheStats {
    /// Lookups of a version that was cached.
    pub hits: u64,
    /// Lookups of a version that was not.
    pub misses: u64,
    /// Documents that are cached.
    pub entries: usize,
    /// Resident charge in bytes.
    pub resident_charge: usize,
    /// Bound on the charge in bytes.
    pub max_charge: usize,
}

impl Default for DecodedJsonCacheStats {
    fn default() -> (r: DecodedJsonCacheStats)
        ensures
            r == (DecodedJsonCacheStats {
                hits: 0,
                misses: 0,
                entries: 0,
                resident_charge: 0,
                max_charge: 0,
            }),
    {
        DecodedJsonCacheStats { hits: 0, misses: 0, entries: 0, resident_charge: 0, max_charge: 0 }
    }
}

/// Model of a [`DecodedJsonCache`].
#[verifier::ext_equal]
pub struct CacheView {
    /// Whole documents.
    pub documents: Shelf<DocumentKey, (JsonView, u64)>,
    /// Projections.
    pub projections: Shelf<(DocumentKey, Seq<u8>), Projection>,
    /// Bound on the charge of the documents.
    pub max: usize,
    /// Lookups that found their version.
    pub hits: u64,
    /// Lookups that did not.
    pub misses: u64,
}

/// Bound on the charge of the projections: a quarter of the bound on the
/// documents, at least one.
pub open spec fn projected_bound(max: usize) -> usize {
    if max / 4 < 1 {
        1
    } else {
        max / 4
    }
}

/// A counter one further, back at zero behind its last value.
pub open spec fn next_count(n: u64) -> u64 {
    if n == u64::MAX {
        0
    } else {
        (n + 1) as u64
    }
}

/// The cache after a lookup.
pub open spec fn observed(c: CacheView, hit: bool) -> CacheView {
    if hit {
        CacheView { hits: next_count(c.hits), ..c }
    } else {
        CacheView { misses: next_count(c.misses), ..c }
    }
}

/// The document cached for a key and a version, with its payload length.
pub open spec fn cached(c: CacheView, key: DocumentKey, version: Seq<u8>) -> Option<
    (JsonView, u64),
> {
    if live(c.documents.entries, (key, version)) {
        Some(c.documents.entries[key].payload)
    } else {
        None
    }
}

/// Charge of a document: three times its encoded length, its key and a fixed
/// overhead.
pub open spec fn document_charge(encoded_len: usize, key: Seq<char>) -> nat {
    clipped(3 * encoded_len as nat + vstd::utf8::encode_utf8(key).len() + 128)
}

/// The cache after a document has been put into it. A version that is cached
/// already is left as it is.
pub open spec fn with_document(
    c: CacheView,
    key: DocumentKey,
    version: Seq<u8>,
    value: JsonView,
    encoded_len: usize,
) -> CacheView {
    if live(c.documents.entries, (key, version)) {
        c
    } else {
        let entry = Held {
            version,
            charge: document_charge(encoded_len, key.key),
            payload: (value, less(encoded_len as nat, 1) as u64),
        };
        CacheView { documents: admitted(c.documents, key, entry, c.max as nat), ..c }
    }
}

/// The projection cached for a key, a version and exactly these fields.
pub open spec fn cached_projection(
    c: CacheView,
    key: (DocumentKey, Seq<u8>),
    version: Seq<u8>,
    fields: Seq<Seq<char>>,
) -> Option<Projection> {
    if live(c.projections.entries, (key, version)) && c.projections.entries[key].payload.fields
        == fields {
        Some(c.projections.entries[key].payload)
    } else {
        None
    }
}

/// Charge of a projection: the size of its values, its key and a fixed
/// overhead.
pub open spec fn projection_charge(value_charge: usize, key: Seq<char>) -> nat {
    clipped(value_charge as nat + vstd::utf8::encode_utf8(key).len() + 160)
}

/// The cache after a projection has been put into it.
pub open spec fn with_projection(
    c: CacheView,
    key: (DocumentKey, Seq<u8>),
    version: Seq<u8>,
    payload: Projection,
    value_charge: usize,
) -> CacheView {
    if cached_projection(c, key, version, payload.fields) is Some {
        c
    } else {
        let entry = Held { version, charge: projection_charge(value_charge, key.0.key), payload };
        CacheView {
            projections: admitted(c.projections, key, entry, projected_bound(c.max) as nat),
            ..c
        }
    }
}

/// The three parts of a charge added up, clipped to the range of `usize`.
fn charge_of(base: usize, key: &str, overhead: usize) -> (r: usize)
    ensures
        r == clipped(clipped(base as nat + vstd::utf8::encode_utf8(key@).len()) + overhead as nat),
{
    base.saturating_add(key.as_bytes().len()).saturating_add(overhead)
}

fn same_fields(a: &Vec<String>, b: &Vec<String>) -> (r: bool)
    ensures
        r == (texts(a@) == texts(b@)),
{
    if a.len() != b.len() {
        proof {
            assert(texts(a@).len() != texts(b@).len());
        }
        return false;
    }
    for i in 0..a.len()
        invariant
            a@.len() == b@.len(),
            forall|k: int| 0 <= k < i ==> a@[k]@ == b@[k]@,
    {
        if !same_text(a[i].as_str(), b[i].as_str()) {
            proof {
                assert(texts(a@)[i as int] != texts(b@)[i as int]);
            }
            return false;
        }
    }
    proof {
        assert(texts(a@) =~= texts(b@));
    }
    true
}

/// Decoded documents and projections, bounded by memory charge.
pub struct DecodedJsonCache {
    documents: DocumentShelf,
    projections: ProjectionShelf,
    max_charge: usize,
    hits: u64,
    misses: u64,
}

impl View for DecodedJsonCache {
    type V = CacheView;

    closed spec fn view(&self) -> CacheView {
        CacheView {
            documents: self.documents@,
            projections: self.projections@,
            max: self.max_charge,
            hits: self.hits,
            misses: self.misses,
        }
    }
}

impl DecodedJsonCache {
    /// Both caches keep their bound.
    #[verifier::type_invariant]
    spec fn inv(self) -> bool {
        &&& bounded(self.documents@, self.max_charge as nat)
        &&& bounded(self.projections@, projected_bound(self.max_charge) as nat)
    }

    /// An empty cache with this bound.
    pub fn new(max_charge: usize) -> (r: DecodedJsonCache)
        ensures
            r@ == (CacheView {
                documents: empty_shelf(),
                projections: empty_shelf(),
                max: max_charge,
                hits: 0,
                misses: 0,
            }),
    {
        DecodedJsonCache {
            documents: DocumentShelf::new(),
            projections: ProjectionShelf::new(),
            max_charge,
            hits: 0,
            misses: 0,
        }
    }

    fn observe(&mut self, hit: bool)
        ensures
            final(self)@ == observed(old(self)@, hit),
    {
        proof {
            use_type_invariant(&*self);
        }
        if hit {
            self.hits = self.hits.wrapping_add(1);
        } else {
            self.misses = self.misses.wrapping_add(1);
        }
    }

    /// Counters, size and bounds. The resident charge is within the bound.
    pub fn stats(&self) -> (r: DecodedJsonCacheStats)
        ensures
            r.hits == self@.hits,
            r.misses == self@.misses,
            r.entries == self@.documents.entries.len(),
            r.resident_charge == self@.documents.resident,
            r.max_charge == self@.max,
            r.resident_charge <= r.max_charge,
            self@.projections.resident <= projected_bound(self@.max),
    {
        proof {
            use_type_invariant(self);
        }
        DecodedJsonCacheStats {
            hits: self.hits,
            misses: self.misses,
            entries: self.documents.entries.len(),
            resident_charge: self.documents.resident,
            max_charge: self.max_charge,
        }
    }

    /// Resident charge of the projections.
    pub fn projected_resident_charge(&self) -> (r: usize)
        ensures
            r == self@.projections.resident,
            r <= projected_bound(self@.max),
    {
        proof {
            use_type_invariant(self);
        }
        self.projections.resident
    }

    /// Whether a projection is cached under a key, in any version.
    pub fn holds_projection(&self, key: &ProjectedJsonKey) -> (r: bool)
        ensures
            r == self@.projections.entries.contains_key(key@),
    {
        self.projections.entries.get(key).is_some()
    }

    /// Looks a document up.
    pub fn get(&mut self, key: &DecodedJsonKey, version: &[u8; 16]) -> (r: Option<Arc<Json>>)
        ensures
            match r {
                Some(v) => (cached(old(self)@, key@, version@) matches Some(p) && v@ == p.0),
                None => cached(old(self)@, key@, version@) is None,
            },
            final(self)@ == observed(old(self)@, r is Some),
    {
        match self.get_with_len(key, version) {
            Some(found) => Some(found.0),
            None => None,
        }
    }

    /// Looks a document up, with its payload length.
    pub fn get_with_len(&mut self, key: &DecodedJsonKey, version: &[u8; 16]) -> (r: Option<
        (Arc<Json>, u64),
    >)
        ensures
            match r {
                Some(v) => cached(old(self)@, key@, version@) == Some((v.0@, v.1)),
                None => cached(old(self)@, key@, version@) is None,
            },
            final(self)@ == observed(old(self)@, r is Some),
    {
        let found = match self.documents.entries.get(key) {
            Some(e) => if same16(&e.version, version) {
                Some((share(&e.value), e.logical_bytes))
            } else {
                None
            },
            None => None,
        };
        self.observe(found.is_some());
        found
    }

    /// Reads the values of a list of fields from a cached document.
    pub fn get_projected(
        &mut self,
        key: &DecodedJsonKey,
        version: &[u8; 16],
        fields: &Vec<String>,
    ) -> (r: Option<Vec<Json>>)
        ensures
            match r {
                Some(row) => (cached(old(self)@, key@, version@) matches Some(p) && models(row@)
                    == field_values(p.0, texts(fields@))),
                None => cached(old(self)@, key@, version@) is None,
            },
            final(self)@ == observed(old(self)@, r is Some),
    {
        match self.get_with_len(key, version) {
            Some(found) => Some(project_json_fields(&found.0, fields)),
            None => None,
        }
    }

    /// Puts a document into the cache.
    pub fn insert(
        &mut self,
        key: DecodedJsonKey,
        version: [u8; 16],
        value: Arc<Json>,
        encoded_len: usize,
    )
        ensures
            final(self)@ == with_document(old(self)@, key@, version@, value@, encoded_len),
    {
        proof {
            use_type_invariant(&*self);
        }
        if self.documents.is_live(&key, &version) {
            return;
        }
        let ghost before = self@;
        let ghost k = key@;
        let triple: usize = if encoded_len > usize::MAX / 3 {
            usize::MAX
        } else {
            3 * encoded_len
        };
        let charge: usize = charge_of(triple, key.key.as_str(), 128);
        let logical_bytes: u64 = encoded_len.saturating_sub(1) as u64;
        let max: usize = self.max_charge;
        let entry = CachedDecodedJson { version, value, logical_bytes, charge };
        let ghost held = entry@;
        let mut shelf = DocumentShelf::new();
        std::mem::swap(&mut shelf, &mut self.documents);
        shelf.keep(key, entry, max);
        proof {
            law_admission_keeps_bound(before.documents, k, held, max as nat);
        }
        self.documents = shelf;
    }

    /// Looks a projection up by the document's identity, the digest of the
    /// fields and the fields themselves.
    pub fn get_projection_raw(
        &self,
        key: &ProjectedJsonKey,
        version: &[u8; 16],
        fields: &Vec<String>,
    ) -> (r: Option<(Vec<Option<Json>>, u64)>)
        ensures
            match r {
                Some(found) => cached_projection(self@, key@, version@, texts(fields@)) is Some && (
                value_views(found.0@), found.1) == (
                    cached_projection(self@, key@, version@, texts(fields@))->0.values,
                    cached_projection(self@, key@, version@, texts(fields@))->0.logical_bytes,
                ),
                None => cached_projection(self@, key@, version@, texts(fields@)) is None,
            },
    {
        match self.projections.entries.get(key) {
            Some(e) => if same16(&e.version, version) && same_fields(&e.fields, fields) {
                Some((clone_optional(&e.values), e.logical_bytes))
            } else {
                None
            },
            None => None,
        }
    }

    /// Puts a projection into the cache. `value_charge` is the size estimate of
    /// the values that are present.
    pub fn insert_projection(
        &mut self,
        key: ProjectedJsonKey,
        version: [u8; 16],
        fields: Vec<String>,
        values: Vec<Option<Json>>,
        value_charge: usize,
        logical_bytes: u64,
    )
        ensures
            final(self)@ == with_projection(
                old(self)@,
                key@,
                version@,
                Projection { fields: texts(fields@), values: value_views(values@), logical_bytes },
                value_charge,
            ),
    {
        proof {
            use_type_invariant(&*self);
        }
        if let Some(e) = self.projections.entries.get(&key) {
            if same16(&e.version, &version) && same_fields(&e.fields, &fields) {
                return;
            }
        }
        let ghost before = self@;
        let ghost k = key@;
        let charge: usize = charge_of(value_charge, key.document.key.as_str(), 160);
        let max: usize = if self.max_charge / 4 < 1 {
            1
        } else {
            self.max_charge / 4
        };
        let entry = CachedProjectedJson { version, fields, values, logical_bytes, charge };
        let ghost held = entry@;
        let mut shelf = ProjectionShelf::new();
        std::mem::swap(&mut shelf, &mut self.projections);
        shelf.keep(key, entry, max);
        proof {
            law_admission_keeps_bound(before.projections, k, held, max as nat);
        }
        self.projections = shelf;
    }
}

/// A copy of projected values.
pub fn clone_optional(values: &Vec<Option<Json>>) -> (r: Vec<Option<Json>>)
    ensures
        value_views(r@) == value_views(values@),
{
    let mut out: Vec<Option<Json>> = Vec::new();
    for i in 0..values.len()
        invariant
            value_views(out@) =~= value_views(values@).take(i as int),
    {
        let ghost before = value_views(out@);
        let next = match &values[i] {
            Some(j) => Some(j.clone()),
            None => None,
        };
        out.push(next);
        proof {
            assert(value_views(out@) =~= before.push(value_views(seq![next])[0]));
            assert(value_views(seq![next])[0] == value_views(values@)[i as int]);
            assert(value_views(values@).take(i + 1) =~= before.push(
                value_views(values@)[i as int],
            ));
        }
    }
    proof {
        assert(value_views(values@).take(values@.len() as int) =~= value_views(values@));
    }
    out
}

/// A document that was put into the cache is found under its version, and
/// under no other, whenever its charge is within the bound and the queue holds
/// no earlier admission of that version.
pub proof fn law_inserted_document_is_found(
    c: CacheView,
    key: DocumentKey,
    version: Seq<u8>,
    value: JsonView,
    encoded_len: usize,
    other: Seq<u8>,
)
    requires
        bounded(c.documents, c.max as nat),
        2 * c.max <= usize::MAX,
        document_charge(encoded_len, key.key) <= c.max,
        !c.documents.order.contains((key, version)),
        other != version,
    ensures
        cached(with_document(c, key, version, value, encoded_len), key, version) == Some(
            (value, less(encoded_len as nat, 1) as u64),
        ),
        cached(with_document(c, key, version, value, encoded_len), key, other) is None,
{
    let entry = Held {
        version,
        charge: document_charge(encoded_len, key.key),
        payload: (value, less(encoded_len as nat, 1) as u64),
    };
    assert(!live(c.documents.entries, (key, version))) by {
        if live(c.documents.entries, (key, version)) {
            assert(c.documents.entries.contains_key(key));
        }
    }
    law_admitted_entry_is_found(c.documents, key, entry, c.max as nat);
}

} // verus!
