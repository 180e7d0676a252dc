//! What heap handles ask of the store, and what its answers mean.
//!
//! A key or a name is judged by the naming rules of the store, and a body is
//! encoded by them; both verdicts are arguments here.
use crate::covered_reads::byte_views;
use crate::decoded_cache::{
    cached, document_charge, law_inserted_document_is_found, observed, with_document, CacheView,
    DecodedJsonCache, DecodedJsonKey, DocumentKey,
};
use crate::error::{outcome, Error, ErrorView, StoreError};
use crate::heap::{
    application_keys, check_heap_name, creation_error, delete_observes, goes_by,
    key_texts, lookup_named, map_create_object_err, named_object, CatalogEntry, Heap, HeapCap,
    HeapCollection, HeapStream, WriteCondition,
};
use crate::json::{Json, JsonView};
use crate::shelf::{bounded, live};
use crate::text::{debug_quoted, texts};
use std::sync::Arc;
use vstd::prelude::*;

verus! {

/// A put that is asked of the store.
#[derive(Debug)]
pub struct CollectionPut {
    /// Collection id.
    pub collection_id: [u8; 16],
    /// Key.
    pub key: String,
    /// Encoded body.
    pub body: Vec<u8>,
    /// What must hold of the key.
    pub condition: WriteCondition,
}

/// Model of a [`CollectionPut`].
#[verifier::ext_equal]
pub struct CollectionPutView {
    pub collection_id: [u8; 16],
    pub key: Seq<char>,
    pub body: Seq<u8>,
    pub condition: WriteCondition,
}

impl View for CollectionPut {
    type V = CollectionPutView;

    open spec fn view(&self) -> CollectionPutView {
        CollectionPutView {
            collection_id: self.collection_id,
            key: self.key@,
            body: self.body@,
            condition: self.condition,
        }
    }
}

/// The put that is asked: a body that does not encode is refused first, then a
/// key that is none.
pub open spec fn put_asked(
    collection_id: [u8; 16],
    key: Seq<char>,
    body: Result<Seq<u8>, ErrorView>,
    valid: Result<(), ErrorView>,
    condition: WriteCondition,
) -> Result<CollectionPutView, ErrorView> {
    match body {
        Err(e) => Err(e),
        Ok(body) => match valid {
            Err(e) => Err(e),
            Ok(_) => Ok(CollectionPutView { collection_id, key, body, condition }),
        },
    }
}

/// A delete that is asked of the store.
#[derive(Debug)]
pub struct CollectionDelete {
    /// Collection id.
    pub collection_id: [u8; 16],
    /// Key.
    pub key: String,
    /// What must hold of the key.
    pub condition: WriteCondition,
    /// Whether the key is looked at first, to tell whether something is
    /// removed.
    pub observe: bool,
}

/// Model of a [`CollectionDelete`].
#[verifier::ext_equal]
pub struct CollectionDeleteView {
    pub collection_id: [u8; 16],
    pub key: Seq<char>,
    pub condition: WriteCondition,
    pub observe: bool,
}

impl View for CollectionDelete {
    type V = CollectionDeleteView;

    open spec fn view(&self) -> CollectionDeleteView {
        CollectionDeleteView {
            collection_id: self.collection_id,
            key: self.key@,
            condition: self.condition,
            observe: self.observe,
        }
    }
}

/// The delete that is asked of a key that is one.
pub open spec fn delete_asked(
    collection_id: [u8; 16],
    key: Seq<char>,
    valid: Result<(), ErrorView>,
    condition: WriteCondition,
) -> Result<CollectionDeleteView, ErrorView> {
    match valid {
        Err(e) => Err(e),
        Ok(_) => Ok(
            CollectionDeleteView {
                collection_id,
                key,
                condition,
                observe: condition is Unconditional || condition is Absent,
            },
        ),
    }
}

/// The identity under which the cache holds a document of a collection.
pub open spec fn cache_key(c: HeapCollection, key: Seq<char>) -> DocumentKey {
    DocumentKey { heap: c.cap.heap_id@, collection: c.id@, key }
}

/// What the cache holds after a document was read, and the document: the cached
/// one where the version is cached, else the decoded one, which is cached then.
pub open spec fn read_through(
    c: CacheView,
    key: DocumentKey,
    version: Seq<u8>,
    decoded: Result<JsonView, ErrorView>,
    encoded_len: usize,
) -> (CacheView, Result<JsonView, ErrorView>) {
    match cached(c, key, version) {
        Some(hit) => (observed(c, true), Ok(hit.0)),
        None => match decoded {
            Err(e) => (observed(c, false), Err(e)),
            Ok(v) => (with_document(observed(c, false), key, version, v, encoded_len), Ok(v)),
        },
    }
}

impl HeapCollection {
    /// Puts a document.
    pub fn put(&self, key: &str, body: Result<Vec<u8>, Error>, valid: Result<(), Error>) -> (r:
        Result<CollectionPut, Error>)
        ensures
            outcome(r) == put_asked(
                self.id,
                key@,
                outcome(body),
                outcome(valid),
                WriteCondition::Unconditional,
            ),
    {
        self.put_raw_body_if(key, body, valid, WriteCondition::Unconditional)
    }

    /// Puts bytes.
    pub fn put_bytes(&self, key: &str, body: Vec<u8>, valid: Result<(), Error>) -> (r: Result<
        CollectionPut,
        Error,
    >)
        ensures
            outcome(r) == put_asked(
                self.id,
                key@,
                Ok(body@),
                outcome(valid),
                WriteCondition::Unconditional,
            ),
    {
        self.put_raw_body_if(key, Ok(body), valid, WriteCondition::Unconditional)
    }

    /// Puts a body under a condition.
    pub fn put_raw_body_if(
        &self,
        key: &str,
        body: Result<Vec<u8>, Error>,
        valid: Result<(), Error>,
        condition: WriteCondition,
    ) -> (r: Result<CollectionPut, Error>)
        ensures
            outcome(r) == put_asked(self.id, key@, outcome(body), outcome(valid), condition),
    {
        let body = body?;
        valid?;
        Ok(CollectionPut { collection_id: self.id, key: key.to_string(), body, condition })
    }

    /// Puts a document where the key is absent.
    pub fn create_if_absent(
        &self,
        key: &str,
        body: Result<Vec<u8>, Error>,
        valid: Result<(), Error>,
    ) -> (r: Result<CollectionPut, Error>)
        ensures
            outcome(r) == put_asked(
                self.id,
                key@,
                outcome(body),
                outcome(valid),
                WriteCondition::Absent,
            ),
    {
        self.put_raw_body_if(key, body, valid, WriteCondition::Absent)
    }

    /// Puts a document where a version is live.
    pub fn replace_if_version(
        &self,
        key: &str,
        body: Result<Vec<u8>, Error>,
        valid: Result<(), Error>,
        if_version: [u8; 16],
    ) -> (r: Result<CollectionPut, Error>)
        ensures
            outcome(r) == put_asked(
                self.id,
                key@,
                outcome(body),
                outcome(valid),
                WriteCondition::LiveEventId(if_version),
            ),
    {
        self.put_raw_body_if(key, body, valid, WriteCondition::LiveEventId(if_version))
    }

    /// Deletes a key under a condition.
    pub fn delete_if(&self, key: &str, valid: Result<(), Error>, condition: WriteCondition) -> (r:
        Result<CollectionDelete, Error>)
        ensures
            outcome(r) == delete_asked(self.id, key@, outcome(valid), condition),
    {
        valid?;
        Ok(
            CollectionDelete {
                collection_id: self.id,
                key: key.to_string(),
                condition,
                observe: delete_observes(&condition),
            },
        )
    }

    /// Deletes a key.
    pub fn delete(&self, key: &str, valid: Result<(), Error>) -> (r: Result<
        CollectionDelete,
        Error,
    >)
        ensures
            outcome(r) == delete_asked(
                self.id,
                key@,
                outcome(valid),
                WriteCondition::Unconditional,
            ),
    {
        self.delete_if(key, valid, WriteCondition::Unconditional)
    }

    /// Reads a document through the cache. `decoded` is what the stored body
    /// decodes to; it is not looked at where the version is cached.
    pub fn decode_json_versioned_shared(
        &self,
        cache: &mut DecodedJsonCache,
        key: &str,
        version: [u8; 16],
        decoded: Result<Json, Error>,
        encoded_len: usize,
    ) -> (r: Result<Arc<Json>, Error>)
        ensures
            ({
                let read = read_through(
                    old(cache)@,
                    cache_key(*self, key@),
                    version@,
                    outcome(decoded),
                    encoded_len,
                );
                &&& final(cache)@ == read.0
                &&& match r {
                    Ok(v) => read.1 == Ok::<JsonView, ErrorView>(v@),
                    Err(e) => read.1 == Err::<JsonView, ErrorView>(e@),
                }
            }),
    {
        let id = DecodedJsonKey {
            heap_id: self.cap.heap_id,
            collection_id: self.id,
            key: key.to_string(),
        };
        if let Some(hit) = cache.get(&id, &version) {
            return Ok(hit);
        }
        let value = Arc::new(decoded?);
        cache.insert(id, version, crate::decoded_cache::share(&value), encoded_len);
        Ok(value)
    }

    /// Reads a document of its own through the cache.
    pub fn decode_json_versioned(
        &self,
        cache: &mut DecodedJsonCache,
        key: &str,
        version: [u8; 16],
        decoded: Result<Json, Error>,
        encoded_len: usize,
    ) -> (r: Result<Json, Error>)
        ensures
            ({
                let read = read_through(
                    old(cache)@,
                    cache_key(*self, key@),
                    version@,
                    outcome(decoded),
                    encoded_len,
                );
                &&& final(cache)@ == read.0
                &&& outcome(r) == read.1
            }),
    {
        let shared = self.decode_json_versioned_shared(cache, key, version, decoded, encoded_len)?;
        Ok((*shared).clone())
    }

    /// The keys that a listing of the store spells.
    pub fn list_keys(raw: &Vec<Vec<u8>>) -> (r: Result<Vec<String>, Error>)
        ensures
            match r {
                Ok(keys) => key_texts(byte_views(raw@), LIST_KEYS@) == Ok::<
                    Seq<Seq<char>>,
                    ErrorView,
                >(texts(keys@)),
                Err(e) => key_texts(byte_views(raw@), LIST_KEYS@) == Err::<
                    Seq<Seq<char>>,
                    ErrorView,
                >(e@),
            },
    {
        application_keys(raw, LIST_KEYS)
    }

    /// The keys that an index names; `None` where no index serves.
    pub fn lookup_index_keys(raw: &Option<Vec<Vec<u8>>>) -> (r: Result<Option<Vec<String>>, Error>)
        ensures
            index_answer(*raw, INDEX_KEYS@, r),
    {
        indexed(raw, INDEX_KEYS)
    }

    /// The keys that an index names for any of several values.
    pub fn lookup_index_keys_many(raw: &Option<Vec<Vec<u8>>>) -> (r: Result<
        Option<Vec<String>>,
        Error,
    >)
        ensures
            index_answer(*raw, INDEX_KEYS_MANY@, r),
    {
        indexed(raw, INDEX_KEYS_MANY)
    }

    /// The keys that an index names in the order of a field.
    pub fn lookup_ordered_index_keys(raw: &Option<Vec<Vec<u8>>>) -> (r: Result<
        Option<Vec<String>>,
        Error,
    >)
        ensures
            index_answer(*raw, INDEX_KEYS_ORDERED@, r),
    {
        indexed(raw, INDEX_KEYS_ORDERED)
    }
}

/// Why a listing is no list of keys.
pub const LIST_KEYS: &'static str = "list_keys: non-UTF-8 application key";

/// Why the answer of an index is no list of keys.
pub const INDEX_KEYS: &'static str = "index lookup: non-UTF-8 application key";

/// Why the answer of an index to several values is no list of keys.
pub const INDEX_KEYS_MANY: &'static str = "index lookup-many: non-UTF-8 application key";

/// Why the ordered answer of an index is no list of keys.
pub const INDEX_KEYS_ORDERED: &'static str = "ordered index lookup: non-UTF-8 application key";

/// The answer of an index as keys.
pub open spec fn index_answer(
    raw: Option<Vec<Vec<u8>>>,
    message: Seq<char>,
    r: Result<Option<Vec<String>>, Error>,
) -> bool {
    match raw {
        None => r == Ok::<Option<Vec<String>>, Error>(None),
        Some(list) => match key_texts(byte_views(list@), message) {
            Ok(keys) => (r matches Ok(Some(out)) && texts(out@) == keys),
            Err(e) => (r matches Err(found) && found@ == e),
        },
    }
}

fn indexed(raw: &Option<Vec<Vec<u8>>>, message: &str) -> (r: Result<Option<Vec<String>>, Error>)
    ensures
        index_answer(*raw, message@, r),
{
    match raw {
        None => Ok(None),
        Some(list) => Ok(Some(application_keys(list, message)?)),
    }
}

/// A create that is asked of the store.
#[derive(Debug)]
pub struct CollectionCreate {
    /// Name.
    pub name: String,
    /// Idempotency key.
    pub operation_id: [u8; 16],
}

/// What the store says of a collection that was created.
#[derive(Debug)]
pub struct AdminReceipt {
    /// The collection's id, or why the stored id is none.
    pub object_id: Result<[u8; 16], String>,
    /// Canonical name.
    pub name: String,
    /// Receipt id.
    pub receipt_id: [u8; 16],
    /// Hash of its descriptor.
    pub descriptor_hash: [u8; 32],
    /// When, in seconds since the epoch.
    pub created_at: u64,
    /// Idempotency key.
    pub operation_id: [u8; 16],
    /// Whether this was created by an earlier call with the same key.
    pub replayed: bool,
}

/// A collection that was created.
#[derive(Debug)]
pub struct CreatedCollection {
    /// Handle.
    pub collection: HeapCollection,
    /// Receipt id; that of the first call where this one is a repeat.
    pub receipt_id: [u8; 16],
    /// Hash of its descriptor.
    pub descriptor_hash: [u8; 32],
    /// When, in seconds since the epoch.
    pub created_at_unix_s: u64,
    /// Idempotency key.
    pub operation_id: [u8; 16],
    /// Whether this was created by an earlier call with the same key.
    pub replayed: bool,
}

/// What the catalogue lists, where it is there.
pub open spec fn entries_in(entries: Option<Vec<CatalogEntry>>) -> Option<Seq<CatalogEntry>> {
    match entries {
        Some(list) => Some(list@),
        None => None,
    }
}

impl Heap {
    /// Opens a heap that a capability is for.
    pub fn open_heap(cap: HeapCap) -> (r: Heap)
        ensures
            r.cap == cap,
    {
        Heap { cap }
    }

    /// Opens the heap that a capability is for, where it goes by a name.
    /// `entry` is what the descriptor chain says of the heap.
    pub fn open_named_heap(cap: HeapCap, entry: &Option<CatalogEntry>, name: &str) -> (r: Result<
        Heap,
        Error,
    >)
        ensures
            match r {
                Ok(h) => h.cap == cap && (entry matches Some(e) && goes_by(*e, name@)),
                Err(e) => match entry {
                    None => e@ == ErrorView::ValidationMsg("capability heap is not published"@),
                    Some(found) => !goes_by(*found, name@) && e@ == ErrorView::ValidationMsg(
                        "heap name "@ + debug_quoted(name@)
                            + " does not match the supplied capability"@,
                    ),
                },
            },
    {
        check_heap_name(entry, name)?;
        Ok(Heap::open_heap(cap))
    }

    /// Opens a collection by a name of the catalogue.
    pub fn collection(&self, entries: &Option<Vec<CatalogEntry>>, name: &str) -> (r: Result<
        HeapCollection,
        Error,
    >)
        ensures
            match r {
                Ok(c) => c.cap == self.cap && named_object(entries_in(*entries), name@) == Ok::<
                    ([u8; 16], Seq<char>),
                    ErrorView,
                >((c.id, c.name_at_open@)),
                Err(e) => named_object(entries_in(*entries), name@) == Err::<
                    ([u8; 16], Seq<char>),
                    ErrorView,
                >(e@),
            },
    {
        let (id, name_at_open) = lookup_named(entries, name)?;
        Ok(HeapCollection { cap: self.cap, id, name_at_open })
    }

    /// Opens a collection by its id. `entry` is what the descriptor chain says
    /// of the id.
    pub fn collection_by_id(&self, id: [u8; 16], entry: Option<CatalogEntry>) -> (r: Result<
        HeapCollection,
        Error,
    >)
        ensures
            match r {
                Ok(c) => c.cap == self.cap && c.id == id && (entry matches Some(e) && e.name@
                    == c.name_at_open@),
                Err(e) => entry is None && e@ == ErrorView::ValidationMsg(
                    "collection id unknown"@,
                ),
            },
    {
        match entry {
            Some(e) => Ok(HeapCollection { cap: self.cap, id, name_at_open: e.name }),
            None => Err(Error::ValidationMsg("collection id unknown".to_string())),
        }
    }

    /// Opens a stream by a name of the catalogue.
    pub fn stream(&self, entries: &Option<Vec<CatalogEntry>>, name: &str) -> (r: Result<
        HeapStream,
        Error,
    >)
        ensures
            match r {
                Ok(s) => s.cap == self.cap && named_object(entries_in(*entries), name@) == Ok::<
                    ([u8; 16], Seq<char>),
                    ErrorView,
                >((s.id, s.name_at_open@)),
                Err(e) => named_object(entries_in(*entries), name@) == Err::<
                    ([u8; 16], Seq<char>),
                    ErrorView,
                >(e@),
            },
    {
        let (id, name_at_open) = lookup_named(entries, name)?;
        Ok(HeapStream { cap: self.cap, id, name_at_open })
    }

    /// Opens a stream by its id.
    pub fn stream_by_id(&self, id: [u8; 16], entry: Option<CatalogEntry>) -> (r: Result<
        HeapStream,
        Error,
    >)
        ensures
            match r {
                Ok(s) => s.cap == self.cap && s.id == id && (entry matches Some(e) && e.name@
                    == s.name_at_open@),
                Err(e) => entry is None && e@ == ErrorView::ValidationMsg("stream id unknown"@),
            },
    {
        match entry {
            Some(e) => Ok(HeapStream { cap: self.cap, id, name_at_open: e.name }),
            None => Err(Error::ValidationMsg("stream id unknown".to_string())),
        }
    }

    /// Asks for a collection to be created. `minted` is a fresh idempotency
    /// key, for where none is given.
    pub fn create_collection_with(
        name: &str,
        valid: Result<(), Error>,
        operation_id: Option<[u8; 16]>,
        minted: Result<[u8; 16], String>,
    ) -> (r: Result<CollectionCreate, Error>)
        ensures
            match r {
                Ok(c) => valid is Ok && c.name@ == name@ && c.operation_id == (match operation_id {
                    Some(id) => id,
                    None => minted->Ok_0,
                }) && (operation_id is None ==> minted is Ok),
                Err(e) => match valid {
                    Err(refused) => e == refused,
                    Ok(_) => operation_id is None && (minted matches Err(m) && e@
                        == ErrorView::Internal(m@)),
                },
            },
    {
        valid?;
        let operation_id = match operation_id {
            Some(id) => id,
            None => match minted {
                Ok(id) => id,
                Err(m) => return Err(Error::Internal(m)),
            },
        };
        Ok(CollectionCreate { name: name.to_string(), operation_id })
    }

    /// Takes what the store says of a create.
    pub fn collection_created(&self, admin: Result<AdminReceipt, StoreError>) -> (r: Result<
        CreatedCollection,
        Error,
    >)
        ensures
            match admin {
                Err(e) => r is Err && r->Err_0@ == creation_error(e@),
                Ok(a) => match a.object_id {
                    Err(m) => r is Err && r->Err_0@ == ErrorView::Internal(m@),
                    Ok(id) => r == Ok::<CreatedCollection, Error>(
                        CreatedCollection {
                            collection: HeapCollection {
                                cap: self.cap,
                                id,
                                name_at_open: a.name,
                            },
                            receipt_id: a.receipt_id,
                            descriptor_hash: a.descriptor_hash,
                            created_at_unix_s: a.created_at,
                            operation_id: a.operation_id,
                            replayed: a.replayed,
                        },
                    ),
                },
            },
    {
        match admin {
            Err(e) => Err(map_create_object_err(e)),
            Ok(a) => match a.object_id {
                Err(m) => Err(Error::Internal(m)),
                Ok(id) => Ok(
                    CreatedCollection {
                        collection: HeapCollection { cap: self.cap, id, name_at_open: a.name },
                        receipt_id: a.receipt_id,
                        descriptor_hash: a.descriptor_hash,
                        created_at_unix_s: a.created_at,
                        operation_id: a.operation_id,
                        replayed: a.replayed,
                    },
                ),
            },
        }
    }
}

/// A document that was read once is read again from the cache, whatever its
/// body is said to decode to then, whenever its charge is within the bound and
/// the queue holds no earlier admission of that version.
pub proof fn law_second_read_is_cached(
    c: CacheView,
    key: DocumentKey,
    version: Seq<u8>,
    first: JsonView,
    encoded_len: usize,
    second: Result<JsonView, ErrorView>,
    second_len: usize,
)
    requires
        bounded(c.documents, c.max as nat),
        2 * c.max <= usize::MAX,
        document_charge(encoded_len, key.key) <= c.max,
        !c.documents.order.contains((key, version)),
    ensures
        read_through(
            read_through(c, key, version, Ok(first), encoded_len).0,
            key,
            version,
            second,
            second_len,
        ).1 == Ok::<JsonView, ErrorView>(first),
{
    let missed = observed(c, false);
    assert(cached(c, key, version) is None) by {
        if live(c.documents.entries, (key, version)) {
            assert(c.documents.entries.contains_key(key));
        }
    }
    let other = version.push(0);
    assert(other.len() != version.len());
    law_inserted_document_is_found(missed, key, version, first, encoded_len, other);
}

} // verus!
