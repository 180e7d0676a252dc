//! Handles bound to one heap capability.
//!
//! Handles, cursors, batch members and pooled connections carry the capability
//! they were made with. Two heaps whose collections share a name still cannot
//! exchange any of them: composition asks for the same capability instance.
use crate::codec::{be8, push_be8, push_text, read_utf8, same16, same32, utf8_in};
use crate::digest::{blake3_digest, hash_bytes};
use crate::error::{
    Error, ErrorView, StoreError, StoreErrorKind, StoreErrorKindView, StoreErrorView,
};
use crate::sorting::{
    in_order, law_sorted_is_in_order, law_sorted_is_permutation, sort, sorted, Sorter,
};
use crate::text::{
    cat2, cat3, compare_text, contains, debug_quoted, debug_text, holds_text,
    lemma_text_order_chain, lemma_text_order_flip, same_text, text_order, texts, Order,
};
use std::collections::VecDeque;
use vstd::prelude::*;

verus! {

/// An unforgeable capability for one heap. Clones of one capability share its
/// instance; a capability that was issued anew is another instance.
#[derive(Debug, Clone, Copy)]
pub struct HeapCap {
    /// Identity of the instance.
    pub instance: u64,
    /// Capability id.
    pub capability_id: [u8; 16],
    /// The heap it is for.
    pub heap_id: [u8; 16],
    /// Security revision it was issued under.
    pub security_revision: u64,
}

impl HeapCap {
    /// Whether `other` is the same instance.
    pub fn same_instance(&self, other: &HeapCap) -> (r: bool)
        ensures
            r == (self.instance == other.instance),
    {
        self.instance == other.instance
    }
}

/// The store's code for a kind of object.
#[derive(Debug, Clone, Copy, PartialEq, Eq, Structural)]
pub struct ObjectKind {
    /// The code.
    pub code: u8,
}

/// The bytes that a cursor's seal covers.
pub open spec fn sealed_bytes(
    capability_id: Seq<u8>,
    heap_id: Seq<u8>,
    kind: u8,
    object_id: Seq<u8>,
    position: Seq<u8>,
    security_revision: u64,
) -> Seq<u8> {
    vstd::utf8::encode_utf8("RESIDIUUM-HEAP-CURSOR-V1"@) + seq![0u8] + capability_id + heap_id + seq![
        kind,
    ] + object_id + be8(security_revision) + position
}

fn cursor_mac(
    capability_id: &[u8; 16],
    heap_id: &[u8; 16],
    kind: u8,
    object_id: &[u8; 16],
    position: &[u8],
    security_revision: u64,
) -> (r: [u8; 32])
    ensures
        r@ == blake3_digest(
            sealed_bytes(
                capability_id@,
                heap_id@,
                kind,
                object_id@,
                position@,
                security_revision,
            ),
        ),
{
    let mut bytes: Vec<u8> = Vec::new();
    push_text(&mut bytes, "RESIDIUUM-HEAP-CURSOR-V1");
    bytes.push(0u8);
    bytes.extend_from_slice(capability_id.as_slice());
    bytes.extend_from_slice(heap_id.as_slice());
    bytes.push(kind);
    bytes.extend_from_slice(object_id.as_slice());
    push_be8(&mut bytes, security_revision);
    bytes.extend_from_slice(position);
    proof {
        assert(bytes@ =~= sealed_bytes(
            capability_id@,
            heap_id@,
            kind,
            object_id@,
            position@,
            security_revision,
        ));
    }
    hash_bytes(bytes.as_slice())
}

/// A signed scan cursor, bound to one object of one heap.
#[derive(Debug, PartialEq, Eq)]
pub struct SignedCursor {
    capability_id: [u8; 16],
    heap_id: [u8; 16],
    object_kind: u8,
    object_id: [u8; 16],
    position: Vec<u8>,
    mac: [u8; 32],
}

/// Model of a [`SignedCursor`].
#[verifier::ext_equal]
pub struct SignedCursorView {
    pub capability_id: Seq<u8>,
    pub heap_id: Seq<u8>,
    pub object_kind: u8,
    pub object_id: Seq<u8>,
    pub position: Seq<u8>,
    pub mac: Seq<u8>,
}

impl View for SignedCursor {
    type V = SignedCursorView;

    closed spec fn view(&self) -> SignedCursorView {
        SignedCursorView {
            capability_id: self.capability_id@,
            heap_id: self.heap_id@,
            object_kind: self.object_kind,
            object_id: self.object_id@,
            position: self.position@,
            mac: self.mac@,
        }
    }
}

/// The cursor that a capability signs for a position of an object.
pub open spec fn signed(
    cap: HeapCap,
    kind: ObjectKind,
    object_id: Seq<u8>,
    position: Seq<u8>,
) -> SignedCursorView {
    SignedCursorView {
        capability_id: cap.capability_id@,
        heap_id: cap.heap_id@,
        object_kind: kind.code,
        object_id,
        position,
        mac: blake3_digest(
            sealed_bytes(
                cap.capability_id@,
                cap.heap_id@,
                kind.code,
                object_id,
                position,
                cap.security_revision,
            ),
        ),
    }
}

/// Why a cursor is refused for an object under a capability, where it is.
pub open spec fn cursor_refused(
    cursor: SignedCursorView,
    cap: HeapCap,
    kind: ObjectKind,
    object_id: Seq<u8>,
) -> Option<ErrorView> {
    if cursor.capability_id != cap.capability_id@ || cursor.heap_id != cap.heap_id@
        || cursor.object_kind != kind.code || cursor.object_id != object_id {
        Some(ErrorView::PermissionDenied("cursor heap/object mismatch"@))
    } else if cursor.mac != signed(cap, kind, object_id, cursor.position).mac {
        Some(ErrorView::PermissionDenied("cursor mac invalid"@))
    } else {
        None
    }
}

fn permission_denied(message: &str) -> (r: Error)
    ensures
        r@ == ErrorView::PermissionDenied(message@),
{
    Error::PermissionDenied(message.to_string())
}

impl SignedCursor {
    /// Signs a position of an object.
    pub fn sign(cap: &HeapCap, kind: ObjectKind, object_id: &[u8; 16], position: &[u8]) -> (r:
        SignedCursor)
        ensures
            r@ == signed(*cap, kind, object_id@, position@),
    {
        let mac = cursor_mac(
            &cap.capability_id,
            &cap.heap_id,
            kind.code,
            object_id,
            position,
            cap.security_revision,
        );
        SignedCursor {
            capability_id: cap.capability_id,
            heap_id: cap.heap_id,
            object_kind: kind.code,
            object_id: *object_id,
            position: crate::covered_reads::copy_bytes(position),
            mac,
        }
    }

    /// Checks that the cursor was signed for this object under this
    /// capability.
    pub fn verify(&self, cap: &HeapCap, kind: ObjectKind, object_id: &[u8; 16]) -> (r: Result<
        (),
        Error,
    >)
        ensures
            match r {
                Ok(_) => cursor_refused(self@, *cap, kind, object_id@) is None,
                Err(e) => cursor_refused(self@, *cap, kind, object_id@) == Some(e@),
            },
    {
        if !same16(&self.capability_id, &cap.capability_id) || !same16(
            &self.heap_id,
            &cap.heap_id,
        ) || self.object_kind != kind.code || !same16(&self.object_id, object_id) {
            return Err(permission_denied("cursor heap/object mismatch"));
        }
        let expect = cursor_mac(
            &self.capability_id,
            &self.heap_id,
            self.object_kind,
            &self.object_id,
            self.position.as_slice(),
            cap.security_revision,
        );
        if !same32(&expect, &self.mac) {
            return Err(permission_denied("cursor mac invalid"));
        }
        Ok(())
    }

    /// The position.
    pub fn position(&self) -> (r: &[u8])
        ensures
            r@ == self@.position,
    {
        self.position.as_slice()
    }
}

/// A cursor verifies under the capability and for the object it was signed
/// for.
pub proof fn law_signed_cursor_verifies(
    cap: HeapCap,
    kind: ObjectKind,
    object_id: Seq<u8>,
    position: Seq<u8>,
)
    ensures
        cursor_refused(signed(cap, kind, object_id, position), cap, kind, object_id) is None,
{
}

/// A cursor is refused under another capability id, for another heap, for
/// another kind and for another object.
pub proof fn law_foreign_cursor_is_refused(
    cap: HeapCap,
    kind: ObjectKind,
    object_id: Seq<u8>,
    position: Seq<u8>,
    other: HeapCap,
    other_kind: ObjectKind,
    other_object: Seq<u8>,
)
    requires
        cap.capability_id@ != other.capability_id@ || cap.heap_id@ != other.heap_id@ || kind.code
            != other_kind.code || object_id != other_object,
    ensures
        cursor_refused(signed(cap, kind, object_id, position), other, other_kind, other_object)
            == Some(ErrorView::PermissionDenied("cursor heap/object mismatch"@)),
{
}

/// A collection handle. What it is bound to does not change.
#[derive(Debug)]
pub struct HeapCollection {
    /// The capability it was opened with.
    pub cap: HeapCap,
    /// Collection id.
    pub id: [u8; 16],
    /// Name at the time it was opened.
    pub name_at_open: String,
}

impl HeapCollection {
    /// Collection id.
    pub fn id(&self) -> (r: [u8; 16])
        ensures
            r == self.id,
    {
        self.id
    }

    /// Name at the time it was opened.
    pub fn name(&self) -> (r: &str)
        ensures
            r@ == self.name_at_open@,
    {
        self.name_at_open.as_str()
    }

    /// The heap it belongs to.
    pub fn heap_id(&self) -> (r: [u8; 16])
        ensures
            r == self.cap.heap_id,
    {
        self.cap.heap_id
    }

    /// The capability it was opened with.
    pub fn capability(&self) -> (r: &HeapCap)
        ensures
            *r == self.cap,
    {
        &self.cap
    }

    /// Whether both handles were opened with the same capability instance.
    pub fn same_heap_instance(&self, other: &HeapCollection) -> (r: bool)
        ensures
            r == (self.cap.instance == other.cap.instance),
    {
        self.cap.same_instance(&other.cap)
    }

    /// Signs a position in the collection. `kind` is the store's code for
    /// collections.
    pub fn sign_cursor(&self, kind: ObjectKind, position: &[u8]) -> (r: SignedCursor)
        ensures
            r@ == signed(self.cap, kind, self.id@, position@),
    {
        SignedCursor::sign(&self.cap, kind, &self.id, position)
    }

    /// Checks that a cursor was signed for this collection.
    pub fn verify_cursor(&self, kind: ObjectKind, cursor: &SignedCursor) -> (r: Result<(), Error>)
        ensures
            match r {
                Ok(_) => cursor_refused(cursor@, self.cap, kind, self.id@) is None,
                Err(e) => cursor_refused(cursor@, self.cap, kind, self.id@) == Some(e@),
            },
    {
        cursor.verify(&self.cap, kind, &self.id)
    }
}

/// A stream handle.
#[derive(Debug)]
pub struct HeapStream {
    /// The capability it was opened with.
    pub cap: HeapCap,
    /// Stream id.
    pub id: [u8; 16],
    /// Name at the time it was opened.
    pub name_at_open: String,
}

impl HeapStream {
    /// Stream id.
    pub fn id(&self) -> (r: [u8; 16])
        ensures
            r == self.id,
    {
        self.id
    }

    /// Name at the time it was opened.
    pub fn name(&self) -> (r: &str)
        ensures
            r@ == self.name_at_open@,
    {
        self.name_at_open.as_str()
    }

    /// The capability it was opened with.
    pub fn capability(&self) -> (r: &HeapCap)
        ensures
            *r == self.cap,
    {
        &self.cap
    }

    /// Signs a position in the stream. `kind` is the store's code for streams.
    pub fn sign_cursor(&self, kind: ObjectKind, position: &[u8]) -> (r: SignedCursor)
        ensures
            r@ == signed(self.cap, kind, self.id@, position@),
    {
        SignedCursor::sign(&self.cap, kind, &self.id, position)
    }

    /// Checks that a cursor was signed for this stream.
    pub fn verify_cursor(&self, kind: ObjectKind, cursor: &SignedCursor) -> (r: Result<(), Error>)
        ensures
            match r {
                Ok(_) => cursor_refused(cursor@, self.cap, kind, self.id@) is None,
                Err(e) => cursor_refused(cursor@, self.cap, kind, self.id@) == Some(e@),
            },
    {
        cursor.verify(&self.cap, kind, &self.id)
    }
}

/// What marks a pooled connection.
#[derive(Debug, Clone, Copy)]
pub struct ConnectionToken {
    /// Capability id the connection was made for.
    pub capability_id: [u8; 16],
    /// When it was made, in seconds since the epoch.
    pub minted_unix_s: u64,
}

/// A pooled connection.
#[derive(Debug)]
pub struct HeapConnection {
    /// The capability it was checked out with.
    pub cap: HeapCap,
    /// Its mark.
    pub token: ConnectionToken,
}

impl HeapConnection {
    /// The capability it was checked out with.
    pub fn capability(&self) -> (r: &HeapCap)
        ensures
            *r == self.cap,
    {
        &self.cap
    }

    /// Refuses use with another heap handle.
    pub fn require_heap(&self, heap: &Heap) -> (r: Result<(), Error>)
        ensures
            match r {
                Ok(_) => self.cap.instance == heap.cap.instance && self.token.capability_id@
                    == heap.cap.capability_id@,
                Err(e) => !(self.cap.instance == heap.cap.instance && self.token.capability_id@
                    == heap.cap.capability_id@) && e@ == ErrorView::PermissionDenied(
                    "pooled connection heap mismatch"@,
                ),
            },
    {
        if self.cap.same_instance(&heap.cap) && same16(
            &self.token.capability_id,
            &heap.cap.capability_id,
        ) {
            Ok(())
        } else {
            Err(permission_denied("pooled connection heap mismatch"))
        }
    }
}

/// The idle connections of a heap, longest idle first.
pub struct HeapPool {
    /// The marks of the idle connections.
    pub idle: VecDeque<ConnectionToken>,
}

impl HeapPool {
    /// A pool with no idle connection.
    pub fn new() -> (r: HeapPool)
        ensures
            r.idle@ == Seq::<ConnectionToken>::empty(),
    {
        HeapPool { idle: VecDeque::new() }
    }

    /// Takes a connection back.
    pub fn give_back(&mut self, connection: HeapConnection)
        ensures
            final(self).idle@ == old(self).idle@.push(connection.token),
    {
        self.idle.push_back(connection.token);
    }
}

/// A batch whose members share one capability instance.
#[derive(Debug)]
pub struct HeapBatch {
    cap: HeapCap,
    members: Vec<[u8; 16]>,
}

impl HeapBatch {
    /// The capability of the batch.
    pub closed spec fn capability(&self) -> HeapCap {
        self.cap
    }

    /// The collections in the batch.
    pub closed spec fn view(&self) -> Seq<[u8; 16]> {
        self.members@
    }

    /// Adds a collection; one opened with another capability instance is
    /// refused.
    pub fn add_collection(&mut self, collection: &HeapCollection) -> (r: Result<(), Error>)
        ensures
            final(self).capability() == old(self).capability(),
            match r {
                Ok(_) => old(self).capability().instance == collection.cap.instance && final(self)@
                    == old(self)@.push(collection.id),
                Err(e) => {
                    &&& old(self).capability().instance != collection.cap.instance
                    &&& final(self)@ == old(self)@
                    &&& e@ == ErrorView::PermissionDenied("batch member heap mismatch"@)
                },
            },
    {
        if !self.cap.same_instance(&collection.cap) {
            return Err(permission_denied("batch member heap mismatch"));
        }
        self.members.push(collection.id);
        Ok(())
    }

    /// The collections in the batch, in the order they were added.
    pub fn members(&self) -> (r: &[[u8; 16]])
        ensures
            r@ == self@,
    {
        self.members.as_slice()
    }
}

/// A handle on one heap.
#[derive(Debug)]
pub struct Heap {
    /// The capability it was opened with.
    pub cap: HeapCap,
}

impl Heap {
    /// Heap id.
    pub fn id(&self) -> (r: [u8; 16])
        ensures
            r == self.cap.heap_id,
    {
        self.cap.heap_id
    }

    /// The capability it was opened with.
    pub fn capability(&self) -> (r: &HeapCap)
        ensures
            *r == self.cap,
    {
        &self.cap
    }

    /// Whether both handles were opened with the same capability instance.
    pub fn same_capability(&self, other: &Heap) -> (r: bool)
        ensures
            r == (self.cap.instance == other.cap.instance),
    {
        self.cap.same_instance(&other.cap)
    }

    /// Refuses to work together with a handle of another capability instance.
    pub fn require_same_instance(&self, other: &Heap) -> (r: Result<(), Error>)
        ensures
            match r {
                Ok(_) => self.cap.instance == other.cap.instance,
                Err(e) => self.cap.instance != other.cap.instance && e@
                    == ErrorView::PermissionDenied("heap capability instance mismatch"@),
            },
    {
        if self.cap.same_instance(&other.cap) {
            Ok(())
        } else {
            Err(permission_denied("heap capability instance mismatch"))
        }
    }

    /// An empty batch.
    pub fn begin_batch(&self) -> (r: HeapBatch)
        ensures
            r.capability() == self.cap,
            r@ == Seq::<[u8; 16]>::empty(),
    {
        HeapBatch { cap: self.cap, members: Vec::new() }
    }

    /// Checks a connection out: the longest idle one, or a new one that is
    /// marked with this heap's capability and the time given.
    pub fn checkout_connection(&self, pool: &mut HeapPool, now_unix_s: u64) -> (r: HeapConnection)
        ensures
            r.cap == self.cap,
            if old(pool).idle@.len() > 0 {
                r.token == old(pool).idle@[0] && final(pool).idle@ == old(pool).idle@.drop_first()
            } else {
                r.token.capability_id == self.cap.capability_id && r.token.minted_unix_s
                    == now_unix_s && final(pool).idle@ == old(pool).idle@
            },
    {
        let ghost before = pool.idle@;
        match pool.idle.pop_front() {
            Some(token) => {
                proof {
                    assert(pool.idle@ =~= before.drop_first());
                }
                HeapConnection { cap: self.cap, token }
            },
            None => HeapConnection {
                cap: self.cap,
                token: ConnectionToken {
                    capability_id: self.cap.capability_id,
                    minted_unix_s: now_unix_s,
                },
            },
        }
    }
}

/// An entry of a catalogue of collections or streams.
#[derive(Debug)]
pub struct CatalogEntry {
    /// The object's id, or why the stored id is none.
    pub object_id: Result<[u8; 16], String>,
    /// Canonical name.
    pub name: String,
    /// Other names.
    pub aliases: Vec<String>,
    /// Whether the object is retired.
    pub retired: bool,
    /// Hash of its descriptor.
    pub descriptor_hash: [u8; 32],
}

/// An entry goes by a name: its own, or one of its aliases.
pub open spec fn goes_by(e: CatalogEntry, name: Seq<char>) -> bool {
    e.name@ == name || texts(e.aliases@).contains(name)
}

fn is_named(e: &CatalogEntry, name: &str) -> (r: bool)
    ensures
        r == goes_by(*e, name@),
{
    if same_text(e.name.as_str(), name) {
        return true;
    }
    for i in 0..e.aliases.len()
        invariant
            forall|k: int| 0 <= k < i ==> (#[trigger] e.aliases@[k])@ != name@,
    {
        if same_text(e.aliases[i].as_str(), name) {
            proof {
                assert(texts(e.aliases@)[i as int] == name@);
            }
            return true;
        }
    }
    proof {
        assert forall|k: int| 0 <= k < texts(e.aliases@).len() implies texts(e.aliases@)[k]
            != name@ by {
            assert(e.aliases@[k]@ != name@);
        }
    }
    false
}

/// Position of the first entry that goes by a name.
pub open spec fn first_named(entries: Seq<CatalogEntry>, name: Seq<char>) -> Option<int>
    decreases entries.len(),
{
    if entries.len() == 0 {
        None
    } else {
        match first_named(entries.drop_last(), name) {
            Some(i) => Some(i),
            None => if goes_by(entries.last(), name) {
                Some(entries.len() - 1)
            } else {
                None
            },
        }
    }
}

/// The object found under a name in a catalogue: its id and its canonical name.
pub open spec fn named_object(entries: Option<Seq<CatalogEntry>>, name: Seq<char>) -> Result<
    ([u8; 16], Seq<char>),
    ErrorView,
> {
    match entries {
        Some(list) => match first_named(list, name) {
            Some(i) => match list[i].object_id {
                Ok(id) => Ok((id, list[i].name@)),
                Err(m) => Err(ErrorView::Internal(m@)),
            },
            None => Err(ErrorView::ValidationMsg("heap object name not found: "@ + name)),
        },
        None => Err(ErrorView::ValidationMsg("heap object name not found: "@ + name)),
    }
}

proof fn lemma_first_named(entries: Seq<CatalogEntry>, name: Seq<char>, n: int)
    requires
        0 <= n < entries.len(),
        goes_by(entries[n], name),
        forall|k: int| 0 <= k < n ==> !goes_by(#[trigger] entries[k], name),
    ensures
        first_named(entries, name) == Some(n),
    decreases entries.len(),
{
    if n < entries.len() - 1 {
        lemma_first_named(entries.drop_last(), name, n);
    } else {
        lemma_none_named(entries.drop_last(), name);
    }
}

proof fn lemma_none_named(entries: Seq<CatalogEntry>, name: Seq<char>)
    requires
        forall|k: int| 0 <= k < entries.len() ==> !goes_by(#[trigger] entries[k], name),
    ensures
        first_named(entries, name) is None,
    decreases entries.len(),
{
    if entries.len() > 0 {
        lemma_none_named(entries.drop_last(), name);
    }
}

/// Finds an object by name or alias in a catalogue, which may not be there.
pub fn lookup_named(entries: &Option<Vec<CatalogEntry>>, name: &str) -> (r: Result<
    ([u8; 16], String),
    Error,
>)
    ensures
        ({
            let found = named_object(
                match entries {
                    Some(list) => Some(list@),
                    None => None,
                },
                name@,
            );
            match r {
                Ok(o) => found == Ok::<([u8; 16], Seq<char>), ErrorView>((o.0, o.1@)),
                Err(e) => found == Err::<([u8; 16], Seq<char>), ErrorView>(e@),
            }
        }),
{
    if let Some(list) = entries {
        for i in 0..list.len()
            invariant
                *entries == Some(*list),
                forall|k: int| 0 <= k < i ==> !goes_by(#[trigger] list@[k], name@),
        {
            if is_named(&list[i], name) {
                proof {
                    lemma_first_named(list@, name@, i as int);
                }
                return match &list[i].object_id {
                    Ok(id) => Ok((*id, list[i].name.clone())),
                    Err(m) => Err(Error::Internal(m.clone())),
                };
            }
        }
        proof {
            lemma_none_named(list@, name@);
        }
    }
    Err(Error::ValidationMsg(cat2("heap object name not found: ", name)))
}

/// Checks that the heap a capability is for goes by a name. `entry` is what the
/// descriptor chain says of the heap.
pub fn check_heap_name(entry: &Option<CatalogEntry>, name: &str) -> (r: Result<(), Error>)
    ensures
        match r {
            Ok(_) => (entry matches Some(e) && goes_by(*e, name@)),
            Err(e) => match entry {
                None => e@ == ErrorView::ValidationMsg("capability heap is not published"@),
                Some(found) => !goes_by(*found, name@) && e@ == ErrorView::ValidationMsg(
                    "heap name "@ + debug_quoted(name@)
                        + " does not match the supplied capability"@,
                ),
            },
        },
{
    match entry {
        None => Err(Error::ValidationMsg("capability heap is not published".to_string())),
        Some(e) => if is_named(e, name) {
            Ok(())
        } else {
            Err(
                Error::ValidationMsg(
                    cat3(
                        "heap name ",
                        debug_text(name).as_str(),
                        " does not match the supplied capability",
                    ),
                ),
            )
        },
    }
}

/// One row of a listing of collections.
#[derive(Debug)]
pub struct ListedCollection {
    /// The heap it belongs to.
    pub heap_id: [u8; 16],
    /// Collection id.
    pub collection_id: [u8; 16],
    /// Canonical name.
    pub name: String,
    /// Hash of its descriptor.
    pub descriptor_hash: [u8; 32],
}

/// Model of a [`ListedCollection`].
#[verifier::ext_equal]
pub struct ListedCollectionView {
    pub heap_id: [u8; 16],
    pub collection_id: [u8; 16],
    pub name: Seq<char>,
    pub descriptor_hash: [u8; 32],
}

impl View for ListedCollection {
    type V = ListedCollectionView;

    open spec fn view(&self) -> ListedCollectionView {
        ListedCollectionView {
            heap_id: self.heap_id,
            collection_id: self.collection_id,
            name: self.name@,
            descriptor_hash: self.descriptor_hash,
        }
    }
}

/// The models of a listing.
pub open spec fn listing_views(v: Seq<ListedCollection>) -> Seq<ListedCollectionView> {
    v.map_values(|c: ListedCollection| c@)
}

/// The collections of a catalogue that are not retired, in its order. An id
/// that is none is an error.
pub open spec fn active(heap_id: [u8; 16], entries: Seq<CatalogEntry>) -> Result<
    Seq<ListedCollectionView>,
    ErrorView,
>
    decreases entries.len(),
{
    if entries.len() == 0 {
        Ok(Seq::empty())
    } else {
        match active(heap_id, entries.drop_last()) {
            Err(e) => Err(e),
            Ok(list) => {
                let e = entries.last();
                if e.retired {
                    Ok(list)
                } else {
                    match e.object_id {
                        Err(m) => Err(ErrorView::Internal(m@)),
                        Ok(collection_id) => Ok(
                            list.push(
                                ListedCollectionView {
                                    heap_id,
                                    collection_id,
                                    name: e.name@,
                                    descriptor_hash: e.descriptor_hash,
                                },
                            ),
                        ),
                    }
                }
            },
        }
    }
}

proof fn lemma_active_refused(heap_id: [u8; 16], entries: Seq<CatalogEntry>, n: int)
    requires
        0 <= n <= entries.len(),
        active(heap_id, entries.take(n)) is Err,
    ensures
        active(heap_id, entries) == active(heap_id, entries.take(n)),
    decreases entries.len(),
{
    if n < entries.len() {
        assert(entries.drop_last().take(n) =~= entries.take(n));
        lemma_active_refused(heap_id, entries.drop_last(), n);
    } else {
        assert(entries.take(n) =~= entries);
    }
}

/// Orders collections by name.
pub struct ByName {}

impl Sorter for ByName {
    type Item = ListedCollection;

    open spec fn order_of(self, a: ListedCollection, b: ListedCollection) -> Order {
        text_order(a.name@, b.name@)
    }

    fn order(&self, a: &ListedCollection, b: &ListedCollection) -> (r: Order) {
        compare_text(a.name.as_str(), b.name.as_str())
    }
}

/// A listing in the order of a catalogue.
fn active_collections(heap_id: [u8; 16], entries: &Vec<CatalogEntry>) -> (r: Result<
    Vec<ListedCollection>,
    Error,
>)
    ensures
        match r {
            Ok(list) => active(heap_id, entries@) == Ok::<Seq<ListedCollectionView>, ErrorView>(
                listing_views(list@),
            ),
            Err(e) => active(heap_id, entries@) == Err::<Seq<ListedCollectionView>, ErrorView>(e@),
        },
{
    let mut out: Vec<ListedCollection> = Vec::new();
    proof {
        assert(entries@.take(0) =~= Seq::empty());
        assert(listing_views(out@) =~= Seq::empty());
    }
    for i in 0..entries.len()
        invariant
            active(heap_id, entries@.take(i as int)) == Ok::<
                Seq<ListedCollectionView>,
                ErrorView,
            >(listing_views(out@)),
    {
        let e = &entries[i];
        let ghost before = listing_views(out@);
        proof {
            assert(entries@.take(i + 1).drop_last() =~= entries@.take(i as int));
            assert(entries@.take(i + 1).last() == *e);
        }
        if !e.retired {
            match &e.object_id {
                Ok(id) => {
                    out.push(
                        ListedCollection {
                            heap_id,
                            collection_id: *id,
                            name: e.name.clone(),
                            descriptor_hash: e.descriptor_hash,
                        },
                    );
                    proof {
                        assert(listing_views(out@) =~= before.push(out@[out@.len() - 1]@));
                    }
                },
                Err(m) => {
                    proof {
                        lemma_active_refused(heap_id, entries@, i + 1);
                    }
                    return Err(Error::Internal(m.clone()));
                },
            }
        }
    }
    proof {
        assert(entries@.take(entries@.len() as int) =~= entries@);
    }
    Ok(out)
}

/// Lists the active collections of a heap by name.
pub fn list_collections(heap_id: [u8; 16], entries: &Vec<CatalogEntry>) -> (r: Result<
    Vec<ListedCollection>,
    Error,
>)
    ensures
        match r {
            Ok(list) => exists|found: Seq<ListedCollection>|
                active(heap_id, entries@) == Ok::<Seq<ListedCollectionView>, ErrorView>(
                    listing_views(found),
                ) && list@ == #[trigger] sorted(ByName {  }, found),
            Err(e) => active(heap_id, entries@) == Err::<Seq<ListedCollectionView>, ErrorView>(e@),
        },
{
    let found = active_collections(heap_id, entries)?;
    Ok(sort(&ByName {  }, found))
}

/// A listing is ordered by name, and holds every active collection once.
pub proof fn law_listing_by_name(found: Seq<ListedCollection>)
    ensures
        in_order(ByName {  }, sorted(ByName {  }, found)),
        sorted(ByName {  }, found).to_multiset() == found.to_multiset(),
{
    let s = ByName {  };
    assert forall|a: ListedCollection, b: ListedCollection| #[trigger] s.order_of(b, a)
        == s.order_of(a, b).flip() by {
        lemma_text_order_flip(a.name@, b.name@);
    }
    assert forall|a: ListedCollection, b: ListedCollection, c: ListedCollection| #[trigger]
        s.order_of(a, b) != Order::Greater && #[trigger] s.order_of(b, c)
            != Order::Greater implies s.order_of(a, c) != Order::Greater by {
        lemma_text_order_chain(a.name@, b.name@, c.name@);
    }
    law_sorted_is_in_order(s, found);
    law_sorted_is_permutation(s, found);
}

/// What a refusal to create an object means: a name or id that is taken is
/// told apart.
pub open spec fn creation_error(e: StoreErrorView) -> ErrorView {
    match e.kind {
        StoreErrorKindView::HeapAdmit(m) => if holds_text(m, "name/alias conflict"@) || holds_text(
            m,
            "object id already exists"@,
        ) {
            ErrorView::Remote { code: "already_exists"@, message: m }
        } else {
            ErrorView::Store(e)
        },
        _ => ErrorView::Store(e),
    }
}

/// Maps a refusal to create an object.
pub fn map_create_object_err(e: StoreError) -> (r: Error)
    ensures
        r@ == creation_error(e@),
{
    if let StoreErrorKind::HeapAdmit(m) = &e.kind {
        if contains(m.as_str(), "name/alias conflict") || contains(
            m.as_str(),
            "object id already exists",
        ) {
            return Error::Remote { code: "already_exists".to_string(), message: m.clone() };
        }
    }
    Error::Store(e)
}

/// What must hold of a key for a conditional write.
#[derive(Debug, Clone, Copy)]
pub enum WriteCondition {
    /// Nothing.
    Unconditional,
    /// The key is absent.
    Absent,
    /// The key is present.
    Present,
    /// The live version is this one.
    LiveEventId([u8; 16]),
}

/// Whether a delete has to look at the key first to know if it removes
/// anything. A delete of a present or named version that succeeds removed it.
pub fn delete_observes(condition: &WriteCondition) -> (r: bool)
    ensures
        r == (condition is Unconditional || condition is Absent),
{
    match condition {
        WriteCondition::LiveEventId(_) | WriteCondition::Present => false,
        WriteCondition::Unconditional | WriteCondition::Absent => true,
    }
}

/// Whether a delete that succeeded removed a value. `existed` is what was seen
/// of the key before, where it was looked at.
pub fn delete_removed(condition: &WriteCondition, existed: bool) -> (r: bool)
    ensures
        r == (if condition is Unconditional || condition is Absent {
            existed
        } else {
            true
        }),
{
    if delete_observes(condition) {
        existed
    } else {
        true
    }
}

/// The texts that a list of store keys spells; the first that is not UTF-8 is
/// an error.
pub open spec fn key_texts(raw: Seq<Seq<u8>>, message: Seq<char>) -> Result<
    Seq<Seq<char>>,
    ErrorView,
>
    decreases raw.len(),
{
    if raw.len() == 0 {
        Ok(Seq::empty())
    } else {
        match key_texts(raw.drop_last(), message) {
            Err(e) => Err(e),
            Ok(list) => match utf8_in(raw.last()) {
                Some(k) => Ok(list.push(k)),
                None => Err(ErrorView::Internal(message)),
            },
        }
    }
}

proof fn lemma_key_texts_refused(raw: Seq<Seq<u8>>, message: Seq<char>, n: int)
    requires
        0 <= n <= raw.len(),
        key_texts(raw.take(n), message) is Err,
    ensures
        key_texts(raw, message) == key_texts(raw.take(n), message),
    decreases raw.len(),
{
    if n < raw.len() {
        assert(raw.drop_last().take(n) =~= raw.take(n));
        lemma_key_texts_refused(raw.drop_last(), message, n);
    } else {
        assert(raw.take(n) =~= raw);
    }
}

/// Reads a list of store keys as application keys.
pub fn application_keys(raw: &Vec<Vec<u8>>, message: &str) -> (r: Result<Vec<String>, Error>)
    ensures
        ({
            let bytes = crate::covered_reads::byte_views(raw@);
            match r {
                Ok(keys) => key_texts(bytes, message@) == Ok::<Seq<Seq<char>>, ErrorView>(
                    texts(keys@),
                ),
                Err(e) => key_texts(bytes, message@) == Err::<Seq<Seq<char>>, ErrorView>(e@),
            }
        }),
{
    let ghost bytes = crate::covered_reads::byte_views(raw@);
    let mut out: Vec<String> = Vec::new();
    proof {
        assert(bytes.take(0) =~= Seq::empty());
        assert(texts(out@) =~= Seq::empty());
    }
    for i in 0..raw.len()
        invariant
            bytes == crate::covered_reads::byte_views(raw@),
            key_texts(bytes.take(i as int), message@) == Ok::<Seq<Seq<char>>, ErrorView>(
                texts(out@),
            ),
    {
        let ghost before = texts(out@);
        proof {
            assert(bytes.take(i + 1).drop_last() =~= bytes.take(i as int));
            assert(bytes.take(i + 1).last() == raw@[i as int]@);
        }
        match read_utf8(raw[i].as_slice()) {
            Some(k) => {
                out.push(k);
                proof {
                    assert(texts(out@) =~= before.push(k@));
                }
            },
            None => {
                proof {
                    lemma_key_texts_refused(bytes, message@, i + 1);
                }
                return Err(Error::Internal(message.to_string()));
            },
        }
    }
    proof {
        assert(bytes.take(bytes.len() as int) =~= bytes);
    }
    Ok(out)
}

} // verus!
