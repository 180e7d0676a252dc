//! Plans that change several records of one heap at once.
//!
//! The engine that decides plans is asked by the caller. The functions here
//! bind collections to the rights of a capability, collect the steps of a
//! plan, say what a read has to witness, and account for outcomes.
use crate::app_v1::CollectionId;
use crate::codec::{push_text, same16};
use crate::digest::{blake3_digest, hash_bytes};
use crate::driver::{
    identity_failure, local_error, mint_id, zero_id, Error, ErrorClass, ErrorCode, ErrorView,
    RequestId,
};
use crate::error::{Error as SdkError, ErrorView as SdkErrorView, StoreErrorKind};
use crate::heap::{HeapCap, HeapCollection};
use vstd::prelude::*;

verus! {

/// Identity of a plan.
#[derive(Debug, Clone, Copy, PartialEq, Eq)]
pub struct AtomicId(pub [u8; 16]);

/// What a capability allows on a collection of a plan.
#[derive(Debug, Clone, Copy, PartialEq, Eq, Structural)]
pub struct CollectionRights {
    /// Read.
    pub read: bool,
    /// Create.
    pub create: bool,
    /// Put.
    pub put: bool,
    /// Replace.
    pub replace: bool,
    /// Delete.
    pub delete: bool,
}

/// The rights on a collection: reading comes with the right to read, every
/// mutation with the right to write.
pub fn collection_rights(read: bool, write: bool) -> (r: CollectionRights)
    ensures
        r == (CollectionRights {
            read,
            create: write,
            put: write,
            replace: write,
            delete: write,
        }),
{
    CollectionRights { read, create: write, put: write, replace: write, delete: write }
}

/// What the authority says of a capability.
#[derive(Debug)]
pub enum Frontier {
    /// Its lock is poisoned.
    Poisoned,
    /// It does not stand any more, with the message.
    Refused(String),
    /// It stands.
    Stands {
        /// It may read.
        read: bool,
        /// It may write.
        write: bool,
        /// Revision of the authority.
        revision: u64,
    },
}

/// A collection that a plan may touch.
#[derive(Debug, Clone, Copy)]
pub struct BoundCollection {
    /// Heap.
    pub heap_id: [u8; 16],
    /// Collection.
    pub collection_id: [u8; 16],
    /// Rights.
    pub rights: CollectionRights,
    /// Revision of the authority.
    pub revision: u64,
}

/// What becomes of a collection of a plan: it is bound, or refused.
pub open spec fn bound_outcome(
    cap: HeapCap,
    collection: HeapCollection,
    frontier: Frontier,
) -> Result<BoundCollection, ErrorView> {
    if cap.instance != collection.cap.instance {
        Err(
            local_error(
                ErrorCode::PermissionDenied,
                ErrorClass::Request,
                "Atomic collection belongs to a foreign capability instance"@,
            ),
        )
    } else {
        match frontier {
            Frontier::Poisoned => Err(
                local_error(
                    ErrorCode::PermissionDenied,
                    ErrorClass::Service,
                    "Heap authority frontier lock poisoned"@,
                ),
            ),
            Frontier::Refused(m) => Err(
                local_error(ErrorCode::PermissionDenied, ErrorClass::Service, m@),
            ),
            Frontier::Stands { read, write, revision } => Ok(
                BoundCollection {
                    heap_id: cap.heap_id,
                    collection_id: collection.id,
                    rights: CollectionRights {
                        read,
                        create: write,
                        put: write,
                        replace: write,
                        delete: write,
                    },
                    revision,
                },
            ),
        }
    }
}

/// Binds a collection to the capability of a plan. A handle of another
/// capability instance is refused before the authority is asked.
pub fn bind_collection(cap: &HeapCap, collection: &HeapCollection, frontier: &Frontier) -> (r: Result<
    BoundCollection,
    Error,
>)
    ensures
        match r {
            Ok(b) => bound_outcome(*cap, *collection, *frontier) == Ok::<BoundCollection, ErrorView>(b),
            Err(e) => bound_outcome(*cap, *collection, *frontier) == Err::<
                BoundCollection,
                ErrorView,
            >(e@),
        },
{
    if !cap.same_instance(&collection.cap) {
        return Err(
            Error::local(
                ErrorCode::PermissionDenied,
                ErrorClass::Request,
                "Atomic collection belongs to a foreign capability instance",
            ),
        );
    }
    match frontier {
        Frontier::Poisoned => Err(
            Error::local(
                ErrorCode::PermissionDenied,
                ErrorClass::Service,
                "Heap authority frontier lock poisoned",
            ),
        ),
        Frontier::Refused(m) => Err(
            Error::local(ErrorCode::PermissionDenied, ErrorClass::Service, m.as_str()),
        ),
        Frontier::Stands { read, write, revision } => Ok(
            BoundCollection {
                heap_id: cap.heap_id,
                collection_id: collection.id,
                rights: collection_rights(*read, *write),
                revision: *revision,
            },
        ),
    }
}

/// Why the plan engine refuses something.
#[derive(Debug, Clone, Copy, PartialEq, Eq, Structural)]
pub enum RefuseReason {
    /// The capability does not allow it.
    AuthorizationFailure,
    /// The collection belongs to another heap.
    CrossHeapCollection,
    /// The capability is stale or foreign.
    StaleOrForeignCapability,
    /// The plan is too large.
    LimitExceeded,
    /// Any other reason.
    Other,
}

/// An error of the plan engine.
#[derive(Debug)]
pub struct AtomicsError {
    /// Why it refuses, where it does.
    pub refused: Option<RefuseReason>,
    /// Its message.
    pub text: String,
}

/// Driver code of an error of the plan engine.
pub open spec fn atomics_code(refused: Option<RefuseReason>) -> ErrorCode {
    match refused {
        Some(RefuseReason::AuthorizationFailure) => ErrorCode::PermissionDenied,
        Some(RefuseReason::CrossHeapCollection) => ErrorCode::PermissionDenied,
        Some(RefuseReason::StaleOrForeignCapability) => ErrorCode::PermissionDenied,
        Some(RefuseReason::LimitExceeded) => ErrorCode::ResourceLimit,
        _ => ErrorCode::Validation,
    }
}

/// An error of the plan engine as a driver error.
pub fn atomics_error(error: AtomicsError) -> (r: Error)
    ensures
        r@ == local_error(atomics_code(error.refused), ErrorClass::Request, error.text@),
{
    let code = match error.refused {
        Some(RefuseReason::AuthorizationFailure) => ErrorCode::PermissionDenied,
        Some(RefuseReason::CrossHeapCollection) => ErrorCode::PermissionDenied,
        Some(RefuseReason::StaleOrForeignCapability) => ErrorCode::PermissionDenied,
        Some(RefuseReason::LimitExceeded) => ErrorCode::ResourceLimit,
        _ => ErrorCode::Validation,
    };
    Error::local(code, ErrorClass::Request, error.text.as_str())
}

/// A step of a plan.
#[derive(Debug)]
pub enum PlanStep {
    /// Insert a value under an absent key.
    Create {
        /// Key.
        key: String,
        /// Encoded value.
        value: Vec<u8>,
    },
    /// Put a value, whatever is there.
    PutUnconditional {
        /// Key.
        key: String,
        /// Encoded value.
        value: Vec<u8>,
    },
    /// Replace a live version.
    Replace {
        /// Key.
        key: String,
        /// Version that must be live.
        if_version: [u8; 16],
        /// Encoded value.
        value: Vec<u8>,
    },
    /// Delete a live version.
    Delete {
        /// Key.
        key: String,
        /// Version that must be live.
        if_version: [u8; 16],
    },
    /// The key has to be absent.
    AssertAbsent {
        /// Key.
        key: String,
    },
    /// The key has to be present.
    AssertPresent {
        /// Key.
        key: String,
    },
    /// The version has to be live.
    AssertVersion {
        /// Key.
        key: String,
        /// Version.
        version: [u8; 16],
    },
}

/// A plan under construction, bound to a capability. No lock is held between
/// its steps.
#[derive(Debug)]
pub struct AtomicBuilder {
    /// Capability.
    pub cap: HeapCap,
    /// Identity of the plan.
    pub atomic_id: AtomicId,
    /// Steps with the collections that they touch.
    pub steps: Vec<(BoundCollection, PlanStep)>,
    /// Deadline of the submission.
    pub deadline: Option<u64>,
}

/// A plan that is closed.
#[derive(Debug)]
pub struct AtomicPlan {
    heap_id: [u8; 16],
    atomic_id: AtomicId,
    steps: Vec<(BoundCollection, PlanStep)>,
    deadline: Option<u64>,
}

impl AtomicPlan {
    /// Heap of the plan.
    pub closed spec fn heap(self) -> [u8; 16] {
        self.heap_id
    }

    /// Identity of the plan.
    pub closed spec fn identity(self) -> AtomicId {
        self.atomic_id
    }

    /// Steps of the plan.
    pub closed spec fn content(self) -> Seq<(BoundCollection, PlanStep)> {
        self.steps@
    }

    /// Deadline of the submission.
    pub closed spec fn due(self) -> Option<u64> {
        self.deadline
    }

    /// Identity of the plan.
    pub fn atomic_id(&self) -> (r: AtomicId)
        ensures
            r == self.identity(),
    {
        self.atomic_id
    }

    /// Steps of the plan.
    pub fn steps(&self) -> (r: &Vec<(BoundCollection, PlanStep)>)
        ensures
            r@ == self.content(),
    {
        &self.steps
    }

    /// Deadline of the submission.
    pub fn deadline(&self) -> (r: Option<u64>)
        ensures
            r == self.due(),
    {
        self.deadline
    }

    /// The same plan with another deadline. What the plan is does not change.
    pub fn with_deadline(self, deadline: u64) -> (r: AtomicPlan)
        ensures
            r.heap() == self.heap(),
            r.identity() == self.identity(),
            r.content() == self.content(),
            r.due() == Some(deadline),
    {
        AtomicPlan {
            heap_id: self.heap_id,
            atomic_id: self.atomic_id,
            steps: self.steps,
            deadline: Some(deadline),
        }
    }

    /// The same plan without a deadline. What the plan is does not change.
    pub fn without_deadline(self) -> (r: AtomicPlan)
        ensures
            r.heap() == self.heap(),
            r.identity() == self.identity(),
            r.content() == self.content(),
            r.due() is None,
    {
        AtomicPlan {
            heap_id: self.heap_id,
            atomic_id: self.atomic_id,
            steps: self.steps,
            deadline: None,
        }
    }

    /// Refuses a plan of another heap.
    pub fn check_heap(&self, heap_id: &[u8; 16]) -> (r: Result<(), Error>)
        ensures
            match r {
                Ok(_) => self.heap()@ == heap_id@,
                Err(e) => self.heap()@ != heap_id@ && e@ == local_error(
                    ErrorCode::PermissionDenied,
                    ErrorClass::Request,
                    "Atomic plan belongs to a foreign Heap"@,
                ),
            },
    {
        if same16(&self.heap_id, heap_id) {
            Ok(())
        } else {
            Err(
                Error::local(
                    ErrorCode::PermissionDenied,
                    ErrorClass::Request,
                    "Atomic plan belongs to a foreign Heap",
                ),
            )
        }
    }
}

/// The refusal of the plan engine, where it refuses.
pub open spec fn engine_refusal(verdict: Result<(), AtomicsError>) -> Option<ErrorView> {
    match verdict {
        Ok(_) => None,
        Err(e) => Some(local_error(atomics_code(e.refused), ErrorClass::Request, e.text@)),
    }
}

/// The first refusal of two.
pub open spec fn first_refusal(a: Option<ErrorView>, b: Option<ErrorView>) -> Option<ErrorView> {
    match a {
        Some(e) => Some(e),
        None => b,
    }
}

/// What becomes of a step whose collection is bound before anything else is
/// looked at. `refusal` is why the step itself is refused, where it is.
pub open spec fn step_outcome(
    cap: HeapCap,
    collection: HeapCollection,
    frontier: Frontier,
    refusal: Option<ErrorView>,
) -> Result<BoundCollection, ErrorView> {
    match bound_outcome(cap, collection, frontier) {
        Err(e) => Err(e),
        Ok(b) => match refusal {
            Some(e) => Err(e),
            None => Ok(b),
        },
    }
}

/// The refusal of a value that does not encode.
pub open spec fn encoding_refusal(value: Result<Vec<u8>, Error>) -> Option<ErrorView> {
    match value {
        Ok(_) => None,
        Err(e) => Some(e@),
    }
}

/// What a plan under construction is after a step, and what the step gives.
pub open spec fn stepped(
    before: AtomicBuilder,
    after: AtomicBuilder,
    outcome: Result<BoundCollection, ErrorView>,
    step: PlanStep,
    r: Result<(), Error>,
) -> bool {
    &&& after.cap == before.cap
    &&& after.atomic_id == before.atomic_id
    &&& after.deadline == before.deadline
    &&& match outcome {
        Ok(b) => r is Ok && after.steps@ == before.steps@.push((b, step)),
        Err(e) => r is Err && r->Err_0@ == e && after.steps@ == before.steps@,
    }
}

impl AtomicBuilder {
    /// A plan without steps. `verdict` is what the plan engine says of its
    /// options.
    pub fn new(
        cap: HeapCap,
        atomic_id: AtomicId,
        deadline: Option<u64>,
        verdict: Result<(), AtomicsError>,
    ) -> (r: Result<AtomicBuilder, Error>)
        ensures
            match engine_refusal(verdict) {
                None => r is Ok && r->Ok_0.cap == cap && r->Ok_0.atomic_id == atomic_id
                    && r->Ok_0.deadline == deadline && r->Ok_0.steps@ == Seq::<
                    (BoundCollection, PlanStep),
                >::empty(),
                Some(e) => r is Err && r->Err_0@ == e,
            },
    {
        match verdict {
            Ok(_) => Ok(AtomicBuilder { cap, atomic_id, steps: Vec::new(), deadline }),
            Err(e) => Err(atomics_error(e)),
        }
    }

    /// Adds a step on a collection. `verdict` is what the plan engine says of
    /// the step. A refused step leaves the plan as it was.
    fn add_step(
        &mut self,
        collection: &HeapCollection,
        frontier: &Frontier,
        step: PlanStep,
        verdict: Result<(), AtomicsError>,
    ) -> (r: Result<(), Error>)
        ensures
            stepped(
                *old(self),
                *final(self),
                step_outcome(old(self).cap, *collection, *frontier, engine_refusal(verdict)),
                step,
                r,
            ),
    {
        let bound = bind_collection(&self.cap, collection, frontier)?;
        match verdict {
            Ok(_) => {
                self.steps.push((bound, step));
                Ok(())
            },
            Err(e) => Err(atomics_error(e)),
        }
    }

    /// Inserts a value only where the key is absent. The step arguments of this
    /// and of the methods below: the collection, what its authority says, the
    /// key and value, and what the plan engine says of the step.
    pub fn create(
        &mut self,
        collection: &HeapCollection,
        frontier: &Frontier,
        key: String,
        value: Result<Vec<u8>, Error>,
        verdict: Result<(), AtomicsError>,
    ) -> (r: Result<(), Error>)
        ensures
            stepped(
                *old(self),
                *final(self),
                step_outcome(
                    old(self).cap,
                    *collection,
                    *frontier,
                    first_refusal(encoding_refusal(value), engine_refusal(verdict)),
                ),
                PlanStep::Create { key, value: value->Ok_0 },
                r,
            ),
    {
        match value {
            Ok(value) => self.add_step(
                collection,
                frontier,
                PlanStep::Create { key, value },
                verdict,
            ),
            Err(e) => {
                let _ = bind_collection(&self.cap, collection, frontier)?;
                Err(e)
            },
        }
    }

    /// Puts a value, whatever is there.
    pub fn put_unconditional(
        &mut self,
        collection: &HeapCollection,
        frontier: &Frontier,
        key: String,
        value: Result<Vec<u8>, Error>,
        verdict: Result<(), AtomicsError>,
    ) -> (r: Result<(), Error>)
        ensures
            stepped(
                *old(self),
                *final(self),
                step_outcome(
                    old(self).cap,
                    *collection,
                    *frontier,
                    first_refusal(encoding_refusal(value), engine_refusal(verdict)),
                ),
                PlanStep::PutUnconditional { key, value: value->Ok_0 },
                r,
            ),
    {
        match value {
            Ok(value) => self.add_step(
                collection,
                frontier,
                PlanStep::PutUnconditional { key, value },
                verdict,
            ),
            Err(e) => {
                let _ = bind_collection(&self.cap, collection, frontier)?;
                Err(e)
            },
        }
    }

    /// Replaces a version that is still live. `version` is what the plan engine
    /// says of the version, before the value is looked at.
    pub fn replace(
        &mut self,
        collection: &HeapCollection,
        frontier: &Frontier,
        key: String,
        if_version: [u8; 16],
        version: Result<(), AtomicsError>,
        value: Result<Vec<u8>, Error>,
        verdict: Result<(), AtomicsError>,
    ) -> (r: Result<(), Error>)
        ensures
            stepped(
                *old(self),
                *final(self),
                step_outcome(
                    old(self).cap,
                    *collection,
                    *frontier,
                    first_refusal(
                        engine_refusal(version),
                        first_refusal(encoding_refusal(value), engine_refusal(verdict)),
                    ),
                ),
                PlanStep::Replace { key, if_version, value: value->Ok_0 },
                r,
            ),
    {
        let _ = bind_collection(&self.cap, collection, frontier)?;
        match version {
            Err(e) => {
                return Err(atomics_error(e));
            },
            Ok(_) => {},
        }
        match value {
            Ok(value) => self.add_step(
                collection,
                frontier,
                PlanStep::Replace { key, if_version, value },
                verdict,
            ),
            Err(e) => Err(e),
        }
    }

    /// Deletes a version that is still live.
    pub fn delete(
        &mut self,
        collection: &HeapCollection,
        frontier: &Frontier,
        key: String,
        if_version: [u8; 16],
        verdict: Result<(), AtomicsError>,
    ) -> (r: Result<(), Error>)
        ensures
            stepped(
                *old(self),
                *final(self),
                step_outcome(old(self).cap, *collection, *frontier, engine_refusal(verdict)),
                PlanStep::Delete { key, if_version },
                r,
            ),
    {
        self.add_step(collection, frontier, PlanStep::Delete { key, if_version }, verdict)
    }

    /// Demands that a key is absent.
    pub fn assert_absent(
        &mut self,
        collection: &HeapCollection,
        frontier: &Frontier,
        key: String,
        verdict: Result<(), AtomicsError>,
    ) -> (r: Result<(), Error>)
        ensures
            stepped(
                *old(self),
                *final(self),
                step_outcome(old(self).cap, *collection, *frontier, engine_refusal(verdict)),
                PlanStep::AssertAbsent { key },
                r,
            ),
    {
        self.add_step(collection, frontier, PlanStep::AssertAbsent { key }, verdict)
    }

    /// Demands that a key is present.
    pub fn assert_present(
        &mut self,
        collection: &HeapCollection,
        frontier: &Frontier,
        key: String,
        verdict: Result<(), AtomicsError>,
    ) -> (r: Result<(), Error>)
        ensures
            stepped(
                *old(self),
                *final(self),
                step_outcome(old(self).cap, *collection, *frontier, engine_refusal(verdict)),
                PlanStep::AssertPresent { key },
                r,
            ),
    {
        self.add_step(collection, frontier, PlanStep::AssertPresent { key }, verdict)
    }

    /// Demands that a version is live.
    pub fn assert_version(
        &mut self,
        collection: &HeapCollection,
        frontier: &Frontier,
        key: String,
        version: [u8; 16],
        verdict: Result<(), AtomicsError>,
    ) -> (r: Result<(), Error>)
        ensures
            stepped(
                *old(self),
                *final(self),
                step_outcome(old(self).cap, *collection, *frontier, engine_refusal(verdict)),
                PlanStep::AssertVersion { key, version },
                r,
            ),
    {
        self.add_step(collection, frontier, PlanStep::AssertVersion { key, version }, verdict)
    }

    /// Begins a read of a key: the plan answers where it touches the key, else
    /// the store is read. `planned` is what the plan engine says of the key, and
    /// `decoded` what the encoded value of the plan decodes to.
    pub fn read<T>(
        &self,
        collection: &HeapCollection,
        frontier: &Frontier,
        planned: Result<ConstructionRead, AtomicsError>,
        decoded: Result<T, String>,
    ) -> (r: Result<ReadStep<T>, Error>)
        ensures
            match bound_outcome(self.cap, *collection, *frontier) {
                Err(e) => r is Err && r->Err_0@ == e,
                Ok(_) => match planned {
                    Err(e) => r is Err && r->Err_0@ == local_error(
                        atomics_code(e.refused),
                        ErrorClass::Request,
                        e.text@,
                    ),
                    Ok(ConstructionRead::External) => r is Ok && r->Ok_0 is Fetch,
                    Ok(ConstructionRead::Absent) => r == Ok::<ReadStep<T>, Error>(
                        ReadStep::Done(AtomicRead::Absent),
                    ),
                    Ok(ConstructionRead::Present) => match decoded {
                        Ok(value) => r == Ok::<ReadStep<T>, Error>(
                            ReadStep::Done(AtomicRead::Present { value, version: None }),
                        ),
                        Err(m) => r is Err && r->Err_0@ == damaged(m@),
                    },
                },
            },
    {
        let _ = bind_collection(&self.cap, collection, frontier)?;
        match planned {
            Err(e) => Err(atomics_error(e)),
            Ok(ConstructionRead::External) => Ok(ReadStep::Fetch),
            Ok(ConstructionRead::Absent) => Ok(ReadStep::Done(AtomicRead::Absent)),
            Ok(ConstructionRead::Present) => match decoded {
                Ok(value) => Ok(ReadStep::Done(AtomicRead::Present { value, version: None })),
                Err(m) => Err(
                    Error::local(ErrorCode::DataDamaged, ErrorClass::Service, m.as_str()),
                ),
            },
        }
    }

    /// Closes the plan. `verdict` is what the plan engine says of it.
    pub fn build(self, verdict: Result<(), AtomicsError>) -> (r: Result<AtomicPlan, Error>)
        ensures
            match engine_refusal(verdict) {
                None => r is Ok && r->Ok_0.heap() == self.cap.heap_id && r->Ok_0.identity()
                    == self.atomic_id && r->Ok_0.content() == self.steps@ && r->Ok_0.due()
                    == self.deadline,
                Some(e) => r is Err && r->Err_0@ == e,
            },
    {
        match verdict {
            Ok(_) => Ok(
                AtomicPlan {
                    heap_id: self.cap.heap_id,
                    atomic_id: self.atomic_id,
                    steps: self.steps,
                    deadline: self.deadline,
                },
            ),
            Err(e) => Err(atomics_error(e)),
        }
    }
}

/// What a read in a plan gives.
#[derive(Debug)]
pub enum AtomicRead<T> {
    /// A value.
    Present {
        /// Decoded value.
        value: T,
        /// Version of the store; a planned value has none.
        version: Option<[u8; 16]>,
    },
    /// No value.
    Absent,
}

/// What a plan says of a key.
#[derive(Debug, Clone, Copy, PartialEq, Eq, Structural)]
pub enum ConstructionRead {
    /// A step of the plan writes a value.
    Present,
    /// A step of the plan deletes the key.
    Absent,
    /// The plan does not touch the key.
    External,
}

/// How a read in a plan goes on.
#[derive(Debug)]
pub enum ReadStep<T> {
    /// It is done.
    Done(AtomicRead<T>),
    /// The store is read, together with its frontier.
    Fetch,
}

/// The error of a body that does not decode.
pub open spec fn damaged(message: Seq<char>) -> ErrorView {
    local_error(ErrorCode::DataDamaged, ErrorClass::Service, message)
}

/// What a read of the store has to witness in the plan.
#[derive(Debug)]
pub enum Witness {
    /// The key is absent.
    Absent {
        /// Hash of the absence.
        hash: [u8; 32],
    },
    /// The version is live.
    Version {
        /// Version.
        version: [u8; 16],
        /// Hash of the body.
        body_hash: [u8; 32],
    },
}

/// What the hash of an absent key covers.
pub open spec fn absence_input(collection: Seq<u8>, key: Seq<u8>) -> Seq<u8> {
    vstd::utf8::encode_utf8("RESIDIUUM-ATOMIC-ABSENT-PROJECTION-V1"@) + collection + key
}

/// The hash of an absent key.
pub fn absent_hash(collection: &CollectionId, key: &[u8]) -> (r: [u8; 32])
    ensures
        r@ == blake3_digest(absence_input(collection.0@, key@)),
{
    let mut input: Vec<u8> = Vec::new();
    push_text(&mut input, "RESIDIUUM-ATOMIC-ABSENT-PROJECTION-V1");
    input.extend_from_slice(collection.0.as_slice());
    input.extend_from_slice(key);
    proof {
        assert(input@ =~= absence_input(collection.0@, key@));
    }
    hash_bytes(input.as_slice())
}

/// Within one collection the hashes of two absent keys cover different bytes.
pub proof fn law_absent_keys_are_told_apart(collection: Seq<u8>, a: Seq<u8>, b: Seq<u8>)
    requires
        absence_input(collection, a) == absence_input(collection, b),
    ensures
        a == b,
{
    let head = vstd::utf8::encode_utf8("RESIDIUUM-ATOMIC-ABSENT-PROJECTION-V1"@) + collection;
    assert(a =~= absence_input(collection, a).skip(head.len() as int));
    assert(b =~= absence_input(collection, b).skip(head.len() as int));
}

/// What a read of the store has to witness: the live version with the hash of
/// its body, or the absence of the key.
pub fn witness_for(
    collection: &CollectionId,
    key: &str,
    observed: &Option<(Vec<u8>, [u8; 16])>,
) -> (r: Witness)
    ensures
        match observed {
            None => r matches Witness::Absent { hash } && hash@ == blake3_digest(
                absence_input(collection.0@, vstd::utf8::encode_utf8(key@)),
            ),
            Some(o) => r matches Witness::Version { version, body_hash } && version == o.1
                && body_hash@ == blake3_digest(o.0@),
        },
{
    match observed {
        None => Witness::Absent { hash: absent_hash(collection, key.as_bytes()) },
        Some(o) => Witness::Version { version: o.1, body_hash: hash_bytes(o.0.as_slice()) },
    }
}

/// Ends a read of the store. The plan engine first takes the frontier of the
/// store, then the witness that [`witness_for`] gives; only then is the body
/// looked at, which `decoded` is what it decodes to.
pub fn read_observed<T>(
    bound: Result<(), AtomicsError>,
    witnessed: Result<(), AtomicsError>,
    observed: Option<([u8; 16], Result<T, String>)>,
) -> (r: Result<AtomicRead<T>, Error>)
    ensures
        match first_refusal(engine_refusal(bound), engine_refusal(witnessed)) {
            Some(e) => r is Err && r->Err_0@ == e,
            None => match observed {
                None => r == Ok::<AtomicRead<T>, Error>(AtomicRead::Absent),
                Some(o) => match o.1 {
                    Ok(value) => r == Ok::<AtomicRead<T>, Error>(
                        AtomicRead::Present { value, version: Some(o.0) },
                    ),
                    Err(m) => r is Err && r->Err_0@ == damaged(m@),
                },
            },
        },
{
    match bound {
        Err(e) => {
            return Err(atomics_error(e));
        },
        Ok(_) => {},
    }
    match witnessed {
        Err(e) => {
            return Err(atomics_error(e));
        },
        Ok(_) => {},
    }
    match observed {
        None => Ok(AtomicRead::Absent),
        Some(o) => {
            let (version, decoded) = o;
            match decoded {
                Ok(value) => Ok(AtomicRead::Present { value, version: Some(version) }),
                Err(m) => Err(
                    Error::local(ErrorCode::DataDamaged, ErrorClass::Service, m.as_str()),
                ),
            }
        },
    }
}

/// How a plan ended.
#[derive(Debug, Clone, Copy, PartialEq, Eq, Structural)]
pub enum AtomicVerdict {
    /// It took effect.
    Committed,
    /// It did not take effect.
    NotCommitted,
    /// That is not known; it has to be looked up by the plan's identity.
    Unknown,
}

/// A failure came for certain before the engine accepted the plan.
pub open spec fn before_acceptance(e: SdkErrorView) -> bool {
    e matches SdkErrorView::Store(s) && (s.kind is AtomicStage || s.kind is HeapCapability
        || s.kind is HeapAdmit)
}

/// Tells whether a failure came for certain before the engine accepted the
/// plan.
pub fn definitely_before_atomic_acceptance(error: &SdkError) -> (r: bool)
    ensures
        r == before_acceptance(error@),
{
    match error {
        SdkError::Store(s) => match s.kind {
            StoreErrorKind::AtomicStage => true,
            StoreErrorKind::HeapCapability => true,
            StoreErrorKind::HeapAdmit(_) => true,
            _ => false,
        },
        _ => false,
    }
}

/// What a submitted plan came to: a failure counts as such only where the
/// engine cannot have accepted the plan.
pub fn decided(outcome: Result<AtomicVerdict, SdkError>) -> (r: Result<AtomicVerdict, SdkError>)
    ensures
        match outcome {
            Ok(v) => r == Ok::<AtomicVerdict, SdkError>(v),
            Err(e) => if before_acceptance(e@) {
                r == Err::<AtomicVerdict, SdkError>(e)
            } else {
                r == Ok::<AtomicVerdict, SdkError>(AtomicVerdict::Unknown)
            },
        },
{
    match outcome {
        Ok(v) => Ok(v),
        Err(e) => if definitely_before_atomic_acceptance(&e) {
            Err(e)
        } else {
            Ok(AtomicVerdict::Unknown)
        },
    }
}

/// Counters of plans. They go round at their ends.
#[derive(Debug, Clone, Copy, PartialEq, Eq, Structural)]
pub struct AtomicCounters {
    /// Plans submitted.
    pub submitted: u64,
    /// Plans in flight.
    pub inflight: u64,
    /// Members of submitted plans.
    pub submitted_members: u64,
    /// Most members in a plan.
    pub max_members: usize,
    /// Bytes of submitted plans.
    pub submitted_plan_bytes: u64,
    /// Most bytes in a plan.
    pub max_plan_bytes: usize,
    /// Plans that took effect.
    pub committed: u64,
    /// Plans that did not take effect.
    pub not_committed: u64,
    /// Plans whose outcome is not known.
    pub unknown: u64,
    /// Plans that ended with an error.
    pub refused: u64,
    /// Plans whose identity was used before.
    pub identity_conflicts: u64,
    /// Time in the engine.
    pub total_engine_latency_ns: u64,
    /// Most time in the engine.
    pub max_engine_latency_ns: u64,
    /// Lookups of outcomes.
    pub status_lookups: u64,
}

/// A counter after more was added; it goes round at its end.
pub open spec fn around(n: u64, more: u64) -> u64 {
    if n + more > u64::MAX {
        (n + more - 0x1_0000_0000_0000_0000) as u64
    } else {
        (n + more) as u64
    }
}

fn around_exec(n: u64, more: u64) -> (r: u64)
    ensures
        r == around(n, more),
{
    if more > u64::MAX - n {
        more - (u64::MAX - n) - 1
    } else {
        n + more
    }
}

/// The larger of two.
pub open spec fn larger(a: int, b: int) -> int {
    if a > b {
        a
    } else {
        b
    }
}

/// Counters after a plan was submitted.
pub open spec fn submitted(c: AtomicCounters, members: usize, bytes: usize) -> AtomicCounters {
    AtomicCounters {
        submitted: around(c.submitted, 1),
        inflight: around(c.inflight, 1),
        submitted_members: around(c.submitted_members, members as u64),
        max_members: larger(c.max_members as int, members as int) as usize,
        submitted_plan_bytes: around(c.submitted_plan_bytes, bytes as u64),
        max_plan_bytes: larger(c.max_plan_bytes as int, bytes as int) as usize,
        ..c
    }
}

/// Counters after a plan left the engine.
pub open spec fn released(c: AtomicCounters) -> AtomicCounters {
    AtomicCounters { inflight: around(c.inflight, u64::MAX), ..c }
}

/// Counters after a plan was decided.
pub open spec fn accounted(c: AtomicCounters, verdict: AtomicVerdict, elapsed_ns: u64) -> AtomicCounters {
    AtomicCounters {
        total_engine_latency_ns: around(c.total_engine_latency_ns, elapsed_ns),
        max_engine_latency_ns: larger(c.max_engine_latency_ns as int, elapsed_ns as int) as u64,
        committed: if verdict == AtomicVerdict::Committed {
            around(c.committed, 1)
        } else {
            c.committed
        },
        not_committed: if verdict == AtomicVerdict::NotCommitted {
            around(c.not_committed, 1)
        } else {
            c.not_committed
        },
        unknown: if verdict == AtomicVerdict::Unknown {
            around(c.unknown, 1)
        } else {
            c.unknown
        },
        ..c
    }
}

impl AtomicCounters {
    /// Counters at zero.
    pub fn new() -> (r: AtomicCounters)
        ensures
            r.submitted == 0,
            r.inflight == 0,
            r.submitted_members == 0,
            r.max_members == 0,
            r.submitted_plan_bytes == 0,
            r.max_plan_bytes == 0,
            r.committed == 0,
            r.not_committed == 0,
            r.unknown == 0,
            r.refused == 0,
            r.identity_conflicts == 0,
            r.total_engine_latency_ns == 0,
            r.max_engine_latency_ns == 0,
            r.status_lookups == 0,
    {
        AtomicCounters {
            submitted: 0,
            inflight: 0,
            submitted_members: 0,
            max_members: 0,
            submitted_plan_bytes: 0,
            max_plan_bytes: 0,
            committed: 0,
            not_committed: 0,
            unknown: 0,
            refused: 0,
            identity_conflicts: 0,
            total_engine_latency_ns: 0,
            max_engine_latency_ns: 0,
            status_lookups: 0,
        }
    }

    /// A plan with so many members and bytes is submitted.
    fn submit(&mut self, members: usize, bytes: usize)
        ensures
            *final(self) == submitted(*old(self), members, bytes),
    {
        self.submitted = around_exec(self.submitted, 1);
        self.inflight = around_exec(self.inflight, 1);
        self.submitted_members = around_exec(self.submitted_members, members as u64);
        if members > self.max_members {
            self.max_members = members;
        }
        self.submitted_plan_bytes = around_exec(self.submitted_plan_bytes, bytes as u64);
        if bytes > self.max_plan_bytes {
            self.max_plan_bytes = bytes;
        }
    }

    /// A plan leaves the engine, decided or not.
    fn release(&mut self)
        ensures
            *final(self) == released(*old(self)),
    {
        self.inflight = around_exec(self.inflight, u64::MAX);
    }

    /// The deadline of a plan fired after a worker took it.
    fn outcome_lost(&mut self)
        ensures
            *final(self) == (AtomicCounters {
                unknown: around(old(self).unknown, 1),
                ..*old(self)
            }),
    {
        self.unknown = around_exec(self.unknown, 1);
    }

    /// The engine decided a plan in so much time.
    fn decide(&mut self, verdict: AtomicVerdict, elapsed_ns: u64)
        ensures
            *final(self) == accounted(*old(self), verdict, elapsed_ns),
    {
        self.total_engine_latency_ns = around_exec(self.total_engine_latency_ns, elapsed_ns);
        if elapsed_ns > self.max_engine_latency_ns {
            self.max_engine_latency_ns = elapsed_ns;
        }
        match verdict {
            AtomicVerdict::Committed => {
                self.committed = around_exec(self.committed, 1);
            },
            AtomicVerdict::NotCommitted => {
                self.not_committed = around_exec(self.not_committed, 1);
            },
            AtomicVerdict::Unknown => {
                self.unknown = around_exec(self.unknown, 1);
            },
        }
    }

    /// A submission ended with an error.
    fn refuse(&mut self, code: ErrorCode)
        ensures
            *final(self) == (AtomicCounters {
                refused: around(old(self).refused, 1),
                identity_conflicts: if code == ErrorCode::AtomicIdConflict {
                    around(old(self).identity_conflicts, 1)
                } else {
                    old(self).identity_conflicts
                },
                ..*old(self)
            }),
    {
        self.refused = around_exec(self.refused, 1);
        if code == ErrorCode::AtomicIdConflict {
            self.identity_conflicts = around_exec(self.identity_conflicts, 1);
        }
    }

    /// An outcome is looked up.
    pub fn lookup(&mut self)
        ensures
            *final(self) == (AtomicCounters {
                status_lookups: around(old(self).status_lookups, 1),
                ..*old(self)
            }),
    {
        self.status_lookups = around_exec(self.status_lookups, 1);
    }
}

/// A plan that is ready for the scheduler.
#[derive(Debug, Clone, Copy)]
pub struct Commit {
    /// Request identity.
    pub request_id: RequestId,
    /// Identity of the plan.
    pub atomic_id: AtomicId,
    /// Deadline of the submission.
    pub deadline: Option<u64>,
    /// Size of the plan in bytes.
    pub bytes: usize,
}

/// Begins the submission of a plan to a heap under a request identity, or says
/// why not. `encoded` is the size of the plan's canonical encoding and the number
/// of its mutations, or why it does not encode; `id` is the identity, or why
/// there is none. A plan that is refused here counts nowhere.
pub fn commit_as(
    counters: &mut AtomicCounters,
    heap_id: &[u8; 16],
    plan: &AtomicPlan,
    encoded: Result<(usize, usize), AtomicsError>,
    id: Result<[u8; 16], Error>,
) -> (r: Result<Commit, Error>)
    ensures
        if plan.heap()@ != heap_id@ {
            r is Err && r->Err_0@ == local_error(
                ErrorCode::PermissionDenied,
                ErrorClass::Request,
                "Atomic plan belongs to a foreign Heap"@,
            ) && *final(counters) == *old(counters)
        } else {
            match encoded {
                Err(e) => r is Err && r->Err_0@ == local_error(
                    atomics_code(e.refused),
                    ErrorClass::Request,
                    e.text@,
                ) && *final(counters) == *old(counters),
                Ok(size) => match id {
                    Ok(v) => r == Ok::<Commit, Error>(
                        Commit {
                            request_id: RequestId(v),
                            atomic_id: plan.identity(),
                            deadline: plan.due(),
                            bytes: size.0,
                        },
                    ) && *final(counters) == submitted(*old(counters), size.1, size.0),
                    Err(e) => r == Err::<Commit, Error>(e) && *final(counters) == *old(counters),
                },
            }
        },
{
    plan.check_heap(heap_id)?;
    let (bytes, members) = match encoded {
        Ok(size) => size,
        Err(e) => {
            return Err(atomics_error(e));
        },
    };
    let request_id = match id {
        Ok(v) => RequestId(v),
        Err(e) => {
            return Err(e);
        },
    };
    counters.submit(members, bytes);
    Ok(Commit { request_id, atomic_id: plan.atomic_id(), deadline: plan.deadline(), bytes })
}

/// Begins the submission of a plan to a heap under an identity that is made up;
/// see [`commit_as`].
pub fn commit(
    counters: &mut AtomicCounters,
    heap_id: &[u8; 16],
    plan: &AtomicPlan,
    encoded: Result<(usize, usize), AtomicsError>,
) -> (r: Result<Commit, Error>)
    ensures
        if plan.heap()@ != heap_id@ {
            r is Err && r->Err_0@ == local_error(
                ErrorCode::PermissionDenied,
                ErrorClass::Request,
                "Atomic plan belongs to a foreign Heap"@,
            ) && *final(counters) == *old(counters)
        } else {
            match encoded {
                Err(e) => r is Err && r->Err_0@ == local_error(
                    atomics_code(e.refused),
                    ErrorClass::Request,
                    e.text@,
                ) && *final(counters) == *old(counters),
                Ok(size) => match r {
                    Ok(c) => c.request_id.0@ != zero_id() && c.atomic_id == plan.identity()
                        && c.deadline == plan.due() && c.bytes == size.0 && *final(counters)
                        == submitted(*old(counters), size.1, size.0),
                    Err(e) => identity_failure(e@) && *final(counters) == *old(counters),
                },
            }
        },
{
    commit_as(counters, heap_id, plan, encoded, mint_id())
}

/// A worker put a plan to the engine, which took so long. The plan is not in
/// flight any more, whatever came of it; a failure after which the engine may
/// have accepted the plan leaves its outcome unknown.
pub fn commit_ran(
    counters: &mut AtomicCounters,
    outcome: Result<AtomicVerdict, SdkError>,
    elapsed_ns: u64,
) -> (r: Result<AtomicVerdict, SdkError>)
    ensures
        match outcome {
            Ok(v) => r == Ok::<AtomicVerdict, SdkError>(v) && *final(counters) == released(
                accounted(*old(counters), v, elapsed_ns),
            ),
            Err(e) => if before_acceptance(e@) {
                r == Err::<AtomicVerdict, SdkError>(e) && *final(counters) == released(
                    *old(counters),
                )
            } else {
                r == Ok::<AtomicVerdict, SdkError>(AtomicVerdict::Unknown) && *final(counters)
                    == released(accounted(*old(counters), AtomicVerdict::Unknown, elapsed_ns))
            },
        },
{
    match decided(outcome) {
        Ok(v) => {
            counters.decide(v, elapsed_ns);
            counters.release();
            Ok(v)
        },
        Err(e) => {
            counters.release();
            Err(e)
        },
    }
}

/// The deadline of a plan fired after a worker had taken it: its outcome is
/// unknown.
pub fn commit_lost(counters: &mut AtomicCounters) -> (r: AtomicVerdict)
    ensures
        r == AtomicVerdict::Unknown,
        *final(counters) == (AtomicCounters {
            unknown: around(old(counters).unknown, 1),
            ..*old(counters)
        }),
{
    counters.outcome_lost();
    AtomicVerdict::Unknown
}

/// A plan that the scheduler did not run is not in flight any more.
pub fn commit_dropped(counters: &mut AtomicCounters)
    ensures
        *final(counters) == released(*old(counters)),
{
    counters.release();
}

/// The submission of a plan ended.
pub fn commit_ended(counters: &mut AtomicCounters, result: Result<AtomicVerdict, Error>) -> (r: Result<
    AtomicVerdict,
    Error,
>)
    ensures
        r == result,
        match result {
            Ok(_) => *final(counters) == *old(counters),
            Err(e) => *final(counters) == (AtomicCounters {
                refused: around(old(counters).refused, 1),
                identity_conflicts: if e.code == ErrorCode::AtomicIdConflict {
                    around(old(counters).identity_conflicts, 1)
                } else {
                    old(counters).identity_conflicts
                },
                ..*old(counters)
            }),
        },
{
    match &result {
        Err(e) => {
            counters.refuse(e.code);
        },
        Ok(_) => {},
    }
    result
}

/// A plan that was submitted and was run, or was dropped by the scheduler, is
/// not in flight any more.
pub proof fn law_released_plan_is_not_in_flight(
    c: AtomicCounters,
    members: usize,
    bytes: usize,
    verdict: AtomicVerdict,
    elapsed_ns: u64,
)
    ensures
        released(submitted(c, members, bytes)).inflight == c.inflight,
        released(accounted(submitted(c, members, bytes), verdict, elapsed_ns)).inflight
            == c.inflight,
{
}

/// A plan that the engine decided is counted under exactly one verdict.
pub proof fn law_verdicts_are_counted_once(
    c: AtomicCounters,
    verdict: AtomicVerdict,
    elapsed_ns: u64,
)
    requires
        c.committed + c.not_committed + c.unknown < u64::MAX,
    ensures
        ({
            let d = accounted(c, verdict, elapsed_ns);
            d.committed + d.not_committed + d.unknown == c.committed + c.not_committed + c.unknown
                + 1
        }),
{
}

} // verus!
