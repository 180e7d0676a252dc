//! Typed handles of the driver: what they hand to the scheduler, and what they
//! give out of what the storage answered.
use crate::app_v1::{CollectionId, HeapId};
use crate::driver::mutations::{create_given, delete_given, put_given, replace_given};
use crate::driver::schedule::Schedule;
use crate::driver::{
    condition_bytes, context_unresolved, create_request, delete_condition, delete_request,
    embedded_capabilities, operation_resolved, prepared, put_request, replace_request,
    request_resolved, resolve_operation_id, resolve_request_id, write_prepared, Capabilities,
    CreateCollectionOptions, CreateOptions, DeleteOptions, DeleteReceipt, EmbeddedOptions, Error,
    ErrorClass, ErrorCode, Mutation, OperationContext, OperationId, PutOptions, ReplaceOptions,
    RequestId, VersionedValue, WriteReceipt, CREATE_DOMAIN, REPLACE_DOMAIN,
};
use crate::error::Error as SdkError;
use crate::heap::{HeapCollection, WriteCondition};
use vstd::prelude::*;

verus! {

/// A typed collection handle.
#[derive(Debug)]
pub struct Collection {
    /// The handle on the heap.
    pub inner: HeapCollection,
}

impl Collection {
    /// Heap id.
    pub fn heap_id(&self) -> (r: HeapId)
        ensures
            r.0 == self.inner.cap.heap_id,
    {
        HeapId(self.inner.heap_id())
    }

    /// Collection id.
    pub fn id(&self) -> (r: CollectionId)
        ensures
            r.0 == self.inner.id,
    {
        CollectionId(self.inner.id())
    }

    /// Name at the time it was opened.
    pub fn name(&self) -> (r: &str)
        ensures
            r@ == self.inner.name_at_open@,
    {
        self.inner.name()
    }

    /// Puts a value, under identities that are made up. `encoded` is what the
    /// value is stored as, or why it does not encode.
    pub fn put(&self, key: String, encoded: Result<Vec<u8>, String>) -> (r: Result<Mutation, Error>)
        ensures
            write_prepared(
                r,
                HeapId(self.inner.cap.heap_id),
                CollectionId(self.inner.id),
                key,
                encoded,
                WriteCondition::Unconditional,
                OperationContext { request_id: None, operation_id: None, deadline: None },
                "put-v1"@,
                Seq::empty(),
            ),
            put_given(
                r,
                HeapId(self.inner.cap.heap_id),
                CollectionId(self.inner.id),
                key,
                encoded,
                (PutOptions {
                    context: OperationContext {
                        request_id: None,
                        operation_id: None,
                        deadline: None,
                    },
                }),
            ),
    {
        self.put_with(key, encoded, &PutOptions { context: OperationContext::default() })
    }

    /// Puts a value.
    pub fn put_with(
        &self,
        key: String,
        encoded: Result<Vec<u8>, String>,
        options: &PutOptions,
    ) -> (r: Result<Mutation, Error>)
        ensures
            write_prepared(
                r,
                HeapId(self.inner.cap.heap_id),
                CollectionId(self.inner.id),
                key,
                encoded,
                WriteCondition::Unconditional,
                options.context,
                "put-v1"@,
                Seq::empty(),
            ),
            put_given(
                r,
                HeapId(self.inner.cap.heap_id),
                CollectionId(self.inner.id),
                key,
                encoded,
                *options,
            ),
    {
        put_request(self.heap_id(), self.id(), key, encoded, options)
    }

    /// Puts a value where the key is absent.
    pub fn create(
        &self,
        key: String,
        encoded: Result<Vec<u8>, String>,
        options: &CreateOptions,
    ) -> (r: Result<Mutation, Error>)
        ensures
            write_prepared(
                r,
                HeapId(self.inner.cap.heap_id),
                CollectionId(self.inner.id),
                key,
                encoded,
                WriteCondition::Absent,
                options.context,
                CREATE_DOMAIN@,
                seq![condition_bytes(WriteCondition::Absent)],
            ),
            create_given(
                r,
                HeapId(self.inner.cap.heap_id),
                CollectionId(self.inner.id),
                key,
                encoded,
                *options,
            ),
    {
        create_request(self.heap_id(), self.id(), key, encoded, options)
    }

    /// Puts a value where a version is live.
    pub fn replace(
        &self,
        key: String,
        encoded: Result<Vec<u8>, String>,
        options: &ReplaceOptions,
    ) -> (r: Result<Mutation, Error>)
        ensures
            write_prepared(
                r,
                HeapId(self.inner.cap.heap_id),
                CollectionId(self.inner.id),
                key,
                encoded,
                WriteCondition::LiveEventId(options.if_version),
                options.context,
                REPLACE_DOMAIN@,
                seq![condition_bytes(WriteCondition::LiveEventId(options.if_version))],
            ),
            replace_given(
                r,
                HeapId(self.inner.cap.heap_id),
                CollectionId(self.inner.id),
                key,
                encoded,
                *options,
            ),
    {
        replace_request(self.heap_id(), self.id(), key, encoded, options)
    }

    /// Deletes a key that has to be there.
    pub fn delete(&self, key: String, options: &DeleteOptions) -> (r: Result<Mutation, Error>)
        ensures
            if !options.if_present {
                r is Err && r->Err_0@ == crate::driver::local_error(
                    ErrorCode::Validation,
                    ErrorClass::Request,
                    "embedded v1 requires delete if_present=true for replay-stable receipts"@,
                )
            } else {
                prepared(
                    r,
                    HeapId(self.inner.cap.heap_id),
                    CollectionId(self.inner.id),
                    key,
                    None,
                    delete_condition(options.if_version),
                    options.context,
                    "delete-present-v1"@,
                    seq![condition_bytes(delete_condition(options.if_version))],
                )
            },
            delete_given(
                r,
                HeapId(self.inner.cap.heap_id),
                CollectionId(self.inner.id),
                key,
                *options,
            ),
            r is Ok && options.if_version is Some ==> r->Ok_0.condition
                == WriteCondition::LiveEventId(options.if_version->0),
            r is Ok && options.if_version is None ==> r->Ok_0.condition == WriteCondition::Present,
    {
        delete_request(self.heap_id(), self.id(), key, options)
    }

    /// The value of a key with its version. `stored` is what the storage holds
    /// under the key, decoded.
    pub fn get_versioned<T>(stored: Option<(Result<T, SdkError>, [u8; 16])>) -> (r: Result<
        Option<VersionedValue<T>>,
        SdkError,
    >)
        ensures
            r == (match stored {
                None => Ok::<Option<VersionedValue<T>>, SdkError>(None),
                Some(s) => match s.0 {
                    Ok(value) => Ok(Some(VersionedValue { value, version: s.1 })),
                    Err(e) => Err(e),
                },
            }),
    {
        match stored {
            None => Ok(None),
            Some(s) => match s.0 {
                Ok(value) => Ok(Some(VersionedValue { value, version: s.1 })),
                Err(e) => Err(e),
            },
        }
    }

    /// The value of a key.
    pub fn get<T>(stored: Option<(Result<T, SdkError>, [u8; 16])>) -> (r: Result<
        Option<T>,
        SdkError,
    >)
        ensures
            r == (match stored {
                None => Ok::<Option<T>, SdkError>(None),
                Some(s) => match s.0 {
                    Ok(value) => Ok(Some(value)),
                    Err(e) => Err(e),
                },
            }),
    {
        match Collection::get_versioned(stored) {
            Ok(Some(v)) => Ok(Some(v.value)),
            Ok(None) => Ok(None),
            Err(e) => Err(e),
        }
    }
}

impl Mutation {
    /// The receipt of a write, with what the storage answered.
    pub fn written<S>(&self, collection: &Collection, storage: S, deduplicated: bool) -> (r:
        WriteReceipt<S>)
        ensures
            r == (WriteReceipt {
                request_id: self.request_id,
                operation_id: self.operation_id,
                heap_id: HeapId(collection.inner.cap.heap_id),
                collection_id: CollectionId(collection.inner.id),
                deduplicated,
                storage,
            }),
    {
        WriteReceipt {
            request_id: self.request_id,
            operation_id: self.operation_id,
            heap_id: collection.heap_id(),
            collection_id: collection.id(),
            deduplicated,
            storage,
        }
    }

    /// The receipt of a delete, with what the storage answered.
    pub fn deleted<S>(&self, collection: &Collection, storage: S, deduplicated: bool) -> (r:
        DeleteReceipt<S>)
        ensures
            r == (DeleteReceipt {
                request_id: self.request_id,
                operation_id: self.operation_id,
                heap_id: HeapId(collection.inner.cap.heap_id),
                collection_id: CollectionId(collection.inner.id),
                deduplicated,
                storage,
            }),
    {
        DeleteReceipt {
            request_id: self.request_id,
            operation_id: self.operation_id,
            heap_id: collection.heap_id(),
            collection_id: collection.id(),
            deduplicated,
            storage,
        }
    }
}

/// The create of a collection that is ready for the scheduler.
#[derive(Debug)]
pub struct CollectionCreation {
    /// Request identity.
    pub request_id: RequestId,
    /// Mutation identity.
    pub operation_id: OperationId,
    /// Deadline.
    pub deadline: Option<u64>,
    /// Name.
    pub name: String,
}

/// Prepares the create of a collection.
pub fn create_collection(name: &str, options: &CreateCollectionOptions) -> (r: Result<
    CollectionCreation,
    Error,
>)
    ensures
        match r {
            Ok(c) => c.name@ == name@ && c.deadline == options.context.deadline
                && request_resolved(options.context.request_id, c.request_id)
                && operation_resolved(options.context.operation_id, c.operation_id),
            Err(e) => context_unresolved(options.context, e@),
        },
{
    let request_id = resolve_request_id(options.context.request_id)?;
    let operation_id = resolve_operation_id(options.context.operation_id)?;
    Ok(
        CollectionCreation {
            request_id,
            operation_id,
            deadline: options.context.deadline,
            name: name.to_string(),
        },
    )
}

/// A connection to an embedded deployment.
pub struct Client<D> {
    /// The deployment.
    pub deployment: D,
    /// What its scheduler has admitted.
    pub schedule: Schedule,
    /// What it can do.
    pub capabilities: Capabilities,
}

impl<D> Client<D> {
    /// Makes a connection of a deployment that was opened. The options are
    /// looked at before the deployment is.
    pub fn open_embedded(options: &EmbeddedOptions, opened: Result<D, Error>) -> (r: Result<
        Client<D>,
        Error,
    >)
        ensures
            match r {
                Ok(c) => {
                    &&& options.workers != 0
                    &&& options.queue_capacity != 0
                    &&& opened == Ok::<D, Error>(c.deployment)
                    &&& c.schedule@ == crate::driver::schedule::opened(
                        options.workers,
                        options.queue_capacity,
                    )
                    &&& c.capabilities == (Capabilities {
                        embedded: true,
                        multi_heap_bindings: true,
                        mutation_identity: true,
                        query_streaming: false,
                        bounded_scan_pages: true,
                        atomics: false,
                        remote_pooling: false,
                    })
                },
                Err(e) => if options.workers == 0 || options.queue_capacity == 0 {
                    e@ == crate::driver::local_error(
                        ErrorCode::Validation,
                        ErrorClass::Request,
                        "embedded workers and queue capacity must be non-zero"@,
                    )
                } else {
                    opened == Err::<D, Error>(e)
                },
            },
    {
        options.check()?;
        let deployment = opened?;
        Ok(
            Client {
                deployment,
                schedule: Schedule::new(options.workers, options.queue_capacity),
                capabilities: embedded_capabilities(),
            },
        )
    }

    /// What the connection can do.
    pub fn capabilities(&self) -> (r: &Capabilities)
        ensures
            *r == self.capabilities,
    {
        &self.capabilities
    }
}

} // verus!
