//! The driver: admission, deadlines, mutations and scans.
use residiuum_sdk::app_v1::{CollectionId, HeapId};
use residiuum_sdk::driver::atomics::absent_hash;
use residiuum_sdk::driver::schedule::{reserve_bounded, Begin, ResponseCell, Schedule};
use residiuum_sdk::driver::{
    canonical_mutation_hash, create_request, delete_request, embedded_capabilities, id_from_random,
    mint_id, put_request, replace_request, resolve_operation_id, resolve_request_id,
    write_condition_bytes, CreateOptions, DeleteOptions, EmbeddedOptions, Error, ErrorClass,
    ErrorCode, OperationContext, OperationId, PutOptions, ReplaceOptions, RequestId,
    RetryDisposition, TerminalOutcome,
};
use residiuum_sdk::error::Error as SdkError;

#[test]
fn canonical_mutation_hash_preserves_request_field_boundaries() {
    let heap_id = HeapId(mint_id().unwrap());
    let collection_id = CollectionId(mint_id().unwrap());
    let left = canonical_mutation_hash(
        b"conditional-v1",
        heap_id,
        collection_id,
        b"key",
        &vec![b"ab".to_vec(), b"c".to_vec()],
    );
    let right = canonical_mutation_hash(
        b"conditional-v1",
        heap_id,
        collection_id,
        b"key",
        &vec![b"a".to_vec(), b"bc".to_vec()],
    );
    assert_ne!(left, right);
}

#[test]
fn scheduler_refuses_beyond_hard_bound() {
    let mut scheduler = Schedule::new(1, 1);
    let first = scheduler.admit_request(0, RequestId([1; 16]), None, None).unwrap();
    assert!(matches!(scheduler.begin(0, first), Begin::Run));
    assert_eq!(scheduler.inspect().running, 1);
    let _queued = scheduler.admit_request(0, RequestId([2; 16]), None, None).unwrap();
    let refused = scheduler.admit_request(0, RequestId([3; 16]), None, None).unwrap_err();
    assert_eq!(refused.code, ErrorCode::Overloaded);
    assert_eq!(scheduler.inspect().refused, 1);
}

#[test]
fn places_are_taken_up_to_the_bound() {
    let mut taken = 0;
    let answers: Vec<bool> = (0..4).map(|_| reserve_bounded(&mut taken, 2)).collect();
    assert_eq!(answers, [true, true, false, false]);
    assert_eq!(taken, 2);
    taken -= 1;
    assert!(reserve_bounded(&mut taken, 2));
    assert!(!reserve_bounded(&mut taken, 0));
    assert_eq!(taken, 2);
}

#[test]
fn queued_drop_cancels_before_dispatch_and_deadline_refuses_execution() {
    let mut scheduler = Schedule::new(1, 2);
    let blocker = scheduler.admit_request(0, RequestId([1; 16]), None, None).unwrap();
    assert!(matches!(scheduler.begin(0, blocker), Begin::Run));
    let cancelled = scheduler.admit_request(0, RequestId([2; 16]), None, None).unwrap();
    scheduler.abandon(cancelled);
    let deadline = scheduler.admit_request(0, RequestId([3; 16]), None, Some(0)).unwrap_err();
    assert!(scheduler.inspect().queued <= 2);
    scheduler.finish(blocker);
    assert!(!matches!(scheduler.begin(1, cancelled), Begin::Run));
    assert_eq!(scheduler.inspect().cancelled_before_dispatch, 1);
    assert_eq!(deadline.code, ErrorCode::DeadlineExceeded);
}

#[test]
fn queued_deadline_wakes_without_waiting_for_a_worker() {
    let mut scheduler = Schedule::new(1, 2);
    let blocker = scheduler.admit_request(0, RequestId([1; 16]), None, None).unwrap();
    assert!(matches!(scheduler.begin(0, blocker), Begin::Run));
    let deadline = scheduler.admit_request(0, RequestId([2; 16]), None, Some(20)).unwrap();
    assert_eq!(scheduler.next_due(), Some(20));
    assert!(scheduler.expire(19).is_empty());
    let answers = scheduler.expire(60);
    assert_eq!(answers.len(), 1);
    assert_eq!(answers[0].0, deadline);
    assert_eq!(answers[0].1.code, ErrorCode::DeadlineExceeded);
    scheduler.finish(blocker);
}

#[test]
fn dispatched_mutation_deadline_reports_unknown_outcome() {
    let mut scheduler = Schedule::new(1, 1);
    let mutation = scheduler
        .admit_request(0, RequestId([1; 16]), Some(OperationId([2; 16])), Some(20))
        .unwrap();
    assert!(matches!(scheduler.begin(0, mutation), Begin::Run));
    let mut cell: ResponseCell<Result<(), Error>> = ResponseCell::new();
    for (ticket, error) in scheduler.expire(60) {
        assert_eq!(ticket, mutation);
        assert!(cell.complete(Err(error)));
    }
    scheduler.finish(mutation);
    assert_eq!(scheduler.inspect().running, 0);
    assert!(!cell.complete(Ok(())));
    let error = cell.poll().unwrap().unwrap_err();
    assert_eq!(error.code, ErrorCode::CommitOutcomeUnknown);
    assert_eq!(error.terminal, TerminalOutcome::CommitOutcomeUnknown);
    assert_eq!(error.retry, RetryDisposition::OutcomeLookupRequired);
    assert!(cell.poll().is_none());
}

#[test]
fn completed_requests_release_long_deadline_registrations() {
    let mut scheduler = Schedule::new(2, 64);
    for byte in 1..=32u8 {
        let t = scheduler
            .admit_request(0, RequestId([byte; 16]), None, Some(60_000))
            .unwrap();
        assert!(matches!(scheduler.begin(1, t), Begin::Run));
        scheduler.finish(t);
    }
    assert_eq!(scheduler.inspect().completed, 32);
    assert_eq!(scheduler.next_due(), None);
}

#[test]
fn closed_schedulers_admit_nothing() {
    let mut scheduler = Schedule::new(1, 4);
    assert!(scheduler.close());
    assert!(!scheduler.close());
    let refused = scheduler.admit_request(0, RequestId([1; 16]), None, None).unwrap_err();
    assert_eq!(refused.code, ErrorCode::Closed);
    assert!(scheduler.inspect().closed);
}

#[test]
fn a_full_channel_gives_the_place_back() {
    let mut scheduler = Schedule::new(1, 4);
    let t = scheduler.admit_request(0, RequestId([1; 16]), None, Some(9)).unwrap();
    let error = scheduler.send_failed(t, true).unwrap();
    assert_eq!(error.code, ErrorCode::Overloaded);
    assert_eq!(scheduler.inspect().queued, 0);
    assert_eq!(scheduler.next_due(), None);
    assert!(scheduler.send_failed(t, true).is_none());
}

#[test]
fn expired_requests_do_not_run() {
    let mut scheduler = Schedule::new(1, 4);
    let t = scheduler.admit_request(0, RequestId([1; 16]), None, Some(5)).unwrap();
    match scheduler.begin(5, t) {
        Begin::Refuse(e) => assert_eq!(e.code, ErrorCode::DeadlineExceeded),
        other => panic!("{other:?}"),
    }
    assert!(matches!(scheduler.begin(5, 77), Begin::Unknown));
}

#[test]
fn identities_are_never_zero() {
    assert_eq!(id_from_random(Ok([0; 16])).unwrap()[15], 1);
    assert_eq!(id_from_random(Ok([3; 16])).unwrap(), [3; 16]);
    let error = id_from_random(Err("no entropy".into())).unwrap_err();
    assert_eq!(error.message, "secure identity generation failed: no entropy");
    assert_ne!(mint_id().unwrap(), mint_id().unwrap());
    assert!(resolve_request_id(Some(RequestId([0; 16]))).is_err());
    assert_eq!(resolve_operation_id(Some(OperationId([7; 16]))).unwrap(), OperationId([7; 16]));
    assert_ne!(resolve_request_id(None).unwrap(), RequestId([0; 16]));
}

fn context() -> OperationContext {
    OperationContext {
        request_id: Some(RequestId([1; 16])),
        operation_id: Some(OperationId([2; 16])),
        deadline: Some(9),
    }
}

fn hash_of(domain: &[u8], key: &[u8], fields: Vec<Vec<u8>>) -> [u8; 32] {
    canonical_mutation_hash(domain, HeapId([5; 16]), CollectionId([6; 16]), key, &fields)
}

#[test]
fn mutations_hash_their_content() {
    let (heap, collection) = (HeapId([5; 16]), CollectionId([6; 16]));
    let put = put_request(
        heap,
        collection,
        "k".into(),
        Ok(vec![1, 2]),
        &PutOptions { context: context() },
    )
    .unwrap();
    assert_eq!(put.content_hash, hash_of(b"put-v1", b"k", vec![vec![1, 2]]));
    assert_eq!(put.deadline, Some(9));
    assert_eq!(put.request_id, RequestId([1; 16]));
    let create = create_request(
        heap,
        collection,
        "k".into(),
        Ok(vec![1, 2]),
        &CreateOptions { context: context() },
    )
    .unwrap();
    assert_ne!(put.content_hash, create.content_hash);
    let replace = replace_request(
        heap,
        collection,
        "k".into(),
        Ok(vec![1, 2]),
        &ReplaceOptions { if_version: [8; 16], context: context() },
    )
    .unwrap();
    assert_ne!(replace.content_hash, create.content_hash);
    let delete = delete_request(
        heap,
        collection,
        "k".into(),
        &DeleteOptions { if_version: None, if_present: true, context: context() },
    )
    .unwrap();
    assert!(delete.body.is_none());
    assert_ne!(write_condition_bytes(&replace.condition), write_condition_bytes(&create.condition));
}

#[test]
fn values_that_do_not_encode_are_refused() {
    let error = put_request(
        HeapId([5; 16]),
        CollectionId([6; 16]),
        "k".into(),
        Err("not a map".into()),
        &PutOptions { context: context() },
    )
    .unwrap_err();
    assert_eq!(error.code, ErrorCode::Validation);
    assert_eq!(error.class, ErrorClass::Request);
    assert_eq!(error.message, "not a map");
}

#[test]
fn options_bound_the_workers() {
    let options = EmbeddedOptions::new("/data".into(), Some(4));
    assert!(options.check().is_ok());
    assert!(EmbeddedOptions::new("/data".into(), None).workers(0).check().is_err());
    assert!(EmbeddedOptions::new("/data".into(), None).queue_capacity(0).check().is_err());
}

#[test]
fn timeouts_are_deadlines() {
    assert_eq!(context().timeout(100, 20).deadline, Some(120));
    assert_eq!(context().timeout(u64::MAX, 20).deadline, Some(u64::MAX));
}

#[test]
fn embedded_clients_name_what_they_can() {
    let caps = embedded_capabilities();
    assert_eq!(caps, embedded_capabilities());
}

#[test]
fn library_errors_keep_their_request() {
    let error = Error::from_sdk(
        SdkError::QueryInvalid("x".into()),
        RequestId([1; 16]),
        Some(OperationId([2; 16])),
    );
    assert_eq!(error.request_id, Some(RequestId([1; 16])));
    assert_eq!(error.operation_id, Some(OperationId([2; 16])));
    assert!(error.message.contains("x"));
}

#[test]
fn absent_keys_have_their_own_hash() {
    let c = CollectionId([6; 16]);
    assert_ne!(absent_hash(&c, b"a"), absent_hash(&c, b"b"));
    assert_ne!(absent_hash(&c, b"a"), absent_hash(&CollectionId([7; 16]), b"a"));
}
