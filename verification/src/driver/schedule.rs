//! The life of a request in the scheduler.
//!
//! A request is admitted into a bounded queue, taken by a worker, and ends with
//! a result, a refusal or a deadline. The caller runs the threads and the clock
//! and reports each event; the functions here decide what it means. Times are
//! nanoseconds of one monotonic clock.
use crate::driver::{
    Error, ErrorClass, ErrorCode, ErrorView, OperationId, RequestId, RetryDisposition,
    TerminalOutcome,
};
use vstd::prelude::*;

verus! {

/// Where a live request stands.
#[derive(Debug, Clone, Copy, PartialEq, Eq, Structural)]
pub enum Stage {
    /// It waits for a worker.
    Queued,
    /// A worker runs it.
    Dispatched,
}

/// A live request.
#[derive(Debug, Clone, Copy)]
pub struct Job {
    /// Number under which it was admitted.
    pub ticket: u64,
    /// Request identity.
    pub request_id: RequestId,
    /// Mutation identity, where it is a mutation.
    pub operation_id: Option<OperationId>,
    /// Deadline.
    pub deadline: Option<u64>,
    /// Where it stands.
    pub stage: Stage,
    /// Whether nobody waits for it any more.
    pub cancelled: bool,
    /// Number of its deadline entry; zero stands for none.
    pub registration: u64,
}

/// A deadline that is watched.
#[derive(Debug, Clone, Copy)]
pub struct DeadlineEntry {
    /// Its number.
    pub id: u64,
    /// When it is due.
    pub at: u64,
}

/// State of the scheduler as it may be shown.
#[derive(Debug, Clone, Copy, PartialEq, Eq, Structural)]
pub struct ClientInspection {
    /// Dedicated workers.
    pub workers: usize,
    /// Bound of the queue.
    pub queue_capacity: usize,
    /// Requests that wait.
    pub queued: usize,
    /// Requests that run.
    pub running: usize,
    /// Requests that ran.
    pub completed: u64,
    /// Requests that were not admitted.
    pub refused: u64,
    /// Requests that were cancelled while they waited.
    pub cancelled_before_dispatch: u64,
    /// Whether the scheduler was closed.
    pub closed: bool,
}

#[derive(Debug)]
struct State {
    workers: usize,
    queue_capacity: usize,
    queued: usize,
    running: usize,
    completed: u64,
    refused: u64,
    cancelled_before_dispatch: u64,
    closed: bool,
    jobs: Vec<Job>,
    next_ticket: u64,
    entries: Vec<DeadlineEntry>,
    next_id: u64,
    stopped: bool,
}

/// Model of a [`Schedule`].
#[verifier::ext_equal]
pub struct ScheduleView {
    pub workers: usize,
    pub queue_capacity: usize,
    pub queued: usize,
    pub running: usize,
    pub completed: u64,
    pub refused: u64,
    pub cancelled_before_dispatch: u64,
    pub closed: bool,
    pub jobs: Seq<Job>,
    pub next_ticket: u64,
    pub entries: Seq<DeadlineEntry>,
    pub next_id: u64,
    pub stopped: bool,
}

impl View for State {
    type V = ScheduleView;

    closed spec fn view(&self) -> ScheduleView {
        ScheduleView {
            workers: self.workers,
            queue_capacity: self.queue_capacity,
            queued: self.queued,
            running: self.running,
            completed: self.completed,
            refused: self.refused,
            cancelled_before_dispatch: self.cancelled_before_dispatch,
            closed: self.closed,
            jobs: self.jobs@,
            next_ticket: self.next_ticket,
            entries: self.entries@,
            next_id: self.next_id,
            stopped: self.stopped,
        }
    }
}

/// How many requests stand at a stage.
pub open spec fn count(jobs: Seq<Job>, stage: Stage) -> int
    decreases jobs.len(),
{
    if jobs.len() == 0 {
        0
    } else {
        count(jobs.drop_last(), stage) + if jobs.last().stage == stage {
            1int
        } else {
            0
        }
    }
}

/// No two requests share a ticket or a deadline entry.
pub open spec fn jobs_distinct(jobs: Seq<Job>) -> bool {
    forall|i: int, j: int|
        0 <= i < j < jobs.len() ==> (#[trigger] jobs[i]).ticket != (#[trigger] jobs[j]).ticket && (
        jobs[i].registration != 0 ==> jobs[i].registration != jobs[j].registration)
}

/// A deadline entry belongs to a live request that has this deadline.
pub open spec fn entry_owned(jobs: Seq<Job>, e: DeadlineEntry) -> bool {
    exists|i: int|
        0 <= i < jobs.len() && (#[trigger] jobs[i]).registration == e.id && jobs[i].deadline
            == Some(e.at)
}

/// What holds of the scheduler at all times.
pub open spec fn steady(s: ScheduleView) -> bool {
    &&& s.queued == count(s.jobs, Stage::Queued)
    &&& s.running == count(s.jobs, Stage::Dispatched)
    &&& s.queued <= s.queue_capacity
    &&& s.jobs.len() <= usize::MAX
    &&& jobs_distinct(s.jobs)
    &&& 1 <= s.next_id
    &&& forall|i: int|
        0 <= i < s.jobs.len() ==> (#[trigger] s.jobs[i]).ticket < s.next_ticket
            && s.jobs[i].registration < s.next_id
    &&& forall|i: int, j: int|
        0 <= i < j < s.entries.len() ==> (#[trigger] s.entries[i]).id != (
        #[trigger] s.entries[j]).id
    &&& forall|i: int|
        0 <= i < s.entries.len() ==> (#[trigger] s.entries[i]).id != 0 && entry_owned(
            s.jobs,
            s.entries[i],
        )
}

proof fn lemma_count_push(jobs: Seq<Job>, job: Job, stage: Stage)
    ensures
        count(jobs.push(job), stage) == count(jobs, stage) + if job.stage == stage {
            1int
        } else {
            0
        },
{
    assert(jobs.push(job).drop_last() =~= jobs);
}

proof fn lemma_count_update(jobs: Seq<Job>, i: int, job: Job, stage: Stage)
    requires
        0 <= i < jobs.len(),
    ensures
        count(jobs.update(i, job), stage) == count(jobs, stage) - (if jobs[i].stage == stage {
            1int
        } else {
            0
        }) + (if job.stage == stage {
            1int
        } else {
            0
        }),
    decreases jobs.len(),
{
    if i == jobs.len() - 1 {
        assert(jobs.update(i, job).drop_last() =~= jobs.drop_last());
    } else {
        assert(jobs.update(i, job).drop_last() =~= jobs.drop_last().update(i, job));
        lemma_count_update(jobs.drop_last(), i, job, stage);
    }
}

proof fn lemma_count_remove(jobs: Seq<Job>, i: int, stage: Stage)
    requires
        0 <= i < jobs.len(),
    ensures
        count(jobs.remove(i), stage) == count(jobs, stage) - if jobs[i].stage == stage {
            1int
        } else {
            0
        },
    decreases jobs.len(),
{
    if i == jobs.len() - 1 {
        assert(jobs.remove(i) =~= jobs.drop_last());
    } else {
        assert(jobs.remove(i).drop_last() =~= jobs.drop_last().remove(i));
        assert(jobs.remove(i).last() == jobs.last());
        lemma_count_remove(jobs.drop_last(), i, stage);
    }
}

proof fn lemma_count_bounds(jobs: Seq<Job>)
    ensures
        0 <= count(jobs, Stage::Queued),
        0 <= count(jobs, Stage::Dispatched),
        count(jobs, Stage::Queued) + count(jobs, Stage::Dispatched) == jobs.len(),
    decreases jobs.len(),
{
    if jobs.len() > 0 {
        lemma_count_bounds(jobs.drop_last());
    }
}

/// Place of the request with a ticket, searched from a place on.
pub open spec fn ticket_from(jobs: Seq<Job>, ticket: u64, from: int) -> Option<int>
    decreases jobs.len() - from,
{
    if from >= jobs.len() {
        None
    } else if jobs[from].ticket == ticket {
        Some(from)
    } else {
        ticket_from(jobs, ticket, from + 1)
    }
}

/// Place of the request with a deadline entry, searched from a place on.
pub open spec fn registration_from(jobs: Seq<Job>, id: u64, from: int) -> Option<int>
    decreases jobs.len() - from,
{
    if from >= jobs.len() {
        None
    } else if jobs[from].registration == id {
        Some(from)
    } else {
        registration_from(jobs, id, from + 1)
    }
}

/// Place of a deadline entry, searched from a place on.
pub open spec fn entry_from(entries: Seq<DeadlineEntry>, id: u64, from: int) -> Option<int>
    decreases entries.len() - from,
{
    if from >= entries.len() {
        None
    } else if entries[from].id == id {
        Some(from)
    } else {
        entry_from(entries, id, from + 1)
    }
}

proof fn lemma_ticket_from(jobs: Seq<Job>, ticket: u64, from: int)
    requires
        0 <= from,
    ensures
        match ticket_from(jobs, ticket, from) {
            Some(i) => from <= i < jobs.len() && jobs[i].ticket == ticket,
            None => forall|i: int| from <= i < jobs.len() ==> (#[trigger] jobs[i]).ticket != ticket,
        },
    decreases jobs.len() - from,
{
    if from < jobs.len() && jobs[from].ticket != ticket {
        lemma_ticket_from(jobs, ticket, from + 1);
    }
}

proof fn lemma_registration_from(jobs: Seq<Job>, id: u64, from: int)
    requires
        0 <= from,
    ensures
        match registration_from(jobs, id, from) {
            Some(i) => from <= i < jobs.len() && jobs[i].registration == id,
            None => forall|i: int|
                from <= i < jobs.len() ==> (#[trigger] jobs[i]).registration != id,
        },
    decreases jobs.len() - from,
{
    if from < jobs.len() && jobs[from].registration != id {
        lemma_registration_from(jobs, id, from + 1);
    }
}

proof fn lemma_entry_from(entries: Seq<DeadlineEntry>, id: u64, from: int)
    requires
        0 <= from,
    ensures
        match entry_from(entries, id, from) {
            Some(i) => from <= i < entries.len() && entries[i].id == id,
            None => forall|i: int| from <= i < entries.len() ==> (#[trigger] entries[i]).id != id,
        },
    decreases entries.len() - from,
{
    if from < entries.len() && entries[from].id != id {
        lemma_entry_from(entries, id, from + 1);
    }
}

fn find_ticket(jobs: &Vec<Job>, ticket: u64) -> (r: Option<usize>)
    ensures
        match r {
            Some(i) => ticket_from(jobs@, ticket, 0) == Some(i as int) && i < jobs@.len()
                && jobs@[i as int].ticket == ticket,
            None => ticket_from(jobs@, ticket, 0) is None,
        },
{
    let mut i: usize = 0;
    while i < jobs.len()
        invariant
            i <= jobs@.len(),
            ticket_from(jobs@, ticket, 0) == ticket_from(jobs@, ticket, i as int),
        decreases jobs@.len() - i,
    {
        if jobs[i].ticket == ticket {
            return Some(i);
        }
        i = i + 1;
    }
    None
}

fn find_registration(jobs: &Vec<Job>, id: u64) -> (r: Option<usize>)
    ensures
        match r {
            Some(i) => registration_from(jobs@, id, 0) == Some(i as int) && i < jobs@.len()
                && jobs@[i as int].registration == id,
            None => registration_from(jobs@, id, 0) is None,
        },
{
    let mut i: usize = 0;
    while i < jobs.len()
        invariant
            i <= jobs@.len(),
            registration_from(jobs@, id, 0) == registration_from(jobs@, id, i as int),
        decreases jobs@.len() - i,
    {
        if jobs[i].registration == id {
            return Some(i);
        }
        i = i + 1;
    }
    None
}

/// A list without its entry at `i`, whose place the last one takes.
pub open spec fn taken_out(entries: Seq<DeadlineEntry>, i: int) -> Seq<DeadlineEntry> {
    entries.update(i, entries.last()).drop_last()
}

/// The deadlines after one was cancelled.
pub open spec fn without_deadline(entries: Seq<DeadlineEntry>, id: u64) -> Seq<DeadlineEntry> {
    match entry_from(entries, id, 0) {
        Some(i) => if id == 0 {
            entries
        } else {
            taken_out(entries, i)
        },
        None => entries,
    }
}

fn cancel_deadline(entries: &mut Vec<DeadlineEntry>, id: u64)
    ensures
        final(entries)@ == without_deadline(old(entries)@, id),
{
    if id == 0 {
        return ;
    }
    let mut i: usize = 0;
    while i < entries.len()
        invariant
            entries@ == old(entries)@,
            i <= entries@.len(),
            id != 0,
            entry_from(entries@, id, 0) == entry_from(entries@, id, i as int),
        decreases entries@.len() - i,
    {
        if entries[i].id == id {
            entries.swap_remove(i);
            return ;
        }
        i = i + 1;
    }
}

/// Cancelling a deadline takes out its entry and no other.
proof fn lemma_without_deadline(entries: Seq<DeadlineEntry>, id: u64)
    requires
        forall|i: int, j: int|
            0 <= i < j < entries.len() ==> (#[trigger] entries[i]).id != (#[trigger] entries[j]).id,
    ensures
        ({
            let after = without_deadline(entries, id);
            &&& after.len() <= entries.len()
            &&& forall|i: int, j: int|
                0 <= i < j < after.len() ==> (#[trigger] after[i]).id != (#[trigger] after[j]).id
            &&& forall|i: int|
                0 <= i < after.len() ==> entries.contains(#[trigger] after[i]) && (id != 0
                    ==> after[i].id != id)
        }),
{
    let after = without_deadline(entries, id);
    lemma_entry_from(entries, id, 0);
    match entry_from(entries, id, 0) {
        Some(k) => {
            if id != 0 {
                assert forall|i: int| 0 <= i < after.len() implies entries.contains(
                    #[trigger] after[i],
                ) && after[i].id != id by {
                    if i == k {
                        assert(after[i] == entries[entries.len() - 1]);
                    } else {
                        assert(after[i] == entries[i]);
                    }
                }
                assert forall|i: int, j: int| 0 <= i < j < after.len() implies (
                #[trigger] after[i]).id != (#[trigger] after[j]).id by {
                    let a = if i == k {
                        entries.len() - 1
                    } else {
                        i
                    };
                    let b = if j == k {
                        entries.len() - 1
                    } else {
                        j
                    };
                    assert(after[i] == entries[a]);
                    assert(after[j] == entries[b]);
                    assert(a != b);
                    if a < b {
                        assert(entries[a].id != entries[b].id);
                    } else {
                        assert(entries[b].id != entries[a].id);
                    }
                }
            } else {
                assert forall|i: int| 0 <= i < after.len() implies entries.contains(
                    #[trigger] after[i],
                ) by {
                    assert(after[i] == entries[i]);
                }
            }
        },
        None => {
            assert forall|i: int| 0 <= i < after.len() implies entries.contains(
                #[trigger] after[i],
            ) && (id != 0 ==> after[i].id != id) by {
                assert(after[i] == entries[i]);
            }
        },
    }
}

/// A count that goes round at its end.
pub open spec fn bumped(n: u64) -> u64 {
    if n == u64::MAX {
        0
    } else {
        (n + 1) as u64
    }
}

fn bump(n: u64) -> (r: u64)
    ensures
        r == bumped(n),
{
    if n == u64::MAX {
        0
    } else {
        n + 1
    }
}

/// The error of a request that ends in the scheduler.
pub open spec fn ended(
    code: ErrorCode,
    class: ErrorClass,
    message: Seq<char>,
    request_id: RequestId,
    operation_id: Option<OperationId>,
    terminal: TerminalOutcome,
    retry: RetryDisposition,
) -> ErrorView {
    ErrorView {
        code,
        class,
        message,
        request_id: Some(request_id),
        operation_id,
        retry,
        terminal,
        source: None,
    }
}

/// A deadline that was passed before the request ran.
pub open spec fn too_late(
    message: Seq<char>,
    request_id: RequestId,
    operation_id: Option<OperationId>,
) -> ErrorView {
    ended(
        ErrorCode::DeadlineExceeded,
        ErrorClass::Cancellation,
        message,
        request_id,
        operation_id,
        TerminalOutcome::DeadlineExceeded,
        RetryDisposition::Never,
    )
}

fn late(message: &str, request_id: RequestId, operation_id: Option<OperationId>) -> (r: Error)
    ensures
        r@ == too_late(message@, request_id, operation_id),
{
    Error::for_request(
        ErrorCode::DeadlineExceeded,
        ErrorClass::Cancellation,
        message,
        request_id,
        operation_id,
        TerminalOutcome::DeadlineExceeded,
        RetryDisposition::Never,
    )
}

/// A refusal because the scheduler takes no more work.
pub open spec fn shut(
    message: Seq<char>,
    request_id: RequestId,
    operation_id: Option<OperationId>,
) -> ErrorView {
    ended(
        ErrorCode::Closed,
        ErrorClass::Admission,
        message,
        request_id,
        operation_id,
        TerminalOutcome::Refused,
        RetryDisposition::Never,
    )
}

fn shut_error(message: &str, request_id: RequestId, operation_id: Option<OperationId>) -> (r: Error)
    ensures
        r@ == shut(message@, request_id, operation_id),
{
    Error::for_request(
        ErrorCode::Closed,
        ErrorClass::Admission,
        message,
        request_id,
        operation_id,
        TerminalOutcome::Refused,
        RetryDisposition::Never,
    )
}

/// A refusal because the queue is full; it may be tried again in a moment.
pub open spec fn overloaded(request_id: RequestId, operation_id: Option<OperationId>) -> ErrorView {
    ended(
        ErrorCode::Overloaded,
        ErrorClass::Admission,
        "embedded driver queue is full"@,
        request_id,
        operation_id,
        TerminalOutcome::Refused,
        RetryDisposition::After(1),
    )
}

fn overload_error(request_id: RequestId, operation_id: Option<OperationId>) -> (r: Error)
    ensures
        r@ == overloaded(request_id, operation_id),
{
    Error::for_request(
        ErrorCode::Overloaded,
        ErrorClass::Admission,
        "embedded driver queue is full",
        request_id,
        operation_id,
        TerminalOutcome::Refused,
        RetryDisposition::After(1),
    )
}

/// A refusal because the queue cannot be locked any more.
pub fn poisoned_queue(request_id: RequestId, operation_id: Option<OperationId>) -> (r: Error)
    ensures
        r@ == ended(
            ErrorCode::Internal,
            ErrorClass::Internal,
            "driver sender lock poisoned"@,
            request_id,
            operation_id,
            TerminalOutcome::Refused,
            RetryDisposition::Never,
        ),
{
    Error::for_request(
        ErrorCode::Internal,
        ErrorClass::Internal,
        "driver sender lock poisoned",
        request_id,
        operation_id,
        TerminalOutcome::Refused,
        RetryDisposition::Never,
    )
}

/// A deadline is passed.
pub open spec fn passed(deadline: Option<u64>, now: u64) -> bool {
    deadline is Some && now >= deadline->0
}

fn is_passed(deadline: Option<u64>, now: u64) -> (r: bool)
    ensures
        r == passed(deadline, now),
{
    match deadline {
        Some(at) => now >= at,
        None => false,
    }
}

/// A request at its admission.
pub open spec fn new_job(
    s: ScheduleView,
    request_id: RequestId,
    operation_id: Option<OperationId>,
    deadline: Option<u64>,
) -> Job {
    Job {
        ticket: s.next_ticket,
        request_id,
        operation_id,
        deadline,
        stage: Stage::Queued,
        cancelled: false,
        registration: if deadline is Some {
            s.next_id
        } else {
            0
        },
    }
}

/// A place is asked for: the counter after it, and whether there was one.
pub open spec fn reserved(counter: nat, bound: nat) -> (nat, bool) {
    if counter < bound {
        (counter + 1, true)
    } else {
        (counter, false)
    }
}

/// Takes a place, where fewer are taken than the bound.
pub fn reserve_bounded(counter: &mut usize, bound: usize) -> (r: bool)
    ensures
        reserved(*old(counter) as nat, bound as nat) == (*final(counter) as nat, r),
{
    if *counter < bound {
        *counter = *counter + 1;
        true
    } else {
        false
    }
}

/// A counter over time: between two of its values a place is asked for, or some
/// are given back.
pub open spec fn counts_places(values: Seq<nat>, bound: nat) -> bool {
    forall|i: int|
        0 < i < values.len() ==> {
            ||| #[trigger] values[i] == reserved(values[i - 1], bound).0
            ||| values[i] <= values[i - 1]
        }
}

/// However often places are asked for and given back, and in whatever order,
/// never more are taken than the bound.
pub proof fn law_reservations_stay_bounded(values: Seq<nat>, bound: nat)
    requires
        counts_places(values, bound),
        values.len() > 0,
        values[0] <= bound,
    ensures
        forall|i: int| 0 <= i < values.len() ==> #[trigger] values[i] <= bound,
    decreases values.len(),
{
    if values.len() > 1 {
        let head = values.drop_last();
        assert(forall|i: int| 0 <= i < head.len() ==> #[trigger] head[i] == values[i]);
        assert forall|i: int| 0 < i < head.len() implies {
            ||| #[trigger] head[i] == reserved(head[i - 1], bound).0
            ||| head[i] <= head[i - 1]
        } by {
            assert(values[i] == head[i]);
            assert(values[i - 1] == head[i - 1]);
        }
        law_reservations_stay_bounded(head, bound);
        let last = values.len() - 1;
        assert(head[last - 1] <= bound);
        assert(values[last] <= bound);
        assert forall|i: int| 0 <= i < values.len() implies #[trigger] values[i] <= bound by {
            if i < last {
                assert(head[i] <= bound);
            }
        }
    }
}

/// Admission takes a place in the queue: of the requests that are in time for an
/// open scheduler, those are admitted for which there is one.
pub proof fn law_admission_takes_a_place(
    s: ScheduleView,
    now: u64,
    request_id: RequestId,
    operation_id: Option<OperationId>,
    deadline: Option<u64>,
)
    requires
        steady(s),
        !s.closed,
        !passed(deadline, now),
    ensures
        ({
            let a = admitted(s, now, request_id, operation_id, deadline);
            reserved(s.queued as nat, s.queue_capacity as nat) == (a.0.queued as nat, a.1 is Ok)
        }),
{
}

/// A request asks to be admitted: the state after it, and its ticket or why it
/// is refused.
pub open spec fn admitted(
    s: ScheduleView,
    now: u64,
    request_id: RequestId,
    operation_id: Option<OperationId>,
    deadline: Option<u64>,
) -> (ScheduleView, Result<u64, ErrorView>) {
    if passed(deadline, now) {
        (s, Err(too_late("deadline exceeded before admission"@, request_id, operation_id)))
    } else if s.closed {
        (s, Err(shut("client is closed"@, request_id, operation_id)))
    } else if s.queued >= s.queue_capacity {
        (
            ScheduleView { refused: bumped(s.refused), ..s },
            Err(overloaded(request_id, operation_id)),
        )
    } else {
        (
            ScheduleView {
                queued: (s.queued + 1) as usize,
                jobs: s.jobs.push(new_job(s, request_id, operation_id, deadline)),
                next_ticket: (s.next_ticket + 1) as u64,
                entries: match deadline {
                    Some(at) => if s.stopped {
                        s.entries
                    } else {
                        s.entries.push(DeadlineEntry { id: s.next_id, at })
                    },
                    None => s.entries,
                },
                next_id: if deadline is Some {
                    (s.next_id + 1) as u64
                } else {
                    s.next_id
                },
                ..s
            },
            Ok(s.next_ticket),
        )
    }
}

proof fn lemma_entries_stay_owned(jobs: Seq<Job>, job: Job, e: DeadlineEntry)
    requires
        entry_owned(jobs, e),
    ensures
        entry_owned(jobs.push(job), e),
{
    let i = choose|i: int|
        0 <= i < jobs.len() && (#[trigger] jobs[i]).registration == e.id && jobs[i].deadline
            == Some(e.at);
    assert(jobs.push(job)[i] == jobs[i]);
}

/// Admission keeps what holds of the scheduler; in particular the queue never
/// holds more than its bound.
pub proof fn law_admission_is_steady(
    s: ScheduleView,
    now: u64,
    request_id: RequestId,
    operation_id: Option<OperationId>,
    deadline: Option<u64>,
)
    requires
        steady(s),
        s.jobs.len() < usize::MAX,
        s.next_ticket < u64::MAX,
        s.next_id < u64::MAX,
    ensures
        steady(admitted(s, now, request_id, operation_id, deadline).0),
{
    let t = admitted(s, now, request_id, operation_id, deadline).0;
    if !passed(deadline, now) && !s.closed && s.queued < s.queue_capacity {
        let job = new_job(s, request_id, operation_id, deadline);
        lemma_count_push(s.jobs, job, Stage::Queued);
        lemma_count_push(s.jobs, job, Stage::Dispatched);
        assert forall|i: int, j: int| 0 <= i < j < t.jobs.len() implies (#[trigger] t.jobs[i]).ticket
            != (#[trigger] t.jobs[j]).ticket && (t.jobs[i].registration != 0
            ==> t.jobs[i].registration != t.jobs[j].registration) by {
            assert(t.jobs[i] == s.jobs[i]);
            if j < s.jobs.len() {
                assert(t.jobs[j] == s.jobs[j]);
            }
        }
        assert forall|i: int| 0 <= i < t.jobs.len() implies (#[trigger] t.jobs[i]).ticket
            < t.next_ticket && t.jobs[i].registration < t.next_id by {
            if i < s.jobs.len() {
                assert(t.jobs[i] == s.jobs[i]);
            }
        }
        assert forall|i: int| 0 <= i < t.entries.len() implies (#[trigger] t.entries[i]).id != 0
            && entry_owned(t.jobs, t.entries[i]) by {
            if i < s.entries.len() {
                assert(t.entries[i] == s.entries[i]);
                lemma_entries_stay_owned(s.jobs, job, s.entries[i]);
            } else {
                assert(t.jobs[s.jobs.len() as int] == job);
            }
        }
        assert forall|i: int, j: int| 0 <= i < j < t.entries.len() implies (
        #[trigger] t.entries[i]).id != (#[trigger] t.entries[j]).id by {
            assert(t.entries[i] == s.entries[i]);
            if j == s.entries.len() {
                assert(entry_owned(s.jobs, s.entries[i]));
                let k = choose|k: int|
                    0 <= k < s.jobs.len() && (#[trigger] s.jobs[k]).registration == s.entries[i].id
                        && s.jobs[k].deadline == Some(s.entries[i].at);
                assert(s.jobs[k].registration < s.next_id);
            } else {
                assert(t.entries[j] == s.entries[j]);
            }
        }
    }
}

/// The state after a live request at a place left it, with its deadline.
pub open spec fn left(s: ScheduleView, i: int) -> ScheduleView {
    ScheduleView {
        queued: if s.jobs[i].stage == Stage::Queued {
            (s.queued - 1) as usize
        } else {
            s.queued
        },
        running: if s.jobs[i].stage == Stage::Dispatched {
            (s.running - 1) as usize
        } else {
            s.running
        },
        jobs: s.jobs.remove(i),
        entries: without_deadline(s.entries, s.jobs[i].registration),
        ..s
    }
}

proof fn lemma_left_is_steady(s: ScheduleView, i: int)
    requires
        steady(s),
        0 <= i < s.jobs.len(),
    ensures
        steady(left(s, i)),
        s.jobs[i].stage == Stage::Queued ==> s.queued > 0,
        s.jobs[i].stage == Stage::Dispatched ==> s.running > 0,
{
    let t = left(s, i);
    let gone = s.jobs[i];
    lemma_count_remove(s.jobs, i, Stage::Queued);
    lemma_count_remove(s.jobs, i, Stage::Dispatched);
    lemma_count_bounds(t.jobs);
    lemma_count_bounds(s.jobs);
    lemma_without_deadline(s.entries, gone.registration);
    assert forall|a: int, b: int| 0 <= a < b < t.jobs.len() implies (#[trigger] t.jobs[a]).ticket
        != (#[trigger] t.jobs[b]).ticket && (t.jobs[a].registration != 0 ==> t.jobs[a].registration
        != t.jobs[b].registration) by {
        let x = if a < i {
            a
        } else {
            a + 1
        };
        let y = if b < i {
            b
        } else {
            b + 1
        };
        assert(t.jobs[a] == s.jobs[x]);
        assert(t.jobs[b] == s.jobs[y]);
    }
    assert forall|a: int| 0 <= a < t.jobs.len() implies (#[trigger] t.jobs[a]).ticket
        < t.next_ticket && t.jobs[a].registration < t.next_id by {
        let x = if a < i {
            a
        } else {
            a + 1
        };
        assert(t.jobs[a] == s.jobs[x]);
    }
    assert forall|a: int| 0 <= a < t.entries.len() implies (#[trigger] t.entries[a]).id != 0
        && entry_owned(t.jobs, t.entries[a]) by {
        let e = t.entries[a];
        assert(s.entries.contains(e));
        let k = choose|k: int| 0 <= k < s.entries.len() && s.entries[k] == e;
        assert(s.entries[k].id != 0 && entry_owned(s.jobs, s.entries[k]));
        let o = choose|o: int|
            0 <= o < s.jobs.len() && (#[trigger] s.jobs[o]).registration == e.id
                && s.jobs[o].deadline == Some(e.at);
        assert(o != i);
        let n = if o < i {
            o
        } else {
            o - 1
        };
        assert(t.jobs[n] == s.jobs[o]);
    }
}

/// What a worker does with a request that it took.
#[derive(Debug)]
pub enum Begin {
    /// Run it.
    Run,
    /// Answer this; it does not run.
    Refuse(Error),
    /// Nothing: no such request waits.
    Unknown,
}

/// Model of a [`Begin`].
#[verifier::ext_equal]
pub enum BeginView {
    Run,
    Refuse(ErrorView),
    Unknown,
}

impl View for Begin {
    type V = BeginView;

    open spec fn view(&self) -> BeginView {
        match self {
            Begin::Run => BeginView::Run,
            Begin::Refuse(e) => BeginView::Refuse(e@),
            Begin::Unknown => BeginView::Unknown,
        }
    }
}

/// A worker takes a request: it runs unless its deadline is passed or nobody
/// waits for it any more.
pub open spec fn begun(s: ScheduleView, now: u64, ticket: u64) -> (ScheduleView, BeginView) {
    match ticket_from(s.jobs, ticket, 0) {
        None => (s, BeginView::Unknown),
        Some(i) => {
            let job = s.jobs[i];
            if job.stage != Stage::Queued {
                (s, BeginView::Unknown)
            } else if passed(job.deadline, now) {
                (
                    left(s, i),
                    BeginView::Refuse(
                        too_late(
                            "deadline exceeded before dispatch"@,
                            job.request_id,
                            job.operation_id,
                        ),
                    ),
                )
            } else if job.cancelled {
                (
                    ScheduleView {
                        cancelled_before_dispatch: bumped(s.cancelled_before_dispatch),
                        ..left(s, i)
                    },
                    BeginView::Refuse(
                        ended(
                            ErrorCode::CancelledBeforeDispatch,
                            ErrorClass::Cancellation,
                            "request cancelled before dispatch"@,
                            job.request_id,
                            job.operation_id,
                            TerminalOutcome::CancelledBeforeDispatch,
                            RetryDisposition::Never,
                        ),
                    ),
                )
            } else {
                (
                    ScheduleView {
                        queued: (s.queued - 1) as usize,
                        running: (s.running + 1) as usize,
                        jobs: s.jobs.update(i, Job { stage: Stage::Dispatched, ..job }),
                        ..s
                    },
                    BeginView::Run,
                )
            }
        },
    }
}

proof fn lemma_update_is_steady(s: ScheduleView, t: ScheduleView, i: int, job: Job)
    requires
        steady(s),
        0 <= i < s.jobs.len(),
        t.jobs == s.jobs.update(i, job),
        job.ticket == s.jobs[i].ticket,
        job.registration == s.jobs[i].registration,
        job.deadline == s.jobs[i].deadline,
        t.entries == s.entries,
        t.next_ticket == s.next_ticket,
        t.next_id == s.next_id,
        t.queue_capacity == s.queue_capacity,
        t.queued == count(t.jobs, Stage::Queued),
        t.running == count(t.jobs, Stage::Dispatched),
        t.queued <= s.queued,
    ensures
        steady(t),
{
    assert forall|a: int| 0 <= a < t.jobs.len() implies (#[trigger] t.jobs[a]).ticket
        == s.jobs[a].ticket && t.jobs[a].registration == s.jobs[a].registration
        && t.jobs[a].deadline == s.jobs[a].deadline by {}
    assert forall|a: int, b: int| 0 <= a < b < t.jobs.len() implies (#[trigger] t.jobs[a]).ticket
        != (#[trigger] t.jobs[b]).ticket && (t.jobs[a].registration != 0 ==> t.jobs[a].registration
        != t.jobs[b].registration) by {
        assert(s.jobs[a].ticket != s.jobs[b].ticket);
    }
    assert forall|a: int| 0 <= a < t.jobs.len() implies (#[trigger] t.jobs[a]).ticket
        < t.next_ticket && t.jobs[a].registration < t.next_id by {
        assert(s.jobs[a].ticket < s.next_ticket);
    }
    assert forall|a: int| 0 <= a < t.entries.len() implies (#[trigger] t.entries[a]).id != 0
        && entry_owned(t.jobs, t.entries[a]) by {
        let e = s.entries[a];
        let o = choose|o: int|
            0 <= o < s.jobs.len() && (#[trigger] s.jobs[o]).registration == e.id
                && s.jobs[o].deadline == Some(e.at);
        assert(t.jobs[o].registration == e.id);
    }
}

/// Taking a request keeps what holds of the scheduler.
pub proof fn law_begin_is_steady(s: ScheduleView, now: u64, ticket: u64)
    requires
        steady(s),
    ensures
        steady(begun(s, now, ticket).0),
{
    lemma_ticket_from(s.jobs, ticket, 0);
    match ticket_from(s.jobs, ticket, 0) {
        None => {},
        Some(i) => {
            let job = s.jobs[i];
            lemma_left_is_steady(s, i);
            if job.stage == Stage::Queued && !passed(job.deadline, now) && !job.cancelled {
                let next = Job { stage: Stage::Dispatched, ..job };
                lemma_count_update(s.jobs, i, next, Stage::Queued);
                lemma_count_update(s.jobs, i, next, Stage::Dispatched);
                lemma_count_bounds(s.jobs);
                lemma_count_bounds(s.jobs.update(i, next));
                lemma_update_is_steady(s, begun(s, now, ticket).0, i, next);
            }
        },
    }
}

/// A request that ran leaves.
pub open spec fn finished(s: ScheduleView, ticket: u64) -> ScheduleView {
    match ticket_from(s.jobs, ticket, 0) {
        None => s,
        Some(i) => if s.jobs[i].stage == Stage::Dispatched {
            ScheduleView { completed: bumped(s.completed), ..left(s, i) }
        } else {
            s
        },
    }
}

/// The end of a request keeps what holds of the scheduler.
pub proof fn law_finish_is_steady(s: ScheduleView, ticket: u64)
    requires
        steady(s),
    ensures
        steady(finished(s, ticket)),
{
    lemma_ticket_from(s.jobs, ticket, 0);
    match ticket_from(s.jobs, ticket, 0) {
        None => {},
        Some(i) => {
            lemma_left_is_steady(s, i);
        },
    }
}

/// A request that was admitted could not be handed to the workers: the state
/// after it, and what it is answered, where it was waiting.
pub open spec fn unsent(s: ScheduleView, ticket: u64, full: bool) -> (
    ScheduleView,
    Option<ErrorView>,
) {
    match ticket_from(s.jobs, ticket, 0) {
        None => (s, None),
        Some(i) => {
            let job = s.jobs[i];
            if job.stage != Stage::Queued {
                (s, None)
            } else if full {
                (
                    ScheduleView { refused: bumped(s.refused), ..left(s, i) },
                    Some(overloaded(job.request_id, job.operation_id)),
                )
            } else {
                (
                    left(s, i),
                    Some(
                        shut(
                            "embedded driver workers are closed"@,
                            job.request_id,
                            job.operation_id,
                        ),
                    ),
                )
            }
        },
    }
}

/// Nobody waits for a request any more.
pub open spec fn abandoned(s: ScheduleView, ticket: u64) -> ScheduleView {
    match ticket_from(s.jobs, ticket, 0) {
        None => s,
        Some(i) => ScheduleView {
            jobs: s.jobs.update(i, Job { cancelled: true, ..s.jobs[i] }),
            ..s
        },
    }
}

/// Abandoning a request keeps what holds of the scheduler.
pub proof fn law_abandon_is_steady(s: ScheduleView, ticket: u64)
    requires
        steady(s),
    ensures
        steady(abandoned(s, ticket)),
{
    lemma_ticket_from(s.jobs, ticket, 0);
    match ticket_from(s.jobs, ticket, 0) {
        None => {},
        Some(i) => {
            let next = Job { cancelled: true, ..s.jobs[i] };
            lemma_count_update(s.jobs, i, next, Stage::Queued);
            lemma_count_update(s.jobs, i, next, Stage::Dispatched);
            lemma_update_is_steady(s, abandoned(s, ticket), i, next);
        },
    }
}

/// The deadlines that are due, from a place on: their numbers in the order in
/// which they fire, and the deadlines that are left.
pub open spec fn fired(entries: Seq<DeadlineEntry>, from: int, now: u64) -> (
    Seq<u64>,
    Seq<DeadlineEntry>,
)
    decreases entries.len() - from,
{
    if from < 0 || from >= entries.len() {
        (Seq::empty(), entries)
    } else if entries[from].at <= now {
        let rest = fired(taken_out(entries, from), from, now);
        (seq![entries[from].id] + rest.0, rest.1)
    } else {
        fired(entries, from + 1, now)
    }
}

/// What a request is answered when its deadline fires.
pub open spec fn deadline_answer(job: Job) -> ErrorView {
    if job.stage == Stage::Queued {
        too_late("deadline exceeded while queued"@, job.request_id, job.operation_id)
    } else if job.operation_id is None {
        too_late("deadline exceeded after read dispatch"@, job.request_id, job.operation_id)
    } else {
        ended(
            ErrorCode::CommitOutcomeUnknown,
            ErrorClass::Cancellation,
            "mutation deadline exceeded after dispatch; resolve by operation id"@,
            job.request_id,
            job.operation_id,
            TerminalOutcome::CommitOutcomeUnknown,
            RetryDisposition::OutcomeLookupRequired,
        )
    }
}

/// The requests after deadlines fired: those that wait are not run any more.
pub open spec fn marked(jobs: Seq<Job>, ids: Seq<u64>) -> Seq<Job>
    decreases ids.len(),
{
    if ids.len() == 0 {
        jobs
    } else {
        let before = marked(jobs, ids.drop_last());
        match registration_from(before, ids.last(), 0) {
            None => before,
            Some(i) => if before[i].stage == Stage::Queued {
                before.update(i, Job { cancelled: true, ..before[i] })
            } else {
                before
            },
        }
    }
}

/// What the requests are answered whose deadlines fired.
pub open spec fn fire_answers(jobs: Seq<Job>, ids: Seq<u64>) -> Seq<(u64, ErrorView)>
    decreases ids.len(),
{
    if ids.len() == 0 {
        Seq::empty()
    } else {
        let before = marked(jobs, ids.drop_last());
        let answers = fire_answers(jobs, ids.drop_last());
        match registration_from(before, ids.last(), 0) {
            None => answers,
            Some(i) => answers.push((before[i].ticket, deadline_answer(before[i]))),
        }
    }
}

/// The state after the deadlines that are due fired, and the answers.
pub open spec fn expired(s: ScheduleView, now: u64) -> (ScheduleView, Seq<(u64, ErrorView)>) {
    if s.stopped {
        (s, Seq::empty())
    } else {
        let f = fired(s.entries, 0, now);
        (
            ScheduleView { jobs: marked(s.jobs, f.0), entries: f.1, ..s },
            fire_answers(s.jobs, f.0),
        )
    }
}

proof fn lemma_marked_steady(s: ScheduleView, ids: Seq<u64>)
    requires
        steady(s),
    ensures
        steady(ScheduleView { jobs: marked(s.jobs, ids), ..s }),
        marked(s.jobs, ids).len() == s.jobs.len(),
        forall|i: int|
            0 <= i < s.jobs.len() ==> (#[trigger] marked(s.jobs, ids)[i]).ticket
                == s.jobs[i].ticket && marked(s.jobs, ids)[i].stage == s.jobs[i].stage,
    decreases ids.len(),
{
    if ids.len() > 0 {
        lemma_marked_steady(s, ids.drop_last());
        let before = marked(s.jobs, ids.drop_last());
        let t = ScheduleView { jobs: before, ..s };
        lemma_registration_from(before, ids.last(), 0);
        match registration_from(before, ids.last(), 0) {
            None => {},
            Some(i) => {
                if before[i].stage == Stage::Queued {
                    let next = Job { cancelled: true, ..before[i] };
                    let u = ScheduleView { jobs: before.update(i, next), ..s };
                    lemma_count_update(before, i, next, Stage::Queued);
                    lemma_count_update(before, i, next, Stage::Dispatched);
                    lemma_update_is_steady(t, u, i, next);
                }
            },
        }
    }
}

proof fn lemma_taken_out_distinct(entries: Seq<DeadlineEntry>, k: int)
    requires
        0 <= k < entries.len(),
        forall|i: int, j: int|
            0 <= i < j < entries.len() ==> (#[trigger] entries[i]).id != (#[trigger] entries[j]).id,
    ensures
        ({
            let after = taken_out(entries, k);
            &&& forall|i: int, j: int|
                0 <= i < j < after.len() ==> (#[trigger] after[i]).id != (#[trigger] after[j]).id
            &&& forall|i: int|
                0 <= i < after.len() ==> entries.contains(#[trigger] after[i]) && after[i].id
                    != entries[k].id
        }),
{
    let after = taken_out(entries, k);
    assert forall|i: int| 0 <= i < after.len() implies entries.contains(#[trigger] after[i])
        && after[i].id != entries[k].id by {
        let a = if i == k {
            entries.len() - 1
        } else {
            i
        };
        assert(after[i] == entries[a]);
        assert(a != k);
        if a < k {
            assert(entries[a].id != entries[k].id);
        } else {
            assert(entries[k].id != entries[a].id);
        }
    }
    assert forall|i: int, j: int| 0 <= i < j < after.len() implies (#[trigger] after[i]).id != (
    #[trigger] after[j]).id by {
        let a = if i == k {
            entries.len() - 1
        } else {
            i
        };
        let b = if j == k {
            entries.len() - 1
        } else {
            j
        };
        assert(after[i] == entries[a]);
        assert(after[j] == entries[b]);
        assert(a != b);
        if a < b {
            assert(entries[a].id != entries[b].id);
        } else {
            assert(entries[b].id != entries[a].id);
        }
    }
}

proof fn lemma_fired(entries: Seq<DeadlineEntry>, from: int, now: u64)
    requires
        0 <= from <= entries.len(),
        forall|i: int| 0 <= i < from ==> (#[trigger] entries[i]).at > now,
        forall|i: int, j: int|
            0 <= i < j < entries.len() ==> (#[trigger] entries[i]).id != (#[trigger] entries[j]).id,
    ensures
        ({
            let f = fired(entries, from, now);
            &&& forall|i: int| 0 <= i < f.1.len() ==> (#[trigger] f.1[i]).at > now
            &&& forall|i: int| 0 <= i < f.1.len() ==> entries.contains(#[trigger] f.1[i])
            &&& forall|i: int, j: int|
                0 <= i < j < f.1.len() ==> (#[trigger] f.1[i]).id != (#[trigger] f.1[j]).id
            &&& forall|i: int|
                from <= i < entries.len() && (#[trigger] entries[i]).at <= now ==> f.0.contains(
                    entries[i].id,
                )
            &&& forall|i: int|
                0 <= i < entries.len() && (#[trigger] entries[i]).at > now ==> f.1.contains(
                    entries[i],
                )
            &&& forall|k: int|
                0 <= k < f.0.len() ==> exists|i: int|
                    0 <= i < entries.len() && (#[trigger] entries[i]).id == #[trigger] f.0[k]
                        && entries[i].at <= now
        }),
    decreases entries.len() - from,
{
    let f = fired(entries, from, now);
    if from >= entries.len() {
        assert forall|i: int| 0 <= i < f.1.len() implies entries.contains(#[trigger] f.1[i]) by {
            assert(entries[i] == f.1[i]);
        }
        assert forall|i: int|
            0 <= i < entries.len() && (#[trigger] entries[i]).at > now implies f.1.contains(
            entries[i],
        ) by {
            assert(f.1[i] == entries[i]);
        }
    } else if entries[from].at <= now {
        let after = taken_out(entries, from);
        lemma_taken_out_distinct(entries, from);
        assert forall|i: int| 0 <= i < from implies (#[trigger] after[i]).at > now by {
            assert(after[i] == entries[i]);
        }
        lemma_fired(after, from, now);
        let rest = fired(after, from, now);
        assert(f.0 =~= seq![entries[from].id] + rest.0);
        assert forall|i: int| 0 <= i < f.1.len() implies entries.contains(#[trigger] f.1[i]) by {
            assert(after.contains(rest.1[i]));
            let k = choose|k: int| 0 <= k < after.len() && after[k] == rest.1[i];
            assert(entries.contains(after[k]));
        }
        assert forall|i: int|
            from <= i < entries.len() && (#[trigger] entries[i]).at
                <= now implies f.0.contains(entries[i].id) by {
            if i == from {
                assert(f.0[0] == entries[from].id);
            } else {
                let a = if i == entries.len() - 1 {
                    from
                } else {
                    i
                };
                assert(after[a] == entries[i]);
                assert(rest.0.contains(after[a].id));
                let k = choose|k: int| 0 <= k < rest.0.len() && rest.0[k] == after[a].id;
                assert(f.0[k + 1] == entries[i].id);
            }
        }
        assert forall|i: int|
            0 <= i < entries.len() && (#[trigger] entries[i]).at > now implies f.1.contains(
            entries[i],
        ) by {
            let a = if i == entries.len() - 1 {
                from
            } else {
                i
            };
            assert(i != from);
            assert(after[a] == entries[i]);
        }
        assert forall|k: int| 0 <= k < f.0.len() implies exists|i: int|
            0 <= i < entries.len() && (#[trigger] entries[i]).id == #[trigger] f.0[k]
                && entries[i].at <= now by {
            if k == 0 {
                assert(entries[from].id == f.0[k]);
            } else {
                assert(f.0[k] == rest.0[k - 1]);
                let a = choose|a: int|
                    0 <= a < after.len() && (#[trigger] after[a]).id == rest.0[k - 1] && after[a].at
                        <= now;
                assert(entries.contains(after[a]));
                let i = choose|i: int| 0 <= i < entries.len() && entries[i] == after[a];
                assert(entries[i].id == f.0[k]);
            }
        }
    } else {
        lemma_fired(entries, from + 1, now);
    }
}

/// A deadline fires exactly when it is due: what is due fires, what is not due
/// stays, and nothing else is watched.
pub proof fn law_due_deadlines_fire(s: ScheduleView, now: u64)
    requires
        steady(s),
    ensures
        ({
            let f = fired(s.entries, 0, now);
            &&& forall|i: int|
                0 <= i < s.entries.len() ==> ((#[trigger] s.entries[i]).at <= now <==> f.0.contains(
                    s.entries[i].id,
                ))
            &&& forall|i: int|
                0 <= i < s.entries.len() ==> ((#[trigger] s.entries[i]).at > now
                    <==> f.1.contains(s.entries[i]))
            &&& forall|i: int| 0 <= i < f.1.len() ==> s.entries.contains(#[trigger] f.1[i])
        }),
{
    lemma_fired(s.entries, 0, now);
    let f = fired(s.entries, 0, now);
    assert forall|i: int| 0 <= i < s.entries.len() implies ((#[trigger] s.entries[i]).at <= now
        <==> f.0.contains(s.entries[i].id)) by {
        if f.0.contains(s.entries[i].id) {
            let k = choose|k: int| 0 <= k < f.0.len() && f.0[k] == s.entries[i].id;
            let o = choose|o: int|
                0 <= o < s.entries.len() && (#[trigger] s.entries[o]).id == f.0[k]
                    && s.entries[o].at <= now;
            if o < i {
                assert(s.entries[o].id != s.entries[i].id);
            } else if i < o {
                assert(s.entries[i].id != s.entries[o].id);
            }
        }
    }
}

/// The passing of time keeps what holds of the scheduler.
pub proof fn law_expiry_is_steady(s: ScheduleView, now: u64)
    requires
        steady(s),
    ensures
        steady(expired(s, now).0),
{
    if !s.stopped {
        let f = fired(s.entries, 0, now);
        lemma_fired(s.entries, 0, now);
        let t = ScheduleView { entries: f.1, ..s };
        assert(steady(t)) by {
            assert forall|i: int| 0 <= i < t.entries.len() implies (#[trigger] t.entries[i]).id != 0
                && entry_owned(t.jobs, t.entries[i]) by {
                assert(s.entries.contains(f.1[i]));
                let k = choose|k: int| 0 <= k < s.entries.len() && s.entries[k] == f.1[i];
                assert(s.entries[k].id != 0);
            }
        }
        lemma_marked_steady(t, f.0);
        assert(expired(s, now).0 =~= ScheduleView { jobs: marked(t.jobs, f.0), ..t });
    }
}

/// A request that is not live holds no deadline: where no request is left, no
/// deadline is left.
pub proof fn law_no_deadline_outlives_its_request(s: ScheduleView)
    requires
        steady(s),
    ensures
        s.jobs.len() == 0 ==> s.entries.len() == 0,
        forall|i: int|
            0 <= i < s.entries.len() ==> entry_owned(s.jobs, #[trigger] s.entries[i]),
{
    if s.jobs.len() == 0 && s.entries.len() > 0 {
        assert(entry_owned(s.jobs, s.entries[0]));
    }
}

/// A request that waits when its deadline fires never runs.
pub proof fn law_fired_request_does_not_run(s: ScheduleView, now: u64, later: u64, i: int)
    requires
        steady(s),
        0 <= i < s.jobs.len(),
        passed(s.jobs[i].deadline, now),
        now <= later,
    ensures
        s.jobs[i].stage == Stage::Queued ==> begun(s, later, s.jobs[i].ticket).1 != BeginView::Run,
{
    lemma_ticket_from(s.jobs, s.jobs[i].ticket, 0);
    match ticket_from(s.jobs, s.jobs[i].ticket, 0) {
        Some(k) => {
            if k < i {
                assert(s.jobs[k].ticket != s.jobs[i].ticket);
            } else if i < k {
                assert(s.jobs[i].ticket != s.jobs[k].ticket);
            }
        },
        None => {},
    }
}

/// A request that was abandoned while it waited never runs.
pub proof fn law_abandoned_request_does_not_run(s: ScheduleView, ticket: u64, now: u64)
    requires
        steady(s),
    ensures
        ticket_from(s.jobs, ticket, 0) matches Some(i) && s.jobs[i].stage == Stage::Queued
            ==> begun(abandoned(s, ticket), now, ticket).1 != BeginView::Run,
{
    lemma_ticket_from(s.jobs, ticket, 0);
    match ticket_from(s.jobs, ticket, 0) {
        Some(i) => {
            let t = abandoned(s, ticket);
            law_abandon_is_steady(s, ticket);
            lemma_ticket_from(t.jobs, ticket, 0);
            match ticket_from(t.jobs, ticket, 0) {
                Some(k) => {
                    if k < i {
                        assert(t.jobs[k].ticket != t.jobs[i].ticket);
                    } else if i < k {
                        assert(t.jobs[i].ticket != t.jobs[k].ticket);
                    }
                },
                None => {
                    assert(t.jobs[i].ticket == ticket);
                },
            }
        },
        None => {},
    }
}

/// A scheduler at its beginning.
pub open spec fn opened(workers: usize, queue_capacity: usize) -> ScheduleView {
    ScheduleView {
        workers,
        queue_capacity,
        queued: 0,
        running: 0,
        completed: 0,
        refused: 0,
        cancelled_before_dispatch: 0,
        closed: false,
        jobs: Seq::empty(),
        next_ticket: 0,
        entries: Seq::empty(),
        next_id: 1,
        stopped: false,
    }
}

/// The models of answers.
pub open spec fn answer_views(v: Seq<(u64, Error)>) -> Seq<(u64, ErrorView)> {
    v.map_values(|a: (u64, Error)| (a.0, a.1@))
}

fn answer_for(job: &Job) -> (r: Error)
    ensures
        r@ == deadline_answer(*job),
{
    if job.stage == Stage::Queued {
        late("deadline exceeded while queued", job.request_id, job.operation_id)
    } else if job.operation_id.is_none() {
        late("deadline exceeded after read dispatch", job.request_id, job.operation_id)
    } else {
        Error::for_request(
            ErrorCode::CommitOutcomeUnknown,
            ErrorClass::Cancellation,
            "mutation deadline exceeded after dispatch; resolve by operation id",
            job.request_id,
            job.operation_id,
            TerminalOutcome::CommitOutcomeUnknown,
            RetryDisposition::OutcomeLookupRequired,
        )
    }
}

fn fire(entries: &mut Vec<DeadlineEntry>, now: u64) -> (r: Vec<u64>)
    ensures
        fired(old(entries)@, 0, now) == (r@, final(entries)@),
{
    let ghost start = entries@;
    let mut ids: Vec<u64> = Vec::new();
    let mut i: usize = 0;
    while i < entries.len()
        invariant
            i <= entries@.len(),
            fired(start, 0, now) == (
                ids@ + fired(entries@, i as int, now).0,
                fired(entries@, i as int, now).1,
            ),
        decreases entries@.len() - i,
    {
        let ghost before = entries@;
        let ghost listed = ids@;
        if entries[i].at <= now {
            let e = entries.swap_remove(i);
            ids.push(e.id);
            proof {
                let rest = fired(entries@, i as int, now);
                assert(entries@ =~= taken_out(before, i as int));
                assert(listed + (seq![e.id] + rest.0) =~= ids@ + rest.0);
            }
        } else {
            i = i + 1;
        }
    }
    proof {
        assert(ids@ + Seq::<u64>::empty() =~= ids@);
    }
    ids
}

impl State {
    fn new(workers: usize, queue_capacity: usize) -> (r: State)
        ensures
            r@ == opened(workers, queue_capacity),
            steady(r@),
    {
        let r = State {
            workers,
            queue_capacity,
            queued: 0,
            running: 0,
            completed: 0,
            refused: 0,
            cancelled_before_dispatch: 0,
            closed: false,
            jobs: Vec::new(),
            next_ticket: 0,
            entries: Vec::new(),
            next_id: 1,
            stopped: false,
        };
        proof {
            assert(r@ =~= opened(workers, queue_capacity));
        }
        r
    }

    fn admit_request(
        &mut self,
        now: u64,
        request_id: RequestId,
        operation_id: Option<OperationId>,
        deadline: Option<u64>,
    ) -> (r: Result<u64, Error>)
        requires
            steady(old(self)@),
            old(self)@.next_ticket < u64::MAX,
            old(self)@.next_id < u64::MAX,
        ensures
            steady(final(self)@),
            ({
                let a = admitted(old(self)@, now, request_id, operation_id, deadline);
                final(self)@ == a.0 && match r {
                    Ok(t) => a.1 == Ok::<u64, ErrorView>(t),
                    Err(e) => a.1 == Err::<u64, ErrorView>(e@),
                }
            }),
    {
        let ghost start = self@;
        if is_passed(deadline, now) {
            return Err(late("deadline exceeded before admission", request_id, operation_id));
        }
        if self.closed {
            return Err(shut_error("client is closed", request_id, operation_id));
        }
        if !reserve_bounded(&mut self.queued, self.queue_capacity) {
            self.refused = bump(self.refused);
            proof {
                assert(self@ =~= admitted(start, now, request_id, operation_id, deadline).0);
                assert(steady(self@));
            }
            return Err(overload_error(request_id, operation_id));
        }
        let ticket = self.next_ticket;
        let registration: u64 = if deadline.is_some() {
            self.next_id
        } else {
            0
        };
        let ghost jobs_before = self.jobs@;
        self.jobs.push(
            Job {
                ticket,
                request_id,
                operation_id,
                deadline,
                stage: Stage::Queued,
                cancelled: false,
                registration,
            },
        );
        let length = self.jobs.len();
        self.next_ticket = self.next_ticket + 1;
        if let Some(at) = deadline {
            if !self.stopped {
                self.entries.push(DeadlineEntry { id: self.next_id, at });
            }
            self.next_id = self.next_id + 1;
        }
        proof {
            assert(jobs_before.len() < length <= usize::MAX);
            law_admission_is_steady(start, now, request_id, operation_id, deadline);
            assert(self@ =~= admitted(start, now, request_id, operation_id, deadline).0);
        }
        Ok(ticket)
    }

    fn leave(&mut self, i: usize)
        requires
            steady(old(self)@),
            i < old(self)@.jobs.len(),
        ensures
            steady(final(self)@),
            final(self)@ == left(old(self)@, i as int),
    {
        let ghost start = self@;
        proof {
            lemma_left_is_steady(start, i as int);
        }
        let job = self.jobs.remove(i);
        match job.stage {
            Stage::Queued => {
                self.queued = self.queued - 1;
            },
            Stage::Dispatched => {
                self.running = self.running - 1;
            },
        }
        cancel_deadline(&mut self.entries, job.registration);
        proof {
            assert(self@ =~= left(start, i as int));
        }
    }

    fn begin(&mut self, now: u64, ticket: u64) -> (r: Begin)
        requires
            steady(old(self)@),
        ensures
            steady(final(self)@),
            begun(old(self)@, now, ticket) == (final(self)@, r@),
    {
        let ghost start = self@;
        proof {
            law_begin_is_steady(start, now, ticket);
        }
        match find_ticket(&self.jobs, ticket) {
            None => Begin::Unknown,
            Some(i) => {
                let job = self.jobs[i];
                if job.stage != Stage::Queued {
                    return Begin::Unknown;
                }
                if is_passed(job.deadline, now) {
                    self.leave(i);
                    return Begin::Refuse(
                        late(
                            "deadline exceeded before dispatch",
                            job.request_id,
                            job.operation_id,
                        ),
                    );
                }
                if job.cancelled {
                    self.leave(i);
                    self.cancelled_before_dispatch = bump(self.cancelled_before_dispatch);
                    proof {
                        assert(self@ =~= begun(start, now, ticket).0);
                    }
                    return Begin::Refuse(
                        Error::for_request(
                            ErrorCode::CancelledBeforeDispatch,
                            ErrorClass::Cancellation,
                            "request cancelled before dispatch",
                            job.request_id,
                            job.operation_id,
                            TerminalOutcome::CancelledBeforeDispatch,
                            RetryDisposition::Never,
                        ),
                    );
                }
                let next = Job {
                    ticket: job.ticket,
                    request_id: job.request_id,
                    operation_id: job.operation_id,
                    deadline: job.deadline,
                    stage: Stage::Dispatched,
                    cancelled: job.cancelled,
                    registration: job.registration,
                };
                proof {
                    lemma_left_is_steady(start, i as int);
                    lemma_count_update(start.jobs, i as int, next, Stage::Dispatched);
                    lemma_count_bounds(start.jobs.update(i as int, next));
                }
                let length = self.jobs.len();
                self.queued = self.queued - 1;
                self.running = self.running + 1;
                self.jobs.set(i, next);
                proof {
                    assert(self@ =~= begun(start, now, ticket).0);
                }
                Begin::Run
            },
        }
    }

    fn finish(&mut self, ticket: u64)
        requires
            steady(old(self)@),
        ensures
            steady(final(self)@),
            final(self)@ == finished(old(self)@, ticket),
    {
        let ghost start = self@;
        proof {
            law_finish_is_steady(start, ticket);
        }
        match find_ticket(&self.jobs, ticket) {
            None => {},
            Some(i) => {
                if self.jobs[i].stage == Stage::Dispatched {
                    self.leave(i);
                    self.completed = bump(self.completed);
                    proof {
                        assert(self@ =~= finished(start, ticket));
                    }
                }
            },
        }
    }

    fn send_failed(&mut self, ticket: u64, full: bool) -> (r: Option<Error>)
        requires
            steady(old(self)@),
        ensures
            steady(final(self)@),
            ({
                let u = unsent(old(self)@, ticket, full);
                final(self)@ == u.0 && match r {
                    Some(e) => u.1 == Some(e@),
                    None => u.1 is None,
                }
            }),
    {
        let ghost start = self@;
        match find_ticket(&self.jobs, ticket) {
            None => None,
            Some(i) => {
                let job = self.jobs[i];
                if job.stage != Stage::Queued {
                    return None;
                }
                self.leave(i);
                if full {
                    self.refused = bump(self.refused);
                    proof {
                        assert(self@ =~= unsent(start, ticket, full).0);
                        assert(steady(self@));
                    }
                    return Some(overload_error(job.request_id, job.operation_id));
                }
                Some(
                    shut_error(
                        "embedded driver workers are closed",
                        job.request_id,
                        job.operation_id,
                    ),
                )
            },
        }
    }

    fn abandon(&mut self, ticket: u64)
        requires
            steady(old(self)@),
        ensures
            steady(final(self)@),
            final(self)@ == abandoned(old(self)@, ticket),
    {
        let ghost start = self@;
        proof {
            law_abandon_is_steady(start, ticket);
        }
        match find_ticket(&self.jobs, ticket) {
            None => {},
            Some(i) => {
                let job = self.jobs[i];
                self.jobs.set(
                    i,
                    Job {
                        ticket: job.ticket,
                        request_id: job.request_id,
                        operation_id: job.operation_id,
                        deadline: job.deadline,
                        stage: job.stage,
                        cancelled: true,
                        registration: job.registration,
                    },
                );
                proof {
                    assert(self@ =~= abandoned(start, ticket));
                }
            },
        }
    }

    fn expire(&mut self, now: u64) -> (r: Vec<(u64, Error)>)
        requires
            steady(old(self)@),
        ensures
            steady(final(self)@),
            expired(old(self)@, now) == (final(self)@, answer_views(r@)),
    {
        let ghost start = self@;
        let mut out: Vec<(u64, Error)> = Vec::new();
        proof {
            law_expiry_is_steady(start, now);
            assert(answer_views(out@) =~= Seq::empty());
        }
        if self.stopped {
            return out;
        }
        let ids = fire(&mut self.entries, now);
        let mut k: usize = 0;
        proof {
            assert(ids@.take(0) =~= Seq::empty());
        }
        while k < ids.len()
            invariant
                k <= ids@.len(),
                fired(start.entries, 0, now) == (ids@, self.entries@),
                self@ == (ScheduleView {
                    jobs: marked(start.jobs, ids@.take(k as int)),
                    entries: self.entries@,
                    ..start
                }),
                answer_views(out@) == fire_answers(start.jobs, ids@.take(k as int)),
            decreases ids@.len() - k,
        {
            let ghost before = self@;
            let ghost answered = answer_views(out@);
            proof {
                assert(ids@.take(k + 1).drop_last() =~= ids@.take(k as int));
                assert(ids@.take(k + 1).last() == ids@[k as int]);
            }
            match find_registration(&self.jobs, ids[k]) {
                None => {},
                Some(i) => {
                    let job = self.jobs[i];
                    if job.stage == Stage::Queued {
                        self.jobs.set(
                            i,
                            Job {
                                ticket: job.ticket,
                                request_id: job.request_id,
                                operation_id: job.operation_id,
                                deadline: job.deadline,
                                stage: job.stage,
                                cancelled: true,
                                registration: job.registration,
                            },
                        );
                    }
                    out.push((job.ticket, answer_for(&job)));
                    proof {
                        assert(answer_views(out@) =~= answered.push(
                            (job.ticket, deadline_answer(job)),
                        ));
                    }
                },
            }
            k = k + 1;
            proof {
                assert(self@ =~= ScheduleView {
                    jobs: marked(start.jobs, ids@.take(k as int)),
                    entries: self.entries@,
                    ..start
                });
            }
        }
        proof {
            assert(ids@.take(ids@.len() as int) =~= ids@);
            assert(self@ =~= expired(start, now).0);
        }
        out
    }
}

/// The scheduler: a bounded queue of requests, the workers' progress on them
/// and the deadlines that are watched.
#[derive(Debug)]
pub struct Schedule {
    state: State,
}

impl View for Schedule {
    type V = ScheduleView;

    closed spec fn view(&self) -> ScheduleView {
        self.state@
    }
}

/// The earliest time in a list of deadlines.
pub open spec fn earliest(entries: Seq<DeadlineEntry>) -> Option<u64>
    decreases entries.len(),
{
    if entries.len() == 0 {
        None
    } else {
        match earliest(entries.drop_last()) {
            None => Some(entries.last().at),
            Some(at) => Some(
                if entries.last().at < at {
                    entries.last().at
                } else {
                    at
                },
            ),
        }
    }
}

impl Schedule {
    #[verifier::type_invariant]
    spec fn holds(self) -> bool {
        steady(self.state@)
    }

    /// A scheduler with its bounds.
    pub fn new(workers: usize, queue_capacity: usize) -> (r: Schedule)
        ensures
            r@ == opened(workers, queue_capacity),
    {
        Schedule { state: State::new(workers, queue_capacity) }
    }

    /// A request asks to be admitted. The counters of requests and of
    /// deadlines must have room for one more.
    pub fn admit_request(
        &mut self,
        now: u64,
        request_id: RequestId,
        operation_id: Option<OperationId>,
        deadline: Option<u64>,
    ) -> (r: Result<u64, Error>)
        requires
            old(self)@.next_ticket < u64::MAX,
            old(self)@.next_id < u64::MAX,
        ensures
            steady(final(self)@),
            ({
                let a = admitted(old(self)@, now, request_id, operation_id, deadline);
                final(self)@ == a.0 && match r {
                    Ok(t) => a.1 == Ok::<u64, ErrorView>(t),
                    Err(e) => a.1 == Err::<u64, ErrorView>(e@),
                }
            }),
    {
        proof {
            use_type_invariant(&*self);
        }
        let mut state = State::new(0, 0);
        std::mem::swap(&mut state, &mut self.state);
        let r = state.admit_request(now, request_id, operation_id, deadline);
        self.state = state;
        r
    }

    /// Whether the counters of requests and of deadlines have room for one
    /// more.
    pub fn has_room(&self) -> (r: bool)
        ensures
            r == (self@.next_ticket < u64::MAX && self@.next_id < u64::MAX),
    {
        self.state.next_ticket < u64::MAX && self.state.next_id < u64::MAX
    }

    /// An admitted request could not be handed to the workers, because their
    /// channel is full or gone. Gives what it is answered.
    pub fn send_failed(&mut self, ticket: u64, full: bool) -> (r: Option<Error>)
        ensures
            steady(final(self)@),
            ({
                let u = unsent(old(self)@, ticket, full);
                final(self)@ == u.0 && match r {
                    Some(e) => u.1 == Some(e@),
                    None => u.1 is None,
                }
            }),
    {
        proof {
            use_type_invariant(&*self);
        }
        let mut state = State::new(0, 0);
        std::mem::swap(&mut state, &mut self.state);
        let r = state.send_failed(ticket, full);
        self.state = state;
        r
    }

    /// A worker takes a request.
    pub fn begin(&mut self, now: u64, ticket: u64) -> (r: Begin)
        ensures
            steady(final(self)@),
            begun(old(self)@, now, ticket) == (final(self)@, r@),
    {
        proof {
            use_type_invariant(&*self);
        }
        let mut state = State::new(0, 0);
        std::mem::swap(&mut state, &mut self.state);
        let r = state.begin(now, ticket);
        self.state = state;
        r
    }

    /// A request that a worker ran has its result.
    pub fn finish(&mut self, ticket: u64)
        ensures
            steady(final(self)@),
            final(self)@ == finished(old(self)@, ticket),
    {
        proof {
            use_type_invariant(&*self);
        }
        let mut state = State::new(0, 0);
        std::mem::swap(&mut state, &mut self.state);
        state.finish(ticket);
        self.state = state;
    }

    /// Nobody waits for a request any more.
    pub fn abandon(&mut self, ticket: u64)
        ensures
            steady(final(self)@),
            final(self)@ == abandoned(old(self)@, ticket),
    {
        proof {
            use_type_invariant(&*self);
        }
        let mut state = State::new(0, 0);
        std::mem::swap(&mut state, &mut self.state);
        state.abandon(ticket);
        self.state = state;
    }

    /// Lets the deadlines fire that are due. Gives what their requests are
    /// answered, by ticket.
    pub fn expire(&mut self, now: u64) -> (r: Vec<(u64, Error)>)
        ensures
            steady(final(self)@),
            expired(old(self)@, now) == (final(self)@, answer_views(r@)),
    {
        proof {
            use_type_invariant(&*self);
        }
        let mut state = State::new(0, 0);
        std::mem::swap(&mut state, &mut self.state);
        let r = state.expire(now);
        self.state = state;
        r
    }

    /// When the next deadline is due.
    pub fn next_due(&self) -> (r: Option<u64>)
        ensures
            r == earliest(self@.entries),
    {
        let entries = &self.state.entries;
        let mut best: Option<u64> = None;
        let mut i: usize = 0;
        proof {
            assert(entries@.take(0) =~= Seq::empty());
        }
        while i < entries.len()
            invariant
                i <= entries@.len(),
                best == earliest(entries@.take(i as int)),
            decreases entries@.len() - i,
        {
            proof {
                assert(entries@.take(i + 1).drop_last() =~= entries@.take(i as int));
                assert(entries@.take(i + 1).last() == entries@[i as int]);
            }
            let at = entries[i].at;
            best = match best {
                None => Some(at),
                Some(b) => if at < b {
                    Some(at)
                } else {
                    Some(b)
                },
            };
            i = i + 1;
        }
        proof {
            assert(entries@.take(entries@.len() as int) =~= entries@);
        }
        best
    }

    /// Closes the scheduler for new requests. Gives whether it was open.
    pub fn close(&mut self) -> (r: bool)
        ensures
            steady(final(self)@),
            r == !old(self)@.closed,
            final(self)@ == (ScheduleView { closed: true, ..old(self)@ }),
    {
        proof {
            use_type_invariant(&*self);
        }
        let mut state = State::new(0, 0);
        std::mem::swap(&mut state, &mut self.state);
        let open = !state.closed;
        let ghost before = state@;
        state.closed = true;
        proof {
            assert(state@ =~= ScheduleView { closed: true, ..before });
            assert(steady(state@));
        }
        self.state = state;
        open
    }

    /// Stops watching deadlines.
    pub fn stop_deadlines(&mut self)
        ensures
            steady(final(self)@),
            final(self)@ == (ScheduleView {
                stopped: true,
                entries: Seq::empty(),
                ..old(self)@
            }),
    {
        proof {
            use_type_invariant(&*self);
        }
        let mut state = State::new(0, 0);
        std::mem::swap(&mut state, &mut self.state);
        let ghost before = state@;
        state.stopped = true;
        state.entries = Vec::new();
        proof {
            assert(state@ =~= ScheduleView { stopped: true, entries: Seq::empty(), ..before });
            assert(steady(state@));
        }
        self.state = state;
    }

    /// The state as it may be shown.
    pub fn inspect(&self) -> (r: ClientInspection)
        ensures
            r.workers == self@.workers,
            r.queue_capacity == self@.queue_capacity,
            r.queued == self@.queued,
            r.running == self@.running,
            r.completed == self@.completed,
            r.refused == self@.refused,
            r.cancelled_before_dispatch == self@.cancelled_before_dispatch,
            r.closed == self@.closed,
            r.queued <= r.queue_capacity,
    {
        proof {
            use_type_invariant(self);
        }
        ClientInspection {
            workers: self.state.workers,
            queue_capacity: self.state.queue_capacity,
            queued: self.state.queued,
            running: self.state.running,
            completed: self.state.completed,
            refused: self.state.refused,
            cancelled_before_dispatch: self.state.cancelled_before_dispatch,
            closed: self.state.closed,
        }
    }
}

/// Where the answer of a request is left until it is asked for.
#[derive(Debug)]
pub struct ResponseCell<T> {
    /// The answer, where there is one.
    pub result: Option<T>,
}

impl<T> ResponseCell<T> {
    /// A cell without an answer.
    pub fn new() -> (r: ResponseCell<T>)
        ensures
            r.result is None,
    {
        ResponseCell { result: None }
    }

    /// Leaves an answer. The first one stands; a later one is dropped. Gives
    /// whether it was the first.
    pub fn complete(&mut self, result: T) -> (r: bool)
        ensures
            r == old(self).result is None,
            final(self).result == (if old(self).result is None {
                Some(result)
            } else {
                old(self).result
            }),
    {
        if self.result.is_some() {
            return false;
        }
        self.result = Some(result);
        true
    }

    /// Takes the answer, where there is one.
    pub fn poll(&mut self) -> (r: Option<T>)
        ensures
            r == old(self).result,
            final(self).result is None,
    {
        self.result.take()
    }
}

} // verus!
