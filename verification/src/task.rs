//! The lifecycle of one task.
//!
//! A task is planned, runs, finishes its input, and ends in one of four
//! terminal states. An ended task stays as it is, with one exception: an
//! abort overrides a cancel, so that of a cancel and an abort the abort wins
//! in whichever order the two arrive. Updates from the coordinator carry a
//! version hint; an update whose hint lies below the task's generation is
//! stale and changes nothing. The task owns its output buffers and its
//! memory reservation.

use crate::buffer::{Batch, BatchView, Page, PageView, PollStep};
use crate::error::{Missing, WorkerError};
use crate::ident::{BufferId, PoolId, TaskIdentity};
use crate::manager::{
    BufferInfo,
    BufferInfoView,
    ManagerView,
    OutputBufferManager,
    info_views,
    lemma_complete_all_never_waits,
    release_buffers,
    release_pages,
};
use crate::memory::{AccountantView, MemoryPoolAccountant, ReservationHandle};
use vstd::prelude::*;

verus! {

/// Where a task stands in its lifecycle.
#[derive(Clone, Copy, Debug, PartialEq, Eq, Structural)]
pub enum TaskState {
    Planned,
    Running,
    Finishing,
    Finished,
    Failed,
    Canceled,
    Aborted,
}

impl TaskState {
    /// The task has ended. An ended task stays as it is, with one exception:
    /// an abort overrides a cancel.
    pub open spec fn terminal(self) -> bool {
        self is Finished || self is Failed || self is Canceled || self is Aborted
    }

    /// An abort takes effect in this state: the task has not ended, or it
    /// was only canceled.
    pub open spec fn abortable(self) -> bool {
        !self.terminal() || self is Canceled
    }

    /// The lifecycle allows a task to go from this state straight to `next`.
    pub open spec fn steps_to(self, next: TaskState) -> bool {
        match self {
            TaskState::Planned => next is Running || next is Failed || next is Canceled
                || next is Aborted,
            TaskState::Running => next is Finishing || next is Failed || next is Canceled
                || next is Aborted,
            TaskState::Finishing => next is Finished || next is Failed || next is Canceled
                || next is Aborted,
            TaskState::Canceled => next is Aborted,
            _ => false,
        }
    }

    pub fn is_abortable(&self) -> (abortable: bool)
        ensures
            abortable == self.abortable(),
    {
        match self {
            TaskState::Finished | TaskState::Failed | TaskState::Aborted => false,
            _ => true,
        }
    }

    pub fn is_terminal(&self) -> (terminal: bool)
        ensures
            terminal == self.terminal(),
    {
        match self {
            TaskState::Finished | TaskState::Failed | TaskState::Canceled | TaskState::Aborted => true,
            _ => false,
        }
    }
}

/// Why a task failed.
#[derive(Clone, Copy, Debug, PartialEq, Eq, Structural)]
pub enum FailureCause {
    /// The pool could not grant the memory that the plan asked for.
    OutOfMemory,
    /// The plan named a pool that is not configured.
    UnknownPool,
    /// The execution of the task reported an error.
    Execution,
}

/// The failure that a refused reservation causes.
pub open spec fn failure_of(refusal: WorkerError) -> FailureCause {
    if refusal == WorkerError::PoolExhausted {
        FailureCause::OutOfMemory
    } else {
        FailureCause::UnknownPool
    }
}

/// A unit of input that the coordinator assigns to a task.
#[derive(Clone, Copy, Debug, PartialEq, Eq, Structural)]
pub struct Split {
    pub id: u64,
    pub size: u64,
}

/// The plan of a task: the pool it runs in and the memory it needs.
#[derive(Debug)]
pub struct Plan {
    pub pool: PoolId,
    pub memory_bytes: u64,
    pub revocable: bool,
}

pub struct PlanView {
    pub pool: Seq<char>,
    pub memory_bytes: nat,
    pub revocable: bool,
}

impl View for Plan {
    type V = PlanView;

    open spec fn view(&self) -> PlanView {
        PlanView {
            pool: self.pool@,
            memory_bytes: self.memory_bytes as nat,
            revocable: self.revocable,
        }
    }
}

/// What an update asks of a task.
#[derive(Debug)]
pub enum TaskUpdate {
    /// Assigns the plan, which starts the task.
    PlanAssignment(Plan),
    /// Hands the task more input.
    SplitBatch(Vec<Split>),
    /// Tells the task that it has all its input.
    NoMoreSplits,
}

pub enum UpdateView {
    PlanAssignment(PlanView),
    SplitBatch(Seq<Split>),
    NoMoreSplits,
}

impl View for TaskUpdate {
    type V = UpdateView;

    open spec fn view(&self) -> UpdateView {
        match self {
            TaskUpdate::PlanAssignment(plan) => UpdateView::PlanAssignment(plan@),
            TaskUpdate::SplitBatch(splits) => UpdateView::SplitBatch(splits@),
            TaskUpdate::NoMoreSplits => UpdateView::NoMoreSplits,
        }
    }
}

/// An update together with the generation that its sender last saw.
#[derive(Debug)]
pub struct TaskUpdateRequest {
    pub version: u64,
    pub update: TaskUpdate,
}

pub struct RequestView {
    pub version: nat,
    pub update: UpdateView,
}

impl View for TaskUpdateRequest {
    type V = RequestView;

    open spec fn view(&self) -> RequestView {
        RequestView { version: self.version as nat, update: self.update@ }
    }
}

/// The status of a task at one point in time.
pub struct TaskStatusView {
    pub identity: Seq<char>,
    pub state: TaskState,
    pub version: nat,
    pub last_update: nat,
    pub failure: Option<FailureCause>,
}

/// The full report on a task. A summary leaves the splits out.
pub struct TaskInfoView {
    pub status: TaskStatusView,
    pub buffers: Seq<BufferInfoView>,
    pub split_count: nat,
    pub splits: Option<Seq<Split>>,
}

impl TaskInfoView {
    /// The report without its large parts.
    pub open spec fn summary(self) -> TaskInfoView {
        TaskInfoView { splits: None, ..self }
    }
}

/// The model of a task.
pub struct TaskView {
    pub identity: Seq<char>,
    pub state: TaskState,
    /// Counts the updates that were applied.
    pub generation: nat,
    /// When the task last changed its state or took an update.
    pub last_update: nat,
    pub failure: Option<FailureCause>,
    pub buffers: ManagerView,
    /// The handle of the memory that the plan reserved, while the task
    /// holds it.
    pub reservation: Option<int>,
    /// The pool that the plan assigned.
    pub pool: Option<Seq<char>>,
    pub splits: Seq<Split>,
}

impl TaskView {
    /// A task that was just created: planned, and nothing else.
    pub open spec fn fresh(identity: Seq<char>, now: nat) -> TaskView {
        TaskView {
            identity,
            state: TaskState::Planned,
            generation: 0,
            last_update: now,
            failure: None,
            buffers: ManagerView { buffers: Seq::empty() },
            reservation: None,
            pool: None,
            splits: Seq::empty(),
        }
    }

    /// An update with this version hint comes too late: the task has moved
    /// past it.
    pub open spec fn stale(self, version: nat) -> bool {
        version < self.generation
    }

    /// The task applies an update with this version hint.
    pub open spec fn accepts(self, version: nat) -> bool {
        !self.stale(version) && !self.state.terminal()
    }

    /// An update with this version hint can be counted: it is not applied,
    /// or the generation can still grow.
    pub open spec fn can_count(self, version: nat) -> bool {
        self.accepts(version) ==> self.generation < u64::MAX
    }

    /// What assigning `plan` does to a planned task: the memory is reserved
    /// and the task runs, or the reservation is refused and the task fails.
    pub open spec fn assign(self, plan: PlanView, a: AccountantView) -> (TaskView, AccountantView) {
        match a.refusal(plan.pool, plan.memory_bytes, plan.revocable) {
            None => (
                TaskView {
                    state: TaskState::Running,
                    reservation: Some(a.reservations.len() as int),
                    pool: Some(plan.pool),
                    ..self
                },
                a.reserve(self.identity, plan.pool, plan.memory_bytes, plan.revocable),
            ),
            Some(refusal) => (
                TaskView { state: TaskState::Failed, failure: Some(failure_of(refusal)), ..self },
                a,
            ),
        }
    }

    /// The task and the accountant after an update request.
    ///
    /// A stale request, and any request to a terminal task, changes nothing.
    /// Every other request raises the generation by one and stamps the
    /// task. On top of that a plan starts a planned task, splits are added
    /// to a task that still takes input, and the end of the input moves a
    /// running task to finishing.
    pub open spec fn update(self, request: RequestView, now: nat, a: AccountantView) -> (
        TaskView,
        AccountantView,
    ) {
        if !self.accepts(request.version) {
            (self, a)
        } else {
            let counted = TaskView { generation: self.generation + 1, last_update: now, ..self };
            match request.update {
                UpdateView::PlanAssignment(plan) => if self.state is Planned {
                    counted.assign(plan, a)
                } else {
                    (counted, a)
                },
                UpdateView::SplitBatch(splits) => if self.state is Planned || self.state is Running {
                    (TaskView { splits: self.splits + splits, ..counted }, a)
                } else {
                    (counted, a)
                },
                UpdateView::NoMoreSplits => if self.state is Running {
                    (TaskView { state: TaskState::Finishing, ..counted }, a)
                } else {
                    (counted, a)
                },
            }
        }
    }

    /// The task after a cancel: canceled, unless it had ended already.
    pub open spec fn cancel(self, now: nat) -> TaskView {
        if self.state.terminal() {
            self
        } else {
            TaskView { state: TaskState::Canceled, last_update: now, ..self }
        }
    }

    /// The accountant after the task gave its reservation back.
    pub open spec fn release_reservation(self, a: AccountantView) -> AccountantView {
        match self.reservation {
            Some(handle) => a.release(handle),
            None => a,
        }
    }

    /// The task and the accountant after an abort: a task that has not ended,
    /// or that was canceled, is aborted, its reservation is released, and
    /// all its buffers are complete. A task that is finished, failed or
    /// aborted stays as it is.
    pub open spec fn abort(self, now: nat, a: AccountantView) -> (TaskView, AccountantView) {
        if !self.state.abortable() {
            (self, a)
        } else {
            (
                TaskView {
                    state: TaskState::Aborted,
                    last_update: now,
                    reservation: None,
                    buffers: self.buffers.complete_all(),
                    ..self
                },
                self.release_reservation(a),
            )
        }
    }

    /// The task after its execution reported that all output is produced: a
    /// finishing task is finished.
    pub open spec fn finish(self, now: nat) -> TaskView {
        if self.state is Finishing {
            TaskView { state: TaskState::Finished, last_update: now, ..self }
        } else {
            self
        }
    }

    /// The task after its execution reported an error: failed, unless it had
    /// ended already.
    pub open spec fn fail(self, cause: FailureCause, now: nat) -> TaskView {
        if self.state.terminal() {
            self
        } else {
            TaskView { state: TaskState::Failed, failure: Some(cause), last_update: now, ..self }
        }
    }

    pub open spec fn status(self) -> TaskStatusView {
        TaskStatusView {
            identity: self.identity,
            state: self.state,
            version: self.generation,
            last_update: self.last_update,
            failure: self.failure,
        }
    }

    pub open spec fn info(self, summarize: bool) -> TaskInfoView {
        TaskInfoView {
            status: self.status(),
            buffers: self.buffers.infos(),
            split_count: self.splits.len(),
            splits: if summarize {
                None
            } else {
                Some(self.splits)
            },
        }
    }

    pub open spec fn with_buffers(self, buffers: ManagerView) -> TaskView {
        TaskView { buffers, ..self }
    }

    /// The task after its execution named an output buffer: a task that has
    /// not ended gets the buffer if it lacks it.
    pub open spec fn create_buffer(self, id: Seq<char>) -> TaskView {
        if self.state.terminal() {
            self
        } else {
            self.with_buffers(self.buffers.get_or_create(id))
        }
    }

    /// What offering a page of `data` to the buffer named `id` gives: the
    /// task, the accountant, and the token of the page.
    ///
    /// A missing buffer is an error and a complete one ignores the page. A
    /// task with a pool pays for the page with a non-revocable reservation
    /// of its size; if the pool refuses, the page is not enqueued and the
    /// refusal is the answer.
    pub open spec fn enqueue(self, id: Seq<char>, data: Seq<u8>, a: AccountantView) -> (
        TaskView,
        AccountantView,
        Result<Option<nat>, WorkerError>,
    ) {
        match self.buffers.index_of(id) {
            None => (self, a, Err(WorkerError::NotFound(Missing::Buffer))),
            Some(i) => if self.buffers.buffers[i].complete {
                (self, a, Ok(None))
            } else {
                let token = self.buffers.buffers[i].high;
                match self.pool {
                    None => (
                        self.with_buffers(self.buffers.enqueue(id, PageView { data, charge: None })),
                        a,
                        Ok(Some(token)),
                    ),
                    Some(pool) => match a.refusal(pool, data.len(), false) {
                        Some(refusal) => (self, a, Err(refusal)),
                        None => (
                            self.with_buffers(
                                self.buffers.enqueue(
                                    id,
                                    PageView { data, charge: Some(a.reservations.len() as int) },
                                ),
                            ),
                            a.reserve(self.identity, pool, data.len(), false),
                            Ok(Some(token)),
                        ),
                    },
                }
            },
        }
    }

    /// The accountant after the buffer named `id` was acknowledged up to
    /// `upto`: the evicted pages are released.
    pub open spec fn acknowledge_releases(self, id: Seq<char>, upto: nat, a: AccountantView) -> AccountantView {
        match self.buffers.index_of(id) {
            Some(i) => release_pages(a, self.buffers.buffers[i].evicted(upto)),
            None => a,
        }
    }

    /// The accountant after the buffer named `id` was destroyed: the pages
    /// it held are released.
    pub open spec fn destroy_releases(self, id: Seq<char>, a: AccountantView) -> AccountantView {
        match self.buffers.index_of(id) {
            Some(i) => release_pages(a, self.buffers.buffers[i].pages),
            None => a,
        }
    }

    /// The answer for an operation on the buffer named `id` that only a
    /// missing buffer can fail.
    pub open spec fn buffer_outcome(self, id: Seq<char>) -> Result<(), WorkerError> {
        match self.buffers.index_of(id) {
            Some(_) => Ok(()),
            None => Err(WorkerError::NotFound(Missing::Buffer)),
        }
    }

    /// The task and the accountant after the task was taken apart: every
    /// page and the task's own reservation are released.
    pub open spec fn teardown(self, a: AccountantView) -> (TaskView, AccountantView) {
        (
            TaskView { buffers: ManagerView { buffers: Seq::empty() }, reservation: None, ..self },
            self.release_reservation(release_buffers(a, self.buffers.buffers)),
        )
    }

    /// `next` is a later stage of the same task: the generation has not
    /// dropped, and the state is the same or one allowed step further.
    pub open spec fn leads_to(self, next: TaskView) -> bool {
        &&& next.identity == self.identity
        &&& next.generation >= self.generation
        &&& (next.state == self.state || self.state.steps_to(next.state))
    }
}

/// An update with a stale version changes neither the task, generation and
/// state included, nor the accountant.
pub proof fn lemma_stale_update_changes_nothing(
    t: TaskView,
    request: RequestView,
    now: nat,
    a: AccountantView,
)
    requires
        t.stale(request.version),
    ensures
        t.update(request, now, a) == (t, a),
{
}

/// A plan that asks for more non-revocable memory than its pool has left is
/// not granted in part: the pool is exhausted, the accountant stays as it
/// was, and the task fails with an out-of-memory cause. Nothing is tried
/// again: the task has ended.
pub proof fn lemma_plan_beyond_limit_fails(
    t: TaskView,
    request: RequestView,
    now: nat,
    a: AccountantView,
)
    requires
        t.state is Planned,
        !t.stale(request.version),
        request.update matches UpdateView::PlanAssignment(plan) && !plan.revocable && (
        a.pool_index(plan.pool) matches Some(i) && a.committed(plan.pool) + plan.memory_bytes
            > a.pools[i].limit),
    ensures
        a.refusal(
            request.update->PlanAssignment_0.pool,
            request.update->PlanAssignment_0.memory_bytes,
            false,
        ) == Some(WorkerError::PoolExhausted),
        t.update(request, now, a).1 == a,
        t.update(request, now, a).0.state is Failed,
        t.update(request, now, a).0.failure == Some(FailureCause::OutOfMemory),
        t.update(request, now, a).0.reservation == t.reservation,
        t.update(request, now, a).0.state.terminal(),
{
}

/// An update that is applied raises the generation by exactly one, so a
/// second delivery of the same request is stale.
pub proof fn lemma_duplicate_update_is_stale(
    t: TaskView,
    request: RequestView,
    now: nat,
    a: AccountantView,
)
    requires
        t.accepts(request.version),
        request.version == t.generation,
    ensures
        t.update(request, now, a).0.generation == t.generation + 1,
        t.update(request, now, a).0.stale(request.version),
{
}

/// A task that has ended stays as it is, whatever is asked of it, but for
/// the abort of a canceled task.
pub proof fn lemma_terminal_states_are_sinks(
    t: TaskView,
    request: RequestView,
    cause: FailureCause,
    now: nat,
    a: AccountantView,
)
    requires
        t.state.terminal(),
    ensures
        t.update(request, now, a) == (t, a),
        t.cancel(now) == t,
        !(t.state is Canceled) ==> t.abort(now, a) == (t, a),
        t.finish(now) == t,
        t.fail(cause, now) == t,
{
}

/// Every operation takes a task to a later stage of itself: the identity
/// stays, the generation never drops, and the state stays or moves along an
/// arrow of the lifecycle.
pub proof fn lemma_operations_follow_lifecycle(
    t: TaskView,
    request: RequestView,
    cause: FailureCause,
    now: nat,
    a: AccountantView,
)
    ensures
        t.leads_to(t.update(request, now, a).0),
        t.leads_to(t.cancel(now)),
        t.leads_to(t.abort(now, a).0),
        t.leads_to(t.finish(now)),
        t.leads_to(t.fail(cause, now)),
{
}

/// Once a task is aborted it stays aborted: a cancel or a second abort that
/// comes after the abort changes nothing.
pub proof fn lemma_abort_is_final(t: TaskView, now: nat, later: nat, a: AccountantView)
    requires
        t.state.abortable(),
    ensures
        t.abort(now, a).0.state is Aborted,
        t.abort(now, a).0.cancel(later) == t.abort(now, a).0,
        t.abort(now, a).0.abort(later, t.abort(now, a).1) == t.abort(now, a),
{
}

/// An abort wins against a cancel in either order: when both were asked of a
/// task that had not ended, the task is aborted, whichever came first. In
/// both orders the reservation is released and every buffer is complete, so
/// that the two outcomes differ in nothing but the time of the last change.
pub proof fn lemma_abort_wins(t: TaskView, first: nat, second: nat, a: AccountantView)
    requires
        !t.state.terminal(),
    ensures
        t.cancel(first).abort(second, a).0.state is Aborted,
        t.abort(first, a).0.cancel(second).state is Aborted,
        t.abort(first, a).0.abort(second, t.abort(first, a).1).0.state is Aborted,
        t.cancel(first).abort(second, a).1 == t.abort(first, a).1,
        t.cancel(first).abort(second, a).0 == (TaskView {
            last_update: second,
            ..t.abort(first, a).0.cancel(second)
        }),
        t.cancel(first).abort(second, a).0.reservation is None,
        t.cancel(first).abort(second, a).0.buffers == t.buffers.complete_all(),
{
}

/// After an abort no pull from a buffer of the task waits, and a pull at or
/// past the high watermark is told that the stream has ended.
pub proof fn lemma_abort_ends_polls(
    t: TaskView,
    now: nat,
    a: AccountantView,
    id: Seq<char>,
    token: nat,
)
    requires
        t.state.abortable(),
        t.buffers.valid(),
    ensures
        !t.abort(now, a).0.buffers.awaits(id, token),
        t.buffers.index_of(id) matches Some(i) && token >= t.buffers.buffers[i].high ==> t.abort(
            now,
            a,
        ).0.buffers.get(id, token) == Ok::<BatchView, WorkerError>(
            BatchView { token, next_token: token, pages: Seq::empty(), no_more_pages: true },
        ),
{
    lemma_complete_all_never_waits(t.buffers, id, token);
}

/// A summary is a projection of the full report.
pub proof fn lemma_summary_is_projection(t: TaskView)
    ensures
        t.info(true) == t.info(false).summary(),
        t.info(true).status == t.info(false).status,
{
}

/// The status of a task, as reported to the coordinator.
#[derive(Debug)]
pub struct TaskStatus {
    pub identity: TaskIdentity,
    pub state: TaskState,
    pub version: u64,
    pub last_update: u64,
    pub failure: Option<FailureCause>,
}

impl View for TaskStatus {
    type V = TaskStatusView;

    open spec fn view(&self) -> TaskStatusView {
        TaskStatusView {
            identity: self.identity@,
            state: self.state,
            version: self.version as nat,
            last_update: self.last_update as nat,
            failure: self.failure,
        }
    }
}

/// The report on a task, full or summarized.
#[derive(Debug)]
pub struct TaskInfo {
    pub status: TaskStatus,
    pub buffers: Vec<BufferInfo>,
    pub split_count: usize,
    pub splits: Option<Vec<Split>>,
}

impl View for TaskInfo {
    type V = TaskInfoView;

    open spec fn view(&self) -> TaskInfoView {
        TaskInfoView {
            status: self.status@,
            buffers: info_views(self.buffers@),
            split_count: self.split_count as nat,
            splits: match self.splits {
                Some(splits) => Some(splits@),
                None => None,
            },
        }
    }
}

/// The token of an enqueued page as the model counts it.
pub open spec fn token_view(token: Result<Option<u64>, WorkerError>) -> Result<
    Option<nat>,
    WorkerError,
> {
    match token {
        Ok(Some(t)) => Ok(Some(t as nat)),
        Ok(None) => Ok(None),
        Err(e) => Err(e),
    }
}

fn copy_splits(splits: &Vec<Split>) -> (copy: Vec<Split>)
    ensures
        copy@ == splits@,
{
    let mut copy: Vec<Split> = Vec::new();
    let mut i: usize = 0;
    while i < splits.len()
        invariant
            i <= splits@.len(),
            copy@ == splits@.take(i as int),
        decreases splits@.len() - i,
    {
        copy.push(splits[i]);
        proof {
            assert(splits@.take(i + 1) =~= splits@.take(i as int).push(splits@[i as int]));
        }
        i = i + 1;
    }
    proof {
        assert(splits@.take(i as int) =~= splits@);
    }
    copy
}

/// The state machine of one task, with the buffers and the reservation that
/// the task owns.
#[derive(Debug)]
pub struct TaskStateMachine {
    identity: TaskIdentity,
    state: TaskState,
    generation: u64,
    last_update: u64,
    failure: Option<FailureCause>,
    buffers: OutputBufferManager,
    reservation: Option<ReservationHandle>,
    pool: Option<PoolId>,
    splits: Vec<Split>,
}

impl View for TaskStateMachine {
    type V = TaskView;

    closed spec fn view(&self) -> TaskView {
        TaskView {
            identity: self.identity@,
            state: self.state,
            generation: self.generation as nat,
            last_update: self.last_update as nat,
            failure: self.failure,
            buffers: self.buffers@,
            reservation: match self.reservation {
                Some(handle) => Some(handle@),
                None => None,
            },
            pool: match self.pool {
                Some(pool) => Some(pool@),
                None => None,
            },
            splits: self.splits@,
        }
    }
}

impl TaskStateMachine {
    /// The task's invariant: its buffers keep theirs.
    pub closed spec fn wf(&self) -> bool {
        self.buffers.wf()
    }

    pub proof fn lemma_wf_valid(&self)
        requires
            self.wf(),
        ensures
            self@.buffers.valid(),
            self@.generation <= u64::MAX,
    {
        self.buffers.lemma_wf_valid();
    }

    /// A planned task with the given identity, created at `now`.
    pub fn new(identity: TaskIdentity, now: u64) -> (task: TaskStateMachine)
        ensures
            task.wf(),
            task@ == TaskView::fresh(identity@, now as nat),
    {
        let task = TaskStateMachine {
            identity,
            state: TaskState::Planned,
            generation: 0,
            last_update: now,
            failure: None,
            buffers: OutputBufferManager::new(),
            reservation: None,
            pool: None,
            splits: Vec::new(),
        };
        proof {
            assert(task@.buffers.buffers =~= Seq::empty());
            assert(task@.splits =~= Seq::empty());
        }
        task
    }

    pub fn identity(&self) -> (identity: &TaskIdentity)
        ensures
            identity@ == self@.identity,
    {
        &self.identity
    }

    pub fn state(&self) -> (state: TaskState)
        ensures
            state == self@.state,
    {
        self.state
    }

    /// The number of updates that the task has applied.
    pub fn generation(&self) -> (generation: u64)
        ensures
            generation == self@.generation,
    {
        self.generation
    }

    pub fn last_update(&self) -> (at: u64)
        ensures
            at == self@.last_update,
    {
        self.last_update
    }

    /// The handle of the memory that the plan reserved, while the task holds
    /// it.
    pub fn reservation(&self) -> (held: Option<ReservationHandle>)
        ensures
            match held {
                Some(handle) => self@.reservation == Some(handle@),
                None => self@.reservation is None,
            },
    {
        self.reservation
    }

    /// The task's output buffers.
    pub fn buffers(&self) -> (buffers: &OutputBufferManager)
        requires
            self.wf(),
        ensures
            buffers@ == self@.buffers,
            buffers.wf(),
    {
        &self.buffers
    }

    /// Whether an update with this version hint can be counted.
    pub fn can_count(&self, version: u64) -> (countable: bool)
        ensures
            countable == self@.can_count(version as nat),
    {
        version < self.generation || self.state.is_terminal() || self.generation < u64::MAX
    }

    /// Applies an update request and returns the status that the task has
    /// afterwards.
    pub fn update(
        &mut self,
        request: TaskUpdateRequest,
        now: u64,
        accountant: &mut MemoryPoolAccountant,
    ) -> (status: TaskStatus)
        requires
            old(self).wf(),
            old(accountant).wf(),
            old(self)@.can_count(request@.version),
        ensures
            final(self).wf(),
            final(accountant).wf(),
            (final(self)@, final(accountant)@) == old(self)@.update(
                request@,
                now as nat,
                old(accountant)@,
            ),
            status@ == final(self)@.status(),
    {
        if request.version < self.generation || self.state.is_terminal() {
            return self.status();
        }
        let ghost before = self@;
        let was = self.state;
        self.generation = self.generation + 1;
        self.last_update = now;
        match request.update {
            TaskUpdate::PlanAssignment(plan) => {
                if was == TaskState::Planned {
                    match accountant.reserve(
                        &self.identity,
                        &plan.pool,
                        plan.memory_bytes,
                        plan.revocable,
                    ) {
                        Ok(handle) => {
                            self.state = TaskState::Running;
                            self.reservation = Some(handle);
                            self.pool = Some(plan.pool);
                        },
                        Err(refusal) => {
                            self.state = TaskState::Failed;
                            self.failure = Some(
                                if refusal == WorkerError::PoolExhausted {
                                    FailureCause::OutOfMemory
                                } else {
                                    FailureCause::UnknownPool
                                },
                            );
                        },
                    }
                }
            },
            TaskUpdate::SplitBatch(splits) => {
                if was == TaskState::Planned || was == TaskState::Running {
                    let mut splits = splits;
                    self.splits.append(&mut splits);
                }
            },
            TaskUpdate::NoMoreSplits => {
                if was == TaskState::Running {
                    self.state = TaskState::Finishing;
                }
            },
        }
        self.status()
    }

    /// Stops the task gracefully: a task that has not ended is canceled. The
    /// pages that it has produced stay in its buffers.
    pub fn cancel(&mut self, now: u64) -> (status: TaskStatus)
        requires
            old(self).wf(),
        ensures
            final(self).wf(),
            final(self)@ == old(self)@.cancel(now as nat),
            status@ == final(self)@.status(),
    {
        if !self.state.is_terminal() {
            self.state = TaskState::Canceled;
            self.last_update = now;
        }
        self.status()
    }

    /// Stops the task hard: a task that has not ended, or that was canceled,
    /// is aborted, its reservation goes back to the pool at once, and its
    /// buffers are marked complete, so that consumers drain what is there
    /// and get nothing new.
    pub fn abort(&mut self, now: u64, accountant: &mut MemoryPoolAccountant) -> (status: TaskStatus)
        requires
            old(self).wf(),
            old(accountant).wf(),
        ensures
            final(self).wf(),
            final(accountant).wf(),
            (final(self)@, final(accountant)@) == old(self)@.abort(now as nat, old(accountant)@),
            status@ == final(self)@.status(),
    {
        if self.state.is_abortable() {
            self.state = TaskState::Aborted;
            self.last_update = now;
            match self.reservation {
                Some(handle) => {
                    accountant.release(handle);
                },
                None => {},
            }
            self.reservation = None;
            self.buffers.complete_all();
        }
        self.status()
    }

    /// Records that the execution has produced all output: a finishing task
    /// is finished.
    pub fn finish(&mut self, now: u64) -> (status: TaskStatus)
        requires
            old(self).wf(),
        ensures
            final(self).wf(),
            final(self)@ == old(self)@.finish(now as nat),
            status@ == final(self)@.status(),
    {
        if self.state == TaskState::Finishing {
            self.state = TaskState::Finished;
            self.last_update = now;
        }
        self.status()
    }

    /// Records that the execution reported an error: a task that has not
    /// ended fails with `cause`.
    pub fn fail(&mut self, cause: FailureCause, now: u64) -> (status: TaskStatus)
        requires
            old(self).wf(),
        ensures
            final(self).wf(),
            final(self)@ == old(self)@.fail(cause, now as nat),
            status@ == final(self)@.status(),
    {
        if !self.state.is_terminal() {
            self.state = TaskState::Failed;
            self.failure = Some(cause);
            self.last_update = now;
        }
        self.status()
    }

    /// The status of the task. Reading it changes nothing.
    pub fn status(&self) -> (status: TaskStatus)
        ensures
            status@ == self@.status(),
    {
        TaskStatus {
            identity: self.identity.clone(),
            state: self.state,
            version: self.generation,
            last_update: self.last_update,
            failure: self.failure,
        }
    }

    /// The report on the task. With `summarize` the splits are left out;
    /// everything else is the same.
    pub fn info(&self, summarize: bool) -> (info: TaskInfo)
        requires
            self.wf(),
        ensures
            info@ == self@.info(summarize),
    {
        TaskInfo {
            status: self.status(),
            buffers: self.buffers.infos(),
            split_count: self.splits.len(),
            splits: if summarize {
                None
            } else {
                Some(copy_splits(&self.splits))
            },
        }
    }

    /// Makes sure that the task has an output buffer named `id`. A task that
    /// has ended gets no new buffer. Returns whether the task has the buffer
    /// afterwards.
    pub fn get_or_create_buffer(&mut self, id: &BufferId) -> (exists: bool)
        requires
            old(self).wf(),
        ensures
            final(self).wf(),
            final(self)@ == old(self)@.create_buffer(id@),
            exists == (final(self)@.buffers.index_of(id@) is Some),
    {
        if self.state.is_terminal() {
            return self.buffers.contains(id);
        }
        self.buffers.get_or_create_buffer(id);
        true
    }

    /// Offers a page of `data` to the buffer named `id` and returns its
    /// token, or `None` if the buffer is complete and ignored the page.
    pub fn enqueue(&mut self, id: &BufferId, data: Vec<u8>, accountant: &mut MemoryPoolAccountant) -> (token: Result<Option<u64>, WorkerError>)
        requires
            old(self).wf(),
            old(accountant).wf(),
            old(self)@.buffers.has_room(id@),
        ensures
            final(self).wf(),
            final(accountant).wf(),
            (final(self)@, final(accountant)@, token_view(token)) == old(self)@.enqueue(
                id@,
                data@,
                old(accountant)@,
            ),
    {
        let complete = match self.buffers.buffer(id) {
            Some(buffer) => buffer.is_complete(),
            None => {
                return Err(WorkerError::NotFound(Missing::Buffer));
            },
        };
        if complete {
            return Ok(None);
        }
        let page = match &self.pool {
            None => Page::new(data),
            Some(pool) => {
                let size = data.len() as u64;
                match accountant.reserve(&self.identity, pool, size, false) {
                    Ok(handle) => Page::charged(data, handle),
                    Err(refusal) => {
                        return Err(refusal);
                    },
                }
            },
        };
        self.buffers.enqueue(id, page)
    }

    /// Marks the buffer named `id` complete.
    pub fn mark_complete(&mut self, id: &BufferId) -> (done: Result<(), WorkerError>)
        requires
            old(self).wf(),
        ensures
            final(self).wf(),
            final(self)@ == old(self)@.with_buffers(old(self)@.buffers.mark_complete(id@)),
            done == old(self)@.buffer_outcome(id@),
    {
        self.buffers.mark_complete(id)
    }

    /// Answers a pull at `token` from the buffer named `id`.
    pub fn get(&self, id: &BufferId, token: u64) -> (answer: Result<
        Batch,
        WorkerError,
    >)
        requires
            self.wf(),
        ensures
            match self@.buffers.get(id@, token as nat) {
                Ok(batch) => answer matches Ok(b) && b@ == batch,
                Err(e) => answer == Err::<Batch, WorkerError>(e),
            },
    {
        self.buffers.get(id, token)
    }

    /// One step of a long poll at `token` on the buffer named `id`.
    pub fn poll(&self, id: &BufferId, token: u64, timed_out: bool) -> (step: Result<
        PollStep,
        WorkerError,
    >)
        requires
            self.wf(),
        ensures
            match self@.buffers.get(id@, token as nat) {
                Ok(batch) => if self@.buffers.awaits(id@, token as nat) && !timed_out {
                    step matches Ok(PollStep::Wait)
                } else {
                    step matches Ok(PollStep::Reply(b)) && b@ == batch
                },
                Err(e) => step matches Err(err) && err == e,
            },
    {
        self.buffers.poll(id, token, timed_out)
    }

    /// Acknowledges the buffer named `id` up to `upto` and releases the
    /// memory of the evicted pages.
    pub fn acknowledge(&mut self, id: &BufferId, upto: u64, accountant: &mut MemoryPoolAccountant) -> (done: Result<(), WorkerError>)
        requires
            old(self).wf(),
            old(accountant).wf(),
        ensures
            final(self).wf(),
            final(accountant).wf(),
            final(self)@ == old(self)@.with_buffers(
                old(self)@.buffers.acknowledge(id@, upto as nat),
            ),
            final(accountant)@ == old(self)@.acknowledge_releases(
                id@,
                upto as nat,
                old(accountant)@,
            ),
            done == old(self)@.buffer_outcome(id@),
    {
        self.buffers.acknowledge(id, upto, accountant)
    }

    /// Removes the buffer named `id` and releases the memory of its pages.
    pub fn destroy_buffer(&mut self, id: &BufferId, accountant: &mut MemoryPoolAccountant) -> (done: Result<(), WorkerError>)
        requires
            old(self).wf(),
            old(accountant).wf(),
        ensures
            final(self).wf(),
            final(accountant).wf(),
            final(self)@ == old(self)@.with_buffers(old(self)@.buffers.destroy(id@)),
            final(accountant)@ == old(self)@.destroy_releases(id@, old(accountant)@),
            done == old(self)@.buffer_outcome(id@),
    {
        self.buffers.destroy(id, accountant)
    }

    /// Takes the task apart: destroys its buffers and gives all its memory
    /// back.
    pub fn teardown(&mut self, accountant: &mut MemoryPoolAccountant)
        requires
            old(self).wf(),
            old(accountant).wf(),
        ensures
            final(self).wf(),
            final(accountant).wf(),
            (final(self)@, final(accountant)@) == old(self)@.teardown(old(accountant)@),
    {
        self.buffers.destroy_all(accountant);
        match self.reservation {
            Some(handle) => {
                accountant.release(handle);
            },
            None => {},
        }
        self.reservation = None;
        proof {
            assert(self@.buffers.buffers =~= Seq::empty());
        }
    }
}

} // verus!
