//! The registry of all tasks of the worker.
//!
//! The registry maps task identities to task state machines. It is what the
//! request handlers call into: an update creates the task on first sight,
//! every other operation on an unknown task is `NotFound`.

use crate::buffer::{Batch, BatchView, PollStep};
use crate::error::{Missing, WorkerError};
use crate::ident::{BufferId, TaskIdentity};
use crate::memory::{AccountantView, MemoryPoolAccountant};
use crate::names::{
    distinct,
    lemma_position_absent,
    lemma_position_found,
    lemma_position_stands,
    lemma_push_fresh,
    lemma_remove_distinct,
    position,
};
use crate::task::{
    FailureCause,
    RequestView,
    TaskInfo,
    TaskInfoView,
    TaskState,
    TaskStateMachine,
    TaskStatus,
    TaskStatusView,
    TaskUpdateRequest,
    TaskView,
    UpdateView,
    lemma_plan_beyond_limit_fails,
    token_view,
};
use vstd::prelude::*;

verus! {

/// The model of the registry: its tasks in the order in which they were
/// first seen, and how long an ended task is kept.
pub struct RegistryView {
    pub tasks: Seq<TaskView>,
    pub retention: nat,
}

impl RegistryView {
    pub open spec fn names(self) -> Seq<Seq<char>> {
        Seq::new(self.tasks.len(), |i: int| self.tasks[i].identity)
    }

    /// Where the task named `id` stands, if the registry knows it.
    pub open spec fn index_of(self, id: Seq<char>) -> Option<int> {
        position(self.names(), id)
    }

    /// At most one task per identity, and every task's buffers are valid.
    pub open spec fn valid(self) -> bool {
        &&& distinct(self.names())
        &&& forall|i: int| 0 <= i < self.tasks.len() ==> (#[trigger] self.tasks[i]).buffers.valid()
    }

    /// The registry with the task at index `i` replaced.
    pub open spec fn with_task(self, i: int, task: TaskView) -> RegistryView {
        RegistryView { tasks: self.tasks.update(i, task), ..self }
    }

    /// The answer for an operation on a buffer that only an unknown task or
    /// a missing buffer can fail.
    pub open spec fn buffer_outcome(self, task: Seq<char>, buffer: Seq<char>) -> Result<
        (),
        WorkerError,
    > {
        match self.index_of(task) {
            Some(i) => self.tasks[i].buffer_outcome(buffer),
            None => Err(WorkerError::NotFound(Missing::Task)),
        }
    }

    /// An update with this version hint for the task named `id` can be
    /// counted.
    pub open spec fn can_update(self, id: Seq<char>, version: nat) -> bool {
        match self.index_of(id) {
            Some(i) => self.tasks[i].can_count(version),
            None => true,
        }
    }

    /// A page offered to that buffer of that task finds a token.
    pub open spec fn has_room(self, task: Seq<char>, buffer: Seq<char>) -> bool {
        match self.index_of(task) {
            Some(i) => self.tasks[i].buffers.has_room(buffer),
            None => true,
        }
    }

    /// The registry and the accountant after an update request for the task
    /// named `id`: a task that the registry does not know is created first,
    /// planned, and then takes the update like any other.
    pub open spec fn update_task(self, id: Seq<char>, request: RequestView, now: nat, a: AccountantView) -> (
        RegistryView,
        AccountantView,
    ) {
        match self.index_of(id) {
            Some(i) => {
                let (task, a2) = self.tasks[i].update(request, now, a);
                (self.with_task(i, task), a2)
            },
            None => {
                let (task, a2) = TaskView::fresh(id, now).update(request, now, a);
                (RegistryView { tasks: self.tasks.push(task), ..self }, a2)
            },
        }
    }

    pub open spec fn cancel_task(self, id: Seq<char>, now: nat) -> RegistryView {
        match self.index_of(id) {
            Some(i) => self.with_task(i, self.tasks[i].cancel(now)),
            None => self,
        }
    }

    pub open spec fn abort_task(self, id: Seq<char>, now: nat, a: AccountantView) -> (
        RegistryView,
        AccountantView,
    ) {
        match self.index_of(id) {
            Some(i) => {
                let (task, a2) = self.tasks[i].abort(now, a);
                (self.with_task(i, task), a2)
            },
            None => (self, a),
        }
    }

    pub open spec fn finish_task(self, id: Seq<char>, now: nat) -> RegistryView {
        match self.index_of(id) {
            Some(i) => self.with_task(i, self.tasks[i].finish(now)),
            None => self,
        }
    }

    pub open spec fn fail_task(self, id: Seq<char>, cause: FailureCause, now: nat) -> RegistryView {
        match self.index_of(id) {
            Some(i) => self.with_task(i, self.tasks[i].fail(cause, now)),
            None => self,
        }
    }

    pub open spec fn create_buffer(self, task: Seq<char>, buffer: Seq<char>) -> RegistryView {
        match self.index_of(task) {
            Some(i) => self.with_task(i, self.tasks[i].create_buffer(buffer)),
            None => self,
        }
    }

    pub open spec fn enqueue(self, task: Seq<char>, buffer: Seq<char>, data: Seq<u8>, a: AccountantView) -> (
        RegistryView,
        AccountantView,
        Result<Option<nat>, WorkerError>,
    ) {
        match self.index_of(task) {
            Some(i) => {
                let (t, a2, token) = self.tasks[i].enqueue(buffer, data, a);
                (self.with_task(i, t), a2, token)
            },
            None => (self, a, Err(WorkerError::NotFound(Missing::Task))),
        }
    }

    pub open spec fn mark_complete(self, task: Seq<char>, buffer: Seq<char>) -> RegistryView {
        match self.index_of(task) {
            Some(i) => self.with_task(
                i,
                self.tasks[i].with_buffers(self.tasks[i].buffers.mark_complete(buffer)),
            ),
            None => self,
        }
    }

    pub open spec fn acknowledge(self, task: Seq<char>, buffer: Seq<char>, upto: nat, a: AccountantView) -> (
        RegistryView,
        AccountantView,
    ) {
        match self.index_of(task) {
            Some(i) => (
                self.with_task(
                    i,
                    self.tasks[i].with_buffers(self.tasks[i].buffers.acknowledge(buffer, upto)),
                ),
                self.tasks[i].acknowledge_releases(buffer, upto, a),
            ),
            None => (self, a),
        }
    }

    pub open spec fn destroy_buffer(self, task: Seq<char>, buffer: Seq<char>, a: AccountantView) -> (
        RegistryView,
        AccountantView,
    ) {
        match self.index_of(task) {
            Some(i) => (
                self.with_task(
                    i,
                    self.tasks[i].with_buffers(self.tasks[i].buffers.destroy(buffer)),
                ),
                self.tasks[i].destroy_releases(buffer, a),
            ),
            None => (self, a),
        }
    }

    /// The answer to a pull at `token` from that buffer of that task.
    pub open spec fn get(self, task: Seq<char>, buffer: Seq<char>, token: nat) -> Result<
        BatchView,
        WorkerError,
    > {
        match self.index_of(task) {
            Some(i) => self.tasks[i].buffers.get(buffer, token),
            None => Err(WorkerError::NotFound(Missing::Task)),
        }
    }

    /// A pull at `token` from that buffer of that task finds nothing yet,
    /// and more may come.
    pub open spec fn awaits(self, task: Seq<char>, buffer: Seq<char>, token: nat) -> bool {
        match self.index_of(task) {
            Some(i) => self.tasks[i].buffers.awaits(buffer, token),
            None => false,
        }
    }

    pub open spec fn task_status(self, id: Seq<char>) -> Result<TaskStatusView, WorkerError> {
        match self.index_of(id) {
            Some(i) => Ok(self.tasks[i].status()),
            None => Err(WorkerError::NotFound(Missing::Task)),
        }
    }

    pub open spec fn task_info(self, id: Seq<char>, summarize: bool) -> Result<
        TaskInfoView,
        WorkerError,
    > {
        match self.index_of(id) {
            Some(i) => Ok(self.tasks[i].info(summarize)),
            None => Err(WorkerError::NotFound(Missing::Task)),
        }
    }

    /// The tasks that are in `state`.
    pub open spec fn in_state(self, state: TaskState) -> Seq<TaskView> {
        self.tasks.filter(|t: TaskView| t.state == state)
    }

    /// The reports on all tasks, in the order in which the tasks were first
    /// seen.
    pub open spec fn infos(self, summarize: bool) -> Seq<TaskInfoView> {
        Seq::new(self.tasks.len(), |i: int| self.tasks[i].info(summarize))
    }

    /// The task has ended, and the retention period has passed since.
    pub open spec fn expired(self, task: TaskView, now: nat) -> bool {
        task.state.terminal() && task.last_update + self.retention <= now
    }

    /// The tasks that an eviction at `now` keeps.
    pub open spec fn survivors(self, now: nat) -> Seq<TaskView> {
        self.tasks.filter(|t: TaskView| !self.expired(t, now))
    }

    /// The accountant after the expired tasks among `tasks` were taken
    /// apart, in order.
    pub open spec fn eviction_releases(self, tasks: Seq<TaskView>, now: nat, a: AccountantView) -> AccountantView
        decreases tasks.len(),
    {
        if tasks.len() == 0 {
            a
        } else {
            let rest = self.eviction_releases(tasks.drop_last(), now, a);
            if self.expired(tasks.last(), now) {
                tasks.last().teardown(rest).1
            } else {
                rest
            }
        }
    }

    /// The registry and the accountant after an eviction at `now`: every
    /// expired task is gone, with its buffers, and its memory is released.
    pub open spec fn evict_expired(self, now: nat, a: AccountantView) -> (
        RegistryView,
        AccountantView,
    ) {
        (
            RegistryView { tasks: self.survivors(now), ..self },
            self.eviction_releases(self.tasks, now, a),
        )
    }

    /// The task may be deleted at once: it has ended and its buffers are
    /// torn down.
    pub open spec fn removable(task: TaskView) -> bool {
        task.state.terminal() && task.buffers.buffers.len() == 0
    }

    /// The registry and the accountant after an explicit delete of the task
    /// named `id`, and whether the task was removed.
    pub open spec fn remove_task(self, id: Seq<char>, a: AccountantView) -> (
        RegistryView,
        AccountantView,
        Result<bool, WorkerError>,
    ) {
        match self.index_of(id) {
            Some(i) => if Self::removable(self.tasks[i]) {
                (
                    RegistryView { tasks: self.tasks.remove(i), ..self },
                    self.tasks[i].teardown(a).1,
                    Ok(true),
                )
            } else {
                (self, a, Ok(false))
            },
            None => (self, a, Err(WorkerError::NotFound(Missing::Task))),
        }
    }
}

/// The views of a list of task reports, in order.
pub open spec fn task_info_views(infos: Seq<TaskInfo>) -> Seq<TaskInfoView> {
    Seq::new(infos.len(), |i: int| infos[i]@)
}

/// An update with a stale version for a task that the registry knows is
/// absorbed: neither the registry nor the accountant changes.
pub proof fn lemma_stale_update_is_absorbed(
    r: RegistryView,
    id: Seq<char>,
    request: RequestView,
    now: nat,
    a: AccountantView,
)
    requires
        r.index_of(id) matches Some(i) && r.tasks[i].stale(request.version),
    ensures
        r.update_task(id, request, now, a) == (r, a),
{
    lemma_position_stands(r.names(), id);
    let i = r.index_of(id)->0;
    assert(r.tasks.update(i, r.tasks[i]) =~= r.tasks);
}

/// An update whose plan asks for more non-revocable memory than its pool has
/// left reserves nothing and fails the task with an out-of-memory cause,
/// whether the task is new or known and still planned.
pub proof fn lemma_update_beyond_limit_fails(
    r: RegistryView,
    id: Seq<char>,
    request: RequestView,
    now: nat,
    a: AccountantView,
)
    requires
        distinct(r.names()),
        r.index_of(id) matches Some(i) ==> r.tasks[i].state is Planned && !r.tasks[i].stale(
            request.version,
        ),
        request.update matches UpdateView::PlanAssignment(plan) && !plan.revocable && (
        a.pool_index(plan.pool) matches Some(i) && a.committed(plan.pool) + plan.memory_bytes
            > a.pools[i].limit),
    ensures
        r.update_task(id, request, now, a).1 == a,
        r.update_task(id, request, now, a).0.task_status(id) matches Ok(status) && status.state
            is Failed && status.failure == Some(FailureCause::OutOfMemory),
{
    lemma_position_stands(r.names(), id);
    let after = r.update_task(id, request, now, a).0;
    match r.index_of(id) {
        Some(i) => {
            lemma_plan_beyond_limit_fails(r.tasks[i], request, now, a);
            assert(after.names() =~= r.names());
        },
        None => {
            lemma_plan_beyond_limit_fails(TaskView::fresh(id, now), request, now, a);
            lemma_push_fresh(r.names(), id);
            assert(after.names() =~= r.names().push(id));
        },
    }
}

/// An abort through the registry is final: after it the task reads as
/// aborted, and a cancel or another abort changes nothing any more.
pub proof fn lemma_abort_then_delete_is_noop(
    r: RegistryView,
    id: Seq<char>,
    now: nat,
    later: nat,
    a: AccountantView,
)
    requires
        distinct(r.names()),
        r.index_of(id) matches Some(i) && r.tasks[i].state.abortable(),
    ensures
        r.abort_task(id, now, a).0.task_status(id) matches Ok(status) && status.state
            is Aborted,
        r.abort_task(id, now, a).0.cancel_task(id, later) == r.abort_task(id, now, a).0,
        r.abort_task(id, now, a).0.abort_task(id, later, r.abort_task(id, now, a).1)
            == r.abort_task(id, now, a),
{
    lemma_position_stands(r.names(), id);
    let i = r.index_of(id)->0;
    let after = r.abort_task(id, now, a).0;
    assert(after.names() =~= r.names());
    assert(after.tasks.update(i, after.tasks[i]) =~= after.tasks);
}

/// The registry of all tasks.
#[derive(Debug)]
pub struct TaskRegistry {
    tasks: Vec<TaskStateMachine>,
    retention: u64,
}

impl View for TaskRegistry {
    type V = RegistryView;

    closed spec fn view(&self) -> RegistryView {
        RegistryView {
            tasks: Seq::new(self.tasks@.len(), |i: int| self.tasks@[i]@),
            retention: self.retention as nat,
        }
    }
}

impl TaskRegistry {
    /// The registry's invariant: at most one task per identity, and every
    /// task keeps its own invariant.
    pub closed spec fn wf(&self) -> bool {
        &&& distinct(self@.names())
        &&& forall|i: int| 0 <= i < self.tasks@.len() ==> (#[trigger] self.tasks@[i]).wf()
    }

    pub proof fn lemma_wf_valid(&self)
        requires
            self.wf(),
        ensures
            self@.valid(),
    {
        assert forall|i: int| 0 <= i < self@.tasks.len() implies (#[trigger] self@.tasks[i]).buffers.valid() by {
            self.tasks@[i].lemma_wf_valid();
        }
    }

    /// An empty registry that keeps ended tasks for `retention`.
    pub fn new(retention: u64) -> (registry: TaskRegistry)
        ensures
            registry.wf(),
            registry@.tasks.len() == 0,
            registry@.retention == retention,
    {
        TaskRegistry { tasks: Vec::new(), retention }
    }

    /// The number of tasks that the registry knows.
    pub fn len(&self) -> (n: usize)
        ensures
            n == self@.tasks.len(),
    {
        self.tasks.len()
    }

    fn find(&self, id: &TaskIdentity) -> (found: Option<usize>)
        requires
            distinct(self@.names()),
        ensures
            match found {
                Some(i) => self@.index_of(id@) == Some(i as int) && i < self.tasks@.len(),
                None => self@.index_of(id@) is None,
            },
    {
        let mut i: usize = 0;
        while i < self.tasks.len()
            invariant
                i <= self.tasks@.len(),
                distinct(self@.names()),
                forall|j: int| 0 <= j < i ==> self@.names()[j] != id@,
            decreases self.tasks@.len() - i,
        {
            if self.tasks[i].identity().same(id) {
                proof {
                    assert(self@.names()[i as int] == id@);
                    lemma_position_found(self@.names(), id@, i as int);
                }
                return Some(i);
            }
            i = i + 1;
        }
        proof {
            lemma_position_absent(self@.names(), id@);
        }
        None
    }

    /// After the task at `i` changed in a way that kept its identity and its
    /// invariant, the registry is the old one with that task replaced.
    proof fn lemma_replaced(&self, before: &TaskRegistry, i: int)
        requires
            before.wf(),
            0 <= i < before.tasks@.len(),
            self.tasks@.len() == before.tasks@.len(),
            self.retention == before.retention,
            self.tasks@[i].wf(),
            self.tasks@[i]@.identity == before.tasks@[i]@.identity,
            forall|j: int| 0 <= j < before.tasks@.len() && j != i ==> self.tasks@[j] == before.tasks@[j],
        ensures
            self.wf(),
            self@ == before@.with_task(i, self.tasks@[i]@),
            self@.names() == before@.names(),
    {
        assert(self@.names() =~= before@.names());
        assert(self@.tasks =~= before@.tasks.update(i, self.tasks@[i]@));
        assert forall|j: int| 0 <= j < self.tasks@.len() implies (#[trigger] self.tasks@[j]).wf() by {
            if j != i {
                assert(self.tasks@[j] == before.tasks@[j]);
            }
        }
    }

    /// Whether the registry knows the task named `id`.
    pub fn contains(&self, id: &TaskIdentity) -> (known: bool)
        requires
            self.wf(),
        ensures
            known == (self@.index_of(id@) is Some),
    {
        self.find(id).is_some()
    }

    /// Whether an update with this version hint for the task named `id` can
    /// be counted.
    pub fn can_update(&self, id: &TaskIdentity, version: u64) -> (countable: bool)
        requires
            self.wf(),
        ensures
            countable == self@.can_update(id@, version as nat),
    {
        match self.find(id) {
            Some(i) => self.tasks[i].can_count(version),
            None => true,
        }
    }

    /// Whether a page offered to that buffer of that task finds a token.
    pub fn has_room(&self, task: &TaskIdentity, buffer: &BufferId) -> (room: bool)
        requires
            self.wf(),
        ensures
            room == self@.has_room(task@, buffer@),
    {
        match self.find(task) {
            Some(i) => self.tasks[i].buffers().has_room(buffer),
            None => true,
        }
    }

    /// The number of tasks that are in `state`.
    pub fn count_in_state(&self, state: TaskState) -> (n: usize)
        requires
            self.wf(),
        ensures
            n == self@.in_state(state).len(),
    {
        let ghost wanted = |t: TaskView| t.state == state;
        let mut n: usize = 0;
        let mut i: usize = 0;
        proof {
            assert(self@.tasks.take(0) =~= Seq::<TaskView>::empty());
            reveal(Seq::filter);
        }
        while i < self.tasks.len()
            invariant
                i <= self.tasks@.len(),
                n <= i,
                wanted == |t: TaskView| t.state == state,
                n == self@.tasks.take(i as int).filter(wanted).len(),
            decreases self.tasks@.len() - i,
        {
            proof {
                assert(self@.tasks.take(i + 1) =~= self@.tasks.take(i as int).push(
                    self@.tasks[i as int],
                ));
                self@.tasks.take(i as int).lemma_filter_push(self@.tasks[i as int], wanted);
            }
            if self.tasks[i].state() == state {
                n = n + 1;
            }
            i = i + 1;
        }
        proof {
            assert(self@.tasks.take(i as int) =~= self@.tasks);
        }
        n
    }

    /// Applies an update request to the task named `id`, creating the task
    /// if this is the first request for it, and returns the report on the
    /// task.
    pub fn update_task(
        &mut self,
        id: &TaskIdentity,
        request: TaskUpdateRequest,
        summarize: bool,
        now: u64,
        accountant: &mut MemoryPoolAccountant,
    ) -> (info: TaskInfo)
        requires
            old(self).wf(),
            old(accountant).wf(),
            old(self)@.can_update(id@, request@.version),
        ensures
            final(self).wf(),
            final(accountant).wf(),
            (final(self)@, final(accountant)@) == old(self)@.update_task(
                id@,
                request@,
                now as nat,
                old(accountant)@,
            ),
            final(self)@.task_info(id@, summarize) == Ok::<TaskInfoView, WorkerError>(info@),
            final(self)@.index_of(id@) is Some,
    {
        match self.find(id) {
            Some(i) => {
                self.tasks[i].update(request, now, accountant);
                proof {
                    self.lemma_replaced(old(self), i as int);
                }
                self.tasks[i].info(summarize)
            },
            None => {
                let mut task = TaskStateMachine::new(id.clone(), now);
                task.update(request, now, accountant);
                let info = task.info(summarize);
                let ghost added = task@;
                self.tasks.push(task);
                proof {
                    lemma_push_fresh(old(self)@.names(), id@);
                    assert(self@.names() =~= old(self)@.names().push(id@));
                    assert(self@.tasks =~= old(self)@.tasks.push(added));
                    assert forall|j: int| 0 <= j < self.tasks@.len() implies (#[trigger] self.tasks@[j]).wf() by {
                        if j < old(self).tasks@.len() {
                            assert(self.tasks@[j] == old(self).tasks@[j]);
                        }
                    }
                }
                info
            },
        }
    }

    /// The status of the task named `id`.
    pub fn get_task_status(&self, id: &TaskIdentity) -> (status: Result<TaskStatus, WorkerError>)
        requires
            self.wf(),
        ensures
            match self@.task_status(id@) {
                Ok(view) => status matches Ok(s) && s@ == view,
                Err(e) => status matches Err(err) && err == e,
            },
    {
        match self.find(id) {
            Some(i) => Ok(self.tasks[i].status()),
            None => Err(WorkerError::NotFound(Missing::Task)),
        }
    }

    /// The report on the task named `id`, full or summarized.
    pub fn get_task_info(&self, id: &TaskIdentity, summarize: bool) -> (info: Result<
        TaskInfo,
        WorkerError,
    >)
        requires
            self.wf(),
        ensures
            match self@.task_info(id@, summarize) {
                Ok(view) => info matches Ok(i) && i@ == view,
                Err(e) => info matches Err(err) && err == e,
            },
    {
        match self.find(id) {
            Some(i) => Ok(self.tasks[i].info(summarize)),
            None => Err(WorkerError::NotFound(Missing::Task)),
        }
    }

    /// The reports on all tasks, in the order in which the tasks were first
    /// seen.
    pub fn get_all_task_info(&self, summarize: bool) -> (infos: Vec<TaskInfo>)
        requires
            self.wf(),
        ensures
            task_info_views(infos@) == self@.infos(summarize),
    {
        let mut infos: Vec<TaskInfo> = Vec::new();
        let mut i: usize = 0;
        while i < self.tasks.len()
            invariant
                self.wf(),
                i <= self.tasks@.len(),
                infos@.len() == i,
                forall|j: int| 0 <= j < i ==> (#[trigger] infos@[j])@ == self.tasks@[j]@.info(summarize),
            decreases self.tasks@.len() - i,
        {
            infos.push(self.tasks[i].info(summarize));
            i = i + 1;
        }
        proof {
            assert(task_info_views(infos@) =~= self@.infos(summarize));
        }
        infos
    }

    /// Cancels the task named `id` and returns the report on it.
    pub fn cancel_task(&mut self, id: &TaskIdentity, summarize: bool, now: u64) -> (info: Result<
        TaskInfo,
        WorkerError,
    >)
        requires
            old(self).wf(),
        ensures
            final(self).wf(),
            final(self)@ == old(self)@.cancel_task(id@, now as nat),
            final(self)@.names() == old(self)@.names(),
            match final(self)@.task_info(id@, summarize) {
                Ok(view) => info matches Ok(i) && i@ == view,
                Err(e) => info matches Err(err) && err == e,
            },
    {
        match self.find(id) {
            Some(i) => {
                self.tasks[i].cancel(now);
                proof {
                    self.lemma_replaced(old(self), i as int);
                }
                Ok(self.tasks[i].info(summarize))
            },
            None => Err(WorkerError::NotFound(Missing::Task)),
        }
    }

    /// Aborts the task named `id` and returns the report on it. The abort
    /// takes effect on a task that has not ended and on a canceled one.
    pub fn abort_task(
        &mut self,
        id: &TaskIdentity,
        summarize: bool,
        now: u64,
        accountant: &mut MemoryPoolAccountant,
    ) -> (info: Result<TaskInfo, WorkerError>)
        requires
            old(self).wf(),
            old(accountant).wf(),
        ensures
            final(self).wf(),
            final(accountant).wf(),
            (final(self)@, final(accountant)@) == old(self)@.abort_task(
                id@,
                now as nat,
                old(accountant)@,
            ),
            final(self)@.names() == old(self)@.names(),
            match final(self)@.task_info(id@, summarize) {
                Ok(view) => info matches Ok(i) && i@ == view,
                Err(e) => info matches Err(err) && err == e,
            },
    {
        match self.find(id) {
            Some(i) => {
                self.tasks[i].abort(now, accountant);
                proof {
                    self.lemma_replaced(old(self), i as int);
                }
                Ok(self.tasks[i].info(summarize))
            },
            None => Err(WorkerError::NotFound(Missing::Task)),
        }
    }

    /// Records that the execution of the task named `id` has produced all
    /// its output.
    pub fn finish_task(&mut self, id: &TaskIdentity, now: u64) -> (status: Result<
        TaskStatus,
        WorkerError,
    >)
        requires
            old(self).wf(),
        ensures
            final(self).wf(),
            final(self)@ == old(self)@.finish_task(id@, now as nat),
            final(self)@.names() == old(self)@.names(),
            match final(self)@.task_status(id@) {
                Ok(view) => status matches Ok(s) && s@ == view,
                Err(e) => status matches Err(err) && err == e,
            },
    {
        match self.find(id) {
            Some(i) => {
                let status = self.tasks[i].finish(now);
                proof {
                    self.lemma_replaced(old(self), i as int);
                }
                Ok(status)
            },
            None => Err(WorkerError::NotFound(Missing::Task)),
        }
    }

    /// Records that the execution of the task named `id` reported an error.
    pub fn fail_task(&mut self, id: &TaskIdentity, cause: FailureCause, now: u64) -> (status: Result<
        TaskStatus,
        WorkerError,
    >)
        requires
            old(self).wf(),
        ensures
            final(self).wf(),
            final(self)@ == old(self)@.fail_task(id@, cause, now as nat),
            final(self)@.names() == old(self)@.names(),
            match final(self)@.task_status(id@) {
                Ok(view) => status matches Ok(s) && s@ == view,
                Err(e) => status matches Err(err) && err == e,
            },
    {
        match self.find(id) {
            Some(i) => {
                let status = self.tasks[i].fail(cause, now);
                proof {
                    self.lemma_replaced(old(self), i as int);
                }
                Ok(status)
            },
            None => Err(WorkerError::NotFound(Missing::Task)),
        }
    }

    /// Makes sure that the task has an output buffer of that name, and says
    /// whether it has one afterwards. A task that has ended gets no new
    /// buffer.
    pub fn create_buffer(&mut self, task: &TaskIdentity, buffer: &BufferId) -> (exists: Result<
        bool,
        WorkerError,
    >)
        requires
            old(self).wf(),
        ensures
            final(self).wf(),
            final(self)@ == old(self)@.create_buffer(task@, buffer@),
            final(self)@.names() == old(self)@.names(),
            match final(self)@.index_of(task@) {
                Some(i) => exists == Ok::<bool, WorkerError>(
                    final(self)@.tasks[i].buffers.index_of(buffer@) is Some,
                ),
                None => exists == Err::<bool, WorkerError>(WorkerError::NotFound(Missing::Task)),
            },
    {
        match self.find(task) {
            Some(i) => {
                let exists = self.tasks[i].get_or_create_buffer(buffer);
                proof {
                    self.lemma_replaced(old(self), i as int);
                }
                Ok(exists)
            },
            None => Err(WorkerError::NotFound(Missing::Task)),
        }
    }

    /// Offers a page of `data` to that buffer of that task and returns the
    /// page's token, or `None` if the buffer is complete and ignored it.
    pub fn enqueue(
        &mut self,
        task: &TaskIdentity,
        buffer: &BufferId,
        data: Vec<u8>,
        accountant: &mut MemoryPoolAccountant,
    ) -> (token: Result<Option<u64>, WorkerError>)
        requires
            old(self).wf(),
            old(accountant).wf(),
            old(self)@.has_room(task@, buffer@),
        ensures
            final(self).wf(),
            final(accountant).wf(),
            (final(self)@, final(accountant)@, token_view(token)) == old(self)@.enqueue(
                task@,
                buffer@,
                data@,
                old(accountant)@,
            ),
            final(self)@.names() == old(self)@.names(),
    {
        match self.find(task) {
            Some(i) => {
                let token = self.tasks[i].enqueue(buffer, data, accountant);
                proof {
                    self.lemma_replaced(old(self), i as int);
                }
                token
            },
            None => Err(WorkerError::NotFound(Missing::Task)),
        }
    }

    /// Marks that buffer of that task complete.
    pub fn mark_complete(&mut self, task: &TaskIdentity, buffer: &BufferId) -> (done: Result<
        (),
        WorkerError,
    >)
        requires
            old(self).wf(),
        ensures
            final(self).wf(),
            final(self)@ == old(self)@.mark_complete(task@, buffer@),
            final(self)@.names() == old(self)@.names(),
            done == old(self)@.buffer_outcome(task@, buffer@),
    {
        match self.find(task) {
            Some(i) => {
                let done = self.tasks[i].mark_complete(buffer);
                proof {
                    self.lemma_replaced(old(self), i as int);
                }
                done
            },
            None => Err(WorkerError::NotFound(Missing::Task)),
        }
    }

    /// Answers a pull at `token` from that buffer of that task.
    pub fn get_results(&self, task: &TaskIdentity, buffer: &BufferId, token: u64) -> (answer: Result<Batch, WorkerError>)
        requires
            self.wf(),
        ensures
            match self@.get(task@, buffer@, token as nat) {
                Ok(batch) => answer matches Ok(b) && b@ == batch,
                Err(e) => answer == Err::<Batch, WorkerError>(e),
            },
    {
        match self.find(task) {
            Some(i) => self.tasks[i].get(buffer, token),
            None => Err(WorkerError::NotFound(Missing::Task)),
        }
    }

    /// One step of a long poll at `token` on that buffer of that task: the
    /// answer to give, or the instruction to wait and poll again.
    pub fn poll_results(
        &self,
        task: &TaskIdentity,
        buffer: &BufferId,
        token: u64,
        timed_out: bool,
    ) -> (step: Result<PollStep, WorkerError>)
        requires
            self.wf(),
        ensures
            match self@.get(task@, buffer@, token as nat) {
                Ok(batch) => if self@.awaits(task@, buffer@, token as nat) && !timed_out {
                    step matches Ok(PollStep::Wait)
                } else {
                    step matches Ok(PollStep::Reply(b)) && b@ == batch
                },
                Err(e) => step matches Err(err) && err == e,
            },
    {
        match self.find(task) {
            Some(i) => self.tasks[i].poll(buffer, token, timed_out),
            None => Err(WorkerError::NotFound(Missing::Task)),
        }
    }

    /// Acknowledges that buffer of that task up to `upto` and releases the
    /// memory of the evicted pages.
    pub fn acknowledge_results(
        &mut self,
        task: &TaskIdentity,
        buffer: &BufferId,
        upto: u64,
        accountant: &mut MemoryPoolAccountant,
    ) -> (done: Result<(), WorkerError>)
        requires
            old(self).wf(),
            old(accountant).wf(),
        ensures
            final(self).wf(),
            final(accountant).wf(),
            (final(self)@, final(accountant)@) == old(self)@.acknowledge(
                task@,
                buffer@,
                upto as nat,
                old(accountant)@,
            ),
            final(self)@.names() == old(self)@.names(),
            done == old(self)@.buffer_outcome(task@, buffer@),
    {
        match self.find(task) {
            Some(i) => {
                let done = self.tasks[i].acknowledge(buffer, upto, accountant);
                proof {
                    self.lemma_replaced(old(self), i as int);
                }
                done
            },
            None => Err(WorkerError::NotFound(Missing::Task)),
        }
    }

    /// Deletes that buffer of that task, whatever has been acknowledged, and
    /// releases the memory of its pages.
    pub fn delete_results(
        &mut self,
        task: &TaskIdentity,
        buffer: &BufferId,
        accountant: &mut MemoryPoolAccountant,
    ) -> (done: Result<(), WorkerError>)
        requires
            old(self).wf(),
            old(accountant).wf(),
        ensures
            final(self).wf(),
            final(accountant).wf(),
            (final(self)@, final(accountant)@) == old(self)@.destroy_buffer(
                task@,
                buffer@,
                old(accountant)@,
            ),
            final(self)@.names() == old(self)@.names(),
            done == old(self)@.buffer_outcome(task@, buffer@),
    {
        match self.find(task) {
            Some(i) => {
                let done = self.tasks[i].destroy_buffer(buffer, accountant);
                proof {
                    self.lemma_replaced(old(self), i as int);
                }
                done
            },
            None => Err(WorkerError::NotFound(Missing::Task)),
        }
    }

    /// Deletes the task named `id` if it has ended and its buffers are torn
    /// down, releasing what memory it still holds. Says whether the task
    /// was removed.
    pub fn remove_task(&mut self, id: &TaskIdentity, accountant: &mut MemoryPoolAccountant) -> (removed: Result<bool, WorkerError>)
        requires
            old(self).wf(),
            old(accountant).wf(),
        ensures
            final(self).wf(),
            final(accountant).wf(),
            (final(self)@, final(accountant)@, removed) == old(self)@.remove_task(
                id@,
                old(accountant)@,
            ),
            removed == Ok::<bool, WorkerError>(true) ==> final(self)@.index_of(id@) is None,
    {
        let i = match self.find(id) {
            Some(i) => i,
            None => {
                return Err(WorkerError::NotFound(Missing::Task));
            },
        };
        if !self.tasks[i].state().is_terminal() || self.tasks[i].buffers().len() != 0 {
            return Ok(false);
        }
        let mut task = self.tasks.remove(i);
        task.teardown(accountant);
        proof {
            self.lemma_removed(old(self), i as int);
            lemma_position_stands(old(self)@.names(), id@);
        }
        Ok(true)
    }

    /// After the task at `i` was taken out, the registry is the old one
    /// without that task.
    proof fn lemma_removed(&self, before: &TaskRegistry, i: int)
        requires
            before.wf(),
            0 <= i < before.tasks@.len(),
            self.tasks@ == before.tasks@.remove(i),
            self.retention == before.retention,
        ensures
            self.wf(),
            self@.tasks == before@.tasks.remove(i),
            self@.retention == before@.retention,
            self@.index_of(before@.tasks[i].identity) is None,
    {
        lemma_remove_distinct(before@.names(), i);
        assert(self@.names() =~= before@.names().remove(i));
        assert(self@.tasks =~= before@.tasks.remove(i));
        assert forall|j: int| 0 <= j < self.tasks@.len() implies (#[trigger] self.tasks@[j]).wf() by {
            if j < i {
                assert(self.tasks@[j] == before.tasks@[j]);
            } else {
                assert(self.tasks@[j] == before.tasks@[j + 1]);
            }
        }
    }

    /// Evicts every task that has ended and whose retention period has
    /// passed at `now`: the task goes with its buffers, and all its memory
    /// is released. Returns the number of tasks evicted.
    pub fn evict_expired(&mut self, now: u64, accountant: &mut MemoryPoolAccountant) -> (evicted: usize)
        requires
            old(self).wf(),
            old(accountant).wf(),
        ensures
            final(self).wf(),
            final(accountant).wf(),
            (final(self)@, final(accountant)@) == old(self)@.evict_expired(
                now as nat,
                old(accountant)@,
            ),
            evicted == old(self)@.tasks.len() - final(self)@.tasks.len(),
    {
        let ghost before = old(self)@;
        let ghost keep = |t: TaskView| !before.expired(t, now as nat);
        let total = self.tasks.len();
        let mut i: usize = 0;
        let mut evicted: usize = 0;
        proof {
            assert(before.tasks.take(0) =~= Seq::<TaskView>::empty());
            assert(self@.tasks.take(0) =~= Seq::<TaskView>::empty());
            reveal(Seq::filter);
            assert(self@.tasks.skip(0) =~= before.tasks.skip(0));
        }
        while i < self.tasks.len()
            invariant
                self.wf(),
                accountant.wf(),
                before == old(self)@,
                keep == |t: TaskView| !before.expired(t, now as nat),
                self.retention == old(self).retention,
                i <= self.tasks@.len(),
                total == before.tasks.len(),
                i + evicted + (self.tasks@.len() - i) == before.tasks.len(),
                self@.tasks.take(i as int) == before.tasks.take(i + evicted).filter(keep),
                self@.tasks.skip(i as int) == before.tasks.skip(i + evicted),
                accountant@ == before.eviction_releases(
                    before.tasks.take(i + evicted),
                    now as nat,
                    old(accountant)@,
                ),
            decreases self.tasks@.len() - i,
        {
            let ghost k = i + evicted;
            let ghost current = self@;
            let last_update = self.tasks[i].last_update();
            let expired = self.tasks[i].state().is_terminal() && now >= last_update && now
                - last_update >= self.retention;
            proof {
                assert(current.tasks[i as int] == current.tasks.skip(i as int)[0]);
                assert(current.tasks[i as int] == before.tasks[k]);
                assert(expired == before.expired(before.tasks[k], now as nat));
                assert(before.tasks.take(k + 1) =~= before.tasks.take(k).push(before.tasks[k]));
                before.tasks.take(k).lemma_filter_push(before.tasks[k], keep);
                assert(before.tasks.take(k + 1).drop_last() =~= before.tasks.take(k));
            }
            if expired {
                let ghost snapshot = *self;
                let mut task = self.tasks.remove(i);
                task.teardown(accountant);
                proof {
                    self.lemma_removed(&snapshot, i as int);
                    assert(self@.tasks.take(i as int) =~= current.tasks.take(i as int));
                    let tail = self@.tasks.skip(i as int);
                    let rest = before.tasks.skip(k + 1);
                    assert forall|j: int| 0 <= j < tail.len() implies tail[j] == rest[j] by {
                        assert(current.tasks.skip(i as int)[j + 1] == before.tasks.skip(k)[j + 1]);
                    }
                    assert(tail =~= rest);
                }
                evicted = evicted + 1;
            } else {
                proof {
                    assert(self@.tasks.take(i + 1) =~= current.tasks.take(i as int).push(
                        current.tasks[i as int],
                    ));
                    let tail = self@.tasks.skip(i + 1);
                    let rest = before.tasks.skip(k + 1);
                    assert forall|j: int| 0 <= j < tail.len() implies tail[j] == rest[j] by {
                        assert(current.tasks.skip(i as int)[j + 1] == before.tasks.skip(k)[j + 1]);
                    }
                    assert(tail =~= rest);
                }
                i = i + 1;
            }
        }
        proof {
            assert(self@.tasks.take(i as int) =~= self@.tasks);
            assert(before.tasks.take(i + evicted) =~= before.tasks);
        }
        evicted
    }
}

} // verus!
