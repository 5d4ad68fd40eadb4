//! What the worker answers to the requests of its coordinator and of the
//! consumers of its results.
//!
//! The transport hands each request over as plain values and turns the
//! answer into a response. Which operation a request stands for, which
//! failures it reports and with which status, is decided here.

use crate::error::WorkerError;
use crate::ident::TaskIdentity;
use crate::memory::{AccountantView, MemoryPoolAccountant};
use crate::names::{distinct, lemma_position_stands};
use crate::registry::{RegistryView, TaskRegistry};
use crate::task::{TaskInfo, TaskInfoView, TaskUpdateRequest};
use vstd::prelude::*;
use vstd::string::StringExecFns;

verus! {

/// The method of a request.
#[derive(Clone, Copy, Debug, PartialEq, Eq, Structural)]
pub enum Method {
    Get,
    Head,
    Post,
    Put,
    Delete,
}

/// The requests that the worker answers.
#[derive(Clone, Copy, Debug, PartialEq, Eq, Structural)]
pub enum Endpoint {
    /// Pool assignment hints come in, the memory totals go out.
    PostMemory,
    /// The totals of one pool.
    GetMemoryPool,
    /// What the node is: environment, version, uptime.
    GetInfo,
    /// The lifecycle state of the node.
    GetState,
    /// Reserved: a worker does not take a new node state.
    PutState,
    /// Reserved: a worker is never a coordinator.
    PutCoordinator,
    /// The full node status.
    GetStatus,
    /// The liveness probe.
    HeadStatus,
    /// Submits or advances a task.
    PostTask,
    /// The status of a task.
    GetTaskStatus,
    /// The report on a task.
    GetTaskInfo,
    /// Cancels or aborts a task.
    DeleteTask,
    /// The reports on all tasks.
    GetTasks,
    /// Pulls pages from a buffer.
    GetResults,
    /// Acknowledges pages of a buffer.
    AcknowledgeResults,
    /// Deletes a buffer.
    DeleteResults,
}

pub const STATUS_OK: u16 = 200;

pub const STATUS_BAD_REQUEST: u16 = 400;

pub const STATUS_NOT_FOUND: u16 = 404;

pub const STATUS_SERVER_ERROR: u16 = 500;

pub const STATUS_NOT_IMPLEMENTED: u16 = 501;

pub const STATUS_UNAVAILABLE: u16 = 503;

impl Endpoint {
    pub open spec fn method_of(self) -> Method {
        match self {
            Endpoint::PostMemory | Endpoint::PostTask => Method::Post,
            Endpoint::PutState | Endpoint::PutCoordinator => Method::Put,
            Endpoint::HeadStatus => Method::Head,
            Endpoint::DeleteTask | Endpoint::DeleteResults => Method::Delete,
            _ => Method::Get,
        }
    }

    pub open spec fn path_of(self) -> Seq<char> {
        match self {
            Endpoint::PostMemory => "/memory"@,
            Endpoint::GetMemoryPool => "/memory/{pool_id}"@,
            Endpoint::GetInfo => "/info"@,
            Endpoint::GetState | Endpoint::PutState => "/info/state"@,
            Endpoint::PutCoordinator => "/info/coordinator"@,
            Endpoint::GetStatus | Endpoint::HeadStatus => "/status"@,
            Endpoint::PostTask | Endpoint::GetTaskInfo | Endpoint::DeleteTask => "/task/{task_id}"@,
            Endpoint::GetTaskStatus => "/task/{task_id}/status"@,
            Endpoint::GetTasks => "/task"@,
            Endpoint::GetResults | Endpoint::DeleteResults => "/task/async/{task_id}/results/{buffer_id}/{token}"@,
            Endpoint::AcknowledgeResults => "/task/async/{task_id}/results/{buffer_id}/{token}/acknowledge"@,
        }
    }

    /// The status with which a reserved endpoint answers every request: a
    /// worker does not take a node state, and knows no coordinator role.
    pub open spec fn reserved_status(self) -> Option<u16> {
        match self {
            Endpoint::PutState => Some(STATUS_NOT_IMPLEMENTED),
            Endpoint::PutCoordinator => Some(STATUS_NOT_FOUND),
            _ => None,
        }
    }

    /// The method under which the endpoint is served.
    pub fn method(&self) -> (method: Method)
        ensures
            method == self.method_of(),
    {
        match self {
            Endpoint::PostMemory | Endpoint::PostTask => Method::Post,
            Endpoint::PutState | Endpoint::PutCoordinator => Method::Put,
            Endpoint::HeadStatus => Method::Head,
            Endpoint::DeleteTask | Endpoint::DeleteResults => Method::Delete,
            _ => Method::Get,
        }
    }

    /// The path under which the endpoint is served, with its parameters in
    /// braces.
    pub fn path(&self) -> (path: &'static str)
        ensures
            path@ == self.path_of(),
    {
        match self {
            Endpoint::PostMemory => "/memory",
            Endpoint::GetMemoryPool => "/memory/{pool_id}",
            Endpoint::GetInfo => "/info",
            Endpoint::GetState | Endpoint::PutState => "/info/state",
            Endpoint::PutCoordinator => "/info/coordinator",
            Endpoint::GetStatus | Endpoint::HeadStatus => "/status",
            Endpoint::PostTask | Endpoint::GetTaskInfo | Endpoint::DeleteTask => "/task/{task_id}",
            Endpoint::GetTaskStatus => "/task/{task_id}/status",
            Endpoint::GetTasks => "/task",
            Endpoint::GetResults | Endpoint::DeleteResults => "/task/async/{task_id}/results/{buffer_id}/{token}",
            Endpoint::AcknowledgeResults => "/task/async/{task_id}/results/{buffer_id}/{token}/acknowledge",
        }
    }

    /// The fixed status of a reserved endpoint, and `None` for an endpoint
    /// that does work.
    pub fn reserved(&self) -> (status: Option<u16>)
        ensures
            status == self.reserved_status(),
    {
        match self {
            Endpoint::PutState => Some(STATUS_NOT_IMPLEMENTED),
            Endpoint::PutCoordinator => Some(STATUS_NOT_FOUND),
            _ => None,
        }
    }
}

/// The response status that reports `error`: an unknown task, buffer or pool
/// is not found; a pull below the low watermark is the consumer's mistake; an
/// exhausted pool asks the caller to come back later; a body that cannot be
/// decoded is a server error.
pub open spec fn status_of(error: WorkerError) -> u16 {
    match error {
        WorkerError::NotFound(_) => STATUS_NOT_FOUND,
        WorkerError::TokenOutOfRange => STATUS_BAD_REQUEST,
        WorkerError::PoolExhausted => STATUS_UNAVAILABLE,
        WorkerError::DeserializationFailure => STATUS_SERVER_ERROR,
    }
}

/// The response status that reports `error`.
pub fn status_code(error: WorkerError) -> (status: u16)
    ensures
        status == status_of(error),
{
    match error {
        WorkerError::NotFound(_) => STATUS_NOT_FOUND,
        WorkerError::TokenOutOfRange => STATUS_BAD_REQUEST,
        WorkerError::PoolExhausted => STATUS_UNAVAILABLE,
        WorkerError::DeserializationFailure => STATUS_SERVER_ERROR,
    }
}

/// How long the node has been up at `now`, both in milliseconds since the
/// epoch. A clock that reads earlier than the start gives no uptime.
pub open spec fn uptime_at(now: nat, started: nat) -> Option<nat> {
    if now >= started {
        Some((now - started) as nat)
    } else {
        None
    }
}

/// How long the node has been up at `now`.
pub fn uptime_millis(now: u128, started: u64) -> (uptime: Option<u128>)
    ensures
        match uptime_at(now as nat, started as nat) {
            Some(millis) => uptime == Some(millis as u128),
            None => uptime is None,
        },
{
    if now >= started as u128 {
        Some(now - started as u128)
    } else {
        None
    }
}

/// What the node says of itself.
#[derive(Debug)]
pub struct ServerInfo {
    pub coordinator: bool,
    pub environment: String,
    pub node_version: String,
    pub uptime_millis: Option<u128>,
    pub starting: bool,
}

/// The description of this node at `now`: a worker, never a coordinator,
/// and not starting any more.
pub fn server_info(environment: String, node_version: String, now: u128, started: u64) -> (info: ServerInfo)
    ensures
        !info.coordinator,
        !info.starting,
        info.environment@ == environment@,
        info.node_version@ == node_version@,
        match uptime_at(now as nat, started as nat) {
            Some(millis) => info.uptime_millis == Some(millis as u128),
            None => info.uptime_millis is None,
        },
{
    ServerInfo {
        coordinator: false,
        environment,
        node_version,
        uptime_millis: uptime_millis(now, started),
        starting: false,
    }
}

/// A request that the worker turned down, with the text that goes into the
/// response.
#[derive(Debug)]
pub struct Rejection {
    pub error: WorkerError,
    pub diagnostic: String,
}

/// How the diagnostic for a body that could not be decoded begins.
pub open spec fn decode_failure_prefix() -> Seq<char> {
    "failed to deserialize json response "@
}

/// The answer to a task update whose body was decoded, or failed to decode
/// with the reason `detail`.
///
/// A body that failed to decode changes nothing and is rejected as a
/// deserialization failure, with a diagnostic that ends in the reason of the
/// decoder. A decoded update is applied to the task, which is created if it
/// is new, and the answer is the report on the task.
pub fn post_task(
    registry: &mut TaskRegistry,
    accountant: &mut MemoryPoolAccountant,
    id: &TaskIdentity,
    body: Result<TaskUpdateRequest, String>,
    summarize: bool,
    now: u64,
) -> (answer: Result<TaskInfo, Rejection>)
    requires
        old(registry).wf(),
        old(accountant).wf(),
        body matches Ok(request) ==> old(registry)@.can_update(id@, request@.version),
    ensures
        final(registry).wf(),
        final(accountant).wf(),
        match body {
            Ok(request) => {
                &&& (final(registry)@, final(accountant)@) == old(registry)@.update_task(
                    id@,
                    request@,
                    now as nat,
                    old(accountant)@,
                )
                &&& answer matches Ok(info)
                &&& final(registry)@.task_info(id@, summarize) == Ok::<TaskInfoView, WorkerError>(
                    info@,
                )
                &&& final(registry)@.index_of(id@) is Some
            },
            Err(detail) => {
                &&& final(registry)@ == old(registry)@
                &&& final(accountant)@ == old(accountant)@
                &&& answer matches Err(rejection)
                &&& rejection.error == WorkerError::DeserializationFailure
                &&& rejection.diagnostic@ == decode_failure_prefix() + detail@
            },
        },
{
    match body {
        Ok(request) => Ok(registry.update_task(id, request, summarize, now, accountant)),
        Err(detail) => {
            let diagnostic = String::from_str("failed to deserialize json response ").concat(
                detail.as_str(),
            );
            Err(Rejection { error: WorkerError::DeserializationFailure, diagnostic })
        },
    }
}

/// The registry and the accountant after a delete request for the task
/// named `id`: the task is aborted if the request says so, and canceled
/// otherwise.
pub open spec fn delete_outcome(r: RegistryView, id: Seq<char>, abort: bool, now: nat, a: AccountantView) -> (
    RegistryView,
    AccountantView,
) {
    if abort {
        r.abort_task(id, now, a)
    } else {
        (r.cancel_task(id, now), a)
    }
}

/// A delete that aborts wins against a delete that cancels, in either order:
/// when both were asked of a task that had not ended, the task reads as
/// aborted afterwards, whichever of the two was applied first, and the
/// accountant is the same in both orders.
pub proof fn lemma_abort_wins_delete_race(
    r: RegistryView,
    id: Seq<char>,
    first: nat,
    second: nat,
    a: AccountantView,
)
    requires
        distinct(r.names()),
        r.index_of(id) matches Some(i) && !r.tasks[i].state.terminal(),
    ensures
        ({
            let canceled = delete_outcome(r, id, false, first, a);
            delete_outcome(canceled.0, id, true, second, canceled.1).0.task_status(id)
        }) matches Ok(status) && status.state is Aborted,
        ({
            let aborted = delete_outcome(r, id, true, first, a);
            delete_outcome(aborted.0, id, false, second, aborted.1).0.task_status(id)
        }) matches Ok(status) && status.state is Aborted,
        ({
            let canceled = delete_outcome(r, id, false, first, a);
            delete_outcome(canceled.0, id, true, second, canceled.1).1
        }) == ({
            let aborted = delete_outcome(r, id, true, first, a);
            delete_outcome(aborted.0, id, false, second, aborted.1).1
        }),
{
    lemma_position_stands(r.names(), id);
    let i = r.index_of(id)->0;
    let canceled = delete_outcome(r, id, false, first, a);
    let aborted = delete_outcome(r, id, true, first, a);
    assert(canceled.0.names() =~= r.names());
    assert(aborted.0.names() =~= r.names());
    let both = delete_outcome(canceled.0, id, true, second, canceled.1);
    let again = delete_outcome(aborted.0, id, false, second, aborted.1);
    assert(both.0.names() =~= r.names());
    assert(again.0.names() =~= r.names());
    crate::task::lemma_abort_wins(r.tasks[i], first, second, a);
}

/// Answers a delete request for the task named `id`: cancels the task, or
/// aborts it if `abort` is set, and returns the report on the task. An
/// abort overrides a cancel that came first; a task that is finished, failed
/// or aborted is reported as it is.
pub fn delete_task(
    registry: &mut TaskRegistry,
    accountant: &mut MemoryPoolAccountant,
    id: &TaskIdentity,
    abort: bool,
    summarize: bool,
    now: u64,
) -> (answer: Result<TaskInfo, WorkerError>)
    requires
        old(registry).wf(),
        old(accountant).wf(),
    ensures
        final(registry).wf(),
        final(accountant).wf(),
        (final(registry)@, final(accountant)@) == delete_outcome(
            old(registry)@,
            id@,
            abort,
            now as nat,
            old(accountant)@,
        ),
        final(registry)@.names() == old(registry)@.names(),
        match final(registry)@.task_info(id@, summarize) {
            Ok(view) => answer matches Ok(info) && info@ == view,
            Err(e) => answer matches Err(err) && err == e,
        },
{
    if abort {
        registry.abort_task(id, summarize, now, accountant)
    } else {
        registry.cancel_task(id, summarize, now)
    }
}

} // verus!
