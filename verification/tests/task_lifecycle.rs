use presto_oxidized::buffer::PollStep;
use presto_oxidized::error::{Missing, WorkerError};
use presto_oxidized::ident::{BufferId, PoolId, TaskIdentity};
use presto_oxidized::memory::MemoryPoolAccountant;
use presto_oxidized::task::{
    FailureCause, Plan, Split, TaskState, TaskStateMachine, TaskUpdate,
    TaskUpdateRequest,
};

fn buffer(name: &str) -> BufferId {
    BufferId::new(name.to_string())
}

fn pool(name: &str) -> PoolId {
    PoolId::new(name.to_string())
}

fn accountant() -> MemoryPoolAccountant {
    let mut accountant = MemoryPoolAccountant::new();
    assert!(accountant.add_pool(pool("general"), 100, 10));
    accountant
}

fn reserved(accountant: &MemoryPoolAccountant) -> u64 {
    accountant.snapshot(&pool("general")).expect("configured").reserved
}

fn new_task() -> TaskStateMachine {
    TaskStateMachine::new(TaskIdentity::new("T1".to_string()), 1)
}

fn plan_in(version: u64, name: &str, bytes: u64, revocable: bool) -> TaskUpdateRequest {
    TaskUpdateRequest {
        version,
        update: TaskUpdate::PlanAssignment(Plan { pool: pool(name), memory_bytes: bytes, revocable }),
    }
}

fn plan(version: u64, bytes: u64) -> TaskUpdateRequest {
    plan_in(version, "general", bytes, false)
}

fn splits(version: u64, ids: &[u64]) -> TaskUpdateRequest {
    TaskUpdateRequest {
        version,
        update: TaskUpdate::SplitBatch(ids.iter().map(|id| Split { id: *id, size: 10 * *id }).collect()),
    }
}

fn no_more_splits(version: u64) -> TaskUpdateRequest {
    TaskUpdateRequest { version, update: TaskUpdate::NoMoreSplits }
}

fn running(accountant: &mut MemoryPoolAccountant) -> TaskStateMachine {
    let mut task = new_task();
    assert_eq!(task.update(plan(0, 40), 2, accountant).state, TaskState::Running);
    task
}

fn finishing(accountant: &mut MemoryPoolAccountant) -> TaskStateMachine {
    let mut task = running(accountant);
    assert_eq!(task.update(no_more_splits(1), 3, accountant).state, TaskState::Finishing);
    task
}

#[test]
fn a_new_task_is_planned() {
    let task = new_task();
    let status = task.status();
    assert_eq!(status.identity.as_str(), "T1");
    assert_eq!(status.state, TaskState::Planned);
    assert_eq!(status.version, 0);
    assert_eq!(status.last_update, 1);
    assert_eq!(status.failure, None);
    assert_eq!(task.state(), TaskState::Planned);
    assert_eq!(task.generation(), 0);
    assert_eq!(task.last_update(), 1);
    assert_eq!(task.identity().as_str(), "T1");
    assert_eq!(task.buffers().len(), 0);
}

#[test]
fn only_the_four_end_states_are_terminal() {
    for state in [TaskState::Planned, TaskState::Running, TaskState::Finishing] {
        assert!(!state.is_terminal());
    }
    for state in
        [TaskState::Finished, TaskState::Failed, TaskState::Canceled, TaskState::Aborted]
    {
        assert!(state.is_terminal());
    }
}

#[test]
fn a_plan_reserves_memory_and_starts_the_task() {
    let mut accountant = accountant();
    let mut task = new_task();
    let status = task.update(plan(0, 40), 7, &mut accountant);
    assert_eq!(status.state, TaskState::Running);
    assert_eq!(status.version, 1);
    assert_eq!(status.last_update, 7);
    assert_eq!(status.failure, None);
    assert_eq!(reserved(&accountant), 40);
}

#[test]
fn a_revocable_plan_is_not_counted_against_the_limit() {
    let mut accountant = accountant();
    let mut task = new_task();
    let status = task.update(plan_in(0, "general", 1_000, true), 7, &mut accountant);
    assert_eq!(status.state, TaskState::Running);
    let totals = accountant.snapshot(&pool("general")).expect("configured");
    assert_eq!(totals.reserved, 0);
    assert_eq!(totals.revocable, 1_000);
    assert!(totals.spill_advised);
}

#[test]
fn an_exhausted_pool_fails_the_task_with_out_of_memory() {
    let mut accountant = accountant();
    let mut task = new_task();
    let status = task.update(plan(0, 101), 7, &mut accountant);
    assert_eq!(status.state, TaskState::Failed);
    assert_eq!(status.failure, Some(FailureCause::OutOfMemory));
    assert_eq!(status.version, 1);
    assert_eq!(status.last_update, 7);
    assert_eq!(reserved(&accountant), 0);
    let retried = task.update(plan(1, 10), 8, &mut accountant);
    assert_eq!(retried.state, TaskState::Failed);
    assert_eq!(retried.version, 1);
    assert_eq!(retried.last_update, 7);
    assert_eq!(reserved(&accountant), 0);
}

#[test]
fn an_unknown_pool_fails_the_task() {
    let mut accountant = accountant();
    let mut task = new_task();
    let status = task.update(plan_in(0, "spill", 1, false), 7, &mut accountant);
    assert_eq!(status.state, TaskState::Failed);
    assert_eq!(status.failure, Some(FailureCause::UnknownPool));
}

#[test]
fn a_stale_update_changes_nothing() {
    let mut accountant = accountant();
    let mut task = running(&mut accountant);
    task.update(splits(1, &[1]), 3, &mut accountant);
    let before = task.status();
    assert_eq!(before.version, 2);
    for version in [0u64, 1] {
        let after = task.update(no_more_splits(version), 50, &mut accountant);
        assert_eq!(after.state, TaskState::Running);
        assert_eq!(after.version, 2);
        assert_eq!(after.last_update, before.last_update);
        let stale_splits = task.update(splits(version, &[7, 8]), 51, &mut accountant);
        assert_eq!(stale_splits.version, 2);
    }
    let info = task.info(false);
    assert_eq!(info.split_count, 1);
    assert_eq!(reserved(&accountant), 40);
}

#[test]
fn a_repeated_delivery_is_applied_once() {
    let mut accountant = accountant();
    let mut task = running(&mut accountant);
    let first = task.update(splits(1, &[1, 2]), 3, &mut accountant);
    assert_eq!(first.version, 2);
    let second = task.update(splits(1, &[1, 2]), 4, &mut accountant);
    assert_eq!(second.version, 2);
    assert_eq!(second.last_update, 3);
    assert_eq!(task.info(false).splits, Some(vec![Split { id: 1, size: 10 }, Split { id: 2, size: 20 }]));
}

#[test]
fn an_update_ahead_of_the_generation_is_applied() {
    let mut accountant = accountant();
    let mut task = running(&mut accountant);
    let status = task.update(no_more_splits(9), 3, &mut accountant);
    assert_eq!(status.state, TaskState::Finishing);
    assert_eq!(status.version, 2);
}

#[test]
fn the_generation_counts_the_updates_that_were_applied() {
    let mut accountant = accountant();
    let mut task = new_task();
    assert!(task.can_count(0));
    assert_eq!(task.update(splits(0, &[1]), 2, &mut accountant).version, 1);
    assert_eq!(task.update(plan(1, 10), 3, &mut accountant).version, 2);
    assert_eq!(task.update(plan(2, 10), 4, &mut accountant).version, 3);
    assert_eq!(task.update(splits(3, &[2]), 5, &mut accountant).version, 4);
    assert_eq!(task.update(no_more_splits(4), 6, &mut accountant).version, 5);
    assert_eq!(task.update(splits(5, &[3]), 7, &mut accountant).version, 6);
    let status = task.status();
    assert_eq!(status.state, TaskState::Finishing);
    assert_eq!(status.last_update, 7);
    assert_eq!(reserved(&accountant), 10);
    let info = task.info(false);
    assert_eq!(info.splits, Some(vec![Split { id: 1, size: 10 }, Split { id: 2, size: 20 }]));
}

#[test]
fn splits_and_the_end_of_input_do_not_start_a_planned_task() {
    let mut accountant = accountant();
    let mut task = new_task();
    assert_eq!(task.update(splits(0, &[1]), 2, &mut accountant).state, TaskState::Planned);
    assert_eq!(task.update(no_more_splits(1), 3, &mut accountant).state, TaskState::Planned);
    assert_eq!(task.update(plan(2, 10), 4, &mut accountant).state, TaskState::Running);
    assert_eq!(task.info(true).split_count, 1);
}

#[test]
fn the_end_of_input_moves_a_running_task_to_finishing() {
    let mut accountant = accountant();
    let mut task = finishing(&mut accountant);
    assert_eq!(task.state(), TaskState::Finishing);
    assert_eq!(task.finish(9).state, TaskState::Finished);
    assert_eq!(task.status().last_update, 9);
    assert_eq!(task.finish(10).last_update, 9);
}

#[test]
fn finish_applies_to_a_finishing_task_only() {
    let mut accountant = accountant();
    let mut planned = new_task();
    assert_eq!(planned.finish(5).state, TaskState::Planned);
    assert_eq!(planned.status().last_update, 1);
    let mut running = running(&mut accountant);
    assert_eq!(running.finish(5).state, TaskState::Running);
    assert_eq!(running.status().last_update, 2);
}

#[test]
fn fail_records_the_cause() {
    let mut accountant = accountant();
    let mut task = running(&mut accountant);
    let status = task.fail(FailureCause::Execution, 9);
    assert_eq!(status.state, TaskState::Failed);
    assert_eq!(status.failure, Some(FailureCause::Execution));
    assert_eq!(status.last_update, 9);
    let again = task.fail(FailureCause::OutOfMemory, 10);
    assert_eq!(again.failure, Some(FailureCause::Execution));
    assert_eq!(again.last_update, 9);
}

#[test]
fn cancel_stops_a_live_task_and_is_idempotent() {
    let mut accountant = accountant();
    for mut task in [new_task(), running(&mut accountant), finishing(&mut accountant)] {
        let version = task.generation();
        let status = task.cancel(20);
        assert_eq!(status.state, TaskState::Canceled);
        assert_eq!(status.last_update, 20);
        assert_eq!(status.version, version);
        let again = task.cancel(30);
        assert_eq!(again.state, TaskState::Canceled);
        assert_eq!(again.last_update, 20);
    }
}

#[test]
fn cancel_keeps_the_pages_that_were_produced() {
    let mut accountant = accountant();
    let mut task = running(&mut accountant);
    task.get_or_create_buffer(&buffer("B1"));
    task.enqueue(&buffer("B1"), vec![1, 2], &mut accountant).expect("room");
    task.cancel(20);
    let batch = task.get(&buffer("B1"), 0).expect("exists");
    assert_eq!(batch.pages, vec![vec![1, 2]]);
    assert!(!batch.no_more_pages);
    assert_eq!(reserved(&accountant), 42);
}

#[test]
fn abort_releases_the_reservation_and_completes_the_buffers() {
    let mut accountant = accountant();
    let mut task = running(&mut accountant);
    task.get_or_create_buffer(&buffer("B1"));
    task.get_or_create_buffer(&buffer("B2"));
    task.enqueue(&buffer("B1"), vec![1, 2, 3], &mut accountant).expect("room");
    assert_eq!(reserved(&accountant), 43);
    let status = task.abort(20, &mut accountant);
    assert_eq!(status.state, TaskState::Aborted);
    assert_eq!(status.last_update, 20);
    assert_eq!(status.version, 1);
    assert_eq!(reserved(&accountant), 3);
    let drained = task.get(&buffer("B1"), 0).expect("exists");
    assert_eq!(drained.pages, vec![vec![1, 2, 3]]);
    assert!(task.get(&buffer("B1"), 1).expect("exists").no_more_pages);
    assert!(task.get(&buffer("B2"), 0).expect("exists").no_more_pages);
    assert_eq!(task.enqueue(&buffer("B1"), vec![4], &mut accountant), Ok(None));
    assert_eq!(reserved(&accountant), 3);
}

#[test]
fn abort_is_idempotent() {
    let mut accountant = accountant();
    let mut task = running(&mut accountant);
    let first = task.abort(20, &mut accountant);
    let held = accountant.reserve(task.identity(), &pool("general"), 100, false);
    assert!(held.is_ok());
    let second = task.abort(30, &mut accountant);
    assert_eq!(second.state, TaskState::Aborted);
    assert_eq!(second.last_update, first.last_update);
    assert_eq!(second.version, first.version);
    assert_eq!(reserved(&accountant), 100);
}

#[test]
fn an_abort_is_not_undone_by_a_cancel() {
    let mut accountant = accountant();
    for mut task in [new_task(), running(&mut accountant), finishing(&mut accountant)] {
        assert_eq!(task.abort(20, &mut accountant).state, TaskState::Aborted);
        assert_eq!(task.cancel(21).state, TaskState::Aborted);
        assert_eq!(task.abort(22, &mut accountant).state, TaskState::Aborted);
        assert_eq!(task.status().last_update, 20);
    }
}

#[test]
fn an_ended_task_stays_as_it_is() {
    let mut accountant = accountant();
    let mut canceled = running(&mut accountant);
    canceled.cancel(20);
    assert_eq!(canceled.cancel(21).state, TaskState::Canceled);
    assert_eq!(canceled.fail(FailureCause::Execution, 22).state, TaskState::Canceled);
    assert_eq!(canceled.finish(23).state, TaskState::Canceled);
    assert_eq!(canceled.update(no_more_splits(5), 24, &mut accountant).state, TaskState::Canceled);
    let status = canceled.status();
    assert_eq!((status.version, status.last_update, status.failure), (1, 20, None));

    let mut finished = finishing(&mut accountant);
    finished.finish(30);
    assert_eq!(finished.cancel(31).state, TaskState::Finished);
    assert_eq!(finished.abort(32, &mut accountant).state, TaskState::Finished);
    assert_eq!(finished.status().last_update, 30);
}

#[test]
fn an_abort_takes_no_effect_on_a_finished_or_failed_task() {
    let mut accountant = accountant();
    let mut failed = running(&mut accountant);
    failed.fail(FailureCause::Execution, 20);
    let held = reserved(&accountant);
    let status = failed.abort(21, &mut accountant);
    assert_eq!(status.state, TaskState::Failed);
    assert_eq!(status.last_update, 20);
    assert_eq!(status.failure, Some(FailureCause::Execution));
    assert_eq!(reserved(&accountant), held);
    assert!(failed.reservation().is_some());
}

#[test]
fn an_abort_overrides_a_cancel() {
    let mut accountant = accountant();
    for mut task in [new_task(), running(&mut accountant), finishing(&mut accountant)] {
        task.get_or_create_buffer(&buffer("B1"));
        task.enqueue(&buffer("B1"), vec![7], &mut accountant).expect("room");
        let version = task.generation();
        assert_eq!(task.cancel(20).state, TaskState::Canceled);
        assert!(matches!(task.poll(&buffer("B1"), 1, false), Ok(PollStep::Wait)));
        let status = task.abort(21, &mut accountant);
        assert_eq!(status.state, TaskState::Aborted);
        assert_eq!(status.last_update, 21);
        assert_eq!(status.version, version);
        assert!(task.reservation().is_none());
        assert!(matches!(task.poll(&buffer("B1"), 1, false), Ok(PollStep::Reply(_))));
        assert_eq!(task.get(&buffer("B1"), 0).expect("exists").pages, vec![vec![7]]);
        assert_eq!(task.cancel(22).state, TaskState::Aborted);
        assert_eq!(task.abort(23, &mut accountant).last_update, 21);
        task.teardown(&mut accountant);
    }
    assert_eq!(reserved(&accountant), 0);
}

#[test]
fn only_finished_failed_and_aborted_tasks_are_beyond_an_abort() {
    for state in
        [TaskState::Planned, TaskState::Running, TaskState::Finishing, TaskState::Canceled]
    {
        assert!(state.is_abortable());
    }
    for state in [TaskState::Finished, TaskState::Failed, TaskState::Aborted] {
        assert!(!state.is_abortable());
    }
}

#[test]
fn a_summary_leaves_the_splits_out() {
    let mut accountant = accountant();
    let mut task = running(&mut accountant);
    task.update(splits(1, &[4, 5, 6]), 3, &mut accountant);
    task.get_or_create_buffer(&buffer("B1"));
    let full = task.info(false);
    let summary = task.info(true);
    assert_eq!(full.splits.as_ref().map(|s| s.len()), Some(3));
    assert_eq!(summary.splits, None);
    assert_eq!(full.split_count, 3);
    assert_eq!(summary.split_count, 3);
    assert_eq!(full.status.state, summary.status.state);
    assert_eq!(full.status.version, summary.status.version);
    assert_eq!(full.status.last_update, summary.status.last_update);
    assert_eq!(full.buffers.len(), 1);
    assert_eq!(summary.buffers.len(), 1);
    assert_eq!(summary.buffers[0].id.as_str(), "B1");
    assert_eq!(task.status().version, 2);
}

#[test]
fn an_ended_task_gets_no_new_buffer() {
    let mut accountant = accountant();
    let mut task = running(&mut accountant);
    assert!(task.get_or_create_buffer(&buffer("B1")));
    assert!(task.get_or_create_buffer(&buffer("B1")));
    task.abort(9, &mut accountant);
    assert!(task.get_or_create_buffer(&buffer("B1")));
    assert!(!task.get_or_create_buffer(&buffer("B2")));
    assert_eq!(task.buffers().len(), 1);
    assert_eq!(
        task.poll(&buffer("B2"), 0, false).err(),
        Some(WorkerError::NotFound(Missing::Buffer))
    );
}

#[test]
fn pages_are_paid_for_from_the_pool_of_the_task() {
    let mut accountant = accountant();
    let mut task = running(&mut accountant);
    task.get_or_create_buffer(&buffer("B1"));
    assert_eq!(task.enqueue(&buffer("B1"), vec![0; 50], &mut accountant), Ok(Some(0)));
    assert_eq!(reserved(&accountant), 90);
    assert_eq!(
        task.enqueue(&buffer("B1"), vec![0; 11], &mut accountant),
        Err(WorkerError::PoolExhausted)
    );
    assert_eq!(reserved(&accountant), 90);
    assert_eq!(task.buffers().buffer(&buffer("B1")).expect("exists").high_watermark(), 1);
    assert_eq!(task.enqueue(&buffer("B1"), vec![0; 10], &mut accountant), Ok(Some(1)));
    assert_eq!(reserved(&accountant), 100);
    assert_eq!(task.acknowledge(&buffer("B1"), 1, &mut accountant), Ok(()));
    assert_eq!(reserved(&accountant), 50);
    assert_eq!(task.enqueue(&buffer("B1"), vec![0; 50], &mut accountant), Ok(Some(2)));
    assert_eq!(task.destroy_buffer(&buffer("B1"), &mut accountant), Ok(()));
    assert_eq!(reserved(&accountant), 40);
    assert_eq!(
        task.enqueue(&buffer("B1"), vec![1], &mut accountant),
        Err(WorkerError::NotFound(Missing::Buffer))
    );
}

#[test]
fn a_task_without_a_plan_buffers_pages_for_free() {
    let mut accountant = accountant();
    let mut task = new_task();
    task.get_or_create_buffer(&buffer("B1"));
    assert_eq!(task.enqueue(&buffer("B1"), vec![0; 500], &mut accountant), Ok(Some(0)));
    assert_eq!(reserved(&accountant), 0);
    assert_eq!(task.get(&buffer("B1"), 0).expect("exists").pages, vec![vec![0; 500]]);
}

#[test]
fn marking_a_buffer_complete_ends_its_stream() {
    let mut accountant = accountant();
    let mut task = running(&mut accountant);
    task.get_or_create_buffer(&buffer("B1"));
    assert!(matches!(task.poll(&buffer("B1"), 0, false), Ok(PollStep::Wait)));
    assert_eq!(task.mark_complete(&buffer("B1")), Ok(()));
    assert_eq!(task.mark_complete(&buffer("B2")), Err(WorkerError::NotFound(Missing::Buffer)));
    assert!(matches!(task.poll(&buffer("B1"), 0, false), Ok(PollStep::Reply(_))));
    assert_eq!(task.state(), TaskState::Running);
}

#[test]
fn teardown_gives_all_memory_back() {
    let mut accountant = accountant();
    let mut task = running(&mut accountant);
    task.get_or_create_buffer(&buffer("B1"));
    task.get_or_create_buffer(&buffer("B2"));
    task.enqueue(&buffer("B1"), vec![0; 10], &mut accountant).expect("room");
    task.enqueue(&buffer("B2"), vec![0; 20], &mut accountant).expect("room");
    assert_eq!(reserved(&accountant), 70);
    task.cancel(5);
    assert_eq!(reserved(&accountant), 70);
    task.teardown(&mut accountant);
    assert_eq!(reserved(&accountant), 0);
    assert_eq!(task.buffers().len(), 0);
    assert_eq!(task.state(), TaskState::Canceled);
    task.teardown(&mut accountant);
    assert_eq!(reserved(&accountant), 0);
}

#[test]
fn the_task_holds_its_reservation_until_it_is_aborted() {
    let mut accountant = accountant();
    let mut task = new_task();
    assert!(task.reservation().is_none());
    task.update(plan(0, 40), 2, &mut accountant);
    let handle = task.reservation().expect("the plan reserved memory");
    let held = accountant.reservation(handle).expect("active");
    assert_eq!(held.task.as_str(), "T1");
    assert_eq!(held.pool.as_str(), "general");
    assert_eq!(held.non_revocable_bytes, 40);
    task.abort(3, &mut accountant);
    assert!(task.reservation().is_none());
    assert!(accountant.reservation(handle).is_none());
}
