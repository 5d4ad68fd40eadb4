use presto_oxidized::buffer::PollStep;
use presto_oxidized::error::{Missing, WorkerError};
use presto_oxidized::ident::{BufferId, PoolId, TaskIdentity};
use presto_oxidized::memory::MemoryPoolAccountant;
use presto_oxidized::registry::TaskRegistry;
use presto_oxidized::task::{
    FailureCause, Plan, Split, TaskState, TaskUpdate, TaskUpdateRequest,
};

fn task(name: &str) -> TaskIdentity {
    TaskIdentity::new(name.to_string())
}

fn buffer(name: &str) -> BufferId {
    BufferId::new(name.to_string())
}

fn general() -> PoolId {
    PoolId::new("general".to_string())
}

fn plan(version: u64, bytes: u64) -> TaskUpdateRequest {
    TaskUpdateRequest {
        version,
        update: TaskUpdate::PlanAssignment(Plan { pool: general(), memory_bytes: bytes, revocable: false }),
    }
}

fn splits(version: u64, ids: &[u64]) -> TaskUpdateRequest {
    TaskUpdateRequest {
        version,
        update: TaskUpdate::SplitBatch(ids.iter().map(|id| Split { id: *id, size: 1 }).collect()),
    }
}

fn no_more_splits(version: u64) -> TaskUpdateRequest {
    TaskUpdateRequest { version, update: TaskUpdate::NoMoreSplits }
}

fn worker() -> (TaskRegistry, MemoryPoolAccountant) {
    let mut accountant = MemoryPoolAccountant::new();
    assert!(accountant.add_pool(general(), 100, 0));
    (TaskRegistry::new(1_000), accountant)
}

fn reserved(accountant: &MemoryPoolAccountant) -> u64 {
    accountant.snapshot(&general()).expect("configured").reserved
}

fn names(registry: &TaskRegistry) -> Vec<String> {
    registry
        .get_all_task_info(true)
        .iter()
        .map(|info| info.status.identity.as_str().to_string())
        .collect()
}

#[test]
fn a_new_registry_knows_no_task() {
    let (registry, _) = worker();
    assert_eq!(registry.len(), 0);
    assert!(!registry.contains(&task("T1")));
    assert!(registry.get_all_task_info(false).is_empty());
    assert_eq!(registry.get_task_status(&task("T1")).err(), Some(WorkerError::NotFound(Missing::Task)));
    assert_eq!(
        registry.get_task_info(&task("T1"), true).err(),
        Some(WorkerError::NotFound(Missing::Task))
    );
}

#[test]
fn the_first_update_creates_the_task() {
    let (mut registry, mut accountant) = worker();
    assert!(registry.can_update(&task("T1"), 0));
    let info = registry.update_task(&task("T1"), plan(0, 30), false, 5, &mut accountant);
    assert_eq!(info.status.identity.as_str(), "T1");
    assert_eq!(info.status.state, TaskState::Running);
    assert_eq!(info.status.version, 1);
    assert_eq!(info.status.last_update, 5);
    assert_eq!(info.splits, Some(Vec::new()));
    assert_eq!(registry.len(), 1);
    assert!(registry.contains(&task("T1")));
    assert_eq!(reserved(&accountant), 30);
}

#[test]
fn a_later_update_advances_the_same_task() {
    let (mut registry, mut accountant) = worker();
    registry.update_task(&task("T1"), plan(0, 30), false, 5, &mut accountant);
    let info = registry.update_task(&task("T1"), splits(1, &[1, 2]), true, 6, &mut accountant);
    assert_eq!(info.status.version, 2);
    assert_eq!(info.split_count, 2);
    assert_eq!(info.splits, None);
    let stale = registry.update_task(&task("T1"), no_more_splits(0), true, 7, &mut accountant);
    assert_eq!(stale.status.state, TaskState::Running);
    assert_eq!(stale.status.version, 2);
    assert_eq!(stale.status.last_update, 6);
    assert_eq!(registry.len(), 1);
    assert_eq!(reserved(&accountant), 30);
}

#[test]
fn tasks_are_kept_apart() {
    let (mut registry, mut accountant) = worker();
    registry.update_task(&task("T1"), plan(0, 30), false, 5, &mut accountant);
    registry.update_task(&task("T2"), splits(0, &[1]), false, 6, &mut accountant);
    registry.update_task(&task("T3"), plan(0, 500), false, 7, &mut accountant);
    assert_eq!(names(&registry), vec!["T1", "T2", "T3"]);
    assert_eq!(registry.get_task_status(&task("T1")).expect("known").state, TaskState::Running);
    assert_eq!(registry.get_task_status(&task("T2")).expect("known").state, TaskState::Planned);
    let failed = registry.get_task_status(&task("T3")).expect("known");
    assert_eq!(failed.state, TaskState::Failed);
    assert_eq!(failed.failure, Some(FailureCause::OutOfMemory));
    assert_eq!(registry.count_in_state(TaskState::Running), 1);
    assert_eq!(registry.count_in_state(TaskState::Planned), 1);
    assert_eq!(registry.count_in_state(TaskState::Failed), 1);
    assert_eq!(registry.count_in_state(TaskState::Aborted), 0);
    registry.cancel_task(&task("T2"), true, 8).expect("known");
    assert_eq!(registry.get_task_status(&task("T1")).expect("known").state, TaskState::Running);
    assert_eq!(registry.count_in_state(TaskState::Canceled), 1);
    assert_eq!(registry.count_in_state(TaskState::Planned), 0);
}

#[test]
fn operations_on_an_unknown_task_are_not_found() {
    let (mut registry, mut accountant) = worker();
    let id = task("T9");
    let b = buffer("B1");
    let missing = WorkerError::NotFound(Missing::Task);
    assert_eq!(registry.cancel_task(&id, true, 1).err(), Some(missing));
    assert_eq!(registry.abort_task(&id, true, 1, &mut accountant).err(), Some(missing));
    assert_eq!(registry.finish_task(&id, 1).err(), Some(missing));
    assert_eq!(registry.fail_task(&id, FailureCause::Execution, 1).err(), Some(missing));
    assert_eq!(registry.create_buffer(&id, &b), Err(missing));
    assert_eq!(registry.enqueue(&id, &b, vec![1], &mut accountant), Err(missing));
    assert_eq!(registry.mark_complete(&id, &b), Err(missing));
    assert_eq!(registry.get_results(&id, &b, 0).err(), Some(missing));
    assert_eq!(registry.poll_results(&id, &b, 0, false).err(), Some(missing));
    assert_eq!(registry.acknowledge_results(&id, &b, 0, &mut accountant), Err(missing));
    assert_eq!(registry.delete_results(&id, &b, &mut accountant), Err(missing));
    assert_eq!(registry.remove_task(&id, &mut accountant), Err(missing));
    assert!(registry.has_room(&id, &b));
    assert_eq!(registry.len(), 0);
}

#[test]
fn operations_on_a_missing_buffer_of_a_known_task_are_not_found() {
    let (mut registry, mut accountant) = worker();
    let id = task("T1");
    let b = buffer("B1");
    registry.update_task(&id, plan(0, 30), false, 5, &mut accountant);
    let missing = WorkerError::NotFound(Missing::Buffer);
    assert_eq!(registry.enqueue(&id, &b, vec![1], &mut accountant), Err(missing));
    assert_eq!(registry.mark_complete(&id, &b), Err(missing));
    assert_eq!(registry.get_results(&id, &b, 0).err(), Some(missing));
    assert_eq!(registry.acknowledge_results(&id, &b, 0, &mut accountant), Err(missing));
    assert_eq!(registry.delete_results(&id, &b, &mut accountant), Err(missing));
    assert_eq!(reserved(&accountant), 30);
}

#[test]
fn the_lifecycle_runs_through_the_registry() {
    let (mut registry, mut accountant) = worker();
    let id = task("T1");
    registry.update_task(&id, plan(0, 30), false, 5, &mut accountant);
    registry.update_task(&id, no_more_splits(1), false, 6, &mut accountant);
    assert_eq!(registry.get_task_status(&id).expect("known").state, TaskState::Finishing);
    let finished = registry.finish_task(&id, 7).expect("known");
    assert_eq!(finished.state, TaskState::Finished);
    assert_eq!(finished.last_update, 7);
    let failed = registry.fail_task(&id, FailureCause::Execution, 8).expect("known");
    assert_eq!(failed.state, TaskState::Finished);
    assert_eq!(failed.failure, None);
}

#[test]
fn the_execution_can_fail_a_task() {
    let (mut registry, mut accountant) = worker();
    let id = task("T1");
    registry.update_task(&id, plan(0, 30), false, 5, &mut accountant);
    let failed = registry.fail_task(&id, FailureCause::Execution, 8).expect("known");
    assert_eq!(failed.state, TaskState::Failed);
    assert_eq!(failed.failure, Some(FailureCause::Execution));
    let info = registry.get_task_info(&id, true).expect("known");
    assert_eq!(info.status.failure, Some(FailureCause::Execution));
}

#[test]
fn results_flow_from_the_execution_to_the_consumer() {
    let (mut registry, mut accountant) = worker();
    let id = task("T1");
    let b = buffer("B1");
    registry.update_task(&id, plan(0, 30), false, 5, &mut accountant);
    assert_eq!(registry.create_buffer(&id, &b), Ok(true));
    assert!(registry.has_room(&id, &b));
    assert!(matches!(registry.poll_results(&id, &b, 0, false), Ok(PollStep::Wait)));
    assert_eq!(registry.enqueue(&id, &b, vec![1; 10], &mut accountant), Ok(Some(0)));
    assert_eq!(registry.enqueue(&id, &b, vec![2; 20], &mut accountant), Ok(Some(1)));
    assert_eq!(reserved(&accountant), 60);
    match registry.poll_results(&id, &b, 0, false).expect("in range") {
        PollStep::Reply(batch) => {
            assert_eq!(batch.pages, vec![vec![1; 10], vec![2; 20]]);
            assert_eq!(batch.next_token, 2);
        }
        PollStep::Wait => panic!("pages are there"),
    }
    assert_eq!(registry.acknowledge_results(&id, &b, 1, &mut accountant), Ok(()));
    assert_eq!(reserved(&accountant), 50);
    assert_eq!(registry.mark_complete(&id, &b), Ok(()));
    assert_eq!(registry.enqueue(&id, &b, vec![3; 5], &mut accountant), Ok(None));
    assert_eq!(reserved(&accountant), 50);
    let rest = registry.get_results(&id, &b, 1).expect("in range");
    assert_eq!(rest.pages, vec![vec![2; 20]]);
    assert!(registry.get_results(&id, &b, 2).expect("in range").no_more_pages);
    let info = registry.get_task_info(&id, false).expect("known");
    assert_eq!(info.buffers.len(), 1);
    assert_eq!((info.buffers[0].low_watermark, info.buffers[0].high_watermark), (1, 2));
    assert!(info.buffers[0].complete);
    assert_eq!(registry.delete_results(&id, &b, &mut accountant), Ok(()));
    assert_eq!(reserved(&accountant), 30);
    assert_eq!(
        registry.get_results(&id, &b, 2).err(),
        Some(WorkerError::NotFound(Missing::Buffer))
    );
}

#[test]
fn an_explicit_delete_needs_an_ended_task_without_buffers() {
    let (mut registry, mut accountant) = worker();
    let id = task("T1");
    let b = buffer("B1");
    registry.update_task(&id, plan(0, 30), false, 5, &mut accountant);
    registry.create_buffer(&id, &b).expect("known");
    assert_eq!(registry.remove_task(&id, &mut accountant), Ok(false));
    registry.cancel_task(&id, true, 6).expect("known");
    assert_eq!(registry.remove_task(&id, &mut accountant), Ok(false));
    assert!(registry.contains(&id));
    registry.delete_results(&id, &b, &mut accountant).expect("exists");
    assert_eq!(reserved(&accountant), 30);
    assert_eq!(registry.remove_task(&id, &mut accountant), Ok(true));
    assert!(!registry.contains(&id));
    assert_eq!(reserved(&accountant), 0);
    assert_eq!(registry.remove_task(&id, &mut accountant), Err(WorkerError::NotFound(Missing::Task)));
}

#[test]
fn an_identity_can_be_used_again_after_its_task_is_gone() {
    let (mut registry, mut accountant) = worker();
    let id = task("T1");
    registry.update_task(&id, plan(0, 30), false, 5, &mut accountant);
    registry.update_task(&id, splits(1, &[1]), false, 6, &mut accountant);
    registry.abort_task(&id, true, 7, &mut accountant).expect("known");
    assert_eq!(registry.remove_task(&id, &mut accountant), Ok(true));
    let again = registry.update_task(&id, splits(0, &[9]), false, 8, &mut accountant);
    assert_eq!(again.status.state, TaskState::Planned);
    assert_eq!(again.status.version, 1);
    assert_eq!(again.splits, Some(vec![Split { id: 9, size: 1 }]));
}

#[test]
fn eviction_removes_ended_tasks_after_the_retention_period() {
    let (mut registry, mut accountant) = worker();
    registry.update_task(&task("live"), plan(0, 10), false, 0, &mut accountant);
    registry.update_task(&task("old"), plan(0, 20), false, 0, &mut accountant);
    registry.update_task(&task("recent"), plan(0, 30), false, 0, &mut accountant);
    registry.update_task(&task("older"), plan(0, 35), false, 0, &mut accountant);
    registry.create_buffer(&task("old"), &buffer("B1")).expect("known");
    registry.enqueue(&task("old"), &buffer("B1"), vec![0; 5], &mut accountant).expect("room");
    registry.cancel_task(&task("old"), true, 100).expect("known");
    registry.cancel_task(&task("recent"), true, 600).expect("known");
    registry.fail_task(&task("older"), FailureCause::Execution, 50).expect("known");
    assert_eq!(reserved(&accountant), 100);

    assert_eq!(registry.evict_expired(1_049, &mut accountant), 0);
    assert_eq!(registry.len(), 4);

    assert_eq!(registry.evict_expired(1_100, &mut accountant), 2);
    assert_eq!(names(&registry), vec!["live", "recent"]);
    assert_eq!(reserved(&accountant), 40);
    assert!(!registry.contains(&task("old")));

    assert_eq!(registry.evict_expired(1_599, &mut accountant), 0);
    assert_eq!(registry.evict_expired(1_600, &mut accountant), 1);
    assert_eq!(names(&registry), vec!["live"]);
    assert_eq!(reserved(&accountant), 10);

    assert_eq!(registry.evict_expired(u64::MAX, &mut accountant), 0);
    assert_eq!(names(&registry), vec!["live"]);
}

#[test]
fn eviction_with_no_retention_takes_ended_tasks_at_once() {
    let mut accountant = MemoryPoolAccountant::new();
    accountant.add_pool(general(), 100, 0);
    let mut registry = TaskRegistry::new(0);
    registry.update_task(&task("T1"), plan(0, 10), false, 5, &mut accountant);
    registry.update_task(&task("T2"), plan(0, 10), false, 5, &mut accountant);
    registry.abort_task(&task("T2"), true, 9, &mut accountant).expect("known");
    assert_eq!(registry.evict_expired(8, &mut accountant), 0);
    assert_eq!(registry.evict_expired(9, &mut accountant), 1);
    assert_eq!(names(&registry), vec!["T1"]);
}

#[test]
fn the_report_on_all_tasks_can_be_summarized() {
    let (mut registry, mut accountant) = worker();
    registry.update_task(&task("T1"), splits(0, &[1, 2]), false, 5, &mut accountant);
    registry.update_task(&task("T2"), splits(0, &[3]), false, 6, &mut accountant);
    let full = registry.get_all_task_info(false);
    let summary = registry.get_all_task_info(true);
    assert_eq!(full.len(), 2);
    assert_eq!(summary.len(), 2);
    assert_eq!(full[0].splits.as_ref().map(|s| s.len()), Some(2));
    assert_eq!(full[1].splits, Some(vec![Split { id: 3, size: 1 }]));
    assert_eq!(summary[0].splits, None);
    assert_eq!(summary[1].splits, None);
    assert_eq!(summary[0].split_count, 2);
    assert_eq!(summary[1].status.identity.as_str(), "T2");
}
