use presto_oxidized::error::{Missing, WorkerError};
use presto_oxidized::ident::{PoolId, TaskIdentity};
use presto_oxidized::memory::MemoryPoolAccountant;

fn pool(name: &str) -> PoolId {
    PoolId::new(name.to_string())
}

fn task(name: &str) -> TaskIdentity {
    TaskIdentity::new(name.to_string())
}

fn accountant() -> MemoryPoolAccountant {
    let mut accountant = MemoryPoolAccountant::new();
    assert!(accountant.add_pool(pool("general"), 100, 40));
    assert!(accountant.add_pool(pool("reserved"), 10, 0));
    accountant
}

#[test]
fn a_new_accountant_has_no_pools() {
    let accountant = MemoryPoolAccountant::new();
    assert!(accountant.snapshot_all().is_empty());
    assert_eq!(
        accountant.snapshot(&pool("general")).err(),
        Some(WorkerError::NotFound(Missing::Pool))
    );
}

#[test]
fn a_pool_name_is_taken_once() {
    let mut accountant = accountant();
    assert!(!accountant.add_pool(pool("general"), 5, 5));
    let totals = accountant.snapshot(&pool("general")).expect("configured");
    assert_eq!(totals.limit, 100);
    assert_eq!(totals.soft_threshold, 40);
    assert_eq!(accountant.snapshot_all().len(), 2);
}

#[test]
fn reserve_commits_bytes_up_to_the_limit() {
    let mut accountant = accountant();
    let first = accountant.reserve(&task("T1"), &pool("general"), 60, false);
    assert!(first.is_ok());
    let second = accountant.reserve(&task("T2"), &pool("general"), 40, false);
    assert!(second.is_ok());
    assert_ne!(first, second);
    let totals = accountant.snapshot(&pool("general")).expect("configured");
    assert_eq!(totals.reserved, 100);
    assert_eq!(totals.free(), 0);
    assert_eq!(totals.revocable, 0);
}

#[test]
fn reserve_beyond_the_limit_is_refused_and_reserves_nothing() {
    let mut accountant = accountant();
    accountant.reserve(&task("T1"), &pool("general"), 60, false).expect("fits");
    let refused = accountant.reserve(&task("T2"), &pool("general"), 41, false);
    assert_eq!(refused, Err(WorkerError::PoolExhausted));
    let totals = accountant.snapshot(&pool("general")).expect("configured");
    assert_eq!(totals.reserved, 60);
    assert_eq!(totals.free(), 40);
    assert!(accountant.reserve(&task("T2"), &pool("general"), 40, false).is_ok());
}

#[test]
fn reserve_of_the_largest_size_does_not_wrap() {
    let mut accountant = accountant();
    accountant.reserve(&task("T1"), &pool("general"), 1, false).expect("fits");
    let refused = accountant.reserve(&task("T1"), &pool("general"), u64::MAX, false);
    assert_eq!(refused, Err(WorkerError::PoolExhausted));
    assert_eq!(accountant.snapshot(&pool("general")).expect("configured").reserved, 1);
}

#[test]
fn reserve_against_an_unknown_pool_is_not_found() {
    let mut accountant = accountant();
    let refused = accountant.reserve(&task("T1"), &pool("spill"), 1, false);
    assert_eq!(refused, Err(WorkerError::NotFound(Missing::Pool)));
    let revocable = accountant.reserve(&task("T1"), &pool("spill"), 1, true);
    assert_eq!(revocable, Err(WorkerError::NotFound(Missing::Pool)));
}

#[test]
fn pools_are_accounted_separately() {
    let mut accountant = accountant();
    accountant.reserve(&task("T1"), &pool("general"), 100, false).expect("fits");
    assert!(accountant.reserve(&task("T1"), &pool("reserved"), 10, false).is_ok());
    assert_eq!(
        accountant.reserve(&task("T1"), &pool("reserved"), 1, false),
        Err(WorkerError::PoolExhausted)
    );
    let all = accountant.snapshot_all();
    assert_eq!(all[0].id.as_str(), "general");
    assert_eq!(all[0].reserved, 100);
    assert_eq!(all[1].id.as_str(), "reserved");
    assert_eq!(all[1].reserved, 10);
}

#[test]
fn revocable_bytes_are_always_granted() {
    let mut accountant = accountant();
    accountant.reserve(&task("T1"), &pool("general"), 100, false).expect("fits");
    assert!(accountant.reserve(&task("T1"), &pool("general"), 1_000, true).is_ok());
    assert!(accountant.reserve(&task("T1"), &pool("general"), u64::MAX, true).is_ok());
    assert!(accountant.reserve(&task("T1"), &pool("general"), u64::MAX, true).is_ok());
    let totals = accountant.snapshot(&pool("general")).expect("configured");
    assert_eq!(totals.reserved, 100);
    assert_eq!(totals.revocable, 1_000u128 + 2 * (u64::MAX as u128));
}

#[test]
fn spilling_is_advised_once_the_soft_threshold_is_passed() {
    let mut accountant = accountant();
    assert!(!accountant.spill_advised(&pool("general")));
    let at = accountant.reserve(&task("T1"), &pool("general"), 40, true).expect("granted");
    assert!(!accountant.spill_advised(&pool("general")));
    assert!(!accountant.snapshot(&pool("general")).expect("configured").spill_advised);
    let over = accountant.reserve(&task("T1"), &pool("general"), 1, true).expect("granted");
    assert!(accountant.spill_advised(&pool("general")));
    assert!(accountant.snapshot(&pool("general")).expect("configured").spill_advised);
    assert_eq!(accountant.release(over), 1);
    assert!(!accountant.spill_advised(&pool("general")));
    assert_eq!(accountant.release(at), 40);
    assert!(!accountant.spill_advised(&pool("spill")));
}

#[test]
fn release_returns_the_bytes_once() {
    let mut accountant = accountant();
    let held = accountant.reserve(&task("T1"), &pool("general"), 70, false).expect("fits");
    let other = accountant.reserve(&task("T2"), &pool("general"), 30, false).expect("fits");
    assert_eq!(accountant.release(held), 70);
    assert_eq!(accountant.snapshot(&pool("general")).expect("configured").reserved, 30);
    assert_eq!(accountant.release(held), 0);
    assert_eq!(accountant.snapshot(&pool("general")).expect("configured").reserved, 30);
    assert_eq!(accountant.release(other), 30);
    assert_eq!(accountant.snapshot(&pool("general")).expect("configured").reserved, 0);
}

#[test]
fn released_bytes_can_be_reserved_again() {
    let mut accountant = accountant();
    let held = accountant.reserve(&task("T1"), &pool("general"), 100, false).expect("fits");
    assert_eq!(
        accountant.reserve(&task("T2"), &pool("general"), 1, false),
        Err(WorkerError::PoolExhausted)
    );
    accountant.release(held);
    let again = accountant.reserve(&task("T2"), &pool("general"), 100, false).expect("fits");
    assert_ne!(held, again);
    assert_eq!(accountant.release(held), 0);
    assert_eq!(accountant.snapshot(&pool("general")).expect("configured").reserved, 100);
}

#[test]
fn the_committed_total_never_passes_the_limit() {
    let mut accountant = accountant();
    let mut held = Vec::new();
    for size in [30u64, 50, 40, 20, 1, 100, 0, 19] {
        if let Ok(handle) = accountant.reserve(&task("T1"), &pool("general"), size, false) {
            held.push(handle);
        }
        let totals = accountant.snapshot(&pool("general")).expect("configured");
        assert!(totals.reserved <= totals.limit);
    }
    assert_eq!(accountant.snapshot(&pool("general")).expect("configured").reserved, 100);
    for handle in held {
        accountant.release(handle);
        let totals = accountant.snapshot(&pool("general")).expect("configured");
        assert!(totals.reserved <= totals.limit);
    }
    assert_eq!(accountant.snapshot(&pool("general")).expect("configured").reserved, 0);
}

#[test]
fn a_pool_without_room_grants_an_empty_reservation() {
    let mut accountant = accountant();
    accountant.reserve(&task("T1"), &pool("reserved"), 10, false).expect("fits");
    assert!(accountant.reserve(&task("T1"), &pool("reserved"), 0, false).is_ok());
}

#[test]
fn a_handle_leads_to_its_reservation_while_it_is_held() {
    let mut accountant = accountant();
    let fixed = accountant.reserve(&task("T1"), &pool("general"), 60, false).expect("fits");
    let loose = accountant.reserve(&task("T2"), &pool("reserved"), 7, true).expect("granted");
    let first = accountant.reservation(fixed).expect("held");
    assert_eq!(first.task.as_str(), "T1");
    assert_eq!(first.pool.as_str(), "general");
    assert_eq!((first.non_revocable_bytes, first.revocable_bytes), (60, 0));
    let second = accountant.reservation(loose).expect("held");
    assert_eq!(second.task.as_str(), "T2");
    assert_eq!(second.pool.as_str(), "reserved");
    assert_eq!((second.non_revocable_bytes, second.revocable_bytes), (0, 7));
    accountant.release(fixed);
    assert!(accountant.reservation(fixed).is_none());
    assert!(accountant.reservation(loose).is_some());
}
