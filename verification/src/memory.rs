//! The memory-pool accountant.
//!
//! A pool is a named budget of bytes. Tasks reserve bytes against a pool,
//! either non-revocably (counted against the pool's limit) or revocably
//! (always granted, but the pool advises spilling once their total passes a
//! soft threshold). Every reservation gets a handle, and releasing the handle
//! hands the bytes back.
//!
//! The model of the accountant is the list of its pools and the table of all
//! reservations ever granted, each marked active or released. What a pool has
//! committed is the sum over the active reservations against it.

use crate::error::{Missing, WorkerError};
use crate::ident::{PoolId, TaskIdentity};
use crate::names::{
    distinct,
    lemma_position_absent,
    lemma_position_found,
    lemma_position_stands,
    lemma_push_fresh,
    position,
};
use vstd::prelude::*;

verus! {

/// One row of the reservation table.
pub struct ReservationView {
    pub task: Seq<char>,
    pub pool: Seq<char>,
    pub bytes: nat,
    pub revocable: bool,
    pub active: bool,
}

impl ReservationView {
    /// The bytes that this reservation holds against `pool` in the given
    /// class (revocable or not): its size while it is active, nothing once it
    /// is released.
    pub open spec fn charge(self, pool: Seq<char>, revocable: bool) -> nat {
        if self.active && self.pool == pool && self.revocable == revocable {
            self.bytes
        } else {
            0
        }
    }

    /// The non-revocable part of the reserved bytes.
    pub open spec fn non_revocable_bytes(self) -> nat {
        if self.revocable {
            0
        } else {
            self.bytes
        }
    }

    /// The revocable part of the reserved bytes.
    pub open spec fn revocable_bytes(self) -> nat {
        if self.revocable {
            self.bytes
        } else {
            0
        }
    }

    /// The same reservation once it is released.
    pub open spec fn released(self) -> ReservationView {
        ReservationView { active: false, ..self }
    }
}

/// The configuration of one pool.
pub struct PoolView {
    pub id: Seq<char>,
    /// The most that non-revocable reservations may hold together.
    pub limit: nat,
    /// The revocable total above which the pool advises spilling.
    pub soft_threshold: nat,
}

/// The totals of one pool at one point in time.
pub struct PoolSnapshotView {
    pub id: Seq<char>,
    pub limit: nat,
    pub soft_threshold: nat,
    pub reserved: nat,
    pub revocable: nat,
    pub spill_advised: bool,
}

/// The sum of what the reservations of `rs` hold against `pool` in one class.
pub open spec fn total_charge(rs: Seq<ReservationView>, pool: Seq<char>, revocable: bool) -> nat
    decreases rs.len(),
{
    if rs.len() == 0 {
        0
    } else {
        total_charge(rs.drop_last(), pool, revocable) + rs.last().charge(pool, revocable)
    }
}

/// One more row adds its charge to the sum.
proof fn lemma_total_push(
    rs: Seq<ReservationView>,
    r: ReservationView,
    pool: Seq<char>,
    revocable: bool,
)
    ensures
        total_charge(rs.push(r), pool, revocable) == total_charge(rs, pool, revocable) + r.charge(
            pool,
            revocable,
        ),
{
    assert(rs.push(r).drop_last() =~= rs);
}

/// Replacing a row replaces its charge in the sum.
proof fn lemma_total_update(
    rs: Seq<ReservationView>,
    i: int,
    r: ReservationView,
    pool: Seq<char>,
    revocable: bool,
)
    requires
        0 <= i < rs.len(),
    ensures
        total_charge(rs.update(i, r), pool, revocable) + rs[i].charge(pool, revocable)
            == total_charge(rs, pool, revocable) + r.charge(pool, revocable),
    decreases rs.len(),
{
    if i == rs.len() - 1 {
        assert(rs.update(i, r).drop_last() =~= rs.drop_last());
    } else {
        lemma_total_update(rs.drop_last(), i, r, pool, revocable);
        assert(rs.update(i, r).drop_last() =~= rs.drop_last().update(i, r));
    }
}

/// The sum is at most the number of rows times the largest row.
proof fn lemma_total_bounded(
    rs: Seq<ReservationView>,
    pool: Seq<char>,
    revocable: bool,
    bound: nat,
)
    requires
        forall|i: int| 0 <= i < rs.len() ==> rs[i].bytes <= bound,
    ensures
        total_charge(rs, pool, revocable) <= rs.len() * bound,
    decreases rs.len(),
{
    if rs.len() > 0 {
        lemma_total_bounded(rs.drop_last(), pool, revocable, bound);
        assert((rs.len() - 1) * bound + bound == rs.len() * bound) by (nonlinear_arith);
    }
}

/// A pool that no active row names has nothing charged to it.
proof fn lemma_total_unused(rs: Seq<ReservationView>, pool: Seq<char>, revocable: bool)
    requires
        forall|i: int| 0 <= i < rs.len() && rs[i].active ==> rs[i].pool != pool,
    ensures
        total_charge(rs, pool, revocable) == 0,
    decreases rs.len(),
{
    if rs.len() > 0 {
        lemma_total_unused(rs.drop_last(), pool, revocable);
    }
}

/// The model of the accountant.
pub struct AccountantView {
    pub pools: Seq<PoolView>,
    pub reservations: Seq<ReservationView>,
}

impl AccountantView {
    pub open spec fn pool_names(self) -> Seq<Seq<char>> {
        Seq::new(self.pools.len(), |i: int| self.pools[i].id)
    }

    /// Where the pool named `pool` stands in the list, if it is configured.
    pub open spec fn pool_index(self, pool: Seq<char>) -> Option<int> {
        position(self.pool_names(), pool)
    }

    /// The non-revocable bytes that active reservations hold against `pool`.
    pub open spec fn committed(self, pool: Seq<char>) -> nat {
        total_charge(self.reservations, pool, false)
    }

    /// The revocable bytes that active reservations hold against `pool`.
    pub open spec fn revocable(self, pool: Seq<char>) -> nat {
        total_charge(self.reservations, pool, true)
    }

    /// No pool has more non-revocable bytes committed than its limit allows.
    pub open spec fn within_limits(self) -> bool {
        forall|i: int|
            0 <= i < self.pools.len() ==> self.committed(#[trigger] self.pools[i].id)
                <= self.pools[i].limit
    }

    /// Why a reservation of `bytes` against `pool` is refused, if it is: the
    /// pool is unknown, or the bytes are non-revocable and would take the
    /// pool past its limit.
    pub open spec fn refusal(self, pool: Seq<char>, bytes: nat, revocable: bool) -> Option<
        WorkerError,
    > {
        match self.pool_index(pool) {
            None => Some(WorkerError::NotFound(Missing::Pool)),
            Some(i) => if !revocable && self.committed(pool) + bytes > self.pools[i].limit {
                Some(WorkerError::PoolExhausted)
            } else {
                None
            },
        }
    }

    /// The accountant after it granted a reservation: the table has one more
    /// active row, and the handle of that row is its index.
    pub open spec fn reserve(self, task: Seq<char>, pool: Seq<char>, bytes: nat, revocable: bool) -> AccountantView {
        AccountantView {
            reservations: self.reservations.push(
                ReservationView { task, pool, bytes, revocable, active: true },
            ),
            ..self
        }
    }

    /// Whether `handle` denotes a reservation that is still active.
    pub open spec fn holds(self, handle: int) -> bool {
        0 <= handle < self.reservations.len() && self.reservations[handle].active
    }

    /// The accountant after `handle` was released. A handle that denotes no
    /// active reservation changes nothing.
    pub open spec fn release(self, handle: int) -> AccountantView {
        if self.holds(handle) {
            AccountantView {
                reservations: self.reservations.update(
                    handle,
                    self.reservations[handle].released(),
                ),
                ..self
            }
        } else {
            self
        }
    }

    /// The bytes that releasing `handle` returns to its pool.
    pub open spec fn freed_by(self, handle: int) -> nat {
        if self.holds(handle) {
            self.reservations[handle].bytes
        } else {
            0
        }
    }

    /// The bytes that releasing `handle` returns to `pool` in one class.
    pub open spec fn returned(self, handle: int, pool: Seq<char>, revocable: bool) -> nat {
        if self.holds(handle) {
            self.reservations[handle].charge(pool, revocable)
        } else {
            0
        }
    }

    /// The accountant after a pool was added. A name that is already taken
    /// changes nothing.
    pub open spec fn add_pool(self, id: Seq<char>, limit: nat, soft_threshold: nat) -> AccountantView {
        if self.pool_index(id) is Some {
            self
        } else {
            AccountantView { pools: self.pools.push(PoolView { id, limit, soft_threshold }), ..self }
        }
    }

    /// The totals of the pool at index `i`.
    pub open spec fn snapshot(self, i: int) -> PoolSnapshotView {
        let pool = self.pools[i];
        PoolSnapshotView {
            id: pool.id,
            limit: pool.limit,
            soft_threshold: pool.soft_threshold,
            reserved: self.committed(pool.id),
            revocable: self.revocable(pool.id),
            spill_advised: self.revocable(pool.id) > pool.soft_threshold,
        }
    }
}

/// Releasing a handle a second time changes nothing.
pub proof fn lemma_release_idempotent(a: AccountantView, handle: int)
    ensures
        a.release(handle).release(handle) == a.release(handle),
        a.release(handle).freed_by(handle) == 0,
{
}

/// A release returns the bytes of the reservation to its own pool and
/// class, and touches nothing else: what `pool` holds in a class drops by
/// exactly what the released reservation held against that pool in that
/// class, which is all its bytes for its own pool and class and nothing for
/// any other.
pub proof fn lemma_release_returns_bytes(
    a: AccountantView,
    handle: int,
    pool: Seq<char>,
    revocable: bool,
)
    ensures
        a.release(handle).committed(pool) + a.returned(handle, pool, false) == a.committed(pool),
        a.release(handle).revocable(pool) + a.returned(handle, pool, true) == a.revocable(pool),
        a.holds(handle) && a.reservations[handle].pool == pool && a.reservations[handle].revocable
            == revocable ==> a.returned(handle, pool, revocable) == a.freed_by(handle)
            && a.returned(handle, pool, !revocable) == 0,
        a.holds(handle) && a.reservations[handle].pool != pool ==> a.returned(handle, pool, revocable)
            == 0,
        !a.holds(handle) ==> a.returned(handle, pool, revocable) == 0,
{
    if a.holds(handle) {
        let r = a.reservations[handle];
        lemma_total_update(a.reservations, handle, r.released(), pool, false);
        lemma_total_update(a.reservations, handle, r.released(), pool, true);
    }
}

/// A non-revocable reservation is granted only within the limit: a granted
/// one raises what the pool has committed by exactly its bytes and leaves
/// every pool within its limit, and one that would pass the limit of a
/// configured pool is refused as `PoolExhausted`.
pub proof fn lemma_reserve_respects_limit(
    a: AccountantView,
    task: Seq<char>,
    pool: Seq<char>,
    bytes: nat,
)
    requires
        a.within_limits(),
        distinct(a.pool_names()),
    ensures
        a.refusal(pool, bytes, false) is None ==> {
            let b = a.reserve(task, pool, bytes, false);
            &&& b.within_limits()
            &&& b.committed(pool) == a.committed(pool) + bytes
        },
        a.pool_index(pool) matches Some(i) && a.committed(pool) + bytes > a.pools[i].limit
            ==> a.refusal(pool, bytes, false) == Some(WorkerError::PoolExhausted),
{
    if a.refusal(pool, bytes, false) is None {
        let b = a.reserve(task, pool, bytes, false);
        let row = ReservationView { task, pool, bytes, revocable: false, active: true };
        lemma_position_stands(a.pool_names(), pool);
        let i = a.pool_index(pool)->0;
        assert forall|j: int| 0 <= j < b.pools.len() implies b.committed(#[trigger] b.pools[j].id)
            <= b.pools[j].limit by {
            lemma_total_push(a.reservations, row, a.pools[j].id, false);
            assert(a.committed(a.pools[j].id) <= a.pools[j].limit);
            if a.pools[j].id == pool {
                assert(a.pool_names()[j] == pool);
                lemma_position_found(a.pool_names(), pool, j);
            }
        }
        lemma_total_push(a.reservations, row, pool, false);
    }
}

/// A reservation handle: the index of its row in the reservation table of
/// the accountant that granted it.
#[derive(Clone, Copy, Debug, PartialEq, Eq, Structural)]
pub struct ReservationHandle {
    index: usize,
}

impl View for ReservationHandle {
    type V = int;

    closed spec fn view(&self) -> int {
        self.index as int
    }
}

#[derive(Debug)]
struct MemoryPool {
    id: PoolId,
    limit: u64,
    soft_threshold: u64,
    committed: u64,
    revocable: u128,
}

#[derive(Debug)]
struct Reservation {
    task: TaskIdentity,
    pool: PoolId,
    bytes: u64,
    revocable: bool,
    active: bool,
}

impl MemoryPool {
    spec fn model(self) -> PoolView {
        PoolView {
            id: self.id@,
            limit: self.limit as nat,
            soft_threshold: self.soft_threshold as nat,
        }
    }
}

impl Reservation {
    spec fn model(self) -> ReservationView {
        ReservationView {
            task: self.task@,
            pool: self.pool@,
            bytes: self.bytes as nat,
            revocable: self.revocable,
            active: self.active,
        }
    }
}

/// A reservation that a task holds: who owns it, against which pool, and how
/// many bytes of each class.
#[derive(Debug)]
pub struct MemoryReservation {
    pub task: TaskIdentity,
    pub pool: PoolId,
    pub non_revocable_bytes: u64,
    pub revocable_bytes: u64,
}

/// The totals of one pool, as reported for status and info requests.
#[derive(Debug)]
pub struct PoolSnapshot {
    pub id: PoolId,
    pub limit: u64,
    pub soft_threshold: u64,
    pub reserved: u64,
    pub revocable: u128,
    pub spill_advised: bool,
}

impl View for PoolSnapshot {
    type V = PoolSnapshotView;

    open spec fn view(&self) -> PoolSnapshotView {
        PoolSnapshotView {
            id: self.id@,
            limit: self.limit as nat,
            soft_threshold: self.soft_threshold as nat,
            reserved: self.reserved as nat,
            revocable: self.revocable as nat,
            spill_advised: self.spill_advised,
        }
    }
}

impl PoolSnapshot {
    /// The non-revocable bytes that the pool can still grant.
    pub fn free(&self) -> (bytes: u64)
        ensures
            bytes == if self.reserved <= self.limit {
                self.limit - self.reserved
            } else {
                0
            },
    {
        if self.reserved <= self.limit {
            self.limit - self.reserved
        } else {
            0
        }
    }
}

/// Tracks the reservations of all tasks against the configured pools.
#[derive(Debug)]
pub struct MemoryPoolAccountant {
    pools: Vec<MemoryPool>,
    reservations: Vec<Reservation>,
}

impl View for MemoryPoolAccountant {
    type V = AccountantView;

    closed spec fn view(&self) -> AccountantView {
        AccountantView {
            pools: Seq::new(self.pools@.len(), |i: int| self.pools@[i].model()),
            reservations: Seq::new(self.reservations@.len(), |i: int| self.reservations@[i].model()),
        }
    }
}

impl MemoryPoolAccountant {
    /// The accountant's invariant: pool names are unique, and the totals kept
    /// with each pool are the sums over the active reservations against it,
    /// the non-revocable one within the pool's limit.
    pub closed spec fn wf(&self) -> bool {
        &&& distinct(self@.pool_names())
        &&& forall|i: int|
            0 <= i < self.pools@.len() ==> {
                &&& (#[trigger] self.pools@[i]).committed == self@.committed(self.pools@[i].id@)
                &&& self.pools@[i].revocable == self@.revocable(self.pools@[i].id@)
                &&& self.pools@[i].committed <= self.pools@[i].limit
            }
        &&& forall|h: int|
            0 <= h < self.reservations@.len() && (#[trigger] self.reservations@[h]).active
                ==> self@.pool_index(self.reservations@[h].pool@) is Some
    }

    /// In every accountant that the operations below produce, the active
    /// non-revocable reservations against a pool sum to no more than the
    /// pool's limit.
    pub proof fn lemma_within_limits(&self)
        requires
            self.wf(),
        ensures
            self@.within_limits(),
            distinct(self@.pool_names()),
    {
        assert forall|i: int| 0 <= i < self@.pools.len() implies self@.committed(
            #[trigger] self@.pools[i].id,
        ) <= self@.pools[i].limit by {
            assert(self.pools@[i].committed <= self.pools@[i].limit);
        }
    }

    /// An accountant without pools or reservations.
    pub fn new() -> (a: Self)
        ensures
            a.wf(),
            a@.pools.len() == 0,
            a@.reservations.len() == 0,
    {
        MemoryPoolAccountant { pools: Vec::new(), reservations: Vec::new() }
    }

    fn find_pool(&self, pool: &PoolId) -> (found: Option<usize>)
        requires
            distinct(self@.pool_names()),
        ensures
            match found {
                Some(i) => self@.pool_index(pool@) == Some(i as int) && i < self.pools@.len(),
                None => self@.pool_index(pool@) is None,
            },
    {
        let mut i: usize = 0;
        while i < self.pools.len()
            invariant
                i <= self.pools@.len(),
                distinct(self@.pool_names()),
                forall|j: int| 0 <= j < i ==> self@.pool_names()[j] != pool@,
            decreases self.pools@.len() - i,
        {
            if self.pools[i].id.same(pool) {
                proof {
                    assert(self@.pool_names()[i as int] == pool@);
                    lemma_position_found(self@.pool_names(), pool@, i as int);
                }
                return Some(i);
            }
            i = i + 1;
        }
        proof {
            lemma_position_absent(self@.pool_names(), pool@);
        }
        None
    }

    /// Adds a pool with the given limit on non-revocable bytes and soft
    /// threshold on revocable ones. Returns `false`, and changes nothing,
    /// when a pool of that name exists.
    pub fn add_pool(&mut self, id: PoolId, limit: u64, soft_threshold: u64) -> (added: bool)
        requires
            old(self).wf(),
        ensures
            final(self).wf(),
            added == (old(self)@.pool_index(id@) is None),
            final(self)@ == old(self)@.add_pool(id@, limit as nat, soft_threshold as nat),
            final(self)@.pool_index(id@) is Some,
    {
        if self.find_pool(&id).is_some() {
            return false;
        }
        let ghost before = self@;
        let ghost name = id@;
        self.pools.push(MemoryPool { id, limit, soft_threshold, committed: 0, revocable: 0 });
        proof {
            lemma_push_fresh(before.pool_names(), name);
            assert(self@.pool_names() =~= before.pool_names().push(name));
            assert(self@.pools =~= before.pools.push(
                PoolView { id: name, limit: limit as nat, soft_threshold: soft_threshold as nat },
            ));
            assert(self@.reservations =~= before.reservations);
            assert forall|h: int| 0 <= h < before.reservations.len() && before.reservations[h].active
                implies before.reservations[h].pool != name by {
                assert(old(self).reservations@[h].model().active);
            }
            lemma_total_unused(before.reservations, name, false);
            lemma_total_unused(before.reservations, name, true);
            assert forall|i: int| 0 <= i < self.pools@.len() implies {
                &&& (#[trigger] self.pools@[i]).committed == self@.committed(self.pools@[i].id@)
                &&& self.pools@[i].revocable == self@.revocable(self.pools@[i].id@)
                &&& self.pools@[i].committed <= self.pools@[i].limit
            } by {
                if i < before.pools.len() {
                    assert(self.pools@[i] == old(self).pools@[i]);
                }
            }
            assert forall|h: int|
                0 <= h < self.reservations@.len() && (#[trigger] self.reservations@[h]).active
                implies self@.pool_index(self.reservations@[h].pool@) is Some by {
                assert(old(self).reservations@[h].active);
                assert(old(self)@.pool_index(old(self).reservations@[h].pool@) is Some);
            }
        }
        true
    }

    /// Reserves `bytes` for `task` against `pool`.
    ///
    /// Non-revocable bytes are granted only while the pool's committed total
    /// stays within its limit; otherwise the call fails with `PoolExhausted`
    /// and reserves nothing. Revocable bytes are always granted. An unknown
    /// pool is `NotFound`, and nothing is reserved either.
    pub fn reserve(
        &mut self,
        task: &TaskIdentity,
        pool: &PoolId,
        bytes: u64,
        revocable: bool,
    ) -> (granted: Result<ReservationHandle, WorkerError>)
        requires
            old(self).wf(),
        ensures
            final(self).wf(),
            match old(self)@.refusal(pool@, bytes as nat, revocable) {
                Some(e) => granted == Err::<ReservationHandle, WorkerError>(e) && final(self)@ == old(
                    self,
                )@,
                None => {
                    &&& granted matches Ok(handle)
                    &&& handle@ == old(self)@.reservations.len()
                    &&& final(self)@ == old(self)@.reserve(task@, pool@, bytes as nat, revocable)
                },
            },
    {
        let ghost before = self@;
        let i = match self.find_pool(pool) {
            Some(i) => i,
            None => {
                return Err(WorkerError::NotFound(Missing::Pool));
            },
        };
        assert(self.pools@[i as int].committed == before.committed(pool@)) by {
            lemma_position_stands(before.pool_names(), pool@);
        }
        let index = self.reservations.len();
        if revocable {
            proof {
                assert(before.reservations.len() == index);
                lemma_total_bounded(before.reservations, pool@, true, u64::MAX as nat);
                assert(before.reservations.len() * (u64::MAX as nat) <= u64::MAX * u64::MAX)
                    by (nonlinear_arith)
                    requires
                        before.reservations.len() <= u64::MAX,
                ;
            }
            let total: u128 = self.pools[i].revocable + bytes as u128;
            self.pools[i].revocable = total;
        } else {
            if bytes > self.pools[i].limit - self.pools[i].committed {
                return Err(WorkerError::PoolExhausted);
            }
            let total: u64 = self.pools[i].committed + bytes;
            self.pools[i].committed = total;
        }
        self.reservations.push(
            Reservation { task: task.clone(), pool: pool.clone(), bytes, revocable, active: true },
        );
        proof {
            let row = ReservationView {
                task: task@,
                pool: pool@,
                bytes: bytes as nat,
                revocable,
                active: true,
            };
            let after = before.reserve(task@, pool@, bytes as nat, revocable);
            assert(self@.pools =~= before.pools);
            assert(self@.reservations =~= after.reservations);
            assert(self@.pool_names() =~= before.pool_names());
            lemma_position_stands(before.pool_names(), pool@);
            assert forall|j: int| 0 <= j < self.pools@.len() implies {
                &&& (#[trigger] self.pools@[j]).committed == self@.committed(self.pools@[j].id@)
                &&& self.pools@[j].revocable == self@.revocable(self.pools@[j].id@)
                &&& self.pools@[j].committed <= self.pools@[j].limit
            } by {
                let name = self.pools@[j].id@;
                assert(name == old(self).pools@[j].id@);
                assert(name == before.pool_names()[j]);
                lemma_total_push(before.reservations, row, name, false);
                lemma_total_push(before.reservations, row, name, true);
                if j != i {
                    assert(self.pools@[j] == old(self).pools@[j]);
                    if name == pool@ {
                        lemma_position_found(before.pool_names(), pool@, j);
                    }
                }
            }
            assert forall|h: int|
                0 <= h < self.reservations@.len() && (#[trigger] self.reservations@[h]).active
                implies self@.pool_index(self.reservations@[h].pool@) is Some by {
                if h < before.reservations.len() {
                    assert(old(self).reservations@[h].active);
                }
            }
        }
        Ok(ReservationHandle { index })
    }

    /// Returns the bytes of the reservation behind `handle` to its pool, and
    /// says how many they were. Releasing a handle again, or one that was
    /// never granted, changes nothing and returns 0.
    pub fn release(&mut self, handle: ReservationHandle) -> (freed: u64)
        requires
            old(self).wf(),
        ensures
            final(self).wf(),
            final(self)@ == old(self)@.release(handle@),
            freed == old(self)@.freed_by(handle@),
    {
        let ghost before = self@;
        let h = handle.index;
        if h >= self.reservations.len() || !self.reservations[h].active {
            return 0;
        }
        let bytes = self.reservations[h].bytes;
        let revocable = self.reservations[h].revocable;
        let ghost row = before.reservations[h as int];
        assert(row == old(self).reservations@[h as int].model());
        let found = self.find_pool(&self.reservations[h].pool);
        proof {
            assert(old(self).reservations@[h as int].active);
            lemma_total_update(before.reservations, h as int, row.released(), row.pool, false);
            lemma_total_update(before.reservations, h as int, row.released(), row.pool, true);
            lemma_position_stands(before.pool_names(), row.pool);
        }
        match found {
            Some(i) => {
                if revocable {
                    let total: u128 = self.pools[i].revocable - bytes as u128;
                    self.pools[i].revocable = total;
                } else {
                    let total: u64 = self.pools[i].committed - bytes;
                    self.pools[i].committed = total;
                }
            },
            None => {},
        }
        self.reservations[h].active = false;
        proof {
            let after = before.release(handle@);
            assert(self@.pools =~= before.pools);
            assert(self.reservations@[h as int].model() == row.released());
            assert(self@.reservations =~= after.reservations);
            assert(self@.pool_names() =~= before.pool_names());
            assert forall|j: int| 0 <= j < self.pools@.len() implies {
                &&& (#[trigger] self.pools@[j]).committed == self@.committed(self.pools@[j].id@)
                &&& self.pools@[j].revocable == self@.revocable(self.pools@[j].id@)
                &&& self.pools@[j].committed <= self.pools@[j].limit
            } by {
                let name = self.pools@[j].id@;
                assert(name == old(self).pools@[j].id@);
                assert(name == before.pool_names()[j]);
                lemma_total_update(before.reservations, h as int, row.released(), name, false);
                lemma_total_update(before.reservations, h as int, row.released(), name, true);
                if found != Some(j as usize) {
                    assert(self.pools@[j] == old(self).pools@[j]);
                    if name == row.pool {
                        lemma_position_found(before.pool_names(), row.pool, j);
                    }
                }
            }
            assert forall|k: int|
                0 <= k < self.reservations@.len() && (#[trigger] self.reservations@[k]).active
                implies self@.pool_index(self.reservations@[k].pool@) is Some by {
                assert(k != h);
                assert(self.reservations@[k] == old(self).reservations@[k]);
            }
        }
        bytes
    }

    /// The reservation behind `handle`, while it is active.
    pub fn reservation(&self, handle: ReservationHandle) -> (held: Option<MemoryReservation>)
        requires
            self.wf(),
        ensures
            match held {
                Some(r) => {
                    let row = self@.reservations[handle@];
                    &&& self@.holds(handle@)
                    &&& r.task@ == row.task
                    &&& r.pool@ == row.pool
                    &&& r.non_revocable_bytes == row.non_revocable_bytes()
                    &&& r.revocable_bytes == row.revocable_bytes()
                },
                None => !self@.holds(handle@),
            },
    {
        let h = handle.index;
        if h >= self.reservations.len() || !self.reservations[h].active {
            return None;
        }
        let row = &self.reservations[h];
        assert(self@.reservations[h as int] == row.model());
        Some(
            MemoryReservation {
                task: row.task.clone(),
                pool: row.pool.clone(),
                non_revocable_bytes: if row.revocable {
                    0
                } else {
                    row.bytes
                },
                revocable_bytes: if row.revocable {
                    row.bytes
                } else {
                    0
                },
            },
        )
    }

    /// The totals of the pool named `pool`.
    pub fn snapshot(&self, pool: &PoolId) -> (totals: Result<PoolSnapshot, WorkerError>)
        requires
            self.wf(),
        ensures
            match self@.pool_index(pool@) {
                Some(i) => totals matches Ok(s) && s@ == self@.snapshot(i),
                None => totals == Err::<PoolSnapshot, WorkerError>(
                    WorkerError::NotFound(Missing::Pool),
                ),
            },
    {
        match self.find_pool(pool) {
            Some(i) => Ok(self.snapshot_at(i)),
            None => Err(WorkerError::NotFound(Missing::Pool)),
        }
    }

    fn snapshot_at(&self, i: usize) -> (s: PoolSnapshot)
        requires
            self.wf(),
            i < self@.pools.len(),
        ensures
            s@ == self@.snapshot(i as int),
    {
        let pool = &self.pools[i];
        PoolSnapshot {
            id: pool.id.clone(),
            limit: pool.limit,
            soft_threshold: pool.soft_threshold,
            reserved: pool.committed,
            revocable: pool.revocable,
            spill_advised: pool.revocable > pool.soft_threshold as u128,
        }
    }

    /// The totals of every pool, in the order in which the pools were added.
    pub fn snapshot_all(&self) -> (totals: Vec<PoolSnapshot>)
        requires
            self.wf(),
        ensures
            totals@.len() == self@.pools.len(),
            forall|i: int| 0 <= i < totals@.len() ==> (#[trigger] totals@[i])@ == self@.snapshot(i),
    {
        let mut totals: Vec<PoolSnapshot> = Vec::new();
        let mut i: usize = 0;
        while i < self.pools.len()
            invariant
                self.wf(),
                i <= self.pools@.len(),
                self.pools@.len() == self@.pools.len(),
                totals@.len() == i,
                forall|j: int| 0 <= j < i ==> (#[trigger] totals@[j])@ == self@.snapshot(j),
            decreases self.pools@.len() - i,
        {
            totals.push(self.snapshot_at(i));
            i = i + 1;
        }
        totals
    }

    /// Whether the revocable reservations against `pool` have passed its soft
    /// threshold, so that holders of revocable memory should spill.
    pub fn spill_advised(&self, pool: &PoolId) -> (advised: bool)
        requires
            self.wf(),
        ensures
            advised == match self@.pool_index(pool@) {
                Some(i) => self@.snapshot(i).spill_advised,
                None => false,
            },
    {
        match self.find_pool(pool) {
            Some(i) => self.pools[i].revocable > self.pools[i].soft_threshold as u128,
            None => false,
        }
    }
}

} // verus!
