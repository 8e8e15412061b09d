//! Capacity-bounded pools (rooms, book copies) and the allocations held
//! against them. A pool's `used` counter and the status of its allocations
//! change together: `used` is always the number of active allocations on
//! the pool, and never exceeds the pool's capacity.
use vstd::prelude::*;

use crate::amount::{fine, fine_of};
use crate::error::LedgerError;

verus! {

/// Lifecycle of an allocation: `Active` until released, then terminal.
#[derive(PartialEq, Eq, Structural, Clone, Copy, Debug)]
pub enum AllocationStatus {
    /// The unit is held (a room is occupied, a book is issued).
    Active,
    /// The unit was given back on time, or had no due instant.
    Released,
    /// The unit was given back after its due instant.
    ReleasedWithFine,
}

impl AllocationStatus {
    pub open spec fn is_terminal(self) -> bool {
        self != AllocationStatus::Active
    }
}

/// A capacity-bounded resource owned by one tenant.
pub struct Pool {
    pub id: usize,
    pub tenant: String,
    pub label: String,
    pub capacity: u64,
    pub used: u64,
}

/// One unit claimed by a subject against a pool.
pub struct Allocation {
    pub id: usize,
    pub pool: usize,
    pub subject: String,
    pub tenant: String,
    pub status: AllocationStatus,
    pub created_at: i64,
    pub due_at: Option<i64>,
    pub closed_at: Option<i64>,
    pub fine: u128,
}

impl Pool {
    /// Units not in use.
    pub fn free(&self) -> (r: u64)
        ensures
            self.used <= self.capacity ==> r == self.capacity - self.used,
            self.used > self.capacity ==> r == 0,
    {
        if self.used <= self.capacity {
            self.capacity - self.used
        } else {
            0
        }
    }

    /// A field-by-field copy.
    pub fn duplicate(&self) -> (r: Pool)
        ensures
            r == *self,
    {
        Pool {
            id: self.id,
            tenant: self.tenant.clone(),
            label: self.label.clone(),
            capacity: self.capacity,
            used: self.used,
        }
    }
}

impl Allocation {
    /// A field-by-field copy.
    pub fn duplicate(&self) -> (r: Allocation)
        ensures
            r == *self,
    {
        Allocation {
            id: self.id,
            pool: self.pool,
            subject: self.subject.clone(),
            tenant: self.tenant.clone(),
            status: self.status,
            created_at: self.created_at,
            due_at: self.due_at,
            closed_at: self.closed_at,
            fine: self.fine,
        }
    }
}

/// 1 when `a` is an active allocation on pool `pool`, else 0.
pub open spec fn holds_unit(a: Allocation, pool: int) -> nat {
    if a.pool == pool && a.status == AllocationStatus::Active {
        1
    } else {
        0
    }
}

/// Number of active allocations on pool `pool` in `allocs`.
pub open spec fn active_on(allocs: Seq<Allocation>, pool: int) -> nat
    decreases allocs.len(),
{
    if allocs.len() == 0 {
        0
    } else {
        active_on(allocs.drop_last(), pool) + holds_unit(allocs.last(), pool)
    }
}

proof fn lemma_active_on_push(allocs: Seq<Allocation>, a: Allocation, pool: int)
    ensures
        active_on(allocs.push(a), pool) == active_on(allocs, pool) + holds_unit(a, pool),
{
    assert(allocs.push(a).drop_last() =~= allocs);
}

proof fn lemma_active_on_update(allocs: Seq<Allocation>, k: int, a: Allocation, pool: int)
    requires
        0 <= k < allocs.len(),
    ensures
        active_on(allocs.update(k, a), pool) + holds_unit(allocs[k], pool)
            == active_on(allocs, pool) + holds_unit(a, pool),
    decreases allocs.len(),
{
    let u = allocs.update(k, a);
    if k == allocs.len() - 1 {
        assert(u.drop_last() =~= allocs.drop_last());
    } else {
        lemma_active_on_update(allocs.drop_last(), k, a, pool);
        assert(u.drop_last() =~= allocs.drop_last().update(k, a));
    }
}

proof fn lemma_active_on_absent(allocs: Seq<Allocation>, pool: int)
    requires
        forall|j: int| 0 <= j < allocs.len() ==> #[trigger] allocs[j].pool != pool,
    ensures
        active_on(allocs, pool) == 0,
    decreases allocs.len(),
{
    if allocs.len() > 0 {
        let rest = allocs.drop_last();
        assert forall|j: int| 0 <= j < rest.len() implies #[trigger] rest[j].pool != pool by {
            assert(rest[j] == allocs[j]);
        }
        lemma_active_on_absent(rest, pool);
        assert(allocs[allocs.len() - 1].pool != pool);
    }
}

/// Status that a release at `now` gives an allocation due at `due`.
pub open spec fn closing_status(due: Option<i64>, now: i64) -> AllocationStatus {
    match due {
        Some(d) => if now > d {
            AllocationStatus::ReleasedWithFine
        } else {
            AllocationStatus::Released
        },
        None => AllocationStatus::Released,
    }
}

/// Fine that a release at `now` charges an allocation due at `due`.
pub open spec fn closing_fine(due: Option<i64>, now: i64, rate: nat) -> int {
    match due {
        Some(d) => fine_of(d as int, now as int, rate as int),
        None => 0,
    }
}

/// A fresh active allocation with the given fields.
pub open spec fn is_fresh_allocation(
    a: Allocation,
    id: int,
    pool: int,
    subject: Seq<char>,
    tenant: Seq<char>,
    now: i64,
    due: Option<i64>,
) -> bool {
    &&& a.id == id
    &&& a.pool == pool
    &&& a.subject@ == subject
    &&& a.tenant@ == tenant
    &&& a.status == AllocationStatus::Active
    &&& a.created_at == now
    &&& a.due_at == due
    &&& a.closed_at is None
    &&& a.fine == 0
}

/// Pools and their allocations, identified by their position in the ledger.
pub struct Allocator {
    pools: Vec<Pool>,
    allocations: Vec<Allocation>,
    fine_rate: u64,
}

spec fn pool_wf(p: Pool, i: int, allocs: Seq<Allocation>) -> bool {
    &&& p.id == i
    &&& 1 <= p.capacity
    &&& p.used <= p.capacity
    &&& p.used == active_on(allocs, i)
}

spec fn allocation_wf(a: Allocation, j: int, pools: Seq<Pool>) -> bool {
    &&& a.id == j
    &&& a.pool < pools.len()
    &&& a.tenant@ == pools[a.pool as int].tenant@
}

impl Allocator {
    /// The pools, in order of registration; a pool's id is its position.
    pub closed spec fn pools(&self) -> Seq<Pool> {
        self.pools@
    }

    /// The allocations, in order of creation; an allocation's id is its position.
    pub closed spec fn allocations(&self) -> Seq<Allocation> {
        self.allocations@
    }

    /// Fine charged per whole overdue day on release.
    pub closed spec fn fine_rate(&self) -> nat {
        self.fine_rate as nat
    }

    /// Every pool's counter equals its number of active allocations and stays
    /// within capacity; every allocation names a pool of its own tenant.
    pub closed spec fn wf(&self) -> bool {
        &&& forall|i: int|
            0 <= i < self.pools@.len() ==> pool_wf(#[trigger] self.pools@[i], i, self.allocations@)
        &&& forall|j: int|
            0 <= j < self.allocations@.len() ==> allocation_wf(
                #[trigger] self.allocations@[j],
                j,
                self.pools@,
            )
    }

    /// Pool `id` exists and belongs to `tenant`.
    pub open spec fn pool_visible(&self, id: usize, tenant: Seq<char>) -> bool {
        id < self.pools().len() && self.pools()[id as int].tenant@ == tenant
    }

    /// Allocation `id` exists and belongs to `tenant`.
    pub open spec fn allocation_visible(&self, id: usize, tenant: Seq<char>) -> bool {
        id < self.allocations().len() && self.allocations()[id as int].tenant@ == tenant
    }

    /// `subject` holds an active allocation on pool `pool`.
    pub open spec fn holds_active(&self, pool: usize, subject: Seq<char>) -> bool {
        exists|j: int|
            0 <= j < self.allocations().len() && #[trigger] self.allocations()[j].pool == pool
                && self.allocations()[j].subject@ == subject && self.allocations()[j].status
                == AllocationStatus::Active
    }

    /// What `allocate` does, for every outcome.
    pub open spec fn allocate_post(
        old: Allocator,
        new: Allocator,
        pool: usize,
        subject: Seq<char>,
        tenant: Seq<char>,
        now: i64,
        due: Option<i64>,
        r: Result<usize, LedgerError>,
    ) -> bool {
        if !old.pool_visible(pool, tenant) {
            r == Err::<usize, LedgerError>(LedgerError::NotFound) && new == old
        } else if old.pools()[pool as int].used == old.pools()[pool as int].capacity {
            r == Err::<usize, LedgerError>(LedgerError::CapacityExceeded) && new == old
        } else if old.holds_active(pool, subject) {
            r == Err::<usize, LedgerError>(LedgerError::DuplicateAllocation) && new == old
        } else {
            let p = old.pools()[pool as int];
            let id = old.allocations().len();
            &&& r == Ok::<usize, LedgerError>(id as usize)
            &&& new.fine_rate() == old.fine_rate()
            &&& new.pools() == old.pools().update(pool as int, (Pool { used: (p.used + 1) as u64, ..p }))
            &&& new.allocations().len() == id + 1
            &&& new.allocations().drop_last() == old.allocations()
            &&& is_fresh_allocation(new.allocations().last(), id as int, pool as int, subject, tenant, now, due)
        }
    }

    /// What `release` does, for every outcome.
    pub open spec fn release_post(
        old: Allocator,
        new: Allocator,
        id: usize,
        tenant: Seq<char>,
        now: i64,
        r: Result<AllocationStatus, LedgerError>,
    ) -> bool {
        if !old.allocation_visible(id, tenant) {
            r == Err::<AllocationStatus, LedgerError>(LedgerError::NotFound) && new == old
        } else if old.allocations()[id as int].status.is_terminal() {
            r == Ok::<AllocationStatus, LedgerError>(old.allocations()[id as int].status) && new == old
        } else {
            let a = old.allocations()[id as int];
            let p = old.pools()[a.pool as int];
            let status = closing_status(a.due_at, now);
            &&& r == Ok::<AllocationStatus, LedgerError>(status)
            &&& new.fine_rate() == old.fine_rate()
            &&& new.pools() == old.pools().update(a.pool as int, (Pool { used: (p.used - 1) as u64, ..p }))
            &&& new.allocations() == old.allocations().update(
                id as int,
                (Allocation {
                    status,
                    closed_at: Some(now),
                    fine: closing_fine(a.due_at, now, old.fine_rate()) as u128,
                    ..a
                }),
            )
        }
    }

    /// An empty ledger that charges `fine_rate` per whole overdue day.
    pub fn new(fine_rate: u64) -> (r: Allocator)
        ensures
            r.wf(),
            r.pools().len() == 0,
            r.allocations().len() == 0,
            r.fine_rate() == fine_rate,
    {
        Allocator { pools: Vec::new(), allocations: Vec::new(), fine_rate }
    }

    /// Registers a pool of `capacity` units owned by `tenant`, with no unit in use.
    pub fn register_pool(&mut self, tenant: &String, label: &String, capacity: u64) -> (r: Result<
        usize,
        LedgerError,
    >)
        requires
            old(self).wf(),
        ensures
            final(self).wf(),
            capacity == 0 ==> r == Err::<usize, LedgerError>(LedgerError::Validation) && *final(self)
                == *old(self),
            capacity > 0 ==> {
                let id = old(self).pools().len();
                &&& r == Ok::<usize, LedgerError>(id as usize)
                &&& final(self).pools().len() == id + 1
                &&& final(self).pools().drop_last() == old(self).pools()
                &&& final(self).pools().last().id == id
                &&& final(self).pools().last().tenant@ == tenant@
                &&& final(self).pools().last().label@ == label@
                &&& final(self).pools().last().capacity == capacity
                &&& final(self).pools().last().used == 0
                &&& final(self).allocations() == old(self).allocations()
                &&& final(self).fine_rate() == old(self).fine_rate()
            },
    {
        if capacity == 0 {
            return Err(LedgerError::Validation);
        }
        let id = self.pools.len();
        let p = Pool { id, tenant: tenant.clone(), label: label.clone(), capacity, used: 0 };
        self.pools.push(p);
        proof {
            let allocs = self.allocations@;
            lemma_active_on_absent(allocs, id as int);
            assert forall|i: int| 0 <= i < self.pools@.len() implies pool_wf(
                #[trigger] self.pools@[i],
                i,
                allocs,
            ) by {
                if i < id {
                    assert(self.pools@[i] == old(self).pools@[i]);
                }
            }
            assert forall|j: int| 0 <= j < allocs.len() implies allocation_wf(
                #[trigger] allocs[j],
                j,
                self.pools@,
            ) by {
                assert(allocation_wf(allocs[j], j, old(self).pools@));
            }
            assert(self.pools@.drop_last() =~= old(self).pools@);
        }
        Ok(id)
    }

    /// Whether `subject` holds an active allocation on pool `pool`.
    fn find_active(&self, pool: usize, subject: &String) -> (r: bool)
        ensures
            r == self.holds_active(pool, subject@),
    {
        let mut j: usize = 0;
        while j < self.allocations.len()
            invariant
                j <= self.allocations@.len(),
                forall|k: int|
                    0 <= k < j ==> !(#[trigger] self.allocations@[k].pool == pool
                        && self.allocations@[k].subject@ == subject@
                        && self.allocations@[k].status == AllocationStatus::Active),
            decreases self.allocations@.len() - j,
        {
            let a = &self.allocations[j];
            if a.pool == pool && a.subject == *subject && a.status == AllocationStatus::Active {
                return true;
            }
            j = j + 1;
        }
        false
    }

    /// Claims one unit of pool `pool` for `subject`, on behalf of `tenant`, at
    /// `now`, optionally due back at `due`. The counter increment and the new
    /// allocation take effect together, or neither does.
    pub fn allocate(
        &mut self,
        pool: usize,
        subject: &String,
        tenant: &String,
        now: i64,
        due: Option<i64>,
    ) -> (r: Result<usize, LedgerError>)
        requires
            old(self).wf(),
        ensures
            final(self).wf(),
            Allocator::allocate_post(*old(self), *final(self), pool, subject@, tenant@, now, due, r),
    {
        if pool >= self.pools.len() || !(self.pools[pool].tenant == *tenant) {
            return Err(LedgerError::NotFound);
        }
        if self.pools[pool].used >= self.pools[pool].capacity {
            return Err(LedgerError::CapacityExceeded);
        }
        if self.find_active(pool, subject) {
            return Err(LedgerError::DuplicateAllocation);
        }
        let ghost old_pools = self.pools@;
        let ghost old_allocs = self.allocations@;
        let p = &self.pools[pool];
        let np = Pool {
            id: p.id,
            tenant: p.tenant.clone(),
            label: p.label.clone(),
            capacity: p.capacity,
            used: p.used + 1,
        };
        self.pools.set(pool, np);
        let id = self.allocations.len();
        let a = Allocation {
            id,
            pool,
            subject: subject.clone(),
            tenant: tenant.clone(),
            status: AllocationStatus::Active,
            created_at: now,
            due_at: due,
            closed_at: None,
            fine: 0,
        };
        self.allocations.push(a);
        proof {
            assert(self.pools@ =~= old_pools.update(
                pool as int,
                (Pool { used: (old_pools[pool as int].used + 1) as u64, ..old_pools[pool as int] }),
            ));
            assert forall|i: int| 0 <= i < self.pools@.len() implies pool_wf(
                #[trigger] self.pools@[i],
                i,
                self.allocations@,
            ) by {
                lemma_active_on_push(old_allocs, a, i);
                assert(pool_wf(old_pools[i], i, old_allocs));
            }
            assert forall|j: int| 0 <= j < self.allocations@.len() implies allocation_wf(
                #[trigger] self.allocations@[j],
                j,
                self.pools@,
            ) by {
                if j < id {
                    assert(self.allocations@[j] == old_allocs[j]);
                    assert(allocation_wf(old_allocs[j], j, old_pools));
                }
            }
            assert(self.allocations@.drop_last() =~= old_allocs);
        }
        Ok(id)
    }

    /// Gives back allocation `id` on behalf of `tenant` at `now`. An allocation
    /// that is already terminal is left as it is and its status returned; an
    /// active one is closed, with a fine when it is past due, and its pool's
    /// counter decremented, together.
    pub fn release(&mut self, id: usize, tenant: &String, now: i64) -> (r: Result<
        AllocationStatus,
        LedgerError,
    >)
        requires
            old(self).wf(),
        ensures
            final(self).wf(),
            Allocator::release_post(*old(self), *final(self), id, tenant@, now, r),
    {
        if id >= self.allocations.len() || !(self.allocations[id].tenant == *tenant) {
            return Err(LedgerError::NotFound);
        }
        let status = self.allocations[id].status;
        if status != AllocationStatus::Active {
            return Ok(status);
        }
        let ghost old_pools = self.pools@;
        let ghost old_allocs = self.allocations@;
        let a = &self.allocations[id];
        let pool = a.pool;
        proof {
            assert(allocation_wf(old_allocs[id as int], id as int, old_pools));
            assert(pool_wf(old_pools[pool as int], pool as int, old_allocs));
        }
        let (closing, charged) = match a.due_at {
            Some(d) => if now > d {
                (AllocationStatus::ReleasedWithFine, fine(d, now, self.fine_rate))
            } else {
                (AllocationStatus::Released, fine(d, now, self.fine_rate))
            },
            None => (AllocationStatus::Released, 0u128),
        };
        let na = Allocation {
            id: a.id,
            pool: a.pool,
            subject: a.subject.clone(),
            tenant: a.tenant.clone(),
            status: closing,
            created_at: a.created_at,
            due_at: a.due_at,
            closed_at: Some(now),
            fine: charged,
        };
        proof {
            lemma_active_on_update(old_allocs, id as int, na, pool as int);
        }
        let p = &self.pools[pool];
        let np = Pool {
            id: p.id,
            tenant: p.tenant.clone(),
            label: p.label.clone(),
            capacity: p.capacity,
            used: p.used - 1,
        };
        self.pools.set(pool, np);
        self.allocations.set(id, na);
        proof {
            assert forall|i: int| 0 <= i < self.pools@.len() implies pool_wf(
                #[trigger] self.pools@[i],
                i,
                self.allocations@,
            ) by {
                lemma_active_on_update(old_allocs, id as int, na, i);
                assert(pool_wf(old_pools[i], i, old_allocs));
            }
            assert forall|j: int| 0 <= j < self.allocations@.len() implies allocation_wf(
                #[trigger] self.allocations@[j],
                j,
                self.pools@,
            ) by {
                assert(allocation_wf(old_allocs[j], j, old_pools));
            }
            assert(self.pools@ =~= old_pools.update(
                pool as int,
                (Pool { used: (old_pools[pool as int].used - 1) as u64, ..old_pools[pool as int] }),
            ));
        }
        Ok(closing)
    }

    /// Pool `id`, if it exists and belongs to `tenant`.
    pub fn pool(&self, id: usize, tenant: &String) -> (r: Result<Pool, LedgerError>)
        ensures
            self.pool_visible(id, tenant@) ==> r == Ok::<Pool, LedgerError>(self.pools()[id as int]),
            !self.pool_visible(id, tenant@) ==> r == Err::<Pool, LedgerError>(LedgerError::NotFound),
    {
        if id < self.pools.len() && self.pools[id].tenant == *tenant {
            Ok(self.pools[id].duplicate())
        } else {
            Err(LedgerError::NotFound)
        }
    }

    /// Allocation `id`, if it exists and belongs to `tenant`.
    pub fn allocation(&self, id: usize, tenant: &String) -> (r: Result<Allocation, LedgerError>)
        ensures
            self.allocation_visible(id, tenant@) ==> r == Ok::<Allocation, LedgerError>(
                self.allocations()[id as int],
            ),
            !self.allocation_visible(id, tenant@) ==> r == Err::<Allocation, LedgerError>(
                LedgerError::NotFound,
            ),
    {
        if id < self.allocations.len() && self.allocations[id].tenant == *tenant {
            Ok(self.allocations[id].duplicate())
        } else {
            Err(LedgerError::NotFound)
        }
    }

    /// The pools of `tenant`, in order of registration.
    pub fn pools_of(&self, tenant: &String) -> (r: Vec<Pool>)
        ensures
            r@ == self.pools().filter(|p: Pool| p.tenant@ == tenant@),
    {
        let ghost keep = |p: Pool| p.tenant@ == tenant@;
        let mut out: Vec<Pool> = Vec::new();
        let mut i: usize = 0;
        while i < self.pools.len()
            invariant
                i <= self.pools@.len(),
                out@ == self.pools@.subrange(0, i as int).filter(keep),
                keep == (|p: Pool| p.tenant@ == tenant@),
            decreases self.pools@.len() - i,
        {
            let ghost before = out@;
            if self.pools[i].tenant == *tenant {
                out.push(self.pools[i].duplicate());
            }
            proof {
                let next = self.pools@.subrange(0, i as int + 1);
                reveal(Seq::filter);
                assert(next.drop_last() =~= self.pools@.subrange(0, i as int));
                assert(next.last() == self.pools@[i as int]);
                assert(keep(next.last()) == (self.pools@[i as int].tenant@ == tenant@));
                assert(next.filter(keep) == if keep(next.last()) {
                    before.push(next.last())
                } else {
                    before
                });
                assert(out@ == next.filter(keep));
            }
            i = i + 1;
        }
        assert(self.pools@.subrange(0, i as int) =~= self.pools@);
        out
    }

    /// The allocations of `tenant`, in order of creation.
    pub fn allocations_of(&self, tenant: &String) -> (r: Vec<Allocation>)
        ensures
            r@ == self.allocations().filter(|a: Allocation| a.tenant@ == tenant@),
    {
        let ghost keep = |a: Allocation| a.tenant@ == tenant@;
        let mut out: Vec<Allocation> = Vec::new();
        let mut i: usize = 0;
        while i < self.allocations.len()
            invariant
                i <= self.allocations@.len(),
                out@ == self.allocations@.subrange(0, i as int).filter(keep),
                keep == (|a: Allocation| a.tenant@ == tenant@),
            decreases self.allocations@.len() - i,
        {
            let ghost before = out@;
            if self.allocations[i].tenant == *tenant {
                out.push(self.allocations[i].duplicate());
            }
            proof {
                let next = self.allocations@.subrange(0, i as int + 1);
                reveal(Seq::filter);
                assert(next.drop_last() =~= self.allocations@.subrange(0, i as int));
                assert(next.last() == self.allocations@[i as int]);
                assert(keep(next.last()) == (self.allocations@[i as int].tenant@ == tenant@));
                assert(next.filter(keep) == if keep(next.last()) {
                    before.push(next.last())
                } else {
                    before
                });
                assert(out@ == next.filter(keep));
            }
            i = i + 1;
        }
        assert(self.allocations@.subrange(0, i as int) =~= self.allocations@);
        out
    }
}

/// A pool's counter never exceeds its capacity, and equals the number of
/// active allocations on it.
pub proof fn lemma_used_within_capacity(ledger: Allocator, pool: usize)
    requires
        ledger.wf(),
        pool < ledger.pools().len(),
    ensures
        ledger.pools()[pool as int].used <= ledger.pools()[pool as int].capacity,
        ledger.pools()[pool as int].used == active_on(ledger.allocations(), pool as int),
{
    assert(pool_wf(ledger.pools@[pool as int], pool as int, ledger.allocations@));
}

/// Releasing an allocation a second time changes nothing and answers as the
/// first release did, so no pool counter is decremented twice.
pub proof fn lemma_release_twice(
    s0: Allocator,
    s1: Allocator,
    s2: Allocator,
    id: usize,
    tenant: Seq<char>,
    now1: i64,
    now2: i64,
    r1: Result<AllocationStatus, LedgerError>,
    r2: Result<AllocationStatus, LedgerError>,
)
    requires
        s0.wf(),
        Allocator::release_post(s0, s1, id, tenant, now1, r1),
        Allocator::release_post(s1, s2, id, tenant, now2, r2),
    ensures
        s2 == s1,
        r2 == r1,
        s2.pools().len() == s0.pools().len(),
        forall|p: int| 0 <= p < s0.pools().len() ==> #[trigger] s2.pools()[p].used + 1 >= s0.pools()[p].used,
{
}

/// An allocation request against a pool of another tenant gets the answer
/// that an id naming no pool gets: `NotFound`, with nothing changed.
pub proof fn lemma_allocate_foreign_pool(
    old: Allocator,
    new: Allocator,
    pool: usize,
    subject: Seq<char>,
    tenant: Seq<char>,
    now: i64,
    due: Option<i64>,
    r: Result<usize, LedgerError>,
)
    requires
        pool < old.pools().len(),
        old.pools()[pool as int].tenant@ != tenant,
        Allocator::allocate_post(old, new, pool, subject, tenant, now, due, r),
    ensures
        r == Err::<usize, LedgerError>(LedgerError::NotFound),
        new == old,
        !old.pool_visible(pool, tenant),
{
}

/// A release of another tenant's allocation gets the answer that an id naming
/// no allocation gets: `NotFound`, with nothing changed.
pub proof fn lemma_release_foreign_allocation(
    old: Allocator,
    new: Allocator,
    id: usize,
    tenant: Seq<char>,
    now: i64,
    r: Result<AllocationStatus, LedgerError>,
)
    requires
        id < old.allocations().len(),
        old.allocations()[id as int].tenant@ != tenant,
        Allocator::release_post(old, new, id, tenant, now, r),
    ensures
        r == Err::<AllocationStatus, LedgerError>(LedgerError::NotFound),
        new == old,
        !old.allocation_visible(id, tenant),
{
}

/// Number of successes in `rs`.
pub open spec fn count_ok<T>(rs: Seq<Result<T, LedgerError>>) -> nat
    decreases rs.len(),
{
    if rs.len() == 0 {
        0
    } else {
        count_ok(rs.drop_last()) + if rs.last() is Ok {
            1nat
        } else {
            0nat
        }
    }
}

/// Number of failures with error `e` in `rs`.
pub open spec fn count_err<T>(rs: Seq<Result<T, LedgerError>>, e: LedgerError) -> nat
    decreases rs.len(),
{
    if rs.len() == 0 {
        0
    } else {
        count_err(rs.drop_last(), e) + if rs.last() == Err::<T, LedgerError>(e) {
            1nat
        } else {
            0nat
        }
    }
}

/// The smaller of `a` and `b`.
pub open spec fn min_nat(a: nat, b: nat) -> nat {
    if a <= b {
        a
    } else {
        b
    }
}

proof fn lemma_active_on_covers(allocs: Seq<Allocation>, pool: int, j: int)
    requires
        0 <= j < allocs.len(),
    ensures
        active_on(allocs, pool) >= holds_unit(allocs[j], pool),
    decreases allocs.len(),
{
    if j < allocs.len() - 1 {
        lemma_active_on_covers(allocs.drop_last(), pool, j);
        assert(allocs.drop_last()[j] == allocs[j]);
    }
}

/// The facts that hold after the first `k` requests of a run of allocation
/// requests by distinct subjects on one pool that starts with no unit in use.
proof fn lemma_capacity_run_prefix(
    states: Seq<Allocator>,
    results: Seq<Result<usize, LedgerError>>,
    pool: usize,
    subjects: Seq<Seq<char>>,
    tenant: Seq<char>,
    nows: Seq<i64>,
    dues: Seq<Option<i64>>,
    k: int,
)
    requires
        states.len() == results.len() + 1,
        subjects.len() == results.len(),
        nows.len() == results.len(),
        dues.len() == results.len(),
        forall|i: int| 0 <= i < states.len() ==> (#[trigger] states[i]).wf(),
        states[0].pool_visible(pool, tenant),
        states[0].pools()[pool as int].used == 0,
        forall|a: int, b: int| 0 <= a < b < subjects.len() ==> subjects[a] != subjects[b],
        forall|i: int|
            0 <= i < results.len() ==> Allocator::allocate_post(
                #[trigger] states[i],
                states[i + 1],
                pool,
                subjects[i],
                tenant,
                nows[i],
                dues[i],
                results[i],
            ),
        0 <= k <= results.len(),
    ensures
        states[k].pool_visible(pool, tenant),
        states[k].pools()[pool as int].capacity == states[0].pools()[pool as int].capacity,
        states[k].pools()[pool as int].used == min_nat(
            k as nat,
            states[0].pools()[pool as int].capacity as nat,
        ),
        count_ok(results.take(k)) == min_nat(k as nat, states[0].pools()[pool as int].capacity as nat),
        count_err(results.take(k), LedgerError::CapacityExceeded) + min_nat(
            k as nat,
            states[0].pools()[pool as int].capacity as nat,
        ) == k,
        forall|m: int| k <= m < subjects.len() ==> !states[k].holds_active(pool, #[trigger] subjects[m]),
    decreases k,
{
    let c = states[0].pools()[pool as int].capacity as nat;
    if k == 0 {
        let s = states[0];
        lemma_used_within_capacity(s, pool);
        assert forall|m: int| 0 <= m < subjects.len() implies !s.holds_active(
            pool,
            #[trigger] subjects[m],
        ) by {
            if s.holds_active(pool, subjects[m]) {
                let w = choose|w: int|
                    0 <= w < s.allocations().len() && #[trigger] s.allocations()[w].pool == pool
                        && s.allocations()[w].subject@ == subjects[m] && s.allocations()[w].status
                        == AllocationStatus::Active;
                lemma_active_on_covers(s.allocations(), pool as int, w);
            }
        }
        assert(results.take(0) =~= Seq::<Result<usize, LedgerError>>::empty());
    } else {
        let j = k - 1;
        lemma_capacity_run_prefix(states, results, pool, subjects, tenant, nows, dues, j);
        let old = states[j];
        let new = states[k];
        assert(Allocator::allocate_post(
            states[j],
            states[j + 1],
            pool,
            subjects[j],
            tenant,
            nows[j],
            dues[j],
            results[j],
        ));
        assert(results.take(k).drop_last() =~= results.take(j));
        assert(results.take(k).last() == results[j]);
        if old.pools()[pool as int].used == old.pools()[pool as int].capacity {
            assert(new == old);
        } else {
            assert(!old.holds_active(pool, subjects[j]));
            assert(new.allocations().drop_last() == old.allocations());
            assert forall|m: int| k <= m < subjects.len() implies !new.holds_active(
                pool,
                #[trigger] subjects[m],
            ) by {
                if new.holds_active(pool, subjects[m]) {
                    let w = choose|w: int|
                        0 <= w < new.allocations().len() && #[trigger] new.allocations()[w].pool
                            == pool && new.allocations()[w].subject@ == subjects[m]
                            && new.allocations()[w].status == AllocationStatus::Active;
                    if w < old.allocations().len() {
                        assert(new.allocations()[w] == old.allocations()[w]);
                        assert(!old.holds_active(pool, subjects[m]));
                    } else {
                        assert(subjects[j] != subjects[m]);
                    }
                }
            }
        }
    }
}

/// Allocation requests by distinct subjects against one pool of capacity `C`
/// with no unit in use, each applied as one atomic step: of `N` requests
/// exactly `min(N, C)` succeed and the others fail with `CapacityExceeded`,
/// and the pool's counter never exceeds `C` along the way.
pub proof fn lemma_capacity_run(
    states: Seq<Allocator>,
    results: Seq<Result<usize, LedgerError>>,
    pool: usize,
    subjects: Seq<Seq<char>>,
    tenant: Seq<char>,
    nows: Seq<i64>,
    dues: Seq<Option<i64>>,
)
    requires
        states.len() == results.len() + 1,
        subjects.len() == results.len(),
        nows.len() == results.len(),
        dues.len() == results.len(),
        forall|i: int| 0 <= i < states.len() ==> (#[trigger] states[i]).wf(),
        states[0].pool_visible(pool, tenant),
        states[0].pools()[pool as int].used == 0,
        forall|a: int, b: int| 0 <= a < b < subjects.len() ==> subjects[a] != subjects[b],
        forall|i: int|
            0 <= i < results.len() ==> Allocator::allocate_post(
                #[trigger] states[i],
                states[i + 1],
                pool,
                subjects[i],
                tenant,
                nows[i],
                dues[i],
                results[i],
            ),
    ensures
        count_ok(results) == min_nat(results.len(), states[0].pools()[pool as int].capacity as nat),
        count_err(results, LedgerError::CapacityExceeded) == results.len() - min_nat(
            results.len(),
            states[0].pools()[pool as int].capacity as nat,
        ),
        forall|i: int|
            0 <= i < states.len() ==> (#[trigger] states[i]).pools()[pool as int].used
                <= states[0].pools()[pool as int].capacity,
{
    let n = results.len() as int;
    lemma_capacity_run_prefix(states, results, pool, subjects, tenant, nows, dues, n);
    assert(results.take(n) =~= results);
    assert forall|i: int| 0 <= i < states.len() implies (#[trigger] states[i]).pools()[pool as int].used
        <= states[0].pools()[pool as int].capacity by {
        lemma_capacity_run_prefix(states, results, pool, subjects, tenant, nows, dues, i);
    }
}

} // verus!
