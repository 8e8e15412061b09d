use campus_ledger::allocator::{AllocationStatus, Allocator};
use campus_ledger::amount::{DEFAULT_FINE_RATE, MILLIS_PER_DAY};
use campus_ledger::error::LedgerError;

const NOW: i64 = 1_700_000_000_000;

fn s(text: &str) -> String {
    text.to_string()
}

#[test]
fn allocations_beyond_capacity_are_refused() {
    let mut ledger = Allocator::new(DEFAULT_FINE_RATE);
    let tenant = s("north");
    let room = ledger.register_pool(&tenant, &s("A-101"), 3).unwrap();
    let mut ok = 0;
    let mut full = 0;
    for k in 0..5 {
        match ledger.allocate(room, &format!("student-{}", k), &tenant, NOW, None) {
            Ok(_) => ok += 1,
            Err(LedgerError::CapacityExceeded) => full += 1,
            Err(e) => panic!("unexpected {:?}", e),
        }
        let p = ledger.pool(room, &tenant).unwrap();
        assert!(p.used <= p.capacity);
    }
    assert_eq!(ok, 3);
    assert_eq!(full, 2);
    assert_eq!(ledger.pool(room, &tenant).unwrap().used, 3);
}

#[test]
fn a_pool_needs_a_positive_capacity() {
    let mut ledger = Allocator::new(DEFAULT_FINE_RATE);
    assert_eq!(ledger.register_pool(&s("north"), &s("empty"), 0), Err(LedgerError::Validation));
    assert!(ledger.pools_of(&s("north")).is_empty());
}

#[test]
fn a_subject_holds_one_active_allocation_per_pool() {
    let mut ledger = Allocator::new(DEFAULT_FINE_RATE);
    let tenant = s("north");
    let room = ledger.register_pool(&tenant, &s("A-102"), 2).unwrap();
    let first = ledger.allocate(room, &s("ana"), &tenant, NOW, None).unwrap();
    assert_eq!(
        ledger.allocate(room, &s("ana"), &tenant, NOW, None),
        Err(LedgerError::DuplicateAllocation)
    );
    assert_eq!(ledger.pool(room, &tenant).unwrap().used, 1);
    assert_eq!(ledger.release(first, &tenant, NOW), Ok(AllocationStatus::Released));
    assert!(ledger.allocate(room, &s("ana"), &tenant, NOW, None).is_ok());
}

#[test]
fn releasing_twice_decrements_once() {
    let mut ledger = Allocator::new(DEFAULT_FINE_RATE);
    let tenant = s("north");
    let room = ledger.register_pool(&tenant, &s("A-103"), 2).unwrap();
    let a = ledger.allocate(room, &s("ana"), &tenant, NOW, None).unwrap();
    ledger.allocate(room, &s("ben"), &tenant, NOW, None).unwrap();
    assert_eq!(ledger.pool(room, &tenant).unwrap().used, 2);
    assert_eq!(ledger.release(a, &tenant, NOW), Ok(AllocationStatus::Released));
    assert_eq!(ledger.pool(room, &tenant).unwrap().used, 1);
    assert_eq!(ledger.release(a, &tenant, NOW + 10), Ok(AllocationStatus::Released));
    assert_eq!(ledger.pool(room, &tenant).unwrap().used, 1);
    let record = ledger.allocation(a, &tenant).unwrap();
    assert_eq!(record.closed_at, Some(NOW));
}

#[test]
fn a_late_return_is_fined() {
    let mut ledger = Allocator::new(DEFAULT_FINE_RATE);
    let tenant = s("north");
    let book = ledger.register_pool(&tenant, &s("978-0131103627"), 1).unwrap();
    let due = NOW + 14 * MILLIS_PER_DAY;
    let issue = ledger.allocate(book, &s("ana"), &tenant, NOW, Some(due)).unwrap();
    assert_eq!(
        ledger.allocate(book, &s("ben"), &tenant, NOW, Some(due)),
        Err(LedgerError::CapacityExceeded)
    );
    let back = due + 3 * MILLIS_PER_DAY + 1000;
    assert_eq!(ledger.release(issue, &tenant, back), Ok(AllocationStatus::ReleasedWithFine));
    let record = ledger.allocation(issue, &tenant).unwrap();
    assert_eq!(record.fine, 15);
    assert_eq!(record.status, AllocationStatus::ReleasedWithFine);
    assert_eq!(record.closed_at, Some(back));
    assert_eq!(ledger.pool(book, &tenant).unwrap().used, 0);
}

#[test]
fn an_early_return_is_not_fined() {
    let mut ledger = Allocator::new(7);
    let tenant = s("north");
    let book = ledger.register_pool(&tenant, &s("978-0262033848"), 2).unwrap();
    let due = NOW + 14 * MILLIS_PER_DAY;
    let issue = ledger.allocate(book, &s("ana"), &tenant, NOW, Some(due)).unwrap();
    assert_eq!(ledger.release(issue, &tenant, due), Ok(AllocationStatus::Released));
    let record = ledger.allocation(issue, &tenant).unwrap();
    assert_eq!(record.fine, 0);
    assert_eq!(record.due_at, Some(due));
}

#[test]
fn another_tenants_pool_looks_absent() {
    let mut ledger = Allocator::new(DEFAULT_FINE_RATE);
    let room = ledger.register_pool(&s("north"), &s("A-104"), 1).unwrap();
    let foreign = ledger.allocate(room, &s("ana"), &s("south"), NOW, None);
    let absent = ledger.allocate(room + 1, &s("ana"), &s("south"), NOW, None);
    assert_eq!(foreign, Err(LedgerError::NotFound));
    assert_eq!(foreign, absent);
    assert_eq!(ledger.pool(room, &s("north")).unwrap().used, 0);
    assert!(ledger.pool(room, &s("south")).is_err());
    assert!(ledger.allocations_of(&s("south")).is_empty());
}

#[test]
fn another_tenants_allocation_cannot_be_released() {
    let mut ledger = Allocator::new(DEFAULT_FINE_RATE);
    let room = ledger.register_pool(&s("north"), &s("A-105"), 1).unwrap();
    let a = ledger.allocate(room, &s("ana"), &s("north"), NOW, None).unwrap();
    assert_eq!(ledger.release(a, &s("south"), NOW), Err(LedgerError::NotFound));
    assert_eq!(ledger.release(a + 1, &s("south"), NOW), Err(LedgerError::NotFound));
    assert_eq!(ledger.pool(room, &s("north")).unwrap().used, 1);
    assert_eq!(ledger.allocation(a, &s("north")).unwrap().status, AllocationStatus::Active);
}

#[test]
fn lists_hold_only_the_tenants_own_entries() {
    let mut ledger = Allocator::new(DEFAULT_FINE_RATE);
    let n1 = ledger.register_pool(&s("north"), &s("A-1"), 1).unwrap();
    ledger.register_pool(&s("south"), &s("B-1"), 1).unwrap();
    let n2 = ledger.register_pool(&s("north"), &s("A-2"), 4).unwrap();
    let pools = ledger.pools_of(&s("north"));
    assert_eq!(pools.len(), 2);
    assert_eq!(pools[0].id, n1);
    assert_eq!(pools[1].id, n2);
    assert_eq!(pools[1].label, "A-2");
    assert_eq!(pools[1].capacity, 4);
    ledger.allocate(n2, &s("ana"), &s("north"), NOW, None).unwrap();
    let held = ledger.allocations_of(&s("north"));
    assert_eq!(held.len(), 1);
    assert_eq!(held[0].subject, "ana");
    assert_eq!(held[0].pool, n2);
    assert_eq!(held[0].created_at, NOW);
}

#[test]
fn free_units_follow_allocations() {
    let mut ledger = Allocator::new(DEFAULT_FINE_RATE);
    let tenant = s("north");
    let book = ledger.register_pool(&tenant, &s("978-1593278281"), 4).unwrap();
    assert_eq!(ledger.pool(book, &tenant).unwrap().free(), 4);
    let a = ledger.allocate(book, &s("ana"), &tenant, NOW, None).unwrap();
    assert_eq!(ledger.pool(book, &tenant).unwrap().free(), 3);
    ledger.release(a, &tenant, NOW).unwrap();
    assert_eq!(ledger.pool(book, &tenant).unwrap().free(), 4);
}
