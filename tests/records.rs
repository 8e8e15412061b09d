use campus_ledger::error::LedgerError;
use campus_ledger::records::{may_transition, RecordKind, RecordLedger, Settlement, Status};

const NOW: i64 = 1_700_000_000_000;

fn s(text: &str) -> String {
    text.to_string()
}

#[test]
fn approving_twice_succeeds_and_rejecting_after_fails() {
    let mut ledger = RecordLedger::new();
    let tenant = s("north");
    let id = ledger.create(RecordKind::Leave, &s("emp-7"), &tenant, 0, &s("sick"), NOW);
    assert_eq!(ledger.record(id, &tenant).unwrap().status, Status::Pending);
    assert_eq!(ledger.transition(id, Status::Approved, &tenant), Ok(Status::Approved));
    assert_eq!(ledger.transition(id, Status::Approved, &tenant), Ok(Status::Approved));
    assert_eq!(ledger.record(id, &tenant).unwrap().status, Status::Approved);
    assert_eq!(
        ledger.transition(id, Status::Rejected, &tenant),
        Err(LedgerError::InvalidTransition)
    );
    assert_eq!(ledger.record(id, &tenant).unwrap().status, Status::Approved);
}

#[test]
fn a_pending_leave_cannot_be_paid() {
    let mut ledger = RecordLedger::new();
    let tenant = s("north");
    let id = ledger.create(RecordKind::Leave, &s("emp-7"), &tenant, 0, &s("casual"), NOW);
    assert_eq!(ledger.transition(id, Status::Paid, &tenant), Err(LedgerError::InvalidTransition));
    assert_eq!(ledger.transition(id, Status::Rejected, &tenant), Ok(Status::Rejected));
    assert_eq!(ledger.transition(id, Status::Pending, &tenant), Err(LedgerError::InvalidTransition));
}

#[test]
fn transition_graph_edges() {
    assert!(may_transition(RecordKind::Leave, Status::Pending, Status::Approved));
    assert!(may_transition(RecordKind::Leave, Status::Pending, Status::Rejected));
    assert!(!may_transition(RecordKind::Leave, Status::Approved, Status::Rejected));
    assert!(may_transition(RecordKind::Fee, Status::Pending, Status::Paid));
    assert!(!may_transition(RecordKind::Fee, Status::Pending, Status::Approved));
    assert!(may_transition(RecordKind::Payroll, Status::Pending, Status::Paid));
    assert!(!may_transition(RecordKind::Payroll, Status::Paid, Status::Pending));
}

#[test]
fn another_tenants_record_looks_absent() {
    let mut ledger = RecordLedger::new();
    let id = ledger.create(RecordKind::Leave, &s("emp-7"), &s("north"), 0, &s("sick"), NOW);
    let foreign = ledger.transition(id, Status::Approved, &s("south"));
    let absent = ledger.transition(id + 1, Status::Approved, &s("south"));
    assert_eq!(foreign, Err(LedgerError::NotFound));
    assert_eq!(foreign, absent);
    assert_eq!(ledger.record(id, &s("north")).unwrap().status, Status::Pending);
    assert!(ledger.record(id, &s("south")).is_err());
}

#[test]
fn a_payment_settles_its_fee_once() {
    let mut ledger = RecordLedger::new();
    let tenant = s("north");
    let fee = ledger.create(RecordKind::Fee, &s("stu-1"), &tenant, 1500, &s("tuition"), NOW);
    let first = ledger.settle_fee(fee, &s("stu-1"), &tenant, 1500, &s("card"), &s("tx-1"), NOW);
    assert_eq!(first, Ok(Settlement::Settled(0)));
    assert_eq!(ledger.record(fee, &tenant).unwrap().status, Status::Paid);
    let again = ledger.settle_fee(fee, &s("stu-1"), &tenant, 1500, &s("card"), &s("tx-1"), NOW + 5);
    assert_eq!(again, Ok(Settlement::AlreadyPaid));
    let payments = ledger.payments_of(&tenant);
    assert_eq!(payments.len(), 1);
    assert_eq!(payments[0].fee, fee);
    assert_eq!(payments[0].amount, 1500);
    assert_eq!(payments[0].reference, "tx-1");
}

#[test]
fn a_payment_needs_a_fee_of_the_same_tenant() {
    let mut ledger = RecordLedger::new();
    let fee = ledger.create(RecordKind::Fee, &s("stu-1"), &s("north"), 900, &s("hostel"), NOW);
    let leave = ledger.create(RecordKind::Leave, &s("emp-1"), &s("north"), 0, &s("sick"), NOW);
    let r = ledger.settle_fee(fee, &s("stu-1"), &s("south"), 900, &s("upi"), &s("tx-2"), NOW);
    assert_eq!(r, Err(LedgerError::NotFound));
    let r = ledger.settle_fee(leave, &s("emp-1"), &s("north"), 900, &s("upi"), &s("tx-3"), NOW);
    assert_eq!(r, Err(LedgerError::NotFound));
    assert_eq!(ledger.record(fee, &s("north")).unwrap().status, Status::Pending);
    assert!(ledger.payments_of(&s("north")).is_empty());
    assert!(ledger.payments_of(&s("south")).is_empty());
}

#[test]
fn payroll_uses_the_staff_salary() {
    let mut ledger = RecordLedger::new();
    let tenant = s("north");
    ledger.add_staff(&s("emp-9"), &tenant, &s("Dana"), 5000);
    let id = ledger.create_payroll(&s("emp-9"), &tenant, 200, 150, &s("2024-05"), NOW).unwrap();
    let entry = ledger.record(id, &tenant).unwrap();
    assert_eq!(entry.kind, RecordKind::Payroll);
    assert_eq!(entry.amount, 5050);
    assert_eq!(entry.status, Status::Pending);
    assert_eq!(entry.note, "2024-05");
    assert_eq!(ledger.transition(id, Status::Paid, &tenant), Ok(Status::Paid));
}

#[test]
fn payroll_may_be_negative() {
    let mut ledger = RecordLedger::new();
    let tenant = s("north");
    ledger.add_staff(&s("emp-3"), &tenant, &s("Eli"), 3000);
    let id = ledger.create_payroll(&s("emp-3"), &tenant, 0, 3500, &s("2024-06"), NOW).unwrap();
    assert_eq!(ledger.record(id, &tenant).unwrap().amount, -500);
}

#[test]
fn payroll_needs_staff_of_the_same_tenant() {
    let mut ledger = RecordLedger::new();
    ledger.add_staff(&s("emp-9"), &s("north"), &s("Dana"), 5000);
    assert_eq!(
        ledger.create_payroll(&s("emp-9"), &s("south"), 0, 0, &s("2024-05"), NOW),
        Err(LedgerError::NotFound)
    );
    assert_eq!(
        ledger.create_payroll(&s("emp-0"), &s("north"), 0, 0, &s("2024-05"), NOW),
        Err(LedgerError::NotFound)
    );
    assert!(ledger.records_of(RecordKind::Payroll, &s("north")).is_empty());
}

#[test]
fn record_lists_are_scoped_by_kind_and_tenant() {
    let mut ledger = RecordLedger::new();
    ledger.create(RecordKind::Leave, &s("emp-1"), &s("north"), 0, &s("sick"), NOW);
    ledger.create(RecordKind::Fee, &s("stu-1"), &s("north"), 100, &s("misc"), NOW);
    ledger.create(RecordKind::Leave, &s("emp-2"), &s("south"), 0, &s("sick"), NOW);
    ledger.create(RecordKind::Leave, &s("emp-3"), &s("north"), 0, &s("vacation"), NOW);
    let leaves = ledger.records_of(RecordKind::Leave, &s("north"));
    assert_eq!(leaves.len(), 2);
    assert_eq!(leaves[0].subject, "emp-1");
    assert_eq!(leaves[1].subject, "emp-3");
    assert_eq!(leaves[1].id, 3);
}
