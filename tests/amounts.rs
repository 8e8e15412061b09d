use campus_ledger::amount::{
    days_elapsed, due_after, fine, invoice_total, net_salary, InvoiceItem, DEFAULT_FINE_RATE,
    MILLIS_PER_DAY,
};
use campus_ledger::error::LedgerError;

const D: i64 = 1_700_000_000_000;

#[test]
fn fine_is_zero_on_the_due_instant() {
    assert_eq!(fine(D, D, 5), 0);
}

#[test]
fn fine_counts_three_overdue_days() {
    assert_eq!(fine(D, D + 3 * MILLIS_PER_DAY, 5), 15);
}

#[test]
fn fine_is_zero_before_the_due_instant() {
    assert_eq!(fine(D, D - MILLIS_PER_DAY, 5), 0);
}

#[test]
fn fine_drops_partial_days() {
    assert_eq!(fine(D, D + 3 * MILLIS_PER_DAY + MILLIS_PER_DAY / 2, DEFAULT_FINE_RATE), 15);
    assert_eq!(fine(D, D + MILLIS_PER_DAY - 1, DEFAULT_FINE_RATE), 0);
}

#[test]
fn fine_does_not_overflow_at_the_extremes() {
    let days = days_elapsed(i64::MIN, i64::MAX);
    assert_eq!(days, u64::MAX / 86_400_000);
    assert_eq!(fine(i64::MIN, i64::MAX, u64::MAX), days as u128 * u64::MAX as u128);
}

#[test]
fn net_salary_adds_allowances_and_subtracts_deductions() {
    assert_eq!(net_salary(5000, 200, 150), 5050);
}

#[test]
fn net_salary_may_be_negative() {
    assert_eq!(net_salary(3000, 0, 3500), -500);
}

#[test]
fn net_salary_at_the_extremes() {
    assert_eq!(
        net_salary(i64::MAX, i64::MAX, i64::MIN),
        3 * (i64::MAX as i128) + 1
    );
}

#[test]
fn invoice_total_sums_item_amounts() {
    let items = vec![
        InvoiceItem { description: "tuition".to_string(), amount: 1200 },
        InvoiceItem { description: "library".to_string(), amount: 35 },
        InvoiceItem { description: "refund".to_string(), amount: -100 },
    ];
    assert_eq!(invoice_total(&items), 1135);
}

#[test]
fn invoice_total_of_no_items_is_zero() {
    assert_eq!(invoice_total(&Vec::new()), 0);
}

#[test]
fn due_after_adds_whole_days() {
    assert_eq!(due_after(D, 14), Ok(D + 14 * MILLIS_PER_DAY));
    assert_eq!(due_after(D, 0), Ok(D));
}

#[test]
fn due_after_refuses_unrepresentable_instants() {
    assert_eq!(due_after(i64::MAX, 1), Err(LedgerError::Validation));
    assert_eq!(due_after(0, i64::MIN), Err(LedgerError::Validation));
}
